//! The syntax tree of the language.
use std::collections::HashMap;
use vstd::prelude::*;

use crate::lexer::{Span, Token};

verus! {

/// The declared parameters of a function, by name.
pub type ParameterList = HashMap<String, Type>;

type WithSpan<T> = (T, Span);

/// The types that values of the language can have.
#[derive(Debug)]
pub enum Type {
    Any,
    Interface(String),
    Object,
    Function { parameters: Vec<Type>, return_type: Box<Type> },
    Matrix { width: usize, height: usize },
    String,
    Null,
    Integer,
    Float,
}

/// A statement.
#[derive(Debug)]
pub enum Stat {
    Expression(Expr),
    Assignment(Assignment),
    Return(Return),
}

/// A `return` statement, with the value it returns, if any.
#[derive(Debug)]
pub struct Return {
    expr: Option<Expr>,
}

/// An assignment of a value to a path.
#[derive(Debug)]
pub struct Assignment {
    target: Path,
    value: Expr,
}

impl Assignment {
    pub closed spec fn spec_new_stat(target: Path, value: Expr) -> Stat {
        Stat::Assignment(Assignment { target, value })
    }

    /// The path assigned to.
    pub closed spec fn target(&self) -> Path {
        self.target
    }

    /// The value assigned.
    pub closed spec fn value(&self) -> Expr {
        self.value
    }

    /// A new assignment statement holds the target and the value it was made from.
    pub proof fn lemma_new_stat(target: Path, value: Expr)
        ensures
            Assignment::spec_new_stat(target, value) matches Stat::Assignment(a) && a.target() == target
                && a.value() == value,
    {
    }

    /// The statement that assigns `value` to `target`.
    #[verifier::when_used_as_spec(spec_new_stat)]
    pub fn new_stat(target: Path, value: Expr) -> (res: Stat)
        ensures
            res == Assignment::spec_new_stat(target, value),
            res matches Stat::Assignment(a) && a.target() == target && a.value() == value,
    {
        Stat::Assignment(Assignment { target, value })
    }
}

/// An expression.
#[derive(Debug)]
pub enum Expr {
    Identifier(Identifier),
    Number(Number),
    SubAccess(SubAccess),
    Call(Call),
    NewObject(NewObject),
    Function(Function),
    Binary(Binary),
    Path(Path),
}

/// A name that refers to a variable, with its span.
#[derive(Debug)]
pub struct Identifier {
    ident: WithSpan<String>,
}

impl Identifier {
    pub closed spec fn spec_new_expr(tok: WithSpan<String>) -> Expr {
        Expr::Identifier(Identifier { ident: tok })
    }

    /// The name, with its span.
    pub closed spec fn ident(&self) -> WithSpan<String> {
        self.ident
    }

    /// A new identifier expression holds the name and span it was made from.
    pub proof fn lemma_new_expr(tok: WithSpan<String>)
        ensures
            Identifier::spec_new_expr(tok) matches Expr::Identifier(i) && i.ident() == tok,
    {
    }

    /// The expression that refers to the variable named in `tok`.
    #[verifier::when_used_as_spec(spec_new_expr)]
    pub fn new_expr(tok: WithSpan<String>) -> (res: Expr)
        ensures
            res == Identifier::spec_new_expr(tok),
            res matches Expr::Identifier(i) && i.ident() == tok,
    {
        Expr::Identifier(Identifier { ident: tok })
    }
}

/// An operator applied to two operands.
#[derive(Debug)]
pub struct Binary {
    lhs: Box<Expr>,
    rhs: Box<Expr>,
    op: Token,
}

impl Binary {
    pub closed spec fn spec_new_expr(lhs: Expr, rhs: Expr, op: Token) -> Expr {
        Expr::Binary(Binary { lhs: Box::new(lhs), rhs: Box::new(rhs), op })
    }

    /// The left operand.
    pub closed spec fn left(&self) -> Expr {
        *self.lhs
    }

    /// The right operand.
    pub closed spec fn right(&self) -> Expr {
        *self.rhs
    }

    /// A new binary expression holds the operands and the operator it was made from.
    pub proof fn lemma_new_expr(lhs: Expr, rhs: Expr, op: Token)
        ensures
            Binary::spec_new_expr(lhs, rhs, op) matches Expr::Binary(b) && b.left() == lhs && b.right() == rhs
                && b.operator() == op,
    {
    }

    /// The expression that applies the operator token `op` to `lhs` and `rhs`.
    #[verifier::when_used_as_spec(spec_new_expr)]
    pub fn new_expr(lhs: Expr, rhs: Expr, op: Token) -> (res: Expr)
        ensures
            res == Binary::spec_new_expr(lhs, rhs, op),
            res matches Expr::Binary(b) && b.left() == lhs && b.right() == rhs && b.operator() == op,
    {
        Expr::Binary(Binary { lhs: Box::new(lhs), rhs: Box::new(rhs), op })
    }

    /// The operator token.
    pub closed spec fn operator(&self) -> Token {
        self.op
    }

    /// A copy of the operator token.
    pub fn op(&self) -> (res: Token)
        ensures
            res == self.operator(),
    {
        (self.op.0.clone(), self.op.1)
    }
}

/// A number literal: the digits of its text, with its span.
#[derive(Debug)]
pub struct Number {
    number: WithSpan<String>,
}

impl Number {
    pub closed spec fn spec_new_expr(number: WithSpan<String>) -> Expr {
        Expr::Number(Number { number })
    }

    /// The text of the literal, with its span.
    pub closed spec fn literal(&self) -> WithSpan<String> {
        self.number
    }

    /// A new number expression holds the text and span it was made from.
    pub proof fn lemma_new_expr(number: WithSpan<String>)
        ensures
            Number::spec_new_expr(number) matches Expr::Number(n) && n.literal() == number,
    {
    }

    /// The expression for the number literal whose text is `number`.
    #[verifier::when_used_as_spec(spec_new_expr)]
    pub fn new_expr(number: WithSpan<String>) -> (res: Expr)
        ensures
            res == Number::spec_new_expr(number),
            res matches Expr::Number(n) && n.literal() == number,
    {
        Expr::Number(Number { number })
    }
}

/// A dotted path of names, with its span.
#[derive(Debug)]
pub struct Path {
    elements: WithSpan<Vec<String>>,
}

impl Path {
    pub closed spec fn spec_new_expr(elements: WithSpan<Vec<String>>) -> Expr {
        Expr::Path(Path { elements })
    }

    /// The names of the path, with its span.
    pub closed spec fn parts(&self) -> (Seq<String>, Span) {
        (self.elements.0@, self.elements.1)
    }

    /// A new path expression holds the names and span it was made from.
    pub proof fn lemma_new_expr(elements: WithSpan<Vec<String>>)
        ensures
            Path::spec_new_expr(elements) matches Expr::Path(p) && p.parts() == (elements.0@, elements.1),
    {
    }

    /// The expression for the path `elements`.
    #[verifier::when_used_as_spec(spec_new_expr)]
    pub fn new_expr(elements: WithSpan<Vec<String>>) -> (res: Expr)
        ensures
            res == Path::spec_new_expr(elements),
            res matches Expr::Path(p) && p.parts() == (elements.0@, elements.1),
    {
        Expr::Path(Path { elements })
    }
}

/// A call of a function with arguments.
#[derive(Debug)]
pub struct Call {
    target: Box<Expr>,
    arguments: Vec<Expr>,
}

/// Access to a member of a value.
#[derive(Debug)]
pub struct SubAccess {
    target: Box<Expr>,
    name: Token,
}

/// A new object: a basis extended with named members.
#[derive(Debug)]
pub struct NewObject {
    basis: Box<Expr>,
    extensions: HashMap<String, Expr>,
}

/// A function literal.
#[derive(Debug)]
pub struct Function {
    parameters: ParameterList,
    return_type: Type,
    body: Vec<Stat>,
}

impl Clone for Identifier {
    fn clone(&self) -> (res: Self)
        ensures
            res == *self,
    {
        Identifier { ident: (self.ident.0.clone(), self.ident.1) }
    }
}

impl Clone for Number {
    fn clone(&self) -> (res: Self)
        ensures
            res == *self,
    {
        Number { number: (self.number.0.clone(), self.number.1) }
    }
}

impl Clone for Path {
    fn clone(&self) -> (res: Self)
        ensures
            res.parts() == self.parts(),
    {
        Path { elements: (self.elements.0.clone(), self.elements.1) }
    }
}

/// The value of a [`Type`]: the same tree, with names as sequences of characters.
pub enum TypeView {
    Any,
    Interface(Seq<char>),
    Object,
    Function(Seq<TypeView>, Box<TypeView>),
    Matrix(usize, usize),
    String,
    Null,
    Integer,
    Float,
}

impl Type {
    /// The value of this type.
    pub closed spec fn shape(&self) -> TypeView
        decreases self, 0int,
    {
        match self {
            Type::Any => TypeView::Any,
            Type::Interface(s) => TypeView::Interface(s@),
            Type::Object => TypeView::Object,
            Type::Function { parameters, return_type } => TypeView::Function(
                Type::shapes(parameters@),
                Box::new(return_type.shape()),
            ),
            Type::Matrix { width, height } => TypeView::Matrix(*width, *height),
            Type::String => TypeView::String,
            Type::Null => TypeView::Null,
            Type::Integer => TypeView::Integer,
            Type::Float => TypeView::Float,
        }
    }

    /// The values of a sequence of types, in order.
    pub closed spec fn shapes(ts: Seq<Type>) -> Seq<TypeView>
        decreases ts, 1int,
    {
        if ts.len() == 0 {
            Seq::empty()
        } else {
            seq![ts[0].shape()] + Type::shapes(ts.drop_first())
        }
    }

    /// The values of a sequence of types are those of its elements, in order.
    pub proof fn lemma_shapes(ts: Seq<Type>)
        ensures
            Type::shapes(ts).len() == ts.len(),
            forall|k: int| 0 <= k < ts.len() ==> #[trigger] Type::shapes(ts)[k] == ts[k].shape(),
        decreases ts.len(),
    {
        if ts.len() > 0 {
            Type::lemma_shapes(ts.drop_first());
            assert forall|k: int| 0 <= k < ts.len() implies #[trigger] Type::shapes(ts)[k] == ts[k].shape() by {
                if k > 0 {
                    assert(ts.drop_first()[k - 1] == ts[k]);
                }
            }
        }
    }
}

impl Clone for Type {
    fn clone(&self) -> (res: Self)
        ensures
            res.shape() == self.shape(),
        decreases self,
    {
        match self {
            Type::Any => Type::Any,
            Type::Interface(s) => Type::Interface(s.clone()),
            Type::Object => Type::Object,
            Type::Function { parameters, return_type } => {
                let mut ps: Vec<Type> = Vec::new();
                let mut i: usize = 0;
                while i < parameters.len()
                    invariant
                        *self == (Type::Function { parameters: *parameters, return_type: *return_type }),
                        i <= parameters.len(),
                        ps@.len() == i,
                        forall|k: int| 0 <= k < i ==> #[trigger] ps@[k].shape() == parameters@[k].shape(),
                    decreases parameters.len() - i,
                {
                    proof {
                        assert(decreases_to!(*self => self->parameters));
                        assert(decreases_to!(self->parameters => self->parameters@));
                        assert(decreases_to!(self->parameters@ => self->parameters@[i as int]));
                    }
                    ps.push(parameters[i].clone());
                    i = i + 1;
                }
                proof {
                    assert(decreases_to!(*self => self->return_type));
                    Type::lemma_shapes(ps@);
                    Type::lemma_shapes(parameters@);
                    assert(Type::shapes(ps@) =~= Type::shapes(parameters@));
                }
                Type::Function { parameters: ps, return_type: Box::new((**return_type).clone()) }
            },
            Type::Matrix { width, height } => Type::Matrix { width: *width, height: *height },
            Type::String => Type::String,
            Type::Null => Type::Null,
            Type::Integer => Type::Integer,
            Type::Float => Type::Float,
        }
    }
}

} // verus!
