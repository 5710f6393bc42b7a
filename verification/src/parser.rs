//! A top-down operator-precedence (Pratt) parser of expressions over a list of tokens.
use vstd::prelude::*;

use crate::ast::{Binary, Expr, Identifier};
use crate::lexer::{Keyword, LexerToken, Span, Symbol, Token};

verus! {

/// What went wrong while parsing.
#[derive(Debug)]
pub enum ParserError {
    Unspecified(String, Span),
    /// The tokens ran out.
    NoMoreTokens,
    /// No parselet handles the token; the string names the kind of parselet looked for.
    NoParseletFound(String, Token),
}

/// The value of a [`ParserError`].
pub enum ParserErrorView {
    Unspecified(Seq<char>, Span),
    NoMoreTokens,
    NoParseletFound(Seq<char>, Token),
}

impl View for ParserError {
    type V = ParserErrorView;

    open spec fn view(&self) -> ParserErrorView {
        match self {
            ParserError::Unspecified(s, span) => ParserErrorView::Unspecified(s@, *span),
            ParserError::NoMoreTokens => ParserErrorView::NoMoreTokens,
            ParserError::NoParseletFound(s, t) => ParserErrorView::NoParseletFound(s@, *t),
        }
    }
}

impl Clone for ParserError {
    fn clone(&self) -> (res: Self)
        ensures
            res == *self,
    {
        match self {
            ParserError::Unspecified(s, span) => ParserError::Unspecified(s.clone(), *span),
            ParserError::NoMoreTokens => ParserError::NoMoreTokens,
            ParserError::NoParseletFound(s, t) => ParserError::NoParseletFound(s.clone(), (t.0.clone(), t.1)),
        }
    }
}

pub type ParserResult<T> = Result<T, ParserError>;

/// The value of the result of parsing an expression.
pub open spec fn parse_result_view(r: ParserResult<Expr>) -> Result<Expr, ParserErrorView> {
    match r {
        Ok(e) => Ok(e),
        Err(e) => Err(e@),
    }
}

/// How the expression that a token starts is parsed.
#[derive(Debug, Clone, Copy, PartialEq, Eq, Structural)]
pub enum PrefixParselet {
    /// `new`: an object literal (not implemented: parsing one panics).
    NewObject,
    /// An identifier: a reference to a variable.
    VariableReference,
}

/// How an operator that follows an expression is parsed.
#[derive(Debug, Clone, Copy, PartialEq, Eq, Structural)]
pub enum InfixParselet {
    /// A binary operator of precedence `prec`, left-associative when `left` holds.
    Binary { left: bool, prec: u32 },
}

/// The prefix parselet of a token: `new` and identifiers have one.
pub open spec fn prefix_parselet_of(t: Token) -> Option<PrefixParselet> {
    match t.0 {
        LexerToken::Keyword(Keyword::New) => Some(PrefixParselet::NewObject),
        LexerToken::Identifier(_) => Some(PrefixParselet::VariableReference),
        _ => None,
    }
}

/// The infix parselet of a token, with its precedence: `+` binds at 10, `*` at 20,
/// both to the right.
pub open spec fn infix_parselet_of(t: Token) -> Option<(InfixParselet, u32)> {
    match t.0 {
        LexerToken::Symbol(Symbol::Plus) => Some((InfixParselet::Binary { left: false, prec: 10 }, 10)),
        LexerToken::Symbol(Symbol::Asterisk) => Some((InfixParselet::Binary { left: false, prec: 20 }, 20)),
        _ => None,
    }
}

/// The precedence at which the right operand of an infix parselet is parsed:
/// its own for a left-associative operator, one less for a right-associative one.
pub open spec fn rhs_precedence(p: InfixParselet) -> u32 {
    match p {
        InfixParselet::Binary { left, prec } => if left {
            prec
        } else {
            (prec - 1) as u32
        },
    }
}

/// What a parse from some position gives: the result and the position after
/// it, or `None` where the parse reaches `new`, whose parselet is not implemented.
pub type ParseOutcome = Option<(Result<Expr, ParserErrorView>, int)>;

/// The expression that token `t` makes by itself, through its prefix parselet.
pub open spec fn prefix_expr(t: Token) -> Option<Result<Expr, ParserErrorView>> {
    match prefix_parselet_of(t) {
        Some(PrefixParselet::NewObject) => None,
        Some(PrefixParselet::VariableReference) => Some(
            Ok(Identifier::new_expr((t.0->Identifier_0, t.1))),
        ),
        None => Some(Err(ParserErrorView::NoParseletFound("prefix"@, t))),
    }
}

/// Parsing an expression at precedence `prec` from position `i` of `toks`: the
/// token there starts it through its prefix parselet, then operators follow.
pub open spec fn parse_expr(toks: Seq<Token>, i: int, prec: u32) -> ParseOutcome
    decreases toks.len() - i, 1int,
{
    if i < 0 || i >= toks.len() {
        Some((Err(ParserErrorView::NoMoreTokens), i))
    } else {
        match prefix_expr(toks[i]) {
            None => None,
            Some(Err(e)) => Some((Err(e), i + 1)),
            Some(Ok(left)) => parse_operators(toks, i + 1, prec, left),
        }
    }
}

/// Parsing the operators that follow the expression `left` from position `i`, at
/// precedence `prec`. The tokens must not run out before a token that is no
/// operator. An operator of lower precedence than `prec` is read and ends the
/// expression; any other one takes `left` as its left operand and the expression
/// parsed after it as its right one.
pub open spec fn parse_operators(toks: Seq<Token>, i: int, prec: u32, left: Expr) -> ParseOutcome
    decreases toks.len() - i, 0int,
{
    if i < 0 || i >= toks.len() {
        Some((Err(ParserErrorView::NoMoreTokens), i))
    } else {
        match infix_parselet_of(toks[i]) {
            None => Some((Ok(left), i)),
            Some((parselet, p)) => {
                if prec > p {
                    Some((Ok(left), i + 1))
                } else {
                    match parse_expr(toks, i + 1, rhs_precedence(parselet)) {
                        None => None,
                        Some((Err(e), j)) => Some((Err(e), j)),
                        Some((Ok(rhs), j)) => {
                            // The right operand takes at least one token (see `lemma_parse_advances`).
                            if i < j <= toks.len() {
                                parse_operators(toks, j, prec, Binary::new_expr(left, rhs, toks[i]))
                            } else {
                                Some((Ok(left), j))
                            }
                        },
                    }
                }
            },
        }
    }
}

/// A parse moves forward and stays within the tokens; a successful parse of an
/// expression takes at least one token.
pub proof fn lemma_parse_advances(toks: Seq<Token>, i: int, prec: u32)
    requires
        0 <= i <= toks.len(),
    ensures
        parse_expr(toks, i, prec) matches Some((r, j)) ==> {
            &&& i <= j <= toks.len()
            &&& r is Ok ==> i < j
        },
    decreases toks.len() - i, 1int,
{
    if i < toks.len() {
        if let Some(Ok(left)) = prefix_expr(toks[i]) {
            lemma_operators_advance(toks, i + 1, prec, left);
        }
    }
}

/// Parsing operators moves forward and stays within the tokens.
pub proof fn lemma_operators_advance(toks: Seq<Token>, i: int, prec: u32, left: Expr)
    requires
        0 <= i <= toks.len(),
    ensures
        parse_operators(toks, i, prec, left) matches Some((r, j)) ==> i <= j <= toks.len(),
    decreases toks.len() - i, 0int,
{
    if i < toks.len() {
        if let Some((parselet, p)) = infix_parselet_of(toks[i]) {
            if prec <= p {
                lemma_parse_advances(toks, i + 1, rhs_precedence(parselet));
                if let Some((Ok(rhs), j)) = parse_expr(toks, i + 1, rhs_precedence(parselet)) {
                    lemma_operators_advance(toks, j, prec, Binary::new_expr(left, rhs, toks[i]));
                }
            }
        }
    }
}

// ------------------------------------------------------------------
// Laws of precedence and associativity
// ------------------------------------------------------------------
/// Whether token `t` can end an operand: it is neither `+` nor `*`.
pub open spec fn ends_operand(t: Token) -> bool {
    t.0 != LexerToken::Symbol(Symbol::Plus) && t.0 != LexerToken::Symbol(Symbol::Asterisk)
}

/// The variable that the identifier token `t` names.
pub open spec fn variable(t: Token) -> Expr {
    Identifier::new_expr((t.0->Identifier_0, t.1))
}

/// The tokens from position `i` are `k` identifiers with the operator `op`
/// between each two of them, followed by a token that is neither `+` nor `*`.
pub open spec fn is_operator_chain(toks: Seq<Token>, i: int, k: nat, op: Symbol) -> bool {
    &&& k >= 1
    &&& 0 <= i
    &&& i + 2 * k - 1 < toks.len()
    &&& forall|m: int| i <= m < i + 2 * k - 1 && (m - i) % 2 == 0 ==> (#[trigger] toks[m]).0 is Identifier
    &&& forall|m: int| i <= m < i + 2 * k - 1 && (m - i) % 2 == 1 ==> (#[trigger] toks[m]).0 == LexerToken::Symbol(op)
    &&& ends_operand(toks[i + 2 * k - 1])
}

/// The `k` variables from position `i`, every other token, joined to the right by
/// the operator tokens between them: `a op (b op (c ...))`.
pub open spec fn right_nested(toks: Seq<Token>, i: int, k: nat) -> Expr
    decreases k,
{
    if k <= 1 {
        variable(toks[i])
    } else {
        Binary::new_expr(variable(toks[i]), right_nested(toks, i + 2, (k - 1) as nat), toks[i + 1])
    }
}

/// A chain of one operator keeps all its operands and nests to the right,
/// `a op (b op (c ...))`, and the parse stops at the token after the last operand.
/// This holds at every precedence up to that of the operator (10 for `+`, 20 for
/// `*`), so for a whole expression too.
pub proof fn law_operator_chain(toks: Seq<Token>, i: int, k: nat, op: Symbol, prec: u32)
    requires
        is_operator_chain(toks, i, k, op),
        op == Symbol::Plus || op == Symbol::Asterisk,
        prec <= (if op == Symbol::Plus { 10u32 } else { 20u32 }),
    ensures
        parse_expr(toks, i, prec) == Some((Ok::<Expr, ParserErrorView>(right_nested(toks, i, k)), i + 2 * k - 1)),
    decreases k,
{
    assert(toks[i].0 is Identifier);
    let left = variable(toks[i]);
    let j = i + 2 * k - 1;
    assert(prefix_expr(toks[i]) == Some(Ok::<Expr, ParserErrorView>(left)));
    assert(parse_expr(toks, i, prec) == parse_operators(toks, i + 1, prec, left));
    assert(infix_parselet_of(toks[j]) is None);
    if k == 1 {
        assert(parse_operators(toks, i + 1, prec, left) == Some((Ok::<Expr, ParserErrorView>(left), i + 1)));
    } else {
        assert(toks[i + 1].0 == LexerToken::Symbol(op));
        let p: u32 = if op == Symbol::Plus { 10u32 } else { 20u32 };
        assert(infix_parselet_of(toks[i + 1]) == Some((InfixParselet::Binary { left: false, prec: p }, p)));
        assert(is_operator_chain(toks, i + 2, (k - 1) as nat, op)) by {
            assert forall|m: int| i + 2 <= m < i + 2 + 2 * (k - 1) - 1 && (m - (i + 2)) % 2 == 0 implies (
            #[trigger] toks[m]).0 is Identifier by {
                assert((m - i) % 2 == 0);
            }
            assert forall|m: int| i + 2 <= m < i + 2 + 2 * (k - 1) - 1 && (m - (i + 2)) % 2 == 1 implies (
            #[trigger] toks[m]).0 == LexerToken::Symbol(op) by {
                assert((m - i) % 2 == 1);
            }
        }
        law_operator_chain(toks, i + 2, (k - 1) as nat, op, (p - 1) as u32);
        let rhs = right_nested(toks, i + 2, (k - 1) as nat);
        let whole = Binary::new_expr(left, rhs, toks[i + 1]);
        assert(parse_expr(toks, i + 2, (p - 1) as u32) == Some((Ok::<Expr, ParserErrorView>(rhs), j)));
        assert(parse_operators(toks, j, prec, whole) == Some((Ok::<Expr, ParserErrorView>(whole), j)));
        assert(parse_operators(toks, i + 1, prec, left) == parse_operators(toks, j, prec, whole));
        assert(right_nested(toks, i, k) == whole);
    }
}

/// `*` binds tighter than `+`: identifiers `a + b * c` followed by a token that is
/// neither `+` nor `*` parse as `a + (b * c)`, and the parse stops at that token.
pub proof fn law_times_binds_tighter(toks: Seq<Token>, i: int, prec: u32)
    requires
        0 <= i,
        i + 5 < toks.len(),
        toks[i].0 is Identifier,
        toks[i + 1].0 == LexerToken::Symbol(Symbol::Plus),
        toks[i + 2].0 is Identifier,
        toks[i + 3].0 == LexerToken::Symbol(Symbol::Asterisk),
        toks[i + 4].0 is Identifier,
        ends_operand(toks[i + 5]),
        prec <= 10,
    ensures
        parse_expr(toks, i, prec) == Some(
            (
                Ok::<Expr, ParserErrorView>(
                    Binary::new_expr(
                        variable(toks[i]),
                        Binary::new_expr(variable(toks[i + 2]), variable(toks[i + 4]), toks[i + 3]),
                        toks[i + 1],
                    ),
                ),
                i + 5,
            ),
        ),
{
    let a = variable(toks[i]);
    let b = variable(toks[i + 2]);
    let c = variable(toks[i + 4]);
    let bc = Binary::new_expr(b, c, toks[i + 3]);
    let whole = Binary::new_expr(a, bc, toks[i + 1]);
    assert(prefix_expr(toks[i + 4]) == Some(Ok::<Expr, ParserErrorView>(c)));
    assert(infix_parselet_of(toks[i + 5]) is None);
    assert(parse_operators(toks, i + 5, 19, c) == Some((Ok::<Expr, ParserErrorView>(c), i + 5)));
    assert(parse_expr(toks, i + 4, 19) == Some((Ok::<Expr, ParserErrorView>(c), i + 5)));
    assert(prefix_expr(toks[i + 2]) == Some(Ok::<Expr, ParserErrorView>(b)));
    assert(infix_parselet_of(toks[i + 3]) == Some((InfixParselet::Binary { left: false, prec: 20 }, 20u32)));
    assert(parse_operators(toks, i + 5, 9, bc) == Some((Ok::<Expr, ParserErrorView>(bc), i + 5)));
    assert(parse_operators(toks, i + 3, 9, b) == parse_operators(toks, i + 5, 9, bc));
    assert(parse_expr(toks, i + 2, 9) == Some((Ok::<Expr, ParserErrorView>(bc), i + 5)));
    assert(prefix_expr(toks[i]) == Some(Ok::<Expr, ParserErrorView>(a)));
    assert(infix_parselet_of(toks[i + 1]) == Some((InfixParselet::Binary { left: false, prec: 10 }, 10u32)));
    assert(parse_operators(toks, i + 5, prec, whole) == Some((Ok::<Expr, ParserErrorView>(whole), i + 5)));
    assert(parse_operators(toks, i + 1, prec, a) == parse_operators(toks, i + 5, prec, whole));
    assert(parse_expr(toks, i, prec) == parse_operators(toks, i + 1, prec, a));
}

/// A `+` after `a * b` is read inside the right operand of `*`, where its
/// precedence is too low, and ends the expression: identifiers `a * b + c`
/// parse as `a * b`, and the parse stops at `c`, the `+` consumed.
pub proof fn law_plus_after_times_ends_expression(toks: Seq<Token>, i: int, prec: u32)
    requires
        0 <= i,
        i + 4 < toks.len(),
        toks[i].0 is Identifier,
        toks[i + 1].0 == LexerToken::Symbol(Symbol::Asterisk),
        toks[i + 2].0 is Identifier,
        toks[i + 3].0 == LexerToken::Symbol(Symbol::Plus),
        ends_operand(toks[i + 4]),
        prec <= 20,
    ensures
        parse_expr(toks, i, prec) == Some(
            (Ok::<Expr, ParserErrorView>(Binary::new_expr(variable(toks[i]), variable(toks[i + 2]), toks[i + 1])), i + 4),
        ),
{
    let a = variable(toks[i]);
    let b = variable(toks[i + 2]);
    let ab = Binary::new_expr(a, b, toks[i + 1]);
    assert(prefix_expr(toks[i + 2]) == Some(Ok::<Expr, ParserErrorView>(b)));
    assert(infix_parselet_of(toks[i + 3]) == Some((InfixParselet::Binary { left: false, prec: 10 }, 10u32)));
    assert(parse_operators(toks, i + 3, 19, b) == Some((Ok::<Expr, ParserErrorView>(b), i + 4)));
    assert(parse_expr(toks, i + 2, 19) == Some((Ok::<Expr, ParserErrorView>(b), i + 4)));
    assert(prefix_expr(toks[i]) == Some(Ok::<Expr, ParserErrorView>(a)));
    assert(infix_parselet_of(toks[i + 1]) == Some((InfixParselet::Binary { left: false, prec: 20 }, 20u32)));
    assert(infix_parselet_of(toks[i + 4]) is None);
    assert(parse_operators(toks, i + 4, prec, ab) == Some((Ok::<Expr, ParserErrorView>(ab), i + 4)));
    assert(parse_operators(toks, i + 1, prec, a) == parse_operators(toks, i + 4, prec, ab));
    assert(parse_expr(toks, i, prec) == parse_operators(toks, i + 1, prec, a));
}

/// How a parse starts: with no token left it fails with `NoMoreTokens`, reading
/// nothing; `new` is not implemented (no outcome); a token that is neither an
/// identifier nor `new` is read and fails with `NoParseletFound("prefix", token)`;
/// an identifier that is the last token is read, and then the tokens run out.
pub proof fn law_parse_start(toks: Seq<Token>, i: int, prec: u32)
    requires
        0 <= i <= toks.len(),
    ensures
        i == toks.len() ==> parse_expr(toks, i, prec) == Some(
            (Err::<Expr, ParserErrorView>(ParserErrorView::NoMoreTokens), i),
        ),
        i < toks.len() && toks[i].0 == LexerToken::Keyword(Keyword::New) ==> parse_expr(toks, i, prec) is None,
        i < toks.len() && !(toks[i].0 is Identifier) && toks[i].0 != LexerToken::Keyword(Keyword::New)
            ==> parse_expr(toks, i, prec) == Some(
            (Err::<Expr, ParserErrorView>(ParserErrorView::NoParseletFound("prefix"@, toks[i])), i + 1),
        ),
        i + 1 == toks.len() && toks[i].0 is Identifier ==> parse_expr(toks, i, prec) == Some(
            (Err::<Expr, ParserErrorView>(ParserErrorView::NoMoreTokens), i + 1),
        ),
{
}

/// A variable reference for the identifier token `t`.
fn variable_reference_prslt(p: &mut Parser, t: Token) -> (res: ParserResult<Expr>)
    requires
        t.0 is Identifier,
    ensures
        *final(p) == *old(p),
        res == Ok::<Expr, ParserError>(Identifier::new_expr((t.0->Identifier_0, t.1))),
{
    let name = t.0.as_identifier();
    Ok(Identifier::new_expr((name.unwrap(), t.1)))
}

/// The parselet of a binary operator of precedence `prec`, left-associative when `left` holds.
fn binary_prslt(left: bool, prec: u32) -> (res: (InfixParselet, u32))
    ensures
        res == (InfixParselet::Binary { left, prec }, prec),
{
    (InfixParselet::Binary { left, prec }, prec)
}

/// A parser over a list of tokens, with the position of the next token to read.
pub struct Parser {
    tokens: Vec<Token>,
    index: usize,
}

impl Parser {
    /// The tokens.
    pub closed spec fn tokens(&self) -> Seq<Token> {
        self.tokens@
    }

    /// The position of the next token to read.
    pub closed spec fn index(&self) -> int {
        self.index as int
    }

    /// The position is within the tokens.
    pub closed spec fn wf(&self) -> bool {
        self.index <= self.tokens@.len()
    }

    /// The position of the next token is never before the first token nor after the last.
    pub proof fn lemma_index_bounds(&self)
        requires
            self.wf(),
        ensures
            0 <= self.index() <= self.tokens().len(),
    {
    }

    /// A parser at the start of `tokens`.
    pub fn new(tokens: Vec<Token>) -> (p: Parser)
        ensures
            p.wf(),
            p.tokens() == tokens@,
            p.index() == 0,
    {
        Parser { tokens, index: 0 }
    }

    /// The prefix parselet of a token.
    fn get_prefix_parselet(tok: &Token) -> (res: Option<PrefixParselet>)
        ensures
            res == prefix_parselet_of(*tok),
    {
        match tok {
            (LexerToken::Keyword(Keyword::New), _) => Some(PrefixParselet::NewObject),
            (LexerToken::Identifier(_), _) => Some(PrefixParselet::VariableReference),
            _ => None,
        }
    }

    /// The infix parselet of a token, with its precedence.
    fn get_infix_parselet(tok: &Token) -> (res: Option<(InfixParselet, u32)>)
        ensures
            res == infix_parselet_of(*tok),
    {
        match tok {
            (LexerToken::Symbol(Symbol::Plus), _) => Some(binary_prslt(false, 10)),
            (LexerToken::Symbol(Symbol::Asterisk), _) => Some(binary_prslt(false, 20)),
            _ => None,
        }
    }

    /// Reads the next token; when none is left, `NoMoreTokens` and the position stays.
    fn next(&mut self) -> (res: ParserResult<Token>)
        requires
            old(self).wf(),
        ensures
            final(self).wf(),
            final(self).tokens() == old(self).tokens(),
            old(self).index() <= final(self).index(),
            old(self).index() < old(self).tokens().len() ==> {
                &&& res == Ok::<Token, ParserError>(old(self).tokens()[old(self).index()])
                &&& final(self).index() == old(self).index() + 1
            },
            old(self).index() >= old(self).tokens().len() ==> {
                &&& res == Err::<Token, ParserError>(ParserError::NoMoreTokens)
                &&& final(self).index() == old(self).index()
            },
    {
        if self.index < self.tokens.len() {
            self.index = self.index + 1;
            let t = &self.tokens[self.index - 1];
            Ok((t.0.clone(), t.1))
        } else {
            Err(ParserError::NoMoreTokens)
        }
    }

    /// The next token, without reading it; when none is left, `NoMoreTokens`.
    fn peek(&mut self) -> (res: ParserResult<Token>)
        requires
            old(self).wf(),
        ensures
            *final(self) == *old(self),
            old(self).index() < old(self).tokens().len() ==> res == Ok::<Token, ParserError>(
                old(self).tokens()[old(self).index()],
            ),
            old(self).index() >= old(self).tokens().len() ==> res == Err::<Token, ParserError>(
                ParserError::NoMoreTokens,
            ),
    {
        if self.index < self.tokens.len() {
            let t = &self.tokens[self.index];
            Ok((t.0.clone(), t.1))
        } else {
            Err(ParserError::NoMoreTokens)
        }
    }

    /// Parses an expression at precedence `prec`, as `parse_expr` states; `None`
    /// where the parse reaches `new`, whose parselet is not implemented.
    pub fn try_pratt_expression(&mut self, prec: u32) -> (res: Option<ParserResult<Expr>>)
        requires
            old(self).wf(),
        ensures
            final(self).wf(),
            final(self).tokens() == old(self).tokens(),
            old(self).index() <= final(self).index(),
            match parse_expr(old(self).tokens(), old(self).index(), prec) {
                None => res is None,
                Some((r, j)) => {
                    &&& res is Some
                    &&& parse_result_view(res->0) == r
                    &&& final(self).index() == j
                },
            },
        decreases old(self).tokens().len() - old(self).index(),
    {
        let ghost toks = self.tokens@;
        let ghost i0 = self.index as int;
        proof {
            lemma_parse_advances(toks, i0, prec);
        }
        let mut token = match self.next() {
            Ok(t) => t,
            Err(e) => {
                return Some(Err(e));
            },
        };
        let prefix = Parser::get_prefix_parselet(&token);
        match prefix {
            Some(PrefixParselet::VariableReference) => {
                let mut left = match variable_reference_prslt(self, token) {
                    Ok(e) => e,
                    Err(e) => {
                        return Some(Err(e));
                    },
                };
                loop
                    invariant_except_break
                        parse_expr(toks, i0, prec) == parse_operators(toks, self.index as int, prec, left),
                    invariant
                        self.wf(),
                        self.tokens@ == toks,
                        toks == old(self).tokens@,
                        i0 == old(self).index,
                        0 <= i0 < self.index,
                    ensures
                        parse_expr(toks, i0, prec) == Some((Ok::<Expr, ParserErrorView>(left), self.index as int)),
                    decreases toks.len() - self.index,
                {
                    let peeked = match self.peek() {
                        Ok(t) => t,
                        Err(e) => {
                            return Some(Err(e));
                        },
                    };
                    match Parser::get_infix_parselet(&peeked) {
                        Some((infix, infix_prec)) => {
                            let ghost i = self.index as int;
                            token = match self.next() {
                                Ok(t) => t,
                                Err(e) => {
                                    return Some(Err(e));
                                },
                            };
                            if prec > infix_prec {
                                break ;
                            } else {
                                match infix {
                                    InfixParselet::Binary { left: left_assoc, prec: op_prec } => {
                                        let rhs_prec = if left_assoc {
                                            op_prec
                                        } else {
                                            op_prec - 1
                                        };
                                        let rhs = match self.try_pratt_expression(rhs_prec) {
                                            None => {
                                                return None;
                                            },
                                            Some(Ok(e)) => e,
                                            Some(Err(e)) => {
                                                return Some(Err(e));
                                            },
                                        };
                                        proof {
                                            lemma_parse_advances(toks, i + 1, rhs_prec);
                                        }
                                        left = Binary::new_expr(left, rhs, token);
                                    },
                                }
                            }
                        },
                        None => {
                            break ;
                        },
                    }
                }
                Some(Ok(left))
            },
            Some(PrefixParselet::NewObject) => None,
            None => Some(Err(ParserError::NoParseletFound("prefix".to_owned(), token))),
        }
    }

    /// Parses an expression at precedence `prec`, as `parse_expr` states, on
    /// tokens where the parse does not reach `new`.
    pub fn pratt_expression(&mut self, prec: u32) -> (res: ParserResult<Expr>)
        requires
            old(self).wf(),
            parse_expr(old(self).tokens(), old(self).index(), prec) is Some,
        ensures
            final(self).wf(),
            final(self).tokens() == old(self).tokens(),
            old(self).index() <= final(self).index(),
            parse_expr(old(self).tokens(), old(self).index(), prec) == Some(
                (parse_result_view(res), final(self).index()),
            ),
    {
        match self.try_pratt_expression(prec) {
            Some(r) => r,
            None => {
                proof {
                    assert(false);
                }
                Err(ParserError::NoMoreTokens)
            },
        }
    }

    /// Parses a whole expression (at precedence 0), on tokens where the parse does not reach `new`.
    pub fn expression(&mut self) -> (res: ParserResult<Expr>)
        requires
            old(self).wf(),
            parse_expr(old(self).tokens(), old(self).index(), 0) is Some,
        ensures
            final(self).wf(),
            final(self).tokens() == old(self).tokens(),
            old(self).index() <= final(self).index(),
            parse_expr(old(self).tokens(), old(self).index(), 0) == Some(
                (parse_result_view(res), final(self).index()),
            ),
    {
        self.pratt_expression(0)
    }

    /// Parses a whole expression (at precedence 0); `None` where the parse reaches
    /// `new`, whose parselet is not implemented.
    pub fn try_expression(&mut self) -> (res: Option<ParserResult<Expr>>)
        requires
            old(self).wf(),
        ensures
            final(self).wf(),
            final(self).tokens() == old(self).tokens(),
            old(self).index() <= final(self).index(),
            match parse_expr(old(self).tokens(), old(self).index(), 0) {
                None => res is None,
                Some((r, j)) => {
                    &&& res is Some
                    &&& parse_result_view(res->0) == r
                    &&& final(self).index() == j
                },
            },
    {
        self.try_pratt_expression(0)
    }
}

} // verus!
