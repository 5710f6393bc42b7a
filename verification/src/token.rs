use vstd::prelude::*;

verus! {

/// The reserved words of the language.
#[derive(Debug, Clone, Copy, PartialEq, Eq, Structural)]
pub enum Keyword {
    Null,
    New,
    And,
    Or,
    True,
    False,
    Function,
    FunctionAt,
    Return,
}

/// Punctuation and operator symbols.
#[derive(Debug, Clone, Copy, PartialEq, Eq, Structural)]
pub enum Symbol {
    Equal,
    EqualEqual,
    LBrace,
    RBrace,
    Colon,
    Semicolon,
    LParen,
    RParen,
    LBracket,
    RBracket,
    Dot,
    Comma,
    Minus,
    MinusEqual,
    ThinArrow,
    Asterisk,
    AsteriskEqual,
    ForwardSlash,
    ForwardSlashEqual,
    Plus,
    PlusEqual,
    LT,
    GT,
    LTEqual,
    GTEqual,
    Not,
    NotEqual,
    Caret,
}

/// A token produced by the lexer, without its position.
#[derive(Debug)]
pub enum LexerToken {
    Identifier(String),
    Keyword(Keyword),
    Number(String),
    Hex(String),
    Octal(String),
    Base36(String),
    Typename(String),
    Symbol(Symbol),
    EOF,
}

/// The mathematical value of a [`LexerToken`]: its text as a sequence of characters.
pub enum TokenView {
    Identifier(Seq<char>),
    Keyword(Keyword),
    Number(Seq<char>),
    Hex(Seq<char>),
    Octal(Seq<char>),
    Base36(Seq<char>),
    Typename(Seq<char>),
    Symbol(Symbol),
    EOF,
}

impl View for LexerToken {
    type V = TokenView;

    open spec fn view(&self) -> TokenView {
        match self {
            LexerToken::Identifier(s) => TokenView::Identifier(s@),
            LexerToken::Keyword(k) => TokenView::Keyword(*k),
            LexerToken::Number(s) => TokenView::Number(s@),
            LexerToken::Hex(s) => TokenView::Hex(s@),
            LexerToken::Octal(s) => TokenView::Octal(s@),
            LexerToken::Base36(s) => TokenView::Base36(s@),
            LexerToken::Typename(s) => TokenView::Typename(s@),
            LexerToken::Symbol(s) => TokenView::Symbol(*s),
            LexerToken::EOF => TokenView::EOF,
        }
    }
}

impl Clone for LexerToken {
    fn clone(&self) -> (res: Self)
        ensures
            res == *self,
    {
        match self {
            LexerToken::Identifier(s) => LexerToken::Identifier(s.clone()),
            LexerToken::Keyword(k) => LexerToken::Keyword(*k),
            LexerToken::Number(s) => LexerToken::Number(s.clone()),
            LexerToken::Hex(s) => LexerToken::Hex(s.clone()),
            LexerToken::Octal(s) => LexerToken::Octal(s.clone()),
            LexerToken::Base36(s) => LexerToken::Base36(s.clone()),
            LexerToken::Typename(s) => LexerToken::Typename(s.clone()),
            LexerToken::Symbol(s) => LexerToken::Symbol(*s),
            LexerToken::EOF => LexerToken::EOF,
        }
    }
}

impl LexerToken {
    /// The name carried by an identifier token; `None` for every other kind of token.
    pub fn as_identifier(&self) -> (res: Option<String>)
        ensures
            self is Identifier ==> res == Some(self->Identifier_0),
            !(self is Identifier) ==> res is None,
    {
        match self {
            LexerToken::Identifier(s) => Some(s.clone()),
            _ => None,
        }
    }
}

} // verus!
