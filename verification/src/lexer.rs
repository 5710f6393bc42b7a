//! The lexer: it turns a text into tokens, each with the span where it stands.
use vstd::prelude::*;
use vstd::string::StringExecFns;

use crate::grammar::{
    col_at, col_of, in_class, is_digit, is_ident_start, is_lower, is_upper, lemma_position_bounds,
    lemma_read_one, lemma_run_end_bounds, lemma_subrange_extend, lemma_number_end_bounds,
    number_end, error_at, char_at_is, next_token_spec, lemma_trivia_end_bounds, lex_all,
    lemma_next_token_advances, lemma_subrange_split_first, line_at, line_of, run_end, trivia_end, word_token, CharClass,
    TokenSpec, Trivia,
};
pub use crate::token::{Keyword, LexerToken, Symbol, TokenView};

verus! {

// ------------------------------------------------------------------
// Errors
// ------------------------------------------------------------------
/// What went wrong while reading a token.
#[derive(Debug, Clone, PartialEq, Eq)]
pub enum LexerErrorType {
    /// An error with a message.
    Unspecified(String),
    /// The input ended where a token was expected.
    EOF,
}

/// The value of a [`LexerErrorType`].
pub enum ErrorKindView {
    Unspecified(Seq<char>),
    EOF,
}

impl View for LexerErrorType {
    type V = ErrorKindView;

    open spec fn view(&self) -> ErrorKindView {
        match self {
            LexerErrorType::Unspecified(s) => ErrorKindView::Unspecified(s@),
            LexerErrorType::EOF => ErrorKindView::EOF,
        }
    }
}

/// A lexing error, with the line and column where it was found.
#[derive(Debug, Clone)]
pub struct LexerError {
    ln: usize,
    col: usize,
    letype: LexerErrorType,
}

/// The value of a [`LexerError`].
pub struct LexerErrorView {
    pub ln: usize,
    pub col: usize,
    pub kind: ErrorKindView,
}

impl View for LexerError {
    type V = LexerErrorView;

    closed spec fn view(&self) -> LexerErrorView {
        LexerErrorView { ln: self.ln, col: self.col, kind: self.letype@ }
    }
}

impl LexerError {
    /// An error at line `ln`, column `col`, with the message `text`.
    pub fn new_unspecified(ln: usize, col: usize, text: &str) -> (res: LexerError)
        ensures
            res@ == (LexerErrorView { ln, col, kind: ErrorKindView::Unspecified(text@) }),
    {
        LexerError { ln, col, letype: LexerErrorType::Unspecified(text.to_owned()) }
    }

    /// The end-of-input error at line `ln`, column `col`.
    pub fn eof(ln: usize, col: usize) -> (res: LexerError)
        ensures
            res@ == (LexerErrorView { ln, col, kind: ErrorKindView::EOF }),
    {
        LexerError { ln, col, letype: LexerErrorType::EOF }
    }

    /// Whether this is the end-of-input error.
    pub fn is_eof(&self) -> (res: bool)
        ensures
            res == (self@.kind is EOF),
    {
        match self.letype {
            LexerErrorType::EOF => true,
            _ => false,
        }
    }
}

// ------------------------------------------------------------------
// Spans
// ------------------------------------------------------------------
/// Where a token stands: its line, the column where it starts and the column where it ends.
#[derive(Debug, Clone, Copy, PartialEq, Eq, Structural)]
pub struct Span {
    ln: usize,
    col: usize,
    ecol: usize,
}

impl View for Span {
    /// (line, start column, end column)
    type V = (usize, usize, usize);

    closed spec fn view(&self) -> (usize, usize, usize) {
        (self.ln, self.col, self.ecol)
    }
}

impl Span {
    pub fn new(ln: usize, col: usize, ecol: usize) -> (res: Span)
        ensures
            res@ == (ln, col, ecol),
    {
        Span { ln, col, ecol }
    }

    pub fn line(&self) -> (res: usize)
        ensures
            res == self@.0,
    {
        self.ln
    }

    pub fn start(&self) -> (res: usize)
        ensures
            res == self@.1,
    {
        self.col
    }

    pub fn end(&self) -> (res: usize)
        ensures
            res == self@.2,
    {
        self.ecol
    }
}

/// A token with its span.
pub type Token = (LexerToken, Span);

pub type LexerResult<A> = Result<A, LexerError>;

/// The value of a token with its span.
pub open spec fn token_view(t: Token) -> TokenSpec {
    (t.0@, t.1@)
}

/// The value of the result of reading a token.
pub open spec fn result_view(r: LexerResult<Token>) -> Result<TokenSpec, LexerErrorView> {
    match r {
        Ok(t) => Ok(token_view(t)),
        Err(e) => Err(e@),
    }
}

/// Appends a character to a string (std's `String::push`).
#[verifier::external_body]
fn push_char(s: &mut String, c: char)
    ensures
        final(s)@ == old(s)@.push(c),
{
    s.push(c);
}

// ------------------------------------------------------------------
// Character classes
// ------------------------------------------------------------------
fn char_is_lower(c: char) -> (res: bool)
    ensures
        res == is_lower(c),
{
    'a' <= c && c <= 'z'
}

fn char_is_upper(c: char) -> (res: bool)
    ensures
        res == is_upper(c),
{
    'A' <= c && c <= 'Z'
}

fn char_is_digit(c: char) -> (res: bool)
    ensures
        res == is_digit(c),
{
    '0' <= c && c <= '9'
}

fn char_is_ident_start(c: char) -> (res: bool)
    ensures
        res == is_ident_start(c),
{
    char_is_lower(c) || c == '?' || c == '_' || c == '!' || c == '@'
}

fn char_in_class(c: char, k: CharClass) -> (res: bool)
    ensures
        res == in_class(c, k),
{
    let alnum = char_is_lower(c) || char_is_upper(c) || char_is_digit(c);
    match k {
        CharClass::IdentTail => alnum || c == '?' || c == '_' || c == '!' || c == '@',
        CharClass::Alnum => alnum,
        CharClass::Hex => char_is_digit(c) || ('a' <= c && c <= 'f') || ('A' <= c && c <= 'F'),
        CharClass::Octal => '0' <= c && c <= '7',
        CharClass::Base36 => alnum,
    }
}

/// Whether `text` spells `word`.
fn spells(text: &String, word: &str) -> (res: bool)
    ensures
        res == (text@ == word@),
{
    let w = word.to_owned();
    *text == w
}

// ------------------------------------------------------------------
// The lexer
// ------------------------------------------------------------------
/// A lexer over a text: the text's characters, how many of them were read,
/// the line and column reached, and whether an error has ended the stream of tokens.
pub struct Lexer {
    chars: Vec<char>,
    pos: usize,
    ln: usize,
    col: usize,
    error: bool,
}

impl Lexer {
    /// The characters of the text.
    pub closed spec fn input(&self) -> Seq<char> {
        self.chars@
    }

    /// How many characters have been read.
    pub closed spec fn position(&self) -> int {
        self.pos as int
    }

    /// Whether an error has ended the stream of tokens.
    pub closed spec fn has_failed(&self) -> bool {
        self.error
    }

    /// The line and column are those reached after the characters read so far.
    pub closed spec fn wf(&self) -> bool {
        &&& self.chars@.len() < usize::MAX
        &&& self.pos <= self.chars@.len()
        &&& self.ln == line_of(self.chars@.take(self.pos as int))
        &&& self.col == col_of(self.chars@.take(self.pos as int))
    }

    /// The line reached so far.
    pub closed spec fn current_line(&self) -> usize {
        self.ln
    }

    /// The column reached so far.
    pub closed spec fn current_column(&self) -> usize {
        self.col
    }

    /// The lexer's line and column are always those reached after the characters
    /// it has read: one plus the newlines among them, and one plus the characters
    /// after the last of those newlines.
    pub proof fn lemma_position_tracked(&self)
        requires
            self.wf(),
        ensures
            self.current_line() == line_at(self.input(), self.position()),
            self.current_column() == col_at(self.input(), self.position()),
            0 <= self.position() <= self.input().len(),
    {
    }

    /// A lexer at the start of `text`.
    pub fn new(text: &str) -> (lexer: Lexer)
        requires
            text@.len() < usize::MAX,
        ensures
            lexer.wf(),
            lexer.input() == text@,
            lexer.position() == 0,
            !lexer.has_failed(),
    {
        let mut chars: Vec<char> = Vec::new();
        for c in it: text.chars()
            invariant
                chars@ == it.seq().take(it.index() as int),
        {
            chars.push(c);
        }
        assert(chars@ =~= text@);
        assert(chars@.take(0) =~= Seq::<char>::empty());
        Lexer { chars, pos: 0, ln: 1, col: 1, error: false }
    }

    /// Reads the next character, moving the line and column past it.
    fn next_char(&mut self) -> (res: Option<char>)
        requires
            old(self).wf(),
        ensures
            final(self).wf(),
            final(self).input() == old(self).input(),
            final(self).has_failed() == old(self).has_failed(),
            old(self).position() < old(self).input().len() ==> {
                &&& res == Some(old(self).input()[old(self).position()])
                &&& final(self).position() == old(self).position() + 1
            },
            old(self).position() >= old(self).input().len() ==> {
                &&& res is None
                &&& *final(self) == *old(self)
            },
    {
        if self.pos < self.chars.len() {
            let c = self.chars[self.pos];
            proof {
                lemma_read_one(self.chars@, self.pos as int);
                lemma_position_bounds(self.chars@.take(self.pos as int));
            }
            self.pos = self.pos + 1;
            if c == '\n' {
                self.ln = self.ln + 1;
                self.col = 1;
            } else {
                self.col = self.col + 1;
            }
            Some(c)
        } else {
            None
        }
    }

    /// The next character, without reading it.
    fn peek(&self) -> (res: Option<char>)
        requires
            self.wf(),
        ensures
            self.position() < self.input().len() ==> res == Some(self.input()[self.position()]),
            self.position() >= self.input().len() ==> res is None,
    {
        if self.pos < self.chars.len() {
            Some(self.chars[self.pos])
        } else {
            None
        }
    }

    /// Reads the next character; at the end of the input, the end-of-input error
    /// at the current line and column.
    fn expect(&mut self) -> (res: LexerResult<char>)
        requires
            old(self).wf(),
        ensures
            final(self).wf(),
            final(self).input() == old(self).input(),
            final(self).has_failed() == old(self).has_failed(),
            old(self).position() < old(self).input().len() ==> {
                &&& res == Ok::<char, LexerError>(old(self).input()[old(self).position()])
                &&& final(self).position() == old(self).position() + 1
            },
            old(self).position() >= old(self).input().len() ==> {
                &&& res is Err
                &&& res->Err_0@ == (LexerErrorView {
                    ln: old(self).current_line(),
                    col: old(self).current_column(),
                    kind: ErrorKindView::EOF,
                })
                &&& *final(self) == *old(self)
            },
    {
        match self.next_char() {
            Some(c) => Ok(c),
            None => Err(LexerError::eof(self.ln, self.col)),
        }
    }

    /// Whether every character has been read.
    pub fn at_end(&mut self) -> (res: bool)
        requires
            old(self).wf(),
        ensures
            *final(self) == *old(self),
            res == (old(self).position() >= old(self).input().len()),
    {
        self.peek().is_none()
    }

    /// A span of no width at the current line and column.
    fn create_span(&self) -> (res: Span)
        ensures
            res@ == (self.ln, self.col, self.col),
    {
        Span::new(self.ln, self.col, self.col)
    }

    /// Skips blanks and comments.
    fn eat_whitespace_and_comments(&mut self)
        requires
            old(self).wf(),
        ensures
            final(self).wf(),
            final(self).input() == old(self).input(),
            final(self).has_failed() == old(self).has_failed(),
            final(self).position() == trivia_end(old(self).input(), old(self).position(), Trivia::Code),
    {
        let ghost s = self.chars@;
        let ghost target = trivia_end(s, self.pos as int, Trivia::Code);
        loop
            invariant
                self.wf(),
                self.chars@ == s,
                self.error == old(self).error,
                trivia_end(s, self.pos as int, Trivia::Code) == target,
            ensures
                self.pos == target,
            decreases s.len() - self.pos,
        {
            let ghost start = self.pos;
            match self.peek() {
                Some(c) => {
                    if c == ' ' || c == '\n' || c == '\r' || c == '\t' {
                        self.next_char();
                    } else if c == '#' {
                        self.next_char();
                        match self.peek() {
                            Some('{') => {
                                // A block comment; `#{` and `#}` inside it nest.
                                let mut level: usize = 1;
                                while level > 0
                                    invariant
                                        self.wf(),
                                        self.chars@ == s,
                                        self.error == old(self).error,
                                        start < self.pos,
                                        level <= self.pos,
                                        target == trivia_end(
                                            s,
                                            self.pos as int,
                                            if level == 0 { Trivia::Code } else { Trivia::BlockComment(level as nat) },
                                        ),
                                    decreases s.len() - self.pos, level,
                                {
                                    match self.next_char() {
                                        Some('#') => {
                                            assert(target == trivia_end(
                                                s,
                                                self.pos as int,
                                                Trivia::BlockHash(level as nat),
                                            ));
                                            match self.next_char() {
                                                Some('{') => {
                                                    level = level + 1;
                                                },
                                                Some('}') => {
                                                    level = level - 1;
                                                },
                                                _ => {},
                                            }
                                        },
                                        None => {
                                            level = 0;
                                        },
                                        _ => {},
                                    }
                                }
                            },
                            _ => {
                                // A comment to the end of the line.
                                let mut in_comment = true;
                                while in_comment
                                    invariant
                                        self.wf(),
                                        self.chars@ == s,
                                        self.error == old(self).error,
                                        start < self.pos,
                                        target == trivia_end(
                                            s,
                                            self.pos as int,
                                            if in_comment { Trivia::LineComment } else { Trivia::Code },
                                        ),
                                    decreases s.len() - self.pos, if in_comment { 1int } else { 0int },
                                {
                                    match self.next_char() {
                                        Some(d) => {
                                            if d == '\n' {
                                                in_comment = false;
                                            }
                                        },
                                        None => {
                                            in_comment = false;
                                        },
                                    }
                                }
                            },
                        }
                    } else {
                        break;
                    }
                },
                None => {
                    break;
                },
            }
        }
    }

    /// Reads the run of characters of class `k` that continues here, appending it to `text`.
    fn take_run(&mut self, text: &mut String, k: CharClass)
        requires
            old(self).wf(),
        ensures
            final(self).wf(),
            final(self).input() == old(self).input(),
            final(self).has_failed() == old(self).has_failed(),
            final(self).position() == run_end(old(self).input(), old(self).position(), k),
            final(text)@ == old(text)@ + old(self).input().subrange(
                old(self).position(),
                final(self).position(),
            ),
    {
        let ghost s = self.chars@;
        let ghost p0 = self.pos as int;
        let ghost t0 = text@;
        loop
            invariant
                self.wf(),
                self.chars@ == s,
                self.error == old(self).error,
                0 <= p0 <= self.pos <= s.len(),
                run_end(s, p0, k) == run_end(s, self.pos as int, k),
                text@ == t0 + s.subrange(p0, self.pos as int),
            ensures
                self.pos == run_end(s, p0, k),
            decreases s.len() - self.pos,
        {
            match self.peek() {
                Some(c) => {
                    if char_in_class(c, k) {
                        let ghost pp = self.pos as int;
                        if let Some(d) = self.next_char() {
                            push_char(text, d);
                            proof { lemma_subrange_extend(s, p0, pp); }
                            assert(text@ =~= t0 + s.subrange(p0, self.pos as int));
                        }
                    } else {
                        break;
                    }
                },
                None => {
                    break;
                },
            }
        }
    }

    /// Reads the rest of a word whose first character `c` was just read: an
    /// identifier, or the keyword `new` or `return`.
    fn identifier(&mut self, c: char) -> (res: LexerResult<Token>)
        requires
            old(self).wf(),
        ensures
            final(self).wf(),
            final(self).input() == old(self).input(),
            final(self).has_failed() == old(self).has_failed(),
            final(self).position() == run_end(old(self).input(), old(self).position(), CharClass::IdentTail),
            res is Ok,
            token_view(res->Ok_0) == (
                word_token(seq![c] + old(self).input().subrange(old(self).position(), final(self).position())),
                (
                    line_at(old(self).input(), old(self).position()),
                    col_at(old(self).input(), old(self).position()),
                    col_at(old(self).input(), final(self).position()),
                ),
            ),
    {
        let ghost s = self.chars@;
        let ghost p0 = self.pos as int;
        let mut span = self.create_span();
        let mut ident = String::new();
        push_char(&mut ident, c);
        self.take_run(&mut ident, CharClass::IdentTail);
        span.ecol = self.col;
        proof {
            lemma_run_end_bounds(s, p0, CharClass::IdentTail);
            assert(ident@ =~= seq![c] + s.subrange(p0, self.pos as int));
        }
        let tok = if spells(&ident, "new") {
            LexerToken::Keyword(Keyword::New)
        } else if spells(&ident, "return") {
            LexerToken::Keyword(Keyword::Return)
        } else {
            LexerToken::Identifier(ident)
        };
        Ok((tok, span))
    }

    /// Reads the rest of a type name whose first character `c` was just read.
    fn typename(&mut self, c: char) -> (res: LexerResult<Token>)
        requires
            old(self).wf(),
        ensures
            final(self).wf(),
            final(self).input() == old(self).input(),
            final(self).has_failed() == old(self).has_failed(),
            final(self).position() == run_end(old(self).input(), old(self).position(), CharClass::Alnum),
            res is Ok,
            token_view(res->Ok_0) == (
                TokenView::Typename(seq![c] + old(self).input().subrange(old(self).position(), final(self).position())),
                (
                    line_at(old(self).input(), old(self).position()),
                    col_at(old(self).input(), old(self).position()),
                    col_at(old(self).input(), final(self).position()),
                ),
            ),
    {
        let ghost s = self.chars@;
        let ghost p0 = self.pos as int;
        let mut span = self.create_span();
        let mut ident = String::new();
        push_char(&mut ident, c);
        self.take_run(&mut ident, CharClass::Alnum);
        span.ecol = self.col;
        proof {
            lemma_run_end_bounds(s, p0, CharClass::Alnum);
            assert(ident@ =~= seq![c] + s.subrange(p0, self.pos as int));
        }
        Ok((LexerToken::Typename(ident), span))
    }

    /// Reads the digits of a hexadecimal number whose prefix was just read; they make a
    /// type-name token.
    fn hex_number(&mut self) -> (res: LexerResult<Token>)
        requires
            old(self).wf(),
        ensures
            final(self).wf(),
            final(self).input() == old(self).input(),
            final(self).has_failed() == old(self).has_failed(),
            final(self).position() == run_end(old(self).input(), old(self).position(), CharClass::Hex),
            res is Ok,
            token_view(res->Ok_0) == (
                TokenView::Typename(old(self).input().subrange(old(self).position(), final(self).position())),
                (
                    line_at(old(self).input(), old(self).position()),
                    col_at(old(self).input(), old(self).position()),
                    col_at(old(self).input(), final(self).position()),
                ),
            ),
    {
        let ghost s = self.chars@;
        let ghost p0 = self.pos as int;
        let mut span = self.create_span();
        let mut ident = String::new();
        self.take_run(&mut ident, CharClass::Hex);
        span.ecol = self.col;
        proof {
            lemma_run_end_bounds(s, p0, CharClass::Hex);
            assert(ident@ =~= s.subrange(p0, self.pos as int));
        }
        Ok((LexerToken::Typename(ident), span))
    }

    /// Reads the digits of a octal number whose prefix was just read; they make a
    /// type-name token.
    fn octal_number(&mut self) -> (res: LexerResult<Token>)
        requires
            old(self).wf(),
        ensures
            final(self).wf(),
            final(self).input() == old(self).input(),
            final(self).has_failed() == old(self).has_failed(),
            final(self).position() == run_end(old(self).input(), old(self).position(), CharClass::Octal),
            res is Ok,
            token_view(res->Ok_0) == (
                TokenView::Typename(old(self).input().subrange(old(self).position(), final(self).position())),
                (
                    line_at(old(self).input(), old(self).position()),
                    col_at(old(self).input(), old(self).position()),
                    col_at(old(self).input(), final(self).position()),
                ),
            ),
    {
        let ghost s = self.chars@;
        let ghost p0 = self.pos as int;
        let mut span = self.create_span();
        let mut ident = String::new();
        self.take_run(&mut ident, CharClass::Octal);
        span.ecol = self.col;
        proof {
            lemma_run_end_bounds(s, p0, CharClass::Octal);
            assert(ident@ =~= s.subrange(p0, self.pos as int));
        }
        Ok((LexerToken::Typename(ident), span))
    }

    /// Reads the digits of a base-36 number whose prefix was just read; they make a
    /// type-name token.
    fn base36_number(&mut self) -> (res: LexerResult<Token>)
        requires
            old(self).wf(),
        ensures
            final(self).wf(),
            final(self).input() == old(self).input(),
            final(self).has_failed() == old(self).has_failed(),
            final(self).position() == run_end(old(self).input(), old(self).position(), CharClass::Base36),
            res is Ok,
            token_view(res->Ok_0) == (
                TokenView::Typename(old(self).input().subrange(old(self).position(), final(self).position())),
                (
                    line_at(old(self).input(), old(self).position()),
                    col_at(old(self).input(), old(self).position()),
                    col_at(old(self).input(), final(self).position()),
                ),
            ),
    {
        let ghost s = self.chars@;
        let ghost p0 = self.pos as int;
        let mut span = self.create_span();
        let mut ident = String::new();
        self.take_run(&mut ident, CharClass::Base36);
        span.ecol = self.col;
        proof {
            lemma_run_end_bounds(s, p0, CharClass::Base36);
            assert(ident@ =~= s.subrange(p0, self.pos as int));
        }
        Ok((LexerToken::Typename(ident), span))
    }

    /// Reads the rest of a decimal number whose first digit `c` was just read:
    /// digits with at most one `.` among them. A number that ends in `.` is an error.
    fn number(&mut self, c: char) -> (res: LexerResult<Token>)
        requires
            old(self).wf(),
        ensures
            final(self).wf(),
            final(self).input() == old(self).input(),
            final(self).has_failed() == old(self).has_failed(),
            final(self).position() == number_end(old(self).input(), old(self).position(), false),
            ({
                let s = old(self).input();
                let e = final(self).position();
                let text = seq![c] + s.subrange(old(self).position(), e);
                if text.last() == '.' {
                    &&& res is Err
                    &&& res->Err_0@ == error_at(s, e, ErrorKindView::Unspecified("Malformed number: "@ + text))
                } else {
                    &&& res is Ok
                    &&& token_view(res->Ok_0) == (
                        TokenView::Number(text),
                        (line_at(s, old(self).position()), col_at(s, old(self).position()), col_at(s, e)),
                    )
                }
            }),
    {
        let ghost s = self.chars@;
        let ghost p0 = self.pos as int;
        let mut span = self.create_span();
        let mut number = String::new();
        push_char(&mut number, c);
        let mut last = c;
        let mut see_dot = false;
        proof {
            assert(number@ =~= seq![c] + s.subrange(p0, p0));
        }
        loop
            invariant
                self.wf(),
                self.chars@ == s,
                self.error == old(self).error,
                0 <= p0 <= self.pos <= s.len(),
                number_end(s, p0, false) == number_end(s, self.pos as int, see_dot),
                number@ == seq![c] + s.subrange(p0, self.pos as int),
                last == number@.last(),
            ensures
                self.pos == number_end(s, p0, false),
            decreases s.len() - self.pos,
        {
            let ghost pp = self.pos as int;
            match self.peek() {
                Some(d) => {
                    if d == '.' && !see_dot {
                        see_dot = true;
                        push_char(&mut number, '.');
                        last = '.';
                        self.next_char();
                        proof {
                            lemma_subrange_extend(s, p0, pp);
                            assert(number@ =~= seq![c] + s.subrange(p0, self.pos as int));
                        }
                    } else if char_is_digit(d) {
                        push_char(&mut number, d);
                        last = d;
                        self.next_char();
                        proof {
                            lemma_subrange_extend(s, p0, pp);
                            assert(number@ =~= seq![c] + s.subrange(p0, self.pos as int));
                        }
                    } else {
                        break;
                    }
                },
                None => {
                    break;
                },
            }
        }
        span.ecol = self.col;
        if last == '.' {
            let mut msg = "Malformed number: ".to_owned();
            msg.append(number.as_str());
            Err(LexerError::new_unspecified(self.ln, self.col, msg.as_str()))
        } else {
            Ok((LexerToken::Number(number), span))
        }
    }

    /// Reads the rest of an operator that may be followed by `=`: `with_equal`
    /// when `=` comes next (and is read), `alone` otherwise.
    fn operator(&mut self, alone: Symbol, with_equal: Symbol) -> (res: Token)
        requires
            old(self).wf(),
        ensures
            final(self).wf(),
            final(self).input() == old(self).input(),
            final(self).has_failed() == old(self).has_failed(),
            ({
                let s = old(self).input();
                let p = old(self).position();
                if char_at_is(s, p, '=') {
                    &&& final(self).position() == p + 1
                    &&& token_view(res) == (
                        TokenView::Symbol(with_equal),
                        (line_at(s, p), col_at(s, p), col_at(s, p + 1)),
                    )
                } else {
                    &&& final(self).position() == p
                    &&& token_view(res) == (TokenView::Symbol(alone), (line_at(s, p), col_at(s, p), col_at(s, p)))
                }
            }),
    {
        let mut span = self.create_span();
        let tok = match self.peek() {
            Some('=') => {
                self.next_char();
                LexerToken::Symbol(with_equal)
            },
            _ => LexerToken::Symbol(alone),
        };
        span.ecol = self.col;
        (tok, span)
    }

    /// Reads the next token: blanks and comments are skipped, then the token
    /// that starts there is read, as `next_token_spec` states.
    pub fn next_token(&mut self) -> (res: LexerResult<Token>)
        requires
            old(self).wf(),
        ensures
            final(self).wf(),
            final(self).input() == old(self).input(),
            final(self).has_failed() == old(self).has_failed(),
            (result_view(res), final(self).position()) == next_token_spec(
                old(self).input(),
                old(self).position(),
            ),
    {
        let ghost s = self.chars@;
        self.eat_whitespace_and_comments();
        proof {
            lemma_trivia_end_bounds(s, old(self).pos as int, Trivia::Code);
            if self.pos < s.len() {
                lemma_subrange_split_first(s, self.pos as int);
                lemma_run_end_bounds(s, self.pos + 1, CharClass::IdentTail);
                lemma_run_end_bounds(s, self.pos + 1, CharClass::Alnum);
                lemma_number_end_bounds(s, self.pos + 1, false);
            }
        }
        let c = self.expect()?;
        match c {
            '=' => Ok(self.operator(Symbol::Equal, Symbol::EqualEqual)),
            '+' => Ok(self.operator(Symbol::Plus, Symbol::PlusEqual)),
            '*' => Ok(self.operator(Symbol::Asterisk, Symbol::AsteriskEqual)),
            '/' => Ok(self.operator(Symbol::ForwardSlash, Symbol::ForwardSlashEqual)),
            '>' => Ok(self.operator(Symbol::GT, Symbol::GTEqual)),
            '<' => Ok(self.operator(Symbol::LT, Symbol::LTEqual)),
            '-' => {
                let mut span = self.create_span();
                let tok = match self.peek() {
                    Some('=') => {
                        self.next_char();
                        LexerToken::Symbol(Symbol::MinusEqual)
                    },
                    Some('>') => {
                        self.next_char();
                        LexerToken::Symbol(Symbol::ThinArrow)
                    },
                    _ => LexerToken::Symbol(Symbol::Minus),
                };
                span.ecol = self.col;
                Ok((tok, span))
            },
            '{' => Ok((LexerToken::Symbol(Symbol::LBrace), self.create_span())),
            '}' => Ok((LexerToken::Symbol(Symbol::RBrace), self.create_span())),
            ':' => Ok((LexerToken::Symbol(Symbol::Colon), self.create_span())),
            ';' => Ok((LexerToken::Symbol(Symbol::Semicolon), self.create_span())),
            '(' => Ok((LexerToken::Symbol(Symbol::LParen), self.create_span())),
            ')' => Ok((LexerToken::Symbol(Symbol::RParen), self.create_span())),
            '.' => Ok((LexerToken::Symbol(Symbol::Dot), self.create_span())),
            ',' => Ok((LexerToken::Symbol(Symbol::Comma), self.create_span())),
            '[' => Ok((LexerToken::Symbol(Symbol::LBracket), self.create_span())),
            ']' => Ok((LexerToken::Symbol(Symbol::RBracket), self.create_span())),
            '^' => Ok((LexerToken::Symbol(Symbol::Caret), self.create_span())),
            c if char_is_ident_start(c) => self.identifier(c),
            c if char_is_upper(c) => self.typename(c),
            '0' => match self.peek() {
                Some('x') => {
                    self.next_char();
                    self.hex_number()
                },
                Some('o') => {
                    self.next_char();
                    self.octal_number()
                },
                Some('b') => {
                    self.next_char();
                    self.base36_number()
                },
                _ => self.number('0'),
            },
            c if char_is_digit(c) => self.number(c),
            o => {
                let mut msg = "Unknown token: ".to_owned();
                push_char(&mut msg, o);
                Err(LexerError::new_unspecified(self.ln, self.col, msg.as_str()))
            },
        }
    }

    /// The next item of the stream of tokens: `None` once every character has
    /// been read or an error has been returned, and then the lexer stays as it is;
    /// otherwise the result of `next_token`, which reads at least one character,
    /// and an error ends the stream.
    pub fn next(&mut self) -> (res: Option<LexerResult<Token>>)
        requires
            old(self).wf(),
        ensures
            final(self).wf(),
            final(self).input() == old(self).input(),
            if old(self).position() >= old(self).input().len() || old(self).has_failed() {
                &&& res is None
                &&& *final(self) == *old(self)
            } else {
                &&& res is Some
                &&& (result_view(res->0), final(self).position()) == next_token_spec(
                    old(self).input(),
                    old(self).position(),
                )
                &&& final(self).has_failed() == (res->0 is Err)
                &&& old(self).position() < final(self).position() <= old(self).input().len()
            },
    {
        if self.at_end() || self.error {
            None
        } else {
            proof {
                lemma_next_token_advances(self.chars@, self.pos as int);
            }
            let tok = self.next_token();
            self.error = tok.is_err();
            Some(tok)
        }
    }

    /// Every remaining item of the stream of tokens, in order.
    pub fn collect_results(&mut self) -> (res: Vec<LexerResult<Token>>)
        requires
            old(self).wf(),
        ensures
            final(self).wf(),
            final(self).input() == old(self).input(),
            final(self).has_failed() || final(self).position() == final(self).input().len(),
            res@.map_values(|r: LexerResult<Token>| result_view(r)) == (if old(self).has_failed() {
                Seq::empty()
            } else {
                lex_all(old(self).input(), old(self).position())
            }),
    {
        let ghost s = self.chars@;
        let ghost p0 = self.pos as int;
        let ghost all = if self.error { Seq::empty() } else { lex_all(s, p0) };
        let mut out: Vec<LexerResult<Token>> = Vec::new();
        loop
            invariant
                self.wf(),
                self.chars@ == s,
                all == out@.map_values(|r: LexerResult<Token>| result_view(r)) + (if self.error {
                    Seq::empty()
                } else {
                    lex_all(s, self.pos as int)
                }),
            ensures
                all == out@.map_values(|r: LexerResult<Token>| result_view(r)),
            decreases s.len() - self.pos, if self.error { 0int } else { 1int },
        {
            let ghost before = out@.map_values(|r: LexerResult<Token>| result_view(r));
            let ghost pp = self.pos as int;
            match self.next() {
                Some(r) => {
                    proof {
                        lemma_next_token_advances(s, pp);
                    }
                    out.push(r);
                    assert(out@.map_values(|r: LexerResult<Token>| result_view(r)) =~= before.push(
                        result_view(r),
                    ));
                },
                None => {
                    break;
                },
            }
        }
        out
    }
}

} // verus!
