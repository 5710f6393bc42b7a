//! The lexical grammar, stated over the sequence of input characters.
//!
//! Every function here is a specification: it says, for an input `s` and a
//! position `i` in it, which characters the lexer skips, which token starts
//! there, where that token ends, and what line and column a position has.
use vstd::prelude::*;

use crate::lexer::{ErrorKindView, LexerErrorView};
use crate::token::{Keyword, Symbol, TokenView};

verus! {

// ------------------------------------------------------------------
// Character classes
// ------------------------------------------------------------------
pub open spec fn is_lower(c: char) -> bool {
    'a' <= c && c <= 'z'
}

pub open spec fn is_upper(c: char) -> bool {
    'A' <= c && c <= 'Z'
}

pub open spec fn is_digit(c: char) -> bool {
    '0' <= c && c <= '9'
}

pub open spec fn is_alnum(c: char) -> bool {
    is_lower(c) || is_upper(c) || is_digit(c)
}

/// The four punctuation characters that may occur in identifiers: `?`, `_`, `!`, `@`.
pub open spec fn is_ident_punct(c: char) -> bool {
    c == '?' || c == '_' || c == '!' || c == '@'
}

/// A character that starts an identifier.
pub open spec fn is_ident_start(c: char) -> bool {
    is_lower(c) || is_ident_punct(c)
}

/// Space, newline, carriage return and tab.
pub open spec fn is_blank(c: char) -> bool {
    c == ' ' || c == '\n' || c == '\r' || c == '\t'
}

pub open spec fn is_hex_digit(c: char) -> bool {
    is_digit(c) || ('a' <= c && c <= 'f') || ('A' <= c && c <= 'F')
}

pub open spec fn is_octal_digit(c: char) -> bool {
    '0' <= c && c <= '7'
}

/// A digit in base 36: a decimal digit or a letter of either case.
pub open spec fn is_base36_digit(c: char) -> bool {
    is_alnum(c)
}

/// The classes of characters that make up the rest of a token after its first character.
#[derive(Clone, Copy, PartialEq, Eq, Structural)]
pub enum CharClass {
    /// The tail of an identifier: letters, digits and `?_!@`.
    IdentTail,
    /// The tail of a type name: letters and digits.
    Alnum,
    Hex,
    Octal,
    Base36,
}

pub open spec fn in_class(c: char, k: CharClass) -> bool {
    match k {
        CharClass::IdentTail => is_alnum(c) || is_ident_punct(c),
        CharClass::Alnum => is_alnum(c),
        CharClass::Hex => is_hex_digit(c),
        CharClass::Octal => is_octal_digit(c),
        CharClass::Base36 => is_base36_digit(c),
    }
}

// ------------------------------------------------------------------
// Runs
// ------------------------------------------------------------------
/// The first index at or after `i` that holds no character of class `k`
/// (the length of `s` when the run reaches the end).
pub open spec fn run_end(s: Seq<char>, i: int, k: CharClass) -> int
    decreases s.len() - i,
{
    if 0 <= i < s.len() && in_class(s[i], k) {
        run_end(s, i + 1, k)
    } else {
        i
    }
}

/// Where a decimal number that continues at `i` ends: digits, and at most one
/// `.` among them (`seen_dot` says whether one was taken already).
pub open spec fn number_end(s: Seq<char>, i: int, seen_dot: bool) -> int
    decreases s.len() - i,
{
    if 0 <= i < s.len() && s[i] == '.' && !seen_dot {
        number_end(s, i + 1, true)
    } else if 0 <= i < s.len() && is_digit(s[i]) {
        number_end(s, i + 1, seen_dot)
    } else {
        i
    }
}

// ------------------------------------------------------------------
// Positions
// ------------------------------------------------------------------
/// The line reached after reading `p`: one plus the number of newlines in `p`.
pub open spec fn line_of(p: Seq<char>) -> nat
    decreases p.len(),
{
    if p.len() == 0 {
        1
    } else if p.last() == '\n' {
        line_of(p.drop_last()) + 1
    } else {
        line_of(p.drop_last())
    }
}

/// The column reached after reading `p`: one plus the number of characters
/// after the last newline of `p`.
pub open spec fn col_of(p: Seq<char>) -> nat
    decreases p.len(),
{
    if p.len() == 0 {
        1
    } else if p.last() == '\n' {
        1
    } else {
        col_of(p.drop_last()) + 1
    }
}

/// The line after the first `i` characters of `s`.
pub open spec fn line_at(s: Seq<char>, i: int) -> usize {
    line_of(s.take(i)) as usize
}

/// The column after the first `i` characters of `s`.
pub open spec fn col_at(s: Seq<char>, i: int) -> usize {
    col_of(s.take(i)) as usize
}

// ------------------------------------------------------------------
// Blanks and comments
// ------------------------------------------------------------------
/// What the lexer is in the middle of while it skips blanks and comments.
pub enum Trivia {
    /// Outside any comment.
    Code,
    /// Inside a `#` comment, which runs to the end of the line.
    LineComment,
    /// Inside a `#{ ... #}` comment, nested to the given depth.
    BlockComment(nat),
    /// Inside a block comment, just after a `#`.
    BlockHash(nat),
}

/// Where the blanks and comments that continue at `i` end, in state `m`.
/// A `#` followed by `{` opens a block comment; inside one, `#{` nests one level
/// deeper and `#}` closes one level; any other `#` starts a comment that ends
/// after the next newline. A block comment left open runs to the end of the input.
pub open spec fn trivia_end(s: Seq<char>, i: int, m: Trivia) -> int
    decreases s.len() - i,
{
    if i < 0 || i >= s.len() {
        i
    } else {
        let c = s[i];
        match m {
            Trivia::Code => {
                if is_blank(c) {
                    trivia_end(s, i + 1, Trivia::Code)
                } else if c == '#' {
                    if i + 1 < s.len() && s[i + 1] == '{' {
                        trivia_end(s, i + 1, Trivia::BlockComment(1))
                    } else {
                        trivia_end(s, i + 1, Trivia::LineComment)
                    }
                } else {
                    i
                }
            },
            Trivia::LineComment => {
                if c == '\n' {
                    trivia_end(s, i + 1, Trivia::Code)
                } else {
                    trivia_end(s, i + 1, Trivia::LineComment)
                }
            },
            Trivia::BlockComment(level) => {
                if c == '#' {
                    trivia_end(s, i + 1, Trivia::BlockHash(level))
                } else {
                    trivia_end(s, i + 1, Trivia::BlockComment(level))
                }
            },
            Trivia::BlockHash(level) => {
                if c == '{' {
                    trivia_end(s, i + 1, Trivia::BlockComment(level + 1))
                } else if c == '}' {
                    if level <= 1 {
                        trivia_end(s, i + 1, Trivia::Code)
                    } else {
                        trivia_end(s, i + 1, Trivia::BlockComment((level - 1) as nat))
                    }
                } else {
                    trivia_end(s, i + 1, Trivia::BlockComment(level))
                }
            },
        }
    }
}

// ------------------------------------------------------------------
// Tokens
// ------------------------------------------------------------------
/// The symbol that the single character `c` stands for, where it is one that
/// never combines with a following character.
pub open spec fn single_symbol(c: char) -> Option<Symbol> {
    if c == '{' {
        Some(Symbol::LBrace)
    } else if c == '}' {
        Some(Symbol::RBrace)
    } else if c == ':' {
        Some(Symbol::Colon)
    } else if c == ';' {
        Some(Symbol::Semicolon)
    } else if c == '(' {
        Some(Symbol::LParen)
    } else if c == ')' {
        Some(Symbol::RParen)
    } else if c == '.' {
        Some(Symbol::Dot)
    } else if c == ',' {
        Some(Symbol::Comma)
    } else if c == '[' {
        Some(Symbol::LBracket)
    } else if c == ']' {
        Some(Symbol::RBracket)
    } else if c == '^' {
        Some(Symbol::Caret)
    } else {
        None
    }
}

/// For an operator character that may be followed by `=`, the symbol alone and
/// the symbol with `=`: `=` `==`, `+` `+=`, `*` `*=`, `/` `/=`, `>` `>=`, `<` `<=`.
pub open spec fn operator_symbol(c: char) -> Option<(Symbol, Symbol)> {
    if c == '=' {
        Some((Symbol::Equal, Symbol::EqualEqual))
    } else if c == '+' {
        Some((Symbol::Plus, Symbol::PlusEqual))
    } else if c == '*' {
        Some((Symbol::Asterisk, Symbol::AsteriskEqual))
    } else if c == '/' {
        Some((Symbol::ForwardSlash, Symbol::ForwardSlashEqual))
    } else if c == '>' {
        Some((Symbol::GT, Symbol::GTEqual))
    } else if c == '<' {
        Some((Symbol::LT, Symbol::LTEqual))
    } else {
        None
    }
}

/// The token for the word `text`: the keywords `new` and `return`, or else an identifier.
pub open spec fn word_token(text: Seq<char>) -> TokenView {
    if text == "new"@ {
        TokenView::Keyword(Keyword::New)
    } else if text == "return"@ {
        TokenView::Keyword(Keyword::Return)
    } else {
        TokenView::Identifier(text)
    }
}

/// What starts at a position that holds no blank or comment.
pub enum Scan {
    /// A token; the position after which its span starts, and the position where it ends.
    Token(TokenView, int, int),
    /// A character that starts no token.
    Unknown(char),
    /// A number that ends in `.`: its text and the position where it ends.
    Malformed(Seq<char>, int),
}

/// `s[i]` exists and is `c`.
pub open spec fn char_at_is(s: Seq<char>, i: int, c: char) -> bool {
    0 <= i < s.len() && s[i] == c
}

/// The token that starts at `q`, for `q` inside `s`.
///
/// A token's span starts at the column reached after its first character
/// (after `0x`, `0o` or `0b` for the prefixed numbers) and ends at the column
/// reached after its last one. The prefixed numbers `0x..`, `0o..`, `0b..`
/// give a type-name token that holds their digits without the prefix.
pub open spec fn scan_at(s: Seq<char>, q: int) -> Scan {
    let c = s[q];
    let a = q + 1;
    if operator_symbol(c) is Some {
        let (one, two) = operator_symbol(c)->0;
        if char_at_is(s, a, '=') {
            Scan::Token(TokenView::Symbol(two), a, a + 1)
        } else {
            Scan::Token(TokenView::Symbol(one), a, a)
        }
    } else if c == '-' {
        if char_at_is(s, a, '=') {
            Scan::Token(TokenView::Symbol(Symbol::MinusEqual), a, a + 1)
        } else if char_at_is(s, a, '>') {
            Scan::Token(TokenView::Symbol(Symbol::ThinArrow), a, a + 1)
        } else {
            Scan::Token(TokenView::Symbol(Symbol::Minus), a, a)
        }
    } else if single_symbol(c) is Some {
        Scan::Token(TokenView::Symbol(single_symbol(c)->0), a, a)
    } else if is_ident_start(c) {
        let e = run_end(s, a, CharClass::IdentTail);
        Scan::Token(word_token(s.subrange(q, e)), a, e)
    } else if is_upper(c) {
        let e = run_end(s, a, CharClass::Alnum);
        Scan::Token(TokenView::Typename(s.subrange(q, e)), a, e)
    } else if c == '0' && char_at_is(s, a, 'x') {
        let e = run_end(s, a + 1, CharClass::Hex);
        Scan::Token(TokenView::Typename(s.subrange(a + 1, e)), a + 1, e)
    } else if c == '0' && char_at_is(s, a, 'o') {
        let e = run_end(s, a + 1, CharClass::Octal);
        Scan::Token(TokenView::Typename(s.subrange(a + 1, e)), a + 1, e)
    } else if c == '0' && char_at_is(s, a, 'b') {
        let e = run_end(s, a + 1, CharClass::Base36);
        Scan::Token(TokenView::Typename(s.subrange(a + 1, e)), a + 1, e)
    } else if is_digit(c) {
        let e = number_end(s, a, false);
        if s[e - 1] == '.' {
            Scan::Malformed(s.subrange(q, e), e)
        } else {
            Scan::Token(TokenView::Number(s.subrange(q, e)), a, e)
        }
    } else {
        Scan::Unknown(c)
    }
}

/// A token with its span, given as (line, start column, end column).
pub type TokenSpec = (TokenView, (usize, usize, usize));

/// The error reported at position `i` of `s`.
pub open spec fn error_at(s: Seq<char>, i: int, kind: ErrorKindView) -> LexerErrorView {
    LexerErrorView { ln: line_at(s, i), col: col_at(s, i), kind }
}

/// What reading one token from position `p` of `s` gives, and the position after it.
///
/// Blanks and comments are skipped first; at the end of the input the result is
/// an end-of-input error at that position. A character that starts no token is
/// an error at the position after it, a number ending in `.` an error at the
/// position after the number.
pub open spec fn next_token_spec(s: Seq<char>, p: int) -> (Result<TokenSpec, LexerErrorView>, int) {
    let q = trivia_end(s, p, Trivia::Code);
    if q >= s.len() {
        (Err(error_at(s, q, ErrorKindView::EOF)), q)
    } else {
        match scan_at(s, q) {
            Scan::Token(t, a, e) => (Ok((t, (line_at(s, a), col_at(s, a), col_at(s, e)))), e),
            Scan::Unknown(c) => (
                Err(error_at(s, q + 1, ErrorKindView::Unspecified("Unknown token: "@.push(c)))),
                q + 1,
            ),
            Scan::Malformed(text, e) => (
                Err(error_at(s, e, ErrorKindView::Unspecified("Malformed number: "@ + text))),
                e,
            ),
        }
    }
}


// ------------------------------------------------------------------
// Lemmas
// ------------------------------------------------------------------
/// Reading one more character moves the line and the column: a newline starts
/// the next line at column 1, any other character moves one column on.
pub proof fn lemma_read_one(s: Seq<char>, i: int)
    requires
        0 <= i < s.len(),
    ensures
        line_of(s.take(i + 1)) == (if s[i] == '\n' { line_of(s.take(i)) + 1 } else { line_of(s.take(i)) }),
        col_of(s.take(i + 1)) == (if s[i] == '\n' { 1 } else { col_of(s.take(i)) + 1 }),
{
    assert(s.take(i + 1).drop_last() =~= s.take(i));
}

/// Line and column after reading `p` are at least 1 and at most one more than its length.
pub proof fn lemma_position_bounds(p: Seq<char>)
    ensures
        1 <= line_of(p) <= p.len() + 1,
        1 <= col_of(p) <= p.len() + 1,
    decreases p.len(),
{
    if p.len() > 0 {
        lemma_position_bounds(p.drop_last());
    }
}

/// A run ends at or after where it starts, and inside the input when it starts there.
pub proof fn lemma_run_end_bounds(s: Seq<char>, i: int, k: CharClass)
    requires
        0 <= i <= s.len(),
    ensures
        i <= run_end(s, i, k) <= s.len(),
        forall|j: int| i <= j < run_end(s, i, k) ==> in_class(#[trigger] s[j], k),
        run_end(s, i, k) < s.len() ==> !in_class(s[run_end(s, i, k)], k),
    decreases s.len() - i,
{
    if i < s.len() && in_class(s[i], k) {
        lemma_run_end_bounds(s, i + 1, k);
    }
}

/// A number ends at or after where it continues, and inside the input when it starts there.
pub proof fn lemma_number_end_bounds(s: Seq<char>, i: int, seen_dot: bool)
    requires
        0 <= i <= s.len(),
    ensures
        i <= number_end(s, i, seen_dot) <= s.len(),
        forall|j: int| i <= j < number_end(s, i, seen_dot) ==> (is_digit(#[trigger] s[j]) || s[j] == '.'),
    decreases s.len() - i,
{
    if 0 <= i < s.len() && s[i] == '.' && !seen_dot {
        lemma_number_end_bounds(s, i + 1, true);
    } else if 0 <= i < s.len() && is_digit(s[i]) {
        lemma_number_end_bounds(s, i + 1, seen_dot);
    }
}

/// Skipping blanks and comments stays inside the input, and stops at its end or
/// at a character that starts neither a blank nor a comment.
pub proof fn lemma_trivia_end_bounds(s: Seq<char>, i: int, m: Trivia)
    requires
        0 <= i <= s.len(),
    ensures
        i <= trivia_end(s, i, m) <= s.len(),
        trivia_end(s, i, m) < s.len() ==> !is_blank(s[trivia_end(s, i, m)]) && s[trivia_end(s, i, m)] != '#',
    decreases s.len() - i,
{
    if i < s.len() {
        let c = s[i];
        match m {
            Trivia::Code => {
                if is_blank(c) {
                    lemma_trivia_end_bounds(s, i + 1, Trivia::Code);
                } else if c == '#' {
                    if i + 1 < s.len() && s[i + 1] == '{' {
                        lemma_trivia_end_bounds(s, i + 1, Trivia::BlockComment(1));
                    } else {
                        lemma_trivia_end_bounds(s, i + 1, Trivia::LineComment);
                    }
                }
            },
            Trivia::LineComment => {
                if c == '\n' {
                    lemma_trivia_end_bounds(s, i + 1, Trivia::Code);
                } else {
                    lemma_trivia_end_bounds(s, i + 1, Trivia::LineComment);
                }
            },
            Trivia::BlockComment(level) => {
                if c == '#' {
                    lemma_trivia_end_bounds(s, i + 1, Trivia::BlockHash(level));
                } else {
                    lemma_trivia_end_bounds(s, i + 1, Trivia::BlockComment(level));
                }
            },
            Trivia::BlockHash(level) => {
                if c == '{' {
                    lemma_trivia_end_bounds(s, i + 1, Trivia::BlockComment(level + 1));
                } else if c == '}' {
                    if level <= 1 {
                        lemma_trivia_end_bounds(s, i + 1, Trivia::Code);
                    } else {
                        lemma_trivia_end_bounds(s, i + 1, Trivia::BlockComment((level - 1) as nat));
                    }
                } else {
                    lemma_trivia_end_bounds(s, i + 1, Trivia::BlockComment(level));
                }
            },
        }
    }
}

/// Extending a slice of `s` by one character pushes that character.
pub proof fn lemma_subrange_extend(s: Seq<char>, i: int, j: int)
    requires
        0 <= i <= j < s.len(),
    ensures
        s.subrange(i, j + 1) == s.subrange(i, j).push(s[j]),
{
    assert(s.subrange(i, j + 1) =~= s.subrange(i, j).push(s[j]));
}

/// Reading a token from inside the input always moves forward, and never past the end.
pub proof fn lemma_next_token_advances(s: Seq<char>, p: int)
    requires
        0 <= p < s.len(),
    ensures
        p < next_token_spec(s, p).1 <= s.len(),
{
    let q = trivia_end(s, p, Trivia::Code);
    lemma_trivia_end_bounds(s, p, Trivia::Code);
    if q < s.len() {
        let a = q + 1;
        lemma_run_end_bounds(s, a, CharClass::IdentTail);
        lemma_run_end_bounds(s, a, CharClass::Alnum);
        lemma_number_end_bounds(s, a, false);
        if a < s.len() {
            lemma_run_end_bounds(s, a + 1, CharClass::Hex);
            lemma_run_end_bounds(s, a + 1, CharClass::Octal);
            lemma_run_end_bounds(s, a + 1, CharClass::Base36);
        }
    }
}

/// The results the lexer yields, one token at a time, from position `p` of `s`:
/// none once the input is read, and none after the first error.
pub open spec fn lex_all(s: Seq<char>, p: int) -> Seq<Result<TokenSpec, LexerErrorView>>
    decreases s.len() - p,
{
    if p < 0 || p >= s.len() {
        Seq::empty()
    } else {
        let (r, next) = next_token_spec(s, p);
        if r is Err {
            seq![r]
        } else {
            proof {
                lemma_next_token_advances(s, p);
            }
            seq![r] + lex_all(s, next)
        }
    }
}

/// Reading characters none of which is a newline stays on the line and moves
/// the column on by their number.
pub proof fn lemma_read_within_line(s: Seq<char>, i: int, j: int)
    requires
        0 <= i <= j <= s.len(),
        forall|k: int| i <= k < j ==> s[k] != '\n',
    ensures
        line_of(s.take(j)) == line_of(s.take(i)),
        col_of(s.take(j)) == col_of(s.take(i)) + (j - i),
    decreases j - i,
{
    if j > i {
        lemma_read_within_line(s, i, j - 1);
        lemma_read_one(s, j - 1);
    }
}

/// No token holds a newline: from where its span starts to where it ends the
/// line stays and the column moves on by the number of characters read.
pub proof fn lemma_scan_within_line(s: Seq<char>, q: int)
    requires
        0 <= q < s.len(),
    ensures
        scan_at(s, q) matches Scan::Token(t, a, e) ==> {
            &&& q < a <= e <= s.len()
            &&& line_of(s.take(e)) == line_of(s.take(a))
            &&& col_of(s.take(e)) == col_of(s.take(a)) + (e - a)
        },
{
    let a = q + 1;
    lemma_run_end_bounds(s, a, CharClass::IdentTail);
    lemma_run_end_bounds(s, a, CharClass::Alnum);
    lemma_number_end_bounds(s, a, false);
    if a < s.len() {
        lemma_run_end_bounds(s, a + 1, CharClass::Hex);
        lemma_run_end_bounds(s, a + 1, CharClass::Octal);
        lemma_run_end_bounds(s, a + 1, CharClass::Base36);
    }
    if let Scan::Token(t, a2, e) = scan_at(s, q) {
        assert forall|k: int| a2 <= k < e implies s[k] != '\n' by {
            if is_ident_start(s[q]) {
                assert(in_class(s[k], CharClass::IdentTail));
            } else if is_upper(s[q]) {
                assert(in_class(s[k], CharClass::Alnum));
            }
        }
        lemma_read_within_line(s, a2, e);
    }
}

/// Every token the lexer reads lies on one line: the line after it is the line
/// of its span, and its span does not end before it starts.
pub proof fn lemma_token_on_one_line(s: Seq<char>, p: int)
    requires
        0 <= p < s.len(),
        s.len() < usize::MAX,
    ensures
        next_token_spec(s, p) matches (Ok((_, (l, c1, c2))), e) ==> {
            &&& l == line_at(s, e)
            &&& c1 <= c2
        },
{
    let q = trivia_end(s, p, Trivia::Code);
    lemma_trivia_end_bounds(s, p, Trivia::Code);
    if q < s.len() {
        lemma_scan_within_line(s, q);
        if let Scan::Token(t, a, e) = scan_at(s, q) {
            lemma_position_bounds(s.take(a));
            lemma_position_bounds(s.take(e));
        }
    }
}

/// An error ends the stream of tokens: every result but the last one is a token.
pub proof fn lemma_errors_end_stream(s: Seq<char>, p: int)
    ensures
        forall|k: int| 0 <= k < lex_all(s, p).len() - 1 ==> (#[trigger] lex_all(s, p)[k]) is Ok,
    decreases s.len() - p,
{
    if 0 <= p < s.len() {
        let (r, next) = next_token_spec(s, p);
        if r is Ok {
            lemma_next_token_advances(s, p);
            lemma_errors_end_stream(s, next);
            assert forall|k: int| 0 <= k < lex_all(s, p).len() - 1 implies (#[trigger] lex_all(s, p)[k]) is Ok by {
                if k > 0 {
                    assert(lex_all(s, p)[k] == lex_all(s, next)[k - 1]);
                }
            }
        }
    }
}

/// A slice of `s` that starts at `q` is `s[q]` followed by the rest of the slice.
pub proof fn lemma_subrange_split_first(s: Seq<char>, q: int)
    requires
        0 <= q < s.len(),
    ensures
        forall|e: int| q < e <= s.len() ==> #[trigger] s.subrange(q, e) == seq![s[q]] + s.subrange(q + 1, e),
{
    assert forall|e: int| q < e <= s.len() implies #[trigger] s.subrange(q, e) == seq![s[q]] + s.subrange(q + 1, e) by {
        assert(s.subrange(q, e) =~= seq![s[q]] + s.subrange(q + 1, e));
    }
}

/// Skipping blanks and comments a second time skips nothing more.
pub proof fn lemma_skip_trivia_idempotent(s: Seq<char>, p: int)
    requires
        0 <= p <= s.len(),
    ensures
        trivia_end(s, trivia_end(s, p, Trivia::Code), Trivia::Code) == trivia_end(s, p, Trivia::Code),
{
    lemma_trivia_end_bounds(s, p, Trivia::Code);
}

// ------------------------------------------------------------------
// Laws of the lexical grammar, stated over the characters themselves
// ------------------------------------------------------------------
/// A run of class `k` from `i` ends at the first position that holds no
/// character of the class.
pub proof fn lemma_run_end_exact(s: Seq<char>, i: int, k: CharClass, e: int)
    requires
        0 <= i <= e <= s.len(),
        forall|j: int| i <= j < e ==> in_class(#[trigger] s[j], k),
        e == s.len() || !in_class(s[e], k),
    ensures
        run_end(s, i, k) == e,
    decreases e - i,
{
    if i < e {
        lemma_run_end_exact(s, i + 1, k, e);
    }
}

/// A number that continues at `i` ends where its digits and its one `.` end.
pub proof fn lemma_number_end_exact(s: Seq<char>, i: int, seen_dot: bool, e: int)
    requires
        0 <= i <= e <= s.len(),
        forall|j: int| i <= j < e ==> is_digit(#[trigger] s[j]) || s[j] == '.',
        seen_dot ==> forall|j: int| i <= j < e ==> #[trigger] s[j] != '.',
        forall|j1: int, j2: int| i <= j1 < j2 < e && #[trigger] s[j1] == '.' ==> #[trigger] s[j2] != '.',
        e == s.len() || (!is_digit(s[e]) && (s[e] != '.' || seen_dot || exists|j: int| i <= j < e && #[trigger] s[j] == '.')),
    ensures
        number_end(s, i, seen_dot) == e,
    decreases e - i,
{
    if i < e {
        if s[i] == '.' {
            assert(!seen_dot);
            assert forall|j: int| i + 1 <= j < e implies #[trigger] s[j] != '.' by {
                assert(s[i] == '.');
            }
            lemma_number_end_exact(s, i + 1, true, e);
        } else {
            if e < s.len() && s[e] == '.' && !seen_dot {
                let j = choose|j: int| i <= j < e && #[trigger] s[j] == '.';
                assert(j != i);
                assert(i + 1 <= j < e && s[j] == '.');
            }
            lemma_number_end_exact(s, i + 1, seen_dot, e);
        }
    }
}

/// `0x` followed by hexadecimal digits (`0`-`9`, `a`-`f`, `A`-`F`) is read as a
/// type name that holds all those digits, up to the first character that is no
/// hexadecimal digit; its span runs from after the `x` to the end of the digits.
pub proof fn law_hex_number(s: Seq<char>, p: int, e: int)
    requires
        0 <= p,
        p + 2 <= e <= s.len(),
        s[p] == '0',
        s[p + 1] == 'x',
        forall|k: int|
            p + 2 <= k < e ==> ('0' <= #[trigger] s[k] && s[k] <= '9') || ('a' <= s[k] && s[k] <= 'f') || (
            'A' <= s[k] && s[k] <= 'F'),
        e == s.len() || !(('0' <= s[e] && s[e] <= '9') || ('a' <= s[e] && s[e] <= 'f') || ('A' <= s[e]
            && s[e] <= 'F')),
    ensures
        next_token_spec(s, p) == (
            Ok::<TokenSpec, LexerErrorView>(
                (TokenView::Typename(s.subrange(p + 2, e)), (line_at(s, p + 2), col_at(s, p + 2), col_at(s, e))),
            ),
            e,
        ),
{
    lemma_run_end_exact(s, p + 2, CharClass::Hex, e);
}

/// `0o` followed by octal digits (`0`-`7`) is read as a type name that holds all
/// those digits, up to the first character that is no octal digit.
pub proof fn law_octal_number(s: Seq<char>, p: int, e: int)
    requires
        0 <= p,
        p + 2 <= e <= s.len(),
        s[p] == '0',
        s[p + 1] == 'o',
        forall|k: int| p + 2 <= k < e ==> '0' <= #[trigger] s[k] && s[k] <= '7',
        e == s.len() || !('0' <= s[e] && s[e] <= '7'),
    ensures
        next_token_spec(s, p) == (
            Ok::<TokenSpec, LexerErrorView>(
                (TokenView::Typename(s.subrange(p + 2, e)), (line_at(s, p + 2), col_at(s, p + 2), col_at(s, e))),
            ),
            e,
        ),
{
    lemma_run_end_exact(s, p + 2, CharClass::Octal, e);
}

/// `0b` followed by base-36 digits (`0`-`9` and the letters of either case) is
/// read as a type name that holds all those digits, up to the first character
/// that is no base-36 digit.
pub proof fn law_base36_number(s: Seq<char>, p: int, e: int)
    requires
        0 <= p,
        p + 2 <= e <= s.len(),
        s[p] == '0',
        s[p + 1] == 'b',
        forall|k: int|
            p + 2 <= k < e ==> ('0' <= #[trigger] s[k] && s[k] <= '9') || ('a' <= s[k] && s[k] <= 'z') || (
            'A' <= s[k] && s[k] <= 'Z'),
        e == s.len() || !(('0' <= s[e] && s[e] <= '9') || ('a' <= s[e] && s[e] <= 'z') || ('A' <= s[e]
            && s[e] <= 'Z')),
    ensures
        next_token_spec(s, p) == (
            Ok::<TokenSpec, LexerErrorView>(
                (TokenView::Typename(s.subrange(p + 2, e)), (line_at(s, p + 2), col_at(s, p + 2), col_at(s, e))),
            ),
            e,
        ),
{
    lemma_run_end_exact(s, p + 2, CharClass::Base36, e);
}

/// A word that starts with a lowercase letter or one of `?_!@` runs over every
/// following ASCII letter of either case, digit and `?_!@`; it is the keyword
/// `new` or `return` when it spells one, and an identifier holding the whole
/// word otherwise. Its span runs from after its first character to its end.
pub proof fn law_word(s: Seq<char>, p: int, e: int)
    requires
        0 <= p < e <= s.len(),
        ('a' <= s[p] && s[p] <= 'z') || s[p] == '?' || s[p] == '_' || s[p] == '!' || s[p] == '@',
        forall|k: int|
            p < k < e ==> ('a' <= #[trigger] s[k] && s[k] <= 'z') || ('A' <= s[k] && s[k] <= 'Z') || ('0'
                <= s[k] && s[k] <= '9') || s[k] == '?' || s[k] == '_' || s[k] == '!' || s[k] == '@',
        e == s.len() || !(('a' <= s[e] && s[e] <= 'z') || ('A' <= s[e] && s[e] <= 'Z') || ('0' <= s[e]
            && s[e] <= '9') || s[e] == '?' || s[e] == '_' || s[e] == '!' || s[e] == '@'),
    ensures
        next_token_spec(s, p) == (
            Ok::<TokenSpec, LexerErrorView>(
                (
                    if s.subrange(p, e) == "new"@ {
                        TokenView::Keyword(Keyword::New)
                    } else if s.subrange(p, e) == "return"@ {
                        TokenView::Keyword(Keyword::Return)
                    } else {
                        TokenView::Identifier(s.subrange(p, e))
                    },
                    (line_at(s, p + 1), col_at(s, p + 1), col_at(s, e)),
                ),
            ),
            e,
        ),
{
    lemma_run_end_exact(s, p + 1, CharClass::IdentTail, e);
}

/// A word that starts with an uppercase letter runs over every following ASCII
/// letter of either case and digit, and is a type name holding the whole word.
pub proof fn law_type_name(s: Seq<char>, p: int, e: int)
    requires
        0 <= p < e <= s.len(),
        'A' <= s[p] && s[p] <= 'Z',
        forall|k: int|
            p < k < e ==> ('a' <= #[trigger] s[k] && s[k] <= 'z') || ('A' <= s[k] && s[k] <= 'Z') || ('0'
                <= s[k] && s[k] <= '9'),
        e == s.len() || !(('a' <= s[e] && s[e] <= 'z') || ('A' <= s[e] && s[e] <= 'Z') || ('0' <= s[e]
            && s[e] <= '9')),
    ensures
        next_token_spec(s, p) == (
            Ok::<TokenSpec, LexerErrorView>(
                (TokenView::Typename(s.subrange(p, e)), (line_at(s, p + 1), col_at(s, p + 1), col_at(s, e))),
            ),
            e,
        ),
{
    lemma_run_end_exact(s, p + 1, CharClass::Alnum, e);
}

/// A decimal number, whatever its first digit (`0` included when no `x`, `o` or
/// `b` follows it), is the longest run of digits with at most one `.`: its text
/// is the whole run. When the run ends in `.` it is an error at the end of the
/// run; otherwise a number token whose span runs from after its first digit to
/// its end.
pub proof fn law_decimal_number(s: Seq<char>, p: int, e: int)
    requires
        0 <= p < e <= s.len(),
        '0' <= s[p] && s[p] <= '9',
        !(s[p] == '0' && p + 1 < s.len() && (s[p + 1] == 'x' || s[p + 1] == 'o' || s[p + 1] == 'b')),
        forall|k: int| p < k < e ==> ('0' <= #[trigger] s[k] && s[k] <= '9') || s[k] == '.',
        forall|j1: int, j2: int| p < j1 < j2 < e && #[trigger] s[j1] == '.' ==> #[trigger] s[j2] != '.',
        e == s.len() || (!('0' <= s[e] && s[e] <= '9') && (s[e] != '.' || exists|j: int|
            p < j < e && #[trigger] s[j] == '.')),
    ensures
        next_token_spec(s, p) == (if s[e - 1] == '.' {
            (
                Err::<TokenSpec, LexerErrorView>(
                    error_at(s, e, ErrorKindView::Unspecified("Malformed number: "@ + s.subrange(p, e))),
                ),
                e,
            )
        } else {
            (
                Ok::<TokenSpec, LexerErrorView>(
                    (TokenView::Number(s.subrange(p, e)), (line_at(s, p + 1), col_at(s, p + 1), col_at(s, e))),
                ),
                e,
            )
        }),
{
    if e < s.len() && s[e] == '.' {
        let j = choose|j: int| p < j < e && #[trigger] s[j] == '.';
        assert(p + 1 <= j < e && s[j] == '.');
    }
    lemma_number_end_exact(s, p + 1, false, e);
}

/// `s[p + 1]` exists and is `c`.
pub open spec fn followed_by(s: Seq<char>, p: int, c: char) -> bool {
    p + 1 < s.len() && s[p + 1] == c
}

/// A symbol token of `len` characters read at `p`, with the position after it.
pub open spec fn symbol_read(s: Seq<char>, p: int, sym: Symbol, len: int) -> (Result<TokenSpec, LexerErrorView>, int) {
    (Ok((TokenView::Symbol(sym), (line_at(s, p + 1), col_at(s, p + 1), col_at(s, p + len)))), p + len)
}

/// The symbols: `{ } : ; ( ) . , [ ] ^` stand alone; `= + * / > <` take a
/// following `=` into one symbol (`== += *= /= >= <=`); `-` takes a following
/// `=` or `>` (`-=`, `->`). A symbol's span starts after its first character.
pub proof fn law_symbols(s: Seq<char>, p: int)
    requires
        0 <= p < s.len(),
    ensures
        s[p] == '=' && followed_by(s, p, '=') ==> next_token_spec(s, p) == symbol_read(s, p, Symbol::EqualEqual, 2),
        s[p] == '=' && !followed_by(s, p, '=') ==> next_token_spec(s, p) == symbol_read(s, p, Symbol::Equal, 1),
        s[p] == '+' && followed_by(s, p, '=') ==> next_token_spec(s, p) == symbol_read(s, p, Symbol::PlusEqual, 2),
        s[p] == '+' && !followed_by(s, p, '=') ==> next_token_spec(s, p) == symbol_read(s, p, Symbol::Plus, 1),
        s[p] == '*' && followed_by(s, p, '=') ==> next_token_spec(s, p) == symbol_read(s, p, Symbol::AsteriskEqual, 2),
        s[p] == '*' && !followed_by(s, p, '=') ==> next_token_spec(s, p) == symbol_read(s, p, Symbol::Asterisk, 1),
        s[p] == '/' && followed_by(s, p, '=') ==> next_token_spec(s, p) == symbol_read(s, p, Symbol::ForwardSlashEqual, 2),
        s[p] == '/' && !followed_by(s, p, '=') ==> next_token_spec(s, p) == symbol_read(s, p, Symbol::ForwardSlash, 1),
        s[p] == '>' && followed_by(s, p, '=') ==> next_token_spec(s, p) == symbol_read(s, p, Symbol::GTEqual, 2),
        s[p] == '>' && !followed_by(s, p, '=') ==> next_token_spec(s, p) == symbol_read(s, p, Symbol::GT, 1),
        s[p] == '<' && followed_by(s, p, '=') ==> next_token_spec(s, p) == symbol_read(s, p, Symbol::LTEqual, 2),
        s[p] == '<' && !followed_by(s, p, '=') ==> next_token_spec(s, p) == symbol_read(s, p, Symbol::LT, 1),
        s[p] == '-' && followed_by(s, p, '=') ==> next_token_spec(s, p) == symbol_read(s, p, Symbol::MinusEqual, 2),
        s[p] == '-' && followed_by(s, p, '>') ==> next_token_spec(s, p) == symbol_read(s, p, Symbol::ThinArrow, 2),
        s[p] == '-' && !followed_by(s, p, '=') && !followed_by(s, p, '>') ==> next_token_spec(s, p) == symbol_read(
            s,
            p,
            Symbol::Minus,
            1,
        ),
        s[p] == '{' ==> next_token_spec(s, p) == symbol_read(s, p, Symbol::LBrace, 1),
        s[p] == '}' ==> next_token_spec(s, p) == symbol_read(s, p, Symbol::RBrace, 1),
        s[p] == ':' ==> next_token_spec(s, p) == symbol_read(s, p, Symbol::Colon, 1),
        s[p] == ';' ==> next_token_spec(s, p) == symbol_read(s, p, Symbol::Semicolon, 1),
        s[p] == '(' ==> next_token_spec(s, p) == symbol_read(s, p, Symbol::LParen, 1),
        s[p] == ')' ==> next_token_spec(s, p) == symbol_read(s, p, Symbol::RParen, 1),
        s[p] == '.' ==> next_token_spec(s, p) == symbol_read(s, p, Symbol::Dot, 1),
        s[p] == ',' ==> next_token_spec(s, p) == symbol_read(s, p, Symbol::Comma, 1),
        s[p] == '[' ==> next_token_spec(s, p) == symbol_read(s, p, Symbol::LBracket, 1),
        s[p] == ']' ==> next_token_spec(s, p) == symbol_read(s, p, Symbol::RBracket, 1),
        s[p] == '^' ==> next_token_spec(s, p) == symbol_read(s, p, Symbol::Caret, 1),
{
}

/// A character that starts no token (nor a blank or a comment) is an error at
/// the position after it, whose message names it.
pub proof fn law_unknown_character(s: Seq<char>, p: int)
    requires
        0 <= p < s.len(),
        !(s[p] == ' ' || s[p] == '\n' || s[p] == '\r' || s[p] == '\t' || s[p] == '#'),
        !(s[p] == '=' || s[p] == '+' || s[p] == '*' || s[p] == '/' || s[p] == '>' || s[p] == '<' || s[p] == '-'),
        !(s[p] == '{' || s[p] == '}' || s[p] == ':' || s[p] == ';' || s[p] == '(' || s[p] == ')' || s[p] == '.'
            || s[p] == ',' || s[p] == '[' || s[p] == ']' || s[p] == '^'),
        !(('a' <= s[p] && s[p] <= 'z') || ('A' <= s[p] && s[p] <= 'Z') || ('0' <= s[p] && s[p] <= '9')),
        !(s[p] == '?' || s[p] == '_' || s[p] == '!' || s[p] == '@'),
    ensures
        next_token_spec(s, p) == (
            Err::<TokenSpec, LexerErrorView>(
                error_at(s, p + 1, ErrorKindView::Unspecified("Unknown token: "@.push(s[p]))),
            ),
            p + 1,
        ),
{
}

/// At the end of the input the lexer reports the end-of-input error there.
pub proof fn law_end_of_input(s: Seq<char>)
    ensures
        next_token_spec(s, s.len() as int) == (
            Err::<TokenSpec, LexerErrorView>(error_at(s, s.len() as int, ErrorKindView::EOF)),
            s.len() as int,
        ),
{
}

/// A space, newline, carriage return or tab before a token is skipped: reading
/// from it is reading from the next character.
pub proof fn law_blank_skipped(s: Seq<char>, p: int)
    requires
        0 <= p < s.len(),
        s[p] == ' ' || s[p] == '\n' || s[p] == '\r' || s[p] == '\t',
    ensures
        next_token_spec(s, p) == next_token_spec(s, p + 1),
{
}

/// Skipping in a line comment goes to the next newline, whatever comes between.
proof fn lemma_line_comment_skip(s: Seq<char>, i: int, n: int)
    requires
        0 <= i <= n < s.len(),
        s[n] == '\n',
        forall|k: int| i <= k < n ==> #[trigger] s[k] != '\n',
    ensures
        trivia_end(s, i, Trivia::LineComment) == trivia_end(s, n + 1, Trivia::Code),
    decreases n - i,
{
    if i < n {
        lemma_line_comment_skip(s, i + 1, n);
    }
}

/// A `#` not followed by `{` starts a comment that ends with the line: reading
/// from it is reading from after the next newline.
pub proof fn law_line_comment_skipped(s: Seq<char>, p: int, n: int)
    requires
        0 <= p < n < s.len(),
        s[p] == '#',
        !followed_by(s, p, '{'),
        s[n] == '\n',
        forall|k: int| p < k < n ==> #[trigger] s[k] != '\n',
    ensures
        next_token_spec(s, p) == next_token_spec(s, n + 1),
{
    lemma_line_comment_skip(s, p + 1, n);
    lemma_trivia_end_bounds(s, n + 1, Trivia::Code);
}

/// Skipping inside a block comment over characters that hold no `#` stays in it.
proof fn lemma_block_comment_text(s: Seq<char>, i: int, m: int, level: nat)
    requires
        0 <= i <= m <= s.len(),
        forall|k: int| i <= k < m ==> #[trigger] s[k] != '#',
    ensures
        trivia_end(s, i, Trivia::BlockComment(level)) == trivia_end(s, m, Trivia::BlockComment(level)),
    decreases m - i,
{
    if i < m {
        lemma_block_comment_text(s, i + 1, m, level);
    }
}

/// A block comment `#{ ... #}` whose text holds no `#` is skipped as a whole:
/// reading from its `#` is reading from after its `#}`.
pub proof fn law_block_comment_skipped(s: Seq<char>, p: int, m: int)
    requires
        0 <= p,
        p + 1 < m,
        m + 1 < s.len(),
        s[p] == '#',
        s[p + 1] == '{',
        forall|k: int| p + 1 < k < m ==> #[trigger] s[k] != '#',
        s[m] == '#',
        s[m + 1] == '}',
    ensures
        next_token_spec(s, p) == next_token_spec(s, m + 2),
{
    lemma_block_comment_text(s, p + 2, m, 1);
    assert(trivia_end(s, p + 1, Trivia::BlockComment(1)) == trivia_end(s, p + 2, Trivia::BlockComment(1)));
    assert(trivia_end(s, m + 1, Trivia::BlockHash(1)) == trivia_end(s, m + 2, Trivia::Code));
    assert(trivia_end(s, m, Trivia::BlockComment(1)) == trivia_end(s, m + 1, Trivia::BlockHash(1)));
}

/// Block comments nest: in `#{ x #{ y #} z #}`, where x, y and z hold no `#`,
/// the inner `#}` does not end the outer comment, and the whole is skipped.
pub proof fn law_block_comments_nest(s: Seq<char>, p: int, q: int, r: int, m: int)
    requires
        0 <= p,
        p + 1 < q,
        q + 1 < r,
        r + 1 < m,
        m + 1 < s.len(),
        s[p] == '#',
        s[p + 1] == '{',
        s[q] == '#',
        s[q + 1] == '{',
        s[r] == '#',
        s[r + 1] == '}',
        s[m] == '#',
        s[m + 1] == '}',
        forall|k: int| p + 1 < k < q ==> #[trigger] s[k] != '#',
        forall|k: int| q + 1 < k < r ==> #[trigger] s[k] != '#',
        forall|k: int| r + 1 < k < m ==> #[trigger] s[k] != '#',
    ensures
        next_token_spec(s, p) == next_token_spec(s, m + 2),
{
    lemma_block_comment_text(s, p + 2, q, 1);
    lemma_block_comment_text(s, q + 2, r, 2);
    lemma_block_comment_text(s, r + 2, m, 1);
    assert(trivia_end(s, p + 1, Trivia::BlockComment(1)) == trivia_end(s, p + 2, Trivia::BlockComment(1)));
    assert(trivia_end(s, q + 1, Trivia::BlockHash(1)) == trivia_end(s, q + 2, Trivia::BlockComment(2)));
    assert(trivia_end(s, q, Trivia::BlockComment(1)) == trivia_end(s, q + 1, Trivia::BlockHash(1)));
    assert(trivia_end(s, r + 1, Trivia::BlockHash(2)) == trivia_end(s, r + 2, Trivia::BlockComment(1)));
    assert(trivia_end(s, r, Trivia::BlockComment(2)) == trivia_end(s, r + 1, Trivia::BlockHash(2)));
    assert(trivia_end(s, m + 1, Trivia::BlockHash(1)) == trivia_end(s, m + 2, Trivia::Code));
    assert(trivia_end(s, m, Trivia::BlockComment(1)) == trivia_end(s, m + 1, Trivia::BlockHash(1)));
}

/// The line reached after reading `p` is one plus the number of newlines in `p`.
pub proof fn law_line_counts_newlines(p: Seq<char>)
    ensures
        line_of(p) == 1 + p.filter(|c: char| c == '\n').len(),
    decreases p.len(),
{
    reveal(Seq::filter);
    if p.len() > 0 {
        law_line_counts_newlines(p.drop_last());
    }
}

/// The column reached after reading `p` is one plus the number of characters
/// after the last newline of `p` (after the start when there is none).
pub proof fn law_column_counts_from_last_newline(p: Seq<char>, i: int)
    requires
        0 <= i <= p.len(),
        i == 0 || p[i - 1] == '\n',
        forall|k: int| i <= k < p.len() ==> #[trigger] p[k] != '\n',
    ensures
        col_of(p) == p.len() - i + 1,
    decreases p.len(),
{
    if p.len() > i {
        assert forall|k: int| i <= k < p.drop_last().len() implies #[trigger] p.drop_last()[k] != '\n' by {
            assert(p.drop_last()[k] == p[k]);
        }
        if i > 0 {
            assert(p.drop_last()[i - 1] == p[i - 1]);
        }
        law_column_counts_from_last_newline(p.drop_last(), i);
    }
}

} // verus!
