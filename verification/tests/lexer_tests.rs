use lib::lexer::{Keyword, Lexer, LexerError, LexerResult, LexerToken, Span, Symbol, Token};

fn lex(text: &str) -> Vec<LexerResult<Token>> {
    let mut lexer = Lexer::new(text);
    lexer.collect_results()
}

fn shown(r: &LexerResult<Token>) -> String {
    match r {
        Ok((tok, span)) => format!("{:?} {}:{}-{}", tok, span.line(), span.start(), span.end()),
        Err(e) => format!("{:?}", e),
    }
}

fn all_shown(text: &str) -> Vec<String> {
    lex(text).iter().map(shown).collect()
}

#[test]
fn span_getters() {
    let s = Span::new(3, 4, 7);
    assert_eq!(s.line(), 3);
    assert_eq!(s.start(), 4);
    assert_eq!(s.end(), 7);
}

#[test]
fn error_constructors() {
    let e = LexerError::eof(2, 5);
    assert!(e.is_eof());
    let u = LexerError::new_unspecified(1, 1, "oops");
    assert!(!u.is_eof());
    assert_eq!(
        format!("{:?}", u),
        "LexerError { ln: 1, col: 1, letype: Unspecified(\"oops\") }"
    );
}

#[test]
fn identifier_span_starts_after_first_char() {
    assert_eq!(all_shown("abc"), vec!["Identifier(\"abc\") 1:2-4"]);
}

#[test]
fn identifier_with_punctuation() {
    assert_eq!(all_shown("_a?b!c@1"), vec!["Identifier(\"_a?b!c@1\") 1:2-9"]);
}

#[test]
fn keywords_new_and_return() {
    assert_eq!(
        all_shown("new return newer"),
        vec![
            "Keyword(New) 1:2-4",
            "Keyword(Return) 1:6-11",
            "Identifier(\"newer\") 1:13-17",
        ]
    );
}

#[test]
fn typename_stops_at_punctuation() {
    assert_eq!(
        all_shown("Foo1_x"),
        vec!["Typename(\"Foo1\") 1:2-5", "Identifier(\"_x\") 1:6-7"]
    );
}

#[test]
fn operators_with_and_without_equal() {
    assert_eq!(
        all_shown("= == + += * *= / /= > >= < <="),
        vec![
            "Symbol(Equal) 1:2-2",
            "Symbol(EqualEqual) 1:4-5",
            "Symbol(Plus) 1:7-7",
            "Symbol(PlusEqual) 1:9-10",
            "Symbol(Asterisk) 1:12-12",
            "Symbol(AsteriskEqual) 1:14-15",
            "Symbol(ForwardSlash) 1:17-17",
            "Symbol(ForwardSlashEqual) 1:19-20",
            "Symbol(GT) 1:22-22",
            "Symbol(GTEqual) 1:24-25",
            "Symbol(LT) 1:27-27",
            "Symbol(LTEqual) 1:29-30",
        ]
    );
}

#[test]
fn minus_forms() {
    assert_eq!(
        all_shown("- -= ->"),
        vec!["Symbol(Minus) 1:2-2", "Symbol(MinusEqual) 1:4-5", "Symbol(ThinArrow) 1:7-8"]
    );
}

#[test]
fn single_symbols() {
    let kinds: Vec<String> = lex("{}:;().,[]^")
        .iter()
        .map(|r| format!("{:?}", r.as_ref().unwrap().0))
        .collect();
    assert_eq!(
        kinds,
        vec![
            "Symbol(LBrace)",
            "Symbol(RBrace)",
            "Symbol(Colon)",
            "Symbol(Semicolon)",
            "Symbol(LParen)",
            "Symbol(RParen)",
            "Symbol(Dot)",
            "Symbol(Comma)",
            "Symbol(LBracket)",
            "Symbol(RBracket)",
            "Symbol(Caret)",
        ]
    );
}

#[test]
fn prefixed_numbers_are_typenames_without_prefix() {
    assert_eq!(
        all_shown("0x1fG 0o178 0bZz9"),
        vec![
            "Typename(\"1f\") 1:3-5",
            "Typename(\"G\") 1:6-6",
            "Typename(\"17\") 1:9-11",
            "Number(\"8\") 1:12-12",
            "Typename(\"Zz9\") 1:15-18",
        ]
    );
}

#[test]
fn decimal_numbers() {
    assert_eq!(
        all_shown("12.5 0 7.25.3"),
        vec![
            "Number(\"12.5\") 1:2-5",
            "Number(\"0\") 1:7-7",
            "Number(\"7.25\") 1:9-12",
            "Symbol(Dot) 1:13-13",
            "Number(\"3\") 1:14-14",
        ]
    );
}

#[test]
fn number_ending_in_dot_is_malformed() {
    let r = lex("x 12.");
    assert_eq!(r.len(), 2);
    assert_eq!(
        shown(&r[1]),
        "LexerError { ln: 1, col: 6, letype: Unspecified(\"Malformed number: 12.\") }"
    );
}

#[test]
fn unknown_character() {
    let r = lex("a $ b");
    assert_eq!(r.len(), 2);
    assert_eq!(shown(&r[0]), "Identifier(\"a\") 1:2-2");
    assert_eq!(
        shown(&r[1]),
        "LexerError { ln: 1, col: 4, letype: Unspecified(\"Unknown token: $\") }"
    );
}

#[test]
fn trailing_blanks_end_in_eof_error() {
    let r = lex("a  \n ");
    assert_eq!(r.len(), 2);
    match &r[1] {
        Err(e) => assert!(e.is_eof()),
        Ok(_) => panic!("expected the end-of-input error"),
    }
    assert_eq!(shown(&r[1]), "LexerError { ln: 2, col: 2, letype: EOF }");
}

#[test]
fn line_comment_and_newlines() {
    assert_eq!(
        all_shown("# note\n\tx\r\n  yy"),
        vec!["Identifier(\"x\") 2:3-3", "Identifier(\"yy\") 3:4-5"]
    );
}

#[test]
fn nested_block_comment() {
    assert_eq!(
        all_shown("a #{ one #{ two #} three\n #} b"),
        vec!["Identifier(\"a\") 1:2-2", "Identifier(\"b\") 2:6-6"]
    );
}

#[test]
fn unclosed_block_comment_runs_to_the_end() {
    let r = lex("a #{ b");
    assert_eq!(r.len(), 2);
    assert_eq!(shown(&r[1]), "LexerError { ln: 1, col: 7, letype: EOF }");
}

#[test]
fn hash_at_end_of_input() {
    let r = lex("a #");
    assert_eq!(r.len(), 2);
    assert!(r[1].as_ref().unwrap_err().is_eof());
}

#[test]
fn next_token_reports_eof_on_empty_input() {
    let mut lexer = Lexer::new("");
    assert!(lexer.at_end());
    let r = lexer.next_token();
    assert_eq!(shown(&r), "LexerError { ln: 1, col: 1, letype: EOF }");
}

#[test]
fn stream_stops_after_error() {
    let mut lexer = Lexer::new("a $ b c");
    assert!(lexer.next().unwrap().is_ok());
    assert!(lexer.next().unwrap().is_err());
    assert!(lexer.next().is_none());
    assert!(lexer.next().is_none());
    assert!(!lexer.at_end());
}

#[test]
fn stream_stops_at_end_of_input() {
    let mut lexer = Lexer::new("a");
    assert!(lexer.next().unwrap().is_ok());
    assert!(lexer.at_end());
    assert!(lexer.next().is_none());
}

#[test]
fn only_the_last_result_is_an_error() {
    let r = lex("a b $ c d");
    assert_eq!(r.len(), 3);
    assert!(r[0].is_ok() && r[1].is_ok() && r[2].is_err());
}

#[test]
fn tokens_stay_on_one_line() {
    for r in lex("abc\n  Def 0x12\n12.5 += ->") {
        let (_, span) = r.unwrap();
        assert!(span.start() <= span.end());
    }
}

#[test]
fn as_identifier_gives_the_name() {
    let r = lex("name 12");
    let (t0, _) = r[0].as_ref().unwrap();
    let (t1, _) = r[1].as_ref().unwrap();
    assert_eq!(t0.as_identifier(), Some("name".to_string()));
    assert_eq!(t1.as_identifier(), None);
    assert_eq!(LexerToken::Keyword(Keyword::New).as_identifier(), None);
    assert_eq!(LexerToken::Symbol(Symbol::Plus).as_identifier(), None);
}

#[test]
fn token_clone_is_equal() {
    let t = LexerToken::Identifier("x".to_string());
    assert_eq!(format!("{:?}", t.clone()), format!("{:?}", t));
}
