use lib::ast::{Assignment, Binary, Expr, Identifier, Number, Path, Type};
use lib::lexer::{Lexer, LexerToken, Span, Symbol, Token};
use lib::parser::{Parser, ParserError};

fn tokens(text: &str) -> Vec<Token> {
    let mut lexer = Lexer::new(text);
    lexer
        .collect_results()
        .into_iter()
        .filter(|x| x.is_ok())
        .map(|x| x.unwrap())
        .collect()
}

fn ident(name: &str, col: usize) -> String {
    format!(
        "Identifier(Identifier {{ ident: (\"{}\", Span {{ ln: 1, col: {}, ecol: {} }}) }})",
        name,
        col,
        col + name.len() - 1
    )
}

fn binary(lhs: String, rhs: String, op: &str, col: usize) -> String {
    format!(
        "Binary(Binary {{ lhs: {}, rhs: {}, op: (Symbol({}), Span {{ ln: 1, col: {}, ecol: {} }}) }})",
        lhs, rhs, op, col, col
    )
}

#[test]
fn multiplication_binds_tighter_than_addition() {
    let mut p = Parser::new(tokens("a + b * c ;"));
    let e = p.expression().unwrap();
    let expected = binary(
        ident("a", 2),
        binary(ident("b", 6), ident("c", 10), "Asterisk", 8),
        "Plus",
        4,
    );
    assert_eq!(format!("{:?}", e), expected);
}

#[test]
fn lower_operator_after_higher_is_read_and_ends_the_operand() {
    // After `a * b`, the `+` is read at precedence 19 and ends the right operand;
    // the outer loop then stops at `c`, which is no operator.
    let mut p = Parser::new(tokens("a * b + c ;"));
    let e = p.expression().unwrap();
    assert_eq!(format!("{:?}", e), binary(ident("a", 2), ident("b", 6), "Asterisk", 4));
    let rest = p.expression().unwrap();
    assert_eq!(format!("{:?}", rest), ident("c", 10));
}

#[test]
fn addition_groups_to_the_right() {
    let mut p = Parser::new(tokens("a + b + c ;"));
    let e = p.expression().unwrap();
    let expected = binary(
        ident("a", 2),
        binary(ident("b", 6), ident("c", 10), "Plus", 8),
        "Plus",
        4,
    );
    assert_eq!(format!("{:?}", e), expected);
}

#[test]
fn running_out_of_tokens_is_an_error() {
    let mut p = Parser::new(tokens("a"));
    match p.expression() {
        Err(ParserError::NoMoreTokens) => {}
        other => panic!("expected NoMoreTokens, got {:?}", other),
    }
    let mut empty = Parser::new(Vec::new());
    assert!(matches!(empty.expression(), Err(ParserError::NoMoreTokens)));
}

#[test]
fn token_without_prefix_parselet() {
    let mut p = Parser::new(tokens("+ a"));
    match p.expression() {
        Err(ParserError::NoParseletFound(kind, (tok, span))) => {
            assert_eq!(kind, "prefix");
            assert_eq!(format!("{:?}", tok), "Symbol(Plus)");
            assert_eq!((span.line(), span.start(), span.end()), (1, 2, 2));
        }
        other => panic!("expected NoParseletFound, got {:?}", other),
    }
}

#[test]
fn new_object_is_not_implemented() {
    let mut p = Parser::new(tokens("new"));
    assert!(p.try_expression().is_none());
    let mut q = Parser::new(tokens("a + new ;"));
    assert!(q.try_pratt_expression(0).is_none());
}

#[test]
fn try_expression_agrees_with_expression() {
    let mut p = Parser::new(tokens("x * y ;"));
    let e = p.try_expression().unwrap().unwrap();
    assert_eq!(format!("{:?}", e), binary(ident("x", 2), ident("y", 6), "Asterisk", 4));
}

#[test]
fn pratt_expression_at_high_precedence_stops_at_plus() {
    let mut p = Parser::new(tokens("a + b ;"));
    let e = p.pratt_expression(15).unwrap();
    assert_eq!(format!("{:?}", e), ident("a", 2));
}

#[test]
fn ast_constructors() {
    let span = Span::new(1, 2, 3);
    let id = Identifier::new_expr(("v".to_string(), span));
    assert!(matches!(id, Expr::Identifier(_)));
    let num = Number::new_expr(("1.5".to_string(), span));
    assert!(matches!(num, Expr::Number(_)));
    let path = Path::new_expr((vec!["a".to_string(), "b".to_string()], span));
    assert!(matches!(path, Expr::Path(_)));
    let op = (LexerToken::Symbol(Symbol::Plus), span);
    let b = Binary::new_expr(
        Identifier::new_expr(("l".to_string(), span)),
        Identifier::new_expr(("r".to_string(), span)),
        op,
    );
    match &b {
        Expr::Binary(inner) => {
            let t = inner.op();
            assert_eq!(format!("{:?}", t.0), "Symbol(Plus)");
        }
        _ => panic!("expected a binary expression"),
    }
    let target = match Path::new_expr((vec!["x".to_string()], span)) {
        Expr::Path(p) => p,
        _ => unreachable!(),
    };
    let stat = Assignment::new_stat(target, b);
    assert!(format!("{:?}", stat).starts_with("Assignment(Assignment { target: Path"));
}

#[test]
fn clones_keep_their_contents() {
    let span = Span::new(2, 3, 4);
    let path = match Path::new_expr((vec!["a".to_string(), "b".to_string()], span)) {
        Expr::Path(p) => p,
        _ => unreachable!(),
    };
    assert_eq!(format!("{:?}", path.clone()), format!("{:?}", path));
    let t = Type::Function {
        parameters: vec![Type::Integer, Type::Interface("I".to_string())],
        return_type: Box::new(Type::Matrix { width: 2, height: 3 }),
    };
    assert_eq!(format!("{:?}", t.clone()), format!("{:?}", t));
    let err = ParserError::NoParseletFound("prefix".to_string(), (LexerToken::Symbol(Symbol::Plus), span));
    assert_eq!(format!("{:?}", err.clone()), format!("{:?}", err));
}
