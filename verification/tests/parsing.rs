use lambda_front::ast::Expr;
use lambda_front::lexer::tokenize;
use lambda_front::parser::{parse, ParseError};
use lambda_front::pretty::pretty;
use lambda_front::token::{Span, Token, TokenKind};

fn name(s: &str) -> Expr {
    Expr::Name(s.to_string())
}

fn app(callee: Expr, argument: Expr) -> Expr {
    Expr::Application { callee: Box::new(callee), argument: Box::new(argument) }
}

fn abs(params: &str, body: Expr) -> Expr {
    Expr::Abstraction { params: params.chars().collect(), body: Box::new(body) }
}

#[test]
fn letters_parse_to_name() {
    assert_eq!(parse("x"), Ok(name("x")));
    assert_eq!(parse("ab"), Ok(name("ab")));
    assert_eq!(parse("AbCdE"), Ok(name("AbCdE")));
}

#[test]
fn abstraction_wraps_its_body() {
    let body = parse("y z").unwrap();
    assert_eq!(parse("\u{03bb}x.y z"), Ok(abs("x", body)));
}

#[test]
fn application_is_left_associative() {
    assert_eq!(parse("a b c"), Ok(app(app(name("a"), name("b")), name("c"))));
}

#[test]
fn parentheses_are_transparent() {
    assert_eq!(parse("(a)"), parse("a"));
    assert_eq!(parse("((a b))"), parse("a b"));
}

#[test]
fn abstraction_body_is_greedy() {
    assert_eq!(parse("\u{03bb}x.a b"), Ok(abs("x", app(name("a"), name("b")))));
}

#[test]
fn parenthesized_abstraction_as_callee() {
    assert_eq!(parse("(\u{03bb}x.x) y"), Ok(app(abs("x", name("x")), name("y"))));
}

#[test]
fn bare_abstraction_as_final_argument() {
    assert_eq!(parse("a \u{03bb}x.b"), Ok(app(name("a"), abs("x", name("b")))));
}

#[test]
fn multi_letter_parameter_list() {
    assert_eq!(parse("\u{03bb}xy.x"), Ok(abs("xy", name("x"))));
}

#[test]
fn unclosed_delimiter_is_detected() {
    let errs = parse("(a").unwrap_err();
    assert_eq!(errs.len(), 1);
    assert_eq!(
        errs[0],
        ParseError::UnclosedDelimiter {
            opening_span: Span { start: 0, end: 1 },
            span: Span { start: 2, end: 3 },
        }
    );
}

#[test]
fn missing_parameter_is_an_unexpected_token() {
    let errs = parse("\u{03bb}.").unwrap_err();
    assert_eq!(errs.len(), 1);
    match &errs[0] {
        ParseError::UnexpectedToken { span, found, expected } => {
            assert_eq!(*span, Span { start: 1, end: 2 });
            assert_eq!(*found, Some(Token::Dot));
            assert!(expected.contains(&TokenKind::Ident));
        }
        other => panic!("expected an unexpected-token error, got {other:?}"),
    }
}

#[test]
fn empty_input_is_an_unexpected_end() {
    let errs = parse("").unwrap_err();
    assert_eq!(errs.len(), 1);
    match &errs[0] {
        ParseError::UnexpectedToken { span, found, expected } => {
            assert_eq!(*span, Span { start: 0, end: 1 });
            assert_eq!(*found, None);
            assert!(!expected.is_empty());
        }
        other => panic!("expected an unexpected-token error, got {other:?}"),
    }
}

#[test]
fn trailing_token_is_an_error() {
    let errs = parse("a)").unwrap_err();
    assert_eq!(errs.len(), 1);
    match &errs[0] {
        ParseError::UnexpectedToken { span, found, expected } => {
            assert_eq!(*span, Span { start: 1, end: 2 });
            assert_eq!(*found, Some(Token::ParenClose));
            assert!(expected.is_empty());
        }
        other => panic!("expected an unexpected-token error, got {other:?}"),
    }
}

#[test]
fn invalid_character_is_reported_in_place() {
    let errs = parse("?").unwrap_err();
    assert_eq!(errs.len(), 1);
    match &errs[0] {
        ParseError::UnexpectedToken { span, found, .. } => {
            assert_eq!(*span, Span { start: 0, end: 1 });
            assert_eq!(*found, Some(Token::Invalid));
        }
        other => panic!("expected an unexpected-token error, got {other:?}"),
    }
}

#[test]
fn error_collection_is_idempotent() {
    for src in ["", "(a", "\u{03bb}.", "a)", "a b (", ":= x"] {
        assert_eq!(parse(src), parse(src));
    }
}

#[test]
fn tokenizer_spans_cover_the_input() {
    let toks = tokenize("\u{03bb}x.(ab) := ?");
    let expected = vec![
        (Token::Lambda, 0, 1),
        (Token::Ident("x".to_string()), 1, 2),
        (Token::Dot, 2, 3),
        (Token::ParenOpen, 3, 4),
        (Token::Ident("ab".to_string()), 4, 6),
        (Token::ParenClose, 6, 7),
        (Token::Binding, 8, 10),
        (Token::Invalid, 11, 12),
    ];
    assert_eq!(toks.len(), expected.len());
    for (got, (tok, start, end)) in toks.iter().zip(expected) {
        assert_eq!(got.token, tok);
        assert_eq!(got.span, Span { start, end });
    }
}

#[test]
fn whitespace_is_dropped() {
    assert_eq!(parse("  a \t b \r\n c "), Ok(app(app(name("a"), name("b")), name("c"))));
}

#[test]
fn pretty_prints_canonical_text() {
    assert_eq!(pretty(&parse("a b c").unwrap()), "a b c");
    assert_eq!(pretty(&parse("\u{03bb}x.x y").unwrap()), "\u{03bb}x.x y");
    assert_eq!(pretty(&parse("(\u{03bb}x.x) y").unwrap()), "(\u{03bb}x.x) y");
    assert_eq!(pretty(&parse("a (b c)").unwrap()), "a (b c)");
}

#[test]
fn round_trip_preserves_structure() {
    for src in [
        "a",
        "ab",
        "a b c",
        "a (b c)",
        "\u{03bb}x.x",
        "\u{03bb}x.a b",
        "\u{03bb}xy.x y",
        "(\u{03bb}x.x) y",
        "a \u{03bb}x.b",
        "\u{03bb}x.\u{03bb}y.x y",
    ] {
        let first = parse(src).unwrap();
        let reparsed = parse(&pretty(&first)).unwrap();
        assert_eq!(first, reparsed);
    }
}
