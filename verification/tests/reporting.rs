use lambda_front::parser::{parse, ParseError};
use lambda_front::report::{line_col, render, Emphasis, Severity};
use lambda_front::token::{kind_of, kind_text, token_text, Span, Token, TokenKind};

#[test]
fn unclosed_delimiter_report_labels_both_spans() {
    let errs = parse("(a").unwrap_err();
    let report = render(&errs[0], "(a");
    assert_eq!(report.severity, Severity::Error);
    assert_eq!(report.message, "Unclosed delimiter (");
    assert_eq!(report.labels.len(), 2);
    assert_eq!(report.labels[0].span, Span { start: 0, end: 1 });
    assert_eq!(report.labels[0].message, "Unclosed delimiter (");
    assert_eq!(report.labels[0].emphasis, Emphasis::Secondary);
    assert_eq!(report.labels[1].span, Span { start: 2, end: 3 });
    assert_eq!(report.labels[1].message, "Must be closed before this point");
    assert_eq!(report.labels[1].emphasis, Emphasis::Primary);
}

#[test]
fn unexpected_token_report_names_found_and_expected() {
    let errs = parse("\u{03bb}.").unwrap_err();
    let report = render(&errs[0], "\u{03bb}.");
    assert_eq!(report.message, "Unexpected token in input, expected identifier");
    assert_eq!(report.labels.len(), 1);
    assert_eq!(report.labels[0].message, "Unexpected token .");
    assert_eq!(report.labels[0].emphasis, Emphasis::Primary);
}

#[test]
fn empty_input_report_names_end_of_input() {
    let errs = parse("").unwrap_err();
    let report = render(&errs[0], "");
    assert_eq!(
        report.message,
        "Unexpected end of input, expected identifier, '(', '\u{03bb}'"
    );
    assert_eq!(report.labels.len(), 1);
    assert_eq!(report.labels[0].message, "Unexpected token end of file");
}

#[test]
fn empty_expected_set_reads_something_else() {
    let errs = parse("a)").unwrap_err();
    let report = render(&errs[0], "a)");
    assert_eq!(report.message, "Unexpected token in input, expected something else");
}

#[test]
fn custom_message_passes_through_verbatim() {
    let err = ParseError::Custom {
        span: Span { start: 0, end: 1 },
        message: "definitions are not expressions".to_string(),
    };
    let report = render(&err, "x");
    assert_eq!(report.message, "definitions are not expressions");
    assert_eq!(report.labels.len(), 1);
    assert_eq!(report.labels[0].message, "definitions are not expressions");
    assert_eq!(report.labels[0].emphasis, Emphasis::Primary);
}

#[test]
fn report_labels_carry_line_and_column() {
    let src = "a\n(b";
    let errs = parse(src).unwrap_err();
    let report = render(&errs[0], src);
    assert_eq!(report.labels[0].span, Span { start: 2, end: 3 });
    assert_eq!(report.labels[0].line, 1);
    assert_eq!(report.labels[0].col, 0);
    assert_eq!(report.labels[1].line, 1);
    assert_eq!(report.labels[1].col, 2);
}

#[test]
fn line_col_maps_offsets() {
    let src = "ab\ncd\ne";
    assert_eq!(line_col(src, 0), (0, 0));
    assert_eq!(line_col(src, 1), (0, 1));
    assert_eq!(line_col(src, 3), (1, 0));
    assert_eq!(line_col(src, 5), (1, 2));
    assert_eq!(line_col(src, 6), (2, 0));
    assert_eq!(line_col(src, 99), (2, 1));
}

#[test]
fn found_token_is_never_among_the_expected() {
    for src in ["\u{03bb}.", "?", ")", ":=", "a)"] {
        let errs = parse(src).unwrap_err();
        match &errs[0] {
            ParseError::UnexpectedToken { found: Some(t), expected, .. } => {
                assert!(!expected.contains(&kind_of(t)));
            }
            other => panic!("expected an unexpected-token error, got {other:?}"),
        }
    }
}

#[test]
fn token_text_is_the_source_text() {
    assert_eq!(token_text(&Token::Lambda), "\u{03bb}");
    assert_eq!(token_text(&Token::Dot), ".");
    assert_eq!(token_text(&Token::Binding), ":=");
    assert_eq!(token_text(&Token::ParenOpen), "(");
    assert_eq!(token_text(&Token::ParenClose), ")");
    assert_eq!(token_text(&Token::Ident("ab".to_string())), "ab");
    assert_eq!(token_text(&Token::Invalid), "[invalid]");
}

#[test]
fn kind_text_describes_each_category() {
    assert_eq!(kind_text(TokenKind::Ident), "identifier");
    assert_eq!(kind_text(TokenKind::Lambda), "'\u{03bb}'");
    assert_eq!(kind_text(TokenKind::Dot), "'.'");
    assert_eq!(kind_text(TokenKind::Binding), "':='");
    assert_eq!(kind_text(TokenKind::ParenOpen), "'('");
    assert_eq!(kind_text(TokenKind::ParenClose), "')'");
    assert_eq!(kind_text(TokenKind::Invalid), "invalid token");
}
