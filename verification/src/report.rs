//! The diagnostic reporter: maps a syntax error into a structured,
//! renderable report against the original source text.
//!
//! A report carries a one-line summary and an ordered list of labeled
//! spans, each with an emphasis level (the primary failure location is
//! strong, secondary context such as an unmatched opening delimiter is
//! weak) and with the zero-based line and column of the span's start in
//! the original source. Reports are built fresh per error and have no
//! lifecycle of their own; a presentation layer turns them into terminal
//! or tooling output.

use crate::parser::{ParseError, ParseErrorV};
use crate::token::{kind_text, kind_text_spec, token_text, token_text_spec, Span, TokenKind, TokenV};
use vstd::prelude::*;

verus! {

/// How severe a diagnostic is. Every syntax error is an `Error`; the
/// variant exists so a report states its severity explicitly.
#[derive(Clone, Copy, Debug, PartialEq, Eq, Structural)]
pub enum Severity {
    Error,
}

/// How strongly a labeled span is emphasized when rendered.
#[derive(Clone, Copy, Debug, PartialEq, Eq, Structural)]
pub enum Emphasis {
    Primary,
    Secondary,
}

/// One labeled span of a report, with the zero-based line and column of
/// its start in the original source text.
#[derive(Clone, Debug)]
pub struct ReportLabel {
    pub span: Span,
    pub line: usize,
    pub col: usize,
    pub message: String,
    pub emphasis: Emphasis,
}

/// The mathematical value of a [`ReportLabel`].
pub struct ReportLabelV {
    pub span: Span,
    pub line: int,
    pub col: int,
    pub message: Seq<char>,
    pub emphasis: Emphasis,
}

impl View for ReportLabel {
    type V = ReportLabelV;

    open spec fn view(&self) -> ReportLabelV {
        ReportLabelV {
            span: self.span,
            line: self.line as int,
            col: self.col as int,
            message: self.message@,
            emphasis: self.emphasis,
        }
    }
}

/// A structured diagnostic report: severity, a one-line summary, and the
/// labeled spans in rendering order.
#[derive(Clone, Debug)]
pub struct Report {
    pub severity: Severity,
    pub message: String,
    pub labels: Vec<ReportLabel>,
}

/// The mathematical value of a [`Report`].
pub struct ReportV {
    pub severity: Severity,
    pub message: Seq<char>,
    pub labels: Seq<ReportLabelV>,
}

impl View for Report {
    type V = ReportV;

    open spec fn view(&self) -> ReportV {
        ReportV {
            severity: self.severity,
            message: self.message@,
            labels: self.labels@.map_values(|l: ReportLabel| l@),
        }
    }
}

/// The zero-based line of offset `off` in `s`: the number of newlines
/// strictly before it. Offsets past the end count as the end.
pub open spec fn line_of(s: Seq<char>, off: int) -> int
    decreases off,
{
    if off <= 0 || s.len() == 0 {
        0
    } else if off > s.len() {
        line_of(s, s.len() as int)
    } else {
        line_of(s, off - 1) + if s[off - 1] == '\n' {
            1int
        } else {
            0int
        }
    }
}

/// The zero-based column of offset `off` in `s`: its distance from the
/// start of its line. Offsets past the end count as the end.
pub open spec fn col_of(s: Seq<char>, off: int) -> int
    decreases off,
{
    if off <= 0 || s.len() == 0 {
        0
    } else if off > s.len() {
        col_of(s, s.len() as int)
    } else if s[off - 1] == '\n' {
        0
    } else {
        col_of(s, off - 1) + 1
    }
}

/// Maps an offset of the source text to its zero-based line and column.
pub fn line_col(source: &str, off: usize) -> (r: (usize, usize))
    ensures
        r.0 as int == line_of(source@, off as int),
        r.1 as int == col_of(source@, off as int),
{
    let ghost s = source@;
    let n = source.unicode_len();
    let stop: usize = if off < n {
        off
    } else {
        n
    };
    proof {
        if off > n {
            lemma_line_col_clamp(s, off as int);
        }
    }
    let mut line: usize = 0;
    let mut col: usize = 0;
    let mut k: usize = 0;
    while k < stop
        invariant
            n == s.len(),
            s == source@,
            stop <= n,
            k <= stop,
            line as int == line_of(s, k as int),
            col as int == col_of(s, k as int),
            line <= k,
            col <= k,
        decreases stop - k,
    {
        let c = source.get_char(k);
        if c == '\n' {
            line = line + 1;
            col = 0;
        } else {
            col = col + 1;
        }
        k = k + 1;
    }
    (line, col)
}

/// Past the end of the text, line and column stay those of the end.
proof fn lemma_line_col_clamp(s: Seq<char>, off: int)
    requires
        off >= s.len(),
    ensures
        line_of(s, off) == line_of(s, s.len() as int),
        col_of(s, off) == col_of(s, s.len() as int),
    decreases off,
{
    if s.len() == 0 {
        if off > 0 {
            lemma_line_col_clamp(s, s.len() as int);
        }
    }
}

/// The comma-joined rendering of the expected descriptions from `i` on.
pub open spec fn join_kinds_from(ks: Seq<TokenKind>, i: int) -> Seq<char>
    decreases ks.len() - i,
{
    if i < 0 || i >= ks.len() {
        Seq::empty()
    } else if i == ks.len() - 1 {
        kind_text_spec(ks[i])
    } else {
        kind_text_spec(ks[i]) + ", "@ + join_kinds_from(ks, i + 1)
    }
}

/// The deterministically ordered, comma-joined text of an expected set,
/// or `something else` when the set is empty.
pub open spec fn expected_text_spec(ks: Seq<TokenKind>) -> Seq<char> {
    if ks.len() == 0 {
        "something else"@
    } else {
        join_kinds_from(ks, 0)
    }
}

/// Renders an expected set as display text.
pub fn expected_text(ks: &Vec<TokenKind>) -> (r: String)
    ensures
        r@ == expected_text_spec(ks@),
{
    if ks.len() == 0 {
        String::from_str("something else")
    } else {
        let mut out = String::new();
        let mut i: usize = 0;
        while i < ks.len()
            invariant
                i <= ks@.len(),
                ks@.len() > 0,
                out@ + join_kinds_from(ks@, i as int) =~= join_kinds_from(ks@, 0),
            decreases ks@.len() - i,
        {
            let piece = kind_text(ks[i]);
            out.append(piece.as_str());
            if i + 1 < ks.len() {
                out.append(", ");
            }
            assert(out@ + join_kinds_from(ks@, i + 1 as int) =~= join_kinds_from(ks@, 0));
            i = i + 1;
        }
        out
    }
}

/// The display text of the found token of an `UnexpectedToken` error:
/// the token's own text, or `end of file` when input ran out.
pub open spec fn found_text_spec(found: Option<TokenV>) -> Seq<char> {
    match found {
        Option::Some(t) => token_text_spec(t),
        Option::None => "end of file"@,
    }
}

/// The summary line of a report.
pub open spec fn report_message_spec(e: ParseErrorV) -> Seq<char> {
    match e {
        ParseErrorV::UnclosedDelimiter { opening_span, span } => "Unclosed delimiter ("@,
        ParseErrorV::UnexpectedToken { span, found, expected } => (if found is Some {
            "Unexpected token in input, expected "@
        } else {
            "Unexpected end of input, expected "@
        }) + expected_text_spec(expected),
        ParseErrorV::Custom { span, message } => message,
    }
}

/// The labeled spans of a report, in rendering order.
pub open spec fn report_labels_spec(e: ParseErrorV, src: Seq<char>) -> Seq<ReportLabelV> {
    match e {
        ParseErrorV::UnclosedDelimiter { opening_span, span } => seq![
            ReportLabelV {
                span: opening_span,
                line: line_of(src, opening_span.start as int),
                col: col_of(src, opening_span.start as int),
                message: "Unclosed delimiter ("@,
                emphasis: Emphasis::Secondary,
            },
            ReportLabelV {
                span: span,
                line: line_of(src, span.start as int),
                col: col_of(src, span.start as int),
                message: "Must be closed before this point"@,
                emphasis: Emphasis::Primary,
            },
        ],
        ParseErrorV::UnexpectedToken { span, found, expected } => seq![
            ReportLabelV {
                span: span,
                line: line_of(src, span.start as int),
                col: col_of(src, span.start as int),
                message: "Unexpected token "@ + found_text_spec(found),
                emphasis: Emphasis::Primary,
            },
        ],
        ParseErrorV::Custom { span, message } => seq![
            ReportLabelV {
                span: span,
                line: line_of(src, span.start as int),
                col: col_of(src, span.start as int),
                message: message,
                emphasis: Emphasis::Primary,
            },
        ],
    }
}

/// The full report an error renders to against the source text.
pub open spec fn report_spec(e: ParseErrorV, src: Seq<char>) -> ReportV {
    ReportV {
        severity: Severity::Error,
        message: report_message_spec(e),
        labels: report_labels_spec(e, src),
    }
}

/// Builds the structured report of a syntax error against the original
/// source text: the summary line, and every labeled span with its
/// emphasis and its zero-based line and column.
pub fn render(error: &ParseError, source: &str) -> (r: Report)
    ensures
        r@ == report_spec(error@, source@),
{
    match error {
        ParseError::UnclosedDelimiter { opening_span, span } => {
            let (l0, c0) = line_col(source, opening_span.start);
            let (l1, c1) = line_col(source, span.start);
            let mut labels: Vec<ReportLabel> = Vec::new();
            labels.push(
                ReportLabel {
                    span: *opening_span,
                    line: l0,
                    col: c0,
                    message: String::from_str("Unclosed delimiter ("),
                    emphasis: Emphasis::Secondary,
                },
            );
            labels.push(
                ReportLabel {
                    span: *span,
                    line: l1,
                    col: c1,
                    message: String::from_str("Must be closed before this point"),
                    emphasis: Emphasis::Primary,
                },
            );
            let r = Report {
                severity: Severity::Error,
                message: String::from_str("Unclosed delimiter ("),
                labels,
            };
            proof {
                assert(r@.labels =~= report_labels_spec(error@, source@));
            }
            r
        },
        ParseError::UnexpectedToken { span, found, expected } => {
            let (l, c) = line_col(source, span.start);
            let mut message = match found {
                Option::Some(_) => String::from_str("Unexpected token in input, expected "),
                Option::None => String::from_str("Unexpected end of input, expected "),
            };
            let etext = expected_text(expected);
            message.append(etext.as_str());
            let mut label_message = String::from_str("Unexpected token ");
            match found {
                Option::Some(t) => {
                    let ttext = token_text(t);
                    label_message.append(ttext.as_str());
                },
                Option::None => {
                    label_message.append("end of file");
                },
            }
            let mut labels: Vec<ReportLabel> = Vec::new();
            labels.push(
                ReportLabel {
                    span: *span,
                    line: l,
                    col: c,
                    message: label_message,
                    emphasis: Emphasis::Primary,
                },
            );
            let r = Report { severity: Severity::Error, message, labels };
            proof {
                assert(r@.labels =~= report_labels_spec(error@, source@));
            }
            r
        },
        ParseError::Custom { span, message } => {
            let (l, c) = line_col(source, span.start);
            let mut labels: Vec<ReportLabel> = Vec::new();
            labels.push(
                ReportLabel {
                    span: *span,
                    line: l,
                    col: c,
                    message: message.clone(),
                    emphasis: Emphasis::Primary,
                },
            );
            let r = Report { severity: Severity::Error, message: message.clone(), labels };
            proof {
                assert(r@.labels =~= report_labels_spec(error@, source@));
            }
            r
        },
    }
}

} // verus!
