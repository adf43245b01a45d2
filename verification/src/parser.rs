//! The recursive-descent expression parser.
//!
//! Grammar:
//!
//! ```text
//! Expr        ::= Abstraction | Atom Atom* Abstraction?
//! Abstraction ::= 'λ' Identifier '.' Expr
//! Atom        ::= Identifier | '(' Expr ')'
//! ```
//!
//! Juxtaposition is application and folds left-associatively: `a b c` is
//! `(a b) c`. The body of an abstraction extends as far right as a full
//! expression can be parsed, so `λx. a b` is `λx. (a b)`. A bare
//! (unparenthesized) abstraction may stand only where a full expression is
//! expected or as the final operand of an application; since its body is
//! greedy, nothing can follow a bare abstraction inside its group, so a
//! non-final bare abstraction cannot arise. The whole token stream must be
//! consumed: a trailing token after a complete expression is a syntax
//! error.
//!
//! Errors are returned as data, never by panicking. No recovery is
//! attempted after a failure: the parser reports the first error it
//! discovers, as a one-element list.

use crate::ast::{Expr, ExprV};
use crate::lexer::{lex, tokenize, toks_view};
use crate::token::{Span, SpannedToken, Token, TokenKind, TokenV};
use vstd::prelude::*;

verus! {

/// A syntax error, anchored to the offending span.
///
/// - `UnclosedDelimiter`: an opening parenthesis with no matching close
///   before end of input or before a token that cannot continue the group;
///   `opening_span` locates the opening parenthesis, `span` the point where
///   closure was expected.
/// - `UnexpectedToken`: a token (or, when `found` is `None`, end of input)
///   appeared where the grammar required one of `expected`.
/// - `Custom`: reserved for grammar-rule-specific messages, e.g. future
///   statement-level syntax; produced by no current grammar rule.
#[derive(Clone, Debug, PartialEq, Eq)]
pub enum ParseError {
    UnclosedDelimiter { opening_span: Span, span: Span },
    UnexpectedToken { span: Span, found: Option<Token>, expected: Vec<TokenKind> },
    Custom { span: Span, message: String },
}

/// The mathematical value of a [`ParseError`].
pub enum ParseErrorV {
    UnclosedDelimiter { opening_span: Span, span: Span },
    UnexpectedToken { span: Span, found: Option<TokenV>, expected: Seq<TokenKind> },
    Custom { span: Span, message: Seq<char> },
}

impl View for ParseError {
    type V = ParseErrorV;

    open spec fn view(&self) -> ParseErrorV {
        match self {
            ParseError::UnclosedDelimiter { opening_span, span } => {
                ParseErrorV::UnclosedDelimiter { opening_span: *opening_span, span: *span }
            },
            ParseError::UnexpectedToken { span, found, expected } => {
                ParseErrorV::UnexpectedToken {
                    span: *span,
                    found: match found {
                        Option::Some(t) => Option::Some(t@),
                        Option::None => Option::None,
                    },
                    expected: expected@,
                }
            },
            ParseError::Custom { span, message } => {
                ParseErrorV::Custom { span: *span, message: message@ }
            },
        }
    }
}

/// The ordered descriptions a failed atom expects.
pub open spec fn expected_atom() -> Seq<TokenKind> {
    seq![TokenKind::Ident, TokenKind::ParenOpen, TokenKind::Lambda]
}

/// The span of the token at `i`, or the end-of-input sentinel span.
pub open spec fn span_at(ts: Seq<(TokenV, Span)>, i: int, eof: Span) -> Span {
    if 0 <= i < ts.len() {
        ts[i].1
    } else {
        eof
    }
}

/// The token at `i`, or `None` at end of input.
pub open spec fn found_at(ts: Seq<(TokenV, Span)>, i: int) -> Option<TokenV> {
    if 0 <= i < ts.len() {
        Option::Some(ts[i].0)
    } else {
        Option::None
    }
}

/// The error for a token (or end of input) at `i` where one of `expected`
/// was required.
pub open spec fn unexpected(
    ts: Seq<(TokenV, Span)>,
    i: int,
    eof: Span,
    expected: Seq<TokenKind>,
) -> ParseErrorV {
    ParseErrorV::UnexpectedToken { span: span_at(ts, i, eof), found: found_at(ts, i), expected }
}

/// Parses `'λ' Identifier '.' Expr` at `i`. The parameters of the
/// abstraction are the characters of the single identifier token.
pub open spec fn parse_abs_s(ts: Seq<(TokenV, Span)>, i: int, eof: Span) -> Result<
    (ExprV, int),
    ParseErrorV,
>
    decreases ts.len() - i, 1int,
        when 0 <= i <= ts.len()
{
    if i < ts.len() && ts[i].0 is Lambda {
        if i + 1 < ts.len() {
            match ts[i + 1].0 {
                TokenV::Ident(name) => {
                    if i + 2 < ts.len() && ts[i + 2].0 is Dot {
                        match parse_expr_s(ts, i + 3, eof) {
                            Result::Ok((body, j)) => Result::Ok(
                                (ExprV::Abstraction { params: name, body: Box::new(body) }, j),
                            ),
                            Result::Err(e) => Result::Err(e),
                        }
                    } else {
                        Result::Err(unexpected(ts, i + 2, eof, seq![TokenKind::Dot]))
                    }
                },
                _ => Result::Err(unexpected(ts, i + 1, eof, seq![TokenKind::Ident])),
            }
        } else {
            Result::Err(unexpected(ts, i + 1, eof, seq![TokenKind::Ident]))
        }
    } else {
        Result::Err(unexpected(ts, i, eof, seq![TokenKind::Lambda]))
    }
}

/// Parses an atom at `i`: an identifier, or a parenthesized expression.
/// Parentheses are transparent: the enclosed expression's node is the
/// atom's value directly.
pub open spec fn parse_atom_s(ts: Seq<(TokenV, Span)>, i: int, eof: Span) -> Result<
    (ExprV, int),
    ParseErrorV,
>
    decreases ts.len() - i, 2int,
        when 0 <= i <= ts.len()
{
    if i < ts.len() {
        match ts[i].0 {
            TokenV::Ident(name) => Result::Ok((ExprV::Name(name), i + 1)),
            TokenV::ParenOpen => match parse_expr_s(ts, i + 1, eof) {
                Result::Ok((e, j)) => {
                    if 0 <= j < ts.len() && ts[j].0 is ParenClose {
                        Result::Ok((e, j + 1))
                    } else {
                        Result::Err(
                            ParseErrorV::UnclosedDelimiter {
                                opening_span: ts[i].1,
                                span: span_at(ts, j, eof),
                            },
                        )
                    }
                },
                Result::Err(e) => Result::Err(e),
            },
            _ => Result::Err(unexpected(ts, i, eof, expected_atom())),
        }
    } else {
        Result::Err(unexpected(ts, i, eof, expected_atom()))
    }
}

/// Greedily folds atoms following a parsed expression `acc` into
/// left-associative applications; a trailing bare abstraction becomes the
/// final argument.
pub open spec fn parse_app_fold_s(
    ts: Seq<(TokenV, Span)>,
    i: int,
    acc: ExprV,
    eof: Span,
) -> Result<(ExprV, int), ParseErrorV>
    decreases ts.len() - i, 3int,
        when 0 <= i <= ts.len()
{
    if i < ts.len() && (ts[i].0 is Ident || ts[i].0 is ParenOpen) {
        match parse_atom_s(ts, i, eof) {
            Result::Ok((a, j)) => {
                if i < j <= ts.len() {
                    parse_app_fold_s(
                        ts,
                        j,
                        ExprV::Application { callee: Box::new(acc), argument: Box::new(a) },
                        eof,
                    )
                } else {
                    Result::Ok((acc, i))
                }
            },
            Result::Err(e) => Result::Err(e),
        }
    } else if i < ts.len() && ts[i].0 is Lambda {
        match parse_abs_s(ts, i, eof) {
            Result::Ok((a, j)) => Result::Ok(
                (ExprV::Application { callee: Box::new(acc), argument: Box::new(a) }, j),
            ),
            Result::Err(e) => Result::Err(e),
        }
    } else {
        Result::Ok((acc, i))
    }
}

/// Parses a full expression at `i`: an abstraction, or a leading atom with
/// zero or more folded applications.
pub open spec fn parse_expr_s(ts: Seq<(TokenV, Span)>, i: int, eof: Span) -> Result<
    (ExprV, int),
    ParseErrorV,
>
    decreases ts.len() - i, 4int,
        when 0 <= i <= ts.len()
{
    if i < ts.len() && ts[i].0 is Lambda {
        parse_abs_s(ts, i, eof)
    } else {
        match parse_atom_s(ts, i, eof) {
            Result::Ok((a, j)) => {
                if i < j <= ts.len() {
                    parse_app_fold_s(ts, j, a, eof)
                } else {
                    Result::Ok((a, j))
                }
            },
            Result::Err(e) => Result::Err(e),
        }
    }
}

/// Parses a whole token stream: one root expression consuming every token.
pub open spec fn parse_toks_s(ts: Seq<(TokenV, Span)>, eof: Span) -> Result<ExprV, ParseErrorV> {
    match parse_expr_s(ts, 0, eof) {
        Result::Ok((e, j)) => {
            if j < ts.len() {
                Result::Err(unexpected(ts, j, eof, Seq::empty()))
            } else {
                Result::Ok(e)
            }
        },
        Result::Err(e) => Result::Err(e),
    }
}

/// The end-of-input sentinel span `[len, len+1)`, so that "expected more
/// input" errors have a renderable location.
pub open spec fn eof_span(s: Seq<char>) -> Span {
    Span { start: s.len() as usize, end: (s.len() + 1) as usize }
}

/// What parsing the source text yields: the abstract syntax tree of the
/// sole expression the text holds, or the first syntax error discovered.
pub open spec fn parse_spec(s: Seq<char>) -> Result<ExprV, ParseErrorV> {
    parse_toks_s(lex(s), eof_span(s))
}

/// Whether an executable parsing step returned exactly the value and
/// resumption position (or the error) of the corresponding mathematical
/// step.
pub open spec fn step_matches(
    r: Result<(Expr, usize), ParseError>,
    s: Result<(ExprV, int), ParseErrorV>,
) -> bool {
    match (r, s) {
        (Result::Ok((e, j)), Result::Ok((ev, jv))) => e@ == ev && j as int == jv,
        (Result::Err(a), Result::Err(b)) => a@ == b,
        _ => false,
    }
}

/// Whether `parse` returned exactly the tree (or the one-element error
/// list holding exactly the error) of the mathematical parse.
pub open spec fn parse_result_matches(
    r: Result<Expr, Vec<ParseError>>,
    s: Result<ExprV, ParseErrorV>,
) -> bool {
    match (r, s) {
        (Result::Ok(e), Result::Ok(ev)) => e@ == ev,
        (Result::Err(es), Result::Err(ev)) => es@.len() == 1 && es@[0]@ == ev,
        _ => false,
    }
}

/// Duplicates a token, preserving its value.
fn dup_token(t: &Token) -> (r: Token)
    ensures
        r@ == t@,
{
    match t {
        Token::Lambda => Token::Lambda,
        Token::Dot => Token::Dot,
        Token::Binding => Token::Binding,
        Token::ParenOpen => Token::ParenOpen,
        Token::ParenClose => Token::ParenClose,
        Token::Ident(s) => Token::Ident(s.clone()),
        Token::Invalid => Token::Invalid,
    }
}

/// The error for the token (or end of input) at `i` where one of
/// `expected` was required.
fn make_unexpected(ts: &Vec<SpannedToken>, i: usize, eof: Span, expected: Vec<TokenKind>) -> (r:
    ParseError)
    ensures
        r@ == unexpected(toks_view(ts@), i as int, eof, expected@),
{
    if i < ts.len() {
        ParseError::UnexpectedToken {
            span: ts[i].span,
            found: Option::Some(dup_token(&ts[i].token)),
            expected,
        }
    } else {
        ParseError::UnexpectedToken { span: eof, found: Option::None, expected }
    }
}

/// Parses `'λ' Identifier '.' Expr` at `i`.
fn parse_abs_x(ts: &Vec<SpannedToken>, i: usize, eof: Span) -> (r: Result<(Expr, usize), ParseError>)
    requires
        i <= ts@.len(),
    ensures
        step_matches(r, parse_abs_s(toks_view(ts@), i as int, eof)),
        r matches Result::Ok((e, j)) ==> i < j <= ts@.len(),
    decreases ts@.len() - i, 1int,
{
    if i < ts.len() && matches!(&ts[i].token, Token::Lambda) {
        if i + 1 < ts.len() {
            match &ts[i + 1].token {
                Token::Ident(name) => {
                    if i + 2 < ts.len() && matches!(&ts[i + 2].token, Token::Dot) {
                        match parse_expr_x(ts, i + 3, eof) {
                            Result::Ok((body, j)) => Result::Ok(
                                (
                                    Expr::Abstraction {
                                        params: chars_of(name),
                                        body: Box::new(body),
                                    },
                                    j,
                                ),
                            ),
                            Result::Err(e) => Result::Err(e),
                        }
                    } else {
                        let mut expected: Vec<TokenKind> = Vec::new();
                        expected.push(TokenKind::Dot);
                        assert(expected@ =~= seq![TokenKind::Dot]);
                        Result::Err(make_unexpected(ts, i + 2, eof, expected))
                    }
                },
                _ => {
                    let mut expected: Vec<TokenKind> = Vec::new();
                    expected.push(TokenKind::Ident);
                    assert(expected@ =~= seq![TokenKind::Ident]);
                    Result::Err(make_unexpected(ts, i + 1, eof, expected))
                },
            }
        } else {
            let mut expected: Vec<TokenKind> = Vec::new();
            expected.push(TokenKind::Ident);
            assert(expected@ =~= seq![TokenKind::Ident]);
            Result::Err(make_unexpected(ts, i + 1, eof, expected))
        }
    } else {
        let mut expected: Vec<TokenKind> = Vec::new();
        expected.push(TokenKind::Lambda);
        assert(expected@ =~= seq![TokenKind::Lambda]);
        Result::Err(make_unexpected(ts, i, eof, expected))
    }
}

/// The characters of an identifier, as an abstraction's parameter list.
fn chars_of(s: &String) -> (r: Vec<char>)
    ensures
        r@ == s@,
{
    let sl = s.as_str();
    let n = sl.unicode_len();
    let mut out: Vec<char> = Vec::new();
    let mut k: usize = 0;
    while k < n
        invariant
            n == sl@.len(),
            sl@ == s@,
            k <= n,
            out@ =~= s@.subrange(0, k as int),
        decreases n - k,
    {
        out.push(sl.get_char(k));
        assert(out@ =~= s@.subrange(0, k + 1 as int));
        k = k + 1;
    }
    assert(out@ =~= s@);
    out
}

/// Parses an atom at `i`: an identifier, or a parenthesized expression.
fn parse_atom_x(ts: &Vec<SpannedToken>, i: usize, eof: Span) -> (r: Result<
    (Expr, usize),
    ParseError,
>)
    requires
        i <= ts@.len(),
    ensures
        step_matches(r, parse_atom_s(toks_view(ts@), i as int, eof)),
        r matches Result::Ok((e, j)) ==> i < j <= ts@.len(),
    decreases ts@.len() - i, 2int,
{
    if i < ts.len() {
        match &ts[i].token {
            Token::Ident(name) => Result::Ok((Expr::Name(name.clone()), i + 1)),
            Token::ParenOpen => {
                match parse_expr_x(ts, i + 1, eof) {
                    Result::Ok((e, j)) => {
                        if j < ts.len() && matches!(&ts[j].token, Token::ParenClose) {
                            Result::Ok((e, j + 1))
                        } else {
                            let at = if j < ts.len() {
                                ts[j].span
                            } else {
                                eof
                            };
                            Result::Err(
                                ParseError::UnclosedDelimiter { opening_span: ts[i].span, span: at },
                            )
                        }
                    },
                    Result::Err(e) => Result::Err(e),
                }
            },
            _ => {
                let mut expected: Vec<TokenKind> = Vec::new();
                expected.push(TokenKind::Ident);
                expected.push(TokenKind::ParenOpen);
                expected.push(TokenKind::Lambda);
                assert(expected@ =~= expected_atom());
                Result::Err(make_unexpected(ts, i, eof, expected))
            },
        }
    } else {
        let mut expected: Vec<TokenKind> = Vec::new();
        expected.push(TokenKind::Ident);
        expected.push(TokenKind::ParenOpen);
        expected.push(TokenKind::Lambda);
        assert(expected@ =~= expected_atom());
        Result::Err(make_unexpected(ts, i, eof, expected))
    }
}

/// Greedily folds following atoms into left-associative applications.
fn parse_app_fold_x(ts: &Vec<SpannedToken>, i: usize, acc: Expr, eof: Span) -> (r: Result<
    (Expr, usize),
    ParseError,
>)
    requires
        i <= ts@.len(),
    ensures
        step_matches(r, parse_app_fold_s(toks_view(ts@), i as int, acc@, eof)),
        r matches Result::Ok((e, j)) ==> i <= j <= ts@.len(),
    decreases ts@.len() - i, 3int,
{
    if i < ts.len() && (matches!(&ts[i].token, Token::Ident(_)) || matches!(
        &ts[i].token,
        Token::ParenOpen,
    )) {
        match parse_atom_x(ts, i, eof) {
            Result::Ok((a, j)) => parse_app_fold_x(
                ts,
                j,
                Expr::Application { callee: Box::new(acc), argument: Box::new(a) },
                eof,
            ),
            Result::Err(e) => Result::Err(e),
        }
    } else if i < ts.len() && matches!(&ts[i].token, Token::Lambda) {
        match parse_abs_x(ts, i, eof) {
            Result::Ok((a, j)) => Result::Ok(
                (Expr::Application { callee: Box::new(acc), argument: Box::new(a) }, j),
            ),
            Result::Err(e) => Result::Err(e),
        }
    } else {
        Result::Ok((acc, i))
    }
}

/// Parses a full expression at `i`.
fn parse_expr_x(ts: &Vec<SpannedToken>, i: usize, eof: Span) -> (r: Result<
    (Expr, usize),
    ParseError,
>)
    requires
        i <= ts@.len(),
    ensures
        step_matches(r, parse_expr_s(toks_view(ts@), i as int, eof)),
        r matches Result::Ok((e, j)) ==> i < j <= ts@.len(),
    decreases ts@.len() - i, 4int,
{
    if i < ts.len() && matches!(&ts[i].token, Token::Lambda) {
        parse_abs_x(ts, i, eof)
    } else {
        match parse_atom_x(ts, i, eof) {
            Result::Ok((a, j)) => parse_app_fold_x(ts, j, a, eof),
            Result::Err(e) => Result::Err(e),
        }
    }
}

/// Parses source text into the abstract syntax tree of the one expression
/// it holds, or into the ordered, non-empty list of syntax errors.
///
/// The result is exactly the mathematical parse of the text: on success
/// the returned tree's value is `parse_spec(source@)`'s tree; on failure
/// the list holds exactly one error, the first one discovered, with
/// `parse_spec(source@)`'s kind and spans. Each invocation is a fresh,
/// stateless descent over the text; nothing is shared across calls.
pub fn parse(source: &str) -> (r: Result<Expr, Vec<ParseError>>)
    requires
        source@.len() < usize::MAX,
    ensures
        parse_result_matches(r, parse_spec(source@)),
{
    let ts = tokenize(source);
    let n = source.unicode_len();
    let eof = Span { start: n, end: n + 1 };
    proof {
        assert(toks_view(ts@) == lex(source@));
        assert(eof == eof_span(source@));
    }
    match parse_expr_x(&ts, 0, eof) {
        Result::Ok((e, j)) => {
            if j < ts.len() {
                let err = make_unexpected(&ts, j, eof, Vec::new());
                let mut es: Vec<ParseError> = Vec::new();
                es.push(err);
                Result::Err(es)
            } else {
                Result::Ok(e)
            }
        },
        Result::Err(e) => {
            let mut es: Vec<ParseError> = Vec::new();
            es.push(e);
            Result::Err(es)
        },
    }
}

} // verus!
