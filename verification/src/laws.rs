//! Proved laws of the front end, stated over the mathematical parse that
//! [`crate::parser::parse`] is specified against.

use crate::ast::ExprV;
use crate::lexer::{ident_end, is_letter, is_whitespace, lemma_ident_end, lex, lex_from};
use crate::parser::{
    eof_span, parse_abs_s, parse_app_fold_s, parse_atom_s, parse_expr_s, parse_spec, parse_toks_s,
    ParseErrorV,
};
use crate::pretty::{pp_callee, pp_expr, pp_operand};
use crate::token::{Span, TokenV};
use vstd::prelude::*;

verus! {

/// A source text consisting solely of one or more letters parses
/// successfully to a name holding exactly that text.
pub proof fn lemma_letters_parse_to_name(s: Seq<char>)
    requires
        s.len() >= 1,
        forall|k: int| 0 <= k < s.len() ==> is_letter(s[k]),
    ensures
        parse_spec(s) == Result::<ExprV, ParseErrorV>::Ok(ExprV::Name(s)),
{
    lemma_ident_end(s, 0);
    assert(ident_end(s, 0) == s.len());
    assert(s.subrange(0, s.len() as int) =~= s);
    let ts = lex(s);
    assert(lex_from(s, s.len() as int) =~= Seq::empty());
    assert(ts =~= seq![
        (TokenV::Ident(s), Span { start: 0 as usize, end: s.len() as usize }),
    ]);
    let eof = eof_span(s);
    assert(parse_atom_s(ts, 0, eof) == Result::<(ExprV, int), ParseErrorV>::Ok(
        (ExprV::Name(s), 1int),
    ));
    assert(parse_app_fold_s(ts, 1, ExprV::Name(s), eof) == Result::<
        (ExprV, int),
        ParseErrorV,
    >::Ok((ExprV::Name(s), 1int)));
    assert(parse_expr_s(ts, 0, eof) == Result::<(ExprV, int), ParseErrorV>::Ok(
        (ExprV::Name(s), 1int),
    ));
    assert(parse_toks_s(ts, eof) == Result::<ExprV, ParseErrorV>::Ok(ExprV::Name(s)));
}

/// Error collection is idempotent: the parse is a pure function of the
/// source text, so re-running it on the same input yields an identical
/// result — the same tree on success, and the same error kind, spans and
/// order on failure.
pub proof fn lemma_parse_idempotent(s: Seq<char>, t: Seq<char>)
    requires
        s == t,
    ensures
        parse_spec(s) == parse_spec(t),
{
}

/// A successful abstraction parse consumes at least one token and stops
/// within the stream.
proof fn lemma_abs_bounds(ts: Seq<(TokenV, Span)>, i: int, eof: Span)
    requires
        0 <= i <= ts.len(),
    ensures
        parse_abs_s(ts, i, eof) matches Result::Ok((e, j)) ==> i < j <= ts.len(),
    decreases ts.len() - i, 1int,
{
    if i < ts.len() && ts[i].0 is Lambda && i + 1 < ts.len() && ts[i + 1].0 is Ident && i + 2
        < ts.len() && ts[i + 2].0 is Dot {
        lemma_expr_bounds(ts, i + 3, eof);
    }
}

/// A successful atom parse consumes at least one token and stops within
/// the stream.
proof fn lemma_atom_bounds(ts: Seq<(TokenV, Span)>, i: int, eof: Span)
    requires
        0 <= i <= ts.len(),
    ensures
        parse_atom_s(ts, i, eof) matches Result::Ok((e, j)) ==> i < j <= ts.len(),
    decreases ts.len() - i, 2int,
{
    if i < ts.len() && ts[i].0 is ParenOpen {
        lemma_expr_bounds(ts, i + 1, eof);
    }
}

/// A successful application fold stops within the stream and never moves
/// backwards.
proof fn lemma_fold_bounds(ts: Seq<(TokenV, Span)>, i: int, acc: ExprV, eof: Span)
    requires
        0 <= i <= ts.len(),
    ensures
        parse_app_fold_s(ts, i, acc, eof) matches Result::Ok((e, j)) ==> i <= j <= ts.len(),
    decreases ts.len() - i, 3int,
{
    if i < ts.len() && (ts[i].0 is Ident || ts[i].0 is ParenOpen) {
        lemma_atom_bounds(ts, i, eof);
        match parse_atom_s(ts, i, eof) {
            Result::Ok((a, j)) => {
                if i < j <= ts.len() {
                    lemma_fold_bounds(
                        ts,
                        j,
                        ExprV::Application { callee: Box::new(acc), argument: Box::new(a) },
                        eof,
                    );
                }
            },
            Result::Err(_) => {},
        }
    } else if i < ts.len() && ts[i].0 is Lambda {
        lemma_abs_bounds(ts, i, eof);
    }
}

/// A successful expression parse consumes at least one token and stops
/// within the stream.
proof fn lemma_expr_bounds(ts: Seq<(TokenV, Span)>, i: int, eof: Span)
    requires
        0 <= i <= ts.len(),
    ensures
        parse_expr_s(ts, i, eof) matches Result::Ok((e, j)) ==> i < j <= ts.len(),
    decreases ts.len() - i, 4int,
{
    if i < ts.len() && ts[i].0 is Lambda {
        lemma_abs_bounds(ts, i, eof);
    } else {
        lemma_atom_bounds(ts, i, eof);
        match parse_atom_s(ts, i, eof) {
            Result::Ok((a, j)) => {
                if i < j <= ts.len() {
                    lemma_fold_bounds(ts, j, a, eof);
                }
            },
            Result::Err(_) => {},
        }
    }
}

/// Whether the streams hold the same token values from the respective
/// positions to their ends.
spec fn same_tail(ts1: Seq<(TokenV, Span)>, i1: int, ts2: Seq<(TokenV, Span)>, i2: int) -> bool {
    &&& ts1.len() - i1 == ts2.len() - i2
    &&& forall|k: int| 0 <= k < ts1.len() - i1 ==> #[trigger] ts1[i1 + k].0 == ts2[i2 + k].0
}

/// Whether two parsing steps agreed: the same tree and the same number of
/// consumed tokens on success, or failure on both sides.
spec fn aligned(
    r1: Result<(ExprV, int), ParseErrorV>,
    i1: int,
    r2: Result<(ExprV, int), ParseErrorV>,
    i2: int,
) -> bool {
    match (r1, r2) {
        (Result::Ok((e1, j1)), Result::Ok((e2, j2))) => e1 == e2 && j1 - i1 == j2 - i2,
        (Result::Err(_), Result::Err(_)) => true,
        _ => false,
    }
}

/// From equal tails, the tails after consuming equally many tokens are
/// equal too.
proof fn lemma_same_tail_advance(
    ts1: Seq<(TokenV, Span)>,
    i1: int,
    ts2: Seq<(TokenV, Span)>,
    i2: int,
    d: int,
)
    requires
        same_tail(ts1, i1, ts2, i2),
        0 <= d <= ts1.len() - i1,
    ensures
        same_tail(ts1, i1 + d, ts2, i2 + d),
{
    assert forall|k: int| 0 <= k < ts1.len() - (i1 + d) implies #[trigger] ts1[(i1 + d) + k].0
        == ts2[(i2 + d) + k].0 by {
        assert(ts1[i1 + (d + k)].0 == ts2[i2 + (d + k)].0);
        assert(i1 + (d + k) == (i1 + d) + k);
        assert(i2 + (d + k) == (i2 + d) + k);
    }
}

/// The parse of an abstraction depends only on the token values from its
/// position on.
proof fn lemma_abs_shift(
    ts1: Seq<(TokenV, Span)>,
    i1: int,
    eof1: Span,
    ts2: Seq<(TokenV, Span)>,
    i2: int,
    eof2: Span,
)
    requires
        0 <= i1 <= ts1.len(),
        0 <= i2 <= ts2.len(),
        same_tail(ts1, i1, ts2, i2),
    ensures
        aligned(parse_abs_s(ts1, i1, eof1), i1, parse_abs_s(ts2, i2, eof2), i2),
    decreases ts1.len() - i1, 1int,
{
    if i1 < ts1.len() {
        assert(ts1[i1 + 0].0 == ts2[i2 + 0].0);
    }
    if i1 + 1 < ts1.len() {
        assert(ts1[i1 + 1].0 == ts2[i2 + 1].0);
    }
    if i1 + 2 < ts1.len() {
        assert(ts1[i1 + 2].0 == ts2[i2 + 2].0);
    }
    if i1 < ts1.len() && ts1[i1].0 is Lambda && i1 + 1 < ts1.len() && ts1[i1 + 1].0 is Ident && i1
        + 2 < ts1.len() && ts1[i1 + 2].0 is Dot {
        lemma_same_tail_advance(ts1, i1, ts2, i2, 3);
        lemma_expr_shift(ts1, i1 + 3, eof1, ts2, i2 + 3, eof2);
    }
}

/// The parse of an atom depends only on the token values from its
/// position on.
proof fn lemma_atom_shift(
    ts1: Seq<(TokenV, Span)>,
    i1: int,
    eof1: Span,
    ts2: Seq<(TokenV, Span)>,
    i2: int,
    eof2: Span,
)
    requires
        0 <= i1 <= ts1.len(),
        0 <= i2 <= ts2.len(),
        same_tail(ts1, i1, ts2, i2),
    ensures
        aligned(parse_atom_s(ts1, i1, eof1), i1, parse_atom_s(ts2, i2, eof2), i2),
    decreases ts1.len() - i1, 2int,
{
    if i1 < ts1.len() {
        assert(ts1[i1 + 0].0 == ts2[i2 + 0].0);
        if ts1[i1].0 is ParenOpen {
            lemma_same_tail_advance(ts1, i1, ts2, i2, 1);
            lemma_expr_shift(ts1, i1 + 1, eof1, ts2, i2 + 1, eof2);
            lemma_expr_bounds(ts1, i1 + 1, eof1);
            match (parse_expr_s(ts1, i1 + 1, eof1), parse_expr_s(ts2, i2 + 1, eof2)) {
                (Result::Ok((e1, j1)), Result::Ok((e2, j2))) => {
                    if j1 < ts1.len() {
                        lemma_same_tail_advance(ts1, i1, ts2, i2, j1 - i1);
                        assert(ts1[j1 + 0].0 == ts2[j2 + 0].0);
                    }
                },
                _ => {},
            }
        }
    }
}

/// The application fold depends only on the accumulated tree and the
/// token values from its position on.
proof fn lemma_fold_shift(
    ts1: Seq<(TokenV, Span)>,
    i1: int,
    acc: ExprV,
    eof1: Span,
    ts2: Seq<(TokenV, Span)>,
    i2: int,
    eof2: Span,
)
    requires
        0 <= i1 <= ts1.len(),
        0 <= i2 <= ts2.len(),
        same_tail(ts1, i1, ts2, i2),
    ensures
        aligned(
            parse_app_fold_s(ts1, i1, acc, eof1),
            i1,
            parse_app_fold_s(ts2, i2, acc, eof2),
            i2,
        ),
    decreases ts1.len() - i1, 3int,
{
    if i1 < ts1.len() {
        assert(ts1[i1 + 0].0 == ts2[i2 + 0].0);
    }
    if i1 < ts1.len() && (ts1[i1].0 is Ident || ts1[i1].0 is ParenOpen) {
        lemma_atom_shift(ts1, i1, eof1, ts2, i2, eof2);
        match (parse_atom_s(ts1, i1, eof1), parse_atom_s(ts2, i2, eof2)) {
            (Result::Ok((a1, j1)), Result::Ok((a2, j2))) => {
                if i1 < j1 <= ts1.len() {
                    lemma_same_tail_advance(ts1, i1, ts2, i2, j1 - i1);
                    lemma_fold_shift(
                        ts1,
                        j1,
                        ExprV::Application { callee: Box::new(acc), argument: Box::new(a1) },
                        eof1,
                        ts2,
                        j2,
                        eof2,
                    );
                }
            },
            _ => {},
        }
    } else if i1 < ts1.len() && ts1[i1].0 is Lambda {
        lemma_abs_shift(ts1, i1, eof1, ts2, i2, eof2);
    }
}

/// The parse of an expression depends only on the token values from its
/// position on: spans and the end-of-input sentinel influence only which
/// error is reported, never the tree.
proof fn lemma_expr_shift(
    ts1: Seq<(TokenV, Span)>,
    i1: int,
    eof1: Span,
    ts2: Seq<(TokenV, Span)>,
    i2: int,
    eof2: Span,
)
    requires
        0 <= i1 <= ts1.len(),
        0 <= i2 <= ts2.len(),
        same_tail(ts1, i1, ts2, i2),
    ensures
        aligned(parse_expr_s(ts1, i1, eof1), i1, parse_expr_s(ts2, i2, eof2), i2),
    decreases ts1.len() - i1, 4int,
{
    if i1 < ts1.len() {
        assert(ts1[i1 + 0].0 == ts2[i2 + 0].0);
    }
    if i1 < ts1.len() && ts1[i1].0 is Lambda {
        lemma_abs_shift(ts1, i1, eof1, ts2, i2, eof2);
    } else {
        lemma_atom_shift(ts1, i1, eof1, ts2, i2, eof2);
        match (parse_atom_s(ts1, i1, eof1), parse_atom_s(ts2, i2, eof2)) {
            (Result::Ok((a1, j1)), Result::Ok((a2, j2))) => {
                if i1 < j1 <= ts1.len() {
                    lemma_same_tail_advance(ts1, i1, ts2, i2, j1 - i1);
                    lemma_fold_shift(ts1, j1, a1, eof1, ts2, j2, eof2);
                }
            },
            _ => {},
        }
    }
}

/// The maximal letter run is found at the same relative place in a text
/// with a prefix in front of it.
proof fn lemma_ident_end_shift(pre: Seq<char>, s: Seq<char>, i: int)
    requires
        0 <= i <= s.len(),
    ensures
        ident_end(pre + s, pre.len() + i) == pre.len() + ident_end(s, i),
    decreases s.len() - i,
{
    if i < s.len() {
        assert((pre + s)[pre.len() + i] == s[i]);
    }
    if i < s.len() && is_letter(s[i]) {
        lemma_ident_end_shift(pre, s, i + 1);
    }
}

/// Pairwise equality of token values of one more token in front of two
/// aligned streams.
proof fn lemma_cons_tokens(
    h1: (TokenV, Span),
    t1: Seq<(TokenV, Span)>,
    h2: (TokenV, Span),
    t2: Seq<(TokenV, Span)>,
)
    requires
        h1.0 == h2.0,
        t1.len() == t2.len(),
        forall|k: int| 0 <= k < t2.len() ==> #[trigger] t1[k].0 == t2[k].0,
    ensures
        (seq![h1] + t1).len() == (seq![h2] + t2).len(),
        forall|k: int|
            0 <= k < (seq![h2] + t2).len() ==> #[trigger] (seq![h1] + t1)[k].0 == (seq![h2]
                + t2)[k].0,
{
    assert forall|k: int|
        0 <= k < (seq![h2] + t2).len() implies #[trigger] (seq![h1] + t1)[k].0 == (seq![h2]
        + t2)[k].0 by {
        if k > 0 {
            assert(t1[k - 1].0 == t2[k - 1].0);
        }
    }
}

/// Tokenizing a text behind a prefix yields the same token values as
/// tokenizing the text alone: only the spans move.
proof fn lemma_lex_tokens_shift(pre: Seq<char>, s: Seq<char>, i: int)
    requires
        0 <= i <= s.len(),
    ensures
        lex_from(pre + s, pre.len() + i).len() == lex_from(s, i).len(),
        forall|k: int|
            0 <= k < lex_from(s, i).len() ==> #[trigger] lex_from(pre + s, pre.len() + i)[k].0
                == lex_from(s, i)[k].0,
    decreases s.len() - i,
{
    let c = pre + s;
    let p = pre.len() + i;
    assert(c.len() == pre.len() + s.len());
    if i < s.len() {
        assert(c[p] == s[i]);
    }
    if i >= s.len() {
    } else if is_whitespace(s[i]) {
        lemma_lex_tokens_shift(pre, s, i + 1);
        assert(lex_from(c, p) == lex_from(c, p + 1));
        assert(lex_from(s, i) == lex_from(s, i + 1));
    } else if is_letter(s[i]) {
        lemma_ident_end(s, i);
        lemma_ident_end_shift(pre, s, i);
        let e = ident_end(s, i);
        assert(ident_end(c, p) == pre.len() + e);
        assert(c.subrange(p as int, (pre.len() + e) as int) =~= s.subrange(i, e));
        lemma_lex_tokens_shift(pre, s, e);
        lemma_cons_tokens(
            (
                TokenV::Ident(c.subrange(p as int, (pre.len() + e) as int)),
                Span { start: p as usize, end: (pre.len() + e) as usize },
            ),
            lex_from(c, pre.len() + e),
            (TokenV::Ident(s.subrange(i, e)), Span { start: i as usize, end: e as usize }),
            lex_from(s, e),
        );
    } else if s[i] == ':' && i + 1 < s.len() && s[i + 1] == '=' {
        assert(c[p + 1] == s[i + 1]);
        lemma_lex_tokens_shift(pre, s, i + 2);
        lemma_cons_tokens(
            (TokenV::Binding, Span { start: p as usize, end: (p + 2) as usize }),
            lex_from(c, p + 2),
            (TokenV::Binding, Span { start: i as usize, end: (i + 2) as usize }),
            lex_from(s, i + 2),
        );
    } else {
        if s[i] == ':' && i + 1 < s.len() {
            assert(c[p + 1] == s[i + 1]);
        }
        let hv = if s[i] == '\u{3bb}' {
            TokenV::Lambda
        } else if s[i] == '.' {
            TokenV::Dot
        } else if s[i] == '(' {
            TokenV::ParenOpen
        } else if s[i] == ')' {
            TokenV::ParenClose
        } else {
            TokenV::Invalid
        };
        lemma_lex_tokens_shift(pre, s, i + 1);
        lemma_cons_tokens(
            (hv, Span { start: p as usize, end: (p + 1) as usize }),
            lex_from(c, p + 1),
            (hv, Span { start: i as usize, end: (i + 1) as usize }),
            lex_from(s, i + 1),
        );
    }
}

/// An input of the shape `λx.` followed by a body that itself parses
/// successfully parses to an abstraction binding exactly `x` over exactly
/// the body's own parse.
pub proof fn lemma_abstraction_wraps_body(x: char, body: Seq<char>)
    requires
        is_letter(x),
        parse_spec(body) is Ok,
    ensures
        parse_spec(seq!['\u{3bb}', x, '.'] + body) == Result::<ExprV, ParseErrorV>::Ok(
            ExprV::Abstraction {
                params: seq![x],
                body: Box::new(parse_spec(body)->Ok_0),
            },
        ),
{
    let pre = seq!['\u{3bb}', x, '.'];
    let c = pre + body;
    let tsb = lex(body);
    let tsc = lex(c);
    let eofb = eof_span(body);
    let eofc = eof_span(c);

    // The tokens of the whole input: lambda, the one-letter identifier,
    // the dot, then the body's tokens (values unchanged, spans moved).
    assert(c[0] == '\u{3bb}' && c[1] == x && c[2] == '.');
    assert(ident_end(c, 2) == 2);
    assert(ident_end(c, 1) == 2);
    assert(c.subrange(1, 2) =~= seq![x]);
    lemma_lex_tokens_shift(pre, body, 0);
    assert(lex_from(c, 3) == lex_from(pre + body, pre.len() + 0int));
    assert(lex_from(c, 2) == seq![(TokenV::Dot, Span { start: 2 as usize, end: 3 as usize })]
        + lex_from(c, 3));
    assert(lex_from(c, 1) == seq![
        (TokenV::Ident(seq![x]), Span { start: 1 as usize, end: 2 as usize }),
    ] + lex_from(c, 2));
    assert(tsc == seq![(TokenV::Lambda, Span { start: 0 as usize, end: 1 as usize })] + lex_from(
        c,
        1,
    ));
    assert(tsc.len() == 3 + tsb.len());
    assert(tsc[0].0 is Lambda);
    assert(tsc[1].0 == TokenV::Ident(seq![x]));
    assert(tsc[2].0 is Dot);
    assert forall|k: int| 0 <= k < tsc.len() - 3 implies #[trigger] tsc[3 + k].0 == tsb[0 + k].0 by {
        assert(lex_from(c, 3)[k].0 == lex_from(body, 0)[k].0);
        assert(tsc[3 + k] == lex_from(c, 3)[k]);
    }
    assert(same_tail(tsc, 3, tsb, 0));

    // The body parses successfully and consumes its whole stream.
    lemma_expr_bounds(tsb, 0, eofb);
    let eb = parse_expr_s(tsb, 0, eofb);
    assert(eb is Ok);
    let b = eb->Ok_0.0;
    assert(eb->Ok_0.1 == tsb.len());
    assert(parse_spec(body)->Ok_0 == b);

    // So the whole input parses as one abstraction over it.
    lemma_expr_shift(tsc, 3, eofc, tsb, 0, eofb);
    assert(parse_expr_s(tsc, 3, eofc) matches Result::Ok((e, j)) && e == b && j == tsc.len());
    assert(parse_abs_s(tsc, 0, eofc) == Result::<(ExprV, int), ParseErrorV>::Ok(
        (ExprV::Abstraction { params: seq![x], body: Box::new(b) }, tsc.len() as int),
    ));
    assert(parse_expr_s(tsc, 0, eofc) == parse_abs_s(tsc, 0, eofc));
}

/// Well-formed identifier text: one or more letters.
pub open spec fn wf_name(n: Seq<char>) -> bool {
    n.len() >= 1 && forall|k: int| 0 <= k < n.len() ==> is_letter(n[k])
}

/// A tree every one of whose identifiers and parameter lists is
/// well-formed: the shape of tree the grammar describes.
pub open spec fn wf_expr(e: ExprV) -> bool
    decreases e,
{
    match e {
        ExprV::Name(n) => wf_name(n),
        ExprV::Application { callee, argument } => wf_expr(*callee) && wf_expr(*argument),
        ExprV::Abstraction { params, body } => wf_name(params) && wf_expr(*body),
    }
}

/// The token values of a spanned token stream.
pub open spec fn toks_of(ts: Seq<(TokenV, Span)>) -> Seq<TokenV> {
    ts.map_values(|p: (TokenV, Span)| p.0)
}

/// One more token in front of a stream puts its value in front of the
/// stream's values.
proof fn lemma_toks_of_cons(h: (TokenV, Span), t: Seq<(TokenV, Span)>)
    ensures
        toks_of(seq![h] + t) =~= seq![h.0] + toks_of(t),
{
}

/// Whether no token of the concatenation crosses from `s1` into `s2`: no
/// letter run and no `:=` spans the boundary.
spec fn safe_boundary(s1: Seq<char>, s2: Seq<char>) -> bool {
    s1.len() == 0 || s2.len() == 0 || (!(is_letter(s1[s1.len() - 1]) && is_letter(s2[0])) && !(
    s1[s1.len() - 1] == ':' && s2[0] == '='))
}

/// The maximal letter run from `i` ends exactly at the first non-letter.
proof fn lemma_ident_end_is(s: Seq<char>, i: int, e: int)
    requires
        0 <= i <= e <= s.len(),
        forall|k: int| i <= k < e ==> is_letter(s[k]),
        e == s.len() || !is_letter(s[e]),
    ensures
        ident_end(s, i) == e,
    decreases e - i,
{
    if i < e {
        assert(is_letter(s[i]));
        lemma_ident_end_is(s, i + 1, e);
    }
}

/// Glue for one tokenizing step that stays inside `s1`: the same head
/// token comes off both texts, so the tails decide.
proof fn lemma_concat_heads(s1: Seq<char>, s2: Seq<char>, i: int, h: (TokenV, Span), n: int)
    requires
        0 <= i < s1.len(),
        i < n <= s1.len(),
        lex_from(s1 + s2, i) == seq![h] + lex_from(s1 + s2, n),
        lex_from(s1, i) == seq![h] + lex_from(s1, n),
        toks_of(lex_from(s1 + s2, n)) =~= toks_of(lex_from(s1, n)) + toks_of(lex_from(s2, 0)),
    ensures
        toks_of(lex_from(s1 + s2, i)) =~= toks_of(lex_from(s1, i)) + toks_of(lex_from(s2, 0)),
{
    lemma_toks_of_cons(h, lex_from(s1 + s2, n));
    lemma_toks_of_cons(h, lex_from(s1, n));
}

/// Across a safe boundary, tokenizing a concatenation yields the token
/// values of the parts, one after the other.
proof fn lemma_lex_concat_from(s1: Seq<char>, s2: Seq<char>, i: int)
    requires
        0 <= i <= s1.len(),
        safe_boundary(s1, s2),
    ensures
        toks_of(lex_from(s1 + s2, i)) =~= toks_of(lex_from(s1, i)) + toks_of(lex_from(s2, 0)),
    decreases s1.len() - i,
{
    let c = s1 + s2;
    if i >= s1.len() {
        lemma_lex_tokens_shift(s1, s2, 0);
        assert(lex_from(c, s1.len() + 0int) == lex_from(c, i));
        assert(lex_from(s1, i) =~= Seq::<(TokenV, Span)>::empty());
        assert forall|k: int| 0 <= k < toks_of(lex_from(c, i)).len() implies toks_of(
            lex_from(c, i),
        )[k] == toks_of(lex_from(s2, 0))[k] by {
            assert(lex_from(c, s1.len() + 0int)[k].0 == lex_from(s2, 0)[k].0);
        }
        assert(toks_of(lex_from(c, i)) =~= toks_of(lex_from(s1, i)) + toks_of(lex_from(s2, 0)));
    } else {
        assert(c[i] == s1[i]);
        if is_whitespace(s1[i]) {
            lemma_lex_concat_from(s1, s2, i + 1);
            assert(lex_from(c, i) == lex_from(c, i + 1));
            assert(lex_from(s1, i) == lex_from(s1, i + 1));
        } else if is_letter(s1[i]) {
            lemma_ident_end(s1, i);
            let e = ident_end(s1, i);
            assert(i < e) by {
                lemma_ident_end(s1, i + 1);
                assert(ident_end(s1, i) == ident_end(s1, i + 1));
            }
            assert forall|k: int| i <= k < e implies is_letter(c[k]) by {
                assert(c[k] == s1[k]);
            }
            if e == s1.len() {
                assert(is_letter(s1[e - 1]));
                if s2.len() == 0 {
                    assert(e == c.len());
                } else {
                    assert(c[e] == s2[0]);
                    assert(!is_letter(c[e]));
                }
            } else {
                assert(c[e] == s1[e]);
            }
            lemma_ident_end_is(c, i, e);
            assert(c.subrange(i, e) =~= s1.subrange(i, e));
            lemma_lex_concat_from(s1, s2, e);
            let h = (
                TokenV::Ident(s1.subrange(i, e)),
                Span { start: i as usize, end: e as usize },
            );
            assert(lex_from(c, i) == seq![h] + lex_from(c, e));
            assert(lex_from(s1, i) == seq![h] + lex_from(s1, e));
            lemma_concat_heads(s1, s2, i, h, e);
        } else if s1[i] == ':' && i + 1 < s1.len() && s1[i + 1] == '=' {
            assert(c[i + 1] == s1[i + 1]);
            lemma_lex_concat_from(s1, s2, i + 2);
            let h = (TokenV::Binding, Span { start: i as usize, end: (i + 2) as usize });
            assert(lex_from(c, i) == seq![h] + lex_from(c, i + 2));
            assert(lex_from(s1, i) == seq![h] + lex_from(s1, i + 2));
            lemma_concat_heads(s1, s2, i, h, i + 2);
        } else {
            if s1[i] == ':' {
                if i + 1 < s1.len() {
                    assert(c[i + 1] == s1[i + 1]);
                } else if s2.len() > 0 {
                    assert(c[i + 1] == s2[0]);
                    assert(s1[s1.len() - 1] == ':');
                    assert(s2[0] != '=');
                }
            }
            let hv = if s1[i] == '\u{3bb}' {
                TokenV::Lambda
            } else if s1[i] == '.' {
                TokenV::Dot
            } else if s1[i] == '(' {
                TokenV::ParenOpen
            } else if s1[i] == ')' {
                TokenV::ParenClose
            } else {
                TokenV::Invalid
            };
            lemma_lex_concat_from(s1, s2, i + 1);
            let h = (hv, Span { start: i as usize, end: (i + 1) as usize });
            assert(lex_from(c, i) == seq![h] + lex_from(c, i + 1));
            assert(lex_from(s1, i) == seq![h] + lex_from(s1, i + 1));
            lemma_concat_heads(s1, s2, i, h, i + 1);
        }
    }
}

/// The token values of the concatenation of two texts across a safe
/// boundary.
proof fn lemma_lex_concat(s1: Seq<char>, s2: Seq<char>)
    requires
        safe_boundary(s1, s2),
    ensures
        toks_of(lex(s1 + s2)) =~= toks_of(lex(s1)) + toks_of(lex(s2)),
{
    lemma_lex_concat_from(s1, s2, 0);
}

/// A text of letters only tokenizes to the one identifier covering it.
proof fn lemma_letters_lex(s: Seq<char>)
    requires
        wf_name(s),
    ensures
        lex(s) == seq![(TokenV::Ident(s), Span { start: 0 as usize, end: s.len() as usize })],
{
    lemma_ident_end(s, 0);
    assert(ident_end(s, 0) == s.len());
    assert(s.subrange(0, s.len() as int) =~= s);
    assert(lex_from(s, s.len() as int) =~= Seq::empty());
    assert(lex(s) =~= seq![(TokenV::Ident(s), Span { start: 0 as usize, end: s.len() as usize })]);
}

/// The token values of a tree's canonical text.
pub open spec fn toks_expr(e: ExprV) -> Seq<TokenV>
    decreases e, 0int,
{
    match e {
        ExprV::Name(n) => seq![TokenV::Ident(n)],
        ExprV::Application { callee, argument } => toks_callee(*callee) + toks_operand(*argument),
        ExprV::Abstraction { params, body } => seq![
            TokenV::Lambda,
            TokenV::Ident(params),
            TokenV::Dot,
        ] + toks_expr(*body),
    }
}

/// The token values of a tree printed as the callee of an application.
pub open spec fn toks_callee(e: ExprV) -> Seq<TokenV>
    decreases e, 1int,
{
    match e {
        ExprV::Name(n) => seq![TokenV::Ident(n)],
        ExprV::Application { callee, argument } => toks_callee(*callee) + toks_operand(*argument),
        ExprV::Abstraction { params, body } => seq![TokenV::ParenOpen] + toks_expr(e) + seq![
            TokenV::ParenClose,
        ],
    }
}

/// The token values of a tree printed as the argument of an application.
pub open spec fn toks_operand(e: ExprV) -> Seq<TokenV>
    decreases e, 1int,
{
    match e {
        ExprV::Name(n) => seq![TokenV::Ident(n)],
        _ => seq![TokenV::ParenOpen] + toks_expr(e) + seq![TokenV::ParenClose],
    }
}

/// Tokenizing a tree's canonical text yields the tree's token values.
proof fn lemma_lex_pp_expr(e: ExprV)
    requires
        wf_expr(e),
    ensures
        toks_of(lex(pp_expr(e))) =~= toks_expr(e),
    decreases e, 0int,
{
    reveal_strlit("\u{3bb}");
    reveal_strlit(".");
    reveal_strlit(" ");
    match e {
        ExprV::Name(n) => {
            lemma_letters_lex(n);
            lemma_toks_of_cons(
                (TokenV::Ident(n), Span { start: 0 as usize, end: n.len() as usize }),
                Seq::empty(),
            );
            assert(seq![(TokenV::Ident(n), Span { start: 0 as usize, end: n.len() as usize })]
                =~= seq![(TokenV::Ident(n), Span { start: 0 as usize, end: n.len() as usize })]
                + Seq::<(TokenV, Span)>::empty());
        },
        ExprV::Application { callee, argument } => {
            let cs = pp_callee(*callee) + " "@;
            assert(cs[cs.len() - 1] == ' ');
            assert(safe_boundary(cs, pp_operand(*argument)));
            lemma_lex_concat(cs, pp_operand(*argument));
            assert(safe_boundary(pp_callee(*callee), " "@));
            lemma_lex_concat(pp_callee(*callee), " "@);
            assert(lex(" "@) =~= Seq::<(TokenV, Span)>::empty()) by {
                assert(" "@[0] == ' ');
                assert(lex_from(" "@, 1) =~= Seq::<(TokenV, Span)>::empty());
            }
            lemma_lex_pp_callee(*callee);
            lemma_lex_pp_operand(*argument);
            assert(cs + pp_operand(*argument) == pp_expr(e));
            assert(toks_expr(e) == toks_callee(*callee) + toks_operand(*argument));
        },
        ExprV::Abstraction { params, body } => {
            let lam = "\u{3bb}"@;
            let lp = lam + params;
            let lpd = lp + "."@;
            assert(pp_expr(e) == lpd + pp_expr(*body));
            // the prefix tokenizes to lambda, identifier, dot
            lemma_letters_lex(params);
            assert(lam[0] == '\u{3bb}');
            assert(lp[lp.len() - 1] == params[params.len() - 1]);
            assert(safe_boundary(lam, params));
            lemma_lex_concat(lam, params);
            assert(lex_from(lam, 1) =~= Seq::<(TokenV, Span)>::empty());
            assert(lex(lam) == seq![(TokenV::Lambda, Span { start: 0 as usize, end: 1 as usize })]
                + lex_from(lam, 1));
            lemma_toks_of_cons(
                (TokenV::Lambda, Span { start: 0 as usize, end: 1 as usize }),
                lex_from(lam, 1),
            );
            lemma_toks_of_cons(
                (TokenV::Ident(params), Span { start: 0 as usize, end: params.len() as usize }),
                Seq::empty(),
            );
            assert(lex(params) =~= seq![
                (TokenV::Ident(params), Span { start: 0 as usize, end: params.len() as usize }),
            ] + Seq::<(TokenV, Span)>::empty());
            assert(toks_of(lex(lp)) =~= seq![TokenV::Lambda, TokenV::Ident(params)]);
            assert(safe_boundary(lp, "."@));
            lemma_lex_concat(lp, "."@);
            let dot = "."@;
            assert(lex_from(dot, 1) =~= Seq::<(TokenV, Span)>::empty());
            assert(lex(dot) == seq![(TokenV::Dot, Span { start: 0 as usize, end: 1 as usize })]
                + lex_from(dot, 1));
            lemma_toks_of_cons(
                (TokenV::Dot, Span { start: 0 as usize, end: 1 as usize }),
                lex_from(dot, 1),
            );
            assert(toks_of(lex(lpd)) =~= seq![TokenV::Lambda, TokenV::Ident(params), TokenV::Dot]);
            assert(lpd[lpd.len() - 1] == '.');
            assert(safe_boundary(lpd, pp_expr(*body)));
            lemma_lex_concat(lpd, pp_expr(*body));
            lemma_lex_pp_expr(*body);
            assert(toks_of(lex(pp_expr(e))) =~= toks_expr(e));
        },
    }
}

/// Tokenizing a tree printed in callee position.
proof fn lemma_lex_pp_callee(e: ExprV)
    requires
        wf_expr(e),
    ensures
        toks_of(lex(pp_callee(e))) =~= toks_callee(e),
    decreases e, 2int,
{
    reveal_strlit(" ");
    match e {
        ExprV::Name(n) => {
            lemma_lex_pp_expr(e);
            assert(pp_callee(e) == pp_expr(e));
            assert(toks_callee(e) == toks_expr(e));
        },
        ExprV::Application { callee, argument } => {
            let cs = pp_callee(*callee) + " "@;
            assert(cs[cs.len() - 1] == ' ');
            assert(safe_boundary(cs, pp_operand(*argument)));
            lemma_lex_concat(cs, pp_operand(*argument));
            assert(safe_boundary(pp_callee(*callee), " "@));
            lemma_lex_concat(pp_callee(*callee), " "@);
            assert(lex(" "@) =~= Seq::<(TokenV, Span)>::empty()) by {
                assert(" "@[0] == ' ');
                assert(lex_from(" "@, 1) =~= Seq::<(TokenV, Span)>::empty());
            }
            lemma_lex_pp_callee(*callee);
            lemma_lex_pp_operand(*argument);
            assert(cs + pp_operand(*argument) == pp_callee(e));
            assert(toks_callee(e) == toks_callee(*callee) + toks_operand(*argument));
        },
        ExprV::Abstraction { .. } => {
            lemma_lex_pp_paren(e);
            assert(pp_callee(e) == "("@ + pp_expr(e) + ")"@);
            assert(toks_callee(e) == seq![TokenV::ParenOpen] + toks_expr(e) + seq![
                TokenV::ParenClose,
            ]);
        },
    }
}

/// Tokenizing a tree printed in argument position.
proof fn lemma_lex_pp_operand(e: ExprV)
    requires
        wf_expr(e),
    ensures
        toks_of(lex(pp_operand(e))) =~= toks_operand(e),
    decreases e, 2int,
{
    match e {
        ExprV::Name(n) => {
            lemma_lex_pp_expr(e);
            assert(pp_operand(e) == pp_expr(e));
            assert(toks_operand(e) == toks_expr(e));
        },
        _ => {
            lemma_lex_pp_paren(e);
            assert(pp_operand(e) == "("@ + pp_expr(e) + ")"@);
            assert(toks_operand(e) == seq![TokenV::ParenOpen] + toks_expr(e) + seq![
                TokenV::ParenClose,
            ]);
        },
    }
}

/// Tokenizing any parenthesized text: an opening parenthesis, the text's
/// own token values, a closing parenthesis.
proof fn lemma_lex_paren_any(s: Seq<char>)
    ensures
        toks_of(lex("("@ + s + ")"@)) =~= seq![TokenV::ParenOpen] + toks_of(lex(s)) + seq![
            TokenV::ParenClose,
        ],
{
    reveal_strlit("(");
    reveal_strlit(")");
    let op = "("@;
    let cl = ")"@;
    let inner = op + s;
    assert(cl[0] == ')');
    assert(safe_boundary(inner, cl));
    lemma_lex_concat(inner, cl);
    assert(op[0] == '(');
    assert(safe_boundary(op, s));
    lemma_lex_concat(op, s);
    assert(lex_from(op, 1) =~= Seq::<(TokenV, Span)>::empty());
    assert(lex(op) == seq![(TokenV::ParenOpen, Span { start: 0 as usize, end: 1 as usize })]
        + lex_from(op, 1));
    lemma_toks_of_cons(
        (TokenV::ParenOpen, Span { start: 0 as usize, end: 1 as usize }),
        lex_from(op, 1),
    );
    assert(lex_from(cl, 1) =~= Seq::<(TokenV, Span)>::empty());
    assert(lex(cl) == seq![(TokenV::ParenClose, Span { start: 0 as usize, end: 1 as usize })]
        + lex_from(cl, 1));
    lemma_toks_of_cons(
        (TokenV::ParenClose, Span { start: 0 as usize, end: 1 as usize }),
        lex_from(cl, 1),
    );
    assert(inner + cl == "("@ + s + ")"@);
}

/// Tokenizing a parenthesized canonical text: an opening parenthesis, the
/// tree's token values, a closing parenthesis.
proof fn lemma_lex_pp_paren(e: ExprV)
    requires
        wf_expr(e),
    ensures
        toks_of(lex("("@ + pp_expr(e) + ")"@)) =~= seq![TokenV::ParenOpen] + toks_expr(e) + seq![
            TokenV::ParenClose,
        ],
    decreases e, 1int,
{
    lemma_lex_paren_any(pp_expr(e));
    lemma_lex_pp_expr(e);
}

/// Whether the stream holds exactly the token values `vs` from `i` on.
spec fn stream_has(ts: Seq<(TokenV, Span)>, i: int, vs: Seq<TokenV>) -> bool {
    &&& 0 <= i
    &&& i + vs.len() <= ts.len()
    &&& forall|k: int| 0 <= k < vs.len() ==> #[trigger] ts[i + k].0 == vs[k]
}

/// Whether position `j` cannot continue an application chain: the end of
/// the stream, or a closing parenthesis.
spec fn stopper(ts: Seq<(TokenV, Span)>, j: int) -> bool {
    j >= ts.len() || ts[j].0 is ParenClose
}

/// A stream that begins with a tree's canonical tokens and then stops
/// parses to exactly that tree.
proof fn lemma_parse_pp_expr(ts: Seq<(TokenV, Span)>, i: int, eof: Span, e: ExprV)
    requires
        wf_expr(e),
        stream_has(ts, i, toks_expr(e)),
        stopper(ts, i + toks_expr(e).len()),
    ensures
        parse_expr_s(ts, i, eof) == Result::<(ExprV, int), ParseErrorV>::Ok(
            (e, i + toks_expr(e).len()),
        ),
    decreases e, 0int,
{
    match e {
        ExprV::Name(n) => {
            assert(ts[i + 0].0 == toks_expr(e)[0]);
            assert(ts[i].0 == TokenV::Ident(n));
        },
        ExprV::Application { callee, argument } => {
            let c = *callee;
            let a = *argument;
            assert(toks_expr(e) == toks_callee(c) + toks_operand(a));
            let p = i + toks_callee(c).len();
            let q = p + toks_operand(a).len();
            assert(q == i + toks_expr(e).len());
            assert(stream_has(ts, i, toks_callee(c))) by {
                assert forall|k: int| 0 <= k < toks_callee(c).len() implies #[trigger] ts[i
                    + k].0 == toks_callee(c)[k] by {
                    assert(ts[i + k].0 == toks_expr(e)[k]);
                }
            }
            lemma_parse_pp_spine(ts, i, eof, c);
            assert(stream_has(ts, p, toks_operand(a))) by {
                assert forall|k: int| 0 <= k < toks_operand(a).len() implies #[trigger] ts[p
                    + k].0 == toks_operand(a)[k] by {
                    assert(ts[i + (toks_callee(c).len() + k)].0 == toks_expr(e)[toks_callee(
                        c,
                    ).len() + k]);
                    assert(i + (toks_callee(c).len() + k) == p + k);
                }
            }
            lemma_parse_pp_operand_atom(ts, p, eof, a);
            assert(ts[p + 0].0 == toks_operand(a)[0]);
            assert(toks_operand(a)[0] is Ident || toks_operand(a)[0] is ParenOpen) by {
                match a {
                    ExprV::Name(n2) => {},
                    _ => {},
                }
            }
            assert(parse_app_fold_s(ts, q, e, eof) == Result::<(ExprV, int), ParseErrorV>::Ok(
                (e, q),
            ));
            assert(parse_app_fold_s(ts, p, c, eof) == Result::<(ExprV, int), ParseErrorV>::Ok(
                (e, q),
            ));
        },
        ExprV::Abstraction { params, body } => {
            lemma_parse_pp_abs(ts, i, eof, params, *body);
        },
    }
}

/// A stream that begins with an abstraction's canonical tokens and then
/// stops parses to exactly that abstraction.
proof fn lemma_parse_pp_abs(ts: Seq<(TokenV, Span)>, i: int, eof: Span, params: Seq<char>, b: ExprV)
    requires
        wf_name(params),
        wf_expr(b),
        stream_has(
            ts,
            i,
            toks_expr(ExprV::Abstraction { params: params, body: Box::new(b) }),
        ),
        stopper(
            ts,
            i + toks_expr(ExprV::Abstraction { params: params, body: Box::new(b) }).len(),
        ),
    ensures
        parse_expr_s(ts, i, eof) == Result::<(ExprV, int), ParseErrorV>::Ok(
            (
                ExprV::Abstraction { params: params, body: Box::new(b) },
                i + toks_expr(ExprV::Abstraction { params: params, body: Box::new(b) }).len(),
            ),
        ),
    decreases b, 2int,
{
    let e = ExprV::Abstraction { params: params, body: Box::new(b) };
    assert(toks_expr(e) == seq![TokenV::Lambda, TokenV::Ident(params), TokenV::Dot] + toks_expr(
        b,
    ));
    assert(ts[i + 0].0 == toks_expr(e)[0]);
    assert(ts[i + 1].0 == toks_expr(e)[1]);
    assert(ts[i + 2].0 == toks_expr(e)[2]);
    assert(ts[i].0 is Lambda);
    assert(ts[i + 1].0 == TokenV::Ident(params));
    assert(ts[i + 2].0 is Dot);
    assert(stream_has(ts, i + 3, toks_expr(b))) by {
        assert forall|k: int| 0 <= k < toks_expr(b).len() implies #[trigger] ts[(i + 3) + k].0
            == toks_expr(b)[k] by {
            assert(ts[i + (3 + k)].0 == toks_expr(e)[3 + k]);
            assert(i + (3 + k) == (i + 3) + k);
        }
    }
    assert(stopper(ts, (i + 3) + toks_expr(b).len()));
    lemma_parse_pp_expr(ts, i + 3, eof, b);
    assert(parse_abs_s(ts, i, eof) == Result::<(ExprV, int), ParseErrorV>::Ok(
        (e, i + toks_expr(e).len()),
    ));
}

/// A stream that begins with a callee's canonical tokens parses through
/// them into the application fold, with the callee accumulated.
proof fn lemma_parse_pp_spine(ts: Seq<(TokenV, Span)>, i: int, eof: Span, c: ExprV)
    requires
        wf_expr(c),
        stream_has(ts, i, toks_callee(c)),
    ensures
        parse_expr_s(ts, i, eof) == parse_app_fold_s(ts, i + toks_callee(c).len(), c, eof),
    decreases c, 1int,
{
    match c {
        ExprV::Name(n) => {
            assert(ts[i + 0].0 == toks_callee(c)[0]);
            assert(ts[i].0 == TokenV::Ident(n));
        },
        ExprV::Application { callee, argument } => {
            let c2 = *callee;
            let a2 = *argument;
            assert(toks_callee(c) == toks_callee(c2) + toks_operand(a2));
            let p = i + toks_callee(c2).len();
            let q = p + toks_operand(a2).len();
            assert(q == i + toks_callee(c).len());
            assert(stream_has(ts, i, toks_callee(c2))) by {
                assert forall|k: int| 0 <= k < toks_callee(c2).len() implies #[trigger] ts[i
                    + k].0 == toks_callee(c2)[k] by {
                    assert(ts[i + k].0 == toks_callee(c)[k]);
                }
            }
            lemma_parse_pp_spine(ts, i, eof, c2);
            assert(stream_has(ts, p, toks_operand(a2))) by {
                assert forall|k: int| 0 <= k < toks_operand(a2).len() implies #[trigger] ts[p
                    + k].0 == toks_operand(a2)[k] by {
                    assert(ts[i + (toks_callee(c2).len() + k)].0 == toks_callee(c)[toks_callee(
                        c2,
                    ).len() + k]);
                    assert(i + (toks_callee(c2).len() + k) == p + k);
                }
            }
            lemma_parse_pp_operand_atom(ts, p, eof, a2);
            assert(ts[p + 0].0 == toks_operand(a2)[0]);
            assert(toks_operand(a2)[0] is Ident || toks_operand(a2)[0] is ParenOpen) by {
                match a2 {
                    ExprV::Name(n2) => {},
                    _ => {},
                }
            }
            assert(parse_app_fold_s(ts, p, c2, eof) == parse_app_fold_s(ts, q, c, eof));
        },
        ExprV::Abstraction { params, body } => {
            assert(toks_callee(c) == seq![TokenV::ParenOpen] + toks_expr(c) + seq![
                TokenV::ParenClose,
            ]);
            assert(ts[i + 0].0 == toks_callee(c)[0]);
            assert(ts[i].0 is ParenOpen);
            let j2 = (i + 1) + toks_expr(c).len();
            assert(stream_has(ts, i + 1, toks_expr(c))) by {
                assert forall|k: int| 0 <= k < toks_expr(c).len() implies #[trigger] ts[(i + 1)
                    + k].0 == toks_expr(c)[k] by {
                    assert(ts[i + (1 + k)].0 == toks_callee(c)[1 + k]);
                    assert(i + (1 + k) == (i + 1) + k);
                }
            }
            assert(ts[i + (toks_callee(c).len() - 1)].0 == toks_callee(c)[toks_callee(c).len()
                - 1]);
            assert(ts[j2].0 is ParenClose);
            assert(stopper(ts, j2));
            lemma_parse_pp_abs(ts, i + 1, eof, params, *body);
            assert(parse_atom_s(ts, i, eof) == Result::<(ExprV, int), ParseErrorV>::Ok(
                (c, i + toks_callee(c).len()),
            ));
        },
    }
}

/// A stream that begins with an argument's canonical tokens parses one
/// atom to exactly that argument.
proof fn lemma_parse_pp_operand_atom(ts: Seq<(TokenV, Span)>, i: int, eof: Span, a: ExprV)
    requires
        wf_expr(a),
        stream_has(ts, i, toks_operand(a)),
    ensures
        parse_atom_s(ts, i, eof) == Result::<(ExprV, int), ParseErrorV>::Ok(
            (a, i + toks_operand(a).len()),
        ),
    decreases a, 1int,
{
    match a {
        ExprV::Name(n) => {
            assert(ts[i + 0].0 == toks_operand(a)[0]);
            assert(ts[i].0 == TokenV::Ident(n));
        },
        _ => {
            assert(toks_operand(a) == seq![TokenV::ParenOpen] + toks_expr(a) + seq![
                TokenV::ParenClose,
            ]);
            assert(ts[i + 0].0 == toks_operand(a)[0]);
            assert(ts[i].0 is ParenOpen);
            let j2 = (i + 1) + toks_expr(a).len();
            assert(stream_has(ts, i + 1, toks_expr(a))) by {
                assert forall|k: int| 0 <= k < toks_expr(a).len() implies #[trigger] ts[(i + 1)
                    + k].0 == toks_expr(a)[k] by {
                    assert(ts[i + (1 + k)].0 == toks_operand(a)[1 + k]);
                    assert(i + (1 + k) == (i + 1) + k);
                }
            }
            assert(ts[i + (toks_operand(a).len() - 1)].0 == toks_operand(a)[toks_operand(a).len()
                - 1]);
            assert(ts[j2].0 is ParenClose);
            assert(stopper(ts, j2));
            lemma_parse_pp_expr(ts, i + 1, eof, a);
        },
    }
}

/// Appending one closing parenthesis does not disturb an abstraction
/// parse that succeeded within the stream.
proof fn lemma_abs_push(ts: Seq<(TokenV, Span)>, x: (TokenV, Span), i: int, eof1: Span, eof2: Span)
    requires
        0 <= i <= ts.len(),
        x.0 is ParenClose,
    ensures
        parse_abs_s(ts, i, eof1) matches Result::Ok(r) ==> parse_abs_s(ts.push(x), i, eof2)
            == Result::<(ExprV, int), ParseErrorV>::Ok(r),
    decreases ts.len() - i, 1int,
{
    let tp = ts.push(x);
    if i < ts.len() && ts[i].0 is Lambda && i + 1 < ts.len() && ts[i + 1].0 is Ident && i + 2
        < ts.len() && ts[i + 2].0 is Dot {
        assert(tp[i] == ts[i]);
        assert(tp[i + 1] == ts[i + 1]);
        assert(tp[i + 2] == ts[i + 2]);
        lemma_expr_push(ts, x, i + 3, eof1, eof2);
    }
}

/// Appending one closing parenthesis does not disturb an atom parse that
/// succeeded within the stream.
proof fn lemma_atom_push(ts: Seq<(TokenV, Span)>, x: (TokenV, Span), i: int, eof1: Span, eof2: Span)
    requires
        0 <= i <= ts.len(),
        x.0 is ParenClose,
    ensures
        parse_atom_s(ts, i, eof1) matches Result::Ok(r) ==> parse_atom_s(ts.push(x), i, eof2)
            == Result::<(ExprV, int), ParseErrorV>::Ok(r),
    decreases ts.len() - i, 2int,
{
    let tp = ts.push(x);
    if i < ts.len() {
        assert(tp[i] == ts[i]);
        if ts[i].0 is ParenOpen {
            lemma_expr_push(ts, x, i + 1, eof1, eof2);
            match parse_expr_s(ts, i + 1, eof1) {
                Result::Ok((e0, j0)) => {
                    if 0 <= j0 < ts.len() {
                        assert(tp[j0] == ts[j0]);
                    }
                },
                Result::Err(_) => {},
            }
        }
    }
}

/// Appending one closing parenthesis does not disturb an application fold
/// that succeeded within the stream: at the old end the fold now sees the
/// closing parenthesis and stops just the same.
proof fn lemma_fold_push(
    ts: Seq<(TokenV, Span)>,
    x: (TokenV, Span),
    i: int,
    acc: ExprV,
    eof1: Span,
    eof2: Span,
)
    requires
        0 <= i <= ts.len(),
        x.0 is ParenClose,
    ensures
        parse_app_fold_s(ts, i, acc, eof1) matches Result::Ok(r) ==> parse_app_fold_s(
            ts.push(x),
            i,
            acc,
            eof2,
        ) == Result::<(ExprV, int), ParseErrorV>::Ok(r),
    decreases ts.len() - i, 3int,
{
    let tp = ts.push(x);
    if i < ts.len() {
        assert(tp[i] == ts[i]);
        if ts[i].0 is Ident || ts[i].0 is ParenOpen {
            lemma_atom_bounds(ts, i, eof1);
            lemma_atom_push(ts, x, i, eof1, eof2);
            match parse_atom_s(ts, i, eof1) {
                Result::Ok((a, j)) => {
                    if i < j <= ts.len() {
                        lemma_fold_push(
                            ts,
                            x,
                            j,
                            ExprV::Application { callee: Box::new(acc), argument: Box::new(a) },
                            eof1,
                            eof2,
                        );
                    }
                },
                Result::Err(_) => {},
            }
        } else if ts[i].0 is Lambda {
            lemma_abs_push(ts, x, i, eof1, eof2);
        }
    } else {
        assert(tp[i] == x);
    }
}

/// Appending one closing parenthesis does not disturb an expression parse
/// that succeeded within the stream.
proof fn lemma_expr_push(ts: Seq<(TokenV, Span)>, x: (TokenV, Span), i: int, eof1: Span, eof2: Span)
    requires
        0 <= i <= ts.len(),
        x.0 is ParenClose,
    ensures
        parse_expr_s(ts, i, eof1) matches Result::Ok(r) ==> parse_expr_s(ts.push(x), i, eof2)
            == Result::<(ExprV, int), ParseErrorV>::Ok(r),
    decreases ts.len() - i, 4int,
{
    let tp = ts.push(x);
    if i < ts.len() {
        assert(tp[i] == ts[i]);
    } else {
        assert(tp[i] == x);
    }
    if i < ts.len() && ts[i].0 is Lambda {
        lemma_abs_push(ts, x, i, eof1, eof2);
    } else {
        lemma_atom_bounds(ts, i, eof1);
        lemma_atom_push(ts, x, i, eof1, eof2);
        match parse_atom_s(ts, i, eof1) {
            Result::Ok((a, j)) => {
                if i < j <= ts.len() {
                    lemma_fold_push(ts, x, j, a, eof1, eof2);
                }
            },
            Result::Err(_) => {},
        }
    }
}

/// Parenthesization is transparent: wrapping a text that parses
/// successfully in parentheses parses to the identical tree, with no
/// extra node.
pub proof fn lemma_parens_transparent(s: Seq<char>)
    requires
        parse_spec(s) is Ok,
    ensures
        parse_spec("("@ + s + ")"@) == parse_spec(s),
{
    reveal_strlit("(");
    reveal_strlit(")");
    let c = "("@ + s + ")"@;
    let tss = lex(s);
    let tsc = lex(c);
    let eofs = eof_span(s);
    let eofc = eof_span(c);
    lemma_lex_paren_any(s);
    assert(toks_of(tsc) == seq![TokenV::ParenOpen] + toks_of(tss) + seq![TokenV::ParenClose]);
    assert(tsc.len() == tss.len() + 2);

    // the text alone parses to its tree, consuming every token
    lemma_expr_bounds(tss, 0, eofs);
    let r = parse_expr_s(tss, 0, eofs);
    assert(r is Ok);
    let e = r->Ok_0.0;
    let j = r->Ok_0.1;
    assert(j == tss.len());
    assert(parse_spec(s) == Result::<ExprV, ParseErrorV>::Ok(e));

    // the same tokens with a closing parenthesis behind them still do
    let x = (TokenV::ParenClose, Span { start: 0 as usize, end: 0 as usize });
    let ts2 = tss.push(x);
    lemma_expr_push(tss, x, 0, eofs, eofs);
    assert(parse_expr_s(ts2, 0, eofs) == Result::<(ExprV, int), ParseErrorV>::Ok(
        (e, tss.len() as int),
    ));

    // inside the parentheses stand exactly those tokens
    assert(same_tail(tsc, 1, ts2, 0)) by {
        assert forall|k: int| 0 <= k < tsc.len() - 1 implies #[trigger] tsc[1 + k].0 == ts2[0
            + k].0 by {
            assert(toks_of(tsc)[1 + k] == tsc[1 + k].0);
            if k < tss.len() {
                assert(toks_of(tss)[k] == tss[k].0);
                assert(ts2[k] == tss[k]);
            } else {
                assert(ts2[k] == x);
            }
        }
    }
    lemma_expr_shift(tsc, 1, eofc, ts2, 0, eofs);
    assert(parse_expr_s(tsc, 1, eofc) == Result::<(ExprV, int), ParseErrorV>::Ok(
        (e, 1int + tss.len()),
    ));

    // the wrapping parentheses parse as one atom holding the tree itself
    assert(toks_of(tsc)[0] == tsc[0].0);
    assert(tsc[0].0 is ParenOpen);
    assert(toks_of(tsc)[1int + tss.len()] == tsc[1int + tss.len()].0);
    assert(tsc[1int + tss.len()].0 is ParenClose);
    assert(parse_atom_s(tsc, 0, eofc) == Result::<(ExprV, int), ParseErrorV>::Ok(
        (e, tsc.len() as int),
    ));
    assert(parse_app_fold_s(tsc, tsc.len() as int, e, eofc) == Result::<
        (ExprV, int),
        ParseErrorV,
    >::Ok((e, tsc.len() as int)));
    assert(parse_expr_s(tsc, 0, eofc) == Result::<(ExprV, int), ParseErrorV>::Ok(
        (e, tsc.len() as int),
    ));
    assert(parse_toks_s(tsc, eofc) == Result::<ExprV, ParseErrorV>::Ok(e));
}

/// Whether every identifier token of the stream holds one or more
/// letters, as every token the tokenizer emits does.
spec fn all_idents_wf(ts: Seq<(TokenV, Span)>) -> bool {
    forall|k: int|
        0 <= k < ts.len() && (#[trigger] ts[k].0) is Ident ==> wf_name(ts[k].0->Ident_0)
}

/// Every identifier token the tokenizer emits holds one or more letters.
proof fn lemma_lex_all_wf(s: Seq<char>, i: int)
    requires
        0 <= i,
    ensures
        all_idents_wf(lex_from(s, i)),
    decreases s.len() - i,
{
    if i >= s.len() {
    } else if is_whitespace(s[i]) {
        lemma_lex_all_wf(s, i + 1);
    } else if is_letter(s[i]) {
        lemma_ident_end(s, i);
        let e = ident_end(s, i);
        assert(e > i) by {
            lemma_ident_end(s, i + 1);
            assert(ident_end(s, i) == ident_end(s, i + 1));
        }
        lemma_lex_all_wf(s, e);
        assert(wf_name(s.subrange(i, e)));
        let h = (TokenV::Ident(s.subrange(i, e)), Span { start: i as usize, end: e as usize });
        assert(lex_from(s, i) == seq![h] + lex_from(s, e));
        assert forall|k: int|
            0 <= k < lex_from(s, i).len() && (#[trigger] lex_from(s, i)[k].0) is Ident implies
        wf_name(lex_from(s, i)[k].0->Ident_0) by {
            if k > 0 {
                assert(lex_from(s, i)[k] == lex_from(s, e)[k - 1]);
            }
        }
    } else if s[i] == ':' && i + 1 < s.len() && s[i + 1] == '=' {
        lemma_lex_all_wf(s, i + 2);
        assert forall|k: int|
            0 <= k < lex_from(s, i).len() && (#[trigger] lex_from(s, i)[k].0) is Ident implies
        wf_name(lex_from(s, i)[k].0->Ident_0) by {
            if k > 0 {
                assert(lex_from(s, i)[k] == lex_from(s, i + 2)[k - 1]);
            }
        }
    } else {
        lemma_lex_all_wf(s, i + 1);
        assert forall|k: int|
            0 <= k < lex_from(s, i).len() && (#[trigger] lex_from(s, i)[k].0) is Ident implies
        wf_name(lex_from(s, i)[k].0->Ident_0) by {
            if k > 0 {
                assert(lex_from(s, i)[k] == lex_from(s, i + 1)[k - 1]);
            }
        }
    }
}

/// A successfully parsed abstraction is well-formed when the stream's
/// identifier tokens are.
proof fn lemma_abs_wf(ts: Seq<(TokenV, Span)>, i: int, eof: Span)
    requires
        0 <= i <= ts.len(),
        all_idents_wf(ts),
    ensures
        parse_abs_s(ts, i, eof) matches Result::Ok((e, j)) ==> wf_expr(e),
    decreases ts.len() - i, 1int,
{
    if i < ts.len() && ts[i].0 is Lambda && i + 1 < ts.len() && ts[i + 1].0 is Ident && i + 2
        < ts.len() && ts[i + 2].0 is Dot {
        assert(wf_name(ts[i + 1].0->Ident_0));
        lemma_expr_wf(ts, i + 3, eof);
    }
}

/// A successfully parsed atom is well-formed when the stream's identifier
/// tokens are.
proof fn lemma_atom_wf(ts: Seq<(TokenV, Span)>, i: int, eof: Span)
    requires
        0 <= i <= ts.len(),
        all_idents_wf(ts),
    ensures
        parse_atom_s(ts, i, eof) matches Result::Ok((e, j)) ==> wf_expr(e),
    decreases ts.len() - i, 2int,
{
    if i < ts.len() {
        if ts[i].0 is Ident {
            assert(wf_name(ts[i].0->Ident_0));
        } else if ts[i].0 is ParenOpen {
            lemma_expr_wf(ts, i + 1, eof);
        }
    }
}

/// A successfully folded application chain is well-formed when its
/// accumulated left part and the stream's identifier tokens are.
proof fn lemma_fold_wf(ts: Seq<(TokenV, Span)>, i: int, acc: ExprV, eof: Span)
    requires
        0 <= i <= ts.len(),
        wf_expr(acc),
        all_idents_wf(ts),
    ensures
        parse_app_fold_s(ts, i, acc, eof) matches Result::Ok((e, j)) ==> wf_expr(e),
    decreases ts.len() - i, 3int,
{
    if i < ts.len() && (ts[i].0 is Ident || ts[i].0 is ParenOpen) {
        lemma_atom_wf(ts, i, eof);
        match parse_atom_s(ts, i, eof) {
            Result::Ok((a, j)) => {
                if i < j <= ts.len() {
                    lemma_fold_wf(
                        ts,
                        j,
                        ExprV::Application { callee: Box::new(acc), argument: Box::new(a) },
                        eof,
                    );
                }
            },
            Result::Err(_) => {},
        }
    } else if i < ts.len() && ts[i].0 is Lambda {
        lemma_abs_wf(ts, i, eof);
    }
}

/// A successfully parsed expression is well-formed when the stream's
/// identifier tokens are.
proof fn lemma_expr_wf(ts: Seq<(TokenV, Span)>, i: int, eof: Span)
    requires
        0 <= i <= ts.len(),
        all_idents_wf(ts),
    ensures
        parse_expr_s(ts, i, eof) matches Result::Ok((e, j)) ==> wf_expr(e),
    decreases ts.len() - i, 4int,
{
    if i < ts.len() && ts[i].0 is Lambda {
        lemma_abs_wf(ts, i, eof);
    } else {
        lemma_atom_wf(ts, i, eof);
        match parse_atom_s(ts, i, eof) {
            Result::Ok((a, j)) => {
                if i < j <= ts.len() {
                    lemma_fold_wf(ts, j, a, eof);
                }
            },
            Result::Err(_) => {},
        }
    }
}

/// Every tree a successful parse yields is well-formed: each identifier
/// and each parameter list holds one or more letters.
pub proof fn lemma_parse_wf(s: Seq<char>)
    requires
        parse_spec(s) is Ok,
    ensures
        wf_expr(parse_spec(s)->Ok_0),
{
    lemma_lex_all_wf(s, 0);
    lemma_expr_wf(lex(s), 0, eof_span(s));
}

/// Round trip on well-formed input: pretty-printing any tree the grammar
/// can produce and re-parsing the text yields a tree equal to the
/// original.
pub proof fn lemma_roundtrip(e: ExprV)
    requires
        wf_expr(e),
    ensures
        parse_spec(pp_expr(e)) == Result::<ExprV, ParseErrorV>::Ok(e),
{
    lemma_lex_pp_expr(e);
    let ts = lex(pp_expr(e));
    assert(ts.len() == toks_expr(e).len());
    assert(stream_has(ts, 0, toks_expr(e))) by {
        assert forall|k: int| 0 <= k < toks_expr(e).len() implies #[trigger] ts[0 + k].0
            == toks_expr(e)[k] by {
            assert(toks_of(ts)[k] == ts[k].0);
        }
    }
    assert(stopper(ts, 0int + toks_expr(e).len()));
    lemma_parse_pp_expr(ts, 0, eof_span(pp_expr(e)), e);
    assert(parse_toks_s(ts, eof_span(pp_expr(e))) == Result::<ExprV, ParseErrorV>::Ok(e));
}

/// Round trip from any well-formed source text: pretty-printing a
/// successfully parsed tree and re-parsing the printed text yields a tree
/// equal to the original parse.
pub proof fn lemma_parse_pretty_roundtrip(s: Seq<char>)
    requires
        parse_spec(s) is Ok,
    ensures
        parse_spec(pp_expr(parse_spec(s)->Ok_0)) == parse_spec(s),
{
    lemma_parse_wf(s);
    lemma_roundtrip(parse_spec(s)->Ok_0);
}

} // verus!
