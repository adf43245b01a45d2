//! The tokenizer: scans source text into a finite sequence of spanned
//! tokens.
//!
//! Whitespace (space, tab, carriage return, newline) is matched and
//! silently dropped. Identifiers are maximal-munch runs of one or more
//! ASCII letters. The two-character token `:=` takes priority over the
//! single character `:` (which matches no rule on its own). Any character
//! matching no rule is emitted as an `Invalid` token rather than aborting,
//! so the parser can still report a precise location.

use crate::token::{Span, SpannedToken, Token, TokenV};
use vstd::prelude::*;

verus! {

/// An ASCII letter, the only characters an identifier may hold.
pub open spec fn is_letter(c: char) -> bool {
    ('a' <= c && c <= 'z') || ('A' <= c && c <= 'Z')
}

/// A whitespace character: recognized and discarded by the tokenizer.
pub open spec fn is_whitespace(c: char) -> bool {
    c == ' ' || c == '\t' || c == '\r' || c == '\n'
}

/// The end of the maximal run of letters starting at `i`.
pub open spec fn ident_end(s: Seq<char>, i: int) -> int
    decreases s.len() - i,
{
    if 0 <= i < s.len() && is_letter(s[i]) {
        ident_end(s, i + 1)
    } else {
        i
    }
}

/// The maximal letter run starting at `i` ends at or after `i`, no later
/// than the end of the text, covers letters only, and is maximal.
pub proof fn lemma_ident_end(s: Seq<char>, i: int)
    requires
        0 <= i <= s.len(),
    ensures
        i <= ident_end(s, i) <= s.len(),
        forall|k: int| i <= k < ident_end(s, i) ==> is_letter(s[k]),
        ident_end(s, i) < s.len() ==> !is_letter(s[ident_end(s, i)]),
    decreases s.len() - i,
{
    if i < s.len() && is_letter(s[i]) {
        lemma_ident_end(s, i + 1);
    }
}

/// The tokens of the text from offset `i` on: the token stream is a pure
/// function of the source text.
pub open spec fn lex_from(s: Seq<char>, i: int) -> Seq<(TokenV, Span)>
    decreases s.len() - i,
        when 0 <= i
        via lex_from_decreases
{
    if i >= s.len() {
        Seq::empty()
    } else if is_whitespace(s[i]) {
        lex_from(s, i + 1)
    } else if is_letter(s[i]) {
        let e = ident_end(s, i);
        seq![(TokenV::Ident(s.subrange(i, e)), Span { start: i as usize, end: e as usize })]
            + lex_from(s, e)
    } else if s[i] == '\u{3bb}' {
        seq![(TokenV::Lambda, Span { start: i as usize, end: (i + 1) as usize })]
            + lex_from(s, i + 1)
    } else if s[i] == '.' {
        seq![(TokenV::Dot, Span { start: i as usize, end: (i + 1) as usize })] + lex_from(s, i + 1)
    } else if s[i] == '(' {
        seq![(TokenV::ParenOpen, Span { start: i as usize, end: (i + 1) as usize })]
            + lex_from(s, i + 1)
    } else if s[i] == ')' {
        seq![(TokenV::ParenClose, Span { start: i as usize, end: (i + 1) as usize })]
            + lex_from(s, i + 1)
    } else if s[i] == ':' && i + 1 < s.len() && s[i + 1] == '=' {
        seq![(TokenV::Binding, Span { start: i as usize, end: (i + 2) as usize })]
            + lex_from(s, i + 2)
    } else {
        seq![(TokenV::Invalid, Span { start: i as usize, end: (i + 1) as usize })]
            + lex_from(s, i + 1)
    }
}

#[via_fn]
proof fn lex_from_decreases(s: Seq<char>, i: int) {
    if 0 <= i < s.len() && !is_whitespace(s[i]) && is_letter(s[i]) {
        lemma_ident_end(s, i + 1);
        assert(ident_end(s, i) == ident_end(s, i + 1));
    }
}

/// The full token stream of the source text.
pub open spec fn lex(s: Seq<char>) -> Seq<(TokenV, Span)> {
    lex_from(s, 0)
}

/// The mathematical value of a materialized token sequence.
pub open spec fn toks_view(ts: Seq<SpannedToken>) -> Seq<(TokenV, Span)> {
    ts.map_values(|t: SpannedToken| t@)
}

/// Whether `c` is an ASCII letter.
pub fn letter(c: char) -> (r: bool)
    ensures
        r == is_letter(c),
{
    ('a' <= c && c <= 'z') || ('A' <= c && c <= 'Z')
}

/// Whether `c` is whitespace to the tokenizer.
pub fn whitespace(c: char) -> (r: bool)
    ensures
        r == is_whitespace(c),
{
    c == ' ' || c == '\t' || c == '\r' || c == '\n'
}

/// Scans the whole source text into its token sequence. Restartable by
/// calling again: the result is a pure function of the text.
pub fn tokenize(source: &str) -> (r: Vec<SpannedToken>)
    ensures
        toks_view(r@) == lex(source@),
{
    let ghost s = source@;
    let n = source.unicode_len();
    let mut out: Vec<SpannedToken> = Vec::new();
    let mut i: usize = 0;
    while i < n
        invariant
            n == s.len(),
            s == source@,
            i <= n,
            toks_view(out@) + lex_from(s, i as int) =~= lex(s),
        decreases n - i,
    {
        let c = source.get_char(i);
        if whitespace(c) {
            i = i + 1;
        } else if letter(c) {
            let mut e: usize = i + 1;
            while e < n && letter(source.get_char(e))
                invariant
                    n == s.len(),
                    s == source@,
                    i < e <= n,
                    ident_end(s, i as int) == ident_end(s, e as int),
                decreases n - e,
            {
                e = e + 1;
            }
            assert(ident_end(s, i as int) == e as int);
            let text = source.substring_char(i, e);
            let tok = SpannedToken {
                token: Token::Ident(String::from_str(text)),
                span: Span { start: i, end: e },
            };
            proof {
                push_keeps_view(out@, tok);
            }
            out.push(tok);
            i = e;
        } else if c == '\u{3bb}' {
            let tok = SpannedToken { token: Token::Lambda, span: Span { start: i, end: i + 1 } };
            proof {
                push_keeps_view(out@, tok);
            }
            out.push(tok);
            i = i + 1;
        } else if c == '.' {
            let tok = SpannedToken { token: Token::Dot, span: Span { start: i, end: i + 1 } };
            proof {
                push_keeps_view(out@, tok);
            }
            out.push(tok);
            i = i + 1;
        } else if c == '(' {
            let tok = SpannedToken {
                token: Token::ParenOpen,
                span: Span { start: i, end: i + 1 },
            };
            proof {
                push_keeps_view(out@, tok);
            }
            out.push(tok);
            i = i + 1;
        } else if c == ')' {
            let tok = SpannedToken {
                token: Token::ParenClose,
                span: Span { start: i, end: i + 1 },
            };
            proof {
                push_keeps_view(out@, tok);
            }
            out.push(tok);
            i = i + 1;
        } else if c == ':' && i + 1 < n && source.get_char(i + 1) == '=' {
            let tok = SpannedToken { token: Token::Binding, span: Span { start: i, end: i + 2 } };
            proof {
                push_keeps_view(out@, tok);
            }
            out.push(tok);
            i = i + 2;
        } else {
            let tok = SpannedToken { token: Token::Invalid, span: Span { start: i, end: i + 1 } };
            proof {
                push_keeps_view(out@, tok);
            }
            out.push(tok);
            i = i + 1;
        }
    }
    assert(toks_view(out@) =~= lex(s));
    out
}

/// Appending one token appends its value to the sequence's value.
proof fn push_keeps_view(ts: Seq<SpannedToken>, t: SpannedToken)
    ensures
        toks_view(ts.push(t)) =~= toks_view(ts) + seq![t@],
{
}

} // verus!
