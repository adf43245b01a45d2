//! The pretty-printer: renders a syntax tree as source text that parses
//! back to a structurally equal tree.
//!
//! A callee is printed bare when it is a name or an application (the
//! grammar folds applications to the left), and parenthesized when it is
//! an abstraction. An argument is printed bare when it is a name and
//! parenthesized otherwise, so that nested applications and abstractions
//! re-parse with the original shape.

use crate::ast::{Expr, ExprV};
use vstd::prelude::*;

verus! {

/// The canonical text of an expression.
pub open spec fn pp_expr(e: ExprV) -> Seq<char>
    decreases e, 0int,
{
    match e {
        ExprV::Name(n) => n,
        ExprV::Application { callee, argument } => pp_callee(*callee) + " "@ + pp_operand(
            *argument,
        ),
        ExprV::Abstraction { params, body } => "\u{3bb}"@ + params + "."@ + pp_expr(*body),
    }
}

/// The text of an expression standing as the callee of an application.
pub open spec fn pp_callee(e: ExprV) -> Seq<char>
    decreases e, 1int,
{
    match e {
        ExprV::Name(n) => n,
        ExprV::Application { callee, argument } => pp_callee(*callee) + " "@ + pp_operand(
            *argument,
        ),
        ExprV::Abstraction { params, body } => "("@ + pp_expr(e) + ")"@,
    }
}

/// The text of an expression standing as the argument of an application.
pub open spec fn pp_operand(e: ExprV) -> Seq<char>
    decreases e, 1int,
{
    match e {
        ExprV::Name(n) => n,
        _ => "("@ + pp_expr(e) + ")"@,
    }
}

/// Relies on `String::push`: appends exactly the given character to the
/// end of the string.
#[verifier::external_body]
fn push_char(s: &mut String, c: char)
    ensures
        final(s)@ == old(s)@.push(c),
{
    s.push(c);
}

/// Renders a syntax tree as its canonical source text.
pub fn pretty(e: &Expr) -> (r: String)
    ensures
        r@ == pp_expr(e@),
    decreases e, 0int,
{
    match e {
        Expr::Name(n) => n.clone(),
        Expr::Application { callee, argument } => {
            let mut out = pretty_callee(&**callee);
            out.append(" ");
            let arg = pretty_operand(&**argument);
            out.append(arg.as_str());
            assert(out@ =~= pp_expr(e@));
            out
        },
        Expr::Abstraction { params, body } => {
            let mut out = String::from_str("\u{3bb}");
            let mut k: usize = 0;
            while k < params.len()
                invariant
                    k <= params@.len(),
                    out@ =~= "\u{3bb}"@ + params@.subrange(0, k as int),
                decreases params@.len() - k,
            {
                push_char(&mut out, params[k]);
                assert(out@ =~= "\u{3bb}"@ + params@.subrange(0, k + 1 as int));
                k = k + 1;
            }
            assert(params@.subrange(0, params@.len() as int) =~= params@);
            out.append(".");
            let b = pretty(&**body);
            out.append(b.as_str());
            assert(out@ =~= pp_expr(e@));
            out
        },
    }
}

/// Renders a tree standing as the callee of an application.
fn pretty_callee(e: &Expr) -> (r: String)
    ensures
        r@ == pp_callee(e@),
    decreases e, 1int,
{
    match e {
        Expr::Name(n) => n.clone(),
        Expr::Application { callee, argument } => {
            let mut out = pretty_callee(&**callee);
            out.append(" ");
            let arg = pretty_operand(&**argument);
            out.append(arg.as_str());
            assert(out@ =~= pp_callee(e@));
            out
        },
        Expr::Abstraction { .. } => {
            let mut out = String::from_str("(");
            let inner = pretty(e);
            out.append(inner.as_str());
            out.append(")");
            assert(out@ =~= pp_callee(e@));
            out
        },
    }
}

/// Renders a tree standing as the argument of an application.
fn pretty_operand(e: &Expr) -> (r: String)
    ensures
        r@ == pp_operand(e@),
    decreases e, 1int,
{
    match e {
        Expr::Name(n) => n.clone(),
        _ => {
            let mut out = String::from_str("(");
            let inner = pretty(e);
            out.append(inner.as_str());
            out.append(")");
            assert(out@ =~= pp_operand(e@));
            out
        },
    }
}

} // verus!
