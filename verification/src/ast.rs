//! The abstract syntax tree of the expression language.

use vstd::prelude::*;

verus! {

/// A parsed expression. Each node exclusively owns its children; a
/// successful parse yields exactly one root.
///
/// - `Name`: a reference to an identifier.
/// - `Application`: juxtaposition of a callee and an argument;
///   left-associative by construction.
/// - `Abstraction`: binds the parameter characters of one identifier token
///   over a body that extends as far right as the grammar allows.
#[derive(Debug, PartialEq, Eq)]
pub enum Expr {
    Name(String),
    Application { callee: Box<Expr>, argument: Box<Expr> },
    Abstraction { params: Vec<char>, body: Box<Expr> },
}

/// The mathematical value of an [`Expr`]: identifier text and parameter
/// lists as character sequences.
pub enum ExprV {
    Name(Seq<char>),
    Application { callee: Box<ExprV>, argument: Box<ExprV> },
    Abstraction { params: Seq<char>, body: Box<ExprV> },
}

/// The mathematical value of a syntax tree, child by child.
pub open spec fn expr_view(e: Expr) -> ExprV
    decreases e,
{
    match e {
        Expr::Name(s) => ExprV::Name(s@),
        Expr::Application { callee, argument } => ExprV::Application {
            callee: Box::new(expr_view(*callee)),
            argument: Box::new(expr_view(*argument)),
        },
        Expr::Abstraction { params, body } => ExprV::Abstraction {
            params: params@,
            body: Box::new(expr_view(*body)),
        },
    }
}

impl View for Expr {
    type V = ExprV;

    open spec fn view(&self) -> ExprV {
        expr_view(*self)
    }
}

} // verus!
