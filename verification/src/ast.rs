//! The abstract syntax: S-expressions over literals and identifiers. `ExprV`
//! is the mathematical model of an expression; `expr_view` relates the two.
//! A float literal keeps its matched bytes: the language has no operator
//! that combines floats, so nothing more than the text is ever read.

use vstd::prelude::*;
use crate::token::{SpecToken, Token};

verus! {

/// One parsed expression.
#[derive(Debug)]
pub enum Expr {
    SExpr(SExpr),
    Int(i64),
    Identifier(Vec<u8>),
    Bool(bool),
    Float(Vec<u8>),
    Empty,
}

/// A parenthesized form: the operator token and its arguments, in the order
/// they were written.
#[derive(Debug)]
pub struct SExpr {
    pub op: Token,
    pub args: Vec<Expr>,
}

/// The mathematical model of an expression.
pub enum ExprV {
    SExpr { op: SpecToken, args: Seq<ExprV> },
    Int(i64),
    Identifier(Seq<u8>),
    Bool(bool),
    Float(Seq<u8>),
    Empty,
}

/// The model of one expression.
pub open spec fn expr_view(e: Expr) -> ExprV
    decreases e,
{
    match e {
        Expr::SExpr(s) => ExprV::SExpr { op: s.op@, args: exprs_view(s.args@) },
        Expr::Int(i) => ExprV::Int(i),
        Expr::Identifier(name) => ExprV::Identifier(name@),
        Expr::Bool(b) => ExprV::Bool(b),
        Expr::Float(text) => ExprV::Float(text@),
        Expr::Empty => ExprV::Empty,
    }
}

/// The model of a sequence of expressions, elementwise.
pub open spec fn exprs_view(es: Seq<Expr>) -> Seq<ExprV>
    decreases es,
{
    Seq::new(
        es.len(),
        |i: int|
            if 0 <= i < es.len() {
                expr_view(es[i])
            } else {
                ExprV::Empty
            },
    )
}

/// Pushing an expression extends the model by its view.
pub proof fn lemma_exprs_view_push(es: Seq<Expr>, e: Expr)
    ensures
        exprs_view(es.push(e)) =~= exprs_view(es).push(expr_view(e)),
{
}

} // verus!
