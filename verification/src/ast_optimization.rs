//! Rewrites of the syntax tree before code generation.
use vstd::prelude::*;
use crate::types::Expr;

verus! {

/// The tree handed to code generation. No rewrite is applied: the tree is
/// returned as it is.
pub fn optimize_ast(ast: Vec<Expr>) -> (r: Vec<Expr>)
    ensures
        r@ == ast@,
{
    ast
}

} // verus!
