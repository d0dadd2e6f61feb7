//! Construction of trees. All nodes of one tree are placed in one arena, and
//! each new node borrows the children it is given.

use crate::ast::{BinOp, BinaryExpr, Expr, GroupExpr, LiteralExpr, UnOp, UnaryExpr};
use typed_arena::Arena;
use vstd::prelude::*;

verus! {

/// `typed_arena::Arena`, an allocator for values of one type that frees them
/// all at once. Nothing is stated about what it holds.
#[verifier::external_type_specification]
#[verifier::external_body]
#[verifier::reject_recursive_types(T)]
pub struct ExArena<T>(Arena<T>);

/// `typed_arena::Arena::new` makes an empty arena. Nothing is claimed of it.
pub assume_specification<T>[ Arena::<T>::new ]() -> (arena: Arena<T>);

/// Calls `typed_arena::Arena::alloc`, which moves the value into the arena and
/// hands back a reference to it there. The contract claims that the value
/// behind the reference is the one that was given.
#[verifier::external_body]
fn place<'a>(arena: &'a Arena<Expr<'a>>, node: Expr<'a>) -> (r: &'a Expr<'a>)
    ensures
        *r == node,
{
    arena.alloc(node)
}

/// A leaf that holds the number with the given bit pattern.
pub fn literal<'a>(arena: &'a Arena<Expr<'a>>, bits: u64) -> (r: &'a Expr<'a>)
    ensures
        *r == Expr::Literal(LiteralExpr { bits }),
{
    place(arena, Expr::Literal(LiteralExpr { bits }))
}

/// The sign `op` applied to `operand`.
pub fn unary<'a>(arena: &'a Arena<Expr<'a>>, op: UnOp, operand: &'a Expr<'a>) -> (r: &'a Expr<'a>)
    ensures
        *r == Expr::Unary(UnaryExpr { op, rhs: operand }),
{
    place(arena, Expr::Unary(UnaryExpr { op, rhs: operand }))
}

/// The operator `op` applied to `left` and `right`.
pub fn binary<'a>(
    arena: &'a Arena<Expr<'a>>,
    op: BinOp,
    left: &'a Expr<'a>,
    right: &'a Expr<'a>,
) -> (r: &'a Expr<'a>)
    ensures
        *r == Expr::Binary(BinaryExpr { op, lhs: left, rhs: right }),
{
    place(arena, Expr::Binary(BinaryExpr { op, lhs: left, rhs: right }))
}

/// Parentheses around `inner`.
pub fn group<'a>(arena: &'a Arena<Expr<'a>>, inner: &'a Expr<'a>) -> (r: &'a Expr<'a>)
    ensures
        *r == Expr::Group(GroupExpr { expr: inner }),
{
    place(arena, Expr::Group(GroupExpr { expr: inner }))
}

} // verus!
