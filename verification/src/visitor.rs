//! The dispatch protocol: one operation per node kind, and `accept`, which
//! walks a tree bottom-up and hands each node to the operation of its kind.

use crate::ast::{BinaryExpr, Expr, GroupExpr, LiteralExpr, UnaryExpr};
use vstd::prelude::*;

verus! {

/// What a visitor hands back for a node.
#[derive(Debug, PartialEq)]
pub enum VisitResult {
    /// A number, by its bit pattern.
    Numeric(u64),
    /// A piece of text.
    Text(String),
    /// The visitor has no value for this node.
    Empty,
}

/// The mathematical value of a [`VisitResult`].
pub enum Outcome {
    Numeric(u64),
    Text(Seq<char>),
    Empty,
}

impl View for VisitResult {
    type V = Outcome;

    open spec fn view(&self) -> Outcome {
        match *self {
            VisitResult::Numeric(bits) => Outcome::Numeric(bits),
            VisitResult::Text(s) => Outcome::Text(s@),
            VisitResult::Empty => Outcome::Empty,
        }
    }
}

/// A consumer of trees. A node with children is visited after its children,
/// and is handed what the visitor made of them.
///
/// Each operation has a relation that says which results it may return; a
/// visitor whose operations are functions of their arguments has relations
/// that admit exactly one result. A visitor that leaves a relation as it is
/// here promises nothing of that operation.
pub trait Visitor {
    /// Whether `out` may be returned for the literal `expr`.
    open spec fn literal_outcome(&self, expr: LiteralExpr, out: Outcome) -> bool {
        true
    }

    /// Whether `out` may be returned for `expr`, given what the visitor made
    /// of its operand.
    open spec fn unary_outcome(&self, expr: UnaryExpr, operand: Outcome, out: Outcome) -> bool {
        true
    }

    /// Whether `out` may be returned for `expr`, given what the visitor made
    /// of its two sides.
    open spec fn binary_outcome(
        &self,
        expr: BinaryExpr,
        left: Outcome,
        right: Outcome,
        out: Outcome,
    ) -> bool {
        true
    }

    /// Whether `out` may be returned for `expr`, given what the visitor made
    /// of the expression it encloses.
    open spec fn group_outcome(&self, expr: GroupExpr, inner: Outcome, out: Outcome) -> bool {
        true
    }

    fn visit_literal(&self, expr: &LiteralExpr) -> (r: VisitResult)
        ensures
            self.literal_outcome(*expr, r@),
    ;

    fn visit_unary(&self, expr: &UnaryExpr, operand: VisitResult) -> (r: VisitResult)
        ensures
            self.unary_outcome(*expr, operand@, r@),
    ;

    fn visit_binary(&self, expr: &BinaryExpr, left: VisitResult, right: VisitResult) -> (r:
        VisitResult)
        ensures
            self.binary_outcome(*expr, left@, right@, r@),
    ;

    fn visit_group(&self, expr: &GroupExpr, inner: VisitResult) -> (r: VisitResult)
        ensures
            self.group_outcome(*expr, inner@, r@),
    ;
}

impl<'a> Expr<'a> {
    /// Whether `out` is a result of walking this tree with `visitor`: each
    /// node is given to the operation of its kind, together with a result of
    /// each of its children, the left child before the right one.
    pub open spec fn visited_by<V: Visitor>(self, visitor: &V, out: Outcome) -> bool
        decreases self,
    {
        match self {
            Expr::Binary(e) => exists|left: Outcome, right: Outcome|
                e.lhs.visited_by(visitor, left) && e.rhs.visited_by(visitor, right)
                    && #[trigger] visitor.binary_outcome(e, left, right, out),
            Expr::Group(e) => exists|inner: Outcome|
                e.expr.visited_by(visitor, inner) && #[trigger] visitor.group_outcome(
                    e,
                    inner,
                    out,
                ),
            Expr::Literal(e) => visitor.literal_outcome(e, out),
            Expr::Unary(e) => exists|operand: Outcome|
                e.rhs.visited_by(visitor, operand) && #[trigger] visitor.unary_outcome(
                    e,
                    operand,
                    out,
                ),
        }
    }

    /// Walks the tree with `visitor` and returns what the visitor makes of
    /// the root.
    pub fn accept<V: Visitor>(&self, visitor: &V) -> (r: VisitResult)
        ensures
            self.visited_by(visitor, r@),
        decreases *self,
    {
        match self {
            Expr::Binary(e) => {
                let left = e.lhs.accept(visitor);
                let right = e.rhs.accept(visitor);
                visitor.visit_binary(e, left, right)
            },
            Expr::Group(e) => {
                let inner = e.expr.accept(visitor);
                visitor.visit_group(e, inner)
            },
            Expr::Literal(e) => visitor.visit_literal(e),
            Expr::Unary(e) => {
                let operand = e.rhs.accept(visitor);
                visitor.visit_unary(e, operand)
            },
        }
    }
}

} // verus!
