//! The node model: the closed set of expression shapes and their operators.

use vstd::prelude::*;

verus! {

/// The operators of a two-operand arithmetic application.
#[derive(Clone, Copy, Debug, PartialEq, Eq, Structural)]
pub enum BinOp {
    Add,
    Sub,
    Mul,
    Div,
}

/// The prefix sign operators.
#[derive(Clone, Copy, Debug, PartialEq, Eq, Structural)]
pub enum UnOp {
    Add,
    Sub,
}

impl BinOp {
    /// The token that stands for the operator in printed output.
    pub open spec fn token(self) -> Seq<char> {
        match self {
            BinOp::Add => "Add"@,
            BinOp::Sub => "Sub"@,
            BinOp::Mul => "Mul"@,
            BinOp::Div => "Div"@,
        }
    }

    /// The operator's token.
    pub fn name(&self) -> (s: &'static str)
        ensures
            s@ == self.token(),
    {
        match self {
            BinOp::Add => "Add",
            BinOp::Sub => "Sub",
            BinOp::Mul => "Mul",
            BinOp::Div => "Div",
        }
    }
}

impl UnOp {
    /// The token that stands for the operator in printed output.
    pub open spec fn token(self) -> Seq<char> {
        match self {
            UnOp::Add => "Add"@,
            UnOp::Sub => "Sub"@,
        }
    }

    /// The operator's token.
    pub fn name(&self) -> (s: &'static str)
        ensures
            s@ == self.token(),
    {
        match self {
            UnOp::Add => "Add",
            UnOp::Sub => "Sub",
        }
    }
}

/// A numeric constant: the bit pattern of an IEEE-754 double.
#[derive(Clone, Copy, Debug)]
pub struct LiteralExpr {
    pub bits: u64,
}

/// A prefix sign applied to one operand.
#[derive(Clone, Copy, Debug)]
pub struct UnaryExpr<'a> {
    pub op: UnOp,
    pub rhs: &'a Expr<'a>,
}

/// An arithmetic operator applied to two operands.
#[derive(Clone, Copy, Debug)]
pub struct BinaryExpr<'a> {
    pub op: BinOp,
    pub lhs: &'a Expr<'a>,
    pub rhs: &'a Expr<'a>,
}

/// An explicit pair of parentheses around one expression.
#[derive(Clone, Copy, Debug)]
pub struct GroupExpr<'a> {
    pub expr: &'a Expr<'a>,
}

/// An expression tree. A node borrows its children, which live in the same
/// arena as the node itself.
#[derive(Clone, Copy, Debug)]
pub enum Expr<'a> {
    Binary(BinaryExpr<'a>),
    Group(GroupExpr<'a>),
    Literal(LiteralExpr),
    Unary(UnaryExpr<'a>),
}

impl<'a> Expr<'a> {
    /// The number of nodes in the tree.
    pub open spec fn size(self) -> nat
        decreases self,
    {
        match self {
            Expr::Binary(e) => 1 + e.lhs.size() + e.rhs.size(),
            Expr::Group(e) => 1 + e.expr.size(),
            Expr::Literal(_) => 1,
            Expr::Unary(e) => 1 + e.rhs.size(),
        }
    }
}

} // verus!
