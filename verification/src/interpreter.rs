//! The evaluator: reduces a tree to one number.

use crate::ast::{BinOp, BinaryExpr, Expr, GroupExpr, LiteralExpr, UnOp, UnaryExpr};
use crate::visitor::{Outcome, VisitResult, Visitor};
use vstd::prelude::*;

verus! {

/// The sign bit of an IEEE-754 double.
pub const SIGN_BIT: u64 = 0x8000_0000_0000_0000;

/// The bit pattern of `-x`, where `bits` is that of `x`: the same pattern
/// with the sign bit reversed.
pub open spec fn negated(bits: u64) -> u64 {
    if bits < SIGN_BIT {
        (bits + SIGN_BIT) as u64
    } else {
        (bits - SIGN_BIT) as u64
    }
}

/// The bit pattern of the operand with the sign `op` applied.
pub open spec fn signed(op: UnOp, bits: u64) -> u64 {
    match op {
        UnOp::Add => bits,
        UnOp::Sub => negated(bits),
    }
}

/// What `arith` may compute: the relation between an operator, the bits of
/// its two operands, and the bits that `arith` returns for them.
pub open spec fn computed<A: Fn(BinOp, u64, u64) -> u64>(arith: A) -> spec_fn(
    BinOp,
    u64,
    u64,
    u64,
) -> bool {
    |op: BinOp, a: u64, b: u64, c: u64| arith.ensures((op, a, b), c)
}

/// Whether `bits` is a value of `expr`, where `apply` relates an operator and
/// two operands to what the operation may give: a literal is its own bits, a
/// group is what it encloses, a sign is applied to the value of its operand,
/// and a binary node is what `apply` admits for the operator and the values
/// of the left and the right side.
pub open spec fn evaluates(
    apply: spec_fn(BinOp, u64, u64, u64) -> bool,
    expr: Expr,
    bits: u64,
) -> bool
    decreases expr,
{
    match expr {
        Expr::Binary(e) => exists|a: u64, b: u64|
            evaluates(apply, *e.lhs, a) && evaluates(apply, *e.rhs, b) && #[trigger] apply(
                e.op,
                a,
                b,
                bits,
            ),
        Expr::Group(e) => evaluates(apply, *e.expr, bits),
        Expr::Literal(e) => bits == e.bits,
        Expr::Unary(e) => exists|v: u64|
            evaluates(apply, *e.rhs, v) && bits == #[trigger] signed(e.op, v),
    }
}

/// Reverses the sign of a number.
pub fn negate(bits: u64) -> (r: u64)
    ensures
        r == negated(bits),
{
    assert(bits < 0x8000_0000_0000_0000u64 ==> bits ^ 0x8000_0000_0000_0000u64 == bits
        + 0x8000_0000_0000_0000u64) by (bit_vector);
    assert(bits >= 0x8000_0000_0000_0000u64 ==> bits ^ 0x8000_0000_0000_0000u64 == bits
        - 0x8000_0000_0000_0000u64) by (bit_vector);
    bits ^ SIGN_BIT
}

/// The evaluator. It holds the function that computes a binary operation on
/// two numbers, each given and returned by its bit pattern; that function can
/// be called on every operator and pair of bit patterns.
pub struct Interpreter<A: Fn(BinOp, u64, u64) -> u64> {
    arith: A,
}

impl<A: Fn(BinOp, u64, u64) -> u64> Interpreter<A> {
    #[verifier::type_invariant]
    spec fn callable(&self) -> bool {
        forall|op: BinOp, a: u64, b: u64| self.arith.requires((op, a, b))
    }

    /// The function that computes the binary operations.
    pub closed spec fn arith(&self) -> A {
        self.arith
    }

    /// An evaluator that computes binary operations with `arith`, which
    /// must accept every operator and pair of bit patterns.
    pub fn new(arith: A) -> (r: Self)
        requires
            forall|op: BinOp, a: u64, b: u64| arith.requires((op, a, b)),
        ensures
            r.arith() == arith,
    {
        Interpreter { arith }
    }

    /// Evaluates the tree, and leaves the evaluator as it was. The result is
    /// always a number.
    pub fn eval(&mut self, ast: &Expr) -> (r: VisitResult)
        ensures
            r@ is Numeric,
            evaluates(computed(old(self).arith()), *ast, r@->Numeric_0),
            *final(self) == *old(self),
    {
        let out = ast.accept(&*self);
        proof {
            lemma_visit_evaluates(&*self, *ast, out@);
        }
        out
    }

    /// Evaluates the tree as `eval` does, without recursion: the depth of
    /// the tree is bounded by the memory at hand only.
    pub fn eval_iterative<'a>(&mut self, ast: &'a Expr<'a>) -> (r: VisitResult)
        ensures
            r@ is Numeric,
            evaluates(computed(old(self).arith()), *ast, r@->Numeric_0),
            *final(self) == *old(self),
    {
        let out = ast.accept_iterative(&*self);
        proof {
            lemma_visit_evaluates(&*self, *ast, out@);
        }
        out
    }
}

impl<A: Fn(BinOp, u64, u64) -> u64> Visitor for Interpreter<A> {
    open spec fn literal_outcome(&self, expr: LiteralExpr, out: Outcome) -> bool {
        out == Outcome::Numeric(expr.bits)
    }

    open spec fn unary_outcome(&self, expr: UnaryExpr, operand: Outcome, out: Outcome) -> bool {
        out == match operand {
            Outcome::Numeric(v) => Outcome::Numeric(signed(expr.op, v)),
            _ => Outcome::Empty,
        }
    }

    closed spec fn binary_outcome(
        &self,
        expr: BinaryExpr,
        left: Outcome,
        right: Outcome,
        out: Outcome,
    ) -> bool {
        match (left, right) {
            (Outcome::Numeric(a), Outcome::Numeric(b)) => exists|c: u64| #[trigger]
                self.arith.ensures((expr.op, a, b), c) && out == Outcome::Numeric(c),
            _ => out == Outcome::Empty,
        }
    }

    open spec fn group_outcome(&self, expr: GroupExpr, inner: Outcome, out: Outcome) -> bool {
        out == inner
    }

    fn visit_literal(&self, expr: &LiteralExpr) -> (r: VisitResult) {
        VisitResult::Numeric(expr.bits)
    }

    fn visit_unary(&self, expr: &UnaryExpr, operand: VisitResult) -> (r: VisitResult) {
        match operand {
            VisitResult::Numeric(v) => match expr.op {
                UnOp::Add => VisitResult::Numeric(v),
                UnOp::Sub => VisitResult::Numeric(negate(v)),
            },
            _ => VisitResult::Empty,
        }
    }

    fn visit_binary(&self, expr: &BinaryExpr, left: VisitResult, right: VisitResult) -> (r:
        VisitResult) {
        proof {
            use_type_invariant(self);
        }
        match (left, right) {
            (VisitResult::Numeric(a), VisitResult::Numeric(b)) => VisitResult::Numeric(
                (self.arith)(expr.op, a, b),
            ),
            _ => VisitResult::Empty,
        }
    }

    fn visit_group(&self, expr: &GroupExpr, inner: VisitResult) -> (r: VisitResult) {
        inner
    }
}

/// What the evaluator makes of a tree through `accept` is a number, never
/// `Empty`, and that number is a value of the tree.
pub proof fn lemma_visit_evaluates<A: Fn(BinOp, u64, u64) -> u64>(
    interpreter: &Interpreter<A>,
    expr: Expr,
    out: Outcome,
)
    requires
        expr.visited_by(interpreter, out),
    ensures
        out is Numeric,
        evaluates(computed(interpreter.arith()), expr, out->Numeric_0),
    decreases expr,
{
    match expr {
        Expr::Binary(e) => {
            let (l, r): (Outcome, Outcome) = choose|l: Outcome, r: Outcome|
                e.lhs.visited_by(interpreter, l) && e.rhs.visited_by(interpreter, r)
                    && #[trigger] interpreter.binary_outcome(e, l, r, out);
            lemma_visit_evaluates(interpreter, *e.lhs, l);
            lemma_visit_evaluates(interpreter, *e.rhs, r);
            assert(computed(interpreter.arith())(e.op, l->Numeric_0, r->Numeric_0, out->Numeric_0));
        },
        Expr::Group(e) => {
            let inner: Outcome = choose|inner: Outcome|
                e.expr.visited_by(interpreter, inner) && #[trigger] interpreter.group_outcome(
                    e,
                    inner,
                    out,
                );
            lemma_visit_evaluates(interpreter, *e.expr, inner);
        },
        Expr::Literal(e) => {},
        Expr::Unary(e) => {
            let operand: Outcome = choose|operand: Outcome|
                e.rhs.visited_by(interpreter, operand) && #[trigger] interpreter.unary_outcome(
                    e,
                    operand,
                    out,
                );
            lemma_visit_evaluates(interpreter, *e.rhs, operand);
            assert(out->Numeric_0 == signed(e.op, operand->Numeric_0));
        },
    }
}

/// Whether `apply` admits a result for the operator and the two operands.
pub open spec fn defined(apply: spec_fn(BinOp, u64, u64, u64) -> bool, op: BinOp, a: u64, b: u64) -> bool {
    exists|c: u64| #[trigger] apply(op, a, b, c)
}

/// Every tree has a value: where the arithmetic admits a result for every
/// operator and pair of operands, evaluation never fails.
pub proof fn lemma_evaluates_exists(apply: spec_fn(BinOp, u64, u64, u64) -> bool, expr: Expr)
    requires
        forall|op: BinOp, a: u64, b: u64| #[trigger] defined(apply, op, a, b),
    ensures
        exists|bits: u64| evaluates(apply, expr, bits),
    decreases expr,
{
    match expr {
        Expr::Binary(e) => {
            lemma_evaluates_exists(apply, *e.lhs);
            lemma_evaluates_exists(apply, *e.rhs);
            let a: u64 = choose|a: u64| evaluates(apply, *e.lhs, a);
            let b: u64 = choose|b: u64| evaluates(apply, *e.rhs, b);
            assert(defined(apply, e.op, a, b));
            let c: u64 = choose|c: u64| #[trigger] apply(e.op, a, b, c);
            assert(evaluates(apply, expr, c));
        },
        Expr::Group(e) => {
            lemma_evaluates_exists(apply, *e.expr);
            let v: u64 = choose|v: u64| evaluates(apply, *e.expr, v);
            assert(evaluates(apply, expr, v));
        },
        Expr::Literal(e) => {
            assert(evaluates(apply, expr, e.bits));
        },
        Expr::Unary(e) => {
            lemma_evaluates_exists(apply, *e.rhs);
            let v: u64 = choose|v: u64| evaluates(apply, *e.rhs, v);
            assert(evaluates(apply, expr, signed(e.op, v)));
        },
    }
}

/// Whether `apply` admits one result only for each operator and pair of
/// operands.
pub open spec fn single_valued(apply: spec_fn(BinOp, u64, u64, u64) -> bool) -> bool {
    forall|op: BinOp, a: u64, b: u64, x: u64, y: u64|
        #![trigger apply(op, a, b, x), apply(op, a, b, y)]
        apply(op, a, b, x) && apply(op, a, b, y) ==> x == y
}

/// Evaluation is deterministic: where the arithmetic admits one result only,
/// a tree has at most one value.
pub proof fn lemma_evaluates_unique(
    apply: spec_fn(BinOp, u64, u64, u64) -> bool,
    expr: Expr,
    x: u64,
    y: u64,
)
    requires
        single_valued(apply),
        evaluates(apply, expr, x),
        evaluates(apply, expr, y),
    ensures
        x == y,
    decreases expr,
{
    match expr {
        Expr::Binary(e) => {
            let (a1, b1): (u64, u64) = choose|a: u64, b: u64|
                evaluates(apply, *e.lhs, a) && evaluates(apply, *e.rhs, b) && #[trigger] apply(
                    e.op,
                    a,
                    b,
                    x,
                );
            let (a2, b2): (u64, u64) = choose|a: u64, b: u64|
                evaluates(apply, *e.lhs, a) && evaluates(apply, *e.rhs, b) && #[trigger] apply(
                    e.op,
                    a,
                    b,
                    y,
                );
            lemma_evaluates_unique(apply, *e.lhs, a1, a2);
            lemma_evaluates_unique(apply, *e.rhs, b1, b2);
        },
        Expr::Group(e) => {
            lemma_evaluates_unique(apply, *e.expr, x, y);
        },
        Expr::Literal(e) => {},
        Expr::Unary(e) => {
            let v1: u64 = choose|v: u64|
                evaluates(apply, *e.rhs, v) && x == #[trigger] signed(e.op, v);
            let v2: u64 = choose|v: u64|
                evaluates(apply, *e.rhs, v) && y == #[trigger] signed(e.op, v);
            lemma_evaluates_unique(apply, *e.rhs, v1, v2);
        },
    }
}

/// A group is transparent to evaluation: it has exactly the values of the
/// expression it encloses.
pub proof fn lemma_group_transparent(
    apply: spec_fn(BinOp, u64, u64, u64) -> bool,
    inner: &Expr,
    bits: u64,
)
    ensures
        evaluates(apply, Expr::Group(GroupExpr { expr: inner }), bits) <==> evaluates(
            apply,
            *inner,
            bits,
        ),
{
}

/// `n` minus signs, one inside the other, around the literal `bits`.
pub open spec fn minus_chain(n: nat, bits: u64) -> Expr<'static>
    decreases n,
{
    if n == 0 {
        Expr::Literal(LiteralExpr { bits })
    } else {
        Expr::Unary(UnaryExpr { op: UnOp::Sub, rhs: &minus_chain((n - 1) as nat, bits) })
    }
}

/// Reversing the sign twice gives the number back.
pub proof fn lemma_negated_twice(bits: u64)
    ensures
        negated(negated(bits)) == bits,
{
}

/// A chain of `n` minus signs around a literal has one value, whatever the
/// arithmetic: the literal where `n` is even, and the literal with its sign
/// reversed where `n` is odd.
pub proof fn lemma_minus_chain_parity(
    apply: spec_fn(BinOp, u64, u64, u64) -> bool,
    n: nat,
    bits: u64,
    value: u64,
)
    ensures
        evaluates(apply, minus_chain(n, bits), value) <==> value == (if n % 2 == 0 {
            bits
        } else {
            negated(bits)
        }),
    decreases n,
{
    if n > 0 {
        let rest = minus_chain((n - 1) as nat, bits);
        let below = if (n - 1) % 2 == 0 {
            bits
        } else {
            negated(bits)
        };
        lemma_negated_twice(bits);
        assert forall|v: u64| evaluates(apply, rest, v) <==> v == below by {
            lemma_minus_chain_parity(apply, (n - 1) as nat, bits, v);
        }
        if evaluates(apply, minus_chain(n, bits), value) {
            let v: u64 = choose|v: u64|
                evaluates(apply, rest, v) && value == #[trigger] signed(UnOp::Sub, v);
            assert(v == below);
        }
        if value == negated(below) {
            assert(evaluates(apply, rest, below));
            assert(value == signed(UnOp::Sub, below));
        }
    }
}

} // verus!
