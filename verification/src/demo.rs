//! A worked example: one small tree, printed and evaluated.

use crate::ast::{BinOp, BinaryExpr, Expr, GroupExpr, LiteralExpr, UnOp, UnaryExpr};
use crate::builder::{binary, group, literal, unary};
use crate::interpreter::{computed, evaluates, negated, signed, Interpreter};
use crate::printer::{renders, wrapped, wrapped_pair, written, Repr};
use crate::visitor::VisitResult;
use typed_arena::Arena;
use vstd::prelude::*;

verus! {

/// The bit pattern of the double nearest to 3.14.
pub const LEFT_BITS: u64 = 0x4009_1eb8_51eb_851f;

/// The bit pattern of the double nearest to 2.81.
pub const RIGHT_BITS: u64 = 0x4006_7ae1_47ae_147b;

/// The example tree: the product of minus the first number and the second
/// number in parentheses.
pub open spec fn example() -> Expr<'static> {
    Expr::Binary(
        BinaryExpr {
            op: BinOp::Mul,
            lhs: &Expr::Unary(
                UnaryExpr { op: UnOp::Sub, rhs: &Expr::Literal(LiteralExpr { bits: LEFT_BITS }) },
            ),
            rhs: &Expr::Group(
                GroupExpr { expr: &Expr::Literal(LiteralExpr { bits: RIGHT_BITS }) },
            ),
        },
    )
}

/// Builds the example tree, and returns its rendering and its value.
pub fn play<F: Fn(u64) -> String, A: Fn(BinOp, u64, u64) -> u64>(format: F, arith: A) -> (r: (
    String,
    VisitResult,
))
    requires
        forall|bits: u64| format.requires((bits,)),
        forall|op: BinOp, a: u64, b: u64| arith.requires((op, a, b)),
    ensures
        renders(written(format), example(), r.0@),
        r.1@ is Numeric,
        evaluates(computed(arith), example(), r.1@->Numeric_0),
{
    let arena: Arena<Expr> = Arena::new();
    let first = literal(&arena, LEFT_BITS);
    let minus = unary(&arena, UnOp::Sub, first);
    let second = literal(&arena, RIGHT_BITS);
    let parens = group(&arena, second);
    let tree = binary(&arena, BinOp::Mul, minus, parens);
    assert(*tree == example());
    let mut printer = Repr::new(format);
    let text = printer.repr(tree);
    let mut interpreter = Interpreter::new(arith);
    let value = interpreter.eval(tree);
    (text, value)
}

/// The example is rendered as `(Mul (Sub a) (group b))`, where `a` and `b`
/// are what is written for the first and for the second number.
pub proof fn lemma_example_rendering(write: spec_fn(u64, Seq<char>) -> bool, text: Seq<char>)
    ensures
        renders(write, example(), text) <==> exists|a: Seq<char>, b: Seq<char>|
            #![trigger write(LEFT_BITS, a), write(RIGHT_BITS, b)]
            write(LEFT_BITS, a) && write(RIGHT_BITS, b) && text == "(Mul (Sub "@ + a
                + ") (group "@ + b + "))"@,
{
    reveal_strlit("(");
    reveal_strlit(")");
    reveal_strlit(" ");
    reveal_strlit("Mul");
    reveal_strlit("Sub");
    reveal_strlit("group");
    reveal_strlit("(Mul (Sub ");
    reveal_strlit(") (group ");
    reveal_strlit("))");
    let first = Expr::Literal(LiteralExpr { bits: LEFT_BITS });
    let second = Expr::Literal(LiteralExpr { bits: RIGHT_BITS });
    let minus = Expr::Unary(UnaryExpr { op: UnOp::Sub, rhs: &first });
    let parens = Expr::Group(GroupExpr { expr: &second });
    assert forall|a: Seq<char>, b: Seq<char>|
        wrapped_pair("Mul"@, wrapped("Sub"@, a), wrapped("group"@, b)) == "(Mul (Sub "@ + a
            + ") (group "@ + b + "))"@ by {
        assert(wrapped_pair("Mul"@, wrapped("Sub"@, a), wrapped("group"@, b)) =~= "(Mul (Sub "@
            + a + ") (group "@ + b + "))"@);
    }
    if renders(write, example(), text) {
        let (l, r): (Seq<char>, Seq<char>) = choose|l: Seq<char>, r: Seq<char>|
            renders(write, minus, l) && renders(write, parens, r) && text
                == #[trigger] wrapped_pair("Mul"@, l, r);
        let a: Seq<char> = choose|a: Seq<char>|
            renders(write, first, a) && l == #[trigger] wrapped("Sub"@, a);
        let b: Seq<char> = choose|b: Seq<char>|
            renders(write, second, b) && r == #[trigger] wrapped("group"@, b);
        assert(write(LEFT_BITS, a) && write(RIGHT_BITS, b));
    }
    if exists|a: Seq<char>, b: Seq<char>|
        #![trigger write(LEFT_BITS, a), write(RIGHT_BITS, b)]
        write(LEFT_BITS, a) && write(RIGHT_BITS, b) && text == "(Mul (Sub "@ + a + ") (group "@
            + b + "))"@ {
        let (a, b): (Seq<char>, Seq<char>) = choose|a: Seq<char>, b: Seq<char>|
            #![trigger write(LEFT_BITS, a), write(RIGHT_BITS, b)]
            write(LEFT_BITS, a) && write(RIGHT_BITS, b) && text == "(Mul (Sub "@ + a
                + ") (group "@ + b + "))"@;
        assert(renders(write, first, a));
        assert(renders(write, second, b));
        assert(renders(write, minus, wrapped("Sub"@, a)));
        assert(renders(write, parens, wrapped("group"@, b)));
        assert(renders(
            write,
            example(),
            wrapped_pair("Mul"@, wrapped("Sub"@, a), wrapped("group"@, b)),
        ));
    }
}

/// The values of the example are the products of the first number with its
/// sign reversed and the second number.
pub proof fn lemma_example_value(apply: spec_fn(BinOp, u64, u64, u64) -> bool, bits: u64)
    ensures
        evaluates(apply, example(), bits) <==> apply(
            BinOp::Mul,
            negated(LEFT_BITS),
            RIGHT_BITS,
            bits,
        ),
        negated(LEFT_BITS) == 0xc009_1eb8_51eb_851fu64,
{
    let first = Expr::Literal(LiteralExpr { bits: LEFT_BITS });
    let second = Expr::Literal(LiteralExpr { bits: RIGHT_BITS });
    let minus = Expr::Unary(UnaryExpr { op: UnOp::Sub, rhs: &first });
    let parens = Expr::Group(GroupExpr { expr: &second });
    assert forall|v: u64| evaluates(apply, minus, v) <==> v == negated(LEFT_BITS) by {
        if evaluates(apply, minus, v) {
            let w: u64 = choose|w: u64|
                evaluates(apply, first, w) && v == #[trigger] signed(UnOp::Sub, w);
        }
        if v == negated(LEFT_BITS) {
            assert(evaluates(apply, first, LEFT_BITS));
            assert(v == signed(UnOp::Sub, LEFT_BITS));
        }
    }
    assert forall|v: u64| evaluates(apply, parens, v) <==> v == RIGHT_BITS by {
        assert(evaluates(apply, second, v) <==> v == RIGHT_BITS);
    }
    if evaluates(apply, example(), bits) {
        let (a, b): (u64, u64) = choose|a: u64, b: u64|
            evaluates(apply, minus, a) && evaluates(apply, parens, b) && #[trigger] apply(
                BinOp::Mul,
                a,
                b,
                bits,
            );
    }
    if apply(BinOp::Mul, negated(LEFT_BITS), RIGHT_BITS, bits) {
        assert(evaluates(apply, minus, negated(LEFT_BITS)));
        assert(evaluates(apply, parens, RIGHT_BITS));
    }
}

} // verus!
