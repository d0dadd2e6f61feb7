use expr_tree::ast::{BinOp, Expr, UnOp};
use expr_tree::builder::{binary, group, literal, unary};
use expr_tree::interpreter::{negate, Interpreter, SIGN_BIT};
use expr_tree::visitor::VisitResult;
use typed_arena::Arena;

fn float_arith(op: BinOp, a: u64, b: u64) -> u64 {
    let x = f64::from_bits(a);
    let y = f64::from_bits(b);
    let r = match op {
        BinOp::Add => x + y,
        BinOp::Sub => x - y,
        BinOp::Mul => x * y,
        BinOp::Div => x / y,
    };
    r.to_bits()
}

fn number(r: VisitResult) -> f64 {
    match r {
        VisitResult::Numeric(bits) => f64::from_bits(bits),
        other => panic!("not a number: {:?}", other),
    }
}

#[test]
fn literal_evaluates_to_itself() {
    let arena = Arena::new();
    let mut interpreter = Interpreter::new(float_arith);
    for v in [0.0f64, -0.0, 1.0, 3.14, -2.81, f64::MAX, f64::MIN_POSITIVE, f64::INFINITY] {
        let tree = literal(&arena, v.to_bits());
        assert_eq!(interpreter.eval(tree), VisitResult::Numeric(v.to_bits()));
    }
}

#[test]
fn canonical_example_evaluates() {
    let arena = Arena::new();
    let tree = binary(
        &arena,
        BinOp::Mul,
        unary(&arena, UnOp::Sub, literal(&arena, 3.14f64.to_bits())),
        group(&arena, literal(&arena, 2.81f64.to_bits())),
    );
    let mut interpreter = Interpreter::new(float_arith);
    let v = number(interpreter.eval(tree));
    assert_eq!(v, -3.14 * 2.81);
    assert!((v - (-8.8234)).abs() < 1e-12);
}

#[test]
fn each_binary_operator_is_applied_left_to_right() {
    let arena = Arena::new();
    let mut interpreter = Interpreter::new(float_arith);
    let seven = literal(&arena, 7.0f64.to_bits());
    let two = literal(&arena, 2.0f64.to_bits());
    assert_eq!(number(interpreter.eval(binary(&arena, BinOp::Add, seven, two))), 9.0);
    assert_eq!(number(interpreter.eval(binary(&arena, BinOp::Sub, seven, two))), 5.0);
    assert_eq!(number(interpreter.eval(binary(&arena, BinOp::Mul, seven, two))), 14.0);
    assert_eq!(number(interpreter.eval(binary(&arena, BinOp::Div, seven, two))), 3.5);
    assert_eq!(number(interpreter.eval(binary(&arena, BinOp::Sub, two, seven))), -5.0);
    assert_eq!(number(interpreter.eval(binary(&arena, BinOp::Div, two, seven))), 2.0 / 7.0);
}

#[test]
fn division_by_zero_is_infinite() {
    let arena = Arena::new();
    let mut interpreter = Interpreter::new(float_arith);
    let tree = binary(
        &arena,
        BinOp::Div,
        literal(&arena, 1.0f64.to_bits()),
        literal(&arena, 0.0f64.to_bits()),
    );
    assert_eq!(interpreter.eval(tree), VisitResult::Numeric(f64::INFINITY.to_bits()));
    let negative = binary(
        &arena,
        BinOp::Div,
        unary(&arena, UnOp::Sub, literal(&arena, 1.0f64.to_bits())),
        literal(&arena, 0.0f64.to_bits()),
    );
    assert_eq!(number(interpreter.eval(negative)), f64::NEG_INFINITY);
    let undefined = binary(
        &arena,
        BinOp::Div,
        literal(&arena, 0.0f64.to_bits()),
        literal(&arena, 0.0f64.to_bits()),
    );
    assert!(number(interpreter.eval(undefined)).is_nan());
}

fn minus_chain<'a>(arena: &'a Arena<Expr<'a>>, n: usize, v: f64) -> &'a Expr<'a> {
    let mut tree = literal(arena, v.to_bits());
    for _ in 0..n {
        tree = unary(arena, UnOp::Sub, tree);
    }
    tree
}

#[test]
fn minus_chain_follows_parity() {
    let arena = Arena::new();
    let mut interpreter = Interpreter::new(float_arith);
    for n in 0..20usize {
        let expected = if n % 2 == 0 { 5.0f64 } else { -5.0f64 };
        let tree = minus_chain(&arena, n, 5.0);
        assert_eq!(interpreter.eval(tree), VisitResult::Numeric(expected.to_bits()));
    }
}

#[test]
fn minus_chain_of_a_thousand() {
    let arena = Arena::new();
    let mut interpreter = Interpreter::new(float_arith);
    assert_eq!(number(interpreter.eval(minus_chain(&arena, 1000, 5.0))), 5.0);
    assert_eq!(number(interpreter.eval(minus_chain(&arena, 1001, 5.0))), -5.0);
    assert_eq!(number(interpreter.eval(minus_chain(&arena, 2000, 5.0))), 5.0);
}

#[test]
fn plus_keeps_the_operand() {
    let arena = Arena::new();
    let mut interpreter = Interpreter::new(float_arith);
    for v in [0.0f64, -0.0, 2.5, -2.5, f64::NEG_INFINITY] {
        let tree = unary(&arena, UnOp::Add, literal(&arena, v.to_bits()));
        assert_eq!(interpreter.eval(tree), VisitResult::Numeric(v.to_bits()));
    }
}

#[test]
fn negate_reverses_the_sign_bit() {
    assert_eq!(SIGN_BIT, 1u64 << 63);
    for v in [0.0f64, -0.0, 1.0, -1.0, 3.14, f64::MAX, f64::MIN_POSITIVE, f64::INFINITY, f64::NEG_INFINITY] {
        assert_eq!(negate(v.to_bits()), (-v).to_bits());
        assert_eq!(negate(negate(v.to_bits())), v.to_bits());
    }
    assert_eq!(negate(0), 0x8000_0000_0000_0000);
    assert_eq!(negate(0x8000_0000_0000_0000), 0);
    assert_eq!(negate(f64::NAN.to_bits()), (-f64::NAN).to_bits());
    assert_eq!(negate(u64::MAX), u64::MAX >> 1);
}

#[test]
fn group_is_transparent_to_evaluation() {
    let arena = Arena::new();
    let mut interpreter = Interpreter::new(float_arith);
    let inner = binary(
        &arena,
        BinOp::Sub,
        literal(&arena, 1.5f64.to_bits()),
        unary(&arena, UnOp::Sub, literal(&arena, 0.25f64.to_bits())),
    );
    let wrapped = group(&arena, group(&arena, inner));
    let plain = interpreter.eval(inner);
    assert_eq!(number(interpreter.eval(inner)), 1.75);
    assert_eq!(interpreter.eval(wrapped), plain);
}

#[test]
fn evaluation_is_repeatable() {
    let arena = Arena::new();
    let mut interpreter = Interpreter::new(float_arith);
    let tree = binary(
        &arena,
        BinOp::Add,
        binary(&arena, BinOp::Mul, literal(&arena, 0.1f64.to_bits()), literal(&arena, 3.0f64.to_bits())),
        group(&arena, binary(&arena, BinOp::Div, literal(&arena, 1.0f64.to_bits()), literal(&arena, 3.0f64.to_bits()))),
    );
    let first = interpreter.eval(tree);
    let second = interpreter.eval(tree);
    assert_eq!(first, second);
    assert_eq!(number(first), 0.1 * 3.0 + (1.0 / 3.0));
}

#[test]
fn operands_reach_the_arithmetic_in_order() {
    let arena = Arena::new();
    let tree = binary(&arena, BinOp::Sub, literal(&arena, 10), literal(&arena, 3));
    let mut interpreter = Interpreter::new(|op: BinOp, a: u64, b: u64| match op {
        BinOp::Sub => a * 100 + b,
        _ => 0,
    });
    assert_eq!(interpreter.eval(tree), VisitResult::Numeric(1003));
}
