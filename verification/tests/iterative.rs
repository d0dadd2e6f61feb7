use expr_tree::ast::{BinOp, BinaryExpr, Expr, GroupExpr, LiteralExpr, UnOp, UnaryExpr};
use expr_tree::builder::{binary, group, literal, unary};
use expr_tree::interpreter::Interpreter;
use expr_tree::printer::Repr;
use expr_tree::visitor::{VisitResult, Visitor};
use std::cell::RefCell;
use typed_arena::Arena;

fn float_text(bits: u64) -> String {
    format!("{:?}", f64::from_bits(bits))
}

fn float_arith(op: BinOp, a: u64, b: u64) -> u64 {
    let x = f64::from_bits(a);
    let y = f64::from_bits(b);
    let r = match op {
        BinOp::Add => x + y,
        BinOp::Sub => x - y,
        BinOp::Mul => x * y,
        BinOp::Div => x / y,
    };
    r.to_bits()
}

fn sample<'a>(arena: &'a Arena<Expr<'a>>) -> &'a Expr<'a> {
    binary(
        arena,
        BinOp::Sub,
        binary(
            arena,
            BinOp::Div,
            literal(arena, 1.0f64.to_bits()),
            group(arena, unary(arena, UnOp::Sub, literal(arena, 8.0f64.to_bits()))),
        ),
        unary(
            arena,
            UnOp::Add,
            binary(arena, BinOp::Mul, literal(arena, 0.5f64.to_bits()), literal(arena, 3.0f64.to_bits())),
        ),
    )
}

#[test]
fn iterative_walk_agrees_with_the_recursive_one() {
    let arena = Arena::new();
    let tree = sample(&arena);
    let mut printer = Repr::new(float_text);
    let mut interpreter = Interpreter::new(float_arith);
    assert_eq!(printer.repr(tree), "(Sub (Div 1.0 (group (Sub 8.0))) (Add (Mul 0.5 3.0)))");
    assert_eq!(printer.repr_iterative(tree), printer.repr(tree));
    assert_eq!(interpreter.eval(tree), VisitResult::Numeric((-1.625f64).to_bits()));
    assert_eq!(interpreter.eval_iterative(tree), interpreter.eval(tree));
    assert_eq!(tree.accept_iterative(&printer), tree.accept(&printer));
    assert_eq!(tree.accept_iterative(&interpreter), tree.accept(&interpreter));
}

#[test]
fn iterative_walk_of_a_single_literal() {
    let arena = Arena::new();
    let leaf = literal(&arena, 2.5f64.to_bits());
    let mut printer = Repr::new(float_text);
    let mut interpreter = Interpreter::new(float_arith);
    assert_eq!(printer.repr_iterative(leaf), "2.5");
    assert_eq!(interpreter.eval_iterative(leaf), VisitResult::Numeric(2.5f64.to_bits()));
}

struct Recorder {
    calls: RefCell<Vec<String>>,
}

impl Recorder {
    fn note(&self, what: String) -> VisitResult {
        self.calls.borrow_mut().push(what);
        VisitResult::Empty
    }
}

impl Visitor for Recorder {
    fn visit_literal(&self, expr: &LiteralExpr) -> VisitResult {
        self.note(format!("literal {}", expr.bits))
    }

    fn visit_unary(&self, expr: &UnaryExpr, _operand: VisitResult) -> VisitResult {
        self.note(format!("unary {:?}", expr.op))
    }

    fn visit_binary(&self, expr: &BinaryExpr, _left: VisitResult, _right: VisitResult) -> VisitResult {
        self.note(format!("binary {:?}", expr.op))
    }

    fn visit_group(&self, _expr: &GroupExpr, _inner: VisitResult) -> VisitResult {
        self.note(String::from("group"))
    }
}

#[test]
fn both_walks_call_the_visitor_in_the_same_order() {
    let arena = Arena::new();
    let tree = binary(
        &arena,
        BinOp::Mul,
        unary(&arena, UnOp::Sub, literal(&arena, 1)),
        group(&arena, binary(&arena, BinOp::Add, literal(&arena, 2), literal(&arena, 3))),
    );
    let recursive = Recorder { calls: RefCell::new(Vec::new()) };
    let iterative = Recorder { calls: RefCell::new(Vec::new()) };
    assert_eq!(tree.accept(&recursive), VisitResult::Empty);
    assert_eq!(tree.accept_iterative(&iterative), VisitResult::Empty);
    let expected = vec![
        "literal 1",
        "unary Sub",
        "literal 2",
        "literal 3",
        "binary Add",
        "group",
        "binary Mul",
    ];
    assert_eq!(*recursive.calls.borrow(), expected);
    assert_eq!(*iterative.calls.borrow(), expected);
}

#[test]
fn deep_minus_chain_evaluates_without_recursion() {
    let arena = Arena::new();
    let mut tree = literal(&arena, 5.0f64.to_bits());
    for _ in 0..300_001 {
        tree = unary(&arena, UnOp::Sub, tree);
    }
    let mut interpreter = Interpreter::new(float_arith);
    assert_eq!(interpreter.eval_iterative(tree), VisitResult::Numeric((-5.0f64).to_bits()));
    tree = unary(&arena, UnOp::Sub, tree);
    assert_eq!(interpreter.eval_iterative(tree), VisitResult::Numeric(5.0f64.to_bits()));
}

#[test]
fn deep_left_nested_sum_evaluates_without_recursion() {
    let arena = Arena::new();
    let one = literal(&arena, 1.0f64.to_bits());
    let mut tree = one;
    for _ in 0..100_000 {
        tree = binary(&arena, BinOp::Add, tree, one);
    }
    let mut interpreter = Interpreter::new(float_arith);
    assert_eq!(interpreter.eval_iterative(tree), VisitResult::Numeric(100_001.0f64.to_bits()));
}

#[test]
fn deep_right_nested_groups_render_without_recursion() {
    let arena = Arena::new();
    let depth = 2_000;
    let mut tree = literal(&arena, 1.0f64.to_bits());
    for _ in 0..depth {
        tree = group(&arena, tree);
    }
    let mut printer = Repr::new(float_text);
    let text = printer.repr_iterative(tree);
    let expected = format!("{}1.0{}", "(group ".repeat(depth), ")".repeat(depth));
    assert_eq!(text, expected);
}
