use expr_tree::ast::{BinOp, UnOp};
use expr_tree::builder::{binary, group, literal, unary};
use expr_tree::printer::Repr;
use expr_tree::visitor::VisitResult;
use typed_arena::Arena;

fn float_text(bits: u64) -> String {
    format!("{:?}", f64::from_bits(bits))
}

#[test]
fn canonical_example_renders() {
    let arena = Arena::new();
    let tree = binary(
        &arena,
        BinOp::Mul,
        unary(&arena, UnOp::Sub, literal(&arena, 3.14f64.to_bits())),
        group(&arena, literal(&arena, 2.81f64.to_bits())),
    );
    let mut printer = Repr::new(float_text);
    assert_eq!(printer.repr(tree), "(Mul (Sub 3.14) (group 2.81))");
}

#[test]
fn literal_renders_as_its_bare_value() {
    let arena = Arena::new();
    let mut printer = Repr::new(float_text);
    assert_eq!(printer.repr(literal(&arena, 3.14f64.to_bits())), "3.14");
    assert_eq!(printer.repr(literal(&arena, 5.0f64.to_bits())), "5.0");
    assert_eq!(printer.repr(literal(&arena, (-0.5f64).to_bits())), "-0.5");
    assert_eq!(printer.repr(literal(&arena, f64::INFINITY.to_bits())), "inf");
}

#[test]
fn every_operator_has_its_token() {
    let arena = Arena::new();
    let mut printer = Repr::new(float_text);
    let one = literal(&arena, 1.0f64.to_bits());
    let two = literal(&arena, 2.0f64.to_bits());
    assert_eq!(printer.repr(binary(&arena, BinOp::Add, one, two)), "(Add 1.0 2.0)");
    assert_eq!(printer.repr(binary(&arena, BinOp::Sub, one, two)), "(Sub 1.0 2.0)");
    assert_eq!(printer.repr(binary(&arena, BinOp::Mul, one, two)), "(Mul 1.0 2.0)");
    assert_eq!(printer.repr(binary(&arena, BinOp::Div, one, two)), "(Div 1.0 2.0)");
    assert_eq!(printer.repr(unary(&arena, UnOp::Add, one)), "(Add 1.0)");
    assert_eq!(printer.repr(unary(&arena, UnOp::Sub, one)), "(Sub 1.0)");
    assert_eq!(printer.repr(group(&arena, one)), "(group 1.0)");
    assert_eq!(BinOp::Add.name(), "Add");
    assert_eq!(BinOp::Sub.name(), "Sub");
    assert_eq!(BinOp::Mul.name(), "Mul");
    assert_eq!(BinOp::Div.name(), "Div");
    assert_eq!(UnOp::Add.name(), "Add");
    assert_eq!(UnOp::Sub.name(), "Sub");
}

#[test]
fn children_are_rendered_left_then_right() {
    let arena = Arena::new();
    let mut printer = Repr::new(float_text);
    let tree = binary(
        &arena,
        BinOp::Sub,
        binary(&arena, BinOp::Div, literal(&arena, 1.0f64.to_bits()), literal(&arena, 2.0f64.to_bits())),
        unary(&arena, UnOp::Add, group(&arena, literal(&arena, 3.0f64.to_bits()))),
    );
    assert_eq!(printer.repr(tree), "(Sub (Div 1.0 2.0) (Add (group 3.0)))");
}

#[test]
fn group_adds_one_pair_of_parentheses() {
    let arena = Arena::new();
    let mut printer = Repr::new(float_text);
    let inner = binary(&arena, BinOp::Add, literal(&arena, 1.5f64.to_bits()), literal(&arena, 2.5f64.to_bits()));
    let plain = printer.repr(inner);
    assert_eq!(printer.repr(group(&arena, inner)), format!("(group {})", plain));
    assert_eq!(printer.repr(group(&arena, group(&arena, inner))), "(group (group (Add 1.5 2.5)))");
}

#[test]
fn rendering_is_repeatable() {
    let arena = Arena::new();
    let mut printer = Repr::new(float_text);
    let tree = unary(&arena, UnOp::Sub, group(&arena, literal(&arena, 0.1f64.to_bits())));
    let first = printer.repr(tree);
    let second = printer.repr(tree);
    assert_eq!(first, second);
    assert_eq!(first, "(Sub (group 0.1))");
}

#[test]
fn distinct_shapes_render_differently() {
    let arena = Arena::new();
    let mut printer = Repr::new(float_text);
    let one = literal(&arena, 1.0f64.to_bits());
    let two = literal(&arena, 2.0f64.to_bits());
    let three = literal(&arena, 3.0f64.to_bits());
    let left_nested = binary(&arena, BinOp::Add, binary(&arena, BinOp::Add, one, two), three);
    let right_nested = binary(&arena, BinOp::Add, one, binary(&arena, BinOp::Add, two, three));
    assert_eq!(printer.repr(left_nested), "(Add (Add 1.0 2.0) 3.0)");
    assert_eq!(printer.repr(right_nested), "(Add 1.0 (Add 2.0 3.0))");
    assert_ne!(printer.repr(unary(&arena, UnOp::Add, one)), printer.repr(group(&arena, one)));
}

#[test]
fn parenthesize_joins_name_and_parts() {
    let printer = Repr::new(float_text);
    assert_eq!(printer.parenthesize("name", vec![]), "(name)");
    assert_eq!(
        printer.parenthesize("f", vec![VisitResult::Text(String::from("a")), VisitResult::Text(String::from("b c"))]),
        "(f a b c)"
    );
    assert_eq!(
        printer.parenthesize(
            "g",
            vec![VisitResult::Numeric(1), VisitResult::Text(String::from("x")), VisitResult::Empty]
        ),
        "(g  x )"
    );
    assert_eq!(printer.parenthesize("", vec![VisitResult::Text(String::new())]), "( )");
}
