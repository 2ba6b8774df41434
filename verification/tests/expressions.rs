use shaderand::node::{ArithmeticOp, CompareOp, FnNode, UnaryOp};
use shaderand::scalar::Scalar;

fn num(units: i64) -> FnNode {
    FnNode::number(Scalar::from_units(units))
}

#[test]
fn optimize_folds_arithmetic() {
    let mut e = FnNode::arithmetic(num(2), ArithmeticOp::Mul, num(3));
    assert!(e.optimize().is_ok());
    assert_eq!(e, FnNode::Number(Scalar::Num(6_000_000)));
}

#[test]
fn optimize_folds_comparison() {
    let mut e = FnNode::compare(num(1), CompareOp::GreaterThan, num(0));
    assert!(e.optimize().is_ok());
    assert_eq!(e, FnNode::Boolean(true));
}

#[test]
fn optimize_folds_if() {
    let mut e = FnNode::if_(FnNode::Boolean(true), num(1), num(2));
    assert!(e.optimize().is_ok());
    assert_eq!(e, FnNode::Number(Scalar::Num(1_000_000)));
    let mut e2 = FnNode::if_(FnNode::Boolean(false), num(1), num(2));
    assert!(e2.optimize().is_ok());
    assert_eq!(e2, FnNode::Number(Scalar::Num(2_000_000)));
}

#[test]
fn optimize_clamps_nan() {
    let mut e = FnNode::unary(UnaryOp::Sqrt, num(-1));
    assert!(e.optimize().is_ok());
    assert_eq!(e, FnNode::Number(Scalar::Num(0)));
    // A literal Nan leaf is clamped too.
    let mut leaf = FnNode::Number(Scalar::Nan);
    assert!(leaf.optimize().is_ok());
    assert_eq!(leaf, FnNode::Number(Scalar::Num(0)));
}

#[test]
fn optimize_keeps_open_subtrees() {
    let mut e = FnNode::arithmetic(FnNode::X, ArithmeticOp::Add, num(0));
    assert!(e.optimize().is_ok());
    assert_eq!(e, FnNode::arithmetic(FnNode::X, ArithmeticOp::Add, num(0)));
    // A triple of literals stays a triple.
    let mut t = FnNode::triple(num(1), num(2), num(3));
    assert!(t.optimize().is_ok());
    assert_eq!(t, FnNode::triple(num(1), num(2), num(3)));
}

#[test]
fn optimize_rejects_unresolved() {
    let mut e = FnNode::Random;
    assert!(e.optimize().is_err());
    let mut r = FnNode::unary(UnaryOp::Abs, FnNode::Rule(0));
    assert!(r.optimize().is_err());
}

#[test]
fn codegen_exact_triple() {
    let mut e = FnNode::triple(FnNode::X, FnNode::Y, num(1));
    let out = e.compile_to_glsl_fs("%s").unwrap();
    assert_eq!(out, "vec3(x, y, (1))");
}

#[test]
fn codegen_operator_forms() {
    let mut e = FnNode::triple(
        FnNode::arithmetic(FnNode::X, ArithmeticOp::Mod, FnNode::Y),
        FnNode::if_(
            FnNode::compare(FnNode::X, CompareOp::GreaterThanEqual, num(0)),
            FnNode::Boolean(true),
            FnNode::Boolean(false),
        ),
        FnNode::unary(UnaryOp::Sqrt, FnNode::T),
    );
    let out = e.compile_to_glsl_fs("%s").unwrap();
    assert_eq!(out, "vec3((mod(x, y)), (((x >= (0))) ? (true) : (false)), sqrt(t))");
}

#[test]
fn codegen_substitutes_first_placeholder_only() {
    let mut e = FnNode::triple(FnNode::X, FnNode::X, FnNode::X);
    let out = e.compile_to_glsl_fs("A %s B %s").unwrap();
    assert_eq!(out, "A vec3(x, x, x) B %s");
    let mut e2 = FnNode::triple(FnNode::X, FnNode::X, FnNode::X);
    let out2 = e2.compile_to_glsl_fs("no placeholder").unwrap();
    assert_eq!(out2, "no placeholder");
}

#[test]
fn codegen_rejects_unresolved() {
    let mut e = FnNode::triple(FnNode::X, FnNode::Random, FnNode::Y);
    assert!(e.compile_to_glsl_fs("%s").is_err());
}

#[test]
fn eval_substitutes_coordinates() {
    let e = FnNode::triple(FnNode::X, FnNode::Y, FnNode::T);
    let x = Scalar::Num(250_000);
    let y = Scalar::Num(-500_000);
    let t = Scalar::Num(0);
    let c = e.eval_fn(x, y, t).unwrap();
    assert_eq!(c.r, x);
    assert_eq!(c.g, y);
    assert_eq!(c.b, t);
}

#[test]
fn eval_computes_operators() {
    let e = FnNode::triple(
        FnNode::arithmetic(FnNode::X, ArithmeticOp::Mul, FnNode::X),
        FnNode::if_(
            FnNode::compare(FnNode::X, CompareOp::LessThan, FnNode::Y),
            num(1),
            num(2),
        ),
        FnNode::unary(UnaryOp::Abs, FnNode::X),
    );
    let x = Scalar::Num(-500_000);
    let y = Scalar::Num(250_000);
    let c = e.eval_fn(x, y, Scalar::Num(0)).unwrap();
    assert_eq!(c.r, Scalar::Num(250_000));
    assert_eq!(c.g, Scalar::Num(1_000_000));
    assert_eq!(c.b, Scalar::Num(500_000));
}

#[test]
fn eval_rejects_bad_shapes() {
    // The root must reduce to a triple.
    let e = FnNode::X;
    assert!(e.eval_fn(Scalar::Num(0), Scalar::Num(0), Scalar::Num(0)).is_err());
    // A boolean operand of arithmetic is a type error.
    let bad = FnNode::arithmetic(FnNode::Boolean(true), ArithmeticOp::Add, FnNode::X);
    assert!(bad.eval(Scalar::Num(0), Scalar::Num(0), Scalar::Num(0)).is_err());
    // A numeric condition is a type error.
    let badif = FnNode::if_(num(1), num(1), num(2));
    assert!(badif.eval(Scalar::Num(0), Scalar::Num(0), Scalar::Num(0)).is_err());
    // Unresolved nodes are rejected.
    let open = FnNode::Rule(0);
    assert!(open.eval(Scalar::Num(0), Scalar::Num(0), Scalar::Num(0)).is_err());
}

#[test]
fn rasterize_exact_bytes() {
    let e = FnNode::triple(FnNode::X, FnNode::Y, num(0));
    let buf = e.rasterize(2, 2).unwrap();
    assert_eq!(
        buf,
        vec![0, 0, 127, 127, 0, 127, 0, 127, 127, 127, 127, 127],
    );
}

#[test]
fn rasterize_rejects_failing_expression() {
    let e = FnNode::Random;
    assert!(e.rasterize(2, 2).is_err());
}
