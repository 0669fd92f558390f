use exprjit::ast::{BinOp, Expr};
use exprjit::bindings::Bindings;
use exprjit::interpreter::{Interpreter, InterpreterError};

fn arith(op: BinOp, a: u64, b: u64) -> u64 {
    let x = f64::from_bits(a);
    let y = f64::from_bits(b);
    let v = match op {
        BinOp::Add => x + y,
        BinOp::Subtract => x - y,
        BinOp::Multiply => x * y,
        BinOp::Divide => x / y,
    };
    v.to_bits()
}

fn num(x: f64) -> Expr {
    Expr::num(x.to_bits())
}

fn bind(pairs: &[(&str, f64)]) -> Bindings {
    let mut b = Bindings::new();
    for (k, v) in pairs {
        b.insert(k.to_string(), v.to_bits());
    }
    b
}

fn eval(i: &Interpreter, e: &Expr) -> Result<f64, InterpreterError> {
    i.eval(e, &arith).map(f64::from_bits)
}

#[test]
fn one_plus_one() {
    let x = num(1.) + num(1.);
    let interpreter = Interpreter::default();
    assert_eq!(eval(&interpreter, &x), Ok(2.0));
}

#[test]
fn a_plus_40_where_a_is_2() {
    let x = Expr::ident("a") + num(40.);
    let values = bind(&[("a", 2.)]);
    assert_eq!(eval(&Interpreter::new(values), &x), Ok(42.0));
}

#[test]
fn interpreter_scenario_mixed_expression() {
    let ast = (Expr::ident("a") + num(2.0)) * (Expr::ident("b") / Expr::ident("c"))
        + Expr::ident("a")
        + (Expr::ident("a") * num(3.0))
        - Expr::ident("c");
    let values = bind(&[("a", 1.0), ("b", 2.0), ("c", 3.0)]);
    let r = eval(&Interpreter::new(values), &ast).unwrap();
    assert!((r - 3.0).abs() < 1e-12);
}

#[test]
fn interpreter_division_by_zero_is_infinite() {
    let ast = Expr::ident("x") / num(0.0);
    let r = eval(&Interpreter::new(bind(&[("x", 5.0)])), &ast).unwrap();
    assert_eq!(r, f64::INFINITY);
}

#[test]
fn interpreter_reports_first_missing_identifier() {
    let ast = Expr::ident("a") + Expr::ident("zz") * Expr::ident("yy");
    let r = eval(&Interpreter::new(bind(&[("a", 1.0)])), &ast);
    assert_eq!(r, Err(InterpreterError::MissingIdentifier("zz".to_string())));
    let r = eval(&Interpreter::without_values(), &Expr::ident("q"));
    assert_eq!(r, Err(InterpreterError::MissingIdentifier("q".to_string())));
}

#[test]
fn interpreter_ignores_unused_bindings() {
    let ast = Expr::ident("a") * num(2.0);
    let r1 = eval(&Interpreter::new(bind(&[("a", 4.0)])), &ast);
    let r2 = eval(&Interpreter::new(bind(&[("a", 4.0), ("b", 9.0)])), &ast);
    assert_eq!(r1, Ok(8.0));
    assert_eq!(r1, r2);
}

#[test]
fn bindings_insert_replaces_and_get_reads() {
    let mut b = Bindings::new();
    assert_eq!(b.get(&"a".to_string()), None);
    b.insert("a".to_string(), 1);
    b.insert("b".to_string(), 2);
    b.insert("a".to_string(), 3);
    assert_eq!(b.get(&"a".to_string()), Some(3));
    assert_eq!(b.get(&"b".to_string()), Some(2));
    assert_eq!(b.get(&"c".to_string()), None);
}
