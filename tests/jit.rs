use exprjit::ast::{BinOp, Expr};
use exprjit::bindings::Bindings;
use exprjit::interpreter::Interpreter;
use exprjit::jit::{prepare_function, Error, Instr, SlotData};

fn arith(op: BinOp, a: u64, b: u64) -> u64 {
    let x = f64::from_bits(a);
    let y = f64::from_bits(b);
    let v = match op {
        BinOp::Add => x + y,
        BinOp::Subtract => x - y,
        BinOp::Multiply => x * y,
        BinOp::Divide => x / y,
    };
    v.to_bits()
}

fn num(x: f64) -> Expr {
    Expr::num(x.to_bits())
}

fn bind(pairs: &[(&str, f64)]) -> Bindings {
    let mut b = Bindings::new();
    for (k, v) in pairs {
        b.insert(k.to_string(), v.to_bits());
    }
    b
}

fn mixed() -> Expr {
    (Expr::ident("a") + num(2.0)) * (Expr::ident("b") / Expr::ident("c"))
        + Expr::ident("a")
        + (Expr::ident("a") * num(3.0))
        - Expr::ident("c")
}

#[test]
fn jit_it_works() {
    let ast = (Expr::ident("a") + num(2.0)) * (Expr::ident("b") / Expr::ident("c"));
    let values = bind(&[("a", 1.0), ("b", 2.0), ("c", 3.0)]);
    let function = prepare_function(&ast);
    assert_eq!(function.run(&values, &arith).map(f64::from_bits), Ok(2.));
}

#[test]
fn slot_table_assigns_in_first_request_order() {
    let mut s = SlotData::new();
    assert_eq!(s.get(&"x".to_string()), 0);
    assert_eq!(s.get(&"y".to_string()), 1);
    assert_eq!(s.get(&"x".to_string()), 0);
    assert_eq!(s.len(), 2);
    assert_eq!(s.to_positions(), vec!["x".to_string(), "y".to_string()]);
    assert!(SlotData::new().to_positions().is_empty());
}

#[test]
fn lowering_emits_slot_addressed_code() {
    let ast = Expr::ident("b") + num(1.0) * Expr::ident("a") - Expr::ident("b");
    let f = prepare_function(&ast);
    assert_eq!(f.slot_positions(), &vec!["b".to_string(), "a".to_string()]);
    let one = 1.0f64.to_bits();
    assert_eq!(
        f.instructions(),
        &vec![
            Instr::Load(0),
            Instr::Const(one),
            Instr::Load(1),
            Instr::Binary(BinOp::Multiply, 1, 2),
            Instr::Binary(BinOp::Add, 0, 3),
            Instr::Load(0),
            Instr::Binary(BinOp::Subtract, 4, 5),
        ]
    );
}

#[test]
fn slot_tables_are_stable_across_compilations() {
    let f1 = prepare_function(&mixed());
    let f2 = prepare_function(&mixed());
    assert_eq!(f1.slot_positions(), f2.slot_positions());
    assert_eq!(
        f1.slot_positions(),
        &vec!["a".to_string(), "b".to_string(), "c".to_string()]
    );
}

#[test]
fn arguments_follow_slot_order() {
    let f = prepare_function(&(Expr::ident("c") + Expr::ident("a")));
    let values = bind(&[("a", 1.0), ("b", 2.0), ("c", 3.0)]);
    assert_eq!(f.arguments(&values), Ok(vec![3.0f64.to_bits(), 1.0f64.to_bits()]));
    let missing = bind(&[("a", 1.0)]);
    assert_eq!(f.arguments(&missing), Err(Error::MissingIdentifier("c".to_string())));
}

#[test]
fn both_strategies_agree_on_mixed_expression() {
    let ast = mixed();
    let values = bind(&[("a", 1.0), ("b", 2.0), ("c", 3.0)]);
    let interpreted = Interpreter::new(bind(&[("a", 1.0), ("b", 2.0), ("c", 3.0)]))
        .eval(&ast, &arith)
        .unwrap();
    let compiled = prepare_function(&ast).run(&values, &arith).unwrap();
    assert_eq!(interpreted, compiled);
    assert!((f64::from_bits(compiled) - 3.0).abs() < 1e-12);
}

#[test]
fn both_strategies_a_plus_40() {
    let ast = Expr::ident("a") + num(40.0);
    let i = Interpreter::new(bind(&[("a", 2.0)])).eval(&ast, &arith);
    let c = prepare_function(&ast).run(&bind(&[("a", 2.0)]), &arith);
    assert_eq!(i.map(f64::from_bits), Ok(42.0));
    assert_eq!(c.map(f64::from_bits), Ok(42.0));
}

#[test]
fn both_strategies_one_plus_one_without_bindings() {
    let ast = num(1.0) + num(1.0);
    let f = prepare_function(&ast);
    assert!(f.slot_positions().is_empty());
    let i = Interpreter::without_values().eval(&ast, &arith);
    let c = f.run(&Bindings::new(), &arith);
    assert_eq!(i.map(f64::from_bits), Ok(2.0));
    assert_eq!(c.map(f64::from_bits), Ok(2.0));
}

#[test]
fn both_strategies_divide_by_zero_to_infinity() {
    let ast = Expr::ident("x") / num(0.0);
    let i = Interpreter::new(bind(&[("x", 5.0)])).eval(&ast, &arith);
    let c = prepare_function(&ast).run(&bind(&[("x", 5.0)]), &arith);
    assert_eq!(i.map(f64::from_bits), Ok(f64::INFINITY));
    assert_eq!(c.map(f64::from_bits), Ok(f64::INFINITY));
}

#[test]
fn compiled_call_reports_missing_identifier() {
    let ast = Expr::ident("a") + Expr::ident("b");
    let c = prepare_function(&ast).run(&bind(&[("a", 1.0)]), &arith);
    assert_eq!(c, Err(Error::MissingIdentifier("b".to_string())));
}

#[test]
fn compiled_call_ignores_unused_bindings() {
    let f = prepare_function(&(Expr::ident("a") - num(1.0)));
    let r1 = f.run(&bind(&[("a", 4.0)]), &arith);
    let r2 = f.run(&bind(&[("z", 7.0), ("a", 4.0)]), &arith);
    assert_eq!(r1, r2);
    assert_eq!(r1.map(f64::from_bits), Ok(3.0));
}
