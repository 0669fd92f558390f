use exprjit::ast::{BinOp, Expr};

#[test]
fn lib_it_works() {
    assert_eq!(true, true)
}

#[test]
fn operators_build_binary_nodes() {
    let x = Expr::num(1.0f64.to_bits()) + Expr::num(1.0f64.to_bits());
    match x {
        Expr::Binary(l, BinOp::Add, r) => {
            assert!(matches!(*l, Expr::Number(b) if b == 1.0f64.to_bits()));
            assert!(matches!(*r, Expr::Number(b) if b == 1.0f64.to_bits()));
        }
        _ => panic!("expected an addition"),
    }
    assert!(matches!(Expr::ident("a") - Expr::ident("b"), Expr::Binary(_, BinOp::Subtract, _)));
    assert!(matches!(Expr::ident("a") * Expr::ident("b"), Expr::Binary(_, BinOp::Multiply, _)));
    assert!(matches!(Expr::ident("a") / Expr::ident("b"), Expr::Binary(_, BinOp::Divide, _)));
    assert!(matches!(Expr::ident("abc"), Expr::Identifier(ref s) if s == "abc"));
}
