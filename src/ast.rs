use vstd::prelude::*;

verus! {

/// The four arithmetic operators of an expression.
#[derive(Debug, Clone, Copy, PartialEq, Eq, Structural)]
pub enum BinOp {
    Add,
    Subtract,
    Multiply,
    Divide,
}

/// An expression tree. A number is held as the bit pattern of an IEEE-754
/// double (`f64::to_bits`), so that the tree carries the exact value.
#[derive(Debug)]
pub enum Expr {
    Binary(Box<Expr>, BinOp, Box<Expr>),
    Number(u64),
    Identifier(String),
}

/// The mathematical model of an expression: identifiers are character sequences.
pub enum Term {
    Bin(Box<Term>, BinOp, Box<Term>),
    Num(u64),
    Var(Seq<char>),
}

/// The term that an expression denotes.
pub open spec fn term_of(e: &Expr) -> Term
    decreases e,
{
    match e {
        Expr::Binary(l, op, r) => Term::Bin(Box::new(term_of(l)), *op, Box::new(term_of(r))),
        Expr::Number(bits) => Term::Num(*bits),
        Expr::Identifier(name) => Term::Var(name@),
    }
}

impl View for Expr {
    type V = Term;

    open spec fn view(&self) -> Term {
        term_of(self)
    }
}

/// Whether the identifier `n` occurs in `t`.
pub open spec fn mentions(t: Term, n: Seq<char>) -> bool
    decreases t,
{
    match t {
        Term::Bin(l, _, r) => mentions(*l, n) || mentions(*r, n),
        Term::Num(_) => false,
        Term::Var(m) => m == n,
    }
}

impl Expr {
    /// A literal, given as the bit pattern of an `f64`.
    #[must_use]
    pub fn num(val: u64) -> (r: Self)
        ensures
            r@ == Term::Num(val),
    {
        Expr::Number(val)
    }

    #[must_use]
    pub fn binop(lhs: Self, op: BinOp, rhs: Self) -> (r: Self)
        ensures
            r == Expr::Binary(Box::new(lhs), op, Box::new(rhs)),
            r@ == Term::Bin(Box::new(lhs@), op, Box::new(rhs@)),
    {
        Expr::Binary(Box::new(lhs), op, Box::new(rhs))
    }

    #[must_use]
    pub fn ident(val: &str) -> (r: Self)
        ensures
            r@ == Term::Var(val@),
    {
        Expr::Identifier(val.to_owned())
    }
}

impl core::ops::Add for Expr {
    type Output = Self;

    fn add(self, rhs: Self) -> (r: Self)
        ensures
            r@ == Term::Bin(Box::new(self@), BinOp::Add, Box::new(rhs@)),
    {
        Expr::Binary(Box::new(self), BinOp::Add, Box::new(rhs))
    }
}

impl core::ops::Sub for Expr {
    type Output = Self;

    fn sub(self, rhs: Self) -> (r: Self)
        ensures
            r@ == Term::Bin(Box::new(self@), BinOp::Subtract, Box::new(rhs@)),
    {
        Expr::Binary(Box::new(self), BinOp::Subtract, Box::new(rhs))
    }
}

impl core::ops::Mul for Expr {
    type Output = Self;

    fn mul(self, rhs: Self) -> (r: Self)
        ensures
            r@ == Term::Bin(Box::new(self@), BinOp::Multiply, Box::new(rhs@)),
    {
        Expr::Binary(Box::new(self), BinOp::Multiply, Box::new(rhs))
    }
}

impl core::ops::Div for Expr {
    type Output = Self;

    fn div(self, rhs: Self) -> (r: Self)
        ensures
            r@ == Term::Bin(Box::new(self@), BinOp::Divide, Box::new(rhs@)),
    {
        Expr::Binary(Box::new(self), BinOp::Divide, Box::new(rhs))
    }
}

impl vstd::std_specs::ops::AddSpecImpl for Expr {
    open spec fn obeys_add_spec() -> bool {
        true
    }

    open spec fn add_req(self, rhs: Expr) -> bool {
        true
    }

    open spec fn add_spec(self, rhs: Expr) -> Expr {
        Expr::Binary(Box::new(self), BinOp::Add, Box::new(rhs))
    }
}

impl vstd::std_specs::ops::SubSpecImpl for Expr {
    open spec fn obeys_sub_spec() -> bool {
        true
    }

    open spec fn sub_req(self, rhs: Expr) -> bool {
        true
    }

    open spec fn sub_spec(self, rhs: Expr) -> Expr {
        Expr::Binary(Box::new(self), BinOp::Subtract, Box::new(rhs))
    }
}

impl vstd::std_specs::ops::MulSpecImpl for Expr {
    open spec fn obeys_mul_spec() -> bool {
        true
    }

    open spec fn mul_req(self, rhs: Expr) -> bool {
        true
    }

    open spec fn mul_spec(self, rhs: Expr) -> Expr {
        Expr::Binary(Box::new(self), BinOp::Multiply, Box::new(rhs))
    }
}

impl vstd::std_specs::ops::DivSpecImpl for Expr {
    open spec fn obeys_div_spec() -> bool {
        true
    }

    open spec fn div_req(self, rhs: Expr) -> bool {
        true
    }

    open spec fn div_spec(self, rhs: Expr) -> Expr {
        Expr::Binary(Box::new(self), BinOp::Divide, Box::new(rhs))
    }
}

} // verus!
