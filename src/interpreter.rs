use vstd::prelude::*;

use crate::ast::{BinOp, Expr, Term};
use crate::bindings::Bindings;
use crate::jit::{arith_of, is_arith};

verus! {

/// The value of `t` under `env` with arithmetic `g`, or the first identifier,
/// in left-to-right order, that `env` does not bind.
pub open spec fn interpret(
    t: Term,
    env: Map<Seq<char>, u64>,
    g: spec_fn(BinOp, u64, u64) -> u64,
) -> Result<u64, Seq<char>>
    decreases t,
{
    match t {
        Term::Bin(l, op, r) => match interpret(*l, env, g) {
            Err(n) => Err(n),
            Ok(a) => match interpret(*r, env, g) {
                Err(n) => Err(n),
                Ok(b) => Ok(g(op, a, b)),
            },
        },
        Term::Num(bits) => Ok(bits),
        Term::Var(n) => if env.contains_key(n) {
            Ok(env[n])
        } else {
            Err(n)
        },
    }
}

/// Evaluation found no value for this identifier.
#[derive(Debug, PartialEq, Eq)]
pub enum InterpreterError {
    MissingIdentifier(String),
}

/// Whether an evaluation result agrees with `interpret`'s.
pub open spec fn same_outcome(r: Result<u64, InterpreterError>, s: Result<u64, Seq<char>>) -> bool {
    match (r, s) {
        (Ok(v), Ok(w)) => v == w,
        (Err(InterpreterError::MissingIdentifier(n)), Err(m)) => n@ == m,
        _ => false,
    }
}

/// Walks an expression tree, reading identifiers from its bindings.
pub struct Interpreter {
    values: Bindings,
}

impl Interpreter {
    pub closed spec fn wf(&self) -> bool {
        self.values.wf()
    }

    pub closed spec fn values(&self) -> Map<Seq<char>, u64> {
        self.values@
    }

    pub fn new(values: Bindings) -> (r: Self)
        requires
            values.wf(),
        ensures
            r.wf(),
            r.values() == values@,
    {
        Interpreter { values }
    }

    pub fn without_values() -> (r: Self)
        ensures
            r.wf(),
            r.values() == Map::<Seq<char>, u64>::empty(),
    {
        Interpreter { values: Bindings::new() }
    }

    /// Evaluates `ast`, left operand first, with `apply` doing the arithmetic.
    pub fn eval<F: Fn(BinOp, u64, u64) -> u64>(&self, ast: &Expr, apply: &F) -> (r: Result<
        u64,
        InterpreterError,
    >)
        requires
            self.wf(),
            is_arith(*apply),
        ensures
            same_outcome(r, interpret(ast@, self.values(), arith_of(*apply))),
        decreases ast,
    {
        match ast {
            Expr::Binary(lhs, op, rhs) => {
                let a = match self.eval(lhs, apply) {
                    Ok(a) => a,
                    Err(e) => {
                        return Err(e);
                    },
                };
                let b = match self.eval(rhs, apply) {
                    Ok(b) => b,
                    Err(e) => {
                        return Err(e);
                    },
                };
                let v = apply(*op, a, b);
                assert(arith_of(*apply)(*op, a, b) == v);
                Ok(v)
            },
            Expr::Number(val) => Ok(*val),
            Expr::Identifier(name) => self.fetch_identifiers_value(name),
        }
    }

    fn fetch_identifiers_value(&self, name: &String) -> (r: Result<u64, InterpreterError>)
        requires
            self.wf(),
        ensures
            r matches Ok(v) ==> self.values().contains_key(name@) && v == self.values()[name@],
            r matches Err(InterpreterError::MissingIdentifier(n)) ==> !self.values().contains_key(
                name@,
            ) && n@ == name@,
    {
        match self.values.get(name) {
            None => Err(InterpreterError::MissingIdentifier(name.clone())),
            Some(value) => Ok(value),
        }
    }
}

impl Default for Interpreter {
    fn default() -> (r: Self)
        ensures
            r.wf(),
            r.values() == Map::<Seq<char>, u64>::empty(),
    {
        Interpreter::without_values()
    }
}

} // verus!
