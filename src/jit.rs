use vstd::prelude::*;

use crate::ast::{BinOp, Expr, Term};
use crate::bindings::Bindings;

verus! {

/// The names of `v`, as character sequences.
pub open spec fn names_of(v: Seq<String>) -> Seq<Seq<char>> {
    v.map_values(|s: String| s@)
}

/// No name occurs twice.
pub open spec fn all_distinct(names: Seq<Seq<char>>) -> bool {
    forall|i: int, j: int| 0 <= i < j < names.len() ==> names[i] != names[j]
}

/// The table after `n` was asked for: unchanged if `n` has a slot, else `n` appended.
pub open spec fn with_name(names: Seq<Seq<char>>, n: Seq<char>) -> Seq<Seq<char>> {
    if names.contains(n) {
        names
    } else {
        names.push(n)
    }
}

/// The slot table: the name at position `i` has slot `i`. Slots are handed out
/// in order of first request and never change.
pub struct SlotData {
    names: Vec<String>,
}

impl View for SlotData {
    type V = Seq<Seq<char>>;

    closed spec fn view(&self) -> Seq<Seq<char>> {
        names_of(self.names@)
    }
}

impl SlotData {
    pub open spec fn wf(&self) -> bool {
        all_distinct(self@)
    }

    pub fn new() -> (r: Self)
        ensures
            r.wf(),
            r@ == Seq::<Seq<char>>::empty(),
    {
        let r = SlotData { names: Vec::new() };
        assert(r@ =~= Seq::<Seq<char>>::empty());
        r
    }

    /// The number of slots handed out.
    pub fn len(&self) -> (r: usize)
        ensures
            r == self@.len(),
    {
        self.names.len()
    }

    /// The slot of `name`, which is handed out now if `name` has none yet.
    pub fn get(&mut self, name: &String) -> (slot: u64)
        requires
            old(self).wf(),
        ensures
            final(self).wf(),
            final(self)@ == with_name(old(self)@, name@),
            slot < final(self)@.len(),
            final(self)@[slot as int] == name@,
    {
        let n = self.names.len();
        let mut i: usize = 0;
        while i < n
            invariant
                n == self.names.len(),
                self@ == old(self)@,
                self.wf(),
                0 <= i <= n,
                forall|k: int| 0 <= k < i ==> self@[k] != name@,
            decreases n - i,
        {
            if self.names[i] == *name {
                assert(self@.contains(name@)) by {
                    assert(self@[i as int] == name@);
                }
                return i as u64;
            }
            i += 1;
        }
        assert(!self@.contains(name@)) by {
            if self@.contains(name@) {
                let k = choose|k: int| 0 <= k < self@.len() && self@[k] == name@;
                assert(self@[k] != name@);
            }
        }
        self.names.push(name.clone());
        assert(self@ =~= with_name(old(self)@, name@));
        n as u64
    }

    /// The names, ordered by slot.
    pub fn to_positions(&self) -> (r: Vec<String>)
        ensures
            names_of(r@) == self@,
    {
        let mut r: Vec<String> = Vec::new();
        let mut i: usize = 0;
        while i < self.names.len()
            invariant
                0 <= i <= self.names.len(),
                r@.len() == i,
                names_of(r@) == self@.take(i as int),
            decreases self.names.len() - i,
        {
            let ghost before = r@;
            r.push(self.names[i].clone());
            assert(r@ == before.push(self.names@[i as int]));
            assert(names_of(r@) =~= self@.take(i as int + 1));
            i += 1;
        }
        assert(self@.take(i as int) =~= self@);
        r
    }
}

/// One instruction of a lowered function. Each instruction defines one value,
/// numbered by its position; operands name earlier values.
#[derive(Debug, Clone, Copy, PartialEq, Eq, Structural)]
pub enum Instr {
    /// The constant with this `f64` bit pattern.
    Const(u64),
    /// The argument in this slot of the input buffer.
    Load(u64),
    /// The operator applied to two earlier values.
    Binary(BinOp, u64, u64),
}

/// Every load reads one of `n_slots` slots and every operand names an earlier value.
pub open spec fn code_wf(code: Seq<Instr>, n_slots: nat) -> bool {
    forall|i: int|
        0 <= i < code.len() ==> match #[trigger] code[i] {
            Instr::Const(_) => true,
            Instr::Load(s) => s < n_slots,
            Instr::Binary(_, l, r) => l < i && r < i,
        }
}

/// The expression that value `i` of `code` computes, reading slot `s` as the
/// identifier `names[s]`.
pub open spec fn reg_term(code: Seq<Instr>, names: Seq<Seq<char>>, i: int) -> Term
    decreases i,
{
    if 0 <= i < code.len() {
        match code[i] {
            Instr::Const(bits) => Term::Num(bits),
            Instr::Load(s) => Term::Var(names[s as int]),
            Instr::Binary(op, l, r) => if l < i && r < i {
                Term::Bin(
                    Box::new(reg_term(code, names, l as int)),
                    op,
                    Box::new(reg_term(code, names, r as int)),
                )
            } else {
                Term::Num(0)
            },
        }
    } else {
        Term::Num(0)
    }
}

/// The number of nodes of a term.
pub open spec fn size(t: Term) -> nat
    decreases t,
{
    match t {
        Term::Bin(l, _, r) => 1 + size(*l) + size(*r),
        _ => 1,
    }
}

/// The slot table after a left-to-right walk of `t`, starting from `seen`.
pub open spec fn collect(t: Term, seen: Seq<Seq<char>>) -> Seq<Seq<char>>
    decreases t,
{
    match t {
        Term::Bin(l, _, r) => collect(*r, collect(*l, seen)),
        Term::Num(_) => seen,
        Term::Var(n) => with_name(seen, n),
    }
}

/// The identifiers of `t`, in order of first occurrence.
pub open spec fn identifier_order(t: Term) -> Seq<Seq<char>> {
    collect(t, Seq::empty())
}

/// Extending the code and the slot table leaves earlier values as they were.
proof fn lemma_reg_term_extend(
    c1: Seq<Instr>,
    c2: Seq<Instr>,
    n1: Seq<Seq<char>>,
    n2: Seq<Seq<char>>,
    i: int,
)
    requires
        code_wf(c1, n1.len()),
        c1.len() <= c2.len(),
        c2.take(c1.len() as int) == c1,
        n1.len() <= n2.len(),
        n2.take(n1.len() as int) == n1,
        0 <= i < c1.len(),
    ensures
        reg_term(c2, n2, i) == reg_term(c1, n1, i),
    decreases i,
{
    assert(c2[i] == c1[i]) by {
        assert(c2.take(c1.len() as int)[i] == c2[i]);
    }
    match c1[i] {
        Instr::Const(_) => {},
        Instr::Load(s) => {
            assert(n2.take(n1.len() as int)[s as int] == n2[s as int]);
        },
        Instr::Binary(_, l, r) => {
            lemma_reg_term_extend(c1, c2, n1, n2, l as int);
            lemma_reg_term_extend(c1, c2, n1, n2, r as int);
        },
    }
}

/// A walk only appends to the table, at most one name per node.
pub(crate) proof fn lemma_collect_grows(t: Term, seen: Seq<Seq<char>>)
    ensures
        seen.len() <= collect(t, seen).len() <= seen.len() + size(t),
        collect(t, seen).take(seen.len() as int) == seen,
    decreases t,
{
    match t {
        Term::Bin(l, _, r) => {
            lemma_collect_grows(*l, seen);
            lemma_collect_grows(*r, collect(*l, seen));
            let a = collect(*l, seen);
            let b = collect(*r, a);
            assert(b.take(seen.len() as int) =~= a.take(seen.len() as int)) by {
                assert forall|k: int| 0 <= k < seen.len() implies b[k] == a[k] by {
                    assert(b.take(a.len() as int)[k] == b[k]);
                }
            }
        },
        Term::Num(_) => {
            assert(seen.take(seen.len() as int) =~= seen);
        },
        Term::Var(n) => {
            assert(with_name(seen, n).take(seen.len() as int) =~= seen);
        },
    }
}

/// The code emitted so far for one function.
pub struct FunctionBuilder {
    code: Vec<Instr>,
}

impl FunctionBuilder {
    pub closed spec fn code(&self) -> Seq<Instr> {
        self.code@
    }

    pub fn new() -> (r: Self)
        ensures
            r.code() == Seq::<Instr>::empty(),
    {
        FunctionBuilder { code: Vec::new() }
    }

    fn emit(&mut self, instr: Instr) -> (reg: u64)
        ensures
            final(self).code() == old(self).code().push(instr),
            reg == old(self).code().len(),
    {
        let reg = self.code.len() as u64;
        self.code.push(instr);
        reg
    }

    /// Emits the code of `expr` after what is there, giving identifiers their
    /// slots in `slot_data`; returns the value that holds the result.
    pub fn build_expression(&mut self, expr: &Expr, slot_data: &mut SlotData) -> (reg: u64)
        requires
            old(slot_data).wf(),
            code_wf(old(self).code(), old(slot_data)@.len()),
            old(slot_data)@.len() <= old(self).code().len(),
        ensures
            final(slot_data).wf(),
            final(slot_data)@ == collect(expr@, old(slot_data)@),
            final(slot_data)@.len() <= final(self).code().len(),
            code_wf(final(self).code(), final(slot_data)@.len()),
            final(self).code().len() == old(self).code().len() + size(expr@),
            final(self).code().take(old(self).code().len() as int) == old(self).code(),
            reg + 1 == final(self).code().len(),
            reg_term(final(self).code(), final(slot_data)@, reg as int) == expr@,
        decreases size(expr@), 1nat,
    {
        match expr {
            Expr::Binary(left, op, right) => self.build_binary_op(left, *op, right, slot_data),
            Expr::Number(num) => self.build_number(*num),
            Expr::Identifier(name) => self.build_identifier(name, slot_data),
        }
    }

    fn build_number(&mut self, num: u64) -> (reg: u64)
        ensures
            final(self).code() == old(self).code().push(Instr::Const(num)),
            reg == old(self).code().len(),
    {
        self.emit(Instr::Const(num))
    }

    fn build_identifier(&mut self, name: &String, slot_data: &mut SlotData) -> (reg: u64)
        requires
            old(slot_data).wf(),
            old(slot_data)@.len() <= old(self).code().len(),
        ensures
            final(slot_data).wf(),
            final(slot_data)@ == with_name(old(slot_data)@, name@),
            reg == old(self).code().len(),
            final(self).code() == old(self).code().push(final(self).code()[reg as int]),
            match final(self).code()[reg as int] {
                Instr::Load(s) => s < final(slot_data)@.len() && final(slot_data)@[s as int]
                    == name@,
                _ => false,
            },
    {
        let slot = slot_data.get(name);
        let reg = self.emit(Instr::Load(slot));
        assert(final(self).code() == old(self).code().push(Instr::Load(slot)));
        reg
    }

    fn build_binary_op(
        &mut self,
        left: &Expr,
        op: BinOp,
        right: &Expr,
        slot_data: &mut SlotData,
    ) -> (reg: u64)
        requires
            old(slot_data).wf(),
            code_wf(old(self).code(), old(slot_data)@.len()),
            old(slot_data)@.len() <= old(self).code().len(),
        ensures
            final(slot_data).wf(),
            final(slot_data)@ == collect(right@, collect(left@, old(slot_data)@)),
            final(slot_data)@.len() <= final(self).code().len(),
            code_wf(final(self).code(), final(slot_data)@.len()),
            final(self).code().len() == old(self).code().len() + size(left@) + size(right@) + 1,
            final(self).code().take(old(self).code().len() as int) == old(self).code(),
            reg + 1 == final(self).code().len(),
            reg_term(final(self).code(), final(slot_data)@, reg as int) == Term::Bin(
                Box::new(left@),
                op,
                Box::new(right@),
            ),
        decreases size(left@) + size(right@) + 1, 0nat,
    {
        let ghost c0 = self.code();
        let lhs = self.build_expression(left, slot_data);
        let ghost c1 = self.code();
        let ghost n1 = slot_data@;
        let rhs = self.build_expression(right, slot_data);
        let ghost c2 = self.code();
        let ghost n2 = slot_data@;
        proof {
            lemma_collect_grows(right@, n1);
        }
        let reg = self.emit(Instr::Binary(op, lhs, rhs));
        let ghost c3 = self.code();
        proof {
            assert(c3.take(c2.len() as int) =~= c2);
            assert(n2.take(n2.len() as int) =~= n2);
            assert(code_wf(c3, n2.len())) by {
                assert forall|i: int| 0 <= i < c3.len() implies match #[trigger] c3[i] {
                    Instr::Const(_) => true,
                    Instr::Load(s) => s < n2.len(),
                    Instr::Binary(_, l, r) => l < i && r < i,
                } by {
                    if i < c2.len() {
                        assert(c3[i] == c2[i]);
                    }
                }
            }
            assert(code_wf(c1, n1.len()));
            assert(c3.take(c1.len() as int) =~= c1) by {
                assert(c2.take(c1.len() as int) == c1);
                assert forall|k: int| 0 <= k < c1.len() implies c3[k] == c1[k] by {
                    assert(c3[k] == c2[k]);
                    assert(c2.take(c1.len() as int)[k] == c2[k]);
                }
            }
            lemma_reg_term_extend(c1, c3, n1, n2, lhs as int);
            lemma_reg_term_extend(c2, c3, n2, n2, rhs as int);
            assert(c3.take(c0.len() as int) =~= c0) by {
                assert forall|k: int| 0 <= k < c0.len() implies c3[k] == c0[k] by {
                    assert(c3.take(c1.len() as int)[k] == c3[k]);
                    assert(c1.take(c0.len() as int)[k] == c1[k]);
                }
            }
        }
        reg
    }
}

/// The first of `names` that `env` does not bind.
pub open spec fn first_missing(names: Seq<Seq<char>>, env: Map<Seq<char>, u64>) -> Option<
    Seq<char>,
>
    decreases names.len(),
{
    if names.len() == 0 {
        None
    } else if !env.contains_key(names[0]) {
        Some(names[0])
    } else {
        first_missing(names.drop_first(), env)
    }
}

/// The arithmetic that a closure performs, where it is a function.
pub open spec fn arith_of<F: Fn(BinOp, u64, u64) -> u64>(apply: F) -> spec_fn(BinOp, u64, u64) -> u64 {
    |op: BinOp, a: u64, b: u64| choose|r: u64| apply.ensures((op, a, b), r)
}

/// `apply` can be called on any operands and gives one result for each.
pub open spec fn is_arith<F: Fn(BinOp, u64, u64) -> u64>(apply: F) -> bool {
    &&& forall|op: BinOp, a: u64, b: u64| apply.requires((op, a, b))
    &&& forall|op: BinOp, a: u64, b: u64, r1: u64, r2: u64|
        apply.ensures((op, a, b), r1) && apply.ensures((op, a, b), r2) ==> r1 == r2
}

/// Value `i` of `code`, run on the input buffer `args` with arithmetic `g`.
pub open spec fn run_code(
    code: Seq<Instr>,
    args: Seq<u64>,
    g: spec_fn(BinOp, u64, u64) -> u64,
    i: int,
) -> u64
    decreases i,
{
    if 0 <= i < code.len() {
        match code[i] {
            Instr::Const(bits) => bits,
            Instr::Load(s) => args[s as int],
            Instr::Binary(op, l, r) => if l < i && r < i {
                g(op, run_code(code, args, g, l as int), run_code(code, args, g, r as int))
            } else {
                0
            },
        }
    } else {
        0
    }
}

/// The input buffer for slots `names`: the value that `env` binds to each.
pub open spec fn slot_args(names: Seq<Seq<char>>, env: Map<Seq<char>, u64>) -> Seq<u64> {
    names.map_values(|n: Seq<char>| env[n])
}

/// A call found no value for this identifier.
#[derive(Debug, PartialEq, Eq)]
pub enum Error {
    MissingIdentifier(String),
}

/// A lowered expression: its code, whose last value is the result, and the
/// names of its input slots in slot order.
pub struct CompiledFunction {
    code: Vec<Instr>,
    slot_positions: Vec<String>,
}

impl CompiledFunction {
    pub closed spec fn code(&self) -> Seq<Instr> {
        self.code@
    }

    pub closed spec fn slots(&self) -> Seq<Seq<char>> {
        names_of(self.slot_positions@)
    }

    /// The code and slots are those that lowering `t` gives.
    pub open spec fn lowers(&self, t: Term) -> bool {
        &&& self.slots() == identifier_order(t)
        &&& all_distinct(self.slots())
        &&& code_wf(self.code(), self.slots().len())
        &&& self.code().len() == size(t)
        &&& reg_term(self.code(), self.slots(), self.code().len() - 1) == t
    }

    /// The instructions, in order; the last one defines the result.
    pub fn instructions(&self) -> (r: &Vec<Instr>)
        ensures
            r@ == self.code(),
    {
        &self.code
    }

    /// The names of the input slots, ordered by slot.
    pub fn slot_positions(&self) -> (r: &Vec<String>)
        ensures
            names_of(r@) == self.slots(),
    {
        &self.slot_positions
    }

    /// The input buffer for a call: the value of each slot's name, in slot
    /// order; or the first slot name that `values` does not bind.
    pub fn arguments(&self, values: &Bindings) -> (r: Result<Vec<u64>, Error>)
        requires
            values.wf(),
        ensures
            r is Ok <==> first_missing(self.slots(), values@) is None,
            r matches Ok(args) ==> args@ == slot_args(self.slots(), values@),
            r matches Err(Error::MissingIdentifier(n)) ==> first_missing(self.slots(), values@)
                == Some(n@),
    {
        let mut args: Vec<u64> = Vec::new();
        let mut i: usize = 0;
        assert(self.slots().skip(0) =~= self.slots());
        while i < self.slot_positions.len()
            invariant
                values.wf(),
                0 <= i <= self.slot_positions.len(),
                args@.len() == i,
                first_missing(self.slots(), values@) == first_missing(
                    self.slots().skip(i as int),
                    values@,
                ),
                forall|k: int|
                    0 <= k < i ==> values@.contains_key(self.slots()[k]) && args@[k]
                        == values@[#[trigger] self.slots()[k]],
            decreases self.slot_positions.len() - i,
        {
            let ghost rest = self.slots().skip(i as int);
            assert(rest[0] == self.slot_positions@[i as int]@);
            assert(rest.drop_first() =~= self.slots().skip(i as int + 1));
            match values.get(&self.slot_positions[i]) {
                Some(v) => {
                    args.push(v);
                },
                None => {
                    return Err(Error::MissingIdentifier(self.slot_positions[i].clone()));
                },
            }
            i += 1;
        }
        assert(self.slots().skip(i as int).len() == 0);
        assert(args@ =~= slot_args(self.slots(), values@));
        Ok(args)
    }

    /// Runs the code on the values of its slots, with `apply` doing the
    /// arithmetic.
    pub fn run<F: Fn(BinOp, u64, u64) -> u64>(&self, values: &Bindings, apply: &F) -> (r: Result<
        u64,
        Error,
    >)
        requires
            values.wf(),
            is_arith(*apply),
            self.code().len() > 0,
            code_wf(self.code(), self.slots().len()),
        ensures
            r is Ok <==> first_missing(self.slots(), values@) is None,
            r matches Err(Error::MissingIdentifier(n)) ==> first_missing(self.slots(), values@)
                == Some(n@),
            r matches Ok(v) ==> v == run_code(
                self.code(),
                slot_args(self.slots(), values@),
                arith_of(*apply),
                self.code().len() - 1,
            ),
    {
        let args = match self.arguments(values) {
            Ok(a) => a,
            Err(e) => {
                return Err(e);
            },
        };
        let ghost g = arith_of(*apply);
        let mut regs: Vec<u64> = Vec::new();
        let mut i: usize = 0;
        while i < self.code.len()
            invariant
                is_arith(*apply),
                g == arith_of(*apply),
                code_wf(self.code(), self.slots().len()),
                args@.len() == self.slots().len(),
                0 <= i <= self.code.len(),
                regs@.len() == i,
                forall|k: int| 0 <= k < i ==> regs@[k] == run_code(self.code(), args@, g, k),
            decreases self.code.len() - i,
        {
            assert(match #[trigger] self.code()[i as int] {
                Instr::Const(_) => true,
                Instr::Load(s) => s < self.slots().len(),
                Instr::Binary(_, l, r) => l < i && r < i,
            });
            let v = match self.code[i] {
                Instr::Const(bits) => bits,
                Instr::Load(s) => args[s as usize],
                Instr::Binary(op, l, r) => {
                    let a = regs[l as usize];
                    let b = regs[r as usize];
                    let v = apply(op, a, b);
                    assert(g(op, a, b) == v);
                    v
                },
            };
            regs.push(v);
            i += 1;
        }
        Ok(regs[self.code.len() - 1])
    }
}

/// Lowers `expr` into a function of its identifiers' values.
pub fn prepare_function(expr: &Expr) -> (r: CompiledFunction)
    ensures
        r.lowers(expr@),
{
    let mut builder = FunctionBuilder::new();
    let mut slot_data = SlotData::new();
    let reg = builder.build_expression(expr, &mut slot_data);
    let slot_positions = slot_data.to_positions();
    proof {
        assert(builder.code().take(0) =~= Seq::<Instr>::empty());
    }
    CompiledFunction { code: builder.code, slot_positions }
}

} // verus!
