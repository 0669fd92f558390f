use vstd::prelude::*;

use crate::ast::{mentions, BinOp, Term};
use crate::interpreter::interpret;
use crate::jit::{
    code_wf, collect, first_missing, identifier_order, lemma_collect_grows, reg_term, run_code, size,
    slot_args,
    CompiledFunction, Instr,
};

verus! {

/// A name is in the table after a walk of `t` exactly when it was there
/// before or `t` mentions it.
proof fn lemma_collect_contains(t: Term, seen: Seq<Seq<char>>, x: Seq<char>)
    ensures
        collect(t, seen).contains(x) <==> seen.contains(x) || mentions(t, x),
    decreases t,
{
    match t {
        Term::Bin(l, _, r) => {
            lemma_collect_contains(*l, seen, x);
            lemma_collect_contains(*r, collect(*l, seen), x);
        },
        Term::Num(_) => {},
        Term::Var(n) => {
            if !seen.contains(n) {
                let s2 = seen.push(n);
                if seen.contains(x) {
                    let k = choose|k: int| 0 <= k < seen.len() && seen[k] == x;
                    assert(s2[k] == x);
                }
                if x == n {
                    assert(s2[seen.len() as int] == x);
                }
                if s2.contains(x) && x != n {
                    let k = choose|k: int| 0 <= k < s2.len() && s2[k] == x;
                    assert(seen[k] == x);
                }
            }
        },
    }
}

/// `first_missing` finds nothing exactly when every name is bound, and what it
/// finds is one of the names, unbound.
proof fn lemma_first_missing(names: Seq<Seq<char>>, env: Map<Seq<char>, u64>)
    ensures
        first_missing(names, env) is None <==> forall|k: int|
            0 <= k < names.len() ==> env.contains_key(#[trigger] names[k]),
        first_missing(names, env) matches Some(n) ==> names.contains(n) && !env.contains_key(n),
    decreases names.len(),
{
    if names.len() > 0 {
        let rest = names.drop_first();
        lemma_first_missing(rest, env);
        if env.contains_key(names[0]) {
            if first_missing(rest, env) is None {
                assert forall|k: int| 0 <= k < names.len() implies env.contains_key(
                    #[trigger] names[k],
                ) by {
                    if k > 0 {
                        assert(names[k] == rest[k - 1]);
                    }
                }
            } else {
                let n = first_missing(rest, env).unwrap();
                let k = choose|k: int| 0 <= k < rest.len() && rest[k] == n;
                assert(names[k + 1] == n);
            }
        } else {
            assert(names[0] == names[0]);
        }
    }
}

/// The first unbound name of `p + q` is that of `p`, or else that of `q`.
proof fn lemma_first_missing_append(
    p: Seq<Seq<char>>,
    q: Seq<Seq<char>>,
    env: Map<Seq<char>, u64>,
)
    ensures
        first_missing(p + q, env) == (if first_missing(p, env) is Some {
            first_missing(p, env)
        } else {
            first_missing(q, env)
        }),
    decreases p.len(),
{
    if p.len() == 0 {
        assert(p + q =~= q);
    } else {
        assert((p + q)[0] == p[0]);
        assert((p + q).drop_first() =~= p.drop_first() + q);
        lemma_first_missing_append(p.drop_first(), q, env);
    }
}

/// Walking `t` after names that are all bound, the first unbound name of the
/// table is the one the interpreter reports.
proof fn lemma_first_missing_collect(
    t: Term,
    seen: Seq<Seq<char>>,
    env: Map<Seq<char>, u64>,
    g: spec_fn(BinOp, u64, u64) -> u64,
)
    requires
        first_missing(seen, env) is None,
    ensures
        first_missing(collect(t, seen), env) == (match interpret(t, env, g) {
            Err(n) => Some(n),
            Ok(_) => None::<Seq<char>>,
        }),
    decreases t,
{
    match t {
        Term::Bin(l, _, r) => {
            let s1 = collect(*l, seen);
            lemma_first_missing_collect(*l, seen, env, g);
            let s2 = collect(*r, s1);
            assert(collect(t, seen) == s2);
            lemma_collect_grows(*r, s1);
            assert(s2 =~= s1 + s2.skip(s1.len() as int)) by {
                assert(s2.take(s1.len() as int) == s1);
            }
            lemma_first_missing_append(s1, s2.skip(s1.len() as int), env);
            assert(first_missing(s2, env) == first_missing(s1 + s2.skip(s1.len() as int), env));
            match interpret(*l, env, g) {
                Err(m) => {
                    assert(first_missing(s2, env) == Some(m));
                    assert(interpret(t, env, g) == Err::<u64, Seq<char>>(m));
                    assert(first_missing(collect(t, seen), env) == Some(m));
                },
                Ok(a) => {
                    lemma_first_missing_collect(*r, s1, env, g);
                    match interpret(*r, env, g) {
                        Err(m) => {
                            assert(interpret(t, env, g) == Err::<u64, Seq<char>>(m));
                            assert(first_missing(collect(t, seen), env) == Some(m));
                        },
                        Ok(b) => {
                            assert(first_missing(s2, env) is None);
                            assert(interpret(t, env, g) == Ok::<u64, Seq<char>>(g(t->Bin_1, a, b)));
                        },
                    }
                },
            }
        },
        Term::Num(_) => {},
        Term::Var(n) => {
            lemma_first_missing(seen, env);
            if !seen.contains(n) {
                assert(seen.push(n) =~= seen + seq![n]);
                lemma_first_missing_append(seen, seq![n], env);
                let one = seq![n];
                assert(one[0] == n);
                assert(one.drop_first() =~= Seq::<Seq<char>>::empty());
                assert(first_missing(one.drop_first(), env) is None);
                assert(first_missing(one, env) == (if env.contains_key(n) {
                    None
                } else {
                    Some(n)
                }));
            } else if !env.contains_key(n) {
                let k = choose|k: int| 0 <= k < seen.len() && seen[k] == n;
                assert(env.contains_key(seen[k]));
            }
        },
    }
}

/// Two environments that agree on every name of `names` miss the same first name.
proof fn lemma_first_missing_agree(
    names: Seq<Seq<char>>,
    env1: Map<Seq<char>, u64>,
    env2: Map<Seq<char>, u64>,
)
    requires
        forall|k: int|
            0 <= k < names.len() ==> (env1.contains_key(#[trigger] names[k])
                <==> env2.contains_key(names[k])),
    ensures
        first_missing(names, env1) == first_missing(names, env2),
    decreases names.len(),
{
    if names.len() > 0 {
        let rest = names.drop_first();
        assert(env1.contains_key(names[0]) <==> env2.contains_key(names[0]));
        assert forall|k: int| 0 <= k < rest.len() implies (env1.contains_key(#[trigger] rest[k])
            <==> env2.contains_key(rest[k])) by {
            assert(rest[k] == names[k + 1]);
        }
        lemma_first_missing_agree(rest, env1, env2);
    }
}

/// Value `i` of well-formed code computes what the interpreter computes for
/// the expression that the value decompiles to.
proof fn lemma_run_matches(
    code: Seq<Instr>,
    names: Seq<Seq<char>>,
    env: Map<Seq<char>, u64>,
    g: spec_fn(BinOp, u64, u64) -> u64,
    i: int,
)
    requires
        code_wf(code, names.len()),
        forall|k: int| 0 <= k < names.len() ==> env.contains_key(#[trigger] names[k]),
        0 <= i < code.len(),
    ensures
        interpret(reg_term(code, names, i), env, g) == Ok::<u64, Seq<char>>(
            run_code(code, slot_args(names, env), g, i),
        ),
    decreases i,
{
    match code[i] {
        Instr::Const(_) => {},
        Instr::Load(s) => {
            assert(env.contains_key(names[s as int]));
        },
        Instr::Binary(_, l, r) => {
            lemma_run_matches(code, names, env, g, l as int);
            lemma_run_matches(code, names, env, g, r as int);
        },
    }
}

/// The interpreter fails exactly when `t` mentions an unbound name, and the
/// name it reports is one of those.
proof fn lemma_interpret_missing(
    t: Term,
    env: Map<Seq<char>, u64>,
    g: spec_fn(BinOp, u64, u64) -> u64,
)
    ensures
        interpret(t, env, g) is Ok <==> forall|n: Seq<char>|
            mentions(t, n) ==> env.contains_key(n),
        interpret(t, env, g) matches Err(n) ==> mentions(t, n) && !env.contains_key(n),
    decreases t,
{
    match t {
        Term::Bin(l, _, r) => {
            lemma_interpret_missing(*l, env, g);
            lemma_interpret_missing(*r, env, g);
            match interpret(*l, env, g) {
                Err(n) => {
                    assert(mentions(t, n));
                },
                Ok(_) => match interpret(*r, env, g) {
                    Err(n) => {
                        assert(mentions(t, n));
                    },
                    Ok(_) => {
                        assert forall|n: Seq<char>| #[trigger]
                            mentions(t, n) implies env.contains_key(n) by {
                            if mentions(*l, n) {
                            } else {
                                assert(mentions(*r, n));
                            }
                        }
                    },
                },
            }
        },
        Term::Num(_) => {},
        Term::Var(m) => {
            assert(mentions(t, m));
        },
    }
}

/// Two environments that agree on every name that `t` mentions give the same
/// interpretation.
proof fn lemma_interpret_agree(
    t: Term,
    env1: Map<Seq<char>, u64>,
    env2: Map<Seq<char>, u64>,
    g: spec_fn(BinOp, u64, u64) -> u64,
)
    requires
        forall|n: Seq<char>|
            mentions(t, n) ==> (env1.contains_key(n) <==> env2.contains_key(n)) && (
            env1.contains_key(n) ==> env1[n] == env2[n]),
    ensures
        interpret(t, env1, g) == interpret(t, env2, g),
    decreases t,
{
    match t {
        Term::Bin(l, _, r) => {
            assert forall|n: Seq<char>| #[trigger] mentions(*l, n) implies (env1.contains_key(n)
                <==> env2.contains_key(n)) && (env1.contains_key(n) ==> env1[n] == env2[n]) by {
                assert(mentions(t, n));
            }
            assert forall|n: Seq<char>| #[trigger] mentions(*r, n) implies (env1.contains_key(n)
                <==> env2.contains_key(n)) && (env1.contains_key(n) ==> env1[n] == env2[n]) by {
                assert(mentions(t, n));
            }
            lemma_interpret_agree(*l, env1, env2, g);
            lemma_interpret_agree(*r, env1, env2, g);
        },
        Term::Num(_) => {},
        Term::Var(m) => {
            assert(mentions(t, m));
        },
    }
}

/// Both strategies agree: where `env` binds every identifier of `t`, a
/// function lowered from `t` finds all its slots bound, and its code, run on
/// the slot buffer, gives exactly the interpreter's value.
pub proof fn lemma_compiled_matches_interpreted(
    t: Term,
    f: CompiledFunction,
    env: Map<Seq<char>, u64>,
    g: spec_fn(BinOp, u64, u64) -> u64,
)
    requires
        f.lowers(t),
        forall|n: Seq<char>| mentions(t, n) ==> env.contains_key(n),
    ensures
        first_missing(f.slots(), env) is None,
        interpret(t, env, g) == Ok::<u64, Seq<char>>(
            run_code(f.code(), slot_args(f.slots(), env), g, f.code().len() - 1),
        ),
{
    assert forall|k: int| 0 <= k < f.slots().len() implies env.contains_key(
        #[trigger] f.slots()[k],
    ) by {
        lemma_collect_contains(t, Seq::empty(), f.slots()[k]);
        assert(f.slots().contains(f.slots()[k]));
    }
    lemma_first_missing(f.slots(), env);
    assert(size(t) > 0) by {
        lemma_size_positive(t);
    }
    lemma_run_matches(f.code(), f.slots(), env, g, f.code().len() - 1);
}

proof fn lemma_size_positive(t: Term)
    ensures
        size(t) > 0,
{
}

/// Lowering is deterministic in its slots: two functions lowered from the
/// same expression give every name the same slot.
pub proof fn lemma_slot_stability(t: Term, f1: CompiledFunction, f2: CompiledFunction)
    requires
        f1.lowers(t),
        f2.lowers(t),
    ensures
        f1.slots() == f2.slots(),
        f1.slots() == identifier_order(t),
{
}

/// Where `env` leaves out an identifier that `t` mentions, both strategies
/// fail and name the same identifier: the first of `t`, left to right, that
/// `env` does not bind.
pub proof fn lemma_missing_identifier(
    t: Term,
    f: CompiledFunction,
    env: Map<Seq<char>, u64>,
    g: spec_fn(BinOp, u64, u64) -> u64,
    n: Seq<char>,
)
    requires
        f.lowers(t),
        mentions(t, n),
        !env.contains_key(n),
    ensures
        interpret(t, env, g) matches Err(m) && mentions(t, m) && !env.contains_key(m)
            && first_missing(f.slots(), env) == Some(m),
{
    lemma_first_missing_collect(t, Seq::empty(), env, g);
    lemma_interpret_missing(t, env, g);
    lemma_collect_contains(t, Seq::empty(), n);
    let k = choose|k: int| 0 <= k < f.slots().len() && f.slots()[k] == n;
    lemma_first_missing(f.slots(), env);
    let m = first_missing(f.slots(), env).unwrap();
    lemma_collect_contains(t, Seq::empty(), m);
}

/// Bindings of names that `t` does not mention change nothing: with `env2`
/// holding `env1` and more, both strategies give the same outcome under each.
pub proof fn lemma_unused_bindings(
    t: Term,
    f: CompiledFunction,
    env1: Map<Seq<char>, u64>,
    env2: Map<Seq<char>, u64>,
    g: spec_fn(BinOp, u64, u64) -> u64,
)
    requires
        f.lowers(t),
        forall|n: Seq<char>| env1.contains_key(n) ==> env2.contains_key(n) && env2[n] == env1[n],
        forall|n: Seq<char>| env2.contains_key(n) && !env1.contains_key(n) ==> !mentions(t, n),
    ensures
        interpret(t, env1, g) == interpret(t, env2, g),
        first_missing(f.slots(), env1) == first_missing(f.slots(), env2),
        slot_args(f.slots(), env1) == slot_args(f.slots(), env2) || first_missing(
            f.slots(),
            env1,
        ) is Some,
{
    assert forall|n: Seq<char>| #[trigger] mentions(t, n) implies (env1.contains_key(n)
        <==> env2.contains_key(n)) && (env1.contains_key(n) ==> env1[n] == env2[n]) by {
        if env2.contains_key(n) && !env1.contains_key(n) {
            assert(!mentions(t, n));
        }
    }
    lemma_interpret_agree(t, env1, env2, g);
    assert forall|k: int| 0 <= k < f.slots().len() implies (env1.contains_key(
        #[trigger] f.slots()[k],
    ) <==> env2.contains_key(f.slots()[k])) by {
        let x = f.slots()[k];
        lemma_collect_contains(t, Seq::empty(), x);
        assert(f.slots().contains(x));
        assert(!Seq::<Seq<char>>::empty().contains(x));
        assert(mentions(t, x));
    }
    lemma_first_missing_agree(f.slots(), env1, env2);
    lemma_first_missing(f.slots(), env1);
    if first_missing(f.slots(), env1) is None {
        assert(slot_args(f.slots(), env1) =~= slot_args(f.slots(), env2));
    }
}

} // verus!
