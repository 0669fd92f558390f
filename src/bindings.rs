use vstd::prelude::*;

use crate::jit::{all_distinct, names_of};

verus! {

/// The position of `k` among `keys`, where it occurs.
pub open spec fn key_index(keys: Seq<Seq<char>>, k: Seq<char>) -> int {
    choose|i: int| 0 <= i < keys.len() && keys[i] == k
}

/// Values bound to names; each `f64` value is held as its bit pattern.
pub struct Bindings {
    keys: Vec<String>,
    values: Vec<u64>,
}

impl View for Bindings {
    type V = Map<Seq<char>, u64>;

    closed spec fn view(&self) -> Map<Seq<char>, u64> {
        Map::new(
            |k: Seq<char>| names_of(self.keys@).contains(k),
            |k: Seq<char>| self.values@[key_index(names_of(self.keys@), k)],
        )
    }
}

impl Bindings {
    pub closed spec fn wf(&self) -> bool {
        self.keys.len() == self.values.len() && all_distinct(names_of(self.keys@))
    }

    pub fn new() -> (r: Self)
        ensures
            r.wf(),
            r@ == Map::<Seq<char>, u64>::empty(),
    {
        let r = Bindings { keys: Vec::new(), values: Vec::new() };
        assert(r@ =~= Map::<Seq<char>, u64>::empty());
        r
    }

    /// The position of `name` among the keys, if it is bound.
    fn find(&self, name: &String) -> (r: Option<usize>)
        requires
            self.wf(),
        ensures
            r matches Some(i) ==> i < self.keys.len() && self.keys@[i as int]@ == name@,
            r is None ==> !self@.contains_key(name@),
    {
        let mut i: usize = 0;
        while i < self.keys.len()
            invariant
                0 <= i <= self.keys.len(),
                forall|k: int| 0 <= k < i ==> self.keys@[k]@ != name@,
            decreases self.keys.len() - i,
        {
            if self.keys[i] == *name {
                return Some(i);
            }
            i += 1;
        }
        assert(!names_of(self.keys@).contains(name@)) by {
            if names_of(self.keys@).contains(name@) {
                let k = choose|k: int|
                    0 <= k < self.keys@.len() && names_of(self.keys@)[k] == name@;
                assert(self.keys@[k]@ != name@);
            }
        }
        None
    }

    proof fn lemma_value_at(&self, i: int)
        requires
            self.wf(),
            0 <= i < self.keys.len(),
        ensures
            self@.contains_key(self.keys@[i]@),
            self@[self.keys@[i]@] == self.values@[i],
    {
        let ks = names_of(self.keys@);
        assert(ks[i] == self.keys@[i]@);
        let j = key_index(ks, ks[i]);
        assert(ks[j] == ks[i]);
    }

    /// The value bound to `name`.
    pub fn get(&self, name: &String) -> (r: Option<u64>)
        requires
            self.wf(),
        ensures
            r == (if self@.contains_key(name@) {
                Some(self@[name@])
            } else {
                None
            }),
    {
        match self.find(name) {
            Some(i) => {
                proof {
                    self.lemma_value_at(i as int);
                }
                Some(self.values[i])
            },
            None => None,
        }
    }

    /// Binds `name` to `value`, replacing any earlier value.
    pub fn insert(&mut self, name: String, value: u64)
        requires
            old(self).wf(),
        ensures
            final(self).wf(),
            final(self)@ == old(self)@.insert(name@, value),
    {
        match self.find(&name) {
            Some(i) => {
                self.values.set(i, value);
                proof {
                    assert(names_of(self.keys@)[i as int] == name@);
                    assert(final(self)@.dom() =~= old(self)@.insert(name@, value).dom());
                    assert forall|k: Seq<char>| #[trigger]
                        final(self)@.contains_key(k) implies final(self)@[k] == old(self)@.insert(
                        name@,
                        value,
                    )[k] by {
                        let ks = names_of(self.keys@);
                        let j = key_index(ks, k);
                        assert(ks[j] == k);
                        if k == name@ {
                            assert(ks[i as int] == k);
                        } else {
                            old(self).lemma_value_at(j);
                        }
                    }
                    assert(final(self)@ =~= old(self)@.insert(name@, value));
                }
            },
            None => {
                let ghost ks0 = names_of(self.keys@);
                self.keys.push(name);
                self.values.push(value);
                proof {
                    let ks = names_of(self.keys@);
                    assert(ks =~= ks0.push(name@));
                    assert forall|k: Seq<char>| #[trigger]
                        final(self)@.contains_key(k) implies final(self)@[k] == old(self)@.insert(
                        name@,
                        value,
                    )[k] by {
                        let j = key_index(ks, k);
                        assert(ks[j] == k);
                        if k == name@ {
                            assert(j == ks0.len());
                        } else {
                            assert(j < ks0.len());
                            old(self).lemma_value_at(j);
                        }
                    }
                    assert forall|k: Seq<char>|
                        #![auto]
                        old(self)@.insert(name@, value).contains_key(k) implies ks.contains(k) by {
                        if k != name@ {
                            let j = choose|j: int| 0 <= j < ks0.len() && ks0[j] == k;
                            assert(ks[j] == k);
                        } else {
                            assert(ks[ks0.len() as int] == k);
                        }
                    }
                    assert(final(self)@ =~= old(self)@.insert(name@, value));
                }
            },
        }
    }
}

} // verus!
