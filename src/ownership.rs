use vstd::prelude::*;

verus! {

/// A value with no contents, passed in each of Rust's three ways.
#[derive(Clone, Copy, PartialEq, Eq, Structural)]
pub struct S {}

/// Takes `S` by unique reference and leaves it as it was.
pub fn by_mut(s: &mut S)
    ensures
        *final(s) == *old(s),
{
}

/// Takes `S` by shared reference.
pub fn by_ref(_s: &S) {
}

/// Takes `S` by value and drops it.
pub fn by_val(_s: S) {
}

} // verus!
