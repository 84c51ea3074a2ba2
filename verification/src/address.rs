//! What the library needs of the address type it is instantiated with.
//!
//! The contract instantiates the address type with the Soroban `Address`;
//! tests may use plain integers. The logic only compares and copies
//! addresses, so it asks that `==` be plain equality and that a clone be
//! the same address.

use vstd::prelude::*;

verus! {

/// `==` on `A` is plain equality and a clone of an `A` equals the value cloned.
pub open spec fn plain_address<A: PartialEq + Clone>() -> bool {
    &&& vstd::laws_eq::obeys_concrete_eq::<A>()
    &&& forall|a: A, b: A| #[trigger] vstd::pervasive::strictly_cloned(a, b) ==> a == b
}

/// A copy of an address.
pub fn copy_address<A: PartialEq + Clone>(a: &A) -> (r: A)
    requires
        plain_address::<A>(),
    ensures
        r == *a,
{
    let r = a.clone();
    proof {
        assert(vstd::pervasive::strictly_cloned(*a, r));
    }
    r
}

/// Whether two addresses are the same.
pub fn same_address<A: PartialEq>(a: &A, b: &A) -> (r: bool)
    requires
        vstd::laws_eq::obeys_concrete_eq::<A>(),
    ensures
        r == (*a == *b),
{
    proof {
        reveal(vstd::laws_eq::obeys_concrete_eq);
    }
    *a == *b
}

/// Whether `a` occurs in `list`, by a linear scan.
pub fn list_contains<A: PartialEq>(list: &Vec<A>, a: &A) -> (r: bool)
    requires
        vstd::laws_eq::obeys_concrete_eq::<A>(),
    ensures
        r == list@.contains(*a),
{
    let mut i: usize = 0;
    while i < list.len()
        invariant
            i <= list@.len(),
            vstd::laws_eq::obeys_concrete_eq::<A>(),
            forall|k: int| 0 <= k < i ==> list@[k] != *a,
        decreases list@.len() - i,
    {
        if same_address(&list[i], a) {
            return true;
        }
        i = i + 1;
    }
    false
}

} // verus!
