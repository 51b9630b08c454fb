//! Sets of `u64` keys kept by `BTreeSet`, and their listing in increasing order.

use vstd::prelude::*;
use std::collections::BTreeSet;
use vstd::std_specs::iter::IteratorSpec;
use vstd::std_specs::cmp::OrdSpec;

verus! {

broadcast use {vstd::std_specs::btree::group_btree_axioms, vstd::laws_cmp::group_laws_cmp};

/// Each element is smaller than every later one.
pub open spec fn strictly_increasing(q: Seq<u64>) -> bool {
    forall|i: int, j: int| 0 <= i < j < q.len() ==> q[i] < q[j]
}

/// The elements of `s`, smallest first.
pub fn keys_in_order(s: &BTreeSet<u64>) -> (v: Vec<u64>)
    ensures
        strictly_increasing(v@),
        v@.to_set() == s@,
{
    let ghost r = vstd::std_specs::btree::spec_btree_keys_iter(s).remaining();
    let ghost q: Seq<u64> = r.unref();
    proof {
        assert(vstd::laws_cmp::obeys_cmp::<u64>());
        assert(vstd::laws_cmp::obeys_cmp::<&u64>());
        assert(vstd::std_specs::btree::increasing_seq(r));
        assert forall|i: int, j: int| 0 <= i < j < q.len() implies q[i] < q[j] by {
            assert(OrdSpec::cmp_spec(&r[i], &r[j]) is Less);
        }
    }
    let mut v: Vec<u64> = Vec::new();
    for k in it: s.iter()
        invariant
            it.seq() == r,
            q == r.unref(),
            v.len() == it.index(),
            forall|i: int| 0 <= i < it.index() ==> v@[i] == q[i],
    {
        v.push(*k);
    }
    assert(v@ =~= q);
    v
}

} // verus!
