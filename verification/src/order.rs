//! The integer key types used in ordered collections follow the ordering
//! laws that the collection specifications rely on.
use vstd::prelude::*;

use std::collections::BTreeSet;
use vstd::std_specs::cmp::OrdSpec;
use vstd::std_specs::iter::IteratorSpec;

verus! {

/// Byte keys are totally ordered as integers.
pub open spec fn byte_keys_ordered() -> bool {
    vstd::laws_cmp::obeys_cmp::<u8>()
}

/// Index keys are totally ordered as integers.
pub open spec fn index_keys_ordered() -> bool {
    vstd::laws_cmp::obeys_cmp::<usize>()
}

/// Tag keys are totally ordered as integers.
pub open spec fn tag_keys_ordered() -> bool {
    vstd::laws_cmp::obeys_cmp::<u16>()
}

/// All three hold.
pub proof fn lemma_keys_ordered()
    ensures
        byte_keys_ordered(),
        index_keys_ordered(),
        tag_keys_ordered(),
{
}

/// The members of a set of indices, in increasing order.
pub fn sorted_members(set: &BTreeSet<usize>) -> (r: Vec<usize>)
    ensures
        forall|i: int, j: int| 0 <= i < j < r@.len() ==> r@[i] < r@[j],
        forall|b: usize| #[trigger] r@.contains(b) <==> set@.contains(b),
{
    proof {
        lemma_keys_ordered();
        broadcast use vstd::laws_cmp::lemma_ref_obeys_cmp_spec;
    }
    let ghost keys = vstd::std_specs::btree::spec_btree_keys_iter(set).remaining();
    let mut out: Vec<usize> = Vec::new();
    for b in it: set.iter()
        invariant
            it.seq() == keys,
            out@ == keys.take(it.index()).map_values(|x: &usize| *x),
    {
        out.push(*b);
    }
    proof {
        broadcast use vstd::std_specs::btree::group_btree_axioms;
        broadcast use vstd::laws_cmp::lemma_ref_obeys_cmp_spec;
        assert(vstd::laws_cmp::obeys_cmp::<&usize>());
        assert(vstd::std_specs::btree::increasing_seq(keys));
        vstd::std_specs::btree::axiom_increasing_seq_meaning(keys);
        assert(out@ =~= keys.unref());
        assert(keys.unref().to_set() == set@);
        assert forall|i: int, j: int| 0 <= i < j < out@.len() implies out@[i] < out@[j] by {
            assert(OrdSpec::cmp_spec(&keys[i], &keys[j]) is Less);
        }
        assert forall|b: usize| #[trigger] out@.contains(b) <==> set@.contains(b) by {
            assert(out@.to_set().contains(b) <==> out@.contains(b));
        }
    }
    out
}

} // verus!
