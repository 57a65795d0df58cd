//! Walking the keys of a hash map.
use std::collections::HashMap;
use vstd::prelude::*;

verus! {

/// Whether `keys` names every key of a map, each once.
pub open spec fn enumerates<V>(keys: Seq<u128>, m: Map<u128, V>) -> bool {
    &&& keys.no_duplicates()
    &&& forall|k: u128| keys.contains(k) <==> m.contains_key(k)
}

/// The keys of a map, each once, in no particular order.
pub fn keys_of<V>(m: &HashMap<u128, V>) -> (keys: Vec<u128>)
    ensures
        enumerates(keys@, m@),
        keys@.len() == m@.dom().len(),
{
    broadcast use vstd::std_specs::hash::group_hash_axioms;
    broadcast use vstd::std_specs::hash::axiom_spec_keys_iter;

    let mut keys: Vec<u128> = Vec::new();
    let ghost all = vstd::std_specs::iter::IteratorSpec::remaining(&vstd::std_specs::hash::spec_keys_iter(m)).unref();
    assert(all.no_duplicates()) by {
        assert forall|i: int, j: int| 0 <= i < all.len() && 0 <= j < all.len() && i != j implies all[i]
            != all[j] by {
            let refs = vstd::std_specs::iter::IteratorSpec::remaining(&vstd::std_specs::hash::spec_keys_iter(m));
            assert(refs[i] != refs[j]);
        }
    }
    for k in it: m.keys()
        invariant
            it.seq().unref() == all,
            keys@ == all.take(it.index() as int),
    {
        let ghost i = it.index() as int;
        keys.push(*k);
        assert(all.take(i + 1) =~= all.take(i).push(*k));
    }
    assert(all.take(all.len() as int) =~= all);
    assert forall|k: u128| keys@.contains(k) <==> m@.contains_key(k) by {
        assert(all.to_set().contains(k) <==> m@.dom().contains(k));
    }
    keys
}

} // verus!
