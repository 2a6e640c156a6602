//! Small lemmas about maps whose values are viewed through a function, and
//! about removal of absent keys.

use vstd::prelude::*;

verus! {

/// Mapping the values commutes with inserting an entry.
pub proof fn lemma_map_values_insert<K, V, W>(m: Map<K, V>, f: spec_fn(V) -> W, k: K, v: V)
    ensures
        m.insert(k, v).map_values(f) == m.map_values(f).insert(k, f(v)),
{
    assert(m.insert(k, v).map_values(f) =~= m.map_values(f).insert(k, f(v)));
}

/// Mapping the values commutes with removing an entry.
pub proof fn lemma_map_values_remove<K, V, W>(m: Map<K, V>, f: spec_fn(V) -> W, k: K)
    ensures
        m.remove(k).map_values(f) == m.map_values(f).remove(k),
{
    assert(m.remove(k).map_values(f) =~= m.map_values(f).remove(k));
}

/// Mapping the values of the empty map gives the empty map.
pub proof fn lemma_map_values_empty<K, V, W>(f: spec_fn(V) -> W)
    ensures
        Map::<K, V>::empty().map_values(f) == Map::<K, W>::empty(),
{
    assert(Map::<K, V>::empty().map_values(f) =~= Map::<K, W>::empty());
}

/// Removing a key that the map does not hold leaves the map as it is.
pub proof fn lemma_remove_absent<K, V>(m: Map<K, V>, k: K)
    requires
        !m.contains_key(k),
    ensures
        m.remove(k) == m,
{
    assert(m.remove(k) =~= m);
}

} // verus!
