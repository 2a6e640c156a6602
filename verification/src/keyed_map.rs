//! A string-keyed map that can also enumerate its keys.
//!
//! [`KeyedMap`] pairs a hash map with a list of its keys, so that the keys
//! can be walked in executable code; the list is kept free of repetition and
//! in step with the map's domain.

use vstd::prelude::*;

verus! {

use vstd::hash_map::StringHashMap;

/// A map from string keys to values, with an enumerable key set.
#[verifier::reject_recursive_types(V)]
pub struct KeyedMap<V> {
    map: StringHashMap<V>,
    names: Vec<String>,
}

impl<V> View for KeyedMap<V> {
    type V = Map<Seq<char>, V>;

    closed spec fn view(&self) -> Map<Seq<char>, V> {
        self.map@
    }
}

impl<V> KeyedMap<V> {
    /// The key list mirrors the map's domain, holding each key once.
    pub closed spec fn wf(self) -> bool {
        &&& forall|i: int, j: int|
            0 <= i < j < self.names@.len() ==> self.names@[i]@ != self.names@[j]@
        &&& forall|i: int| 0 <= i < self.names@.len() ==> self.map@.contains_key(#[trigger] self.names@[i]@)
        &&& forall|k: Seq<char>|
            self.map@.contains_key(k) ==> exists|i: int|
                0 <= i < self.names@.len() && self.names@[i]@ == k
    }

    /// Creates an empty map.
    pub fn new() -> (r: Self)
        ensures
            r@ == Map::<Seq<char>, V>::empty(),
            r.wf(),
    {
        KeyedMap { map: StringHashMap::new(), names: Vec::new() }
    }

    /// Looks a key up.
    pub fn get<'a>(&'a self, key: &str) -> (r: Option<&'a V>)
        ensures
            match r {
                Some(v) => self@.contains_key(key@) && *v == self@[key@],
                None => !self@.contains_key(key@),
            },
    {
        self.map.get(key)
    }

    /// Whether the map holds the key.
    pub fn contains_key(&self, key: &str) -> (r: bool)
        ensures
            r == self@.contains_key(key@),
    {
        self.map.contains_key(key)
    }

    /// Inserts or replaces the entry for the key.
    pub fn insert(&mut self, key: &str, value: V)
        requires
            old(self).wf(),
        ensures
            final(self).wf(),
            final(self)@ == old(self)@.insert(key@, value),
    {
        if !self.map.contains_key(key) {
            proof {
                assert forall|i: int| 0 <= i < self.names@.len() implies #[trigger] self.names@[i]@
                    != key@ by {
                    assert(self.map@.contains_key(self.names@[i]@));
                }
            }
            self.names.push(key.to_owned());
        }
        self.map.insert(key.to_owned(), value);
        proof {
            assert forall|k: Seq<char>| self.map@.contains_key(k) implies exists|i: int|
                0 <= i < self.names@.len() && self.names@[i]@ == k by {
                if k == key@ {
                    let last = self.names@.len() - 1;
                    if self.names@[last]@ == key@ {
                    } else {
                        assert(old(self).map@.contains_key(k));
                        let w = choose|w: int|
                            0 <= w < old(self).names@.len() && old(self).names@[w]@ == k;
                        assert(self.names@[w]@ == k);
                    }
                } else {
                    assert(old(self).map@.contains_key(k));
                    let w = choose|w: int|
                        0 <= w < old(self).names@.len() && old(self).names@[w]@ == k;
                    assert(self.names@[w]@ == k);
                }
            }
        }
    }

    /// Removes the entry for the key, if any.
    pub fn remove(&mut self, key: &str)
        requires
            old(self).wf(),
        ensures
            final(self).wf(),
            final(self)@ == old(self)@.remove(key@),
    {
        if self.map.contains_key(key) {
            let owned = key.to_owned();
            let ghost orig = self.names@;
            let n = self.names.len();
            let mut i: usize = 0;
            loop
                invariant
                    self == old(self),
                    self.names@ == orig,
                    old(self).wf(),
                    old(self).map@.contains_key(key@),
                    owned@ == key@,
                    n == orig.len(),
                    i <= orig.len(),
                    forall|j: int| 0 <= j < i ==> orig[j]@ != key@,
                ensures
                    self == old(self),
                    i < orig.len(),
                    orig[i as int]@ == key@,
                decreases orig.len() - i,
            {
                proof {
                    let w = choose|w: int| 0 <= w < orig.len() && orig[w]@ == key@;
                    assert(i <= w);
                    assert(i < orig.len());
                }
                if self.names[i] == owned {
                    break;
                }
                i = i + 1;
            }
            self.names.remove(i);
            self.map.remove(key);
            proof {
                let fin = self.names@;
                assert(forall|p: int| 0 <= p < i ==> fin[p] == orig[p]);
                assert(forall|q: int| i <= q < fin.len() ==> fin[q] == orig[q + 1]);
                assert forall|p: int, q: int| 0 <= p < q < fin.len() implies fin[p]@ != fin[q]@ by {
                    if q < i {
                    } else if p < i {
                        assert(fin[q] == orig[q + 1]);
                    } else {
                        assert(fin[p] == orig[p + 1]);
                        assert(fin[q] == orig[q + 1]);
                    }
                }
                assert forall|p: int| 0 <= p < fin.len() implies self.map@.contains_key(
                    #[trigger] fin[p]@,
                ) by {
                    let q = if p < i {
                        p
                    } else {
                        p + 1
                    };
                    assert(fin[p] == orig[q]);
                    assert(orig[q]@ != key@);
                    assert(old(self).map@.contains_key(orig[q]@));
                }
                assert forall|k: Seq<char>| self.map@.contains_key(k) implies exists|w: int|
                    0 <= w < fin.len() && fin[w]@ == k by {
                    assert(old(self).map@.contains_key(k));
                    assert(k != key@);
                    let w = choose|w: int| 0 <= w < orig.len() && orig[w]@ == k;
                    assert(w != i);
                    if w < i {
                        assert(fin[w]@ == k);
                    } else {
                        assert(fin[w - 1]@ == k);
                    }
                }
            }
        } else {
            proof {
                crate::maps::lemma_remove_absent(self.map@, key@);
            }
        }
    }

    /// Removes every entry.
    pub fn clear(&mut self)
        ensures
            final(self).wf(),
            final(self)@ == Map::<Seq<char>, V>::empty(),
    {
        self.map.clear();
        self.names.clear();
    }

    /// The keys of the map, each once, in no particular order.
    pub fn key_list(&self) -> (r: Vec<String>)
        requires
            self.wf(),
        ensures
            forall|i: int, j: int| 0 <= i < j < r@.len() ==> r@[i]@ != r@[j]@,
            forall|i: int| 0 <= i < r@.len() ==> self@.contains_key(#[trigger] r@[i]@),
            forall|k: Seq<char>|
                self@.contains_key(k) ==> exists|i: int| 0 <= i < r@.len() && r@[i]@ == k,
    {
        let mut out: Vec<String> = Vec::new();
        let mut i: usize = 0;
        while i < self.names.len()
            invariant
                self.wf(),
                i <= self.names@.len(),
                out@.len() == i,
                forall|j: int| 0 <= j < i ==> out@[j] == self.names@[j],
            decreases self.names@.len() - i,
        {
            out.push(self.names[i].clone());
            i = i + 1;
        }
        proof {
            assert forall|k: Seq<char>| self@.contains_key(k) implies exists|w: int|
                0 <= w < out@.len() && out@[w]@ == k by {
                let w = choose|w: int| 0 <= w < self.names@.len() && self.names@[w]@ == k;
                assert(out@[w] == self.names@[w]);
                assert(out@[w]@ == k);
            }
        }
        out
    }
}

} // verus!
