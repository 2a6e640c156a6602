//! The structured in-process store.
//!
//! [`NoSQLClient`] holds two value shapes under one string key namespace:
//! scalar strings and ordered lists of strings. The two maps are
//! independent, so a key may hold both shapes at once; deletion removes the
//! key from both, and [`NoSQLClient::keys`] reports the deduplicated,
//! sorted union of the two key sets.

use vstd::prelude::*;

verus! {

use crate::keyed_map::KeyedMap;
use crate::maps::{lemma_map_values_empty, lemma_map_values_insert, lemma_map_values_remove};
use crate::order::{insert_sorted, key_present, keys_sorted, lemma_sorted_distinct};

/// What a scalar read of `k` observes in a scalar map `m`.
pub open spec fn scalar_lookup(m: Map<Seq<char>, Seq<char>>, k: Seq<char>) -> Option<Seq<char>> {
    if m.contains_key(k) {
        Some(m[k])
    } else {
        None
    }
}

/// The scalar map after a batch of upserts, applied left to right, so that
/// a later pair under the same key wins.
pub open spec fn mset_fold(
    m: Map<Seq<char>, Seq<char>>,
    pairs: Seq<(Seq<char>, Seq<char>)>,
) -> Map<Seq<char>, Seq<char>>
    decreases pairs.len(),
{
    if pairs.len() == 0 {
        m
    } else {
        mset_fold(m, pairs.drop_last()).insert(pairs.last().0, pairs.last().1)
    }
}

/// The views of a sequence of key/value pairs.
pub open spec fn pairs_view(pairs: Seq<(String, String)>) -> Seq<(Seq<char>, Seq<char>)> {
    Seq::new(pairs.len(), |i: int| (pairs[i].0@, pairs[i].1@))
}

/// Copies a vector of strings element by element.
pub fn clone_string_vec(v: &Vec<String>) -> (r: Vec<String>)
    ensures
        r@ == v@,
{
    let mut out: Vec<String> = Vec::new();
    let mut j: usize = 0;
    while j < v.len()
        invariant
            j <= v@.len(),
            out@.len() == j,
            forall|p: int| 0 <= p < j ==> out@[p] == v@[p],
        decreases v@.len() - j,
    {
        out.push(v[j].clone());
        j = j + 1;
    }
    proof {
        assert(out@ =~= v@);
    }
    out
}

/// A batch of upserts leaves a key alone that none of its pairs writes.
pub proof fn lemma_mset_fold_untouched(
    m: Map<Seq<char>, Seq<char>>,
    pairs: Seq<(Seq<char>, Seq<char>)>,
    k: Seq<char>,
)
    requires
        forall|i: int| 0 <= i < pairs.len() ==> (#[trigger] pairs[i]).0 != k,
    ensures
        mset_fold(m, pairs).contains_key(k) == m.contains_key(k),
        m.contains_key(k) ==> mset_fold(m, pairs)[k] == m[k],
    decreases pairs.len(),
{
    if pairs.len() > 0 {
        lemma_mset_fold_untouched(m, pairs.drop_last(), k);
        assert(pairs.last() == pairs[pairs.len() - 1]);
    }
}

/// An in-process store of scalar strings and ordered string lists, sharing
/// one key namespace.
pub struct NoSQLClient {
    connection: String,
    data: KeyedMap<String>,
    list_data: KeyedMap<Vec<String>>,
}

impl NoSQLClient {
    /// Both key lists are intact.
    pub closed spec fn wf(self) -> bool {
        self.data.wf() && self.list_data.wf()
    }

    /// The scalar entries, values abstracted to character sequences.
    pub closed spec fn scalars(self) -> Map<Seq<char>, Seq<char>> {
        self.data@.map_values(|v: String| v@)
    }

    /// The list entries, values abstracted to sequences of character
    /// sequences.
    pub closed spec fn list_view(self) -> Map<Seq<char>, Seq<Seq<char>>> {
        self.list_data@.map_values(|v: Vec<String>| v.deep_view())
    }

    /// The connection string the client was created with.
    pub closed spec fn connection_view(self) -> Seq<char> {
        self.connection@
    }

    /// Creates an empty store.
    pub fn new(connection: &str) -> (r: Self)
        ensures
            r.wf(),
            r.scalars() == Map::<Seq<char>, Seq<char>>::empty(),
            r.list_view() == Map::<Seq<char>, Seq<Seq<char>>>::empty(),
            r.connection_view() == connection@,
    {
        let r = NoSQLClient {
            connection: connection.to_owned(),
            data: KeyedMap::new(),
            list_data: KeyedMap::new(),
        };
        proof {
            lemma_map_values_empty::<Seq<char>, String, Seq<char>>(|v: String| v@);
            lemma_map_values_empty::<Seq<char>, Vec<String>, Seq<Seq<char>>>(
                |v: Vec<String>| v.deep_view(),
            );
        }
        r
    }

    /// Upserts a scalar value; never fails.
    pub fn set(&mut self, key: &str, value: &str) -> (r: Result<(), String>)
        requires
            old(self).wf(),
        ensures
            final(self).wf(),
            r is Ok,
            final(self).scalars() == old(self).scalars().insert(key@, value@),
            final(self).list_view() == old(self).list_view(),
            final(self).connection_view() == old(self).connection_view(),
    {
        let owned = value.to_owned();
        self.data.insert(key, owned);
        proof {
            lemma_map_values_insert(old(self).data@, |v: String| v@, key@, owned);
        }
        Ok(())
    }

    /// Reads the scalar value under `key`, if any: absent if never set or
    /// previously deleted.
    pub fn get(&self, key: &str) -> (r: Option<String>)
        ensures
            match r {
                Some(v) => scalar_lookup(self.scalars(), key@) == Some(v@),
                None => scalar_lookup(self.scalars(), key@) is None,
            },
    {
        match self.data.get(key) {
            Some(v) => Some(v.clone()),
            None => None,
        }
    }

    /// Removes `key` from both the scalar and the list map; succeeds also
    /// when the key is absent from either or both.
    pub fn del(&mut self, key: &str) -> (r: Result<(), String>)
        requires
            old(self).wf(),
        ensures
            final(self).wf(),
            r is Ok,
            final(self).scalars() == old(self).scalars().remove(key@),
            final(self).list_view() == old(self).list_view().remove(key@),
            final(self).connection_view() == old(self).connection_view(),
    {
        self.data.remove(key);
        self.list_data.remove(key);
        proof {
            lemma_map_values_remove(old(self).data@, |v: String| v@, key@);
            lemma_map_values_remove(old(self).list_data@, |v: Vec<String>| v.deep_view(), key@);
        }
        Ok(())
    }

    /// Appends `value` to the list under `key`, creating the list first if
    /// absent. The order of pushes is preserved.
    pub fn lpush(&mut self, key: &str, value: &str) -> (r: Result<(), String>)
        requires
            old(self).wf(),
        ensures
            final(self).wf(),
            r is Ok,
            final(self).scalars() == old(self).scalars(),
            final(self).list_view() == old(self).list_view().insert(
                key@,
                (if old(self).list_view().contains_key(key@) {
                    old(self).list_view()[key@]
                } else {
                    Seq::<Seq<char>>::empty()
                }).push(value@),
            ),
            final(self).connection_view() == old(self).connection_view(),
    {
        let ghost old_elems: Seq<Seq<char>> = if old(self).list_view().contains_key(key@) {
            old(self).list_view()[key@]
        } else {
            Seq::<Seq<char>>::empty()
        };
        let mut cur: Vec<String> = match self.list_data.get(key) {
            Some(v) => clone_string_vec(v),
            None => Vec::new(),
        };
        proof {
            assert(cur.deep_view() =~= old_elems);
        }
        cur.push(value.to_owned());
        proof {
            assert(cur.deep_view() =~= old_elems.push(value@));
        }
        self.list_data.insert(key, cur);
        proof {
            lemma_map_values_insert(
                old(self).list_data@,
                |v: Vec<String>| v.deep_view(),
                key@,
                cur,
            );
        }
        Ok(())
    }

    /// Returns the full list under `key`, or nothing when the key holds no
    /// list. An empty list is never observable: every list was created by a
    /// push and only ever grows.
    pub fn lrange<'a>(&'a self, key: &str) -> (r: Option<&'a Vec<String>>)
        ensures
            match r {
                Some(v) => self.list_view().contains_key(key@) && v.deep_view()
                    == self.list_view()[key@],
                None => !self.list_view().contains_key(key@),
            },
    {
        self.list_data.get(key)
    }

    /// The sorted, deduplicated union of the keys present in the scalar map
    /// and in the list map.
    pub fn keys(&self) -> (r: Vec<String>)
        requires
            self.wf(),
        ensures
            keys_sorted(r@),
            forall|i: int, j: int| 0 <= i < j < r@.len() ==> r@[i]@ != r@[j]@,
            forall|k: Seq<char>|
                key_present(r@, k) <==> (self.scalars().contains_key(k)
                    || self.list_view().contains_key(k)),
    {
        let mut out: Vec<String> = Vec::new();
        let mut names = self.data.key_list();
        let ghost names0 = names@;
        loop
            invariant
                self.wf(),
                keys_sorted(out@),
                names@ == names0.take(names@.len() as int),
                names@.len() <= names0.len(),
                forall|p: int, q: int| 0 <= p < q < names0.len() ==> names0[p]@ != names0[q]@,
                forall|p: int| 0 <= p < names0.len() ==> self.data@.contains_key(
                    #[trigger] names0[p]@,
                ),
                forall|k: Seq<char>|
                    self.data@.contains_key(k) ==> exists|w: int|
                        0 <= w < names0.len() && names0[w]@ == k,
                forall|k: Seq<char>|
                    key_present(out@, k) <==> exists|w: int|
                        names@.len() <= w < names0.len() && names0[w]@ == k,
            ensures
                names@.len() == 0,
                keys_sorted(out@),
                forall|k: Seq<char>| key_present(out@, k) <==> self.data@.contains_key(k),
            decreases names@.len(),
        {
            match names.pop() {
                Some(n) => {
                    let ghost len: int = names@.len() as int;
                    proof {
                        assert(n == names0[len]);
                        assert(names@ =~= names0.take(len));
                        if key_present(out@, n@) {
                            let w = choose|w: int|
                                len + 1 <= w < names0.len() && names0[w]@ == n@;
                            assert(names0[w]@ == names0[len]@);
                            assert(false);
                        }
                    }
                    insert_sorted(&mut out, n);
                    proof {
                        assert forall|k: Seq<char>|
                            key_present(out@, k) <==> exists|w: int|
                                len <= w < names0.len() && names0[w]@ == k by {
                            if key_present(out@, k) {
                                if k == names0[len]@ {
                                    assert(names0[len]@ == k);
                                } else {
                                    let w = choose|w: int|
                                        len + 1 <= w < names0.len() && names0[w]@ == k;
                                    assert(len <= w < names0.len() && names0[w]@ == k);
                                }
                            }
                            if exists|w: int| len <= w < names0.len() && names0[w]@ == k {
                                let w = choose|w: int|
                                    len <= w < names0.len() && names0[w]@ == k;
                                if w == len {
                                    assert(k == n@);
                                } else {
                                    assert(exists|w2: int|
                                        len + 1 <= w2 < names0.len() && names0[w2]@ == k);
                                }
                            }
                        }
                    }
                },
                None => {
                    proof {
                        assert forall|k: Seq<char>|
                            key_present(out@, k) <==> self.data@.contains_key(k) by {
                            if key_present(out@, k) {
                                let w = choose|w: int|
                                    0 <= w < names0.len() && names0[w]@ == k;
                                assert(self.data@.contains_key(names0[w]@));
                            }
                        }
                    }
                    break;
                },
            }
        }
        let mut lnames = self.list_data.key_list();
        let ghost lnames0 = lnames@;
        let ghost out1 = out@;
        loop
            invariant
                self.wf(),
                keys_sorted(out@),
                lnames@ == lnames0.take(lnames@.len() as int),
                lnames@.len() <= lnames0.len(),
                forall|p: int, q: int| 0 <= p < q < lnames0.len() ==> lnames0[p]@ != lnames0[q]@,
                forall|p: int| 0 <= p < lnames0.len() ==> self.list_data@.contains_key(
                    #[trigger] lnames0[p]@,
                ),
                forall|k: Seq<char>|
                    self.list_data@.contains_key(k) ==> exists|w: int|
                        0 <= w < lnames0.len() && lnames0[w]@ == k,
                forall|k: Seq<char>| key_present(out1, k) <==> self.data@.contains_key(k),
                forall|k: Seq<char>|
                    key_present(out@, k) <==> (self.data@.contains_key(k) || exists|w: int|
                        lnames@.len() <= w < lnames0.len() && lnames0[w]@ == k),
            ensures
                keys_sorted(out@),
                forall|k: Seq<char>|
                    key_present(out@, k) <==> (self.data@.contains_key(k)
                        || self.list_data@.contains_key(k)),
            decreases lnames@.len(),
        {
            match lnames.pop() {
                Some(n) => {
                    let ghost len: int = lnames@.len() as int;
                    proof {
                        assert(n == lnames0[len]);
                        assert(lnames@ =~= lnames0.take(len));
                    }
                    let dup = self.data.contains_key(n.as_str());
                    if !dup {
                        proof {
                            if key_present(out@, n@) {
                                let w = choose|w: int|
                                    len + 1 <= w < lnames0.len() && lnames0[w]@ == n@;
                                assert(lnames0[w]@ == lnames0[len]@);
                                assert(false);
                            }
                        }
                        insert_sorted(&mut out, n);
                    }
                    proof {
                        assert forall|k: Seq<char>|
                            key_present(out@, k) <==> (self.data@.contains_key(k) || exists|w: int|
                                len <= w < lnames0.len() && lnames0[w]@ == k) by {
                            if key_present(out@, k) && !self.data@.contains_key(k) {
                                if k == lnames0[len]@ {
                                    assert(lnames0[len]@ == k);
                                } else {
                                    let w = choose|w: int|
                                        len + 1 <= w < lnames0.len() && lnames0[w]@ == k;
                                    assert(len <= w < lnames0.len() && lnames0[w]@ == k);
                                }
                            }
                            if exists|w: int| len <= w < lnames0.len() && lnames0[w]@ == k {
                                let w = choose|w: int|
                                    len <= w < lnames0.len() && lnames0[w]@ == k;
                                if w == len {
                                    if !self.data@.contains_key(k) {
                                        assert(key_present(out@, k));
                                    }
                                } else {
                                    assert(exists|w2: int|
                                        len + 1 <= w2 < lnames0.len() && lnames0[w2]@ == k);
                                }
                            }
                        }
                    }
                },
                None => {
                    proof {
                        assert forall|k: Seq<char>|
                            key_present(out@, k) <==> (self.data@.contains_key(k)
                                || self.list_data@.contains_key(k)) by {
                            if key_present(out@, k) && !self.data@.contains_key(k) {
                                let w = choose|w: int|
                                    0 <= w < lnames0.len() && lnames0[w]@ == k;
                                assert(self.list_data@.contains_key(lnames0[w]@));
                            }
                        }
                    }
                    break;
                },
            }
        }
        proof {
            lemma_sorted_distinct(out@);
        }
        out
    }

    /// Applies each scalar upsert in the given order; a later pair under the
    /// same key wins.
    pub fn mset(&mut self, pairs: &Vec<(String, String)>) -> (r: Result<(), String>)
        requires
            old(self).wf(),
        ensures
            final(self).wf(),
            r is Ok,
            final(self).scalars() == mset_fold(old(self).scalars(), pairs_view(pairs@)),
            final(self).list_view() == old(self).list_view(),
            final(self).connection_view() == old(self).connection_view(),
    {
        let mut i: usize = 0;
        while i < pairs.len()
            invariant
                self.wf(),
                i <= pairs@.len(),
                self.scalars() == mset_fold(old(self).scalars(), pairs_view(pairs@).take(i as int)),
                self.list_view() == old(self).list_view(),
                self.connection_view() == old(self).connection_view(),
            decreases pairs@.len() - i,
        {
            let ghost before = self.scalars();
            let ghost data_before = self.data@;
            let owned = pairs[i].1.clone();
            self.data.insert(pairs[i].0.as_str(), owned);
            proof {
                lemma_map_values_insert(data_before, |v: String| v@, pairs@[i as int].0@, owned);
                let pv = pairs_view(pairs@);
                assert(pv.take(i as int + 1).drop_last() =~= pv.take(i as int));
                assert(pv.take(i as int + 1).last() == pv[i as int]);
                assert(self.scalars() == mset_fold(old(self).scalars(), pv.take(i as int + 1)));
            }
            i = i + 1;
        }
        proof {
            assert(pairs_view(pairs@).take(pairs@.len() as int) =~= pairs_view(pairs@));
        }
        Ok(())
    }

    /// Positional batch lookup: one result slot per input key, in input
    /// order, duplicates included.
    pub fn mget(&self, keys: &Vec<String>) -> (r: Vec<Option<String>>)
        ensures
            r@.len() == keys@.len(),
            forall|i: int|
                0 <= i < r@.len() ==> (match #[trigger] r@[i] {
                    Some(v) => scalar_lookup(self.scalars(), keys@[i]@) == Some(v@),
                    None => scalar_lookup(self.scalars(), keys@[i]@) is None,
                }),
    {
        let mut out: Vec<Option<String>> = Vec::new();
        let mut i: usize = 0;
        while i < keys.len()
            invariant
                i <= keys@.len(),
                out@.len() == i,
                forall|j: int|
                    0 <= j < i ==> (match #[trigger] out@[j] {
                        Some(v) => scalar_lookup(self.scalars(), keys@[j]@) == Some(v@),
                        None => scalar_lookup(self.scalars(), keys@[j]@) is None,
                    }),
            decreases keys@.len() - i,
        {
            out.push(self.get(keys[i].as_str()));
            i = i + 1;
        }
        out
    }
}

/// Law: deleting a key that neither map holds leaves the store unchanged.
pub proof fn lemma_del_absent(
    scalars: Map<Seq<char>, Seq<char>>,
    lists: Map<Seq<char>, Seq<Seq<char>>>,
    k: Seq<char>,
)
    requires
        !scalars.contains_key(k),
        !lists.contains_key(k),
    ensures
        scalars.remove(k) == scalars,
        lists.remove(k) == lists,
{
    crate::maps::lemma_remove_absent(scalars, k);
    crate::maps::lemma_remove_absent(lists, k);
}

/// Law: batch reads are positional. The slot for an input key depends on
/// that key alone, so two slots that share a key hold the same result.
pub proof fn lemma_mget_positional(
    m: Map<Seq<char>, Seq<char>>,
    keys: Seq<Seq<char>>,
    i: int,
    j: int,
)
    requires
        0 <= i < keys.len(),
        0 <= j < keys.len(),
        keys[i] == keys[j],
    ensures
        scalar_lookup(m, keys[i]) == scalar_lookup(m, keys[j]),
{
}

} // verus!
