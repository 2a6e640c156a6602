//! A time-bounded cache.
//!
//! Each entry carries the instant at which it expires; the time-to-live is
//! fixed at construction and uniform across the entries of one cache. Time
//! is passed in explicitly as a reading of a monotonic clock, so that expiry
//! never depends on wall-clock adjustments; the caller supplies `now` on
//! every operation. An entry is logically absent once `now >= expiry`,
//! whether or not it has been physically removed; physical removal happens
//! on an explicit sweep ([`Cache::cleanup_expired`]), never as a side effect
//! of a read.

use vstd::prelude::*;

verus! {

use crate::keyed_map::KeyedMap;
use crate::maps::{lemma_map_values_empty, lemma_map_values_insert, lemma_map_values_remove};

/// One cached value together with the instant at which it expires.
pub struct CacheEntry<V> {
    /// The cached value.
    pub data: V,
    /// The clock reading at and after which the entry counts as absent.
    pub expiry: u64,
}

/// A keyed cache whose entries all live for the same fixed span.
#[verifier::reject_recursive_types(V)]
pub struct Cache<V> {
    entries: KeyedMap<CacheEntry<V>>,
    ttl: u64,
}

/// What a read of `key` at instant `now` observes in a cache modelled by `m`:
/// the stored value while the entry is present and not yet expired, nothing
/// otherwise.
pub open spec fn lookup<T>(m: Map<Seq<char>, (T, u64)>, key: Seq<char>, now: u64) -> Option<T> {
    if m.contains_key(key) && now < m[key].1 {
        Some(m[key].0)
    } else {
        None
    }
}

impl<V: View> Cache<V> {
    /// The entries, each value abstracted to its view paired with its expiry.
    pub closed spec fn model(self) -> Map<Seq<char>, (V::V, u64)> {
        self.entries@.map_values(|e: CacheEntry<V>| (e.data@, e.expiry))
    }

    /// The fixed time-to-live of this cache.
    pub closed spec fn spec_ttl(self) -> u64 {
        self.ttl
    }

    /// The key list inside the entry map is intact.
    pub closed spec fn wf(self) -> bool {
        self.entries.wf()
    }

    /// Creates an empty cache whose entries will live `ttl` clock units.
    pub fn new(ttl: u64) -> (r: Self)
        ensures
            r.wf(),
            r.model() == Map::<Seq<char>, (V::V, u64)>::empty(),
            r.spec_ttl() == ttl,
    {
        let r = Cache { entries: KeyedMap::new(), ttl };
        proof {
            lemma_map_values_empty::<Seq<char>, CacheEntry<V>, (V::V, u64)>(
                |e: CacheEntry<V>| (e.data@, e.expiry),
            );
        }
        r
    }

    /// Inserts or replaces the entry for `key`, stamping its expiry
    /// `ttl` clock units after `now`. An existing entry is overwritten even
    /// when it has not yet expired.
    pub fn set(&mut self, key: &str, value: V, now: u64)
        requires
            old(self).wf(),
            now + old(self).spec_ttl() <= u64::MAX,
        ensures
            final(self).wf(),
            final(self).spec_ttl() == old(self).spec_ttl(),
            final(self).model() == old(self).model().insert(
                key@,
                (value@, (now + old(self).spec_ttl()) as u64),
            ),
    {
        let expiry = now + self.ttl;
        self.entries.insert(key, CacheEntry { data: value, expiry });
        proof {
            lemma_map_values_insert(
                old(self).entries@,
                |e: CacheEntry<V>| (e.data@, e.expiry),
                key@,
                CacheEntry { data: value, expiry },
            );
        }
    }

    /// Returns the value cached under `key` if it is present and not yet
    /// expired at `now`; a stale entry reads the same as an absent one, and
    /// the read changes nothing.
    pub fn get<'a>(&'a self, key: &str, now: u64) -> (r: Option<&'a V>)
        ensures
            match r {
                Some(v) => lookup(self.model(), key@, now) == Some(v@),
                None => lookup(self.model(), key@, now) is None,
            },
    {
        match self.entries.get(key) {
            Some(e) => {
                if now < e.expiry {
                    Some(&e.data)
                } else {
                    None
                }
            },
            None => None,
        }
    }

    /// Removes any entry under `key`; succeeds also when none is there.
    pub fn delete(&mut self, key: &str)
        requires
            old(self).wf(),
        ensures
            final(self).wf(),
            final(self).spec_ttl() == old(self).spec_ttl(),
            final(self).model() == old(self).model().remove(key@),
    {
        self.entries.remove(key);
        proof {
            lemma_map_values_remove(
                old(self).entries@,
                |e: CacheEntry<V>| (e.data@, e.expiry),
                key@,
            );
        }
    }

    /// Removes all entries.
    pub fn clear(&mut self)
        requires
            old(self).wf(),
        ensures
            final(self).wf(),
            final(self).spec_ttl() == old(self).spec_ttl(),
            final(self).model() == Map::<Seq<char>, (V::V, u64)>::empty(),
    {
        self.entries.clear();
        proof {
            lemma_map_values_empty::<Seq<char>, CacheEntry<V>, (V::V, u64)>(
                |e: CacheEntry<V>| (e.data@, e.expiry),
            );
        }
    }

    /// Removes every entry whose expiry has passed as of `now`, and no
    /// other. Skipping this sweep never changes what reads observe; it only
    /// reclaims space held by stale entries.
    pub fn cleanup_expired(&mut self, now: u64)
        requires
            old(self).wf(),
        ensures
            final(self).wf(),
            final(self).spec_ttl() == old(self).spec_ttl(),
            forall|k: Seq<char>|
                final(self).model().contains_key(k) <==> (old(self).model().contains_key(k)
                    && now < old(self).model()[k].1),
            forall|k: Seq<char>|
                final(self).model().contains_key(k) ==> final(self).model()[k] == old(
                    self,
                ).model()[k],
    {
        let names = self.entries.key_list();
        let ghost orig = self.entries@;
        let mut i: usize = 0;
        while i < names.len()
            invariant
                self.entries.wf(),
                self.ttl == old(self).ttl,
                i <= names@.len(),
                forall|p: int, q: int| 0 <= p < q < names@.len() ==> names@[p]@ != names@[q]@,
                forall|k: Seq<char>|
                    orig.contains_key(k) ==> exists|w: int|
                        0 <= w < names@.len() && names@[w]@ == k,
                forall|k: Seq<char>|
                    #[trigger] self.entries@.contains_key(k) ==> orig.contains_key(k)
                        && self.entries@[k] == orig[k],
                forall|k: Seq<char>|
                    orig.contains_key(k) && now < orig[k].expiry ==> #[trigger] self.entries@.contains_key(k),
                forall|w: int|
                    0 <= w < i ==> (orig.contains_key(#[trigger] names@[w]@) && !(now
                        < orig[names@[w]@].expiry) ==> !self.entries@.contains_key(names@[w]@)),
            decreases names@.len() - i,
        {
            let ghost prev = self.entries@;
            let stale = match self.entries.get(names[i].as_str()) {
                Some(e) => !(now < e.expiry),
                None => false,
            };
            if stale {
                self.entries.remove(names[i].as_str());
            }
            proof {
                let ki = names@[i as int]@;
                if stale {
                    assert(self.entries@ == prev.remove(ki));
                    assert(!(now < orig[ki].expiry));
                } else {
                    assert(self.entries@ == prev);
                    if prev.contains_key(ki) {
                        assert(now < orig[ki].expiry);
                    }
                }
            }
            i = i + 1;
        }
        proof {
            assert forall|k: Seq<char>|
                self.entries@.contains_key(k) <==> (orig.contains_key(k) && now
                    < orig[k].expiry) by {
                if orig.contains_key(k) && !(now < orig[k].expiry) {
                    let w = choose|w: int| 0 <= w < names@.len() && names@[w]@ == k;
                    assert(!self.entries@.contains_key(names@[w]@));
                }
            }
            assert forall|k: Seq<char>|
                self.model().contains_key(k) <==> (old(self).model().contains_key(k) && now < old(
                    self,
                ).model()[k].1) by {}
        }
    }
}

/// Law: a value just written is readable exactly until its expiry instant.
/// Writing `v` under `k` at time `t` makes a read of `k` at any time before
/// `t + ttl` return `v`, and a read at or after `t + ttl` return nothing.
pub proof fn lemma_set_then_get<T>(
    m: Map<Seq<char>, (T, u64)>,
    k: Seq<char>,
    v: T,
    ttl: u64,
    t: u64,
    t2: u64,
)
    requires
        t + ttl <= u64::MAX,
    ensures
        t2 < t + ttl ==> lookup(m.insert(k, (v, (t + ttl) as u64)), k, t2) == Some(v),
        t2 >= t + ttl ==> lookup(m.insert(k, (v, (t + ttl) as u64)), k, t2) is None,
{
}

/// Law: the time-to-live is uniform. Two entries written at their own times
/// under distinct keys each expire exactly `ttl` after their own insertion,
/// independently of one another.
pub proof fn lemma_ttl_uniform<T>(
    m: Map<Seq<char>, (T, u64)>,
    k1: Seq<char>,
    v1: T,
    t1: u64,
    k2: Seq<char>,
    v2: T,
    t2: u64,
    ttl: u64,
    q: u64,
)
    requires
        k1 != k2,
        t1 + ttl <= u64::MAX,
        t2 + ttl <= u64::MAX,
    ensures
        ({
            let m2 = m.insert(k1, (v1, (t1 + ttl) as u64)).insert(k2, (v2, (t2 + ttl) as u64));
            &&& lookup(m2, k1, q) == (if q < t1 + ttl {
                Some(v1)
            } else {
                None
            })
            &&& lookup(m2, k2, q) == (if q < t2 + ttl {
                Some(v2)
            } else {
                None
            })
        }),
{
}

/// Law: deleting an absent key leaves the cache unchanged.
pub proof fn lemma_delete_absent<T>(m: Map<Seq<char>, (T, u64)>, k: Seq<char>)
    requires
        !m.contains_key(k),
    ensures
        m.remove(k) == m,
{
    crate::maps::lemma_remove_absent(m, k);
}

/// Law: after a clear, every read returns nothing, whatever was written
/// before and whatever the clock says.
pub proof fn lemma_clear_empties<T>(k: Seq<char>, now: u64)
    ensures
        lookup(Map::<Seq<char>, (T, u64)>::empty(), k, now) is None,
{
}

} // verus!
