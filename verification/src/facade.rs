//! The database facade and its command dispatcher.
//!
//! [`LunarDB`] owns one structured store and one cache, created together
//! and living for the facade's lifetime. The dispatcher is the single
//! point where the cache-coherence policy is enforced: write commands
//! mutate the store and then invalidate the cached entry for the written
//! key (never populating it), and a scalar read consults the cache first,
//! filling it from the store on a miss. List, key and batch reads bypass
//! the cache entirely.

use vstd::prelude::*;

verus! {

use crate::cache::{Cache, lookup};
use crate::command::{Command, CommandReply, DispatchError, parse_command, spec_parse};
use crate::keyed_map::KeyedMap;
use crate::maps::{lemma_map_values_empty, lemma_map_values_insert};
use crate::nosql::{NoSQLClient, mset_fold, scalar_lookup};
use crate::order::{key_present, keys_sorted};
use crate::sql::SQLClient;

/// Options for a durable-store query.
pub struct QueryOptions {
    /// At most this many rows.
    pub limit: Option<u32>,
    /// Skip this many rows first.
    pub offset: Option<u32>,
    /// Order the rows by this field.
    pub order_by: Option<String>,
    /// Equality filters, one per field.
    pub filters: Option<KeyedMap<String>>,
}

impl QueryOptions {
    /// The filters as a map of views; the empty map when none were set.
    pub open spec fn filter_map(self) -> Map<Seq<char>, Seq<char>> {
        match self.filters {
            Some(f) => f@.map_values(|v: String| v@),
            None => Map::<Seq<char>, Seq<char>>::empty(),
        }
    }

    /// The filter map, when present, has its key list intact.
    pub open spec fn wf(self) -> bool {
        match self.filters {
            Some(f) => f.wf(),
            None => true,
        }
    }
}

/// The shape of a raw-query request at the facade's HTTP surface.
pub struct QueryParams {
    /// The query text.
    pub query: String,
}

/// The views of the pairs that an even-length argument list forms.
pub open spec fn args_pairs(args: Seq<String>) -> Seq<(Seq<char>, Seq<char>)> {
    Seq::new(args.len() / 2, |i: int| (args[2 * i]@, args[2 * i + 1]@))
}

/// Whether a batch write over `args` writes the key `k`.
pub open spec fn mset_writes(args: Seq<String>, k: Seq<char>) -> bool {
    exists|i: int| 0 <= i < args.len() / 2 && (#[trigger] args[2 * i])@ == k
}

/// The facade: one structured store and one cache, plus query options for
/// the durable-store side.
pub struct LunarDB {
    connection: String,
    query_options: QueryOptions,
    store: NoSQLClient,
    cache: Cache<String>,
}

impl LunarDB {
    /// The scalar entries of the structured store.
    pub closed spec fn scalars(self) -> Map<Seq<char>, Seq<char>> {
        self.store.scalars()
    }

    /// The list entries of the structured store.
    pub closed spec fn list_view(self) -> Map<Seq<char>, Seq<Seq<char>>> {
        self.store.list_view()
    }

    /// The cache entries: value view and expiry per key.
    pub closed spec fn cache_model(self) -> Map<Seq<char>, (Seq<char>, u64)> {
        self.cache.model()
    }

    /// The cache's fixed time-to-live.
    pub closed spec fn cache_ttl(self) -> u64 {
        self.cache.spec_ttl()
    }

    /// The current query options.
    pub closed spec fn options(self) -> QueryOptions {
        self.query_options
    }

    /// The connection string the facade was created with.
    pub closed spec fn connection_view(self) -> Seq<char> {
        self.connection@
    }

    /// All key lists are intact.
    pub closed spec fn wf(self) -> bool {
        &&& self.store.wf()
        &&& self.cache.wf()
        &&& self.options().wf()
    }

    /// The cache never contradicts the store: every cached entry's value,
    /// expired or not, equals the store's current scalar under that key.
    /// Writes keep this by invalidating, reads by populating from the
    /// store.
    pub open spec fn coherent(self) -> bool {
        forall|k: Seq<char>| #[trigger] self.cache_model().contains_key(k)
            ==> self.scalars().contains_key(k) && self.cache_model()[k].0 == self.scalars()[k]
    }

    /// Creates a facade with an empty store and an empty cache whose
    /// entries will live `cache_ttl` clock units.
    pub fn new(connection: &str, cache_ttl: u64) -> (r: Self)
        ensures
            r.wf(),
            r.coherent(),
            r.scalars() == Map::<Seq<char>, Seq<char>>::empty(),
            r.list_view() == Map::<Seq<char>, Seq<Seq<char>>>::empty(),
            r.cache_model() == Map::<Seq<char>, (Seq<char>, u64)>::empty(),
            r.cache_ttl() == cache_ttl,
            r.connection_view() == connection@,
            r.options().limit is None,
            r.options().offset is None,
            r.options().order_by is None,
            r.options().filters is None,
    {
        LunarDB {
            connection: connection.to_owned(),
            query_options: QueryOptions { limit: None, offset: None, order_by: None, filters: None },
            store: NoSQLClient::new(connection),
            cache: Cache::new(cache_ttl),
        }
    }

    /// A fresh durable-store client bound to this facade's connection
    /// string.
    pub fn sql(&self) -> (r: SQLClient)
        ensures
            r.connection_view() == self.connection_view(),
    {
        SQLClient::new(self.connection.as_str())
    }

    /// A fresh, empty structured-store client bound to this facade's
    /// connection string.
    pub fn nosql(&self) -> (r: NoSQLClient)
        ensures
            r.wf(),
            r.scalars() == Map::<Seq<char>, Seq<char>>::empty(),
            r.list_view() == Map::<Seq<char>, Seq<Seq<char>>>::empty(),
            r.connection_view() == self.connection_view(),
    {
        NoSQLClient::new(self.connection.as_str())
    }

    /// Replaces the query options wholesale.
    pub fn with_options(&mut self, options: QueryOptions)
        requires
            old(self).wf(),
            options.wf(),
        ensures
            final(self).wf(),
            final(self).options() == options,
            same_backing(*old(self), *final(self)),
    {
        self.query_options = options;
    }

    /// Sets the row limit.
    pub fn limit(&mut self, limit: u32)
        ensures
            final(self).options().limit == Some(limit),
            final(self).options().offset == old(self).options().offset,
            final(self).options().order_by == old(self).options().order_by,
            final(self).options().filters == old(self).options().filters,
            same_backing(*old(self), *final(self)),
    {
        self.query_options.limit = Some(limit);
    }

    /// Sets the row offset.
    pub fn offset(&mut self, offset: u32)
        ensures
            final(self).options().offset == Some(offset),
            final(self).options().limit == old(self).options().limit,
            final(self).options().order_by == old(self).options().order_by,
            final(self).options().filters == old(self).options().filters,
            same_backing(*old(self), *final(self)),
    {
        self.query_options.offset = Some(offset);
    }

    /// Sets the ordering field.
    pub fn order_by(&mut self, field: &str)
        ensures
            final(self).options().order_by matches Some(f) && f@ == field@,
            final(self).options().limit == old(self).options().limit,
            final(self).options().offset == old(self).options().offset,
            final(self).options().filters == old(self).options().filters,
            same_backing(*old(self), *final(self)),
    {
        self.query_options.order_by = Some(field.to_owned());
    }

    /// Adds or replaces an equality filter, creating the filter map first
    /// if none was set yet.
    pub fn filter(&mut self, key: &str, value: &str)
        requires
            old(self).options().wf(),
        ensures
            final(self).options().wf(),
            final(self).options().filters is Some,
            final(self).options().filter_map() == old(self).options().filter_map().insert(
                key@,
                value@,
            ),
            final(self).options().limit == old(self).options().limit,
            final(self).options().offset == old(self).options().offset,
            final(self).options().order_by == old(self).options().order_by,
            same_backing(*old(self), *final(self)),
    {
        let taken = self.query_options.filters.take();
        let mut f = match taken {
            Some(f0) => f0,
            None => KeyedMap::new(),
        };
        let ghost fmap = f@;
        let owned = value.to_owned();
        f.insert(key, owned);
        proof {
            lemma_map_values_insert(fmap, |v: String| v@, key@, owned);
        }
        self.query_options.filters = Some(f);
        proof {
            if old(self).query_options.filters is None {
                lemma_map_values_empty::<Seq<char>, String, Seq<char>>(|v: String| v@);
            }
        }
    }

    /// The current query options, read-only.
    pub fn get_query_options(&self) -> (r: &QueryOptions)
        ensures
            *r == self.options(),
    {
        &self.query_options
    }

    /// Parses, validates and routes one command, enforcing the coherence
    /// policy between cache and store. A rejected command changes nothing;
    /// a write invalidates the cached entries of exactly the written keys;
    /// a scalar read returns, under a coherent state, the store's current
    /// value for the key, whatever the cache held.
    pub fn execute_nosql_command(&mut self, command: &str, args: &Vec<String>, now: u64) -> (r:
        Result<CommandReply, DispatchError>)
        requires
            old(self).wf(),
            now + old(self).cache_ttl() <= u64::MAX,
        ensures
            final(self).wf(),
            final(self).cache_ttl() == old(self).cache_ttl(),
            final(self).options() == old(self).options(),
            final(self).connection_view() == old(self).connection_view(),
            old(self).coherent() ==> final(self).coherent(),
            spec_parse(command@) is None ==> (r matches Err(DispatchError::UnknownCommand(n))
                && n@ == command@) && *final(self) == *old(self),
            (spec_parse(command@) matches Some(c) && !c.arity_ok(args@.len())) ==> (r matches Err(
                DispatchError::InvalidArguments { command: ec, given },
            ) && Some(ec) == spec_parse(command@) && given == args@.len()) && *final(self) == *old(self),
            spec_parse(command@) == Some(Command::CmdSet) && args@.len() == 2 ==> ({
                &&& r == Ok::<CommandReply, DispatchError>(CommandReply::Done)
                &&& final(self).scalars() == old(self).scalars().insert(args@[0]@, args@[1]@)
                &&& final(self).list_view() == old(self).list_view()
                &&& final(self).cache_model() == old(self).cache_model().remove(args@[0]@)
            }),
            spec_parse(command@) == Some(Command::CmdGet) && args@.len() == 1 ==> ({
                &&& final(self).scalars() == old(self).scalars()
                &&& final(self).list_view() == old(self).list_view()
                &&& match lookup(old(self).cache_model(), args@[0]@, now) {
                    Some(cv) => (r matches Ok(CommandReply::Value(Some(s))) && s@ == cv) && final(self).cache_model() == old(self).cache_model(),
                    None => match scalar_lookup(old(self).scalars(), args@[0]@) {
                        Some(sv) => (r matches Ok(CommandReply::Value(Some(s))) && s@ == sv)
                            && final(self).cache_model() == old(self).cache_model().insert(
                            args@[0]@,
                            (sv, (now + old(self).cache_ttl()) as u64),
                        ),
                        None => r == Ok::<CommandReply, DispatchError>(
                            CommandReply::Value(None),
                        ) && final(self).cache_model() == old(self).cache_model(),
                    },
                }
            }),
            old(self).coherent() && spec_parse(command@) == Some(Command::CmdGet) && args@.len()
                == 1 ==> (match scalar_lookup(old(self).scalars(), args@[0]@) {
                Some(sv) => r matches Ok(CommandReply::Value(Some(s))) && s@ == sv,
                None => r == Ok::<CommandReply, DispatchError>(CommandReply::Value(None)),
            }),
            spec_parse(command@) == Some(Command::CmdDel) && args@.len() == 1 ==> ({
                &&& r == Ok::<CommandReply, DispatchError>(CommandReply::Done)
                &&& final(self).scalars() == old(self).scalars().remove(args@[0]@)
                &&& final(self).list_view() == old(self).list_view().remove(args@[0]@)
                &&& final(self).cache_model() == old(self).cache_model().remove(args@[0]@)
            }),
            spec_parse(command@) == Some(Command::CmdLPush) && args@.len() == 2 ==> ({
                &&& r == Ok::<CommandReply, DispatchError>(CommandReply::Done)
                &&& final(self).scalars() == old(self).scalars()
                &&& final(self).list_view() == old(self).list_view().insert(
                    args@[0]@,
                    (if old(self).list_view().contains_key(args@[0]@) {
                        old(self).list_view()[args@[0]@]
                    } else {
                        Seq::<Seq<char>>::empty()
                    }).push(args@[1]@),
                )
                &&& final(self).cache_model() == old(self).cache_model().remove(args@[0]@)
            }),
            spec_parse(command@) == Some(Command::CmdLRange) && args@.len() == 1 ==> ({
                &&& *final(self) == *old(self)
                &&& if old(self).list_view().contains_key(args@[0]@) {
                    r matches Ok(CommandReply::Items(Some(xs))) && xs.deep_view() == old(self).list_view()[args@[0]@]
                } else {
                    r == Ok::<CommandReply, DispatchError>(CommandReply::Items(None))
                }
            }),
            spec_parse(command@) == Some(Command::CmdMSet) && args@.len() >= 2 && args@.len() % 2
                == 0 ==> ({
                &&& r == Ok::<CommandReply, DispatchError>(CommandReply::Done)
                &&& final(self).scalars() == mset_fold(old(self).scalars(), args_pairs(args@))
                &&& final(self).list_view() == old(self).list_view()
                &&& forall|k: Seq<char>|
                    #[trigger] final(self).cache_model().contains_key(k) <==> (old(self).cache_model().contains_key(k) && !mset_writes(args@, k))
                &&& forall|k: Seq<char>|
                    #[trigger] final(self).cache_model().contains_key(k) ==> final(self).cache_model()[k] == old(self).cache_model()[k]
            }),
            spec_parse(command@) == Some(Command::CmdMGet) && args@.len() >= 1 ==> ({
                &&& *final(self) == *old(self)
                &&& r matches Ok(CommandReply::Values(vs)) && vs@.len() == args@.len() && (forall|
                    i: int,
                |
                    0 <= i < vs@.len() ==> (match #[trigger] vs@[i] {
                        Some(v) => scalar_lookup(old(self).scalars(), args@[i]@) == Some(v@),
                        None => scalar_lookup(old(self).scalars(), args@[i]@) is None,
                    }))
            }),
            spec_parse(command@) == Some(Command::CmdKeys) && args@.len() == 0 ==> ({
                &&& *final(self) == *old(self)
                &&& r matches Ok(CommandReply::KeyList(ks)) && keys_sorted(ks@) && (forall|
                    k: Seq<char>,
                |
                    #[trigger] key_present(ks@, k) <==> (old(self).scalars().contains_key(k) || old(self).list_view().contains_key(k)))
            }),
    {
        let cmd = match parse_command(command) {
            Some(c) => c,
            None => {
                return Err(DispatchError::UnknownCommand(command.to_owned()));
            },
        };
        if !cmd.arity_check(args.len()) {
            return Err(DispatchError::InvalidArguments { command: cmd, given: args.len() });
        }
        match cmd {
            Command::CmdSet => {
                let _ = self.store.set(args[0].as_str(), args[1].as_str());
                self.cache.delete(args[0].as_str());
                proof {
                    if old(self).coherent() {
                        assert forall|k: Seq<char>| #[trigger] self.cache_model().contains_key(k)
                            implies self.scalars().contains_key(k) && self.cache_model()[k].0
                            == self.scalars()[k] by {
                            assert(old(self).cache_model().contains_key(k));
                        }
                    }
                }
                Ok(CommandReply::Done)
            },
            Command::CmdGet => {
                let cached = match self.cache.get(args[0].as_str(), now) {
                    Some(v) => Some(v.clone()),
                    None => None,
                };
                match cached {
                    Some(s) => {
                        proof {
                            if old(self).coherent() {
                                assert(old(self).cache_model().contains_key(args@[0]@));
                            }
                        }
                        Ok(CommandReply::Value(Some(s)))
                    },
                    None => {
                        match self.store.get(args[0].as_str()) {
                            Some(v) => {
                                self.cache.set(args[0].as_str(), v.clone(), now);
                                proof {
                                    if old(self).coherent() {
                                        assert forall|k: Seq<char>|
                                            #[trigger] self.cache_model().contains_key(k) implies
                                            self.scalars().contains_key(k)
                                                && self.cache_model()[k].0
                                                == self.scalars()[k] by {
                                            if k != args@[0]@ {
                                                assert(old(self).cache_model().contains_key(k));
                                            }
                                        }
                                    }
                                }
                                Ok(CommandReply::Value(Some(v)))
                            },
                            None => Ok(CommandReply::Value(None)),
                        }
                    },
                }
            },
            Command::CmdDel => {
                let _ = self.store.del(args[0].as_str());
                self.cache.delete(args[0].as_str());
                proof {
                    if old(self).coherent() {
                        assert forall|k: Seq<char>| #[trigger] self.cache_model().contains_key(k)
                            implies self.scalars().contains_key(k) && self.cache_model()[k].0
                            == self.scalars()[k] by {
                            assert(old(self).cache_model().contains_key(k));
                        }
                    }
                }
                Ok(CommandReply::Done)
            },
            Command::CmdLPush => {
                let _ = self.store.lpush(args[0].as_str(), args[1].as_str());
                self.cache.delete(args[0].as_str());
                proof {
                    if old(self).coherent() {
                        assert forall|k: Seq<char>| #[trigger] self.cache_model().contains_key(k)
                            implies self.scalars().contains_key(k) && self.cache_model()[k].0
                            == self.scalars()[k] by {
                            assert(old(self).cache_model().contains_key(k));
                        }
                    }
                }
                Ok(CommandReply::Done)
            },
            Command::CmdLRange => {
                match self.store.lrange(args[0].as_str()) {
                    Some(v) => {
                        let xs = crate::nosql::clone_string_vec(v);
                        proof {
                            assert(xs.deep_view() =~= v.deep_view());
                        }
                        Ok(CommandReply::Items(Some(xs)))
                    },
                    None => Ok(CommandReply::Items(None)),
                }
            },
            Command::CmdMSet => {
                let mut pairs: Vec<(String, String)> = Vec::new();
                let mut i: usize = 0;
                while i + 1 < args.len()
                    invariant
                        i % 2 == 0,
                        i <= args@.len(),
                        args@.len() % 2 == 0,
                        pairs@.len() == i / 2,
                        forall|j: int|
                            0 <= j < i / 2 ==> (#[trigger] pairs@[j]).0 == args@[2 * j]
                                && pairs@[j].1 == args@[2 * j + 1],
                    decreases args@.len() - i,
                {
                    pairs.push((args[i].clone(), args[i + 1].clone()));
                    i = i + 2;
                }
                let ghost os = self.scalars();
                let _ = self.store.mset(&pairs);
                proof {
                    assert(crate::nosql::pairs_view(pairs@) =~= args_pairs(args@));
                }
                let ghost oc = self.cache_model();
                let ghost store_after = self.store;
                let mut w: usize = 0;
                while w + 1 < args.len()
                    invariant
                        self.cache.wf(),
                        self.cache.spec_ttl() == old(self).cache.spec_ttl(),
                        self.store == store_after,
                        self.query_options == old(self).query_options,
                        self.connection == old(self).connection,
                        w % 2 == 0,
                        w <= args@.len(),
                        args@.len() % 2 == 0,
                        forall|k: Seq<char>|
                            #[trigger] self.cache_model().contains_key(k) <==> (oc.contains_key(k)
                                && !(exists|j: int| 0 <= j < w / 2 && (#[trigger] args@[2 * j])@ == k)),
                        forall|k: Seq<char>|
                            #[trigger] self.cache_model().contains_key(k)
                                ==> self.cache_model()[k] == oc[k],
                    decreases args@.len() - w,
                {
                    let ghost prev = self.cache_model();
                    self.cache.delete(args[w].as_str());
                    proof {
                        assert forall|k: Seq<char>| #[trigger] self.cache_model().contains_key(k)
                            <==> (oc.contains_key(k) && !(exists|j: int|
                            0 <= j < w / 2 + 1 && (#[trigger] args@[2 * j])@ == k)) by {
                            if self.cache_model().contains_key(k) {
                                assert(prev.contains_key(k));
                                assert(k != args@[2 * (w / 2)]@);
                                assert(forall|j: int|
                                    0 <= j < w / 2 + 1 ==> (#[trigger] args@[2 * j])@ != k);
                            }
                            if oc.contains_key(k) && !(exists|j: int|
                                0 <= j < w / 2 + 1 && (#[trigger] args@[2 * j])@ == k) {
                                assert(!(exists|j: int| 0 <= j < w / 2 && (#[trigger] args@[2 * j])@ == k));
                                assert(prev.contains_key(k));
                                assert(2 * (w as int / 2) == w as int);
                                assert((#[trigger] args@[2 * (w as int / 2)])@ != k);
                                assert(k != args@[w as int]@);
                            }
                        }
                    }
                    w = w + 2;
                }
                proof {
                    if old(self).coherent() {
                        assert forall|k: Seq<char>| #[trigger] self.cache_model().contains_key(k)
                            implies self.scalars().contains_key(k) && self.cache_model()[k].0
                            == self.scalars()[k] by {
                            assert(oc.contains_key(k));
                            assert(!mset_writes(args@, k));
                            crate::nosql::lemma_mset_fold_untouched(os, args_pairs(args@), k);
                        }
                    }
                }
                Ok(CommandReply::Done)
            },
            Command::CmdMGet => {
                let vs = self.store.mget(args);
                Ok(CommandReply::Values(vs))
            },
            Command::CmdKeys => {
                let ks = self.store.keys();
                Ok(CommandReply::KeyList(ks))
            },
        }
    }
}

/// The parts of the facade that query-option edits leave alone: both
/// stores, the cache and the connection.
pub open spec fn same_backing(a: LunarDB, b: LunarDB) -> bool {
    &&& a.scalars() == b.scalars()
    &&& a.list_view() == b.list_view()
    &&& a.cache_model() == b.cache_model()
    &&& a.cache_ttl() == b.cache_ttl()
    &&& a.connection_view() == b.connection_view()
}

/// Law: a write through the dispatcher is never shadowed by the cache.
/// After upserting `v` under `k` in the store and invalidating `k` in the
/// cache, the state is coherent again, the store answers `v` for `k`, and
/// the cache holds nothing for `k` at any instant.
pub proof fn lemma_write_invalidates(
    scalars: Map<Seq<char>, Seq<char>>,
    cache: Map<Seq<char>, (Seq<char>, u64)>,
    k: Seq<char>,
    v: Seq<char>,
)
    requires
        forall|k2: Seq<char>| #[trigger] cache.contains_key(k2) ==> scalars.contains_key(k2)
            && cache[k2].0 == scalars[k2],
    ensures
        forall|k2: Seq<char>| #[trigger] cache.remove(k).contains_key(k2) ==> scalars.insert(
            k,
            v,
        ).contains_key(k2) && cache.remove(k)[k2].0 == scalars.insert(k, v)[k2],
        scalar_lookup(scalars.insert(k, v), k) == Some(v),
        forall|now: u64| lookup(cache.remove(k), k, now) is None,
{
}

} // verus!
