//! The namespace schema cache: a read-through, process-lifetime map from
//! namespace name to its last known schema, instrumented with hit, miss and
//! update counters. The cached schema may lag the catalog (it is filled from
//! catalog reads and successful extensions) but is never treated as more
//! than a hint: a miss means "ask the catalog", never an error.

use vstd::prelude::*;
use crate::metrics::CacheMetrics;
use crate::metrics::bump;
use crate::metrics::bumped;
use crate::schema::NamespaceSchema;
use crate::schema::SchemaM;
use crate::schema::clone_schema;
use crate::schema::find_namespace;
use crate::schema::lemma_nss_m_update;
use crate::schema::nss_m;
use crate::schema::nss_wf;
use crate::schema::schema_m;
use crate::schema::schema_wf;
use crate::sharder::FNV_OFFSET;
use crate::sharder::hash_chars_from;
use crate::sharder::hash_str_from;

verus! {

/// The plain in-memory cache.
#[derive(Debug)]
pub struct MemoryNamespaceCache {
    entries: Vec<NamespaceSchema>,
}

impl MemoryNamespaceCache {
    pub closed spec fn m(&self) -> Map<Seq<char>, SchemaM> {
        nss_m(self.entries@)
    }

    pub closed spec fn wf(&self) -> bool {
        nss_wf(self.entries@)
    }

    pub fn new() -> (r: MemoryNamespaceCache)
        ensures
            r.wf(),
            r.m() == Map::<Seq<char>, SchemaM>::empty(),
    {
        MemoryNamespaceCache { entries: Vec::new() }
    }

    /// Returns a copy of the cached schema for the name, if any.
    pub fn get(&self, name: &String) -> (r: Option<NamespaceSchema>)
        requires
            self.wf(),
        ensures
            match r {
                Some(s) => self.m().contains_key(name@) && s.name@ == name@ && schema_wf(s)
                    && schema_m(s) == self.m()[name@],
                None => !self.m().contains_key(name@),
            },
    {
        match find_namespace(&self.entries, name) {
            Some(i) => {
                proof {
                    assert(nss_wf(self.entries@));
                }
                Some(clone_schema(&self.entries[i]))
            },
            None => None,
        }
    }

    /// Inserts or replaces the schema under its own name.
    pub fn put(&mut self, s: NamespaceSchema)
        requires
            old(self).wf(),
            schema_wf(s),
        ensures
            final(self).wf(),
            final(self).m() == old(self).m().insert(s.name@, schema_m(s)),
    {
        match find_namespace(&self.entries, &s.name) {
            Some(i) => {
                proof {
                    lemma_nss_m_update(self.entries@, i as int, s);
                }
                self.entries.set(i, s);
            },
            None => {
                let ghost pre = self.entries@;
                self.entries.push(s);
                proof {
                    assert(self.entries@.drop_last() =~= pre);
                    assert forall|a: int, b: int| 0 <= a < b < self.entries@.len() implies (
                    #[trigger] self.entries@[a].name@) != (#[trigger] self.entries@[b].name@) by {
                        if b < self.entries@.len() - 1 {
                            assert(self.entries@[a] == pre[a] && self.entries@[b] == pre[b]);
                        } else {
                            assert(self.entries@[a] == pre[a]);
                            if pre[a].name@ == self.entries@[b].name@ {
                                crate::schema::lemma_nss_m_index(pre, a);
                            }
                        }
                    }
                }
            },
        }
    }
}

/// How many slices the sharded cache is split into.
pub const CACHE_SHARDS: usize = 10;

/// The cache split into independently guarded slices, each name always
/// routed to the same slice by a hash of the name. In a concurrent process
/// this is what keeps validators for different namespaces off each other's
/// locks; here it is the same map, reachable slice by slice.
#[derive(Debug)]
pub struct ShardedCache {
    shards: Vec<MemoryNamespaceCache>,
}

impl ShardedCache {
    /// Which slice a name lives in.
    pub closed spec fn route(&self, name: Seq<char>) -> int {
        hash_chars_from(FNV_OFFSET, name) as int % self.shards@.len() as int
    }

    pub closed spec fn wf(&self) -> bool {
        &&& self.shards@.len() > 0
        &&& forall|i: int| 0 <= i < self.shards@.len() ==> (#[trigger] self.shards@[i]).wf()
        &&& forall|i: int, name: Seq<char>|
            0 <= i < self.shards@.len() && (#[trigger] self.shards@[i].m().contains_key(name))
                ==> self.route(name) == i
    }

    /// The one map all the slices together stand for.
    pub closed spec fn m(&self) -> Map<Seq<char>, SchemaM> {
        Map::new(
            |k: Seq<char>| self.shards@[self.route(k)].m().contains_key(k),
            |k: Seq<char>| self.shards@[self.route(k)].m()[k],
        )
    }

    pub fn new(n: usize) -> (r: ShardedCache)
        requires
            n > 0,
        ensures
            r.wf(),
            r.m() == Map::<Seq<char>, SchemaM>::empty(),
    {
        let mut shards: Vec<MemoryNamespaceCache> = Vec::new();
        let mut i: usize = 0;
        while i < n
            invariant
                i <= n,
                shards@.len() == i,
                forall|j: int|
                    0 <= j < i ==> (#[trigger] shards@[j]).wf() && shards@[j].m() == Map::<
                        Seq<char>,
                        SchemaM,
                    >::empty(),
            decreases n - i,
        {
            shards.push(MemoryNamespaceCache::new());
            i += 1;
        }
        let r = ShardedCache { shards };
        proof {
            assert(r.m() =~= Map::<Seq<char>, SchemaM>::empty());
        }
        r
    }

    /// The slice index a name routes to.
    fn index_for(&self, name: &String) -> (i: usize)
        requires
            self.wf(),
        ensures
            i as int == self.route(name@),
    {
        let h = hash_str_from(FNV_OFFSET, name.as_str());
        (h % (self.shards.len() as u64)) as usize
    }

    /// Returns a copy of the cached schema for the name, if any.
    pub fn get(&self, name: &String) -> (r: Option<NamespaceSchema>)
        requires
            self.wf(),
        ensures
            match r {
                Some(s) => self.m().contains_key(name@) && s.name@ == name@ && schema_wf(s)
                    && schema_m(s) == self.m()[name@],
                None => !self.m().contains_key(name@),
            },
    {
        let i = self.index_for(name);
        self.shards[i].get(name)
    }

    /// Inserts or replaces the schema under its own name, in its own slice.
    pub fn put(&mut self, s: NamespaceSchema)
        requires
            old(self).wf(),
            schema_wf(s),
        ensures
            final(self).wf(),
            final(self).m() == old(self).m().insert(s.name@, schema_m(s)),
    {
        let i = self.index_for(&s.name);
        let ghost name = s.name@;
        let ghost sm = schema_m(s);
        let ghost pre = self.shards@;
        let mut c = self.shards.remove(i);
        c.put(s);
        self.shards.insert(i, c);
        proof {
            assert(self.shards@ =~= pre.update(i as int, c));
            assert forall|j: int, k: Seq<char>|
                0 <= j < self.shards@.len() && (#[trigger] self.shards@[j].m().contains_key(k))
                implies self.route(k) == j by {
                if j == i as int {
                    if k != name {
                        assert(pre[j].m().contains_key(k));
                    }
                } else {
                    assert(self.shards@[j] == pre[j]);
                }
            }
            assert(self.m() =~= old(self).m().insert(name, sm)) by {
                assert forall|k: Seq<char>| #[trigger] self.m().dom().contains(k) == old(
                    self,
                ).m().insert(name, sm).dom().contains(k) && (self.m().dom().contains(k)
                    ==> self.m()[k] == old(self).m().insert(name, sm)[k]) by {
                    let rk = self.route(k);
                    if k == name {
                    } else if rk == i as int {
                        assert(self.shards@[rk].m().contains_key(k) == pre[rk].m().contains_key(
                            k,
                        ));
                    } else {
                        assert(self.shards@[rk] == pre[rk]);
                    }
                }
            }
        }
    }
}

/// The cache wrapped with hit/miss/update instrumentation; the wrapper is
/// transparent: what it returns and stores is exactly what the inner cache
/// would.
#[derive(Debug)]
pub struct InstrumentedCache {
    inner: ShardedCache,
    metrics: CacheMetrics,
}

impl InstrumentedCache {
    pub closed spec fn m(&self) -> Map<Seq<char>, SchemaM> {
        self.inner.m()
    }

    pub closed spec fn wf(&self) -> bool {
        self.inner.wf()
    }

    /// The counters, for contracts.
    pub closed spec fn metrics_m(&self) -> CacheMetrics {
        self.metrics
    }

    /// The counters, for inspection.
    pub fn metrics(&self) -> (r: CacheMetrics)
        ensures
            r == self.metrics_m(),
    {
        self.metrics
    }

    pub fn new() -> (r: InstrumentedCache)
        ensures
            r.wf(),
            r.m() == Map::<Seq<char>, SchemaM>::empty(),
            r.metrics_m() == (CacheMetrics { hit: 0u64, miss: 0u64, update: 0u64 }),
    {
        InstrumentedCache { inner: ShardedCache::new(CACHE_SHARDS), metrics: CacheMetrics::new() }
    }

    /// A lookup that counts its outcome: a hit or a miss.
    pub fn get(&mut self, name: &String) -> (r: Option<NamespaceSchema>)
        requires
            old(self).wf(),
        ensures
            final(self).wf(),
            final(self).m() == old(self).m(),
            final(self).metrics_m().update == old(self).metrics_m().update,
            match r {
                Some(s) => old(self).m().contains_key(name@) && s.name@ == name@ && schema_wf(s)
                    && schema_m(s) == old(self).m()[name@] && final(self).metrics_m() == (CacheMetrics {
                    hit: bumped(old(self).metrics_m().hit),
                    ..old(self).metrics_m()
                }),
                None => !old(self).m().contains_key(name@) && final(self).metrics_m() == (
                CacheMetrics { miss: bumped(old(self).metrics_m().miss), ..old(self).metrics_m() }),
            },
    {
        let r = self.inner.get(name);
        match r {
            Some(s) => {
                self.metrics.hit = bump(self.metrics.hit);
                Some(s)
            },
            None => {
                self.metrics.miss = bump(self.metrics.miss);
                None
            },
        }
    }

    /// An insert that counts itself as an update.
    pub fn put(&mut self, s: NamespaceSchema)
        requires
            old(self).wf(),
            schema_wf(s),
        ensures
            final(self).wf(),
            final(self).m() == old(self).m().insert(s.name@, schema_m(s)),
            final(self).metrics_m() == (CacheMetrics {
                update: bumped(old(self).metrics_m().update),
                ..old(self).metrics_m()
            }),
    {
        self.inner.put(s);
        self.metrics.update = bump(self.metrics.update);
    }
}

} // verus!
