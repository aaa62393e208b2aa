//! Namespace autocreation: before a write is routed, make sure its namespace
//! exists, recording it against a fixed topic, a fixed query pool and an
//! explicit retention policy. A convenience stage: a deployment that
//! pre-provisions namespaces simply leaves it out of the pipeline.

use vstd::prelude::*;
use crate::cache::InstrumentedCache;
use crate::catalog::Catalog;
use crate::catalog::CatalogM;
use crate::errors::CatalogError;
use crate::metrics::CacheMetrics;
use crate::metrics::bumped;
use crate::schema::SchemaM;

verus! {

/// The autocreation stage and its fixed configuration.
#[derive(Debug)]
pub struct NamespaceAutocreation {
    pub topic_id: u64,
    pub query_pool_id: u64,
    pub retention: String,
}

/// What one autocreation call does to the cache and the catalog, and the
/// namespace identity every caller observes.
pub open spec fn spec_autocreate(
    topic_id: int,
    query_pool_id: int,
    retention: Seq<char>,
    cache: Map<Seq<char>, SchemaM>,
    cat: CatalogM,
    name: Seq<char>,
) -> (Map<Seq<char>, SchemaM>, CatalogM, Result<int, CatalogError>) {
    if cache.contains_key(name) {
        (cache, cat, Ok(cache[name].id))
    } else if !cat.available {
        (cache, cat, Err(CatalogError::Unavailable))
    } else if cat.namespaces.contains_key(name) {
        (cache.insert(name, cat.namespaces[name]), cat, Ok(cat.namespaces[name].id))
    } else if cat.next_namespace_id == u64::MAX as int {
        (cache, cat, Err(CatalogError::Unavailable))
    } else {
        let s = SchemaM {
            id: cat.next_namespace_id,
            topic_id,
            query_pool_id,
            retention,
            columns: Map::empty(),
        };
        (
            cache.insert(name, s),
            CatalogM {
                namespaces: cat.namespaces.insert(name, s),
                next_namespace_id: cat.next_namespace_id + 1,
                ..cat
            },
            Ok(s.id),
        )
    }
}

impl NamespaceAutocreation {
    pub fn new(topic_id: u64, query_pool_id: u64, retention: String) -> (r: NamespaceAutocreation)
        ensures
            r.topic_id == topic_id,
            r.query_pool_id == query_pool_id,
            r.retention@ == retention@,
    {
        NamespaceAutocreation { topic_id, query_pool_id, retention }
    }

    /// Ensures the namespace exists: cache hit, or idempotent create-or-get
    /// in the catalog followed by cache population. Returns the namespace
    /// identity; a catalog failure fails the request, with no local retry.
    pub fn ensure_namespace(
        &self,
        cache: &mut InstrumentedCache,
        catalog: &mut Catalog,
        name: &String,
    ) -> (r: Result<u64, CatalogError>)
        requires
            old(cache).wf(),
            old(catalog).wf(),
        ensures
            final(cache).wf(),
            final(catalog).wf(),
            ({
                let (cm, ct, res) = spec_autocreate(
                    self.topic_id as int,
                    self.query_pool_id as int,
                    self.retention@,
                    old(cache).m(),
                    old(catalog).m(),
                    name@,
                );
                final(cache).m() == cm && final(catalog).m() == ct && match (r, res) {
                    (Ok(id), Ok(sid)) => id as int == sid,
                    (Err(e), Err(se)) => e == se,
                    _ => false,
                }
            }),
            final(cache).metrics_m() == if old(cache).m().contains_key(name@) {
                CacheMetrics { hit: bumped(old(cache).metrics_m().hit), ..old(cache).metrics_m() }
            } else if r is Ok {
                CacheMetrics {
                    miss: bumped(old(cache).metrics_m().miss),
                    update: bumped(old(cache).metrics_m().update),
                    ..old(cache).metrics_m()
                }
            } else {
                CacheMetrics { miss: bumped(old(cache).metrics_m().miss), ..old(cache).metrics_m() }
            },
    {
        match cache.get(name) {
            Some(s) => Ok(s.id),
            None => {
                match catalog.namespace_create_or_get(
                    name,
                    self.topic_id,
                    self.query_pool_id,
                    &self.retention,
                ) {
                    Ok(rec) => {
                        let id = rec.id;
                        cache.put(rec);
                        Ok(id)
                    },
                    Err(e) => Err(e),
                }
            },
        }
    }
}

/// Autocreation is idempotent: after one call has created or fetched the
/// namespace, any further call against the resulting catalog — through the
/// filled cache, or from another router whose cache does not know the name
/// yet — observes the very same namespace identity and changes nothing in
/// the catalog.
pub proof fn lemma_autocreate_idempotent(
    topic_id: int,
    query_pool_id: int,
    retention: Seq<char>,
    cache0: Map<Seq<char>, SchemaM>,
    cat0: CatalogM,
    cache1: Map<Seq<char>, SchemaM>,
    name: Seq<char>,
)
    requires
        !cache0.contains_key(name),
        spec_autocreate(topic_id, query_pool_id, retention, cache0, cat0, name).2 is Ok,
        ({
            let (cA, catA, _) = spec_autocreate(topic_id, query_pool_id, retention, cache0, cat0, name);
            cache1 == cA || !cache1.contains_key(name)
        }),
    ensures
        ({
            let (cA, catA, rA) = spec_autocreate(topic_id, query_pool_id, retention, cache0, cat0, name);
            let (cB, catB, rB) = spec_autocreate(topic_id, query_pool_id, retention, cache1, catA, name);
            &&& catB == catA
            &&& rB is Ok
            &&& rB->Ok_0 == rA->Ok_0
            &&& catA.namespaces.contains_key(name)
            &&& catA.namespaces[name].id == rA->Ok_0
        }),
{
    let (cA, catA, rA) = spec_autocreate(topic_id, query_pool_id, retention, cache0, cat0, name);
    assert(catA.namespaces.contains_key(name));
    assert(cA == cache0.insert(name, catA.namespaces[name]));
}

} // verus!
