//! The assembled request pipeline: namespace autocreation (optional — leave
//! it out to require pre-provisioned namespaces), schema validation, time
//! partitioning, and the fan-out into the sharded write buffer, each stage
//! wrapped with invocation/outcome instrumentation and the whole chain
//! instrumented once more. A failing stage short-circuits: no later stage
//! runs, none of its state moves, none of its counters move.

use vstd::prelude::*;
use crate::autocreate::NamespaceAutocreation;
use crate::autocreate::spec_autocreate;
use crate::buffer::PubFailM;
use crate::buffer::SequencerM;
use crate::buffer::ShardedWriteBuffer;
use crate::buffer::spec_fan_out;
use crate::cache::InstrumentedCache;
use crate::catalog::Catalog;
use crate::catalog::CatalogM;
use crate::errors::CatalogError;
use crate::errors::RouterError;
use crate::metrics::CacheMetrics;
use crate::metrics::StageMetrics;
use crate::metrics::bumped;
use crate::partition::PartitionTemplate;
use crate::partition::spec_partition;
use crate::partition::partition_write;
use crate::schema::SchemaM;
use crate::types::TableM;
use crate::types::WriteM;
use crate::types::WriteRequest;
use crate::types::write_m;
use crate::validator::ValidateErrM;
use crate::validator::ValidateState;
use crate::validator::spec_fill;
use crate::validator::spec_validate_cols;
use crate::validator::validate_write;
use crate::validator::write_cols;

verus! {

/// The per-stage counters of the pipeline, plus the whole-request counter.
#[derive(Clone, Copy, Debug, PartialEq, Eq, Structural)]
pub struct RouterMetrics {
    pub request: StageMetrics,
    pub autocreate: StageMetrics,
    pub validate: StageMetrics,
    pub partition: StageMetrics,
    pub publish: StageMetrics,
}

/// A stage counter after recording one invocation with an outcome.
pub open spec fn recorded(m: StageMetrics, success: bool) -> StageMetrics {
    StageMetrics {
        invocations: bumped(m.invocations),
        ok: if success {
            bumped(m.ok)
        } else {
            m.ok
        },
        err: if success {
            m.err
        } else {
            bumped(m.err)
        },
    }
}

/// The outcome of one request, mathematically.
pub ghost enum HandleResM {
    Published { groups: int },
    ErrNamespace { err: CatalogError },
    ErrValidate { err: ValidateErrM },
    ErrPublish { failures: Seq<PubFailM> },
}

/// Everything one request changes.
pub ghost struct HandleOutM {
    pub cache: Map<Seq<char>, SchemaM>,
    pub cat: CatalogM,
    pub seqs: Seq<SequencerM>,
    pub result: HandleResM,
}

/// The whole validation stage: read-through fill, then every column checked.
pub open spec fn spec_validate_full(
    cache: Map<Seq<char>, SchemaM>,
    cat: CatalogM,
    ns: Seq<char>,
    tables: Seq<TableM>,
) -> (Map<Seq<char>, SchemaM>, CatalogM, Result<(), ValidateErrM>) {
    let fill = spec_fill(cache, cat, ns);
    match fill.1 {
        Err(e) => (cache, cat, Err(ValidateErrM::Catalog { err: e })),
        Ok(s0) => {
            let st0 = ValidateState { schema: s0.columns, cat };
            let (st, vr) = spec_validate_cols(ns, st0, write_cols(tables));
            match vr {
                Ok(()) => (
                    fill.0.insert(ns, SchemaM { columns: st.schema, ..s0 }),
                    st.cat,
                    Ok(()),
                ),
                Err(ve) => (fill.0, st.cat, Err(ve)),
            }
        },
    }
}

/// What one request does to the cache, the catalog and the shard logs, and
/// what it returns: the chain of the four stages with short-circuiting.
pub open spec fn spec_handle(
    autocreate: Option<NamespaceAutocreation>,
    part: int,
    cache: Map<Seq<char>, SchemaM>,
    cat: CatalogM,
    seqs: Seq<SequencerM>,
    shards: Seq<u64>,
    w: WriteM,
) -> HandleOutM {
    let (c1, cat1, r1) = match autocreate {
        Some(ac) => spec_autocreate(
            ac.topic_id as int,
            ac.query_pool_id as int,
            ac.retention@,
            cache,
            cat,
            w.namespace,
        ),
        None => (cache, cat, Ok(0)),
    };
    if r1 is Err {
        HandleOutM {
            cache: c1,
            cat: cat1,
            seqs,
            result: HandleResM::ErrNamespace { err: r1->Err_0 },
        }
    } else {
        let (c2, cat2, vr) = spec_validate_full(c1, cat1, w.namespace, w.tables);
        if vr is Err {
            HandleOutM { cache: c2, cat: cat2, seqs, result: HandleResM::ErrValidate { err: vr->Err_0 } }
        } else {
            let groups = spec_partition(w, part);
            let (s2, fails) = spec_fan_out(seqs, shards, groups);
            HandleOutM {
                cache: c2,
                cat: cat2,
                seqs: s2,
                result: if fails.len() == 0 {
                    HandleResM::Published { groups: groups.len() as int }
                } else {
                    HandleResM::ErrPublish { failures: fails }
                },
            }
        }
    }
}

/// Chain short-circuit: when an early stage fails, the later stages never
/// run — the shard logs and the sequencers are exactly as they were.
pub proof fn lemma_chain_short_circuit(
    autocreate: Option<NamespaceAutocreation>,
    part: int,
    cache: Map<Seq<char>, SchemaM>,
    cat: CatalogM,
    seqs: Seq<SequencerM>,
    shards: Seq<u64>,
    w: WriteM,
)
    ensures
        ({
            let out = spec_handle(autocreate, part, cache, cat, seqs, shards, w);
            (out.result is ErrNamespace || out.result is ErrValidate) ==> out.seqs == seqs
        }),
{
}

/// The router pipeline: the composed, instrumented handler chain and the
/// state it owns. The catalog is shared with the rest of the process and
/// passed in per call.
#[derive(Debug)]
pub struct RouterPipeline {
    autocreate: Option<NamespaceAutocreation>,
    template: PartitionTemplate,
    cache: InstrumentedCache,
    buffer: ShardedWriteBuffer,
    metrics: RouterMetrics,
}

impl RouterPipeline {
    pub closed spec fn wf(&self) -> bool {
        self.cache.wf() && self.buffer.wf() && self.template.wf()
    }

    pub closed spec fn autocreate_m(&self) -> Option<NamespaceAutocreation> {
        self.autocreate
    }

    pub closed spec fn part(&self) -> int {
        self.template.part_nanos as int
    }

    pub closed spec fn cache_m(&self) -> Map<Seq<char>, SchemaM> {
        self.cache.m()
    }

    pub closed spec fn cache_metrics_m(&self) -> CacheMetrics {
        self.cache.metrics_m()
    }

    pub closed spec fn seqs_m(&self) -> Seq<SequencerM> {
        self.buffer.seqs_m()
    }

    pub closed spec fn shards(&self) -> Seq<u64> {
        self.buffer.shards()
    }

    pub closed spec fn metrics_m(&self) -> RouterMetrics {
        self.metrics
    }

    /// Assembles the pipeline: the stages are fixed; autocreation is present
    /// exactly when a configuration is given for it.
    pub fn new(
        autocreate: Option<NamespaceAutocreation>,
        template: PartitionTemplate,
        buffer: ShardedWriteBuffer,
    ) -> (r: RouterPipeline)
        requires
            template.wf(),
            buffer.wf(),
        ensures
            r.wf(),
            r.autocreate_m() == autocreate,
            r.part() == template.part_nanos as int,
            r.cache_m() == Map::<Seq<char>, SchemaM>::empty(),
            r.seqs_m() == buffer.seqs_m(),
            r.shards() == buffer.shards(),
            r.metrics_m() == (RouterMetrics {
                request: StageMetrics { invocations: 0u64, ok: 0u64, err: 0u64 },
                autocreate: StageMetrics { invocations: 0u64, ok: 0u64, err: 0u64 },
                validate: StageMetrics { invocations: 0u64, ok: 0u64, err: 0u64 },
                partition: StageMetrics { invocations: 0u64, ok: 0u64, err: 0u64 },
                publish: StageMetrics { invocations: 0u64, ok: 0u64, err: 0u64 },
            }),
    {
        RouterPipeline {
            autocreate,
            template,
            cache: InstrumentedCache::new(),
            buffer,
            metrics: RouterMetrics {
                request: StageMetrics::new(),
                autocreate: StageMetrics::new(),
                validate: StageMetrics::new(),
                partition: StageMetrics::new(),
                publish: StageMetrics::new(),
            },
        }
    }

    /// The stage counters, for inspection.
    pub fn metrics(&self) -> (r: RouterMetrics)
        ensures
            r == self.metrics_m(),
    {
        self.metrics
    }

    /// The cache counters, for inspection.
    pub fn cache_metrics(&self) -> (r: CacheMetrics)
        ensures
            r == self.cache_metrics_m(),
    {
        self.cache.metrics()
    }

    /// The write buffer, for inspecting shard logs.
    pub fn buffer_ref(&self) -> (r: &ShardedWriteBuffer)
        ensures
            r.seqs_m() == self.seqs_m(),
            r.shards() == self.shards(),
            self.wf() ==> r.wf(),
    {
        &self.buffer
    }

    /// Flips one shard's health: the model of a shard going down or up.
    pub fn set_shard_healthy(&mut self, i: usize, healthy: bool)
        requires
            old(self).wf(),
            i < old(self).seqs_m().len(),
        ensures
            final(self).wf(),
            final(self).shards() == old(self).shards(),
            final(self).cache_m() == old(self).cache_m(),
            final(self).cache_metrics_m() == old(self).cache_metrics_m(),
            final(self).metrics_m() == old(self).metrics_m(),
            final(self).autocreate_m() == old(self).autocreate_m(),
            final(self).part() == old(self).part(),
            final(self).seqs_m() == old(self).seqs_m().update(
                i as int,
                SequencerM { healthy, ..old(self).seqs_m()[i as int] },
            ),
    {
        self.buffer.set_shard_healthy(i, healthy);
    }

    /// Handles one write: the full chain, with exact short-circuiting, and
    /// the per-stage counters moved exactly for the stages that ran.
    pub fn handle(&mut self, catalog: &mut Catalog, w: &WriteRequest) -> (r: Result<
        usize,
        RouterError,
    >)
        requires
            old(self).wf(),
            old(catalog).wf(),
        ensures
            final(self).wf(),
            final(catalog).wf(),
            final(self).autocreate_m() == old(self).autocreate_m(),
            final(self).part() == old(self).part(),
            final(self).shards() == old(self).shards(),
            ({
                let out = spec_handle(
                    old(self).autocreate_m(),
                    old(self).part(),
                    old(self).cache_m(),
                    old(catalog).m(),
                    old(self).seqs_m(),
                    old(self).shards(),
                    write_m(*w),
                );
                &&& final(self).cache_m() == out.cache
                &&& final(catalog).m() == out.cat
                &&& final(self).seqs_m() == out.seqs
                &&& match (r, out.result) {
                    (Ok(n), HandleResM::Published { groups }) => n as int == groups,
                    (
                        Err(RouterError::NamespaceCreation(e)),
                        HandleResM::ErrNamespace { err },
                    ) => e == err,
                    (
                        Err(RouterError::SchemaConflict { table, column, existing, requested }),
                        HandleResM::ErrValidate {
                            err: ValidateErrM::Conflict {
                                table: t2,
                                column: c2,
                                existing: e2,
                                requested: r2,
                            },
                        },
                    ) => table@ == t2 && column@ == c2 && existing == e2 && requested == r2,
                    (
                        Err(RouterError::SchemaCatalog(e)),
                        HandleResM::ErrValidate { err: ValidateErrM::Catalog { err } },
                    ) => e == err,
                    (
                        Err(RouterError::WriteBuffer(fs)),
                        HandleResM::ErrPublish { failures },
                    ) => fs@.len() == failures.len() && forall|k: int|
                        0 <= k < failures.len() ==> ((#[trigger] fs@[k]).group as int
                            == failures[k].group && fs@[k].key as int == failures[k].key
                            && fs@[k].shard == failures[k].shard),
                    _ => false,
                }
                &&& final(self).metrics_m() == ({
                    let m0 = old(self).metrics_m();
                    let m1 = RouterMetrics {
                        autocreate: if old(self).autocreate_m() is Some {
                            recorded(m0.autocreate, !(out.result is ErrNamespace))
                        } else {
                            m0.autocreate
                        },
                        ..m0
                    };
                    let m2 = if out.result is ErrNamespace {
                        m1
                    } else {
                        RouterMetrics {
                            validate: recorded(m1.validate, !(out.result is ErrValidate)),
                            ..m1
                        }
                    };
                    let m3 = if out.result is ErrNamespace || out.result is ErrValidate {
                        m2
                    } else {
                        RouterMetrics {
                            partition: recorded(m2.partition, true),
                            publish: recorded(m2.publish, out.result is Published),
                            ..m2
                        }
                    };
                    RouterMetrics { request: recorded(m3.request, out.result is Published), ..m3 }
                })
            }),
    {
        let mut ok_so_far = true;
        match &self.autocreate {
            Some(ac) => {
                let res = ac.ensure_namespace(&mut self.cache, catalog, &w.namespace);
                match res {
                    Ok(_) => {
                        self.metrics.autocreate.record(true);
                    },
                    Err(e) => {
                        self.metrics.autocreate.record(false);
                        self.metrics.request.record(false);
                        return Err(RouterError::NamespaceCreation(e));
                    },
                }
            },
            None => {},
        }
        let vres = validate_write(&mut self.cache, catalog, w);
        match vres {
            Ok(_) => {
                self.metrics.validate.record(true);
            },
            Err(e) => {
                self.metrics.validate.record(false);
                self.metrics.request.record(false);
                return Err(e);
            },
        }
        let groups = partition_write(w, &self.template);
        self.metrics.partition.record(true);
        let fres = self.buffer.fan_out(&groups);
        match fres {
            Ok(n) => {
                self.metrics.publish.record(true);
                self.metrics.request.record(true);
                Ok(n)
            },
            Err(e) => {
                self.metrics.publish.record(false);
                self.metrics.request.record(false);
                Err(e)
            },
        }
    }
}

} // verus!
