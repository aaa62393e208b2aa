//! The write-buffer side: a sequencer owns one shard of the durable log and
//! serializes appends to it; the sharded write buffer composes the sharder
//! with the full sequencer set, routing each table batch by its
//! (namespace, table) key. The fan-out runs every partition group, lets
//! siblings complete whatever any one group does, and reports exactly which
//! groups failed.

use vstd::prelude::*;
use crate::errors::PublishFailure;
use crate::errors::RouterError;
use crate::partition::GroupM;
use crate::partition::PartitionedWrite;
use crate::partition::group_m;
use crate::partition::groups_m;
use crate::sharder::Sharder;
use crate::sharder::assign;
use crate::sharder::lemma_assign_in;
use crate::sharder::route_hash;
use crate::sharder::route_hash_exec;
use crate::types::Row;
use crate::types::RowM;
use crate::types::TableM;
use crate::types::TableWrite;
use crate::types::clone_table;
use crate::types::rows_m;
use crate::types::table_m;
use crate::types::tables_m;

verus! {

/// One batch as appended to a shard's log.
#[derive(Debug)]
pub struct PublishedBatch {
    pub namespace: String,
    pub table: String,
    pub key: i64,
    pub rows: Vec<Row>,
}

/// Mathematical view of a published batch.
pub ghost struct BatchM {
    pub namespace: Seq<char>,
    pub table: Seq<char>,
    pub key: int,
    pub rows: Seq<RowM>,
}

pub open spec fn batch_m(b: PublishedBatch) -> BatchM {
    BatchM { namespace: b.namespace@, table: b.table@, key: b.key as int, rows: rows_m(b.rows@) }
}

/// Mathematical view of a sequencer: its shard, its health, and the ordered
/// log of batches it has appended.
pub ghost struct SequencerM {
    pub shard_id: u64,
    pub healthy: bool,
    pub log: Seq<BatchM>,
}

/// Owns one write-buffer shard; publishes are serialized through it, so the
/// shard's log order is exactly the order of the publish calls.
#[derive(Debug)]
pub struct Sequencer {
    shard_id: u64,
    healthy: bool,
    log: Vec<PublishedBatch>,
}

impl Sequencer {
    pub closed spec fn m(&self) -> SequencerM {
        SequencerM {
            shard_id: self.shard_id,
            healthy: self.healthy,
            log: self.log@.map_values(|b: PublishedBatch| batch_m(b)),
        }
    }

    pub fn new(shard_id: u64) -> (r: Sequencer)
        ensures
            r.m() == (SequencerM { shard_id, healthy: true, log: Seq::<BatchM>::empty() }),
    {
        let r = Sequencer { shard_id, healthy: true, log: Vec::new() };
        proof {
            assert(r.m().log =~= Seq::<BatchM>::empty());
        }
        r
    }

    /// The health switch: the model of the physical shard accepting or
    /// refusing appends.
    pub fn set_healthy(&mut self, healthy: bool)
        ensures
            final(self).m() == (SequencerM { healthy, ..old(self).m() }),
    {
        self.healthy = healthy;
    }

    /// Appends a batch to the shard's log; a refused append changes nothing.
    pub fn publish(&mut self, b: PublishedBatch) -> (r: bool)
        ensures
            r == old(self).m().healthy,
            final(self).m() == if old(self).m().healthy {
                SequencerM { log: old(self).m().log.push(batch_m(b)), ..old(self).m() }
            } else {
                old(self).m()
            },
    {
        if self.healthy {
            let ghost pre = self.log@;
            self.log.push(b);
            proof {
                assert(self.log@.map_values(|x: PublishedBatch| batch_m(x)) =~= pre.map_values(
                    |x: PublishedBatch| batch_m(x),
                ).push(batch_m(b)));
            }
            true
        } else {
            false
        }
    }

    pub fn shard_id(&self) -> (r: u64)
        ensures
            r == self.m().shard_id,
    {
        self.shard_id
    }

    pub fn log_len(&self) -> (r: usize)
        ensures
            r == self.m().log.len(),
    {
        self.log.len()
    }

    /// One appended batch, for inspection.
    pub fn log_entry(&self, i: usize) -> (r: &PublishedBatch)
        requires
            i < self.m().log.len(),
        ensures
            batch_m(*r) == self.m().log[i as int],
    {
        &self.log[i]
    }
}

/// The index of the shard a hashed key routes to, in the canonical order.
pub open spec fn target_index(shards: Seq<u64>, kh: u64) -> int {
    shards.index_of(assign(shards, kh))
}

/// What publishing one table batch does: one append to the routed shard, or
/// the routed shard's identifier when it refuses.
pub open spec fn spec_publish_table(
    seqs: Seq<SequencerM>,
    shards: Seq<u64>,
    ns: Seq<char>,
    key: int,
    t: TableM,
) -> (Seq<SequencerM>, Option<u64>) {
    let idx = target_index(shards, route_hash(ns, t.name));
    let s = seqs[idx];
    if s.healthy {
        (
            seqs.update(
                idx,
                SequencerM {
                    log: s.log.push(BatchM { namespace: ns, table: t.name, key, rows: t.rows }),
                    ..s
                },
            ),
            None,
        )
    } else {
        (seqs, Some(s.shard_id))
    }
}

/// Publishing one partition group: every table batch is attempted, in table
/// order; the first refusing shard is reported.
pub open spec fn spec_publish_group(seqs: Seq<SequencerM>, shards: Seq<u64>, g: GroupM) -> (
    Seq<SequencerM>,
    Option<u64>,
)
    decreases g.tables.len(),
{
    if g.tables.len() == 0 {
        (seqs, None)
    } else {
        let (s1, e1) = spec_publish_group(
            seqs,
            shards,
            GroupM { tables: g.tables.drop_last(), ..g },
        );
        let (s2, e2) = spec_publish_table(s1, shards, g.namespace, g.key, g.tables.last());
        (s2, if e1 is Some {
            e1
        } else {
            e2
        })
    }
}

/// A failure record of the fan-out, mathematically.
pub ghost struct PubFailM {
    pub group: int,
    pub key: int,
    pub shard: u64,
}

/// The fan-out: every group is attempted whatever its siblings did; the
/// failures name each failed group, in group order.
pub open spec fn spec_fan_out(seqs: Seq<SequencerM>, shards: Seq<u64>, groups: Seq<GroupM>) -> (
    Seq<SequencerM>,
    Seq<PubFailM>,
)
    decreases groups.len(),
{
    if groups.len() == 0 {
        (seqs, Seq::empty())
    } else {
        let (s1, f1) = spec_fan_out(seqs, shards, groups.drop_last());
        let (s2, e2) = spec_publish_group(s1, shards, groups.last());
        (s2, match e2 {
            Some(sh) => f1.push(
                PubFailM { group: groups.len() - 1, key: groups.last().key, shard: sh },
            ),
            None => f1,
        })
    }
}

/// The sharded write buffer: the sharder plus one sequencer per shard, in
/// the same canonical order. Built once at startup; shard membership is
/// static for the process lifetime.
#[derive(Debug)]
pub struct ShardedWriteBuffer {
    sharder: Sharder,
    sequencers: Vec<Sequencer>,
}

impl ShardedWriteBuffer {
    pub closed spec fn shards(&self) -> Seq<u64> {
        self.sharder.shard_seq()
    }

    pub closed spec fn seqs_m(&self) -> Seq<SequencerM> {
        self.sequencers@.map_values(|s: Sequencer| s.m())
    }

    pub closed spec fn wf(&self) -> bool {
        &&& self.sharder.wf()
        &&& self.sequencers@.len() == self.sharder.shard_seq().len()
        &&& forall|i: int|
            0 <= i < self.sequencers@.len() ==> (#[trigger] self.sequencers@[i].m()).shard_id
                == self.sharder.shard_seq()[i]
    }

    /// One sequencer per shard of the sharder, all healthy, logs empty.
    pub fn new(sharder: Sharder) -> (r: ShardedWriteBuffer)
        requires
            sharder.wf(),
        ensures
            r.wf(),
            r.shards() == sharder.shard_seq(),
            r.seqs_m().len() == sharder.shard_seq().len(),
            forall|i: int|
                0 <= i < r.seqs_m().len() ==> r.seqs_m()[i] == (SequencerM {
                    shard_id: sharder.shard_seq()[i],
                    healthy: true,
                    log: Seq::<BatchM>::empty(),
                }),
    {
        let n = sharder.shard_count();
        let mut sequencers: Vec<Sequencer> = Vec::new();
        let mut i: usize = 0;
        while i < n
            invariant
                sharder.wf(),
                n == sharder.shard_seq().len(),
                i <= n,
                sequencers@.len() == i,
                forall|j: int|
                    0 <= j < i ==> (#[trigger] sequencers@[j]).m() == (SequencerM {
                        shard_id: sharder.shard_seq()[j],
                        healthy: true,
                        log: Seq::<BatchM>::empty(),
                    }),
            decreases n - i,
        {
            let id = sharder.shard_ids()[i];
            sequencers.push(Sequencer::new(id));
            i += 1;
        }
        ShardedWriteBuffer { sharder, sequencers }
    }

    pub fn shard_count(&self) -> (r: usize)
        requires
            self.wf(),
        ensures
            r == self.shards().len(),
    {
        self.sequencers.len()
    }

    /// The sequencer at a canonical position, for inspection.
    pub fn sequencer(&self, i: usize) -> (r: &Sequencer)
        requires
            i < self.seqs_m().len(),
        ensures
            r.m() == self.seqs_m()[i as int],
    {
        &self.sequencers[i]
    }

    /// Flips one shard's health: the model of a shard going down or up.
    pub fn set_shard_healthy(&mut self, i: usize, healthy: bool)
        requires
            old(self).wf(),
            i < old(self).seqs_m().len(),
        ensures
            final(self).wf(),
            final(self).shards() == old(self).shards(),
            final(self).seqs_m() == old(self).seqs_m().update(
                i as int,
                SequencerM { healthy, ..old(self).seqs_m()[i as int] },
            ),
    {
        let ghost pre = self.sequencers@;
        let mut s = self.sequencers.remove(i);
        s.set_healthy(healthy);
        self.sequencers.insert(i, s);
        proof {
            assert(self.sequencers@ =~= pre.update(i as int, s));
            assert(self.sequencers@.map_values(|q: Sequencer| q.m()) =~= pre.map_values(
                |q: Sequencer| q.m(),
            ).update(i as int, s.m()));
        }
    }

    /// Publishes one table batch: routes by (namespace, table) and appends to
    /// the routed sequencer; a refusing shard is reported by identifier.
    fn publish_one_table(&mut self, ns: &String, key: i64, t: &TableWrite) -> (r: Option<u64>)
        requires
            old(self).wf(),
        ensures
            final(self).wf(),
            final(self).shards() == old(self).shards(),
            (final(self).seqs_m(), r) == spec_publish_table(
                old(self).seqs_m(),
                old(self).shards(),
                ns@,
                key as int,
                table_m(*t),
            ),
    {
        let kh = route_hash_exec(ns.as_str(), t.name.as_str());
        let target = self.sharder.shard_of_hash(kh);
        proof {
            self.sharder.lemma_wf_sorted();
            lemma_assign_in(self.shards(), kh);
        }
        let ghost idx0 = target_index(self.shards(), kh);
        proof {
            assert(self.shards().contains(target));
            assert(0 <= idx0 < self.shards().len() && self.shards()[idx0] == target);
        }
        let n = self.sequencers.len();
        let mut j: usize = 0;
        while j < n && self.sequencers[j].shard_id() != target
            invariant
                self == old(self),
                self.wf(),
                n == self.sequencers@.len(),
                j <= n,
                target == assign(self.shards(), kh),
                forall|k: int| 0 <= k < j ==> self.shards()[k] != target,
            decreases n - j,
        {
            j += 1;
        }
        proof {
            if j == n {
                assert(self.shards()[idx0] == target);
                assert(false);
            }
            assert(self.shards()[j as int] == target);
            assert(j as int == idx0);
        }
        let tc = clone_table(t);
        let batch = PublishedBatch { namespace: ns.clone(), table: tc.name, key, rows: tc.rows };
        let ghost pre = self.sequencers@;
        let mut s = self.sequencers.remove(j);
        let ok = s.publish(batch);
        let sid = s.shard_id();
        self.sequencers.insert(j, s);
        proof {
            assert(self.sequencers@ =~= pre.update(j as int, s));
            assert(self.sequencers@.map_values(|q: Sequencer| q.m()) =~= pre.map_values(
                |q: Sequencer| q.m(),
            ).update(j as int, s.m()));
            assert(batch_m(batch) == (BatchM {
                namespace: ns@,
                table: table_m(*t).name,
                key: key as int,
                rows: table_m(*t).rows,
            }));
            if !ok {
                assert(self.sequencers@.map_values(|q: Sequencer| q.m()) =~= pre.map_values(
                    |q: Sequencer| q.m(),
                ));
            }
        }
        if ok {
            None
        } else {
            Some(sid)
        }
    }

    /// Publishes one partition group: every table batch is attempted, in
    /// table order, whatever earlier batches did; the first refusing shard
    /// is reported.
    pub fn publish_group(&mut self, g: &PartitionedWrite) -> (r: Option<u64>)
        requires
            old(self).wf(),
        ensures
            final(self).wf(),
            final(self).shards() == old(self).shards(),
            (final(self).seqs_m(), r) == spec_publish_group(
                old(self).seqs_m(),
                old(self).shards(),
                group_m(*g),
            ),
    {
        let mut err: Option<u64> = None;
        let mut j: usize = 0;
        while j < g.tables.len()
            invariant
                self.wf(),
                self.shards() == old(self).shards(),
                j <= g.tables@.len(),
                (self.seqs_m(), err) == spec_publish_group(
                    old(self).seqs_m(),
                    old(self).shards(),
                    GroupM { tables: tables_m(g.tables@.subrange(0, j as int)), ..group_m(*g) },
                ),
            decreases g.tables@.len() - j,
        {
            let ghost gpre = GroupM { tables: tables_m(g.tables@.subrange(0, j as int)), ..group_m(*g) };
            let ghost gpost = GroupM { tables: tables_m(g.tables@.subrange(0, j + 1)), ..group_m(*g) };
            proof {
                assert(gpost.tables.drop_last() =~= gpre.tables);
                assert((GroupM { tables: gpost.tables.drop_last(), ..gpost }) == gpre);
                assert(gpost.tables.last() == table_m(g.tables@[j as int]));
            }
            let r2 = self.publish_one_table(&g.namespace, g.key, &g.tables[j]);
            if err.is_none() {
                err = r2;
            }
            j += 1;
        }
        proof {
            assert(g.tables@.subrange(0, g.tables@.len() as int) =~= g.tables@);
            assert((GroupM {
                tables: tables_m(g.tables@),
                ..group_m(*g)
            }) == group_m(*g));
        }
        err
    }

    /// The fan-out: applies the publish to every partition group, lets every
    /// group run whatever its siblings did, and reports a failure naming
    /// each group that failed, in group order. Succeeds only when every
    /// group published.
    pub fn fan_out(&mut self, groups: &Vec<PartitionedWrite>) -> (r: Result<usize, RouterError>)
        requires
            old(self).wf(),
        ensures
            final(self).wf(),
            final(self).shards() == old(self).shards(),
            ({
                let (s2, fails) = spec_fan_out(
                    old(self).seqs_m(),
                    old(self).shards(),
                    groups_m(groups@),
                );
                final(self).seqs_m() == s2 && match r {
                    Ok(n) => fails.len() == 0 && n == groups@.len(),
                    Err(RouterError::WriteBuffer(fs)) => fails.len() > 0 && fs@.len()
                        == fails.len() && forall|k: int|
                        0 <= k < fails.len() ==> ((#[trigger] fs@[k]).group as int
                            == fails[k].group && fs@[k].key as int == fails[k].key && fs@[k].shard
                            == fails[k].shard),
                    _ => false,
                }
            }),
    {
        let mut fails: Vec<PublishFailure> = Vec::new();
        let mut i: usize = 0;
        while i < groups.len()
            invariant
                self.wf(),
                self.shards() == old(self).shards(),
                i <= groups@.len(),
                ({
                    let (s2, fl) = spec_fan_out(
                        old(self).seqs_m(),
                        old(self).shards(),
                        groups_m(groups@.subrange(0, i as int)),
                    );
                    self.seqs_m() == s2 && fails@.len() == fl.len() && forall|k: int|
                        0 <= k < fl.len() ==> ((#[trigger] fails@[k]).group as int == fl[k].group
                            && fails@[k].key as int == fl[k].key && fails@[k].shard == fl[k].shard)
                }),
            decreases groups@.len() - i,
        {
            proof {
                assert(groups_m(groups@.subrange(0, i + 1)).drop_last() =~= groups_m(
                    groups@.subrange(0, i as int),
                ));
                assert(groups_m(groups@.subrange(0, i + 1)).last() == group_m(
                    groups@[i as int],
                ));
            }
            let r2 = self.publish_group(&groups[i]);
            match r2 {
                Some(shard) => {
                    fails.push(PublishFailure { group: i, key: groups[i].key, shard });
                },
                None => {},
            }
            i += 1;
        }
        proof {
            assert(groups@.subrange(0, groups@.len() as int) =~= groups@);
        }
        if fails.len() == 0 {
            Ok(groups.len())
        } else {
            Err(RouterError::WriteBuffer(fails))
        }
    }
}

/// One table publish only ever appends to one log.
proof fn lemma_publish_table_append_only(
    seqs: Seq<SequencerM>,
    shards: Seq<u64>,
    ns: Seq<char>,
    key: int,
    t: TableM,
)
    requires
        shards.len() > 0,
        seqs.len() == shards.len(),
    ensures
        ({
            let (s2, e) = spec_publish_table(seqs, shards, ns, key, t);
            s2.len() == seqs.len() && forall|k: int|
                0 <= k < seqs.len() ==> (#[trigger] s2[k]).shard_id == seqs[k].shard_id
                    && s2[k].healthy == seqs[k].healthy && s2[k].log.len() >= seqs[k].log.len()
                    && s2[k].log.subrange(0, seqs[k].log.len() as int) == seqs[k].log
        }),
{
    let kh = route_hash(ns, t.name);
    lemma_assign_in(shards, kh);
    let idx = target_index(shards, kh);
    assert(0 <= idx < shards.len() && shards[idx] == assign(shards, kh));
    let (s2, e) = spec_publish_table(seqs, shards, ns, key, t);
    assert forall|k: int| 0 <= k < seqs.len() implies (#[trigger] s2[k]).shard_id
        == seqs[k].shard_id && s2[k].healthy == seqs[k].healthy && s2[k].log.len()
        >= seqs[k].log.len() && s2[k].log.subrange(0, seqs[k].log.len() as int) == seqs[k].log by {
        if seqs[idx].healthy && k == idx {
            assert(s2[k].log == seqs[k].log.push(
                BatchM { namespace: ns, table: t.name, key, rows: t.rows },
            ));
            assert(s2[k].log.subrange(0, seqs[k].log.len() as int) =~= seqs[k].log);
        } else {
            assert(s2[k] == seqs[k]);
            assert(s2[k].log.subrange(0, seqs[k].log.len() as int) =~= seqs[k].log);
        }
    }
}

/// A group publish only ever appends.
proof fn lemma_publish_group_append_only(seqs: Seq<SequencerM>, shards: Seq<u64>, g: GroupM)
    requires
        shards.len() > 0,
        seqs.len() == shards.len(),
    ensures
        ({
            let (s2, e) = spec_publish_group(seqs, shards, g);
            s2.len() == seqs.len() && forall|k: int|
                0 <= k < seqs.len() ==> (#[trigger] s2[k]).shard_id == seqs[k].shard_id
                    && s2[k].healthy == seqs[k].healthy && s2[k].log.len() >= seqs[k].log.len()
                    && s2[k].log.subrange(0, seqs[k].log.len() as int) == seqs[k].log
        }),
    decreases g.tables.len(),
{
    if g.tables.len() == 0 {
    } else {
        let gp = GroupM { tables: g.tables.drop_last(), ..g };
        lemma_publish_group_append_only(seqs, shards, gp);
        let (s1, e1) = spec_publish_group(seqs, shards, gp);
        lemma_publish_table_append_only(s1, shards, g.namespace, g.key, g.tables.last());
        let (s2, e2) = spec_publish_table(s1, shards, g.namespace, g.key, g.tables.last());
        assert forall|k: int| 0 <= k < seqs.len() implies (#[trigger] s2[k]).log.subrange(
            0,
            seqs[k].log.len() as int,
        ) == seqs[k].log && s2[k].log.len() >= seqs[k].log.len() by {
            assert(s1[k].log.subrange(0, seqs[k].log.len() as int) == seqs[k].log);
            assert(s2[k].log.subrange(0, s1[k].log.len() as int) == s1[k].log);
            assert(s2[k].log.subrange(0, seqs[k].log.len() as int) =~= s2[k].log.subrange(
                0,
                s1[k].log.len() as int,
            ).subrange(0, seqs[k].log.len() as int));
        }
    }
}

/// Fan-out never cancels a sibling: whatever any group did, every append a
/// sequencer took stays in its log, in order, and health and identity are
/// untouched. A failed group rolls nothing back.
pub proof fn lemma_fan_out_append_only(seqs: Seq<SequencerM>, shards: Seq<u64>, groups: Seq<GroupM>)
    requires
        shards.len() > 0,
        seqs.len() == shards.len(),
    ensures
        ({
            let (s2, fl) = spec_fan_out(seqs, shards, groups);
            s2.len() == seqs.len() && forall|k: int|
                0 <= k < seqs.len() ==> (#[trigger] s2[k]).shard_id == seqs[k].shard_id
                    && s2[k].healthy == seqs[k].healthy && s2[k].log.len() >= seqs[k].log.len()
                    && s2[k].log.subrange(0, seqs[k].log.len() as int) == seqs[k].log
        }),
    decreases groups.len(),
{
    if groups.len() == 0 {
    } else {
        lemma_fan_out_append_only(seqs, shards, groups.drop_last());
        let (s1, f1) = spec_fan_out(seqs, shards, groups.drop_last());
        lemma_publish_group_append_only(s1, shards, groups.last());
        let (s2, e2) = spec_publish_group(s1, shards, groups.last());
        assert forall|k: int| 0 <= k < seqs.len() implies (#[trigger] s2[k]).log.subrange(
            0,
            seqs[k].log.len() as int,
        ) == seqs[k].log && s2[k].log.len() >= seqs[k].log.len() by {
            assert(s1[k].log.subrange(0, seqs[k].log.len() as int) == seqs[k].log);
            assert(s2[k].log.subrange(0, s1[k].log.len() as int) == s1[k].log);
            assert(s2[k].log.subrange(0, seqs[k].log.len() as int) =~= s2[k].log.subrange(
                0,
                s1[k].log.len() as int,
            ).subrange(0, seqs[k].log.len() as int));
        }
    }
}

/// Every reported failure names a real group, with that group's key, in
/// group order: which partition failed is never lost.
pub proof fn lemma_fan_out_failures(seqs: Seq<SequencerM>, shards: Seq<u64>, groups: Seq<GroupM>)
    ensures
        ({
            let (s2, fl) = spec_fan_out(seqs, shards, groups);
            forall|k: int|
                0 <= k < fl.len() ==> 0 <= (#[trigger] fl[k]).group < groups.len()
                    && fl[k].key == groups[fl[k].group].key
        }),
    decreases groups.len(),
{
    if groups.len() == 0 {
    } else {
        lemma_fan_out_failures(seqs, shards, groups.drop_last());
        let (s1, f1) = spec_fan_out(seqs, shards, groups.drop_last());
        let (s2, fl) = spec_fan_out(seqs, shards, groups);
        assert forall|k: int| 0 <= k < fl.len() implies 0 <= (#[trigger] fl[k]).group
            < groups.len() && fl[k].key == groups[fl[k].group].key by {
            if k < f1.len() {
                assert(fl[k] == f1[k]);
                assert(groups.drop_last()[f1[k].group] == groups[f1[k].group]);
            } else {
                assert(fl[k].group == groups.len() - 1);
                assert(groups[groups.len() - 1] == groups.last());
            }
        }
    }
}

} // verus!
