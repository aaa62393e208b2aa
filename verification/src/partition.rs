//! Time-based partitioning: a validated write is split into one group per
//! partition key, the key being the row's timestamp truncated to a configured
//! window (for example one calendar day). Partitioning is deterministic and
//! side-effect free; every row lands in exactly one group and no group is
//! empty.

use vstd::prelude::*;
use crate::types::{Row, RowM, TableM, TableWrite, WriteM, WriteRequest, clone_row, row_m, rows_m,
    table_m, tables_m, write_m};

verus! {

pub const NANOS_PER_DAY: u64 = 86_400_000_000_000;

/// The partition template: rows are grouped by timestamp truncated to windows
/// of `part_nanos` nanoseconds, aligned to the epoch.
#[derive(Clone, Copy, Debug)]
pub struct PartitionTemplate {
    pub part_nanos: u64,
}

impl PartitionTemplate {
    /// Well-formed: the window is not empty.
    pub open spec fn wf(&self) -> bool {
        self.part_nanos > 0
    }

    /// The calendar-day template.
    pub fn day() -> (r: PartitionTemplate)
        ensures
            r.wf(),
            r.part_nanos == NANOS_PER_DAY,
    {
        PartitionTemplate { part_nanos: NANOS_PER_DAY }
    }
}

/// The partition key of a timestamp: its window index, rounding toward
/// negative infinity.
pub open spec fn spec_key(time: int, part: int) -> int
    recommends
        part > 0,
{
    time / part
}

/// Executable twin of [`spec_key`] on a row timestamp.
pub fn partition_key(time: i64, tpl: &PartitionTemplate) -> (k: i64)
    requires
        tpl.wf(),
    ensures
        k as int == spec_key(time as int, tpl.part_nanos as int),
{
    let p: i128 = tpl.part_nanos as i128;
    let t: i128 = time as i128;
    if t >= 0 {
        let q: u128 = (t as u128) / (p as u128);
        proof {
            assert(t as u128 == time as int);
            assert(p as u128 == tpl.part_nanos as int);
        }
        q as i64
    } else {
        let m: u128 = (-t) as u128;
        let q: u128 = (m + (p as u128) - 1) / (p as u128);
        let r: i128 = -(q as i128);
        proof {
            let ti = time as int;
            let pi = tpl.part_nanos as int;
            vstd::arithmetic::div_mod::lemma_fundamental_div_mod(ti, pi);
            let d = ti / pi;
            let rr = ti % pi;
            assert(0 <= rr < pi) by {
                vstd::arithmetic::div_mod::lemma_mod_bound(ti, pi);
            }
            assert(m == -ti);
            assert(ti == pi * d + rr);
            assert(m + pi - 1 == (-d) * pi + (pi - 1 - rr)) by (nonlinear_arith)
                requires
                    ti == pi * d + rr,
                    m == -ti,
            ;
            vstd::arithmetic::div_mod::lemma_fundamental_div_mod_converse(
                m as int + pi - 1,
                pi,
                -d,
                pi - 1 - rr,
            );
            assert(q == -d);
            assert(d <= 0 && -d <= m) by (nonlinear_arith)
                requires
                    pi > 0,
                    ti < 0,
                    ti == pi * d + rr,
                    0 <= rr < pi,
                    m == -ti,
            ;
        }
        r as i64
    }
}

/// The keys of a row sequence, in row order.
pub open spec fn table_keys(rows: Seq<RowM>, part: int) -> Seq<int> {
    rows.map_values(|r: RowM| spec_key(r.time, part))
}

/// The keys of all rows of a write, tables in order, rows in order.
pub open spec fn all_keys(tables: Seq<TableM>, part: int) -> Seq<int>
    decreases tables.len(),
{
    if tables.len() == 0 {
        Seq::empty()
    } else {
        all_keys(tables.drop_last(), part) + table_keys(tables.last().rows, part)
    }
}

/// The distinct values of a sequence, in first-encounter order.
pub open spec fn distinct_keys(s: Seq<int>) -> Seq<int>
    decreases s.len(),
{
    if s.len() == 0 {
        Seq::empty()
    } else {
        let p = distinct_keys(s.drop_last());
        if p.contains(s.last()) {
            p
        } else {
            p.push(s.last())
        }
    }
}

/// The rows of `rows` whose key is `k`, in order.
pub open spec fn rows_with_key(rows: Seq<RowM>, part: int, k: int) -> Seq<RowM>
    decreases rows.len(),
{
    if rows.len() == 0 {
        Seq::empty()
    } else {
        let p = rows_with_key(rows.drop_last(), part, k);
        if spec_key(rows.last().time, part) == k {
            p.push(rows.last())
        } else {
            p
        }
    }
}

/// The tables of a write restricted to rows of key `k`; tables left with no
/// rows are dropped.
pub open spec fn tables_with_key(tables: Seq<TableM>, part: int, k: int) -> Seq<TableM>
    decreases tables.len(),
{
    if tables.len() == 0 {
        Seq::empty()
    } else {
        let p = tables_with_key(tables.drop_last(), part, k);
        let fr = rows_with_key(tables.last().rows, part, k);
        if fr.len() > 0 {
            p.push(TableM { name: tables.last().name, rows: fr })
        } else {
            p
        }
    }
}

/// Mathematical view of one partition group.
pub ghost struct GroupM {
    pub key: int,
    pub namespace: Seq<char>,
    pub tables: Seq<TableM>,
}

/// What partitioning returns: one group per distinct key, in first-encounter
/// order, holding exactly the rows of that key. A pure function of the
/// write's view and the template.
pub open spec fn spec_partition(w: WriteM, part: int) -> Seq<GroupM> {
    distinct_keys(all_keys(w.tables, part)).map_values(
        |k: int| GroupM { key: k, namespace: w.namespace, tables: tables_with_key(w.tables, part, k) },
    )
}

/// One partition group: the subset of a write whose rows share one key.
#[derive(Debug)]
pub struct PartitionedWrite {
    pub key: i64,
    pub namespace: String,
    pub tables: Vec<TableWrite>,
}

pub open spec fn group_m(g: PartitionedWrite) -> GroupM {
    GroupM { key: g.key as int, namespace: g.namespace@, tables: tables_m(g.tables@) }
}

pub open spec fn groups_m(s: Seq<PartitionedWrite>) -> Seq<GroupM> {
    s.map_values(|g: PartitionedWrite| group_m(g))
}

fn contains_key(v: &Vec<i64>, x: i64) -> (b: bool)
    ensures
        b == v@.map_values(|y: i64| y as int).contains(x as int),
{
    let mut i: usize = 0;
    while i < v.len()
        invariant
            i <= v@.len(),
            forall|j: int| 0 <= j < i ==> v@[j] != x,
        decreases v@.len() - i,
    {
        if v[i] == x {
            proof {
                assert(v@.map_values(|y: i64| y as int)[i as int] == x as int);
            }
            return true;
        }
        i += 1;
    }
    proof {
        let mv = v@.map_values(|y: i64| y as int);
        assert forall|j: int| 0 <= j < mv.len() implies mv[j] != x as int by {
            assert(mv[j] == v@[j] as int);
        }
    }
    false
}

fn collect_keys(w: &WriteRequest, tpl: &PartitionTemplate) -> (keys: Vec<i64>)
    requires
        tpl.wf(),
    ensures
        keys@.map_values(|y: i64| y as int) == distinct_keys(
            all_keys(write_m(*w).tables, tpl.part_nanos as int),
        ),
{
    let ghost part = tpl.part_nanos as int;
    let mut keys: Vec<i64> = Vec::new();
    let mut i: usize = 0;
    while i < w.tables.len()
        invariant
            tpl.wf(),
            part == tpl.part_nanos as int,
            i <= w.tables@.len(),
            keys@.map_values(|y: i64| y as int) == distinct_keys(
                all_keys(tables_m(w.tables@.subrange(0, i as int)), part),
            ),
        decreases w.tables@.len() - i,
    {
        let t = &w.tables[i];
        let ghost base = all_keys(tables_m(w.tables@.subrange(0, i as int)), part);
        let mut j: usize = 0;
        while j < t.rows.len()
            invariant
                tpl.wf(),
                part == tpl.part_nanos as int,
                j <= t.rows@.len(),
                t == &w.tables[i as int],
                0 <= i < w.tables@.len(),
                base == all_keys(tables_m(w.tables@.subrange(0, i as int)), part),
                keys@.map_values(|y: i64| y as int) == distinct_keys(
                    base + table_keys(rows_m(t.rows@.subrange(0, j as int)), part),
                ),
            decreases t.rows@.len() - j,
        {
            let k = partition_key(t.rows[j].time, tpl);
            let ghost pre = base + table_keys(rows_m(t.rows@.subrange(0, j as int)), part);
            let ghost post = base + table_keys(rows_m(t.rows@.subrange(0, j + 1)), part);
            proof {
                assert(post =~= pre.push(k as int)) by {
                    assert(rows_m(t.rows@.subrange(0, j + 1)) =~= rows_m(
                        t.rows@.subrange(0, j as int),
                    ).push(row_m(t.rows@[j as int])));
                    assert(table_keys(rows_m(t.rows@.subrange(0, j + 1)), part) =~= table_keys(
                        rows_m(t.rows@.subrange(0, j as int)),
                        part,
                    ).push(spec_key(t.rows@[j as int].time as int, part)));
                }
                assert(pre.push(k as int).drop_last() =~= pre);
                assert(distinct_keys(post) == if distinct_keys(pre).contains(k as int) {
                    distinct_keys(pre)
                } else {
                    distinct_keys(pre).push(k as int)
                });
            }
            if !contains_key(&keys, k) {
                keys.push(k);
                proof {
                    assert(keys@.map_values(|y: i64| y as int) =~= keys@.drop_last().map_values(
                        |y: i64| y as int,
                    ).push(k as int));
                }
            }
            j += 1;
        }
        proof {
            assert(tables_m(w.tables@.subrange(0, i + 1)).drop_last() =~= tables_m(
                w.tables@.subrange(0, i as int),
            ));
            assert(tables_m(w.tables@.subrange(0, i + 1)).last() == table_m(w.tables@[i as int]));
            assert(t.rows@.subrange(0, t.rows@.len() as int) =~= t.rows@);
            assert(all_keys(tables_m(w.tables@.subrange(0, i + 1)), part) == base + table_keys(
                rows_m(t.rows@),
                part,
            ));
        }
        i += 1;
    }
    proof {
        assert(w.tables@.subrange(0, w.tables@.len() as int) =~= w.tables@);
    }
    keys
}

fn filter_table_rows(t: &TableWrite, tpl: &PartitionTemplate, key: i64) -> (out: Vec<Row>)
    requires
        tpl.wf(),
    ensures
        rows_m(out@) == rows_with_key(rows_m(t.rows@), tpl.part_nanos as int, key as int),
{
    let ghost part = tpl.part_nanos as int;
    let mut out: Vec<Row> = Vec::new();
    let mut i: usize = 0;
    while i < t.rows.len()
        invariant
            tpl.wf(),
            part == tpl.part_nanos as int,
            i <= t.rows@.len(),
            rows_m(out@) == rows_with_key(rows_m(t.rows@.subrange(0, i as int)), part, key as int),
        decreases t.rows@.len() - i,
    {
        let rk = partition_key(t.rows[i].time, tpl);
        let ghost pre = rows_m(t.rows@.subrange(0, i as int));
        let ghost post = rows_m(t.rows@.subrange(0, i + 1));
        proof {
            assert(post =~= pre.push(row_m(t.rows@[i as int])));
            assert(pre.push(row_m(t.rows@[i as int])).drop_last() =~= pre);
        }
        if rk == key {
            out.push(clone_row(&t.rows[i]));
            proof {
                assert(rows_m(out@) =~= rows_m(out@.drop_last()).push(row_m(t.rows@[i as int])));
            }
        }
        i += 1;
    }
    proof {
        assert(t.rows@.subrange(0, t.rows@.len() as int) =~= t.rows@);
    }
    out
}

fn group_for_key(w: &WriteRequest, tpl: &PartitionTemplate, key: i64) -> (out: Vec<TableWrite>)
    requires
        tpl.wf(),
    ensures
        tables_m(out@) == tables_with_key(write_m(*w).tables, tpl.part_nanos as int, key as int),
{
    let ghost part = tpl.part_nanos as int;
    let mut out: Vec<TableWrite> = Vec::new();
    let mut i: usize = 0;
    while i < w.tables.len()
        invariant
            tpl.wf(),
            part == tpl.part_nanos as int,
            i <= w.tables@.len(),
            tables_m(out@) == tables_with_key(
                tables_m(w.tables@.subrange(0, i as int)),
                part,
                key as int,
            ),
        decreases w.tables@.len() - i,
    {
        let t = &w.tables[i];
        let fr = filter_table_rows(t, tpl, key);
        let ghost pre = tables_m(w.tables@.subrange(0, i as int));
        let ghost post = tables_m(w.tables@.subrange(0, i + 1));
        proof {
            assert(post =~= pre.push(table_m(w.tables@[i as int])));
            assert(pre.push(table_m(w.tables@[i as int])).drop_last() =~= pre);
            assert(post.last().rows == rows_m(t.rows@));
            assert(rows_m(fr@).len() == fr@.len());
        }
        if fr.len() > 0 {
            let name = t.name.clone();
            out.push(TableWrite { name, rows: fr });
            proof {
                assert(tables_m(out@) =~= tables_m(out@.drop_last()).push(
                    TableM {
                        name: w.tables@[i as int].name@,
                        rows: rows_with_key(rows_m(t.rows@), part, key as int),
                    },
                ));
            }
        }
        i += 1;
    }
    proof {
        assert(w.tables@.subrange(0, w.tables@.len() as int) =~= w.tables@);
    }
    out
}

/// Splits a write into one group per partition key: the executable
/// partitioner, pinned to [`spec_partition`].
pub fn partition_write(w: &WriteRequest, tpl: &PartitionTemplate) -> (groups: Vec<PartitionedWrite>)
    requires
        tpl.wf(),
    ensures
        groups_m(groups@) == spec_partition(write_m(*w), tpl.part_nanos as int),
{
    let ghost part = tpl.part_nanos as int;
    let ghost target = spec_partition(write_m(*w), part);
    let keys = collect_keys(w, tpl);
    let mut groups: Vec<PartitionedWrite> = Vec::new();
    let mut i: usize = 0;
    proof {
        assert(target.len() == keys@.len());
    }
    while i < keys.len()
        invariant
            tpl.wf(),
            part == tpl.part_nanos as int,
            target == spec_partition(write_m(*w), part),
            target.len() == keys@.len(),
            keys@.map_values(|y: i64| y as int) == distinct_keys(
                all_keys(write_m(*w).tables, part),
            ),
            i <= keys@.len(),
            groups@.len() == i,
            forall|j: int| 0 <= j < i ==> group_m(#[trigger] groups@[j]) == target[j],
        decreases keys@.len() - i,
    {
        let tables = group_for_key(w, tpl, keys[i]);
        let namespace = w.namespace.clone();
        groups.push(PartitionedWrite { key: keys[i], namespace, tables });
        proof {
            assert(keys@.map_values(|y: i64| y as int)[i as int] == keys@[i as int] as int);
        }
        i += 1;
    }
    proof {
        assert(groups_m(groups@) =~= target);
    }
    groups
}

/// Partitioning is idempotent and deterministic: writes with the same view,
/// under the same template, produce the very same groups.
pub proof fn lemma_partitioner_deterministic(w1: WriteRequest, w2: WriteRequest, part: int)
    requires
        write_m(w1) == write_m(w2),
    ensures
        spec_partition(write_m(w1), part) == spec_partition(write_m(w2), part),
{
}

/// Partitioning is exact: group keys are pairwise distinct, no group is
/// empty (no table in a group is empty either), each group holds exactly
/// the rows of its key, and every input row has a group with its key —
/// so every row appears in exactly one group.
pub proof fn lemma_partition_exact(w: WriteM, part: int)
    ensures
        ({
            let gs = spec_partition(w, part);
            &&& forall|a: int, b: int| 0 <= a < b < gs.len() ==> gs[a].key != gs[b].key
            &&& forall|g: int|
                0 <= g < gs.len() ==> (#[trigger] gs[g]).tables.len() > 0 && forall|t: int|
                    0 <= t < gs[g].tables.len() ==> (#[trigger] gs[g].tables[t]).rows.len() > 0
            &&& forall|g: int|
                0 <= g < gs.len() ==> (#[trigger] gs[g]).tables == tables_with_key(
                    w.tables,
                    part,
                    gs[g].key,
                )
            &&& forall|ti: int, ri: int|
                0 <= ti < w.tables.len() && 0 <= ri < w.tables[ti].rows.len() ==> exists|g: int|
                    0 <= g < spec_partition(w, part).len() && (#[trigger] spec_partition(
                        w,
                        part,
                    )[g]).key == spec_key(#[trigger] w.tables[ti].rows[ri].time, part)
        }),
{
    let gs = spec_partition(w, part);
    let ks = distinct_keys(all_keys(w.tables, part));
    lemma_distinct_keys_membership(all_keys(w.tables, part));
    assert forall|g: int| 0 <= g < gs.len() implies (#[trigger] gs[g]).tables.len() > 0 && forall|
        t: int,
    |
        0 <= t < gs[g].tables.len() ==> (#[trigger] gs[g].tables[t]).rows.len() > 0 by {
        assert(gs[g].key == ks[g]);
        assert(ks.contains(ks[g]));
        assert(all_keys(w.tables, part).contains(ks[g]));
        lemma_all_keys_membership(w.tables, part, ks[g]);
        lemma_group_tables_nonempty(w.tables, part, ks[g]);
    }
    assert forall|ti: int, ri: int|
        0 <= ti < w.tables.len() && 0 <= ri < w.tables[ti].rows.len() implies exists|g: int|
        0 <= g < spec_partition(w, part).len() && (#[trigger] spec_partition(w, part)[g]).key
            == spec_key(#[trigger] w.tables[ti].rows[ri].time, part) by {
        let k = spec_key(w.tables[ti].rows[ri].time, part);
        lemma_all_keys_membership(w.tables, part, k);
        assert(all_keys(w.tables, part).contains(k));
        assert(ks.contains(k));
        let g = choose|g: int| 0 <= g < ks.len() && ks[g] == k;
        assert(spec_partition(w, part)[g].key == k);
    }
}

/// Membership in the distinct-key sequence is membership in the input.
pub proof fn lemma_distinct_keys_membership(s: Seq<int>)
    ensures
        forall|x: int| distinct_keys(s).contains(x) <==> s.contains(x),
        forall|a: int, b: int|
            0 <= a < b < distinct_keys(s).len() ==> distinct_keys(s)[a] != distinct_keys(s)[b],
    decreases s.len(),
{
    if s.len() == 0 {
    } else {
        lemma_distinct_keys_membership(s.drop_last());
        let p = distinct_keys(s.drop_last());
        let d = distinct_keys(s);
        assert forall|x: int| d.contains(x) implies s.contains(x) by {
            if p.contains(x) {
                assert(s.drop_last().contains(x));
                let k = choose|k: int| 0 <= k < s.drop_last().len() && s.drop_last()[k] == x;
                assert(s[k] == x);
            } else {
                assert(x == s.last());
                assert(s[s.len() - 1] == x);
            }
        }
        assert forall|x: int| s.contains(x) implies d.contains(x) by {
            let k = choose|k: int| 0 <= k < s.len() && s[k] == x;
            if k < s.len() - 1 {
                assert(s.drop_last()[k] == x);
                assert(s.drop_last().contains(x));
                assert(p.contains(x));
                if !p.contains(s.last()) {
                    let m = choose|m: int| 0 <= m < p.len() && p[m] == x;
                    assert(d[m] == x);
                }
            } else {
                if p.contains(s.last()) {
                } else {
                    assert(d[d.len() - 1] == x);
                }
            }
        }
        assert forall|a: int, b: int| 0 <= a < b < d.len() implies d[a] != d[b] by {
            if !p.contains(s.last()) && b == d.len() - 1 {
                assert(d[a] == p[a]);
                assert(p.contains(p[a]));
            }
        }
    }
}

/// A row is kept by the filter for its own key, and by no other key's filter;
/// the filter keeps exactly the rows of its key.
pub proof fn lemma_rows_with_key_membership(rows: Seq<RowM>, part: int, k: int)
    ensures
        forall|r: RowM|
            rows_with_key(rows, part, k).contains(r) <==> rows.contains(r) && spec_key(
                r.time,
                part,
            ) == k,
    decreases rows.len(),
{
    if rows.len() == 0 {
    } else {
        lemma_rows_with_key_membership(rows.drop_last(), part, k);
        let f = rows_with_key(rows, part, k);
        let pf = rows_with_key(rows.drop_last(), part, k);
        assert forall|r: RowM| f.contains(r) implies rows.contains(r) && spec_key(r.time, part)
            == k by {
            if pf.contains(r) {
                assert(rows.drop_last().contains(r));
                let m = choose|m: int| 0 <= m < rows.drop_last().len() && rows.drop_last()[m] == r;
                assert(rows[m] == r);
            } else {
                let m = choose|m: int| 0 <= m < f.len() && f[m] == r;
                assert(r == rows.last());
                assert(rows[rows.len() - 1] == r);
            }
        }
        assert forall|r: RowM| rows.contains(r) && spec_key(r.time, part) == k implies f.contains(
            r,
        ) by {
            let m = choose|m: int| 0 <= m < rows.len() && rows[m] == r;
            if m < rows.len() - 1 {
                assert(rows.drop_last()[m] == r);
                assert(rows.drop_last().contains(r));
                assert(pf.contains(r));
                let n = choose|n: int| 0 <= n < pf.len() && pf[n] == r;
                if spec_key(rows.last().time, part) == k {
                    assert(f[n] == r);
                }
            } else {
                assert(f[f.len() - 1] == r);
            }
        }
    }
}

/// Every table kept in a group has at least one row.
pub proof fn lemma_group_tables_nonempty(tables: Seq<TableM>, part: int, k: int)
    ensures
        forall|i: int|
            0 <= i < tables_with_key(tables, part, k).len() ==> #[trigger] tables_with_key(
                tables,
                part,
                k,
            )[i].rows.len() > 0,
    decreases tables.len(),
{
    if tables.len() == 0 {
    } else {
        lemma_group_tables_nonempty(tables.drop_last(), part, k);
        let f = tables_with_key(tables, part, k);
        let pf = tables_with_key(tables.drop_last(), part, k);
        let fr = rows_with_key(tables.last().rows, part, k);
        assert forall|i: int| 0 <= i < f.len() implies f[i].rows.len() > 0 by {
            if fr.len() > 0 {
                if i < f.len() - 1 {
                    assert(f[i] == pf[i]);
                } else {
                    assert(f[i].rows == fr);
                }
            } else {
                assert(f[i] == pf[i]);
            }
        }
    }
}

/// A key is in the key set of a write exactly when some row of the write has
/// it; then the group of that key keeps at least one table.
pub proof fn lemma_all_keys_membership(tables: Seq<TableM>, part: int, k: int)
    ensures
        all_keys(tables, part).contains(k) <==> exists|i: int, j: int|
            0 <= i < tables.len() && 0 <= j < tables[i].rows.len() && spec_key(
                #[trigger] tables[i].rows[j].time,
                part,
            ) == k,
        all_keys(tables, part).contains(k) ==> tables_with_key(tables, part, k).len() > 0,
    decreases tables.len(),
{
    if tables.len() == 0 {
    } else {
        lemma_all_keys_membership(tables.drop_last(), part, k);
        let pre = all_keys(tables.drop_last(), part);
        let tk = table_keys(tables.last().rows, part);
        let whole = pre + tk;
        if all_keys(tables, part).contains(k) {
            let m = choose|m: int| 0 <= m < whole.len() && whole[m] == k;
            if m < pre.len() {
                assert(pre.contains(k));
                let (i, j) = choose|i: int, j: int|
                    0 <= i < tables.drop_last().len() && 0 <= j < tables.drop_last()[i].rows.len()
                        && spec_key(#[trigger] tables.drop_last()[i].rows[j].time, part) == k;
                assert(tables[i] == tables.drop_last()[i]);
                assert(spec_key(tables[i].rows[j].time, part) == k);
                assert(tables_with_key(tables.drop_last(), part, k).len() > 0);
            } else {
                let j = m - pre.len();
                assert(tk[j] == k);
                assert(spec_key(tables.last().rows[j].time, part) == k);
                assert(tables[tables.len() - 1] == tables.last());
                lemma_rows_with_key_membership(tables.last().rows, part, k);
                assert(tables.last().rows.contains(tables.last().rows[j]));
                assert(rows_with_key(tables.last().rows, part, k).contains(
                    tables.last().rows[j],
                ));
            }
        }
        if exists|i: int, j: int|
            0 <= i < tables.len() && 0 <= j < tables[i].rows.len() && spec_key(
                #[trigger] tables[i].rows[j].time,
                part,
            ) == k {
            let (i, j) = choose|i: int, j: int|
                0 <= i < tables.len() && 0 <= j < tables[i].rows.len() && spec_key(
                    #[trigger] tables[i].rows[j].time,
                    part,
                ) == k;
            if i < tables.len() - 1 {
                assert(tables.drop_last()[i] == tables[i]);
                assert(pre.contains(k));
                let m = choose|m: int| 0 <= m < pre.len() && pre[m] == k;
                assert(whole[m] == k);
            } else {
                assert(tk[j] == k);
                assert(whole[pre.len() + j] == k);
            }
            assert(whole.contains(k));
        }
    }
}

} // verus!
