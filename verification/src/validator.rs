//! Schema validation: every (table, column) a write references must agree
//! with the namespace's known schema. New, compatible structure is added to
//! the schema through an atomic per-column catalog extension and merged into
//! the cache; a re-typed column is rejected with a schema-conflict error and
//! the cache is left as it was.

use vstd::prelude::*;
use crate::cache::InstrumentedCache;
use crate::catalog::Catalog;
use crate::catalog::CatalogM;
use crate::errors::CatalogError;
use crate::errors::RouterError;
use crate::metrics::CacheMetrics;
use crate::metrics::bumped;
use crate::metrics::bumped_int;
use crate::schema::SchemaColumn;
use crate::schema::SchemaM;
use crate::schema::find_schema_column;
use crate::schema::schema_insert_column;
use crate::schema::schema_m;
use crate::schema::schema_wf;
use crate::types::ColumnType;
use crate::types::RowM;
use crate::types::TableM;
use crate::types::WriteRequest;
use crate::types::row_m;
use crate::types::rows_m;
use crate::types::table_m;
use crate::types::tables_m;
use crate::types::write_m;

verus! {

/// The columns of one row, tagged with the table name.
pub open spec fn row_cols(table: Seq<char>, r: RowM) -> Seq<(Seq<char>, Seq<char>, ColumnType)> {
    r.cols.map_values(|p: (Seq<char>, ColumnType)| (table, p.0, p.1))
}

/// The columns of a row sequence, rows in order.
pub open spec fn rows_cols(table: Seq<char>, rows: Seq<RowM>) -> Seq<
    (Seq<char>, Seq<char>, ColumnType),
>
    decreases rows.len(),
{
    if rows.len() == 0 {
        Seq::empty()
    } else {
        rows_cols(table, rows.drop_last()) + row_cols(table, rows.last())
    }
}

/// Every column reference of a write, tables in order, rows in order.
pub open spec fn write_cols(tables: Seq<TableM>) -> Seq<(Seq<char>, Seq<char>, ColumnType)>
    decreases tables.len(),
{
    if tables.len() == 0 {
        Seq::empty()
    } else {
        write_cols(tables.drop_last()) + rows_cols(tables.last().name, tables.last().rows)
    }
}

pub open spec fn scol_m(c: SchemaColumn) -> (Seq<char>, Seq<char>, ColumnType) {
    (c.table@, c.column@, c.ctype)
}

pub open spec fn scols_m(s: Seq<SchemaColumn>) -> Seq<(Seq<char>, Seq<char>, ColumnType)> {
    s.map_values(|c: SchemaColumn| scol_m(c))
}

/// A validation failure, mathematically.
pub ghost enum ValidateErrM {
    Conflict { table: Seq<char>, column: Seq<char>, existing: ColumnType, requested: ColumnType },
    Catalog { err: CatalogError },
}

/// The validator's working state: the schema known so far and the catalog.
pub ghost struct ValidateState {
    pub schema: Map<(Seq<char>, Seq<char>), ColumnType>,
    pub cat: CatalogM,
}

/// One column reference checked: against the known schema first, then by an
/// atomic catalog extension.
pub open spec fn spec_validate_step(
    ns: Seq<char>,
    st: ValidateState,
    t: (Seq<char>, Seq<char>, ColumnType),
) -> (ValidateState, Result<(), ValidateErrM>) {
    if st.schema.contains_key((t.0, t.1)) {
        if st.schema[(t.0, t.1)] == t.2 {
            (st, Ok(()))
        } else {
            (
                st,
                Err(ValidateErrM::Conflict {
                    table: t.0,
                    column: t.1,
                    existing: st.schema[(t.0, t.1)],
                    requested: t.2,
                }),
            )
        }
    } else {
        let cat1 = CatalogM { column_calls: bumped_int(st.cat.column_calls), ..st.cat };
        if !st.cat.available {
            (
                ValidateState { schema: st.schema, cat: cat1 },
                Err(ValidateErrM::Catalog { err: CatalogError::Unavailable }),
            )
        } else if !st.cat.namespaces.contains_key(ns) {
            (
                ValidateState { schema: st.schema, cat: cat1 },
                Err(ValidateErrM::Catalog { err: CatalogError::NotFound }),
            )
        } else if st.cat.namespaces[ns].columns.contains_key((t.0, t.1)) {
            let ex = st.cat.namespaces[ns].columns[(t.0, t.1)];
            if ex == t.2 {
                (ValidateState { schema: st.schema.insert((t.0, t.1), t.2), cat: cat1 }, Ok(()))
            } else {
                (
                    ValidateState { schema: st.schema, cat: cat1 },
                    Err(ValidateErrM::Conflict {
                        table: t.0,
                        column: t.1,
                        existing: ex,
                        requested: t.2,
                    }),
                )
            }
        } else {
            let cat2 = CatalogM {
                namespaces: st.cat.namespaces.insert(
                    ns,
                    SchemaM {
                        columns: st.cat.namespaces[ns].columns.insert((t.0, t.1), t.2),
                        ..st.cat.namespaces[ns]
                    },
                ),
                ..cat1
            };
            (ValidateState { schema: st.schema.insert((t.0, t.1), t.2), cat: cat2 }, Ok(()))
        }
    }
}

/// All column references checked in order, stopping at the first failure.
pub open spec fn spec_validate_cols(
    ns: Seq<char>,
    st0: ValidateState,
    cols: Seq<(Seq<char>, Seq<char>, ColumnType)>,
) -> (ValidateState, Result<(), ValidateErrM>)
    decreases cols.len(),
{
    if cols.len() == 0 {
        (st0, Ok(()))
    } else {
        let (st, r) = spec_validate_cols(ns, st0, cols.drop_last());
        if r is Err {
            (st, r)
        } else {
            spec_validate_step(ns, st, cols.last())
        }
    }
}

/// Once a prefix fails, the whole sequence fails the same way in the same
/// state: nothing after the first failure runs.
pub proof fn lemma_validate_err_persists(
    ns: Seq<char>,
    st0: ValidateState,
    cols: Seq<(Seq<char>, Seq<char>, ColumnType)>,
    i: int,
)
    requires
        0 <= i <= cols.len(),
        spec_validate_cols(ns, st0, cols.subrange(0, i)).1 is Err,
    ensures
        spec_validate_cols(ns, st0, cols) == spec_validate_cols(ns, st0, cols.subrange(0, i)),
    decreases cols.len() - i,
{
    if i == cols.len() {
        assert(cols.subrange(0, i) =~= cols);
    } else {
        assert(cols.drop_last().subrange(0, i) =~= cols.subrange(0, i));
        lemma_validate_err_persists(ns, st0, cols.drop_last(), i);
    }
}

/// Filling the schema for validation: the cache answers, or the catalog is
/// read through and the cache populated.
pub open spec fn spec_fill(
    cache: Map<Seq<char>, SchemaM>,
    cat: CatalogM,
    name: Seq<char>,
) -> (Map<Seq<char>, SchemaM>, Result<SchemaM, CatalogError>) {
    if cache.contains_key(name) {
        (cache, Ok(cache[name]))
    } else if !cat.available {
        (cache, Err(CatalogError::Unavailable))
    } else if !cat.namespaces.contains_key(name) {
        (cache, Err(CatalogError::NotFound))
    } else {
        (cache.insert(name, cat.namespaces[name]), Ok(cat.namespaces[name]))
    }
}

/// Collects every column reference of a write, in order.
fn collect_columns(w: &WriteRequest) -> (out: Vec<SchemaColumn>)
    ensures
        scols_m(out@) == write_cols(write_m(*w).tables),
{
    let mut out: Vec<SchemaColumn> = Vec::new();
    let mut i: usize = 0;
    while i < w.tables.len()
        invariant
            i <= w.tables@.len(),
            scols_m(out@) == write_cols(tables_m(w.tables@.subrange(0, i as int))),
        decreases w.tables@.len() - i,
    {
        let t = &w.tables[i];
        let ghost base = write_cols(tables_m(w.tables@.subrange(0, i as int)));
        let ghost tname = t.name@;
        let mut j: usize = 0;
        while j < t.rows.len()
            invariant
                j <= t.rows@.len(),
                0 <= i < w.tables@.len(),
                t == &w.tables[i as int],
                tname == t.name@,
                base == write_cols(tables_m(w.tables@.subrange(0, i as int))),
                scols_m(out@) == base + rows_cols(tname, rows_m(t.rows@.subrange(0, j as int))),
            decreases t.rows@.len() - j,
        {
            let r = &t.rows[j];
            let ghost rbase = base + rows_cols(tname, rows_m(t.rows@.subrange(0, j as int)));
            let ghost rcols = row_cols(tname, row_m(*r));
            let mut k: usize = 0;
            while k < r.cols.len()
                invariant
                    k <= r.cols@.len(),
                    0 <= i < w.tables@.len(),
                    0 <= j < t.rows@.len(),
                    t == &w.tables[i as int],
                    r == &t.rows[j as int],
                    tname == t.name@,
                    rcols == row_cols(tname, row_m(*r)),
                    rcols.len() == r.cols@.len(),
                    scols_m(out@) == rbase + rcols.subrange(0, k as int),
                decreases r.cols@.len() - k,
            {
                let c = &r.cols[k];
                out.push(SchemaColumn { table: t.name.clone(), column: c.name.clone(), ctype: c.ctype });
                proof {
                    assert(rcols[k as int] == (tname, c.name@, c.ctype));
                    assert(rcols.subrange(0, k + 1) =~= rcols.subrange(0, k as int).push(
                        rcols[k as int],
                    ));
                    assert(scols_m(out@) =~= scols_m(out@.drop_last()).push(scol_m(out@.last())));
                    assert(rbase + rcols.subrange(0, k + 1) =~= (rbase + rcols.subrange(
                        0,
                        k as int,
                    )).push(rcols[k as int]));
                }
                k += 1;
            }
            proof {
                assert(rcols.subrange(0, r.cols@.len() as int) =~= rcols);
                assert(rows_cols(tname, rows_m(t.rows@.subrange(0, j + 1))) =~= rows_cols(
                    tname,
                    rows_m(t.rows@.subrange(0, j as int)),
                ) + rcols) by {
                    assert(rows_m(t.rows@.subrange(0, j + 1)) =~= rows_m(
                        t.rows@.subrange(0, j as int),
                    ).push(row_m(t.rows@[j as int])));
                    assert(rows_m(t.rows@.subrange(0, j + 1)).drop_last() =~= rows_m(
                        t.rows@.subrange(0, j as int),
                    ));
                }
                assert(base + rows_cols(tname, rows_m(t.rows@.subrange(0, j + 1))) =~= rbase
                    + rcols);
            }
            j += 1;
        }
        proof {
            assert(t.rows@.subrange(0, t.rows@.len() as int) =~= t.rows@);
            assert(tables_m(w.tables@.subrange(0, i + 1)).drop_last() =~= tables_m(
                w.tables@.subrange(0, i as int),
            ));
            assert(tables_m(w.tables@.subrange(0, i + 1)).last() == table_m(w.tables@[i as int]));
        }
        i += 1;
    }
    proof {
        assert(w.tables@.subrange(0, w.tables@.len() as int) =~= w.tables@);
    }
    out
}

/// Validates a write against the namespace schema, extending the schema
/// through the catalog where the write brings new, compatible structure.
/// On success the cache holds the merged schema; on failure the cache is
/// exactly as the read-through fill left it.
pub fn validate_write(
    cache: &mut InstrumentedCache,
    catalog: &mut Catalog,
    w: &WriteRequest,
) -> (r: Result<(), RouterError>)
    requires
        old(cache).wf(),
        old(catalog).wf(),
    ensures
        final(cache).wf(),
        final(catalog).wf(),
        ({
            let fill = spec_fill(old(cache).m(), old(catalog).m(), w.namespace@);
            match fill.1 {
                Err(e) => {
                    &&& final(cache).m() == old(cache).m()
                    &&& final(catalog).m() == old(catalog).m()
                    &&& match r {
                        Err(RouterError::SchemaCatalog(e2)) => e2 == e,
                        _ => false,
                    }
                    &&& final(cache).metrics_m() == (CacheMetrics {
                        miss: bumped(old(cache).metrics_m().miss),
                        ..old(cache).metrics_m()
                    })
                },
                Ok(s0) => {
                    let st0 = ValidateState { schema: s0.columns, cat: old(catalog).m() };
                    let (st, vr) = spec_validate_cols(
                        w.namespace@,
                        st0,
                        write_cols(write_m(*w).tables),
                    );
                    &&& final(catalog).m() == st.cat
                    &&& match vr {
                        Ok(()) => r is Ok && final(cache).m() == fill.0.insert(
                            w.namespace@,
                            SchemaM { columns: st.schema, ..s0 },
                        )
                        && final(cache).metrics_m() == (CacheMetrics {
                            hit: if old(cache).m().contains_key(w.namespace@) {
                                bumped(old(cache).metrics_m().hit)
                            } else {
                                old(cache).metrics_m().hit
                            },
                            miss: if old(cache).m().contains_key(w.namespace@) {
                                old(cache).metrics_m().miss
                            } else {
                                bumped(old(cache).metrics_m().miss)
                            },
                            update: if old(cache).m().contains_key(w.namespace@) {
                                bumped(old(cache).metrics_m().update)
                            } else {
                                bumped(bumped(old(cache).metrics_m().update))
                            },
                        }),
                        Err(ve) => final(cache).m() == fill.0 && match (r, ve) {
                            (
                                Err(RouterError::SchemaConflict { table, column, existing, requested }),
                                ValidateErrM::Conflict {
                                    table: st2,
                                    column: sc2,
                                    existing: e2,
                                    requested: r2,
                                },
                            ) => table@ == st2 && column@ == sc2 && existing == e2 && requested
                                == r2,
                            (
                                Err(RouterError::SchemaCatalog(e2)),
                                ValidateErrM::Catalog { err },
                            ) => e2 == err,
                            _ => false,
                        },
                    }
                },
            }
        }),
{
    let ghost fill = spec_fill(old(cache).m(), old(catalog).m(), w.namespace@);
    let mut local = match cache.get(&w.namespace) {
        Some(s) => s,
        None => {
            match catalog.namespace_get(&w.namespace) {
                Ok(s) => {
                    let keep = crate::schema::clone_schema(&s);
                    cache.put(s);
                    keep
                },
                Err(e) => {
                    return Err(RouterError::SchemaCatalog(e));
                },
            }
        },
    };
    let ghost s0 = fill.1->Ok_0;
    let ghost st0 = ValidateState { schema: s0.columns, cat: old(catalog).m() };
    let ghost cmid = cache.m();
    let ghost mmid = cache.metrics_m();
    proof {
        assert(cmid == fill.0);
        assert(schema_m(local) == s0);
    }
    let cols = collect_columns(w);
    let ghost allc = write_cols(write_m(*w).tables);
    let mut i: usize = 0;
    while i < cols.len()
        invariant
            cache.wf(),
            catalog.wf(),
            schema_wf(local),
            local.name@ == w.namespace@,
            fill == spec_fill(old(cache).m(), old(catalog).m(), w.namespace@),
            fill.1 is Ok,
            s0 == fill.1->Ok_0,
            st0 == (ValidateState { schema: s0.columns, cat: old(catalog).m() }),
            cmid == fill.0,
            mmid == (CacheMetrics {
                hit: if old(cache).m().contains_key(w.namespace@) {
                    bumped(old(cache).metrics_m().hit)
                } else {
                    old(cache).metrics_m().hit
                },
                miss: if old(cache).m().contains_key(w.namespace@) {
                    old(cache).metrics_m().miss
                } else {
                    bumped(old(cache).metrics_m().miss)
                },
                update: if old(cache).m().contains_key(w.namespace@) {
                    old(cache).metrics_m().update
                } else {
                    bumped(old(cache).metrics_m().update)
                },
            }),
            cache.m() == cmid,
            cache.metrics_m() == mmid,
            i <= cols@.len(),
            allc == write_cols(write_m(*w).tables),
            scols_m(cols@) == allc,
            spec_validate_cols(w.namespace@, st0, allc.subrange(0, i as int)) == (
                ValidateState { schema: schema_m(local).columns, cat: catalog.m() },
                Result::<(), ValidateErrM>::Ok(()),
            ),
            schema_m(local) == (SchemaM { columns: schema_m(local).columns, ..s0 }),
        decreases cols@.len() - i,
    {
        let sc = &cols[i];
        let ghost t = allc[i as int];
        let ghost stpre = ValidateState { schema: schema_m(local).columns, cat: catalog.m() };
        proof {
            assert(scols_m(cols@)[i as int] == scol_m(cols@[i as int]));
            assert(t == (sc.table@, sc.column@, sc.ctype));
            assert(allc.subrange(0, i + 1).drop_last() =~= allc.subrange(0, i as int));
            assert(allc.subrange(0, i + 1).last() == t);
        }
        match find_schema_column(&local, &sc.table, &sc.column) {
            Some(ct) => {
                if ct != sc.ctype {
                    proof {
                        lemma_validate_err_persists(w.namespace@, st0, allc, i + 1);
                    }
                    return Err(RouterError::SchemaConflict {
                        table: sc.table.clone(),
                        column: sc.column.clone(),
                        existing: ct,
                        requested: sc.ctype,
                    });
                }
            },
            None => {
                match catalog.column_create_or_get(&w.namespace, &sc.table, &sc.column, sc.ctype) {
                    Err(e) => {
                        proof {
                            lemma_validate_err_persists(w.namespace@, st0, allc, i + 1);
                        }
                        return Err(RouterError::SchemaCatalog(e));
                    },
                    Ok(ct) => {
                        if ct != sc.ctype {
                            proof {
                                lemma_validate_err_persists(w.namespace@, st0, allc, i + 1);
                            }
                            return Err(RouterError::SchemaConflict {
                                table: sc.table.clone(),
                                column: sc.column.clone(),
                                existing: ct,
                                requested: sc.ctype,
                            });
                        }
                        schema_insert_column(&mut local, &sc.table, &sc.column, sc.ctype);
                    },
                }
            },
        }
        i += 1;
    }
    proof {
        assert(allc.subrange(0, cols@.len() as int) =~= allc);
    }
    cache.put(local);
    Ok(())
}

/// A write whose columns all agree with the known schema touches neither the
/// schema nor the catalog: the cache hit answers everything.
pub proof fn lemma_validator_subset_no_catalog(
    ns: Seq<char>,
    st0: ValidateState,
    cols: Seq<(Seq<char>, Seq<char>, ColumnType)>,
)
    requires
        forall|i: int|
            0 <= i < cols.len() ==> st0.schema.contains_key(
                (#[trigger] cols[i].0, cols[i].1),
            ) && st0.schema[(cols[i].0, cols[i].1)] == cols[i].2,
    ensures
        spec_validate_cols(ns, st0, cols) == (st0, Result::<(), ValidateErrM>::Ok(())),
    decreases cols.len(),
{
    if cols.len() == 0 {
    } else {
        assert(forall|i: int|
            0 <= i < cols.drop_last().len() ==> cols.drop_last()[i] == cols[i]);
        lemma_validator_subset_no_catalog(ns, st0, cols.drop_last());
        assert(cols[cols.len() - 1] == cols.last());
    }
}

/// One genuinely new column costs exactly one catalog extension call, and
/// both the schema in hand and the catalog reflect the new column after it.
pub proof fn lemma_validator_new_column(
    ns: Seq<char>,
    st0: ValidateState,
    t: (Seq<char>, Seq<char>, ColumnType),
)
    requires
        !st0.schema.contains_key((t.0, t.1)),
        st0.cat.available,
        st0.cat.namespaces.contains_key(ns),
        !st0.cat.namespaces[ns].columns.contains_key((t.0, t.1)),
    ensures
        ({
            let (st, r) = spec_validate_cols(ns, st0, seq![t]);
            &&& r is Ok
            &&& st.schema == st0.schema.insert((t.0, t.1), t.2)
            &&& st.cat.namespaces[ns].columns == st0.cat.namespaces[ns].columns.insert(
                (t.0, t.1),
                t.2,
            )
            &&& st.cat.column_calls == bumped_int(st0.cat.column_calls)
        }),
{
    let e = seq![t].drop_last();
    assert(e.len() == 0);
    assert(spec_validate_cols(ns, st0, e) == (st0, Result::<(), ValidateErrM>::Ok(())));
    assert(seq![t].last() == t);
    assert(spec_validate_cols(ns, st0, seq![t]) == spec_validate_step(ns, st0, t));
}

} // verus!
