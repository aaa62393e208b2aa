//! Namespace schemas: the set of known (table, column) definitions of one
//! namespace, keyed by name, with the catalog identifiers the namespace was
//! created against. The schema is held as a flat column list with unique
//! (table, column) pairs; its mathematical view is a map from that pair to
//! the column type.

use vstd::prelude::*;
use crate::types::ColumnType;

verus! {

/// One known column of a namespace: which table it belongs to, its name, and
/// the type it was defined with.
#[derive(Debug)]
pub struct SchemaColumn {
    pub table: String,
    pub column: String,
    pub ctype: ColumnType,
}

/// The schema of one namespace, as the catalog or the cache knows it.
#[derive(Debug)]
pub struct NamespaceSchema {
    pub name: String,
    pub id: u64,
    pub topic_id: u64,
    pub query_pool_id: u64,
    pub retention: String,
    pub columns: Vec<SchemaColumn>,
}

/// Mathematical view of a namespace schema.
pub ghost struct SchemaM {
    pub id: int,
    pub topic_id: int,
    pub query_pool_id: int,
    pub retention: Seq<char>,
    pub columns: Map<(Seq<char>, Seq<char>), ColumnType>,
}

/// The map a flat column list stands for; a later entry would win, but
/// well-formed lists have unique (table, column) pairs.
pub open spec fn cols_m(s: Seq<SchemaColumn>) -> Map<(Seq<char>, Seq<char>), ColumnType>
    decreases s.len(),
{
    if s.len() == 0 {
        Map::empty()
    } else {
        cols_m(s.drop_last()).insert((s.last().table@, s.last().column@), s.last().ctype)
    }
}

/// Unique (table, column) pairs.
pub open spec fn cols_wf(s: Seq<SchemaColumn>) -> bool {
    forall|i: int, j: int|
        0 <= i < j < s.len() ==> (#[trigger] s[i].table@, s[i].column@) != (
        #[trigger] s[j].table@,
        s[j].column@,
        )
}

pub open spec fn schema_m(s: NamespaceSchema) -> SchemaM {
    SchemaM {
        id: s.id as int,
        topic_id: s.topic_id as int,
        query_pool_id: s.query_pool_id as int,
        retention: s.retention@,
        columns: cols_m(s.columns@),
    }
}

pub open spec fn schema_wf(s: NamespaceSchema) -> bool {
    cols_wf(s.columns@)
}

/// Every entry of a well-formed column list is in its map.
pub proof fn lemma_cols_m_index(s: Seq<SchemaColumn>, i: int)
    requires
        cols_wf(s),
        0 <= i < s.len(),
    ensures
        cols_m(s).contains_key((s[i].table@, s[i].column@)),
        cols_m(s)[(s[i].table@, s[i].column@)] == s[i].ctype,
    decreases s.len(),
{
    if i == s.len() - 1 {
    } else {
        assert(cols_wf(s.drop_last()));
        lemma_cols_m_index(s.drop_last(), i);
        assert(s.drop_last()[i] == s[i]);
        assert((s[i].table@, s[i].column@) != (s.last().table@, s.last().column@));
    }
}

/// A pair matching no entry is not in the map.
pub proof fn lemma_cols_m_missing(s: Seq<SchemaColumn>, t: Seq<char>, c: Seq<char>)
    requires
        forall|i: int| 0 <= i < s.len() ==> (#[trigger] s[i].table@, s[i].column@) != (t, c),
    ensures
        !cols_m(s).contains_key((t, c)),
    decreases s.len(),
{
    if s.len() == 0 {
    } else {
        assert(forall|i: int|
            0 <= i < s.drop_last().len() ==> (#[trigger] s.drop_last()[i].table@,
            s.drop_last()[i].column@) != (t, c)) by {
            assert(forall|i: int| 0 <= i < s.len() - 1 ==> s.drop_last()[i] == s[i]);
        }
        lemma_cols_m_missing(s.drop_last(), t, c);
        assert(s[s.len() - 1] == s.last());
    }
}

/// Looks a (table, column) pair up in a schema.
pub fn find_schema_column(s: &NamespaceSchema, table: &String, column: &String) -> (r: Option<
    ColumnType,
>)
    requires
        schema_wf(*s),
    ensures
        match r {
            Some(ct) => schema_m(*s).columns.contains_key((table@, column@)) && schema_m(
                *s,
            ).columns[(table@, column@)] == ct,
            None => !schema_m(*s).columns.contains_key((table@, column@)),
        },
{
    let mut i: usize = 0;
    while i < s.columns.len()
        invariant
            schema_wf(*s),
            i <= s.columns@.len(),
            forall|j: int|
                0 <= j < i ==> (#[trigger] s.columns@[j].table@, s.columns@[j].column@) != (
                table@,
                column@,
                ),
        decreases s.columns@.len() - i,
    {
        if s.columns[i].table == *table && s.columns[i].column == *column {
            let ct = s.columns[i].ctype;
            proof {
                lemma_cols_m_index(s.columns@, i as int);
            }
            return Some(ct);
        }
        i += 1;
    }
    proof {
        lemma_cols_m_missing(s.columns@, table@, column@);
    }
    None
}

/// Adds a column not yet present; the schema's map gains exactly that entry.
pub fn schema_insert_column(
    s: &mut NamespaceSchema,
    table: &String,
    column: &String,
    ctype: ColumnType,
)
    requires
        schema_wf(*old(s)),
        !schema_m(*old(s)).columns.contains_key((table@, column@)),
    ensures
        schema_wf(*final(s)),
        final(s).name@ == old(s).name@,
        final(s).id == old(s).id,
        final(s).topic_id == old(s).topic_id,
        final(s).query_pool_id == old(s).query_pool_id,
        final(s).retention@ == old(s).retention@,
        schema_m(*final(s)).columns == schema_m(*old(s)).columns.insert(
            (table@, column@),
            ctype,
        ),
{
    proof {
        assert forall|i: int| 0 <= i < s.columns@.len() implies (
        #[trigger] s.columns@[i].table@,
        s.columns@[i].column@,
        ) != (table@, column@) by {
            if (s.columns@[i].table@, s.columns@[i].column@) == (table@, column@) {
                lemma_cols_m_index(s.columns@, i);
            }
        }
    }
    let entry = SchemaColumn { table: table.clone(), column: column.clone(), ctype };
    let ghost pre = s.columns@;
    s.columns.push(entry);
    proof {
        assert(s.columns@.drop_last() =~= pre);
        assert(s.columns@.last() == entry);
        assert(cols_m(s.columns@) == cols_m(pre).insert((table@, column@), ctype));
        assert forall|i: int, j: int| 0 <= i < j < s.columns@.len() implies (
        #[trigger] s.columns@[i].table@,
        s.columns@[i].column@,
        ) != (#[trigger] s.columns@[j].table@, s.columns@[j].column@) by {
            if j < s.columns@.len() - 1 {
                assert(s.columns@[i] == pre[i] && s.columns@[j] == pre[j]);
            } else {
                assert(s.columns@[i] == pre[i]);
            }
        }
    }
}

/// Copies a schema; the copy has the same name and the same view.
pub fn clone_schema(s: &NamespaceSchema) -> (out: NamespaceSchema)
    ensures
        out.name@ == s.name@,
        out.columns@ == s.columns@,
        schema_m(out) == schema_m(*s),
        schema_wf(out) == schema_wf(*s),
{
    let mut columns: Vec<SchemaColumn> = Vec::new();
    let mut i: usize = 0;
    while i < s.columns.len()
        invariant
            i <= s.columns@.len(),
            columns@ == s.columns@.subrange(0, i as int),
        decreases s.columns@.len() - i,
    {
        let c = &s.columns[i];
        columns.push(SchemaColumn { table: c.table.clone(), column: c.column.clone(), ctype: c.ctype });
        proof {
            assert(s.columns@.subrange(0, i + 1) =~= s.columns@.subrange(0, i as int).push(
                s.columns@[i as int],
            ));
        }
        i += 1;
    }
    proof {
        assert(columns@ =~= s.columns@);
    }
    NamespaceSchema {
        name: s.name.clone(),
        id: s.id,
        topic_id: s.topic_id,
        query_pool_id: s.query_pool_id,
        retention: s.retention.clone(),
        columns,
    }
}

/// A list of namespace schemas keyed by namespace name: unique names, each
/// schema well-formed. Both the catalog and the cache hold one.
pub open spec fn nss_wf(s: Seq<NamespaceSchema>) -> bool {
    &&& forall|i: int, j: int|
        0 <= i < j < s.len() ==> (#[trigger] s[i].name@) != (#[trigger] s[j].name@)
    &&& forall|i: int| 0 <= i < s.len() ==> schema_wf(#[trigger] s[i])
}

/// The map a namespace list stands for.
pub open spec fn nss_m(s: Seq<NamespaceSchema>) -> Map<Seq<char>, SchemaM>
    decreases s.len(),
{
    if s.len() == 0 {
        Map::empty()
    } else {
        nss_m(s.drop_last()).insert(s.last().name@, schema_m(s.last()))
    }
}

pub proof fn lemma_nss_m_index(s: Seq<NamespaceSchema>, i: int)
    requires
        nss_wf(s),
        0 <= i < s.len(),
    ensures
        nss_m(s).contains_key(s[i].name@),
        nss_m(s)[s[i].name@] == schema_m(s[i]),
    decreases s.len(),
{
    if i == s.len() - 1 {
    } else {
        assert(nss_wf(s.drop_last()));
        lemma_nss_m_index(s.drop_last(), i);
        assert(s.drop_last()[i] == s[i]);
    }
}

pub proof fn lemma_nss_m_missing(s: Seq<NamespaceSchema>, name: Seq<char>)
    requires
        forall|i: int| 0 <= i < s.len() ==> (#[trigger] s[i].name@) != name,
    ensures
        !nss_m(s).contains_key(name),
    decreases s.len(),
{
    if s.len() == 0 {
    } else {
        assert(forall|i: int|
            0 <= i < s.drop_last().len() ==> (#[trigger] s.drop_last()[i].name@) != name) by {
            assert(forall|i: int| 0 <= i < s.len() - 1 ==> s.drop_last()[i] == s[i]);
        }
        lemma_nss_m_missing(s.drop_last(), name);
        assert(s[s.len() - 1] == s.last());
    }
}

/// Replacing the entry at `i` by a schema of the same name updates the map at
/// that name and keeps the list well-formed.
pub proof fn lemma_nss_m_update(s: Seq<NamespaceSchema>, i: int, x: NamespaceSchema)
    requires
        nss_wf(s),
        0 <= i < s.len(),
        x.name@ == s[i].name@,
        schema_wf(x),
    ensures
        nss_wf(s.update(i, x)),
        nss_m(s.update(i, x)) == nss_m(s).insert(x.name@, schema_m(x)),
    decreases s.len(),
{
    let u = s.update(i, x);
    assert forall|a: int, b: int| 0 <= a < b < u.len() implies (#[trigger] u[a].name@) != (
    #[trigger] u[b].name@) by {
        assert(s[a].name@ != s[b].name@);
    }
    if i == s.len() - 1 {
        assert(u.drop_last() =~= s.drop_last());
        assert(u.last() == x);
        assert(nss_m(u) == nss_m(s.drop_last()).insert(x.name@, schema_m(x)));
        assert(nss_m(s.drop_last()).insert(s.last().name@, schema_m(s.last())).insert(
            x.name@,
            schema_m(x),
        ) =~= nss_m(s.drop_last()).insert(x.name@, schema_m(x)));
    } else {
        assert(u.drop_last() =~= s.drop_last().update(i, x));
        assert(u.last() == s.last());
        assert(nss_wf(s.drop_last()));
        lemma_nss_m_update(s.drop_last(), i, x);
        assert(s.drop_last()[i] == s[i]);
        assert(x.name@ != s.last().name@);
        assert(nss_m(s.drop_last()).insert(x.name@, schema_m(x)).insert(
            s.last().name@,
            schema_m(s.last()),
        ) =~= nss_m(s.drop_last()).insert(s.last().name@, schema_m(s.last())).insert(
            x.name@,
            schema_m(x),
        ));
    }
}

/// Finds the index of the namespace with the given name, if any.
pub fn find_namespace(s: &Vec<NamespaceSchema>, name: &String) -> (r: Option<usize>)
    requires
        nss_wf(s@),
    ensures
        match r {
            Some(i) => i < s@.len() && s@[i as int].name@ == name@ && nss_m(s@).contains_key(name@)
                && nss_m(s@)[name@] == schema_m(s@[i as int]),
            None => !nss_m(s@).contains_key(name@),
        },
{
    let mut i: usize = 0;
    while i < s.len()
        invariant
            nss_wf(s@),
            i <= s@.len(),
            forall|j: int| 0 <= j < i ==> (#[trigger] s@[j].name@) != name@,
        decreases s@.len() - i,
    {
        if s[i].name == *name {
            proof {
                lemma_nss_m_index(s@, i as int);
            }
            return Some(i);
        }
        i += 1;
    }
    proof {
        lemma_nss_m_missing(s@, name@);
    }
    None
}

} // verus!
