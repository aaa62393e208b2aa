//! An explicit-state model of the catalog collaborator: namespace records,
//! topic and query-pool records, and per-column schema extension. Every
//! operation is an atomic unit with an exact contract; availability models
//! the transport, so callers state precisely when success is owed.

use vstd::prelude::*;
use crate::errors::CatalogError;
use crate::metrics::bump;
use crate::metrics::bumped_int;
use crate::schema::NamespaceSchema;
use crate::schema::SchemaM;
use crate::schema::clone_schema;
use crate::schema::find_namespace;
use crate::schema::find_schema_column;
use crate::schema::lemma_nss_m_missing;
use crate::schema::lemma_nss_m_update;
use crate::schema::nss_m;
use crate::schema::nss_wf;
use crate::schema::schema_insert_column;
use crate::schema::schema_m;
use crate::schema::schema_wf;
use crate::types::ColumnType;

verus! {

/// A named record with a numeric identity: a topic or a query pool.
#[derive(Debug)]
pub struct NameId {
    pub name: String,
    pub id: u64,
}

pub open spec fn nameids_m(s: Seq<NameId>) -> Map<Seq<char>, int>
    decreases s.len(),
{
    if s.len() == 0 {
        Map::empty()
    } else {
        nameids_m(s.drop_last()).insert(s.last().name@, s.last().id as int)
    }
}

pub open spec fn nameids_wf(s: Seq<NameId>) -> bool {
    forall|i: int, j: int| 0 <= i < j < s.len() ==> (#[trigger] s[i].name@) != (#[trigger] s[j].name@)
}

pub proof fn lemma_nameids_m_index(s: Seq<NameId>, i: int)
    requires
        nameids_wf(s),
        0 <= i < s.len(),
    ensures
        nameids_m(s).contains_key(s[i].name@),
        nameids_m(s)[s[i].name@] == s[i].id as int,
    decreases s.len(),
{
    if i == s.len() - 1 {
    } else {
        assert(nameids_wf(s.drop_last()));
        lemma_nameids_m_index(s.drop_last(), i);
        assert(s.drop_last()[i] == s[i]);
    }
}

pub proof fn lemma_nameids_m_missing(s: Seq<NameId>, name: Seq<char>)
    requires
        forall|i: int| 0 <= i < s.len() ==> (#[trigger] s[i].name@) != name,
    ensures
        !nameids_m(s).contains_key(name),
    decreases s.len(),
{
    if s.len() == 0 {
    } else {
        assert(forall|i: int|
            0 <= i < s.drop_last().len() ==> (#[trigger] s.drop_last()[i].name@) != name) by {
            assert(forall|i: int| 0 <= i < s.len() - 1 ==> s.drop_last()[i] == s[i]);
        }
        lemma_nameids_m_missing(s.drop_last(), name);
        assert(s[s.len() - 1] == s.last());
    }
}

fn find_nameid(v: &Vec<NameId>, name: &String) -> (r: Option<u64>)
    requires
        nameids_wf(v@),
    ensures
        match r {
            Some(id) => nameids_m(v@).contains_key(name@) && nameids_m(v@)[name@] == id as int,
            None => !nameids_m(v@).contains_key(name@),
        },
{
    let mut i: usize = 0;
    while i < v.len()
        invariant
            nameids_wf(v@),
            i <= v@.len(),
            forall|j: int| 0 <= j < i ==> (#[trigger] v@[j].name@) != name@,
        decreases v@.len() - i,
    {
        if v[i].name == *name {
            proof {
                lemma_nameids_m_index(v@, i as int);
            }
            return Some(v[i].id);
        }
        i += 1;
    }
    proof {
        lemma_nameids_m_missing(v@, name@);
    }
    None
}

/// Mathematical view of the catalog.
pub ghost struct CatalogM {
    pub available: bool,
    pub topics: Map<Seq<char>, int>,
    pub pools: Map<Seq<char>, int>,
    pub namespaces: Map<Seq<char>, SchemaM>,
    pub next_topic_id: int,
    pub next_pool_id: int,
    pub next_namespace_id: int,
    pub column_calls: int,
}

/// The catalog: an in-memory stand-in for the relational store, with an
/// availability switch standing for the transport.
#[derive(Debug)]
pub struct Catalog {
    available: bool,
    topics: Vec<NameId>,
    pools: Vec<NameId>,
    namespaces: Vec<NamespaceSchema>,
    next_topic_id: u64,
    next_pool_id: u64,
    next_namespace_id: u64,
    column_calls: u64,
}

impl Catalog {
    pub closed spec fn m(&self) -> CatalogM {
        CatalogM {
            available: self.available,
            topics: nameids_m(self.topics@),
            pools: nameids_m(self.pools@),
            namespaces: nss_m(self.namespaces@),
            next_topic_id: self.next_topic_id as int,
            next_pool_id: self.next_pool_id as int,
            next_namespace_id: self.next_namespace_id as int,
            column_calls: self.column_calls as int,
        }
    }

    pub closed spec fn wf(&self) -> bool {
        nameids_wf(self.topics@) && nameids_wf(self.pools@) && nss_wf(self.namespaces@)
    }

    /// An empty, reachable catalog.
    pub fn new() -> (r: Catalog)
        ensures
            r.wf(),
            r.m().available,
            r.m().topics == Map::<Seq<char>, int>::empty(),
            r.m().pools == Map::<Seq<char>, int>::empty(),
            r.m().namespaces == Map::<Seq<char>, SchemaM>::empty(),
            r.m().column_calls == 0,
    {
        Catalog {
            available: true,
            topics: Vec::new(),
            pools: Vec::new(),
            namespaces: Vec::new(),
            next_topic_id: 1,
            next_pool_id: 1,
            next_namespace_id: 1,
            column_calls: 0,
        }
    }

    /// Makes the catalog reachable or unreachable: the transport model.
    pub fn set_available(&mut self, available: bool)
        ensures
            final(self).wf() == old(self).wf(),
            final(self).m() == (CatalogM { available, ..old(self).m() }),
    {
        self.available = available;
    }

    /// Idempotent create-or-get of a topic record by name.
    pub fn topic_create_or_get(&mut self, name: &String) -> (r: Result<u64, CatalogError>)
        requires
            old(self).wf(),
        ensures
            final(self).wf(),
            match r {
                Ok(id) => {
                    let o = old(self).m();
                    let f = final(self).m();
                    o.available && f == (CatalogM {
                        topics: f.topics,
                        next_topic_id: f.next_topic_id,
                        ..o
                    }) && if o.topics.contains_key(name@) {
                        f.topics == o.topics && f.next_topic_id == o.next_topic_id && id as int
                            == o.topics[name@]
                    } else {
                        o.next_topic_id < u64::MAX && id as int == o.next_topic_id && f.topics
                            == o.topics.insert(name@, id as int) && f.next_topic_id
                            == o.next_topic_id + 1
                    }
                },
                Err(e) => final(self).m() == old(self).m() && e == CatalogError::Unavailable && (
                !old(self).m().available || (!old(self).m().topics.contains_key(name@) && old(
                    self,
                ).m().next_topic_id == u64::MAX as int)),
            },
    {
        if !self.available {
            return Err(CatalogError::Unavailable);
        }
        match find_nameid(&self.topics, name) {
            Some(id) => Ok(id),
            None => {
                if self.next_topic_id == u64::MAX {
                    return Err(CatalogError::Unavailable);
                }
                let id = self.next_topic_id;
                let ghost pre = self.topics@;
                self.topics.push(NameId { name: name.clone(), id });
                self.next_topic_id = id + 1;
                proof {
                    assert(self.topics@.drop_last() =~= pre);
                    assert forall|i: int, j: int| 0 <= i < j < self.topics@.len() implies (
                    #[trigger] self.topics@[i].name@) != (#[trigger] self.topics@[j].name@) by {
                        if j < self.topics@.len() - 1 {
                            assert(self.topics@[i] == pre[i] && self.topics@[j] == pre[j]);
                        } else {
                            assert(self.topics@[i] == pre[i]);
                            if pre[i].name@ == name@ {
                                lemma_nameids_m_index(pre, i);
                            }
                        }
                    }
                }
                Ok(id)
            },
        }
    }

    /// Idempotent create-or-get of a query-pool record by name.
    pub fn pool_create_or_get(&mut self, name: &String) -> (r: Result<u64, CatalogError>)
        requires
            old(self).wf(),
        ensures
            final(self).wf(),
            match r {
                Ok(id) => {
                    let o = old(self).m();
                    let f = final(self).m();
                    o.available && f == (CatalogM {
                        pools: f.pools,
                        next_pool_id: f.next_pool_id,
                        ..o
                    }) && if o.pools.contains_key(name@) {
                        f.pools == o.pools && f.next_pool_id == o.next_pool_id && id as int
                            == o.pools[name@]
                    } else {
                        o.next_pool_id < u64::MAX && id as int == o.next_pool_id && f.pools
                            == o.pools.insert(name@, id as int) && f.next_pool_id == o.next_pool_id
                            + 1
                    }
                },
                Err(e) => final(self).m() == old(self).m() && e == CatalogError::Unavailable && (
                !old(self).m().available || (!old(self).m().pools.contains_key(name@) && old(
                    self,
                ).m().next_pool_id == u64::MAX as int)),
            },
    {
        if !self.available {
            return Err(CatalogError::Unavailable);
        }
        match find_nameid(&self.pools, name) {
            Some(id) => Ok(id),
            None => {
                if self.next_pool_id == u64::MAX {
                    return Err(CatalogError::Unavailable);
                }
                let id = self.next_pool_id;
                let ghost pre = self.pools@;
                self.pools.push(NameId { name: name.clone(), id });
                self.next_pool_id = id + 1;
                proof {
                    assert(self.pools@.drop_last() =~= pre);
                    assert forall|i: int, j: int| 0 <= i < j < self.pools@.len() implies (
                    #[trigger] self.pools@[i].name@) != (#[trigger] self.pools@[j].name@) by {
                        if j < self.pools@.len() - 1 {
                            assert(self.pools@[i] == pre[i] && self.pools@[j] == pre[j]);
                        } else {
                            assert(self.pools@[i] == pre[i]);
                            if pre[i].name@ == name@ {
                                lemma_nameids_m_index(pre, i);
                            }
                        }
                    }
                }
                Ok(id)
            },
        }
    }

    /// Idempotent create-or-get of a namespace record: concurrent creators
    /// converge on one record and observe the same identity. Returns a copy
    /// of the record as the catalog holds it.
    pub fn namespace_create_or_get(
        &mut self,
        name: &String,
        topic_id: u64,
        query_pool_id: u64,
        retention: &String,
    ) -> (r: Result<NamespaceSchema, CatalogError>)
        requires
            old(self).wf(),
        ensures
            final(self).wf(),
            match r {
                Ok(s) => {
                    let o = old(self).m();
                    let f = final(self).m();
                    o.available && s.name@ == name@ && schema_wf(s) && f == (CatalogM {
                        namespaces: f.namespaces,
                        next_namespace_id: f.next_namespace_id,
                        ..o
                    }) && f.namespaces.contains_key(name@) && schema_m(s) == f.namespaces[name@]
                        && if o.namespaces.contains_key(name@) {
                        f.namespaces == o.namespaces && f.next_namespace_id == o.next_namespace_id
                            && schema_m(s) == o.namespaces[name@]
                    } else {
                        o.next_namespace_id < u64::MAX && f.namespaces == o.namespaces.insert(
                            name@,
                            schema_m(s),
                        ) && f.next_namespace_id == o.next_namespace_id + 1 && schema_m(s) == (
                        SchemaM {
                            id: o.next_namespace_id,
                            topic_id: topic_id as int,
                            query_pool_id: query_pool_id as int,
                            retention: retention@,
                            columns: Map::empty(),
                        })
                    }
                },
                Err(e) => final(self).m() == old(self).m() && e == CatalogError::Unavailable && (
                !old(self).m().available || (!old(self).m().namespaces.contains_key(name@) && old(
                    self,
                ).m().next_namespace_id == u64::MAX as int)),
            },
    {
        if !self.available {
            return Err(CatalogError::Unavailable);
        }
        match find_namespace(&self.namespaces, name) {
            Some(i) => Ok(clone_schema(&self.namespaces[i])),
            None => {
                if self.next_namespace_id == u64::MAX {
                    return Err(CatalogError::Unavailable);
                }
                let rec = NamespaceSchema {
                    name: name.clone(),
                    id: self.next_namespace_id,
                    topic_id,
                    query_pool_id,
                    retention: retention.clone(),
                    columns: Vec::new(),
                };
                let out = clone_schema(&rec);
                let ghost pre = self.namespaces@;
                self.namespaces.push(rec);
                self.next_namespace_id = self.next_namespace_id + 1;
                proof {
                    assert(self.namespaces@.drop_last() =~= pre);
                    assert forall|a: int, b: int| 0 <= a < b < self.namespaces@.len() implies (
                    #[trigger] self.namespaces@[a].name@) != (
                    #[trigger] self.namespaces@[b].name@) by {
                        if b < self.namespaces@.len() - 1 {
                            assert(self.namespaces@[a] == pre[a] && self.namespaces@[b] == pre[b]);
                        } else {
                            assert(self.namespaces@[a] == pre[a]);
                            if pre[a].name@ == name@ {
                                crate::schema::lemma_nss_m_index(pre, a);
                            }
                        }
                    }
                    assert(schema_m(self.namespaces@.last()).columns =~= Map::<(
                        Seq<char>,
                        Seq<char>,
                    ), ColumnType>::empty());
                }
                Ok(out)
            },
        }
    }

    /// Fetches a copy of a namespace record by name, without mutation.
    pub fn namespace_get(&self, name: &String) -> (r: Result<NamespaceSchema, CatalogError>)
        requires
            self.wf(),
        ensures
            match r {
                Ok(s) => self.m().available && self.m().namespaces.contains_key(name@) && s.name@
                    == name@ && schema_wf(s) && schema_m(s) == self.m().namespaces[name@],
                Err(e) => (e == CatalogError::Unavailable && !self.m().available) || (e
                    == CatalogError::NotFound && self.m().available
                    && !self.m().namespaces.contains_key(name@)),
            },
    {
        if !self.available {
            return Err(CatalogError::Unavailable);
        }
        match find_namespace(&self.namespaces, name) {
            Some(i) => Ok(clone_schema(&self.namespaces[i])),
            None => Err(CatalogError::NotFound),
        }
    }

    /// Atomic per-column schema extension: returns the type the catalog holds
    /// for the column, inserting the requested type when the column is new.
    /// The caller decides whether a differing returned type is a conflict.
    pub fn column_create_or_get(
        &mut self,
        namespace: &String,
        table: &String,
        column: &String,
        ctype: ColumnType,
    ) -> (r: Result<ColumnType, CatalogError>)
        requires
            old(self).wf(),
        ensures
            final(self).wf(),
            final(self).m().column_calls == bumped_int(old(self).m().column_calls),
            match r {
                Ok(ct) => {
                    let o = old(self).m();
                    let f = final(self).m();
                    o.available && o.namespaces.contains_key(namespace@) && f == (CatalogM {
                        namespaces: f.namespaces,
                        column_calls: f.column_calls,
                        ..o
                    }) && if o.namespaces[namespace@].columns.contains_key((table@, column@)) {
                        f.namespaces == o.namespaces && ct == o.namespaces[namespace@].columns[(
                            table@,
                            column@,
                        )]
                    } else {
                        ct == ctype && f.namespaces == o.namespaces.insert(
                            namespace@,
                            SchemaM {
                                columns: o.namespaces[namespace@].columns.insert(
                                    (table@, column@),
                                    ctype,
                                ),
                                ..o.namespaces[namespace@]
                            },
                        )
                    }
                },
                Err(e) => final(self).m() == (CatalogM {
                    column_calls: final(self).m().column_calls,
                    ..old(self).m()
                }) && ((e == CatalogError::Unavailable && !old(self).m().available) || (e
                    == CatalogError::NotFound && old(self).m().available && !old(
                    self,
                ).m().namespaces.contains_key(namespace@))),
            },
    {
        self.column_calls = bump(self.column_calls);
        if !self.available {
            return Err(CatalogError::Unavailable);
        }
        match find_namespace(&self.namespaces, namespace) {
            None => Err(CatalogError::NotFound),
            Some(i) => {
                match find_schema_column(&self.namespaces[i], table, column) {
                    Some(ct) => Ok(ct),
                    None => {
                        let mut rec = clone_schema(&self.namespaces[i]);
                        schema_insert_column(&mut rec, table, column, ctype);
                        proof {
                            lemma_nss_m_update(self.namespaces@, i as int, rec);
                        }
                        self.namespaces.set(i, rec);
                        Ok(ctype)
                    },
                }
            },
        }
    }

    /// How many column-extension calls the catalog has served.
    pub fn column_call_count(&self) -> (n: u64)
        ensures
            n as int == self.m().column_calls,
    {
        self.column_calls
    }

    /// How many namespace records the catalog holds.
    pub fn namespace_count(&self) -> (n: usize)
        requires
            self.wf(),
        ensures
            n == self.m().namespaces.dom().len(),
            self.m().namespaces.dom().finite(),
    {
        proof {
            lemma_nss_m_len(self.namespaces@);
        }
        self.namespaces.len()
    }
}

/// A well-formed namespace list stands for a map with one key per entry.
pub proof fn lemma_nss_m_len(s: Seq<NamespaceSchema>)
    requires
        nss_wf(s),
    ensures
        nss_m(s).dom().finite(),
        nss_m(s).dom().len() == s.len(),
    decreases s.len(),
{
    if s.len() == 0 {
        assert(nss_m(s).dom() =~= Set::<Seq<char>>::empty());
    } else {
        assert(nss_wf(s.drop_last()));
        lemma_nss_m_len(s.drop_last());
        assert(forall|i: int|
            0 <= i < s.drop_last().len() ==> (#[trigger] s.drop_last()[i].name@) != s.last().name@)
            by {
            assert(forall|i: int| 0 <= i < s.len() - 1 ==> s.drop_last()[i] == s[i]);
            assert(s[s.len() - 1] == s.last());
        }
        lemma_nss_m_missing(s.drop_last(), s.last().name@);
        assert(nss_m(s).dom() =~= nss_m(s.drop_last()).dom().insert(s.last().name@));
    }
}

} // verus!
