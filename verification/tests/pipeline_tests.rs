//! Tests of the catalog model, the handlers and the assembled pipeline.

use router2::autocreate::NamespaceAutocreation;
use router2::buffer::ShardedWriteBuffer;
use router2::cache::InstrumentedCache;
use router2::catalog::Catalog;
use router2::errors::{CatalogError, RouterError};
use router2::partition::{PartitionTemplate, PartitionedWrite, NANOS_PER_DAY};
use router2::pipeline::RouterPipeline;
use router2::sharder::Sharder;
use router2::types::{Column, ColumnType, Row, TableWrite, WriteRequest};
use router2::validator::validate_write;

fn row_with(cols: &[(&str, ColumnType)], time: i64) -> Row {
    Row {
        time,
        cols: cols
            .iter()
            .map(|(n, t)| Column { name: n.to_string(), ctype: *t })
            .collect(),
    }
}

fn write_one(ns: &str, table: &str, rows: Vec<Row>) -> WriteRequest {
    WriteRequest {
        namespace: ns.to_string(),
        tables: vec![TableWrite { name: table.to_string(), rows }],
    }
}

fn ready_catalog() -> (Catalog, u64, u64) {
    let mut catalog = Catalog::new();
    let topic = catalog.topic_create_or_get(&"iox-shared".to_string()).unwrap();
    let pool = catalog.pool_create_or_get(&"iox-shared".to_string()).unwrap();
    (catalog, topic, pool)
}

#[test]
fn autocreation_is_idempotent() {
    let (mut catalog, topic, pool) = ready_catalog();
    let ac = NamespaceAutocreation::new(topic, pool, "inf".to_string());
    // Two routers with cold caches race to create the same namespace.
    let mut cache_a = InstrumentedCache::new();
    let mut cache_b = InstrumentedCache::new();
    let name = "n1".to_string();
    let id_a = ac.ensure_namespace(&mut cache_a, &mut catalog, &name).unwrap();
    let id_b = ac.ensure_namespace(&mut cache_b, &mut catalog, &name).unwrap();
    assert_eq!(id_a, id_b);
    assert_eq!(catalog.namespace_count(), 1);
    // A repeated call through a warm cache observes the same identity too.
    let id_c = ac.ensure_namespace(&mut cache_a, &mut catalog, &name).unwrap();
    assert_eq!(id_a, id_c);
    assert_eq!(catalog.namespace_count(), 1);
    assert_eq!(cache_a.metrics().hit, 1);
    assert_eq!(cache_a.metrics().miss, 1);
}

#[test]
fn autocreation_fails_when_catalog_unreachable() {
    let (mut catalog, topic, pool) = ready_catalog();
    catalog.set_available(false);
    let ac = NamespaceAutocreation::new(topic, pool, "inf".to_string());
    let mut cache = InstrumentedCache::new();
    let r = ac.ensure_namespace(&mut cache, &mut catalog, &"n1".to_string());
    assert!(matches!(r, Err(CatalogError::Unavailable)));
    catalog.set_available(true);
    assert_eq!(catalog.namespace_count(), 0);
}

#[test]
fn validator_subset_makes_no_catalog_call() {
    let (mut catalog, topic, pool) = ready_catalog();
    let ac = NamespaceAutocreation::new(topic, pool, "inf".to_string());
    let mut cache = InstrumentedCache::new();
    ac.ensure_namespace(&mut cache, &mut catalog, &"n1".to_string()).unwrap();

    // First write defines the columns: one extension call per new column.
    let w = write_one("n1", "cpu", vec![row_with(&[("usage", ColumnType::Float)], 1)]);
    validate_write(&mut cache, &mut catalog, &w).unwrap();
    assert_eq!(catalog.column_call_count(), 1);

    // A subset write is answered from the cache: no catalog call at all.
    validate_write(&mut cache, &mut catalog, &w).unwrap();
    assert_eq!(catalog.column_call_count(), 1);

    // A new column costs exactly one extension call, and the cache then
    // answers for it too.
    let w2 = write_one(
        "n1",
        "cpu",
        vec![row_with(&[("usage", ColumnType::Float), ("core", ColumnType::Tag)], 2)],
    );
    validate_write(&mut cache, &mut catalog, &w2).unwrap();
    assert_eq!(catalog.column_call_count(), 2);
    validate_write(&mut cache, &mut catalog, &w2).unwrap();
    assert_eq!(catalog.column_call_count(), 2);
}

#[test]
fn validator_rejects_retyped_column_without_touching_cache() {
    let (mut catalog, topic, pool) = ready_catalog();
    let ac = NamespaceAutocreation::new(topic, pool, "inf".to_string());
    let mut cache = InstrumentedCache::new();
    ac.ensure_namespace(&mut cache, &mut catalog, &"n1".to_string()).unwrap();
    let w = write_one("n1", "cpu", vec![row_with(&[("usage", ColumnType::Float)], 1)]);
    validate_write(&mut cache, &mut catalog, &w).unwrap();
    let calls = catalog.column_call_count();

    let bad = write_one("n1", "cpu", vec![row_with(&[("usage", ColumnType::Text)], 2)]);
    let r = validate_write(&mut cache, &mut catalog, &bad);
    match r {
        Err(RouterError::SchemaConflict { table, column, existing, requested }) => {
            assert_eq!(table, "cpu");
            assert_eq!(column, "usage");
            assert_eq!(existing, ColumnType::Float);
            assert_eq!(requested, ColumnType::Text);
        }
        other => panic!("expected a schema conflict, got {:?}", other),
    }
    // The conflict was decided against the cached schema: no catalog call,
    // and the good write still validates from the unchanged cache.
    assert_eq!(catalog.column_call_count(), calls);
    validate_write(&mut cache, &mut catalog, &w).unwrap();
    assert_eq!(catalog.column_call_count(), calls);
}

#[test]
fn validator_missing_namespace_is_not_found() {
    let (mut catalog, _topic, _pool) = ready_catalog();
    let mut cache = InstrumentedCache::new();
    let w = write_one("ghosttown", "cpu", vec![row_with(&[("v", ColumnType::Int)], 1)]);
    let r = validate_write(&mut cache, &mut catalog, &w);
    assert!(matches!(r, Err(RouterError::SchemaCatalog(CatalogError::NotFound))));
}

/// Picks two table names that the sharder routes to different shards.
fn two_tables_on_distinct_shards(sharder: &Sharder, ns: &str) -> (String, String) {
    let first = "t0".to_string();
    let s0 = sharder.shard_of(ns, &first);
    for k in 1..64 {
        let cand = format!("t{}", k);
        if sharder.shard_of(ns, &cand) != s0 {
            return (first, cand);
        }
    }
    panic!("no pair of tables routed to distinct shards");
}

#[test]
fn fan_out_partial_failure_identifies_the_group() {
    let day = NANOS_PER_DAY as i64;
    let sharder = Sharder::new(&vec![10, 11, 12, 13]).unwrap();
    let ns = "n1";
    let (ta, tb) = two_tables_on_distinct_shards(&sharder, ns);
    let shard_b = sharder.shard_of(ns, &tb);
    let mut buffer = ShardedWriteBuffer::new(sharder);

    // Take the shard of table B down.
    let mut down_idx = None;
    for i in 0..buffer.shard_count() {
        if buffer.sequencer(i).shard_id() == shard_b {
            down_idx = Some(i);
        }
    }
    buffer.set_shard_healthy(down_idx.unwrap(), false);

    // Three groups: 1 and 3 write table A, 2 writes table B.
    let mk = |key: i64, table: &str| PartitionedWrite {
        key,
        namespace: ns.to_string(),
        tables: vec![TableWrite {
            name: table.to_string(),
            rows: vec![row_with(&[("v", ColumnType::Int)], key * day)],
        }],
    };
    let groups = vec![mk(0, &ta), mk(1, &tb), mk(2, &ta)];
    let r = buffer.fan_out(&groups);
    match r {
        Err(RouterError::WriteBuffer(fails)) => {
            assert_eq!(fails.len(), 1);
            assert_eq!(fails[0].group, 1);
            assert_eq!(fails[0].key, 1);
            assert_eq!(fails[0].shard, shard_b);
        }
        other => panic!("expected a write-buffer failure, got {:?}", other),
    }
    // Groups 1 and 3 still published: their shard's log holds both batches.
    let mut published = 0;
    for i in 0..buffer.shard_count() {
        published += buffer.sequencer(i).log_len();
    }
    assert_eq!(published, 2);
}

fn assemble(shards: &[u64]) -> (RouterPipeline, Catalog) {
    let (catalog, topic, pool) = ready_catalog();
    let ac = NamespaceAutocreation::new(topic, pool, "inf".to_string());
    let sharder = Sharder::new(&shards.to_vec()).unwrap();
    let buffer = ShardedWriteBuffer::new(sharder);
    let pipeline = RouterPipeline::new(Some(ac), PartitionTemplate::day(), buffer);
    (pipeline, catalog)
}

#[test]
fn end_to_end_two_days_two_groups() {
    let day = NANOS_PER_DAY as i64;
    let (mut pipeline, mut catalog) = assemble(&[1, 2, 3, 4]);
    let w = write_one(
        "n1",
        "cpu",
        vec![
            row_with(&[("usage", ColumnType::Float)], 10),
            row_with(&[("usage", ColumnType::Float)], day + 10),
        ],
    );
    let r = pipeline.handle(&mut catalog, &w);
    assert_eq!(r.unwrap(), 2);

    // Two groups, each durably published.
    let buffer = pipeline.buffer_ref();
    let mut batches = Vec::new();
    for i in 0..4 {
        let s = buffer.sequencer(i);
        for j in 0..s.log_len() {
            let b = s.log_entry(j);
            batches.push((b.namespace.clone(), b.table.clone(), b.key));
        }
    }
    batches.sort();
    assert_eq!(
        batches,
        vec![
            ("n1".to_string(), "cpu".to_string(), 0),
            ("n1".to_string(), "cpu".to_string(), 1),
        ]
    );

    let m = pipeline.metrics();
    assert_eq!(m.request.invocations, 1);
    assert_eq!(m.request.ok, 1);
    assert_eq!(m.autocreate.ok, 1);
    assert_eq!(m.validate.ok, 1);
    assert_eq!(m.partition.ok, 1);
    assert_eq!(m.publish.ok, 1);
}

#[test]
fn end_to_end_fails_when_a_publish_fails() {
    let day = NANOS_PER_DAY as i64;
    let (mut pipeline, mut catalog) = assemble(&[1, 2, 3, 4]);
    // Take every shard down: both groups must fail, and the request with
    // them — it succeeds only if every publish succeeds.
    for i in 0..4 {
        pipeline.set_shard_healthy(i, false);
    }
    let w = write_one(
        "n1",
        "cpu",
        vec![
            row_with(&[("usage", ColumnType::Float)], 10),
            row_with(&[("usage", ColumnType::Float)], day + 10),
        ],
    );
    let r = pipeline.handle(&mut catalog, &w);
    match r {
        Err(RouterError::WriteBuffer(fails)) => {
            assert_eq!(fails.len(), 2);
            assert_eq!(fails[0].group, 0);
            assert_eq!(fails[1].group, 1);
        }
        other => panic!("expected a write-buffer failure, got {:?}", other),
    }
    let m = pipeline.metrics();
    assert_eq!(m.publish.err, 1);
    assert_eq!(m.request.err, 1);
}

#[test]
fn chain_short_circuits_on_validation_failure() {
    // No autocreation stage: the namespace must pre-exist, and does not.
    let sharder = Sharder::new(&vec![1, 2]).unwrap();
    let buffer = ShardedWriteBuffer::new(sharder);
    let mut pipeline = RouterPipeline::new(None, PartitionTemplate::day(), buffer);
    let mut catalog = Catalog::new();
    let w = write_one("n1", "cpu", vec![row_with(&[("v", ColumnType::Int)], 1)]);
    let r = pipeline.handle(&mut catalog, &w);
    assert!(matches!(r, Err(RouterError::SchemaCatalog(CatalogError::NotFound))));
    let m = pipeline.metrics();
    // The failing stage ran; the stages behind it were never invoked.
    assert_eq!(m.validate.invocations, 1);
    assert_eq!(m.validate.err, 1);
    assert_eq!(m.partition.invocations, 0);
    assert_eq!(m.publish.invocations, 0);
    assert_eq!(m.autocreate.invocations, 0);
    for i in 0..2 {
        assert_eq!(pipeline.buffer_ref().sequencer(i).log_len(), 0);
    }
}

#[test]
fn chain_short_circuits_on_namespace_failure() {
    let (mut pipeline, mut catalog) = assemble(&[1, 2]);
    catalog.set_available(false);
    let w = write_one("n1", "cpu", vec![row_with(&[("v", ColumnType::Int)], 1)]);
    let r = pipeline.handle(&mut catalog, &w);
    assert!(matches!(
        r,
        Err(RouterError::NamespaceCreation(CatalogError::Unavailable))
    ));
    let m = pipeline.metrics();
    assert_eq!(m.autocreate.invocations, 1);
    assert_eq!(m.autocreate.err, 1);
    assert_eq!(m.validate.invocations, 0);
    assert_eq!(m.partition.invocations, 0);
    assert_eq!(m.publish.invocations, 0);
}

#[test]
fn disabled_autocreation_with_existing_namespace_succeeds() {
    let (mut catalog, topic, pool) = ready_catalog();
    let ac = NamespaceAutocreation::new(topic, pool, "inf".to_string());
    let mut warm = InstrumentedCache::new();
    ac.ensure_namespace(&mut warm, &mut catalog, &"n1".to_string()).unwrap();

    let sharder = Sharder::new(&vec![1, 2]).unwrap();
    let buffer = ShardedWriteBuffer::new(sharder);
    let mut pipeline = RouterPipeline::new(None, PartitionTemplate::day(), buffer);
    let w = write_one("n1", "cpu", vec![row_with(&[("v", ColumnType::Int)], 5)]);
    let r = pipeline.handle(&mut catalog, &w);
    assert_eq!(r.unwrap(), 1);
}
