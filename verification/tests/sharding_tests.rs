//! Tests of the sharder and the partitioner.

use router2::errors::ConfigError;
use router2::partition::{partition_key, partition_write, PartitionTemplate, NANOS_PER_DAY};
use router2::sharder::Sharder;
use router2::types::{Column, ColumnType, Row, TableWrite, WriteRequest};

fn row(time: i64) -> Row {
    Row {
        time,
        cols: vec![Column { name: "value".to_string(), ctype: ColumnType::Int }],
    }
}

fn single_table_write(ns: &str, table: &str, times: &[i64]) -> WriteRequest {
    WriteRequest {
        namespace: ns.to_string(),
        tables: vec![TableWrite {
            name: table.to_string(),
            rows: times.iter().map(|t| row(*t)).collect(),
        }],
    }
}

#[test]
fn sharder_empty_inventory_is_fatal() {
    let r = Sharder::new(&vec![]);
    assert!(matches!(r, Err(ConfigError::EmptyShardInventory)));
}

#[test]
fn sharder_pure_across_instances() {
    // The same inventory in different orders, with duplicates, builds
    // sharders that agree on every key.
    let a = Sharder::new(&vec![3, 1, 2]).unwrap();
    let b = Sharder::new(&vec![2, 3, 1, 1, 2]).unwrap();
    for ns in ["n1", "n2", "metrics"] {
        for table in ["cpu", "mem", "disk", "net"] {
            let s1 = a.shard_of(ns, table);
            let s2 = a.shard_of(ns, table);
            let s3 = b.shard_of(ns, table);
            assert_eq!(s1, s2);
            assert_eq!(s1, s3);
            assert!(vec![1, 2, 3].contains(&s1));
        }
    }
}

#[test]
fn sharder_canonical_order() {
    let a = Sharder::new(&vec![9, 4, 7, 4, 1]).unwrap();
    assert_eq!(a.shard_ids(), &vec![1, 4, 7, 9]);
}

#[test]
fn sharder_minimal_disruption() {
    // Removing one shard remaps only the keys that were on it.
    let ids: Vec<u64> = (0..10).collect();
    let full = Sharder::new(&ids).unwrap();
    let removed: u64 = 7;
    let rest: Vec<u64> = ids.iter().cloned().filter(|s| *s != removed).collect();
    let reduced = Sharder::new(&rest).unwrap();
    let mut moved = 0;
    let mut kept = 0;
    for k in 0..200 {
        let table = format!("table_{}", k);
        let before = full.shard_of("bench", &table);
        let after = reduced.shard_of("bench", &table);
        if before == removed {
            moved += 1;
        } else {
            assert_eq!(before, after);
            kept += 1;
        }
    }
    assert!(moved > 0);
    assert!(kept > 0);
}

#[test]
fn partition_key_truncates_to_days() {
    let tpl = PartitionTemplate::day();
    let day = NANOS_PER_DAY as i64;
    assert_eq!(partition_key(0, &tpl), 0);
    assert_eq!(partition_key(day - 1, &tpl), 0);
    assert_eq!(partition_key(day, &tpl), 1);
    assert_eq!(partition_key(3 * day + 42, &tpl), 3);
    // Times before the epoch truncate toward negative infinity.
    assert_eq!(partition_key(-1, &tpl), -1);
    assert_eq!(partition_key(-day, &tpl), -1);
    assert_eq!(partition_key(-day - 1, &tpl), -2);
    assert_eq!(partition_key(i64::MIN, &tpl), i64::MIN / day - 1);
}

#[test]
fn partitioner_groups_by_day() {
    let tpl = PartitionTemplate::day();
    let day = NANOS_PER_DAY as i64;
    let w = single_table_write("n1", "cpu", &[10, day + 5, 20, 2 * day, day + 6]);
    let groups = partition_write(&w, &tpl);
    assert_eq!(groups.len(), 3);
    // First-encounter order of keys.
    assert_eq!(groups[0].key, 0);
    assert_eq!(groups[1].key, 1);
    assert_eq!(groups[2].key, 2);
    // Every row is in exactly one group, in row order; no group is empty.
    assert_eq!(groups[0].tables[0].rows.len(), 2);
    assert_eq!(groups[0].tables[0].rows[0].time, 10);
    assert_eq!(groups[0].tables[0].rows[1].time, 20);
    assert_eq!(groups[1].tables[0].rows.len(), 2);
    assert_eq!(groups[1].tables[0].rows[0].time, day + 5);
    assert_eq!(groups[1].tables[0].rows[1].time, day + 6);
    assert_eq!(groups[2].tables[0].rows.len(), 1);
    for g in &groups {
        assert_eq!(g.namespace, "n1");
        assert!(!g.tables.is_empty());
        for t in &g.tables {
            assert!(!t.rows.is_empty());
        }
    }
}

#[test]
fn partitioner_idempotent() {
    let tpl = PartitionTemplate::day();
    let day = NANOS_PER_DAY as i64;
    let w = WriteRequest {
        namespace: "n1".to_string(),
        tables: vec![
            TableWrite { name: "cpu".to_string(), rows: vec![row(1), row(day + 1)] },
            TableWrite { name: "mem".to_string(), rows: vec![row(2)] },
        ],
    };
    let g1 = partition_write(&w, &tpl);
    let g2 = partition_write(&w, &tpl);
    assert_eq!(g1.len(), g2.len());
    for (a, b) in g1.iter().zip(g2.iter()) {
        assert_eq!(a.key, b.key);
        assert_eq!(a.namespace, b.namespace);
        assert_eq!(a.tables.len(), b.tables.len());
        for (ta, tb) in a.tables.iter().zip(b.tables.iter()) {
            assert_eq!(ta.name, tb.name);
            assert_eq!(ta.rows.len(), tb.rows.len());
            for (ra, rb) in ta.rows.iter().zip(tb.rows.iter()) {
                assert_eq!(ra.time, rb.time);
            }
        }
    }
}

#[test]
fn partitioner_drops_empty_tables_per_group() {
    let tpl = PartitionTemplate::day();
    let day = NANOS_PER_DAY as i64;
    let w = WriteRequest {
        namespace: "n1".to_string(),
        tables: vec![
            TableWrite { name: "cpu".to_string(), rows: vec![row(1)] },
            TableWrite { name: "mem".to_string(), rows: vec![row(day)] },
        ],
    };
    let groups = partition_write(&w, &tpl);
    assert_eq!(groups.len(), 2);
    assert_eq!(groups[0].tables.len(), 1);
    assert_eq!(groups[0].tables[0].name, "cpu");
    assert_eq!(groups[1].tables.len(), 1);
    assert_eq!(groups[1].tables[0].name, "mem");
}
