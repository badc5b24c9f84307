use stoolap::execution::gas::{GasMeter, GasPrice};
use stoolap::keyorder::SortedMap;
use stoolap::mix::wymix;
use stoolap::pubsub::wal_pubsub::IdempotencyTracker;
use stoolap::trie::schema_trie::{ColumnDef, SchemaTrie, TableSchema};
use stoolap::types::DataType;

#[test]
fn failed_charge_leaves_the_meter_unchanged() {
    let mut meter = GasMeter::new(150);
    meter.charge(GasPrice::ReadRow).unwrap();
    for _ in 0..3 {
        assert!(meter.charge(GasPrice::ReadRow).is_err());
        assert_eq!(meter.gas_used(), 100);
        assert_eq!(meter.remaining(), 50);
    }
    assert!(meter.gas_used() <= meter.gas_limit());
}

#[test]
fn created_table_is_found_and_dropped_table_is_gone() {
    let mut trie = SchemaTrie::new();
    let mut schema = TableSchema::new("t");
    schema.add_column(ColumnDef::new("c", DataType::Bigint, true));
    trie.create_table(schema);
    assert_eq!(trie.get_table("t").unwrap().columns[0].name, "c");
    trie.drop_table("t");
    assert!(trie.get_table("t").is_none());
}

#[test]
fn sorted_map_insert_then_get_and_remove() {
    let mut m: SortedMap<String, u32> = SortedMap::new();
    assert!(m.is_empty());
    assert_eq!(m.insert("b".to_string(), 1), None);
    assert_eq!(m.insert("a".to_string(), 2), None);
    assert_eq!(m.insert("b".to_string(), 3), Some(1));
    assert_eq!(m.get(b"b"), Some(&3));
    assert_eq!(m.len(), 2);
    assert_eq!(m.entry(0).0, "a");
    assert_eq!(m.remove(b"a"), Some(2));
    assert_eq!(m.get(b"a"), None);
    assert!(!m.contains_key(b"a"));
}

#[test]
fn marked_id_is_a_duplicate_whatever_the_size() {
    for max in 0..4usize {
        let mut t = IdempotencyTracker::new(max);
        for i in 0..6u8 {
            t.mark_seen([i; 32]);
            assert!(t.is_duplicate([i; 32]));
        }
    }
}

#[test]
fn wymix_folds_the_product() {
    assert_eq!(wymix(0, 5), 0);
    assert_eq!(wymix(1, 7), 7);
    let a = 0xa076_1d64_78bd_642fu64;
    let b = 0xe703_7ed1_a0b4_28dbu64;
    let r = (a as u128) * (b as u128);
    assert_eq!(wymix(a, b), (r as u64) ^ ((r >> 64) as u64));
    assert_eq!(wymix(u64::MAX, u64::MAX), 1 ^ (u64::MAX - 1));
}
