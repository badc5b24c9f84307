use stoolap::error::Error;
use stoolap::storage::vector::config::VectorConfig;
use stoolap::storage::vector::mvcc::VectorMvcc;
use stoolap::storage::vector::wal_logger::{
    delete_payload, encode_record, insert_payload, segment_flush_payload, VectorWalEntry, VectorWalOp,
};
use stoolap::storage::vector::wal_recovery::VectorMvccRecovery;

fn bits(v: &[f32]) -> Vec<u32> {
    v.iter().map(|f| f.to_bits()).collect()
}

fn small_config(dimension: usize, capacity: usize) -> VectorConfig {
    let mut config = VectorConfig::new(dimension);
    config.segment_capacity = capacity;
    config
}

#[test]
fn test_insert() {
    let config = VectorConfig::new(3);
    let mut mvcc = VectorMvcc::new(config, 1);

    mvcc.insert(1, &bits(&[1.0, 2.0, 3.0])).unwrap();
    mvcc.insert(2, &bits(&[4.0, 5.0, 6.0])).unwrap();

    assert_eq!(mvcc.total_vector_count(), 2);
}

#[test]
fn test_visible_segments() {
    let config = VectorConfig::new(3);
    let mut mvcc = VectorMvcc::new(config, 1);

    mvcc.insert(1, &bits(&[1.0, 2.0, 3.0])).unwrap();

    let segments = mvcc.visible_segments();
    assert_eq!(segments.len(), 1);
}

#[test]
fn test_delete() {
    let config = VectorConfig::new(3);
    let mut mvcc = VectorMvcc::new(config, 1);

    mvcc.insert(1, &bits(&[1.0, 2.0, 3.0])).unwrap();
    mvcc.insert(2, &bits(&[4.0, 5.0, 6.0])).unwrap();

    assert_eq!(mvcc.total_vector_count(), 2);

    // Delete vector 1
    mvcc.delete(1).unwrap();
    assert!(mvcc.is_deleted(1));
    assert!(!mvcc.is_deleted(2));

    // Deleting again should be idempotent
    mvcc.delete(1).unwrap();
    assert!(mvcc.is_deleted(1));
}

#[test]
fn test_delete_nonexistent() {
    let config = VectorConfig::new(3);
    let mut mvcc = VectorMvcc::new(config, 1);

    let result = mvcc.delete(999);
    assert!(result.is_err());
}

#[test]
fn mvcc_fresh_store_has_one_empty_active_segment() {
    let mvcc = VectorMvcc::new(small_config(2, 4), 7);
    assert_eq!(mvcc.segment_count(), 1);
    assert_eq!(mvcc.total_vector_count(), 0);
    let active = mvcc.active_segment().unwrap();
    assert_eq!(active.id, 7);
    assert_eq!(active.count, 0);
    assert_eq!(active.dimensions, 2);
    assert_eq!(active.capacity, 4);
    assert_eq!(active.created_txn, 1);
    assert!(mvcc.get_segment(7).is_some());
    assert!(mvcc.get_segment(8).is_none());
    assert_eq!(mvcc.all_segments().len(), 1);
}

#[test]
fn mvcc_insert_returns_segment_and_stores_vector() {
    let mut mvcc = VectorMvcc::new(small_config(2, 4), 7);
    assert_eq!(mvcc.insert(10, &[5, 6]), Ok(7));
    assert_eq!(mvcc.insert(11, &[7, 8]), Ok(7));
    let seg = mvcc.get_segment(7).unwrap();
    assert_eq!(seg.vector_ids, vec![10, 11]);
    assert_eq!(seg.get_embedding(1), Some(&[7u32, 8][..]));
}

#[test]
fn mvcc_insert_errors_leave_store_unchanged() {
    let mut mvcc = VectorMvcc::new(small_config(2, 1), 3);
    assert_eq!(
        mvcc.insert(1, &[1, 2, 3]),
        Err(Error::InvalidVectorDimension { expected: 2, got: 3 })
    );
    assert_eq!(mvcc.total_vector_count(), 0);
    assert_eq!(mvcc.insert(1, &[1, 2]), Ok(3));
    assert_eq!(mvcc.insert(2, &[1, 2]), Err(Error::SegmentFull(3)));
    assert_eq!(mvcc.total_vector_count(), 1);
    assert_eq!(mvcc.delete(2), Err(Error::SegmentNotFound));
}

#[test]
fn mvcc_delete_reports_segment_once() {
    let mut mvcc = VectorMvcc::new(small_config(1, 4), 5);
    mvcc.insert(42, &[9]).unwrap();
    assert_eq!(mvcc.delete(42), Ok(Some(5)));
    assert_eq!(mvcc.delete(42), Ok(None));
    assert!(mvcc.is_deleted(42));
}

#[test]
fn mvcc_update_adds_new_version_and_keeps_tombstone() {
    let mut mvcc = VectorMvcc::new(small_config(1, 4), 5);
    mvcc.insert(42, &[1]).unwrap();
    mvcc.delete(42).unwrap();
    assert_eq!(mvcc.update(42, &[2]), Ok(5));
    assert_eq!(mvcc.total_vector_count(), 2);
    assert!(mvcc.is_deleted(42));
}

fn log_record(op: VectorWalOp, data: &[u8]) -> VectorWalEntry {
    VectorWalEntry::parse(&encode_record(op, "vectors", data)).unwrap()
}

#[test]
fn mvcc_recover_of_empty_log_is_fresh() {
    let config = small_config(3, 8);
    let mvcc = VectorMvccRecovery::recover(&config, &[], 2).unwrap();
    assert_eq!(mvcc.segment_count(), 1);
    assert_eq!(mvcc.total_vector_count(), 0);
    assert_eq!(mvcc.active_segment().unwrap().id, 2);
}

#[test]
fn mvcc_recover_replays_inserts_and_deletes() {
    let config = small_config(2, 8);
    let entries = vec![
        log_record(VectorWalOp::Insert, &insert_payload(10, 1, &[1, 2])),
        log_record(VectorWalOp::Insert, &insert_payload(11, 1, &[3, 4])),
        log_record(VectorWalOp::SegmentFlush, &segment_flush_payload(1)),
        log_record(VectorWalOp::Insert, &insert_payload(12, 1, &[5, 6])),
        log_record(VectorWalOp::Delete, &delete_payload(11, 1)),
    ];
    let mvcc = VectorMvccRecovery::recover(&config, &entries, 4).unwrap();
    assert_eq!(mvcc.total_vector_count(), 3);
    let seg = mvcc.get_segment(4).unwrap();
    assert_eq!(seg.vector_ids, vec![10, 11, 12]);
    assert_eq!(seg.get_embedding_by_id(10), Some(&[1u32, 2][..]));
    assert_eq!(seg.get_embedding_by_id(12), Some(&[5u32, 6][..]));
    assert!(mvcc.is_deleted(11));
    assert!(!mvcc.is_deleted(10));
}

#[test]
fn mvcc_recover_stops_at_first_failing_record() {
    let config = small_config(2, 8);
    let entries = vec![
        log_record(VectorWalOp::Insert, &insert_payload(10, 1, &[1, 2])),
        log_record(VectorWalOp::Delete, &delete_payload(99, 1)),
        log_record(VectorWalOp::Insert, &insert_payload(12, 1, &[5, 6])),
    ];
    assert_eq!(
        VectorMvccRecovery::recover(&config, &entries, 4).err(),
        Some(Error::SegmentNotFound)
    );
    let bad = vec![log_record(VectorWalOp::Insert, &insert_payload(10, 1, &[1, 2, 3]))];
    assert_eq!(
        VectorMvccRecovery::recover(&config, &bad, 4).err(),
        Some(Error::InvalidVectorDimension { expected: 2, got: 3 })
    );
}
