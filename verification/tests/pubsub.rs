use stoolap::pubsub::event_bus::{
    remove_dead,
    DatabaseEvent, InvalidationReason, OperationType, PubSubEventType, SchemaChangeType,
};
use stoolap::pubsub::event_id_for_millis;
use stoolap::pubsub::traits::{EventPublisher, EventSubscriber, NoopPublisher};
use stoolap::pubsub::wal_pubsub::{
    event_id_at, parse_entries, scan_entries, serialize_entry, IdempotencyTracker, WalPubSubEntry,
    WalScan,
};
use sha2::{Digest, Sha256};

#[test]
fn test_channel_name() {
    let event = DatabaseEvent::KeyInvalidated {
        key_hash: vec![1, 2, 3],
        reason: InvalidationReason::Revoke,
        rpm_limit: None,
        tpm_limit: None,
        event_id: [0u8; 32],
    };
    assert_eq!(event.channel_name(), "key:invalidate");
    let event = DatabaseEvent::TableModified {
        table_name: "users".to_string(),
        operation: OperationType::Update,
        txn_id: 1,
        event_id: [0u8; 32],
    };
    assert_eq!(event.channel_name(), "table:users");
}

#[test]
fn test_event_id() {
    let event_id = [1u8; 32];
    let event = DatabaseEvent::KeyInvalidated {
        key_hash: vec![1, 2, 3],
        reason: InvalidationReason::Revoke,
        rpm_limit: None,
        tpm_limit: None,
        event_id,
    };
    assert_eq!(event.event_id(), event_id);
}

#[test]
fn test_noop_publisher() {
    let publisher = NoopPublisher;
    assert_eq!(publisher.subscriber_count(), 0);
    let event = DatabaseEvent::TableModified {
        table_name: "test".to_string(),
        operation: OperationType::Insert,
        txn_id: 1,
        event_id: [0u8; 32],
    };
    assert!(publisher.publish(event).is_ok());
    let subscriber = publisher.subscribe();
    assert!(subscriber.try_recv().is_none());
    assert!(!subscriber.is_ready());
}

#[test]
fn test_idempotency_deduplication() {
    let mut tracker = IdempotencyTracker::new(1000);
    let event_id = [1u8; 32];
    assert!(!tracker.is_duplicate(event_id));
    tracker.mark_seen(event_id);
    assert!(tracker.is_duplicate(event_id));
}

#[test]
fn test_idempotency_max_size() {
    let mut tracker = IdempotencyTracker::new(3);
    tracker.mark_seen([1u8; 32]);
    tracker.mark_seen([2u8; 32]);
    tracker.mark_seen([3u8; 32]);
    assert!(tracker.len() <= 3);
    tracker.mark_seen([4u8; 32]);
    assert!(tracker.len() <= 3);
}

#[test]
fn tracker_evicts_the_older_half() {
    let mut tracker = IdempotencyTracker::new(4);
    for i in 1..=4u8 {
        tracker.mark_seen([i; 32]);
    }
    assert_eq!(tracker.len(), 4);
    tracker.mark_seen([5u8; 32]);
    assert_eq!(tracker.len(), 3);
    assert!(!tracker.is_duplicate([1u8; 32]));
    assert!(!tracker.is_duplicate([2u8; 32]));
    assert!(tracker.is_duplicate([3u8; 32]));
    assert!(tracker.is_duplicate([5u8; 32]));
    tracker.mark_seen([5u8; 32]);
    assert_eq!(tracker.len(), 3);
    let default = IdempotencyTracker::default();
    assert_eq!(default.len(), 0);
}

#[test]
fn channels_and_types_of_every_event() {
    let schema = DatabaseEvent::SchemaChanged {
        table_name: "orders".to_string(),
        change_type: SchemaChangeType::DropTable,
        event_id: [7u8; 32],
    };
    assert_eq!(schema.channel_name(), "schema:orders");
    assert_eq!(schema.pub_sub_type(), PubSubEventType::SchemaChanged);
    assert_eq!(schema.event_id(), [7u8; 32]);
    let commit = DatabaseEvent::TransactionCommited { txn_id: 9, affected_tables: vec![], event_id: [8u8; 32] };
    assert_eq!(commit.channel_name(), "txn:commit");
    assert_eq!(commit.pub_sub_type(), PubSubEventType::CacheCleared);
    assert_eq!(InvalidationReason::UpdateRateLimit.label(), "UPDATE_RATE_LIMIT");
    assert_eq!(OperationType::Delete.label(), "DELETE");
    assert_eq!(SchemaChangeType::AlterTable.label(), "ALTER_TABLE");
}

#[test]
fn event_type_bytes_round_trip() {
    let all = [
        PubSubEventType::KeyInvalidated,
        PubSubEventType::BudgetUpdated,
        PubSubEventType::RateLimitUpdated,
        PubSubEventType::SchemaChanged,
        PubSubEventType::CacheCleared,
    ];
    for (i, t) in all.iter().enumerate() {
        assert_eq!(t.to_u8(), i as u8);
        assert_eq!(PubSubEventType::from_u8(t.to_u8()), Some(*t));
    }
    assert_eq!(PubSubEventType::from_u8(5), None);
}

fn entry(channel: &str, payload: Vec<u8>, ts: i64) -> WalPubSubEntry {
    WalPubSubEntry {
        channel: channel.to_string(),
        payload,
        event_type: PubSubEventType::KeyInvalidated,
        event_id: [3u8; 32],
        timestamp: ts,
        lsn: 999,
    }
}

#[test]
fn wal_entries_read_back_what_was_written() {
    let e1 = entry("key:invalidate", vec![1, 2, 3], -5);
    let e2 = entry("table:ü", vec![], 1_700_000_000_000);
    let mut buf = serialize_entry(&e1, 0);
    assert_eq!(buf.len(), 53 + 14 + 4 + 3);
    let second = serialize_entry(&e2, buf.len() as u64);
    buf.extend_from_slice(&second);
    let read = parse_entries(&buf, 0).unwrap();
    assert_eq!(read.len(), 2);
    assert_eq!(read[0].channel, "key:invalidate");
    assert_eq!(read[0].payload, vec![1, 2, 3]);
    assert_eq!(read[0].timestamp, -5);
    assert_eq!(read[0].lsn, 0);
    assert_eq!(read[0].event_id, [3u8; 32]);
    assert_eq!(read[1].channel, "table:ü");
    assert_eq!(read[1].lsn, 74);
    // Reading from a later position stops before older entries.
    let later = parse_entries(&buf, 1).unwrap();
    assert!(later.is_empty());
}

#[test]
fn wal_rejects_bad_type_and_truncation() {
    let mut buf = serialize_entry(&entry("c", vec![9], 1), 0);
    let mut bad = buf.clone();
    bad[16] = 7;
    assert!(parse_entries(&bad, 0).is_none());
    buf.truncate(buf.len() - 1);
    assert!(matches!(scan_entries(&buf, 0), WalScan::Truncated));
    assert!(matches!(scan_entries(&buf[..52], 0), WalScan::Entries(ref v) if v.is_empty()));
}

#[test]
fn event_ids_hash_payload_and_time() {
    let id = event_id_at(b"test", 1234);
    let mut h = Sha256::new();
    h.update(b"test");
    h.update(&1234i64.to_le_bytes());
    let expected: [u8; 32] = h.finalize().into();
    assert_eq!(id, expected);
    assert_ne!(event_id_at(b"test1", 1), event_id_at(b"test2", 1));
    let g = event_id_for_millis(5);
    let expected: [u8; 32] = Sha256::digest(&5u128.to_le_bytes()).into();
    assert_eq!(g, expected);
}

#[test]
fn remove_dead_drops_failed_subscribers_in_order() {
    let mut subs = vec!["a", "b", "c", "d", "e"];
    remove_dead(&mut subs, &[true, false, true, false, false]);
    assert_eq!(subs, vec!["a", "c"]);
}

#[test]
fn remove_dead_keeps_all_or_none() {
    let mut all = vec![1, 2, 3];
    remove_dead(&mut all, &[true, true, true]);
    assert_eq!(all, vec![1, 2, 3]);
    let mut none = vec![1, 2, 3];
    remove_dead(&mut none, &[false, false, false]);
    assert!(none.is_empty());
    let mut empty: Vec<u8> = Vec::new();
    remove_dead(&mut empty, &[]);
    assert!(empty.is_empty());
}

#[test]
fn test_event_id_unique() {
    let now: i64 = 1_700_000_000_000;
    let id1 = event_id_at(b"test1", now);
    let id2 = event_id_at(b"test2", now);
    assert_ne!(id1, id2);
}

#[test]
fn test_event_id_deterministic() {
    let id1 = event_id_at(b"test", 1_700_000_000_000);
    assert_eq!(id1.len(), 32);
    assert_eq!(id1, event_id_at(b"test", 1_700_000_000_000));
}
