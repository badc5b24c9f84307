//! Database events that invalidate caches, and their routing keys.

use vstd::prelude::*;
use vstd::string::StringExecFns;

verus! {

/// Database events for pub/sub.
#[derive(Clone, Debug, PartialEq)]
pub enum DatabaseEvent {
    /// Key invalidated (revoked, rotated, budget changed)
    KeyInvalidated {
        key_hash: Vec<u8>,
        reason: InvalidationReason,
        /// Updated rate limits for cross-process sync
        rpm_limit: Option<u32>,
        tpm_limit: Option<u32>,
        /// Event ID for idempotency
        event_id: [u8; 32],
    },
    /// Table modified (for query cache invalidation)
    TableModified {
        table_name: String,
        operation: OperationType,
        txn_id: i64,
        event_id: [u8; 32],
    },
    /// Schema changed (DDL)
    SchemaChanged {
        table_name: String,
        change_type: SchemaChangeType,
        event_id: [u8; 32],
    },
    /// Transaction committed
    TransactionCommited {
        txn_id: i64,
        affected_tables: Vec<String>,
        event_id: [u8; 32],
    },
}

/// The routing channel of an event.
pub open spec fn channel_of(e: DatabaseEvent) -> Seq<char> {
    match e {
        DatabaseEvent::KeyInvalidated { .. } => "key:invalidate"@,
        DatabaseEvent::TableModified { table_name, .. } => "table:"@ + table_name@,
        DatabaseEvent::SchemaChanged { table_name, .. } => "schema:"@ + table_name@,
        DatabaseEvent::TransactionCommited { .. } => "txn:commit"@,
    }
}

/// The log record type of an event.
pub open spec fn pub_sub_type_of(e: DatabaseEvent) -> PubSubEventType {
    match e {
        DatabaseEvent::KeyInvalidated { .. } => PubSubEventType::KeyInvalidated,
        DatabaseEvent::TableModified { .. } => PubSubEventType::CacheCleared,
        DatabaseEvent::SchemaChanged { .. } => PubSubEventType::SchemaChanged,
        DatabaseEvent::TransactionCommited { .. } => PubSubEventType::CacheCleared,
    }
}

/// The idempotency identifier an event carries.
pub open spec fn event_id_of(e: DatabaseEvent) -> [u8; 32] {
    match e {
        DatabaseEvent::KeyInvalidated { event_id, .. } => event_id,
        DatabaseEvent::TableModified { event_id, .. } => event_id,
        DatabaseEvent::SchemaChanged { event_id, .. } => event_id,
        DatabaseEvent::TransactionCommited { event_id, .. } => event_id,
    }
}

impl DatabaseEvent {
    /// The channel name used for routing: `key:invalidate`,
    /// `table:<name>`, `schema:<name>` or `txn:commit`.
    pub fn channel_name(&self) -> (r: String)
        ensures
            r@ == channel_of(*self),
    {
        match self {
            DatabaseEvent::KeyInvalidated { .. } => String::from_str("key:invalidate"),
            DatabaseEvent::TableModified { table_name, .. } => {
                let mut s = String::from_str("table:");
                s.append(table_name.as_str());
                s
            },
            DatabaseEvent::SchemaChanged { table_name, .. } => {
                let mut s = String::from_str("schema:");
                s.append(table_name.as_str());
                s
            },
            DatabaseEvent::TransactionCommited { .. } => String::from_str("txn:commit"),
        }
    }

    /// The pub/sub event type recorded in log entries.
    pub fn pub_sub_type(&self) -> (r: PubSubEventType)
        ensures
            r == pub_sub_type_of(*self),
    {
        match self {
            DatabaseEvent::KeyInvalidated { .. } => PubSubEventType::KeyInvalidated,
            DatabaseEvent::TableModified { .. } => PubSubEventType::CacheCleared,
            DatabaseEvent::SchemaChanged { .. } => PubSubEventType::SchemaChanged,
            DatabaseEvent::TransactionCommited { .. } => PubSubEventType::CacheCleared,
        }
    }

    /// The event ID.
    pub fn event_id(&self) -> (r: [u8; 32])
        ensures
            r == event_id_of(*self),
    {
        match self {
            DatabaseEvent::KeyInvalidated { event_id, .. } => *event_id,
            DatabaseEvent::TableModified { event_id, .. } => *event_id,
            DatabaseEvent::SchemaChanged { event_id, .. } => *event_id,
            DatabaseEvent::TransactionCommited { event_id, .. } => *event_id,
        }
    }
}

/// Invalidation reason for KeyInvalidated events.
#[derive(Clone, Debug, PartialEq, Eq)]
pub enum InvalidationReason {
    /// API key revoked
    Revoke,
    /// Key rotation
    Rotate,
    /// Balance changed
    UpdateBudget,
    /// RPM/TPM changed
    UpdateRateLimit,
    /// TTL expired
    Expire,
    /// Table DDL change
    SchemaChange,
}

impl InvalidationReason {
    /// The display name: `REVOKE`, `ROTATE`, `UPDATE_BUDGET`,
    /// `UPDATE_RATE_LIMIT`, `EXPIRE` or `SCHEMA_CHANGE`.
    pub fn label(&self) -> (r: &'static str)
        ensures
            r@ == match *self {
                InvalidationReason::Revoke => "REVOKE"@,
                InvalidationReason::Rotate => "ROTATE"@,
                InvalidationReason::UpdateBudget => "UPDATE_BUDGET"@,
                InvalidationReason::UpdateRateLimit => "UPDATE_RATE_LIMIT"@,
                InvalidationReason::Expire => "EXPIRE"@,
                InvalidationReason::SchemaChange => "SCHEMA_CHANGE"@,
            },
    {
        match self {
            InvalidationReason::Revoke => "REVOKE",
            InvalidationReason::Rotate => "ROTATE",
            InvalidationReason::UpdateBudget => "UPDATE_BUDGET",
            InvalidationReason::UpdateRateLimit => "UPDATE_RATE_LIMIT",
            InvalidationReason::Expire => "EXPIRE",
            InvalidationReason::SchemaChange => "SCHEMA_CHANGE",
        }
    }
}

/// Operation type for TableModified events.
#[derive(Clone, Debug, PartialEq, Eq)]
pub enum OperationType {
    Insert,
    Update,
    Delete,
}

impl OperationType {
    /// The display name: `INSERT`, `UPDATE` or `DELETE`.
    pub fn label(&self) -> (r: &'static str)
        ensures
            r@ == match *self {
                OperationType::Insert => "INSERT"@,
                OperationType::Update => "UPDATE"@,
                OperationType::Delete => "DELETE"@,
            },
    {
        match self {
            OperationType::Insert => "INSERT",
            OperationType::Update => "UPDATE",
            OperationType::Delete => "DELETE",
        }
    }
}

/// Schema change type for SchemaChanged events.
#[derive(Clone, Debug, PartialEq, Eq)]
pub enum SchemaChangeType {
    CreateTable,
    DropTable,
    AlterTable,
}

impl SchemaChangeType {
    /// The display name: `CREATE_TABLE`, `DROP_TABLE` or `ALTER_TABLE`.
    pub fn label(&self) -> (r: &'static str)
        ensures
            r@ == match *self {
                SchemaChangeType::CreateTable => "CREATE_TABLE"@,
                SchemaChangeType::DropTable => "DROP_TABLE"@,
                SchemaChangeType::AlterTable => "ALTER_TABLE"@,
            },
    {
        match self {
            SchemaChangeType::CreateTable => "CREATE_TABLE",
            SchemaChangeType::DropTable => "DROP_TABLE",
            SchemaChangeType::AlterTable => "ALTER_TABLE",
        }
    }
}

/// Pub/sub event types.
#[derive(Debug, Clone, Copy, PartialEq, Eq)]
pub enum PubSubEventType {
    KeyInvalidated,
    BudgetUpdated,
    RateLimitUpdated,
    SchemaChanged,
    CacheCleared,
}

/// The byte that stands for an event type in log entries.
pub open spec fn event_type_byte(t: PubSubEventType) -> u8 {
    match t {
        PubSubEventType::KeyInvalidated => 0,
        PubSubEventType::BudgetUpdated => 1,
        PubSubEventType::RateLimitUpdated => 2,
        PubSubEventType::SchemaChanged => 3,
        PubSubEventType::CacheCleared => 4,
    }
}

/// The event type a byte stands for, if any.
pub open spec fn event_type_of_byte(v: u8) -> Option<PubSubEventType> {
    if v == 0 {
        Some(PubSubEventType::KeyInvalidated)
    } else if v == 1 {
        Some(PubSubEventType::BudgetUpdated)
    } else if v == 2 {
        Some(PubSubEventType::RateLimitUpdated)
    } else if v == 3 {
        Some(PubSubEventType::SchemaChanged)
    } else if v == 4 {
        Some(PubSubEventType::CacheCleared)
    } else {
        None
    }
}

impl PubSubEventType {
    /// Convert to byte for serialization.
    pub fn to_u8(&self) -> (r: u8)
        ensures
            r == event_type_byte(*self),
    {
        match self {
            PubSubEventType::KeyInvalidated => 0,
            PubSubEventType::BudgetUpdated => 1,
            PubSubEventType::RateLimitUpdated => 2,
            PubSubEventType::SchemaChanged => 3,
            PubSubEventType::CacheCleared => 4,
        }
    }

    /// Create from byte.
    pub fn from_u8(value: u8) -> (r: Option<Self>)
        ensures
            r == event_type_of_byte(value),
    {
        match value {
            0 => Some(PubSubEventType::KeyInvalidated),
            1 => Some(PubSubEventType::BudgetUpdated),
            2 => Some(PubSubEventType::RateLimitUpdated),
            3 => Some(PubSubEventType::SchemaChanged),
            4 => Some(PubSubEventType::CacheCleared),
            _ => None,
        }
    }
}

/// Reading back an event type's byte gives the type, and only the bytes
/// of event types are read back as one.
pub proof fn lemma_event_type_byte_roundtrip(t: PubSubEventType, v: u8)
    ensures
        event_type_of_byte(event_type_byte(t)) == Some(t),
        event_type_of_byte(v) matches Some(u) ==> event_type_byte(u) == v,
{
}


/// The subscribers whose delivery succeeded, in order.
pub open spec fn still_subscribed<T>(subscribers: Seq<T>, delivered: Seq<bool>) -> Seq<T>
    decreases subscribers.len(),
{
    if subscribers.len() == 0 {
        Seq::empty()
    } else {
        let rest = still_subscribed(subscribers.drop_first(), delivered.drop_first());
        if delivered[0] {
            seq![subscribers[0]] + rest
        } else {
            rest
        }
    }
}

/// Drops the subscribers whose delivery failed (`delivered[i]` is false),
/// from the last to the first so that earlier positions stay valid; the
/// others keep their order.
pub fn remove_dead<T>(subscribers: &mut Vec<T>, delivered: &[bool])
    requires
        old(subscribers)@.len() == delivered@.len(),
    ensures
        final(subscribers)@ == still_subscribed(old(subscribers)@, delivered@),
{
    let ghost all = subscribers@;
    let n = delivered.len();
    let mut i: usize = n;
    assert(all.subrange(0, n as int) =~= all);
    assert(all.subrange(n as int, n as int) =~= Seq::<T>::empty());
    while i > 0
        invariant
            n == all.len(),
            n == delivered@.len(),
            i <= n,
            subscribers@ == all.subrange(0, i as int) + still_subscribed(
                all.subrange(i as int, n as int),
                delivered@.subrange(i as int, n as int),
            ),
        decreases i,
    {
        let j = i - 1;
        let ghost tail = all.subrange(i as int, n as int);
        let ghost kept_tail = still_subscribed(tail, delivered@.subrange(i as int, n as int));
        assert(all.subrange(j as int, n as int).drop_first() =~= tail);
        assert(delivered@.subrange(j as int, n as int).drop_first() =~= delivered@.subrange(
            i as int,
            n as int,
        ));
        if !delivered[j] {
            subscribers.remove(j);
            assert(subscribers@ =~= all.subrange(0, j as int) + kept_tail);
        } else {
            assert(all.subrange(0, i as int) + kept_tail =~= all.subrange(0, j as int) + (seq![
                all[j as int],
            ] + kept_tail));
        }
        i = j;
    }
    assert(all.subrange(0, 0) + still_subscribed(all, delivered@) =~= still_subscribed(
        all,
        delivered@,
    ));
    assert(all.subrange(0, n as int) =~= all);
    assert(delivered@.subrange(0, n as int) =~= delivered@);
}


/// Each event is logged under its own kind: key invalidations as
/// `KeyInvalidated`, schema changes as `SchemaChanged`, table
/// modifications and commits as `CacheCleared`, and no event as a budget
/// or rate-limit update. The events routed to `key:invalidate` are exactly
/// those logged as key invalidations.
pub proof fn lemma_pub_sub_type_kinds(e: DatabaseEvent)
    ensures
        (pub_sub_type_of(e) == PubSubEventType::KeyInvalidated) <==> e is KeyInvalidated,
        (pub_sub_type_of(e) == PubSubEventType::SchemaChanged) <==> e is SchemaChanged,
        (pub_sub_type_of(e) == PubSubEventType::CacheCleared) <==> (e is TableModified
            || e is TransactionCommited),
        pub_sub_type_of(e) != PubSubEventType::BudgetUpdated,
        pub_sub_type_of(e) != PubSubEventType::RateLimitUpdated,
        (channel_of(e) == "key:invalidate"@) <==> (pub_sub_type_of(e)
            == PubSubEventType::KeyInvalidated),
{
    reveal_strlit("key:invalidate");
    reveal_strlit("table:");
    reveal_strlit("schema:");
    reveal_strlit("txn:commit");
    match e {
        DatabaseEvent::TableModified { table_name, .. } => {
            assert(("table:"@ + table_name@)[0] != "key:invalidate"@[0]);
        },
        DatabaseEvent::SchemaChanged { table_name, .. } => {
            assert(("schema:"@ + table_name@)[0] != "key:invalidate"@[0]);
        },
        DatabaseEvent::TransactionCommited { .. } => {
            assert("txn:commit"@[0] != "key:invalidate"@[0]);
        },
        _ => {},
    }
}

} // verus!
