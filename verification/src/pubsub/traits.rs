//! The interface of event publishers and subscribers, and the publisher
//! used when pub/sub is not configured.

use vstd::prelude::*;
use crate::error::Result;
use crate::pubsub::event_bus::DatabaseEvent;

verus! {

/// Trait for event publishing.
pub trait EventPublisher: Send + Sync {
    /// The subscriber handle that `subscribe` returns.
    type Subscriber: EventSubscriber;

    /// Publish an event to all subscribers.
    fn publish(&self, event: DatabaseEvent) -> Result<()>;

    /// Subscribe to events: returns a subscriber handle.
    fn subscribe(&self) -> Self::Subscriber;

    /// The number of subscribers.
    fn subscriber_count(&self) -> usize;
}

/// Trait for event subscription.
pub trait EventSubscriber: Send {
    /// Try to receive an event without blocking.
    fn try_recv(&self) -> Option<DatabaseEvent>;

    /// Whether events are available.
    fn is_ready(&self) -> bool;
}

/// Publisher for when pub/sub is not configured: it accepts every event
/// and delivers none.
pub struct NoopPublisher;

impl EventPublisher for NoopPublisher {
    type Subscriber = NoopSubscriber;

    fn publish(&self, _event: DatabaseEvent) -> (r: Result<()>)
        ensures
            r is Ok,
    {
        Ok(())
    }

    fn subscribe(&self) -> (r: NoopSubscriber) {
        NoopSubscriber
    }

    fn subscriber_count(&self) -> (r: usize)
        ensures
            r == 0,
    {
        0
    }
}

/// Subscriber that never receives an event.
pub struct NoopSubscriber;

impl EventSubscriber for NoopSubscriber {
    fn try_recv(&self) -> (r: Option<DatabaseEvent>)
        ensures
            r is None,
    {
        None
    }

    fn is_ready(&self) -> (r: bool)
        ensures
            !r,
    {
        false
    }
}

} // verus!
