//! What the relay reports of its work, without depending on a metrics system.

use vstd::prelude::*;

verus! {

/// Receives the changes of the number of active subscriptions.
pub trait SubscriptionMetricsHandler: Send + Sync {
    /// A subscription was added.
    fn increment_active_subscriptions(&self);

    /// Subscriptions were removed.
    fn decrement_active_subscriptions(&self, count: usize);
}

/// Receives the events that come in.
pub trait EventProcessingMetricsHandler: Send + Sync {
    /// An inbound event was processed.
    fn increment_inbound_events_processed(&self);
}

/// A handler that drops what it receives.
#[derive(Debug, Clone, Copy)]
pub struct NoOpMetricsHandler;

impl Default for NoOpMetricsHandler {
    fn default() -> (r: NoOpMetricsHandler)
        ensures
            r == NoOpMetricsHandler,
    {
        NoOpMetricsHandler
    }
}

impl SubscriptionMetricsHandler for NoOpMetricsHandler {
    fn increment_active_subscriptions(&self) {
    }

    fn decrement_active_subscriptions(&self, _count: usize) {
    }
}

impl EventProcessingMetricsHandler for NoOpMetricsHandler {
    fn increment_inbound_events_processed(&self) {
    }
}

/// A change of the number of active subscriptions that is to be reported.
#[derive(Debug, Clone, Copy, PartialEq, Eq, Structural)]
pub enum SubscriptionChange {
    Unchanged,
    Added,
    Removed(usize),
}

impl SubscriptionChange {
    /// By how much the number of active subscriptions changes.
    pub open spec fn amount(self) -> int {
        match self {
            SubscriptionChange::Unchanged => 0,
            SubscriptionChange::Added => 1,
            SubscriptionChange::Removed(count) => -(count as int),
        }
    }

    /// Reports the change to a handler.
    pub fn report<H: SubscriptionMetricsHandler>(&self, handler: &H)
        ensures
            match *self {
                SubscriptionChange::Unchanged => true,
                SubscriptionChange::Added => call_ensures(
                    H::increment_active_subscriptions,
                    (handler,),
                    (),
                ),
                SubscriptionChange::Removed(count) => call_ensures(
                    H::decrement_active_subscriptions,
                    (handler, count),
                    (),
                ),
            },
    {
        match self {
            SubscriptionChange::Unchanged => {},
            SubscriptionChange::Added => handler.increment_active_subscriptions(),
            SubscriptionChange::Removed(count) => handler.decrement_active_subscriptions(*count),
        }
    }
}

/// By how much the number of active subscriptions changes over a list of changes.
pub open spec fn total_amount(changes: Seq<SubscriptionChange>) -> int
    decreases changes.len(),
{
    if changes.len() == 0 {
        0
    } else {
        total_amount(changes.drop_last()) + changes.last().amount()
    }
}

} // verus!
