//! The metrics handler that the whole relay shares. The program keeps one slot for it.

use crate::metrics::SubscriptionMetricsHandler;
use vstd::prelude::*;

verus! {

/// The place of the shared handler, which is filled at most once.
pub struct MetricsSlot<H: SubscriptionMetricsHandler> {
    pub handler: Option<H>,
}

impl<H: SubscriptionMetricsHandler> MetricsSlot<H> {
    /// The empty slot.
    pub fn new() -> (r: MetricsSlot<H>)
        ensures
            r.handler is None,
    {
        MetricsSlot { handler: None }
    }
}

/// Fills the slot, which has to be empty.
pub fn set_subscription_metrics_handler<H: SubscriptionMetricsHandler>(
    slot: &mut MetricsSlot<H>,
    handler: H,
)
    requires
        old(slot).handler is None,
    ensures
        final(slot).handler == Some(handler),
{
    slot.handler = Some(handler);
}

/// The shared handler, where there is one.
pub fn get_subscription_metrics_handler<H: SubscriptionMetricsHandler>(
    slot: &MetricsSlot<H>,
) -> (r: Option<&H>)
    ensures
        match r {
            Some(handler) => slot.handler == Some(*handler),
            None => slot.handler is None,
        },
{
    slot.handler.as_ref()
}

} // verus!
