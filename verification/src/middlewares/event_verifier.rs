//! Verification of the events that clients send.

use crate::nostr_middleware::{ok_reply, Outcome};
use crate::protocol::{ClientMessage, EventId, RelayMessage};
use crate::sdk::{event_verifies, verify_event};
use vstd::prelude::*;

verus! {

/// What becomes of an event, given whether its identifier and signature are right.
pub fn after_verification(event_id: EventId, valid: bool) -> (r: Outcome)
    ensures
        if valid {
            r.is_next()
        } else {
            r.is_done_with_ok(event_id, false, "invalid: event signature verification failed"@)
        },
{
    if valid {
        Outcome::next()
    } else {
        Outcome::reply(
            ok_reply(event_id, false, "invalid: event signature verification failed"),
        )
    }
}

/// The middleware that verifies events.
#[derive(Debug, Clone, Copy, PartialEq, Eq, Structural)]
pub struct EventVerifierMiddleware;

impl EventVerifierMiddleware {
    /// Lets an event through where its identifier and signature are right, and refuses it
    /// otherwise. Other messages go on to the next middleware.
    pub fn process_inbound(&self, message: &Option<ClientMessage>) -> (r: Outcome)
        requires
            *message matches Some(m) ==> m@.wf(),
        ensures
            match *message {
                Some(ClientMessage::Event(event)) => if event_verifies(event@) {
                    r.is_next()
                } else {
                    r.is_done_with_ok(
                        event.id,
                        false,
                        "invalid: event signature verification failed"@,
                    )
                },
                _ => r.is_next(),
            },
    {
        match message {
            Some(ClientMessage::Event(event)) => {
                after_verification(event.id, verify_event(event).is_ok())
            },
            _ => Outcome::next(),
        }
    }
}

/// An event gets through exactly when its identifier and signature fit it; one that does not is
/// answered, by its identifier, as not taken. Other messages get through.
pub proof fn law_only_valid_events_get_through(
    middleware: EventVerifierMiddleware,
    message: Option<ClientMessage>,
    r: Outcome,
)
    requires
        call_ensures(EventVerifierMiddleware::process_inbound, (&middleware, &message), r),
    ensures
        r.flow is Next <==> (message matches Some(ClientMessage::Event(event)) ==> event_verifies(
            event@,
        )),
        r.flow is Next ==> r.replies@.len() == 0,
        message matches Some(ClientMessage::Event(event)) ==> !event_verifies(event@) ==> {
            &&& r.replies@.len() == 1
            &&& r.replies@[0] matches RelayMessage::OkReply { event_id, status, message: text }
                && event_id == event.id && !status
        },
{
}

} // verus!
