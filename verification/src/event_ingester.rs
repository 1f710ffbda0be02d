//! The way of a text from a client into the relay: it is parsed, and an event is verified.

use crate::hex_text::{encode, hex_text};
use crate::protocol::{ClientMessage, ClientMessageView, EventId};
use crate::sdk::{event_verifies, parse_client_message, parsed_client_message, verify_event};
use crate::text::concat2;
use nostr_sdk::Keys;
use std::sync::Arc;
use vstd::prelude::*;

verus! {

/// Why a text was not taken.
#[derive(Debug)]
pub enum IngesterError {
    InvalidUtf8,
    JsonParseError(String),
    SignatureVerificationFailed(EventId),
    MessageTooLarge,
}

/// The text of an error.
pub open spec fn ingester_error_text(e: IngesterError) -> Seq<char> {
    match e {
        IngesterError::InvalidUtf8 => "Invalid UTF-8 in message"@,
        IngesterError::JsonParseError(text) => "JSON parse error: "@ + text@,
        IngesterError::SignatureVerificationFailed(id) => {
            "Event signature verification failed for event "@ + hex_text(id.bytes@)
        },
        IngesterError::MessageTooLarge => "Message size exceeds limit"@,
    }
}

impl IngesterError {
    /// The text of the error.
    pub fn to_string(&self) -> (r: String)
        ensures
            r@ == ingester_error_text(*self),
    {
        match self {
            IngesterError::InvalidUtf8 => "Invalid UTF-8 in message".to_owned(),
            IngesterError::JsonParseError(text) => concat2("JSON parse error: ", text.as_str()),
            IngesterError::SignatureVerificationFailed(id) => {
                let hex = encode(&id_bytes(id));
                concat2("Event signature verification failed for event ", hex.as_str())
            },
            IngesterError::MessageTooLarge => "Message size exceeds limit".to_owned(),
        }
    }
}

/// The bytes of an event identifier.
fn id_bytes(id: &EventId) -> (r: Vec<u8>)
    ensures
        r@ == id.bytes@,
{
    let mut r: Vec<u8> = Vec::new();
    let mut i: usize = 0;
    while i < 32
        invariant
            i <= 32,
            r@ == id.bytes@.take(i as int),
        decreases 32 - i,
    {
        proof {
            assert(id.bytes@.take(i + 1) =~= id.bytes@.take(i as int).push(id.bytes@[i as int]));
        }
        r.push(id.bytes[i]);
        i = i + 1;
    }
    proof {
        assert(id.bytes@.take(32) =~= id.bytes@);
    }
    r
}

/// What becomes of a text, given what it was parsed to and, for an event, whether it is verified.
pub open spec fn ingested(
    r: Result<ClientMessage, IngesterError>,
    text: Seq<char>,
    parsed: Result<ClientMessageView, Seq<char>>,
    verified: bool,
) -> bool {
    if text.len() == 0 {
        r matches Err(IngesterError::JsonParseError(t)) && t@ == "Empty message"@
    } else {
        match parsed {
            Err(e) => r matches Err(IngesterError::JsonParseError(t)) && t@ == e,
            Ok(ClientMessageView::Event(event)) => if verified {
                r matches Ok(m) && m@ == ClientMessageView::Event(event)
            } else {
                r matches Err(IngesterError::SignatureVerificationFailed(id)) && id == event.id
            },
            Ok(message) => r matches Ok(m) && m@ == message,
        }
    }
}

/// Whether the event of a message is verified; other messages need no verification.
pub open spec fn message_verifies(parsed: Result<ClientMessageView, Seq<char>>) -> bool {
    parsed matches Ok(ClientMessageView::Event(event)) ==> event_verifies(event)
}

/// The view of what a text was parsed to.
pub open spec fn parse_view(parsed: Result<ClientMessage, String>) -> Result<
    ClientMessageView,
    Seq<char>,
> {
    match parsed {
        Ok(m) => Ok(m@),
        Err(e) => Err(e@),
    }
}

/// Decides about a text that is not empty, given what it was parsed to and, for an event,
/// whether it is verified.
pub fn after_parsing(parsed: Result<ClientMessage, String>, verified: bool) -> (r: Result<
    ClientMessage,
    IngesterError,
>)
    ensures
        forall|text: Seq<char>|
            text.len() > 0 ==> #[trigger] ingested(r, text, parse_view(parsed), verified),
{
    match parsed {
        Err(e) => Err(IngesterError::JsonParseError(e)),
        Ok(ClientMessage::Event(event)) => {
            if verified {
                Ok(ClientMessage::Event(event))
            } else {
                Err(IngesterError::SignatureVerificationFailed(event.id))
            }
        },
        Ok(message) => Ok(message),
    }
}

/// The ingester.
#[derive(Clone)]
pub struct EventIngester {
    /// The keys of the relay, which verification does not need.
    pub keys: Arc<Keys>,
}

impl EventIngester {
    pub fn new(keys: Arc<Keys>) -> (r: EventIngester)
        ensures
            r.keys == keys,
    {
        EventIngester { keys }
    }

    /// Parses a text and verifies the event that it holds.
    pub fn process_message(&self, text: String) -> (r: Result<ClientMessage, IngesterError>)
        ensures
            ingested(
                r,
                text@,
                parsed_client_message(text@),
                message_verifies(parsed_client_message(text@)),
            ),
            r matches Ok(m) ==> m@.wf(),
    {
        EventIngester::process_single_message(text.as_str())
    }

    /// Parses a text and verifies the event that it holds.
    pub fn process_single_message(text: &str) -> (r: Result<ClientMessage, IngesterError>)
        ensures
            ingested(
                r,
                text@,
                parsed_client_message(text@),
                message_verifies(parsed_client_message(text@)),
            ),
            r matches Ok(m) ==> m@.wf(),
    {
        if text.is_empty() {
            return Err(IngesterError::JsonParseError("Empty message".to_owned()));
        }
        let parsed = parse_client_message(text);
        let verified = match &parsed {
            Ok(ClientMessage::Event(event)) => verify_event(event).is_ok(),
            _ => true,
        };
        let r = after_parsing(parsed, verified);
        proof {
            assert(ingested(r, text@, parse_view(parsed), verified));
        }
        r
    }
}

/// No event gets past the ingester whose identifier and signature do not fit it.
pub proof fn law_only_verified_events_pass(
    r: Result<ClientMessage, IngesterError>,
    text: Seq<char>,
    parsed: Result<ClientMessageView, Seq<char>>,
)
    requires
        ingested(r, text, parsed, message_verifies(parsed)),
    ensures
        r matches Ok(m) ==> (m@ matches ClientMessageView::Event(event) ==> event_verifies(event)),
{
}

/// A text that holds a message is taken, and the message is handed on as it was parsed; an event is
/// taken exactly when its identifier and signature fit it, and is named where they do not. What
/// holds no message is refused with the reason.
pub proof fn law_messages_are_handed_on(r: Result<ClientMessage, IngesterError>, text: Seq<char>)
    requires
        text.len() > 0,
        ingested(
            r,
            text,
            parsed_client_message(text),
            message_verifies(parsed_client_message(text)),
        ),
    ensures
        match parsed_client_message(text) {
            Ok(ClientMessageView::Event(event)) => {
                &&& r is Ok <==> event_verifies(event)
                &&& r matches Ok(m) ==> m@ == ClientMessageView::Event(event)
                &&& r matches Err(e) ==> (e matches IngesterError::SignatureVerificationFailed(id)
                    && id == event.id)
            },
            Ok(message) => r matches Ok(m) && m@ == message,
            Err(reason) => r matches Err(IngesterError::JsonParseError(t)) && t@ == reason,
        },
{
}

} // verus!
