//! What a middleware decides about a message, and how its own messages enter the chain.

use crate::error::Error;
use crate::protocol::{EventId, RelayMessage};
use vstd::prelude::*;

verus! {

/// How the processing of a message goes on.
pub enum Flow {
    /// With the next middleware.
    Next,
    /// Not at all: the message is dealt with.
    Done,
    /// With an error.
    Fail(Error),
}

/// What a middleware decides about an inbound message: the messages that it sends back, in this
/// order, and how the processing goes on.
pub struct Outcome {
    pub replies: Vec<RelayMessage>,
    pub flow: Flow,
}

/// The message answers an event with a status and a text.
pub open spec fn is_ok_reply(
    message: RelayMessage,
    event_id: EventId,
    status: bool,
    text: Seq<char>,
) -> bool {
    message matches RelayMessage::OkReply { event_id: id, status: s, message: m } && id == event_id
        && s == status && m@ == text
}

impl Outcome {
    /// Nothing is sent, and the next middleware goes on.
    pub open spec fn is_next(self) -> bool {
        self.replies@.len() == 0 && self.flow is Next
    }

    /// One answer to an event is sent, and the message is dealt with.
    pub open spec fn is_done_with_ok(
        self,
        event_id: EventId,
        status: bool,
        text: Seq<char>,
    ) -> bool {
        &&& self.replies@.len() == 1
        &&& is_ok_reply(self.replies@[0], event_id, status, text)
        &&& self.flow is Done
    }

    /// Nothing is sent, and the next middleware goes on.
    pub fn next() -> (r: Outcome)
        ensures
            r.is_next(),
    {
        Outcome { replies: Vec::new(), flow: Flow::Next }
    }

    /// One message is sent, and the message is dealt with.
    pub fn reply(message: RelayMessage) -> (r: Outcome)
        ensures
            r.replies@ == seq![message],
            r.flow is Done,
    {
        let mut replies: Vec<RelayMessage> = Vec::new();
        replies.push(message);
        Outcome { replies, flow: Flow::Done }
    }

    /// One message is sent, and the processing ends with an error.
    pub fn reply_then_fail(message: RelayMessage, error: Error) -> (r: Outcome)
        ensures
            r.replies@ == seq![message],
            r.flow == Flow::Fail(error),
    {
        let mut replies: Vec<RelayMessage> = Vec::new();
        replies.push(message);
        Outcome { replies, flow: Flow::Fail(error) }
    }

    /// Nothing is sent, and the processing ends with an error.
    pub fn fail(error: Error) -> (r: Outcome)
        ensures
            r.replies@.len() == 0,
            r.flow == Flow::Fail(error),
    {
        Outcome { replies: Vec::new(), flow: Flow::Fail(error) }
    }
}

/// An answer to an event.
pub fn ok_reply(event_id: EventId, status: bool, text: &str) -> (r: RelayMessage)
    ensures
        is_ok_reply(r, event_id, status, text@),
{
    RelayMessage::OkReply { event_id, status, message: text.to_owned() }
}

/// A message on its way out, with the position of the innermost middleware that it passes
/// through, and its text where that is known already.
pub struct Envelope {
    pub message: RelayMessage,
    pub position: usize,
    pub json: Option<String>,
}

/// What a middleware sends through.
#[derive(Debug, Clone, Copy, PartialEq, Eq, Structural)]
pub struct MessageSender {
    position: usize,
}

impl MessageSender {
    /// The position of the middleware.
    pub closed spec fn at(self) -> usize {
        self.position
    }

    /// The sender of the middleware at a position.
    pub fn new(position: usize) -> (r: MessageSender)
        ensures
            r.at() == position,
    {
        MessageSender { position }
    }

    /// The position of the middleware.
    pub fn position(&self) -> (r: usize)
        ensures
            r == self.at(),
    {
        self.position
    }

    /// Sends a message through the middleware itself and those outside it.
    pub fn send(&self, message: RelayMessage) -> (r: Envelope)
        ensures
            r == (Envelope { message, position: self.at(), json: None }),
    {
        Envelope { message, position: self.position, json: None }
    }

    /// Sends a message past the middleware itself, through those outside it only.
    pub fn send_bypass(&self, message: RelayMessage) -> (r: Envelope)
        requires
            self.at() < usize::MAX,
        ensures
            r == (Envelope { message, position: (self.at() + 1) as usize, json: None }),
    {
        Envelope { message, position: self.position + 1, json: None }
    }

    /// Sends a notice.
    pub fn send_notice(&self, text: &str) -> (r: Envelope)
        ensures
            r.message matches RelayMessage::Notice(m) && m@ == text@,
            r.position == self.at(),
            r.json is None,
    {
        self.send(RelayMessage::Notice(text.to_owned()))
    }

    /// Sends an answer to an event.
    pub fn send_ok(&self, event_id: EventId, accepted: bool, text: &str) -> (r: Envelope)
        ensures
            is_ok_reply(r.message, event_id, accepted, text@),
            r.position == self.at(),
            r.json is None,
    {
        self.send(ok_reply(event_id, accepted, text))
    }

    /// Sends a message whose text is known already.
    pub fn send_with_json(&self, message: RelayMessage, json: String) -> (r: Envelope)
        ensures
            r == (Envelope { message, position: self.at(), json: Some(json) }),
    {
        Envelope { message, position: self.position, json: Some(json) }
    }
}

/// A message that a middleware sends passes that middleware first, and one that it sends past itself
/// the next one outside it; the message is sent as it is, with its text where that is known.
pub proof fn law_messages_are_sent_from_their_place(
    position: usize,
    sender: MessageSender,
    message: RelayMessage,
    json: String,
    sent: Envelope,
    past: Envelope,
    known: Envelope,
)
    requires
        position < usize::MAX,
        call_ensures(MessageSender::new, (position,), sender),
        call_ensures(MessageSender::send, (&sender, message), sent),
        call_ensures(MessageSender::send_bypass, (&sender, message), past),
        call_ensures(MessageSender::send_with_json, (&sender, message, json), known),
    ensures
        sent.position == position && sent.message == message && sent.json is None,
        past.position == position + 1 && past.message == message && past.json is None,
        known.position == position && known.message == message && known.json == Some(json),
{
}

} // verus!
