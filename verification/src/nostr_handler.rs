//! The two ends of a connection: texts come in and are answered, and messages go out as texts.

use crate::config::{resolved_scope, ScopeConfig};
use crate::error::{error_text, Error};
use crate::event_ingester::IngesterError;
use crate::nostr_middleware::{is_ok_reply, ok_reply};
use crate::protocol::{EventId, RelayMessage, Scope};
use crate::sdk::{relay_message_as_json, relay_message_json};
use crate::text::concat2;
use vstd::prelude::*;

verus! {

/// What is needed to serve connections.
pub struct NostrHandlerFactory {
    /// How the scope of a connection is found.
    pub scope_config: ScopeConfig,
    /// The room of a connection's channel.
    pub channel_size: usize,
}

impl NostrHandlerFactory {
    pub fn new(scope_config: ScopeConfig, channel_size: usize) -> (r: NostrHandlerFactory)
        ensures
            r.scope_config == scope_config,
            r.channel_size == channel_size,
    {
        NostrHandlerFactory { scope_config, channel_size }
    }

    /// The scope of a new connection, given the host that it was made to.
    pub fn create(&self, host: Option<&str>) -> (r: Scope)
        ensures
            r@ == resolved_scope(
                self.scope_config,
                match host {
                    Some(h) => Some(h@),
                    None => None,
                },
            ),
    {
        self.scope_config.resolve_scope(host)
    }
}

/// The identifier of the event that a message brings.
pub open spec fn event_id_of(message: RelayMessage) -> Option<EventId> {
    match message {
        RelayMessage::Event { subscription_id, event } => Some(event.id),
        _ => None,
    }
}

/// The identifier of the event that a message brings.
pub fn carried_event_id(message: &RelayMessage) -> (r: Option<EventId>)
    ensures
        r == event_id_of(*message),
{
    match message {
        RelayMessage::Event { event, .. } => Some(event.id),
        _ => None,
    }
}

/// Whether the middlewares put another event in the place of the one that a message brought.
pub open spec fn event_was_changed(original: Option<EventId>, message: RelayMessage) -> bool {
    original matches Some(id) && (event_id_of(message) matches Some(now) && now != id)
}

/// The text that was prepared for a message, unless the middlewares changed its event.
pub fn usable_json(original: Option<EventId>, message: &RelayMessage, json: Option<String>) -> (r:
    Option<String>)
    ensures
        r == if event_was_changed(original, *message) {
            None
        } else {
            json
        },
{
    match (original, carried_event_id(message)) {
        (Some(before), Some(now)) => {
            if before.same(&now) {
                json
            } else {
                None
            }
        },
        _ => json,
    }
}

/// The text of a message: the one that was prepared, or its JSON form.
pub open spec fn outbound_text(message: RelayMessage, json: Option<String>) -> Seq<char> {
    match json {
        Some(text) => text@,
        None => relay_message_json(message@),
    }
}

/// The text of a message: the one that was prepared, or its JSON form.
pub fn message_text(message: &RelayMessage, json: Option<String>) -> (r: String)
    requires
        message@.wf(),
    ensures
        r@ == outbound_text(*message, json),
{
    match json {
        Some(text) => text,
        None => relay_message_as_json(message),
    }
}

/// A message on its way out: what it was when it was sent, what the middlewares made of it, and
/// the text that was prepared for it.
pub struct Outgoing {
    pub original_event_id: Option<EventId>,
    pub message: Option<RelayMessage>,
    pub json: Option<String>,
}

/// The texts of a batch of messages, in their order. A message that the middlewares held back
/// has none.
pub open spec fn batch_texts(batch: Seq<Outgoing>) -> Seq<Seq<char>>
    decreases batch.len(),
{
    if batch.len() == 0 {
        Seq::empty()
    } else {
        let before = batch_texts(batch.drop_last());
        let last = batch.last();
        match last.message {
            Some(message) => before.push(
                outbound_text(
                    message,
                    if event_was_changed(last.original_event_id, message) {
                        None
                    } else {
                        last.json
                    },
                ),
            ),
            None => before,
        }
    }
}

/// The texts of a batch of messages, in their order.
pub fn process_batch(batch: Vec<Outgoing>) -> (r: Vec<String>)
    requires
        forall|i: int|
            0 <= i < batch@.len() ==> ((#[trigger] batch@[i]).message matches Some(m) ==> m@.wf()),
    ensures
        crate::text::views(r@) == batch_texts(batch@),
{
    let ghost all = batch@;
    let count: usize = batch.len();
    let mut rest = batch;
    let mut texts: Vec<String> = Vec::new();
    let mut i: usize = 0;
    proof {
        assert(all.take(0) =~= Seq::empty());
        assert(crate::text::views(texts@) =~= Seq::empty());
        assert(all.skip(0) =~= all);
    }
    while rest.len() > 0
        invariant
            i <= all.len(),
            all == batch@,
            rest@ == all.skip(i as int),
            i + rest@.len() == all.len(),
            all.len() == count,
            crate::text::views(texts@) == batch_texts(all.take(i as int)),
            forall|k: int|
                0 <= k < all.len() ==> ((#[trigger] all[k]).message matches Some(m) ==> m@.wf()),
        decreases rest@.len(),
    {
        let next = rest.remove(0);
        proof {
            assert(next == all[i as int]);
            assert(all.take(i + 1).drop_last() =~= all.take(i as int));
            assert(all.take(i + 1).last() == next);
            assert(rest@ =~= all.skip(i + 1));
        }
        if let Some(message) = next.message {
            let json = usable_json(next.original_event_id, &message, next.json);
            let ghost before = crate::text::views(texts@);
            let text = message_text(&message, json);
            let ghost added = text@;
            texts.push(text);
            proof {
                assert(crate::text::views(texts@) =~= before.push(added));
            }
        }
        i = i + 1;
    }
    proof {
        assert(all.take(all.len() as int) =~= all);
    }
    texts
}

/// The message is a notice with a text.
pub open spec fn is_notice(message: RelayMessage, text: Seq<char>) -> bool {
    message matches RelayMessage::Notice(m) && m@ == text
}

/// What a client is told when its text was not taken.
pub fn ingester_reply(error: IngesterError) -> (r: RelayMessage)
    ensures
        match error {
            IngesterError::JsonParseError(text) => is_notice(
                r,
                "Invalid message format: "@ + text@,
            ),
            IngesterError::SignatureVerificationFailed(id) => is_ok_reply(
                r,
                id,
                false,
                "invalid: event signature verification failed"@,
            ),
            IngesterError::InvalidUtf8 => is_notice(r, "Invalid UTF-8 in message"@),
            IngesterError::MessageTooLarge => is_notice(r, "Message size exceeds limit"@),
        },
{
    match error {
        IngesterError::JsonParseError(text) => RelayMessage::Notice(
            concat2("Invalid message format: ", text.as_str()),
        ),
        IngesterError::SignatureVerificationFailed(id) => ok_reply(
            id,
            false,
            "invalid: event signature verification failed",
        ),
        IngesterError::InvalidUtf8 => RelayMessage::Notice("Invalid UTF-8 in message".to_owned()),
        IngesterError::MessageTooLarge => RelayMessage::Notice(
            "Message size exceeds limit".to_owned(),
        ),
    }
}

/// What a client is told when the chain fails on its message. The connection stays open.
pub fn inbound_failure_reply(error: &Error) -> (r: RelayMessage)
    ensures
        is_notice(r, error_text(*error)),
{
    RelayMessage::Notice(error.to_string())
}

/// The URL by which a connection from an address is known.
pub fn connection_url(address: &str) -> (r: String)
    ensures
        r@ == "ws://"@ + address@,
{
    concat2("ws://", address)
}

/// A prepared text is sent exactly when the event is still the one that it was prepared for.
pub proof fn law_prepared_text_is_current(id: EventId, message: RelayMessage)
    requires
        event_id_of(message) is Some,
    ensures
        !event_was_changed(Some(id), message) <==> event_id_of(message) == Some(id),
{
}

/// The messages of a batch go out one after the other: the texts of two batches together are those
/// of the first, and then those of the second.
pub proof fn law_batches_follow_each_other(a: Seq<Outgoing>, b: Seq<Outgoing>)
    ensures
        batch_texts(a + b) == batch_texts(a) + batch_texts(b),
    decreases b.len(),
{
    if b.len() == 0 {
        assert(a + b =~= a);
        assert(batch_texts(a) + batch_texts(b) =~= batch_texts(a));
    } else {
        law_batches_follow_each_other(a, b.drop_last());
        assert((a + b).drop_last() =~= a + b.drop_last());
        assert((a + b).last() == b.last());
        assert(batch_texts(a + b) =~= batch_texts(a) + batch_texts(b));
    }
}

/// A message that the middlewares let out has one text, and one that they held back has none. The
/// text is the prepared one, unless there is none or the middlewares put another event in the place
/// of the one it was prepared for: then it is the JSON form of the message.
pub proof fn law_text_of_one_message(out: Outgoing)
    ensures
        batch_texts(seq![out]).len() == if out.message is Some {
            1nat
        } else {
            0nat
        },
        out.message matches Some(message) ==> batch_texts(seq![out])[0] == match (
            out.json,
            out.original_event_id,
            message,
        ) {
            (None, _, _) => relay_message_json(message@),
            (Some(text), Some(id), RelayMessage::Event { subscription_id, event }) => if event.id
                == id {
                text@
            } else {
                relay_message_json(message@)
            },
            (Some(text), _, _) => text@,
        },
{
    assert(seq![out].drop_last() =~= Seq::empty());
    assert(batch_texts(Seq::empty()) =~= Seq::empty());
    assert(seq![out].last() == out);
}

/// What a client is told of a text that was not taken: an event whose signature does not fit is
/// answered by its identifier as not taken, and any other fault with a notice.
pub proof fn law_refused_texts_are_answered(error: IngesterError, r: RelayMessage)
    requires
        call_ensures(ingester_reply, (error,), r),
    ensures
        match error {
            IngesterError::SignatureVerificationFailed(id) => r matches RelayMessage::OkReply {
                event_id,
                status,
                message,
            } && event_id == id && !status,
            IngesterError::JsonParseError(text) => r matches RelayMessage::Notice(notice)
                && text@.is_suffix_of(notice@),
            _ => r is Notice,
        },
{
    if let IngesterError::JsonParseError(text) = error {
        let notice = r->Notice_0@;
        assert(notice.subrange(notice.len() - text@.len(), notice.len() as int) =~= text@);
    }
}

/// What a client is told when the chain fails on its message is the text of the error.
pub proof fn law_failures_are_noticed(error: Error, r: RelayMessage)
    requires
        call_ensures(inbound_failure_reply, (&error,), r),
    ensures
        r matches RelayMessage::Notice(notice) && notice@ == error_text(error),
{
}

} // verus!
