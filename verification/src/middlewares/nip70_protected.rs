//! Protected events: one that carries the tag `-` is only taken from its author.

use crate::error::Error;
use crate::nostr_middleware::{ok_reply, Flow, Outcome};
use crate::protocol::{tag_view, tags_view, ClientMessage, Event, PublicKey, RelayMessage};
use crate::text::str_eq;
use vstd::prelude::*;

verus! {

/// One of the tags marks the event as protected.
pub open spec fn is_protected(tags: Seq<Seq<Seq<char>>>) -> bool {
    exists|i: int|
        0 <= i < tags.len() && (#[trigger] tags[i]).len() > 0 && tags[i][0] == "-"@
}

/// Whether an event is protected.
pub fn has_protected_tag(event: &Event) -> (r: bool)
    ensures
        r == is_protected(event@.tags),
{
    let ghost all = event@.tags;
    let mut i: usize = 0;
    while i < event.tags.len()
        invariant
            i <= event.tags@.len(),
            all == tags_view(event.tags@),
            forall|j: int| 0 <= j < i && (#[trigger] all[j]).len() > 0 ==> all[j][0] != "-"@,
        decreases event.tags@.len() - i,
    {
        let tag = &event.tags[i];
        proof {
            assert(all[i as int] == tag_view(event.tags@[i as int]));
        }
        if tag.len() > 0 && str_eq(tag[0].as_str(), "-") {
            proof {
                assert(all[i as int][0] == "-"@);
            }
            return true;
        }
        i = i + 1;
    }
    false
}

/// The middleware that guards protected events.
#[derive(Debug, Clone, Copy, PartialEq, Eq, Structural)]
pub struct Nip70Middleware;

impl Nip70Middleware {
    /// Lets a protected event through only where the client authenticated as its author. An
    /// unknown client has to authenticate first; another one is told that the event is
    /// rejected. Other messages go on to the next middleware.
    pub fn process_inbound(
        &self,
        message: &Option<ClientMessage>,
        authed_pubkey: Option<PublicKey>,
    ) -> (r: Outcome)
        ensures
            match *message {
                Some(ClientMessage::Event(event)) => if is_protected(event@.tags) {
                    match authed_pubkey {
                        None => r.replies@.len() == 0 && (r.flow matches Flow::Fail(e) && (e
                            matches Error::AuthRequired { message } && message@
                            == "this event may only be published by its author"@)),
                        Some(key) => if key == event.pubkey {
                            r.is_next()
                        } else {
                            r.is_done_with_ok(
                                event.id,
                                false,
                                "rejected: this event may only be published by its author"@,
                            )
                        },
                    }
                } else {
                    r.is_next()
                },
                _ => r.is_next(),
            },
    {
        match message {
            Some(ClientMessage::Event(event)) => {
                if !has_protected_tag(event) {
                    return Outcome::next();
                }
                match authed_pubkey {
                    None => Outcome::fail(
                        Error::auth_required("this event may only be published by its author"),
                    ),
                    Some(key) => {
                        if key.same(&event.pubkey) {
                            Outcome::next()
                        } else {
                            Outcome::reply(
                                ok_reply(
                                    event.id,
                                    false,
                                    "rejected: this event may only be published by its author",
                                ),
                            )
                        }
                    },
                }
            },
            _ => Outcome::next(),
        }
    }
}

/// A protected event gets through exactly when the client authenticated as its author; the mark may
/// be any of the event's tags. An unknown client is asked to authenticate, and another one is told
/// that its event is not taken. Everything that is not protected gets through.
pub proof fn law_protected_events_need_their_author(
    middleware: Nip70Middleware,
    message: Option<ClientMessage>,
    authed_pubkey: Option<PublicKey>,
    r: Outcome,
)
    requires
        call_ensures(Nip70Middleware::process_inbound, (&middleware, &message, authed_pubkey), r),
    ensures
        !(message matches Some(ClientMessage::Event(_))) ==> r.flow is Next && r.replies@.len() == 0,
        message matches Some(ClientMessage::Event(event)) ==> {
            let marked = exists|i: int|
                0 <= i < event@.tags.len() && (#[trigger] event@.tags[i]).len() > 0
                    && event@.tags[i][0] == seq!['-'];
            &&& r.flow is Next <==> !marked || authed_pubkey == Some(event.pubkey)
            &&& r.flow is Next ==> r.replies@.len() == 0
            &&& marked && authed_pubkey is None ==> r.replies@.len() == 0 && (r.flow
                matches Flow::Fail(e) && e is AuthRequired)
            &&& marked && authed_pubkey is Some && authed_pubkey->0 != event.pubkey ==> {
                &&& r.flow is Done
                &&& r.replies@.len() == 1
                &&& r.replies@[0] matches RelayMessage::OkReply { event_id, status, message: text }
                    && event_id == event.id && !status
            }
        },
{
    reveal_strlit("-");
    assert("-"@ =~= seq!['-']);
    if let Some(ClientMessage::Event(event)) = message {
        let tags = event@.tags;
        if exists|i: int|
            0 <= i < tags.len() && (#[trigger] tags[i]).len() > 0 && tags[i][0] == seq!['-'] {
            let i = choose|i: int|
                0 <= i < tags.len() && (#[trigger] tags[i]).len() > 0 && tags[i][0] == seq!['-'];
            assert(tags[i][0] == "-"@);
            assert(is_protected(tags));
        }
        if is_protected(tags) {
            let i = choose|i: int|
                0 <= i < tags.len() && (#[trigger] tags[i]).len() > 0 && tags[i][0] == "-"@;
            assert(tags[i][0] == seq!['-']);
        }
        if let Some(key) = authed_pubkey {
            assert(authed_pubkey == Some(event.pubkey) <==> key == event.pubkey);
        }
    }
}

} // verus!
