//! Events that expire: a tag gives the time after which an event is no longer sent, and is
//! deleted when it turns up again.

use crate::event_processor::StoreCommand;
use crate::protocol::{
    filter_matches, tag_view, tags_view, ClientMessage, Event, EventView, Filter, RelayMessage, Scope,
};
use crate::text::{parse_u64, parse_unsigned, str_eq};
use vstd::prelude::*;

verus! {

/// The time that a tag gives for the end of an event.
pub open spec fn tag_expiration(tag: Seq<Seq<char>>) -> Option<nat> {
    if tag.len() >= 2 && tag[0] == "expiration"@ {
        parse_unsigned(tag[1], u64::MAX as nat)
    } else {
        None
    }
}

/// The time that the first such tag gives for the end of an event.
pub open spec fn expiration(tags: Seq<Seq<Seq<char>>>) -> Option<nat>
    decreases tags.len(),
{
    if tags.len() == 0 {
        None
    } else if tag_expiration(tags[0]) is Some {
        tag_expiration(tags[0])
    } else {
        expiration(tags.drop_first())
    }
}

/// The event has expired.
pub open spec fn is_expired(tags: Seq<Seq<Seq<char>>>, now: u64) -> bool {
    expiration(tags) matches Some(end) && end < now
}

/// The time that an event gives for its end.
pub fn get_event_expiration(event: &Event) -> (r: Option<u64>)
    ensures
        match r {
            Some(end) => expiration(event@.tags) == Some(end as nat),
            None => expiration(event@.tags) is None,
        },
{
    let ghost all = event@.tags;
    let mut i: usize = 0;
    proof {
        assert(all.skip(0) =~= all);
    }
    while i < event.tags.len()
        invariant
            i <= event.tags@.len(),
            all == tags_view(event.tags@),
            expiration(all) == expiration(all.skip(i as int)),
        decreases event.tags@.len() - i,
    {
        proof {
            assert(all.skip(i as int)[0] == tag_view(event.tags@[i as int]));
            assert(all.skip(i as int).drop_first() =~= all.skip(i + 1));
        }
        let tag = &event.tags[i];
        if tag.len() >= 2 && str_eq(tag[0].as_str(), "expiration") {
            if let Some(end) = parse_u64(tag[1].as_str()) {
                return Some(end);
            }
        }
        i = i + 1;
    }
    None
}

fn has_expired(event: &Event, now: u64) -> (r: bool)
    ensures
        r == is_expired(event@.tags, now),
{
    match get_event_expiration(event) {
        Some(end) => end < now,
        None => false,
    }
}

/// The command deletes an event that has expired; there is none for any other event.
pub open spec fn deletes_expired(
    r: Option<StoreCommand>,
    event: Event,
    scope: Option<Seq<char>>,
    now: u64,
) -> bool {
    if is_expired(event@.tags, now) {
        r matches Some(StoreCommand::DeleteEvents(filter, s)) && s@ == scope && selects_only(
            filter,
            event,
        )
    } else {
        r is None
    }
}

/// The deletion of an event, where it has expired.
fn expired_deletion(event: &Event, scope: &Scope, now: u64) -> (r: Option<StoreCommand>)
    ensures
        deletes_expired(r, *event, scope@, now),
{
    if has_expired(event, now) {
        let mut ids = Vec::new();
        ids.push(event.id);
        let filter = Filter { ids: Some(ids), ..Filter::new() };
        Some(StoreCommand::DeleteEvents(filter, scope.copy()))
    } else {
        None
    }
}

/// The middleware that deals with events that expire.
#[derive(Debug, Clone, Copy, PartialEq, Eq, Structural)]
pub struct Nip40ExpirationMiddleware;

impl Default for Nip40ExpirationMiddleware {
    fn default() -> (r: Nip40ExpirationMiddleware)
        ensures
            r == Nip40ExpirationMiddleware,
    {
        Nip40ExpirationMiddleware
    }
}

impl Nip40ExpirationMiddleware {
    pub fn new() -> (r: Nip40ExpirationMiddleware)
        ensures
            r == Nip40ExpirationMiddleware,
    {
        Nip40ExpirationMiddleware
    }

    /// What is to be deleted when a message comes in: an event that has expired. The message
    /// itself goes on to the next middleware in any case.
    pub fn process_inbound(&self, message: &Option<ClientMessage>, scope: &Scope, now: u64) -> (r:
        Option<StoreCommand>)
        ensures
            match *message {
                Some(ClientMessage::Event(event)) => deletes_expired(r, event, scope@, now),
                _ => r is None,
            },
    {
        match message {
            Some(ClientMessage::Event(event)) => expired_deletion(event, scope, now),
            _ => None,
        }
    }

    /// What is to be deleted when a message goes out: the event that it brings, where it has
    /// expired.
    pub fn lazy_deletion(&self, message: &Option<RelayMessage>, scope: &Scope, now: u64) -> (r:
        Option<StoreCommand>)
        ensures
            match *message {
                Some(RelayMessage::Event { subscription_id, event }) => deletes_expired(
                    r,
                    event,
                    scope@,
                    now,
                ),
                _ => r is None,
            },
    {
        match message {
            Some(RelayMessage::Event { event, .. }) => expired_deletion(event, scope, now),
            _ => None,
        }
    }

    /// Lets a message out, unless it brings an event that has expired.
    pub fn process_outbound(&self, message: Option<RelayMessage>, now: u64) -> (r: Option<
        RelayMessage,
    >)
        ensures
            r == match message {
                Some(RelayMessage::Event { subscription_id, event }) => if is_expired(
                    event@.tags,
                    now,
                ) {
                    None
                } else {
                    message
                },
                _ => message,
            },
    {
        let drop_it = match &message {
            Some(RelayMessage::Event { event, .. }) => has_expired(event, now),
            _ => false,
        };
        if drop_it {
            None
        } else {
            message
        }
    }
}

/// The filter asks for the event by its identifier, and for nothing else.
pub open spec fn selects_only(filter: Filter, event: Event) -> bool {
    &&& filter@.ids matches Some(ids) && ids == seq![event.id]
    &&& filter@.authors is None && filter@.kinds is None && filter@.search is None
    &&& filter@.since is None && filter@.until is None && filter@.limit is None
    &&& filter@.generic_tags.len() == 0
}

/// Once an event has expired, it stays expired.
pub proof fn law_expiration_is_final(tags: Seq<Seq<Seq<char>>>, now: u64, later: u64)
    requires
        is_expired(tags, now),
        now <= later,
    ensures
        is_expired(tags, later),
{
}

/// The time that an event gives for its end is that of the first of its tags, at whatever place,
/// that is an expiration tag with a number.
pub proof fn law_first_expiration_tag_counts(tags: Seq<Seq<Seq<char>>>, i: int)
    requires
        0 <= i < tags.len(),
        tags[i].len() >= 2,
        tags[i][0] == "expiration"@,
        parse_unsigned(tags[i][1], u64::MAX as nat) is Some,
        forall|j: int|
            0 <= j < i && (#[trigger] tags[j]).len() >= 2 && tags[j][0] == "expiration"@
                ==> parse_unsigned(tags[j][1], u64::MAX as nat) is None,
    ensures
        expiration(tags) == parse_unsigned(tags[i][1], u64::MAX as nat),
    decreases i,
{
    if i > 0 {
        let rest = tags.drop_first();
        assert(tag_expiration(tags[0]) is None);
        assert forall|j: int|
            0 <= j < i - 1 && (#[trigger] rest[j]).len() >= 2 && rest[j][0]
                == "expiration"@ implies parse_unsigned(rest[j][1], u64::MAX as nat) is None by {
            assert(rest[j] == tags[j + 1]);
        }
        assert(rest[i - 1] == tags[i]);
        law_first_expiration_tag_counts(rest, i - 1);
    }
}

/// An event without an expiration tag that gives a number has no end.
pub proof fn law_no_expiration_without_a_tag(tags: Seq<Seq<Seq<char>>>)
    requires
        forall|j: int|
            0 <= j < tags.len() && (#[trigger] tags[j]).len() >= 2 && tags[j][0] == "expiration"@
                ==> parse_unsigned(tags[j][1], u64::MAX as nat) is None,
    ensures
        expiration(tags) is None,
        forall|now: u64| !is_expired(tags, now),
    decreases tags.len(),
{
    if tags.len() > 0 {
        let rest = tags.drop_first();
        assert(tag_expiration(tags[0]) is None);
        assert forall|j: int|
            0 <= j < rest.len() && (#[trigger] rest[j]).len() >= 2 && rest[j][0]
                == "expiration"@ implies parse_unsigned(rest[j][1], u64::MAX as nat) is None by {
            assert(rest[j] == tags[j + 1]);
        }
        law_no_expiration_without_a_tag(rest);
    }
}

/// An event is over once the time that it gives lies in the past, and not at that very time. Tags of
/// other names before the expiration tag, and any tags behind it, make no difference.
pub proof fn law_expired_after_the_time(
    before: Seq<Seq<Seq<char>>>,
    tag: Seq<Seq<char>>,
    after: Seq<Seq<Seq<char>>>,
    end: u64,
    now: u64,
)
    requires
        forall|j: int|
            0 <= j < before.len() ==> (#[trigger] before[j]).len() == 0 || before[j][0]
                != "expiration"@,
        tag.len() >= 2,
        tag[0] == "expiration"@,
        tag[1] == crate::text::decimal(end as nat),
    ensures
        is_expired(before.push(tag) + after, now) <==> now > end,
{
    let tags = before.push(tag) + after;
    crate::text::law_parse_after_decimal(end as nat, u64::MAX as nat);
    assert(tags[before.len() as int] == tag);
    assert forall|j: int|
        0 <= j < before.len() && (#[trigger] tags[j]).len() >= 2 && tags[j][0]
            == "expiration"@ implies parse_unsigned(tags[j][1], u64::MAX as nat) is None by {
        assert(tags[j] == before[j]);
    }
    law_first_expiration_tag_counts(tags, before.len() as int);
}

/// What is deleted when an event has expired is that event, in its scope, and no other event.
pub proof fn law_expired_event_is_deleted(
    r: Option<StoreCommand>,
    event: Event,
    scope: Option<Seq<char>>,
    now: u64,
    other: EventView,
)
    requires
        deletes_expired(r, event, scope, now),
    ensures
        r is Some <==> (expiration(event@.tags) matches Some(end) && now > end),
        r matches Some(command) ==> (command matches StoreCommand::DeleteEvents(filter, s) && s@
            == scope && (filter_matches(filter@, other) <==> other.id == event.id)),
{
    if let Some(StoreCommand::DeleteEvents(filter, s)) = r {
        let ids = filter@.ids->0;
        assert(ids[0] == event.id);
        assert(ids.contains(other.id) <==> other.id == event.id);
    }
}

/// An event whose expiration tag, at whatever place, gives a time in the past is not sent, and is
/// deleted in its scope, when it comes in as when it goes out; one whose time is not over goes out as
/// it is and stays.
pub proof fn law_expired_events_are_held_back(
    middleware: Nip40ExpirationMiddleware,
    subscription_id: String,
    event: Event,
    scope: Scope,
    before: Seq<Seq<Seq<char>>>,
    tag: Seq<Seq<char>>,
    after: Seq<Seq<Seq<char>>>,
    end: u64,
    now: u64,
    given: Option<u64>,
    sent: Option<RelayMessage>,
    deleted: Option<StoreCommand>,
    deleted_inbound: Option<StoreCommand>,
)
    requires
        event@.tags == before.push(tag) + after,
        forall|j: int|
            0 <= j < before.len() ==> (#[trigger] before[j]).len() == 0 || before[j][0]
                != "expiration"@,
        tag.len() >= 2,
        tag[0] == "expiration"@,
        tag[1] == crate::text::decimal(end as nat),
        call_ensures(get_event_expiration, (&event,), given),
        call_ensures(
            Nip40ExpirationMiddleware::process_outbound,
            (&middleware, Some(RelayMessage::Event { subscription_id, event }), now),
            sent,
        ),
        call_ensures(
            Nip40ExpirationMiddleware::lazy_deletion,
            (&middleware, &Some(RelayMessage::Event { subscription_id, event }), &scope, now),
            deleted,
        ),
        call_ensures(
            Nip40ExpirationMiddleware::process_inbound,
            (&middleware, &Some(ClientMessage::Event(event)), &scope, now),
            deleted_inbound,
        ),
    ensures
        given == Some(end),
        now > end ==> sent is None && deleted is Some && deleted_inbound is Some,
        now <= end ==> sent == Some(RelayMessage::Event { subscription_id, event }) && deleted is None
            && deleted_inbound is None,
{
    law_expired_after_the_time(before, tag, after, end, now);
    let tags = event@.tags;
    crate::text::law_parse_after_decimal(end as nat, u64::MAX as nat);
    assert(tags[before.len() as int] == tag);
    assert forall|j: int|
        0 <= j < before.len() && (#[trigger] tags[j]).len() >= 2 && tags[j][0]
            == "expiration"@ implies parse_unsigned(tags[j][1], u64::MAX as nat) is None by {
        assert(tags[j] == before[j]);
    }
    law_first_expiration_tag_counts(tags, before.len() as int);
}

/// Messages that bring no event, and events without an expiration tag, go out as they are.
pub proof fn law_other_messages_go_out(
    middleware: Nip40ExpirationMiddleware,
    message: Option<RelayMessage>,
    now: u64,
    sent: Option<RelayMessage>,
)
    requires
        call_ensures(
            Nip40ExpirationMiddleware::process_outbound,
            (&middleware, message, now),
            sent,
        ),
        message matches Some(RelayMessage::Event { subscription_id, event }) ==> forall|j: int|
            0 <= j < event@.tags.len() ==> (#[trigger] event@.tags[j]).len() < 2 || event@.tags[j][0]
                != "expiration"@,
    ensures
        sent == message,
{
    if let Some(RelayMessage::Event { subscription_id, event }) = message {
        law_no_expiration_without_a_tag(event@.tags);
    }
}

} // verus!
