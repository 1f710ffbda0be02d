//! The calls into `nostr_sdk` that the relay's logic makes.
//!
//! The library has its own plain types for events, filters and messages. The functions
//! here turn them into the crate's types, make the call, and turn the result back.
//! None of them is proved: each states what the crate's source shows.

use crate::protocol::ClientMessage::{
    Auth, Close, Count, NegClose, NegMsg, NegOpen, Req, ReqMultiFilter,
};
use crate::protocol::{
    can_match, filter_matches, tag_view, tags_view, ClientMessage, ClientMessageView, Event,
    EventId, EventView, Filter, FilterView, PublicKey, RelayMessage, RelayMessageView, TagFilter,
    UnsignedEvent,
};
use nostr_sdk::prelude::{JsonUtil, SingleLetterTag};
use nostr_sdk::ClientMessage::{
    Auth as SdkAuth, Close as SdkClose, Count as SdkCount, NegClose as SdkNegClose,
    NegMsg as SdkNegMsg, NegOpen as SdkNegOpen, Req as SdkReq, ReqMultiFilter as SdkReqMulti,
};
use nostr_sdk::{
    ClientMessage as SdkClientMessage, Event as SdkEvent, EventId as SdkEventId,
    Filter as SdkFilter, Keys, Kind, PublicKey as SdkPublicKey, RelayMessage as SdkRelayMessage,
    SubscriptionId, Timestamp,
};
use std::borrow::Cow;
use vstd::prelude::*;

verus! {

#[verifier::external_type_specification]
#[verifier::external_body]
pub struct ExSdkEvent(SdkEvent);

#[verifier::external_type_specification]
#[verifier::external_body]
pub struct ExSdkFilter(SdkFilter);

#[verifier::external_type_specification]
#[verifier::external_body]
pub struct ExSdkClientMessage<'a>(SdkClientMessage<'a>);

/// The event as `nostr_sdk` holds it. This is `nostr_sdk::Event::new` on the same fields.
/// A tag without a name has no counterpart there.
#[verifier::external_body]
fn sdk_event(event: &Event) -> (r: SdkEvent)
    requires
        event@.wf(),
{
    nostr_sdk::Event::new(
        SdkEventId::from_byte_array(event.id.bytes),
        SdkPublicKey::from_byte_array(event.pubkey.bytes),
        Timestamp::from(event.created_at),
        Kind::from(event.kind),
        event.tags.iter().flat_map(nostr_sdk::Tag::parse),
        event.content.as_str(),
        nostr_sdk::secp256k1::schnorr::Signature::from_slice(&event.sig).unwrap(),
    )
}

/// The filter as `nostr_sdk` holds it, field by field. There a list that is absent admits what
/// an empty list admits.
#[verifier::external_body]
fn sdk_filter(filter: &Filter) -> (r: SdkFilter)
    requires
        filter@.wf(),
{
    let base = SdkFilter {
        since: filter.since.map(Timestamp::from),
        until: filter.until.map(Timestamp::from),
        limit: filter.limit,
        search: filter.search.clone(),
        ..SdkFilter::new()
    }
    .ids(filter.ids.iter().flatten().map(|i| SdkEventId::from_byte_array(i.bytes)))
    .authors(filter.authors.iter().flatten().map(|a| SdkPublicKey::from_byte_array(a.bytes)))
    .kinds(filter.kinds.iter().flatten().map(|k| Kind::from(*k)));
    filter.generic_tags.iter().fold(base, |f, t| f.custom_tags(SingleLetterTag::from_char(t.letter).unwrap(), t.values.iter()))
}

/// `nostr_sdk::Filter::match_event` with all its options on: the filter admits the event's
/// identifier, author, kind, time, tags and content. The crate panics where the search text
/// is empty and everything else matches.
#[verifier::external_body]
pub(crate) fn match_event(filter: &Filter, event: &Event) -> (r: bool)
    requires
        filter@.wf(),
        event@.wf(),
        can_match(filter@, event@),
    ensures
        r == filter_matches(filter@, event@),
{
    sdk_filter(filter).match_event(&sdk_event(event), nostr_sdk::filter::MatchEventOptions::default())
}

/// The fields of an event of `nostr_sdk`.
#[verifier::external_body]
fn event_of(event: &SdkEvent) -> (r: Event) {
    Event {
        id: EventId { bytes: event.id.to_bytes() },
        pubkey: PublicKey { bytes: event.pubkey.to_bytes() },
        created_at: event.created_at.as_u64(),
        kind: event.kind.as_u16(),
        tags: event.tags.iter().map(|t| t.as_slice().to_vec()).collect(),
        content: event.content.clone(),
        sig: event.sig.serialize(),
    }
}

/// The conditions on tags of a filter of `nostr_sdk`.
#[verifier::external_body]
fn tag_filters_of(filter: &SdkFilter) -> (r: Vec<TagFilter>) {
    let tags = filter.generic_tags.iter();
    tags.map(|(t, v)| TagFilter { letter: t.as_char(), values: v.iter().cloned().collect() }).collect()
}

/// The fields of a filter of `nostr_sdk`, whose sets hand their members out without repetition.
#[verifier::external_body]
fn filter_of(filter: &SdkFilter) -> (r: Filter) {
    let f = filter.clone();
    Filter {
        generic_tags: tag_filters_of(filter),
        ids: f.ids.map(|s| s.iter().map(|i| EventId { bytes: i.to_bytes() }).collect()),
        authors: f.authors.map(|s| s.iter().map(|a| PublicKey { bytes: a.to_bytes() }).collect()),
        kinds: f.kinds.map(|s| s.iter().map(|k| k.as_u16()).collect()),
        search: f.search,
        since: f.since.map(|t| t.as_u64()),
        until: f.until.map(|t| t.as_u64()),
        limit: f.limit,
    }
}

/// The fields of a client message of `nostr_sdk`, variant by variant.
#[verifier::external_body]
fn client_message_of(message: SdkClientMessage<'_>) -> (r: ClientMessage) {
    match message {
        SdkClientMessage::Event(e) => ClientMessage::Event(event_of(&e)),
        SdkAuth(e) => Auth(event_of(&e)),
        SdkReq { subscription_id, filter } => Req(subscription_id.to_string(), filter_of(&filter)),
        SdkReqMulti { subscription_id, filters } => ReqMultiFilter(subscription_id.to_string(), filters.iter().map(filter_of).collect()),
        SdkCount { .. } => Count,
        SdkClose(s) => Close(s.to_string()),
        SdkNegOpen { subscription_id, filter, initial_message, .. } => NegOpen(subscription_id.to_string(), filter_of(&filter), initial_message.to_string()),
        SdkNegMsg { subscription_id, message } => NegMsg(subscription_id.to_string(), message.to_string()),
        SdkNegClose { subscription_id } => NegClose(subscription_id.to_string()),
    }
}

/// What `nostr_sdk::ClientMessage::from_json` makes of a text: the message, or the text of the
/// crate's error.
pub uninterp spec fn parsed_client_message(text: Seq<char>) -> Result<ClientMessageView, Seq<char>>;

/// `nostr_sdk::ClientMessage::from_json`. Its result depends on the text alone. The events and
/// filters that it hands out are well formed.
#[verifier::external_body]
pub(crate) fn parse_client_message(text: &str) -> (r: Result<ClientMessage, String>)
    ensures
        match r {
            Ok(m) => parsed_client_message(text@) == Ok::<ClientMessageView, Seq<char>>(m@) && m@.wf(),
            Err(e) => parsed_client_message(text@) == Err::<ClientMessageView, Seq<char>>(e@),
        },
{
    SdkClientMessage::from_json(text).map(client_message_of).map_err(|e| e.to_string())
}

/// The text of a message that brings an event to a subscription.
pub uninterp spec fn event_message_json(subscription_id: Seq<char>, event: EventView) -> Seq<char>;

/// `as_json` of `nostr_sdk::RelayMessage::event`.
#[verifier::external_body]
fn event_message_text(subscription_id: &str, event: &Event) -> (r: String)
    requires
        event@.wf(),
    ensures
        r@ == event_message_json(subscription_id@, event@),
{
    SdkRelayMessage::event(SubscriptionId::new(subscription_id), sdk_event(event)).as_json()
}

/// The text of an answer to an event.
pub uninterp spec fn ok_message_json(event_id: EventId, status: bool, message: Seq<char>) -> Seq<char>;

/// `as_json` of `nostr_sdk::RelayMessage::ok`.
#[verifier::external_body]
fn ok_message_text(event_id: EventId, status: bool, message: &str) -> (r: String)
    ensures
        r@ == ok_message_json(event_id, status, message@),
{
    SdkRelayMessage::ok(SdkEventId::from_byte_array(event_id.bytes), status, message).as_json()
}

/// The text of the message that ends the stored events of a subscription.
pub uninterp spec fn eose_message_json(subscription_id: Seq<char>) -> Seq<char>;

/// `as_json` of `nostr_sdk::RelayMessage::eose`.
#[verifier::external_body]
fn eose_message_text(subscription_id: &str) -> (r: String)
    ensures
        r@ == eose_message_json(subscription_id@),
{
    SdkRelayMessage::eose(SubscriptionId::new(subscription_id)).as_json()
}

/// The text of a notice.
pub uninterp spec fn notice_message_json(message: Seq<char>) -> Seq<char>;

/// `as_json` of `nostr_sdk::RelayMessage::notice`.
#[verifier::external_body]
fn notice_message_text(message: &str) -> (r: String)
    ensures
        r@ == notice_message_json(message@),
{
    SdkRelayMessage::notice(message).as_json()
}

/// The text of the message that closes a subscription.
pub uninterp spec fn closed_message_json(subscription_id: Seq<char>, message: Seq<char>) -> Seq<char>;

/// `as_json` of `nostr_sdk::RelayMessage::closed`.
#[verifier::external_body]
fn closed_message_text(subscription_id: &str, message: &str) -> (r: String)
    ensures
        r@ == closed_message_json(subscription_id@, message@),
{
    SdkRelayMessage::closed(SubscriptionId::new(subscription_id), message).as_json()
}

/// The text of a challenge.
pub uninterp spec fn auth_message_json(challenge: Seq<char>) -> Seq<char>;

/// `as_json` of `nostr_sdk::RelayMessage::auth`.
#[verifier::external_body]
fn auth_message_text(challenge: &str) -> (r: String)
    ensures
        r@ == auth_message_json(challenge@),
{
    SdkRelayMessage::auth(challenge).as_json()
}

/// The text of a count.
pub uninterp spec fn count_message_json(subscription_id: Seq<char>, count: usize) -> Seq<char>;

/// `as_json` of `nostr_sdk::RelayMessage::count`.
#[verifier::external_body]
fn count_message_text(subscription_id: &str, count: usize) -> (r: String)
    ensures
        r@ == count_message_json(subscription_id@, count),
{
    SdkRelayMessage::count(SubscriptionId::new(subscription_id), count).as_json()
}

/// The text of a message of a reconciliation.
pub uninterp spec fn neg_msg_json(subscription_id: Seq<char>, message: Seq<char>) -> Seq<char>;

/// `as_json` of `nostr_sdk::RelayMessage::NegMsg`.
#[verifier::external_body]
fn neg_msg_text(subscription_id: &str, message: &str) -> (r: String)
    ensures
        r@ == neg_msg_json(subscription_id@, message@),
{
    let subscription_id = Cow::Owned(SubscriptionId::new(subscription_id));
    SdkRelayMessage::NegMsg { subscription_id, message: Cow::Borrowed(message) }.as_json()
}

/// The text of the message that a reconciliation failed.
pub uninterp spec fn neg_err_json(subscription_id: Seq<char>, message: Seq<char>) -> Seq<char>;

/// `as_json` of `nostr_sdk::RelayMessage::NegErr`.
#[verifier::external_body]
fn neg_err_text(subscription_id: &str, message: &str) -> (r: String)
    ensures
        r@ == neg_err_json(subscription_id@, message@),
{
    let subscription_id = Cow::Owned(SubscriptionId::new(subscription_id));
    SdkRelayMessage::NegErr { subscription_id, message: Cow::Borrowed(message) }.as_json()
}

/// The JSON text of a message of the relay.
pub open spec fn relay_message_json(message: RelayMessageView) -> Seq<char> {
    match message {
        RelayMessageView::Event { subscription_id, event } => event_message_json(
            subscription_id,
            event,
        ),
        RelayMessageView::OkReply { event_id, status, message } => ok_message_json(
            event_id,
            status,
            message,
        ),
        RelayMessageView::EndOfStoredEvents(id) => eose_message_json(id),
        RelayMessageView::Notice(text) => notice_message_json(text),
        RelayMessageView::Closed { subscription_id, message } => closed_message_json(
            subscription_id,
            message,
        ),
        RelayMessageView::Auth { challenge } => auth_message_json(challenge),
        RelayMessageView::Count { subscription_id, count } => count_message_json(
            subscription_id,
            count,
        ),
        RelayMessageView::NegMsg { subscription_id, message } => neg_msg_json(
            subscription_id,
            message,
        ),
        RelayMessageView::NegErr { subscription_id, message } => neg_err_json(
            subscription_id,
            message,
        ),
    }
}

/// The JSON text of a message of the relay.
pub fn relay_message_as_json(message: &RelayMessage) -> (r: String)
    requires
        message@.wf(),
    ensures
        r@ == relay_message_json(message@),
{
    match message {
        RelayMessage::Event { subscription_id, event } => event_message_text(
            subscription_id.as_str(),
            event,
        ),
        RelayMessage::OkReply { event_id, status, message } => ok_message_text(
            *event_id,
            *status,
            message.as_str(),
        ),
        RelayMessage::EndOfStoredEvents(id) => eose_message_text(id.as_str()),
        RelayMessage::Notice(text) => notice_message_text(text.as_str()),
        RelayMessage::Closed { subscription_id, message } => closed_message_text(
            subscription_id.as_str(),
            message.as_str(),
        ),
        RelayMessage::Auth { challenge } => auth_message_text(challenge.as_str()),
        RelayMessage::Count { subscription_id, count } => count_message_text(
            subscription_id.as_str(),
            *count,
        ),
        RelayMessage::NegMsg { subscription_id, message } => neg_msg_text(
            subscription_id.as_str(),
            message.as_str(),
        ),
        RelayMessage::NegErr { subscription_id, message } => neg_err_text(
            subscription_id.as_str(),
            message.as_str(),
        ),
    }
}

/// What the verification of an event says: nothing, or the text of the crate's error.
pub uninterp spec fn verification(event: EventView) -> Result<(), Seq<char>>;

/// Whether the identifier and the signature of an event fit its other fields.
pub open spec fn event_verifies(event: EventView) -> bool {
    verification(event) is Ok
}

/// The identifier that `nostr_sdk::EventId::new` computes from the fields of an event.
pub uninterp spec fn computed_id(
    key: PublicKey,
    created_at: u64,
    kind: u16,
    tags: Seq<Seq<Seq<char>>>,
    content: Seq<char>,
) -> EventId;

/// The public key that belongs to the secret key of a pair.
pub uninterp spec fn public_key_of(keys: Keys) -> PublicKey;

/// `nostr_sdk::Keys::new` on the secret key of a pair, and `public_key` of what it gives: the
/// public key that belongs to the secret key.
#[verifier::external_body]
pub(crate) fn key_of(keys: &Keys) -> (r: PublicKey)
    ensures
        r == public_key_of(*keys),
{
    PublicKey { bytes: Keys::new(keys.secret_key().clone()).public_key().to_bytes() }
}

/// `nostr_sdk::Event::verify`: recomputes the identifier and checks the signature.
#[verifier::external_body]
pub(crate) fn verify_event(event: &Event) -> (r: Result<(), String>)
    requires
        event@.wf(),
    ensures
        match r {
            Ok(_) => verification(event@) is Ok,
            Err(e) => (verification(event@) matches Err(text) && text == e@),
        },
        r is Ok ==> event@.id == computed_id(
            event@.pubkey,
            event@.created_at,
            event@.kind,
            event@.tags,
            event@.content,
        ),
{
    sdk_event(event).verify().map_err(|e| e.to_string())
}

/// The event is the unsigned one with an identifier and a signature.
pub open spec fn is_signed_form(event: EventView, unsigned: UnsignedEvent) -> bool {
    &&& event.pubkey == unsigned.pubkey
    &&& event.created_at == unsigned.created_at
    &&& event.kind == unsigned.kind
    &&& event.tags == tags_view(unsigned.tags@)
    &&& event.content == unsigned.content@
}

/// `UnsignedEvent::sign_with_keys` of `nostr_sdk`, on an event without an identifier: it computes
/// the identifier and adds a signature, which depends on chance, and never fails. The signature
/// fits where the author of the event is the key that belongs to the secret key.
#[verifier::external_body]
pub(crate) fn sign_event(event: &UnsignedEvent, keys: &Keys) -> (r: Result<Event, String>)
    requires
        forall|i: int| 0 <= i < event.tags@.len() ==> (#[trigger] event.tags@[i])@.len() > 0,
    ensures
        r is Ok,
        r matches Ok(signed) ==> is_signed_form(signed@, *event) && signed@.wf(),
        r matches Ok(signed) ==> signed@.id == computed_id(
            event.pubkey,
            event.created_at,
            event.kind,
            tags_view(event.tags@),
            event.content@,
        ),
        r matches Ok(signed) ==> (event.pubkey == public_key_of(*keys) ==> verification(signed@)
            is Ok),
{
    let key = SdkPublicKey::from_byte_array(event.pubkey.bytes);
    let time = Timestamp::from(event.created_at);
    let kind = Kind::from(event.kind);
    let tags: Vec<nostr_sdk::Tag> = event.tags.iter().flat_map(nostr_sdk::Tag::parse).collect();
    let unsigned = nostr_sdk::UnsignedEvent::new(key, time, kind, tags, event.content.as_str());
    unsigned.sign_with_keys(keys).map(|e| event_of(&e)).map_err(|e| e.to_string())
}

/// What `nostr_sdk::Event::from_json` makes of a text: the event, or the text of the crate's
/// error.
pub uninterp spec fn parsed_event(text: Seq<char>) -> Result<EventView, Seq<char>>;

/// `nostr_sdk::Event::from_json`. Its result depends on the text alone.
#[verifier::external_body]
pub(crate) fn parse_event(text: &str) -> (r: Result<Event, String>)
    ensures
        match r {
            Ok(event) => parsed_event(text@) == Ok::<EventView, Seq<char>>(event@) && event@.wf(),
            Err(e) => parsed_event(text@) == Err::<EventView, Seq<char>>(e@),
        },
{
    SdkEvent::from_json(text).map(|e| event_of(&e)).map_err(|e| e.to_string())
}

/// The JSON text of an event.
pub uninterp spec fn event_json(event: EventView) -> Seq<char>;

/// `as_json` of `nostr_sdk::Event`: a JSON object without line breaks, which `from_json` reads
/// back as the same event.
#[verifier::external_body]
pub(crate) fn event_as_json(event: &Event) -> (r: String)
    requires
        event@.wf(),
    ensures
        r@ == event_json(event@),
        r@.len() > 0 && r@[0] == '{',
        !r@.contains('\n') && !r@.contains('\r'),
        (parsed_event(r@) == Ok::<EventView, Seq<char>>(event@)),
{
    sdk_event(event).as_json()
}

/// What `nostr_sdk::Filter::from_json` makes of a text: the filter, or the text of the crate's
/// error.
pub uninterp spec fn parsed_filter(text: Seq<char>) -> Result<FilterView, Seq<char>>;

/// `nostr_sdk::Filter::from_json`. Its result depends on the text alone.
#[verifier::external_body]
pub(crate) fn parse_filter(text: &str) -> (r: Result<Filter, String>)
    ensures
        match r {
            Ok(filter) => parsed_filter(text@) == Ok::<FilterView, Seq<char>>(filter@)
                && filter@.wf(),
            Err(e) => parsed_filter(text@) == Err::<FilterView, Seq<char>>(e@),
        },
{
    SdkFilter::from_json(text).map(|f| filter_of(&f)).map_err(|e| e.to_string())
}

/// The secret key that a text stands for: in hexadecimal, or in bech32.
pub uninterp spec fn parsed_secret_key(text: Seq<char>) -> Option<Seq<u8>>;

/// `nostr_sdk::Keys::parse`, and the secret key of what it gives.
#[verifier::external_body]
pub(crate) fn parse_secret_key(text: &str) -> (r: Option<[u8; 32]>)
    ensures
        match r {
            Some(key) => parsed_secret_key(text@) == Some(key@),
            None => parsed_secret_key(text@) is None,
        },
{
    nostr_sdk::Keys::parse(text).ok().map(|k| k.secret_key().to_secret_bytes())
}

/// The secret key that a text stands for in hexadecimal.
pub uninterp spec fn secret_key_of_hex(text: Seq<char>) -> Option<Seq<u8>>;

/// `nostr_sdk::SecretKey::from_hex`.
#[verifier::external_body]
pub(crate) fn secret_key_from_hex(text: &str) -> (r: Option<[u8; 32]>)
    ensures
        match r {
            Some(key) => secret_key_of_hex(text@) == Some(key@),
            None => secret_key_of_hex(text@) is None,
        },
{
    nostr_sdk::SecretKey::from_hex(text).ok().map(|k| k.to_secret_bytes())
}

/// The event identifier that a text stands for: in hexadecimal, in bech32, or as a URI.
pub uninterp spec fn parsed_event_id(text: Seq<char>) -> Option<EventId>;

/// `nostr_sdk::EventId::parse`.
#[verifier::external_body]
pub(crate) fn parse_event_id(text: &str) -> (r: Option<EventId>)
    ensures
        r == parsed_event_id(text@),
{
    SdkEventId::parse(text).ok().map(|i| EventId { bytes: i.to_bytes() })
}

/// The public key that a text stands for: in hexadecimal, in bech32, or as a URI.
pub uninterp spec fn parsed_public_key(text: Seq<char>) -> Option<PublicKey>;

/// `nostr_sdk::PublicKey::parse`.
#[verifier::external_body]
pub(crate) fn parse_public_key(text: &str) -> (r: Option<PublicKey>)
    ensures
        r == parsed_public_key(text@),
{
    SdkPublicKey::parse(text).ok().map(|k| PublicKey { bytes: k.to_bytes() })
}

/// The two tags that an authentication event carries, and any other.
pub enum AuthTag {
    /// The challenge that is answered.
    Challenge(String),
    /// The URL of the relay, without slashes at its end.
    Relay(String),
    Other,
}

#[verifier::ext_equal]
pub enum AuthTagView {
    Challenge(Seq<char>),
    Relay(Seq<char>),
    Other,
}

impl View for AuthTag {
    type V = AuthTagView;

    open spec fn view(&self) -> AuthTagView {
        match self {
            AuthTag::Challenge(text) => AuthTagView::Challenge(text@),
            AuthTag::Relay(text) => AuthTagView::Relay(text@),
            AuthTag::Other => AuthTagView::Other,
        }
    }
}

/// The relay URL that a text stands for, as the crate writes it without slashes at its end.
pub uninterp spec fn relay_url_text(text: Seq<char>) -> Option<Seq<char>>;

/// What a tag is for authentication: a challenge or a relay tag has a name and one value.
pub open spec fn auth_tag(tag: Seq<Seq<char>>) -> AuthTagView {
    if tag.len() == 2 && tag[0] == "challenge"@ {
        AuthTagView::Challenge(tag[1])
    } else if tag.len() == 2 && tag[0] == "relay"@ {
        match relay_url_text(tag[1]) {
            Some(url) => AuthTagView::Relay(url),
            None => AuthTagView::Other,
        }
    } else {
        AuthTagView::Other
    }
}

/// `nostr_sdk::TagStandard::parse`, as far as challenges and relays go. A relay's value is read
/// by `RelayUrl::parse` and written by `as_str_without_trailing_slash`.
#[verifier::external_body]
pub(crate) fn parse_auth_tag(tag: &Vec<String>) -> (r: AuthTag)
    ensures
        r@ == auth_tag(tag_view(*tag)),
        r matches AuthTag::Relay(url) ==> tag@.len() == 2 && relay_url_text(tag@[1]@) == Some(url@),
{
    match nostr_sdk::TagStandard::parse(tag) {
        Ok(nostr_sdk::TagStandard::Challenge(text)) => AuthTag::Challenge(text),
        Ok(nostr_sdk::TagStandard::Relay(url)) => AuthTag::Relay(url.as_str_without_trailing_slash().to_string()),
        _ => AuthTag::Other,
    }
}

/// Each message has the JSON text of its own kind, and of what it carries.
pub proof fn law_messages_have_their_own_json(
    event: EventView,
    id: EventId,
    status: bool,
    subscription_id: Seq<char>,
    text: Seq<char>,
    count: usize,
)
    ensures
        relay_message_json(RelayMessageView::Event { subscription_id, event }) == event_message_json(
            subscription_id,
            event,
        ),
        relay_message_json(
            RelayMessageView::OkReply { event_id: id, status, message: text },
        ) == ok_message_json(id, status, text),
        relay_message_json(RelayMessageView::EndOfStoredEvents(subscription_id))
            == eose_message_json(subscription_id),
        relay_message_json(RelayMessageView::Notice(text)) == notice_message_json(text),
        relay_message_json(
            RelayMessageView::Closed { subscription_id, message: text },
        ) == closed_message_json(subscription_id, text),
        relay_message_json(RelayMessageView::Auth { challenge: text }) == auth_message_json(text),
        relay_message_json(RelayMessageView::Count { subscription_id, count }) == count_message_json(
            subscription_id,
            count,
        ),
        relay_message_json(
            RelayMessageView::NegMsg { subscription_id, message: text },
        ) == neg_msg_json(subscription_id, text),
        relay_message_json(
            RelayMessageView::NegErr { subscription_id, message: text },
        ) == neg_err_json(subscription_id, text),
{
}

} // verus!
