//! The middleware at the core of the relay: it turns the messages of a client into the work
//! that is done for it.

use crate::error::{error_text, Error};
use crate::event_processor::{DefaultRelayProcessor, EventContext, EventProcessor, StoreCommand};
use crate::hex_text::{
    decode, encode, hex_bytes, hex_error, hex_text, is_hex, is_hex_digit, law_decode_after_encode,
};
use crate::nostr_middleware::Flow;
use crate::protocol::{
    filter_matches, matches_but_search, ClientMessage, Event, EventId, EventView, Filter, FilterView,
    PublicKey, RelayMessage, Scope,
};
use crate::reconciliation::{item_set, reconciled, Item, ReconciliationSession, FRAME_LIMIT};
use crate::state::{quota_text, NostrConnectionState};
use crate::text::{concat2, concat3};
use vstd::prelude::*;

verus! {

/// The work that a message asks for.
pub enum RelayAction {
    /// Nothing.
    Next,
    /// To judge an event and to save what comes of it.
    HandleEvent(Event),
    /// To open a subscription.
    Subscribe { subscription_id: String, filters: Vec<Filter> },
    /// To end a subscription.
    Unsubscribe(String),
    /// To look up the events that a filter selects, and to open a reconciliation of them.
    QueryItems { subscription_id: String, filter: Filter, initial_message: String },
    /// To send a message.
    Reply(RelayMessage),
    /// Nothing: the message cannot be processed.
    Fail(Error),
}

/// The message is the answer in a reconciliation.
pub open spec fn is_neg_msg(message: RelayMessage, id: Seq<char>, answer: Seq<u8>) -> bool {
    message matches RelayMessage::NegMsg { subscription_id, message: m } && subscription_id@ == id
        && m@ == hex_text(answer)
}

/// The message says that a reconciliation failed.
pub open spec fn is_neg_err(message: RelayMessage, id: Seq<char>, error: Error) -> bool {
    message matches RelayMessage::NegErr { subscription_id, message: m } && subscription_id@ == id
        && m@ == "Error: "@ + error_text(error)
}

/// The error is internal, with the given message.
pub open spec fn is_internal(e: Error, text: Seq<char>) -> bool {
    e matches Error::Internal { message } && message@ == text
}

/// What comes of a message in a reconciliation of the given items.
pub open spec fn reconciliation_result(
    r: Result<RelayMessage, Error>,
    id: Seq<char>,
    items: Set<Item>,
    message: Seq<char>,
    decode_failure: Seq<char>,
) -> bool {
    if !is_hex(message) {
        r matches Err(e) && is_internal(e, decode_failure + hex_error(message))
    } else {
        match reconciled(items, FRAME_LIMIT, hex_bytes(message)) {
            Ok(answer) => r matches Ok(m) && is_neg_msg(m, id, answer),
            Err(text) => r matches Err(e) && is_internal(
                e,
                "Failed to reconcile negentropy: "@ + text,
            ),
        }
    }
}

/// The place of the first command that saves a signed event.
pub open spec fn first_signed(commands: Seq<StoreCommand>) -> int
    decreases commands.len(),
{
    if commands.len() == 0 || commands[0] is SaveSignedEvent {
        0
    } else {
        1 + first_signed(commands.drop_first())
    }
}

/// The commands that come of an event, in the order in which they are carried out: the first that
/// saves a signed event, and then the others. The last one takes the place of the one that is
/// taken out.
pub open spec fn is_ordered(
    commands: Seq<StoreCommand>,
    first: Option<StoreCommand>,
    rest: Seq<StoreCommand>,
) -> bool {
    let k = first_signed(commands);
    if k < commands.len() {
        &&& first == Some(commands[k])
        &&& commands[k] is SaveSignedEvent
        &&& rest == commands.update(k, commands.last()).drop_last()
    } else {
        &&& first is None
        &&& rest == commands
        &&& forall|i: int| 0 <= i < commands.len() ==> !(#[trigger] commands[i] is SaveSignedEvent)
    }
}

/// The commands that come of an event, in the order in which they are carried out. The first that
/// saves a signed event is answered for.
pub fn order_commands(commands: Vec<StoreCommand>) -> (r: (Option<StoreCommand>, Vec<StoreCommand>))
    ensures
        is_ordered(commands@, r.0, r.1@),
{
    let ghost all = commands@;
    let mut list = commands;
    let mut i: usize = 0;
    proof {
        assert(all.skip(0) =~= all);
    }
    while i < list.len()
        invariant
            i <= list@.len(),
            list@ == all,
            all == commands@,
            first_signed(all) == i + first_signed(all.skip(i as int)),
            forall|j: int| 0 <= j < i ==> !(#[trigger] all[j] is SaveSignedEvent),
        decreases list@.len() - i,
    {
        proof {
            assert(all.skip(i as int)[0] == all[i as int]);
            assert(all.skip(i as int).drop_first() =~= all.skip(i + 1));
        }
        if let StoreCommand::SaveSignedEvent(_, _) = &list[i] {
            let command = list.swap_remove(i);
            return (Some(command), list);
        }
        i = i + 1;
    }
    (None, list)
}

/// The error that is reported when a command fails.
pub fn store_failure(e: &Error) -> (r: Error)
    ensures
        r matches Error::Database { message } && message@ == error_text(*e),
{
    Error::database(e.to_string().as_str())
}

/// What becomes of a subscription, given whether its filters are allowed: where it finds room, it
/// counts from then on, and it is opened where the connection is set up.
pub open spec fn admitted<T>(
    r: Result<(), Error>,
    after: NostrConnectionState<T>,
    before: NostrConnectionState<T>,
    id: Seq<char>,
    verified: Result<(), Error>,
) -> bool {
    match verified {
        Ok(_) => if before.over_quota(id) {
            refused_by_quota(r, after, before)
        } else {
            &&& if before.coordinator is Some {
                r is Ok
            } else {
                r matches Err(e) && is_internal(e, "No subscription coordinator available"@)
            }
            &&& after.same_but_tracked(before)
            &&& after.tracked_ids() == if before.tracked_ids().contains(id) {
                before.tracked_ids()
            } else {
                before.tracked_ids().push(id)
            }
        },
        Err(e) => after == before && r == Err::<(), Error>(e),
    }
}

/// There is no room for a subscription.
pub open spec fn refused_by_quota<T>(
    r: Result<(), Error>,
    after: NostrConnectionState<T>,
    before: NostrConnectionState<T>,
) -> bool {
    &&& after == before
    &&& r matches Err(e) && (e matches Error::Restricted { message } && message@ == quota_text(
        before.tracked_ids().len(),
        before.max_subscriptions->0 as nat,
    ))
}

/// Decides about a subscription, given whether its filters are allowed.
pub fn admit_subscription<T>(
    state: &mut NostrConnectionState<T>,
    subscription_id: &str,
    verified: Result<(), Error>,
) -> (r: Result<(), Error>)
    requires
        old(state).wf(),
    ensures
        final(state).wf(),
        admitted(r, *final(state), *old(state), subscription_id@, verified),
{
    match verified {
        Ok(_) => {
            match state.check_quota(subscription_id) {
                Ok(_) => {
                    state.add_subscription(subscription_id);
                    match state.subscription_coordinator() {
                        Ok(_) => Ok(()),
                        Err(e) => Err(e),
                    }
                },
                Err(e) => Err(e),
            }
        },
        Err(e) => Err(e),
    }
}

/// Whether a stored event is shown, given what the rules of the relay say: not where they fail.
pub fn is_visible(result: Result<bool, Error>) -> (r: bool)
    ensures
        r == (result matches Ok(visible) && visible),
{
    match result {
        Ok(visible) => visible,
        Err(_) => false,
    }
}

/// The filter with which stored events are looked up: it asks for no more events than the relay
/// allows.
pub fn limited_filter(filter: &Filter, max_limit: usize) -> (r: Filter)
    ensures
        r@ == (FilterView {
            limit: match filter@.limit {
                Some(limit) if limit < max_limit => Some(limit),
                _ => Some(max_limit),
            },
            ..filter@
        }),
{
    let mut limited = filter.copy();
    limited.limit = match filter.limit {
        Some(limit) => Some(
            if limit < max_limit {
                limit
            } else {
                max_limit
            },
        ),
        None => Some(max_limit),
    };
    limited
}

/// Opens a reconciliation of the events that were looked up, and answers its first message.
pub fn handle_neg_open(
    subscription_id: &str,
    items: Result<Vec<(EventId, u64)>, Error>,
    initial_message: &str,
) -> (r: Result<(RelayMessage, ReconciliationSession), Error>)
    ensures
        match items {
            Err(e) => r == Err::<(RelayMessage, ReconciliationSession), Error>(e),
            Ok(list) => {
                &&& r matches Ok(p) ==> p.1.wf() && p.1.items() == item_set(list@)
                &&& reconciliation_result(
                    match r {
                        Ok(p) => Ok(p.0),
                        Err(e) => Err(e),
                    },
                    subscription_id@,
                    item_set(list@),
                    initial_message@,
                    "Failed to decode initial message: "@,
                )
            },
        },
{
    let list = match items {
        Ok(list) => list,
        Err(e) => return Err(e),
    };
    let mut session = match ReconciliationSession::open(&list) {
        Ok(session) => session,
        Err(e) => {
            return Err(Error::internal(e.as_str()));
        },
    };
    let query = match decode(initial_message) {
        Ok(query) => query,
        Err(e) => {
            let text = concat2("Failed to decode initial message: ", e.as_str());
            return Err(Error::internal(text.as_str()));
        },
    };
    match session.reconcile(&query) {
        Ok(answer) => Ok(
            (
                RelayMessage::NegMsg {
                    subscription_id: subscription_id.to_owned(),
                    message: encode(&answer),
                },
                session,
            ),
        ),
        Err(e) => {
            let text = concat2("Failed to reconcile negentropy: ", e.as_str());
            Err(Error::internal(text.as_str()))
        },
    }
}

/// Answers a message in a reconciliation of the connection.
pub fn handle_neg_msg<T>(
    state: &mut NostrConnectionState<T>,
    subscription_id: &str,
    message: &str,
) -> (r: Result<RelayMessage, Error>)
    requires
        old(state).wf(),
    ensures
        final(state).wf(),
        final(state).same_but_sessions(*old(state)),
        final(state).sessions().len() == old(state).sessions().len(),
        forall|i: int|
            0 <= i < old(state).sessions().len() ==> (#[trigger] final(state).sessions()[i]).0 == old(
                state,
            ).sessions()[i].0 && final(state).sessions()[i].1.items() == old(
                state,
            ).sessions()[i].1.items(),
        !old(state).has_session(subscription_id@) ==> (r matches Err(e) && (e matches Error::Notice {
            message: text,
        } && text@ == "Negentropy subscription "@ + subscription_id@ + " not found"@)),
        forall|i: int|
            old(state).session_at(subscription_id@, i) ==> reconciliation_result(
                r,
                subscription_id@,
                (#[trigger] old(state).sessions()[i]).1.items(),
                message@,
                "Failed to decode message: "@,
            ),
{
    if !state.has_negentropy_subscription(subscription_id) {
        let text = concat3("Negentropy subscription ", subscription_id, " not found");
        return Err(Error::notice(text.as_str()));
    }
    let query = match decode(message) {
        Ok(query) => query,
        Err(e) => {
            let text = concat2("Failed to decode message: ", e.as_str());
            return Err(Error::internal(text.as_str()));
        },
    };
    match state.reconcile_with(subscription_id, &query) {
        Some(Ok(answer)) => Ok(
            RelayMessage::NegMsg {
                subscription_id: subscription_id.to_owned(),
                message: encode(&answer),
            },
        ),
        Some(Err(e)) => {
            let text = concat2("Failed to reconcile negentropy: ", e.as_str());
            Err(Error::internal(text.as_str()))
        },
        None => {
            let text = concat3("Negentropy subscription ", subscription_id, " not found");
            Err(Error::notice(text.as_str()))
        },
    }
}

/// What the client is told when a reconciliation fails.
pub fn neg_error(subscription_id: &str, error: &Error) -> (r: RelayMessage)
    ensures
        is_neg_err(r, subscription_id@, *error),
{
    RelayMessage::NegErr {
        subscription_id: subscription_id.to_owned(),
        message: concat2("Error: ", error.to_string().as_str()),
    }
}

/// The work that a message of a client asks for. What needs nothing but the state of the
/// connection is done here.
pub fn process_inbound<T>(message: Option<ClientMessage>, state: &mut NostrConnectionState<T>) -> (r:
    RelayAction)
    requires
        old(state).wf(),
    ensures
        final(state).wf(),
        is_work_for(message, r),
        match message {
            None => r is Next && *final(state) == *old(state),
            Some(ClientMessage::Event(event)) => r == RelayAction::HandleEvent(event)
                && *final(state) == *old(state),
            Some(ClientMessage::Req(id, filter)) => *final(state) == *old(state) && (r
                matches RelayAction::Subscribe { subscription_id, filters } && subscription_id == id
                && filters@ == seq![filter]),
            Some(ClientMessage::ReqMultiFilter(id, list)) => *final(state) == *old(state) && r == (
            RelayAction::Subscribe { subscription_id: id, filters: list }),
            Some(ClientMessage::Close(id)) => {
                &&& r == if old(state).coordinator is Some {
                    RelayAction::Unsubscribe(id)
                } else {
                    RelayAction::Next
                }
                &&& final(state).same_but_tracked(*old(state))
                &&& final(state).tracked_ids() == if old(state).tracked_ids().contains(id@) {
                    old(state).tracked_ids().remove(old(state).tracked_ids().index_of(id@))
                } else {
                    old(state).tracked_ids()
                }
            },
            Some(ClientMessage::NegOpen(id, filter, initial)) => *final(state) == *old(state) && r
                == (RelayAction::QueryItems {
                subscription_id: id,
                filter,
                initial_message: initial,
            }),
            Some(ClientMessage::NegMsg(id, text)) => {
                &&& final(state).same_but_sessions(*old(state))
                &&& final(state).sessions().len() == old(state).sessions().len()
                &&& forall|i: int|
                    0 <= i < old(state).sessions().len() ==> (
                    #[trigger] final(state).sessions()[i]).0 == old(state).sessions()[i].0
                        && final(state).sessions()[i].1.items() == old(
                        state,
                    ).sessions()[i].1.items()
                &&& !old(state).has_session(id@) ==> (r matches RelayAction::Reply(m) && exists|
                    e: Error,
                | #[trigger]
                    is_neg_err(m, id@, e) && (e matches Error::Notice { message: t } && t@
                        == "Negentropy subscription "@ + id@ + " not found"@))
                &&& forall|i: int|
                    old(state).session_at(id@, i) ==> (r matches RelayAction::Reply(m)
                        && reply_fits(
                        m,
                        id@,
                        (#[trigger] old(state).sessions()[i]).1.items(),
                        text@,
                    ))
            },
            Some(ClientMessage::NegClose(id)) => {
                &&& r is Next
                &&& final(state).same_but_sessions(*old(state))
                &&& !final(state).has_session(id@)
                &&& !old(state).has_session(id@) ==> final(state).sessions() == old(state).sessions()
                &&& forall|i: int|
                    old(state).session_at(id@, i) ==> final(state).sessions() == #[trigger] old(
                        state,
                    ).sessions().remove(i)
            },
            Some(ClientMessage::Auth(_)) => r is Next && *final(state) == *old(state),
            Some(ClientMessage::Count) => *final(state) == *old(state) && (r matches RelayAction::Fail(
                e,
            ) && (e matches Error::Notice { message: t } && t@
                == "Message type not supported: COUNT"@)),
        },
{
    match message {
        None => RelayAction::Next,
        Some(ClientMessage::Event(event)) => RelayAction::HandleEvent(event),
        Some(ClientMessage::Req(subscription_id, filter)) => {
            let mut filters: Vec<Filter> = Vec::new();
            filters.push(filter);
            RelayAction::Subscribe { subscription_id, filters }
        },
        Some(ClientMessage::ReqMultiFilter(subscription_id, filters)) => RelayAction::Subscribe {
            subscription_id,
            filters,
        },
        Some(ClientMessage::Close(subscription_id)) => {
            let _ = state.remove_tracked_subscription(subscription_id.as_str());
            if state.coordinator.is_some() {
                RelayAction::Unsubscribe(subscription_id)
            } else {
                RelayAction::Next
            }
        },
        Some(ClientMessage::NegOpen(subscription_id, filter, initial_message)) => {
            RelayAction::QueryItems { subscription_id, filter, initial_message }
        },
        Some(ClientMessage::NegMsg(subscription_id, text)) => {
            match handle_neg_msg(state, subscription_id.as_str(), text.as_str()) {
                Ok(reply) => RelayAction::Reply(reply),
                Err(e) => {
                    let reply = neg_error(subscription_id.as_str(), &e);
                    proof {
                        assert(is_neg_err(reply, subscription_id@, e));
                    }
                    RelayAction::Reply(reply)
                },
            }
        },
        Some(ClientMessage::NegClose(subscription_id)) => {
            let _ = state.remove_negentropy_subscription(subscription_id.as_str());
            RelayAction::Next
        },
        Some(ClientMessage::Auth(_)) => RelayAction::Next,
        Some(ClientMessage::Count) => RelayAction::Fail(
            Error::notice("Message type not supported: COUNT"),
        ),
    }
}

/// The message answers a message in a reconciliation of the given items, or says why it cannot.
pub open spec fn reply_fits(
    reply: RelayMessage,
    id: Seq<char>,
    items: Set<Item>,
    message: Seq<char>,
) -> bool {
    exists|result: Result<RelayMessage, Error>|
        {
            &&& #[trigger] reconciliation_result(
                result,
                id,
                items,
                message,
                "Failed to decode message: "@,
            )
            &&& match result {
                Ok(m) => reply == m,
                Err(e) => is_neg_err(reply, id, e),
            }
        }
}

/// Lets a message out, given what the rules of the relay say of the event that it brings: an
/// event that the connection may not see is held back, and a failure ends the processing.
pub fn filter_outbound(message: Option<RelayMessage>, visible: Result<bool, Error>) -> (r: Result<
    Option<RelayMessage>,
    Error,
>)
    ensures
        match message {
            Some(RelayMessage::Event { subscription_id, event }) => match visible {
                Ok(true) => r == Ok::<Option<RelayMessage>, Error>(message),
                Ok(false) => r == Ok::<Option<RelayMessage>, Error>(None),
                Err(e) => r == Err::<Option<RelayMessage>, Error>(e),
            },
            _ => r == Ok::<Option<RelayMessage>, Error>(message),
        },
{
    let is_event = match &message {
        Some(RelayMessage::Event { .. }) => true,
        _ => false,
    };
    if is_event {
        match visible {
            Ok(shown) => {
                if shown {
                    Ok(message)
                } else {
                    Ok(None)
                }
            },
            Err(e) => Err(e),
        }
    } else {
        Ok(message)
    }
}

/// The rules of a relay, asked whether a connection may see an event, may give the answer.
pub open spec fn may_answer_visible<T, P: EventProcessor<T>>(
    processor: P,
    event: Event,
    custom_state: T,
    context: EventContext,
    answer: Result<bool, Error>,
) -> bool {
    call_ensures(P::can_see_event, (&processor, &event, &custom_state, &context), answer)
}

/// The rules of a relay, asked whether a connection may use filters, may give the answer.
pub open spec fn may_answer_filters<T, P: EventProcessor<T>>(
    processor: P,
    filters: Vec<Filter>,
    custom_state: T,
    context: EventContext,
    answer: Result<(), Error>,
) -> bool {
    call_ensures(P::verify_filters, (&processor, &filters, &custom_state, &context), answer)
}

/// The context is that of a connection.
pub open spec fn is_context_of<T>(
    context: EventContext,
    state: NostrConnectionState<T>,
    subdomain: Option<Seq<char>>,
    relay_pubkey: PublicKey,
) -> bool {
    &&& context.authed_pubkey == state.authed_pubkey
    &&& context.subdomain@ == subdomain
    &&& context.relay_pubkey == relay_pubkey
}

/// What is done with an event, given what the rules of the relay made of it.
pub open spec fn is_planned(
    r: Result<(Option<StoreCommand>, Vec<StoreCommand>), Error>,
    result: Result<Vec<StoreCommand>, Error>,
    is_set_up: bool,
) -> bool {
    match result {
        Err(e) => r == Err::<(Option<StoreCommand>, Vec<StoreCommand>), Error>(e),
        Ok(commands) => if is_set_up {
            r matches Ok(p) && is_ordered(commands@, p.0, p.1@)
        } else {
            r matches Err(e) && is_internal(e, "No subscription coordinator available"@)
        },
    }
}

/// What is done with an event, given what the rules of the relay made of it: the commands in the
/// order in which they are carried out, of which the first is answered for.
pub fn planned_commands<T>(
    result: Result<Vec<StoreCommand>, Error>,
    state: &NostrConnectionState<T>,
) -> (r: Result<(Option<StoreCommand>, Vec<StoreCommand>), Error>)
    ensures
        is_planned(r, result, state.coordinator is Some),
{
    match result {
        Err(e) => Err(e),
        Ok(commands) => {
            match state.subscription_coordinator() {
                Ok(_) => Ok(order_commands(commands)),
                Err(e) => Err(e),
            }
        },
    }
}

/// The core of the relay, with the rules of type `P`.
pub struct RelayMiddleware<P> {
    /// The rules of the relay.
    pub processor: P,
    /// The public key of the relay.
    pub relay_pubkey: PublicKey,
    /// The largest number of events that a filter may ask for.
    pub max_limit: usize,
    /// The largest number of subscriptions of a connection, where there is one.
    pub max_subscriptions: Option<usize>,
}

impl<P> RelayMiddleware<P> {
    /// The core of a relay.
    pub fn new(
        processor: P,
        relay_pubkey: PublicKey,
        max_limit: usize,
        max_subscriptions: Option<usize>,
    ) -> (r: RelayMiddleware<P>)
        ensures
            r == (RelayMiddleware { processor, relay_pubkey, max_limit, max_subscriptions }),
    {
        RelayMiddleware { processor, relay_pubkey, max_limit, max_subscriptions }
    }

    /// The rules of the relay.
    pub fn processor(&self) -> (r: &P)
        ensures
            *r == self.processor,
    {
        &self.processor
    }

    /// What the rules know of a connection.
    pub fn event_context<T>(&self, state: &NostrConnectionState<T>, subdomain: &Scope) -> (r:
        EventContext)
        ensures
            r.authed_pubkey == state.authed_pubkey,
            r.subdomain@ == subdomain@,
            r.relay_pubkey == self.relay_pubkey,
    {
        EventContext::new(state.authed_pubkey, subdomain, self.relay_pubkey)
    }

    /// What a new connection starts with: the relay's limit of subscriptions and the settings of
    /// the connection.
    pub fn on_connect<T>(
        &self,
        state: &mut NostrConnectionState<T>,
        connection_id: &str,
        subdomain: &Scope,
    )
        ensures
            final(state).max_subscriptions == self.max_subscriptions,
            final(state).coordinator matches Some(s) && s.connection_id@ == connection_id@
                && s.authed_pubkey == old(state).authed_pubkey && s.subdomain@ == subdomain@
                && s.max_limit == self.max_limit,
            final(state).challenge == old(state).challenge,
            final(state).authed_pubkey == old(state).authed_pubkey,
            final(state).tracked_ids() == old(state).tracked_ids(),
            final(state).sessions() == old(state).sessions(),
            final(state).custom_state == old(state).custom_state,
            old(state).wf() ==> final(state).wf(),
    {
        state.set_max_subscriptions(self.max_subscriptions);
        state.setup_connection(connection_id, subdomain, Some(self.max_limit));
    }

    /// Judges an event by the rules of the relay: what is done with it, in order, and of which
    /// the first is answered for.
    pub fn handle_event<T>(
        &self,
        event: Event,
        state: &mut NostrConnectionState<T>,
        subdomain: &Scope,
    ) -> (r: Result<(Option<StoreCommand>, Vec<StoreCommand>), Error>) where P: EventProcessor<T>
        ensures
            exists|
                custom_state: &mut T,
                context: EventContext,
                result: Result<Vec<StoreCommand>, Error>,
            |
                {
                    &&& #[trigger] call_ensures(
                        P::handle_event,
                        (&self.processor, event, custom_state, &context),
                        result,
                    )
                    &&& *custom_state == old(state).custom_state
                    &&& *final(custom_state) == final(state).custom_state
                    &&& is_context_of(context, *old(state), subdomain@, self.relay_pubkey)
                    &&& is_planned(r, result, old(state).coordinator is Some)
                },
            *final(state) == (NostrConnectionState {
                custom_state: final(state).custom_state,
                ..*old(state)
            }),
    {
        let context = self.event_context(state, subdomain);
        let result = self.processor.handle_event(event, &mut state.custom_state, &context);
        planned_commands(result, state)
    }

    /// Opens a subscription: it has to find room, and the rules of the relay have to allow its
    /// filters. One that is refused does not count.
    pub fn handle_subscription<T>(
        &self,
        state: &mut NostrConnectionState<T>,
        subscription_id: &str,
        filters: &Vec<Filter>,
        subdomain: &Scope,
    ) -> (r: Result<(), Error>) where P: EventProcessor<T>
        requires
            old(state).wf(),
        ensures
            final(state).wf(),
            if old(state).over_quota(subscription_id@) {
                refused_by_quota(r, *final(state), *old(state))
            } else {
                exists|context: EventContext, verified: Result<(), Error>|
                    {
                        &&& #[trigger] may_answer_filters(
                            self.processor,
                            *filters,
                            old(state).custom_state,
                            context,
                            verified,
                        )
                        &&& is_context_of(context, *old(state), subdomain@, self.relay_pubkey)
                        &&& admitted(r, *final(state), *old(state), subscription_id@, verified)
                    }
            },
    {
        if let Err(e) = state.check_quota(subscription_id) {
            return Err(e);
        }
        let context = self.event_context(state, subdomain);
        let verified = self.processor.verify_filters(filters, &state.custom_state, &context);
        proof {
            assert(may_answer_filters(
                self.processor,
                *filters,
                old(state).custom_state,
                context,
                verified,
            ));
        }
        admit_subscription(state, subscription_id, verified)
    }


    /// Opens a reconciliation of the events that were looked up, and answers its first message,
    /// or says why it cannot.
    pub fn open_reconciliation<T>(
        &self,
        state: &mut NostrConnectionState<T>,
        subscription_id: &str,
        items: Result<Vec<(EventId, u64)>, Error>,
        initial_message: &str,
    ) -> (r: RelayMessage)
        requires
            old(state).wf(),
        ensures
            final(state).wf(),
            final(state).same_but_sessions(*old(state)),
            match items {
                Err(e) => is_neg_err(r, subscription_id@, e) && *final(state) == *old(state),
                Ok(list) => opened(
                    r,
                    *final(state),
                    *old(state),
                    subscription_id@,
                    item_set(list@),
                    initial_message@,
                ),
            },
    {
        match handle_neg_open(subscription_id, items, initial_message) {
            Ok((reply, session)) => {
                state.add_negentropy_subscription(subscription_id, session);
                proof {
                    assert(session_kept(*state, *old(state), subscription_id@, session));
                    if items is Ok {
                        assert(reconciliation_result(
                            Ok(reply),
                            subscription_id@,
                            item_set(items->Ok_0@),
                            initial_message@,
                            "Failed to decode initial message: "@,
                        ));
                    }
                }
                reply
            },
            Err(e) => {
                proof {
                    if items is Ok {
                        assert(reconciliation_result(
                            Err(e),
                            subscription_id@,
                            item_set(items->Ok_0@),
                            initial_message@,
                            "Failed to decode initial message: "@,
                        ));
                    }
                }
                neg_error(subscription_id, &e)
            },
        }
    }

    /// Lets a message out. Of an event the rules of the relay are asked whether the connection
    /// may see it; every other message goes out as it is.
    pub fn process_outbound<T>(
        &self,
        message: Option<RelayMessage>,
        state: &NostrConnectionState<T>,
        subdomain: &Scope,
    ) -> (r: Result<Option<RelayMessage>, Error>) where P: EventProcessor<T>
        ensures
            match message {
                Some(RelayMessage::Event { subscription_id, event }) => exists|
                    context: EventContext,
                    visible: Result<bool, Error>,
                |
                    {
                        &&& #[trigger] may_answer_visible(
                            self.processor,
                            event,
                            state.custom_state,
                            context,
                            visible,
                        )
                        &&& is_context_of(context, *state, subdomain@, self.relay_pubkey)
                        &&& r == match visible {
                            Ok(true) => Ok::<Option<RelayMessage>, Error>(message),
                            Ok(false) => Ok(None),
                            Err(e) => Err(e),
                        }
                    },
                _ => r == Ok::<Option<RelayMessage>, Error>(message),
            },
    {
        let visible = match &message {
            Some(RelayMessage::Event { event, .. }) => {
                let context = self.event_context(state, subdomain);
                let answer = self.processor.can_see_event(event, &state.custom_state, &context);
                proof {
                    assert(may_answer_visible(
                        self.processor,
                        *event,
                        state.custom_state,
                        context,
                        answer,
                    ));
                }
                answer
            },
            _ => Ok(true),
        };
        filter_outbound(message, visible)
    }
}

/// The session is kept under the identifier: it takes the place of the one that had it, or comes
/// last. The other sessions are as they were.
pub open spec fn session_kept<T>(
    after: NostrConnectionState<T>,
    before: NostrConnectionState<T>,
    id: Seq<char>,
    session: ReconciliationSession,
) -> bool {
    if before.has_session(id) {
        forall|i: int|
            before.session_at(id, i) ==> after.sessions() == #[trigger] before.sessions().update(
                i,
                (id, session),
            )
    } else {
        after.sessions() == before.sessions().push((id, session))
    }
}

/// A reconciliation was opened, or the reply says why it was not.
pub open spec fn opened<T>(
    reply: RelayMessage,
    after: NostrConnectionState<T>,
    before: NostrConnectionState<T>,
    id: Seq<char>,
    items: Set<Item>,
    message: Seq<char>,
) -> bool {
    exists|result: Result<RelayMessage, Error>|
        {
            &&& #[trigger] reconciliation_result(
                result,
                id,
                items,
                message,
                "Failed to decode initial message: "@,
            )
            &&& match result {
                Ok(m) => reply == m && exists|session: ReconciliationSession|
                    session.items() == items && #[trigger] session_kept(
                        after,
                        before,
                        id,
                        session,
                    ),
                Err(e) => is_neg_err(reply, id, e) && after == before,
            }
        }
}

/// Under the rules of a public relay, an event of a connection that is set up is saved in the
/// scope of the connection, and nothing else is done with it.
pub proof fn law_public_relay_saves_every_event<T>(
    event: Event,
    before: T,
    context: EventContext,
    after: T,
    result: Result<Vec<StoreCommand>, Error>,
    r: Result<(Option<StoreCommand>, Vec<StoreCommand>), Error>,
)
    requires
        exists|custom_state: &mut T|
            {
                &&& #[trigger] call_ensures(
                    <DefaultRelayProcessor as EventProcessor<T>>::handle_event,
                    (&DefaultRelayProcessor, event, custom_state, &context),
                    result,
                )
                &&& *custom_state == before
                &&& *final(custom_state) == after
            },
        is_planned(r, result, true),
    ensures
        after == before,
        r matches Ok(p) && p.1@.len() == 0 && (p.0 matches Some(
            StoreCommand::SaveSignedEvent(saved, scope),
        ) && saved == event && scope@ == context.subdomain@),
{
    let commands = result->Ok_0@;
    assert(commands[0] is SaveSignedEvent);
    assert(first_signed(commands) == 0);
}

/// However a subscription is decided, the connection stays within its quota. On a connection that
/// is set up, a subscription that is refused leaves everything as it was.
pub proof fn law_subscribing_keeps_quota<T>(
    r: Result<(), Error>,
    after: NostrConnectionState<T>,
    before: NostrConnectionState<T>,
    id: Seq<char>,
    verified: Result<(), Error>,
)
    requires
        before.within_quota(),
        admitted(r, after, before, id, verified),
    ensures
        after.within_quota(),
        r is Err && before.coordinator is Some ==> after == before,
        r is Ok ==> after.tracked_ids().contains(id),
{
    if r is Ok && !before.tracked_ids().contains(id) {
        let ids = after.tracked_ids();
        assert(ids[ids.len() - 1] == id);
    }
}

/// The kind of work that a message asks for.
pub open spec fn is_work_for(message: Option<ClientMessage>, action: RelayAction) -> bool {
    match message {
        None => action is Next,
        Some(ClientMessage::Event(_)) => action is HandleEvent,
        Some(ClientMessage::Req(_, _)) => action is Subscribe,
        Some(ClientMessage::ReqMultiFilter(_, _)) => action is Subscribe,
        Some(ClientMessage::Close(_)) => action is Unsubscribe || action is Next,
        Some(ClientMessage::NegOpen(_, _, _)) => action is QueryItems,
        Some(ClientMessage::NegMsg(_, _)) => action is Reply,
        Some(ClientMessage::NegClose(_)) => action is Next,
        Some(ClientMessage::Auth(_)) => action is Next,
        Some(ClientMessage::Count) => action matches RelayAction::Fail(e) && (e
            matches Error::Notice { message: t } && t@ == "Message type not supported: COUNT"@),
    }
}

/// How the processing goes on after the work for a message: what goes wrong with an event or a
/// subscription ends it, and so does a message that cannot be processed. A reconciliation is
/// answered whether it succeeds or not, and the next middleware goes on.
pub open spec fn goes_on_as(
    action: RelayAction,
    outcome: Result<(), Error>,
    flow: Flow,
) -> bool {
    match action {
        RelayAction::Fail(e) => flow == Flow::Fail(e),
        RelayAction::HandleEvent(_) | RelayAction::Subscribe { .. } => match outcome {
            Ok(_) => flow is Next,
            Err(e) => flow == Flow::Fail(e),
        },
        _ => flow is Next,
    }
}

/// How the processing goes on after the work for a message, given how the work went.
pub fn after_action(action: RelayAction, outcome: Result<(), Error>) -> (r: Flow)
    ensures
        goes_on_as(action, outcome, r),
{
    match action {
        RelayAction::Fail(e) => Flow::Fail(e),
        RelayAction::HandleEvent(_) | RelayAction::Subscribe { .. } => match outcome {
            Ok(_) => Flow::Next,
            Err(e) => Flow::Fail(e),
        },
        _ => Flow::Next,
    }
}

/// The flow of the core: an error about an event or a subscription is returned, and the next
/// middleware does not run; a reconciliation, the end of a subscription and an authentication
/// always lead on to it; a request for a count is refused.
pub proof fn law_core_flow(
    message: Option<ClientMessage>,
    action: RelayAction,
    outcome: Result<(), Error>,
    flow: Flow,
)
    requires
        is_work_for(message, action),
        goes_on_as(action, outcome, flow),
    ensures
        match message {
            Some(ClientMessage::Event(_))
            | Some(ClientMessage::Req(_, _))
            | Some(ClientMessage::ReqMultiFilter(_, _)) => match outcome {
                Ok(_) => flow is Next,
                Err(e) => flow == Flow::Fail(e),
            },
            Some(ClientMessage::Count) => flow matches Flow::Fail(e) && (e matches Error::Notice {
                message: t,
            } && t@ == "Message type not supported: COUNT"@),
            _ => flow is Next,
        },
{
}

proof fn lemma_first_signed(commands: Seq<StoreCommand>)
    ensures
        0 <= first_signed(commands) <= commands.len(),
        forall|j: int|
            0 <= j < first_signed(commands) ==> !(#[trigger] commands[j] is SaveSignedEvent),
        first_signed(commands) < commands.len() ==> commands[first_signed(commands)]
            is SaveSignedEvent,
    decreases commands.len(),
{
    if commands.len() > 0 && !(commands[0] is SaveSignedEvent) {
        let rest = commands.drop_first();
        lemma_first_signed(rest);
        assert forall|j: int| 0 <= j < first_signed(commands) implies !(#[trigger] commands[j]
            is SaveSignedEvent) by {
            if j > 0 {
                assert(rest[j - 1] == commands[j]);
            }
        }
    }
}

/// Every command that comes of an event is carried out, and carried out once. The first that saves a
/// signed event, where there is one, is the one that is answered for.
pub proof fn law_every_command_is_carried_out(
    commands: Seq<StoreCommand>,
    first: Option<StoreCommand>,
    rest: Seq<StoreCommand>,
)
    requires
        is_ordered(commands, first, rest),
    ensures
        match first {
            Some(command) => rest.to_multiset().insert(command) == commands.to_multiset(),
            None => rest == commands,
        },
        first is Some <==> exists|i: int|
            0 <= i < commands.len() && #[trigger] commands[i] is SaveSignedEvent,
        first matches Some(command) ==> exists|i: int|
            0 <= i < commands.len() && #[trigger] commands[i] == command && command
                is SaveSignedEvent && forall|j: int|
                0 <= j < i ==> !(#[trigger] commands[j] is SaveSignedEvent),
{
    broadcast use {
        vstd::seq_lib::group_to_multiset_ensures,
        vstd::multiset::group_multiset_axioms,
        vstd::multiset::group_multiset_properties,
    };

    lemma_first_signed(commands);
    let k = first_signed(commands);
    if k < commands.len() {
        assert(commands[k] is SaveSignedEvent);
        let moved = commands.update(k, commands.last());
        assert(moved =~= moved.drop_last().push(moved.last()));
        assert(moved.last() == commands.last());
        if k == commands.len() - 1 {
            assert(rest =~= commands.drop_last());
            assert(commands =~= rest.push(commands[k]));
        } else {
            assert(rest.push(commands.last()) =~= moved);
            assert(rest.to_multiset().insert(commands.last()) == moved.to_multiset());
            assert(moved.to_multiset() == commands.to_multiset().insert(commands.last()).remove(
                commands[k],
            ));
            assert(commands.to_multiset().contains(commands[k])) by {
                assert(commands.contains(commands[k]));
            }
            let left = rest.to_multiset();
            let all = commands.to_multiset();
            assert forall|c: StoreCommand| left.insert(commands[k]).count(c) == all.count(c) by {
                assert(left.insert(commands.last()).count(c) == all.insert(
                    commands.last(),
                ).remove(commands[k]).count(c));
            }
            assert(left.insert(commands[k]) =~= all);
        }
    }
}

/// A subscription whose filters are allowed is opened where the connection is set up and has room:
/// it has no limit, or has fewer subscriptions than its limit, or has this one already. Without room
/// it is restricted. Filters that are not allowed are refused with the rules' own error. Nothing but
/// the new subscription is noted.
pub proof fn law_subscriptions_find_room<T>(
    r: Result<(), Error>,
    after: NostrConnectionState<T>,
    before: NostrConnectionState<T>,
    id: Seq<char>,
    verified: Result<(), Error>,
)
    requires
        admitted(r, after, before, id, verified),
    ensures
        verified matches Err(e) ==> r == Err::<(), Error>(e) && after == before,
        verified is Ok && (before.max_subscriptions is None || before.tracked_ids().len()
            < before.max_subscriptions->0 || before.tracked_ids().contains(id)) ==> {
            &&& r is Ok <==> before.coordinator is Some
            &&& forall|other: Seq<char>| #[trigger]
                after.tracked_ids().contains(other) <==> before.tracked_ids().contains(other)
                    || other == id
        },
        verified is Ok && before.max_subscriptions is Some && before.tracked_ids().len()
            >= before.max_subscriptions->0 && !before.tracked_ids().contains(id) ==> (r
            matches Err(e) && e is Restricted && after == before),
        after.authed_pubkey == before.authed_pubkey,
        after.max_subscriptions == before.max_subscriptions,
        after.custom_state == before.custom_state,
{
    let ids = before.tracked_ids();
    let more = ids.push(id);
    assert forall|other: Seq<char>| #[trigger] more.contains(other) <==> ids.contains(other) || other
        == id by {
        if ids.contains(other) {
            let i = choose|i: int| 0 <= i < ids.len() && ids[i] == other;
            assert(more[i] == other);
        }
        assert(more[ids.len() as int] == id);
        if more.contains(other) && other != id {
            let i = choose|i: int| 0 <= i < more.len() && more[i] == other;
            assert(ids[i] == other);
        }
    }
}

/// A message in a reconciliation is answered with what the reconciliation of the items with the
/// decoded message gives, in hexadecimal, under the name of the subscription; what is not
/// hexadecimal, or cannot be reconciled, is an error.
pub proof fn law_reconciliation_is_answered(
    r: Result<RelayMessage, Error>,
    id: Seq<char>,
    items: Set<Item>,
    query: Seq<u8>,
    message: Seq<char>,
    decode_failure: Seq<char>,
)
    requires
        reconciliation_result(r, id, items, message, decode_failure),
    ensures
        message == hex_text(query) ==> match reconciled(items, 60_000, query) {
            Ok(answer) => r matches Ok(RelayMessage::NegMsg { subscription_id, message: text })
                && subscription_id@ == id && text@ == hex_text(answer),
            Err(_) => r is Err,
        },
        message.len() % 2 == 1 ==> r is Err,
        (exists|i: int| 0 <= i < message.len() && !is_hex_digit(#[trigger] message[i])) ==> r is Err,
{
    law_decode_after_encode(query);
}

/// The filter for stored events asks for as many events as the client does, but for no more than
/// the relay allows, and is otherwise the client's filter.
pub proof fn law_filters_are_limited(filter: Filter, max_limit: usize, r: Filter, e: EventView)
    requires
        call_ensures(limited_filter, (&filter, max_limit), r),
    ensures
        r@.limit is Some,
        r@.limit->0 <= max_limit,
        filter@.limit matches Some(limit) ==> r@.limit->0 <= limit,
        r@.limit->0 == max_limit || r@.limit == filter@.limit,
        filter_matches(r@, e) <==> filter_matches(filter@, e),
        r@.search == filter@.search,
{
    assert(matches_but_search(r@, e) <==> matches_but_search(filter@, e)) by {
        assert(r@.generic_tags == filter@.generic_tags);
    }
}

/// A message leaves the core as it is, or not at all: only an event can be held back, and it is
/// where the rules of the relay do not let the connection see it. An event that they fail on ends
/// the processing.
pub proof fn law_only_visible_events_leave(
    message: Option<RelayMessage>,
    visible: Result<bool, Error>,
    r: Result<Option<RelayMessage>, Error>,
)
    requires
        call_ensures(filter_outbound, (message, visible), r),
    ensures
        r matches Ok(left) ==> left == message || left is None,
        !(message matches Some(RelayMessage::Event { .. })) ==> r == Ok::<
            Option<RelayMessage>,
            Error,
        >(message),
        message matches Some(RelayMessage::Event { .. }) ==> {
            &&& r is Err <==> visible is Err
            &&& visible matches Ok(shown) ==> (r == Ok::<Option<RelayMessage>, Error>(message)
                <==> shown)
        },
{
    if let Ok(shown) = visible {
        if shown {
            assert(visible == Ok::<bool, Error>(true));
        } else {
            assert(visible == Ok::<bool, Error>(false));
        }
    }
}

/// A stored event is shown exactly where the rules of the relay say so.
pub proof fn law_stored_events_are_shown_by_the_rules(result: Result<bool, Error>, r: bool)
    requires
        call_ensures(is_visible, (result,), r),
    ensures
        r <==> result == Ok::<bool, Error>(true),
{
    if let Ok(shown) = result {
        if shown {
            assert(result == Ok::<bool, Error>(true));
        }
    }
}

/// What the rules of the relay make of an event decides: their error is returned, and their commands
/// are all planned where the connection is set up.
pub proof fn law_rules_decide(
    r: Result<(Option<StoreCommand>, Vec<StoreCommand>), Error>,
    result: Result<Vec<StoreCommand>, Error>,
    is_set_up: bool,
)
    requires
        is_planned(r, result, is_set_up),
    ensures
        r is Ok <==> result is Ok && is_set_up,
        result matches Err(e) ==> r == Err::<(Option<StoreCommand>, Vec<StoreCommand>), Error>(e),
        result matches Ok(commands) ==> (r matches Ok(planned) ==> match planned.0 {
            Some(first) => planned.1@.to_multiset().insert(first) == commands@.to_multiset(),
            None => planned.1@ == commands@,
        }),
{
    if let Ok(commands) = result {
        if let Ok(planned) = r {
            law_every_command_is_carried_out(commands@, planned.0, planned.1@);
        }
    }
}

/// What the core makes of a message: an event is judged, a request opens a subscription with all of
/// its filters, the end of a subscription frees its room and that of no other, and a reconciliation
/// looks the events of its filter up.
pub proof fn law_messages_get_their_work<T>(
    message: ClientMessage,
    before: NostrConnectionState<T>,
    after: NostrConnectionState<T>,
    r: RelayAction,
)
    requires
        before.wf(),
        exists|state: &mut NostrConnectionState<T>|
            {
                &&& #[trigger] call_ensures(process_inbound::<T>, (Some(message), state), r)
                &&& *state == before
                &&& *final(state) == after
            },
    ensures
        message matches ClientMessage::Event(event) ==> r == RelayAction::HandleEvent(event) && after
            == before,
        message matches ClientMessage::Req(id, filter) ==> (r matches RelayAction::Subscribe {
            subscription_id,
            filters,
        } && subscription_id == id && filters@ == seq![filter] && after == before),
        message matches ClientMessage::ReqMultiFilter(id, list) ==> (r
            matches RelayAction::Subscribe { subscription_id, filters } && subscription_id == id
            && filters == list && after == before),
        message matches ClientMessage::Close(id) ==> {
            &&& !after.tracked_ids().contains(id@)
            &&& forall|other: Seq<char>|
                other != id@ ==> (#[trigger] after.tracked_ids().contains(other)
                    <==> before.tracked_ids().contains(other))
            &&& before.coordinator is Some ==> r == RelayAction::Unsubscribe(id)
            &&& after.authed_pubkey == before.authed_pubkey && after.max_subscriptions
                == before.max_subscriptions
        },
        message matches ClientMessage::NegOpen(id, filter, initial) ==> (r
            matches RelayAction::QueryItems { subscription_id, filter: asked, initial_message }
            && subscription_id == id && asked == filter && initial_message == initial && after
            == before),
        message matches ClientMessage::NegClose(id) ==> r is Next && !after.has_session(id@),
        message matches ClientMessage::NegMsg(id, _) ==> (r matches RelayAction::Reply(reply) ==> (
        reply matches RelayMessage::NegMsg { subscription_id, message: text } && subscription_id@
            == id@) || (reply matches RelayMessage::NegErr { subscription_id, message: text }
            && subscription_id@ == id@)),
        message is Auth ==> r is Next && after == before,
        message is Count ==> (r matches RelayAction::Fail(e) && e is Notice),
{
    if let ClientMessage::Close(id) = message {
        let ids = before.tracked_ids();
        if ids.contains(id@) {
            let at = ids.index_of(id@);
            let left = ids.remove(at);
            assert(0 <= at < ids.len() && ids[at] == id@);
            assert forall|other: Seq<char>| other != id@ implies (#[trigger] left.contains(other)
                <==> ids.contains(other)) by {
                if ids.contains(other) {
                    let k = choose|k: int| 0 <= k < ids.len() && ids[k] == other;
                    assert(left[if k < at { k } else { k - 1 }] == other);
                }
                if left.contains(other) {
                    let k = choose|k: int| 0 <= k < left.len() && left[k] == other;
                    assert(ids[if k < at { k } else { k + 1 }] == other);
                }
            }
            if left.contains(id@) {
                let k = choose|k: int| 0 <= k < left.len() && left[k] == id@;
                assert(ids[if k < at { k } else { k + 1 }] == ids[at]);
            }
        }
    }
    if let ClientMessage::NegMsg(id, text) = message {
        if before.has_session(id@) {
            let i = choose|i: int| before.session_at(id@, i);
            assert(before.session_at(id@, i));
            assert(reply_fits(r->Reply_0, id@, before.sessions()[i].1.items(), text@));
        }
    }
}

/// A reconciliation that is opened keeps a session of exactly the looked-up items under its name, in
/// the place of an earlier one of that name, and leaves the others; one that cannot be opened is
/// answered with the reason, and leaves the sessions as they were.
pub proof fn law_opened_sessions_are_kept<T>(
    reply: RelayMessage,
    after: NostrConnectionState<T>,
    before: NostrConnectionState<T>,
    id: Seq<char>,
    items: Set<Item>,
    message: Seq<char>,
)
    requires
        before.wf(),
        opened(reply, after, before, id, items, message),
    ensures
        is_hex(message) && reconciled(items, 60_000, hex_bytes(message)) is Ok ==> {
            &&& reply matches RelayMessage::NegMsg { subscription_id, message: text }
                && subscription_id@ == id
            &&& exists|i: int| #[trigger] after.session_at(id, i) && after.sessions()[i].1.items()
                == items
            &&& forall|i: int|
                0 <= i < before.sessions().len() && (#[trigger] before.sessions()[i]).0 != id
                    ==> after.sessions()[i] == before.sessions()[i]
        },
        !is_hex(message) || reconciled(items, 60_000, hex_bytes(message)) is Err ==> {
            &&& reply matches RelayMessage::NegErr { subscription_id, message: text }
                && subscription_id@ == id
            &&& after == before
        },
{
    let result = choose|result: Result<RelayMessage, Error>|
        {
            &&& #[trigger] reconciliation_result(
                result,
                id,
                items,
                message,
                "Failed to decode initial message: "@,
            )
            &&& match result {
                Ok(m) => reply == m && exists|session: ReconciliationSession|
                    session.items() == items && #[trigger] session_kept(
                        after,
                        before,
                        id,
                        session,
                    ),
                Err(e) => is_neg_err(reply, id, e) && after == before,
            }
        };
    if result is Ok {
        let session = choose|session: ReconciliationSession|
            session.items() == items && #[trigger] session_kept(after, before, id, session);
        if before.has_session(id) {
            let i = choose|i: int| before.session_at(id, i);
            assert(after.sessions() == before.sessions().update(i, (id, session)));
            assert(after.session_at(id, i));
        } else {
            let n = before.sessions().len() as int;
            assert(after.sessions()[n] == (id, session));
            assert(after.session_at(id, n));
        }
    }
}

/// The rules of the relay know a connection by the key that it authenticated with, the scope that it
/// works in, and the key of the relay.
pub proof fn law_rules_know_the_connection<T>(
    context: EventContext,
    state: NostrConnectionState<T>,
    subdomain: Option<Seq<char>>,
    relay_pubkey: PublicKey,
)
    requires
        is_context_of(context, state, subdomain, relay_pubkey),
    ensures
        context.authed_pubkey is Some <==> state.authed_pubkey is Some,
        context.authed_pubkey matches Some(key) ==> state.authed_pubkey == Some(key),
        context.subdomain@ == subdomain,
        context.relay_pubkey == relay_pubkey,
{
}

} // verus!
