use negentropy::{Id, Negentropy, NegentropyStorageVector};
use nostr_sdk::{EventBuilder, Keys};
use relay_builder::error::Error;
use relay_builder::event_processor::{
    DefaultRelayProcessor, EventContext, EventProcessor, StoreCommand,
};
use relay_builder::middlewares::metrics::MetricsMiddleware;
use relay_builder::nostr_middleware::Flow;
use relay_builder::protocol::{
    ClientMessage, Event, EventId, Filter, PublicKey, RelayMessage, Scope,
};
use relay_builder::relay_middleware::{
    after_action, filter_outbound, is_visible, order_commands, process_inbound, RelayAction,
    RelayMiddleware,
};
use relay_builder::state::NostrConnectionState;

const RELAY: PublicKey = PublicKey { bytes: [5; 32] };

fn an_event(content: &str) -> Event {
    let event = EventBuilder::text_note(content).sign_with_keys(&Keys::generate()).unwrap();
    Event {
        id: EventId { bytes: event.id.to_bytes() },
        pubkey: PublicKey { bytes: event.pubkey.to_bytes() },
        created_at: event.created_at.as_u64(),
        kind: event.kind.as_u16(),
        tags: event.tags.iter().map(|t| t.as_slice().to_vec()).collect(),
        content: event.content.clone(),
        sig: event.sig.serialize(),
    }
}

/// Rules that know a list of forbidden words, count events, and refuse filters without kinds.
struct Strict;

impl EventProcessor<u32> for Strict {
    fn can_see_event(
        &self,
        event: &Event,
        _custom_state: &u32,
        context: &EventContext,
    ) -> Result<bool, Error> {
        if event.content == "broken" {
            return Err(Error::internal("broken"));
        }
        Ok(event.content != "secret" || context.authed_pubkey == Some(event.pubkey))
    }

    fn verify_filters(
        &self,
        filters: &Vec<Filter>,
        _custom_state: &u32,
        _context: &EventContext,
    ) -> Result<(), Error> {
        if filters.iter().all(|f| f.kinds.is_some()) {
            Ok(())
        } else {
            Err(Error::restricted("kinds are required"))
        }
    }

    fn handle_event(
        &self,
        event: Event,
        custom_state: &mut u32,
        context: &EventContext,
    ) -> Result<Vec<StoreCommand>, Error> {
        *custom_state += 1;
        Ok(vec![
            StoreCommand::DeleteEvents(Filter::new(), Scope::Default),
            StoreCommand::SaveSignedEvent(event, context.subdomain.copy()),
        ])
    }
}

fn connected<T: Default, P>(relay: &RelayMiddleware<P>) -> NostrConnectionState<T> {
    let mut state = NostrConnectionState::<T>::new().unwrap();
    relay.on_connect(&mut state, "conn", &Scope::Default);
    state
}

#[test]
fn a_public_relay_saves_every_event() {
    let relay = RelayMiddleware::new(DefaultRelayProcessor, RELAY, 500, Some(3));
    let mut state: NostrConnectionState<()> = connected(&relay);
    assert_eq!(state.max_subscriptions, Some(3));
    let event = an_event("hello");
    let id = event.id;
    let scope = Scope::named("tenant").unwrap();
    let (first, rest) = relay.handle_event(event, &mut state, &scope).unwrap();
    assert!(rest.is_empty());
    match first {
        Some(StoreCommand::SaveSignedEvent(saved, s)) => {
            assert_eq!(saved.id, id);
            assert_eq!(s, scope);
        }
        _ => panic!("Expected a saved event"),
    }
}

#[test]
fn an_event_needs_a_connection_that_is_set_up() {
    let relay = RelayMiddleware::new(DefaultRelayProcessor, RELAY, 500, None);
    let mut state = NostrConnectionState::<()>::new().unwrap();
    match relay.handle_event(an_event("x"), &mut state, &Scope::Default) {
        Err(e) => {
            assert_eq!(e.to_string(), "Internal error: No subscription coordinator available")
        }
        Ok(_) => panic!("Expected an error"),
    }
}

#[test]
fn the_rules_of_a_relay_are_asked() {
    let relay = RelayMiddleware::new(Strict, RELAY, 500, Some(1));
    let mut state: NostrConnectionState<u32> = connected(&relay);
    let (first, rest) =
        relay.handle_event(an_event("x"), &mut state, &Scope::Default).unwrap();
    assert_eq!(state.custom_state, 1);
    assert!(matches!(first, Some(StoreCommand::SaveSignedEvent(_, _))));
    assert_eq!(rest.len(), 1);

    match relay.handle_subscription(&mut state, "s", &vec![Filter::new()], &Scope::Default) {
        Err(e) => assert_eq!(e.to_string(), "Restricted: kinds are required"),
        Ok(()) => panic!("Expected a refusal"),
    }
    assert_eq!(state.subscription_count(), 0);
    let mut kinds = Filter::new();
    kinds.kinds = Some(vec![1]);
    relay.handle_subscription(&mut state, "s", &vec![kinds.copy()], &Scope::Default).unwrap();
    relay.handle_subscription(&mut state, "s", &vec![kinds.copy()], &Scope::Default).unwrap();
    match relay.handle_subscription(&mut state, "t", &vec![kinds], &Scope::Default) {
        Err(e) => assert_eq!(e.to_string(), "Restricted: Subscription quota exceeded: 1/1"),
        Ok(()) => panic!("Expected a refusal"),
    }
    assert!(matches!(relay.processor(), Strict));
}

#[test]
fn events_that_may_not_be_seen_are_held_back() {
    let relay = RelayMiddleware::new(Strict, RELAY, 500, None);
    let mut state: NostrConnectionState<u32> = connected(&relay);
    let out = |event: Event| {
        Some(RelayMessage::Event { subscription_id: "s".to_string(), event })
    };
    let open = relay.process_outbound(out(an_event("open")), &state, &Scope::Default);
    assert!(open.unwrap().is_some());
    let secret = an_event("secret");
    let author = secret.pubkey;
    let hidden = relay.process_outbound(out(secret.copy()), &state, &Scope::Default);
    assert!(hidden.unwrap().is_none());
    state.authed_pubkey = Some(author);
    let shown = relay.process_outbound(out(secret), &state, &Scope::Default);
    assert!(shown.unwrap().is_some());
    assert!(relay.process_outbound(out(an_event("broken")), &state, &Scope::Default).is_err());
    let notice = Some(RelayMessage::Notice("n".to_string()));
    assert!(relay.process_outbound(notice, &state, &Scope::Default).unwrap().is_some());
    assert!(relay.process_outbound(None, &state, &Scope::Default).unwrap().is_none());
}

#[test]
fn visibility_of_stored_and_new_events() {
    assert!(is_visible(Ok(true)));
    assert!(!is_visible(Ok(false)));
    assert!(!is_visible(Err(Error::internal("x"))));
    let message = || {
        Some(RelayMessage::Event { subscription_id: "s".to_string(), event: an_event("e") })
    };
    assert!(filter_outbound(message(), Ok(true)).unwrap().is_some());
    assert!(filter_outbound(message(), Ok(false)).unwrap().is_none());
    assert!(filter_outbound(message(), Err(Error::internal("x"))).is_err());
}

#[test]
fn the_saved_event_comes_first() {
    let delete = |limit: usize| {
        let mut filter = Filter::new();
        filter.limit = Some(limit);
        StoreCommand::DeleteEvents(filter, Scope::Default)
    };
    let limit_of = |command: &StoreCommand| match command {
        StoreCommand::DeleteEvents(filter, _) => filter.limit.unwrap(),
        _ => panic!("Expected a deletion"),
    };
    let (first, rest) = order_commands(vec![
        delete(1),
        StoreCommand::SaveSignedEvent(an_event("a"), Scope::Default),
        delete(2),
        delete(3),
    ]);
    assert!(matches!(first, Some(StoreCommand::SaveSignedEvent(_, _))));
    let order: Vec<usize> = rest.iter().map(limit_of).collect();
    assert_eq!(order, vec![1, 3, 2]);
    let (none, all) = order_commands(vec![delete(1), delete(2)]);
    assert!(none.is_none());
    assert_eq!(all.len(), 2);
}

#[test]
fn what_messages_ask_for() {
    let relay = RelayMiddleware::new(DefaultRelayProcessor, RELAY, 500, None);
    let mut state: NostrConnectionState<()> = connected(&relay);
    assert!(matches!(process_inbound(None, &mut state), RelayAction::Next));
    assert!(matches!(
        process_inbound(Some(ClientMessage::Event(an_event("e"))), &mut state),
        RelayAction::HandleEvent(_)
    ));
    match process_inbound(Some(ClientMessage::Req("s".to_string(), Filter::new())), &mut state) {
        RelayAction::Subscribe { subscription_id, filters } => {
            assert_eq!(subscription_id, "s");
            assert_eq!(filters.len(), 1);
        }
        _ => panic!("Expected a subscription"),
    }
    state.reserve_quota_slot("s").unwrap();
    match process_inbound(Some(ClientMessage::Close("s".to_string())), &mut state) {
        RelayAction::Unsubscribe(id) => assert_eq!(id, "s"),
        _ => panic!("Expected the end of a subscription"),
    }
    assert_eq!(state.subscription_count(), 0);
    assert!(matches!(
        process_inbound(Some(ClientMessage::Auth(an_event("a"))), &mut state),
        RelayAction::Next
    ));
    match process_inbound(Some(ClientMessage::Count), &mut state) {
        RelayAction::Fail(e) => {
            assert_eq!(e.to_string(), "Notice: Message type not supported: COUNT")
        }
        _ => panic!("Expected an error"),
    }
    match process_inbound(
        Some(ClientMessage::NegMsg("n".to_string(), "00".to_string())),
        &mut state,
    ) {
        RelayAction::Reply(RelayMessage::NegErr { subscription_id, message }) => {
            assert_eq!(subscription_id, "n");
            assert_eq!(message, "Error: Notice: Negentropy subscription n not found");
        }
        _ => panic!("Expected an error"),
    }
}

fn client(items: &[(u64, [u8; 32])]) -> Negentropy<'static, NegentropyStorageVector> {
    let mut storage = NegentropyStorageVector::new();
    for (time, id) in items {
        storage.insert(*time, Id::from_byte_array(*id)).unwrap();
    }
    storage.seal().unwrap();
    Negentropy::owned(storage, 60_000).unwrap()
}

#[test]
fn sets_are_reconciled() {
    let relay = RelayMiddleware::new(DefaultRelayProcessor, RELAY, 500, None);
    let mut state: NostrConnectionState<()> = connected(&relay);
    let mut here = client(&[(10, [1; 32]), (20, [2; 32])]);
    let query = here.initiate().unwrap();
    let items = vec![(EventId { bytes: [2; 32] }, 20), (EventId { bytes: [3; 32] }, 30)];
    let reply = relay.open_reconciliation(&mut state, "n", Ok(items), &hex::encode(query));
    assert_eq!(state.negentropy_subscription_count(), 1);
    let answer = match reply {
        RelayMessage::NegMsg { subscription_id, message } => {
            assert_eq!(subscription_id, "n");
            hex::decode(message).unwrap()
        }
        _ => panic!("Expected an answer"),
    };
    let mut have: Vec<Id> = Vec::new();
    let mut need: Vec<Id> = Vec::new();
    let next = here.reconcile_with_ids(&answer, &mut have, &mut need).unwrap();
    assert!(next.is_none());
    assert_eq!(have, vec![Id::from_byte_array([1; 32])]);
    assert_eq!(need, vec![Id::from_byte_array([3; 32])]);

    // The session answers again, and is gone once it is closed.
    let mut again = client(&[(10, [1; 32])]);
    let query = hex::encode(again.initiate().unwrap());
    match process_inbound(Some(ClientMessage::NegMsg("n".to_string(), query)), &mut state) {
        RelayAction::Reply(RelayMessage::NegMsg { .. }) => {}
        _ => panic!("Expected an answer"),
    }
    process_inbound(Some(ClientMessage::NegClose("n".to_string())), &mut state);
    assert_eq!(state.negentropy_subscription_count(), 0);
}

#[test]
fn a_reconciliation_that_cannot_be_opened() {
    let relay = RelayMiddleware::new(DefaultRelayProcessor, RELAY, 500, None);
    let mut state: NostrConnectionState<()> = connected(&relay);
    match relay.open_reconciliation(&mut state, "n", Ok(vec![]), "zz") {
        RelayMessage::NegErr { message, .. } => {
            assert!(message.starts_with("Error: Internal error: Failed to decode initial message: "))
        }
        _ => panic!("Expected an error"),
    }
    match relay.open_reconciliation(&mut state, "n", Ok(vec![]), "00") {
        RelayMessage::NegErr { message, .. } => {
            assert!(message.starts_with("Error: Internal error: Failed to reconcile negentropy: "))
        }
        _ => panic!("Expected an error"),
    }
    let failure = Err(Error::database("down"));
    match relay.open_reconciliation(&mut state, "n", failure, "00") {
        RelayMessage::NegErr { message, .. } => {
            assert_eq!(message, "Error: Database error: down")
        }
        _ => panic!("Expected an error"),
    }
    assert_eq!(state.negentropy_subscription_count(), 0);
}

#[test]
fn events_are_timed_until_they_are_answered() {
    let event = an_event("e");
    let id = event.id;
    let ok = Some(RelayMessage::OkReply {
        event_id: id,
        status: true,
        message: String::new(),
    });
    let message = Some(ClientMessage::Event(event));
    let mut metrics = MetricsMiddleware::with_handler();
    assert!(metrics.process_inbound(&message, true, 77));
    assert!(!metrics.process_inbound(&None, true, 78));
    let timing = metrics.process_outbound(&ok).unwrap();
    assert_eq!(timing.start, 77);
    assert_eq!(timing.event_kind, 1);
    assert!(metrics.process_outbound(&ok).is_none());
    assert!(metrics.process_inbound(&message, false, 79));
    assert!(metrics.process_outbound(&ok).is_none());
    let mut silent = MetricsMiddleware::new();
    assert!(!silent.process_inbound(&message, true, 77));
    assert!(silent.process_outbound(&ok).is_none());
}

#[test]
fn a_subscription_needs_a_connection_that_is_set_up() {
    let relay = RelayMiddleware::new(DefaultRelayProcessor, RELAY, 500, None);
    let mut state = NostrConnectionState::<()>::new().unwrap();
    match relay.handle_subscription(&mut state, "s", &vec![Filter::new()], &Scope::Default) {
        Err(e) => {
            assert_eq!(e.to_string(), "Internal error: No subscription coordinator available")
        }
        Ok(()) => panic!("Expected an error"),
    }
    assert_eq!(state.subscription_count(), 1);
}

/// Rules that keep what every relay does by default.
struct Plain;

impl EventProcessor<()> for Plain {}

#[test]
fn rules_have_defaults() {
    let relay = RelayMiddleware::new(Plain, RELAY, 500, None);
    let mut state: NostrConnectionState<()> = connected(&relay);
    let context = relay.event_context(&state, &Scope::Default);
    let event = an_event("x");
    let id = event.id;
    assert!(relay.processor().can_see_event(&event, &(), &context).unwrap());
    assert!(relay.processor().verify_filters(&vec![Filter::new()], &(), &context).is_ok());
    let (first, rest) = relay.handle_event(event, &mut state, &Scope::Default).unwrap();
    assert!(matches!(first, Some(StoreCommand::SaveSignedEvent(saved, _)) if saved.id == id));
    assert!(rest.is_empty());
}

#[test]
fn how_the_core_goes_on() {
    let failed = || Err(Error::internal("store"));
    let fails = |flow: Flow| match flow {
        Flow::Fail(e) => e.to_string(),
        _ => panic!("Expected a failure"),
    };
    let event = || RelayAction::HandleEvent(an_event("x"));
    assert_eq!(fails(after_action(event(), failed())), "Internal error: store");
    assert!(matches!(after_action(event(), Ok(())), Flow::Next));
    let subscribe =
        || RelayAction::Subscribe { subscription_id: "s".to_string(), filters: vec![] };
    assert_eq!(fails(after_action(subscribe(), failed())), "Internal error: store");
    assert!(matches!(after_action(subscribe(), Ok(())), Flow::Next));
    let reply = RelayMessage::NegErr { subscription_id: "n".to_string(), message: "e".to_string() };
    assert!(matches!(after_action(RelayAction::Reply(reply), failed()), Flow::Next));
    assert!(matches!(after_action(RelayAction::Next, Ok(())), Flow::Next));
    assert!(matches!(
        after_action(RelayAction::Unsubscribe("s".to_string()), failed()),
        Flow::Next
    ));
    let query = RelayAction::QueryItems {
        subscription_id: "n".to_string(),
        filter: Filter::new(),
        initial_message: "00".to_string(),
    };
    assert!(matches!(after_action(query, failed()), Flow::Next));
    let refused = RelayAction::Fail(Error::notice("no"));
    assert_eq!(fails(after_action(refused, Ok(()))), "Notice: no");
}

#[test]
fn a_session_leaves_the_others() {
    let relay = RelayMiddleware::new(DefaultRelayProcessor, RELAY, 500, None);
    let mut state: NostrConnectionState<()> = connected(&relay);
    let query = || hex::encode(client(&[(10, [1; 32])]).initiate().unwrap());
    for id in ["a", "b", "a"] {
        match relay.open_reconciliation(&mut state, id, Ok(vec![]), &query()) {
            RelayMessage::NegMsg { subscription_id, .. } => assert_eq!(subscription_id, id),
            _ => panic!("Expected an answer"),
        }
    }
    assert_eq!(state.negentropy_subscription_count(), 2);
    for id in ["a", "b"] {
        match process_inbound(Some(ClientMessage::NegMsg(id.to_string(), query())), &mut state) {
            RelayAction::Reply(RelayMessage::NegMsg { subscription_id, .. }) => {
                assert_eq!(subscription_id, id)
            }
            _ => panic!("Expected an answer"),
        }
    }
}

/// Rules that take no events and leave a mark.
struct Closed;

impl EventProcessor<u32> for Closed {
    fn handle_event(
        &self,
        event: Event,
        custom_state: &mut u32,
        context: &EventContext,
    ) -> Result<Vec<StoreCommand>, Error> {
        *custom_state += 10;
        if context.relay_pubkey == RELAY && event.content == "keep" {
            return Ok(vec![]);
        }
        Err(Error::restricted("closed"))
    }
}

#[test]
fn rules_that_refuse_are_followed() {
    let relay = RelayMiddleware::new(Closed, RELAY, 500, None);
    let mut state: NostrConnectionState<u32> = connected(&relay);
    match relay.handle_event(an_event("x"), &mut state, &Scope::Default) {
        Err(e) => assert_eq!(e.to_string(), "Restricted: closed"),
        Ok(_) => panic!("Expected a refusal"),
    }
    assert_eq!(state.custom_state, 10);
    let (first, rest) =
        relay.handle_event(an_event("keep"), &mut state, &Scope::Default).unwrap();
    assert!(first.is_none());
    assert!(rest.is_empty());
    assert_eq!(state.custom_state, 20);
}
