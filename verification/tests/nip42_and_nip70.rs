use nostr_sdk::{EventBuilder, Keys, Kind, RelayUrl, Tag, TagKind, TagStandard, Timestamp};
use relay_builder::error::Error;
use relay_builder::middlewares::nip42_auth::{
    judge, AuthConfig, AuthVerdict, Nip42Middleware,
};
use relay_builder::middlewares::nip70_protected::{has_protected_tag, Nip70Middleware};
use relay_builder::nostr_middleware::{ok_reply, Flow, Outcome};
use relay_builder::protocol::{ClientMessage, Event, EventId, PublicKey, RelayMessage, Scope};
use relay_builder::state::NostrConnectionState;

const NOW: u64 = 1_700_000_000;

fn our_event(event: &nostr_sdk::Event) -> Event {
    Event {
        id: EventId { bytes: event.id.to_bytes() },
        pubkey: PublicKey { bytes: event.pubkey.to_bytes() },
        created_at: event.created_at.as_u64(),
        kind: event.kind.as_u16(),
        tags: event.tags.iter().map(|t| t.as_slice().to_vec()).collect(),
        content: event.content.clone(),
        sig: event.sig.serialize(),
    }
}

fn our_key(keys: &Keys) -> PublicKey {
    PublicKey { bytes: keys.public_key().to_bytes() }
}

fn auth_event(keys: &Keys, challenge: Option<&str>, relay: Option<&str>, at: u64) -> Event {
    let mut builder = EventBuilder::new(Kind::Authentication, "");
    if let Some(text) = challenge {
        builder = builder.tag(Tag::from_standardized(TagStandard::Challenge(text.to_string())));
    }
    if let Some(url) = relay {
        builder =
            builder.tag(Tag::from_standardized(TagStandard::Relay(RelayUrl::parse(url).unwrap())));
    }
    our_event(
        &builder.custom_created_at(Timestamp::from(at)).sign_with_keys(keys).unwrap(),
    )
}

fn run(
    url: &str,
    pending: Option<&str>,
    event: Event,
    scope: &Scope,
) -> (Outcome, Option<PublicKey>) {
    let middleware = Nip42Middleware::with_url(url.to_string());
    let mut state = NostrConnectionState::<()>::new().unwrap();
    state.challenge = pending.map(|c| c.to_string());
    let outcome =
        middleware.process_inbound(&ClientMessage::Auth(event), &mut state, scope, NOW);
    (outcome, state.authed_pubkey)
}

fn fails(outcome: &Outcome) -> bool {
    matches!(outcome.flow, Flow::Fail(_))
}

#[test]
fn test_authed_pubkey_valid_auth() {
    let keys = Keys::generate();
    let event = auth_event(&keys, Some("test_challenge"), Some("wss://test.relay"), NOW);
    let (outcome, key) = run("wss://test.relay", Some("test_challenge"), event, &Scope::Default);
    assert!(!fails(&outcome));
    assert_eq!(key, Some(our_key(&keys)));
}

#[test]
fn test_authed_pubkey_missing_challenge() {
    let keys = Keys::generate();
    let event = auth_event(&keys, None, Some("wss://test.relay"), NOW);
    let (outcome, key) = run("wss://test.relay", None, event, &Scope::Default);
    assert!(fails(&outcome));
    assert_eq!(key, None);
}

#[test]
fn test_authed_pubkey_wrong_challenge() {
    let keys = Keys::generate();
    let event = auth_event(&keys, Some("wrong_challenge"), Some("wss://test.relay"), NOW);
    let (outcome, key) = run("wss://test.relay", Some("test_challenge"), event, &Scope::Default);
    assert!(fails(&outcome));
    assert_eq!(key, None);
}

#[test]
fn test_wrong_relay() {
    let keys = Keys::generate();
    let event = auth_event(&keys, Some("test_challenge"), Some("wss://wrong.relay"), NOW);
    let (outcome, key) = run("wss://test.relay", Some("test_challenge"), event, &Scope::Default);
    assert!(fails(&outcome));
    assert_eq!(key, None);
}

#[test]
fn test_wrong_signature() {
    let keys = Keys::generate();
    let wrong_keys = Keys::generate();
    let mut event = auth_event(&keys, Some("test_challenge"), Some("wss://test.relay"), NOW);
    let other = auth_event(&wrong_keys, Some("test_challenge"), Some("wss://test.relay"), NOW);
    event.sig = other.sig;
    let (outcome, key) = run("wss://test.relay", Some("test_challenge"), event, &Scope::Default);
    assert!(fails(&outcome));
    assert_eq!(key, None);
}

#[test]
fn test_expired_auth() {
    let keys = Keys::generate();
    let event = auth_event(&keys, Some("test_challenge"), Some("wss://test.relay"), NOW - 601);
    let (outcome, key) = run("wss://test.relay", Some("test_challenge"), event, &Scope::Default);
    assert!(fails(&outcome));
    assert_eq!(key, None);
}

#[test]
fn test_subdomain_auth_matching_subdomain() {
    let keys = Keys::generate();
    let event = auth_event(&keys, Some("test_challenge"), Some("wss://test.example.com"), NOW);
    let scope = Scope::named("test").unwrap();
    let (outcome, key) = run("wss://example.com", Some("test_challenge"), event, &scope);
    assert!(!fails(&outcome));
    assert_eq!(key, Some(our_key(&keys)));
}

#[test]
fn test_subdomain_auth_wrong_subdomain() {
    let keys = Keys::generate();
    let event = auth_event(&keys, Some("test_challenge"), Some("wss://wrong.example.com"), NOW);
    let scope = Scope::named("test").unwrap();
    let (outcome, key) = run("wss://example.com", Some("test_challenge"), event, &scope);
    assert!(fails(&outcome));
    assert_eq!(key, None);
}

#[test]
fn test_subdomain_auth_different_base_domain() {
    let keys = Keys::generate();
    let event = auth_event(&keys, Some("test_challenge"), Some("wss://test.different.com"), NOW);
    let scope = Scope::named("test").unwrap();
    let (outcome, key) = run("wss://example.com", Some("test_challenge"), event, &scope);
    assert!(fails(&outcome));
    assert_eq!(key, None);
}

#[test]
fn an_answer_at_the_limit_of_its_age_is_accepted() {
    let keys = Keys::generate();
    let event = auth_event(&keys, Some("c"), Some("wss://test.relay"), NOW - 600);
    let (outcome, key) = run("wss://test.relay", Some("c"), event, &Scope::Default);
    assert!(!fails(&outcome));
    assert_eq!(key, Some(our_key(&keys)));
    match &outcome.replies[0] {
        RelayMessage::OkReply { status, message, .. } => {
            assert!(status);
            assert_eq!(message, "authenticated");
        }
        _ => panic!("Expected an answer"),
    }
}

#[test]
fn every_fault_has_its_verdict() {
    let ok = |expected, kind, valid, challenge, relay, at| {
        judge(expected, kind, valid, challenge, relay, at, NOW)
    };
    let c = Some("c");
    assert_eq!(ok(None, 22242, true, c, Some(true), NOW), AuthVerdict::NoChallenge);
    assert_eq!(ok(c, 1, true, c, Some(true), NOW), AuthVerdict::WrongKind);
    assert_eq!(ok(c, 22242, false, c, Some(true), NOW), AuthVerdict::BadSignature);
    assert_eq!(ok(c, 22242, true, None, Some(true), NOW), AuthVerdict::NoChallengeTag);
    assert_eq!(ok(c, 22242, true, Some("d"), Some(true), NOW), AuthVerdict::ChallengeMismatch);
    assert_eq!(ok(c, 22242, true, c, None, NOW), AuthVerdict::NoRelayTag);
    assert_eq!(ok(c, 22242, true, c, Some(false), NOW), AuthVerdict::RelayMismatch);
    assert_eq!(ok(c, 22242, true, c, Some(true), NOW - 601), AuthVerdict::Expired);
    assert_eq!(ok(c, 22242, true, c, Some(true), NOW), AuthVerdict::Accepted);
}

#[test]
fn urls_are_compared_by_host() {
    let middleware = Nip42Middleware::new(AuthConfig {
        relay_url: "wss://relay.example.com/".to_string(),
        validate_subdomains: true,
    });
    assert_eq!(
        middleware.extract_host_from_url("wss://Relay.Example.com:8080/path"),
        Some("relay.example.com".to_string())
    );
    assert_eq!(middleware.extract_host_from_url("no url"), None);
    assert!(middleware.validate_relay_url("wss://relay.example.com", &Scope::Default));
    assert!(!middleware.validate_relay_url("wss://other.example.com", &Scope::Default));
}

#[test]
fn a_new_connection_is_challenged() {
    let middleware = Nip42Middleware::with_url("wss://test.relay".to_string());
    let mut state = NostrConnectionState::<()>::new().unwrap();
    match middleware.on_connect(&mut state) {
        RelayMessage::Auth { challenge } => assert_eq!(state.challenge, Some(challenge)),
        _ => panic!("Expected a challenge"),
    }
    let outcome = middleware.process_inbound(
        &ClientMessage::Close("s".to_string()),
        &mut state,
        &Scope::Default,
        NOW,
    );
    assert!(matches!(outcome.flow, Flow::Next));
}

fn protected(keys: &Keys) -> Event {
    our_event(
        &EventBuilder::text_note("protected content")
            .tag(Tag::protected())
            .sign_with_keys(keys)
            .unwrap(),
    )
}

#[test]
fn test_protected_event_identification() {
    assert!(has_protected_tag(&protected(&Keys::generate())), "Event should have protected tag");
}

#[test]
fn test_non_protected_event() {
    let keys = Keys::generate();
    let event =
        our_event(&EventBuilder::text_note("regular content").sign_with_keys(&keys).unwrap());
    assert!(!has_protected_tag(&event), "Event should not have protected tag");
}

#[test]
fn test_author_pubkey_matching() {
    let author_keys = Keys::generate();
    let other_keys = Keys::generate();
    let event = protected(&author_keys);
    assert_eq!(event.pubkey, our_key(&author_keys));
    assert_ne!(event.pubkey, our_key(&other_keys));
    let message = Some(ClientMessage::Event(event));
    let own = Nip70Middleware.process_inbound(&message, Some(our_key(&author_keys)));
    assert!(matches!(own.flow, Flow::Next));
    let foreign = Nip70Middleware.process_inbound(&message, Some(our_key(&other_keys)));
    assert!(matches!(foreign.flow, Flow::Done));
}

#[test]
fn test_nip70_middleware_creation() {
    let middleware = Nip70Middleware;
    assert!(format!("{middleware:?}").contains("Nip70Middleware"));
    assert!(matches!(middleware.process_inbound(&None, None).flow, Flow::Next));
}

#[test]
fn test_nip70_middleware_debug() {
    let middleware = Nip70Middleware;
    let debug_str = format!("{:?}", middleware);
    assert!(debug_str.contains("Nip70Middleware"));
}

#[test]
fn test_protected_tag_format() {
    let event = protected(&Keys::generate());
    assert_eq!(event.tags, vec![vec!["-".to_string()]]);
    assert!(has_protected_tag(&event), "Protected tag should exist");
}

#[test]
fn test_error_messages() {
    let error = Error::auth_required("this event may only be published by its author");
    match error {
        Error::AuthRequired { message, .. } => {
            assert_eq!(message, "this event may only be published by its author");
        }
        _ => panic!("Expected AuthRequired error"),
    }

    let author = Keys::generate();
    let outcome = Nip70Middleware.process_inbound(
        &Some(ClientMessage::Event(protected(&author))),
        Some(our_key(&Keys::generate())),
    );
    match &outcome.replies[0] {
        RelayMessage::OkReply { message: rejection_msg, .. } => {
            assert_eq!(
                rejection_msg,
                "rejected: this event may only be published by its author"
            );
            assert!(rejection_msg.starts_with("rejected: "));
            assert!(rejection_msg.contains("may only be published by its author"));
        }
        _ => panic!("Expected an answer"),
    }
    let unknown =
        Nip70Middleware.process_inbound(&Some(ClientMessage::Event(protected(&author))), None);
    assert!(matches!(unknown.flow, Flow::Fail(Error::AuthRequired { .. })));
}

#[test]
fn test_relay_message_ok_format() {
    let event_id = EventId { bytes: [0; 32] };
    let ok_msg = ok_reply(
        event_id,
        false,
        "rejected: this event may only be published by its author",
    );
    match ok_msg {
        RelayMessage::OkReply { event_id: id, status, message } => {
            assert_eq!(id, event_id);
            assert!(!status);
            assert!(message.starts_with("rejected: "));
        }
        _ => panic!("Expected OK message"),
    }
}

#[test]
fn test_multiple_protected_tags() {
    let keys = Keys::generate();
    let event = EventBuilder::text_note("content")
        .tag(Tag::protected())
        .tag(Tag::custom(TagKind::from("subject"), vec!["test".to_string()]))
        .tag(Tag::custom(TagKind::from("t"), vec!["topic".to_string()]))
        .sign_with_keys(&keys)
        .unwrap();
    let event = our_event(&event);
    assert!(has_protected_tag(&event));
    assert_eq!(event.tags.len(), 3);
}

#[test]
fn test_protected_event_with_different_kinds() {
    let keys = Keys::generate();
    let metadata = EventBuilder::new(Kind::Metadata, r#"{"name":"Protected User"}"#)
        .tag(Tag::protected())
        .sign_with_keys(&keys)
        .unwrap();
    assert!(has_protected_tag(&our_event(&metadata)));
    let article = EventBuilder::new(Kind::from(30023u16), "Article content")
        .tag(Tag::protected())
        .tag(Tag::custom(TagKind::from("title"), vec!["Protected Article".to_string()]))
        .sign_with_keys(&keys)
        .unwrap();
    assert!(has_protected_tag(&our_event(&article)));
}
