use nostr_sdk::{EventBuilder, JsonUtil, Keys};
use relay_builder::event_ingester::{after_parsing, EventIngester, IngesterError};
use relay_builder::middlewares::event_verifier::EventVerifierMiddleware;
use relay_builder::nostr_handler::ingester_reply;
use relay_builder::nostr_middleware::Flow;
use relay_builder::protocol::{ClientMessage, Event, EventId, PublicKey, RelayMessage};
use std::sync::Arc;

fn held_event(event: &nostr_sdk::Event) -> Event {
    Event {
        id: EventId { bytes: event.id.to_bytes() },
        pubkey: PublicKey { bytes: event.pubkey.to_bytes() },
        created_at: event.created_at.as_u64(),
        kind: event.kind.as_u16(),
        tags: event.tags.iter().map(|t| t.as_slice().to_vec()).collect(),
        content: event.content.clone(),
        sig: event.sig.serialize(),
    }
}

#[test]
fn test_valid_event_processing() {
    let keys = Arc::new(Keys::generate());
    let ingester = EventIngester::new(Arc::clone(&keys));
    let event = EventBuilder::text_note("Test message").sign_with_keys(&keys).unwrap();
    let event_json = format!(r#"["EVENT", {}]"#, event.as_json());
    let result = ingester.process_message(event_json);
    assert!(result.is_ok());
    if let Ok(ClientMessage::Event(parsed_event)) = result {
        assert_eq!(parsed_event.id.bytes, event.id.to_bytes());
        assert_eq!(parsed_event.content, "Test message");
    } else {
        panic!("Expected EVENT message");
    }
}

#[test]
fn test_invalid_signature_rejection() {
    let keys = Arc::new(Keys::generate());
    let ingester = EventIngester::new(Arc::clone(&keys));
    let event = EventBuilder::text_note("Test message").sign_with_keys(&keys).unwrap();
    let tampered = event.as_json().replace("Test message", "Tampered message");
    let event_json = format!(r#"["EVENT", {tampered}]"#);
    let result = ingester.process_message(event_json);
    assert!(result.is_err());
    if let Err(IngesterError::SignatureVerificationFailed(id)) = result {
        assert_eq!(id.bytes, event.id.to_bytes());
    } else {
        panic!("Expected SignatureVerificationFailed error");
    }
}

#[test]
fn test_req_message_processing() {
    let ingester = EventIngester::new(Arc::new(Keys::generate()));
    let req_json = r#"["REQ", "sub1", {"kinds": [1], "limit": 10}]"#;
    let result = ingester.process_message(req_json.to_string());
    assert!(result.is_ok());
    if let Ok(ClientMessage::Req(subscription_id, filter)) = result {
        assert_eq!(subscription_id.as_str(), "sub1");
        assert!(filter.kinds.as_ref().unwrap().contains(&1));
        assert_eq!(filter.limit, Some(10));
    } else {
        panic!("Expected REQ message");
    }
}

#[test]
fn test_invalid_json_handling() {
    let ingester = EventIngester::new(Arc::new(Keys::generate()));
    let result = ingester.process_message("not valid json".to_string());
    assert!(result.is_err());
    if let Err(IngesterError::JsonParseError(_)) = result {
    } else {
        panic!("Expected JsonParseError");
    }
}

#[test]
fn test_concurrent_processing() {
    let keys = Arc::new(Keys::generate());
    let ingester = EventIngester::new(Arc::clone(&keys));
    for i in 0..50 {
        let event =
            EventBuilder::text_note(format!("Test message {i}")).sign_with_keys(&keys).unwrap();
        let event_json = format!(r#"["EVENT", {}]"#, event.as_json());
        assert!(ingester.process_message(event_json).is_ok());
    }
}

#[test]
fn test_ingester_from_async_context() {
    let keys = Arc::new(Keys::generate());
    let ingester = EventIngester::new(Arc::clone(&keys));
    let event = EventBuilder::text_note("Test from async").sign_with_keys(&keys).unwrap();
    let event_json = format!(r#"["EVENT", {}]"#, event.as_json());
    let result = ingester.process_message(event_json);
    assert!(result.is_ok());
    if let Ok(ClientMessage::Event(parsed_event)) = result {
        assert_eq!(parsed_event.content, "Test from async");
    } else {
        panic!("Expected EVENT message");
    }
}

#[test]
fn test_valid_event_signature() {
    let keys = Keys::generate();
    let event = EventBuilder::text_note("test message").sign_with_keys(&keys).unwrap();
    let outcome = EventVerifierMiddleware
        .process_inbound(&Some(ClientMessage::Event(held_event(&event))));
    assert!(matches!(outcome.flow, Flow::Next));
    assert!(outcome.replies.is_empty());
}

#[test]
fn test_invalid_event_signature() {
    let keys = Keys::generate();
    let mut event =
        held_event(&EventBuilder::text_note("test message").sign_with_keys(&keys).unwrap());
    let keys2 = Keys::generate();
    let event2 = EventBuilder::text_note("other message").sign_with_keys(&keys2).unwrap();
    event.sig = event2.sig.serialize();
    let id = event.id;
    let outcome = EventVerifierMiddleware.process_inbound(&Some(ClientMessage::Event(event)));
    assert!(matches!(outcome.flow, Flow::Done));
    match &outcome.replies[0] {
        RelayMessage::OkReply { event_id, status, .. } => {
            assert_eq!(*event_id, id);
            assert!(!status);
        }
        _ => panic!("Expected an answer"),
    }
}

#[test]
fn test_non_event_message_passes_through() {
    let outcome = EventVerifierMiddleware
        .process_inbound(&Some(ClientMessage::Close("test_sub".to_string())));
    assert!(matches!(outcome.flow, Flow::Next));
}

#[test]
fn test_auth_message_passes_through() {
    let keys = Keys::generate();
    let event = EventBuilder::text_note("test message").sign_with_keys(&keys).unwrap();
    let outcome = EventVerifierMiddleware
        .process_inbound(&Some(ClientMessage::Auth(held_event(&event))));
    assert!(matches!(outcome.flow, Flow::Next));
}

#[test]
fn the_decision_on_a_parsed_message() {
    let keys = Keys::generate();
    let event = held_event(&EventBuilder::text_note("m").sign_with_keys(&keys).unwrap());
    let id = event.id;
    match after_parsing(Ok(ClientMessage::Event(event)), false) {
        Err(IngesterError::SignatureVerificationFailed(refused)) => assert_eq!(refused, id),
        _ => panic!("Expected a refusal"),
    }
    match after_parsing(Err("odd".to_string()), true) {
        Err(IngesterError::JsonParseError(text)) => assert!(text.contains("odd")),
        _ => panic!("Expected an error"),
    }
    assert_eq!(IngesterError::InvalidUtf8.to_string(), "Invalid UTF-8 in message");
}

#[test]
fn what_the_client_is_told_of_an_unusable_message() {
    match ingester_reply(IngesterError::SignatureVerificationFailed(EventId { bytes: [1; 32] })) {
        RelayMessage::OkReply { event_id, status, message } => {
            assert_eq!(event_id.bytes, [1; 32]);
            assert!(!status);
            assert!(message.starts_with("invalid: "));
        }
        _ => panic!("Expected an answer"),
    }
    assert!(matches!(
        ingester_reply(IngesterError::JsonParseError("x".to_string())),
        RelayMessage::Notice(_)
    ));
}

#[test]
fn the_first_message_of_a_reconciliation_is_handed_on() {
    let text = r#"["NEG-OPEN","s",{"kinds":[1]},"6100"]"#;
    match EventIngester::new(Arc::new(Keys::generate())).process_message(text.to_string()) {
        Ok(ClientMessage::NegOpen(id, filter, initial)) => {
            assert_eq!(id, "s");
            assert_eq!(filter.kinds, Some(vec![1]));
            assert_eq!(initial, "6100");
        }
        _ => panic!("Expected NEG-OPEN message"),
    }
    match EventIngester::new(Arc::new(Keys::generate())).process_message(String::new()) {
        Err(IngesterError::JsonParseError(text)) => assert_eq!(text, "Empty message"),
        _ => panic!("Expected an error"),
    }
}
