use nostr_sdk::{EventBuilder, JsonUtil, Keys, RelayUrl};
use relay_builder::message_converter::NostrMessageConverter;
use relay_builder::protocol::{ClientMessage, Event, EventId, PublicKey, RelayMessage};

fn own_event(event: &nostr_sdk::Event) -> Event {
    Event {
        id: EventId { bytes: event.id.to_bytes() },
        pubkey: PublicKey { bytes: event.pubkey.to_bytes() },
        created_at: event.created_at.as_u64(),
        kind: event.kind.as_u16(),
        tags: event.tags.iter().map(|t| t.as_slice().to_vec()).collect(),
        content: event.content.clone(),
        sig: event.sig.serialize(),
    }
}

fn text_of(message: RelayMessage) -> String {
    String::from_utf8(NostrMessageConverter.outbound_to_bytes(&message)).unwrap()
}

#[test]
fn test_outbound_to_bytes() {
    let keys = Keys::generate();
    let event = EventBuilder::text_note("Hello").sign_with_keys(&keys).unwrap();
    let json = text_of(RelayMessage::Event {
        subscription_id: "test".to_string(),
        event: own_event(&event),
    });
    assert!(json.contains("EVENT"));
    assert!(json.contains("test"));

    let json = text_of(RelayMessage::Notice("Test notice".to_string()));
    assert!(json.contains("NOTICE"));
    assert!(json.contains("Test notice"));

    let json = text_of(RelayMessage::EndOfStoredEvents("sub1".to_string()));
    assert!(json.contains("EOSE"));
    assert!(json.contains("sub1"));

    let json = text_of(RelayMessage::OkReply {
        event_id: EventId { bytes: [0; 32] },
        status: true,
        message: "saved".to_string(),
    });
    assert!(json.contains("OK"));
    assert!(json.contains("true"));
    assert!(json.contains("saved"));
}

#[test]
fn test_inbound_from_bytes_valid_messages() {
    let converter = NostrMessageConverter;

    let keys = Keys::generate();
    let event = EventBuilder::text_note("Test").sign_with_keys(&keys).unwrap();
    let event_json = format!(r#"["EVENT", {}]"#, event.as_json());
    let result = converter.inbound_from_bytes(event_json.as_bytes()).unwrap();
    assert!(result.is_some());
    if let Some(ClientMessage::Event(parsed_event)) = result {
        assert_eq!(parsed_event.id.bytes, event.id.to_bytes());
    } else {
        panic!("Expected EVENT message");
    }

    let req_json = r#"["REQ", "sub1", {"kinds": [1], "limit": 10}]"#;
    let result = converter.inbound_from_bytes(req_json.as_bytes()).unwrap();
    assert!(result.is_some());
    if let Some(ClientMessage::Req(subscription_id, filter)) = result {
        assert_eq!(subscription_id.as_str(), "sub1");
        assert!(filter.kinds.as_ref().unwrap().contains(&1));
        assert_eq!(filter.limit, Some(10));
    } else {
        panic!("Expected REQ message");
    }

    let close_json = r#"["CLOSE", "sub1"]"#;
    let result = converter.inbound_from_bytes(close_json.as_bytes()).unwrap();
    assert!(result.is_some());
    if let Some(ClientMessage::Close(sub_id)) = result {
        assert_eq!(sub_id.as_str(), "sub1");
    } else {
        panic!("Expected CLOSE message");
    }
}

#[test]
fn test_inbound_from_bytes_empty_message() {
    let converter = NostrMessageConverter;
    let result = converter.inbound_from_bytes(&[]).unwrap();
    assert!(result.is_none());
    let result = converter.inbound_from_bytes("   \n\t  ".as_bytes()).unwrap();
    assert!(result.is_none());
}

#[test]
fn test_inbound_from_bytes_invalid_json() {
    let converter = NostrMessageConverter;

    let result = converter.inbound_from_bytes(b"not json");
    assert!(result.is_err());
    assert!(result.unwrap_err().to_string().contains("Failed to parse client message"));

    let result = converter.inbound_from_bytes(br#"{"invalid": "format"}"#);
    assert!(result.is_err());

    let result = converter.inbound_from_bytes(br#"["UNKNOWN", "data"]"#);
    assert!(result.is_err());

    let invalid_utf8 = &[0xFF, 0xFE];
    let result = converter.inbound_from_bytes(invalid_utf8).unwrap();
    assert!(result.is_none());
}

#[test]
fn test_auth_message() {
    let converter = NostrMessageConverter;
    let keys = Keys::generate();
    let relay_url = RelayUrl::parse("wss://relay.example.com").unwrap();
    let auth_event = EventBuilder::auth("challenge", relay_url).sign_with_keys(&keys).unwrap();
    let auth_json = format!(r#"["AUTH", {}]"#, auth_event.as_json());

    let result = converter.inbound_from_bytes(auth_json.as_bytes()).unwrap();
    assert!(result.is_some());
    if let Some(ClientMessage::Auth(event)) = result {
        assert_eq!(event.kind, 22242);
    } else {
        panic!("Expected AUTH message");
    }
}

#[test]
fn the_texts_of_messages() {
    assert_eq!(text_of(RelayMessage::Notice("a \"b\"".to_string())), r#"["NOTICE","a \"b\""]"#);
    assert_eq!(
        text_of(RelayMessage::Closed {
            subscription_id: "s".to_string(),
            message: "error: x".to_string(),
        }),
        r#"["CLOSED","s","error: x"]"#
    );
    assert_eq!(text_of(RelayMessage::Auth { challenge: "c".to_string() }), r#"["AUTH","c"]"#);
    assert_eq!(
        text_of(RelayMessage::NegErr {
            subscription_id: "s".to_string(),
            message: "m".to_string(),
        }),
        r#"["NEG-ERR","s","m"]"#
    );
}

#[test]
fn reconciliation_messages_are_parsed() {
    let converter = NostrMessageConverter;
    let text = r#"["NEG-OPEN","s",{"kinds":[1]},"6100"]"#;
    match converter.inbound_from_bytes(text.as_bytes()).unwrap() {
        Some(ClientMessage::NegOpen(id, filter, initial)) => {
            assert_eq!(id, "s");
            assert_eq!(filter.kinds, Some(vec![1]));
            assert_eq!(initial, "6100");
        }
        _ => panic!("Expected NEG-OPEN message"),
    }
    match converter.inbound_from_bytes(br#"["NEG-CLOSE","s"]"#).unwrap() {
        Some(ClientMessage::NegClose(id)) => assert_eq!(id, "s"),
        _ => panic!("Expected NEG-CLOSE message"),
    }
}
