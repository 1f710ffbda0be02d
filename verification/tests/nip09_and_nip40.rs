use nostr_sdk::{EventBuilder, Keys, Kind, Tag, Timestamp};
use relay_builder::event_processor::StoreCommand;
use relay_builder::middlewares::nip09_deletion::{DeletionStep, Nip09Middleware};
use relay_builder::middlewares::nip40_expiration::{
    get_event_expiration, Nip40ExpirationMiddleware,
};
use relay_builder::error::Error;
use relay_builder::protocol::{ClientMessage, Event, EventId, PublicKey, RelayMessage, Scope};

fn kept_event(event: &nostr_sdk::Event) -> Event {
    Event {
        id: EventId { bytes: event.id.to_bytes() },
        pubkey: PublicKey { bytes: event.pubkey.to_bytes() },
        created_at: event.created_at.as_u64(),
        kind: event.kind.as_u16(),
        tags: event.tags.iter().map(|t| t.as_slice().to_vec()).collect(),
        content: event.content.clone(),
        sig: event.sig.serialize(),
    }
}

fn with_tags(keys: &Keys, kind: u16, tags: Vec<Tag>) -> Event {
    kept_event(
        &EventBuilder::new(Kind::from(kind), "test").tags(tags).sign_with_keys(keys).unwrap(),
    )
}

fn sdk_id(event: &Event) -> nostr_sdk::EventId {
    nostr_sdk::EventId::from_byte_array(event.id.bytes)
}

fn is_saved(command: &Option<StoreCommand>, id: EventId, scope: &Scope) -> bool {
    match command {
        Some(StoreCommand::SaveSignedEvent(event, s)) => event.id == id && s == scope,
        _ => false,
    }
}

#[test]
fn test_delete_event_with_matching_pubkey() {
    let keys = Keys::generate();
    let middleware = Nip09Middleware;
    let event_to_delete = with_tags(&keys, 1, vec![]);
    let deletion_request = with_tags(&keys, 5, vec![Tag::event(sdk_id(&event_to_delete))]);
    assert!(middleware.is_deletion_request(&Some(ClientMessage::Event(with_tags(&keys, 5, vec![])))));
    let (saved, steps) = middleware.handle_deletion_request(&deletion_request, &Scope::Default);
    assert!(is_saved(&saved, deletion_request.id, &Scope::Default));
    assert_eq!(steps.len(), 1);
    let id = match &steps[0] {
        DeletionStep::CheckOwner(id) => *id,
        _ => panic!("Expected an event"),
    };
    assert_eq!(id, event_to_delete.id);
    assert_eq!(middleware.owner_query(id).ids, Some(vec![id]));
    let command = middleware.handle_event_deletion(
        &deletion_request.pubkey,
        id,
        Some(event_to_delete.pubkey),
        &Scope::Default,
    );
    match command {
        Some(StoreCommand::DeleteEvents(filter, scope)) => {
            assert_eq!(filter.ids, Some(vec![event_to_delete.id]));
            assert_eq!(scope, Scope::Default);
        }
        _ => panic!("Event should be deleted"),
    }
}

#[test]
fn test_delete_event_with_different_pubkey() {
    let keys1 = Keys::generate();
    let keys2 = Keys::generate();
    let middleware = Nip09Middleware;
    let event_to_delete = with_tags(&keys2, 1, vec![]);
    let deletion_request = with_tags(&keys1, 5, vec![Tag::event(sdk_id(&event_to_delete))]);
    let (_, steps) = middleware.handle_deletion_request(&deletion_request, &Scope::Default);
    match &steps[0] {
        DeletionStep::CheckOwner(id) => assert!(middleware
            .handle_event_deletion(
                &deletion_request.pubkey,
                *id,
                Some(event_to_delete.pubkey),
                &Scope::Default
            )
            .is_none()),
        _ => panic!("Expected an event"),
    }
}

#[test]
fn test_delete_replaceable_event() {
    let keys = Keys::generate();
    let middleware = Nip09Middleware;
    let addr = format!("10002:{}:test", keys.public_key());
    let deletion_request = with_tags(&keys, 5, vec![Tag::parse(vec!["a", &addr]).unwrap()]);
    let (_, steps) = middleware.handle_deletion_request(&deletion_request, &Scope::Default);
    assert_eq!(steps.len(), 1);
    match &steps[0] {
        DeletionStep::DeleteAddress { kind, identifier } => {
            assert_eq!(*kind, 10002);
            assert_eq!(identifier, "test");
            let command = middleware.handle_address_deletion(
                &deletion_request.pubkey,
                *kind,
                identifier,
                &Scope::Default,
            );
            match command {
                StoreCommand::DeleteEvents(filter, _) => {
                    assert_eq!(filter.kinds, Some(vec![10002]));
                    assert_eq!(filter.authors, Some(vec![deletion_request.pubkey]));
                    assert_eq!(filter.generic_tags.len(), 1);
                    assert_eq!(filter.generic_tags[0].letter, 'd');
                    assert_eq!(filter.generic_tags[0].values, vec!["test".to_string()]);
                }
                _ => panic!("Expected a deletion"),
            }
        }
        _ => panic!("Expected an address"),
    }
}

#[test]
fn test_process_inbound_with_identifier_tag() {
    let keys = Keys::generate();
    let event = with_tags(&keys, 5, vec![Tag::parse(vec!["d", "test"]).unwrap()]);
    let (saved, steps) = Nip09Middleware.handle_deletion_request(&event, &Scope::Default);
    assert!(is_saved(&saved, event.id, &Scope::Default), "Event should have been saved");
    assert!(steps.is_empty());
}

#[test]
fn test_process_inbound_with_address_tag() {
    let keys = Keys::generate();
    let addr = format!("10002:{}:test", keys.public_key());
    let deletion_event = with_tags(&keys, 5, vec![Tag::parse(vec!["a", &addr]).unwrap()]);
    let scope = Scope::named("tenant").unwrap();
    let (saved, steps) = Nip09Middleware.handle_deletion_request(&deletion_event, &scope);
    assert!(is_saved(&saved, deletion_event.id, &scope), "Deletion event should be saved");
    assert_eq!(steps.len(), 1, "Replaceable event should be deleted");
}

#[test]
fn an_address_of_another_author_is_passed_over() {
    let keys = Keys::generate();
    let other = Keys::generate();
    let addr = format!("10002:{}:test", other.public_key());
    let short = format!("10002:{}", keys.public_key());
    let odd = format!("many:{}:test", keys.public_key());
    let tags = vec![
        Tag::parse(vec!["a", &addr]).unwrap(),
        Tag::parse(vec!["a", &short]).unwrap(),
        Tag::parse(vec!["a", &odd]).unwrap(),
        Tag::parse(vec!["e", "not an identifier"]).unwrap(),
    ];
    let request = with_tags(&keys, 5, tags);
    let (_, steps) = Nip09Middleware.handle_deletion_request(&request, &Scope::Default);
    assert!(steps.is_empty());
    assert!(!Nip09Middleware
        .is_deletion_request(&Some(ClientMessage::Event(with_tags(&keys, 1, vec![])))));
}

#[test]
fn what_a_deletion_request_is_answered() {
    let id = EventId { bytes: [2; 32] };
    match Nip09Middleware.answer(id, Ok(())) {
        RelayMessage::OkReply { event_id, status, .. } => {
            assert_eq!(event_id, id);
            assert!(status);
        }
        _ => panic!("Expected an answer"),
    }
    match Nip09Middleware.answer(id, Err(Error::database("full"))) {
        RelayMessage::OkReply { status, message, .. } => {
            assert!(!status);
            assert!(message.contains("full"));
        }
        _ => panic!("Expected an answer"),
    }
}

const NOW: u64 = 1_700_000_000;

fn expiring(at: u64) -> Event {
    with_tags(&Keys::generate(), 1234, vec![Tag::expiration(Timestamp::from(at))])
}

#[test]
fn test_expired_event_passes_through_inbound() {
    let middleware = Nip40ExpirationMiddleware::new();
    let event = expiring(NOW - 3600);
    let id = event.id;
    // The event goes on; what is stored of it is to be deleted.
    match middleware.process_inbound(&Some(ClientMessage::Event(event)), &Scope::Default, NOW) {
        Some(StoreCommand::DeleteEvents(filter, _)) => assert_eq!(filter.ids, Some(vec![id])),
        _ => panic!("Expected a deletion"),
    }
}

#[test]
fn test_non_expired_event_passes_through_inbound() {
    let middleware = Nip40ExpirationMiddleware::new();
    let message = Some(ClientMessage::Event(expiring(NOW + 3600)));
    assert!(middleware.process_inbound(&message, &Scope::Default, NOW).is_none());
}

#[test]
fn test_event_without_expiration_passes_through() {
    let middleware = Nip40ExpirationMiddleware::new();
    let message = Some(ClientMessage::Event(with_tags(&Keys::generate(), 1234, vec![])));
    assert!(middleware.process_inbound(&message, &Scope::Default, NOW).is_none());
}

#[test]
fn test_expired_event_filtered_outbound() {
    let middleware = Nip40ExpirationMiddleware::new();
    let message = RelayMessage::Event {
        subscription_id: "test_sub".to_string(),
        event: expiring(NOW - 3600),
    };
    assert!(middleware.process_outbound(Some(message), NOW).is_none());
}

#[test]
fn test_non_expired_event_passes_outbound() {
    let middleware = Nip40ExpirationMiddleware::new();
    let event = expiring(NOW + 3600);
    let id = event.id;
    let message = RelayMessage::Event { subscription_id: "test_sub".to_string(), event };
    match middleware.process_outbound(Some(message), NOW) {
        Some(RelayMessage::Event { event, .. }) => assert_eq!(event.id, id),
        _ => panic!("The message should still be present"),
    }
}

#[test]
fn test_get_expiration_timestamp() {
    assert_eq!(get_event_expiration(&expiring(NOW + 3600)), Some(NOW + 3600));
}

#[test]
fn test_get_expiration_timestamp_missing() {
    assert_eq!(get_event_expiration(&with_tags(&Keys::generate(), 1234, vec![])), None);
}

#[test]
fn an_event_expires_after_its_time() {
    let middleware = Nip40ExpirationMiddleware::new();
    let message = |event: Event| {
        Some(RelayMessage::Event { subscription_id: "s".to_string(), event })
    };
    let at = expiring(NOW);
    assert!(middleware.process_outbound(message(at), NOW - 1).is_some());
    assert!(middleware.process_outbound(message(expiring(NOW)), NOW + 1).is_none());
    let notice = Some(RelayMessage::Notice("n".to_string()));
    assert!(middleware.process_outbound(notice, NOW).is_some());
}

#[test]
fn an_expired_event_is_deleted_when_it_goes_out() {
    let middleware = Nip40ExpirationMiddleware::new();
    let event = expiring(NOW - 1);
    let id = event.id;
    let message = Some(RelayMessage::Event { subscription_id: "s".to_string(), event });
    let scope = Scope::named("t").unwrap();
    match middleware.lazy_deletion(&message, &scope, NOW) {
        Some(StoreCommand::DeleteEvents(filter, s)) => {
            assert_eq!(filter.ids, Some(vec![id]));
            assert_eq!(s, scope);
        }
        _ => panic!("Expected a deletion"),
    }
    assert!(middleware.lazy_deletion(&message, &scope, NOW - 1).is_none());
    assert!(middleware.lazy_deletion(&None, &scope, NOW).is_none());
}

#[test]
fn an_event_of_another_kind_deletes_nothing() {
    let keys = Keys::generate();
    let event = with_tags(&keys, 1, vec![]);
    let note = with_tags(&keys, 1, vec![Tag::event(sdk_id(&event))]);
    let (saved, steps) = Nip09Middleware.handle_deletion_request(&note, &Scope::Default);
    assert!(saved.is_none());
    assert!(steps.is_empty());
}
