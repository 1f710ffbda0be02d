use nostr_sdk::{JsonUtil, Keys};
use relay_builder::crypto::{BatchStats, CryptoHelper, CryptoWorker};
use relay_builder::event_processor::StoreCommand;
use std::sync::Arc;
use relay_builder::protocol::{Event, Filter, PublicKey, Scope, UnsignedEvent};

fn unsigned(keys: &Keys, content: &str) -> UnsignedEvent {
    UnsignedEvent {
        pubkey: PublicKey { bytes: keys.public_key().to_bytes() },
        created_at: 1_700_000_000,
        kind: 1,
        tags: vec![vec!["t".to_string(), "x".to_string()]],
        content: content.to_string(),
    }
}

fn verified_outside(event: &Event) -> bool {
    let lines = relay_builder::export_import::export_lines(&vec![event.copy()]);
    nostr_sdk::Event::from_json(&lines[0]).unwrap().verify().is_ok()
}

#[test]
fn crypto_helper_test_sign_event() {
    let keys = Arc::new(Keys::generate());
    let helper = CryptoHelper::new(Arc::clone(&keys));
    let signed_event = helper.sign_event(&unsigned(&keys, "Test message")).unwrap();
    assert!(verified_outside(&signed_event));
    assert_eq!(signed_event.pubkey.bytes, keys.public_key().to_bytes());
    assert_eq!(signed_event.content, "Test message");
}

#[test]
fn crypto_helper_test_verify_event() {
    let keys = Arc::new(Keys::generate());
    let helper = CryptoHelper::new(Arc::clone(&keys));
    let signed_event = helper.sign_event(&unsigned(&keys, "Test verification")).unwrap();
    assert!(helper.verify_event(&signed_event).is_ok());
    assert!(verified_outside(&signed_event));
}

#[test]
fn crypto_helper_test_invalid_event_verification() {
    let keys = Arc::new(Keys::generate());
    let helper = CryptoHelper::new(Arc::clone(&keys));
    let mut event = helper.sign_event(&unsigned(&keys, "Original content")).unwrap();
    event.content = "Modified content".to_string();
    let result = helper.verify_event(&event);
    assert!(result.is_err());
    assert!(result.unwrap_err().to_string().contains("Invalid event signature"));
}

#[test]
fn crypto_helper_test_concurrent_operations() {
    let keys = Arc::new(Keys::generate());
    let mut helper = CryptoHelper::new(Arc::clone(&keys));
    let commands: Vec<StoreCommand> = (0..50)
        .map(|i| {
            let event = unsigned(&keys, &format!("Test message {i}"));
            helper
                .sign_store_command(StoreCommand::SaveUnsignedEvent(event, Scope::Default))
                .unwrap()
        })
        .collect();
    let (results, report) = helper.run_sign_batch(commands);
    assert!(report.is_none());
    assert_eq!(helper.signed_count(), 50);
    let mut events: Vec<Event> = Vec::new();
    for (i, result) in results.into_iter().enumerate() {
        match result.unwrap() {
            StoreCommand::SaveSignedEvent(event, scope) => {
                assert_eq!(event.content, format!("Test message {i}"));
                assert_eq!(scope, Scope::Default);
                events.push(event);
            }
            _ => panic!("Expected a signed event"),
        }
    }
    events[3].content.push('!');
    let (outcomes, _) = helper.run_verify_batch(&events);
    assert_eq!(helper.verified_count(), 50);
    for (i, outcome) in outcomes.iter().enumerate() {
        assert_eq!(outcome.is_ok(), i != 3);
    }
}

#[test]
fn only_unsigned_events_are_signed() {
    let keys = Arc::new(Keys::generate());
    let mut helper = CryptoHelper::new(Arc::clone(&keys));
    match helper.sign_store_command(StoreCommand::DeleteEvents(Filter::new(), Scope::Default)) {
        Err(e) => assert_eq!(e.to_string(), "Internal error: Expected SaveUnsignedEvent command"),
        Ok(_) => panic!("Expected an error"),
    }
    let (results, _) = helper.run_sign_batch(vec![
        StoreCommand::DeleteEvents(Filter::new(), Scope::Default),
        StoreCommand::SaveUnsignedEvent(unsigned(&keys, "x"), Scope::named("t").unwrap()),
    ]);
    assert_eq!(results.len(), 1);
    assert_eq!(helper.signed_count(), 2);
}

#[test]
fn batches_are_reported_every_hundred() {
    let mut stats = BatchStats::new();
    for i in 0..100 {
        assert!(stats.record_batch(if i == 7 { 9 } else { 1 }).is_none());
    }
    let report = stats.record_batch(4).unwrap();
    assert_eq!(report.batches, 101);
    assert_eq!(report.average, 112 / 101);
    assert_eq!(report.maximum, 9);
    assert!(report.significantly_above_average);
    assert!(stats.record_batch(1).is_none());
}

#[test]
fn the_settings_of_the_workers() {
    let plain = CryptoWorker::spawn(None, None).unwrap();
    assert_eq!(plain.workers, 3);
    assert_eq!(plain.queue_size, 300);
    let set = CryptoWorker::spawn(Some("8"), Some("10")).unwrap();
    assert_eq!(set.workers, 8);
    assert_eq!(set.queue_size, 80);
    let odd = CryptoWorker::spawn(Some("many"), Some("5")).unwrap();
    assert_eq!(odd.queue_size, 15);
    assert!(CryptoWorker::spawn(Some("18446744073709551615"), Some("2")).is_none());
}

#[test]
fn the_identifier_and_the_signature_belong_to_the_event() {
    let keys = Arc::new(Keys::generate());
    let other = Keys::generate();
    let mut helper = CryptoHelper::new(Arc::clone(&keys));
    assert_eq!(helper.public_key().bytes, keys.public_key().to_bytes());
    let first = helper.sign_event(&unsigned(&keys, "same")).unwrap();
    let second = helper.sign_event(&unsigned(&keys, "same")).unwrap();
    assert_eq!(first.id, second.id);
    assert_ne!(first.id, helper.sign_event(&unsigned(&keys, "other")).unwrap().id);
    assert_eq!(first.tags, vec![vec!["t".to_string(), "x".to_string()]]);
    // An event of another author is signed too; the signature is not that author's.
    let foreign = helper.sign_event(&unsigned(&other, "same")).unwrap();
    assert_eq!(foreign.pubkey.bytes, other.public_key().to_bytes());
    assert!(helper.verify_event(&foreign).is_err());
    let (results, _) = helper.run_sign_batch(vec![StoreCommand::SaveUnsignedEvent(
        unsigned(&keys, "batch"),
        Scope::Default,
    )]);
    match results.into_iter().next() {
        Some(Ok(StoreCommand::SaveSignedEvent(event, _))) => {
            assert!(helper.verify_event(&event).is_ok())
        }
        _ => panic!("Expected a signed event"),
    }
}
