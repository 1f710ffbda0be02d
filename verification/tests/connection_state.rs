use relay_builder::protocol::{PublicKey, RelayMessage, Scope};
use relay_builder::state::{ConnectionMetadata, NostrConnectionState};

#[test]
fn test_subscription_quota_replacement() {
    let mut state = NostrConnectionState::<()>::new().unwrap();
    state.set_max_subscriptions(Some(2));

    // Add two subscriptions (reach limit)
    assert!(state.reserve_quota_slot("sub1").is_ok());
    assert!(state.reserve_quota_slot("sub2").is_ok());
    assert_eq!(state.subscription_count(), 2);

    // Replacing an existing subscription does not count against the limit
    assert!(state.reserve_quota_slot("sub1").is_ok());
    assert_eq!(state.subscription_count(), 2);

    // A new subscription fails at the limit
    let result = state.reserve_quota_slot("sub3");
    assert!(result.is_err());
    assert!(result.unwrap_err().to_string().contains("quota exceeded"));

    // After one is gone, a new one finds room
    assert!(state.release_quota_slot("sub1"));
    assert_eq!(state.subscription_count(), 1);
    assert!(state.reserve_quota_slot("sub3").is_ok());
    assert_eq!(state.subscription_count(), 2);
}

#[test]
fn test_subscription_quota_no_limit() {
    let mut state = NostrConnectionState::<()>::new().unwrap();
    for i in 0..100 {
        let sub_id = format!("sub{i}");
        assert!(state.reserve_quota_slot(&sub_id).is_ok());
    }
    assert_eq!(state.subscription_count(), 100);
}

#[test]
fn test_subscription_quota_replacement_same_id() {
    let mut state = NostrConnectionState::<()>::new().unwrap();
    state.set_max_subscriptions(Some(1));

    assert!(state.reserve_quota_slot("nak").is_ok());
    assert_eq!(state.subscription_count(), 1);

    assert!(state.reserve_quota_slot("nak").is_ok());
    assert_eq!(state.subscription_count(), 1);

    assert!(state.reserve_quota_slot("other").is_err());
}

#[test]
fn the_refusal_names_the_numbers() {
    let mut state = NostrConnectionState::<u8>::with_custom(3).unwrap();
    assert_eq!(state.custom_state, 3);
    state.set_max_subscriptions(Some(1));
    state.reserve_quota_slot("a").unwrap();
    assert_eq!(
        state.reserve_quota_slot("b").unwrap_err().to_string(),
        "Restricted: Subscription quota exceeded: 1/1"
    );
    assert!(!state.can_accept_subscription());
    assert_eq!(state.remaining_subscription_capacity(), Some(0));
    assert!(!state.release_quota_slot("b"));
    state.set_max_subscriptions(None);
    assert_eq!(state.remaining_subscription_capacity(), None);
    assert!(state.can_accept_subscription());
}

#[test]
fn a_pending_challenge_is_kept() {
    let mut state = NostrConnectionState::<()>::new().unwrap();
    let first = match state.get_challenge_event() {
        RelayMessage::Auth { challenge } => challenge,
        _ => panic!("Expected a challenge"),
    };
    assert!(first.parse::<u64>().is_ok());
    match state.get_challenge_event() {
        RelayMessage::Auth { challenge } => assert_eq!(challenge, first),
        _ => panic!("Expected a challenge"),
    }
    let key = PublicKey { bytes: [7; 32] };
    let mut metadata = ConnectionMetadata::new_with_context(
        "wss://relay.example.com",
        Scope::named("tenant").unwrap(),
        PublicKey { bytes: [1; 32] },
    );
    state.set_authenticated(key, &mut metadata);
    assert!(state.is_authenticated());
    assert!(state.challenge.is_none());
    assert_eq!(metadata.event_context.authed_pubkey, Some(key));
    match state.get_challenge_event() {
        RelayMessage::Auth { challenge } => assert_ne!(challenge, first),
        _ => panic!("Expected a challenge"),
    }
}

#[test]
fn a_connection_is_set_up_once_it_has_settings() {
    let mut state = NostrConnectionState::<()>::new().unwrap();
    match state.subscription_coordinator() {
        Err(e) => {
            assert_eq!(e.to_string(), "Internal error: No subscription coordinator available")
        }
        Ok(_) => panic!("Expected an error"),
    }
    state.setup_connection("conn", &Scope::Default, None);
    match state.subscription_coordinator() {
        Ok(settings) => {
            assert_eq!(settings.connection_id, "conn");
            assert_eq!(settings.max_limit, 1000);
        }
        Err(_) => panic!("Expected settings"),
    }
}

#[test]
fn a_copy_of_a_state_has_no_sessions() {
    let mut state = NostrConnectionState::<u8>::with_custom(7).unwrap();
    state.set_max_subscriptions(Some(4));
    state.reserve_quota_slot("a").unwrap();
    state.setup_connection("conn", &Scope::Default, Some(9));
    let copy = state.clone();
    assert_eq!(copy.custom_state, 7);
    assert_eq!(copy.max_subscriptions, Some(4));
    assert_eq!(copy.subscription_count(), 1);
    assert_eq!(copy.coordinator.unwrap().max_limit, 9);
    assert_eq!(copy.negentropy_subscriptions.len(), 0);
    assert_eq!(NostrConnectionState::<u8>::default().custom_state, 0);
}
