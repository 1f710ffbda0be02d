use relay_builder::error::Error;
use relay_builder::middlewares::error_handling::{
    handle_inbound_error, ClientMessageId, ErrorHandlingMiddleware,
};
use relay_builder::nostr_middleware::Flow;
use relay_builder::protocol::{ClientMessage, EventId, Filter, RelayMessage};

const ZEROS: EventId = EventId { bytes: [0; 32] };

#[test]
fn test_client_message_id_event() {
    let event_id = ZEROS;
    let message_id = ClientMessageId::Event(event_id);
    match message_id {
        ClientMessageId::Event(id) => assert_eq!(id, event_id),
        _ => panic!("Expected Event variant"),
    }
}

#[test]
fn test_client_message_id_subscription() {
    let subscription_id = "test_sub".to_string();
    let message_id = ClientMessageId::Subscription(subscription_id.clone());
    match message_id {
        ClientMessageId::Subscription(id) => assert_eq!(id, subscription_id),
        _ => panic!("Expected Subscription variant"),
    }
}

#[test]
fn test_client_message_id_debug_impl() {
    let msg_id = ClientMessageId::Event(ZEROS);
    let debug_str = format!("{:?}", msg_id);
    assert!(debug_str.contains("Event"));

    let sub_id = ClientMessageId::Subscription("test".to_string());
    let debug_str = format!("{:?}", sub_id);
    assert!(debug_str.contains("Subscription"));
}

#[test]
fn test_error_handling_middleware_debug_impl() {
    let middleware = ErrorHandlingMiddleware::new();
    let debug_str = format!("{:?}", middleware);
    assert!(debug_str.contains("ErrorHandlingMiddleware"));
}

#[test]
fn test_error_message_formatting() {
    let event_id = ZEROS;

    let notice_error = Error::notice("Test notice");
    match &notice_error {
        Error::Notice { message, .. } => assert_eq!(message, "Test notice"),
        _ => panic!("Expected Notice error"),
    }

    let event_error = Error::event_error("Invalid signature", event_id);
    match &event_error {
        Error::EventError { message, event_id: id, .. } => {
            assert_eq!(message, "Invalid signature");
            assert_eq!(*id, event_id);
        }
        _ => panic!("Expected EventError"),
    }

    let sub_error = Error::subscription_error("Invalid filter", "sub1");
    match &sub_error {
        Error::SubscriptionError { message, subscription_id, .. } => {
            assert_eq!(message, "Invalid filter");
            assert_eq!(subscription_id, "sub1");
        }
        _ => panic!("Expected SubscriptionError"),
    }

    let auth_error = Error::auth_required("Authentication required");
    match &auth_error {
        Error::AuthRequired { message, .. } => assert_eq!(message, "Authentication required"),
        _ => panic!("Expected AuthRequired error"),
    }

    let restricted_error = Error::restricted("Access denied");
    match &restricted_error {
        Error::Restricted { message, .. } => assert_eq!(message, "Access denied"),
        _ => panic!("Expected Restricted error"),
    }
}

#[test]
fn test_relay_message_creation_for_errors() {
    let event_id = ZEROS;

    let ok_msg = handle_inbound_error(
        &Error::event_error("Invalid signature", event_id),
        ClientMessageId::Event(EventId { bytes: [9; 32] }),
    );
    match ok_msg {
        RelayMessage::OkReply { event_id: id, status, message } => {
            assert_eq!(id, event_id);
            assert!(!status);
            assert_eq!(message, "error: Invalid signature");
        }
        _ => panic!("Expected OK message"),
    }

    let closed_msg = handle_inbound_error(
        &Error::subscription_error("Invalid filter", "sub1"),
        ClientMessageId::Subscription("other".to_string()),
    );
    match closed_msg {
        RelayMessage::Closed { subscription_id, message } => {
            assert_eq!(subscription_id.as_str(), "sub1");
            assert_eq!(message, "error: Invalid filter");
        }
        _ => panic!("Expected Closed message"),
    }

    let notice_msg =
        handle_inbound_error(&Error::notice("Test notice"), ClientMessageId::Event(event_id));
    match notice_msg {
        RelayMessage::Notice(message) => assert_eq!(message, "Test notice"),
        _ => panic!("Expected Notice message"),
    }
}

fn told(error: Error) -> String {
    match handle_inbound_error(&error, ClientMessageId::Event(ZEROS)) {
        RelayMessage::OkReply { message, .. } => message,
        _ => panic!("Expected OK message"),
    }
}

#[test]
fn test_error_prefix_formatting() {
    let auth_msg = told(Error::auth_required("User not authenticated"));
    assert!(auth_msg.starts_with("auth-required: "));
    assert!(auth_msg.contains("User not authenticated"));

    let restricted_msg = told(Error::restricted("Access denied to group"));
    assert!(restricted_msg.starts_with("restricted: "));
    assert!(restricted_msg.contains("Access denied to group"));

    let error_msg = told(Error::database("Database connection failed"));
    assert!(error_msg.starts_with("error: "));
    assert!(error_msg.contains("Database connection failed"));
}

#[test]
fn errors_have_texts() {
    assert_eq!(Error::internal("a").to_string(), "Internal error: a");
    assert_eq!(Error::database("a").to_string(), "Database error: a");
    assert_eq!(Error::protocol("a").to_string(), "Protocol error: a");
    assert_eq!(Error::notice("a").to_string(), "Notice: a");
    assert_eq!(told(Error::protocol("bad")), "error: Protocol error: bad");
    assert_eq!(told(Error::duplicate("seen")), format!("error: {}", Error::duplicate("seen").to_string()));
}

#[test]
fn a_failure_is_answered_and_ends_there() {
    let middleware = ErrorHandlingMiddleware::new();
    let message = Some(ClientMessage::Req("sub".to_string(), Filter::new()));
    let about = middleware.process_inbound(&message).unwrap();
    let outcome = middleware.after_next(Err(Error::restricted("no")), about);
    assert!(matches!(outcome.flow, Flow::Done));
    assert_eq!(outcome.replies.len(), 1);
    match &outcome.replies[0] {
        RelayMessage::Closed { subscription_id, message } => {
            assert_eq!(subscription_id, "sub");
            assert_eq!(message, "restricted: no");
        }
        _ => panic!("Expected Closed message"),
    }
    assert!(middleware.process_inbound(&Some(ClientMessage::Count)).is_none());
    assert!(middleware.process_inbound(&None).is_none());
}
