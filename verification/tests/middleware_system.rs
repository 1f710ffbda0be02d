use relay_builder::config::ScopeConfig;
use relay_builder::error::Error;
use relay_builder::event_ingester::EventIngester;
use relay_builder::middleware_chain::{
    chain, on_connect_chain, on_disconnect_chain, process_inbound_chain, process_outbound_chain,
    Chain, InboundWalk,
};
use relay_builder::middlewares::error_handling::ErrorHandlingMiddleware;
use relay_builder::middlewares::logger::LoggerMiddleware;
use relay_builder::nostr_handler::NostrHandlerFactory;
use relay_builder::nostr_middleware::{Flow, MessageSender};
use relay_builder::protocol::{EventId, RelayMessage, Scope};
use std::sync::Arc;
use relay_builder::util::either::{Either, IdentityMiddleware};

#[test]
fn test_middleware_system_test_middleware_chain_creation() {
    let error_middleware = ErrorHandlingMiddleware::new();
    let logger_middleware = LoggerMiddleware::new();

    let _chain1 = chain().with(error_middleware.clone()).build();
    let _chain2 = chain().with(logger_middleware.clone()).build();

    let combined_chain = chain().with(error_middleware).with(logger_middleware).build();
    assert_eq!(combined_chain.inbound_route(), vec![1, 0]);
}

#[test]
fn test_message_sender_creation() {
    let sender = MessageSender::new(0);
    let notice = RelayMessage::Notice("Test message".to_string());
    let ok_msg = RelayMessage::OkReply {
        event_id: EventId { bytes: [0; 32] },
        status: true,
        message: "success".to_string(),
    };
    assert_eq!(sender.position(), 0);
    assert_eq!(sender.send(notice).position, 0);
    assert_eq!(sender.send_bypass(ok_msg).position, 1);
}

#[test]
fn test_middleware_traits() {
    let error_middleware = ErrorHandlingMiddleware::new();
    let logger_middleware = LoggerMiddleware::new();
    let _cloned_error = error_middleware.clone();
    let _cloned_logger = logger_middleware.clone();
    let _debug_error = format!("{error_middleware:?}");
    let _debug_logger = format!("{logger_middleware:?}");
}

#[test]
fn test_simple_middleware_test_middleware_chain_creation() {
    let _chain = chain().with(LoggerMiddleware::new()).with(ErrorHandlingMiddleware::new()).build();
}

#[test]
fn test_handler_factory_creation() {
    let _chain = chain().with(LoggerMiddleware::new()).with(ErrorHandlingMiddleware::new());
    let keys = Arc::new(nostr_sdk::Keys::generate());
    let _event_ingester = EventIngester::new(keys);
    let factory = NostrHandlerFactory::new(ScopeConfig::Disabled, 10_000);
    assert_eq!(factory.create(Some("a.example.com")), Scope::Default);
}

#[test]
fn messages_go_out_from_where_they_were_sent() {
    let built = chain().with("core").with("middle").with("outer").build();
    assert_eq!(built.inbound_route(), vec![2, 1, 0]);
    assert_eq!(built.disconnect_route(), vec![0, 1, 2]);
    assert_eq!(built.outbound_route(0), vec![0, 1, 2]);
    assert_eq!(built.outbound_route(1), vec![1, 2]);
    assert_eq!(built.outbound_route(2), vec![2]);
    let sender = MessageSender::new(1);
    let past = sender.send_bypass(RelayMessage::Notice("n".to_string()));
    assert_eq!(built.outbound_route(past.position), vec![2]);
}

#[test]
fn the_essentials_are_outermost() {
    let built = chain().with("core").with_essentials().build();
    assert_eq!(built.position, 2);
    assert_eq!(built.middleware, LoggerMiddleware);
    assert_eq!(built.next.middleware, ErrorHandlingMiddleware);
    assert_eq!(built.inbound_route(), vec![2, 1, 0]);
}

#[test]
fn senders_make_messages() {
    let sender = MessageSender::new(3);
    match sender.send_notice("hello").message {
        RelayMessage::Notice(text) => assert_eq!(text, "hello"),
        _ => panic!("Expected a notice"),
    }
    let ok = sender.send_ok(EventId { bytes: [4; 32] }, false, "no");
    assert_eq!(ok.position, 3);
    match ok.message {
        RelayMessage::OkReply { event_id, status, message } => {
            assert_eq!(event_id.bytes, [4; 32]);
            assert!(!status);
            assert_eq!(message, "no");
        }
        _ => panic!("Expected an answer"),
    }
    let known = sender.send_with_json(RelayMessage::Notice("x".to_string()), "{}".to_string());
    assert_eq!(known.json.as_deref(), Some("{}"));
}

#[test]
fn a_middleware_is_there_only_where_it_is_wanted() {
    assert!(matches!(Either::when(true, 1, IdentityMiddleware), Either::Left(1)));
    assert!(matches!(Either::when(false, 1, IdentityMiddleware), Either::Right(_)));
}

#[test]
fn each_middleware_sees_what_the_one_before_left() {
    let built = chain().with("core").with("middle").with("outer").build();
    let append = |position: usize, text: Option<String>| {
        (text.map(|t| format!("{t}{position}")), Ok(()))
    };
    let (left, result) = process_outbound_chain(&built, 0, Some(">".to_string()), append);
    assert_eq!(left.as_deref(), Some(">012"));
    assert!(result.is_ok());
    let (left, _) = process_outbound_chain(&built, 1, Some(">".to_string()), append);
    assert_eq!(left.as_deref(), Some(">12"));
    let (left, _) = process_outbound_chain(&built, 3, Some(">".to_string()), append);
    assert_eq!(left.as_deref(), Some(">"));
    let (left, result) = process_outbound_chain(&built, 0, None, append);
    assert!(left.is_none());
    assert!(result.is_ok());
}

#[test]
fn the_first_failure_ends_the_way_out() {
    let built = chain().with("core").with("middle").with("outer").build();
    let run = std::cell::RefCell::new(Vec::new());
    let (left, result) = process_outbound_chain(&built, 0, Some(7), |position, message| {
        run.borrow_mut().push(position);
        if position == 1 {
            (message, Err(Error::internal("middle")))
        } else {
            (message.map(|m: i32| m + 1), Ok(()))
        }
    });
    assert_eq!(left, Some(8));
    assert_eq!(result.unwrap_err().to_string(), "Internal error: middle");
    assert_eq!(*run.borrow(), vec![0, 1]);
}

#[test]
fn connections_begin_outside_and_end_inside() {
    let built = chain().with("core").with("middle").with("outer").build();
    let note = |position: usize, seen: Option<Vec<usize>>| {
        let mut seen = seen.unwrap();
        seen.push(position);
        if position == 0 && seen.len() == 3 {
            return (Some(seen), Err(Error::internal("core")));
        }
        (Some(seen), Ok(()))
    };
    let (seen, result) = on_connect_chain(&built, Some(vec![]), note);
    assert_eq!(seen.unwrap(), vec![2, 1, 0]);
    assert_eq!(result.unwrap_err().to_string(), "Internal error: core");
    let (seen, result) = on_disconnect_chain(&built, Some(vec![]), note);
    assert_eq!(seen.unwrap(), vec![0, 1, 2]);
    assert!(result.is_ok());
}

#[test]
fn a_middleware_decides_whether_the_next_one_runs() {
    let built = chain().with("core").with("middle").with("outer").build();
    let pass = |_: usize, result: Result<(), Error>| result;
    let run = std::cell::RefCell::new(Vec::new());
    // The core fails, the middle one hands the failure on, and the outer one answers it.
    let result = process_inbound_chain(
        &built,
        Some(1),
        |position, message: Option<i32>| {
            run.borrow_mut().push((position, message));
            match position {
                0 => (message, Flow::Fail(Error::internal("core"))),
                _ => (message.map(|m| m * 2), Flow::Next),
            }
        },
        |position, result| if position == 2 { Ok(()) } else { result },
    );
    assert!(result.is_ok());
    assert_eq!(*run.borrow(), vec![(2, Some(1)), (1, Some(2)), (0, Some(4))]);
    let failed = process_inbound_chain(
        &built,
        Some(1),
        |position, message: Option<i32>| match position {
            1 => (message, Flow::Fail(Error::restricted("no"))),
            0 => panic!("The core is not reached"),
            _ => (message, Flow::Next),
        },
        pass,
    );
    assert_eq!(failed.unwrap_err().to_string(), "Restricted: no");
    let done = process_inbound_chain(
        &built,
        Some(1),
        |position, message: Option<i32>| match position {
            2 => (None, Flow::Done),
            _ => panic!("{message:?} goes no further"),
        },
        |_, _| panic!("Nothing ran behind it"),
    );
    assert!(done.is_ok());
    assert!(process_inbound_chain(
        &built,
        Some(1),
        |_, message: Option<i32>| (message, Flow::Next),
        pass
    )
    .is_ok());
}

#[test]
fn the_way_of_a_message_inwards_and_back() {
    assert!(matches!(InboundWalk::start(0), InboundWalk::End(Ok(()))));
    assert!(matches!(InboundWalk::start(3), InboundWalk::Process(0)));
    assert!(matches!(InboundWalk::processed(3, 0, Flow::Next), InboundWalk::Process(1)));
    assert!(matches!(InboundWalk::processed(3, 2, Flow::Next), InboundWalk::After(2, Ok(()))));
    assert!(matches!(InboundWalk::processed(3, 0, Flow::Done), InboundWalk::End(Ok(()))));
    assert!(matches!(InboundWalk::processed(3, 2, Flow::Done), InboundWalk::After(1, Ok(()))));
    match InboundWalk::processed(3, 1, Flow::Fail(Error::restricted("no"))) {
        InboundWalk::After(0, Err(e)) => assert_eq!(e.to_string(), "Restricted: no"),
        _ => panic!("Expected the way back"),
    }
    assert!(matches!(InboundWalk::returned(1, Ok(())), InboundWalk::After(0, Ok(()))));
    assert!(matches!(
        InboundWalk::returned(0, Err(Error::restricted("no"))),
        InboundWalk::End(Err(_))
    ));
}
