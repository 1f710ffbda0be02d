use governor::{DefaultDirectRateLimiter, DefaultKeyedRateLimiter, Quota, RateLimiter};
use relay_builder::error::Error;
use relay_builder::middlewares::rate_limit::{RateLimitMiddleware, RateStep};
use relay_builder::nostr_middleware::{Flow, Outcome};
use std::num::NonZeroU32;

fn per_second(n: u32) -> Quota {
    Quota::per_second(NonZeroU32::new(n).unwrap())
}

fn pass(
    middleware: &RateLimitMiddleware,
    connections: &DefaultKeyedRateLimiter<String>,
    global: Option<&DefaultDirectRateLimiter>,
    connection: &str,
) -> Outcome {
    let mut step = middleware.process_inbound();
    if let RateStep::CheckGlobal = step {
        step = middleware.after_global(global.unwrap().check().is_ok());
    }
    match step {
        RateStep::CheckConnection => {
            middleware.after_connection(connections.check_key(&connection.to_string()).is_ok())
        }
        RateStep::Decided(outcome) => outcome,
        RateStep::CheckGlobal => panic!("The budget of the relay is asked once"),
    }
}

fn is_limited(outcome: &Outcome) -> bool {
    match &outcome.flow {
        Flow::Fail(Error::Restricted { message }) => {
            assert!(message.contains("rate limit"));
            true
        }
        _ => false,
    }
}

#[test]
fn test_allows_requests_within_rate_limit() {
    let middleware = RateLimitMiddleware::new();
    let connections = RateLimiter::keyed(per_second(10));
    assert!(!is_limited(&pass(&middleware, &connections, None, "test_connection_1")));
}

#[test]
fn test_rejects_requests_exceeding_rate_limit() {
    let middleware = RateLimitMiddleware::new();
    let connections = RateLimiter::keyed(per_second(1));
    assert!(!is_limited(&pass(&middleware, &connections, None, "test_connection_2")));
    assert!(is_limited(&pass(&middleware, &connections, None, "test_connection_2")));
}

#[test]
fn test_different_connections_have_independent_limits() {
    let middleware = RateLimitMiddleware::new();
    let connections = RateLimiter::keyed(per_second(2));
    for _ in 0..2 {
        assert!(!is_limited(&pass(&middleware, &connections, None, "conn1")));
        assert!(!is_limited(&pass(&middleware, &connections, None, "conn2")));
    }
}

#[test]
fn test_global_rate_limit() {
    let middleware = RateLimitMiddleware::with_global_limit();
    let connections = RateLimiter::keyed(per_second(10));
    let global = RateLimiter::direct(per_second(2));
    assert!(!is_limited(&pass(&middleware, &connections, Some(&global), "conn1")));
    assert!(!is_limited(&pass(&middleware, &connections, Some(&global), "conn2")));
    let third = pass(&middleware, &connections, Some(&global), "conn1");
    assert!(is_limited(&third));
    match third.flow {
        Flow::Fail(e) => assert_eq!(e.to_string(), "Restricted: global rate limit exceeded"),
        _ => panic!("Expected an error"),
    }
}
