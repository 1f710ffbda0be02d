use nostr_sdk::{EventBuilder, Keys};
use relay_builder::config::ScopeConfig;
use relay_builder::database::{
    after_failed_query, negentropy_items, scope_failure, total_count, StoreFailure,
};
use relay_builder::diagnostics::{
    detect_anomalies, log_health_check, retained_filters_text, scope_name, Anomaly,
    PreviousMeasurements, ScopeMetrics,
};
use relay_builder::error::Error;
use relay_builder::handlers::{
    default_relay_html, get_real_ip, ConnectionCounter, RelayHandlers, RelayInfo, RootResponse,
};
use relay_builder::nostr_handler::{
    connection_url, inbound_failure_reply, process_batch, Outgoing,
};
use relay_builder::protocol::{Event, EventId, PublicKey, RelayMessage, Scope};
use relay_builder::subscription_registry::{RegistryDiagnostics, ScopeDiagnostics};

fn some_event(content: &str) -> Event {
    let event = EventBuilder::text_note(content).sign_with_keys(&Keys::generate()).unwrap();
    Event {
        id: EventId { bytes: event.id.to_bytes() },
        pubkey: PublicKey { bytes: event.pubkey.to_bytes() },
        created_at: event.created_at.as_u64(),
        kind: event.kind.as_u16(),
        tags: event.tags.iter().map(|t| t.as_slice().to_vec()).collect(),
        content: event.content.clone(),
        sig: event.sig.serialize(),
    }
}

fn about() -> RelayInfo {
    RelayInfo {
        name: "Name".to_string(),
        description: "Words".to_string(),
        pubkey: "key".to_string(),
        contact: "someone".to_string(),
        supported_nips: vec![1, 42],
        software: "soft".to_string(),
        version: "2".to_string(),
        icon: Some("https://icon".to_string()),
    }
}

#[test]
fn the_address_of_a_client() {
    assert_eq!(get_real_ip(None, "10.0.0.1", 80), "10.0.0.1:80");
    assert_eq!(get_real_ip(Some(" 1.2.3.4 , 5.6.7.8"), "10.0.0.1", 80), "1.2.3.4:80");
    assert_eq!(get_real_ip(Some(""), "10.0.0.1", 80), ":80");
    assert_eq!(connection_url("10.0.0.1:80"), "ws://10.0.0.1:80");
}

#[test]
fn what_a_request_is_answered() {
    assert_eq!(RelayHandlers::root_response(true, None), RootResponse::Upgrade);
    assert_eq!(
        RelayHandlers::root_response(false, Some("application/nostr+json")),
        RootResponse::RelayInfo
    );
    assert_eq!(RelayHandlers::root_response(false, Some("text/html")), RootResponse::NotFound);
    assert_eq!(RelayHandlers::root_response(false, None), RootResponse::NotFound);
}

#[test]
fn requests_to_subdomains() {
    let handlers = RelayHandlers::new(about(), Some(4), ScopeConfig::subdomain(2));
    assert_eq!(handlers.relay_info().name, "Name");
    assert_eq!(handlers.connection_count(), Some(4));
    let subdomain = handlers.request_subdomain(Some("a.example.com"));
    assert_eq!(RelayHandlers::display_info(&subdomain), " @a");
    assert_eq!(RelayHandlers::display_info(&None), "");
    assert_eq!(handlers.request_subdomain(None), None);
    let opened = ConnectionCounter::new(Some(4));
    assert_eq!(opened.counter, Some(5));
    assert_eq!(ConnectionCounter::closed(opened.counter).counter, Some(4));
    assert_eq!(ConnectionCounter::new(None).counter, None);
}

#[test]
fn the_page_of_a_relay() {
    let page = default_relay_html(&about());
    assert!(page.starts_with("<!DOCTYPE html>"));
    assert!(page.contains("<title>Name - Nostr Relay</title>"));
    assert!(page.contains("https://icon"));
    assert!(page.contains("<span class=\"nip-badge\">NIP-1</span>"));
    assert!(page.contains("soft v2"));
}

#[test]
fn prepared_texts_are_used_unless_the_event_changed() {
    let first = some_event("first");
    let second = some_event("second");
    let id = first.id;
    let bring = |event: Event| {
        Some(RelayMessage::Event { subscription_id: "s".to_string(), event })
    };
    let texts = process_batch(vec![
        Outgoing {
            original_event_id: Some(id),
            message: bring(first),
            json: Some("prepared".to_string()),
        },
        Outgoing {
            original_event_id: Some(id),
            message: bring(second),
            json: Some("prepared".to_string()),
        },
        Outgoing { original_event_id: None, message: None, json: Some("gone".to_string()) },
        Outgoing {
            original_event_id: None,
            message: Some(RelayMessage::Notice("n".to_string())),
            json: None,
        },
    ]);
    assert_eq!(texts.len(), 3);
    assert_eq!(texts[0], "prepared");
    assert!(texts[1].contains("second"));
    assert_eq!(texts[2], r#"["NOTICE","n"]"#);
}

#[test]
fn a_failure_is_told_as_a_notice() {
    match inbound_failure_reply(&Error::internal("x")) {
        RelayMessage::Notice(text) => assert!(text.contains("x")),
        _ => panic!("Expected a notice"),
    }
}

fn backend(cause: &str, text: &str) -> StoreFailure {
    StoreFailure::Backend { cause: cause.to_string(), text: text.to_string() }
}

#[test]
fn failures_of_the_store() {
    assert!(after_failed_query(&backend("Not found: x", "t")).is_none());
    assert_eq!(
        after_failed_query(&backend("disk", "backend: disk")).unwrap().to_string(),
        "Database error: Database backend error: backend: disk"
    );
    let unsupported = StoreFailure::NotSupported { text: "no".to_string() };
    assert_eq!(
        after_failed_query(&unsupported).unwrap().to_string(),
        "Database error: Database operation not supported"
    );
    assert_eq!(total_count(&vec![Ok(2), Err(backend("", "NotFound")), Ok(5)]).unwrap(), 7);
    assert_eq!(
        total_count(&vec![Ok(2), Err(backend("", "disk"))]).unwrap_err().to_string(),
        "Database error: Failed to count events: disk"
    );
    let items = vec![(EventId { bytes: [1; 32] }, 9)];
    assert_eq!(negentropy_items(Ok(items)).unwrap().len(), 1);
    assert!(negentropy_items(Err(backend("", "Not found"))).unwrap().is_empty());
    assert!(negentropy_items(Err(backend("", "disk"))).is_err());
    assert!(scope_failure("bad").to_string().contains("bad"));
}

fn figures(scope: Scope, events: usize, filters: usize) -> ScopeDiagnostics {
    ScopeDiagnostics {
        scope,
        connection_count: 1,
        subscription_count: 2,
        filter_count: filters,
        tracked_events: events,
        authors_indexed: 3,
        kinds_indexed: 4,
        event_ids_indexed: 5,
        tags_indexed: 6,
    }
}

#[test]
fn changes_since_the_last_check() {
    let mut previous = PreviousMeasurements::new();
    let first = RegistryDiagnostics {
        total_connections: 2,
        scope_diagnostics: vec![
            figures(Scope::Default, 10, 1),
            figures(Scope::named("t").unwrap(), 20, 1),
        ],
        empty_scopes: vec![],
    };
    let report = log_health_check(&first, &mut previous);
    assert_eq!(report.conn_delta, 2);
    assert_eq!(report.total_subscriptions, 4);
    assert_eq!(report.sub_delta, 4);
    assert_eq!(report.authors_delta, 6);
    assert_eq!(report.events_deltas, vec![10, 20]);
    assert!(report.warnings.is_empty());
    let second = RegistryDiagnostics {
        total_connections: 1,
        scope_diagnostics: vec![figures(Scope::Default, 4, 1)],
        empty_scopes: vec![Scope::named("t").unwrap()],
    };
    let report = log_health_check(&second, &mut previous);
    assert_eq!(report.conn_delta, -1);
    assert_eq!(report.sub_delta, -2);
    assert_eq!(report.events_deltas, vec![-6]);
    assert_eq!(report.warnings.len(), 1);
    match &report.warnings[0] {
        Anomaly::RetainedFilters { scope, filter_count } => {
            assert_eq!(*scope, Scope::named("t").unwrap());
            assert_eq!(*filter_count, 1);
            assert_eq!(
                retained_filters_text(scope, *filter_count),
                "Scope 't' has 0 connections but 1 filters"
            );
        }
        _ => panic!("Expected retained filters"),
    }
    assert_eq!(scope_name(&Scope::Default), "Default");
}

#[test]
fn events_that_grow_faster_than_connections() {
    let mut previous = PreviousMeasurements::new();
    previous.scope_metrics.push((
        Scope::Default,
        ScopeMetrics { filter_count: 0, connection_count: 0, tracked_events: 100 },
    ));
    let now = |events| RegistryDiagnostics {
        total_connections: 1,
        scope_diagnostics: vec![figures(Scope::Default, events, 1)],
        empty_scopes: vec![],
    };
    assert!(detect_anomalies(&now(300), 2, &previous).is_empty());
    let found = detect_anomalies(&now(301), 2, &previous);
    assert!(matches!(
        found[0],
        Anomaly::GrowingEvents { events_delta: 201, conn_delta: 2 }
    ));
    assert!(detect_anomalies(&now(301), 0, &previous).is_empty());
}

#[test]
fn a_check_is_compared_with_the_one_before() {
    let mut previous = PreviousMeasurements::new();
    let check = |connections, events, filters, empty| RegistryDiagnostics {
        total_connections: connections,
        scope_diagnostics: vec![figures(Scope::named("t").unwrap(), events, filters)],
        empty_scopes: empty,
    };
    assert!(log_health_check(&check(1, 100, 1, vec![]), &mut previous).warnings.is_empty());
    let report = log_health_check(&check(2, 201, 1, vec![]), &mut previous);
    assert_eq!(report.events_deltas, vec![101]);
    assert_eq!(report.warnings.len(), 1);
    assert!(matches!(
        report.warnings[0],
        Anomaly::GrowingEvents { events_delta: 101, conn_delta: 1 }
    ));
    assert!(log_health_check(&check(3, 301, 1, vec![]), &mut previous).warnings.is_empty());
    // The filters of a scope without connections are those of the check itself.
    let empty = vec![Scope::named("t").unwrap()];
    assert!(log_health_check(&check(2, 301, 0, empty), &mut previous).warnings.is_empty());
    let empty = vec![Scope::named("t").unwrap()];
    let report = log_health_check(&check(2, 301, 4, empty), &mut previous);
    assert!(matches!(
        report.warnings[0],
        Anomaly::RetainedFilters { filter_count: 4, .. }
    ));
}

#[test]
fn figures_up_to_the_largest_are_compared() {
    let most = i64::MAX as usize;
    let mut previous = PreviousMeasurements::new();
    let check = |connections: usize, events: usize| RegistryDiagnostics {
        total_connections: connections,
        scope_diagnostics: vec![figures(Scope::Default, events, 1)],
        empty_scopes: vec![],
    };
    assert!(log_health_check(&check(0, 0), &mut previous).warnings.is_empty());
    let report = log_health_check(&check(most / 100, most), &mut previous);
    assert_eq!(report.events_deltas, vec![i64::MAX]);
    assert_eq!(report.conn_delta, (most / 100) as i64);
    assert_eq!(report.warnings.len(), 1);
}
