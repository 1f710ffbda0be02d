use nostr_sdk::{EventBuilder, Keys};
use relay_builder::metrics::{SubscriptionChange, SubscriptionMetricsHandler};
use relay_builder::protocol::{Event, EventId, Filter, PublicKey, RelayMessage, Scope};
use relay_builder::subscription_registry::{Delivery, SubscriptionRegistry};
use std::sync::atomic::{AtomicI64, Ordering};

fn text_note(content: &str, keys: &Keys) -> Event {
    let event = EventBuilder::text_note(content).sign_with_keys(keys).unwrap();
    Event {
        id: EventId { bytes: event.id.to_bytes() },
        pubkey: PublicKey { bytes: event.pubkey.to_bytes() },
        created_at: event.created_at.as_u64(),
        kind: event.kind.as_u16(),
        tags: event.tags.iter().map(|t| t.as_slice().to_vec()).collect(),
        content: event.content.clone(),
        sig: event.sig.serialize(),
    }
}

fn received(deliveries: &[Delivery], connection: &str) -> Option<(EventId, String)> {
    deliveries.iter().find(|d| d.connection_id == connection).map(|d| match &d.message {
        RelayMessage::Event { event, .. } => (event.id, event.content.clone()),
        _ => panic!("Expected Event message"),
    })
}

#[test]
fn test_connection_registration_and_cleanup() {
    let mut registry = SubscriptionRegistry::new();
    registry.register_connection("conn1", None, Scope::Default);
    assert!(registry.has_connection("conn1"));
    registry.cleanup_connection("conn1");
    assert!(!registry.has_connection("conn1"));
}

#[test]
fn test_subscription_management() {
    let mut registry = SubscriptionRegistry::new();
    registry.register_connection("conn1", None, Scope::Default);
    registry.add_subscription("conn1", "sub1", vec![Filter::new()]).unwrap();
    registry.remove_subscription("conn1", "sub1").unwrap();
}

#[test]
fn test_scope_aware_distribution() {
    let mut registry = SubscriptionRegistry::new();
    registry.register_connection("conn_default", None, Scope::Default);
    registry.register_connection("conn_tenant1", None, Scope::named("tenant1").unwrap());
    registry.add_subscription("conn_default", "sub_default", vec![Filter::new()]).unwrap();
    registry.add_subscription("conn_tenant1", "sub_tenant1", vec![Filter::new()]).unwrap();

    let keys = Keys::generate();
    let event = text_note("test message", &keys);
    let sent = registry.distribute_event_indexed(&event, &Scope::Default);
    assert_eq!(
        received(&sent, "conn_default").expect("Default scope connection should receive").0,
        event.id
    );
    assert!(received(&sent, "conn_tenant1").is_none(), "Named scope should NOT receive");

    let event2 = text_note("test message 2", &keys);
    let sent = registry.distribute_event_indexed(&event2, &Scope::named("tenant1").unwrap());
    assert!(received(&sent, "conn_default").is_none());
    assert_eq!(received(&sent, "conn_tenant1").expect("Named scope should receive").0, event2.id);
}

#[test]
fn test_multiple_named_scopes_isolation() {
    let mut registry = SubscriptionRegistry::new();
    for tenant in ["tenant1", "tenant2", "tenant3"] {
        registry.register_connection(
            &format!("conn_{tenant}"),
            None,
            Scope::named(tenant).unwrap(),
        );
    }
    registry.add_subscription("conn_tenant1", "sub1", vec![Filter::new()]).unwrap();
    registry.add_subscription("conn_tenant2", "sub2", vec![Filter::new()]).unwrap();
    registry.add_subscription("conn_tenant3", "sub3", vec![Filter::new()]).unwrap();

    let event = text_note("message for tenant2", &Keys::generate());
    let sent = registry.distribute_event_indexed(&event, &Scope::named("tenant2").unwrap());
    assert!(received(&sent, "conn_tenant1").is_none());
    assert!(received(&sent, "conn_tenant3").is_none());
    let (id, content) = received(&sent, "conn_tenant2").expect("tenant2 should receive its event");
    assert_eq!(id, event.id);
    assert_eq!(content, "message for tenant2");
}

#[test]
fn a_delivery_carries_its_text() {
    let mut registry = SubscriptionRegistry::new();
    registry.register_connection("c", None, Scope::Default);
    registry.add_subscription("c", "s", vec![Filter::new()]).unwrap();
    let event = text_note("hello", &Keys::generate());
    let sent = registry.distribute_event_indexed(&event, &Scope::Default);
    assert!(sent[0].json.starts_with(r#"["EVENT","s",{"#));
    assert!(sent[0].json.contains("hello"));
}

#[test]
fn changes_of_subscriptions_are_told() {
    let mut registry = SubscriptionRegistry::new();
    registry.register_connection("c", Some(PublicKey { bytes: [3; 32] }), Scope::Default);
    assert!(matches!(
        registry.add_subscription("c", "s", vec![Filter::new()]),
        Ok(SubscriptionChange::Added)
    ));
    assert!(matches!(
        registry.add_subscription("c", "s", vec![Filter::new()]),
        Ok(SubscriptionChange::Unchanged)
    ));
    assert!(matches!(
        registry.remove_subscription("c", "s"),
        Ok(SubscriptionChange::Removed(1))
    ));
    let (key, scope) = registry.get_connection_info("c").unwrap();
    assert_eq!(key, Some(PublicKey { bytes: [3; 32] }));
    assert_eq!(scope, Scope::Default);
    assert!(registry.get_connection_info("d").is_none());
    assert!(registry.add_subscription("d", "s", vec![Filter::new()]).is_err());
}

#[test]
fn a_connection_that_fails_is_gone() {
    let mut registry = SubscriptionRegistry::new();
    registry.register_connection("a", None, Scope::Default);
    registry.register_connection("b", None, Scope::Default);
    registry.add_subscription("a", "s", vec![Filter::new()]).unwrap();
    registry.add_subscription("b", "s", vec![Filter::new()]).unwrap();
    let sent = registry.distribute_event_indexed(&text_note("m", &Keys::generate()), &Scope::Default);
    assert_eq!(sent.len(), 2);
    let outcome: Vec<bool> = sent.iter().map(|d| d.connection_id != "a").collect();
    let changes = registry.settle_deliveries(&sent, &outcome);
    assert_eq!(changes.len(), 1);
    assert!(!registry.has_connection("a"));
    assert!(registry.has_connection("b"));
}

#[test]
fn the_figures_of_a_registry() {
    let mut registry = SubscriptionRegistry::new();
    registry.register_connection("a", None, Scope::Default);
    registry.register_connection("b", None, Scope::named("t").unwrap());
    registry.add_subscription("a", "s1", vec![Filter::new(), Filter::new()]).unwrap();
    registry.add_subscription("a", "s2", vec![Filter::new()]).unwrap();
    let figures = registry.get_diagnostics();
    assert_eq!(figures.total_connections, 2);
    let main = figures.scope_diagnostics.iter().find(|d| d.scope == Scope::Default).unwrap();
    assert_eq!(main.connection_count, 1);
    assert_eq!(main.subscription_count, 2);
    assert_eq!(main.filter_count, 3);
}

/// Keeps the number of active subscriptions.
struct Gauge(AtomicI64);

impl SubscriptionMetricsHandler for Gauge {
    fn increment_active_subscriptions(&self) {
        self.0.fetch_add(1, Ordering::Relaxed);
    }

    fn decrement_active_subscriptions(&self, count: usize) {
        self.0.fetch_sub(count as i64, Ordering::Relaxed);
    }
}

#[test]
fn reported_changes_add_up_to_the_active_subscriptions() {
    let gauge = Gauge(AtomicI64::new(0));
    let active = || gauge.0.load(Ordering::Relaxed);
    let mut registry = SubscriptionRegistry::new();
    for connection in ["a", "b", "c"] {
        registry.register_connection(connection, None, Scope::Default);
        for subscription in ["1", "2", "1"] {
            registry
                .add_subscription(connection, subscription, vec![Filter::new()])
                .unwrap()
                .report(&gauge);
        }
    }
    assert_eq!(active(), 6);
    registry.remove_subscription("a", "1").unwrap().report(&gauge);
    registry.remove_subscription("a", "1").unwrap().report(&gauge);
    assert_eq!(active(), 5);
    registry.cleanup_connection("b").report(&gauge);
    registry.cleanup_connection("b").report(&gauge);
    assert_eq!(active(), 3);
    let deliveries =
        registry.distribute_event_indexed(&text_note("x", &Keys::generate()), &Scope::Default);
    assert_eq!(deliveries.len(), 3);
    let sent: Vec<bool> = deliveries.iter().map(|d| d.connection_id == "a").collect();
    for change in registry.settle_deliveries(&deliveries, &sent) {
        change.report(&gauge);
    }
    assert_eq!(active(), 1);
    assert!(!registry.has_connection("c"));
    registry.cleanup_connection("a").report(&gauge);
    assert_eq!(active(), 0);
}

#[test]
fn whether_an_event_can_be_distributed_in_a_scope() {
    let tenant = Scope::named("tenant").unwrap();
    let mut registry = SubscriptionRegistry::new();
    registry.register_connection("a", None, tenant.copy());
    let mut filter = Filter::new();
    filter.search = Some(String::new());
    registry.add_subscription("a", "1", vec![filter]).unwrap();
    let event = text_note("x", &Keys::generate());
    assert!(registry.can_distribute(&event, &Scope::Default));
    assert!(!registry.can_distribute(&event, &tenant));
    registry.cleanup_connection("a");
    assert!(registry.can_distribute(&event, &tenant));
}
