use nostr_sdk::{EventBuilder, Keys, Tag};
use relay_builder::protocol::{Event, EventId, Filter, PublicKey, TagFilter};
use relay_builder::subscription_index::SubscriptionIndex;
use std::collections::HashSet;

fn plain_event(event: &nostr_sdk::Event) -> Event {
    Event {
        id: EventId { bytes: event.id.to_bytes() },
        pubkey: PublicKey { bytes: event.pubkey.to_bytes() },
        created_at: event.created_at.as_u64(),
        kind: event.kind.as_u16(),
        tags: event.tags.iter().map(|t| t.as_slice().to_vec()).collect(),
        content: event.content.clone(),
        sig: event.sig.serialize(),
    }
}

fn author_of(keys: &Keys) -> PublicKey {
    PublicKey { bytes: keys.public_key().to_bytes() }
}

fn by_author(keys: &Keys) -> Filter {
    let mut filter = Filter::new();
    filter.authors = Some(vec![author_of(keys)]);
    filter
}

fn by_kind(kind: u16) -> Filter {
    let mut filter = Filter::new();
    filter.kinds = Some(vec![kind]);
    filter
}

fn by_tag(letter: char, value: &str) -> Filter {
    let mut filter = Filter::new();
    filter.generic_tags = vec![TagFilter { letter, values: vec![value.to_string()] }];
    filter
}

fn signed(content: &str, keys: &Keys) -> Event {
    plain_event(&EventBuilder::text_note(content).sign_with_keys(keys).unwrap())
}

#[test]
fn test_index_creation() {
    let index = SubscriptionIndex::new();
    let stats = index.stats();
    assert_eq!(stats.total_filters, 0);
    assert_eq!(stats.total_subscriptions, 0);
}

#[test]
fn test_add_remove_subscription() {
    let mut index = SubscriptionIndex::new();
    let filters = vec![by_author(&Keys::generate()), by_kind(1)];
    index.add_subscription("conn1", "sub1", filters);

    let stats = index.stats();
    assert_eq!(stats.total_filters, 2);
    assert_eq!(stats.total_subscriptions, 1);

    index.remove_subscription("conn1", "sub1");

    let stats = index.stats();
    assert_eq!(stats.total_filters, 0);
    assert_eq!(stats.total_subscriptions, 0);
}

#[test]
fn test_event_distribution() {
    let mut index = SubscriptionIndex::new();
    let keys = Keys::generate();
    let mut filter = by_author(&keys);
    filter.kinds = Some(vec![1]);
    index.add_subscription("conn1", "sub1", vec![filter]);

    let event = signed("Test message", &keys);

    let matches = index.distribute_event(&event);
    assert_eq!(matches.len(), 1);
    assert_eq!(matches[0].0, "conn1");
    assert_eq!(matches[0].1, "sub1");

    // The same event again does not match
    let matches = index.distribute_event(&event);
    assert_eq!(matches.len(), 0);
}

#[test]
fn test_multiple_subscriptions() {
    let mut index = SubscriptionIndex::new();
    let keys = Keys::generate();
    index.add_subscription("conn1", "sub1", vec![by_author(&keys)]);
    index.add_subscription("conn2", "sub2", vec![by_kind(1)]);
    index.add_subscription("conn3", "sub3", vec![by_author(&Keys::generate())]);

    let event = signed("Test message", &keys);
    let matches = index.distribute_event(&event);
    assert_eq!(matches.len(), 2);

    let match_ids: HashSet<_> = matches.iter().map(|(c, s)| (c.as_str(), s.as_str())).collect();
    assert!(match_ids.contains(&("conn1", "sub1")));
    assert!(match_ids.contains(&("conn2", "sub2")));
    assert!(!match_ids.contains(&("conn3", "sub3")));
}

#[test]
fn test_tag_indexing() {
    let mut index = SubscriptionIndex::new();
    index.add_subscription("conn1", "sub1", vec![by_tag('t', "nostr")]);

    let event = EventBuilder::text_note("Test #nostr message")
        .tags(vec![Tag::hashtag("nostr")])
        .sign_with_keys(&Keys::generate())
        .unwrap();
    let matches = index.distribute_event(&plain_event(&event));
    assert_eq!(matches.len(), 1);

    let event2 = signed("Test message", &Keys::generate());
    let matches = index.distribute_event(&event2);
    assert_eq!(matches.len(), 0);
}

#[test]
fn a_removed_subscription_receives_nothing() {
    let mut index = SubscriptionIndex::new();
    let keys = Keys::generate();
    index.add_subscription("conn1", "sub1", vec![by_kind(1)]);
    index.add_subscription("conn2", "sub1", vec![by_kind(1)]);
    index.remove_subscription("conn1", "sub1");
    let matches = index.distribute_event(&signed("m", &keys));
    assert_eq!(matches, vec![("conn2".to_string(), "sub1".to_string())]);
}

#[test]
fn a_subscription_keeps_its_filters_when_more_are_added() {
    let mut index = SubscriptionIndex::new();
    let keys = Keys::generate();
    index.add_subscription("conn1", "sub1", vec![by_kind(1)]);
    index.add_subscription("conn1", "sub1", vec![by_kind(7), by_kind(8)]);
    let stats = index.stats();
    assert_eq!(stats.total_subscriptions, 1);
    assert_eq!(stats.total_filters, 3);
    assert_eq!(index.distribute_event(&signed("m", &keys)).len(), 1);
}

#[test]
fn filters_that_overlap_deliver_once() {
    let mut index = SubscriptionIndex::new();
    let keys = Keys::generate();
    index.add_subscription("conn1", "sub1", vec![by_kind(1), by_author(&keys), Filter::new()]);
    assert_eq!(index.distribute_event(&signed("m", &keys)).len(), 1);
}

#[test]
fn every_condition_of_a_filter_counts() {
    let mut index = SubscriptionIndex::new();
    let keys = Keys::generate();
    let event = signed("Some Words", &keys);
    let mut since = Filter::new();
    since.since = Some(event.created_at + 1);
    let mut until = Filter::new();
    until.until = Some(event.created_at);
    let mut id = Filter::new();
    id.ids = Some(vec![event.id]);
    let mut search = Filter::new();
    search.search = Some("some words".to_string());
    let mut missing = Filter::new();
    missing.search = Some("others".to_string());
    index.add_subscription("c", "since", vec![since]);
    index.add_subscription("c", "until", vec![until]);
    index.add_subscription("c", "id", vec![id]);
    index.add_subscription("c", "search", vec![search]);
    index.add_subscription("c", "missing", vec![missing]);
    let found: HashSet<String> =
        index.distribute_event(&event).into_iter().map(|(_, s)| s).collect();
    let expected: HashSet<String> =
        ["until", "id", "search"].iter().map(|s| s.to_string()).collect();
    assert_eq!(found, expected);
}

#[test]
fn the_figures_of_an_index() {
    let mut index = SubscriptionIndex::new();
    let keys = Keys::generate();
    let mut id = Filter::new();
    id.ids = Some(vec![EventId { bytes: [1; 32] }, EventId { bytes: [2; 32] }]);
    index.add_subscription("c", "a", vec![by_author(&keys), id]);
    index.add_subscription("c", "b", vec![by_kind(1), by_tag('t', "x")]);
    let stats = index.stats();
    assert_eq!(stats.authors_indexed, 1);
    assert_eq!(stats.kinds_indexed, 1);
    assert_eq!(stats.event_ids_indexed, 2);
    assert_eq!(stats.tags_indexed, 1);
    assert_eq!(stats.tracked_events, 0);
    index.distribute_event(&signed("m", &keys));
    assert!(index.stats().tracked_events > 0);
}

#[test]
fn an_added_and_removed_subscription_leaves_no_trace() {
    let keys = Keys::generate();
    let mut index = SubscriptionIndex::new();
    index.add_subscription("a", "1", vec![by_kind(1), by_tag('t', "x")]);
    index.distribute_event(&signed("first", &keys));
    let figures = |index: &SubscriptionIndex| {
        let s = index.stats();
        [
            s.total_filters,
            s.total_subscriptions,
            s.authors_indexed,
            s.kinds_indexed,
            s.event_ids_indexed,
            s.tags_indexed,
            s.tracked_events,
        ]
    };
    let before = figures(&index);
    assert_eq!(before, [2, 1, 0, 1, 0, 1, 1]);
    index.add_subscription("b", "2", vec![by_author(&keys), by_kind(7), Filter::new()]);
    assert_eq!(figures(&index), [5, 2, 1, 2, 0, 1, 1]);
    index.remove_subscription("b", "2");
    assert_eq!(figures(&index), before);
    index.remove_subscription("b", "2");
    assert_eq!(figures(&index), before);
    let sent = index.distribute_event(&signed("second", &keys));
    assert_eq!(sent, vec![("a".to_string(), "1".to_string())]);
}

#[test]
fn an_empty_search_text_has_no_answer() {
    let keys = Keys::generate();
    let mut index = SubscriptionIndex::new();
    let mut filter = by_kind(1);
    filter.search = Some(String::new());
    index.add_subscription("a", "1", vec![by_author(&keys), filter]);
    let event = signed("text", &keys);
    assert!(!index.can_distribute(&event));
    let reaction = plain_event(
        &EventBuilder::new(nostr_sdk::Kind::from(7u16), "+").sign_with_keys(&keys).unwrap(),
    );
    assert!(index.can_distribute(&reaction));
    assert_eq!(index.distribute_event(&reaction).len(), 1);
    index.remove_subscription("a", "1");
    assert!(index.can_distribute(&event));
    let mut words = by_kind(1);
    words.search = Some("tex".to_string());
    index.add_subscription("a", "1", vec![words]);
    assert!(index.can_distribute(&event));
    assert_eq!(index.distribute_event(&event).len(), 1);
}
