use relay_builder::id_set::IdSet;
use relay_builder::lmdb_integrity::{
    check_integrity, extract_event_id_from_key, get_all_event_ids, is_expected_database,
    sort_databases, unknown_names, DatabaseKeys,
};
use relay_builder::lmdb_keys::{
    common_names, entry_text, explained_key, parse_key, scoped_key_hash, select_databases,
    shown_count, value_label, FieldValue, KeyField, ScopeRegistry,
};
use relay_builder::negentropy_sync::{
    auth_secret_key, is_periodic, next_backoff, sync_filter, sync_scope, SyncMode, SyncStats,
};
use relay_builder::protocol::{EventId, Scope};

fn scoped(hash: u32, inner: &[u8]) -> Vec<u8> {
    let mut key = hash.to_be_bytes().to_vec();
    key.extend((inner.len() as u64).to_be_bytes());
    key.extend(inner);
    key
}

fn time_key(time: u64, id: [u8; 32]) -> Vec<u8> {
    let mut key = (u64::MAX - time).to_be_bytes().to_vec();
    key.extend(id);
    key
}

fn shown(fields: &[KeyField]) -> Vec<String> {
    fields
        .iter()
        .map(|f| {
            let value = match &f.value {
                FieldValue::Text(text) => text.clone(),
                FieldValue::Number(n) => n.to_string(),
                FieldValue::Flag => "true".to_string(),
            };
            format!("{}={}", f.name, value)
        })
        .collect()
}

fn registry() -> ScopeRegistry {
    let mut scopes = ScopeRegistry::new();
    scopes.note(b"tenant", &[0, 0, 1, 2]);
    scopes.note(b"short", &[1]);
    scopes.note(&[0xff], &[9, 9, 9, 9]);
    scopes
}

#[test]
fn the_scopes_of_a_store() {
    let scopes = registry();
    assert_eq!(scopes.get(258), Some("tenant".to_string()));
    assert_eq!(scopes.get(1), None);
    assert_eq!(scopes.get(0x0909_0909), None);
}

#[test]
fn keys_by_time() {
    let scopes = registry();
    let key = time_key(1000, [0xab; 32]);
    let fields = parse_key(&key, "ci", &scopes).unwrap();
    assert_eq!(
        shown(&fields),
        vec!["timestamp=1000".to_string(), format!("event_id={}", "ab".repeat(32))]
    );
    assert_eq!(fields[0].raw_hex, Some(hex::encode((u64::MAX - 1000).to_be_bytes())));
    assert_eq!(fields[1].raw_hex, None);
    let cut = parse_key(&key[..20], "ci", &scopes).unwrap();
    assert_eq!(shown(&cut), vec!["timestamp=1000", "incomplete=true"]);
    assert!(parse_key(&key[..7], "ci", &scopes).is_none());
    assert!(parse_key(&key, "other", &scopes).is_none());
}

#[test]
fn keys_with_tags() {
    let scopes = registry();
    let mut key = vec![0, 1, b't'];
    key.extend(b"nostr");
    key.resize(185, 0);
    key.extend((u64::MAX - 5).to_be_bytes());
    key.resize(196, 0);
    key.extend([7; 32]);
    let fields = parse_key(&key, "ktci", &scopes).unwrap();
    assert_eq!(
        shown(&fields),
        vec![
            "kind=1".to_string(),
            "tag_name=t".to_string(),
            "tag_value=nostr".to_string(),
            "timestamp=5".to_string(),
            format!("event_id={}", "07".repeat(32)),
        ]
    );
    let mut author = vec![3; 32];
    author.extend(&key[2..185]);
    author.extend((u64::MAX - 6).to_be_bytes());
    author.resize(226, 0);
    let fields = parse_key(&author, "atci", &scopes).unwrap();
    assert_eq!(shown(&fields).last().unwrap(), "incomplete=true");
    assert_eq!(shown(&fields)[0], format!("pubkey={}", "03".repeat(32)));
}

#[test]
fn keys_of_authors_and_deletions() {
    let scopes = registry();
    let mut key = vec![1; 32];
    key.extend([0, 7]);
    key.extend((u64::MAX - 9).to_be_bytes());
    let fields = parse_key(&key, "akci", &scopes).unwrap();
    assert_eq!(
        shown(&fields),
        vec![
            format!("pubkey={}", "01".repeat(32)),
            "kind=7".to_string(),
            "timestamp=9".to_string(),
            "incomplete=true".to_string(),
        ]
    );
    let mut address = vec![0x75, 0x30];
    address.extend([2; 32]);
    assert_eq!(parse_key(&address, "deleted-coordinates", &scopes).unwrap().len(), 2);
    address.extend(b"d\xff");
    let fields = parse_key(&address, "deleted-coordinates", &scopes).unwrap();
    assert_eq!(shown(&fields)[0], "kind=30000");
    assert_eq!(shown(&fields)[2], "d_tag=d\u{fffd}");
    assert!(parse_key(&[1; 33], "deleted-ids", &scopes).is_none());
    assert_eq!(
        shown(&parse_key(&[1; 32], "events", &scopes).unwrap()),
        vec![format!("event_id={}", "01".repeat(32))]
    );
    assert!(explained_key(&[1; 32], "events", &scopes).is_none());
    assert_eq!(
        shown(&parse_key(b"tenant", "__global_scope_metadata", &scopes).unwrap()),
        vec!["scope_name=tenant"]
    );
    assert!(parse_key(&[0xff], "__global_scope_metadata", &scopes).is_none());
}

#[test]
fn keys_with_scopes() {
    let scopes = registry();
    let key = scoped(258, &time_key(8, [1; 32]));
    assert_eq!(scoped_key_hash(&key), Some(258));
    let fields = explained_key(&key, "ci_scoped", &scopes).unwrap();
    assert_eq!(
        shown(&fields),
        vec![
            "scope_hash=tenant".to_string(),
            "original_key_length=40".to_string(),
            "timestamp=8".to_string(),
            format!("event_id={}", "01".repeat(32)),
        ]
    );
    let unknown = scoped(0xabc, &time_key(8, [1; 32]));
    let fields = parse_key(&unknown, "ci_scoped", &scopes).unwrap();
    assert_eq!(shown(&fields)[0], "scope_hash=unknown_scope_00000abc");
    assert!(parse_key(&key[..30], "ci_scoped", &scopes).is_none());
    assert_eq!(scoped_key_hash(&[0; 11]), None);
}

#[test]
fn entries_are_shown() {
    assert_eq!(
        entry_text(true, "ci", &vec![1, 2], &vec![0xff], None),
        r#"    {"database": "ci", "key_hex": "0102", "value_hex": "ff"}"#
    );
    let long = vec![1u8; 101];
    let text = entry_text(false, "ci", &vec![], &long, Some("{}"));
    assert_eq!(&text[..2], ",\n");
    assert_eq!(
        text[2..],
        format!(
            r#"    {{"database": "ci", "key_hex": "", "value_hex": "{}", "value_truncated": true, "value_size_bytes": 101, "parsed_key": {{}}}}"#,
            "01".repeat(50)
        )
    );
    assert_eq!(shown_count(10, Some(3)), 3);
    assert_eq!(shown_count(2, Some(3)), 2);
    assert_eq!(shown_count(2, None), 2);
}

#[test]
fn databases_by_name() {
    let names = common_names();
    assert_eq!(names.len(), 19);
    assert!(names.iter().all(|n| is_expected_database(n)));
    assert!(is_expected_database("(unnamed)"));
    assert!(!is_expected_database("unknown_db_3"));
    assert_eq!(
        select_databases(&names, Some("deleted-ids")),
        vec!["deleted-ids".to_string(), "deleted-ids_scoped".to_string()]
    );
    assert_eq!(select_databases(&names, None).len(), 19);
    let unknown = unknown_names();
    assert_eq!(unknown.len(), 100);
    assert_eq!(unknown[42], "unknown_db_42");
    let (good, bad) =
        sort_databases(vec!["ci".to_string(), "x".to_string(), "(unnamed)".to_string()]);
    assert_eq!(good, vec!["ci".to_string(), "(unnamed)".to_string()]);
    assert_eq!(bad, vec!["x".to_string()]);
}

#[test]
fn sets_of_identifiers() {
    let mut ids = IdSet::new();
    let a = EventId { bytes: [1; 32] };
    let mut near = [1; 32];
    near[31] = 2;
    let b = EventId { bytes: near };
    ids.insert(a);
    ids.insert(a);
    assert!(ids.contains(&a));
    assert!(!ids.contains(&b));
    ids.insert(b);
    assert!(ids.contains(&b));
}

#[test]
fn entries_without_an_event_are_found() {
    let scopes = registry();
    let ids = get_all_event_ids(
        &vec![vec![1; 32], vec![9; 31]],
        &vec![scoped(258, &[2; 32]), scoped(258, &[3; 31]), vec![4; 44]],
    );
    assert!(ids.contains(&EventId { bytes: [1; 32] }));
    assert!(ids.contains(&EventId { bytes: [2; 32] }));
    assert!(!ids.contains(&EventId { bytes: [4; 32] }));
    let databases = vec![
        DatabaseKeys { name: "events".to_string(), keys: vec![vec![7; 32]] },
        DatabaseKeys {
            name: "ci".to_string(),
            keys: vec![time_key(1, [1; 32]), time_key(1, [5; 32]), vec![0; 9]],
        },
        DatabaseKeys {
            name: "ci_scoped".to_string(),
            keys: vec![scoped(258, &time_key(1, [2; 32])), scoped(258, &time_key(1, [6; 32]))],
        },
        DatabaseKeys { name: "deleted-ids".to_string(), keys: vec![vec![8; 32]] },
        DatabaseKeys { name: "deleted-coordinates".to_string(), keys: vec![vec![8; 40]] },
    ];
    let found = check_integrity(&databases, &scopes, &ids);
    let summary: Vec<(String, String, Option<String>)> = found
        .iter()
        .map(|e| (e.event_id[..2].to_string(), e.index_type.clone(), e.scope.clone()))
        .collect();
    assert_eq!(
        summary,
        vec![
            ("05".to_string(), "created_at_index".to_string(), None),
            ("06".to_string(), "created_at_index".to_string(), Some("tenant".to_string())),
            ("08".to_string(), "deleted_ids".to_string(), None),
        ]
    );
    assert_eq!(found[0].key, time_key(1, [5; 32]));
    assert_eq!(found[1].database, "ci_scoped");
    let mut author = vec![1; 40];
    author.extend([9; 32]);
    let info = extract_event_id_from_key(&author, "aci", &scopes).unwrap();
    assert_eq!(info.index_type, "author_created_at_index");
    assert_eq!(info.event_id.bytes, [9; 32]);
}

#[test]
fn figures_of_a_synchronisation() {
    let pull = SyncStats::of_sync(SyncMode::Pull, 5, 7, &vec![1, 2]);
    assert_eq!(pull, SyncStats { events_sent: 0, events_received: 7, errors: 3 });
    let push = SyncStats::of_sync(SyncMode::Push, 5, 7, &vec![]);
    assert_eq!(push, SyncStats { events_sent: 5, events_received: 0, errors: 0 });
    let both = SyncStats::of_sync(SyncMode::Both, 5, 7, &vec![]);
    let mut total = SyncStats::new();
    total.record(Some(pull));
    total.record(Some(both));
    total.record(None);
    assert_eq!(total, SyncStats { events_sent: 5, events_received: 14, errors: 4 });
}

#[test]
fn waits_between_synchronisations() {
    assert_eq!(next_backoff(10, 60, false), 20);
    assert_eq!(next_backoff(160, 60, false), 300);
    assert_eq!(next_backoff(300, 60, false), 300);
    assert_eq!(next_backoff(300, 60, true), 60);
    assert_eq!(next_backoff(300, 5, true), 10);
    assert!(is_periodic(1));
    assert!(!is_periodic(0));
}

#[test]
fn what_is_synchronised() {
    assert_eq!(sync_scope(None), Some(Scope::Default));
    assert_eq!(sync_scope(Some("t")), Scope::named("t"));
    assert_eq!(sync_scope(Some("")), None);
    assert!(sync_filter(None).unwrap().kinds.is_none());
    let filter = sync_filter(Some(r##"{"kinds":[1,7],"#t":["x"],"limit":3}"##)).unwrap();
    assert_eq!(filter.kinds, Some(vec![1, 7]));
    assert_eq!(filter.limit, Some(3));
    assert_eq!(filter.generic_tags.len(), 1);
    assert_eq!(filter.generic_tags[0].letter, 't');
    assert!(sync_filter(Some("[]")).is_err());
}

#[test]
fn keys_for_authentication() {
    let mut hex_key = "0".repeat(63);
    hex_key.push('1');
    let key = auth_secret_key(&hex_key).unwrap();
    assert_eq!(key[31], 1);
    assert_eq!(key[..31], [0; 31]);
    let secret = nostr_sdk::SecretKey::from_hex(&hex_key).unwrap();
    let nsec = nostr_sdk::ToBech32::to_bech32(&secret).unwrap();
    assert!(nsec.starts_with("nsec"));
    assert_eq!(auth_secret_key(&nsec).unwrap(), key);
    assert!(auth_secret_key("nsec1").is_none());
    assert!(auth_secret_key("xyz").is_none());
}

#[test]
fn labels_of_values() {
    assert_eq!(value_label("scope_hash"), "lookup_value");
    assert_eq!(value_label("event_id"), "parsed_value");
    assert_eq!(value_label(""), "parsed_value");
}
