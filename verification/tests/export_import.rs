use nostr_sdk::{EventBuilder, Keys};
use relay_builder::export_import::{
    after_file, export_lines, find_files, is_confirmed, parse_scope_from_filename, sanitize_filename, saved_count,
    scope_to_filename, FileImport, ImportStep, TransferTotals,
};
use relay_builder::protocol::{Event, EventId, PublicKey, Scope};

fn note(content: &str, keys: &Keys) -> Event {
    let event = EventBuilder::text_note(content).sign_with_keys(keys).unwrap();
    Event {
        id: EventId { bytes: event.id.to_bytes() },
        pubkey: PublicKey { bytes: event.pubkey.to_bytes() },
        created_at: event.created_at.as_u64(),
        kind: event.kind.as_u16(),
        tags: event.tags.iter().map(|t| t.as_slice().to_vec()).collect(),
        content: event.content.clone(),
        sig: event.sig.serialize(),
    }
}

#[test]
fn test_scope_to_filename() {
    assert_eq!(scope_to_filename(&Scope::Default, false, None), "scope_default.jsonl");
    assert_eq!(scope_to_filename(&Scope::Default, true, Some(100)), "scope_default_100.jsonl");
    assert_eq!(scope_to_filename(&Scope::named("test").unwrap(), false, None), "scope_test.jsonl");
    assert_eq!(
        scope_to_filename(&Scope::named("test-scope").unwrap(), true, Some(50)),
        "scope_test-scope_50.jsonl"
    );
}

#[test]
fn test_parse_scope_from_filename() {
    assert_eq!(parse_scope_from_filename("scope_default.jsonl"), Some(Scope::Default));
    assert_eq!(parse_scope_from_filename("scope_default_100.jsonl"), Some(Scope::Default));
    assert_eq!(
        parse_scope_from_filename("scope_test.jsonl"),
        Some(Scope::named("test").unwrap())
    );
    assert_eq!(
        parse_scope_from_filename("scope_test_scope.jsonl"),
        Some(Scope::named("test_scope").unwrap())
    );
    assert_eq!(
        parse_scope_from_filename("scope_test_scope_500.jsonl"),
        Some(Scope::named("test_scope").unwrap())
    );
    assert_eq!(parse_scope_from_filename("invalid.txt"), None);
    assert_eq!(parse_scope_from_filename("notscope_test.jsonl"), None);
}

#[test]
fn test_sanitize_filename() {
    assert_eq!(sanitize_filename("test"), "test");
    assert_eq!(sanitize_filename("test-scope"), "test-scope");
    assert_eq!(sanitize_filename("test_scope"), "test_scope");
    assert_eq!(sanitize_filename("test/scope"), "test_scope");
    assert_eq!(sanitize_filename("test@scope!"), "test_scope_");
}

#[test]
fn letters_beyond_ascii_stay_in_a_filename() {
    assert_eq!(sanitize_filename("bodø"), "bodø");
    assert_eq!(sanitize_filename("a\u{2014}b"), "a_b");
}

#[test]
fn a_filename_without_a_count_is_not_included() {
    assert_eq!(scope_to_filename(&Scope::Default, true, None), "scope_default.jsonl");
    assert_eq!(scope_to_filename(&Scope::Default, false, Some(3)), "scope_default.jsonl");
}

#[test]
fn filenames_are_read_back() {
    for name in ["a", "a-b", "a_b", "x9"] {
        let scope = Scope::named(name).unwrap();
        let plain = scope_to_filename(&scope, false, None);
        let counted = scope_to_filename(&scope, true, Some(7));
        assert_eq!(parse_scope_from_filename(&plain), Some(Scope::named(name).unwrap()));
        assert_eq!(parse_scope_from_filename(&counted), Some(Scope::named(name).unwrap()));
    }
    // A name that ends in a number is only kept by a file with a count.
    let scope = Scope::named("a_7").unwrap();
    assert_eq!(
        parse_scope_from_filename(&scope_to_filename(&scope, true, Some(1))),
        Some(Scope::named("a_7").unwrap())
    );
    assert_eq!(
        parse_scope_from_filename(&scope_to_filename(&scope, false, None)),
        Some(Scope::named("a").unwrap())
    );
}

#[test]
fn repeated_endings_and_empty_names() {
    assert_eq!(
        parse_scope_from_filename("scope_a.jsonl.jsonl"),
        Some(Scope::named("a").unwrap())
    );
    assert_eq!(parse_scope_from_filename("scope_.jsonl"), None);
    assert_eq!(parse_scope_from_filename("scope.jsonl"), None);
}

#[test]
fn exported_events_are_imported() {
    let keys = Keys::generate();
    let events: Vec<Event> = (0..150).map(|i| note(&format!("line\n{i}"), &keys)).collect();
    let lines = export_lines(&events);
    assert_eq!(lines.len(), 150);
    let mut import = FileImport::new(false);
    let mut stored: Vec<EventId> = Vec::new();
    for line in &lines {
        assert!(!line.contains('\n'));
        match import.read_line(line, "\"file\"").unwrap() {
            ImportStep::Next => {}
            ImportStep::Store => {
                stored.extend(import.batch.iter().map(|e| e.id));
                let count = import.batch.len() as u64;
                assert_eq!(count, 100);
                import.batch_stored(Ok(count), false).unwrap();
            }
            ImportStep::Skipped(text) => panic!("{text}"),
        }
    }
    assert!(import.has_waiting());
    stored.extend(import.batch.iter().map(|e| e.id));
    let rest = import.batch.len() as u64;
    import.batch_stored(Ok(rest), true).unwrap();
    assert!(!import.has_waiting());
    assert_eq!(import.imported, 150);
    assert_eq!(import.errors, 0);
    let ids: Vec<EventId> = events.iter().map(|e| e.id).collect();
    assert_eq!(stored, ids);
}

#[test]
fn blank_and_broken_lines() {
    let mut import = FileImport::new(true);
    assert!(matches!(import.read_line("  \t", "\"f\""), Ok(ImportStep::Next)));
    match import.read_line("no event", "\"f\"") {
        Ok(ImportStep::Skipped(text)) => {
            assert!(text.starts_with("Failed to parse event at line 2 in \"f\": "))
        }
        _ => panic!("Expected a skipped line"),
    }
    assert_eq!(import.errors, 1);
    assert_eq!(import.lines, 2);
    let mut strict = FileImport::new(false);
    match strict.read_line("no event", "\"f\"") {
        Err(text) => assert!(text.starts_with("Failed to parse event at line 1 in \"f\": ")),
        _ => panic!("Expected an error"),
    }
}

#[test]
fn batches_that_cannot_be_stored() {
    let keys = Keys::generate();
    let lines = export_lines(&vec![note("a", &keys), note("b", &keys)]);
    let mut strict = FileImport::new(false);
    strict.read_line(&lines[0], "f").unwrap();
    assert_eq!(
        strict.batch_stored(Err("disk".to_string()), false).unwrap_err(),
        "Failed to import batch ending at line 1: disk"
    );
    strict.read_line(&lines[1], "f").unwrap();
    assert_eq!(
        strict.batch_stored(Err("disk".to_string()), true).unwrap_err(),
        "Failed to import final batch: disk"
    );
    let mut lenient = FileImport::new(true);
    lenient.read_line(&lines[0], "f").unwrap();
    lenient.read_line(&lines[1], "f").unwrap();
    assert!(lenient.batch_stored(Err("disk".to_string()), true).is_ok());
    assert_eq!(lenient.errors, 2);
}

#[test]
fn the_first_failure_ends_a_batch() {
    assert_eq!(saved_count(&vec![Ok(true), Ok(false), Ok(true)]).unwrap(), 2);
    assert_eq!(
        saved_count(&vec![Ok(true), Err("full".to_string()), Err("later".to_string())])
            .unwrap_err(),
        "Failed to save event: full"
    );
}

#[test]
fn totals_of_a_transfer() {
    let mut totals = TransferTotals::new();
    totals.record(Some((10, 2)));
    totals.record(None);
    totals.record(Some((5, 0)));
    assert_eq!(totals, TransferTotals { events: 15, errors: 2, files: 2 });
}

#[test]
fn answers_at_the_prompt() {
    assert!(is_confirmed("y\n"));
    assert!(is_confirmed(" Y "));
    assert!(!is_confirmed("yes\n"));
    assert!(!is_confirmed("\n"));
}

#[test]
fn files_of_an_import_are_found() {
    let names: Vec<String> = ["scope_a.jsonl", "notes.txt", ".jsonl", "odd.jsonl", "scope_default.jsonl"]
        .iter()
        .map(|n| n.to_string())
        .collect();
    let found = find_files(&names, "\"in\"").unwrap();
    let places: Vec<usize> = found.iter().map(|f| f.index).collect();
    assert_eq!(places, vec![0, 3, 4]);
    assert_eq!(found[0].scope, Scope::named("a"));
    assert_eq!(found[1].scope, None);
    assert_eq!(found[2].scope, Some(Scope::Default));
    match find_files(&vec!["notes.txt".to_string()], "\"in\"") {
        Err(text) => assert_eq!(text, "No JSONL files found in input directory: \"in\""),
        Ok(_) => panic!("Expected an error"),
    }
}

#[test]
fn a_file_that_fails_ends_the_import() {
    let mut totals = TransferTotals::new();
    assert!(after_file(&mut totals, Ok((3, 1)), false).is_ok());
    assert!(after_file(&mut totals, Err("bad".to_string()), true).is_ok());
    assert_eq!(after_file(&mut totals, Err("bad".to_string()), false), Err("bad".to_string()));
    assert_eq!(totals, TransferTotals { events: 3, errors: 1, files: 1 });
}
