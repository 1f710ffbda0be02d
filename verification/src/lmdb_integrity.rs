//! Entries of the indexes of the store that belong to no event.

use crate::hex_text::{encode, hex_text};
use crate::id_set::IdSet;
use crate::lmdb_keys::{
    be_value, common_names, index_event_id, index_layout, inner_fields, is_scoped_key,
    known_databases, law_index_keys_end_in_the_event, layout, layout_width, lemma_layout_bound, part,
    plain_field, scope_hash, scoped_key_hash, width_of_layout, FieldValueView, ScopeRegistry, Segment,
};
use crate::protocol::EventId;
use crate::text::{
    concat2, decimal, ends_with, list_contains, str_eq, strip_suffixes, trim_end_matches, u64_text,
    views,
};
use vstd::prelude::*;

verus! {

/// The name that stands for the database without a name.
pub const UNNAMED: &'static str = "(unnamed)";

/// Whether a database belongs to the store.
pub fn is_expected_database(name: &str) -> (r: bool)
    ensures
        r == (known_databases().contains(name@) || name@ == UNNAMED@),
{
    list_contains(&common_names(), name) || str_eq(name, UNNAMED)
}

/// The names under which a database that does not belong to the store is looked for.
pub fn unknown_names() -> (r: Vec<String>)
    ensures
        views(r@) == Seq::new(100, |i: int| "unknown_db_"@ + decimal(i as nat)),
{
    let mut names: Vec<String> = Vec::new();
    let mut i: u64 = 0;
    while i < 100
        invariant
            i <= 100,
            names@.len() == i,
            forall|j: int| 0 <= j < i ==> (#[trigger] names@[j])@ == "unknown_db_"@ + decimal(j as nat),
        decreases 100 - i,
    {
        names.push(concat2("unknown_db_", u64_text(i).as_str()));
        i = i + 1;
    }
    proof {
        assert(views(names@) =~= Seq::new(100, |i: int| "unknown_db_"@ + decimal(i as nat)));
    }
    names
}

/// Databases that belong to the store, and those that do not.
pub fn sort_databases(names: Vec<String>) -> (r: (Vec<String>, Vec<String>))
    ensures
        views(r.0@) == views(names@).filter(|n: Seq<char>| is_expected(n)),
        views(r.1@) == views(names@).filter(|n: Seq<char>| !is_expected(n)),
{
    let mut expected: Vec<String> = Vec::new();
    let mut unexpected: Vec<String> = Vec::new();
    let mut i: usize = 0;
    proof {
        reveal(Seq::filter);
        assert(views(names@).take(0) =~= Seq::empty());
        assert(views(expected@) =~= Seq::empty());
        assert(views(unexpected@) =~= Seq::empty());
    }
    while i < names.len()
        invariant
            i <= names@.len(),
            views(expected@) == views(names@).take(i as int).filter(
                |n: Seq<char>| is_expected(n),
            ),
            views(unexpected@) == views(names@).take(i as int).filter(
                |n: Seq<char>| !is_expected(n),
            ),
        decreases names@.len() - i,
    {
        let ghost before = (views(expected@), views(unexpected@));
        proof {
            reveal(Seq::filter);
            assert(views(names@).take(i + 1).drop_last() =~= views(names@).take(i as int));
            assert(views(names@).take(i + 1).last() == names@[i as int]@);
        }
        if is_expected_database(names[i].as_str()) {
            expected.push(names[i].clone());
            proof {
                assert(views(expected@) =~= before.0.push(names@[i as int]@));
            }
        } else {
            unexpected.push(names[i].clone());
            proof {
                assert(views(unexpected@) =~= before.1.push(names@[i as int]@));
            }
        }
        i = i + 1;
    }
    proof {
        assert(views(names@).take(names@.len() as int) =~= views(names@));
    }
    (expected, unexpected)
}

/// The database belongs to the store.
pub open spec fn is_expected(name: Seq<char>) -> bool {
    known_databases().contains(name) || name == UNNAMED@
}

/// The identifier of an event that is stored under a key: the key itself in the database without
/// scopes, and what follows the scope in the other.
pub open spec fn stored_id(key: Seq<u8>, scoped: bool) -> Option<Seq<u8>> {
    if scoped {
        if is_scoped_key(key) && key.len() == 44 {
            Some(key.skip(12))
        } else {
            None
        }
    } else if key.len() == 32 {
        Some(key)
    } else {
        None
    }
}

/// The identifiers of events that are stored under keys.
pub open spec fn stored_ids(keys: Seq<Vec<u8>>, scoped: bool) -> Set<EventId> {
    Set::new(
        |id: EventId|
            exists|i: int|
                0 <= i < keys.len() && stored_id((#[trigger] keys[i])@, scoped) == Some(id.bytes@),
    )
}

/// The identifier that 32 bytes of a key are.
fn id_at(key: &[u8], from: usize) -> (r: EventId)
    requires
        from + 32 <= key@.len(),
    ensures
        r.bytes@ == key@.subrange(from as int, from + 32),
{
    let count: usize = key.len();
    let mut bytes: [u8; 32] = [0; 32];
    let mut i: usize = 0;
    while i < 32
        invariant
            i <= 32,
            from + 32 <= count == key@.len(),
            forall|j: int| 0 <= j < i ==> bytes@[j] == key@[from + j],
        decreases 32 - i,
    {
        bytes[i] = key[from + i];
        i = i + 1;
    }
    proof {
        assert(bytes@ =~= key@.subrange(from as int, from + 32));
    }
    EventId { bytes }
}

proof fn lemma_same_id(a: EventId, b: EventId)
    requires
        a.bytes@ == b.bytes@,
    ensures
        a == b,
{
    assert(a.bytes =~= b.bytes);
}

/// Adds the identifiers of the events that are stored under keys.
pub fn collect_event_ids(ids: &mut IdSet, keys: &Vec<Vec<u8>>, scoped: bool)
    ensures
        final(ids)@ == old(ids)@.union(stored_ids(keys@, scoped)),
{
    let mut i: usize = 0;
    proof {
        assert(ids@ =~= old(ids)@.union(stored_ids(keys@.take(0), scoped)));
    }
    while i < keys.len()
        invariant
            i <= keys@.len(),
            ids@ == old(ids)@.union(stored_ids(keys@.take(i as int), scoped)),
        decreases keys@.len() - i,
    {
        let key = keys[i].as_slice();
        let count: usize = key.len();
        let ghost held = ids@;
        let ghost told = stored_id(key@, scoped);
        if scoped {
            if count == 44 && scoped_key_hash(key).is_some() {
                let id = id_at(key, 12);
                proof {
                    assert(key@.skip(12) =~= key@.subrange(12, 44));
                    lemma_stored_one_more(keys@, i as int, scoped, id);
                }
                ids.insert(id);
            } else {
                proof {
                    lemma_stored_no_more(keys@, i as int, scoped);
                }
            }
        } else if count == 32 {
            let id = id_at(key, 0);
            proof {
                assert(key@ =~= key@.subrange(0, 32));
                lemma_stored_one_more(keys@, i as int, scoped, id);
            }
            ids.insert(id);
        } else {
            proof {
                lemma_stored_no_more(keys@, i as int, scoped);
            }
        }
        proof {
            assert(ids@ =~= old(ids)@.union(stored_ids(keys@.take(i + 1), scoped)));
        }
        i = i + 1;
    }
    proof {
        assert(keys@.take(keys@.len() as int) =~= keys@);
    }
}

proof fn lemma_stored_one_more(keys: Seq<Vec<u8>>, i: int, scoped: bool, id: EventId)
    requires
        0 <= i < keys.len(),
        stored_id(keys[i]@, scoped) == Some(id.bytes@),
    ensures
        stored_ids(keys.take(i + 1), scoped) == stored_ids(keys.take(i), scoped).insert(id),
{
    let more = stored_ids(keys.take(i + 1), scoped);
    let less = stored_ids(keys.take(i), scoped);
    assert forall|x: EventId| more.contains(x) <==> less.insert(id).contains(x) by {
        if more.contains(x) {
            let j = choose|j: int|
                0 <= j < keys.take(i + 1).len() && stored_id(
                    (#[trigger] keys.take(i + 1)[j])@,
                    scoped,
                ) == Some(x.bytes@);
            if j < i {
                assert(keys.take(i)[j] == keys[j]);
            } else {
                lemma_same_id(x, id);
            }
        }
        if less.contains(x) {
            let j = choose|j: int|
                0 <= j < keys.take(i).len() && stored_id((#[trigger] keys.take(i)[j])@, scoped)
                    == Some(x.bytes@);
            assert(keys.take(i + 1)[j] == keys[j]);
        }
        assert(keys.take(i + 1)[i] == keys[i]);
    }
    assert(more =~= less.insert(id));
}

proof fn lemma_stored_no_more(keys: Seq<Vec<u8>>, i: int, scoped: bool)
    requires
        0 <= i < keys.len(),
        stored_id(keys[i]@, scoped) is None,
    ensures
        stored_ids(keys.take(i + 1), scoped) == stored_ids(keys.take(i), scoped),
{
    let more = stored_ids(keys.take(i + 1), scoped);
    let less = stored_ids(keys.take(i), scoped);
    assert forall|x: EventId| more.contains(x) <==> less.contains(x) by {
        if more.contains(x) {
            let j = choose|j: int|
                0 <= j < keys.take(i + 1).len() && stored_id(
                    (#[trigger] keys.take(i + 1)[j])@,
                    scoped,
                ) == Some(x.bytes@);
            assert(keys.take(i)[j] == keys[j]);
        }
        if less.contains(x) {
            let j = choose|j: int|
                0 <= j < keys.take(i).len() && stored_id((#[trigger] keys.take(i)[j])@, scoped)
                    == Some(x.bytes@);
            assert(keys.take(i + 1)[j] == keys[j]);
        }
    }
    assert(more =~= less);
}

/// The identifiers of all events of the store, from the keys of the database without a name and
/// those of the database of scoped events.
pub fn get_all_event_ids(unnamed: &Vec<Vec<u8>>, scoped: &Vec<Vec<u8>>) -> (r: IdSet)
    ensures
        r@ == stored_ids(unnamed@, false).union(stored_ids(scoped@, true)),
{
    let mut ids = IdSet::new();
    collect_event_ids(&mut ids, unnamed, false);
    collect_event_ids(&mut ids, scoped, true);
    proof {
        assert(ids@ =~= stored_ids(unnamed@, false).union(stored_ids(scoped@, true)));
    }
    ids
}

/// The kind of an index, by the name of its database.
pub open spec fn index_type(base: Seq<char>) -> Seq<char> {
    if base == "ci"@ {
        "created_at_index"@
    } else if base == "tci"@ {
        "tag_created_at_index"@
    } else if base == "aci"@ {
        "author_created_at_index"@
    } else if base == "akci"@ {
        "author_kind_created_at_index"@
    } else if base == "atci"@ {
        "author_tag_created_at_index"@
    } else if base == "ktci"@ {
        "kind_tag_created_at_index"@
    } else {
        "deleted_ids"@
    }
}

fn index_type_of(base: &str) -> (r: String)
    ensures
        r@ == index_type(base@),
{
    if str_eq(base, "ci") {
        "created_at_index".to_owned()
    } else if str_eq(base, "tci") {
        "tag_created_at_index".to_owned()
    } else if str_eq(base, "aci") {
        "author_created_at_index".to_owned()
    } else if str_eq(base, "akci") {
        "author_kind_created_at_index".to_owned()
    } else if str_eq(base, "atci") {
        "author_tag_created_at_index".to_owned()
    } else if str_eq(base, "ktci") {
        "kind_tag_created_at_index".to_owned()
    } else {
        "deleted_ids".to_owned()
    }
}

/// The identifier of the event that a key is about, but for its scope.
pub open spec fn inner_event_id(base: Seq<char>, key: Seq<u8>) -> Option<Seq<u8>> {
    match layout(base) {
        Some(segments) => index_event_id(segments, key),
        None => if base == "deleted-ids"@ && key.len() == 32 {
            Some(key)
        } else {
            None
        },
    }
}

/// The identifier of the event that a key of a database is about.
pub open spec fn key_event_id(database: Seq<char>, key: Seq<u8>) -> Option<Seq<u8>> {
    let base = strip_suffixes(database, "_scoped"@);
    if "_scoped"@.is_suffix_of(database) {
        if is_scoped_key(key) {
            inner_event_id(base, key.skip(12))
        } else {
            None
        }
    } else {
        inner_event_id(base, key)
    }
}

/// The scope of a key of a database, where it is known, by its name.
pub open spec fn key_scope(
    database: Seq<char>,
    key: Seq<u8>,
    names: Map<u32, Seq<char>>,
) -> Option<Seq<char>> {
    if "_scoped"@.is_suffix_of(database) {
        Some(names[scope_hash(key)])
    } else {
        None
    }
}

/// The name of the scope of a key is known.
pub open spec fn scope_is_known(
    database: Seq<char>,
    key: Seq<u8>,
    names: Map<u32, Seq<char>>,
) -> bool {
    "_scoped"@.is_suffix_of(database) && is_scoped_key(key) ==> names.contains_key(scope_hash(key))
}

/// What a key says of the event it is about.
#[derive(Debug)]
pub struct EventIdInfo {
    pub event_id: EventId,
    pub index_type: String,
    pub scope: Option<String>,
}

/// The text of an optional string.
pub open spec fn text_option(text: Option<String>) -> Option<Seq<char>> {
    match text {
        Some(t) => Some(t@),
        None => None,
    }
}

/// The identifier of the event that a key is about, but for its scope.
fn extract_from_key(base: &str, key: &[u8]) -> (r: Option<EventId>)
    ensures
        match r {
            Some(id) => inner_event_id(base@, key@) == Some(id.bytes@),
            None => inner_event_id(base@, key@) is None,
        },
{
    let count: usize = key.len();
    match index_layout(base) {
        Some(segments) => {
            proof {
                lemma_layout_bound(segments@);
            }
            let from: usize = width_of_layout(&segments);
            if count >= 32 && from <= count - 32 {
                Some(id_at(key, from))
            } else {
                None
            }
        },
        None => {
            if str_eq(base, "deleted-ids") && count == 32 {
                proof {
                    assert(key@ =~= key@.subrange(0, 32));
                }
                Some(id_at(key, 0))
            } else {
                None
            }
        },
    }
}

/// What a key of a database says of the event it is about.
pub fn extract_event_id_from_key(key: &[u8], database: &str, scopes: &ScopeRegistry) -> (r: Option<
    EventIdInfo,
>)
    requires
        scope_is_known(database@, key@, scopes@),
    ensures
        match r {
            Some(info) => {
                &&& key_event_id(database@, key@) == Some(info.event_id.bytes@)
                &&& info.index_type@ == index_type(strip_suffixes(database@, "_scoped"@))
                &&& text_option(info.scope) == key_scope(database@, key@, scopes@)
            },
            None => key_event_id(database@, key@) is None,
        },
{
    let base = trim_end_matches(database, "_scoped");
    let count: usize = key.len();
    if ends_with(database, "_scoped") {
        match scoped_key_hash(key) {
            Some(hash) => {
                let inner = part(key, 12, count);
                proof {
                    assert(inner@ =~= key@.skip(12));
                }
                match extract_from_key(base.as_str(), inner.as_slice()) {
                    Some(event_id) => Some(
                        EventIdInfo {
                            event_id,
                            index_type: index_type_of(base.as_str()),
                            scope: scopes.get(hash),
                        },
                    ),
                    None => None,
                }
            },
            None => None,
        }
    } else {
        match extract_from_key(base.as_str(), key) {
            Some(event_id) => Some(
                EventIdInfo { event_id, index_type: index_type_of(base.as_str()), scope: None },
            ),
            None => None,
        }
    }
}

/// An entry of an index that is about no event of the store.
#[derive(Debug)]
pub struct CorruptedEntry {
    pub database: String,
    pub key: Vec<u8>,
    /// The identifier, in hexadecimal.
    pub event_id: String,
    pub index_type: String,
    pub scope: Option<String>,
}

/// An entry of an index that is about no event of the store.
#[verifier::ext_equal]
pub struct CorruptedView {
    pub database: Seq<char>,
    pub key: Seq<u8>,
    pub event_id: Seq<char>,
    pub index_type: Seq<char>,
    pub scope: Option<Seq<char>>,
}

impl View for CorruptedEntry {
    type V = CorruptedView;

    open spec fn view(&self) -> CorruptedView {
        CorruptedView {
            database: self.database@,
            key: self.key@,
            event_id: self.event_id@,
            index_type: self.index_type@,
            scope: text_option(self.scope),
        }
    }
}

/// The key is about an event that the store does not have.
pub open spec fn is_corrupted(database: Seq<char>, key: Seq<u8>, ids: Set<EventId>) -> bool {
    match key_event_id(database, key) {
        Some(bytes) => !exists|id: EventId| #[trigger] ids.contains(id) && id.bytes@ == bytes,
        None => false,
    }
}

/// What is told of an entry that is about no event.
pub open spec fn corrupted_entry(
    database: Seq<char>,
    key: Seq<u8>,
    names: Map<u32, Seq<char>>,
) -> CorruptedView {
    CorruptedView {
        database,
        key,
        event_id: hex_text(key_event_id(database, key)->Some_0),
        index_type: index_type(strip_suffixes(database, "_scoped"@)),
        scope: key_scope(database, key, names),
    }
}

/// Checks an entry of a database.
pub fn check_entry(key: &Vec<u8>, database: &str, scopes: &ScopeRegistry, ids: &IdSet) -> (r: Option<
    CorruptedEntry,
>)
    requires
        scope_is_known(database@, key@, scopes@),
    ensures
        match r {
            Some(entry) => is_corrupted(database@, key@, ids@) && entry@ == corrupted_entry(
                database@,
                key@,
                scopes@,
            ),
            None => !is_corrupted(database@, key@, ids@),
        },
{
    match extract_event_id_from_key(key.as_slice(), database, scopes) {
        Some(info) => {
            if ids.contains(&info.event_id) {
                None
            } else {
                proof {
                    assert forall|id: EventId| #[trigger] ids@.contains(id) implies id.bytes@
                        != info.event_id.bytes@ by {
                        if id.bytes@ == info.event_id.bytes@ {
                            lemma_same_id(id, info.event_id);
                        }
                    }
                }
                let count: usize = key.len();
                let own_key = part(key.as_slice(), 0, count);
                let bytes = part(info.event_id.bytes.as_slice(), 0, 32);
                proof {
                    assert(own_key@ =~= key@);
                    assert(bytes@ =~= info.event_id.bytes@);
                }
                Some(
                    CorruptedEntry {
                        database: database.to_owned(),
                        key: own_key,
                        event_id: encode(&bytes),
                        index_type: info.index_type,
                        scope: info.scope,
                    },
                )
            }
        },
        None => None,
    }
}

/// A database with its keys.
pub struct DatabaseKeys {
    pub name: String,
    pub keys: Vec<Vec<u8>>,
}

/// The databases that hold the events and the scopes are no indexes.
pub open spec fn is_checked(database: Seq<char>) -> bool {
    database != "events"@ && database != "events_scoped"@ && database
        != "__global_scope_metadata"@
}

/// The entries of a database that are about no event.
pub open spec fn corrupted_in(
    database: Seq<char>,
    keys: Seq<Vec<u8>>,
    names: Map<u32, Seq<char>>,
    ids: Set<EventId>,
) -> Seq<CorruptedView>
    decreases keys.len(),
{
    if keys.len() == 0 || !is_checked(database) {
        Seq::empty()
    } else {
        let before = corrupted_in(database, keys.drop_last(), names, ids);
        if is_corrupted(database, keys.last()@, ids) {
            before.push(corrupted_entry(database, keys.last()@, names))
        } else {
            before
        }
    }
}

/// The entries of databases that are about no event.
pub open spec fn all_corrupted(
    databases: Seq<DatabaseKeys>,
    names: Map<u32, Seq<char>>,
    ids: Set<EventId>,
) -> Seq<CorruptedView>
    decreases databases.len(),
{
    if databases.len() == 0 {
        Seq::empty()
    } else {
        all_corrupted(databases.drop_last(), names, ids) + corrupted_in(
            databases.last().name@,
            databases.last().keys@,
            names,
            ids,
        )
    }
}

/// The views of a list of entries.
pub open spec fn entries_view(entries: Seq<CorruptedEntry>) -> Seq<CorruptedView> {
    entries.map_values(|e: CorruptedEntry| e@)
}

/// The scopes of the keys of a database that is checked are known.
pub open spec fn scopes_are_known(database: DatabaseKeys, names: Map<u32, Seq<char>>) -> bool {
    is_checked(database.name@) ==> forall|i: int|
        0 <= i < database.keys@.len() ==> scope_is_known(
            database.name@,
            (#[trigger] database.keys@[i])@,
            names,
        )
}

/// The entries of the indexes that are about no event of the store, by database and in the order
/// of the keys.
pub fn check_integrity(databases: &Vec<DatabaseKeys>, scopes: &ScopeRegistry, ids: &IdSet) -> (r:
    Vec<CorruptedEntry>)
    requires
        forall|i: int|
            0 <= i < databases@.len() ==> scopes_are_known(#[trigger] databases@[i], scopes@),
    ensures
        entries_view(r@) == all_corrupted(databases@, scopes@, ids@),
{
    let mut found: Vec<CorruptedEntry> = Vec::new();
    let mut d: usize = 0;
    proof {
        assert(databases@.take(0) =~= Seq::empty());
        assert(entries_view(found@) =~= Seq::empty());
    }
    while d < databases.len()
        invariant
            d <= databases@.len(),
            forall|i: int|
                0 <= i < databases@.len() ==> scopes_are_known(#[trigger] databases@[i], scopes@),
            entries_view(found@) == all_corrupted(databases@.take(d as int), scopes@, ids@),
        decreases databases@.len() - d,
    {
        let database = &databases[d];
        let name = database.name.as_str();
        let ghost first = entries_view(found@);
        proof {
            assert(databases@.take(d + 1).drop_last() =~= databases@.take(d as int));
            assert(databases@.take(d + 1).last() == *database);
            assert(scopes_are_known(*database, scopes@));
            assert(first + Seq::<CorruptedView>::empty() =~= first);
        }
        if !(str_eq(name, "events") || str_eq(name, "events_scoped") || str_eq(
            name,
            "__global_scope_metadata",
        )) {
            let mut i: usize = 0;
            proof {
                assert(database.keys@.take(0) =~= Seq::empty());
            }
            while i < database.keys.len()
                invariant
                    i <= database.keys@.len(),
                    name@ == database.name@,
                    is_checked(name@),
                    scopes_are_known(*database, scopes@),
                    entries_view(found@) == first + corrupted_in(
                        name@,
                        database.keys@.take(i as int),
                        scopes@,
                        ids@,
                    ),
                decreases database.keys@.len() - i,
            {
                let ghost before = entries_view(found@);
                proof {
                    assert(database.keys@.take(i + 1).drop_last() =~= database.keys@.take(i as int));
                    assert(database.keys@.take(i + 1).last() == database.keys@[i as int]);
                    assert(scope_is_known(name@, database.keys@[i as int]@, scopes@));
                }
                if let Some(entry) = check_entry(&database.keys[i], name, scopes, ids) {
                    let ghost told = entry@;
                    found.push(entry);
                    proof {
                        assert(entries_view(found@) =~= before.push(told));
                        assert(before.push(told) =~= first + corrupted_in(
                            name@,
                            database.keys@.take(i + 1),
                            scopes@,
                            ids@,
                        ));
                    }
                }
                i = i + 1;
            }
            proof {
                assert(database.keys@.take(database.keys@.len() as int) =~= database.keys@);
            }
        }
        d = d + 1;
    }
    proof {
        assert(databases@.take(databases@.len() as int) =~= databases@);
    }
    found
}

/// The identifier that is looked for in an index is the one that its key shows, whether the
/// database is scoped or not; a key that shows none is passed over.
pub proof fn law_checked_identifier_is_shown(base: Seq<char>, key: Seq<u8>, segments: Seq<Segment>)
    requires
        layout(base) == Some(segments),
        key.len() >= layout_width(segments),
    ensures
        inner_fields(base, key) matches Some(fields) && fields.last() == match inner_event_id(
            base,
            key,
        ) {
            Some(id) => plain_field("event_id"@, FieldValueView::Text(hex_text(id))),
            None => plain_field("incomplete"@, FieldValueView::Flag),
        },
{
}

/// The check reports the key of a checked database exactly where it is about an event that the
/// store does not have.
pub proof fn law_check_is_exact(
    database: Seq<char>,
    keys: Seq<Vec<u8>>,
    names: Map<u32, Seq<char>>,
    ids: Set<EventId>,
    i: int,
)
    requires
        is_checked(database),
        0 <= i < keys.len(),
    ensures
        is_corrupted(database, keys[i]@, ids) <==> reports(
            corrupted_in(database, keys, names, ids),
            keys[i]@,
        ),
    decreases keys.len(),
{
    lemma_reports_corrupted(database, keys, names, ids);
    let found = corrupted_in(database, keys, names, ids);
    if is_corrupted(database, keys[i]@, ids) {
        lemma_corrupted_is_reported(database, keys, names, ids, i);
    }
}

/// The list has an entry with the key.
pub open spec fn reports(found: Seq<CorruptedView>, key: Seq<u8>) -> bool {
    exists|j: int| 0 <= j < found.len() && (#[trigger] found[j]).key == key
}

proof fn lemma_reports_corrupted(
    database: Seq<char>,
    keys: Seq<Vec<u8>>,
    names: Map<u32, Seq<char>>,
    ids: Set<EventId>,
)
    ensures
        forall|j: int|
            0 <= j < corrupted_in(database, keys, names, ids).len() ==> is_corrupted(
                database,
                (#[trigger] corrupted_in(database, keys, names, ids)[j]).key,
                ids,
            ),
    decreases keys.len(),
{
    if keys.len() > 0 && is_checked(database) {
        lemma_reports_corrupted(database, keys.drop_last(), names, ids);
    }
}

proof fn lemma_corrupted_is_reported(
    database: Seq<char>,
    keys: Seq<Vec<u8>>,
    names: Map<u32, Seq<char>>,
    ids: Set<EventId>,
    i: int,
)
    requires
        is_checked(database),
        0 <= i < keys.len(),
        is_corrupted(database, keys[i]@, ids),
    ensures
        reports(corrupted_in(database, keys, names, ids), keys[i]@),
    decreases keys.len(),
{
    let found = corrupted_in(database, keys, names, ids);
    let before = corrupted_in(database, keys.drop_last(), names, ids);
    if i < keys.len() - 1 {
        lemma_corrupted_is_reported(database, keys.drop_last(), names, ids, i);
        let j = choose|j: int| 0 <= j < before.len() && (#[trigger] before[j]).key == keys[i]@;
        assert(found[j] == before[j]);
    } else {
        assert(found[before.len() as int].key == keys[i]@);
    }
}

/// The events of the store are those whose identifiers are keys: the whole key without scopes, and
/// what follows the scope where there are scopes.
pub proof fn law_stored_events_are_keys(keys: Seq<Vec<u8>>, id: EventId)
    ensures
        stored_ids(keys, false).contains(id) <==> exists|i: int|
            0 <= i < keys.len() && (#[trigger] keys[i])@ == id.bytes@,
        stored_ids(keys, true).contains(id) <==> exists|i: int|
            0 <= i < keys.len() && (#[trigger] keys[i])@.len() == 44 && keys[i]@.skip(12)
                == id.bytes@ && be_value(keys[i]@.subrange(4, 12)) == 32,
{
    assert(id.bytes@.len() == 32);
    if stored_ids(keys, false).contains(id) {
        let i = choose|i: int|
            0 <= i < keys.len() && stored_id((#[trigger] keys[i])@, false) == Some(id.bytes@);
        assert(keys[i]@ == id.bytes@);
    }
    if exists|i: int| 0 <= i < keys.len() && (#[trigger] keys[i])@ == id.bytes@ {
        let i = choose|i: int| 0 <= i < keys.len() && (#[trigger] keys[i])@ == id.bytes@;
        assert(stored_id(keys[i]@, false) == Some(id.bytes@));
    }
    if stored_ids(keys, true).contains(id) {
        let i = choose|i: int|
            0 <= i < keys.len() && stored_id((#[trigger] keys[i])@, true) == Some(id.bytes@);
        assert(keys[i]@.skip(12) == id.bytes@);
    }
    if exists|i: int|
        0 <= i < keys.len() && (#[trigger] keys[i])@.len() == 44 && keys[i]@.skip(12) == id.bytes@
            && be_value(keys[i]@.subrange(4, 12)) == 32 {
        let i = choose|i: int|
            0 <= i < keys.len() && (#[trigger] keys[i])@.len() == 44 && keys[i]@.skip(12)
                == id.bytes@ && be_value(keys[i]@.subrange(4, 12)) == 32;
        assert(stored_id(keys[i]@, true) == Some(id.bytes@));
    }
}

/// The entry of an index is corrupted exactly when the event that its key ends in, behind the parts
/// that the index has, is not among the events of the store. A key that is too short for an event is
/// passed over.
pub proof fn law_orphans_of_an_index(database: Seq<char>, from: int, key: Seq<u8>, ids: Set<EventId>)
    requires
        (database == "ci"@ && from == 8) || (database == "tci"@ && from == 194) || (database
            == "aci"@ && from == 40) || (database == "akci"@ && from == 42) || (database == "atci"@
            && from == 226) || (database == "ktci"@ && from == 196),
    ensures
        is_corrupted(database, key, ids) <==> key.len() >= from + 32 && forall|id: EventId| #[trigger]
            ids.contains(id) ==> id.bytes@ != key.subrange(from, from + 32),
        is_checked(database),
{
    law_index_keys_end_in_the_event(database, from);
    reveal_strlit("_scoped");
    reveal_strlit("ci");
    reveal_strlit("tci");
    reveal_strlit("aci");
    reveal_strlit("akci");
    reveal_strlit("atci");
    reveal_strlit("ktci");
    reveal_strlit("events");
    reveal_strlit("events_scoped");
    reveal_strlit("__global_scope_metadata");
    assert(!"_scoped"@.is_suffix_of(database));
    assert(strip_suffixes(database, "_scoped"@) == database);
    let segments = layout(database)->0;
    assert(key_event_id(database, key) == index_event_id(segments, key));
}

/// The entry of an index with scopes is corrupted exactly when what follows its scope would be in
/// the index without scopes.
pub proof fn law_orphans_in_scopes(
    base: Seq<char>,
    hash: Seq<u8>,
    length: Seq<u8>,
    inner: Seq<u8>,
    ids: Set<EventId>,
)
    requires
        hash.len() == 4,
        length.len() == 8,
        be_value(length) == inner.len(),
        !"_scoped"@.is_suffix_of(base),
    ensures
        is_corrupted(base + "_scoped"@, hash + length + inner, ids) <==> is_corrupted(
            base,
            inner,
            ids,
        ),
{
    reveal_strlit("_scoped");
    let suffix = "_scoped"@;
    let database = base + suffix;
    let key = hash + length + inner;
    assert(database.subrange(database.len() - suffix.len(), database.len() as int) =~= suffix);
    assert(suffix.is_suffix_of(database));
    assert(database.take(database.len() - suffix.len()) =~= base);
    assert(strip_suffixes(base, suffix) == base);
    assert(key.subrange(4, 12) =~= length);
    assert(key.skip(12) =~= inner);
}

/// What is found in two lists of databases is what is found in the first, and then what is found in
/// the second; each entry that is found names its key and its database.
pub proof fn law_databases_are_checked_one_by_one(
    a: Seq<DatabaseKeys>,
    b: Seq<DatabaseKeys>,
    names: Map<u32, Seq<char>>,
    ids: Set<EventId>,
)
    ensures
        all_corrupted(a + b, names, ids) == all_corrupted(a, names, ids) + all_corrupted(
            b,
            names,
            ids,
        ),
    decreases b.len(),
{
    if b.len() == 0 {
        assert(a + b =~= a);
        assert(all_corrupted(a, names, ids) + all_corrupted(b, names, ids) =~= all_corrupted(
            a,
            names,
            ids,
        ));
    } else {
        law_databases_are_checked_one_by_one(a, b.drop_last(), names, ids);
        assert((a + b).drop_last() =~= a + b.drop_last());
        assert((a + b).last() == b.last());
        assert(all_corrupted(a + b, names, ids) =~= all_corrupted(a, names, ids) + all_corrupted(
            b,
            names,
            ids,
        ));
    }
}

/// The entries of one database that are found are those of its corrupted keys, one for each key, in
/// their order.
pub proof fn law_corrupted_keys_are_listed(
    database: DatabaseKeys,
    names: Map<u32, Seq<char>>,
    ids: Set<EventId>,
)
    requires
        is_checked(database.name@),
    ensures
        all_corrupted(seq![database], names, ids) == database.keys@.filter(
            |key: Vec<u8>| is_corrupted(database.name@, key@, ids),
        ).map_values(|key: Vec<u8>| corrupted_entry(database.name@, key@, names)),
        forall|key: Seq<u8>|
            (#[trigger] corrupted_entry(database.name@, key, names)).key == key && corrupted_entry(
                database.name@,
                key,
                names,
            ).database == database.name@,
{
    lemma_corrupted_is_filter(database.name@, database.keys@, names, ids);
    assert(seq![database].drop_last() =~= Seq::empty());
    assert(all_corrupted(Seq::empty(), names, ids) =~= Seq::empty());
    assert(seq![database].last() == database);
    let found = corrupted_in(database.name@, database.keys@, names, ids);
    assert(Seq::<CorruptedView>::empty() + found =~= found);
}

proof fn lemma_corrupted_is_filter(
    database: Seq<char>,
    keys: Seq<Vec<u8>>,
    names: Map<u32, Seq<char>>,
    ids: Set<EventId>,
)
    requires
        is_checked(database),
    ensures
        corrupted_in(database, keys, names, ids) == keys.filter(
            |key: Vec<u8>| is_corrupted(database, key@, ids),
        ).map_values(|key: Vec<u8>| corrupted_entry(database, key@, names)),
    decreases keys.len(),
{
    reveal(Seq::filter);
    let p = |key: Vec<u8>| is_corrupted(database, key@, ids);
    let f = |key: Vec<u8>| corrupted_entry(database, key@, names);
    if keys.len() > 0 {
        let init = keys.drop_last();
        lemma_corrupted_is_filter(database, init, names, ids);
        if p(keys.last()) {
            assert(keys.filter(p) == init.filter(p).push(keys.last()));
            assert(init.filter(p).push(keys.last()).map_values(f) =~= init.filter(p).map_values(
                f,
            ).push(f(keys.last())));
        } else {
            assert(keys.filter(p) == init.filter(p));
        }
    } else {
        assert(keys.filter(p).map_values(f) =~= Seq::empty());
    }
}

/// The databases of a store: the events, their indexes and what was deleted, each without scopes and
/// with them, the names of the scopes, and the database without a name.
pub proof fn law_databases_of_a_store(base: Seq<char>)
    requires
        base == "events"@ || base == "ci"@ || base == "tci"@ || base == "aci"@ || base == "akci"@
            || base == "atci"@ || base == "ktci"@ || base == "deleted-ids"@ || base
            == "deleted-coordinates"@,
    ensures
        is_expected(base),
        is_expected(base + "_scoped"@),
        is_expected("__global_scope_metadata"@),
        is_expected("(unnamed)"@),
        known_databases().len() == 19,
{
    let all = known_databases();
    reveal_strlit("_scoped");
    reveal_strlit("events");
    reveal_strlit("events_scoped");
    reveal_strlit("ci");
    reveal_strlit("ci_scoped");
    reveal_strlit("tci");
    reveal_strlit("tci_scoped");
    reveal_strlit("aci");
    reveal_strlit("aci_scoped");
    reveal_strlit("akci");
    reveal_strlit("akci_scoped");
    reveal_strlit("atci");
    reveal_strlit("atci_scoped");
    reveal_strlit("ktci");
    reveal_strlit("ktci_scoped");
    reveal_strlit("deleted-ids");
    reveal_strlit("deleted-ids_scoped");
    reveal_strlit("deleted-coordinates");
    reveal_strlit("deleted-coordinates_scoped");
    assert("events_scoped"@ =~= "events"@ + "_scoped"@);
    assert("ci_scoped"@ =~= "ci"@ + "_scoped"@);
    assert("tci_scoped"@ =~= "tci"@ + "_scoped"@);
    assert("aci_scoped"@ =~= "aci"@ + "_scoped"@);
    assert("akci_scoped"@ =~= "akci"@ + "_scoped"@);
    assert("atci_scoped"@ =~= "atci"@ + "_scoped"@);
    assert("ktci_scoped"@ =~= "ktci"@ + "_scoped"@);
    assert("deleted-ids_scoped"@ =~= "deleted-ids"@ + "_scoped"@);
    assert("deleted-coordinates_scoped"@ =~= "deleted-coordinates"@ + "_scoped"@);
    assert(all[0] == "events"@ && all[1] == "events_scoped"@);
    assert(all[2] == "ci"@ && all[3] == "ci_scoped"@);
    assert(all[4] == "tci"@ && all[5] == "tci_scoped"@);
    assert(all[6] == "aci"@ && all[7] == "aci_scoped"@);
    assert(all[8] == "akci"@ && all[9] == "akci_scoped"@);
    assert(all[10] == "atci"@ && all[11] == "atci_scoped"@);
    assert(all[12] == "ktci"@ && all[13] == "ktci_scoped"@);
    assert(all[14] == "deleted-ids"@ && all[15] == "deleted-ids_scoped"@);
    assert(all[16] == "deleted-coordinates"@ && all[17] == "deleted-coordinates_scoped"@);
    assert(all[18] == "__global_scope_metadata"@);
}

/// What is told of a corrupted entry of an index: its key, the event that is missing, in hexadecimal,
/// and no scope where the database has none.
pub proof fn law_corrupted_entries_name_the_event(
    database: Seq<char>,
    from: int,
    key: Seq<u8>,
    names: Map<u32, Seq<char>>,
)
    requires
        (database == "ci"@ && from == 8) || (database == "tci"@ && from == 194) || (database
            == "aci"@ && from == 40) || (database == "akci"@ && from == 42) || (database == "atci"@
            && from == 226) || (database == "ktci"@ && from == 196),
        key.len() >= from + 32,
    ensures
        corrupted_entry(database, key, names).database == database,
        corrupted_entry(database, key, names).key == key,
        corrupted_entry(database, key, names).event_id == hex_text(key.subrange(from, from + 32)),
        corrupted_entry(database, key, names).scope is None,
{
    law_index_keys_end_in_the_event(database, from);
    reveal_strlit("_scoped");
    reveal_strlit("ci");
    reveal_strlit("tci");
    reveal_strlit("aci");
    reveal_strlit("akci");
    reveal_strlit("atci");
    reveal_strlit("ktci");
    assert(!"_scoped"@.is_suffix_of(database));
    assert(strip_suffixes(database, "_scoped"@) == database);
    let segments = layout(database)->0;
    assert(key_event_id(database, key) == index_event_id(segments, key));
}

/// What is told of a corrupted entry with a scope names the scope by the hash in its key, and the
/// event that the rest of the key names.
pub proof fn law_corrupted_entries_name_the_scope(
    base: Seq<char>,
    hash: Seq<u8>,
    length: Seq<u8>,
    inner: Seq<u8>,
    names: Map<u32, Seq<char>>,
)
    requires
        hash.len() == 4,
        length.len() == 8,
        be_value(length) == inner.len(),
        !"_scoped"@.is_suffix_of(base),
    ensures
        ({
            let found = corrupted_entry(base + "_scoped"@, hash + length + inner, names);
            &&& found.scope == Some(names[be_value(hash) as u32])
            &&& found.event_id == corrupted_entry(base, inner, names).event_id
            &&& found.index_type == corrupted_entry(base, inner, names).index_type
        }),
{
    reveal_strlit("_scoped");
    let suffix = "_scoped"@;
    let database = base + suffix;
    let key = hash + length + inner;
    assert(database.subrange(database.len() - suffix.len(), database.len() as int) =~= suffix);
    assert(suffix.is_suffix_of(database));
    assert(database.take(database.len() - suffix.len()) =~= base);
    assert(strip_suffixes(base, suffix) == base);
    assert(strip_suffixes(database, suffix) == base);
    assert(key.subrange(0, 4) =~= hash);
    assert(key.subrange(4, 12) =~= length);
    assert(key.skip(12) =~= inner);
}

} // verus!
