//! The keys of the databases of the store: how they are laid out, and how they are shown.

use crate::hex_text::{encode, hex_text};
use crate::text::{
    concat2, contains_text, decimal, ends_with, has_substring, law_substring_stands_between,
    lossy_text, str_eq, strip_suffixes, text_of_bytes, text_of_bytes_lossy, trim_end, trim_end_char,
    trim_end_matches, u64_text, views,
};
use std::collections::HashMap;
use vstd::prelude::*;
use vstd::utf8::{decode_utf8, valid_utf8};

verus! {

broadcast use vstd::std_specs::hash::group_hash_axioms;

/// The number that bytes write, the highest first.
pub open spec fn be_value(bytes: Seq<u8>) -> nat
    decreases bytes.len(),
{
    if bytes.len() == 0 {
        0
    } else {
        be_value(bytes.drop_last()) * 256 + bytes.last() as nat
    }
}

/// Bytes write a number below the power of 256 of their length.
pub open spec fn power_of_256(n: nat) -> nat
    decreases n,
{
    if n == 0 {
        1
    } else {
        power_of_256((n - 1) as nat) * 256
    }
}

proof fn lemma_be_value_bound(bytes: Seq<u8>)
    ensures
        be_value(bytes) < power_of_256(bytes.len()),
    decreases bytes.len(),
{
    if bytes.len() > 0 {
        lemma_be_value_bound(bytes.drop_last());
    }
}

proof fn lemma_powers(n: nat)
    requires
        n <= 8,
    ensures
        power_of_256(n) <= u64::MAX + 1,
        n <= 4 ==> power_of_256(n) <= u32::MAX + 1,
        n <= 2 ==> power_of_256(n) <= u16::MAX + 1,
{
    reveal_with_fuel(power_of_256, 9);
}

/// The number that some bytes of a key write.
pub fn be_number(key: &[u8], from: usize, width: usize) -> (r: u64)
    requires
        from + width <= key@.len(),
        width <= 8,
    ensures
        r == be_value(key@.subrange(from as int, from + width)),
        width <= 4 ==> r <= u32::MAX,
        width <= 2 ==> r <= u16::MAX,
{
    let count: usize = key.len();
    let mut n: u64 = 0;
    let mut i: usize = 0;
    while i < width
        invariant
            i <= width <= 8,
            from + width <= count == key@.len(),
            n == be_value(key@.subrange(from as int, from + i)),
        decreases width - i,
    {
        proof {
            let next = key@.subrange(from as int, from + i + 1);
            assert(next.drop_last() =~= key@.subrange(from as int, from + i));
            lemma_be_value_bound(next);
            lemma_powers((i + 1) as nat);
        }
        n = n * 256 + key[from + i] as u64;
        i = i + 1;
    }
    proof {
        lemma_be_value_bound(key@.subrange(from as int, from + width));
        lemma_powers(width as nat);
    }
    n
}

/// A part of a list of bytes.
pub fn part(key: &[u8], from: usize, to: usize) -> (r: Vec<u8>)
    requires
        from <= to <= key@.len(),
    ensures
        r@ == key@.subrange(from as int, to as int),
{
    let mut bytes: Vec<u8> = Vec::new();
    let mut i: usize = from;
    while i < to
        invariant
            from <= i <= to <= key@.len(),
            bytes@ == key@.subrange(from as int, i as int),
        decreases to - i,
    {
        bytes.push(key[i]);
        proof {
            assert(bytes@ =~= key@.subrange(from as int, i + 1));
        }
        i = i + 1;
    }
    bytes
}

/// The names of the scopes, by their hashes.
pub struct ScopeRegistry {
    names: HashMap<u32, String>,
}

impl View for ScopeRegistry {
    type V = Map<u32, Seq<char>>;

    closed spec fn view(&self) -> Map<u32, Seq<char>> {
        self.names@.map_values(|name: String| name@)
    }
}

/// The names of the scopes after an entry of the database of scopes: its key is the name of a
/// scope, and its value the four bytes of the hash. Other entries say nothing.
pub open spec fn with_scope(
    names: Map<u32, Seq<char>>,
    key: Seq<u8>,
    value: Seq<u8>,
) -> Map<u32, Seq<char>> {
    if valid_utf8(key) && value.len() == 4 {
        names.insert(be_value(value) as u32, decode_utf8(key))
    } else {
        names
    }
}

impl ScopeRegistry {
    /// No scopes.
    pub fn new() -> (r: ScopeRegistry)
        ensures
            r@ == Map::<u32, Seq<char>>::empty(),
    {
        let r = ScopeRegistry { names: HashMap::new() };
        proof {
            assert(r@ =~= Map::<u32, Seq<char>>::empty());
        }
        r
    }

    /// Takes an entry of the database of scopes.
    pub fn note(&mut self, key: &[u8], value: &[u8])
        ensures
            final(self)@ == with_scope(old(self)@, key@, value@),
    {
        if let Some(name) = text_of_bytes(key) {
            if value.len() == 4 {
                let hash: u64 = be_number(value, 0, 4);
                proof {
                    assert(value@.subrange(0, 4) =~= value@);
                }
                self.names.insert(hash as u32, name);
                proof {
                    assert(self@ =~= with_scope(old(self)@, key@, value@));
                }
            }
        }
    }

    /// The name of a scope.
    pub fn get(&self, hash: u32) -> (r: Option<String>)
        ensures
            match r {
                Some(name) => self@.contains_key(hash) && self@[hash] == name@,
                None => !self@.contains_key(hash),
            },
    {
        match self.names.get(&hash) {
            Some(name) => Some(name.clone()),
            None => None,
        }
    }
}

/// The key of a scoped database begins with the hash of the scope in four bytes and the number of
/// the bytes that follow in eight.
pub open spec fn is_scoped_key(key: Seq<u8>) -> bool {
    key.len() >= 12 && be_value(key.subrange(4, 12)) == key.len() - 12
}

/// The hash of the scope of a key.
pub open spec fn scope_hash(key: Seq<u8>) -> u32 {
    be_value(key.subrange(0, 4)) as u32
}

/// The hash of the scope of the key of a scoped database, where it is one.
pub fn scoped_key_hash(key: &[u8]) -> (r: Option<u32>)
    ensures
        r == if is_scoped_key(key@) {
            Some(scope_hash(key@))
        } else {
            None
        },
{
    if key.len() < 12 || be_number(key, 4, 8) != (key.len() - 12) as u64 {
        None
    } else {
        Some(be_number(key, 0, 4) as u32)
    }
}

/// A part of a key.
#[derive(Debug, Clone, Copy, PartialEq, Eq, Structural)]
pub enum Segment {
    /// The time of creation, counted down from the largest number so that later comes first.
    Timestamp,
    Pubkey,
    Kind,
    TagName,
    TagValue,
    /// Bytes without a meaning.
    Padding,
}

impl Segment {
    /// The number of bytes.
    pub open spec fn width(self) -> nat {
        match self {
            Segment::Timestamp => 8,
            Segment::Pubkey => 32,
            Segment::Kind => 2,
            Segment::TagName => 1,
            Segment::TagValue => 182,
            Segment::Padding => 3,
        }
    }
}

/// The number of bytes of a segment.
fn segment_width(segment: Segment) -> (r: usize)
    ensures
        r == segment.width(),
{
    match segment {
        Segment::Timestamp => 8,
        Segment::Pubkey => 32,
        Segment::Kind => 2,
        Segment::TagName => 1,
        Segment::TagValue => 182,
        Segment::Padding => 3,
    }
}

/// The parts of the keys of an index, before the identifier of the event.
pub open spec fn layout(database: Seq<char>) -> Option<Seq<Segment>> {
    if database == "ci"@ {
        Some(seq![Segment::Timestamp])
    } else if database == "tci"@ {
        Some(seq![Segment::TagName, Segment::TagValue, Segment::Timestamp, Segment::Padding])
    } else if database == "aci"@ {
        Some(seq![Segment::Pubkey, Segment::Timestamp])
    } else if database == "akci"@ {
        Some(seq![Segment::Pubkey, Segment::Kind, Segment::Timestamp])
    } else if database == "atci"@ {
        Some(
            seq![
                Segment::Pubkey,
                Segment::TagName,
                Segment::TagValue,
                Segment::Timestamp,
                Segment::Padding,
            ],
        )
    } else if database == "ktci"@ {
        Some(
            seq![
                Segment::Kind,
                Segment::TagName,
                Segment::TagValue,
                Segment::Timestamp,
                Segment::Padding,
            ],
        )
    } else {
        None
    }
}

/// The parts of the keys of an index, before the identifier of the event.
pub fn index_layout(database: &str) -> (r: Option<Vec<Segment>>)
    ensures
        match r {
            Some(segments) => layout(database@) == Some(segments@),
            None => layout(database@) is None,
        },
{
    if str_eq(database, "ci") {
        Some(vec![Segment::Timestamp])
    } else if str_eq(database, "tci") {
        Some(vec![Segment::TagName, Segment::TagValue, Segment::Timestamp, Segment::Padding])
    } else if str_eq(database, "aci") {
        Some(vec![Segment::Pubkey, Segment::Timestamp])
    } else if str_eq(database, "akci") {
        Some(vec![Segment::Pubkey, Segment::Kind, Segment::Timestamp])
    } else if str_eq(database, "atci") {
        Some(
            vec![
                Segment::Pubkey,
                Segment::TagName,
                Segment::TagValue,
                Segment::Timestamp,
                Segment::Padding,
            ],
        )
    } else if str_eq(database, "ktci") {
        Some(
            vec![
                Segment::Kind,
                Segment::TagName,
                Segment::TagValue,
                Segment::Timestamp,
                Segment::Padding,
            ],
        )
    } else {
        None
    }
}

/// The value of a field of a key.
#[derive(Debug)]
pub enum FieldValue {
    Text(String),
    Number(u64),
    /// The field is there, which is all it says.
    Flag,
}

/// The value of a field of a key.
#[verifier::ext_equal]
pub enum FieldValueView {
    Text(Seq<char>),
    Number(nat),
    Flag,
}

impl View for FieldValue {
    type V = FieldValueView;

    open spec fn view(&self) -> FieldValueView {
        match self {
            FieldValue::Text(text) => FieldValueView::Text(text@),
            FieldValue::Number(n) => FieldValueView::Number(*n as nat),
            FieldValue::Flag => FieldValueView::Flag,
        }
    }
}

/// A field of a key, with its bytes in hexadecimal where they are shown beside the value.
#[derive(Debug)]
pub struct KeyField {
    pub name: String,
    pub raw_hex: Option<String>,
    pub value: FieldValue,
}

/// A field of a key.
#[verifier::ext_equal]
pub struct KeyFieldView {
    pub name: Seq<char>,
    pub raw_hex: Option<Seq<char>>,
    pub value: FieldValueView,
}

impl View for KeyField {
    type V = KeyFieldView;

    open spec fn view(&self) -> KeyFieldView {
        KeyFieldView {
            name: self.name@,
            raw_hex: match self.raw_hex {
                Some(text) => Some(text@),
                None => None,
            },
            value: self.value@,
        }
    }
}

/// The label of the value of a field that is shown beside its bytes: the name of a scope is looked
/// up, and any other value is read from the bytes.
pub fn value_label(name: &str) -> (r: String)
    ensures
        r@ == if name@ == "scope_hash"@ {
            "lookup_value"@
        } else {
            "parsed_value"@
        },
{
    if str_eq(name, "scope_hash") {
        "lookup_value".to_owned()
    } else {
        "parsed_value".to_owned()
    }
}

/// The views of a list of fields.
pub open spec fn fields_view(fields: Seq<KeyField>) -> Seq<KeyFieldView> {
    fields.map_values(|f: KeyField| f@)
}

/// A field that is shown by its value alone.
pub open spec fn plain_field(name: Seq<char>, value: FieldValueView) -> KeyFieldView {
    KeyFieldView { name, raw_hex: None, value }
}

/// A field that is shown by its value and its bytes.
pub open spec fn raw_field(name: Seq<char>, bytes: Seq<u8>, value: FieldValueView) -> KeyFieldView {
    KeyFieldView { name, raw_hex: Some(hex_text(bytes)), value }
}

fn plain(name: &str, value: FieldValue) -> (r: KeyField)
    ensures
        r@ == plain_field(name@, value@),
{
    KeyField { name: name.to_owned(), raw_hex: None, value }
}

fn raw(name: &str, bytes: &Vec<u8>, value: FieldValue) -> (r: KeyField)
    ensures
        r@ == raw_field(name@, bytes@, value@),
{
    KeyField { name: name.to_owned(), raw_hex: Some(encode(bytes)), value }
}

/// What a part of a key says.
pub open spec fn segment_fields(segment: Segment, bytes: Seq<u8>) -> Seq<KeyFieldView> {
    match segment {
        Segment::Timestamp => seq![
            raw_field(
                "timestamp"@,
                bytes,
                FieldValueView::Number((u64::MAX - be_value(bytes)) as nat),
            ),
        ],
        Segment::Pubkey => seq![plain_field("pubkey"@, FieldValueView::Text(hex_text(bytes)))],
        Segment::Kind => seq![
            raw_field("kind"@, bytes, FieldValueView::Number(be_value(bytes))),
        ],
        Segment::TagName => seq![
            raw_field("tag_name"@, bytes, FieldValueView::Text(seq![bytes[0] as char])),
        ],
        Segment::TagValue => seq![
            raw_field(
                "tag_value"@,
                bytes,
                FieldValueView::Text(trim_end(lossy_text(bytes), '\0')),
            ),
        ],
        Segment::Padding => Seq::empty(),
    }
}

/// The number of bytes of parts of a key.
pub open spec fn layout_width(segments: Seq<Segment>) -> nat
    decreases segments.len(),
{
    if segments.len() == 0 {
        0
    } else {
        layout_width(segments.drop_last()) + segments.last().width()
    }
}

/// The number of bytes of parts of a key.
pub fn width_of_layout(segments: &Vec<Segment>) -> (r: usize)
    requires
        layout_width(segments@) <= usize::MAX,
    ensures
        r == layout_width(segments@),
{
    let mut width: usize = 0;
    let mut i: usize = 0;
    proof {
        assert(segments@.take(0) =~= Seq::empty());
    }
    while i < segments.len()
        invariant
            i <= segments@.len(),
            layout_width(segments@) <= usize::MAX,
            width == layout_width(segments@.take(i as int)),
        decreases segments@.len() - i,
    {
        proof {
            assert(segments@.take(i + 1).drop_last() =~= segments@.take(i as int));
            lemma_layout_grows(segments@, i + 1);
        }
        width = width + segment_width(segments[i]);
        i = i + 1;
    }
    proof {
        assert(segments@.take(segments@.len() as int) =~= segments@);
    }
    width
}

/// No part of a key is wider than a tag's value.
pub proof fn lemma_layout_bound(segments: Seq<Segment>)
    ensures
        layout_width(segments) <= 182 * segments.len(),
    decreases segments.len(),
{
    if segments.len() > 0 {
        lemma_layout_bound(segments.drop_last());
    }
}

/// What the parts of a key say.
pub open spec fn layout_fields(segments: Seq<Segment>, key: Seq<u8>) -> Seq<KeyFieldView>
    decreases segments.len(),
{
    if segments.len() == 0 {
        Seq::empty()
    } else {
        let from = layout_width(segments.drop_last()) as int;
        let to = layout_width(segments) as int;
        layout_fields(segments.drop_last(), key) + segment_fields(
            segments.last(),
            key.subrange(from, to),
        )
    }
}

/// The identifier of the event of an index key, where the key has one.
pub open spec fn index_event_id(segments: Seq<Segment>, key: Seq<u8>) -> Option<Seq<u8>> {
    let from = layout_width(segments) as int;
    if key.len() >= from + 32 {
        Some(key.subrange(from, from + 32))
    } else {
        None
    }
}

/// What the key of an index says.
pub open spec fn index_fields(segments: Seq<Segment>, key: Seq<u8>) -> Option<Seq<KeyFieldView>> {
    if key.len() < layout_width(segments) {
        None
    } else {
        Some(
            layout_fields(segments, key).push(
                match index_event_id(segments, key) {
                    Some(id) => plain_field("event_id"@, FieldValueView::Text(hex_text(id))),
                    None => plain_field("incomplete"@, FieldValueView::Flag),
                },
            ),
        )
    }
}

/// What a key that is the identifier of an event says.
pub open spec fn id_fields(key: Seq<u8>) -> Option<Seq<KeyFieldView>> {
    if key.len() == 32 {
        Some(seq![plain_field("event_id"@, FieldValueView::Text(hex_text(key)))])
    } else {
        None
    }
}

/// What the key of a deleted address says.
pub open spec fn coordinate_fields(key: Seq<u8>) -> Option<Seq<KeyFieldView>> {
    if key.len() < 34 {
        None
    } else {
        let address = segment_fields(Segment::Kind, key.subrange(0, 2)) + segment_fields(
            Segment::Pubkey,
            key.subrange(2, 34),
        );
        let rest = key.skip(34);
        Some(
            if rest.len() > 0 {
                address.push(raw_field("d_tag"@, rest, FieldValueView::Text(lossy_text(rest))))
            } else {
                address
            },
        )
    }
}

/// What the key of a database says, but for its scope.
pub open spec fn inner_fields(database: Seq<char>, key: Seq<u8>) -> Option<Seq<KeyFieldView>> {
    match layout(database) {
        Some(segments) => index_fields(segments, key),
        None => if database == "events"@ || database == "deleted-ids"@ {
            id_fields(key)
        } else if database == "deleted-coordinates"@ {
            coordinate_fields(key)
        } else {
            None
        },
    }
}

/// What the scope of a key says.
pub open spec fn scope_fields(key: Seq<u8>, names: Map<u32, Seq<char>>) -> Seq<KeyFieldView> {
    let hash = key.subrange(0, 4);
    let name = if names.contains_key(scope_hash(key)) {
        names[scope_hash(key)]
    } else {
        "unknown_scope_"@ + hex_text(hash)
    };
    seq![
        raw_field("scope_hash"@, hash, FieldValueView::Text(name)),
        raw_field(
            "original_key_length"@,
            key.subrange(4, 12),
            FieldValueView::Number(be_value(key.subrange(4, 12))),
        ),
    ]
}

/// What the key of a database says.
pub open spec fn key_fields(
    database: Seq<char>,
    key: Seq<u8>,
    names: Map<u32, Seq<char>>,
) -> Option<Seq<KeyFieldView>> {
    if "_scoped"@.is_suffix_of(database) {
        if is_scoped_key(key) {
            match inner_fields(strip_suffixes(database, "_scoped"@), key.skip(12)) {
                Some(fields) => Some(scope_fields(key, names) + fields),
                None => None,
            }
        } else {
            None
        }
    } else if database == "__global_scope_metadata"@ {
        if valid_utf8(key) {
            Some(seq![plain_field("scope_name"@, FieldValueView::Text(decode_utf8(key)))])
        } else {
            None
        }
    } else {
        inner_fields(database, key)
    }
}

/// The result is the fields that are told.
pub open spec fn gives_fields(
    r: Option<Vec<KeyField>>,
    fields: Option<Seq<KeyFieldView>>,
) -> bool {
    match r {
        Some(list) => fields == Some(fields_view(list@)),
        None => fields is None,
    }
}

/// What a part of a key says.
fn parse_segment(segment: Segment, bytes: &Vec<u8>) -> (r: Option<KeyField>)
    requires
        bytes@.len() == segment.width(),
    ensures
        match r {
            Some(field) => segment_fields(segment, bytes@) == seq![field@],
            None => segment_fields(segment, bytes@) == Seq::<KeyFieldView>::empty(),
        },
{
    let slice = bytes.as_slice();
    proof {
        assert(bytes@.subrange(0, bytes@.len() as int) =~= bytes@);
    }
    match segment {
        Segment::Timestamp => {
            let time: u64 = be_number(slice, 0, 8);
            Some(raw("timestamp", bytes, FieldValue::Number(u64::MAX - time)))
        },
        Segment::Pubkey => Some(plain("pubkey", FieldValue::Text(encode(bytes)))),
        Segment::Kind => {
            let kind: u64 = be_number(slice, 0, 2);
            Some(raw("kind", bytes, FieldValue::Number(kind)))
        },
        Segment::TagName => {
            let mut name = String::new();
            name.push(bytes[0] as char);
            proof {
                assert(name@ =~= seq![bytes@[0] as char]);
            }
            Some(raw("tag_name", bytes, FieldValue::Text(name)))
        },
        Segment::TagValue => {
            let text = text_of_bytes_lossy(slice);
            Some(raw("tag_value", bytes, FieldValue::Text(trim_end_char(text.as_str(), '\0'))))
        },
        Segment::Padding => None,
    }
}

/// What the key of an index says.
fn parse_index_key(segments: &Vec<Segment>, key: &[u8]) -> (r: Option<Vec<KeyField>>)
    ensures
        gives_fields(r, index_fields(segments@, key@)),
{
    let count: usize = key.len();
    let mut fields: Vec<KeyField> = Vec::new();
    let mut at: usize = 0;
    let mut i: usize = 0;
    proof {
        assert(segments@.take(0) =~= Seq::empty());
        assert(fields_view(fields@) =~= Seq::empty());
    }
    while i < segments.len()
        invariant
            i <= segments@.len(),
            at <= count == key@.len(),
            at == layout_width(segments@.take(i as int)),
            fields_view(fields@) == layout_fields(segments@.take(i as int), key@),
        decreases segments@.len() - i,
    {
        let segment: Segment = segments[i];
        let width: usize = segment_width(segment);
        proof {
            assert(segments@.take(i + 1).drop_last() =~= segments@.take(i as int));
            assert(segments@.take(i + 1).last() == segment);
            lemma_layout_grows(segments@, i + 1);
        }
        if width > count - at {
            return None;
        }
        let bytes = part(key, at, at + width);
        let ghost before = fields_view(fields@);
        if let Some(field) = parse_segment(segment, &bytes) {
            let ghost told = field@;
            fields.push(field);
            proof {
                assert(fields_view(fields@) =~= before + seq![told]);
            }
        } else {
            proof {
                assert(before + Seq::<KeyFieldView>::empty() =~= before);
            }
        }
        at = at + width;
        i = i + 1;
    }
    proof {
        assert(segments@.take(segments@.len() as int) =~= segments@);
    }
    let ghost before = fields_view(fields@);
    let last = if count - at >= 32 {
        let id = part(key, at, at + 32);
        plain("event_id", FieldValue::Text(encode(&id)))
    } else {
        plain("incomplete", FieldValue::Flag)
    };
    let ghost told = last@;
    fields.push(last);
    proof {
        assert(fields_view(fields@) =~= before.push(told));
    }
    Some(fields)
}

proof fn lemma_layout_grows(segments: Seq<Segment>, n: int)
    requires
        0 <= n <= segments.len(),
    ensures
        layout_width(segments.take(n)) <= layout_width(segments),
    decreases segments.len() - n,
{
    if n == segments.len() {
        assert(segments.take(n) =~= segments);
    } else {
        lemma_layout_grows(segments, n + 1);
        assert(segments.take(n + 1).drop_last() =~= segments.take(n));
    }
}

/// What a key that is the identifier of an event says.
fn parse_id_key(key: &[u8]) -> (r: Option<Vec<KeyField>>)
    ensures
        gives_fields(r, id_fields(key@)),
{
    if key.len() != 32 {
        return None;
    }
    let id = part(key, 0, 32);
    let mut fields: Vec<KeyField> = Vec::new();
    fields.push(plain("event_id", FieldValue::Text(encode(&id))));
    proof {
        assert(key@.subrange(0, 32) =~= key@);
        assert(fields_view(fields@) =~= id_fields(key@)->Some_0);
    }
    Some(fields)
}

/// What the key of a deleted address says.
fn parse_deleted_coordinates_key(key: &[u8]) -> (r: Option<Vec<KeyField>>)
    ensures
        gives_fields(r, coordinate_fields(key@)),
{
    let count: usize = key.len();
    if count < 34 {
        return None;
    }
    let kind_bytes = part(key, 0, 2);
    let pubkey = part(key, 2, 34);
    let kind: u64 = be_number(key, 0, 2);
    let mut fields: Vec<KeyField> = Vec::new();
    fields.push(raw("kind", &kind_bytes, FieldValue::Number(kind)));
    fields.push(plain("pubkey", FieldValue::Text(encode(&pubkey))));
    let rest = part(key, 34, count);
    if rest.len() > 0 {
        let text = text_of_bytes_lossy(rest.as_slice());
        fields.push(raw("d_tag", &rest, FieldValue::Text(text)));
    }
    proof {
        assert(key@.skip(34) =~= key@.subrange(34, count as int));
        assert(fields_view(fields@) =~= coordinate_fields(key@)->Some_0);
    }
    Some(fields)
}

/// What the key of a database says, but for its scope.
fn parse_inner_key(database: &str, key: &[u8]) -> (r: Option<Vec<KeyField>>)
    ensures
        gives_fields(r, inner_fields(database@, key@)),
{
    match index_layout(database) {
        Some(segments) => parse_index_key(&segments, key),
        None => {
            if str_eq(database, "events") || str_eq(database, "deleted-ids") {
                parse_id_key(key)
            } else if str_eq(database, "deleted-coordinates") {
                parse_deleted_coordinates_key(key)
            } else {
                None
            }
        },
    }
}

/// What the key of a database says.
pub fn parse_key(key: &[u8], database: &str, scopes: &ScopeRegistry) -> (r: Option<Vec<KeyField>>)
    ensures
        gives_fields(r, key_fields(database@, key@, scopes@)),
{
    if ends_with(database, "_scoped") {
        let hash: u32 = match scoped_key_hash(key) {
            Some(hash) => hash,
            None => {
                return None;
            },
        };
        let count: usize = key.len();
        let inner = part(key, 12, count);
        proof {
            assert(inner@ =~= key@.skip(12));
        }
        let base = trim_end_matches(database, "_scoped");
        let mut rest: Vec<KeyField> = match parse_inner_key(base.as_str(), inner.as_slice()) {
            Some(fields) => fields,
            None => {
                return None;
            },
        };
        let hash_bytes = part(key, 0, 4);
        let name = match scopes.get(hash) {
            Some(name) => name,
            None => concat2("unknown_scope_", encode(&hash_bytes).as_str()),
        };
        let length_bytes = part(key, 4, 12);
        let length: u64 = be_number(key, 4, 8);
        let mut fields: Vec<KeyField> = Vec::new();
        fields.push(raw("scope_hash", &hash_bytes, FieldValue::Text(name)));
        fields.push(raw("original_key_length", &length_bytes, FieldValue::Number(length)));
        let ghost first = fields@;
        let ghost others = rest@;
        fields.append(&mut rest);
        proof {
            assert(fields_view(first) =~= scope_fields(key@, scopes@));
            assert(fields_view(fields@) =~= fields_view(first) + fields_view(others));
        }
        Some(fields)
    } else if str_eq(database, "__global_scope_metadata") {
        match text_of_bytes(key) {
            Some(name) => {
                let mut fields: Vec<KeyField> = Vec::new();
                fields.push(plain("scope_name", FieldValue::Text(name)));
                proof {
                    assert(fields_view(fields@) =~= seq![
                        plain_field("scope_name"@, FieldValueView::Text(decode_utf8(key@))),
                    ]);
                }
                Some(fields)
            },
            None => None,
        }
    } else {
        parse_inner_key(database, key)
    }
}

/// The databases of the store that have a name.
pub open spec fn known_databases() -> Seq<Seq<char>> {
    seq![
        "events"@,
        "events_scoped"@,
        "ci"@,
        "ci_scoped"@,
        "tci"@,
        "tci_scoped"@,
        "aci"@,
        "aci_scoped"@,
        "akci"@,
        "akci_scoped"@,
        "atci"@,
        "atci_scoped"@,
        "ktci"@,
        "ktci_scoped"@,
        "deleted-ids"@,
        "deleted-ids_scoped"@,
        "deleted-coordinates"@,
        "deleted-coordinates_scoped"@,
        "__global_scope_metadata"@,
    ]
}

/// The databases of the store that have a name.
pub fn common_names() -> (r: Vec<String>)
    ensures
        views(r@) == known_databases(),
{
    let r: Vec<String> = vec![
        "events".to_owned(),
        "events_scoped".to_owned(),
        "ci".to_owned(),
        "ci_scoped".to_owned(),
        "tci".to_owned(),
        "tci_scoped".to_owned(),
        "aci".to_owned(),
        "aci_scoped".to_owned(),
        "akci".to_owned(),
        "akci_scoped".to_owned(),
        "atci".to_owned(),
        "atci_scoped".to_owned(),
        "ktci".to_owned(),
        "ktci_scoped".to_owned(),
        "deleted-ids".to_owned(),
        "deleted-ids_scoped".to_owned(),
        "deleted-coordinates".to_owned(),
        "deleted-coordinates_scoped".to_owned(),
        "__global_scope_metadata".to_owned(),
    ];
    proof {
        assert(views(r@) =~= known_databases());
    }
    r
}

/// The names that hold a text, or all where there is none.
pub open spec fn selected(names: Seq<Seq<char>>, wanted: Option<Seq<char>>) -> Seq<Seq<char>> {
    names.filter(
        |name: Seq<char>|
            match wanted {
                Some(text) => has_substring(name, text),
                None => true,
            },
    )
}

/// The databases that are shown: those whose name holds a text, or all where there is none.
pub fn select_databases(names: &Vec<String>, wanted: Option<&str>) -> (r: Vec<String>)
    ensures
        views(r@) == selected(
            views(names@),
            match wanted {
                Some(text) => Some(text@),
                None => None,
            },
        ),
{
    let ghost text = match wanted {
        Some(text) => Some(text@),
        None => None,
    };
    let mut kept: Vec<String> = Vec::new();
    let mut i: usize = 0;
    proof {
        reveal(Seq::filter);
        assert(views(names@).take(0) =~= Seq::empty());
        assert(views(kept@) =~= Seq::empty());
    }
    while i < names.len()
        invariant
            i <= names@.len(),
            text == (match wanted {
                Some(text) => Some(text@),
                None => None,
            }),
            views(kept@) == selected(views(names@).take(i as int), text),
        decreases names@.len() - i,
    {
        let wanted_name = match wanted {
            Some(text) => contains_text(names[i].as_str(), text),
            None => true,
        };
        let ghost before = views(kept@);
        proof {
            reveal(Seq::filter);
            assert(views(names@).take(i + 1).drop_last() =~= views(names@).take(i as int));
            assert(views(names@).take(i + 1).last() == names@[i as int]@);
        }
        if wanted_name {
            kept.push(names[i].clone());
            proof {
                assert(views(kept@) =~= before.push(names@[i as int]@));
            }
        }
        i = i + 1;
    }
    proof {
        assert(views(names@).take(names@.len() as int) =~= views(names@));
    }
    kept
}

/// The number of entries that are shown.
pub fn shown_count(entries: usize, limit: Option<usize>) -> (r: usize)
    ensures
        r == match limit {
            Some(n) => if n < entries {
                n
            } else {
                entries
            },
            None => entries,
        },
{
    match limit {
        Some(n) => {
            if n < entries {
                n
            } else {
                entries
            }
        },
        None => entries,
    }
}

/// Whether what its keys say is shown for a database: where the key is an identifier, the bytes
/// say it.
pub open spec fn explains_keys(database: Seq<char>) -> bool {
    database != "events"@ && database != "events_scoped"@ && database != "deleted-ids"@ && database
        != "deleted-ids_scoped"@
}

/// What a key says, where that is shown for the database.
pub fn explained_key(key: &[u8], database: &str, scopes: &ScopeRegistry) -> (r: Option<
    Vec<KeyField>,
>)
    ensures
        gives_fields(
            r,
            if explains_keys(database@) {
                key_fields(database@, key@, scopes@)
            } else {
                None
            },
        ),
{
    if str_eq(database, "events") || str_eq(database, "events_scoped") || str_eq(
        database,
        "deleted-ids",
    ) || str_eq(database, "deleted-ids_scoped") {
        None
    } else {
        parse_key(key, database, scopes)
    }
}

/// The number of bytes of a value above which only the first are shown.
pub const LONG_VALUE: usize = 100;

/// The number of bytes that are shown of a long value.
pub const SHOWN_BYTES: usize = 50;

/// How a value is shown.
pub open spec fn value_text(value: Seq<u8>) -> Seq<char> {
    if value.len() > LONG_VALUE {
        "\"value_hex\": \""@ + hex_text(value.take(SHOWN_BYTES as int)) + "\", "@
            + "\"value_truncated\": true, \"value_size_bytes\": "@ + decimal(value.len())
    } else {
        "\"value_hex\": \""@ + hex_text(value) + "\""@
    }
}

/// How an entry is shown, with the JSON text of what its key says. A comma and a line break stand
/// before every entry but the first.
pub open spec fn entry_text_of(
    is_first: bool,
    database: Seq<char>,
    key: Seq<u8>,
    value: Seq<u8>,
    parsed_key: Option<Seq<char>>,
) -> Seq<char> {
    let separator = if is_first {
        Seq::empty()
    } else {
        ",\n"@
    };
    let shown = separator + "    {\"database\": \""@ + database + "\", \"key_hex\": \""@
        + hex_text(key) + "\", "@ + value_text(value);
    match parsed_key {
        Some(json) => shown + ", \"parsed_key\": "@ + json + "}"@,
        None => shown + "}"@,
    }
}

/// How an entry is shown, with the JSON text of what its key says.
pub fn entry_text(
    is_first: bool,
    database: &str,
    key: &Vec<u8>,
    value: &Vec<u8>,
    parsed_key: Option<&str>,
) -> (r: String)
    ensures
        r@ == entry_text_of(
            is_first,
            database@,
            key@,
            value@,
            match parsed_key {
                Some(json) => Some(json@),
                None => None,
            },
        ),
{
    let mut text = if is_first {
        String::new()
    } else {
        ",\n".to_owned()
    };
    proof {
        assert(text@ =~= if is_first {
            Seq::empty()
        } else {
            ",\n"@
        });
    }
    text.append("    {\"database\": \"");
    text.append(database);
    text.append("\", \"key_hex\": \"");
    text.append(encode(key).as_str());
    text.append("\", ");
    let ghost head = text@;
    let mut shown = "\"value_hex\": \"".to_owned();
    let count: usize = value.len();
    if count > LONG_VALUE {
        let first = part(value.as_slice(), 0, SHOWN_BYTES);
        proof {
            assert(value@.subrange(0, SHOWN_BYTES as int) =~= value@.take(SHOWN_BYTES as int));
        }
        shown.append(encode(&first).as_str());
        shown.append("\", ");
        shown.append("\"value_truncated\": true, \"value_size_bytes\": ");
        shown.append(u64_text(count as u64).as_str());
    } else {
        shown.append(encode(value).as_str());
        shown.append("\"");
    }
    text.append(shown.as_str());
    match parsed_key {
        Some(json) => {
            text.append(", \"parsed_key\": ");
            text.append(json);
        },
        None => {},
    }
    text.append("}");
    text
}

/// Bytes are read as a number with the most significant byte first: bytes behind other bytes are
/// the low part of the number.
pub proof fn law_bytes_are_big_endian(a: Seq<u8>, b: Seq<u8>, byte: u8)
    ensures
        be_value(a + b) == be_value(a) * power_of_256(b.len()) + be_value(b),
        be_value(seq![byte]) == byte,
        be_value(b) < power_of_256(b.len()),
    decreases b.len(),
{
    assert(seq![byte].drop_last() =~= Seq::empty());
    assert(be_value(Seq::empty()) == 0);
    lemma_be_value_bound(b);
    if b.len() == 0 {
        assert(a + b =~= a);
        assert(power_of_256(0) == 1);
        let x = be_value(a) as int;
        assert(x * 1 == x);
    } else {
        law_bytes_are_big_endian(a, b.drop_last(), byte);
        assert((a + b).drop_last() =~= a + b.drop_last());
        assert((a + b).last() == b.last());
        let x = be_value(a) as int;
        let p = power_of_256((b.len() - 1) as nat) as int;
        let q = power_of_256(b.len()) as int;
        assert(q == p * 256);
        assert(x * q == (x * p) * 256) by (nonlinear_arith)
            requires
                q == p * 256,
        ;
        let low = be_value(b.drop_last()) as int;
        assert((x * p + low) * 256 == (x * p) * 256 + low * 256) by (nonlinear_arith);
    }
}

/// The databases that are indexes, and where the identifier of the event stands in their keys: behind
/// the time, the tag, the author and the kind that each of them has.
pub proof fn law_index_keys_end_in_the_event(database: Seq<char>, from: int)
    requires
        (database == "ci"@ && from == 8) || (database == "tci"@ && from == 194) || (database
            == "aci"@ && from == 40) || (database == "akci"@ && from == 42) || (database == "atci"@
            && from == 226) || (database == "ktci"@ && from == 196),
    ensures
        layout(database) matches Some(segments) && layout_width(segments) == from,
        forall|key: Seq<u8>|
            key.len() >= from + 32 ==> #[trigger] index_event_id(layout(database)->0, key) == Some(
                key.subrange(from, from + 32),
            ),
        forall|key: Seq<u8>|
            key.len() < from + 32 ==> #[trigger] index_event_id(layout(database)->0, key) is None,
{
    reveal_strlit("ci");
    reveal_strlit("tci");
    reveal_strlit("aci");
    reveal_strlit("akci");
    reveal_strlit("atci");
    reveal_strlit("ktci");
    assert("tci"@[0] != "aci"@[0]);
    assert("akci"@[1] != "atci"@[1]);
    assert("akci"@[0] != "ktci"@[0]);
    assert("atci"@[0] != "ktci"@[0]);
    assert(layout(database) is Some);
    let segments = layout(database)->0;
    reveal_with_fuel(layout_width, 7);
    if segments.len() == 1 {
        assert(segments.drop_last() =~= Seq::empty());
    } else if segments.len() == 2 {
        assert(segments.drop_last().drop_last() =~= Seq::empty());
    } else if segments.len() == 3 {
        assert(segments.drop_last().drop_last().drop_last() =~= Seq::empty());
    } else if segments.len() == 4 {
        assert(segments.drop_last().drop_last().drop_last().drop_last() =~= Seq::empty());
    } else {
        assert(segments.drop_last().drop_last().drop_last().drop_last().drop_last()
            =~= Seq::empty());
    }
}

/// A key with a scope is the hash of the scope, the length of the rest, and the rest: it says what
/// its scope is, and what the rest says in the database without scopes.
pub proof fn law_scoped_keys_hold_plain_keys(
    base: Seq<char>,
    hash: Seq<u8>,
    length: Seq<u8>,
    inner: Seq<u8>,
    names: Map<u32, Seq<char>>,
)
    requires
        hash.len() == 4,
        length.len() == 8,
        be_value(length) == inner.len(),
        !"_scoped"@.is_suffix_of(base),
    ensures
        key_fields(base + "_scoped"@, hash + length + inner, names) is Some <==> inner_fields(
            base,
            inner,
        ) is Some,
        key_fields(base + "_scoped"@, hash + length + inner, names) matches Some(fields) ==> {
            &&& fields.len() == inner_fields(base, inner)->0.len() + 2
            &&& fields.skip(2) == inner_fields(base, inner)->0
            &&& fields[0].name == "scope_hash"@
            &&& fields[0].raw_hex == Some(hex_text(hash))
            &&& names.contains_key(be_value(hash) as u32) ==> fields[0].value
                == FieldValueView::Text(names[be_value(hash) as u32])
            &&& fields[1].value == FieldValueView::Number(inner.len())
        },
{
    reveal_strlit("_scoped");
    let suffix = "_scoped"@;
    let database = base + suffix;
    let key = hash + length + inner;
    assert(database.subrange(database.len() - suffix.len(), database.len() as int) =~= suffix);
    assert(suffix.is_suffix_of(database));
    assert(database.take(database.len() - suffix.len()) =~= base);
    assert(strip_suffixes(base, suffix) == base);
    assert(key.subrange(0, 4) =~= hash);
    assert(key.subrange(4, 12) =~= length);
    assert(key.skip(12) =~= inner);
    if let Some(fields) = inner_fields(base, inner) {
        assert((scope_fields(key, names) + fields).skip(2) =~= fields);
    }
}

/// A name of a scope is noted under its hash, and the names of other hashes stay.
pub proof fn law_scope_names_are_noted(
    names: Map<u32, Seq<char>>,
    key: Seq<u8>,
    value: Seq<u8>,
    other: u32,
)
    requires
        valid_utf8(key),
        value.len() == 4,
    ensures
        with_scope(names, key, value).contains_key(be_value(value) as u32),
        with_scope(names, key, value)[be_value(value) as u32] == decode_utf8(key),
        other != be_value(value) as u32 ==> (with_scope(names, key, value).contains_key(other)
            <==> names.contains_key(other)) && with_scope(names, key, value)[other] == names[other],
{
}

/// The time in a key is what is missing to the largest number of 64 bits, so that later events come
/// first.
pub proof fn law_later_times_come_first(bytes: Seq<u8>, time: u64)
    requires
        bytes.len() == 8,
        be_value(bytes) + time == u64::MAX,
    ensures
        segment_fields(Segment::Timestamp, bytes).len() == 1,
        segment_fields(Segment::Timestamp, bytes)[0].name == "timestamp"@,
        segment_fields(Segment::Timestamp, bytes)[0].value == FieldValueView::Number(time as nat),
        segment_fields(Segment::Timestamp, bytes)[0].raw_hex == Some(hex_text(bytes)),
{
}

/// An entry is shown as a JSON object with the database, the key, and the value; of a value of more
/// than a hundred bytes only the first fifty are shown, with its size. Entries are separated by
/// commas.
pub proof fn law_entries_are_shown(
    database: Seq<char>,
    key: Seq<u8>,
    value: Seq<u8>,
    json: Seq<char>,
)
    ensures
        entry_text_of(false, database, key, value, None) == ",\n"@ + entry_text_of(
            true,
            database,
            key,
            value,
            None,
        ),
        entry_text_of(false, database, key, value, Some(json)) == ",\n"@ + entry_text_of(
            true,
            database,
            key,
            value,
            Some(json),
        ),
        has_substring(entry_text_of(true, database, key, value, None), database),
        has_substring(entry_text_of(true, database, key, value, None), hex_text(key)),
        has_substring(entry_text_of(true, database, key, value, Some(json)), json),
        value.len() <= 100 ==> has_substring(
            entry_text_of(true, database, key, value, None),
            hex_text(value),
        ),
        value.len() > 100 ==> has_substring(
            entry_text_of(true, database, key, value, None),
            hex_text(value.take(50)),
        ) && has_substring(
            entry_text_of(true, database, key, value, None),
            "\"value_size_bytes\": "@ + decimal(value.len()),
        ),
{
    let first = "    {\"database\": \""@;
    let second = "\", \"key_hex\": \""@;
    let third = "\", "@;
    let end = "}"@;
    let shown = value_text(value);
    let plain = entry_text_of(true, database, key, value, None);
    let parsed = entry_text_of(true, database, key, value, Some(json));
    let label = ", \"parsed_key\": "@;
    let sep = ",\n"@;
    assert(Seq::<char>::empty() + first =~= first);
    assert(plain =~= first + database + second + hex_text(key) + third + shown + end);
    assert(parsed =~= first + database + second + hex_text(key) + third + shown + label + json
        + end);
    assert(entry_text_of(false, database, key, value, None) =~= sep + plain);
    assert(entry_text_of(false, database, key, value, Some(json)) =~= sep + parsed);
    lemma_between(plain, first, database, second + hex_text(key) + third + shown + end);
    lemma_between(plain, first + database + second, hex_text(key), third + shown + end);
    lemma_between(
        parsed,
        first + database + second + hex_text(key) + third + shown + label,
        json,
        end,
    );
    let open = "\"value_hex\": \""@;
    let front = first + database + second + hex_text(key) + third + open;
    if value.len() <= 100 {
        lemma_between(plain, front, hex_text(value), "\""@ + end);
    } else {
        let part = hex_text(value.take(50));
        let note = "\"value_truncated\": true, \"value_size_bytes\": "@;
        let size = "\"value_size_bytes\": "@;
        let flag = "\"value_truncated\": true, "@;
        reveal_strlit("\"value_truncated\": true, \"value_size_bytes\": ");
        reveal_strlit("\"value_size_bytes\": ");
        reveal_strlit("\"value_truncated\": true, ");
        assert(note =~= flag + size);
        lemma_between(plain, front, part, "\", "@ + note + decimal(value.len()) + end);
        lemma_between(plain, front + part + "\", "@ + flag, size + decimal(value.len()), end);
    }
}

proof fn lemma_between(s: Seq<char>, before: Seq<char>, part: Seq<char>, after: Seq<char>)
    requires
        s =~= before + part + after,
    ensures
        has_substring(s, part),
{
    law_substring_stands_between(s, part);
    assert(s == before + part + after);
}

/// At most as many entries are shown as there are, and as were asked for.
pub proof fn law_shown_entries_are_limited(entries: usize, limit: Option<usize>, r: usize)
    requires
        call_ensures(shown_count, (entries, limit), r),
    ensures
        r <= entries,
        limit matches Some(n) ==> r <= n && (r == n || r == entries),
        limit is None ==> r == entries,
{
}

/// The parts of the keys of the indexes, in their order: the time by which events are found, and
/// before it what they are found by; behind it stands the event.
pub proof fn law_index_keys_show_their_parts(
    author: Seq<u8>,
    kind: Seq<u8>,
    letter: u8,
    value: Seq<u8>,
    time: Seq<u8>,
    padding: Seq<u8>,
    id: Seq<u8>,
)
    requires
        author.len() == 32,
        kind.len() == 2,
        value.len() == 182,
        time.len() == 8,
        padding.len() == 3,
        id.len() == 32,
    ensures
        ({
            let moment = segment_fields(Segment::Timestamp, time);
            let by = segment_fields(Segment::Pubkey, author);
            let sort = segment_fields(Segment::Kind, kind);
            let tag = segment_fields(Segment::TagName, seq![letter]) + segment_fields(
                Segment::TagValue,
                value,
            );
            let event = plain_field("event_id"@, FieldValueView::Text(hex_text(id)));
            &&& inner_fields("ci"@, time + id) == Some(moment.push(event))
            &&& inner_fields("aci"@, author + time + id) == Some((by + moment).push(event))
            &&& inner_fields("akci"@, author + kind + time + id) == Some(
                (by + sort + moment).push(event),
            )
            &&& inner_fields("tci"@, seq![letter] + value + time + padding + id) == Some(
                (tag + moment).push(event),
            )
            &&& inner_fields("atci"@, author + seq![letter] + value + time + padding + id) == Some(
                (by + tag + moment).push(event),
            )
            &&& inner_fields("ktci"@, kind + seq![letter] + value + time + padding + id) == Some(
                (sort + tag + moment).push(event),
            )
        }),
{
    let moment = segment_fields(Segment::Timestamp, time);
    let by = segment_fields(Segment::Pubkey, author);
    let sort = segment_fields(Segment::Kind, kind);
    let first = segment_fields(Segment::TagName, seq![letter]);
    let second = segment_fields(Segment::TagValue, value);
    law_index_keys_end_in_the_event("ci"@, 8);
    law_index_keys_end_in_the_event("aci"@, 40);
    law_index_keys_end_in_the_event("akci"@, 42);
    law_index_keys_end_in_the_event("tci"@, 194);
    law_index_keys_end_in_the_event("atci"@, 226);
    law_index_keys_end_in_the_event("ktci"@, 196);
    lemma_layouts();
    let key = time + id;
    lemma_fields_of_one(Segment::Timestamp, key);
    assert(key.subrange(0, 8) =~= time);
    assert(key.subrange(8, 40) =~= id);
    let key = author + time + id;
    lemma_fields_of_two(Segment::Pubkey, Segment::Timestamp, key);
    assert(key.subrange(0, 32) =~= author);
    assert(key.subrange(32, 40) =~= time);
    assert(key.subrange(40, 72) =~= id);
    let key = author + kind + time + id;
    lemma_fields_of_three(Segment::Pubkey, Segment::Kind, Segment::Timestamp, key);
    assert(key.subrange(0, 32) =~= author);
    assert(key.subrange(32, 34) =~= kind);
    assert(key.subrange(34, 42) =~= time);
    assert(key.subrange(42, 74) =~= id);
    let key = seq![letter] + value + time + padding + id;
    lemma_fields_of_four(
        Segment::TagName,
        Segment::TagValue,
        Segment::Timestamp,
        Segment::Padding,
        key,
    );
    assert(key.subrange(0, 1) =~= seq![letter]);
    assert(key.subrange(1, 183) =~= value);
    assert(key.subrange(183, 191) =~= time);
    assert(key.subrange(194, 226) =~= id);
    assert(first + second + moment + Seq::empty() =~= first + second + moment);
    let key = author + seq![letter] + value + time + padding + id;
    lemma_fields_of_five(
        Segment::Pubkey,
        Segment::TagName,
        Segment::TagValue,
        Segment::Timestamp,
        Segment::Padding,
        key,
    );
    assert(key.subrange(0, 32) =~= author);
    assert(key.subrange(32, 33) =~= seq![letter]);
    assert(key.subrange(33, 215) =~= value);
    assert(key.subrange(215, 223) =~= time);
    assert(key.subrange(226, 258) =~= id);
    assert(by + first + second + moment + Seq::empty() =~= by + (first + second) + moment);
    let key = kind + seq![letter] + value + time + padding + id;
    lemma_fields_of_five(
        Segment::Kind,
        Segment::TagName,
        Segment::TagValue,
        Segment::Timestamp,
        Segment::Padding,
        key,
    );
    assert(key.subrange(0, 2) =~= kind);
    assert(key.subrange(2, 3) =~= seq![letter]);
    assert(key.subrange(3, 185) =~= value);
    assert(key.subrange(185, 193) =~= time);
    assert(key.subrange(196, 228) =~= id);
    assert(sort + first + second + moment + Seq::empty() =~= sort + (first + second) + moment);
}

proof fn lemma_layouts()
    ensures
        layout("ci"@) == Some(seq![Segment::Timestamp]),
        layout("tci"@) == Some(
            seq![Segment::TagName, Segment::TagValue, Segment::Timestamp, Segment::Padding],
        ),
        layout("aci"@) == Some(seq![Segment::Pubkey, Segment::Timestamp]),
        layout("akci"@) == Some(seq![Segment::Pubkey, Segment::Kind, Segment::Timestamp]),
        layout("atci"@) == Some(
            seq![
                Segment::Pubkey,
                Segment::TagName,
                Segment::TagValue,
                Segment::Timestamp,
                Segment::Padding,
            ],
        ),
        layout("ktci"@) == Some(
            seq![
                Segment::Kind,
                Segment::TagName,
                Segment::TagValue,
                Segment::Timestamp,
                Segment::Padding,
            ],
        ),
{
    reveal_strlit("ci");
    reveal_strlit("tci");
    reveal_strlit("aci");
    reveal_strlit("akci");
    reveal_strlit("atci");
    reveal_strlit("ktci");
    assert("tci"@[0] != "aci"@[0]);
    assert("akci"@[1] != "atci"@[1]);
    assert("akci"@[0] != "ktci"@[0]);
    assert("atci"@[0] != "ktci"@[0]);
}

proof fn lemma_fields_of_one(a: Segment, key: Seq<u8>)
    ensures
        layout_width(seq![a]) == a.width(),
        layout_fields(seq![a], key) == segment_fields(a, key.subrange(0, a.width() as int)),
{
    let list = seq![a];
    assert(list.drop_last() =~= Seq::empty());
    assert(layout_width(Seq::empty()) == 0);
    assert(layout_fields(Seq::empty(), key) =~= Seq::empty());
    assert(list.last() == a);
    let fields = segment_fields(a, key.subrange(0, a.width() as int));
    assert(Seq::<KeyFieldView>::empty() + fields =~= fields);
}

proof fn lemma_fields_of_two(a: Segment, b: Segment, key: Seq<u8>)
    ensures
        layout_width(seq![a, b]) == a.width() + b.width(),
        layout_fields(seq![a, b], key) == segment_fields(a, key.subrange(0, a.width() as int))
            + segment_fields(
            b,
            key.subrange(a.width() as int, (a.width() + b.width()) as int),
        ),
{
    lemma_fields_of_one(a, key);
    assert(seq![a, b].drop_last() =~= seq![a]);
    assert(seq![a, b].last() == b);
}

proof fn lemma_fields_of_three(a: Segment, b: Segment, c: Segment, key: Seq<u8>)
    ensures
        layout_width(seq![a, b, c]) == a.width() + b.width() + c.width(),
        layout_fields(seq![a, b, c], key) == layout_fields(seq![a, b], key) + segment_fields(
            c,
            key.subrange(
                (a.width() + b.width()) as int,
                (a.width() + b.width() + c.width()) as int,
            ),
        ),
        layout_fields(seq![a, b], key) == segment_fields(a, key.subrange(0, a.width() as int))
            + segment_fields(
            b,
            key.subrange(a.width() as int, (a.width() + b.width()) as int),
        ),
{
    lemma_fields_of_two(a, b, key);
    assert(seq![a, b, c].drop_last() =~= seq![a, b]);
    assert(seq![a, b, c].last() == c);
}

proof fn lemma_fields_of_four(a: Segment, b: Segment, c: Segment, d: Segment, key: Seq<u8>)
    ensures
        layout_width(seq![a, b, c, d]) == a.width() + b.width() + c.width() + d.width(),
        layout_fields(seq![a, b, c, d], key) == segment_fields(
            a,
            key.subrange(0, a.width() as int),
        ) + segment_fields(b, key.subrange(a.width() as int, (a.width() + b.width()) as int))
            + segment_fields(
            c,
            key.subrange(
                (a.width() + b.width()) as int,
                (a.width() + b.width() + c.width()) as int,
            ),
        ) + segment_fields(
            d,
            key.subrange(
                (a.width() + b.width() + c.width()) as int,
                (a.width() + b.width() + c.width() + d.width()) as int,
            ),
        ),
{
    lemma_fields_of_three(a, b, c, key);
    assert(seq![a, b, c, d].drop_last() =~= seq![a, b, c]);
    assert(seq![a, b, c, d].last() == d);
}

proof fn lemma_fields_of_five(
    a: Segment,
    b: Segment,
    c: Segment,
    d: Segment,
    e: Segment,
    key: Seq<u8>,
)
    ensures
        layout_fields(seq![a, b, c, d, e], key) == layout_fields(seq![a, b, c, d], key)
            + segment_fields(
            e,
            key.subrange(
                (a.width() + b.width() + c.width() + d.width()) as int,
                (a.width() + b.width() + c.width() + d.width() + e.width()) as int,
            ),
        ),
        layout_fields(seq![a, b, c, d], key) == segment_fields(
            a,
            key.subrange(0, a.width() as int),
        ) + segment_fields(b, key.subrange(a.width() as int, (a.width() + b.width()) as int))
            + segment_fields(
            c,
            key.subrange(
                (a.width() + b.width()) as int,
                (a.width() + b.width() + c.width()) as int,
            ),
        ) + segment_fields(
            d,
            key.subrange(
                (a.width() + b.width() + c.width()) as int,
                (a.width() + b.width() + c.width() + d.width()) as int,
            ),
        ),
{
    lemma_fields_of_four(a, b, c, d, key);
    assert(seq![a, b, c, d, e].drop_last() =~= seq![a, b, c, d]);
    assert(seq![a, b, c, d, e].last() == e);
}

/// What the parts of a key show: an author in hexadecimal, a kind as a number, a tag by its letter,
/// and its value as a text without the zero bytes at its end. Padding shows nothing.
pub proof fn law_parts_of_keys_are_shown(
    author: Seq<u8>,
    kind: Seq<u8>,
    letter: u8,
    value: Seq<u8>,
    padding: Seq<u8>,
)
    ensures
        segment_fields(Segment::Pubkey, author).len() == 1,
        segment_fields(Segment::Pubkey, author)[0].name == "pubkey"@,
        segment_fields(Segment::Pubkey, author)[0].value == FieldValueView::Text(hex_text(author)),
        segment_fields(Segment::Kind, kind).len() == 1,
        segment_fields(Segment::Kind, kind)[0].name == "kind"@,
        segment_fields(Segment::Kind, kind)[0].value == FieldValueView::Number(be_value(kind)),
        segment_fields(Segment::TagName, seq![letter]).len() == 1,
        segment_fields(Segment::TagName, seq![letter])[0].name == "tag_name"@,
        segment_fields(Segment::TagName, seq![letter])[0].value == FieldValueView::Text(
            seq![letter as char],
        ),
        segment_fields(Segment::TagValue, value).len() == 1,
        segment_fields(Segment::TagValue, value)[0].name == "tag_value"@,
        segment_fields(Segment::TagValue, value)[0].value == FieldValueView::Text(
            trim_end(lossy_text(value), '\0'),
        ),
        segment_fields(Segment::Padding, padding).len() == 0,
{
}

/// A database is selected exactly where its name holds the wanted text, and every one where none is
/// wanted; the order stays.
pub proof fn law_wanted_databases_are_selected(
    names: Seq<Seq<char>>,
    wanted: Seq<char>,
    name: Seq<char>,
)
    ensures
        selected(names, Some(wanted)).contains(name) <==> names.contains(name) && has_substring(
            name,
            wanted,
        ),
        selected(names, None) == names,
    decreases names.len(),
{
    reveal(Seq::filter);
    if names.len() > 0 {
        let init = names.drop_last();
        law_wanted_databases_are_selected(init, wanted, name);
        let before = selected(init, Some(wanted));
        let all = selected(names, Some(wanted));
        assert(names =~= init.push(names.last()));
        if has_substring(names.last(), wanted) {
            assert(all == before.push(names.last()));
        } else {
            assert(all == before);
        }
        lemma_push_contains(before, names.last(), name);
        lemma_push_contains(init, names.last(), name);
        assert(selected(names, None) == selected(init, None).push(names.last()));
    } else {
        assert(selected(names, None) =~= names);
    }
}

proof fn lemma_push_contains(list: Seq<Seq<char>>, last: Seq<char>, name: Seq<char>)
    ensures
        list.push(last).contains(name) <==> list.contains(name) || last == name,
{
    let more = list.push(last);
    if list.contains(name) {
        let i = choose|i: int| 0 <= i < list.len() && list[i] == name;
        assert(more[i] == name);
    }
    assert(more[list.len() as int] == last);
    if more.contains(name) && last != name {
        let i = choose|i: int| 0 <= i < more.len() && more[i] == name;
        assert(list[i] == name);
    }
}

} // verus!
