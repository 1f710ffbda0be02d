//! Export of the events of a store to files of one event a line, a file for each scope, and
//! import of such files.

use crate::protocol::{Event, EventView, Scope};
use crate::sdk::{event_as_json, event_json, parse_event, parsed_event};
use crate::text::{
    all_spaces, chars_of, concat2, concat3, decimal, ends_with, is_digit, is_space, join_range,
    join_with, law_join_after_split, law_parse_after_decimal, law_split_after_join,
    law_trimmed_is_the_middle, leading_spaces, lemma_decimal_digits, lemma_split_nonempty, parse_u64,
    parse_unsigned, split_on, split_string, str_eq, strip_suffixes, trim, trim_end_matches,
    trim_end_space, trimmed, u64_text, views,
};
use vstd::prelude::*;

verus! {

/// The ASCII letters and digits.
pub open spec fn is_ascii_alphanumeric(c: char) -> bool {
    ('0' <= c && c <= '9') || ('A' <= c && c <= 'Z') || ('a' <= c && c <= 'z')
}

/// The characters beyond ASCII that Unicode counts as alphabetic or numeric.
pub uninterp spec fn alphanumeric_beyond_ascii(c: char) -> bool;

/// `char::is_alphanumeric`: the letters and digits of ASCII, and beyond it what Unicode counts as
/// alphabetic or numeric.
#[verifier::external_body]
fn is_alphanumeric(c: char) -> (r: bool)
    ensures
        r == if (c as u32) < 128 {
            is_ascii_alphanumeric(c)
        } else {
            alphanumeric_beyond_ascii(c)
        },
{
    c.is_alphanumeric()
}

/// What stands for a character in the name of a file.
pub open spec fn file_char(c: char) -> char {
    let kept = if (c as u32) < 128 {
        is_ascii_alphanumeric(c) || c == '-' || c == '_'
    } else {
        alphanumeric_beyond_ascii(c)
    };
    if kept {
        c
    } else {
        '_'
    }
}

/// What stands for a name in the name of a file.
pub open spec fn sanitized(name: Seq<char>) -> Seq<char> {
    name.map_values(|c: char| file_char(c))
}

/// What stands for a name in the name of a file: every character but letters, digits, hyphens and
/// underscores becomes an underscore.
pub fn sanitize_filename(name: &str) -> (r: String)
    ensures
        r@ == sanitized(name@),
{
    let v = chars_of(name);
    let mut s = String::new();
    let mut i: usize = 0;
    proof {
        assert(s@ =~= sanitized(v@.take(0)));
    }
    while i < v.len()
        invariant
            i <= v@.len(),
            s@ == sanitized(v@.take(i as int)),
        decreases v@.len() - i,
    {
        let c: char = v[i];
        s.push(
            if is_alphanumeric(c) || c == '-' || c == '_' {
                c
            } else {
                '_'
            },
        );
        proof {
            assert(s@ =~= sanitized(v@.take(i + 1)));
        }
        i = i + 1;
    }
    proof {
        assert(v@.take(v@.len() as int) =~= name@);
    }
    s
}

/// The name of the file of a scope, without its ending.
pub open spec fn file_stem(scope: Option<Seq<char>>, count: Option<nat>) -> Seq<char> {
    let base = match scope {
        None => "scope_default"@,
        Some(name) => "scope_"@ + sanitized(name),
    };
    match count {
        Some(n) => base + "_"@ + decimal(n),
        None => base,
    }
}

/// The name of the file of a scope, with the number of events where it is asked for and known.
pub fn scope_to_filename(scope: &Scope, include_count: bool, count: Option<u64>) -> (r: String)
    ensures
        r@ == file_stem(
            scope@,
            match count {
                Some(n) if include_count => Some(n as nat),
                _ => None,
            },
        ) + ".jsonl"@,
{
    let base = match scope {
        Scope::Default => "scope_default".to_owned(),
        Scope::Named { name } => {
            concat2("scope_", sanitize_filename(name.as_str()).as_str())
        },
    };
    match count {
        Some(n) => {
            if include_count {
                let stem = concat3(base.as_str(), "_", u64_text(n).as_str());
                concat2(stem.as_str(), ".jsonl")
            } else {
                concat2(base.as_str(), ".jsonl")
            }
        },
        None => concat2(base.as_str(), ".jsonl"),
    }
}

/// The scope of a file, by its name without its ending: `scope_`, the name of the scope, and
/// possibly the number of events. `default` stands for the scope without a name.
pub open spec fn scope_of_stem(stem: Seq<char>) -> Option<Option<Seq<char>>> {
    let parts = split_on(stem, '_');
    if parts.len() < 2 || parts[0] != "scope"@ {
        None
    } else if parts[1] == "default"@ {
        Some(None)
    } else {
        let counted = parts.len() > 2 && parse_unsigned(parts.last(), u64::MAX as nat) is Some;
        let named = if counted {
            parts.drop_last()
        } else {
            parts
        };
        let name = join_with(named.skip(1), "_"@);
        if name.len() > 0 {
            Some(Some(name))
        } else {
            None
        }
    }
}

/// The scope of a file, by its name.
pub open spec fn scope_of_filename(filename: Seq<char>) -> Option<Option<Seq<char>>> {
    if ".jsonl"@.is_suffix_of(filename) {
        scope_of_stem(strip_suffixes(filename, ".jsonl"@))
    } else {
        None
    }
}

/// The scope of a file, by its name.
pub fn parse_scope_from_filename(filename: &str) -> (r: Option<Scope>)
    ensures
        match r {
            Some(scope) => scope_of_filename(filename@) == Some(scope@),
            None => scope_of_filename(filename@) is None,
        },
{
    if !ends_with(filename, ".jsonl") {
        return None;
    }
    let stem = trim_end_matches(filename, ".jsonl");
    let parts = split_string(stem.as_str(), '_');
    let ghost pieces = split_on(stem@, '_');
    proof {
        assert(pieces == views(parts@));
        assert(pieces.len() == parts@.len());
    }
    if parts.len() < 2 || !str_eq(parts[0].as_str(), "scope") {
        return None;
    }
    if str_eq(parts[1].as_str(), "default") {
        return Some(Scope::Default);
    }
    let count: usize = parts.len();
    let counted = count > 2 && parse_u64(parts[count - 1].as_str()).is_some();
    let end: usize = if counted { count - 1 } else { count };
    let named = join_range(&parts, 1, end, "_");
    proof {
        if counted {
            assert(pieces.drop_last().skip(1) =~= pieces.subrange(1, end as int));
        } else {
            assert(pieces.skip(1) =~= pieces.subrange(1, end as int));
        }
    }
    Scope::named(named.as_str())
}

/// Nothing at the end of a text without a point is an ending.
proof fn lemma_strip_ending(stem: Seq<char>)
    requires
        !stem.contains('.'),
    ensures
        ".jsonl"@.is_suffix_of(stem + ".jsonl"@),
        strip_suffixes(stem + ".jsonl"@, ".jsonl"@) == stem,
{
    reveal_strlit(".jsonl");
    let ending = ".jsonl"@;
    let name = stem + ending;
    assert(name.subrange(name.len() - ending.len(), name.len() as int) =~= ending);
    assert(name.take(name.len() - ending.len()) =~= stem);
    if ending.is_suffix_of(stem) {
        let tail = stem.subrange(stem.len() - ending.len(), stem.len() as int);
        assert(tail[0] == '.');
        assert(stem[stem.len() - ending.len()] == '.');
    }
    assert(strip_suffixes(stem, ending) == stem);
}

/// The pieces of two texts with an underscore between them are those of both.
proof fn lemma_split_concat(a: Seq<char>, b: Seq<char>)
    ensures
        split_on(a + "_"@ + b, '_') == split_on(a, '_') + split_on(b, '_'),
    decreases b.len(),
{
    reveal_strlit("_");
    let s = a + "_"@ + b;
    if b.len() == 0 {
        assert(s.drop_last() =~= a);
        assert(s.last() == '_');
        assert(split_on(a, '_').push(Seq::empty()) =~= split_on(a, '_') + split_on(b, '_'));
    } else {
        lemma_split_concat(a, b.drop_last());
        lemma_split_nonempty(b.drop_last(), '_');
        assert(s.drop_last() =~= a + "_"@ + b.drop_last());
        assert(s.last() == b.last());
        let before = split_on(a, '_') + split_on(b.drop_last(), '_');
        assert(before.last() == split_on(b.drop_last(), '_').last());
        assert(split_on(s, '_') =~= split_on(a, '_') + split_on(b, '_'));
    }
}

/// Digits are one piece.
proof fn lemma_split_decimal(n: nat)
    ensures
        split_on(decimal(n), '_') == seq![decimal(n)],
        !decimal(n).contains('.'),
{
    lemma_decimal_digits(n);
    let d = decimal(n);
    assert forall|i: int| 0 <= i < d.len() implies d[i] != '_' && d[i] != '.' by {
        assert(is_digit(d[i]));
    }
    let parts = seq![d];
    assert forall|i: int| 0 <= i < parts.len() implies !(#[trigger] parts[i]).contains('_') by {}
    law_split_after_join(parts, '_');
}

proof fn lemma_sanitized_has_no_point(name: Seq<char>)
    ensures
        !sanitized(name).contains('.'),
{
    assert forall|i: int| 0 <= i < sanitized(name).len() implies sanitized(name)[i] != '.' by {
        assert(sanitized(name)[i] == file_char(name[i]));
    }
}

/// The file of the scope without a name is read back as that scope, with or without a count.
pub proof fn law_default_filename(count: Option<nat>)
    ensures
        scope_of_filename(file_stem(None, count) + ".jsonl"@) == Some(None::<Seq<char>>),
{
    reveal_strlit("scope_default");
    reveal_strlit("scope");
    reveal_strlit("default");
    reveal_strlit("_");
    let base = "scope_default"@;
    let parts = seq!["scope"@, "default"@];
    assert forall|i: int| 0 <= i < parts.len() implies !(#[trigger] parts[i]).contains('_') by {}
    assert(base =~= "scope"@ + "_"@ + "default"@);
    law_split_after_join(parts, '_');
    assert(parts.drop_last() =~= seq!["scope"@]);
    assert(join_with(parts.drop_last(), seq!['_']) == "scope"@);
    assert("_"@ =~= seq!['_']);
    assert(join_with(parts, seq!['_']) == base);
    assert(!base.contains('.'));
    match count {
        Some(n) => {
            lemma_split_decimal(n);
            lemma_split_concat(base, decimal(n));
            let stem = base + "_"@ + decimal(n);
            assert forall|i: int| 0 <= i < stem.len() implies stem[i] != '.' by {
                if i >= base.len() + 1 {
                    assert(stem[i] == decimal(n)[i - base.len() - 1]);
                }
            }
            lemma_strip_ending(stem);
        },
        None => {
            lemma_strip_ending(base);
        },
    }
}

/// The file of a scope with a name is read back as the scope with the name that the file shows,
/// which is the name itself where it has only letters, digits, hyphens and underscores. Left out
/// are the names that begin with the piece `default`, and, for a file without a count, those
/// whose last piece is a number.
pub proof fn law_named_filename(name: Seq<char>, count: Option<nat>)
    requires
        name.len() > 0,
        split_on(sanitized(name), '_')[0] != "default"@,
        count is None ==> split_on(sanitized(name), '_').len() == 1 || parse_unsigned(
            split_on(sanitized(name), '_').last(),
            u64::MAX as nat,
        ) is None,
        count matches Some(n) ==> n <= u64::MAX,
    ensures
        scope_of_filename(file_stem(Some(name), count) + ".jsonl"@) == Some(Some(sanitized(name))),
{
    reveal_strlit("scope_");
    reveal_strlit("scope");
    reveal_strlit("_");
    let shown = sanitized(name);
    let pieces = split_on(shown, '_');
    let base = "scope_"@ + shown;
    lemma_split_nonempty(shown, '_');
    lemma_sanitized_has_no_point(name);
    law_join_after_split(shown, '_');
    assert("_"@ =~= seq!['_']);
    let first = seq!["scope"@];
    assert forall|i: int| 0 <= i < first.len() implies !(#[trigger] first[i]).contains('_') by {}
    law_split_after_join(first, '_');
    lemma_split_concat("scope"@, shown);
    assert(base =~= "scope"@ + "_"@ + shown);
    assert(split_on(base, '_') == first + pieces);
    assert forall|i: int| 0 <= i < base.len() implies base[i] != '.' by {
        if i >= 6 {
            assert(base[i] == shown[i - 6]);
        }
    }
    match count {
        Some(n) => {
            let stem = base + "_"@ + decimal(n);
            lemma_split_decimal(n);
            lemma_split_concat(base, decimal(n));
            law_parse_after_decimal(n, u64::MAX as nat);
            assert forall|i: int| 0 <= i < stem.len() implies stem[i] != '.' by {
                if i >= base.len() + 1 {
                    assert(stem[i] == decimal(n)[i - base.len() - 1]);
                } else if i < base.len() {
                    assert(stem[i] == base[i]);
                }
            }
            lemma_strip_ending(stem);
            let parts = split_on(stem, '_');
            assert(parts =~= first + pieces + seq![decimal(n)]);
            assert(parts[1] == pieces[0]);
            assert(parts.drop_last().skip(1) =~= pieces);
        },
        None => {
            lemma_strip_ending(base);
            let parts = split_on(base, '_');
            assert(parts[1] == pieces[0]);
            assert(parts.last() == pieces.last());
            assert(parts.skip(1) =~= pieces);
        },
    }
}

/// The lines of a file with these events.
pub fn export_lines(events: &Vec<Event>) -> (r: Vec<String>)
    requires
        forall|i: int| 0 <= i < events@.len() ==> (#[trigger] events@[i])@.wf(),
    ensures
        r@.len() == events@.len(),
        forall|i: int|
            0 <= i < r@.len() ==> (#[trigger] r@[i])@ == event_json(events@[i]@),
        forall|i: int|
            0 <= i < r@.len() ==> !(#[trigger] r@[i])@.contains('\n') && !r@[i]@.contains('\r'),
        events_of_lines(views(r@)) == Some(events@.map_values(|e: Event| e@)),
{
    let mut lines: Vec<String> = Vec::new();
    let mut i: usize = 0;
    proof {
        assert(events@.take(0).map_values(|e: Event| e@) =~= Seq::empty());
        assert(views(lines@) =~= Seq::empty());
    }
    while i < events.len()
        invariant
            i <= events@.len(),
            lines@.len() == i,
            forall|k: int| 0 <= k < events@.len() ==> (#[trigger] events@[k])@.wf(),
            forall|k: int| 0 <= k < i ==> (#[trigger] lines@[k])@ == event_json(events@[k]@),
            forall|k: int|
                0 <= k < i ==> !(#[trigger] lines@[k])@.contains('\n') && !lines@[k]@.contains('\r'),
            events_of_lines(views(lines@)) == Some(
                events@.take(i as int).map_values(|e: Event| e@),
            ),
        decreases events@.len() - i,
    {
        let ghost before = lines@;
        let line = event_as_json(&events[i]);
        proof {
            lemma_object_is_not_blank(line@);
            assert(views(before.push(line)).drop_last() =~= views(before));
            assert(events@.take(i + 1).map_values(|e: Event| e@) =~= events@.take(
                i as int,
            ).map_values(|e: Event| e@).push(events@[i as int]@));
        }
        lines.push(line);
        i = i + 1;
    }
    proof {
        assert(events@.take(events@.len() as int) =~= events@);
    }
    lines
}

/// The events of the lines of a file, in their order, without the blank lines; none where a line
/// is no event.
pub open spec fn events_of_lines(lines: Seq<Seq<char>>) -> Option<Seq<EventView>>
    decreases lines.len(),
{
    if lines.len() == 0 {
        Some(Seq::empty())
    } else {
        match events_of_lines(lines.drop_last()) {
            Some(events) => if is_blank(lines.last()) {
                Some(events)
            } else {
                match parsed_event(lines.last()) {
                    Ok(event) => Some(events.push(event)),
                    Err(_) => None,
                }
            },
            None => None,
        }
    }
}

/// A line of white space.
pub open spec fn is_blank(line: Seq<char>) -> bool {
    trimmed(line).len() == 0
}

proof fn lemma_object_is_not_blank(line: Seq<char>)
    requires
        line.len() > 0,
        line[0] == '{',
    ensures
        !is_blank(line),
{
    assert(!is_space('{'));
    assert(leading_spaces(line) == 0);
    assert(line.skip(0) =~= line);
    lemma_trim_keeps_first(line);
}

proof fn lemma_trim_keeps_first(s: Seq<char>)
    requires
        s.len() > 0,
        !is_space(s[0]),
    ensures
        trim_end_space(s).len() > 0,
    decreases s.len(),
{
    if is_space(s.last()) {
        assert(s.len() > 1);
        lemma_trim_keeps_first(s.drop_last());
    }
}

/// The number of events that are stored together.
pub const BATCH_SIZE: usize = 100;

/// An import of a file.
pub struct FileImport {
    /// Whether errors are counted and passed over.
    pub skip_errors: bool,
    /// The number of lines that were read.
    pub lines: u64,
    /// The number of events that were stored.
    pub imported: u64,
    /// The number of events that were not.
    pub errors: u64,
    /// The events that wait to be stored.
    pub batch: Vec<Event>,
}

/// What an import knows.
pub struct FileImportView {
    pub skip_errors: bool,
    pub lines: nat,
    pub imported: nat,
    pub errors: nat,
    pub batch: Seq<EventView>,
}

impl View for FileImport {
    type V = FileImportView;

    open spec fn view(&self) -> FileImportView {
        FileImportView {
            skip_errors: self.skip_errors,
            lines: self.lines as nat,
            imported: self.imported as nat,
            errors: self.errors as nat,
            batch: self.batch@.map_values(|e: Event| e@),
        }
    }
}

/// What follows a line.
pub enum ImportStep {
    /// The next line.
    Next,
    /// The events that wait are to be stored.
    Store,
    /// A line that is passed over, with what is told of it.
    Skipped(String),
}

/// What is said of a line that is no event.
pub open spec fn parse_failure(line: nat, file: Seq<char>, error: Seq<char>) -> Seq<char> {
    "Failed to parse event at line "@ + decimal(line) + " in "@ + file + ": "@ + error
}

/// What is said of events that could not be stored: those up to a line, or the last ones.
pub open spec fn store_failure(line: Option<nat>, error: Seq<char>) -> Seq<char> {
    match line {
        Some(n) => "Failed to import batch ending at line "@ + decimal(n) + ": "@ + error,
        None => "Failed to import final batch: "@ + error,
    }
}

/// What an import knows after a line, before what waits is stored.
pub open spec fn after_line(before: FileImportView, line: Seq<char>) -> FileImportView {
    let read = FileImportView { lines: (before.lines + 1) as nat, ..before };
    if is_blank(line) {
        read
    } else {
        match parsed_event(line) {
            Ok(event) => FileImportView { batch: read.batch.push(event), ..read },
            Err(_) => FileImportView { errors: (read.errors + 1) as nat, ..read },
        }
    }
}

impl FileImport {
    /// An import before its first line.
    pub fn new(skip_errors: bool) -> (r: FileImport)
        ensures
            r@ == (FileImportView {
                skip_errors,
                lines: 0,
                imported: 0,
                errors: 0,
                batch: Seq::empty(),
            }),
    {
        let r = FileImport { skip_errors, lines: 0, imported: 0, errors: 0, batch: Vec::new() };
        proof {
            assert(r@.batch =~= Seq::empty());
        }
        r
    }

    /// Reads the next line of a file. An event waits to be stored with others; a line that is no
    /// event is an error, which ends the import unless errors are passed over.
    pub fn read_line(&mut self, line: &str, file: &str) -> (r: Result<ImportStep, String>)
        requires
            old(self).lines < u64::MAX,
            old(self).errors < u64::MAX,
            old(self)@.batch.len() < BATCH_SIZE,
        ensures
            final(self)@ == after_line(old(self)@, line@),
            match r {
                Ok(ImportStep::Next) => (is_blank(line@) || parsed_event(line@) is Ok)
                    && final(self)@.batch.len() < BATCH_SIZE,
                Ok(ImportStep::Store) => parsed_event(line@) is Ok && final(self)@.batch.len()
                    >= BATCH_SIZE,
                Ok(ImportStep::Skipped(text)) => !is_blank(line@) && old(self)@.skip_errors && (
                parsed_event(line@) matches Err(e) && text@ == parse_failure(
                    final(self)@.lines,
                    file@,
                    e,
                )),
                Err(text) => !is_blank(line@) && !old(self)@.skip_errors && (parsed_event(
                    line@,
                ) matches Err(e) && text@ == parse_failure(final(self)@.lines, file@, e)),
            },
            forall|i: int|
                0 <= i < final(self).batch@.len() ==> i < old(self).batch@.len() || (
                #[trigger] final(self).batch@[i])@.wf(),
    {
        self.lines = self.lines + 1;
        if trim(line).as_str().is_empty() {
            return Ok(ImportStep::Next);
        }
        match parse_event(line) {
            Ok(event) => {
                let ghost waiting = self.batch@;
                self.batch.push(event);
                proof {
                    assert(self.batch@.map_values(|e: Event| e@) =~= waiting.map_values(
                        |e: Event| e@,
                    ).push(event@));
                }
                if self.batch.len() >= BATCH_SIZE {
                    Ok(ImportStep::Store)
                } else {
                    Ok(ImportStep::Next)
                }
            },
            Err(e) => {
                self.errors = self.errors + 1;
                let place = concat3(
                    "Failed to parse event at line ",
                    u64_text(self.lines).as_str(),
                    " in ",
                );
                let text = concat3(concat2(place.as_str(), file).as_str(), ": ", e.as_str());
                if self.skip_errors {
                    Ok(ImportStep::Skipped(text))
                } else {
                    Err(text)
                }
            },
        }
    }

    /// Takes note of how the events that waited were stored: how many were, or why none of them
    /// counts. `last` tells that the file has ended.
    pub fn batch_stored(&mut self, outcome: Result<u64, String>, last: bool) -> (r: Result<
        (),
        String,
    >)
        requires
            outcome matches Ok(n) ==> old(self).imported + n <= u64::MAX,
            outcome is Err ==> old(self).errors + old(self).batch@.len() <= u64::MAX,
        ensures
            final(self)@.batch.len() == 0,
            final(self)@.lines == old(self)@.lines,
            final(self)@.skip_errors == old(self)@.skip_errors,
            match outcome {
                Ok(n) => {
                    &&& r is Ok
                    &&& final(self)@.imported == old(self)@.imported + n
                    &&& final(self)@.errors == old(self)@.errors
                },
                Err(e) => {
                    &&& final(self)@.imported == old(self)@.imported
                    &&& final(self)@.errors == old(self)@.errors + old(self)@.batch.len()
                    &&& if old(self)@.skip_errors {
                        r is Ok
                    } else {
                        r matches Err(text) && text@ == store_failure(
                            if last {
                                None
                            } else {
                                Some(old(self)@.lines)
                            },
                            e@,
                        )
                    }
                },
            },
    {
        let waiting: usize = self.batch.len();
        self.batch = Vec::new();
        match outcome {
            Ok(n) => {
                self.imported = self.imported + n;
                Ok(())
            },
            Err(e) => {
                self.errors = self.errors + waiting as u64;
                if self.skip_errors {
                    Ok(())
                } else if last {
                    Err(concat2("Failed to import final batch: ", e.as_str()))
                } else {
                    let place = concat2(
                        "Failed to import batch ending at line ",
                        u64_text(self.lines).as_str(),
                    );
                    Err(concat3(place.as_str(), ": ", e.as_str()))
                }
            },
        }
    }

    /// Whether events wait to be stored.
    pub fn has_waiting(&self) -> (r: bool)
        ensures
            r == (self@.batch.len() > 0),
    {
        self.batch.len() > 0
    }
}

/// What an import that starts with nothing has handed to the store after these lines, and what it
/// then knows.
pub open spec fn import_of(start: FileImportView, lines: Seq<Seq<char>>) -> (
    Seq<EventView>,
    FileImportView,
)
    decreases lines.len(),
{
    if lines.len() == 0 {
        (Seq::empty(), start)
    } else {
        let (stored, before) = import_of(start, lines.drop_last());
        let after = after_line(before, lines.last());
        if after.batch.len() >= BATCH_SIZE {
            (stored + after.batch, FileImportView { batch: Seq::empty(), ..after })
        } else {
            (stored, after)
        }
    }
}

/// An import hands every event of a file to the store once, in the order of the lines, but for
/// those that still wait; it counts no error where every line is an event or blank.
pub proof fn law_import_keeps_events(start: FileImportView, lines: Seq<Seq<char>>)
    requires
        start.batch.len() == 0,
        events_of_lines(lines) is Some,
    ensures
        ({
            let (stored, after) = import_of(start, lines);
            &&& events_of_lines(lines) == Some(stored + after.batch)
            &&& after.batch.len() < BATCH_SIZE
            &&& after.errors == start.errors
            &&& after.lines == start.lines + lines.len()
        }),
    decreases lines.len(),
{
    let (stored2, after2) = import_of(start, lines);
    if lines.len() == 0 {
        assert(stored2 + after2.batch =~= Seq::empty());
    } else {
        law_import_keeps_events(start, lines.drop_last());
        let (stored, before) = import_of(start, lines.drop_last());
        if !is_blank(lines.last()) {
            let event = parsed_event(lines.last())->Ok_0;
            assert((stored + before.batch).push(event) =~= stored2 + after2.batch);
        }
    }
}

/// How many events of a batch were stored, by what the store said of each: whether it took the
/// event. The first failure ends the batch.
pub fn saved_count(outcomes: &Vec<Result<bool, String>>) -> (r: Result<u64, String>)
    ensures
        match r {
            Ok(n) => {
                &&& forall|i: int| 0 <= i < outcomes@.len() ==> (#[trigger] outcomes@[i]) is Ok
                &&& n == accepted(outcomes@)
            },
            Err(e) => exists|i: int|
                0 <= i < outcomes@.len() && (#[trigger] outcomes@[i] matches Err(text) && e@
                    == "Failed to save event: "@ + text@) && forall|j: int|
                    0 <= j < i ==> (#[trigger] outcomes@[j]) is Ok,
        },
{
    let mut count: u64 = 0;
    let mut i: usize = 0;
    proof {
        assert(outcomes@.take(0) =~= Seq::empty());
    }
    while i < outcomes.len()
        invariant
            i <= outcomes@.len(),
            count == accepted(outcomes@.take(i as int)),
            count <= i,
            forall|j: int| 0 <= j < i ==> (#[trigger] outcomes@[j]) is Ok,
        decreases outcomes@.len() - i,
    {
        proof {
            assert(outcomes@.take(i + 1).drop_last() =~= outcomes@.take(i as int));
        }
        match &outcomes[i] {
            Ok(stored) => {
                if *stored {
                    count = count + 1;
                }
            },
            Err(text) => {
                return Err(concat2("Failed to save event: ", text.as_str()));
            },
        }
        i = i + 1;
    }
    proof {
        assert(outcomes@.take(outcomes@.len() as int) =~= outcomes@);
    }
    Ok(count)
}

/// The number of events that the store took.
pub open spec fn accepted(outcomes: Seq<Result<bool, String>>) -> nat
    decreases outcomes.len(),
{
    if outcomes.len() == 0 {
        0
    } else {
        accepted(outcomes.drop_last()) + if outcomes.last() == Ok::<bool, String>(true) {
            1nat
        } else {
            0nat
        }
    }
}

/// The totals of an import or an export.
#[derive(Debug, Clone, Copy, PartialEq, Eq, Structural)]
pub struct TransferTotals {
    pub events: u64,
    pub errors: u64,
    /// The number of files.
    pub files: u64,
}

impl TransferTotals {
    pub fn new() -> (r: TransferTotals)
        ensures
            r == (TransferTotals { events: 0, errors: 0, files: 0 }),
    {
        TransferTotals { events: 0, errors: 0, files: 0 }
    }

    /// Adds a file that was done; one that failed changes nothing.
    pub fn record(&mut self, outcome: Option<(u64, u64)>)
        requires
            outcome matches Some((events, errors)) ==> old(self).events + events <= u64::MAX && old(
                self,
            ).errors + errors <= u64::MAX && old(self).files < u64::MAX,
        ensures
            match outcome {
                Some((events, errors)) => {
                    &&& final(self).events == old(self).events + events
                    &&& final(self).errors == old(self).errors + errors
                    &&& final(self).files == old(self).files + 1
                },
                None => *final(self) == *old(self),
            },
    {
        if let Some((events, errors)) = outcome {
            self.events = self.events + events;
            self.errors = self.errors + errors;
            self.files = self.files + 1;
        }
    }
}

/// The name of a file with the ending of an export.
pub open spec fn is_export_name(name: Seq<char>) -> bool {
    ".jsonl"@.is_suffix_of(name) && name.len() > ".jsonl"@.len()
}

/// A file that is found for an import: its place in the list, and its scope where its name tells
/// one. A file whose name tells none is passed over.
pub struct FoundFile {
    pub index: usize,
    pub scope: Option<Scope>,
}

/// The places of the files with the ending of an export, in their order.
pub open spec fn export_places(names: Seq<Seq<char>>) -> Seq<int>
    decreases names.len(),
{
    if names.len() == 0 {
        Seq::empty()
    } else {
        let before = export_places(names.drop_last());
        if is_export_name(names.last()) {
            before.push(names.len() - 1)
        } else {
            before
        }
    }
}

/// The found files are those at the given places.
pub open spec fn are_found(files: Seq<FoundFile>, places: Seq<int>, names: Seq<Seq<char>>) -> bool {
    &&& files.len() == places.len()
    &&& forall|i: int|
        0 <= i < files.len() ==> (#[trigger] files[i]).index == places[i] && match files[i].scope {
            Some(scope) => scope_of_filename(names[places[i]]) == Some(scope@),
            None => scope_of_filename(names[places[i]]) is None,
        }
}

/// The files of an import among the files of a directory; an error where there is none.
pub fn find_files(names: &Vec<String>, directory: &str) -> (r: Result<Vec<FoundFile>, String>)
    ensures
        match r {
            Ok(files) => files@.len() > 0 && are_found(
                files@,
                export_places(views(names@)),
                views(names@),
            ),
            Err(text) => export_places(views(names@)).len() == 0 && text@
                == "No JSONL files found in input directory: "@ + directory@,
        },
{
    let ghost all = views(names@);
    let mut files: Vec<FoundFile> = Vec::new();
    let mut i: usize = 0;
    proof {
        assert(all.take(0) =~= Seq::empty());
    }
    while i < names.len()
        invariant
            i <= names@.len(),
            all == views(names@),
            are_found(files@, export_places(all.take(i as int)), all),
        decreases names@.len() - i,
    {
        let name = names[i].as_str();
        let ghost before = files@;
        let ghost places = export_places(all.take(i as int));
        proof {
            assert(all.take(i + 1).drop_last() =~= all.take(i as int));
            assert(all.take(i + 1).last() == name@);
        }
        if ends_with(name, ".jsonl") && chars_of(name).len() > chars_of(".jsonl").len() {
            let file = FoundFile { index: i, scope: parse_scope_from_filename(name) };
            files.push(file);
            proof {
                assert forall|k: int| 0 <= k < files@.len() implies (
                #[trigger] files@[k]).index == places.push(i as int)[k] && match files@[k].scope {
                    Some(scope) => scope_of_filename(all[places.push(i as int)[k]]) == Some(scope@),
                    None => scope_of_filename(all[places.push(i as int)[k]]) is None,
                } by {
                    if k < before.len() {
                        assert(files@[k] == before[k]);
                    } else {
                        assert(all[i as int] == name@);
                    }
                }
            }
        }
        i = i + 1;
    }
    proof {
        assert(all.take(all.len() as int) =~= all);
    }
    if files.len() == 0 {
        Err(concat2("No JSONL files found in input directory: ", directory))
    } else {
        Ok(files)
    }
}

/// Takes note of how the import of a file went. A failure ends the import unless errors are
/// passed over; then the file does not count.
pub fn after_file(
    totals: &mut TransferTotals,
    outcome: Result<(u64, u64), String>,
    skip_errors: bool,
) -> (r: Result<(), String>)
    requires
        outcome matches Ok(counts) ==> old(totals).events + counts.0 <= u64::MAX && old(
            totals,
        ).errors + counts.1 <= u64::MAX && old(totals).files < u64::MAX,
    ensures
        match outcome {
            Ok(counts) => {
                &&& r is Ok
                &&& final(totals).events == old(totals).events + counts.0
                &&& final(totals).errors == old(totals).errors + counts.1
                &&& final(totals).files == old(totals).files + 1
            },
            Err(e) => {
                &&& *final(totals) == *old(totals)
                &&& if skip_errors {
                    r is Ok
                } else {
                    r == Err::<(), String>(e)
                }
            },
        },
{
    match outcome {
        Ok(counts) => {
            totals.record(Some(counts));
            Ok(())
        },
        Err(e) => {
            if skip_errors {
                Ok(())
            } else {
                Err(e)
            }
        },
    }
}

/// Whether an answer at the prompt lets the import go on: `y`, in either case.
pub fn is_confirmed(answer: &str) -> (r: bool)
    ensures
        r == (trimmed(answer@) == "y"@ || trimmed(answer@) == "Y"@),
{
    let text = trim(answer);
    str_eq(text.as_str(), "y") || str_eq(text.as_str(), "Y")
}

/// The name of a file shows the letters, digits, hyphens and underscores of a name as they are, and
/// an underscore for every other character; no character is left out.
pub proof fn law_filenames_show_letters_and_digits(name: Seq<char>, i: int)
    requires
        0 <= i < name.len(),
    ensures
        sanitized(name).len() == name.len(),
        sanitized(name)[i] == name[i] || sanitized(name)[i] == '_',
        ('a' <= name[i] && name[i] <= 'z') || ('A' <= name[i] && name[i] <= 'Z') || ('0' <= name[i]
            && name[i] <= '9') || name[i] == '-' ==> sanitized(name)[i] == name[i],
        (name[i] as u32) >= 128 && alphanumeric_beyond_ascii(name[i]) ==> sanitized(name)[i]
            == name[i],
        sanitized(name)[i] != '/' && sanitized(name)[i] != '.' && sanitized(name)[i] != '\\',
{
}

/// What the lines of a file hold: two parts of a file hold the events of the first, and then those
/// of the second; a line of white space holds none, and any other line the event that it is.
pub proof fn law_lines_hold_their_events(a: Seq<Seq<char>>, b: Seq<Seq<char>>, line: Seq<char>)
    ensures
        match (events_of_lines(a), events_of_lines(b)) {
            (Some(x), Some(y)) => events_of_lines(a + b) == Some(x + y),
            _ => events_of_lines(a + b) is None,
        },
        events_of_lines(seq![line]) == if all_spaces(line) {
            Some(Seq::<EventView>::empty())
        } else {
            match parsed_event(line) {
                Ok(event) => Some(seq![event]),
                Err(_) => None,
            }
        },
    decreases b.len(),
{
    law_trimmed_is_the_middle(line);
    assert(seq![line].drop_last() =~= Seq::empty());
    assert(seq![line].last() == line);
    assert(events_of_lines(Seq::empty()) == Some(Seq::<EventView>::empty()));
    if parsed_event(line) is Ok {
        assert(Seq::<EventView>::empty().push(parsed_event(line)->Ok_0) =~= seq![
            parsed_event(line)->Ok_0,
        ]);
    }
    if b.len() == 0 {
        assert(a + b =~= a);
        if let Some(x) = events_of_lines(a) {
            assert(x + Seq::<EventView>::empty() =~= x);
        }
    } else {
        law_lines_hold_their_events(a, b.drop_last(), line);
        assert((a + b).drop_last() =~= a + b.drop_last());
        assert((a + b).last() == b.last());
        if events_of_lines(a) is Some && events_of_lines(b) is Some {
            let x = events_of_lines(a)->0;
            let y = events_of_lines(b.drop_last())->0;
            if !is_blank(b.last()) {
                let event = parsed_event(b.last())->Ok_0;
                assert((x + y).push(event) =~= x + y.push(event));
            }
        }
    }
}

/// One more line of a file: an event waits to be stored, white space changes nothing, and any other
/// line is an error. Every line is counted, and nothing that waits is lost.
pub proof fn law_lines_are_imported(before: FileImportView, line: Seq<char>)
    ensures
        after_line(before, line).lines == before.lines + 1,
        after_line(before, line).imported == before.imported,
        after_line(before, line).skip_errors == before.skip_errors,
        all_spaces(line) ==> after_line(before, line).batch == before.batch && after_line(
            before,
            line,
        ).errors == before.errors,
        !all_spaces(line) ==> match parsed_event(line) {
            Ok(event) => after_line(before, line).batch == before.batch.push(event) && after_line(
                before,
                line,
            ).errors == before.errors,
            Err(_) => after_line(before, line).batch == before.batch && after_line(
                before,
                line,
            ).errors == before.errors + 1,
        },
{
    law_trimmed_is_the_middle(line);
}

/// The files of an import are those, and only those, whose names end in `.jsonl` behind some other
/// text, in the order of the directory.
pub proof fn law_export_files_are_found(names: Seq<Seq<char>>)
    ensures
        forall|i: int| #[trigger]
            export_places(names).contains(i) <==> 0 <= i < names.len() && names[i].len() > 6
                && names[i].subrange(names[i].len() - 6, names[i].len() as int) == ".jsonl"@,
        forall|i: int, j: int|
            0 <= i < j < export_places(names).len() ==> #[trigger] export_places(names)[i]
                < #[trigger] export_places(names)[j],
    decreases names.len(),
{
    reveal_strlit(".jsonl");
    if names.len() > 0 {
        let init = names.drop_last();
        let before = export_places(init);
        let all = export_places(names);
        law_export_files_are_found(init);
        assert forall|i: int| #[trigger] all.contains(i) <==> 0 <= i < names.len() && names[i].len()
            > 6 && names[i].subrange(names[i].len() - 6, names[i].len() as int) == ".jsonl"@ by {
            assert(before.contains(i) <==> 0 <= i < init.len() && init[i].len() > 6
                && init[i].subrange(init[i].len() - 6, init[i].len() as int) == ".jsonl"@);
            if all.contains(i) {
                let k = choose|k: int| 0 <= k < all.len() && all[k] == i;
                if k < before.len() {
                    assert(before[k] == i);
                }
            }
            if before.contains(i) {
                let k = choose|k: int| 0 <= k < before.len() && before[k] == i;
                assert(all[k] == i);
            }
            if is_export_name(names.last()) {
                assert(all[all.len() - 1] == names.len() - 1);
            }
        }
        assert forall|i: int, j: int| 0 <= i < j < all.len() implies #[trigger] all[i]
            < #[trigger] all[j] by {
            if j < before.len() {
                assert(before[i] < before[j]);
            } else {
                assert(before.contains(before[i]));
            }
        }
    }
}

/// The events of a batch that count are those that the store took.
pub proof fn law_taken_events_count(outcomes: Seq<Result<bool, String>>)
    ensures
        accepted(outcomes) == outcomes.filter(
            |r: Result<bool, String>| r == Ok::<bool, String>(true),
        ).len(),
    decreases outcomes.len(),
{
    reveal(Seq::filter);
    if outcomes.len() > 0 {
        law_taken_events_count(outcomes.drop_last());
    }
}

/// A file is read as the scope that its name tells: the name begins with the piece `scope`, and a
/// number at its end is no part of the scope's name. A file without the ending tells no scope.
pub proof fn law_other_filenames_tell_no_scope(filename: Seq<char>)
    ensures
        !".jsonl"@.is_suffix_of(filename) ==> scope_of_filename(filename) is None,
        scope_of_filename(filename) is Some ==> split_on(
            strip_suffixes(filename, ".jsonl"@),
            '_',
        ).len() >= 2 && split_on(strip_suffixes(filename, ".jsonl"@), '_')[0] == "scope"@,
{
}

/// The lines of an export are the JSON texts of its events, one for each in their order, and reading
/// the lines gives the events back.
pub proof fn law_exports_are_read_back(events: Vec<Event>, r: Vec<String>)
    requires
        call_ensures(export_lines, (&events,), r),
    ensures
        r@.len() == events@.len(),
        forall|i: int| 0 <= i < r@.len() ==> (#[trigger] r@[i])@ == event_json(events@[i]@),
        events_of_lines(views(r@)) == Some(events@.map_values(|e: Event| e@)),
{
}

/// How a file went counts in the totals: its events, its errors and itself. A failure counts for
/// nothing, and ends the import unless errors are passed over.
pub proof fn law_files_are_counted(
    before: TransferTotals,
    after: TransferTotals,
    outcome: Result<(u64, u64), String>,
    skip_errors: bool,
    r: Result<(), String>,
)
    requires
        exists|totals: &mut TransferTotals|
            {
                &&& #[trigger] call_ensures(after_file, (totals, outcome, skip_errors), r)
                &&& *totals == before
                &&& *final(totals) == after
            },
    ensures
        outcome matches Ok(counts) ==> after.events - before.events == counts.0 && after.errors
            - before.errors == counts.1 && after.files - before.files == 1 && r is Ok,
        outcome is Err ==> after == before && (r is Ok <==> skip_errors),
{
}

/// An import goes on only after a `y`, in either case, with or without white space around it.
pub proof fn law_only_yes_confirms(answer: &str, r: bool)
    requires
        call_ensures(is_confirmed, (answer,), r),
    ensures
        r <==> trimmed(answer@) == seq!['y'] || trimmed(answer@) == seq!['Y'],
{
    reveal_strlit("y");
    reveal_strlit("Y");
    assert("y"@ =~= seq!['y']);
    assert("Y"@ =~= seq!['Y']);
}

} // verus!
