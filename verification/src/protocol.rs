//! The values that the relay works on: events, filters, the messages that clients and
//! relays exchange, scopes, and the commands that the store carries out.
//!
//! Each type that holds text or lists has a view, in which strings are sequences of
//! characters and vectors are sequences.

use vstd::prelude::*;
use vstd::utf8::encode_utf8;

verus! {

/// Whether two arrays of 32 bytes are equal.
pub fn same_bytes(a: &[u8; 32], b: &[u8; 32]) -> (r: bool)
    ensures
        r == (*a == *b),
{
    let mut i: usize = 0;
    while i < 32
        invariant
            i <= 32,
            forall|j: int| 0 <= j < i ==> a@[j] == b@[j],
        decreases 32 - i,
    {
        if a[i] != b[i] {
            return false;
        }
        i = i + 1;
    }
    proof {
        assert(*a =~= *b);
    }
    true
}

/// The identifier of an event: the SHA-256 hash of its serialised form.
#[derive(Clone, Copy, PartialEq, Eq, Debug, Hash)]
pub struct EventId {
    pub bytes: [u8; 32],
}

impl EventId {
    /// Whether two identifiers are the same.
    pub fn same(&self, other: &EventId) -> (r: bool)
        ensures
            r == (*self == *other),
    {
        same_bytes(&self.bytes, &other.bytes)
    }
}

/// The public key of an author.
#[derive(Clone, Copy, PartialEq, Eq, Debug, Hash)]
pub struct PublicKey {
    pub bytes: [u8; 32],
}

impl PublicKey {
    /// Whether two keys are the same.
    pub fn same(&self, other: &PublicKey) -> (r: bool)
        ensures
            r == (*self == *other),
    {
        same_bytes(&self.bytes, &other.bytes)
    }
}

/// The texts of a tag: its name and its values.
pub open spec fn tag_view(tag: Vec<String>) -> Seq<Seq<char>> {
    tag@.map_values(|s: String| s@)
}

/// The texts of a list of tags.
pub open spec fn tags_view(tags: Seq<Vec<String>>) -> Seq<Seq<Seq<char>>> {
    tags.map_values(|t: Vec<String>| tag_view(t))
}

/// A copy of a list of strings.
pub fn copy_strings(list: &Vec<String>) -> (r: Vec<String>)
    ensures
        tag_view(r) == tag_view(*list),
        r@.len() == list@.len(),
{
    let r = list.clone();
    proof {
        assert forall|j: int| 0 <= j < list@.len() implies #[trigger] r@[j] == list@[j] by {
            assert(cloned(list@[j], r@[j]));
        }
        assert(tag_view(r) =~= tag_view(*list));
    }
    r
}

/// A copy of a list of tags.
pub fn copy_tags(tags: &Vec<Vec<String>>) -> (r: Vec<Vec<String>>)
    ensures
        tags_view(r@) == tags_view(tags@),
{
    let mut r: Vec<Vec<String>> = Vec::new();
    let mut i: usize = 0;
    while i < tags.len()
        invariant
            i <= tags@.len(),
            r@.len() == i,
            forall|j: int| 0 <= j < i ==> tag_view(#[trigger] r@[j]) == tag_view(tags@[j]),
        decreases tags@.len() - i,
    {
        r.push(copy_strings(&tags[i]));
        i = i + 1;
    }
    proof {
        assert(tags_view(r@) =~= tags_view(tags@));
    }
    r
}

/// A signed event.
#[derive(Debug)]
pub struct Event {
    pub id: EventId,
    pub pubkey: PublicKey,
    /// Seconds since the Unix epoch.
    pub created_at: u64,
    pub kind: u16,
    /// Each tag holds its name and its values, and is not empty.
    pub tags: Vec<Vec<String>>,
    pub content: String,
    pub sig: [u8; 64],
}

#[verifier::ext_equal]
pub struct EventView {
    pub id: EventId,
    pub pubkey: PublicKey,
    pub created_at: u64,
    pub kind: u16,
    pub tags: Seq<Seq<Seq<char>>>,
    pub content: Seq<char>,
    pub sig: [u8; 64],
}

impl View for Event {
    type V = EventView;

    open spec fn view(&self) -> EventView {
        EventView {
            id: self.id,
            pubkey: self.pubkey,
            created_at: self.created_at,
            kind: self.kind,
            tags: tags_view(self.tags@),
            content: self.content@,
            sig: self.sig,
        }
    }
}

impl EventView {
    /// Every tag has at least its name.
    pub open spec fn wf(self) -> bool {
        forall|i: int| 0 <= i < self.tags.len() ==> (#[trigger] self.tags[i]).len() > 0
    }
}

impl Event {
    /// A copy of the event.
    pub fn copy(&self) -> (r: Event)
        ensures
            r@ == self@,
    {
        Event {
            id: self.id,
            pubkey: self.pubkey,
            created_at: self.created_at,
            kind: self.kind,
            tags: copy_tags(&self.tags),
            content: self.content.clone(),
            sig: self.sig,
        }
    }
}

/// An event that is not signed yet.
#[derive(Debug)]
pub struct UnsignedEvent {
    pub pubkey: PublicKey,
    pub created_at: u64,
    pub kind: u16,
    pub tags: Vec<Vec<String>>,
    pub content: String,
}

/// The values that a filter accepts for the tags with a given one-letter name.
#[derive(Debug)]
pub struct TagFilter {
    pub letter: char,
    pub values: Vec<String>,
}

#[verifier::ext_equal]
pub struct TagFilterView {
    pub letter: char,
    pub values: Seq<Seq<char>>,
}

impl View for TagFilter {
    type V = TagFilterView;

    open spec fn view(&self) -> TagFilterView {
        TagFilterView { letter: self.letter, values: tag_view(self.values) }
    }
}

/// What a subscription asks for. The lists are sets: no value occurs twice. The tag
/// filters have pairwise different letters, in the order in which they are tried.
#[derive(Debug)]
pub struct Filter {
    pub ids: Option<Vec<EventId>>,
    pub authors: Option<Vec<PublicKey>>,
    pub kinds: Option<Vec<u16>>,
    pub search: Option<String>,
    pub since: Option<u64>,
    pub until: Option<u64>,
    pub limit: Option<usize>,
    pub generic_tags: Vec<TagFilter>,
}

#[verifier::ext_equal]
pub struct FilterView {
    pub ids: Option<Seq<EventId>>,
    pub authors: Option<Seq<PublicKey>>,
    pub kinds: Option<Seq<u16>>,
    pub search: Option<Seq<char>>,
    pub since: Option<u64>,
    pub until: Option<u64>,
    pub limit: Option<usize>,
    pub generic_tags: Seq<TagFilterView>,
}

/// The view of an optional list.
pub open spec fn opt_seq<T>(list: Option<Vec<T>>) -> Option<Seq<T>> {
    match list {
        Some(v) => Some(v@),
        None => None,
    }
}

/// The view of an optional string.
pub open spec fn opt_text(text: Option<String>) -> Option<Seq<char>> {
    match text {
        Some(s) => Some(s@),
        None => None,
    }
}

impl View for Filter {
    type V = FilterView;

    open spec fn view(&self) -> FilterView {
        FilterView {
            ids: opt_seq(self.ids),
            authors: opt_seq(self.authors),
            kinds: opt_seq(self.kinds),
            search: opt_text(self.search),
            since: self.since,
            until: self.until,
            limit: self.limit,
            generic_tags: self.generic_tags@.map_values(|t: TagFilter| t@),
        }
    }
}

/// No value occurs twice in an optional list.
pub open spec fn is_set<T>(list: Option<Seq<T>>) -> bool {
    match list {
        Some(s) => s.no_duplicates(),
        None => true,
    }
}

/// `c` is one of the letters that name a tag which filters can ask for.
pub open spec fn is_tag_letter(c: char) -> bool {
    ('a' <= c && c <= 'z') || ('A' <= c && c <= 'Z')
}

impl FilterView {
    /// The lists of the filter are sets, and its tag filters are keyed by letter.
    pub open spec fn wf(self) -> bool {
        &&& is_set(self.ids)
        &&& is_set(self.authors)
        &&& is_set(self.kinds)
        &&& forall|i: int|
            0 <= i < self.generic_tags.len() ==> {
                &&& is_tag_letter((#[trigger] self.generic_tags[i]).letter)
                &&& self.generic_tags[i].values.no_duplicates()
            }
        &&& forall|i: int, j: int|
            0 <= i < j < self.generic_tags.len() ==> (#[trigger] self.generic_tags[i]).letter != (
            #[trigger] self.generic_tags[j]).letter
    }
}

/// The filter that asks nothing.
pub open spec fn no_conditions() -> FilterView {
    FilterView {
        ids: None,
        authors: None,
        kinds: None,
        search: None,
        since: None,
        until: None,
        limit: None,
        generic_tags: Seq::empty(),
    }
}

/// A list that is absent or empty admits every value; another admits its members.
pub open spec fn admits<T>(list: Option<Seq<T>>, x: T) -> bool {
    match list {
        Some(s) => s.len() == 0 || s.contains(x),
        None => true,
    }
}

/// Some tag with the filter's letter has one of the filter's values as its first value.
pub open spec fn tag_admits(t: TagFilterView, tags: Seq<Seq<Seq<char>>>) -> bool {
    exists|j: int|
        0 <= j < tags.len() && (#[trigger] tags[j]).len() >= 2 && tags[j][0] == seq![t.letter]
            && t.values.contains(tags[j][1])
}

/// The lower-case form of an ASCII letter; other bytes stand for themselves.
pub open spec fn ascii_lower(b: u8) -> int {
    if 0x41 <= b <= 0x5a {
        b + 0x20
    } else {
        b as int
    }
}

/// The bytes of `query` occur in `text` at position `i`, up to the case of ASCII letters.
pub open spec fn found_at(text: Seq<u8>, query: Seq<u8>, i: int) -> bool {
    &&& 0 <= i
    &&& i + query.len() <= text.len()
    &&& forall|j: int|
        0 <= j < query.len() ==> ascii_lower(#[trigger] text[i + j]) == ascii_lower(query[j])
}

/// The content holds the query, up to the case of ASCII letters.
pub open spec fn search_matches(query: Seq<char>, content: Seq<char>) -> bool {
    exists|i: int| found_at(encode_utf8(content), encode_utf8(query), i)
}

/// What a filter says of everything but the content of the event.
pub open spec fn matches_but_search(f: FilterView, e: EventView) -> bool {
    &&& admits(f.ids, e.id)
    &&& admits(f.authors, e.pubkey)
    &&& admits(f.kinds, e.kind)
    &&& f.since matches Some(t) ==> e.created_at >= t
    &&& f.until matches Some(t) ==> e.created_at <= t
    &&& forall|i: int|
        0 <= i < f.generic_tags.len() ==> tag_admits(#[trigger] f.generic_tags[i], e.tags)
}

/// The filter matches the event.
pub open spec fn filter_matches(f: FilterView, e: EventView) -> bool {
    matches_but_search(f, e) && (f.search matches Some(q) ==> search_matches(q, e.content))
}

/// Whether matching the event against the filter has an answer: the empty search text has
/// none, unless the rest of the filter rules the event out first.
pub open spec fn can_match(f: FilterView, e: EventView) -> bool {
    f.search == Some(Seq::<char>::empty()) ==> !matches_but_search(f, e)
}

impl Filter {
    /// The filter that accepts every event.
    pub fn new() -> (r: Filter)
        ensures
            r@ == no_conditions(),
            r@.wf(),
    {
        let r = Filter {
            ids: None,
            authors: None,
            kinds: None,
            search: None,
            since: None,
            until: None,
            limit: None,
            generic_tags: Vec::new(),
        };
        proof {
            assert(r@.generic_tags =~= Seq::empty());
        }
        r
    }

    /// A copy of the filter.
    pub fn copy(&self) -> (r: Filter)
        ensures
            r@ == self@,
    {
        let mut tags: Vec<TagFilter> = Vec::new();
        let mut i: usize = 0;
        while i < self.generic_tags.len()
            invariant
                i <= self.generic_tags@.len(),
                tags@.len() == i,
                forall|j: int| 0 <= j < i ==> (#[trigger] tags@[j])@ == self.generic_tags@[j]@,
            decreases self.generic_tags@.len() - i,
        {
            tags.push(
                TagFilter {
                    letter: self.generic_tags[i].letter,
                    values: copy_strings(&self.generic_tags[i].values),
                },
            );
            i = i + 1;
        }
        let ids = match &self.ids {
            Some(v) => Some(copy_list(v)),
            None => None,
        };
        let authors = match &self.authors {
            Some(v) => Some(copy_list(v)),
            None => None,
        };
        let kinds = match &self.kinds {
            Some(v) => Some(copy_list(v)),
            None => None,
        };
        let search = match &self.search {
            Some(s) => Some(s.clone()),
            None => None,
        };
        let r = Filter {
            ids,
            authors,
            kinds,
            search,
            since: self.since,
            until: self.until,
            limit: self.limit,
            generic_tags: tags,
        };
        proof {
            assert(r@.generic_tags =~= self@.generic_tags);
        }
        r
    }
}

impl Default for Filter {
    fn default() -> (r: Filter)
        ensures
            r@.wf(),
            r@.ids is None && r@.authors is None && r@.kinds is None && r@.search is None,
            r@.since is None && r@.until is None && r@.limit is None,
            r@.generic_tags.len() == 0,
    {
        Filter::new()
    }
}

/// A copy of a list of plain values.
pub fn copy_list<T: Copy>(v: &Vec<T>) -> (r: Vec<T>)
    ensures
        r@ == v@,
{
    let mut r: Vec<T> = Vec::new();
    let mut i: usize = 0;
    while i < v.len()
        invariant
            i <= v@.len(),
            r@ == v@.take(i as int),
        decreases v@.len() - i,
    {
        proof {
            assert(v@.take(i + 1) =~= v@.take(i as int).push(v@[i as int]));
        }
        r.push(v[i]);
        i = i + 1;
    }
    proof {
        assert(v@.take(v@.len() as int) =~= v@);
    }
    r
}

/// The part of the store, and of the subscriptions, that a connection works in.
#[derive(Debug, PartialEq, Eq)]
pub enum Scope {
    Default,
    Named { name: String },
}

/// The view of a scope: its name, where it has one.
impl View for Scope {
    type V = Option<Seq<char>>;

    open spec fn view(&self) -> Option<Seq<char>> {
        match self {
            Scope::Default => None,
            Scope::Named { name } => Some(name@),
        }
    }
}

impl Scope {
    /// The scope with the given name; a name is not empty.
    pub fn named(name: &str) -> (r: Option<Scope>)
        ensures
            r is Some <==> name@.len() > 0,
            r matches Some(s) ==> s@ == Some(name@),
    {
        if name.is_empty() {
            None
        } else {
            Some(Scope::Named { name: name.to_owned() })
        }
    }

    /// A copy of the scope.
    pub fn copy(&self) -> (r: Scope)
        ensures
            r@ == self@,
    {
        match self {
            Scope::Default => Scope::Default,
            Scope::Named { name } => Scope::Named { name: name.clone() },
        }
    }

    /// Whether two scopes are the same.
    pub fn same(&self, other: &Scope) -> (r: bool)
        ensures
            r == (self@ == other@),
    {
        match (self, other) {
            (Scope::Default, Scope::Default) => true,
            (Scope::Named { name: a }, Scope::Named { name: b }) => *a == *b,
            _ => false,
        }
    }
}

/// A message from a client to the relay. A message about a subscription begins with the
/// subscription's identifier.
#[derive(Debug)]
pub enum ClientMessage {
    Event(Event),
    Req(String, Filter),
    ReqMultiFilter(String, Vec<Filter>),
    /// A request to count events, which the relay does not serve.
    Count,
    Close(String),
    Auth(Event),
    /// Opens a reconciliation, with its first message in hexadecimal.
    NegOpen(String, Filter, String),
    /// The next message of a reconciliation, in hexadecimal.
    NegMsg(String, String),
    NegClose(String),
}

#[verifier::ext_equal]
pub enum ClientMessageView {
    Event(EventView),
    Req(Seq<char>, FilterView),
    ReqMultiFilter(Seq<char>, Seq<FilterView>),
    Count,
    Close(Seq<char>),
    Auth(EventView),
    NegOpen(Seq<char>, FilterView, Seq<char>),
    NegMsg(Seq<char>, Seq<char>),
    NegClose(Seq<char>),
}

/// The views of a list of filters.
pub open spec fn filters_view(filters: Seq<Filter>) -> Seq<FilterView> {
    filters.map_values(|f: Filter| f@)
}

/// Every filter of the list is well formed.
pub open spec fn filters_wf(filters: Seq<FilterView>) -> bool {
    forall|i: int| 0 <= i < filters.len() ==> (#[trigger] filters[i]).wf()
}

impl View for ClientMessage {
    type V = ClientMessageView;

    open spec fn view(&self) -> ClientMessageView {
        match self {
            ClientMessage::Event(e) => ClientMessageView::Event(e@),
            ClientMessage::Req(id, f) => ClientMessageView::Req(id@, f@),
            ClientMessage::ReqMultiFilter(id, fs) => ClientMessageView::ReqMultiFilter(
                id@,
                filters_view(fs@),
            ),
            ClientMessage::Count => ClientMessageView::Count,
            ClientMessage::Close(id) => ClientMessageView::Close(id@),
            ClientMessage::Auth(e) => ClientMessageView::Auth(e@),
            ClientMessage::NegOpen(id, f, m) => ClientMessageView::NegOpen(id@, f@, m@),
            ClientMessage::NegMsg(id, m) => ClientMessageView::NegMsg(id@, m@),
            ClientMessage::NegClose(id) => ClientMessageView::NegClose(id@),
        }
    }
}

impl ClientMessageView {
    /// The event or the filters of the message are well formed.
    pub open spec fn wf(self) -> bool {
        match self {
            ClientMessageView::Event(e) => e.wf(),
            ClientMessageView::Auth(e) => e.wf(),
            ClientMessageView::Req(_, f) => f.wf(),
            ClientMessageView::ReqMultiFilter(_, fs) => filters_wf(fs),
            ClientMessageView::NegOpen(_, f, _) => f.wf(),
            _ => true,
        }
    }
}

/// A message from the relay to a client.
#[derive(Debug)]
pub enum RelayMessage {
    Event { subscription_id: String, event: Event },
    /// The answer to an event: whether it was taken, and why.
    OkReply { event_id: EventId, status: bool, message: String },
    EndOfStoredEvents(String),
    Notice(String),
    Closed { subscription_id: String, message: String },
    Auth { challenge: String },
    Count { subscription_id: String, count: usize },
    NegMsg { subscription_id: String, message: String },
    NegErr { subscription_id: String, message: String },
}

#[verifier::ext_equal]
pub enum RelayMessageView {
    Event { subscription_id: Seq<char>, event: EventView },
    OkReply { event_id: EventId, status: bool, message: Seq<char> },
    EndOfStoredEvents(Seq<char>),
    Notice(Seq<char>),
    Closed { subscription_id: Seq<char>, message: Seq<char> },
    Auth { challenge: Seq<char> },
    Count { subscription_id: Seq<char>, count: usize },
    NegMsg { subscription_id: Seq<char>, message: Seq<char> },
    NegErr { subscription_id: Seq<char>, message: Seq<char> },
}

impl View for RelayMessage {
    type V = RelayMessageView;

    open spec fn view(&self) -> RelayMessageView {
        match self {
            RelayMessage::Event { subscription_id, event } => RelayMessageView::Event {
                subscription_id: subscription_id@,
                event: event@,
            },
            RelayMessage::OkReply { event_id, status, message } => RelayMessageView::OkReply {
                event_id: *event_id,
                status: *status,
                message: message@,
            },
            RelayMessage::EndOfStoredEvents(id) => RelayMessageView::EndOfStoredEvents(id@),
            RelayMessage::Notice(message) => RelayMessageView::Notice(message@),
            RelayMessage::Closed { subscription_id, message } => RelayMessageView::Closed {
                subscription_id: subscription_id@,
                message: message@,
            },
            RelayMessage::Auth { challenge } => RelayMessageView::Auth { challenge: challenge@ },
            RelayMessage::Count { subscription_id, count } => RelayMessageView::Count {
                subscription_id: subscription_id@,
                count: *count,
            },
            RelayMessage::NegMsg { subscription_id, message } => RelayMessageView::NegMsg {
                subscription_id: subscription_id@,
                message: message@,
            },
            RelayMessage::NegErr { subscription_id, message } => RelayMessageView::NegErr {
                subscription_id: subscription_id@,
                message: message@,
            },
        }
    }
}

impl RelayMessage {
    /// A copy of the message.
    pub fn copy(&self) -> (r: RelayMessage)
        ensures
            r@ == self@,
    {
        match self {
            RelayMessage::Event { subscription_id, event } => RelayMessage::Event {
                subscription_id: subscription_id.clone(),
                event: event.copy(),
            },
            RelayMessage::OkReply { event_id, status, message } => RelayMessage::OkReply {
                event_id: *event_id,
                status: *status,
                message: message.clone(),
            },
            RelayMessage::EndOfStoredEvents(id) => RelayMessage::EndOfStoredEvents(id.clone()),
            RelayMessage::Notice(message) => RelayMessage::Notice(message.clone()),
            RelayMessage::Closed { subscription_id, message } => RelayMessage::Closed {
                subscription_id: subscription_id.clone(),
                message: message.clone(),
            },
            RelayMessage::Auth { challenge } => RelayMessage::Auth { challenge: challenge.clone() },
            RelayMessage::Count { subscription_id, count } => RelayMessage::Count {
                subscription_id: subscription_id.clone(),
                count: *count,
            },
            RelayMessage::NegMsg { subscription_id, message } => RelayMessage::NegMsg {
                subscription_id: subscription_id.clone(),
                message: message.clone(),
            },
            RelayMessage::NegErr { subscription_id, message } => RelayMessage::NegErr {
                subscription_id: subscription_id.clone(),
                message: message.clone(),
            },
        }
    }
}

impl RelayMessageView {
    /// The event of the message, where it brings one, is well formed.
    pub open spec fn wf(self) -> bool {
        match self {
            RelayMessageView::Event { subscription_id, event } => event.wf(),
            _ => true,
        }
    }
}

} // verus!
