//! The mathematical model of the subscription index: which filters and groups it tracks,
//! under which key each filter is filed, which filters an event makes candidates, and to
//! which subscriptions an event goes.

use crate::keyed_lists::without;
use crate::protocol::{
    can_match, filter_matches, is_tag_letter, matches_but_search, tag_admits, EventId, EventView, FilterView, PublicKey,
    TagFilterView,
};
use vstd::prelude::*;

verus! {

/// The field by which a filter is filed.
#[derive(Clone, Copy, PartialEq, Eq, Structural, Debug)]
pub enum IndexedField {
    EventId,
    Author,
    Kind,
    /// A tag, by its letter.
    Tag(char),
}

/// A subscription: the connection's identifier and the subscription's.
pub type GroupKey = (Seq<char>, Seq<char>);

/// A filter with the last event that it let through and the subscription it belongs to.
#[verifier::ext_equal]
pub struct TrackedView {
    pub filter: FilterView,
    pub last_seen: Option<EventId>,
    pub parent: GroupKey,
    pub field: Option<IndexedField>,
}

/// The filters of a subscription and the last event that went to it.
#[verifier::ext_equal]
pub struct GroupView {
    pub last_seen: Option<EventId>,
    pub filter_ids: Set<u64>,
}

/// What the index holds.
#[verifier::ext_equal]
pub struct IndexView {
    pub filters: Map<u64, TrackedView>,
    pub groups: Map<GroupKey, GroupView>,
    pub next_id: u64,
}

/// A key of one of the index's tables.
pub enum TableKey {
    All,
    Id(EventId),
    Author(PublicKey),
    Kind(u16),
    Tag(char, Seq<char>),
}

/// The list is there and has a member.
pub open spec fn has_members<T>(list: Option<Seq<T>>) -> bool {
    list matches Some(s) && s.len() > 0
}

/// The letter of the first tag filter that has values.
pub open spec fn first_letter(tags: Seq<TagFilterView>) -> Option<char>
    decreases tags.len(),
{
    if tags.len() == 0 {
        None
    } else if tags[0].values.len() > 0 {
        Some(tags[0].letter)
    } else {
        first_letter(tags.drop_first())
    }
}

/// The values of the tag filter with a letter.
pub open spec fn values_of(tags: Seq<TagFilterView>, letter: char) -> Seq<Seq<char>>
    decreases tags.len(),
{
    if tags.len() == 0 {
        Seq::empty()
    } else if tags[0].letter == letter {
        tags[0].values
    } else {
        values_of(tags.drop_first(), letter)
    }
}

/// The field by which a filter is filed: the most selective one that it restricts, and none
/// where it restricts none of them.
pub open spec fn chosen_field(f: FilterView) -> Option<IndexedField> {
    if has_members(f.ids) {
        Some(IndexedField::EventId)
    } else if has_members(f.authors) {
        Some(IndexedField::Author)
    } else if has_members(f.kinds) {
        Some(IndexedField::Kind)
    } else {
        match first_letter(f.generic_tags) {
            Some(letter) => Some(IndexedField::Tag(letter)),
            None => None,
        }
    }
}

/// Whether the filter is filed under the key.
pub open spec fn filed_under(f: FilterView, key: TableKey) -> bool {
    match (chosen_field(f), key) {
        (None, TableKey::All) => true,
        (Some(IndexedField::EventId), TableKey::Id(id)) => f.ids->0.contains(id),
        (Some(IndexedField::Author), TableKey::Author(author)) => f.authors->0.contains(author),
        (Some(IndexedField::Kind), TableKey::Kind(kind)) => f.kinds->0.contains(kind),
        (Some(IndexedField::Tag(letter)), TableKey::Tag(l, value)) => letter == l && values_of(
            f.generic_tags,
            letter,
        ).contains(value),
        _ => false,
    }
}

/// The filters with a number below `n` that are filed under the key, in ascending order.
pub open spec fn ids_under(filters: Map<u64, TrackedView>, key: TableKey, n: nat) -> Seq<u64>
    decreases n,
{
    if n == 0 {
        Seq::empty()
    } else {
        let id = (n - 1) as u64;
        let below = ids_under(filters, key, (n - 1) as nat);
        if filters.contains_key(id) && filed_under(filters[id].filter, key) {
            below.push(id)
        } else {
            below
        }
    }
}

/// `a` followed by the members of `b` that it does not hold yet.
pub open spec fn merge(a: Seq<u64>, b: Seq<u64>) -> Seq<u64>
    decreases b.len(),
{
    if b.len() == 0 {
        a
    } else {
        let m = merge(a, b.drop_last());
        if m.contains(b.last()) {
            m
        } else {
            m.push(b.last())
        }
    }
}

/// The letter that names a tag, where one does.
pub open spec fn letter_of(tag: Seq<Seq<char>>) -> Option<char> {
    if tag.len() > 0 && tag[0].len() == 1 && is_tag_letter(tag[0][0]) {
        Some(tag[0][0])
    } else {
        None
    }
}

impl IndexView {
    /// Every filter belongs to a group that holds its number, and the other way round. The
    /// numbers in use are at least one and below the next one.
    pub open spec fn wf(self) -> bool {
        &&& self.filters.dom().finite()
        &&& self.groups.dom().finite()
        &&& self.next_id >= 1
        &&& forall|id: u64| #[trigger]
            self.filters.contains_key(id) ==> {
                &&& 1 <= id < self.next_id
                &&& self.filters[id].filter.wf()
                &&& self.filters[id].field == chosen_field(self.filters[id].filter)
                &&& self.groups.contains_key(self.filters[id].parent)
                &&& self.groups[self.filters[id].parent].filter_ids.contains(id)
            }
        &&& forall|g: GroupKey, id: u64|
            self.groups.contains_key(g) && #[trigger] self.groups[g].filter_ids.contains(id) ==> {
                &&& self.filters.contains_key(id)
                &&& self.filters[id].parent == g
            }
    }

    /// The filters that are filed under the key, in ascending order.
    pub open spec fn under(self, key: TableKey) -> Seq<u64> {
        ids_under(self.filters, key, self.next_id as nat)
    }

    /// The candidates of `start`, and then those that the values of a tag bring.
    pub open spec fn with_values(
        self,
        start: Seq<u64>,
        letter: char,
        values: Seq<Seq<char>>,
    ) -> Seq<u64>
        decreases values.len(),
    {
        if values.len() == 0 {
            start
        } else {
            merge(
                self.with_values(start, letter, values.drop_last()),
                self.under(TableKey::Tag(letter, values.last())),
            )
        }
    }

    /// The candidates of `start`, and then those that the tags bring.
    pub open spec fn with_tags(self, start: Seq<u64>, tags: Seq<Seq<Seq<char>>>) -> Seq<u64>
        decreases tags.len(),
    {
        if tags.len() == 0 {
            start
        } else {
            let before = self.with_tags(start, tags.drop_last());
            match letter_of(tags.last()) {
                Some(letter) => self.with_values(before, letter, tags.last().skip(1)),
                None => before,
            }
        }
    }

    /// The filters that the tables give for an event: those that accept everything, then those
    /// filed under its identifier, its author, its kind, and the values of its tags.
    pub open spec fn candidates(self, e: EventView) -> Seq<u64> {
        let all = merge(Seq::empty(), self.under(TableKey::All));
        let ids = merge(all, self.under(TableKey::Id(e.id)));
        let authors = merge(ids, self.under(TableKey::Author(e.pubkey)));
        let kinds = merge(authors, self.under(TableKey::Kind(e.kind)));
        self.with_tags(kinds, e.tags)
    }

    /// The filter matches the event and has not let it through yet.
    pub open spec fn hit(self, e: EventView, id: u64) -> bool {
        &&& self.filters.contains_key(id)
        &&& self.filters[id].last_seen != Some(e.id)
        &&& filter_matches(self.filters[id].filter, e)
    }

    /// Whether the event can be distributed: each filter that has not let it through yet has an
    /// answer to it.
    pub open spec fn can_distribute(self, e: EventView) -> bool {
        forall|id: u64| #[trigger]
            self.filters.contains_key(id) && self.filters[id].last_seen != Some(e.id)
                ==> can_match(self.filters[id].filter, e)
    }

    /// The group is there and the event did not go to it last.
    pub open spec fn awaits(self, e: EventView, g: GroupKey) -> bool {
        self.groups.contains_key(g) && self.groups[g].last_seen != Some(e.id)
    }

    /// The groups that the filters of a list bring the event to, each once.
    pub open spec fn deliveries(self, e: EventView, list: Seq<u64>) -> Seq<GroupKey>
        decreases list.len(),
    {
        if list.len() == 0 {
            Seq::empty()
        } else {
            let before = self.deliveries(e, list.drop_last());
            let g = self.filters[list.last()].parent;
            if self.hit(e, list.last()) && self.awaits(e, g) && !before.contains(g) {
                before.push(g)
            } else {
                before
            }
        }
    }

    /// The event goes to the group: it awaits the event, and one of its filters lets it through.
    pub open spec fn receives(self, e: EventView, g: GroupKey) -> bool {
        self.awaits(e, g) && exists|id: u64| #[trigger]
            self.hit(e, id) && self.filters[id].parent == g
    }

    /// The index after the event was distributed: the filters that matched it and the groups
    /// that received it remember it.
    pub open spec fn after_event(self, e: EventView) -> IndexView {
        IndexView {
            filters: Map::new(
                |id: u64| self.filters.contains_key(id),
                |id: u64|
                    if self.hit(e, id) {
                        TrackedView { last_seen: Some(e.id), ..self.filters[id] }
                    } else {
                        self.filters[id]
                    },
            ),
            groups: Map::new(
                |g: GroupKey| self.groups.contains_key(g),
                |g: GroupKey|
                    if self.receives(e, g) {
                        GroupView { last_seen: Some(e.id), ..self.groups[g] }
                    } else {
                        self.groups[g]
                    },
            ),
            next_id: self.next_id,
        }
    }

    /// Some filter is filed under the key.
    pub open spec fn in_use(self, key: TableKey) -> bool {
        exists|id: u64| #[trigger]
            self.filters.contains_key(id) && filed_under(self.filters[id].filter, key)
    }

    /// The authors under which filters are filed.
    pub open spec fn authors_in_use(self) -> Set<PublicKey> {
        Set::new(|author: PublicKey| self.in_use(TableKey::Author(author)))
    }

    /// The kinds under which filters are filed.
    pub open spec fn kinds_in_use(self) -> Set<u16> {
        Set::new(|kind: u16| self.in_use(TableKey::Kind(kind)))
    }

    /// The event identifiers under which filters are filed.
    pub open spec fn ids_in_use(self) -> Set<EventId> {
        Set::new(|id: EventId| self.in_use(TableKey::Id(id)))
    }

    /// The tag letters and values under which filters are filed.
    pub open spec fn tags_in_use(self) -> Set<(char, Seq<char>)> {
        Set::new(|tag: (char, Seq<char>)| self.in_use(TableKey::Tag(tag.0, tag.1)))
    }

    /// The filters that have let an event through.
    pub open spec fn filters_with_events(self) -> Set<u64> {
        self.filters.dom().filter(|id: u64| self.filters[id].last_seen is Some)
    }

    /// The index after filters were added to a subscription, which is opened where it is new.
    pub open spec fn added(self, g: GroupKey, filters: Seq<FilterView>) -> IndexView {
        let n = self.next_id;
        let held = if self.groups.contains_key(g) {
            self.groups[g]
        } else {
            GroupView { last_seen: None, filter_ids: Set::empty() }
        };
        IndexView {
            filters: Map::new(
                |id: u64| self.filters.contains_key(id) || n <= id < n + filters.len(),
                |id: u64|
                    if n <= id < n + filters.len() {
                        TrackedView {
                            filter: filters[id - n],
                            last_seen: None,
                            parent: g,
                            field: chosen_field(filters[id - n]),
                        }
                    } else {
                        self.filters[id]
                    },
            ),
            groups: self.groups.insert(
                g,
                GroupView {
                    last_seen: held.last_seen,
                    filter_ids: Set::new(
                        |id: u64| held.filter_ids.contains(id) || n <= id < n + filters.len(),
                    ),
                },
            ),
            next_id: (n + filters.len()) as u64,
        }
    }

    /// The index without a subscription and its filters.
    pub open spec fn removed(self, g: GroupKey) -> IndexView {
        IndexView {
            filters: Map::new(
                |id: u64| self.filters.contains_key(id) && self.filters[id].parent != g,
                |id: u64| self.filters[id],
            ),
            groups: self.groups.remove(g),
            next_id: self.next_id,
        }
    }
}

/// A filter is among those filed under a key exactly when it is there and filed under it.
pub proof fn lemma_ids_under_contains(filters: Map<u64, TrackedView>, key: TableKey, n: nat, id: u64)
    requires
        n <= u64::MAX + 1,
    ensures
        ids_under(filters, key, n).contains(id) <==> id < n && filters.contains_key(id)
            && filed_under(filters[id].filter, key),
    decreases n,
{
    if n > 0 {
        lemma_ids_under_contains(filters, key, (n - 1) as nat, id);
        let below = ids_under(filters, key, (n - 1) as nat);
        let last = (n - 1) as u64;
        if filters.contains_key(last) && filed_under(filters[last].filter, key) {
            let s = below.push(last);
            if below.contains(id) {
                let i = choose|i: int| 0 <= i < below.len() && below[i] == id;
                assert(s[i] == id);
            }
            if id == last {
                assert(s[below.len() as int] == id);
            }
            if s.contains(id) {
                let i = choose|i: int| 0 <= i < s.len() && s[i] == id;
                if i < below.len() {
                    assert(below[i] == id);
                }
            }
        }
    }
}

/// The list under a key has members exactly when some filter is filed under it.
pub proof fn lemma_in_use(v: IndexView, key: TableKey)
    requires
        v.wf(),
    ensures
        v.under(key).len() > 0 <==> v.in_use(key),
{
    if v.under(key).len() > 0 {
        let id = v.under(key)[0];
        assert(v.under(key).contains(id));
        lemma_ids_under_contains(v.filters, key, v.next_id as nat, id);
    }
    if v.in_use(key) {
        let id = choose|id: u64| #[trigger]
            v.filters.contains_key(id) && filed_under(v.filters[id].filter, key);
        lemma_ids_under_contains(v.filters, key, v.next_id as nat, id);
    }
}

/// The lists depend only on which filters there are.
pub proof fn lemma_ids_under_same(
    a: Map<u64, TrackedView>,
    b: Map<u64, TrackedView>,
    key: TableKey,
    n: nat,
)
    requires
        n <= u64::MAX + 1,
        forall|id: u64|
            id < n ==> (#[trigger] a.contains_key(id) <==> b.contains_key(id)) && (a.contains_key(id)
                ==> a[id].filter == b[id].filter),
    ensures
        ids_under(a, key, n) == ids_under(b, key, n),
    decreases n,
{
    if n > 0 {
        lemma_ids_under_same(a, b, key, (n - 1) as nat);
        let last = (n - 1) as u64;
        assert(a.contains_key(last) <==> b.contains_key(last));
    }
}

/// Taking a filter away takes its number out of every list.
pub proof fn lemma_ids_under_remove(filters: Map<u64, TrackedView>, key: TableKey, n: nat, x: u64)
    requires
        n <= u64::MAX + 1,
    ensures
        ids_under(filters.remove(x), key, n) == without(ids_under(filters, key, n), x),
    decreases n,
{
    if n > 0 {
        lemma_ids_under_remove(filters, key, (n - 1) as nat, x);
        let below = ids_under(filters, key, (n - 1) as nat);
        let last = (n - 1) as u64;
        if filters.contains_key(last) && filed_under(filters[last].filter, key) {
            assert(below.push(last).drop_last() =~= below);
            if last == x {
                lemma_ids_under_contains(filters, key, (n - 1) as nat, x);
            }
        }
    }
}

/// A list that does not hold a number is not changed by taking the number out.
pub proof fn lemma_without_absent(s: Seq<u64>, x: u64)
    requires
        !s.contains(x),
    ensures
        without(s, x) == s,
    decreases s.len(),
{
    if s.len() > 0 {
        assert(s[s.len() - 1] != x);
        assert forall|i: int| 0 <= i < s.drop_last().len() implies s.drop_last()[i] != x by {
            assert(s[i] != x);
        }
        lemma_without_absent(s.drop_last(), x);
        assert(s.drop_last().push(s.last()) =~= s);
    }
}

/// What a merged list holds.
pub proof fn lemma_merge(a: Seq<u64>, b: Seq<u64>)
    requires
        a.no_duplicates(),
    ensures
        merge(a, b).no_duplicates(),
        forall|x: u64| #[trigger] merge(a, b).contains(x) <==> a.contains(x) || b.contains(x),
    decreases b.len(),
{
    if b.len() > 0 {
        lemma_merge(a, b.drop_last());
        let m = merge(a, b.drop_last());
        assert forall|x: u64| #[trigger] merge(a, b).contains(x) <==> a.contains(x) || b.contains(
            x,
        ) by {
            assert(b =~= b.drop_last().push(b.last()));
            if b.contains(x) {
                let i = choose|i: int| 0 <= i < b.len() && b[i] == x;
                if i < b.len() - 1 {
                    assert(b.drop_last()[i] == x);
                }
            }
            if b.drop_last().contains(x) {
                let i = choose|i: int| 0 <= i < b.drop_last().len() && b.drop_last()[i] == x;
                assert(b[i] == x);
            }
            assert(b[b.len() - 1] == b.last());
            if !m.contains(b.last()) {
                let s = m.push(b.last());
                if m.contains(x) {
                    let i = choose|i: int| 0 <= i < m.len() && m[i] == x;
                    assert(s[i] == x);
                }
                assert(s[m.len() as int] == b.last());
                if s.contains(x) {
                    let i = choose|i: int| 0 <= i < s.len() && s[i] == x;
                    if i < m.len() {
                        assert(m[i] == x);
                    }
                }
            }
        }
    }
}

/// What the values of a tag bring.
pub proof fn lemma_with_values(
    v: IndexView,
    start: Seq<u64>,
    letter: char,
    values: Seq<Seq<char>>,
)
    requires
        start.no_duplicates(),
    ensures
        v.with_values(start, letter, values).no_duplicates(),
        forall|x: u64| start.contains(x) ==> #[trigger] v.with_values(start, letter, values).contains(x),
        forall|x: u64, i: int|
            0 <= i < values.len() && #[trigger] v.under(TableKey::Tag(letter, values[i])).contains(x)
                ==> v.with_values(start, letter, values).contains(x),
        forall|x: u64| #[trigger]
            v.with_values(start, letter, values).contains(x) && !start.contains(x)
                ==> v.filters.contains_key(x),
    decreases values.len(),
{
    if values.len() > 0 {
        lemma_with_values(v, start, letter, values.drop_last());
        let p = v.with_values(start, letter, values.drop_last());
        let q = v.under(TableKey::Tag(letter, values.last()));
        lemma_merge(p, q);
        assert forall|x: u64, i: int|
            0 <= i < values.len() && #[trigger] v.under(TableKey::Tag(letter, values[i])).contains(
                x,
            ) implies v.with_values(start, letter, values).contains(x) by {
            if i < values.len() - 1 {
                assert(values.drop_last()[i] == values[i]);
                assert(v.under(TableKey::Tag(letter, values.drop_last()[i])).contains(x));
            }
        }
        assert forall|x: u64| #[trigger]
            v.with_values(start, letter, values).contains(x) && !start.contains(
                x,
            ) implies v.filters.contains_key(x) by {
            if q.contains(x) {
                lemma_ids_under_contains(
                    v.filters,
                    TableKey::Tag(letter, values.last()),
                    v.next_id as nat,
                    x,
                );
            }
        }
    }
}

/// What the tags of an event bring.
pub proof fn lemma_with_tags(v: IndexView, start: Seq<u64>, tags: Seq<Seq<Seq<char>>>)
    requires
        start.no_duplicates(),
    ensures
        v.with_tags(start, tags).no_duplicates(),
        forall|x: u64| start.contains(x) ==> #[trigger] v.with_tags(start, tags).contains(x),
        forall|x: u64, j: int, i: int|
            0 <= j < tags.len() && 1 <= i < tags[j].len() && letter_of(tags[j]) is Some
                && #[trigger] v.under(TableKey::Tag(letter_of(tags[j])->0, tags[j][i])).contains(x)
                ==> v.with_tags(start, tags).contains(x),
        forall|x: u64| #[trigger]
            v.with_tags(start, tags).contains(x) && !start.contains(x) ==> v.filters.contains_key(x),
    decreases tags.len(),
{
    if tags.len() > 0 {
        lemma_with_tags(v, start, tags.drop_last());
        let p = v.with_tags(start, tags.drop_last());
        if let Some(letter) = letter_of(tags.last()) {
            lemma_with_values(v, p, letter, tags.last().skip(1));
        }
        assert forall|x: u64, j: int, i: int|
            0 <= j < tags.len() && 1 <= i < tags[j].len() && letter_of(tags[j]) is Some
                && #[trigger] v.under(TableKey::Tag(letter_of(tags[j])->0, tags[j][i])).contains(
                x,
            ) implies v.with_tags(start, tags).contains(x) by {
            if j < tags.len() - 1 {
                assert(tags.drop_last()[j] == tags[j]);
                assert(v.under(
                    TableKey::Tag(letter_of(tags.drop_last()[j])->0, tags.drop_last()[j][i]),
                ).contains(x));
            } else {
                let t = tags.last();
                assert(t.skip(1)[i - 1] == t[i]);
                assert(v.under(TableKey::Tag(letter_of(t)->0, t.skip(1)[i - 1])).contains(x));
            }
        }
    }
}

/// The values of the first tag filter that has any are not empty, and it is among the filters.
proof fn lemma_first_letter(tags: Seq<TagFilterView>)
    ensures
        first_letter(tags) matches Some(letter) ==> exists|i: int|
            0 <= i < tags.len() && (#[trigger] tags[i]).letter == letter && (forall|j: int|
                0 <= j < i ==> (#[trigger] tags[j]).values.len() == 0),
    decreases tags.len(),
{
    if tags.len() > 0 && tags[0].values.len() == 0 {
        lemma_first_letter(tags.drop_first());
        if let Some(letter) = first_letter(tags.drop_first()) {
            let rest = tags.drop_first();
            let i = choose|i: int|
                0 <= i < rest.len() && (#[trigger] rest[i]).letter == letter && (forall|j: int|
                    0 <= j < i ==> (#[trigger] rest[j]).values.len() == 0);
            assert(tags[i + 1].letter == letter);
            assert forall|j: int| 0 <= j < i + 1 implies (#[trigger] tags[j]).values.len() == 0 by {
                if j > 0 {
                    assert(rest[j - 1].values.len() == 0);
                }
            }
        }
    }
}

/// The values found under a letter are those of a tag filter with that letter.
proof fn lemma_values_of(tags: Seq<TagFilterView>, i: int)
    requires
        0 <= i < tags.len(),
        forall|a: int, b: int|
            0 <= a < b < tags.len() ==> (#[trigger] tags[a]).letter != (#[trigger] tags[b]).letter,
    ensures
        values_of(tags, tags[i].letter) == tags[i].values,
    decreases tags.len(),
{
    if i > 0 {
        assert(tags[0].letter != tags[i].letter);
        let rest = tags.drop_first();
        assert forall|a: int, b: int| 0 <= a < b < rest.len() implies (#[trigger] rest[a]).letter != (
        #[trigger] rest[b]).letter by {
            assert(tags[a + 1].letter != tags[b + 1].letter);
        }
        lemma_values_of(rest, i - 1);
        assert(rest[i - 1] == tags[i]);
    }
}

/// The tables give every filter that admits an event, whatever its content: no match is missed.
pub proof fn lemma_candidates_complete(v: IndexView, e: EventView, id: u64)
    requires
        v.wf(),
        v.filters.contains_key(id),
        matches_but_search(v.filters[id].filter, e),
    ensures
        v.candidates(e).contains(id),
{
    let f = v.filters[id].filter;
    let n = v.next_id as nat;
    let s0 = Seq::<u64>::empty();
    let all = v.under(TableKey::All);
    let ids = v.under(TableKey::Id(e.id));
    let authors = v.under(TableKey::Author(e.pubkey));
    let kinds = v.under(TableKey::Kind(e.kind));
    lemma_merge(s0, all);
    let s1 = merge(s0, all);
    lemma_merge(s1, ids);
    let s2 = merge(s1, ids);
    lemma_merge(s2, authors);
    let s3 = merge(s2, authors);
    lemma_merge(s3, kinds);
    let s4 = merge(s3, kinds);
    lemma_with_tags(v, s4, e.tags);
    match chosen_field(f) {
        None => {
            lemma_ids_under_contains(v.filters, TableKey::All, n, id);
        },
        Some(IndexedField::EventId) => {
            assert(f.ids->0.contains(e.id));
            lemma_ids_under_contains(v.filters, TableKey::Id(e.id), n, id);
        },
        Some(IndexedField::Author) => {
            assert(f.authors->0.contains(e.pubkey));
            lemma_ids_under_contains(v.filters, TableKey::Author(e.pubkey), n, id);
        },
        Some(IndexedField::Kind) => {
            assert(f.kinds->0.contains(e.kind));
            lemma_ids_under_contains(v.filters, TableKey::Kind(e.kind), n, id);
        },
        Some(IndexedField::Tag(letter)) => {
            lemma_first_letter(f.generic_tags);
            let i = choose|i: int|
                0 <= i < f.generic_tags.len() && (#[trigger] f.generic_tags[i]).letter == letter && (
                forall|j: int|
                    0 <= j < i ==> (#[trigger] f.generic_tags[j]).values.len() == 0);
            lemma_values_of(f.generic_tags, i);
            assert(tag_admits(f.generic_tags[i], e.tags));
            let j = choose|j: int|
                0 <= j < e.tags.len() && (#[trigger] e.tags[j]).len() >= 2 && e.tags[j][0] == seq![
                    f.generic_tags[i].letter,
                ] && f.generic_tags[i].values.contains(e.tags[j][1]);
            assert(e.tags[j][0][0] == letter);
            assert(letter_of(e.tags[j]) == Some(letter));
            lemma_ids_under_contains(v.filters, TableKey::Tag(letter, e.tags[j][1]), n, id);
            assert(v.under(TableKey::Tag(letter_of(e.tags[j])->0, e.tags[j][1])).contains(id));
        },
    }
}

/// The candidates are filters of the index, each once.
pub proof fn lemma_candidates_sound(v: IndexView, e: EventView)
    requires
        v.wf(),
    ensures
        v.candidates(e).no_duplicates(),
        forall|x: u64| #[trigger] v.candidates(e).contains(x) ==> v.filters.contains_key(x),
{
    let n = v.next_id as nat;
    let s0 = Seq::<u64>::empty();
    let all = v.under(TableKey::All);
    let ids = v.under(TableKey::Id(e.id));
    let authors = v.under(TableKey::Author(e.pubkey));
    let kinds = v.under(TableKey::Kind(e.kind));
    lemma_merge(s0, all);
    let s1 = merge(s0, all);
    lemma_merge(s1, ids);
    let s2 = merge(s1, ids);
    lemma_merge(s2, authors);
    let s3 = merge(s2, authors);
    lemma_merge(s3, kinds);
    let s4 = merge(s3, kinds);
    lemma_with_tags(v, s4, e.tags);
    assert forall|x: u64| #[trigger] v.candidates(e).contains(x) implies v.filters.contains_key(
        x,
    ) by {
        lemma_ids_under_contains(v.filters, TableKey::All, n, x);
        lemma_ids_under_contains(v.filters, TableKey::Id(e.id), n, x);
        lemma_ids_under_contains(v.filters, TableKey::Author(e.pubkey), n, x);
        lemma_ids_under_contains(v.filters, TableKey::Kind(e.kind), n, x);
    }
}

/// Which groups a list of filters brings the event to.
pub proof fn lemma_deliveries(v: IndexView, e: EventView, list: Seq<u64>)
    ensures
        v.deliveries(e, list).no_duplicates(),
        forall|g: GroupKey| #[trigger]
            v.deliveries(e, list).contains(g) <==> v.awaits(e, g) && exists|id: u64|
                list.contains(id) && #[trigger] v.hit(e, id) && v.filters[id].parent == g,
    decreases list.len(),
{
    if list.len() > 0 {
        let before = v.deliveries(e, list.drop_last());
        lemma_deliveries(v, e, list.drop_last());
        let last = list.last();
        assert(list[list.len() - 1] == last);
        assert forall|g: GroupKey| #[trigger]
            v.deliveries(e, list).contains(g) <==> v.awaits(e, g) && exists|id: u64|
                list.contains(id) && #[trigger] v.hit(e, id) && v.filters[id].parent == g by {
            if before.contains(g) {
                let id = choose|id: u64|
                    list.drop_last().contains(id) && #[trigger] v.hit(e, id)
                        && v.filters[id].parent == g;
                let i = choose|i: int| 0 <= i < list.drop_last().len() && list.drop_last()[i] == id;
                assert(list[i] == id);
                assert(list.contains(id) && v.hit(e, id) && v.filters[id].parent == g);
                let k = choose|k: int| 0 <= k < before.len() && before[k] == g;
                assert(v.deliveries(e, list)[k] == g);
            }
            if v.awaits(e, g) && exists|id: u64|
                list.contains(id) && #[trigger] v.hit(e, id) && v.filters[id].parent == g {
                let id = choose|id: u64|
                    list.contains(id) && #[trigger] v.hit(e, id) && v.filters[id].parent == g;
                let i = choose|i: int| 0 <= i < list.len() && list[i] == id;
                if i < list.len() - 1 {
                    assert(list.drop_last()[i] == id);
                    assert(before.contains(g));
                } else {
                    assert(id == last);
                    if !before.contains(g) {
                        assert(v.deliveries(e, list)[before.len() as int] == g);
                    }
                }
            }
            if v.deliveries(e, list).contains(g) && !before.contains(g) {
                let k = choose|k: int|
                    0 <= k < v.deliveries(e, list).len() && v.deliveries(e, list)[k] == g;
                if k < before.len() {
                    assert(before[k] == g);
                }
                assert(list.contains(last));
            }
        }
    }
}

/// An event goes to exactly the subscriptions that have a matching filter which has not let
/// it through yet, unless the event was the last that went to the subscription; and to each
/// of them once. What the tables leave out would not have matched.
pub proof fn law_distribution_is_exact(v: IndexView, e: EventView)
    requires
        v.wf(),
    ensures
        v.deliveries(e, v.candidates(e)).no_duplicates(),
        forall|g: GroupKey| #[trigger]
            v.deliveries(e, v.candidates(e)).contains(g) <==> v.receives(e, g),
{
    let list = v.candidates(e);
    lemma_deliveries(v, e, list);
    assert forall|g: GroupKey| #[trigger] v.deliveries(e, list).contains(g) <==> v.receives(
        e,
        g,
    ) by {
        if v.receives(e, g) {
            let id = choose|id: u64| #[trigger] v.hit(e, id) && v.filters[id].parent == g;
            lemma_candidates_complete(v, e, id);
        }
    }
}

/// Distribution keeps the index well formed.
pub proof fn lemma_after_event_wf(v: IndexView, e: EventView)
    requires
        v.wf(),
    ensures
        v.after_event(e).wf(),
{
    let a = v.after_event(e);
    assert(a.filters.dom() =~= v.filters.dom());
    assert(a.groups.dom() =~= v.groups.dom());
    assert forall|g: GroupKey, id: u64|
        a.groups.contains_key(g) && #[trigger] a.groups[g].filter_ids.contains(id) implies {
        &&& a.filters.contains_key(id)
        &&& a.filters[id].parent == g
    } by {
        assert(v.groups[g].filter_ids.contains(id));
    }
    assert forall|id: u64| #[trigger] a.filters.contains_key(id) implies {
        &&& 1 <= id < a.next_id
        &&& a.filters[id].filter.wf()
        &&& a.filters[id].field == chosen_field(a.filters[id].filter)
        &&& a.groups.contains_key(a.filters[id].parent)
        &&& a.groups[a.filters[id].parent].filter_ids.contains(id)
    } by {
        assert(v.filters.contains_key(id));
    }
}

/// An event that was just distributed goes to no one when it is distributed again.
pub proof fn law_no_second_delivery(v: IndexView, e: EventView)
    requires
        v.wf(),
    ensures
        v.after_event(e).deliveries(e, v.after_event(e).candidates(e)) == Seq::<GroupKey>::empty(),
{
    let a = v.after_event(e);
    lemma_after_event_wf(v, e);
    law_distribution_is_exact(a, e);
    let d = a.deliveries(e, a.candidates(e));
    if d.len() > 0 {
        assert(d.contains(d[0]));
        let id = choose|id: u64| #[trigger] a.hit(e, id) && a.filters[id].parent == d[0];
        assert(v.filters.contains_key(id));
        assert(v.hit(e, id));
    }
    assert(d =~= Seq::<GroupKey>::empty());
}

/// Adding a subscription keeps the index well formed.
pub proof fn lemma_added_wf(v: IndexView, g: GroupKey, filters: Seq<FilterView>)
    requires
        v.wf(),
        v.next_id + filters.len() <= u64::MAX,
        forall|i: int| 0 <= i < filters.len() ==> (#[trigger] filters[i]).wf(),
    ensures
        v.added(g, filters).wf(),
{
    let a = v.added(g, filters);
    let n = v.next_id;
    let range = Set::new(|id: u64| n <= id < n + filters.len());
    assert(range.finite()) by {
        lemma_range_finite(n, filters.len());
    }
    assert(a.filters.dom() =~= v.filters.dom().union(range));
    assert(a.groups.dom() =~= v.groups.dom().insert(g));
    assert forall|g2: GroupKey, id: u64|
        a.groups.contains_key(g2) && #[trigger] a.groups[g2].filter_ids.contains(id) implies {
        &&& a.filters.contains_key(id)
        &&& a.filters[id].parent == g2
    } by {
        if v.groups.contains_key(g2) && v.groups[g2].filter_ids.contains(id) {
            assert(v.filters.contains_key(id));
        }
    }
    assert forall|id: u64| #[trigger] a.filters.contains_key(id) implies {
        &&& 1 <= id < a.next_id
        &&& a.filters[id].filter.wf()
        &&& a.filters[id].field == chosen_field(a.filters[id].filter)
        &&& a.groups.contains_key(a.filters[id].parent)
        &&& a.groups[a.filters[id].parent].filter_ids.contains(id)
    } by {
        if n <= id < n + filters.len() {
            assert(filters[id - n].wf());
        } else {
            assert(v.filters.contains_key(id));
        }
    }
}

proof fn lemma_range_finite(n: u64, k: nat)
    ensures
        Set::new(|id: u64| n <= id < n + k).finite(),
    decreases k,
{
    let s = Set::new(|id: u64| n <= id < n + k);
    if k == 0 {
        assert(s =~= Set::empty());
    } else {
        lemma_range_finite(n, (k - 1) as nat);
        let t = Set::new(|id: u64| n <= id < n + (k - 1));
        if n + k - 1 <= u64::MAX {
            assert(s =~= t.insert((n + k - 1) as u64));
        } else {
            assert(s =~= t);
        }
    }
}

/// Removing a subscription keeps the index well formed.
pub proof fn lemma_removed_wf(v: IndexView, g: GroupKey)
    requires
        v.wf(),
    ensures
        v.removed(g).wf(),
{
    let a = v.removed(g);
    assert(a.filters.dom().subset_of(v.filters.dom()));
    vstd::set_lib::lemma_len_subset(a.filters.dom(), v.filters.dom());
    assert(a.groups.dom() =~= v.groups.dom().remove(g));
    assert forall|g2: GroupKey, id: u64|
        a.groups.contains_key(g2) && #[trigger] a.groups[g2].filter_ids.contains(id) implies {
        &&& a.filters.contains_key(id)
        &&& a.filters[id].parent == g2
    } by {
        assert(v.groups[g2].filter_ids.contains(id));
    }
    assert forall|id: u64| #[trigger] a.filters.contains_key(id) implies {
        &&& 1 <= id < a.next_id
        &&& a.filters[id].filter.wf()
        &&& a.filters[id].field == chosen_field(a.filters[id].filter)
        &&& a.groups.contains_key(a.filters[id].parent)
        &&& a.groups[a.filters[id].parent].filter_ids.contains(id)
    } by {
        assert(v.filters.contains_key(id));
    }
}

/// Adding a new subscription and removing it again leaves what was there before.
pub proof fn law_add_then_remove(v: IndexView, g: GroupKey, filters: Seq<FilterView>)
    requires
        v.wf(),
        !v.groups.contains_key(g),
    ensures
        v.added(g, filters).removed(g).filters == v.filters,
        v.added(g, filters).removed(g).groups == v.groups,
{
    let a = v.added(g, filters).removed(g);
    assert forall|id: u64| a.filters.contains_key(id) <==> v.filters.contains_key(id) by {
        if v.filters.contains_key(id) {
            assert(v.groups.contains_key(v.filters[id].parent));
        }
    }
    assert(a.filters =~= v.filters) by {
        assert forall|id: u64| #[trigger] v.filters.contains_key(id) implies a.filters[id]
            == v.filters[id] by {
            assert(id < v.next_id);
        }
    }
    assert(a.groups =~= v.groups);
}

/// A new subscription receives an event exactly when one of its filters matches it.
pub proof fn law_new_subscription_receives(
    v: IndexView,
    g: GroupKey,
    filters: Seq<FilterView>,
    e: EventView,
)
    requires
        v.wf(),
        !v.groups.contains_key(g),
        v.next_id + filters.len() <= u64::MAX,
    ensures
        v.added(g, filters).receives(e, g) <==> exists|i: int|
            0 <= i < filters.len() && filter_matches(#[trigger] filters[i], e),
{
    let a = v.added(g, filters);
    let n = v.next_id;
    if a.receives(e, g) {
        let id = choose|id: u64| #[trigger] a.hit(e, id) && a.filters[id].parent == g;
        if !(n <= id < n + filters.len()) {
            assert(v.filters.contains_key(id));
            assert(v.groups.contains_key(v.filters[id].parent));
        }
        assert(filter_matches(filters[id - n], e));
    }
    if exists|i: int| 0 <= i < filters.len() && filter_matches(#[trigger] filters[i], e) {
        let i = choose|i: int| 0 <= i < filters.len() && filter_matches(#[trigger] filters[i], e);
        let id = (n + i) as u64;
        assert(a.hit(e, id) && a.filters[id].parent == g);
    }
}

/// Adding or removing a subscription changes nothing for the other subscriptions.
pub proof fn law_subscriptions_are_independent(
    v: IndexView,
    g: GroupKey,
    filters: Seq<FilterView>,
    other: GroupKey,
    e: EventView,
)
    requires
        v.wf(),
        other != g,
    ensures
        v.added(g, filters).receives(e, other) <==> v.receives(e, other),
        v.removed(g).receives(e, other) <==> v.receives(e, other),
        !v.removed(g).receives(e, g),
{
    let a = v.added(g, filters);
    let r = v.removed(g);
    if v.receives(e, other) {
        let id = choose|id: u64| #[trigger] v.hit(e, id) && v.filters[id].parent == other;
        assert(id < v.next_id);
        assert(a.hit(e, id) && a.filters[id].parent == other);
        assert(r.hit(e, id) && r.filters[id].parent == other);
    }
    if a.receives(e, other) {
        let id = choose|id: u64| #[trigger] a.hit(e, id) && a.filters[id].parent == other;
        assert(v.hit(e, id) && v.filters[id].parent == other);
    }
    if r.receives(e, other) {
        let id = choose|id: u64| #[trigger] r.hit(e, id) && r.filters[id].parent == other;
        assert(v.hit(e, id) && v.filters[id].parent == other);
    }
}

/// A subscription that is there receives an event exactly when one of its filters matches the
/// event, unless it received that very event last, or the filter did: nothing else of the filter,
/// of the subscription or of what went to it before counts. Each receives the event once.
pub proof fn law_matching_filters_deliver(v: IndexView, e: EventView, g: GroupKey)
    requires
        v.wf(),
    ensures
        v.deliveries(e, v.candidates(e)).no_duplicates(),
        v.deliveries(e, v.candidates(e)).contains(g) <==> {
            &&& v.groups.contains_key(g)
            &&& v.groups[g].last_seen != Some(e.id)
            &&& exists|id: u64| #[trigger]
                v.groups[g].filter_ids.contains(id) && v.filters[id].last_seen != Some(e.id)
                    && filter_matches(v.filters[id].filter, e)
        },
{
    law_distribution_is_exact(v, e);
    if v.receives(e, g) {
        let id = choose|id: u64| #[trigger] v.hit(e, id) && v.filters[id].parent == g;
        assert(v.groups[g].filter_ids.contains(id));
    }
    if v.groups.contains_key(g) && v.groups[g].last_seen != Some(e.id) && exists|id: u64| #[trigger]
        v.groups[g].filter_ids.contains(id) && v.filters[id].last_seen != Some(e.id)
            && filter_matches(v.filters[id].filter, e) {
        let id = choose|id: u64| #[trigger]
            v.groups[g].filter_ids.contains(id) && v.filters[id].last_seen != Some(e.id)
                && filter_matches(v.filters[id].filter, e);
        assert(v.hit(e, id) && v.filters[id].parent == g);
    }
}

/// An event that neither a subscription nor any of its filters saw last goes to the subscription
/// exactly when one of its filters matches the event.
pub proof fn law_new_events_are_delivered(v: IndexView, e: EventView, g: GroupKey)
    requires
        v.wf(),
        v.groups.contains_key(g),
        v.groups[g].last_seen != Some(e.id),
        forall|id: u64| #[trigger]
            v.groups[g].filter_ids.contains(id) ==> v.filters[id].last_seen != Some(e.id),
    ensures
        v.deliveries(e, v.candidates(e)).contains(g) <==> exists|id: u64| #[trigger]
            v.groups[g].filter_ids.contains(id) && filter_matches(v.filters[id].filter, e),
{
    law_matching_filters_deliver(v, e, g);
}

/// Distributing an event changes nothing but what was seen last: the filters that match the event,
/// and the subscriptions that it went to, remember it.
pub proof fn law_distribution_only_marks(v: IndexView, e: EventView)
    requires
        v.wf(),
    ensures
        v.after_event(e).next_id == v.next_id,
        v.after_event(e).filters.dom() == v.filters.dom(),
        v.after_event(e).groups.dom() == v.groups.dom(),
        forall|id: u64| #[trigger]
            v.filters.contains_key(id) ==> {
                &&& v.after_event(e).filters[id].filter == v.filters[id].filter
                &&& v.after_event(e).filters[id].parent == v.filters[id].parent
                &&& v.after_event(e).filters[id].field == v.filters[id].field
                &&& v.after_event(e).filters[id].last_seen == if filter_matches(
                    v.filters[id].filter,
                    e,
                ) {
                    Some(e.id)
                } else {
                    v.filters[id].last_seen
                }
            },
        forall|g: GroupKey| #[trigger]
            v.groups.contains_key(g) ==> {
                &&& v.after_event(e).groups[g].filter_ids == v.groups[g].filter_ids
                &&& v.after_event(e).groups[g].last_seen == if v.deliveries(
                    e,
                    v.candidates(e),
                ).contains(g) {
                    Some(e.id)
                } else {
                    v.groups[g].last_seen
                }
            },
{
    law_distribution_is_exact(v, e);
    let a = v.after_event(e);
    assert(a.filters.dom() =~= v.filters.dom());
    assert(a.groups.dom() =~= v.groups.dom());
}

/// Events do not stand in each other's way: whom an event goes to does not depend on whether
/// another event was distributed just before.
pub proof fn law_events_are_independent(v: IndexView, first: EventView, e: EventView, g: GroupKey)
    requires
        v.wf(),
        first.id != e.id,
        v.groups.contains_key(g) ==> v.groups[g].last_seen != Some(e.id),
        forall|id: u64| #[trigger]
            v.filters.contains_key(id) ==> v.filters[id].last_seen != Some(e.id),
    ensures
        v.after_event(first).deliveries(e, v.after_event(first).candidates(e)).contains(g)
            <==> v.deliveries(e, v.candidates(e)).contains(g),
{
    let a = v.after_event(first);
    lemma_after_event_wf(v, first);
    law_distribution_only_marks(v, first);
    law_matching_filters_deliver(v, e, g);
    law_matching_filters_deliver(a, e, g);
    if a.groups.contains_key(g) {
        assert forall|id: u64| #[trigger] v.groups[g].filter_ids.contains(id) implies {
            &&& v.filters[id].last_seen != Some(e.id)
            &&& a.filters[id].last_seen != Some(e.id)
            &&& a.filters[id].filter == v.filters[id].filter
            &&& a.groups[g].filter_ids.contains(id)
        } by {
            assert(v.filters.contains_key(id));
        }
        assert forall|id: u64| #[trigger] a.groups[g].filter_ids.contains(id) implies {
            &&& v.groups[g].filter_ids.contains(id)
        } by {
        }
    }
}

/// The filters of a subscription that is added are all there, each for itself, and wait for their
/// first event; the filters that were there stay as they are. A subscription that was there keeps
/// its filters and what it saw last.
pub proof fn law_added_filters_are_held(v: IndexView, g: GroupKey, filters: Seq<FilterView>)
    requires
        v.wf(),
        v.next_id + filters.len() <= u64::MAX,
        forall|i: int| 0 <= i < filters.len() ==> (#[trigger] filters[i]).wf(),
    ensures
        v.added(g, filters).wf(),
        v.added(g, filters).filters.len() == v.filters.len() + filters.len(),
        forall|i: int|
            0 <= i < filters.len() ==> exists|id: u64|
                {
                    &&& !v.filters.contains_key(id)
                    &&& #[trigger] v.added(g, filters).groups[g].filter_ids.contains(id)
                    &&& v.added(g, filters).filters[id].filter == #[trigger] filters[i]
                    &&& v.added(g, filters).filters[id].last_seen is None
                },
        forall|id: u64| #[trigger]
            v.filters.contains_key(id) ==> v.added(g, filters).filters.contains_key(id)
                && v.added(g, filters).filters[id] == v.filters[id],
        forall|other: GroupKey|
            other != g ==> (#[trigger] v.added(g, filters).groups.contains_key(other)
                <==> v.groups.contains_key(other)) && (v.groups.contains_key(other) ==> v.added(
                g,
                filters,
            ).groups[other] == v.groups[other]),
        v.groups.contains_key(g) ==> v.added(g, filters).groups[g].last_seen
            == v.groups[g].last_seen && v.groups[g].filter_ids.subset_of(
            v.added(g, filters).groups[g].filter_ids,
        ),
        !v.groups.contains_key(g) ==> v.added(g, filters).groups[g].last_seen is None,
{
    let a = v.added(g, filters);
    let n = v.next_id;
    lemma_added_wf(v, g, filters);
    assert forall|i: int| 0 <= i < filters.len() implies exists|id: u64|
        {
            &&& !v.filters.contains_key(id)
            &&& #[trigger] a.groups[g].filter_ids.contains(id)
            &&& a.filters[id].filter == #[trigger] filters[i]
            &&& a.filters[id].last_seen is None
        } by {
        let id = (n + i) as u64;
        assert(!v.filters.contains_key(id));
        assert(a.groups[g].filter_ids.contains(id));
        assert(a.filters[id].filter == filters[i]);
    }
    assert forall|id: u64| #[trigger] v.filters.contains_key(id) implies a.filters.contains_key(id)
        && a.filters[id] == v.filters[id] by {
        assert(id < n);
    }
    let fresh = Seq::new(filters.len(), |i: int| (n + i) as u64);
    assert(fresh.no_duplicates());
    fresh.unique_seq_to_set();
    assert(a.filters.dom() =~= v.filters.dom().union(fresh.to_set())) by {
        assert forall|id: u64| n <= id < n + filters.len() implies fresh.contains(id) by {
            assert(fresh[id - n] == id);
        }
    }
    assert(v.filters.dom().disjoint(fresh.to_set()));
    vstd::seq_lib::seq_to_set_is_finite(fresh);
    vstd::set_lib::lemma_set_disjoint_lens(v.filters.dom(), fresh.to_set());
}

/// A subscription that is removed leaves no filter behind; everything else stays as it is.
pub proof fn law_removed_subscription_is_gone(v: IndexView, g: GroupKey)
    requires
        v.wf(),
    ensures
        !v.removed(g).groups.contains_key(g),
        forall|id: u64| #[trigger]
            v.removed(g).filters.contains_key(id) <==> v.filters.contains_key(id)
                && v.filters[id].parent != g,
        forall|id: u64| #[trigger]
            v.removed(g).filters.contains_key(id) ==> v.removed(g).filters[id] == v.filters[id],
        forall|other: GroupKey|
            other != g ==> (#[trigger] v.removed(g).groups.contains_key(other)
                <==> v.groups.contains_key(other)) && (v.groups.contains_key(other) ==> v.removed(
                g,
            ).groups[other] == v.groups[other]),
{
}

/// The keys under which filters are filed: a filter that asks for identifiers counts for each of them,
/// one that does not for each of its authors, one with neither for each of its kinds, and one with
/// none of these for each value of its first tag condition that has any.
pub proof fn law_keys_in_use(
    v: IndexView,
    event_id: EventId,
    author: PublicKey,
    kind: u16,
    tag: (char, Seq<char>),
)
    ensures
        v.ids_in_use().contains(event_id) <==> exists|id: u64| #[trigger]
            v.filters.contains_key(id) && (v.filters[id].filter.ids matches Some(list)
                && list.contains(event_id)),
        v.authors_in_use().contains(author) <==> exists|id: u64| #[trigger]
            v.filters.contains_key(id) && asks_nothing(v.filters[id].filter.ids) && (
            v.filters[id].filter.authors matches Some(list) && list.contains(author)),
        v.kinds_in_use().contains(kind) <==> exists|id: u64| #[trigger]
            v.filters.contains_key(id) && asks_nothing(v.filters[id].filter.ids) && asks_nothing(
                v.filters[id].filter.authors,
            ) && (v.filters[id].filter.kinds matches Some(list) && list.contains(kind)),
        v.tags_in_use().contains(tag) <==> exists|id: u64| #[trigger]
            v.filters.contains_key(id) && asks_nothing(v.filters[id].filter.ids) && asks_nothing(
                v.filters[id].filter.authors,
            ) && asks_nothing(v.filters[id].filter.kinds) && first_letter(
                v.filters[id].filter.generic_tags,
            ) == Some(tag.0) && values_of(v.filters[id].filter.generic_tags, tag.0).contains(tag.1),
{
    assert forall|id: u64| #[trigger] v.filters.contains_key(id) implies {
        let f = v.filters[id].filter;
        &&& filed_under(f, TableKey::Id(event_id)) <==> (f.ids matches Some(list) && list.contains(
            event_id,
        ))
        &&& filed_under(f, TableKey::Author(author)) <==> asks_nothing(f.ids) && (f.authors
            matches Some(list) && list.contains(author))
        &&& filed_under(f, TableKey::Kind(kind)) <==> asks_nothing(f.ids) && asks_nothing(f.authors)
            && (f.kinds matches Some(list) && list.contains(kind))
    } by {
    }
}

/// The list of a filter asks for nothing: it is not there, or is empty.
pub open spec fn asks_nothing<T>(list: Option<Seq<T>>) -> bool {
    match list {
        Some(s) => s.len() == 0,
        None => true,
    }
}

/// The tag condition that a filter is filed by is its first that has values, with its values.
pub proof fn law_first_tag_condition_counts(tags: Seq<TagFilterView>, i: int)
    requires
        0 <= i < tags.len(),
        tags[i].values.len() > 0,
        forall|j: int| 0 <= j < i ==> (#[trigger] tags[j]).values.len() == 0,
        forall|j: int| 0 <= j < i ==> (#[trigger] tags[j]).letter != tags[i].letter,
    ensures
        first_letter(tags) == Some(tags[i].letter),
        values_of(tags, tags[i].letter) == tags[i].values,
    decreases i,
{
    if i > 0 {
        let rest = tags.drop_first();
        assert(rest[i - 1] == tags[i]);
        assert forall|j: int| 0 <= j < i - 1 implies (#[trigger] rest[j]).values.len() == 0
            && rest[j].letter != tags[i].letter by {
            assert(rest[j] == tags[j + 1]);
        }
        assert(tags[0].values.len() == 0 && tags[0].letter != tags[i].letter);
        law_first_tag_condition_counts(rest, i - 1);
    }
}

/// An event cannot be distributed exactly where a filter that has not let it through yet has an empty
/// search text and admits the event otherwise.
pub proof fn law_what_cannot_be_distributed(v: IndexView, e: EventView)
    ensures
        !v.can_distribute(e) <==> exists|id: u64| #[trigger]
            v.filters.contains_key(id) && v.filters[id].last_seen != Some(e.id)
                && v.filters[id].filter.search == Some(Seq::<char>::empty()) && matches_but_search(
                v.filters[id].filter,
                e,
            ),
{
}

} // verus!
