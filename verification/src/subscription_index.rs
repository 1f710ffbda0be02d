//! The inverted index that finds the subscriptions an event goes to.
//!
//! Each filter is filed under the values of its most selective field, so that an event is
//! matched only against the filters filed under its own values.

use crate::index_model::{
    chosen_field, filed_under, first_letter, has_members, ids_under, law_distribution_is_exact,
    lemma_added_wf, lemma_after_event_wf, lemma_candidates_complete, lemma_candidates_sound,
    lemma_ids_under_contains, lemma_ids_under_remove, lemma_ids_under_same, lemma_in_use,
    lemma_removed_wf, lemma_without_absent, letter_of, merge, values_of, GroupKey, GroupView,
    IndexView, IndexedField, TableKey, TrackedView,
};
use crate::keyed_lists::{retain_others, without, KeyedLists, TagKey};
use crate::protocol::{
    can_match, filter_matches, filters_view, filters_wf, matches_but_search, tag_view, Event, EventId, EventView,
    Filter, FilterView, PublicKey,
};
use crate::sdk;
use crate::text::chars_of;
use dashmap::DashMap;
use std::collections::HashSet;
use vstd::prelude::*;

verus! {

#[verifier::external_type_specification]
#[verifier::external_body]
#[verifier::reject_recursive_types(K)]
#[verifier::reject_recursive_types(V)]
#[verifier::reject_recursive_types(S)]
pub struct ExDashMap<K, V, S>(DashMap<K, V, S>);

/// A filter with what is needed to deliver an event once.
pub struct TrackedFilter {
    /// The filter itself.
    filter: Filter,
    /// The last event that the filter let through.
    last_seen_event_id: Option<EventId>,
    /// The connection and the subscription that the filter belongs to.
    parent_subscription: (String, String),
    /// The field by which the filter is filed; none for a filter that accepts every event.
    indexed_field: Option<IndexedField>,
}

impl View for TrackedFilter {
    type V = TrackedView;

    closed spec fn view(&self) -> TrackedView {
        TrackedView {
            filter: self.filter@,
            last_seen: self.last_seen_event_id,
            parent: (self.parent_subscription.0@, self.parent_subscription.1@),
            field: self.indexed_field,
        }
    }
}

impl TrackedFilter {
    fn has_seen_event(&self, event_id: &EventId) -> (r: bool)
        ensures
            r == (self@.last_seen == Some(*event_id)),
    {
        match self.last_seen_event_id {
            Some(seen) => seen.same(event_id),
            None => false,
        }
    }

    fn mark_event_seen(&mut self, event_id: EventId)
        ensures
            final(self)@ == (TrackedView { last_seen: Some(event_id), ..old(self)@ }),
    {
        self.last_seen_event_id = Some(event_id);
    }

    /// Whether matching the event has an answer.
    fn can_match_event(&self, event: &Event) -> (r: bool)
        requires
            self@.filter.wf(),
            event@.wf(),
        ensures
            r == can_match(self@.filter, event@),
    {
        match &self.filter.search {
            Some(text) => {
                if !text.as_str().is_empty() {
                    return true;
                }
            },
            None => {
                return true;
            },
        }
        let mut rest = self.filter.copy();
        rest.search = None;
        proof {
            assert(self@.filter.search->0 =~= Seq::<char>::empty());
            assert(self@.filter.search == Some(Seq::<char>::empty()));
            assert(rest@ =~= (FilterView { search: None, ..self@.filter }));
            assert(rest@.generic_tags == self@.filter.generic_tags);
            assert(matches_but_search(rest@, event@) == matches_but_search(self@.filter, event@));
            assert(filter_matches(rest@, event@) == matches_but_search(rest@, event@));
        }
        !sdk::match_event(&rest, event)
    }

    fn matches_event(&self, event: &Event) -> (r: bool)
        requires
            self@.filter.wf(),
            event@.wf(),
            can_match(self@.filter, event@),
        ensures
            r == filter_matches(self@.filter, event@),
    {
        sdk::match_event(&self.filter, event)
    }
}

/// The filters of one subscription.
pub struct FilterGroup {
    /// The last event that went to the subscription.
    last_seen_event_id: Option<EventId>,
    /// The numbers of the subscription's filters.
    filter_ids: Vec<u64>,
}

impl View for FilterGroup {
    type V = GroupView;

    closed spec fn view(&self) -> GroupView {
        GroupView { last_seen: self.last_seen_event_id, filter_ids: self.filter_ids@.to_set() }
    }
}

impl FilterGroup {
    fn new() -> (r: FilterGroup)
        ensures
            r@ == (GroupView { last_seen: None, filter_ids: Set::empty() }),
    {
        let r = FilterGroup { last_seen_event_id: None, filter_ids: Vec::new() };
        proof {
            assert(r@.filter_ids =~= Set::empty());
        }
        r
    }

    fn has_seen_event(&self, event_id: &EventId) -> (r: bool)
        ensures
            r == (self@.last_seen == Some(*event_id)),
    {
        match self.last_seen_event_id {
            Some(seen) => seen.same(event_id),
            None => false,
        }
    }

    fn mark_event_seen(&mut self, event_id: EventId)
        ensures
            final(self)@ == (GroupView { last_seen: Some(event_id), ..old(self)@ }),
    {
        self.last_seen_event_id = Some(event_id);
    }
}

/// The filters that a map holds, by number.
pub uninterp spec fn filters_held(map: DashMap<u64, TrackedFilter>) -> Map<u64, TrackedView>;

/// `DashMap::new`: the map without entries.
#[verifier::external_body]
fn new_filter_map() -> (r: DashMap<u64, TrackedFilter>)
    ensures
        (filters_held(r) == Map::<u64, TrackedView>::empty()),
{
    DashMap::new()
}

/// `DashMap::insert`: sets the value under a key.
#[verifier::external_body]
fn insert_filter(map: &mut DashMap<u64, TrackedFilter>, id: u64, filter: TrackedFilter)
    ensures
        filters_held(*final(map)) == filters_held(*old(map)).insert(id, filter@),
{
    map.insert(id, filter);
}

/// `DashMap::remove`: takes the value under a key out, where there is one.
#[verifier::external_body]
fn remove_filter(map: &mut DashMap<u64, TrackedFilter>, id: u64) -> (r: Option<TrackedFilter>)
    ensures
        filters_held(*final(map)) == filters_held(*old(map)).remove(id),
        match r {
            Some(filter) => filters_held(*old(map)).contains_key(id) && filter@ == filters_held(
                *old(map),
            )[id],
            None => !filters_held(*old(map)).contains_key(id),
        },
{
    map.remove(&id).map(|entry| entry.1)
}

/// `DashMap::iter`: every entry once, in no particular order; here the number of each filter
/// and the last event that it let through.
#[verifier::external_body]
fn filter_marks(map: &DashMap<u64, TrackedFilter>) -> (r: Vec<(u64, Option<EventId>)>)
    ensures
        forall|i: int|
            0 <= i < r@.len() ==> {
                &&& filters_held(*map).contains_key((#[trigger] r@[i]).0)
                &&& filters_held(*map)[r@[i].0].last_seen == r@[i].1
            },
        forall|i: int, j: int| 0 <= i < j < r@.len() ==> (#[trigger] r@[i]).0 != (#[trigger] r@[j]).0,
        forall|id: u64| #[trigger]
            filters_held(*map).contains_key(id) ==> exists|i: int|
                0 <= i < r@.len() && (#[trigger] r@[i]).0 == id,
{
    map.iter().map(|entry| (*entry.key(), entry.value().last_seen_event_id)).collect()
}

/// The groups that a map holds, by connection and subscription.
pub uninterp spec fn groups_held(map: DashMap<(String, String), FilterGroup>) -> Map<
    GroupKey,
    GroupView,
>;

/// `DashMap::new`: the map without entries.
#[verifier::external_body]
fn new_group_map() -> (r: DashMap<(String, String), FilterGroup>)
    ensures
        (groups_held(r) == Map::<GroupKey, GroupView>::empty()),
{
    DashMap::new()
}

/// `DashMap::insert`: sets the value under a key.
#[verifier::external_body]
fn insert_group(
    map: &mut DashMap<(String, String), FilterGroup>,
    connection_id: &str,
    subscription_id: &str,
    group: FilterGroup,
)
    ensures
        groups_held(*final(map)) == groups_held(*old(map)).insert(
            (connection_id@, subscription_id@),
            group@,
        ),
{
    map.insert((connection_id.to_owned(), subscription_id.to_owned()), group);
}

/// `DashMap::remove`: takes the value under a key out, where there is one.
#[verifier::external_body]
fn remove_group(
    map: &mut DashMap<(String, String), FilterGroup>,
    connection_id: &str,
    subscription_id: &str,
) -> (r: Option<FilterGroup>)
    ensures
        groups_held(*final(map)) == groups_held(*old(map)).remove(
            (connection_id@, subscription_id@),
        ),
        match r {
            Some(group) => groups_held(*old(map)).contains_key((connection_id@, subscription_id@))
                && group@ == groups_held(*old(map))[(connection_id@, subscription_id@)],
            None => !groups_held(*old(map)).contains_key((connection_id@, subscription_id@)),
        },
{
    map.remove(&(connection_id.to_owned(), subscription_id.to_owned())).map(|entry| entry.1)
}

/// `DashMap::len`: the number of entries.
#[verifier::external_body]
fn group_count(map: &DashMap<(String, String), FilterGroup>) -> (r: usize)
    ensures
        r == groups_held(*map).len(),
{
    map.len()
}

/// The index. Several tables share the filters; each list of a table is in ascending order.
pub struct SubscriptionIndex {
    /// The filters by author.
    authors: KeyedLists<PublicKey>,
    /// The filters by kind.
    kinds: KeyedLists<u16>,
    /// The filters by event identifier.
    event_ids: KeyedLists<EventId>,
    /// The filters by tag letter and value.
    tags: KeyedLists<TagKey>,
    /// The filters that accept every event.
    match_all_filters: Vec<u64>,
    /// All filters by number.
    all_filters: DashMap<u64, TrackedFilter>,
    /// The filters of each subscription.
    filter_groups: DashMap<(String, String), FilterGroup>,
    /// The number of the next filter.
    next_filter_id: u64,
}

impl View for SubscriptionIndex {
    type V = IndexView;

    closed spec fn view(&self) -> IndexView {
        IndexView {
            filters: filters_held(self.all_filters),
            groups: groups_held(self.filter_groups),
            next_id: self.next_filter_id,
        }
    }
}

impl SubscriptionIndex {
    spec fn tables_wf(self) -> bool {
        &&& self.authors.wf()
        &&& self.kinds.wf()
        &&& self.event_ids.wf()
        &&& self.tags.wf()
    }

    spec fn list(self, key: TableKey) -> Seq<u64> {
        match key {
            TableKey::All => self.match_all_filters@,
            TableKey::Id(id) => self.event_ids.list(id),
            TableKey::Author(author) => self.authors.list(author),
            TableKey::Kind(kind) => self.kinds.list(kind),
            TableKey::Tag(letter, value) => self.tags.list((letter, value)),
        }
    }

    /// The lists of the tables are the filters filed under each key.
    spec fn lists_fit(self) -> bool {
        forall|key: TableKey| #[trigger] self.list(key) == self@.under(key)
    }

    /// The filters and groups fit together, and the tables file exactly the filters.
    pub closed spec fn wf(self) -> bool {
        self@.wf() && self.tables_wf() && self.lists_fit()
    }

    /// What is proved of the model holds of the index.
    pub proof fn lemma_model(self)
        requires
            self.wf(),
        ensures
            self@.wf(),
    {
    }

    proof fn lemma_tag_list(self, letter: char, value: Seq<char>)
        requires
            self.wf(),
        ensures
            self.tags.list((letter, value)).len() > 0 <==> self@.in_use(TableKey::Tag(letter, value)),
    {
        let key = TableKey::Tag(letter, value);
        assert(self.list(key) == self@.under(key));
        lemma_in_use(self@, key);
    }

    /// An index without subscriptions.
    pub fn new() -> (r: SubscriptionIndex)
        ensures
            r.wf(),
            r@ == (IndexView { filters: Map::empty(), groups: Map::empty(), next_id: 1 }),
    {
        let r = SubscriptionIndex {
            authors: KeyedLists::new(),
            kinds: KeyedLists::new(),
            event_ids: KeyedLists::new(),
            tags: KeyedLists::new(),
            match_all_filters: Vec::new(),
            all_filters: new_filter_map(),
            filter_groups: new_group_map(),
            next_filter_id: 1,
        };
        proof {
            assert forall|key: TableKey| #[trigger] r.list(key) == r@.under(key) by {
                reveal_with_fuel(ids_under, 2);
                assert(r@.under(key) =~= Seq::<u64>::empty());
                assert(r.list(key) =~= Seq::<u64>::empty());
            }
        }
        r
    }

    /// The field by which a filter is filed.
    pub fn choose_index_field(filter: &Filter) -> (r: Option<IndexedField>)
        ensures
            r == chosen_field(filter@),
    {
        if let Some(ids) = &filter.ids {
            if ids.len() > 0 {
                return Some(IndexedField::EventId);
            }
        }
        if let Some(authors) = &filter.authors {
            if authors.len() > 0 {
                return Some(IndexedField::Author);
            }
        }
        if let Some(kinds) = &filter.kinds {
            if kinds.len() > 0 {
                return Some(IndexedField::Kind);
            }
        }
        let mut i: usize = 0;
        proof {
            assert(filter@.generic_tags.skip(0) =~= filter@.generic_tags);
        }
        while i < filter.generic_tags.len()
            invariant
                i <= filter.generic_tags@.len(),
                !has_members(filter@.ids),
                !has_members(filter@.authors),
                !has_members(filter@.kinds),
                filter@.generic_tags.len() == filter.generic_tags@.len(),
                first_letter(filter@.generic_tags) == first_letter(
                    filter@.generic_tags.skip(i as int),
                ),
            decreases filter.generic_tags@.len() - i,
        {
            proof {
                let rest = filter@.generic_tags.skip(i as int);
                assert(rest[0] == filter.generic_tags@[i as int]@);
                assert(rest.drop_first() =~= filter@.generic_tags.skip(i + 1));
            }
            if filter.generic_tags[i].values.len() > 0 {
                return Some(IndexedField::Tag(filter.generic_tags[i].letter));
            }
            i = i + 1;
        }
        None
    }

    /// Files a filter under its keys.
    fn add_filter_to_indexes(&mut self, filter: &Filter, field: Option<IndexedField>, id: u64)
        requires
            old(self).tables_wf(),
            filter@.wf(),
            field == chosen_field(filter@),
        ensures
            final(self).tables_wf(),
            final(self).all_filters == old(self).all_filters,
            final(self).filter_groups == old(self).filter_groups,
            final(self).next_filter_id == old(self).next_filter_id,
            forall|key: TableKey| #[trigger]
                final(self).list(key) == if filed_under(filter@, key) {
                    old(self).list(key).push(id)
                } else {
                    old(self).list(key)
                },
    {
        let ghost before = *self;
        match field {
            None => {
                self.match_all_filters.push(id);
            },
            Some(IndexedField::EventId) => {
                if let Some(ids) = &filter.ids {
                    let mut i: usize = 0;
                    while i < ids.len()
                        invariant
                            i <= ids@.len(),
                            ids@.no_duplicates(),
                            self.tables_wf(),
                            *self == (SubscriptionIndex { event_ids: self.event_ids, ..before }),
                            forall|k: EventId| #[trigger]
                                self.event_ids.list(k) == if ids@.take(i as int).contains(k) {
                                    before.event_ids.list(k).push(id)
                                } else {
                                    before.event_ids.list(k)
                                },
                        decreases ids@.len() - i,
                    {
                        proof {
                            lemma_take_next(ids@, i as int);
                        }
                        self.event_ids.push_id(ids[i], id);
                        i = i + 1;
                    }
                    proof {
                        assert(ids@.take(ids@.len() as int) =~= ids@);
                    }
                }
            },
            Some(IndexedField::Author) => {
                if let Some(authors) = &filter.authors {
                    let mut i: usize = 0;
                    while i < authors.len()
                        invariant
                            i <= authors@.len(),
                            authors@.no_duplicates(),
                            self.tables_wf(),
                            *self == (SubscriptionIndex { authors: self.authors, ..before }),
                            forall|k: PublicKey| #[trigger]
                                self.authors.list(k) == if authors@.take(i as int).contains(k) {
                                    before.authors.list(k).push(id)
                                } else {
                                    before.authors.list(k)
                                },
                        decreases authors@.len() - i,
                    {
                        proof {
                            lemma_take_next(authors@, i as int);
                        }
                        self.authors.push_id(authors[i], id);
                        i = i + 1;
                    }
                    proof {
                        assert(authors@.take(authors@.len() as int) =~= authors@);
                    }
                }
            },
            Some(IndexedField::Kind) => {
                if let Some(kinds) = &filter.kinds {
                    let mut i: usize = 0;
                    while i < kinds.len()
                        invariant
                            i <= kinds@.len(),
                            kinds@.no_duplicates(),
                            self.tables_wf(),
                            *self == (SubscriptionIndex { kinds: self.kinds, ..before }),
                            forall|k: u16| #[trigger]
                                self.kinds.list(k) == if kinds@.take(i as int).contains(k) {
                                    before.kinds.list(k).push(id)
                                } else {
                                    before.kinds.list(k)
                                },
                        decreases kinds@.len() - i,
                    {
                        proof {
                            lemma_take_next(kinds@, i as int);
                        }
                        self.kinds.push_id(kinds[i], id);
                        i = i + 1;
                    }
                    proof {
                        assert(kinds@.take(kinds@.len() as int) =~= kinds@);
                    }
                }
            },
            Some(IndexedField::Tag(letter)) => {
                let values = Self::tag_values(filter, letter);
                let ghost names = tag_view(values);
                let mut i: usize = 0;
                while i < values.len()
                    invariant
                        i <= values@.len(),
                        names == tag_view(values),
                        names.no_duplicates(),
                        self.tables_wf(),
                        *self == (SubscriptionIndex { tags: self.tags, ..before }),
                        forall|k: (char, Seq<char>)| #[trigger]
                            self.tags.list(k) == if k.0 == letter && names.take(i as int).contains(
                                k.1,
                            ) {
                                before.tags.list(k).push(id)
                            } else {
                                before.tags.list(k)
                            },
                    decreases values@.len() - i,
                {
                    proof {
                        lemma_take_next(names, i as int);
                    }
                    self.tags.push_id(TagKey { letter, value: values[i].clone() }, id);
                    i = i + 1;
                }
                proof {
                    assert(names.take(names.len() as int) =~= names);
                }
            },
        }
    }

    /// The values that a filter accepts for a tag letter.
    fn tag_values(filter: &Filter, letter: char) -> (r: Vec<String>)
        requires
            filter@.wf(),
        ensures
            tag_view(r) == values_of(filter@.generic_tags, letter),
            tag_view(r).no_duplicates(),
    {
        let mut i: usize = 0;
        proof {
            assert(filter@.generic_tags.skip(0) =~= filter@.generic_tags);
        }
        while i < filter.generic_tags.len()
            invariant
                i <= filter.generic_tags@.len(),
                filter@.wf(),
                filter@.generic_tags.len() == filter.generic_tags@.len(),
                values_of(filter@.generic_tags, letter) == values_of(
                    filter@.generic_tags.skip(i as int),
                    letter,
                ),
            decreases filter.generic_tags@.len() - i,
        {
            proof {
                let rest = filter@.generic_tags.skip(i as int);
                assert(filter@.generic_tags[i as int] == filter.generic_tags@[i as int]@);
                assert(rest[0] == filter.generic_tags@[i as int]@);
                assert(rest.drop_first() =~= filter@.generic_tags.skip(i + 1));
            }
            if filter.generic_tags[i].letter == letter {
                return crate::protocol::copy_strings(&filter.generic_tags[i].values);
            }
            i = i + 1;
        }
        let r: Vec<String> = Vec::new();
        proof {
            assert(tag_view(r) =~= Seq::empty());
        }
        r
    }

    /// Takes a filter out of the tables.
    fn remove_filter_from_indexes(&mut self, filter: &Filter, field: Option<IndexedField>, id: u64)
        requires
            old(self).tables_wf(),
            filter@.wf(),
            field == chosen_field(filter@),
        ensures
            final(self).tables_wf(),
            final(self).all_filters == old(self).all_filters,
            final(self).filter_groups == old(self).filter_groups,
            final(self).next_filter_id == old(self).next_filter_id,
            forall|key: TableKey| #[trigger]
                final(self).list(key) == if filed_under(filter@, key) {
                    without(old(self).list(key), id)
                } else {
                    old(self).list(key)
                },
    {
        let ghost before = *self;
        match field {
            None => {
                self.match_all_filters = retain_others(&self.match_all_filters, id);
            },
            Some(IndexedField::EventId) => {
                if let Some(ids) = &filter.ids {
                    let mut i: usize = 0;
                    while i < ids.len()
                        invariant
                            i <= ids@.len(),
                            ids@.no_duplicates(),
                            self.tables_wf(),
                            *self == (SubscriptionIndex { event_ids: self.event_ids, ..before }),
                            forall|k: EventId| #[trigger]
                                self.event_ids.list(k) == if ids@.take(i as int).contains(k) {
                                    without(before.event_ids.list(k), id)
                                } else {
                                    before.event_ids.list(k)
                                },
                        decreases ids@.len() - i,
                    {
                        proof {
                            lemma_take_next(ids@, i as int);
                        }
                        self.event_ids.drop_id(&ids[i], id);
                        i = i + 1;
                    }
                    proof {
                        assert(ids@.take(ids@.len() as int) =~= ids@);
                    }
                }
            },
            Some(IndexedField::Author) => {
                if let Some(authors) = &filter.authors {
                    let mut i: usize = 0;
                    while i < authors.len()
                        invariant
                            i <= authors@.len(),
                            authors@.no_duplicates(),
                            self.tables_wf(),
                            *self == (SubscriptionIndex { authors: self.authors, ..before }),
                            forall|k: PublicKey| #[trigger]
                                self.authors.list(k) == if authors@.take(i as int).contains(k) {
                                    without(before.authors.list(k), id)
                                } else {
                                    before.authors.list(k)
                                },
                        decreases authors@.len() - i,
                    {
                        proof {
                            lemma_take_next(authors@, i as int);
                        }
                        self.authors.drop_id(&authors[i], id);
                        i = i + 1;
                    }
                    proof {
                        assert(authors@.take(authors@.len() as int) =~= authors@);
                    }
                }
            },
            Some(IndexedField::Kind) => {
                if let Some(kinds) = &filter.kinds {
                    let mut i: usize = 0;
                    while i < kinds.len()
                        invariant
                            i <= kinds@.len(),
                            kinds@.no_duplicates(),
                            self.tables_wf(),
                            *self == (SubscriptionIndex { kinds: self.kinds, ..before }),
                            forall|k: u16| #[trigger]
                                self.kinds.list(k) == if kinds@.take(i as int).contains(k) {
                                    without(before.kinds.list(k), id)
                                } else {
                                    before.kinds.list(k)
                                },
                        decreases kinds@.len() - i,
                    {
                        proof {
                            lemma_take_next(kinds@, i as int);
                        }
                        self.kinds.drop_id(&kinds[i], id);
                        i = i + 1;
                    }
                    proof {
                        assert(kinds@.take(kinds@.len() as int) =~= kinds@);
                    }
                }
            },
            Some(IndexedField::Tag(letter)) => {
                let values = Self::tag_values(filter, letter);
                let ghost names = tag_view(values);
                let mut i: usize = 0;
                while i < values.len()
                    invariant
                        i <= values@.len(),
                        names == tag_view(values),
                        names.no_duplicates(),
                        self.tables_wf(),
                        *self == (SubscriptionIndex { tags: self.tags, ..before }),
                        forall|k: (char, Seq<char>)| #[trigger]
                            self.tags.list(k) == if k.0 == letter && names.take(i as int).contains(
                                k.1,
                            ) {
                                without(before.tags.list(k), id)
                            } else {
                                before.tags.list(k)
                            },
                    decreases values@.len() - i,
                {
                    proof {
                        lemma_take_next(names, i as int);
                    }
                    self.tags.drop_id(&TagKey { letter, value: values[i].clone() }, id);
                    i = i + 1;
                }
                proof {
                    assert(names.take(names.len() as int) =~= names);
                }
            },
        }
    }

    /// Adds filters to a subscription of a connection; the subscription is opened where it is
    /// new, and keeps its other filters where it is not.
    pub fn add_subscription(
        &mut self,
        connection_id: &str,
        subscription_id: &str,
        filters: Vec<Filter>,
    )
        requires
            old(self).wf(),
            filters_wf(filters_view(filters@)),
            old(self)@.next_id + filters@.len() <= u64::MAX,
        ensures
            final(self).wf(),
            final(self)@ == old(self)@.added(
                (connection_id@, subscription_id@),
                filters_view(filters@),
            ),
    {
        let ghost before = *self;
        let ghost g = (connection_id@, subscription_id@);
        let ghost fs = filters_view(filters@);
        let ghost n = self.next_filter_id;
        let mut group = match remove_group(
            &mut self.filter_groups,
            connection_id,
            subscription_id,
        ) {
            Some(group) => group,
            None => FilterGroup::new(),
        };
        let mut i: usize = 0;
        proof {
            let a = before@.added(g, fs.take(0));
            assert(a.filters =~= before@.filters);
            assert(a.groups[g].filter_ids =~= group@.filter_ids);
            assert forall|key: TableKey| #[trigger] self.list(key) == self@.under(key) by {
                assert(before.list(key) == before@.under(key));
            }
        }
        while i < filters.len()
            invariant
                i <= filters@.len(),
                fs == filters_view(filters@),
                filters_wf(fs),
                n == before.next_filter_id,
                n + filters@.len() <= u64::MAX,
                self.tables_wf(),
                self.lists_fit(),
                before@.wf(),
                self.next_filter_id == n + i,
                g == (connection_id@, subscription_id@),
                groups_held(self.filter_groups) == before@.groups.remove(g),
                filters_held(self.all_filters) == before@.added(g, fs.take(i as int)).filters,
                group@ == before@.added(g, fs.take(i as int)).groups[g],
            decreases filters@.len() - i,
        {
            let ghost prior = *self;
            let ghost prior_group = group@;
            let ghost prior_ids = group.filter_ids@;
            let id: u64 = self.next_filter_id;
            let filter = filters[i].copy();
            let indexed_field = Self::choose_index_field(&filter);
            proof {
                assert(fs[i as int] == filter@);
            }
            self.add_filter_to_indexes(&filter, indexed_field, id);
            let ghost filed = *self;
            let entry = TrackedFilter {
                filter,
                last_seen_event_id: None,
                parent_subscription: (connection_id.to_owned(), subscription_id.to_owned()),
                indexed_field,
            };
            let ghost tv = entry@;
            insert_filter(&mut self.all_filters, id, entry);
            group.filter_ids.push(id);
            self.next_filter_id = id + 1;
            proof {
                let a0 = before@.added(g, fs.take(i as int));
                let a1 = before@.added(g, fs.take(i + 1));
                assert forall|k: int| 0 <= k < i implies fs.take(i + 1)[k] == fs.take(i as int)[k] by {}
                assert(fs.take(i + 1)[i as int] == fs[i as int]);
                assert(filters_held(self.all_filters) =~= a0.filters.insert(id, tv));
                assert(a1.filters =~= a0.filters.insert(id, tv));
                lemma_push_to_set(prior_ids, id);
                assert(group@.filter_ids =~= prior_group.filter_ids.insert(id));
                assert(a1.groups[g].filter_ids =~= a0.groups[g].filter_ids.insert(id));
                assert forall|key: TableKey| #[trigger] self.list(key) == self@.under(key) by {
                    assert(self.list(key) == filed.list(key));
                    assert(prior.list(key) == prior@.under(key));
                    lemma_ids_under_same(self@.filters, prior@.filters, key, id as nat);
                }
            }
            i = i + 1;
        }
        let ghost prior = *self;
        insert_group(&mut self.filter_groups, connection_id, subscription_id, group);
        proof {
            assert forall|key: TableKey| #[trigger] self.list(key) == self@.under(key) by {
                assert(prior.list(key) == prior@.under(key));
            }
            assert(fs.take(fs.len() as int) =~= fs);
            let a = before@.added(g, fs);
            assert(self@.groups =~= a.groups);
            assert(self@ =~= a);
            lemma_added_wf(before@, g, fs);
        }
    }

    /// Removes a subscription of a connection, with its filters.
    pub fn remove_subscription(&mut self, connection_id: &str, subscription_id: &str)
        requires
            old(self).wf(),
        ensures
            final(self).wf(),
            final(self)@ == old(self)@.removed((connection_id@, subscription_id@)),
    {
        let ghost before = *self;
        let ghost g = (connection_id@, subscription_id@);
        match remove_group(&mut self.filter_groups, connection_id, subscription_id) {
            Some(group) => {
                let ids = group.filter_ids;
                let mut i: usize = 0;
                proof {
                    assert(group@.filter_ids == ids@.to_set());
                    assert forall|key: TableKey| #[trigger] self.list(key) == self@.under(key) by {
                        assert(before.list(key) == before@.under(key));
                    }
                    assert(self@.filters =~= removed_so_far(before@.filters, ids@, 0));
                }
                while i < ids.len()
                    invariant
                        i <= ids@.len(),
                        before@.wf(),
                        self.tables_wf(),
                        self.lists_fit(),
                        self.next_filter_id == before.next_filter_id,
                        groups_held(self.filter_groups) == before@.groups.remove(g),
                        self@.filters == removed_so_far(before@.filters, ids@, i as int),
                    decreases ids@.len() - i,
                {
                    let ghost prior = *self;
                    let id: u64 = ids[i];
                    proof {
                        assert(ids@.take(i + 1) =~= ids@.take(i as int).push(id));
                        assert forall|x: u64| ids@.take(i + 1).contains(x) <==> ids@.take(
                            i as int,
                        ).contains(x) || x == id by {
                            if ids@.take(i as int).contains(x) {
                                let j = choose|j: int|
                                    0 <= j < ids@.take(i as int).len() && ids@.take(i as int)[j]
                                        == x;
                                assert(ids@.take(i + 1)[j] == x);
                            }
                            assert(ids@.take(i + 1)[i as int] == id);
                        }
                    }
                    match remove_filter(&mut self.all_filters, id) {
                        Some(entry) => {
                            proof {
                                assert(before@.filters.contains_key(id));
                            }
                            self.remove_filter_from_indexes(
                                &entry.filter,
                                entry.indexed_field,
                                id,
                            );
                            proof {
                                assert forall|key: TableKey| #[trigger] self.list(key) == self@.under(
                                    key,
                                ) by {
                                    assert(prior.list(key) == prior@.under(key));
                                    lemma_ids_under_remove(
                                        prior@.filters,
                                        key,
                                        prior.next_filter_id as nat,
                                        id,
                                    );
                                    if !filed_under(entry.filter@, key) {
                                        lemma_ids_under_contains(
                                            prior@.filters,
                                            key,
                                            prior.next_filter_id as nat,
                                            id,
                                        );
                                        lemma_without_absent(prior@.under(key), id);
                                    }
                                }
                            }
                        },
                        None => {
                            proof {
                                assert(prior@.filters.remove(id) =~= prior@.filters);
                                assert forall|key: TableKey| #[trigger] self.list(key) == self@.under(
                                    key,
                                ) by {
                                    assert(prior.list(key) == prior@.under(key));
                                }
                            }
                        },
                    }
                    proof {
                        assert(self@.filters =~= removed_so_far(before@.filters, ids@, i + 1));
                    }
                    i = i + 1;
                }
                proof {
                    assert(ids@.take(ids@.len() as int) =~= ids@);
                    let r = before@.removed(g);
                    assert forall|id: u64| self@.filters.contains_key(id)
                        <==> r.filters.contains_key(id) by {
                        if before@.filters.contains_key(id) {
                            if ids@.contains(id) {
                                assert(before@.groups[g].filter_ids.contains(id));
                            }
                            if before@.filters[id].parent == g {
                                assert(before@.groups[g].filter_ids.contains(id));
                            }
                        }
                    }
                    assert(self@.filters =~= r.filters);
                    assert(self@ =~= r);
                    lemma_removed_wf(before@, g);
                }
            },
            None => {
                proof {
                    let r = before@.removed(g);
                    assert(r.groups =~= before@.groups);
                    assert forall|id: u64| #[trigger] before@.filters.contains_key(
                        id,
                    ) implies before@.filters[id].parent != g by {
                        assert(before@.groups.contains_key(before@.filters[id].parent));
                    }
                    assert(r.filters =~= before@.filters);
                    assert(self@ =~= r);
                    assert forall|key: TableKey| #[trigger] self.list(key) == self@.under(key) by {
                        assert(before.list(key) == before@.under(key));
                    }
                }
            },
        }
    }

    /// The filters that the tables give for an event, each once.
    fn get_candidate_filters(&self, event: &Event) -> (r: Vec<u64>)
        requires
            self.wf(),
            event@.wf(),
        ensures
            r@ == self@.candidates(event@),
    {
        broadcast use vstd::std_specs::hash::group_hash_axioms;

        let mut candidates: Vec<u64> = Vec::new();
        let mut seen: HashSet<u64> = HashSet::new();
        proof {
            assert(seen@ =~= candidates@.to_set());
            assert(self.list(TableKey::All) == self@.under(TableKey::All));
            assert(self.list(TableKey::Id(event.id)) == self@.under(TableKey::Id(event.id)));
            assert(self.list(TableKey::Author(event.pubkey)) == self@.under(TableKey::Author(event.pubkey)));
            assert(self.list(TableKey::Kind(event.kind)) == self@.under(TableKey::Kind(event.kind)));
        }
        add_new(&mut candidates, &mut seen, &self.match_all_filters);
        add_new(&mut candidates, &mut seen, &self.event_ids.ids(&event.id));
        add_new(&mut candidates, &mut seen, &self.authors.ids(&event.pubkey));
        add_new(&mut candidates, &mut seen, &self.kinds.ids(&event.kind));
        let ghost start = candidates@;
        let ghost tags = event@.tags;
        let mut i: usize = 0;
        proof {
            assert(tags.take(0) =~= Seq::empty());
        }
        while i < event.tags.len()
            invariant
                i <= event.tags@.len(),
                tags == event@.tags,
                self.wf(),
                seen@ == candidates@.to_set(),
                candidates@ == self@.with_tags(start, tags.take(i as int)),
            decreases event.tags@.len() - i,
        {
            proof {
                assert(tags.take(i + 1).drop_last() =~= tags.take(i as int));
                assert(tags.take(i + 1).last() == tag_view(event.tags@[i as int]));
            }
            if let Some(letter) = single_letter(&event.tags[i]) {
                let ghost before = candidates@;
                let ghost values = tag_view(event.tags@[i as int]).skip(1);
                let mut j: usize = 1;
                proof {
                    assert(values.take(0) =~= Seq::empty());
                }
                while j < event.tags[i].len()
                    invariant
                        i < event.tags@.len(),
                        1 <= j <= event.tags@[i as int]@.len(),
                        values == tag_view(event.tags@[i as int]).skip(1),
                        self.wf(),
                        seen@ == candidates@.to_set(),
                        candidates@ == self@.with_values(before, letter, values.take(j - 1)),
                    decreases event.tags@[i as int]@.len() - j,
                {
                    let key = TagKey { letter, value: event.tags[i][j].clone() };
                    proof {
                        assert(values.take(j as int).drop_last() =~= values.take(j - 1));
                        assert(values.take(j as int).last() == key.value@);
                        let k = TableKey::Tag(letter, key.value@);
                        assert(self.list(k) == self@.under(k));
                    }
                    add_new(&mut candidates, &mut seen, &self.tags.ids(&key));
                    j = j + 1;
                }
                proof {
                    assert(values.take(values.len() as int) =~= values);
                }
            }
            i = i + 1;
        }
        proof {
            assert(tags.take(tags.len() as int) =~= tags);
        }
        candidates
    }

    /// Whether an event can be distributed: it cannot where a filter with an empty search text
    /// admits it.
    pub fn can_distribute(&mut self, event: &Event) -> (r: bool)
        requires
            old(self).wf(),
            event@.wf(),
        ensures
            final(self).wf(),
            final(self)@ == old(self)@,
            r == old(self)@.can_distribute(event@),
    {
        let ghost before = *self;
        let ghost v = self@;
        let ghost e = event@;
        let candidates = self.get_candidate_filters(event);
        let ghost list = candidates@;
        let mut answered = true;
        let mut i: usize = 0;
        proof {
            lemma_candidates_sound(v, e);
        }
        while i < candidates.len()
            invariant
                i <= candidates@.len(),
                list == candidates@,
                e == event@,
                e.wf(),
                v == before@,
                v.wf(),
                forall|x: u64| #[trigger] list.contains(x) ==> v.filters.contains_key(x),
                *self == (SubscriptionIndex { all_filters: self.all_filters, ..before }),
                self@ == v,
                answered == (forall|j: int|
                    0 <= j < i && v.filters[#[trigger] list[j]].last_seen != Some(e.id)
                        ==> can_match(v.filters[list[j]].filter, e)),
            decreases candidates@.len() - i,
        {
            let id: u64 = candidates[i];
            proof {
                assert(list.contains(id));
                assert(v.filters.contains_key(id));
            }
            if let Some(entry) = remove_filter(&mut self.all_filters, id) {
                if !entry.has_seen_event(&event.id) && !entry.can_match_event(event) {
                    answered = false;
                    proof {
                        assert(list[i as int] == id);
                    }
                }
                insert_filter(&mut self.all_filters, id, entry);
            }
            proof {
                assert(self@.filters =~= v.filters);
            }
            i = i + 1;
        }
        proof {
            assert forall|key: TableKey| #[trigger] self.list(key) == self@.under(key) by {
                assert(before.list(key) == before@.under(key));
            }
            assert(answered == v.can_distribute(e)) by {
                if answered {
                    assert forall|id: u64| #[trigger]
                        v.filters.contains_key(id) && v.filters[id].last_seen != Some(
                            e.id,
                        ) implies can_match(v.filters[id].filter, e) by {
                        if matches_but_search(v.filters[id].filter, e) {
                            lemma_candidates_complete(v, e, id);
                            let j = choose|j: int| 0 <= j < list.len() && list[j] == id;
                            assert(list[j] == id);
                        }
                    }
                } else {
                    let j = choose|j: int|
                        0 <= j < list.len() && v.filters[#[trigger] list[j]].last_seen != Some(e.id)
                            && !can_match(v.filters[list[j]].filter, e);
                    assert(list.contains(list[j]));
                    assert(v.filters.contains_key(list[j]));
                }
            }
        }
        answered
    }

    /// Finds the subscriptions that an event goes to, and remembers that it went to them.
    pub fn distribute_event(&mut self, event: &Event) -> (r: Vec<(String, String)>)
        requires
            old(self).wf(),
            event@.wf(),
            old(self)@.can_distribute(event@),
        ensures
            final(self).wf(),
            final(self)@ == old(self)@.after_event(event@),
            group_keys(r@) == old(self)@.deliveries(event@, old(self)@.candidates(event@)),
            group_keys(r@).no_duplicates(),
            forall|g: GroupKey| #[trigger]
                group_keys(r@).contains(g) <==> old(self)@.receives(event@, g),
    {
        let ghost before = *self;
        let ghost v = self@;
        let ghost e = event@;
        let candidates = self.get_candidate_filters(event);
        let ghost list = candidates@;
        let mut matching: Vec<(String, String)> = Vec::new();
        let mut i: usize = 0;
        proof {
            lemma_candidates_sound(v, e);
            assert(list.take(0) =~= Seq::empty());
            assert(group_keys(matching@) =~= Seq::empty());
            assert(self@.filters =~= marked_filters(v, e, list.take(0)));
            assert(self@.groups =~= marked_groups(v, e, group_keys(matching@)));
        }
        while i < candidates.len()
            invariant
                i <= candidates@.len(),
                list == candidates@,
                e == event@,
                e.wf(),
                v == before@,
                v.wf(),
                list.no_duplicates(),
                forall|x: u64| #[trigger] list.contains(x) ==> v.filters.contains_key(x),
                v.can_distribute(e),
                *self == (SubscriptionIndex {
                    all_filters: self.all_filters,
                    filter_groups: self.filter_groups,
                    ..before
                }),
                self@.filters == marked_filters(v, e, list.take(i as int)),
                self@.groups == marked_groups(v, e, group_keys(matching@)),
                group_keys(matching@) == v.deliveries(e, list.take(i as int)),
            decreases candidates@.len() - i,
        {
            let id: u64 = candidates[i];
            let ghost done = list.take(i as int);
            let ghost next = list.take(i + 1);
            let ghost prior = self@;
            proof {
                assert(list.contains(id));
                lemma_take_next(list, i as int);
                assert(next.drop_last() =~= done);
                assert(next.last() == id);
                assert(v.filters.contains_key(id));
            }
            let removed = remove_filter(&mut self.all_filters, id);
            if let Some(mut entry) = removed {
                if entry.has_seen_event(&event.id) {
                    insert_filter(&mut self.all_filters, id, entry);
                    proof {
                        assert(self@.filters =~= marked_filters(v, e, next));
                    }
                } else if !entry.matches_event(event) {
                    insert_filter(&mut self.all_filters, id, entry);
                    proof {
                        assert(self@.filters =~= marked_filters(v, e, next));
                    }
                } else {
                    entry.mark_event_seen(event.id);
                    let connection_id = entry.parent_subscription.0.clone();
                    let subscription_id = entry.parent_subscription.1.clone();
                    let ghost g = (connection_id@, subscription_id@);
                    insert_filter(&mut self.all_filters, id, entry);
                    proof {
                        assert(v.hit(e, id));
                        assert(v.filters[id].parent == g);
                        assert(self@.filters =~= marked_filters(v, e, next));
                    }
                    let taken = remove_group(
                        &mut self.filter_groups,
                        connection_id.as_str(),
                        subscription_id.as_str(),
                    );
                    if let Some(mut group) = taken {
                        if group.has_seen_event(&event.id) {
                            insert_group(
                                &mut self.filter_groups,
                                connection_id.as_str(),
                                subscription_id.as_str(),
                                group,
                            );
                            proof {
                                assert(self@.groups =~= prior.groups);
                            }
                        } else {
                            group.mark_event_seen(event.id);
                            insert_group(
                                &mut self.filter_groups,
                                connection_id.as_str(),
                                subscription_id.as_str(),
                                group,
                            );
                            let ghost sent = group_keys(matching@);
                            matching.push((connection_id, subscription_id));
                            proof {
                                assert(group_keys(matching@) =~= sent.push(g));
                                assert forall|h: GroupKey| sent.push(g).contains(h)
                                    <==> sent.contains(h) || h == g by {
                                    if sent.contains(h) {
                                        let j = choose|j: int| 0 <= j < sent.len() && sent[j] == h;
                                        assert(sent.push(g)[j] == h);
                                    }
                                    assert(sent.push(g)[sent.len() as int] == g);
                                }
                                assert(self@.groups =~= marked_groups(
                                    v,
                                    e,
                                    group_keys(matching@),
                                ));
                            }
                        }
                    }
                }
            }
            i = i + 1;
        }
        proof {
            assert(list.take(list.len() as int) =~= list);
            law_distribution_is_exact(v, e);
            let a = v.after_event(e);
            assert forall|id: u64| #[trigger] v.hit(e, id) implies list.contains(id) by {
                lemma_candidates_complete(v, e, id);
            }
            assert(self@.filters =~= a.filters);
            assert(self@.groups =~= a.groups);
            assert(self@ =~= a);
            lemma_after_event_wf(v, e);
            assert forall|key: TableKey| #[trigger] self.list(key) == self@.under(key) by {
                assert(before.list(key) == before@.under(key));
                lemma_ids_under_same(v.filters, self@.filters, key, v.next_id as nat);
            }
        }
        matching
    }

    /// The figures of the index.
    pub fn stats(&self) -> (r: IndexStats)
        requires
            self.wf(),
        ensures
            stats_fit(self@, r),
    {
        let marks = filter_marks(&self.all_filters);
        let mut tracked_events: usize = 0;
        let mut i: usize = 0;
        let ghost mut counted: Seq<u64> = Seq::empty();
        while i < marks.len()
            invariant
                i <= marks@.len(),
                tracked_events <= i,
                tracked_events == counted.len(),
                counted.no_duplicates(),
                forall|a: int, b: int|
                    0 <= a < b < marks@.len() ==> (#[trigger] marks@[a]).0 != (#[trigger] marks@[b]).0,
                forall|id: u64| #[trigger]
                    counted.contains(id) <==> exists|j: int|
                        0 <= j < i && (#[trigger] marks@[j]).0 == id && marks@[j].1 is Some,
            decreases marks@.len() - i,
        {
            if marks[i].1.is_some() {
                tracked_events = tracked_events + 1;
                proof {
                    let prior = counted;
                    let x = marks@[i as int].0;
                    counted = counted.push(x);
                    if prior.contains(x) {
                        let j = choose|j: int|
                            0 <= j < i && (#[trigger] marks@[j]).0 == x && marks@[j].1 is Some;
                        assert(marks@[j].0 != marks@[i as int].0);
                    }
                    assert forall|id: u64| #[trigger]
                        counted.contains(id) <==> exists|j: int|
                            0 <= j < i + 1 && (#[trigger] marks@[j]).0 == id && marks@[j].1 is Some by {
                        lemma_push_to_set(prior, x);
                        assert(counted.to_set().contains(id) <==> prior.contains(id) || id == x);
                        if id == x {
                            assert(marks@[i as int].0 == id);
                        }
                        if prior.contains(id) {
                            let j = choose|j: int|
                                0 <= j < i && (#[trigger] marks@[j]).0 == id && marks@[j].1 is Some;
                            assert(0 <= j < i + 1 && marks@[j].0 == id && marks@[j].1 is Some);
                        }
                    }
                }
            }
            i = i + 1;
        }
        proof {
            let names = marks@.map_values(|p: (u64, Option<EventId>)| p.0);
            assert(names.no_duplicates()) by {
                assert forall|a: int, b: int|
                    0 <= a < names.len() && 0 <= b < names.len() && a != b implies names[a]
                    != names[b] by {
                    if a < b {
                        assert(marks@[a].0 != marks@[b].0);
                    } else {
                        assert(marks@[b].0 != marks@[a].0);
                    }
                }
            }
            names.unique_seq_to_set();
            assert(names.to_set() =~= self@.filters.dom()) by {
                assert forall|id: u64| #[trigger]
                    names.to_set().contains(id) <==> self@.filters.dom().contains(id) by {
                    if self@.filters.contains_key(id) {
                        let k = choose|k: int| 0 <= k < marks@.len() && (#[trigger] marks@[k]).0 == id;
                        assert(names[k] == id);
                    }
                    if names.contains(id) {
                        let k = choose|k: int| 0 <= k < names.len() && names[k] == id;
                        assert(marks@[k].0 == id);
                    }
                }
            }
            counted.unique_seq_to_set();
            assert(counted.to_set() =~= self@.filters_with_events()) by {
                assert forall|id: u64| #[trigger]
                    counted.to_set().contains(id) <==> self@.filters_with_events().contains(id) by {
                    if self@.filters_with_events().contains(id) {
                        let k = choose|k: int| 0 <= k < marks@.len() && (#[trigger] marks@[k]).0 == id;
                        assert(marks@[k].1 is Some);
                        assert(counted.contains(id));
                    }
                }
            }
            assert forall|key: TableKey| (#[trigger] self.list(key)).len() > 0 <==> self@.in_use(key) by {
                assert(self.list(key) == self@.under(key));
                lemma_in_use(self@, key);
            }
            assert(self.authors.keys() =~= self@.authors_in_use()) by {
                assert forall|k: PublicKey| #[trigger]
                    self.authors.keys().contains(k) <==> self@.authors_in_use().contains(k) by {
                    assert(self.list(TableKey::Author(k)) == self.authors.list(k));
                }
            }
            assert(self.kinds.keys() =~= self@.kinds_in_use()) by {
                assert forall|k: u16| #[trigger]
                    self.kinds.keys().contains(k) <==> self@.kinds_in_use().contains(k) by {
                    assert(self.list(TableKey::Kind(k)) == self.kinds.list(k));
                }
            }
            assert(self.event_ids.keys() =~= self@.ids_in_use()) by {
                assert forall|k: EventId| #[trigger]
                    self.event_ids.keys().contains(k) <==> self@.ids_in_use().contains(k) by {
                    assert(self.list(TableKey::Id(k)) == self.event_ids.list(k));
                }
            }
            assert(self.tags.keys() =~= self@.tags_in_use()) by {
                assert forall|letter: char, value: Seq<char>| #[trigger]
                    self.tags.list((letter, value)).len() > 0 <==> self@.in_use(
                        TableKey::Tag(letter, value),
                    ) by {
                    self.lemma_tag_list(letter, value);
                }
                assert forall|k: (char, Seq<char>)| #[trigger]
                    self.tags.keys().contains(k) <==> self@.tags_in_use().contains(k) by {
                    let (letter, value) = k;
                    assert(self.tags.list((letter, value)).len() > 0 <==> self@.in_use(
                        TableKey::Tag(letter, value),
                    ));
                }
            }
        }
        IndexStats {
            total_filters: marks.len(),
            total_subscriptions: group_count(&self.filter_groups),
            authors_indexed: self.authors.len(),
            kinds_indexed: self.kinds.len(),
            event_ids_indexed: self.event_ids.len(),
            tags_indexed: self.tags.len(),
            tracked_events,
        }
    }
}

impl Default for SubscriptionIndex {
    fn default() -> (r: SubscriptionIndex)
        ensures
            r.wf(),
            r@ == (IndexView { filters: Map::empty(), groups: Map::empty(), next_id: 1 }),
    {
        SubscriptionIndex::new()
    }
}

/// The figures of an index.
#[derive(Debug, Clone, Copy, PartialEq, Eq, Structural)]
pub struct IndexStats {
    pub total_filters: usize,
    pub total_subscriptions: usize,
    pub authors_indexed: usize,
    pub kinds_indexed: usize,
    pub event_ids_indexed: usize,
    pub tags_indexed: usize,
    /// The number of filters that have let an event through.
    pub tracked_events: usize,
}

/// The figures are those of the index: the numbers of filters and of subscriptions, of the
/// keys in use in each table, and of the filters that have let an event through.
pub open spec fn stats_fit(v: IndexView, stats: IndexStats) -> bool {
    &&& stats.total_filters == v.filters.len()
    &&& stats.total_subscriptions == v.groups.len()
    &&& stats.authors_indexed == v.authors_in_use().len()
    &&& stats.kinds_indexed == v.kinds_in_use().len()
    &&& stats.event_ids_indexed == v.ids_in_use().len()
    &&& stats.tags_indexed == v.tags_in_use().len()
    &&& stats.tracked_events == v.filters_with_events().len()
}

/// Adding a new subscription and removing it again restores every figure of the index. No event
/// goes to the subscription then, the others receive what they received, and removing it once more
/// changes nothing.
pub proof fn law_add_then_remove_restores_figures(
    v: IndexView,
    g: GroupKey,
    filters: Seq<FilterView>,
    e: EventView,
    other: GroupKey,
)
    requires
        v.wf(),
        !v.groups.contains_key(g),
    ensures
        forall|stats: IndexStats| #[trigger]
            stats_fit(v.added(g, filters).removed(g), stats) <==> stats_fit(v, stats),
        !v.added(g, filters).removed(g).receives(e, g),
        v.added(g, filters).removed(g).receives(e, other) <==> v.receives(e, other),
        v.added(g, filters).removed(g).removed(g) == v.added(g, filters).removed(g),
        v.removed(g) == v,
{
    let a = v.added(g, filters).removed(g);
    crate::index_model::law_add_then_remove(v, g, filters);
    assert forall|key: TableKey| #[trigger] a.in_use(key) <==> v.in_use(key) by {}
    assert(a.authors_in_use() =~= v.authors_in_use());
    assert(a.kinds_in_use() =~= v.kinds_in_use());
    assert(a.ids_in_use() =~= v.ids_in_use());
    assert(a.tags_in_use() =~= v.tags_in_use());
    assert(a.filters_with_events() =~= v.filters_with_events());
    if a.receives(e, g) {
        let id = choose|id: u64| #[trigger] a.hit(e, id) && a.filters[id].parent == g;
        assert(v.filters.contains_key(id));
        assert(v.groups.contains_key(v.filters[id].parent));
    }
    if a.receives(e, other) {
        let id = choose|id: u64| #[trigger] a.hit(e, id) && a.filters[id].parent == other;
        assert(v.hit(e, id));
    }
    if v.receives(e, other) {
        let id = choose|id: u64| #[trigger] v.hit(e, id) && v.filters[id].parent == other;
        assert(a.hit(e, id));
    }
    assert(v.removed(g).filters =~= v.filters) by {
        assert forall|id: u64| v.filters.contains_key(id) implies #[trigger] v.removed(
            g,
        ).filters.contains_key(id) by {
            assert(v.groups.contains_key(v.filters[id].parent));
        }
    }
    assert(v.removed(g).groups =~= v.groups);
    assert(a.removed(g).filters =~= a.filters);
    assert(a.removed(g).groups =~= a.groups);
}

/// The subscriptions of a list of pairs of texts.
pub open spec fn group_keys(list: Seq<(String, String)>) -> Seq<GroupKey> {
    list.map_values(|p: (String, String)| (p.0@, p.1@))
}

/// The filters without those whose numbers are among the first `n` of a list.
spec fn removed_so_far(filters: Map<u64, TrackedView>, ids: Seq<u64>, n: int) -> Map<
    u64,
    TrackedView,
> {
    Map::new(
        |id: u64| filters.contains_key(id) && !ids.take(n).contains(id),
        |id: u64| filters[id],
    )
}

/// The filters after those of a list let the event through.
spec fn marked_filters(v: IndexView, e: EventView, list: Seq<u64>) -> Map<u64, TrackedView> {
    Map::new(
        |id: u64| v.filters.contains_key(id),
        |id: u64|
            if list.contains(id) && v.hit(e, id) {
                TrackedView { last_seen: Some(e.id), ..v.filters[id] }
            } else {
                v.filters[id]
            },
    )
}

/// The groups after the event went to those of a list.
spec fn marked_groups(v: IndexView, e: EventView, sent: Seq<GroupKey>) -> Map<GroupKey, GroupView> {
    Map::new(
        |g: GroupKey| v.groups.contains_key(g),
        |g: GroupKey|
            if sent.contains(g) {
                GroupView { last_seen: Some(e.id), ..v.groups[g] }
            } else {
                v.groups[g]
            },
    )
}

/// The letter that names a tag, where one does.
fn single_letter(tag: &Vec<String>) -> (r: Option<char>)
    ensures
        r == letter_of(tag_view(*tag)),
{
    if tag.len() == 0 {
        return None;
    }
    let name = chars_of(tag[0].as_str());
    proof {
        assert(tag_view(*tag)[0] == name@);
    }
    if name.len() == 1 {
        let c: char = name[0];
        if ('a' <= c && c <= 'z') || ('A' <= c && c <= 'Z') {
            return Some(c);
        }
    }
    None
}

/// Adds the members of a list that are not there yet.
fn add_new(candidates: &mut Vec<u64>, seen: &mut HashSet<u64>, list: &Vec<u64>)
    requires
        old(seen)@ == old(candidates)@.to_set(),
    ensures
        final(candidates)@ == merge(old(candidates)@, list@),
        final(seen)@ == final(candidates)@.to_set(),
{
    broadcast use vstd::std_specs::hash::group_hash_axioms;

    let ghost start = candidates@;
    let mut i: usize = 0;
    proof {
        assert(list@.take(0) =~= Seq::empty());
    }
    while i < list.len()
        invariant
            i <= list@.len(),
            candidates@ == merge(start, list@.take(i as int)),
            seen@ == candidates@.to_set(),
        decreases list@.len() - i,
    {
        broadcast use vstd::std_specs::hash::group_hash_axioms;

        proof {
            assert(list@.take(i + 1).drop_last() =~= list@.take(i as int));
        }
        let ghost prior = candidates@;
        if seen.insert(list[i]) {
            candidates.push(list[i]);
            proof {
                lemma_push_to_set(prior, list@[i as int]);
            }
        } else {
            proof {
                assert(seen@ =~= prior.to_set());
            }
        }
        i = i + 1;
    }
    proof {
        assert(list@.take(list@.len() as int) =~= list@);
    }
}

/// Adding an element to a list adds it to the set of its elements.
proof fn lemma_push_to_set(s: Seq<u64>, x: u64)
    ensures
        s.push(x).to_set() == s.to_set().insert(x),
{
    assert forall|y: u64| #[trigger]
        s.push(x).to_set().contains(y) <==> s.to_set().insert(x).contains(y) by {
        if s.contains(y) {
            let j = choose|j: int| 0 <= j < s.len() && s[j] == y;
            assert(s.push(x)[j] == y);
        }
        assert(s.push(x)[s.len() as int] == x);
    }
    assert(s.push(x).to_set() =~= s.to_set().insert(x));
}

/// Taking one more element of a list without repetition adds just that element.
proof fn lemma_take_next<T>(s: Seq<T>, i: int)
    requires
        s.no_duplicates(),
        0 <= i < s.len(),
    ensures
        !s.take(i).contains(s[i]),
        forall|x: T| #[trigger] s.take(i + 1).contains(x) <==> s.take(i).contains(x) || x == s[i],
{
    assert(s.take(i + 1) =~= s.take(i).push(s[i]));
    assert forall|x: T| #[trigger] s.take(i + 1).contains(x) <==> s.take(i).contains(x) || x
        == s[i] by {
        if s.take(i).contains(x) {
            let j = choose|j: int| 0 <= j < s.take(i).len() && s.take(i)[j] == x;
            assert(s.take(i + 1)[j] == x);
        }
        assert(s.take(i + 1)[i] == s[i]);
    }
}

/// Distributing an event gives, once each, exactly the subscriptions of which a filter matches it,
/// unless the subscription or the filter saw that very event last, whatever else they saw before.
pub proof fn law_events_go_to_matching_subscriptions(
    before: SubscriptionIndex,
    after: SubscriptionIndex,
    event: Event,
    r: Vec<(String, String)>,
    g: GroupKey,
)
    requires
        before.wf(),
        exists|index: &mut SubscriptionIndex|
            {
                &&& #[trigger] call_ensures(
                    SubscriptionIndex::distribute_event,
                    (index, &event),
                    r,
                )
                &&& *index == before
                &&& *final(index) == after
            },
    ensures
        after.wf(),
        group_keys(r@).no_duplicates(),
        group_keys(r@).contains(g) <==> {
            &&& before@.groups.contains_key(g)
            &&& before@.groups[g].last_seen != Some(event.id)
            &&& exists|id: u64| #[trigger]
                before@.groups[g].filter_ids.contains(id) && before@.filters[id].last_seen != Some(
                    event.id,
                ) && filter_matches(before@.filters[id].filter, event@)
        },
        after@.filters.dom() == before@.filters.dom(),
        after@.groups.dom() == before@.groups.dom(),
        forall|id: u64| #[trigger]
            before@.filters.contains_key(id) ==> after@.filters[id].filter
                == before@.filters[id].filter && after@.filters[id].last_seen == if filter_matches(
                before@.filters[id].filter,
                event@,
            ) {
                Some(event.id)
            } else {
                before@.filters[id].last_seen
            },
{
    crate::index_model::law_matching_filters_deliver(before@, event@, g);
    crate::index_model::law_distribution_only_marks(before@, event@);
}

/// The figures of an index: how many filters and subscriptions it holds, how many of the filters let
/// an event through, and how many identifiers, authors, kinds and tag values filters are found by.
pub proof fn law_figures_of_an_index(index: SubscriptionIndex, r: IndexStats)
    requires
        call_ensures(SubscriptionIndex::stats, (&index,), r),
    ensures
        r.total_filters == index@.filters.dom().len(),
        r.total_subscriptions == index@.groups.dom().len(),
        r.tracked_events == index@.filters.dom().filter(
            |id: u64| index@.filters[id].last_seen is Some,
        ).len(),
        r.authors_indexed == index@.authors_in_use().len(),
        r.kinds_indexed == index@.kinds_in_use().len(),
        r.event_ids_indexed == index@.ids_in_use().len(),
        r.tags_indexed == index@.tags_in_use().len(),
{
}

} // verus!
