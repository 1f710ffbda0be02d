//! Deletion requests: a client asks for the deletion of events of its own, by identifier or by
//! address.

use crate::error::{error_text, Error};
use crate::event_processor::StoreCommand;
use crate::nostr_middleware::{is_ok_reply, ok_reply};
use crate::protocol::{
    filter_matches, tag_view, tags_view, ClientMessage, Event, EventId, EventView, Filter,
    FilterView, PublicKey, RelayMessage, Scope, TagFilter, TagFilterView,
};
use crate::sdk::{parse_event_id, parse_public_key, parsed_event_id, parsed_public_key};
use crate::text::{
    concat2, decimal, is_digit, join_with, law_parse_after_decimal, law_split_after_join,
    lemma_decimal_digits, parse_u64, parse_unsigned, split_on, split_string, str_eq, views,
};
use vstd::prelude::*;

verus! {

/// The kind of the events that ask for deletions.
pub const DELETION_KIND: u16 = 5;

/// What a tag of a deletion request asks for.
pub enum DeletionStep {
    /// To delete an event, if it is the author's own.
    CheckOwner(EventId),
    /// To delete the author's events of a kind with an identifier.
    DeleteAddress { kind: u16, identifier: String },
}

#[verifier::ext_equal]
pub enum DeletionStepView {
    CheckOwner(EventId),
    DeleteAddress { kind: u16, identifier: Seq<char> },
}

impl View for DeletionStep {
    type V = DeletionStepView;

    open spec fn view(&self) -> DeletionStepView {
        match self {
            DeletionStep::CheckOwner(id) => DeletionStepView::CheckOwner(*id),
            DeletionStep::DeleteAddress { kind, identifier } => DeletionStepView::DeleteAddress {
                kind: *kind,
                identifier: identifier@,
            },
        }
    }
}

/// The sixteen low bits of a number.
pub open spec fn low_bits(n: nat) -> u16 {
    (n % 0x1_0000) as u16
}

/// The kind and the identifier of an address, which reads `kind:key:identifier`, where its key
/// is the author's. `key` is what the middle part stands for.
pub open spec fn address_target(
    address: Seq<char>,
    key: Option<PublicKey>,
    author: PublicKey,
) -> Option<DeletionStepView> {
    let parts = split_on(address, ':');
    if parts.len() == 3 && parse_unsigned(parts[0], u64::MAX as nat) is Some && key == Some(author) {
        Some(
            DeletionStepView::DeleteAddress {
                kind: low_bits(parse_unsigned(parts[0], u64::MAX as nat)->0),
                identifier: parts[2],
            },
        )
    } else {
        None
    }
}

/// What a tag of a deletion request by an author asks for, where it asks for anything.
pub open spec fn tag_step(tag: Seq<Seq<char>>, author: PublicKey) -> Option<DeletionStepView> {
    if tag.len() < 2 {
        None
    } else if tag[0] == "e"@ {
        match parsed_event_id(tag[1]) {
            Some(id) => Some(DeletionStepView::CheckOwner(id)),
            None => None,
        }
    } else if tag[0] == "a"@ {
        address_target(tag[1], parsed_public_key(split_on(tag[1], ':')[1]), author)
    } else {
        None
    }
}

/// What the tags of a deletion request ask for, in their order.
pub open spec fn steps_of(tags: Seq<Seq<Seq<char>>>, author: PublicKey) -> Seq<DeletionStepView>
    decreases tags.len(),
{
    if tags.len() == 0 {
        Seq::empty()
    } else {
        let before = steps_of(tags.drop_last(), author);
        match tag_step(tags.last(), author) {
            Some(step) => before.push(step),
            None => before,
        }
    }
}

/// The sixteen low bits of a number.
fn truncate_kind(n: u64) -> (r: u16)
    ensures
        r == low_bits(n as nat),
{
    (n % 0x1_0000) as u16
}

/// The kind and the identifier of an address whose key is the author's. `key` is what the middle
/// part stands for.
pub fn parse_address(address: &str, key: Option<PublicKey>, author: &PublicKey) -> (r: Option<
    DeletionStep,
>)
    ensures
        match r {
            Some(step) => address_target(address@, key, *author) == Some(step@),
            None => address_target(address@, key, *author) is None,
        },
{
    let parts = split_string(address, ':');
    let ghost p = views(parts@);
    if parts.len() != 3 {
        return None;
    }
    let kind = match parse_u64(parts[0].as_str()) {
        Some(kind) => kind,
        None => return None,
    };
    match key {
        Some(key) => {
            if key.same(author) {
                let identifier = parts[2].clone();
                proof {
                    assert(p[2] == identifier@);
                    assert(p[0] == parts@[0]@);
                }
                Some(DeletionStep::DeleteAddress { kind: truncate_kind(kind), identifier })
            } else {
                None
            }
        },
        None => None,
    }
}

/// What a tag of a deletion request by an author asks for.
pub fn deletion_step(tag: &Vec<String>, author: &PublicKey) -> (r: Option<DeletionStep>)
    ensures
        match r {
            Some(step) => tag_step(tag_view(*tag), *author) == Some(step@),
            None => tag_step(tag_view(*tag), *author) is None,
        },
{
    if tag.len() < 2 {
        return None;
    }
    proof {
        assert(tag_view(*tag)[0] == tag@[0]@);
        assert(tag_view(*tag)[1] == tag@[1]@);
    }
    if str_eq(tag[0].as_str(), "e") {
        match parse_event_id(tag[1].as_str()) {
            Some(id) => Some(DeletionStep::CheckOwner(id)),
            None => None,
        }
    } else if str_eq(tag[0].as_str(), "a") {
        let parts = split_string(tag[1].as_str(), ':');
        if parts.len() != 3 {
            proof {
                assert(views(parts@).len() == parts@.len());
            }
            return None;
        }
        let key = parse_public_key(parts[1].as_str());
        proof {
            assert(views(parts@)[1] == parts@[1]@);
        }
        parse_address(tag[1].as_str(), key, author)
    } else {
        None
    }
}

/// The views of a list of steps.
pub open spec fn steps_view(steps: Seq<DeletionStep>) -> Seq<DeletionStepView> {
    steps.map_values(|s: DeletionStep| s@)
}

/// The events that the author named have the identifier.
pub open spec fn owner_filter(id: EventId) -> FilterView {
    FilterView {
        ids: Some(seq![id]),
        authors: None,
        kinds: None,
        search: None,
        since: None,
        until: None,
        limit: None,
        generic_tags: Seq::empty(),
    }
}

/// The author's events of a kind with an identifier.
pub open spec fn address_filter(kind: u16, author: PublicKey, identifier: Seq<char>) -> FilterView {
    FilterView {
        ids: None,
        authors: Some(seq![author]),
        kinds: Some(seq![kind]),
        search: None,
        since: None,
        until: None,
        limit: None,
        generic_tags: seq![TagFilterView { letter: 'd', values: seq![identifier] }],
    }
}

/// The middleware that carries deletion requests out.
#[derive(Debug, Clone, Copy, PartialEq, Eq, Structural)]
pub struct Nip09Middleware;

impl Nip09Middleware {
    /// Whether a message is a deletion request. Other messages go on to the next middleware.
    pub fn is_deletion_request(&self, message: &Option<ClientMessage>) -> (r: bool)
        ensures
            r == (*message matches Some(ClientMessage::Event(event)) && event.kind == DELETION_KIND),
    {
        match message {
            Some(ClientMessage::Event(event)) => event.kind == DELETION_KIND,
            _ => false,
        }
    }

    /// What a deletion request asks for, in the order of its tags. The request itself is saved
    /// first. Nothing is done about an event of another kind.
    pub fn handle_deletion_request(&self, event: &Event, scope: &Scope) -> (r: (
        Option<StoreCommand>,
        Vec<DeletionStep>,
    ))
        ensures
            if event.kind == DELETION_KIND {
                &&& r.0 matches Some(StoreCommand::SaveSignedEvent(saved, s)) && saved@ == event@
                    && s@ == scope@
                &&& steps_view(r.1@) == steps_of(event@.tags, event.pubkey)
            } else {
                r.0 is None && r.1@.len() == 0
            },
    {
        if event.kind != DELETION_KIND {
            return (None, Vec::new());
        }
        let ghost all = event@.tags;
        let mut steps: Vec<DeletionStep> = Vec::new();
        let mut i: usize = 0;
        proof {
            assert(all.take(0) =~= Seq::empty());
            assert(steps_view(steps@) =~= Seq::empty());
        }
        while i < event.tags.len()
            invariant
                i <= event.tags@.len(),
                all == tags_view(event.tags@),
                steps_view(steps@) == steps_of(all.take(i as int), event.pubkey),
            decreases event.tags@.len() - i,
        {
            proof {
                assert(all.take(i + 1).drop_last() =~= all.take(i as int));
                assert(all.take(i + 1).last() == tag_view(event.tags@[i as int]));
            }
            if let Some(step) = deletion_step(&event.tags[i], &event.pubkey) {
                let ghost before = steps_view(steps@);
                let ghost added = step@;
                steps.push(step);
                proof {
                    assert(steps_view(steps@) =~= before.push(added));
                }
            }
            i = i + 1;
        }
        proof {
            assert(all.take(all.len() as int) =~= all);
        }
        (Some(StoreCommand::SaveSignedEvent(event.copy(), scope.copy())), steps)
    }

    /// The filter by which the event that a request names is looked up.
    pub fn owner_query(&self, id: EventId) -> (r: Filter)
        ensures
            r@ == owner_filter(id),
            r@.wf(),
    {
        let mut ids: Vec<EventId> = Vec::new();
        ids.push(id);
        let r = Filter { ids: Some(ids), ..Filter::new() };
        proof {
            assert(r@.ids->0 =~= seq![id]);
            assert(r@ =~= owner_filter(id));
        }
        r
    }

    /// What is done about an event that a request names, given the author of the stored event:
    /// it is deleted where the author is that of the request.
    pub fn handle_event_deletion(
        &self,
        requester: &PublicKey,
        id: EventId,
        owner: Option<PublicKey>,
        scope: &Scope,
    ) -> (r: Option<StoreCommand>)
        ensures
            if owner == Some(*requester) {
                r matches Some(StoreCommand::DeleteEvents(filter, s)) && filter@ == owner_filter(id)
                    && s@ == scope@
            } else {
                r is None
            },
    {
        match owner {
            Some(owner) => {
                if owner.same(requester) {
                    Some(StoreCommand::DeleteEvents(self.owner_query(id), scope.copy()))
                } else {
                    None
                }
            },
            None => None,
        }
    }

    /// The deletion of the events at an address of the requester.
    pub fn handle_address_deletion(
        &self,
        requester: &PublicKey,
        kind: u16,
        identifier: &str,
        scope: &Scope,
    ) -> (r: StoreCommand)
        ensures
            r matches StoreCommand::DeleteEvents(filter, s) && filter@ == address_filter(
                kind,
                *requester,
                identifier@,
            ) && filter@.wf() && s@ == scope@,
    {
        let mut kinds: Vec<u16> = Vec::new();
        kinds.push(kind);
        let mut authors: Vec<PublicKey> = Vec::new();
        authors.push(*requester);
        let mut values: Vec<String> = Vec::new();
        values.push(identifier.to_owned());
        let mut generic_tags: Vec<TagFilter> = Vec::new();
        generic_tags.push(TagFilter { letter: 'd', values });
        let filter = Filter {
            kinds: Some(kinds),
            authors: Some(authors),
            generic_tags,
            ..Filter::new()
        };
        proof {
            let target = address_filter(kind, *requester, identifier@);
            assert(filter@.kinds->0 =~= seq![kind]);
            assert(filter@.authors->0 =~= seq![*requester]);
            assert(filter@.generic_tags[0].values =~= seq![identifier@]);
            assert(filter@.generic_tags =~= target.generic_tags);
            assert(filter@ =~= target);
        }
        StoreCommand::DeleteEvents(filter, scope.copy())
    }

    /// What the requester is told in the end.
    pub fn answer(&self, event_id: EventId, result: Result<(), Error>) -> (r: RelayMessage)
        ensures
            match result {
                Ok(_) => is_ok_reply(
                    r,
                    event_id,
                    true,
                    "Deletion request processed successfully"@,
                ),
                Err(e) => is_ok_reply(
                    r,
                    event_id,
                    false,
                    "Failed to process deletion request: "@ + error_text(e),
                ),
            },
    {
        match result {
            Ok(_) => ok_reply(event_id, true, "Deletion request processed successfully"),
            Err(e) => {
                let text = concat2("Failed to process deletion request: ", e.to_string().as_str());
                ok_reply(event_id, false, text.as_str())
            },
        }
    }
}

/// A deletion by address only ever selects events of the requester.
pub proof fn law_address_deletions_are_own(
    kind: u16,
    author: PublicKey,
    identifier: Seq<char>,
    e: EventView,
)
    requires
        filter_matches(address_filter(kind, author, identifier), e),
    ensures
        e.pubkey == author,
        e.kind == kind,
{
    let f = address_filter(kind, author, identifier);
    assert(f.authors->0.contains(e.pubkey));
    assert(f.kinds->0.contains(e.kind));
}

/// A deletion by identifier only ever selects the event that was looked up.
pub proof fn law_event_deletions_hit_one_event(id: EventId, e: EventView)
    requires
        filter_matches(owner_filter(id), e),
    ensures
        e.id == id,
{
    assert(owner_filter(id).ids->0.contains(e.id));
}

/// The tags of a deletion request are carried out one after the other: what two lists of tags ask
/// for together is what the first asks for, and then what the second asks for.
pub proof fn law_steps_of_tags_follow_each_other(
    a: Seq<Seq<Seq<char>>>,
    b: Seq<Seq<Seq<char>>>,
    author: PublicKey,
)
    ensures
        steps_of(a + b, author) == steps_of(a, author) + steps_of(b, author),
    decreases b.len(),
{
    if b.len() == 0 {
        assert(a + b =~= a);
        assert(steps_of(a, author) + steps_of(b, author) =~= steps_of(a, author));
    } else {
        law_steps_of_tags_follow_each_other(a, b.drop_last(), author);
        assert((a + b).drop_last() =~= a + b.drop_last());
        assert((a + b).last() == b.last());
        assert(steps_of(a + b, author) =~= steps_of(a, author) + steps_of(b, author));
    }
}

/// A single tag has the step that it asks for, and none where it asks for nothing.
pub proof fn law_step_of_one_tag(tag: Seq<Seq<char>>, author: PublicKey)
    ensures
        steps_of(seq![tag], author) == match tag_step(tag, author) {
            Some(step) => seq![step],
            None => Seq::empty(),
        },
{
    assert(seq![tag].drop_last() =~= Seq::empty());
    assert(steps_of(Seq::empty(), author) =~= Seq::empty());
    assert(seq![tag].last() == tag);
    assert(steps_of(seq![tag], author) =~= match tag_step(tag, author) {
        Some(step) => seq![step],
        None => Seq::empty(),
    });
}

/// Every tag of a deletion request that asks for something has its step, and every step comes from
/// a tag.
pub proof fn law_every_tag_has_its_step(tags: Seq<Seq<Seq<char>>>, author: PublicKey)
    ensures
        forall|i: int|
            0 <= i < tags.len() && tag_step(#[trigger] tags[i], author) is Some ==> steps_of(
                tags,
                author,
            ).contains(tag_step(tags[i], author)->0),
        forall|step: DeletionStepView| #[trigger]
            steps_of(tags, author).contains(step) ==> exists|i: int|
                0 <= i < tags.len() && tag_step(#[trigger] tags[i], author) == Some(step),
        steps_of(tags, author).len() == Seq::new(tags.len(), |i: int| i).filter(
            |i: int| tag_step(tags[i], author) is Some,
        ).len(),
    decreases tags.len(),
{
    let wanted = |i: int| tag_step(tags[i], author) is Some;
    let places = Seq::new(tags.len(), |i: int| i);
    reveal(Seq::filter);
    if tags.len() > 0 {
        let init = tags.drop_last();
        let before = steps_of(init, author);
        let all = steps_of(tags, author);
        law_every_tag_has_its_step(init, author);
        assert(places.drop_last() =~= Seq::new(init.len(), |i: int| i));
        lemma_same_filter(
            places.drop_last(),
            wanted,
            |i: int| tag_step(init[i], author) is Some,
        );
        assert forall|i: int|
            0 <= i < tags.len() && tag_step(#[trigger] tags[i], author) is Some implies all.contains(
            tag_step(tags[i], author)->0,
        ) by {
            let step = tag_step(tags[i], author)->0;
            if i < init.len() {
                assert(init[i] == tags[i]);
                let k = choose|k: int| 0 <= k < before.len() && before[k] == step;
                assert(all[k] == step);
            } else {
                assert(all[all.len() - 1] == step);
            }
        }
        assert forall|step: DeletionStepView| #[trigger] all.contains(step) implies exists|i: int|
            0 <= i < tags.len() && tag_step(#[trigger] tags[i], author) == Some(step) by {
            let k = choose|k: int| 0 <= k < all.len() && all[k] == step;
            if k < before.len() {
                assert(before.contains(before[k]));
                let i = choose|i: int|
                    0 <= i < init.len() && tag_step(#[trigger] init[i], author) == Some(step);
                assert(tags[i] == init[i]);
            } else {
                assert(tag_step(tags[tags.len() - 1], author) == Some(step));
            }
        }
    }
}

proof fn lemma_same_filter(s: Seq<int>, p: spec_fn(int) -> bool, q: spec_fn(int) -> bool)
    requires
        forall|i: int| 0 <= i < s.len() ==> p(#[trigger] s[i]) == q(s[i]),
    ensures
        s.filter(p) == s.filter(q),
    decreases s.len(),
{
    reveal(Seq::filter);
    if s.len() > 0 {
        lemma_same_filter(s.drop_last(), p, q);
        assert(p(s[s.len() - 1]) == q(s[s.len() - 1]));
    }
}

/// What a tag asks for: an event tag with an identifier asks for that event, whatever follows it in
/// the tag; a tag of any other name than those of events and addresses asks for nothing.
pub proof fn law_event_tags_name_events(tag: Seq<Seq<char>>, author: PublicKey)
    ensures
        tag.len() >= 2 && tag[0] == "e"@ && parsed_event_id(tag[1]) is Some ==> tag_step(tag, author)
            == Some(DeletionStepView::CheckOwner(parsed_event_id(tag[1])->0)),
        tag.len() >= 2 && tag[0] == "e"@ && parsed_event_id(tag[1]) is None ==> tag_step(
            tag,
            author,
        ) is None,
        tag.len() < 2 ==> tag_step(tag, author) is None,
        tag.len() >= 1 && tag[0] != "e"@ && tag[0] != "a"@ ==> tag_step(tag, author) is None,
{
}

/// An address tag of a kind, a key and an identifier asks for that kind and identifier where the key
/// is the requester's, and for nothing where it is another's or none; a kind has sixteen bits. An
/// address with more or fewer parts asks for nothing.
pub proof fn law_address_tags_name_own_events(
    tag: Seq<Seq<char>>,
    number: u64,
    key: Seq<char>,
    identifier: Seq<char>,
    author: PublicKey,
)
    requires
        tag.len() >= 2,
        tag[0] == "a"@,
        !key.contains(':'),
        !identifier.contains(':'),
    ensures
        tag[1] == decimal(number as nat) + seq![':'] + key + seq![':'] + identifier ==> tag_step(
            tag,
            author,
        ) == if parsed_public_key(key) == Some(author) {
            Some(DeletionStepView::DeleteAddress { kind: (number % 0x1_0000) as u16, identifier })
        } else {
            None
        },
        split_on(tag[1], ':').len() != 3 ==> tag_step(tag, author) is None,
{
    reveal_strlit("e");
    reveal_strlit("a");
    assert("a"@[0] != "e"@[0]);
    assert(tag[0] != "e"@);
    let digits = decimal(number as nat);
    if tag[1] == digits + seq![':'] + key + seq![':'] + identifier {
        let parts = seq![digits, key, identifier];
        lemma_decimal_digits(number as nat);
        law_parse_after_decimal(number as nat, u64::MAX as nat);
        assert(!digits.contains(':')) by {
            assert forall|i: int| 0 <= i < digits.len() implies digits[i] != ':' by {
                assert(is_digit(digits[i]));
            }
        }
        assert forall|i: int| 0 <= i < parts.len() implies !(#[trigger] parts[i]).contains(':') by {
            assert(i == 0 || i == 1 || i == 2);
        }
        law_split_after_join(parts, ':');
        assert(parts.drop_last() =~= seq![digits, key]);
        assert(parts.drop_last().drop_last() =~= seq![digits]);
        reveal_with_fuel(join_with, 4);
        assert(join_with(parts, seq![':']) =~= tag[1]);
        assert(low_bits(number as nat) == (number % 0x1_0000) as u16);
    }
}

/// A deletion by identifier selects exactly the event with the identifier, and a deletion by address
/// exactly the requester's events of the kind that carry the identifier.
pub proof fn law_deletions_select_what_was_asked(
    id: EventId,
    kind: u16,
    author: PublicKey,
    identifier: Seq<char>,
    e: EventView,
)
    ensures
        filter_matches(owner_filter(id), e) <==> e.id == id,
        filter_matches(address_filter(kind, author, identifier), e) <==> {
            &&& e.pubkey == author
            &&& e.kind == kind
            &&& exists|j: int|
                0 <= j < e.tags.len() && (#[trigger] e.tags[j]).len() >= 2 && e.tags[j][0] == seq![
                    'd',
                ] && e.tags[j][1] == identifier
        },
{
    let f = owner_filter(id);
    let a = address_filter(kind, author, identifier);
    assert(f.ids->0[0] == id);
    assert(f.ids->0.contains(e.id) <==> e.id == id);
    assert(a.authors->0[0] == author);
    assert(a.authors->0.contains(e.pubkey) <==> e.pubkey == author);
    assert(a.kinds->0[0] == kind);
    assert(a.kinds->0.contains(e.kind) <==> e.kind == kind);
    let t = a.generic_tags[0];
    assert(t.values[0] == identifier);
    assert forall|value: Seq<char>| #[trigger] t.values.contains(value) <==> value == identifier by {
        assert(t.values[0] == identifier);
    }
    assert(a.generic_tags.len() == 1);
}

/// A deletion request is saved, and every one of its tags that names an event or an address of the
/// requester has its step, as many steps as such tags; an event of another kind asks for nothing.
pub proof fn law_deletion_requests_are_carried_out(
    middleware: Nip09Middleware,
    event: Event,
    scope: Scope,
    r: (Option<StoreCommand>, Vec<DeletionStep>),
)
    requires
        call_ensures(
            Nip09Middleware::handle_deletion_request,
            (&middleware, &event, &scope),
            r,
        ),
    ensures
        event.kind != 5 ==> r.0 is None && r.1@.len() == 0,
        event.kind == 5 ==> {
            &&& r.0 matches Some(StoreCommand::SaveSignedEvent(saved, s)) && saved@ == event@ && s@
                == scope@
            &&& r.1@.len() == Seq::new(event@.tags.len(), |i: int| i).filter(
                |i: int| tag_step(event@.tags[i], event.pubkey) is Some,
            ).len()
            &&& forall|i: int|
                0 <= i < event@.tags.len() && tag_step(#[trigger] event@.tags[i], event.pubkey)
                    is Some ==> exists|k: int|
                    0 <= k < r.1@.len() && (#[trigger] r.1@[k])@ == tag_step(
                        event@.tags[i],
                        event.pubkey,
                    )->0
            &&& forall|k: int|
                0 <= k < r.1@.len() ==> exists|i: int|
                    0 <= i < event@.tags.len() && tag_step(#[trigger] event@.tags[i], event.pubkey)
                        == Some((#[trigger] r.1@[k])@)
        },
{
    if event.kind == 5 {
        let steps = steps_of(event@.tags, event.pubkey);
        law_every_tag_has_its_step(event@.tags, event.pubkey);
        assert(steps_view(r.1@) == steps);
        assert forall|i: int|
            0 <= i < event@.tags.len() && tag_step(#[trigger] event@.tags[i], event.pubkey)
                is Some implies exists|k: int|
            0 <= k < r.1@.len() && (#[trigger] r.1@[k])@ == tag_step(
                event@.tags[i],
                event.pubkey,
            )->0 by {
            let step = tag_step(event@.tags[i], event.pubkey)->0;
            assert(steps.contains(step));
            let k = choose|k: int| 0 <= k < steps.len() && steps[k] == step;
            assert(r.1@[k]@ == step);
        }
        assert forall|k: int| 0 <= k < r.1@.len() implies exists|i: int|
            0 <= i < event@.tags.len() && tag_step(#[trigger] event@.tags[i], event.pubkey) == Some(
                (#[trigger] r.1@[k])@,
            ) by {
            assert(steps[k] == r.1@[k]@);
            assert(steps.contains(r.1@[k]@));
        }
    }
}

/// An event that a request names is deleted exactly where its author is the requester, and then it
/// alone, in the scope of the request.
pub proof fn law_only_own_events_are_deleted(
    middleware: Nip09Middleware,
    requester: PublicKey,
    id: EventId,
    owner: Option<PublicKey>,
    scope: Scope,
    r: Option<StoreCommand>,
    e: EventView,
)
    requires
        call_ensures(
            Nip09Middleware::handle_event_deletion,
            (&middleware, &requester, id, owner, &scope),
            r,
        ),
    ensures
        r is Some <==> owner == Some(requester),
        r matches Some(command) ==> (command matches StoreCommand::DeleteEvents(filter, s) && s@
            == scope@ && (filter_matches(filter@, e) <==> e.id == id)),
{
    law_deletions_select_what_was_asked(id, 0, requester, Seq::empty(), e);
}

/// The requester is answered by the identifier of the request, and told that it was processed exactly
/// where it was.
pub proof fn law_requesters_are_answered(
    middleware: Nip09Middleware,
    event_id: EventId,
    result: Result<(), Error>,
    r: RelayMessage,
    message: Option<ClientMessage>,
    is_request: bool,
)
    requires
        call_ensures(Nip09Middleware::answer, (&middleware, event_id, result), r),
        call_ensures(Nip09Middleware::is_deletion_request, (&middleware, &message), is_request),
    ensures
        r matches RelayMessage::OkReply { event_id: id, status, message: text } && id == event_id
            && status == (result is Ok),
        is_request <==> (message matches Some(ClientMessage::Event(event)) && event.kind == 5),
{
}

} // verus!
