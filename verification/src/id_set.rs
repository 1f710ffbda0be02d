//! Sets of event identifiers.

use crate::protocol::EventId;
use std::collections::HashMap;
use vstd::prelude::*;

verus! {

broadcast use vstd::std_specs::hash::group_hash_axioms;

/// The number that the first eight bytes of an identifier write, the highest first.
pub open spec fn id_prefix(id: EventId) -> u64 {
    let b = id.bytes@;
    (b[0] as u64 * 0x100_0000_0000_0000 + b[1] as u64 * 0x1_0000_0000_0000 + b[2] as u64
        * 0x100_0000_0000 + b[3] as u64 * 0x1_0000_0000 + b[4] as u64 * 0x100_0000 + b[5] as u64
        * 0x1_0000 + b[6] as u64 * 0x100 + b[7] as u64) as u64
}

fn prefix_of(id: &EventId) -> (r: u64)
    ensures
        r == id_prefix(*id),
{
    let b = &id.bytes;
    b[0] as u64 * 0x100_0000_0000_0000 + b[1] as u64 * 0x1_0000_0000_0000 + b[2] as u64
        * 0x100_0000_0000 + b[3] as u64 * 0x1_0000_0000 + b[4] as u64 * 0x100_0000 + b[5] as u64
        * 0x1_0000 + b[6] as u64 * 0x100 + b[7] as u64
}

/// A set of event identifiers, in lists by the prefix of the identifier.
pub struct IdSet {
    lists: HashMap<u64, Vec<EventId>>,
}

impl View for IdSet {
    type V = Set<EventId>;

    closed spec fn view(&self) -> Set<EventId> {
        Set::new(
            |id: EventId|
                self.lists@.contains_key(id_prefix(id)) && self.lists@[id_prefix(id)]@.contains(id),
        )
    }
}

impl IdSet {
    /// The empty set.
    pub fn new() -> (r: IdSet)
        ensures
            r@ == Set::<EventId>::empty(),
    {
        let r = IdSet { lists: HashMap::new() };
        proof {
            assert(r@ =~= Set::<EventId>::empty());
        }
        r
    }

    /// Whether an identifier is in the set.
    pub fn contains(&self, id: &EventId) -> (r: bool)
        ensures
            r == self@.contains(*id),
    {
        match self.lists.get(&prefix_of(id)) {
            Some(list) => list_has(list, id),
            None => false,
        }
    }

    /// Puts an identifier into the set.
    pub fn insert(&mut self, id: EventId)
        ensures
            final(self)@ == old(self)@.insert(id),
    {
        let prefix: u64 = prefix_of(&id);
        let ghost before = self.lists@;
        let mut list: Vec<EventId> = match self.lists.remove(&prefix) {
            Some(list) => list,
            None => Vec::new(),
        };
        let ghost held = list@;
        if !list_has(&list, &id) {
            list.push(id);
        }
        let ghost after = list@;
        self.lists.insert(prefix, list);
        proof {
            assert forall|x: EventId| #[trigger] after.contains(x) <==> held.contains(x) || x == id by {
                if held.contains(x) {
                    let i = held.index_of(x);
                    assert(after[i] == x);
                }
                if x == id && !held.contains(id) {
                    assert(after[held.len() as int] == id);
                }
            }
            assert(self@ =~= old(self)@.insert(id));
        }
    }
}

/// Whether an identifier is in a list.
fn list_has(list: &Vec<EventId>, id: &EventId) -> (r: bool)
    ensures
        r == list@.contains(*id),
{
    let mut i: usize = 0;
    while i < list.len()
        invariant
            i <= list@.len(),
            forall|j: int| 0 <= j < i ==> list@[j] != *id,
        decreases list@.len() - i,
    {
        if list[i].same(id) {
            return true;
        }
        i = i + 1;
    }
    false
}

} // verus!
