//! Lists of numbers under keys: the table behind each inverted index. A key is present
//! exactly when its list is not empty.

use crate::protocol::{copy_list, EventId, PublicKey};
use vstd::prelude::*;

verus! {

/// A value by which lists are found.
pub trait ListKey: View + Sized {
    /// Whether two keys are the same.
    fn same_key(&self, other: &Self) -> (r: bool)
        ensures
            r == (self@ == other@),
    ;
}

impl View for EventId {
    type V = EventId;

    open spec fn view(&self) -> EventId {
        *self
    }
}

impl View for PublicKey {
    type V = PublicKey;

    open spec fn view(&self) -> PublicKey {
        *self
    }
}

impl ListKey for EventId {
    fn same_key(&self, other: &Self) -> (r: bool) {
        self.same(other)
    }
}

impl ListKey for PublicKey {
    fn same_key(&self, other: &Self) -> (r: bool) {
        self.same(other)
    }
}

impl ListKey for u16 {
    fn same_key(&self, other: &Self) -> (r: bool) {
        *self == *other
    }
}

/// A tag letter with a tag value.
pub struct TagKey {
    pub letter: char,
    pub value: String,
}

impl View for TagKey {
    type V = (char, Seq<char>);

    open spec fn view(&self) -> (char, Seq<char>) {
        (self.letter, self.value@)
    }
}

impl ListKey for TagKey {
    fn same_key(&self, other: &Self) -> (r: bool) {
        self.letter == other.letter && self.value == other.value
    }
}

/// `s` without the occurrences of `x`.
pub open spec fn without(s: Seq<u64>, x: u64) -> Seq<u64>
    decreases s.len(),
{
    if s.len() == 0 {
        s
    } else if s.last() == x {
        without(s.drop_last(), x)
    } else {
        without(s.drop_last(), x).push(s.last())
    }
}

/// A list from which the occurrences of `x` are taken out.
pub fn retain_others(list: &Vec<u64>, x: u64) -> (r: Vec<u64>)
    ensures
        r@ == without(list@, x),
{
    let mut r: Vec<u64> = Vec::new();
    let mut i: usize = 0;
    proof {
        assert(list@.take(0) =~= Seq::empty());
    }
    while i < list.len()
        invariant
            i <= list@.len(),
            r@ == without(list@.take(i as int), x),
        decreases list@.len() - i,
    {
        proof {
            assert(list@.take(i + 1).drop_last() =~= list@.take(i as int));
        }
        if list[i] != x {
            r.push(list[i]);
        }
        i = i + 1;
    }
    proof {
        assert(list@.take(list@.len() as int) =~= list@);
    }
    r
}

/// A table from keys to non-empty lists of numbers.
pub struct KeyedLists<K: ListKey> {
    entries: Vec<(K, Vec<u64>)>,
}

impl<K: ListKey> KeyedLists<K> {
    /// The keys are pairwise different and no list is empty.
    pub closed spec fn wf(self) -> bool {
        &&& forall|i: int, j: int|
            0 <= i < j < self.entries@.len() ==> (#[trigger] self.entries@[i]).0@ != (
            #[trigger] self.entries@[j]).0@
        &&& forall|i: int| 0 <= i < self.entries@.len() ==> (#[trigger] self.entries@[i]).1@.len() > 0
    }

    spec fn at(self, k: K::V, i: int) -> bool {
        0 <= i < self.entries@.len() && self.entries@[i].0@ == k
    }

    /// The list under a key; the empty list where the key is absent.
    pub closed spec fn list(self, k: K::V) -> Seq<u64> {
        if exists|i: int| self.at(k, i) {
            self.entries@[choose|i: int| self.at(k, i)].1@
        } else {
            Seq::empty()
        }
    }

    /// The keys that are present.
    pub open spec fn keys(self) -> Set<K::V> {
        Set::new(|k: K::V| self.list(k).len() > 0)
    }

    proof fn lemma_at(self, i: int)
        requires
            self.wf(),
            0 <= i < self.entries@.len(),
        ensures
            self.list(self.entries@[i].0@) == self.entries@[i].1@,
    {
        assert(self.at(self.entries@[i].0@, i));
        let j = choose|j: int| self.at(self.entries@[i].0@, j);
        assert(self.at(self.entries@[i].0@, j));
        assert(j == i) by {
            if j < i {
                assert(self.entries@[j].0@ != self.entries@[i].0@);
            } else if i < j {
                assert(self.entries@[i].0@ != self.entries@[j].0@);
            }
        }
    }

    proof fn lemma_absent(self, k: K::V)
        requires
            forall|i: int| 0 <= i < self.entries@.len() ==> (#[trigger] self.entries@[i]).0@ != k,
        ensures
            self.list(k) == Seq::<u64>::empty(),
    {
        if exists|i: int| self.at(k, i) {
            let i = choose|i: int| self.at(k, i);
            assert(self.entries@[i].0@ != k);
        }
    }

    /// The table without keys.
    pub fn new() -> (r: Self)
        ensures
            r.wf(),
            forall|k: K::V| #[trigger] r.list(k) == Seq::<u64>::empty(),
    {
        let r = KeyedLists { entries: Vec::new() };
        proof {
            assert forall|k: K::V| #[trigger] r.list(k) == Seq::<u64>::empty() by {
                r.lemma_absent(k);
            }
        }
        r
    }

    fn position(&self, key: &K) -> (r: Option<usize>)
        requires
            self.wf(),
        ensures
            match r {
                Some(i) => i < self.entries@.len() && self.entries@[i as int].0@ == key@,
                None => forall|i: int|
                    0 <= i < self.entries@.len() ==> (#[trigger] self.entries@[i]).0@ != key@,
            },
    {
        let mut i: usize = 0;
        while i < self.entries.len()
            invariant
                i <= self.entries@.len(),
                forall|j: int| 0 <= j < i ==> (#[trigger] self.entries@[j]).0@ != key@,
            decreases self.entries@.len() - i,
        {
            if self.entries[i].0.same_key(key) {
                return Some(i);
            }
            i = i + 1;
        }
        None
    }

    /// Adds a number at the end of the list under a key.
    pub fn push_id(&mut self, key: K, id: u64)
        requires
            old(self).wf(),
        ensures
            final(self).wf(),
            final(self).list(key@) == old(self).list(key@).push(id),
            forall|k: K::V| k != key@ ==> #[trigger] final(self).list(k) == old(self).list(k),
    {
        let ghost before = *self;
        match self.position(&key) {
            Some(i) => {
                proof {
                    self.lemma_at(i as int);
                }
                let ghost stored = self.entries@[i as int].0;
                self.entries[i].1.push(id);
                proof {
                    assert(self.entries@[i as int].0 == stored);
                    assert(forall|j: int|
                        0 <= j < self.entries@.len() && j != i ==> #[trigger] self.entries@[j]
                            == before.entries@[j]);
                    assert(forall|j: int|
                        0 <= j < self.entries@.len() ==> (#[trigger] self.entries@[j]).0
                            == before.entries@[j].0);
                    assert(self.wf());
                    self.lemma_at(i as int);
                    assert forall|k: K::V| k != key@ implies #[trigger] self.list(k)
                        == before.list(k) by {
                        lemma_same_list(before, *self, k, i as int);
                    }
                }
            },
            None => {
                proof {
                    self.lemma_absent(key@);
                }
                let mut list: Vec<u64> = Vec::new();
                list.push(id);
                let ghost n = self.entries@.len() as int;
                self.entries.push((key, list));
                proof {
                    assert(forall|j: int|
                        0 <= j < n ==> #[trigger] self.entries@[j] == before.entries@[j]);
                    assert(self.wf());
                    self.lemma_at(n);
                    assert(list@ =~= Seq::<u64>::empty().push(id));
                    assert forall|k: K::V| k != key@ implies #[trigger] self.list(k)
                        == before.list(k) by {
                        if exists|j: int| before.at(k, j) {
                            let j = choose|j: int| before.at(k, j);
                            assert(self.entries@[j] == before.entries@[j]);
                            before.lemma_at(j);
                            self.lemma_at(j);
                        } else {
                            assert forall|j: int| 0 <= j < self.entries@.len() implies (
                            #[trigger] self.entries@[j]).0@ != k by {
                                if j < n {
                                    assert(!before.at(k, j));
                                    assert(self.entries@[j] == before.entries@[j]);
                                }
                            }
                            self.lemma_absent(k);
                        }
                    }
                }
            },
        }
    }

    /// Takes a number out of the list under a key, and the key with it where its list
    /// becomes empty.
    pub fn drop_id(&mut self, key: &K, id: u64)
        requires
            old(self).wf(),
        ensures
            final(self).wf(),
            final(self).list(key@) == without(old(self).list(key@), id),
            forall|k: K::V| k != key@ ==> #[trigger] final(self).list(k) == old(self).list(k),
    {
        let ghost before = *self;
        match self.position(key) {
            Some(i) => {
                proof {
                    self.lemma_at(i as int);
                }
                let kept = retain_others(&self.entries[i].1, id);
                if kept.len() == 0 {
                    self.entries.remove(i);
                    proof {
                        assert(forall|j: int|
                            0 <= j < i ==> #[trigger] self.entries@[j] == before.entries@[j]);
                        assert(forall|j: int|
                            i <= j < self.entries@.len() ==> #[trigger] self.entries@[j]
                                == before.entries@[j + 1]);
                        assert(self.wf()) by {
                            assert forall|a: int, b: int|
                                0 <= a < b < self.entries@.len() implies (
                            #[trigger] self.entries@[a]).0@ != (#[trigger] self.entries@[b]).0@ by {
                                let a2 = if a < i { a } else { a + 1 };
                                let b2 = if b < i { b } else { b + 1 };
                                assert(before.entries@[a2].0@ != before.entries@[b2].0@);
                            }
                        }
                        assert forall|j: int| 0 <= j < self.entries@.len() implies (
                        #[trigger] self.entries@[j]).0@ != key@ by {
                            if j < i {
                                assert(before.entries@[j].0@ != before.entries@[i as int].0@);
                            } else {
                                assert(before.entries@[i as int].0@ != before.entries@[j + 1].0@);
                            }
                        }
                        self.lemma_absent(key@);
                        assert forall|k: K::V| k != key@ implies #[trigger] self.list(k)
                            == before.list(k) by {
                            if exists|j: int| before.at(k, j) {
                                let j = choose|j: int| before.at(k, j);
                                before.lemma_at(j);
                                let j2 = if j < i { j } else { j - 1 };
                                assert(self.entries@[j2] == before.entries@[j]);
                                self.lemma_at(j2);
                            } else {
                                assert forall|j: int| 0 <= j < self.entries@.len() implies (
                                #[trigger] self.entries@[j]).0@ != k by {
                                    let j2 = if j < i { j } else { j + 1 };
                                    assert(!before.at(k, j2));
                                }
                                self.lemma_absent(k);
                            }
                        }
                    }
                } else {
                    let ghost stored = self.entries@[i as int].0;
                    self.entries[i].1 = kept;
                    proof {
                        assert(self.entries@[i as int].0 == stored);
                        assert(forall|j: int|
                            0 <= j < self.entries@.len() && j != i ==> #[trigger] self.entries@[j]
                                == before.entries@[j]);
                        assert(forall|j: int|
                            0 <= j < self.entries@.len() ==> (#[trigger] self.entries@[j]).0
                                == before.entries@[j].0);
                        assert(self.wf());
                        self.lemma_at(i as int);
                        assert forall|k: K::V| k != key@ implies #[trigger] self.list(k)
                            == before.list(k) by {
                            lemma_same_list(before, *self, k, i as int);
                        }
                    }
                }
            },
            None => {
                proof {
                    self.lemma_absent(key@);
                    assert(without(Seq::<u64>::empty(), id) =~= Seq::empty());
                }
            },
        }
    }

    /// The list under a key.
    pub fn ids(&self, key: &K) -> (r: Vec<u64>)
        requires
            self.wf(),
        ensures
            r@ == self.list(key@),
    {
        match self.position(key) {
            Some(i) => {
                proof {
                    self.lemma_at(i as int);
                }
                copy_list(&self.entries[i].1)
            },
            None => {
                proof {
                    self.lemma_absent(key@);
                }
                Vec::new()
            },
        }
    }

    /// The number of keys that are present.
    pub fn len(&self) -> (r: usize)
        requires
            self.wf(),
        ensures
            self.keys().finite(),
            r == self.keys().len(),
    {
        proof {
            let names = self.entries@.map_values(|e: (K, Vec<u64>)| e.0@);
            assert(names.no_duplicates()) by {
                assert forall|i: int, j: int|
                    0 <= i < names.len() && 0 <= j < names.len() && i != j implies names[i]
                    != names[j] by {
                    if i < j {
                        assert(self.entries@[i].0@ != self.entries@[j].0@);
                    } else {
                        assert(self.entries@[j].0@ != self.entries@[i].0@);
                    }
                }
            }
            names.unique_seq_to_set();
            assert(names.to_set() =~= self.keys()) by {
                assert forall|k: K::V| names.to_set().contains(k) == self.keys().contains(k) by {
                    if names.contains(k) {
                        let i = choose|i: int| 0 <= i < names.len() && names[i] == k;
                        self.lemma_at(i);
                    }
                    if self.list(k).len() > 0 {
                        let i = choose|i: int| self.at(k, i);
                        if !(exists|i: int| self.at(k, i)) {
                            assert(false);
                        }
                        assert(names[i] == k);
                    }
                }
            }
        }
        self.entries.len()
    }
}

proof fn lemma_same_list<K: ListKey>(a: KeyedLists<K>, b: KeyedLists<K>, k: K::V, i: int)
    requires
        a.wf(),
        b.wf(),
        a.entries@.len() == b.entries@.len(),
        0 <= i < a.entries@.len(),
        k != a.entries@[i].0@,
        forall|j: int| 0 <= j < a.entries@.len() ==> (#[trigger] b.entries@[j]).0 == a.entries@[j].0,
        forall|j: int|
            0 <= j < a.entries@.len() && j != i ==> #[trigger] b.entries@[j] == a.entries@[j],
    ensures
        b.list(k) == a.list(k),
{
    if exists|j: int| a.at(k, j) {
        let j = choose|j: int| a.at(k, j);
        a.lemma_at(j);
        assert(b.entries@[j] == a.entries@[j]);
        b.lemma_at(j);
    } else {
        assert forall|j: int| 0 <= j < b.entries@.len() implies (#[trigger] b.entries@[j]).0@ != k by {
            assert(!a.at(k, j));
        }
        b.lemma_absent(k);
    }
}

} // verus!
