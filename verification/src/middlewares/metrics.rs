//! The times that events take from their arrival to the answer.

use crate::protocol::{ClientMessage, Event, EventId, RelayMessage};
use vstd::prelude::*;

verus! {

/// The start of the processing of an event.
#[derive(Debug, Clone, Copy)]
pub struct EventTiming {
    /// When the event arrived, on the clock of the program.
    pub start: u64,
    pub event_kind: u16,
}

/// The middleware that measures how events are processed, where there is a handler for the
/// figures. It keeps the events that are being processed; no event is there twice.
pub struct MetricsMiddleware {
    has_handler: bool,
    entries: Vec<(EventId, EventTiming)>,
}

impl View for MetricsMiddleware {
    type V = Map<EventId, EventTiming>;

    closed spec fn view(&self) -> Map<EventId, EventTiming> {
        Map::new(
            |id: EventId| exists|i: int| self.at(id, i),
            |id: EventId| self.entries@[choose|i: int| self.at(id, i)].1,
        )
    }
}

impl MetricsMiddleware {
    spec fn at(self, id: EventId, i: int) -> bool {
        0 <= i < self.entries@.len() && self.entries@[i].0 == id
    }

    /// No event is there twice.
    pub closed spec fn wf(self) -> bool {
        forall|i: int, j: int|
            0 <= i < j < self.entries@.len() ==> (#[trigger] self.entries@[i]).0 != (
            #[trigger] self.entries@[j]).0
    }

    proof fn lemma_at(self, i: int)
        requires
            self.wf(),
            0 <= i < self.entries@.len(),
        ensures
            self@.contains_key(self.entries@[i].0),
            self@[self.entries@[i].0] == self.entries@[i].1,
    {
        let id = self.entries@[i].0;
        assert(self.at(id, i));
        let j = choose|j: int| self.at(id, j);
        assert(self.at(id, j));
        if j < i {
            assert(self.entries@[j].0 != self.entries@[i].0);
        } else if i < j {
            assert(self.entries@[i].0 != self.entries@[j].0);
        }
    }

    /// There is a handler for the figures.
    pub closed spec fn is_handled(self) -> bool {
        self.has_handler
    }

    /// No handler: nothing is measured.
    pub fn new() -> (r: MetricsMiddleware)
        ensures
            r.wf(),
            !r.is_handled(),
            r@ == Map::<EventId, EventTiming>::empty(),
    {
        let r = MetricsMiddleware { has_handler: false, entries: Vec::new() };
        proof {
            assert(r@ =~= Map::empty());
        }
        r
    }

    /// With a handler; no event is being processed.
    pub fn with_handler() -> (r: MetricsMiddleware)
        ensures
            r.wf(),
            r.is_handled(),
            r@ == Map::<EventId, EventTiming>::empty(),
    {
        let r = MetricsMiddleware { has_handler: true, entries: Vec::new() };
        proof {
            assert(r@ =~= Map::empty());
        }
        r
    }

    fn position(&self, id: &EventId) -> (r: Option<usize>)
        ensures
            match r {
                Some(i) => self.at(*id, i as int),
                None => forall|i: int| !self.at(*id, i),
            },
    {
        let mut i: usize = 0;
        while i < self.entries.len()
            invariant
                i <= self.entries@.len(),
                forall|j: int| 0 <= j < i ==> !self.at(*id, j),
            decreases self.entries@.len() - i,
        {
            if self.entries[i].0.same(id) {
                return Some(i);
            }
            i = i + 1;
        }
        None
    }

    /// Takes an event out, where it is there.
    fn take(&mut self, id: &EventId) -> (r: Option<EventTiming>)
        requires
            old(self).wf(),
        ensures
            final(self).wf(),
            final(self).is_handled() == old(self).is_handled(),
            final(self)@ == old(self)@.remove(*id),
            match r {
                Some(timing) => old(self)@.contains_key(*id) && timing == old(self)@[*id],
                None => !old(self)@.contains_key(*id),
            },
    {
        let ghost before = *self;
        match self.position(id) {
            Some(i) => {
                proof {
                    self.lemma_at(i as int);
                }
                let entry = self.entries.remove(i);
                proof {
                    assert forall|a: int, b: int| 0 <= a < b < self.entries@.len() implies (
                    #[trigger] self.entries@[a]).0 != (#[trigger] self.entries@[b]).0 by {
                        let a2 = if a < i { a } else { a + 1 };
                        let b2 = if b < i { b } else { b + 1 };
                        assert(before.entries@[a2].0 != before.entries@[b2].0);
                    }
                    assert forall|k: EventId| #[trigger] self@.contains_key(k)
                        <==> before@.remove(*id).contains_key(k) by {
                        if self@.contains_key(k) {
                            let a = choose|a: int| self.at(k, a);
                            let a2 = if a < i { a } else { a + 1 };
                            assert(before.at(k, a2));
                            if a2 < i {
                                assert(before.entries@[a2].0 != before.entries@[i as int].0);
                            } else {
                                assert(before.entries@[i as int].0 != before.entries@[a2].0);
                            }
                        }
                        if before@.contains_key(k) && k != *id {
                            let a = choose|a: int| before.at(k, a);
                            let a2 = if a < i { a } else { a - 1 };
                            assert(self.at(k, a2));
                        }
                    }
                    assert forall|k: EventId| #[trigger] self@.contains_key(k) implies self@[k]
                        == before@.remove(*id)[k] by {
                        let a = choose|a: int| self.at(k, a);
                        self.lemma_at(a);
                        let a2 = if a < i { a } else { a + 1 };
                        before.lemma_at(a2);
                    }
                    assert(self@ =~= before@.remove(*id));
                }
                Some(entry.1)
            },
            None => {
                proof {
                    assert(before@.remove(*id) =~= before@);
                }
                None
            },
        }
    }

    /// Notes the start of an event; an earlier start of the same event is forgotten.
    fn insert(&mut self, id: EventId, timing: EventTiming)
        requires
            old(self).wf(),
        ensures
            final(self).wf(),
            final(self).is_handled() == old(self).is_handled(),
            final(self)@ == old(self)@.insert(id, timing),
    {
        let ghost start = *self;
        let _ = self.take(&id);
        let ghost before = *self;
        self.entries.push((id, timing));
        proof {
            let n = before.entries@.len() as int;
            assert forall|a: int, b: int| 0 <= a < b < self.entries@.len() implies (
            #[trigger] self.entries@[a]).0 != (#[trigger] self.entries@[b]).0 by {
                if b < n {
                    assert(before.entries@[a].0 != before.entries@[b].0);
                } else {
                    if before.entries@[a].0 == id {
                        before.lemma_at(a);
                    }
                }
            }
            assert forall|k: EventId| #[trigger] self@.contains_key(k) <==> start@.insert(
                id,
                timing,
            ).contains_key(k) by {
                if self@.contains_key(k) {
                    let a = choose|a: int| self.at(k, a);
                    if a < n {
                        assert(before.at(k, a));
                    }
                }
                if before@.contains_key(k) {
                    let a = choose|a: int| before.at(k, a);
                    assert(self.at(k, a));
                }
                assert(self.at(id, n));
            }
            assert forall|k: EventId| #[trigger] self@.contains_key(k) implies self@[k]
                == start@.insert(id, timing)[k] by {
                let a = choose|a: int| self.at(k, a);
                self.lemma_at(a);
                if a < n {
                    before.lemma_at(a);
                }
            }
            assert(self@ =~= start@.insert(id, timing));
        }
    }

    /// Deals with a message that comes in: the start of an event is noted where it is to be
    /// timed. Says whether the handler is told of an event.
    pub fn process_inbound(
        &mut self,
        message: &Option<ClientMessage>,
        track_latency: bool,
        now: u64,
    ) -> (r: bool)
        requires
            old(self).wf(),
        ensures
            final(self).wf(),
            final(self).is_handled() == old(self).is_handled(),
            r == (old(self).is_handled() && *message matches Some(ClientMessage::Event(_))),
            match *message {
                Some(ClientMessage::Event(event)) => final(self)@ == if old(self).is_handled()
                    && track_latency {
                    old(self)@.insert(
                        event.id,
                        EventTiming { start: now, event_kind: event.kind },
                    )
                } else {
                    old(self)@
                },
                _ => final(self)@ == old(self)@,
            },
    {
        if !self.has_handler {
            return false;
        }
        match message {
            Some(ClientMessage::Event(event)) => {
                if track_latency {
                    self.insert(event.id, EventTiming { start: now, event_kind: event.kind });
                }
                true
            },
            _ => false,
        }
    }

    /// Deals with a message that goes out: the answer to an event ends its processing. Gives
    /// the start of that event, where it was noted.
    pub fn process_outbound(&mut self, message: &Option<RelayMessage>) -> (r: Option<EventTiming>)
        requires
            old(self).wf(),
        ensures
            final(self).wf(),
            final(self).is_handled() == old(self).is_handled(),
            match *message {
                Some(RelayMessage::OkReply { event_id, status, message: text }) => if old(
                    self,
                ).is_handled() {
                    &&& final(self)@ == old(self)@.remove(event_id)
                    &&& r == if old(self)@.contains_key(event_id) {
                        Some(old(self)@[event_id])
                    } else {
                        None
                    }
                } else {
                    r is None && final(self)@ == old(self)@
                },
                _ => r is None && final(self)@ == old(self)@,
            },
    {
        if !self.has_handler {
            return None;
        }
        match message {
            Some(RelayMessage::OkReply { event_id, .. }) => self.take(event_id),
            _ => None,
        }
    }
}

/// With a handler, an event that comes in to be timed is timed until the answer to it goes out: the
/// answer gives the time at which it came in and its kind, once; other messages in between make no
/// difference to it.
pub proof fn law_events_are_timed(
    before: MetricsMiddleware,
    middle: MetricsMiddleware,
    after: MetricsMiddleware,
    event: Event,
    now: u64,
    status: bool,
    text: String,
    told: bool,
    r: Option<EventTiming>,
)
    requires
        before.wf(),
        before.is_handled(),
        exists|m: &mut MetricsMiddleware|
            {
                &&& #[trigger] call_ensures(
                    MetricsMiddleware::process_inbound,
                    (m, &Some(ClientMessage::Event(event)), true, now),
                    told,
                )
                &&& *m == before
                &&& *final(m) == middle
            },
        exists|m: &mut MetricsMiddleware|
            {
                &&& #[trigger] call_ensures(
                    MetricsMiddleware::process_outbound,
                    (m, &Some(RelayMessage::OkReply { event_id: event.id, status, message: text })),
                    r,
                )
                &&& *m == middle
                &&& *final(m) == after
            },
    ensures
        told,
        r == Some(EventTiming { start: now, event_kind: event.kind }),
        !after@.contains_key(event.id),
        forall|id: EventId|
            id != event.id ==> (#[trigger] after@.contains_key(id) <==> before@.contains_key(id))
                && after@[id] == before@[id],
{
}

} // verus!
