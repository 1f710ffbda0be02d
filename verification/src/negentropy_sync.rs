//! Synchronisation with other relays: what is counted, and how long is waited after a failure.

use crate::protocol::{no_conditions, Filter, FilterView, Scope};
use crate::sdk::{
    parse_filter, parse_secret_key, parsed_filter, parsed_secret_key, secret_key_from_hex,
    secret_key_of_hex,
};
use crate::text::starts_with;
use vstd::prelude::*;

verus! {

/// In which direction events go.
#[derive(Debug, Clone, Copy, PartialEq, Eq, Structural)]
pub enum SyncMode {
    /// From the other relay to this one.
    Pull,
    /// From this relay to the other.
    Push,
    /// Both ways.
    Both,
}

/// What was done.
#[derive(Debug, Clone, Copy, PartialEq, Eq, Structural)]
pub struct SyncStats {
    pub events_sent: u64,
    pub events_received: u64,
    pub errors: u64,
}

impl SyncStats {
    pub fn new() -> (r: SyncStats)
        ensures
            r == (SyncStats { events_sent: 0, events_received: 0, errors: 0 }),
    {
        SyncStats { events_sent: 0, events_received: 0, errors: 0 }
    }

    /// What was done in one synchronisation: only the events of the direction that was asked for
    /// count, and every event that could not be sent is an error.
    pub fn of_sync(mode: SyncMode, sent: u64, received: u64, send_failures: &Vec<u64>) -> (r:
        SyncStats)
        requires
            sum(send_failures@) <= u64::MAX,
        ensures
            r.events_sent == if mode == SyncMode::Pull {
                0
            } else {
                sent
            },
            r.events_received == if mode == SyncMode::Push {
                0
            } else {
                received
            },
            r.errors == sum(send_failures@),
    {
        let mut errors: u64 = 0;
        let mut i: usize = 0;
        proof {
            assert(send_failures@.take(0) =~= Seq::empty());
        }
        while i < send_failures.len()
            invariant
                i <= send_failures@.len(),
                errors == sum(send_failures@.take(i as int)),
                sum(send_failures@) <= u64::MAX,
            decreases send_failures@.len() - i,
        {
            proof {
                assert(send_failures@.take(i + 1).drop_last() =~= send_failures@.take(i as int));
                lemma_sum_grows(send_failures@, i + 1);
            }
            errors = errors + send_failures[i];
            i = i + 1;
        }
        proof {
            assert(send_failures@.take(send_failures@.len() as int) =~= send_failures@);
        }
        match mode {
            SyncMode::Pull => SyncStats { events_sent: 0, events_received: received, errors },
            SyncMode::Push => SyncStats { events_sent: sent, events_received: 0, errors },
            SyncMode::Both => SyncStats { events_sent: sent, events_received: received, errors },
        }
    }

    /// Adds what was done with one relay; a synchronisation that failed is one error.
    pub fn record(&mut self, result: Option<SyncStats>)
        requires
            result matches Some(s) ==> old(self).events_sent + s.events_sent <= u64::MAX && old(
                self,
            ).events_received + s.events_received <= u64::MAX && old(self).errors + s.errors
                <= u64::MAX,
            result is None ==> old(self).errors < u64::MAX,
        ensures
            match result {
                Some(s) => {
                    &&& final(self).events_sent == old(self).events_sent + s.events_sent
                    &&& final(self).events_received == old(self).events_received + s.events_received
                    &&& final(self).errors == old(self).errors + s.errors
                },
                None => {
                    &&& final(self).events_sent == old(self).events_sent
                    &&& final(self).events_received == old(self).events_received
                    &&& final(self).errors == old(self).errors + 1
                },
            },
    {
        match result {
            Some(s) => {
                self.events_sent = self.events_sent + s.events_sent;
                self.events_received = self.events_received + s.events_received;
                self.errors = self.errors + s.errors;
            },
            None => {
                self.errors = self.errors + 1;
            },
        }
    }
}

/// The sum of a list.
pub open spec fn sum(list: Seq<u64>) -> nat
    decreases list.len(),
{
    if list.len() == 0 {
        0
    } else {
        sum(list.drop_last()) + list.last() as nat
    }
}

proof fn lemma_sum_grows(list: Seq<u64>, n: int)
    requires
        0 <= n <= list.len(),
    ensures
        sum(list.take(n)) <= sum(list),
    decreases list.len() - n,
{
    if n == list.len() {
        assert(list.take(n) =~= list);
    } else {
        lemma_sum_grows(list, n + 1);
        assert(list.take(n + 1).drop_last() =~= list.take(n));
    }
}

/// The shortest wait after a success, in seconds.
pub const MIN_BACKOFF: u64 = 10;

/// The longest wait after failures, in seconds.
pub const MAX_BACKOFF: u64 = 300;

/// The wait, in seconds, that follows a run: after a success it is that of the interval, and
/// after a failure twice the last one, up to a limit.
pub open spec fn backoff_after(backoff: nat, interval: nat, succeeded: bool) -> nat {
    if succeeded {
        if interval >= MIN_BACKOFF {
            interval
        } else {
            MIN_BACKOFF as nat
        }
    } else if backoff * 2 <= MAX_BACKOFF {
        backoff * 2
    } else {
        MAX_BACKOFF as nat
    }
}

/// The wait, in seconds, that follows a run.
pub fn next_backoff(backoff: u64, interval: u64, succeeded: bool) -> (r: u64)
    requires
        backoff * 2 <= u64::MAX,
    ensures
        r == backoff_after(backoff as nat, interval as nat, succeeded),
{
    if succeeded {
        if interval >= MIN_BACKOFF {
            interval
        } else {
            MIN_BACKOFF
        }
    } else {
        let doubled: u64 = backoff * 2;
        if doubled <= MAX_BACKOFF {
            doubled
        } else {
            MAX_BACKOFF
        }
    }
}

/// Whether synchronisation goes on: an interval of zero is for a single run.
pub fn is_periodic(interval: u64) -> (r: bool)
    ensures
        r == (interval > 0),
{
    interval > 0
}

/// The scope that is synchronised; an error where the name of a scope is empty.
pub fn sync_scope(name: Option<&str>) -> (r: Option<Scope>)
    ensures
        match name {
            Some(n) => if n@.len() > 0 {
                r matches Some(s) && s@ == Some(n@)
            } else {
                r is None
            },
            None => r matches Some(s) && s@ is None,
        },
{
    match name {
        Some(n) => Scope::named(n),
        None => Some(Scope::Default),
    }
}

/// The filter that is synchronised: all events where none is given.
pub fn sync_filter(json: Option<&str>) -> (r: Result<Filter, String>)
    ensures
        match json {
            Some(text) => match r {
                Ok(filter) => parsed_filter(text@) == Ok::<FilterView, Seq<char>>(filter@),
                Err(e) => parsed_filter(text@) == Err::<FilterView, Seq<char>>(e@),
            },
            None => r matches Ok(filter) && filter@ == no_conditions(),
        },
        r matches Ok(filter) ==> filter@.wf(),
{
    match json {
        Some(text) => parse_filter(text),
        None => Ok(Filter::new()),
    }
}

/// The secret key for authentication: a text that starts with `nsec` is in bech32, and any other
/// in hexadecimal.
pub fn auth_secret_key(text: &str) -> (r: Option<[u8; 32]>)
    ensures
        ({
            let key = if "nsec"@.is_prefix_of(text@) {
                parsed_secret_key(text@)
            } else {
                secret_key_of_hex(text@)
            };
            match r {
                Some(k) => key == Some(k@),
                None => key is None,
            }
        }),
{
    if starts_with(text, "nsec") {
        parse_secret_key(text)
    } else {
        secret_key_from_hex(text)
    }
}

/// A failure never shortens the wait, and never leads to one beyond the limit; a wait below the
/// limit is doubled until it reaches it.
pub proof fn law_backoff_is_bounded(backoff: nat, interval: nat)
    requires
        backoff <= MAX_BACKOFF,
    ensures
        backoff <= backoff_after(backoff, interval, false) <= MAX_BACKOFF,
        backoff_after(backoff, interval, false) == 2 * backoff || backoff_after(
            backoff,
            interval,
            false,
        ) == MAX_BACKOFF,
{
}

/// Failures add up over the relays, each as many as it had.
pub proof fn law_failures_add_up(a: Seq<u64>, b: Seq<u64>, n: u64)
    ensures
        sum(a + b) == sum(a) + sum(b),
        sum(seq![n]) == n,
    decreases b.len(),
{
    assert(seq![n].drop_last() =~= Seq::empty());
    assert(sum(Seq::empty()) == 0);
    if b.len() == 0 {
        assert(a + b =~= a);
    } else {
        law_failures_add_up(a, b.drop_last(), n);
        assert((a + b).drop_last() =~= a + b.drop_last());
        assert((a + b).last() == b.last());
    }
}

/// What one synchronisation did: a pull sends nothing, a push receives nothing, and both count
/// otherwise; every event that could not be sent is an error.
pub proof fn law_directions_count(
    mode: SyncMode,
    sent: u64,
    received: u64,
    failures: Vec<u64>,
    r: SyncStats,
)
    requires
        call_ensures(SyncStats::of_sync, (mode, sent, received, &failures), r),
    ensures
        mode != SyncMode::Pull ==> r.events_sent == sent,
        mode == SyncMode::Pull ==> r.events_sent == 0,
        mode != SyncMode::Push ==> r.events_received == received,
        mode == SyncMode::Push ==> r.events_received == 0,
        r.errors == failures@.fold_left(0int, |total: int, n: u64| total + n),
{
    lemma_sum_is_fold(failures@);
}

proof fn lemma_sum_is_fold(list: Seq<u64>)
    ensures
        sum(list) == list.fold_left(0int, |total: int, n: u64| total + n),
    decreases list.len(),
{
    reveal_with_fuel(Seq::fold_left, 2);
    if list.len() > 0 {
        lemma_sum_is_fold(list.drop_last());
    }
}

/// The wait after a synchronisation: after a success it is the interval, but at least ten seconds;
/// after a failure it doubles, up to five minutes.
pub proof fn law_waits(backoff: nat, interval: nat, succeeded: bool)
    ensures
        succeeded ==> backoff_after(backoff, interval, succeeded) >= interval
            && backoff_after(backoff, interval, succeeded) >= 10 && (backoff_after(
            backoff,
            interval,
            succeeded,
        ) == interval || backoff_after(backoff, interval, succeeded) == 10),
        !succeeded ==> backoff_after(backoff, interval, succeeded) <= 2 * backoff
            && backoff_after(backoff, interval, succeeded) <= 300 && (backoff_after(
            backoff,
            interval,
            succeeded,
        ) == 2 * backoff || backoff_after(backoff, interval, succeeded) == 300),
{
}

} // verus!
