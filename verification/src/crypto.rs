//! Signing and verifying events, in batches.

use crate::error::Error;
use crate::event_processor::StoreCommand;
use crate::protocol::{tags_view, Event, EventView, PublicKey, Scope, UnsignedEvent};
use crate::sdk::{
    computed_id, event_verifies, is_signed_form, key_of, public_key_of, sign_event, verification,
    verify_event,
};
use crate::text::{concat2, decimal, law_parse_after_decimal, parse_u64_up_to, parse_unsigned};
use nostr_sdk::Keys;
use std::sync::Arc;
use vstd::prelude::*;

verus! {

/// The figures of the batches so far.
#[derive(Debug, Clone, Copy, PartialEq, Eq, Structural)]
pub struct BatchStats {
    pub batch_count: usize,
    pub batch_size_sum: usize,
    pub batch_size_max: usize,
}

/// What is reported every hundred batches.
#[derive(Debug, Clone, Copy, PartialEq, Eq, Structural)]
pub struct BatchReport {
    pub batches: usize,
    pub average: usize,
    pub maximum: usize,
    /// Whether the last batch was more than twice as large as the average.
    pub significantly_above_average: bool,
}

/// A batch was noted. There is a report where a multiple of a hundred batches came before.
pub open spec fn batch_noted(
    after: BatchStats,
    before: BatchStats,
    batch_size: int,
    report: Option<BatchReport>,
) -> bool {
    &&& after.batch_count == before.batch_count + 1
    &&& after.batch_size_sum == before.batch_size_sum + batch_size
    &&& after.batch_size_max == if before.batch_size_max < batch_size {
        batch_size
    } else {
        before.batch_size_max as int
    }
    &&& report is Some <==> before.batch_count > 0 && before.batch_count % 100 == 0
    &&& report matches Some(told) ==> {
        &&& told.batches == after.batch_count
        &&& told.average == after.batch_size_sum as int / after.batch_count as int
        &&& told.maximum == after.batch_size_max
        &&& told.significantly_above_average == (batch_size > told.average * 2)
    }
}

impl BatchStats {
    pub fn new() -> (r: BatchStats)
        ensures
            r == (BatchStats { batch_count: 0, batch_size_sum: 0, batch_size_max: 0 }),
    {
        BatchStats { batch_count: 0, batch_size_sum: 0, batch_size_max: 0 }
    }

    /// Notes a batch.
    pub fn record_batch(&mut self, batch_size: usize) -> (r: Option<BatchReport>)
        requires
            old(self).batch_count < usize::MAX,
            old(self).batch_size_sum + batch_size <= usize::MAX / 2,
        ensures
            batch_noted(*final(self), *old(self), batch_size as int, r),
    {
        let batch_num: usize = self.batch_count;
        self.batch_count = batch_num + 1;
        self.batch_size_sum = self.batch_size_sum + batch_size;
        if self.batch_size_max < batch_size {
            self.batch_size_max = batch_size;
        }
        if batch_num > 0 && batch_num % 100 == 0 {
            let average: usize = self.batch_size_sum / (batch_num + 1);
            proof {
                let s = self.batch_size_sum as int;
                let n = (batch_num + 1) as int;
                assert(s / n <= s) by (nonlinear_arith)
                    requires
                        s >= 0,
                        n >= 1,
                ;
            }
            Some(
                BatchReport {
                    batches: batch_num + 1,
                    average,
                    maximum: self.batch_size_max,
                    significantly_above_average: batch_size > average * 2,
                },
            )
        } else {
            None
        }
    }
}

/// What the verification of an event comes to.
pub open spec fn verify_outcome(r: Result<(), Error>, event: EventView) -> bool {
    match verification(event) {
        Ok(_) => r is Ok,
        Err(text) => r matches Err(e) && (e matches Error::Protocol { message } && message@
            == "Invalid event signature: "@ + text),
    }
}

/// What the verification of an event comes to, given what was found.
pub fn verification_result(found: Result<(), String>) -> (r: Result<(), Error>)
    ensures
        match found {
            Ok(_) => r is Ok,
            Err(text) => r matches Err(e) && (e matches Error::Protocol { message } && message@
                == "Invalid event signature: "@ + text@),
        },
{
    match found {
        Ok(_) => Ok(()),
        Err(text) => {
            let message = concat2("Invalid event signature: ", text.as_str());
            Err(Error::protocol(message.as_str()))
        },
    }
}

/// Verifies an event.
pub fn check_event(event: &Event) -> (r: Result<(), Error>)
    requires
        event@.wf(),
    ensures
        verify_outcome(r, event@),
{
    verification_result(verify_event(event))
}

/// Verifies the events of a batch. The outcomes are in the order of the events.
pub fn verify_batch(events: &Vec<Event>) -> (r: Vec<Result<(), Error>>)
    requires
        forall|i: int| 0 <= i < events@.len() ==> (#[trigger] events@[i])@.wf(),
    ensures
        r@.len() == events@.len(),
        forall|i: int| 0 <= i < r@.len() ==> verify_outcome(#[trigger] r@[i], events@[i]@),
{
    let mut r: Vec<Result<(), Error>> = Vec::new();
    let mut i: usize = 0;
    while i < events.len()
        invariant
            i <= events@.len(),
            r@.len() == i,
            forall|k: int| 0 <= k < events@.len() ==> (#[trigger] events@[k])@.wf(),
            forall|k: int| 0 <= k < i ==> verify_outcome(#[trigger] r@[k], events@[k]@),
        decreases events@.len() - i,
    {
        r.push(check_event(&events[i]));
        i = i + 1;
    }
    r
}

/// Whether a command can be signed: it saves an event that is not signed yet.
pub fn check_sign_command(command: &StoreCommand) -> (r: Result<(), Error>)
    ensures
        match r {
            Ok(_) => *command is SaveUnsignedEvent,
            Err(e) => !(*command is SaveUnsignedEvent) && (e matches Error::Internal { message }
                && message@ == "Expected SaveUnsignedEvent command"@),
        },
{
    match command {
        StoreCommand::SaveUnsignedEvent(_, _) => Ok(()),
        _ => Err(Error::internal("Expected SaveUnsignedEvent command")),
    }
}

/// The command that comes of signing an event, given what signing gave.
pub fn signing_result(signed: Result<Event, String>, scope: Scope) -> (r: Result<
    StoreCommand,
    Error,
>)
    ensures
        match signed {
            Ok(event) => r == Ok::<StoreCommand, Error>(StoreCommand::SaveSignedEvent(event, scope)),
            Err(text) => r matches Err(e) && (e matches Error::Internal { message } && message@
                == "Failed to sign event: "@ + text@),
        },
{
    match signed {
        Ok(event) => Ok(StoreCommand::SaveSignedEvent(event, scope)),
        Err(text) => {
            let message = concat2("Failed to sign event: ", text.as_str());
            Err(Error::internal(message.as_str()))
        },
    }
}

/// The tags of an unsigned event have names.
pub open spec fn can_sign(command: StoreCommand) -> bool {
    command matches StoreCommand::SaveUnsignedEvent(event, scope) ==> forall|i: int|
        0 <= i < event.tags@.len() ==> (#[trigger] event.tags@[i])@.len() > 0
}

/// The event is the unsigned one, signed with the keys: its fields are kept, its identifier is the
/// one that they give, and it verifies where the keys are its author's.
pub open spec fn is_signed(event: EventView, unsigned: UnsignedEvent, keys: Keys) -> bool {
    &&& is_signed_form(event, unsigned)
    &&& event.wf()
    &&& event.id == computed_id(
        event.pubkey,
        event.created_at,
        event.kind,
        event.tags,
        event.content,
    )
    &&& event.pubkey == public_key_of(keys) ==> event_verifies(event)
}

/// The outcome of signing is the command that saves the signed event in the same scope.
pub open spec fn sign_outcome(
    r: Result<StoreCommand, Error>,
    command: StoreCommand,
    keys: Keys,
) -> bool {
    &&& command is SaveUnsignedEvent
    &&& r matches Ok(result) && (result matches StoreCommand::SaveSignedEvent(event, scope)
        && is_signed(event@, command->SaveUnsignedEvent_0, keys) && scope
        == command->SaveUnsignedEvent_1)
}

/// The commands of a list that save events which are not signed yet.
pub open spec fn unsigned_commands(commands: Seq<StoreCommand>) -> Seq<StoreCommand>
    decreases commands.len(),
{
    if commands.len() == 0 {
        commands
    } else if commands.last() is SaveUnsignedEvent {
        unsigned_commands(commands.drop_last()).push(commands.last())
    } else {
        unsigned_commands(commands.drop_last())
    }
}

/// Signs the events of a batch. Commands that are not to be signed are left out; the outcomes of
/// the others are in their order.
pub fn sign_batch(commands: Vec<StoreCommand>, keys: &Keys) -> (r: Vec<Result<StoreCommand, Error>>)
    requires
        forall|i: int| 0 <= i < commands@.len() ==> can_sign(#[trigger] commands@[i]),
    ensures
        r@.len() == unsigned_commands(commands@).len(),
        forall|i: int|
            0 <= i < r@.len() ==> sign_outcome(
                #[trigger] r@[i],
                unsigned_commands(commands@)[i],
                *keys,
            ),
{
    let ghost all = commands@;
    let count: usize = commands.len();
    let mut rest = commands;
    let mut r: Vec<Result<StoreCommand, Error>> = Vec::new();
    let mut i: usize = 0;
    proof {
        assert(all.take(0) =~= Seq::empty());
        assert(all.skip(0) =~= all);
    }
    while rest.len() > 0
        invariant
            i <= all.len(),
            all == commands@,
            all.len() == count,
            rest@ == all.skip(i as int),
            i + rest@.len() == all.len(),
            forall|k: int| 0 <= k < all.len() ==> can_sign(#[trigger] all[k]),
            r@.len() == unsigned_commands(all.take(i as int)).len(),
            forall|k: int|
                0 <= k < r@.len() ==> sign_outcome(
                    #[trigger] r@[k],
                    unsigned_commands(all.take(i as int))[k],
                    *keys,
                ),
        decreases rest@.len(),
    {
        let command = rest.remove(0);
        let ghost prior = unsigned_commands(all.take(i as int));
        proof {
            assert(command == all[i as int]);
            assert(all.take(i + 1).drop_last() =~= all.take(i as int));
            assert(all.take(i + 1).last() == command);
            assert(rest@ =~= all.skip(i + 1));
        }
        if let StoreCommand::SaveUnsignedEvent(event, scope) = command {
            let signed = sign_event(&event, keys);
            let outcome = signing_result(signed, scope);
            r.push(outcome);
            proof {
                let next = unsigned_commands(all.take(i + 1));
                assert(next =~= prior.push(all[i as int]));
                assert forall|k: int| 0 <= k < r@.len() implies sign_outcome(
                    #[trigger] r@[k],
                    next[k],
                    *keys,
                ) by {
                    if k < prior.len() {
                        assert(next[k] == prior[k]);
                    }
                }
            }
        }
        i = i + 1;
    }
    proof {
        assert(all.take(all.len() as int) =~= all);
    }
    r
}

/// Signs and verifies events, and counts them.
pub struct CryptoHelper {
    /// The keys of the relay.
    pub keys: Arc<Keys>,
    /// The number of events that were verified.
    pub verified: usize,
    /// The number of commands that were handed to be signed.
    pub signed: usize,
    pub verify_stats: BatchStats,
    pub sign_stats: BatchStats,
}

impl CryptoHelper {
    /// A helper that signs with the given keys.
    pub fn new(keys: Arc<Keys>) -> (r: CryptoHelper)
        ensures
            r.keys == keys,
            r.verified == 0,
            r.signed == 0,
            r.verify_stats == (BatchStats { batch_count: 0, batch_size_sum: 0, batch_size_max: 0 }),
            r.sign_stats == (BatchStats { batch_count: 0, batch_size_sum: 0, batch_size_max: 0 }),
    {
        CryptoHelper {
            keys,
            verified: 0,
            signed: 0,
            verify_stats: BatchStats::new(),
            sign_stats: BatchStats::new(),
        }
    }

    /// Signs an event.
    pub fn sign_event(&self, event: &UnsignedEvent) -> (r: Result<Event, Error>)
        requires
            forall|i: int| 0 <= i < event.tags@.len() ==> (#[trigger] event.tags@[i])@.len() > 0,
        ensures
            r matches Ok(signed) && is_signed(signed@, *event, *self.keys),
    {
        match sign_event(event, &self.keys) {
            Ok(signed) => Ok(signed),
            Err(text) => {
                let message = concat2("Failed to sign event: ", text.as_str());
                Err(Error::internal(message.as_str()))
            },
        }
    }

    /// The public key of the events that the helper can sign so that they verify.
    pub fn public_key(&self) -> (r: PublicKey)
        ensures
            r == public_key_of(*self.keys),
    {
        key_of(&self.keys)
    }

    /// Verifies an event.
    pub fn verify_event(&self, event: &Event) -> (r: Result<(), Error>)
        requires
            event@.wf(),
        ensures
            verify_outcome(r, event@),
    {
        check_event(event)
    }

    /// The number of events that were verified.
    pub fn verified_count(&self) -> (r: usize)
        ensures
            r == self.verified,
    {
        self.verified
    }

    /// The number of commands that were handed to be signed.
    pub fn signed_count(&self) -> (r: usize)
        ensures
            r == self.signed,
    {
        self.signed
    }

    /// Takes a command to be signed, where it saves an event that is not signed yet.
    pub fn sign_store_command(&self, command: StoreCommand) -> (r: Result<StoreCommand, Error>)
        ensures
            match r {
                Ok(taken) => taken == command && command is SaveUnsignedEvent,
                Err(e) => !(command is SaveUnsignedEvent) && (e matches Error::Internal { message }
                    && message@ == "Expected SaveUnsignedEvent command"@),
            },
    {
        match check_sign_command(&command) {
            Ok(_) => Ok(command),
            Err(e) => Err(e),
        }
    }

    /// Verifies the events of a batch, and counts them.
    pub fn run_verify_batch(&mut self, events: &Vec<Event>) -> (r: (
        Vec<Result<(), Error>>,
        Option<BatchReport>,
    ))
        requires
            forall|i: int| 0 <= i < events@.len() ==> (#[trigger] events@[i])@.wf(),
            old(self).verified + events@.len() <= usize::MAX,
            old(self).verify_stats.batch_count < usize::MAX,
            old(self).verify_stats.batch_size_sum + events@.len() <= usize::MAX / 2,
        ensures
            r.0@.len() == events@.len(),
            forall|i: int| 0 <= i < r.0@.len() ==> verify_outcome(#[trigger] r.0@[i], events@[i]@),
            final(self).verified == old(self).verified + events@.len(),
            batch_noted(
                final(self).verify_stats,
                old(self).verify_stats,
                events@.len() as int,
                r.1,
            ),
            *final(self) == (CryptoHelper {
                verified: final(self).verified,
                verify_stats: final(self).verify_stats,
                ..*old(self)
            }),
    {
        let results = verify_batch(events);
        let count: usize = events.len();
        self.verified = self.verified + count;
        let report = self.verify_stats.record_batch(count);
        (results, report)
    }

    /// Signs the events of a batch, and counts the commands.
    pub fn run_sign_batch(&mut self, commands: Vec<StoreCommand>) -> (r: (
        Vec<Result<StoreCommand, Error>>,
        Option<BatchReport>,
    ))
        requires
            forall|i: int| 0 <= i < commands@.len() ==> can_sign(#[trigger] commands@[i]),
            old(self).signed + commands@.len() <= usize::MAX,
            old(self).sign_stats.batch_count < usize::MAX,
            old(self).sign_stats.batch_size_sum + commands@.len() <= usize::MAX / 2,
        ensures
            r.0@.len() == unsigned_commands(commands@).len(),
            forall|i: int|
                0 <= i < r.0@.len() ==> sign_outcome(
                    #[trigger] r.0@[i],
                    unsigned_commands(commands@)[i],
                    *old(self).keys,
                ),
            final(self).signed == old(self).signed + commands@.len(),
            batch_noted(
                final(self).sign_stats,
                old(self).sign_stats,
                commands@.len() as int,
                r.1,
            ),
            *final(self) == (CryptoHelper {
                signed: final(self).signed,
                sign_stats: final(self).sign_stats,
                ..*old(self)
            }),
    {
        let count: usize = commands.len();
        let results = sign_batch(commands, &self.keys);
        self.signed = self.signed + count;
        let report = self.sign_stats.record_batch(count);
        (results, report)
    }
}

/// An event of the relay's own, once it is signed, verifies, and the relay finds so.
pub proof fn law_signed_events_verify(
    event: EventView,
    unsigned: UnsignedEvent,
    keys: Keys,
    found: Result<(), Error>,
)
    requires
        is_signed(event, unsigned, keys),
        unsigned.pubkey == public_key_of(keys),
        verify_outcome(found, event),
    ensures
        event_verifies(event),
        found is Ok,
{
}

/// The number of workers where none is set.
pub const DEFAULT_WORKERS: usize = 3;

/// The room in the queue for each worker where none is set.
pub const DEFAULT_QUEUE_MULTIPLIER: usize = 100;

/// A setting: the number that it writes, or a default.
pub open spec fn setting(value: Option<Seq<char>>, default: usize) -> nat {
    match value {
        Some(text) => match parse_unsigned(text, usize::MAX as nat) {
            Some(n) => n,
            None => default as nat,
        },
        None => default as nat,
    }
}

fn read_setting(value: Option<&str>, default: usize) -> (r: usize)
    ensures
        r == setting(
            match value {
                Some(text) => Some(text@),
                None => None,
            },
            default,
        ),
{
    match value {
        Some(text) => match parse_u64_up_to(text, usize::MAX as u64) {
            Some(n) => n as usize,
            None => default,
        },
        None => default,
    }
}

/// How many workers there are, and how long their queue is.
pub struct CryptoWorker {
    pub workers: usize,
    pub queue_size: usize,
}

impl CryptoWorker {
    /// The workers that the settings ask for; none where their queue would be too long.
    pub fn spawn(workers: Option<&str>, queue_multiplier: Option<&str>) -> (r: Option<CryptoWorker>)
        ensures
            ({
                let w = setting(
                    match workers {
                        Some(text) => Some(text@),
                        None => None,
                    },
                    DEFAULT_WORKERS,
                );
                let m = setting(
                    match queue_multiplier {
                        Some(text) => Some(text@),
                        None => None,
                    },
                    DEFAULT_QUEUE_MULTIPLIER,
                );
                if w * m <= usize::MAX {
                    r matches Some(c) && c.workers == w && c.queue_size == w * m
                } else {
                    r is None
                }
            }),
    {
        let count: usize = read_setting(workers, DEFAULT_WORKERS);
        let multiplier: usize = read_setting(queue_multiplier, DEFAULT_QUEUE_MULTIPLIER);
        match count.checked_mul(multiplier) {
            Some(queue_size) => Some(CryptoWorker { workers: count, queue_size }),
            None => None,
        }
    }
}

/// The commands of a batch that are signed are those, and only those, that save events which are not
/// signed yet, in their order.
pub proof fn law_unsigned_events_are_signed(commands: Seq<StoreCommand>)
    ensures
        unsigned_commands(commands) == commands.filter(
            |command: StoreCommand| command is SaveUnsignedEvent,
        ),
    decreases commands.len(),
{
    reveal(Seq::filter);
    if commands.len() > 0 {
        law_unsigned_events_are_signed(commands.drop_last());
    }
}

/// What is known of the batches: their number, the sum and the largest of their sizes, and every
/// hundred batches a report with the average, rounded down.
pub proof fn law_batches_are_noted(
    after: BatchStats,
    before: BatchStats,
    batch_size: int,
    report: Option<BatchReport>,
)
    requires
        batch_noted(after, before, batch_size, report),
        batch_size >= 0,
    ensures
        after.batch_count == before.batch_count + 1,
        after.batch_size_sum - before.batch_size_sum == batch_size,
        after.batch_size_max >= before.batch_size_max && after.batch_size_max >= batch_size,
        after.batch_size_max == before.batch_size_max || after.batch_size_max == batch_size,
        report is Some <==> after.batch_count > 1 && (after.batch_count - 1) % 100 == 0,
        report matches Some(told) ==> {
            &&& told.batches == after.batch_count
            &&& told.average * told.batches <= after.batch_size_sum
            &&& after.batch_size_sum < (told.average + 1) * told.batches
            &&& told.maximum == after.batch_size_max
            &&& told.significantly_above_average <==> batch_size > 2 * told.average
        },
{
    if let Some(told) = report {
        let s = after.batch_size_sum as int;
        let n = after.batch_count as int;
        let q = told.average as int;
        assert(q * n <= s && s < (q + 1) * n) by (nonlinear_arith)
            requires
                n > 0,
                s >= 0,
                q == s / n,
        ;
    }
}

/// An event is found valid exactly when its identifier and signature fit it, and the reason is told
/// where they do not.
pub proof fn law_verification_is_reported(r: Result<(), Error>, event: EventView)
    requires
        verify_outcome(r, event),
    ensures
        r is Ok <==> event_verifies(event),
        r matches Err(e) ==> e is Protocol,
{
}

/// Every event that is to be signed comes back signed, with its fields as they were, in the scope
/// that it is for.
pub proof fn law_signing_keeps_the_event(
    r: Result<StoreCommand, Error>,
    unsigned: UnsignedEvent,
    scope: Scope,
    keys: Keys,
)
    requires
        sign_outcome(r, StoreCommand::SaveUnsignedEvent(unsigned, scope), keys),
    ensures
        r matches Ok(StoreCommand::SaveSignedEvent(event, s)) && s == scope && event@.pubkey
            == unsigned.pubkey && event@.created_at == unsigned.created_at && event@.kind
            == unsigned.kind && event@.content == unsigned.content@ && event@.tags == tags_view(
            unsigned.tags@,
        ) && event@.id == computed_id(
            unsigned.pubkey,
            unsigned.created_at,
            unsigned.kind,
            tags_view(unsigned.tags@),
            unsigned.content@,
        ),
{
}

/// A setting of the workers that writes a number in decimal is that number, and one that is not there
/// is the default.
pub proof fn law_worker_settings_are_read(n: usize, default: usize)
    ensures
        setting(Some(decimal(n as nat)), default) == n,
        setting(None, default) == default,
        setting(Some(Seq::empty()), default) == default,
{
    law_parse_after_decimal(n as nat, usize::MAX as nat);
}

/// The queue of the workers has room for as many events as there are workers, times the multiplier.
pub proof fn law_queue_has_room_for_the_workers(
    workers: &str,
    multiplier: &str,
    w: usize,
    m: usize,
    r: Option<CryptoWorker>,
)
    requires
        workers@ == decimal(w as nat),
        multiplier@ == decimal(m as nat),
        call_ensures(CryptoWorker::spawn, (Some(workers), Some(multiplier)), r),
    ensures
        r is Some <==> w * m <= usize::MAX,
        r matches Some(worker) ==> worker.workers == w && worker.queue_size == w * m,
{
    law_worker_settings_are_read(w, DEFAULT_WORKERS);
    law_worker_settings_are_read(m, DEFAULT_QUEUE_MULTIPLIER);
}

} // verus!
