//! The state of a connection.

use crate::error::Error;
use crate::event_processor::EventContext;
use crate::protocol::{copy_strings, opt_text, PublicKey, RelayMessage, Scope};
use crate::reconciliation::ReconciliationSession;
use crate::text::{decimal, list_contains, str_eq, u64_text, usize_text, views};
use vstd::prelude::*;

verus! {

/// What a connection is for, and the context in which its events are judged.
pub struct ConnectionMetadata {
    /// The URL that the connection is for.
    pub relay_url: String,
    /// The scope of the connection.
    pub subdomain: Scope,
    /// The context of the connection's events.
    pub event_context: EventContext,
}

impl ConnectionMetadata {
    /// The metadata of a connection that is not authenticated yet.
    pub fn new_with_context(relay_url: &str, subdomain: Scope, relay_pubkey: PublicKey) -> (r:
        ConnectionMetadata)
        ensures
            r.relay_url@ == relay_url@,
            r.subdomain == subdomain,
            r.event_context.authed_pubkey is None,
            r.event_context.subdomain@ == subdomain@,
            r.event_context.relay_pubkey == relay_pubkey,
    {
        let event_context = EventContext::new(None, &subdomain, relay_pubkey);
        ConnectionMetadata { relay_url: relay_url.to_owned(), subdomain, event_context }
    }
}

/// The settings with which a connection takes part in saving and subscribing.
pub struct CoordinatorSettings {
    pub connection_id: String,
    pub authed_pubkey: Option<PublicKey>,
    pub subdomain: Scope,
    pub max_limit: usize,
}

/// The limit of events per filter where none is given.
pub const DEFAULT_MAX_LIMIT: usize = 1000;

/// The state of a connection, with a part of type `T` that middlewares can use.
pub struct NostrConnectionState<T> {
    /// The challenge that the client has to answer to authenticate.
    pub challenge: Option<String>,
    /// The public key that the client authenticated with.
    pub authed_pubkey: Option<PublicKey>,
    /// The settings of the connection, once it is set up.
    pub coordinator: Option<CoordinatorSettings>,
    /// The largest number of subscriptions, where there is one.
    pub max_subscriptions: Option<usize>,
    /// The subscriptions that count against the quota, each once.
    pub subscription_quota_usage: Vec<String>,
    /// The sessions of the connection, by identifier.
    pub negentropy_subscriptions: Vec<(String, ReconciliationSession)>,
    /// The state of the middlewares.
    pub custom_state: T,
}

/// `rand::random`: any number.
#[verifier::external_body]
fn random_u64() -> (r: u64) {
    rand::random::<u64>()
}

/// What the client is told when it has no room for another subscription.
pub open spec fn quota_text(count: nat, max: nat) -> Seq<char> {
    "Subscription quota exceeded: "@ + decimal(count) + "/"@ + decimal(max)
}

impl<T> NostrConnectionState<T> {
    /// The identifiers of the subscriptions that count against the quota.
    pub open spec fn tracked_ids(self) -> Seq<Seq<char>> {
        views(self.subscription_quota_usage@)
    }

    /// The sessions of the connection, by identifier.
    pub open spec fn sessions(self) -> Seq<(Seq<char>, ReconciliationSession)> {
        self.negentropy_subscriptions@.map_values(
            |p: (String, ReconciliationSession)| (p.0@, p.1),
        )
    }

    /// No subscription counts twice, and no two sessions have the same identifier.
    pub open spec fn wf(self) -> bool {
        &&& self.tracked_ids().no_duplicates()
        &&& forall|i: int, j: int|
            0 <= i < j < self.sessions().len() ==> (#[trigger] self.sessions()[i]).0 != (
            #[trigger] self.sessions()[j]).0
        &&& forall|i: int| 0 <= i < self.sessions().len() ==> (#[trigger] self.sessions()[i]).1.wf()
    }

    /// Everything but the tracked subscriptions is the same.
    pub open spec fn same_but_tracked(self, other: Self) -> bool {
        self == (NostrConnectionState {
            subscription_quota_usage: self.subscription_quota_usage,
            ..other
        })
    }

    /// Everything but the sessions is the same.
    pub open spec fn same_but_sessions(self, other: Self) -> bool {
        self == (NostrConnectionState {
            negentropy_subscriptions: self.negentropy_subscriptions,
            ..other
        })
    }

    /// The state is that of a new connection.
    pub open spec fn is_fresh(self) -> bool {
        &&& self.wf()
        &&& self.challenge is None
        &&& self.authed_pubkey is None
        &&& self.coordinator is None
        &&& self.max_subscriptions is None
        &&& self.tracked_ids().len() == 0
        &&& self.sessions().len() == 0
    }

    /// The state of a new connection.
    pub fn with_custom(custom_state: T) -> (r: Result<NostrConnectionState<T>, Error>)
        ensures
            r matches Ok(state) && state.is_fresh() && state.custom_state == custom_state,
    {
        Ok(
            NostrConnectionState {
                challenge: None,
                authed_pubkey: None,
                coordinator: None,
                max_subscriptions: None,
                subscription_quota_usage: Vec::new(),
                negentropy_subscriptions: Vec::new(),
                custom_state,
            },
        )
    }

    /// Notes that the client authenticated: the key is known, the challenge is spent, and the
    /// context of the connection's events carries the key.
    pub fn set_authenticated(&mut self, pubkey: PublicKey, metadata: &mut ConnectionMetadata)
        ensures
            final(self).authed_pubkey == Some(pubkey),
            final(self).challenge is None,
            final(self).tracked_ids() == old(self).tracked_ids(),
            final(self).max_subscriptions == old(self).max_subscriptions,
            final(self).sessions() == old(self).sessions(),
            final(self).coordinator == old(self).coordinator,
            final(self).custom_state == old(self).custom_state,
            old(self).wf() ==> final(self).wf(),
            final(metadata).relay_url == old(metadata).relay_url,
            final(metadata).subdomain == old(metadata).subdomain,
            final(metadata).event_context.authed_pubkey == Some(pubkey),
            final(metadata).event_context.subdomain@ == old(metadata).event_context.subdomain@,
            final(metadata).event_context.relay_pubkey == old(metadata).event_context.relay_pubkey,
    {
        let ghost before = *self;
        self.authed_pubkey = Some(pubkey);
        self.challenge = None;
        proof {
            assert(self.sessions() == before.sessions());
            assert(self.tracked_ids() == before.tracked_ids());
        }
        metadata.event_context = EventContext::new(
            Some(pubkey),
            &metadata.event_context.subdomain,
            metadata.event_context.relay_pubkey,
        );
    }

    /// Whether the client authenticated.
    pub fn is_authenticated(&self) -> (r: bool)
        ensures
            r == (self.authed_pubkey is Some),
    {
        self.authed_pubkey.is_some()
    }

    /// Sets the connection up for saving and subscribing.
    pub fn setup_connection(
        &mut self,
        connection_id: &str,
        subdomain: &Scope,
        max_limit: Option<usize>,
    )
        ensures
            final(self).coordinator matches Some(s) && s.connection_id@ == connection_id@
                && s.authed_pubkey == old(self).authed_pubkey && s.subdomain@ == subdomain@
                && s.max_limit == (match max_limit {
                Some(limit) => limit,
                None => DEFAULT_MAX_LIMIT,
            }),
            final(self).challenge == old(self).challenge,
            final(self).authed_pubkey == old(self).authed_pubkey,
            final(self).tracked_ids() == old(self).tracked_ids(),
            final(self).max_subscriptions == old(self).max_subscriptions,
            final(self).sessions() == old(self).sessions(),
            final(self).custom_state == old(self).custom_state,
            old(self).wf() ==> final(self).wf(),
    {
        let ghost before = *self;
        self.coordinator = Some(
            CoordinatorSettings {
                connection_id: connection_id.to_owned(),
                authed_pubkey: self.authed_pubkey,
                subdomain: subdomain.copy(),
                max_limit: max_limit.unwrap_or(DEFAULT_MAX_LIMIT),
            },
        );
        proof {
            assert(self.sessions() == before.sessions());
            assert(self.tracked_ids() == before.tracked_ids());
        }
    }

    /// The settings of the connection; an error before it is set up.
    pub fn subscription_coordinator(&self) -> (r: Result<&CoordinatorSettings, Error>)
        ensures
            match r {
                Ok(settings) => self.coordinator == Some(*settings),
                Err(e) => self.coordinator is None && (e matches Error::Internal { message }
                    && message@ == "No subscription coordinator available"@),
            },
    {
        match &self.coordinator {
            Some(settings) => Ok(settings),
            None => Err(Error::internal("No subscription coordinator available")),
        }
    }

    /// The challenge message: the pending challenge, or the given one where none is pending.
    pub fn challenge_event_with(&mut self, number: u64) -> (r: RelayMessage)
        ensures
            final(self).challenge is Some,
            opt_text(final(self).challenge) == match old(self).challenge {
                Some(challenge) => Some(challenge@),
                None => Some(decimal(number as nat)),
            },
            r matches RelayMessage::Auth { challenge } && Some(challenge@) == opt_text(
                final(self).challenge,
            ),
            final(self).authed_pubkey == old(self).authed_pubkey,
            final(self).tracked_ids() == old(self).tracked_ids(),
            final(self).max_subscriptions == old(self).max_subscriptions,
            final(self).sessions() == old(self).sessions(),
            final(self).coordinator == old(self).coordinator,
            final(self).custom_state == old(self).custom_state,
            old(self).wf() ==> final(self).wf(),
    {
        let ghost before = *self;
        let challenge = match &self.challenge {
            Some(challenge) => challenge.clone(),
            None => u64_text(number),
        };
        if self.challenge.is_none() {
            self.challenge = Some(challenge.clone());
        }
        proof {
            assert(self.sessions() == before.sessions());
            assert(self.tracked_ids() == before.tracked_ids());
        }
        RelayMessage::Auth { challenge }
    }

    /// The challenge message: the pending challenge, or a new one made of a random number.
    pub fn get_challenge_event(&mut self) -> (r: RelayMessage)
        ensures
            final(self).challenge is Some,
            old(self).challenge is Some ==> opt_text(final(self).challenge) == opt_text(
                old(self).challenge,
            ),
            old(self).challenge is None ==> exists|number: u64|
                opt_text(final(self).challenge) == Some(#[trigger] decimal(number as nat)),
            r matches RelayMessage::Auth { challenge } && Some(challenge@) == opt_text(
                final(self).challenge,
            ),
            final(self).authed_pubkey == old(self).authed_pubkey,
            final(self).tracked_ids() == old(self).tracked_ids(),
            final(self).max_subscriptions == old(self).max_subscriptions,
            final(self).sessions() == old(self).sessions(),
            final(self).coordinator == old(self).coordinator,
            final(self).custom_state == old(self).custom_state,
            old(self).wf() ==> final(self).wf(),
    {
        if self.challenge.is_some() {
            self.challenge_event_with(0)
        } else {
            let number: u64 = random_u64();
            self.challenge_event_with(number)
        }
    }

    /// Whether there is room for another subscription.
    pub fn can_accept_subscription(&self) -> (r: bool)
        ensures
            r == (self.max_subscriptions matches Some(max) ==> self.tracked_ids().len() < max),
    {
        match self.max_subscriptions {
            Some(max) => self.subscription_quota_usage.len() < max,
            None => true,
        }
    }

    /// The number of subscriptions that count against the quota.
    pub fn subscription_count(&self) -> (r: usize)
        ensures
            r == self.tracked_ids().len(),
    {
        self.subscription_quota_usage.len()
    }

    /// The room that is left, where there is a limit.
    pub fn remaining_subscription_capacity(&self) -> (r: Option<usize>)
        ensures
            match self.max_subscriptions {
                Some(max) => r == Some(
                    if max >= self.tracked_ids().len() {
                        (max - self.tracked_ids().len()) as usize
                    } else {
                        0
                    },
                ),
                None => r is None,
            },
    {
        match self.max_subscriptions {
            Some(max) => Some(max.saturating_sub(self.subscription_quota_usage.len())),
            None => None,
        }
    }

    /// Whether a subscription would be refused: it is new and the quota is used up.
    pub open spec fn over_quota(self, subscription_id: Seq<char>) -> bool {
        &&& !self.tracked_ids().contains(subscription_id)
        &&& self.max_subscriptions matches Some(max) && self.tracked_ids().len() >= max
    }

    /// No more subscriptions count than the quota allows.
    pub open spec fn within_quota(self) -> bool {
        self.max_subscriptions matches Some(max) ==> self.tracked_ids().len() <= max
    }

    /// Checks that a subscription would find room; one that is there already does.
    pub fn check_quota(&self, subscription_id: &str) -> (r: Result<(), Error>)
        ensures
            match r {
                Ok(_) => !self.over_quota(subscription_id@),
                Err(e) => self.over_quota(subscription_id@) && (e matches Error::Restricted { message }
                    && message@ == quota_text(
                    self.tracked_ids().len(),
                    self.max_subscriptions->0 as nat,
                )),
            },
    {
        if list_contains(&self.subscription_quota_usage, subscription_id) {
            return Ok(());
        }
        if let Some(max) = self.max_subscriptions {
            let count: usize = self.subscription_quota_usage.len();
            if count >= max {
                let mut message = String::from_str("Subscription quota exceeded: ");
                message.append(usize_text(count).as_str());
                message.append("/");
                message.append(usize_text(max).as_str());
                return Err(Error::restricted(message.as_str()));
            }
        }
        Ok(())
    }

    /// Reserves room for a subscription. One that is there already takes none.
    pub fn reserve_quota_slot(&mut self, subscription_id: &str) -> (r: Result<(), Error>)
        requires
            old(self).wf(),
        ensures
            final(self).wf(),
            final(self).same_but_tracked(*old(self)),
            old(self).within_quota() ==> final(self).within_quota(),
            match r {
                Ok(_) => !old(self).over_quota(subscription_id@) && final(self).tracked_ids() == if old(
                    self,
                ).tracked_ids().contains(subscription_id@) {
                    old(self).tracked_ids()
                } else {
                    old(self).tracked_ids().push(subscription_id@)
                },
                Err(e) => old(self).over_quota(subscription_id@) && final(self).tracked_ids() == old(
                    self,
                ).tracked_ids() && (e matches Error::Restricted { message } && message@
                    == quota_text(old(self).tracked_ids().len(), old(self).max_subscriptions->0 as nat)),
            },
    {
        match self.check_quota(subscription_id) {
            Ok(_) => {
                self.add_subscription(subscription_id);
                Ok(())
            },
            Err(e) => Err(e),
        }
    }

    /// Counts a subscription, whatever the quota is.
    pub fn add_subscription(&mut self, subscription_id: &str)
        requires
            old(self).wf(),
        ensures
            final(self).wf(),
            final(self).same_but_tracked(*old(self)),
            final(self).tracked_ids() == if old(self).tracked_ids().contains(subscription_id@) {
                old(self).tracked_ids()
            } else {
                old(self).tracked_ids().push(subscription_id@)
            },
    {
        let ghost ids = self.tracked_ids();
        let ghost before = *self;
        if !list_contains(&self.subscription_quota_usage, subscription_id) {
            self.subscription_quota_usage.push(subscription_id.to_owned());
            proof {
                assert(self.tracked_ids() =~= ids.push(subscription_id@));
                assert(self.sessions() == before.sessions());
            }
        }
    }

    /// Gives the room of a subscription back; says whether it had any.
    pub fn release_quota_slot(&mut self, subscription_id: &str) -> (r: bool)
        requires
            old(self).wf(),
        ensures
            final(self).wf(),
            final(self).same_but_tracked(*old(self)),
            old(self).within_quota() ==> final(self).within_quota(),
            r == old(self).tracked_ids().contains(subscription_id@),
            !final(self).tracked_ids().contains(subscription_id@),
            r ==> !final(self).over_quota(subscription_id@) || !old(self).within_quota(),
            final(self).tracked_ids() == if r {
                old(self).tracked_ids().remove(old(self).tracked_ids().index_of(subscription_id@))
            } else {
                old(self).tracked_ids()
            },
    {
        let ghost ids = self.tracked_ids();
        let ghost before = *self;
        let mut i: usize = 0;
        while i < self.subscription_quota_usage.len()
            invariant
                i <= self.subscription_quota_usage@.len(),
                *self == before,
                before == *old(self),
                ids == self.tracked_ids(),
                self.wf(),
                forall|j: int| 0 <= j < i ==> #[trigger] ids[j] != subscription_id@,
            decreases self.subscription_quota_usage@.len() - i,
        {
            if str_eq(self.subscription_quota_usage[i].as_str(), subscription_id) {
                proof {
                    assert(ids[i as int] == subscription_id@);
                    let k = ids.index_of(subscription_id@);
                    assert(0 <= k < ids.len() && ids[k] == subscription_id@);
                }
                self.subscription_quota_usage.remove(i);
                proof {
                    assert(self.tracked_ids() =~= ids.remove(i as int));
                    let r = ids.remove(i as int);
                    assert forall|a: int, b: int|
                        0 <= a < r.len() && 0 <= b < r.len() && a != b implies r[a] != r[b] by {
                        let a2 = if a < i { a } else { a + 1 };
                        let b2 = if b < i { b } else { b + 1 };
                        assert(ids[a2] != ids[b2]);
                    }
                    assert(self.sessions() == before.sessions());
                    if r.contains(subscription_id@) {
                        let a = choose|a: int| 0 <= a < r.len() && r[a] == subscription_id@;
                        let a2 = if a < i { a } else { a + 1 };
                        assert(ids[a2] != ids[i as int]);
                    }
                }
                return true;
            }
            i = i + 1;
        }
        false
    }

    /// Gives the room of a subscription back; says whether it had any.
    pub fn remove_tracked_subscription(&mut self, subscription_id: &str) -> (r: bool)
        requires
            old(self).wf(),
        ensures
            final(self).wf(),
            final(self).same_but_tracked(*old(self)),
            r == old(self).tracked_ids().contains(subscription_id@),
            final(self).tracked_ids() == if r {
                old(self).tracked_ids().remove(old(self).tracked_ids().index_of(subscription_id@))
            } else {
                old(self).tracked_ids()
            },
    {
        self.release_quota_slot(subscription_id)
    }

    /// Sets the largest number of subscriptions.
    pub fn set_max_subscriptions(&mut self, max: Option<usize>)
        ensures
            final(self).max_subscriptions == max,
            final(self).challenge == old(self).challenge,
            final(self).authed_pubkey == old(self).authed_pubkey,
            final(self).tracked_ids() == old(self).tracked_ids(),
            final(self).sessions() == old(self).sessions(),
            final(self).coordinator == old(self).coordinator,
            final(self).custom_state == old(self).custom_state,
            old(self).wf() ==> final(self).wf(),
    {
        let ghost before = *self;
        self.max_subscriptions = max;
        proof {
            assert(self.sessions() == before.sessions());
            assert(self.tracked_ids() == before.tracked_ids());
        }
    }

    /// The place of a session.
    pub open spec fn session_at(self, subscription_id: Seq<char>, i: int) -> bool {
        0 <= i < self.sessions().len() && self.sessions()[i].0 == subscription_id
    }

    /// There is a session with the identifier.
    pub open spec fn has_session(self, subscription_id: Seq<char>) -> bool {
        exists|i: int| self.session_at(subscription_id, i)
    }

    fn session_index(&self, subscription_id: &str) -> (r: Option<usize>)
        ensures
            match r {
                Some(i) => self.session_at(subscription_id@, i as int),
                None => !self.has_session(subscription_id@),
            },
    {
        let mut i: usize = 0;
        while i < self.negentropy_subscriptions.len()
            invariant
                i <= self.negentropy_subscriptions@.len(),
                forall|j: int| 0 <= j < i ==> !self.session_at(subscription_id@, j),
            decreases self.negentropy_subscriptions@.len() - i,
        {
            if str_eq(self.negentropy_subscriptions[i].0.as_str(), subscription_id) {
                return Some(i);
            }
            i = i + 1;
        }
        None
    }

    /// Keeps a session; one with the same identifier is replaced.
    pub fn add_negentropy_subscription(
        &mut self,
        subscription_id: &str,
        session: ReconciliationSession,
    )
        requires
            old(self).wf(),
            session.wf(),
        ensures
            final(self).wf(),
            final(self).same_but_sessions(*old(self)),
            !old(self).has_session(subscription_id@) ==> final(self).sessions() == old(
                self,
            ).sessions().push((subscription_id@, session)),
            forall|i: int|
                old(self).session_at(subscription_id@, i) ==> final(self).sessions() == #[trigger] old(
                    self,
                ).sessions().update(i, (subscription_id@, session)),
    {
        let ghost before = *self;
        match self.session_index(subscription_id) {
            Some(i) => {
                self.negentropy_subscriptions.set(i, (subscription_id.to_owned(), session));
                proof {
                    let after = before.sessions().update(i as int, (subscription_id@, session));
                    assert(self.sessions() =~= after);
                    assert(self.tracked_ids() == before.tracked_ids());
                    assert forall|a: int, b: int| 0 <= a < b < self.sessions().len() implies (
                    #[trigger] self.sessions()[a]).0 != (#[trigger] self.sessions()[b]).0 by {
                        assert(before.sessions()[a].0 != before.sessions()[b].0);
                    }
                    assert forall|j: int| before.session_at(
                        subscription_id@,
                        j,
                    ) implies self.sessions() == #[trigger] before.sessions().update(
                        j,
                        (subscription_id@, session),
                    ) by {
                        if j < i {
                            assert(before.sessions()[j].0 != before.sessions()[i as int].0);
                        } else if i < j {
                            assert(before.sessions()[i as int].0 != before.sessions()[j].0);
                        }
                    }
                }
            },
            None => {
                self.negentropy_subscriptions.push((subscription_id.to_owned(), session));
                proof {
                    assert(self.sessions() =~= before.sessions().push((subscription_id@, session)));
                    assert(self.tracked_ids() == before.tracked_ids());
                    assert forall|a: int, b: int| 0 <= a < b < self.sessions().len() implies (
                    #[trigger] self.sessions()[a]).0 != (#[trigger] self.sessions()[b]).0 by {
                        if b < before.sessions().len() {
                            assert(before.sessions()[a].0 != before.sessions()[b].0);
                        } else {
                            assert(!before.session_at(subscription_id@, a));
                        }
                    }
                }
            },
        }
    }

    /// Whether there is a session with the identifier.
    pub fn has_negentropy_subscription(&self, subscription_id: &str) -> (r: bool)
        ensures
            r == self.has_session(subscription_id@),
    {
        match self.session_index(subscription_id) {
            Some(i) => {
                proof {
                    assert(self.session_at(subscription_id@, i as int));
                }
                true
            },
            None => false,
        }
    }

    /// Lets a session answer a message, where there is one with the identifier.
    pub fn reconcile_with(&mut self, subscription_id: &str, query: &Vec<u8>) -> (r: Option<
        Result<Vec<u8>, String>,
    >)
        requires
            old(self).wf(),
        ensures
            final(self).wf(),
            final(self).same_but_sessions(*old(self)),
            final(self).sessions().len() == old(self).sessions().len(),
            forall|i: int|
                0 <= i < old(self).sessions().len() ==> (#[trigger] final(self).sessions()[i]).0 == old(
                    self,
                ).sessions()[i].0 && final(self).sessions()[i].1.items() == old(
                    self,
                ).sessions()[i].1.items(),
            r is Some <==> old(self).has_session(subscription_id@),
            forall|i: int|
                old(self).session_at(subscription_id@, i) ==> answer_fits(
                    r->0,
                    (#[trigger] old(self).sessions()[i]).1,
                    query@,
                ),
    {
        let ghost before = *self;
        match self.session_index(subscription_id) {
            Some(i) => {
                let mut entry = self.negentropy_subscriptions.remove(i);
                proof {
                    assert(before.sessions()[i as int] == (entry.0@, entry.1));
                }
                let answer = entry.1.reconcile(query);
                self.negentropy_subscriptions.insert(i, entry);
                proof {
                    let after = before.sessions().update(i as int, (entry.0@, entry.1));
                    assert(self.sessions() =~= after);
                    assert(self.tracked_ids() == before.tracked_ids());
                    assert forall|a: int, b: int| 0 <= a < b < self.sessions().len() implies (
                    #[trigger] self.sessions()[a]).0 != (#[trigger] self.sessions()[b]).0 by {
                        assert(before.sessions()[a].0 != before.sessions()[b].0);
                    }
                    assert forall|j: int| before.session_at(
                        subscription_id@,
                        j,
                    ) implies answer_fits(
                        answer,
                        (#[trigger] before.sessions()[j]).1,
                        query@,
                    ) by {
                        if j < i {
                            assert(before.sessions()[j].0 != before.sessions()[i as int].0);
                        } else if i < j {
                            assert(before.sessions()[i as int].0 != before.sessions()[j].0);
                        }
                    }
                }
                Some(answer)
            },
            None => None,
        }
    }

    /// Ends a session; says whether there was one.
    pub fn remove_negentropy_subscription(&mut self, subscription_id: &str) -> (r: bool)
        requires
            old(self).wf(),
        ensures
            final(self).wf(),
            final(self).same_but_sessions(*old(self)),
            r == old(self).has_session(subscription_id@),
            !r ==> final(self).sessions() == old(self).sessions(),
            forall|i: int|
                old(self).session_at(subscription_id@, i) ==> final(self).sessions() == #[trigger] old(
                    self,
                ).sessions().remove(i),
            !final(self).has_session(subscription_id@),
    {
        let ghost before = *self;
        match self.session_index(subscription_id) {
            Some(i) => {
                self.negentropy_subscriptions.remove(i);
                proof {
                    assert(self.sessions() =~= before.sessions().remove(i as int));
                    assert(self.tracked_ids() == before.tracked_ids());
                    assert forall|a: int, b: int| 0 <= a < b < self.sessions().len() implies (
                    #[trigger] self.sessions()[a]).0 != (#[trigger] self.sessions()[b]).0 by {
                        let a2 = if a < i { a } else { a + 1 };
                        let b2 = if b < i { b } else { b + 1 };
                        assert(before.sessions()[a2].0 != before.sessions()[b2].0);
                    }
                    assert forall|j: int| before.session_at(
                        subscription_id@,
                        j,
                    ) implies self.sessions() == #[trigger] before.sessions().remove(j) by {
                        if j < i {
                            assert(before.sessions()[j].0 != before.sessions()[i as int].0);
                        } else if i < j {
                            assert(before.sessions()[i as int].0 != before.sessions()[j].0);
                        }
                    }
                    if self.has_session(subscription_id@) {
                        let a = choose|a: int| self.session_at(subscription_id@, a);
                        if a < i {
                            assert(before.sessions()[a].0 != before.sessions()[i as int].0);
                        } else {
                            assert(before.sessions()[i as int].0 != before.sessions()[a + 1].0);
                        }
                    }
                    assert forall|a: int| 0 <= a < self.sessions().len() implies (
                    #[trigger] self.sessions()[a]).1.wf() by {
                        let a2 = if a < i { a } else { a + 1 };
                        assert(before.sessions()[a2].1.wf());
                    }
                }
                true
            },
            None => false,
        }
    }

    /// The number of sessions.
    pub fn negentropy_subscription_count(&self) -> (r: usize)
        ensures
            r == self.sessions().len(),
    {
        self.negentropy_subscriptions.len()
    }
}

impl CoordinatorSettings {
    /// A copy of the settings.
    pub fn copy(&self) -> (r: CoordinatorSettings)
        ensures
            same_settings(r, *self),
    {
        CoordinatorSettings {
            connection_id: self.connection_id.clone(),
            authed_pubkey: self.authed_pubkey,
            subdomain: self.subdomain.copy(),
            max_limit: self.max_limit,
        }
    }
}

/// The settings say the same.
pub open spec fn same_settings(a: CoordinatorSettings, b: CoordinatorSettings) -> bool {
    &&& a.connection_id@ == b.connection_id@
    &&& a.authed_pubkey == b.authed_pubkey
    &&& a.subdomain@ == b.subdomain@
    &&& a.max_limit == b.max_limit
}

impl<T: Clone> Clone for NostrConnectionState<T> {
    /// A copy of the state. The sessions belong to the connection, and the copy has none. What
    /// middlewares keep is cloned as its type says: where `T` is a shared handle, such as a lock
    /// behind an `Arc`, the copy holds the same handle, and a change through one shows in the
    /// other.
    fn clone(&self) -> (r: NostrConnectionState<T>)
        ensures
            opt_text(r.challenge) == opt_text(self.challenge),
            r.authed_pubkey == self.authed_pubkey,
            match (r.coordinator, self.coordinator) {
                (Some(a), Some(b)) => same_settings(a, b),
                (None, None) => true,
                _ => false,
            },
            r.max_subscriptions == self.max_subscriptions,
            r.tracked_ids() == self.tracked_ids(),
            r.sessions().len() == 0,
            call_ensures(T::clone, (&self.custom_state,), r.custom_state),
            self.wf() ==> r.wf(),
    {
        let challenge = match &self.challenge {
            Some(text) => Some(text.clone()),
            None => None,
        };
        let coordinator = match &self.coordinator {
            Some(settings) => Some(settings.copy()),
            None => None,
        };
        let usage = copy_strings(&self.subscription_quota_usage);
        proof {
            assert(views(usage@) =~= views(self.subscription_quota_usage@));
        }
        NostrConnectionState {
            challenge,
            authed_pubkey: self.authed_pubkey,
            coordinator,
            max_subscriptions: self.max_subscriptions,
            subscription_quota_usage: usage,
            negentropy_subscriptions: Vec::new(),
            custom_state: self.custom_state.clone(),
        }
    }
}

impl<T: Default> NostrConnectionState<T> {
    /// The state of a new connection, with the default state of the middlewares.
    pub fn new() -> (r: Result<NostrConnectionState<T>, Error>)
        ensures
            r matches Ok(state) && state.is_fresh() && call_ensures(
                T::default,
                (),
                state.custom_state,
            ),
    {
        NostrConnectionState::with_custom(T::default())
    }
}

impl<T: Default> Default for NostrConnectionState<T> {
    fn default() -> (r: NostrConnectionState<T>)
        ensures
            r.is_fresh(),
            call_ensures(T::default, (), r.custom_state),
    {
        NostrConnectionState {
            challenge: None,
            authed_pubkey: None,
            coordinator: None,
            max_subscriptions: None,
            subscription_quota_usage: Vec::new(),
            negentropy_subscriptions: Vec::new(),
            custom_state: T::default(),
        }
    }
}

/// The answer is that of the session.
pub open spec fn answer_fits(
    answer: Result<Vec<u8>, String>,
    session: ReconciliationSession,
    query: Seq<u8>,
) -> bool {
    let expected = crate::reconciliation::reconciled(
        session.items(),
        crate::reconciliation::FRAME_LIMIT,
        query,
    );
    match answer {
        Ok(bytes) => expected == Ok::<Seq<u8>, Seq<char>>(bytes@),
        Err(e) => expected == Err::<Seq<u8>, Seq<char>>(e@),
    }
}

/// A subscription finds room exactly where the connection has it already, has no limit, or has fewer
/// subscriptions than its limit; and there is room for a new one exactly where some capacity is left.
pub proof fn law_quota_decides_by_the_limit<T>(
    state: NostrConnectionState<T>,
    id: &str,
    checked: Result<(), Error>,
    accepts: bool,
    left: Option<usize>,
)
    requires
        call_ensures(NostrConnectionState::<T>::check_quota, (&state, id), checked),
        call_ensures(NostrConnectionState::<T>::can_accept_subscription, (&state,), accepts),
        call_ensures(NostrConnectionState::<T>::remaining_subscription_capacity, (&state,), left),
    ensures
        checked is Ok <==> state.tracked_ids().contains(id@) || state.max_subscriptions is None
            || state.tracked_ids().len() < state.max_subscriptions->0,
        checked matches Err(e) ==> e is Restricted,
        !state.tracked_ids().contains(id@) ==> (checked is Ok <==> accepts),
        accepts <==> left is None || left->0 > 0,
        left matches Some(n) ==> (state.within_quota() ==> state.tracked_ids().len() + n
            == state.max_subscriptions->0),
{
}

/// A refusal for want of room names how many subscriptions the connection has, and how many it may
/// have.
pub proof fn law_refusals_name_the_quota<T>(
    state: NostrConnectionState<T>,
    id: &str,
    checked: Result<(), Error>,
)
    requires
        call_ensures(NostrConnectionState::<T>::check_quota, (&state, id), checked),
    ensures
        checked matches Err(e) ==> (e matches Error::Restricted { message }
            && state.max_subscriptions is Some && message@ == "Subscription quota exceeded: "@
            + decimal(state.tracked_ids().len()) + "/"@ + decimal(
            state.max_subscriptions->0 as nat,
        )),
{
}

} // verus!
