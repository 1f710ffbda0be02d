//! The number of active subscriptions: what the changes that a registry reports add up to.

use crate::index_model::GroupKey;
use crate::metrics::{total_amount, SubscriptionChange};
use crate::protocol::{EventView, FilterView, PublicKey};
use crate::subscription_registry::{lemma_pairs_finite, ConnectionView, RegistryView};
use vstd::prelude::*;

verus! {

impl RegistryView {
    /// There are finitely many connections, and none has a subscription twice.
    pub open spec fn distinct(self) -> bool {
        &&& self.connections.dom().finite()
        &&& forall|c: Seq<char>| #[trigger]
            self.connections.contains_key(c)
                ==> self.connections[c].subscriptions.no_duplicates()
    }

    /// The subscriptions of the registered connections.
    pub open spec fn active_subscriptions(self) -> Set<GroupKey> {
        Set::new(
            |g: GroupKey|
                self.connections.dom().contains(g.0)
                    && self.connections[g.0].subscriptions.contains(g.1),
        )
    }

    /// The number of subscriptions of the registered connections.
    pub open spec fn active(self) -> nat {
        self.active_subscriptions().len()
    }
}

/// The active subscriptions are those of one connection and those of the others.
pub proof fn lemma_active_split(v: RegistryView, others: RegistryView, connection: Seq<char>)
    requires
        v.distinct(),
        v.connections.contains_key(connection),
        others.connections == v.connections.remove(connection),
    ensures
        v.active_subscriptions().finite(),
        v.active() == others.active() + v.connections[connection].subscriptions.len(),
{
    let all = v.active_subscriptions();
    let rest = others.active_subscriptions();
    let subs = v.connections[connection].subscriptions;
    let mine = subs.map_values(|s: Seq<char>| (connection, s));
    lemma_pairs_finite(v, v.connections.dom());
    lemma_pairs_finite(others, others.connections.dom());
    assert forall|g: GroupKey| #[trigger]
        all.contains(g) <==> rest.union(mine.to_set()).contains(g) by {
        if g.0 == connection && subs.contains(g.1) {
            let k = choose|k: int| 0 <= k < subs.len() && subs[k] == g.1;
            assert(mine[k] == g);
        }
        if mine.contains(g) {
            let k = choose|k: int| 0 <= k < mine.len() && mine[k] == g;
            assert(subs[k] == g.1);
        }
    }
    assert(all =~= rest.union(mine.to_set()));
    assert(rest.disjoint(mine.to_set())) by {
        assert forall|g: GroupKey| rest.contains(g) implies !#[trigger] mine.to_set().contains(
            g,
        ) by {
            if mine.contains(g) {
                let k = choose|k: int| 0 <= k < mine.len() && mine[k] == g;
                assert(g.0 == connection);
            }
        }
    }
    assert(mine.no_duplicates()) by {
        assert forall|i: int, j: int|
            0 <= i < mine.len() && 0 <= j < mine.len() && i != j implies mine[i] != mine[j] by {
            assert(subs[i] != subs[j]);
        }
    }
    vstd::seq_lib::seq_to_set_is_finite(mine);
    mine.unique_seq_to_set();
    vstd::set_lib::lemma_set_disjoint_lens(rest, mine.to_set());
}

/// Registering a connection under an identifier that is not in use leaves the number of active
/// subscriptions.
pub proof fn law_registering_counts_nothing(
    v: RegistryView,
    connection: Seq<char>,
    auth_pubkey: Option<PublicKey>,
    scope: Option<Seq<char>>,
)
    requires
        v.distinct(),
        !v.connections.contains_key(connection),
    ensures
        v.registered(connection, auth_pubkey, scope).distinct(),
        v.registered(connection, auth_pubkey, scope).active() == v.active(),
{
    let r = v.registered(connection, auth_pubkey, scope);
    assert(r.connections.remove(connection) =~= v.connections);
    lemma_active_split(r, v, connection);
}

/// Subscribing makes one active subscription more where the connection did not have the
/// subscription, and else none.
pub proof fn law_subscribing_counts_one(
    v: RegistryView,
    connection: Seq<char>,
    subscription: Seq<char>,
    filters: Seq<FilterView>,
)
    requires
        v.distinct(),
        v.connections.contains_key(connection),
    ensures
        v.subscribed(connection, subscription, filters).distinct(),
        v.subscribed(connection, subscription, filters).active() == v.active()
            + v.subscribe_change(connection, subscription).amount(),
{
    let r = v.subscribed(connection, subscription, filters);
    let subs = v.connections[connection].subscriptions;
    let others = v.cleaned(connection);
    assert(others.connections =~= v.connections.remove(connection));
    assert(others.connections =~= r.connections.remove(connection));
    assert(r.connections[connection].subscriptions.no_duplicates()) by {
        if !subs.contains(subscription) {
            let more = subs.push(subscription);
            assert forall|i: int, j: int|
                0 <= i < more.len() && 0 <= j < more.len() && i != j implies more[i] != more[j] by {
                if i < subs.len() && j < subs.len() {
                    assert(subs[i] != subs[j]);
                } else if i < subs.len() {
                    assert(subs.contains(subs[i]));
                } else {
                    assert(subs.contains(subs[j]));
                }
            }
        }
    }
    lemma_active_split(v, others, connection);
    lemma_active_split(r, others, connection);
}

/// Unsubscribing makes one active subscription less.
pub proof fn law_unsubscribing_counts_one(
    v: RegistryView,
    connection: Seq<char>,
    subscription: Seq<char>,
)
    requires
        v.distinct(),
        v.connections.contains_key(connection),
        v.connections[connection].subscriptions.contains(subscription),
    ensures
        v.unsubscribed(connection, subscription).distinct(),
        v.unsubscribed(connection, subscription).active() == v.active() - 1,
{
    let r = v.unsubscribed(connection, subscription);
    let subs = v.connections[connection].subscriptions;
    let at = subs.index_of(subscription);
    let others = v.cleaned(connection);
    assert(0 <= at < subs.len());
    assert(others.connections =~= v.connections.remove(connection));
    assert(others.connections =~= r.connections.remove(connection));
    assert(subs.remove(at).no_duplicates()) by {
        let less = subs.remove(at);
        assert forall|i: int, j: int|
            0 <= i < less.len() && 0 <= j < less.len() && i != j implies less[i] != less[j] by {
            let i2 = if i < at { i } else { i + 1 };
            let j2 = if j < at { j } else { j + 1 };
            assert(subs[i2] != subs[j2]);
        }
    }
    lemma_active_split(v, others, connection);
    lemma_active_split(r, others, connection);
}

/// Cleaning a connection up takes its subscriptions away, and no others.
pub proof fn law_cleaning_counts_subscriptions(v: RegistryView, connection: Seq<char>)
    requires
        v.distinct(),
    ensures
        v.cleaned(connection).distinct(),
        v.cleaned(connection).active() == v.active() - if v.connections.contains_key(connection) {
            v.connections[connection].subscriptions.len() as int
        } else {
            0
        },
{
    if v.connections.contains_key(connection) {
        lemma_active_split(v, v.cleaned(connection), connection);
    }
}

/// Distributing an event leaves the active subscriptions.
pub proof fn law_distributing_counts_nothing(
    v: RegistryView,
    scope: Option<Seq<char>>,
    e: EventView,
)
    ensures
        v.after_event(scope, e).active_subscriptions() == v.active_subscriptions(),
        v.after_event(scope, e).active() == v.active(),
{
    assert(v.after_event(scope, e).active_subscriptions() =~= v.active_subscriptions());
}

/// A change of a registry. A batch of deliveries is settled by cleaning up, one by one, the
/// connections that were not reached.
pub enum RegistryStep {
    Register { connection: Seq<char>, auth_pubkey: Option<PublicKey>, scope: Option<Seq<char>> },
    Subscribe { connection: Seq<char>, subscription: Seq<char>, filters: Seq<FilterView> },
    Unsubscribe { connection: Seq<char>, subscription: Seq<char> },
    Cleanup { connection: Seq<char> },
    Distribute { scope: Option<Seq<char>>, event: EventView },
}

impl RegistryView {
    /// What subscribing reports.
    pub open spec fn subscribe_change(
        self,
        connection: Seq<char>,
        subscription: Seq<char>,
    ) -> SubscriptionChange {
        if self.connections[connection].subscriptions.contains(subscription) {
            SubscriptionChange::Unchanged
        } else {
            SubscriptionChange::Added
        }
    }

    /// The registry after a step.
    pub open spec fn stepped(self, step: RegistryStep) -> RegistryView {
        match step {
            RegistryStep::Register { connection, auth_pubkey, scope } => self.registered(
                connection,
                auth_pubkey,
                scope,
            ),
            RegistryStep::Subscribe { connection, subscription, filters } => {
                if self.connections.contains_key(connection) {
                    self.subscribed(connection, subscription, filters)
                } else {
                    self
                }
            },
            RegistryStep::Unsubscribe { connection, subscription } => {
                if self.connections.contains_key(connection)
                    && self.connections[connection].subscriptions.contains(subscription) {
                    self.unsubscribed(connection, subscription)
                } else {
                    self
                }
            },
            RegistryStep::Cleanup { connection } => self.cleaned(connection),
            RegistryStep::Distribute { scope, event } => self.after_event(scope, event),
        }
    }

    /// What a step reports.
    pub open spec fn step_change(self, step: RegistryStep) -> SubscriptionChange {
        match step {
            RegistryStep::Subscribe { connection, subscription, filters } => {
                if self.connections.contains_key(connection) {
                    self.subscribe_change(connection, subscription)
                } else {
                    SubscriptionChange::Unchanged
                }
            },
            RegistryStep::Unsubscribe { connection, subscription } => {
                if self.connections.contains_key(connection)
                    && self.connections[connection].subscriptions.contains(subscription) {
                    SubscriptionChange::Removed(1)
                } else {
                    SubscriptionChange::Unchanged
                }
            },
            RegistryStep::Cleanup { connection } => self.cleanup_change(connection),
            _ => SubscriptionChange::Unchanged,
        }
    }

    /// A connection is registered under an identifier that is not in use, and the number of
    /// subscriptions of one that is cleaned up fits in a machine word.
    pub open spec fn admits(self, step: RegistryStep) -> bool {
        match step {
            RegistryStep::Register { connection, .. } => !self.connections.contains_key(connection),
            RegistryStep::Cleanup { connection } => self.connections.contains_key(connection)
                ==> self.connections[connection].subscriptions.len() <= usize::MAX,
            _ => true,
        }
    }

    /// The registry after a list of steps.
    pub open spec fn after_steps(self, steps: Seq<RegistryStep>) -> RegistryView
        decreases steps.len(),
    {
        if steps.len() == 0 {
            self
        } else {
            self.after_steps(steps.drop_last()).stepped(steps.last())
        }
    }

    /// What a list of steps reports.
    pub open spec fn step_changes(self, steps: Seq<RegistryStep>) -> Seq<SubscriptionChange> {
        Seq::new(steps.len(), |i: int| self.after_steps(steps.take(i)).step_change(steps[i]))
    }

    /// Each step of a list is admitted where it is taken.
    pub open spec fn admits_steps(self, steps: Seq<RegistryStep>) -> bool {
        forall|i: int|
            0 <= i < steps.len() ==> #[trigger] self.after_steps(steps.take(i)).admits(steps[i])
    }
}

/// What a step reports is the change of the number of active subscriptions.
pub proof fn law_step_reports_change(v: RegistryView, step: RegistryStep)
    requires
        v.distinct(),
        v.admits(step),
    ensures
        v.stepped(step).distinct(),
        v.stepped(step).active() == v.active() + v.step_change(step).amount(),
{
    match step {
        RegistryStep::Register { connection, auth_pubkey, scope } => {
            law_registering_counts_nothing(v, connection, auth_pubkey, scope);
        },
        RegistryStep::Subscribe { connection, subscription, filters } => {
            if v.connections.contains_key(connection) {
                law_subscribing_counts_one(v, connection, subscription, filters);
            }
        },
        RegistryStep::Unsubscribe { connection, subscription } => {
            if v.connections.contains_key(connection)
                && v.connections[connection].subscriptions.contains(subscription) {
                law_unsubscribing_counts_one(v, connection, subscription);
            }
        },
        RegistryStep::Cleanup { connection } => {
            law_cleaning_counts_subscriptions(v, connection);
        },
        RegistryStep::Distribute { scope, event } => {
            law_distributing_counts_nothing(v, scope, event);
        },
    }
}

/// The reported changes add up: over any list of steps, the number of active subscriptions
/// changes by the sum of what was reported.
pub proof fn law_changes_add_up(v: RegistryView, steps: Seq<RegistryStep>)
    requires
        v.distinct(),
        v.admits_steps(steps),
    ensures
        v.after_steps(steps).distinct(),
        v.after_steps(steps).active() == v.active() + total_amount(v.step_changes(steps)),
    decreases steps.len(),
{
    if steps.len() > 0 {
        let init = steps.drop_last();
        let last = steps.len() - 1;
        assert forall|i: int| 0 <= i < init.len() implies #[trigger] v.after_steps(
            init.take(i),
        ).admits(init[i]) by {
            assert(init.take(i) =~= steps.take(i));
            assert(v.after_steps(steps.take(i)).admits(steps[i]));
        }
        law_changes_add_up(v, init);
        assert(steps.take(last) =~= init);
        assert(v.after_steps(steps.take(last)).admits(steps[last]));
        law_step_reports_change(v.after_steps(init), steps.last());
        assert(v.step_changes(steps).drop_last() =~= v.step_changes(init)) by {
            assert forall|i: int| 0 <= i < init.len() implies v.step_changes(steps).drop_last()[i]
                == v.step_changes(init)[i] by {
                assert(init.take(i) =~= steps.take(i));
            }
        }
        assert(v.step_changes(steps).last() == v.after_steps(init).step_change(steps.last()));
    }
}

/// What was reported since a registry was made is the number of subscriptions of the connections
/// that are registered now.
pub proof fn law_reported_total_is_active(empty: RegistryView, steps: Seq<RegistryStep>)
    requires
        empty.connections == Map::<Seq<char>, ConnectionView>::empty(),
        empty.admits_steps(steps),
    ensures
        total_amount(empty.step_changes(steps)) == empty.after_steps(steps).active(),
{
    assert(empty.active_subscriptions() =~= Set::empty());
    law_changes_add_up(empty, steps);
}

} // verus!
