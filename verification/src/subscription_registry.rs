//! The subscriptions of all connections, with one inverted index for each scope.

use crate::active_subscriptions::{
    law_cleaning_counts_subscriptions, law_distributing_counts_nothing,
    law_registering_counts_nothing, law_subscribing_counts_one, law_unsubscribing_counts_one,
};
use crate::error::Error;
use crate::index_model::{law_matching_filters_deliver, GroupKey, IndexView};
use crate::metrics::{total_amount, SubscriptionChange};
use crate::protocol::{
    filter_matches, filters_view, filters_wf, opt_text, Event, EventView, Filter, FilterView,
    PublicKey, RelayMessage, RelayMessageView, Scope,
};
use crate::sdk;
use crate::subscription_index::{group_keys, stats_fit, IndexStats, SubscriptionIndex};
use crate::text::{
    has_substring, law_substring_stands_between, list_contains, str_eq, views,
};
use dashmap::DashMap;
use vstd::prelude::*;

verus! {

/// What the registry knows of a connection.
pub struct ConnectionSubscriptions {
    /// The identifiers of its subscriptions, each once.
    subscriptions: Vec<String>,
    /// The public key that the connection authenticated with.
    auth_pubkey: Option<PublicKey>,
    /// The scope that the connection works in.
    subdomain: Scope,
}

#[verifier::ext_equal]
pub struct ConnectionView {
    pub subscriptions: Seq<Seq<char>>,
    pub auth_pubkey: Option<PublicKey>,
    pub scope: Option<Seq<char>>,
}

impl View for ConnectionSubscriptions {
    type V = ConnectionView;

    closed spec fn view(&self) -> ConnectionView {
        ConnectionView {
            subscriptions: views(self.subscriptions@),
            auth_pubkey: self.auth_pubkey,
            scope: self.subdomain@,
        }
    }
}

/// What the registry holds.
#[verifier::ext_equal]
pub struct RegistryView {
    pub connections: Map<Seq<char>, ConnectionView>,
    pub indexes: Map<Option<Seq<char>>, IndexView>,
}

/// The index without subscriptions.
pub open spec fn empty_index() -> IndexView {
    IndexView { filters: Map::empty(), groups: Map::empty(), next_id: 1 }
}

/// An index without the given subscriptions of a connection.
pub open spec fn without_subscriptions(
    index: IndexView,
    connection: Seq<char>,
    ids: Seq<Seq<char>>,
) -> IndexView
    decreases ids.len(),
{
    if ids.len() == 0 {
        index
    } else {
        without_subscriptions(index, connection, ids.drop_last()).removed((connection, ids.last()))
    }
}

/// The subscriptions of a list whose connections are there.
pub open spec fn connected(
    connections: Map<Seq<char>, ConnectionView>,
    list: Seq<GroupKey>,
) -> Seq<GroupKey>
    decreases list.len(),
{
    if list.len() == 0 {
        list
    } else if connections.contains_key(list.last().0) {
        connected(connections, list.drop_last()).push(list.last())
    } else {
        connected(connections, list.drop_last())
    }
}

/// The text of the message that brings an event to a subscription.
pub open spec fn event_message_text(subscription: Seq<char>, json: Seq<char>) -> Seq<char> {
    "[\"EVENT\",\""@ + subscription + "\","@ + json + "]"@
}

impl RegistryView {
    /// No connection has a subscription twice.
    pub open spec fn wf(self) -> bool {
        &&& self.connections.dom().finite()
        &&& self.indexes.dom().finite()
        &&& forall|c: Seq<char>| #[trigger]
            self.connections.contains_key(c)
                ==> self.connections[c].subscriptions.no_duplicates()
        &&& forall|s: Option<Seq<char>>| #[trigger]
            self.indexes.contains_key(s) ==> self.indexes[s].wf()
    }

    /// The index of a scope; an empty one where the scope has none yet.
    pub open spec fn index(self, scope: Option<Seq<char>>) -> IndexView {
        if self.indexes.contains_key(scope) {
            self.indexes[scope]
        } else {
            empty_index()
        }
    }

    /// The registry with a connection that has no subscriptions.
    pub open spec fn registered(
        self,
        connection: Seq<char>,
        auth_pubkey: Option<PublicKey>,
        scope: Option<Seq<char>>,
    ) -> RegistryView {
        RegistryView {
            connections: self.connections.insert(
                connection,
                ConnectionView { subscriptions: Seq::empty(), auth_pubkey, scope },
            ),
            indexes: self.indexes,
        }
    }

    /// The registry with filters added to a subscription of a connection.
    pub open spec fn subscribed(
        self,
        connection: Seq<char>,
        subscription: Seq<char>,
        filters: Seq<FilterView>,
    ) -> RegistryView {
        let c = self.connections[connection];
        RegistryView {
            connections: self.connections.insert(
                connection,
                ConnectionView {
                    subscriptions: if c.subscriptions.contains(subscription) {
                        c.subscriptions
                    } else {
                        c.subscriptions.push(subscription)
                    },
                    ..c
                },
            ),
            indexes: self.indexes.insert(
                c.scope,
                self.index(c.scope).added((connection, subscription), filters),
            ),
        }
    }

    /// The registry without a subscription of a connection.
    pub open spec fn unsubscribed(
        self,
        connection: Seq<char>,
        subscription: Seq<char>,
    ) -> RegistryView {
        let c = self.connections[connection];
        let at = c.subscriptions.index_of(subscription);
        RegistryView {
            connections: self.connections.insert(
                connection,
                ConnectionView { subscriptions: c.subscriptions.remove(at), ..c },
            ),
            indexes: if self.indexes.contains_key(c.scope) {
                self.indexes.insert(
                    c.scope,
                    self.indexes[c.scope].removed((connection, subscription)),
                )
            } else {
                self.indexes
            },
        }
    }

    /// The registry without a connection and its subscriptions.
    pub open spec fn cleaned(self, connection: Seq<char>) -> RegistryView {
        if !self.connections.contains_key(connection) {
            self
        } else {
            let c = self.connections[connection];
            RegistryView {
                connections: self.connections.remove(connection),
                indexes: if self.indexes.contains_key(c.scope) {
                    self.indexes.insert(
                        c.scope,
                        without_subscriptions(self.indexes[c.scope], connection, c.subscriptions),
                    )
                } else {
                    self.indexes
                },
            }
        }
    }

    /// What cleaning a connection up changes in the number of active subscriptions.
    pub open spec fn cleanup_change(self, connection: Seq<char>) -> SubscriptionChange {
        if self.connections.contains_key(connection)
            && self.connections[connection].subscriptions.len() > 0 {
            SubscriptionChange::Removed(self.connections[connection].subscriptions.len() as usize)
        } else {
            SubscriptionChange::Unchanged
        }
    }

    /// The registry without the connections of a list.
    pub open spec fn all_cleaned(self, list: Seq<Seq<char>>) -> RegistryView
        decreases list.len(),
    {
        if list.len() == 0 {
            self
        } else {
            self.all_cleaned(list.drop_last()).cleaned(list.last())
        }
    }

    /// The subscriptions that an event in a scope is sent to: those that the scope's index
    /// gives and whose connections are there.
    pub open spec fn recipients(self, scope: Option<Seq<char>>, e: EventView) -> Seq<GroupKey> {
        if self.indexes.contains_key(scope) {
            let index = self.indexes[scope];
            connected(self.connections, index.deliveries(e, index.candidates(e)))
        } else {
            Seq::empty()
        }
    }

    /// The registry after an event was distributed in a scope.
    pub open spec fn after_event(self, scope: Option<Seq<char>>, e: EventView) -> RegistryView {
        RegistryView {
            connections: self.connections,
            indexes: if self.indexes.contains_key(scope) {
                self.indexes.insert(scope, self.indexes[scope].after_event(e))
            } else {
                self.indexes
            },
        }
    }

    /// The connections of a scope.
    pub open spec fn connections_in(self, scope: Option<Seq<char>>) -> Set<Seq<char>> {
        self.connections.dom().filter(|c: Seq<char>| self.connections[c].scope == scope)
    }

    /// The subscriptions of the connections of a scope.
    pub open spec fn subscriptions_in(self, scope: Option<Seq<char>>) -> Set<GroupKey> {
        Set::new(
            |g: GroupKey|
                self.connections_in(scope).contains(g.0)
                    && self.connections[g.0].subscriptions.contains(g.1),
        )
    }
}

/// The connections that a map holds, by identifier.
pub uninterp spec fn connections_held(map: DashMap<String, ConnectionSubscriptions>) -> Map<
    Seq<char>,
    ConnectionView,
>;

/// `DashMap::new`: the map without entries.
#[verifier::external_body]
fn new_connection_map() -> (r: DashMap<String, ConnectionSubscriptions>)
    ensures
        (connections_held(r) == Map::<Seq<char>, ConnectionView>::empty()),
{
    DashMap::new()
}

/// `DashMap::insert`: sets the value under a key.
#[verifier::external_body]
fn insert_connection(
    map: &mut DashMap<String, ConnectionSubscriptions>,
    id: &str,
    connection: ConnectionSubscriptions,
)
    ensures
        connections_held(*final(map)) == connections_held(*old(map)).insert(id@, connection@),
{
    map.insert(id.to_owned(), connection);
}

/// `DashMap::remove`: takes the value under a key out, where there is one.
#[verifier::external_body]
fn remove_connection(
    map: &mut DashMap<String, ConnectionSubscriptions>,
    id: &str,
) -> (r: Option<ConnectionSubscriptions>)
    ensures
        connections_held(*final(map)) == connections_held(*old(map)).remove(id@),
        match r {
            Some(c) => connections_held(*old(map)).contains_key(id@) && c@ == connections_held(
                *old(map),
            )[id@],
            None => !connections_held(*old(map)).contains_key(id@),
        },
{
    map.remove(id).map(|entry| entry.1)
}

/// `DashMap::get`: the value under a key, where there is one; here two of its fields.
#[verifier::external_body]
fn connection_fields(
    map: &DashMap<String, ConnectionSubscriptions>,
    id: &str,
) -> (r: Option<(Option<PublicKey>, Scope)>)
    ensures
        match r {
            Some((key, scope)) => connections_held(*map).contains_key(id@) && connections_held(
                *map,
            )[id@].auth_pubkey == key && connections_held(*map)[id@].scope == scope@,
            None => !connections_held(*map).contains_key(id@),
        },
{
    map.get(id).map(|c| (c.auth_pubkey, c.subdomain.copy()))
}

/// `DashMap::iter`: every entry once, in no particular order; here the identifier, the scope
/// and the number of subscriptions of each connection.
#[verifier::external_body]
fn connection_list(map: &DashMap<String, ConnectionSubscriptions>) -> (r: Vec<
    (String, Scope, usize),
>)
    ensures
        forall|i: int|
            0 <= i < r@.len() ==> {
                &&& connections_held(*map).contains_key((#[trigger] r@[i]).0@)
                &&& connections_held(*map)[r@[i].0@].scope == r@[i].1@
                &&& connections_held(*map)[r@[i].0@].subscriptions.len() == r@[i].2
            },
        forall|i: int, j: int|
            0 <= i < j < r@.len() ==> (#[trigger] r@[i]).0@ != (#[trigger] r@[j]).0@,
        forall|c: Seq<char>| #[trigger]
            connections_held(*map).contains_key(c) ==> exists|i: int|
                0 <= i < r@.len() && (#[trigger] r@[i]).0@ == c,
{
    map.iter().map(|c| (c.key().clone(), c.subdomain.copy(), c.subscriptions.len())).collect()
}

/// The indexes that a map holds, by scope.
pub uninterp spec fn indexes_held(map: DashMap<Option<String>, SubscriptionIndex>) -> Map<
    Option<Seq<char>>,
    SubscriptionIndex,
>;

/// `DashMap::new`: the map without entries.
#[verifier::external_body]
fn new_index_map() -> (r: DashMap<Option<String>, SubscriptionIndex>)
    ensures
        (indexes_held(r) == Map::<Option<Seq<char>>, SubscriptionIndex>::empty()),
{
    DashMap::new()
}

/// `DashMap::insert`: sets the value under a key.
#[verifier::external_body]
fn insert_index(
    map: &mut DashMap<Option<String>, SubscriptionIndex>,
    scope: Option<String>,
    index: SubscriptionIndex,
)
    ensures
        indexes_held(*final(map)) == indexes_held(*old(map)).insert(opt_text(scope), index),
{
    map.insert(scope, index);
}

/// `DashMap::remove`: takes the value under a key out, where there is one.
#[verifier::external_body]
fn remove_index(
    map: &mut DashMap<Option<String>, SubscriptionIndex>,
    scope: &Option<String>,
) -> (r: Option<SubscriptionIndex>)
    ensures
        indexes_held(*final(map)) == indexes_held(*old(map)).remove(opt_text(*scope)),
        match r {
            Some(index) => indexes_held(*old(map)).contains_key(opt_text(*scope)) && index
                == indexes_held(*old(map))[opt_text(*scope)],
            None => !indexes_held(*old(map)).contains_key(opt_text(*scope)),
        },
{
    map.remove(scope).map(|entry| entry.1)
}

/// `DashMap::iter`: every entry once, in no particular order; here each scope with the figures
/// of its index.
#[verifier::external_body]
fn index_list(map: &DashMap<Option<String>, SubscriptionIndex>) -> (r: Vec<
    (Option<String>, IndexStats),
>)
    requires
        forall|s: Option<Seq<char>>| #[trigger]
            indexes_held(*map).contains_key(s) ==> indexes_held(*map)[s].wf(),
    ensures
        forall|i: int|
            0 <= i < r@.len() ==> {
                &&& indexes_held(*map).contains_key(opt_text((#[trigger] r@[i]).0))
                &&& stats_fit(indexes_held(*map)[opt_text(r@[i].0)]@, r@[i].1)
            },
        forall|i: int, j: int|
            0 <= i < j < r@.len() ==> opt_text((#[trigger] r@[i]).0) != opt_text(
                (#[trigger] r@[j]).0,
            ),
        forall|s: Option<Seq<char>>| #[trigger]
            indexes_held(*map).contains_key(s) ==> exists|i: int|
                0 <= i < r@.len() && opt_text((#[trigger] r@[i]).0) == s,
{
    map.iter().map(|entry| (entry.key().clone(), entry.value().stats())).collect()
}

/// The name of a scope, where it has one.
fn scope_key(scope: &Scope) -> (r: Option<String>)
    ensures
        opt_text(r) == scope@,
{
    match scope {
        Scope::Default => None,
        Scope::Named { name } => Some(name.clone()),
    }
}

/// The scope with a name, or the default scope.
fn key_scope(key: &Option<String>) -> (r: Scope)
    ensures
        r@ == opt_text(*key),
{
    match key {
        None => Scope::Default,
        Some(name) => Scope::Named { name: name.clone() },
    }
}

/// An event on its way to a subscription of a connection.
pub struct Delivery {
    pub connection_id: String,
    pub message: RelayMessage,
    /// The text of the message.
    pub json: String,
}

impl Delivery {
    /// The delivery brings the event to the subscription.
    pub open spec fn brings(self, g: GroupKey, e: EventView) -> bool {
        &&& self.connection_id@ == g.0
        &&& self.message matches RelayMessage::Event { subscription_id, event } && subscription_id@
            == g.1 && event@ == e
        &&& self.json@ == event_message_text(g.1, sdk::event_json(e))
    }
}

/// The registry.
pub struct SubscriptionRegistry {
    connections: DashMap<String, ConnectionSubscriptions>,
    indexes: DashMap<Option<String>, SubscriptionIndex>,
}

impl View for SubscriptionRegistry {
    type V = RegistryView;

    closed spec fn view(&self) -> RegistryView {
        RegistryView {
            connections: connections_held(self.connections),
            indexes: indexes_held(self.indexes).map_values(|index: SubscriptionIndex| index@),
        }
    }
}

impl SubscriptionRegistry {
    /// The connections and the indexes of the registry are well formed.
    pub closed spec fn wf(self) -> bool {
        &&& self@.wf()
        &&& forall|s: Option<Seq<char>>| #[trigger]
            indexes_held(self.indexes).contains_key(s) ==> indexes_held(self.indexes)[s].wf()
    }

    /// What is proved of the model holds of the registry.
    pub proof fn lemma_model(self)
        requires
            self.wf(),
        ensures
            self@.wf(),
    {
    }

    /// A registry without connections.
    pub fn new() -> (r: SubscriptionRegistry)
        ensures
            r.wf(),
            r@ == (RegistryView { connections: Map::empty(), indexes: Map::empty() }),
    {
        let r = SubscriptionRegistry {
            connections: new_connection_map(),
            indexes: new_index_map(),
        };
        proof {
            assert(r@.indexes =~= Map::empty());
        }
        r
    }

    /// Registers a connection. One that is registered under the same identifier is replaced.
    pub fn register_connection(
        &mut self,
        connection_id: &str,
        auth_pubkey: Option<PublicKey>,
        subdomain: Scope,
    )
        requires
            old(self).wf(),
        ensures
            final(self).wf(),
            final(self)@ == old(self)@.registered(connection_id@, auth_pubkey, subdomain@),
            !old(self)@.connections.contains_key(connection_id@) ==> final(self)@.active() == old(
                self,
            )@.active(),
    {
        proof {
            if !self@.connections.contains_key(connection_id@) {
                law_registering_counts_nothing(self@, connection_id@, auth_pubkey, subdomain@);
            }
        }
        let connection = ConnectionSubscriptions {
            subscriptions: Vec::new(),
            auth_pubkey,
            subdomain,
        };
        proof {
            assert(connection@.subscriptions =~= Seq::empty());
        }
        insert_connection(&mut self.connections, connection_id, connection);
    }

    fn take_index(&mut self, scope: &Scope) -> (r: Option<SubscriptionIndex>)
        requires
            old(self).wf(),
        ensures
            final(self).wf(),
            final(self)@.connections == old(self)@.connections,
            final(self)@.indexes == old(self)@.indexes.remove(scope@),
            match r {
                Some(index) => old(self)@.indexes.contains_key(scope@) && index.wf() && index@
                    == old(self)@.indexes[scope@],
                None => !old(self)@.indexes.contains_key(scope@),
            },
    {
        let ghost before = self@;
        let r = remove_index(&mut self.indexes, &scope_key(scope));
        proof {
            assert(self@.indexes =~= before.indexes.remove(scope@));
        }
        r
    }

    fn put_index(&mut self, scope: &Scope, index: SubscriptionIndex)
        requires
            old(self).wf(),
            index.wf(),
        ensures
            final(self).wf(),
            final(self)@.connections == old(self)@.connections,
            final(self)@.indexes == old(self)@.indexes.insert(scope@, index@),
    {
        let ghost before = self@;
        proof {
            index.lemma_model();
        }
        insert_index(&mut self.indexes, scope_key(scope), index);
        proof {
            assert(self@.indexes =~= before.indexes.insert(scope@, index@));
        }
    }

    /// Adds filters to a subscription of a connection. The subscription counts as added where
    /// the connection did not have it yet.
    pub fn add_subscription(
        &mut self,
        connection_id: &str,
        subscription_id: &str,
        filters: Vec<Filter>,
    ) -> (r: Result<SubscriptionChange, Error>)
        requires
            old(self).wf(),
            filters_wf(filters_view(filters@)),
            old(self)@.connections.contains_key(connection_id@) ==> old(self)@.index(
                old(self)@.connections[connection_id@].scope,
            ).next_id + filters@.len() <= u64::MAX,
        ensures
            final(self).wf(),
            match r {
                Ok(change) => {
                    &&& old(self)@.connections.contains_key(connection_id@)
                    &&& final(self)@ == old(self)@.subscribed(
                        connection_id@,
                        subscription_id@,
                        filters_view(filters@),
                    )
                    &&& change == if old(self)@.connections[connection_id@].subscriptions.contains(
                        subscription_id@,
                    ) {
                        SubscriptionChange::Unchanged
                    } else {
                        SubscriptionChange::Added
                    }
                    &&& final(self)@.active() == old(self)@.active() + change.amount()
                },
                Err(e) => {
                    &&& !old(self)@.connections.contains_key(connection_id@)
                    &&& final(self)@ == old(self)@
                    &&& e matches Error::Internal { message } && message@ == "Connection not found"@
                },
            },
    {
        let ghost before = self@;
        let mut connection = match remove_connection(&mut self.connections, connection_id) {
            Some(c) => c,
            None => {
                proof {
                    assert(self@.connections =~= before.connections);
                }
                return Err(Error::internal("Connection not found"));
            },
        };
        let ghost c = connection@;
        let is_new = !list_contains(&connection.subscriptions, subscription_id);
        if is_new {
            let ghost ids = views(connection.subscriptions@);
            connection.subscriptions.push(subscription_id.to_owned());
            proof {
                assert(views(connection.subscriptions@) =~= ids.push(subscription_id@));
            }
        }
        let scope = connection.subdomain.copy();
        insert_connection(&mut self.connections, connection_id, connection);
        proof {
            assert(before.connections.contains_key(connection_id@));
            assert(self@.connections =~= before.subscribed(
                connection_id@,
                subscription_id@,
                filters_view(filters@),
            ).connections);
        }
        let mut index = match self.take_index(&scope) {
            Some(index) => index,
            None => SubscriptionIndex::new(),
        };
        let ghost fs = filters_view(filters@);
        index.add_subscription(connection_id, subscription_id, filters);
        self.put_index(&scope, index);
        proof {
            assert(self@.indexes =~= before.subscribed(
                connection_id@,
                subscription_id@,
                fs,
            ).indexes);
            law_subscribing_counts_one(before, connection_id@, subscription_id@, fs);
        }
        Ok(
            if is_new {
                SubscriptionChange::Added
            } else {
                SubscriptionChange::Unchanged
            },
        )
    }

    /// Removes a subscription of a connection, where it has it.
    pub fn remove_subscription(
        &mut self,
        connection_id: &str,
        subscription_id: &str,
    ) -> (r: Result<SubscriptionChange, Error>)
        requires
            old(self).wf(),
        ensures
            final(self).wf(),
            match r {
                Ok(change) => {
                    &&& old(self)@.connections.contains_key(connection_id@)
                    &&& if old(self)@.connections[connection_id@].subscriptions.contains(
                        subscription_id@,
                    ) {
                        &&& final(self)@ == old(self)@.unsubscribed(connection_id@, subscription_id@)
                        &&& change == SubscriptionChange::Removed(1)
                    } else {
                        &&& final(self)@ == old(self)@
                        &&& change == SubscriptionChange::Unchanged
                    }
                    &&& final(self)@.active() == old(self)@.active() + change.amount()
                },
                Err(e) => {
                    &&& !old(self)@.connections.contains_key(connection_id@)
                    &&& final(self)@ == old(self)@
                    &&& e matches Error::Internal { message } && message@ == "Connection not found"@
                },
            },
    {
        let ghost before = self@;
        let mut connection = match remove_connection(&mut self.connections, connection_id) {
            Some(c) => c,
            None => {
                proof {
                    assert(self@.connections =~= before.connections);
                }
                return Err(Error::internal("Connection not found"));
            },
        };
        let ghost c = connection@;
        proof {
            assert(before.connections.contains_key(connection_id@));
        }
        match position_of(&connection.subscriptions, subscription_id) {
            Some(at) => {
                let ghost ids = views(connection.subscriptions@);
                connection.subscriptions.remove(at);
                let scope = connection.subdomain.copy();
                proof {
                    assert(ids[at as int] == subscription_id@);
                    assert(ids.index_of(subscription_id@) == at) by {
                        let k = ids.index_of(subscription_id@);
                        assert(0 <= k < ids.len() && ids[k] == subscription_id@);
                    }
                    assert(views(connection.subscriptions@) =~= ids.remove(at as int));
                    assert(ids.remove(at as int).no_duplicates()) by {
                        let r = ids.remove(at as int);
                        assert forall|i: int, j: int|
                            0 <= i < r.len() && 0 <= j < r.len() && i != j implies r[i] != r[j] by {
                            let i2 = if i < at { i } else { i + 1 };
                            let j2 = if j < at { j } else { j + 1 };
                            assert(ids[i2] != ids[j2]);
                        }
                    }
                }
                insert_connection(&mut self.connections, connection_id, connection);
                let ghost target = before.unsubscribed(connection_id@, subscription_id@);
                proof {
                    assert(self@.connections =~= target.connections);
                }
                match self.take_index(&scope) {
                    Some(mut index) => {
                        index.remove_subscription(connection_id, subscription_id);
                        self.put_index(&scope, index);
                    },
                    None => {},
                }
                proof {
                    assert(self@.indexes =~= target.indexes);
                    law_unsubscribing_counts_one(before, connection_id@, subscription_id@);
                }
                Ok(SubscriptionChange::Removed(1))
            },
            None => {
                insert_connection(&mut self.connections, connection_id, connection);
                proof {
                    assert(self@.connections =~= before.connections);
                }
                Ok(SubscriptionChange::Unchanged)
            },
        }
    }

    /// The public key and the scope of a connection.
    pub fn get_connection_info(&self, connection_id: &str) -> (r: Option<
        (Option<PublicKey>, Scope),
    >)
        ensures
            match r {
                Some((key, scope)) => {
                    &&& self@.connections.contains_key(connection_id@)
                    &&& self@.connections[connection_id@].auth_pubkey == key
                    &&& self@.connections[connection_id@].scope == scope@
                },
                None => !self@.connections.contains_key(connection_id@),
            },
    {
        connection_fields(&self.connections, connection_id)
    }

    /// Whether a connection is registered.
    pub fn has_connection(&self, connection_id: &str) -> (r: bool)
        ensures
            r == self@.connections.contains_key(connection_id@),
    {
        connection_fields(&self.connections, connection_id).is_some()
    }

    /// Removes a connection with its subscriptions.
    pub fn cleanup_connection(&mut self, connection_id: &str) -> (r: SubscriptionChange)
        requires
            old(self).wf(),
        ensures
            final(self).wf(),
            final(self)@ == old(self)@.cleaned(connection_id@),
            r == old(self)@.cleanup_change(connection_id@),
            r.amount() == if old(self)@.connections.contains_key(connection_id@) {
                -(old(self)@.connections[connection_id@].subscriptions.len() as int)
            } else {
                0
            },
            final(self)@.active() == old(self)@.active() + r.amount(),
    {
        let ghost before = self@;
        proof {
            law_cleaning_counts_subscriptions(before, connection_id@);
        }
        match remove_connection(&mut self.connections, connection_id) {
            Some(connection) => {
                let ids = connection.subscriptions;
                let count: usize = ids.len();
                let scope = connection.subdomain;
                let ghost subs = views(ids@);
                proof {
                    assert(before.connections.contains_key(connection_id@));
                }
                match self.take_index(&scope) {
                    Some(mut index) => {
                        let ghost start = index@;
                        let mut i: usize = 0;
                        proof {
                            assert(subs.take(0) =~= Seq::empty());
                        }
                        while i < ids.len()
                            invariant
                                i <= ids@.len(),
                                subs == views(ids@),
                                index.wf(),
                                index@ == without_subscriptions(
                                    start,
                                    connection_id@,
                                    subs.take(i as int),
                                ),
                            decreases ids@.len() - i,
                        {
                            proof {
                                assert(subs.take(i + 1).drop_last() =~= subs.take(i as int));
                                assert(subs.take(i + 1).last() == ids@[i as int]@);
                            }
                            index.remove_subscription(connection_id, ids[i].as_str());
                            i = i + 1;
                        }
                        proof {
                            assert(subs.take(subs.len() as int) =~= subs);
                        }
                        self.put_index(&scope, index);
                    },
                    None => {},
                }
                proof {
                    let target = before.cleaned(connection_id@);
                    assert(self@.connections =~= target.connections);
                    assert(self@.indexes =~= target.indexes);
                }
                if count > 0 {
                    SubscriptionChange::Removed(count)
                } else {
                    SubscriptionChange::Unchanged
                }
            },
            None => {
                proof {
                    assert(self@.connections =~= before.connections);
                }
                SubscriptionChange::Unchanged
            },
        }
    }

    /// Whether an event can be distributed in a scope: it cannot where a filter with an empty
    /// search text admits it.
    pub fn can_distribute(&mut self, event: &Event, scope: &Scope) -> (r: bool)
        requires
            old(self).wf(),
            event@.wf(),
        ensures
            final(self).wf(),
            final(self)@ == old(self)@,
            r == old(self)@.index(scope@).can_distribute(event@),
    {
        let ghost before = self@;
        match self.take_index(scope) {
            Some(mut index) => {
                let r = index.can_distribute(event);
                self.put_index(scope, index);
                proof {
                    assert(self@.indexes =~= before.indexes);
                }
                r
            },
            None => {
                proof {
                    assert(self@.indexes =~= before.indexes);
                }
                true
            },
        }
    }

    /// Finds the connections that an event in a scope is sent to, and prepares what is sent to
    /// each of them.
    pub fn distribute_event_indexed(&mut self, event: &Event, scope: &Scope) -> (r: Vec<Delivery>)
        requires
            old(self).wf(),
            event@.wf(),
            old(self)@.index(scope@).can_distribute(event@),
        ensures
            final(self).wf(),
            final(self)@ == old(self)@.after_event(scope@, event@),
            r@.len() == old(self)@.recipients(scope@, event@).len(),
            forall|i: int|
                0 <= i < r@.len() ==> (#[trigger] r@[i]).brings(
                    old(self)@.recipients(scope@, event@)[i],
                    event@,
                ),
            final(self)@.active() == old(self)@.active(),
    {
        let ghost before = self@;
        proof {
            law_distributing_counts_nothing(before, scope@, event@);
        }
        let mut deliveries: Vec<Delivery> = Vec::new();
        let mut index = match self.take_index(scope) {
            Some(index) => index,
            None => {
                proof {
                    assert(self@.indexes =~= before.indexes);
                }
                return deliveries;
            },
        };
        let ghost v = index@;
        proof {
            assert(v == before.index(scope@));
        }
        let matching = index.distribute_event(event);
        self.put_index(scope, index);
        proof {
            assert(self@.indexes =~= before.after_event(scope@, event@).indexes);
        }
        if matching.len() == 0 {
            proof {
                assert(group_keys(matching@) =~= Seq::empty());
            }
            return deliveries;
        }
        let event_json = sdk::event_as_json(event);
        let ghost list = group_keys(matching@);
        let mut i: usize = 0;
        proof {
            assert(list.take(0) =~= Seq::empty());
        }
        while i < matching.len()
            invariant
                i <= matching@.len(),
                list == group_keys(matching@),
                self.wf(),
                self@.connections == before.connections,
                event_json@ == sdk::event_json(event@),
                deliveries@.len() == connected(before.connections, list.take(i as int)).len(),
                forall|k: int|
                    0 <= k < deliveries@.len() ==> (#[trigger] deliveries@[k]).brings(
                        connected(before.connections, list.take(i as int))[k],
                        event@,
                    ),
            decreases matching@.len() - i,
        {
            let ghost prior = connected(before.connections, list.take(i as int));
            proof {
                assert(list.take(i + 1).drop_last() =~= list.take(i as int));
                assert(list.take(i + 1).last() == list[i as int]);
            }
            if self.has_connection(matching[i].0.as_str()) {
                let subscription_id = matching[i].1.clone();
                let mut json = String::from_str("[\"EVENT\",\"");
                json.append(subscription_id.as_str());
                json.append("\",");
                json.append(event_json.as_str());
                json.append("]");
                let message = RelayMessage::Event { subscription_id, event: event.copy() };
                deliveries.push(
                    Delivery { connection_id: matching[i].0.clone(), message, json },
                );
                proof {
                    let next = connected(before.connections, list.take(i + 1));
                    assert(next =~= prior.push(list[i as int]));
                    assert forall|k: int| 0 <= k < deliveries@.len() implies (
                    #[trigger] deliveries@[k]).brings(next[k], event@) by {
                        if k < prior.len() {
                            assert(next[k] == prior[k]);
                        }
                    }
                }
            }
            i = i + 1;
        }
        proof {
            assert(list.take(list.len() as int) =~= list);
        }
        deliveries
    }

    /// Removes the connections that deliveries could not be handed to: `sent` says of each
    /// delivery whether it was.
    pub fn settle_deliveries(&mut self, deliveries: &Vec<Delivery>, sent: &Vec<bool>) -> (r: Vec<
        SubscriptionChange,
    >)
        requires
            old(self).wf(),
            deliveries@.len() == sent@.len(),
        ensures
            final(self).wf(),
            final(self)@ == old(self)@.all_cleaned(failed(deliveries@, sent@)),
            r@.len() == failed(deliveries@, sent@).len(),
            forall|i: int|
                0 <= i < r@.len() ==> #[trigger] r@[i] == old(self)@.all_cleaned(
                    failed(deliveries@, sent@).take(i),
                ).cleanup_change(failed(deliveries@, sent@)[i]),
            final(self)@.active() == old(self)@.active() + total_amount(r@),
    {
        let ghost before = self@;
        let mut changes: Vec<SubscriptionChange> = Vec::new();
        let mut i: usize = 0;
        proof {
            assert(failed(deliveries@.take(0), sent@.take(0)) =~= Seq::empty());
        }
        while i < sent.len()
            invariant
                i <= sent@.len(),
                deliveries@.len() == sent@.len(),
                self.wf(),
                self@.active() == before.active() + total_amount(changes@),
                self@ == before.all_cleaned(
                    failed(deliveries@.take(i as int), sent@.take(i as int)),
                ),
                changes@.len() == failed(deliveries@.take(i as int), sent@.take(i as int)).len(),
                forall|k: int|
                    0 <= k < changes@.len() ==> #[trigger] changes@[k] == before.all_cleaned(
                        failed(deliveries@.take(i as int), sent@.take(i as int)).take(k),
                    ).cleanup_change(
                        failed(deliveries@.take(i as int), sent@.take(i as int))[k],
                    ),
            decreases sent@.len() - i,
        {
            proof {
                assert(deliveries@.take(i + 1).drop_last() =~= deliveries@.take(i as int));
                assert(sent@.take(i + 1).drop_last() =~= sent@.take(i as int));
            }
            if !sent[i] {
                let change = self.cleanup_connection(deliveries[i].connection_id.as_str());
                let ghost reported = changes@;
                changes.push(change);
                proof {
                    assert(changes@.drop_last() =~= reported);
                    let prior = failed(deliveries@.take(i as int), sent@.take(i as int));
                    let next = failed(deliveries@.take(i + 1), sent@.take(i + 1));
                    assert(next =~= prior.push(deliveries@[i as int].connection_id@));
                    assert(next.drop_last() =~= prior);
                    assert forall|k: int| 0 <= k < changes@.len() implies #[trigger] changes@[k]
                        == before.all_cleaned(next.take(k)).cleanup_change(next[k]) by {
                        assert(next.take(k) =~= prior.take(k));
                        if k == prior.len() {
                            assert(prior.take(k) =~= prior);
                        }
                    }
                }
            }
            i = i + 1;
        }
        proof {
            assert(deliveries@.take(deliveries@.len() as int) =~= deliveries@);
            assert(sent@.take(sent@.len() as int) =~= sent@);
        }
        changes
    }
}

impl SubscriptionRegistry {
    /// The figures of the registry: one entry for each scope that has an index, and the scopes
    /// that have an index and no connections.
    pub fn get_diagnostics(&self) -> (r: RegistryDiagnostics)
        requires
            self.wf(),
            forall|s: Option<Seq<char>>| (#[trigger] self@.subscriptions_in(s)).len() <= usize::MAX,
        ensures
            r.total_connections == self@.connections.len(),
            forall|i: int|
                0 <= i < r.scope_diagnostics@.len() ==> (#[trigger] r.scope_diagnostics@[i]).fits(
                    self@,
                ),
            forall|i: int, j: int|
                0 <= i < j < r.scope_diagnostics@.len() ==> (
                #[trigger] r.scope_diagnostics@[i]).scope@ != (
                #[trigger] r.scope_diagnostics@[j]).scope@,
            forall|s: Option<Seq<char>>| #[trigger]
                self@.indexes.contains_key(s) ==> exists|i: int|
                    0 <= i < r.scope_diagnostics@.len() && (
                    #[trigger] r.scope_diagnostics@[i]).scope@ == s,
            forall|i: int, j: int|
                0 <= i < j < r.empty_scopes@.len() ==> (#[trigger] r.empty_scopes@[i])@ != (
                #[trigger] r.empty_scopes@[j])@,
            forall|i: int|
                0 <= i < r.empty_scopes@.len() ==> self@.indexes.contains_key(
                    (#[trigger] r.empty_scopes@[i])@,
                ) && self@.connections_in(r.empty_scopes@[i]@).len() == 0,
            forall|s: Option<Seq<char>>| #[trigger]
                self@.indexes.contains_key(s) && self@.connections_in(s).len() == 0
                    ==> exists|i: int|
                    0 <= i < r.empty_scopes@.len() && (#[trigger] r.empty_scopes@[i])@ == s,
    {
        let connections = connection_list(&self.connections);
        let indexes = index_list(&self.indexes);
        let mut scope_diagnostics: Vec<ScopeDiagnostics> = Vec::new();
        let mut empty_scopes: Vec<Scope> = Vec::new();
        let mut i: usize = 0;
        let ghost mut places: Seq<int> = Seq::empty();
        while i < indexes.len()
            invariant
                i <= indexes@.len(),
                self.wf(),
                listed(self@.connections, connections@),
                forall|s: Option<Seq<char>>|
                    (#[trigger] self@.subscriptions_in(s)).len() <= usize::MAX,
                forall|k: int|
                    0 <= k < indexes@.len() ==> {
                        &&& indexes_held(self.indexes).contains_key(
                            opt_text((#[trigger] indexes@[k]).0),
                        )
                        &&& stats_fit(
                            indexes_held(self.indexes)[opt_text(indexes@[k].0)]@,
                            indexes@[k].1,
                        )
                    },
                scope_diagnostics@.len() == i,
                forall|k: int|
                    0 <= k < i ==> (#[trigger] scope_diagnostics@[k]).fits(self@)
                        && scope_diagnostics@[k].scope@ == opt_text(indexes@[k].0),
                places.len() == empty_scopes@.len(),
                forall|k: int|
                    0 <= k < places.len() ==> 0 <= #[trigger] places[k] < i && empty_scopes@[k]@
                        == opt_text(indexes@[places[k]].0) && self@.connections_in(
                        empty_scopes@[k]@,
                    ).len() == 0,
                forall|k: int, l: int|
                    0 <= k < l < places.len() ==> #[trigger] places[k] < #[trigger] places[l],
                forall|k: int|
                    0 <= k < i && self@.connections_in(opt_text((#[trigger] indexes@[k]).0)).len()
                        == 0 ==> places.contains(k),
            decreases indexes@.len() - i,
        {
            let scope = key_scope(&indexes[i].0);
            let (connection_count, subscription_count) = self.count_scope(&connections, &scope);
            let stats = indexes[i].1;
            proof {
                assert(self@.indexes.contains_key(scope@));
                assert(self@.indexes[scope@] == indexes_held(self.indexes)[scope@]@);
            }
            if connection_count == 0 {
                empty_scopes.push(scope.copy());
                proof {
                    let prior = places;
                    places = places.push(i as int);
                    assert(places[prior.len() as int] == i);
                    assert forall|k: int|
                        0 <= k < i + 1 && self@.connections_in(
                            opt_text((#[trigger] indexes@[k]).0),
                        ).len() == 0 implies places.contains(k) by {
                        if k < i {
                            assert(prior.contains(k));
                            let m = choose|m: int| 0 <= m < prior.len() && prior[m] == k;
                            assert(places[m] == k);
                        }
                    }
                }
            }
            scope_diagnostics.push(
                ScopeDiagnostics {
                    scope,
                    connection_count,
                    subscription_count,
                    filter_count: stats.total_filters,
                    tracked_events: stats.tracked_events,
                    authors_indexed: stats.authors_indexed,
                    kinds_indexed: stats.kinds_indexed,
                    event_ids_indexed: stats.event_ids_indexed,
                    tags_indexed: stats.tags_indexed,
                },
            );
            i = i + 1;
        }
        proof {
            lemma_listed_len(self@.connections, connections@);
            assert forall|s: Option<Seq<char>>| #[trigger]
                self@.indexes.contains_key(s) implies exists|k: int|
                0 <= k < scope_diagnostics@.len() && (#[trigger] scope_diagnostics@[k]).scope@
                    == s by {
                assert(indexes_held(self.indexes).contains_key(s));
                let k = choose|k: int|
                    0 <= k < indexes@.len() && opt_text((#[trigger] indexes@[k]).0) == s;
                assert(scope_diagnostics@[k].scope@ == s);
            }
            assert forall|k: int, l: int| 0 <= k < l < empty_scopes@.len() implies (
            #[trigger] empty_scopes@[k])@ != (#[trigger] empty_scopes@[l])@ by {
                assert(places[k] < places[l]);
                assert(opt_text(indexes@[places[k]].0) != opt_text(indexes@[places[l]].0));
            }
            assert forall|k: int| 0 <= k < empty_scopes@.len() implies self@.indexes.contains_key(
                (#[trigger] empty_scopes@[k])@,
            ) && self@.connections_in(empty_scopes@[k]@).len() == 0 by {
                assert(0 <= places[k] < indexes@.len());
                assert(indexes_held(self.indexes).contains_key(opt_text(indexes@[places[k]].0)));
            }
            assert forall|s: Option<Seq<char>>| #[trigger]
                self@.indexes.contains_key(s) && self@.connections_in(s).len() == 0 implies exists|
                k: int,
            |
                0 <= k < empty_scopes@.len() && (#[trigger] empty_scopes@[k])@ == s by {
                assert(indexes_held(self.indexes).contains_key(s));
                let k = choose|k: int|
                    0 <= k < indexes@.len() && opt_text((#[trigger] indexes@[k]).0) == s;
                assert(places.contains(k));
                let m = choose|m: int| 0 <= m < places.len() && places[m] == k;
                assert(empty_scopes@[m]@ == s);
            }
        }
        let ghost found = empty_scopes@;
        let r = RegistryDiagnostics {
            total_connections: connections.len(),
            scope_diagnostics,
            empty_scopes,
        };
        proof {
            assert(r.empty_scopes@ == found);
            assert forall|s: Option<Seq<char>>| #[trigger]
                self@.indexes.contains_key(s) && self@.connections_in(s).len() == 0 implies exists|
                k: int,
            |
                0 <= k < r.empty_scopes@.len() && (#[trigger] r.empty_scopes@[k])@ == s by {
                let k = choose|k: int| 0 <= k < found.len() && (#[trigger] found[k])@ == s;
                assert(r.empty_scopes@[k]@ == s);
            }
        }
        r
    }

    /// The numbers of connections and of subscriptions in a scope.
    fn count_scope(&self, connections: &Vec<(String, Scope, usize)>, scope: &Scope) -> (r: (
        usize,
        usize,
    ))
        requires
            self.wf(),
            listed(self@.connections, connections@),
            self@.subscriptions_in(scope@).len() <= usize::MAX,
        ensures
            r.0 == self@.connections_in(scope@).len(),
            r.1 == self@.subscriptions_in(scope@).len(),
    {
        let ghost v = self@;
        let mut connection_count: usize = 0;
        let mut subscription_count: usize = 0;
        let ghost mut names: Seq<Seq<char>> = Seq::empty();
        let ghost mut pairs: Set<GroupKey> = Set::empty();
        let mut i: usize = 0;
        proof {
            lemma_subscriptions_finite(v, scope@);
            assert(pairs =~= pairs_of(v, names));
        }
        while i < connections.len()
            invariant
                i <= connections@.len(),
                v == self@,
                v.wf(),
                listed(v.connections, connections@),
                v.subscriptions_in(scope@).finite(),
                v.subscriptions_in(scope@).len() <= usize::MAX,
                connection_count == names.len(),
                connection_count <= i,
                names.no_duplicates(),
                forall|c: Seq<char>| #[trigger]
                    names.contains(c) <==> exists|k: int|
                        0 <= k < i && (#[trigger] connections@[k]).0@ == c && connections@[k].1@
                            == scope@,
                pairs == pairs_of(v, names),
                pairs.finite(),
                subscription_count == pairs.len(),
            decreases connections@.len() - i,
        {
            if connections[i].1.same(scope) {
                let ghost c = connections@[i as int].0@;
                let ghost prior = names;
                let ghost subs = v.connections[c].subscriptions;
                proof {
                    assert(v.connections.contains_key(c));
                    if prior.contains(c) {
                        let k = choose|k: int|
                            0 <= k < i && (#[trigger] connections@[k]).0@ == c && connections@[k].1@
                                == scope@;
                        assert(connections@[k].0@ != connections@[i as int].0@);
                    }
                    names = prior.push(c);
                    assert forall|d: Seq<char>| #[trigger] names.contains(d) <==> prior.contains(d)
                        || d == c by {
                        if prior.contains(d) {
                            let k = choose|k: int| 0 <= k < prior.len() && prior[k] == d;
                            assert(names[k] == d);
                        }
                        assert(names[prior.len() as int] == c);
                    }
                    assert forall|d: Seq<char>| #[trigger]
                        names.contains(d) <==> exists|k: int|
                            0 <= k < i + 1 && (#[trigger] connections@[k]).0@ == d
                                && connections@[k].1@ == scope@ by {
                        if prior.contains(d) {
                            let k = choose|k: int|
                                0 <= k < i && (#[trigger] connections@[k]).0@ == d
                                    && connections@[k].1@ == scope@;
                            assert(0 <= k < i + 1 && connections@[k].0@ == d);
                        }
                        if d == c {
                            assert(connections@[i as int].0@ == d);
                        }
                    }
                    let mine = subs.map_values(|s: Seq<char>| (c, s));
                    assert(mine.no_duplicates()) by {
                        assert forall|a: int, b: int|
                            0 <= a < mine.len() && 0 <= b < mine.len() && a != b implies mine[a]
                            != mine[b] by {
                            assert(subs[a] != subs[b]);
                        }
                    }
                    mine.unique_seq_to_set();
                    let both = pairs_of(v, names);
                    assert forall|g: GroupKey| #[trigger]
                        both.contains(g) <==> pairs.union(mine.to_set()).contains(g) by {
                        if g.0 == c && subs.contains(g.1) {
                            let k = choose|k: int| 0 <= k < subs.len() && subs[k] == g.1;
                            assert(mine[k] == g);
                        }
                        if mine.contains(g) {
                            let k = choose|k: int| 0 <= k < mine.len() && mine[k] == g;
                            assert(subs[k] == g.1);
                            assert(subs.contains(g.1));
                        }
                    }
                    assert(both =~= pairs.union(mine.to_set()));
                    assert(pairs.disjoint(mine.to_set())) by {
                        assert forall|g: GroupKey| !(pairs.contains(g) && mine.to_set().contains(g)) by {
                            if mine.contains(g) {
                                let k = choose|k: int| 0 <= k < mine.len() && mine[k] == g;
                                assert(g.0 == c);
                            }
                        }
                    }
                    vstd::set_lib::lemma_set_disjoint_lens(pairs, mine.to_set());
                    assert(both.subset_of(v.subscriptions_in(scope@))) by {
                        assert forall|g: GroupKey| both.contains(g) implies v.subscriptions_in(
                            scope@,
                        ).contains(g) by {
                            let k = choose|k: int|
                                0 <= k < i + 1 && (#[trigger] connections@[k]).0@ == g.0
                                    && connections@[k].1@ == scope@;
                            assert(v.connections.contains_key(connections@[k].0@));
                        }
                    }
                    vstd::set_lib::lemma_len_subset(both, v.subscriptions_in(scope@));
                    pairs = both;
                }
                connection_count = connection_count + 1;
                subscription_count = subscription_count + connections[i].2;
            }
            i = i + 1;
        }
        proof {
            names.unique_seq_to_set();
            assert(names.to_set() =~= v.connections_in(scope@)) by {
                assert forall|c: Seq<char>| #[trigger]
                    names.to_set().contains(c) <==> v.connections_in(scope@).contains(c) by {
                    if v.connections_in(scope@).contains(c) {
                        assert(v.connections.contains_key(c));
                        let k = choose|k: int|
                            0 <= k < connections@.len() && (#[trigger] connections@[k]).0@ == c;
                        assert(names.contains(c));
                    }
                    if names.contains(c) {
                        let k = choose|k: int|
                            0 <= k < connections@.len() && (#[trigger] connections@[k]).0@ == c
                                && connections@[k].1@ == scope@;
                        assert(v.connections.contains_key(connections@[k].0@));
                    }
                }
            }
            assert(pairs =~= v.subscriptions_in(scope@)) by {
                assert forall|g: GroupKey| #[trigger]
                    pairs.contains(g) <==> v.subscriptions_in(scope@).contains(g) by {
                    assert(names.contains(g.0) <==> names.to_set().contains(g.0));
                }
            }
        }
        (connection_count, subscription_count)
    }
}

/// The list gives each connection once, with its scope and its number of subscriptions.
spec fn listed(
    connections: Map<Seq<char>, ConnectionView>,
    list: Seq<(String, Scope, usize)>,
) -> bool {
    &&& forall|i: int|
        0 <= i < list.len() ==> {
            &&& connections.contains_key((#[trigger] list[i]).0@)
            &&& connections[list[i].0@].scope == list[i].1@
            &&& connections[list[i].0@].subscriptions.len() == list[i].2
        }
    &&& forall|i: int, j: int|
        0 <= i < j < list.len() ==> (#[trigger] list[i]).0@ != (#[trigger] list[j]).0@
    &&& forall|c: Seq<char>| #[trigger]
        connections.contains_key(c) ==> exists|i: int|
            0 <= i < list.len() && (#[trigger] list[i]).0@ == c
}

/// The subscriptions of the connections of a list.
spec fn pairs_of(v: RegistryView, names: Seq<Seq<char>>) -> Set<GroupKey> {
    Set::new(
        |g: GroupKey| names.contains(g.0) && v.connections[g.0].subscriptions.contains(g.1),
    )
}

proof fn lemma_listed_len(
    connections: Map<Seq<char>, ConnectionView>,
    list: Seq<(String, Scope, usize)>,
)
    requires
        listed(connections, list),
    ensures
        connections.len() == list.len(),
{
    let names = list.map_values(|p: (String, Scope, usize)| p.0@);
    assert(names.no_duplicates()) by {
        assert forall|a: int, b: int|
            0 <= a < names.len() && 0 <= b < names.len() && a != b implies names[a] != names[b] by {
            if a < b {
                assert(list[a].0@ != list[b].0@);
            } else {
                assert(list[b].0@ != list[a].0@);
            }
        }
    }
    names.unique_seq_to_set();
    assert(names.to_set() =~= connections.dom()) by {
        assert forall|c: Seq<char>| #[trigger]
            names.to_set().contains(c) <==> connections.dom().contains(c) by {
            if connections.contains_key(c) {
                let k = choose|k: int| 0 <= k < list.len() && (#[trigger] list[k]).0@ == c;
                assert(names[k] == c);
            }
            if names.contains(c) {
                let k = choose|k: int| 0 <= k < names.len() && names[k] == c;
                assert(list[k].0@ == c);
            }
        }
    }
}

/// A scope has finitely many subscriptions.
proof fn lemma_subscriptions_finite(v: RegistryView, scope: Option<Seq<char>>)
    requires
        v.wf(),
    ensures
        v.subscriptions_in(scope).finite(),
{
    lemma_pairs_finite(v, v.connections.dom());
    let all = Set::new(
        |g: GroupKey|
            v.connections.dom().contains(g.0) && v.connections[g.0].subscriptions.contains(g.1),
    );
    assert(v.subscriptions_in(scope).subset_of(all));
    vstd::set_lib::lemma_len_subset(v.subscriptions_in(scope), all);
}

/// The subscriptions of finitely many connections are finitely many.
pub proof fn lemma_pairs_finite(v: RegistryView, names: Set<Seq<char>>)
    requires
        names.finite(),
    ensures
        Set::new(
            |g: GroupKey| names.contains(g.0) && v.connections[g.0].subscriptions.contains(g.1),
        ).finite(),
    decreases names.len(),
{
    let all = Set::new(
        |g: GroupKey| names.contains(g.0) && v.connections[g.0].subscriptions.contains(g.1),
    );
    if names.len() == 0 {
        assert(all =~= Set::empty());
    } else {
        let c = names.choose();
        let rest = names.remove(c);
        lemma_pairs_finite(v, rest);
        let others = Set::new(
            |g: GroupKey| rest.contains(g.0) && v.connections[g.0].subscriptions.contains(g.1),
        );
        let subs = v.connections[c].subscriptions;
        let mine = subs.map_values(|s: Seq<char>| (c, s));
        assert forall|g: GroupKey| #[trigger]
            all.contains(g) <==> others.union(mine.to_set()).contains(g) by {
            if g.0 == c && subs.contains(g.1) {
                let k = choose|k: int| 0 <= k < subs.len() && subs[k] == g.1;
                assert(mine[k] == g);
            }
            if mine.contains(g) {
                let k = choose|k: int| 0 <= k < mine.len() && mine[k] == g;
                assert(subs[k] == g.1);
                assert(subs.contains(g.1));
            }
        }
        assert(all =~= others.union(mine.to_set()));
        vstd::seq_lib::seq_to_set_is_finite(mine);
    }
}

/// The figures of one scope.
pub struct ScopeDiagnostics {
    pub scope: Scope,
    pub connection_count: usize,
    pub subscription_count: usize,
    pub filter_count: usize,
    pub tracked_events: usize,
    pub authors_indexed: usize,
    pub kinds_indexed: usize,
    pub event_ids_indexed: usize,
    pub tags_indexed: usize,
}

impl ScopeDiagnostics {
    /// The figures are those of the scope's connections and of its index.
    pub open spec fn fits(self, v: RegistryView) -> bool {
        let s = self.scope@;
        &&& v.indexes.contains_key(s)
        &&& self.connection_count == v.connections_in(s).len()
        &&& self.subscription_count == v.subscriptions_in(s).len()
        &&& self.filter_count == v.indexes[s].filters.len()
        &&& self.tracked_events == v.indexes[s].filters_with_events().len()
        &&& self.authors_indexed == v.indexes[s].authors_in_use().len()
        &&& self.kinds_indexed == v.indexes[s].kinds_in_use().len()
        &&& self.event_ids_indexed == v.indexes[s].ids_in_use().len()
        &&& self.tags_indexed == v.indexes[s].tags_in_use().len()
    }
}

/// The figures of the registry.
pub struct RegistryDiagnostics {
    pub total_connections: usize,
    pub scope_diagnostics: Vec<ScopeDiagnostics>,
    pub empty_scopes: Vec<Scope>,
}

/// The connections of the deliveries that were not handed over.
pub open spec fn failed(deliveries: Seq<Delivery>, sent: Seq<bool>) -> Seq<Seq<char>>
    decreases sent.len(),
{
    if sent.len() == 0 {
        Seq::empty()
    } else if sent.last() {
        failed(deliveries.drop_last(), sent.drop_last())
    } else {
        failed(deliveries.drop_last(), sent.drop_last()).push(deliveries.last().connection_id@)
    }
}

/// The place of a text in a list.
fn position_of(list: &Vec<String>, text: &str) -> (r: Option<usize>)
    ensures
        match r {
            Some(i) => i < list@.len() && list@[i as int]@ == text@,
            None => !views(list@).contains(text@),
        },
{
    let mut i: usize = 0;
    while i < list.len()
        invariant
            i <= list@.len(),
            forall|j: int| 0 <= j < i ==> (#[trigger] list@[j])@ != text@,
        decreases list@.len() - i,
    {
        if str_eq(list[i].as_str(), text) {
            return Some(i);
        }
        i = i + 1;
    }
    proof {
        assert forall|j: int| 0 <= j < views(list@).len() implies views(list@)[j] != text@ by {
            assert(list@[j]@ != text@);
        }
    }
    None
}

impl RegistryView {
    /// The subscriptions of the connections and the groups of the indexes are the same: each
    /// subscription has its group in the index of the connection's scope, and nowhere else.
    pub open spec fn linked(self) -> bool {
        &&& forall|c: Seq<char>, s: Seq<char>|
            self.connections.contains_key(c) && #[trigger] self.connections[c].subscriptions.contains(
                s,
            ) ==> self.index(self.connections[c].scope).groups.contains_key((c, s))
        &&& forall|scope: Option<Seq<char>>, g: GroupKey|
            self.indexes.contains_key(scope) && #[trigger] self.indexes[scope].groups.contains_key(
                g,
            ) ==> {
                &&& self.connections.contains_key(g.0)
                &&& self.connections[g.0].scope == scope
                &&& self.connections[g.0].subscriptions.contains(g.1)
            }
    }
}

/// What is left of an index without some subscriptions of a connection.
proof fn lemma_without_subscriptions(
    index: IndexView,
    connection: Seq<char>,
    ids: Seq<Seq<char>>,
)
    ensures
        forall|g: GroupKey| #[trigger]
            without_subscriptions(index, connection, ids).groups.contains_key(g) <==> (
            index.groups.contains_key(g) && !(g.0 == connection && ids.contains(g.1))),
    decreases ids.len(),
{
    if ids.len() > 0 {
        lemma_without_subscriptions(index, connection, ids.drop_last());
        assert forall|g: GroupKey| #[trigger]
            without_subscriptions(index, connection, ids).groups.contains_key(g) <==> (
            index.groups.contains_key(g) && !(g.0 == connection && ids.contains(g.1))) by {
            let before = without_subscriptions(index, connection, ids.drop_last());
            assert(before.groups.contains_key(g) <==> (index.groups.contains_key(g) && !(g.0
                == connection && ids.drop_last().contains(g.1))));
            if ids.contains(g.1) {
                let i = choose|i: int| 0 <= i < ids.len() && ids[i] == g.1;
                if i < ids.len() - 1 {
                    assert(ids.drop_last()[i] == g.1);
                } else {
                    assert(ids.last() == g.1);
                }
            }
            if ids.drop_last().contains(g.1) {
                let i = choose|i: int| 0 <= i < ids.drop_last().len() && ids.drop_last()[i] == g.1;
                assert(ids[i] == g.1);
            }
            assert(ids[ids.len() - 1] == ids.last());
        }
    }
}

/// Connections and indexes stay linked under every operation; a connection is registered
/// under an identifier that is not in use.
pub proof fn law_operations_keep_links(
    v: RegistryView,
    connection: Seq<char>,
    subscription: Seq<char>,
    filters: Seq<FilterView>,
    auth_pubkey: Option<PublicKey>,
    scope: Option<Seq<char>>,
    e: EventView,
)
    requires
        v.wf(),
        v.linked(),
    ensures
        !v.connections.contains_key(connection) ==> v.registered(
            connection,
            auth_pubkey,
            scope,
        ).linked(),
        v.connections.contains_key(connection) ==> v.subscribed(
            connection,
            subscription,
            filters,
        ).linked(),
        v.connections.contains_key(connection) && v.connections[connection].subscriptions.contains(
            subscription,
        ) ==> v.unsubscribed(connection, subscription).linked(),
        v.cleaned(connection).linked(),
        v.after_event(scope, e).linked(),
{
    if !v.connections.contains_key(connection) {
        let r = v.registered(connection, auth_pubkey, scope);
        assert forall|c: Seq<char>, s: Seq<char>|
            r.connections.contains_key(c) && #[trigger] r.connections[c].subscriptions.contains(
                s,
            ) implies r.index(r.connections[c].scope).groups.contains_key((c, s)) by {
            assert(v.connections[c].subscriptions.contains(s));
        }
        assert forall|sc: Option<Seq<char>>, g: GroupKey|
            r.indexes.contains_key(sc) && #[trigger] r.indexes[sc].groups.contains_key(g) implies {
            &&& r.connections.contains_key(g.0)
            &&& r.connections[g.0].scope == sc
            &&& r.connections[g.0].subscriptions.contains(g.1)
        } by {
            assert(v.indexes[sc].groups.contains_key(g));
        }
    }
    if v.connections.contains_key(connection) {
        let c0 = v.connections[connection];
        let r = v.subscribed(connection, subscription, filters);
        let subs = r.connections[connection].subscriptions;
        assert forall|s: Seq<char>| #[trigger] subs.contains(s) <==> c0.subscriptions.contains(s)
            || s == subscription by {
            if !c0.subscriptions.contains(subscription) {
                if c0.subscriptions.contains(s) {
                    let i = choose|i: int|
                        0 <= i < c0.subscriptions.len() && c0.subscriptions[i] == s;
                    assert(subs[i] == s);
                }
                assert(subs[c0.subscriptions.len() as int] == subscription);
                if subs.contains(s) && s != subscription {
                    let i = choose|i: int| 0 <= i < subs.len() && subs[i] == s;
                    assert(c0.subscriptions[i] == s);
                }
            }
        }
        assert forall|c: Seq<char>, s: Seq<char>|
            r.connections.contains_key(c) && #[trigger] r.connections[c].subscriptions.contains(
                s,
            ) implies r.index(r.connections[c].scope).groups.contains_key((c, s)) by {
            if c == connection {
                if s != subscription {
                    assert(v.connections[c].subscriptions.contains(s));
                }
            } else {
                assert(v.connections[c].subscriptions.contains(s));
            }
        }
        assert forall|sc: Option<Seq<char>>, g: GroupKey|
            r.indexes.contains_key(sc) && #[trigger] r.indexes[sc].groups.contains_key(g) implies {
            &&& r.connections.contains_key(g.0)
            &&& r.connections[g.0].scope == sc
            &&& r.connections[g.0].subscriptions.contains(g.1)
        } by {
            if g == (connection, subscription) && sc == c0.scope {
                assert(subs.contains(subscription));
            } else {
                assert(v.index(sc).groups.contains_key(g));
                assert(v.indexes[sc].groups.contains_key(g));
            }
        }
        if c0.subscriptions.contains(subscription) {
            let r2 = v.unsubscribed(connection, subscription);
            let at = c0.subscriptions.index_of(subscription);
            let left = c0.subscriptions.remove(at);
            assert(0 <= at < c0.subscriptions.len() && c0.subscriptions[at] == subscription);
            assert forall|s: Seq<char>| #[trigger] left.contains(s) <==> c0.subscriptions.contains(
                s,
            ) && s != subscription by {
                if left.contains(s) {
                    let i = choose|i: int| 0 <= i < left.len() && left[i] == s;
                    let j = if i < at { i } else { i + 1 };
                    assert(c0.subscriptions[j] == s);
                }
                if c0.subscriptions.contains(s) && s != subscription {
                    let j = choose|j: int|
                        0 <= j < c0.subscriptions.len() && c0.subscriptions[j] == s;
                    let i = if j < at { j } else { j - 1 };
                    assert(left[i] == s);
                }
            }
            assert(v.index(c0.scope).groups.contains_key((connection, subscription)));
            assert forall|c: Seq<char>, s: Seq<char>|
                r2.connections.contains_key(c) && #[trigger] r2.connections[c].subscriptions.contains(
                    s,
                ) implies r2.index(r2.connections[c].scope).groups.contains_key((c, s)) by {
                assert(v.connections[c].subscriptions.contains(s));
            }
            assert forall|sc: Option<Seq<char>>, g: GroupKey|
                r2.indexes.contains_key(sc) && #[trigger] r2.indexes[sc].groups.contains_key(
                    g,
                ) implies {
                &&& r2.connections.contains_key(g.0)
                &&& r2.connections[g.0].scope == sc
                &&& r2.connections[g.0].subscriptions.contains(g.1)
            } by {
                assert(v.indexes[sc].groups.contains_key(g));
            }
        }
        let r3 = v.cleaned(connection);
        if v.indexes.contains_key(c0.scope) {
            lemma_without_subscriptions(v.indexes[c0.scope], connection, c0.subscriptions);
        }
        assert forall|c: Seq<char>, s: Seq<char>|
            r3.connections.contains_key(c) && #[trigger] r3.connections[c].subscriptions.contains(
                s,
            ) implies r3.index(r3.connections[c].scope).groups.contains_key((c, s)) by {
            assert(v.connections[c].subscriptions.contains(s));
        }
        assert forall|sc: Option<Seq<char>>, g: GroupKey|
            r3.indexes.contains_key(sc) && #[trigger] r3.indexes[sc].groups.contains_key(g) implies {
            &&& r3.connections.contains_key(g.0)
            &&& r3.connections[g.0].scope == sc
            &&& r3.connections[g.0].subscriptions.contains(g.1)
        } by {
            assert(v.indexes[sc].groups.contains_key(g));
        }
    }
    let r4 = v.after_event(scope, e);
    assert forall|c: Seq<char>, s: Seq<char>|
        r4.connections.contains_key(c) && #[trigger] r4.connections[c].subscriptions.contains(
            s,
        ) implies r4.index(r4.connections[c].scope).groups.contains_key((c, s)) by {
        assert(v.connections[c].subscriptions.contains(s));
    }
    assert forall|sc: Option<Seq<char>>, g: GroupKey|
        r4.indexes.contains_key(sc) && #[trigger] r4.indexes[sc].groups.contains_key(g) implies {
        &&& r4.connections.contains_key(g.0)
        &&& r4.connections[g.0].scope == sc
        &&& r4.connections[g.0].subscriptions.contains(g.1)
    } by {
        assert(v.indexes[sc].groups.contains_key(g));
    }
}

/// The members of a list whose connections are there.
proof fn lemma_connected(connections: Map<Seq<char>, ConnectionView>, list: Seq<GroupKey>)
    ensures
        forall|g: GroupKey| #[trigger]
            connected(connections, list).contains(g) <==> list.contains(g)
                && connections.contains_key(g.0),
    decreases list.len(),
{
    if list.len() > 0 {
        lemma_connected(connections, list.drop_last());
        let before = connected(connections, list.drop_last());
        assert forall|g: GroupKey| #[trigger]
            connected(connections, list).contains(g) <==> list.contains(g)
                && connections.contains_key(g.0) by {
            if list.contains(g) {
                let i = choose|i: int| 0 <= i < list.len() && list[i] == g;
                if i < list.len() - 1 {
                    assert(list.drop_last()[i] == g);
                    assert(list.drop_last().contains(g));
                }
            }
            if list.drop_last().contains(g) {
                let i = choose|i: int| 0 <= i < list.drop_last().len() && list.drop_last()[i] == g;
                assert(list[i] == g);
            }
            assert(list[list.len() - 1] == list.last());
            if connections.contains_key(list.last().0) {
                let s = before.push(list.last());
                if before.contains(g) {
                    let i = choose|i: int| 0 <= i < before.len() && before[i] == g;
                    assert(s[i] == g);
                }
                assert(s[before.len() as int] == list.last());
                if s.contains(g) && g != list.last() {
                    let i = choose|i: int| 0 <= i < s.len() && s[i] == g;
                    assert(before[i] == g);
                }
            }
        }
    }
}

/// An event goes only to connections of the scope that it was published in, and to every
/// subscription there that has a matching filter and did not receive the event just before.
pub proof fn law_scopes_are_isolated(v: RegistryView, scope: Option<Seq<char>>, e: EventView)
    requires
        v.wf(),
        v.linked(),
    ensures
        forall|g: GroupKey| #[trigger]
            v.recipients(scope, e).contains(g) <==> v.index(scope).receives(e, g),
        forall|g: GroupKey| #[trigger]
            v.recipients(scope, e).contains(g) ==> v.connections.contains_key(g.0)
                && v.connections[g.0].scope == scope && v.connections[g.0].subscriptions.contains(g.1),
        forall|other: Option<Seq<char>>|
            other != scope ==> #[trigger] v.after_event(scope, e).index(other) == v.index(other),
{
    if v.indexes.contains_key(scope) {
        let index = v.indexes[scope];
        crate::index_model::law_distribution_is_exact(index, e);
        lemma_connected(v.connections, index.deliveries(e, index.candidates(e)));
        assert forall|g: GroupKey| index.receives(e, g) implies #[trigger] v.connections.contains_key(
            g.0,
        ) by {
            assert(index.groups.contains_key(g));
        }
        assert forall|g: GroupKey| #[trigger] v.recipients(scope, e).contains(g) implies {
            &&& v.connections.contains_key(g.0)
            &&& v.connections[g.0].scope == scope
            &&& v.connections[g.0].subscriptions.contains(g.1)
        } by {
            assert(index.receives(e, g));
            assert(v.indexes[scope].groups.contains_key(g));
        }
        assert forall|g: GroupKey| #[trigger] v.recipients(scope, e).contains(g)
            <==> v.index(scope).receives(e, g) by {
            if index.receives(e, g) {
                assert(v.indexes[scope].groups.contains_key(g));
                assert(index.deliveries(e, index.candidates(e)).contains(g));
            }
        }
    }
}

/// A subscription in one scope changes nothing for the events of another.
pub proof fn law_subscribing_elsewhere_changes_nothing(
    v: RegistryView,
    connection: Seq<char>,
    subscription: Seq<char>,
    filters: Seq<FilterView>,
    scope: Option<Seq<char>>,
    e: EventView,
)
    requires
        v.connections.contains_key(connection),
        v.connections[connection].scope != scope,
    ensures
        v.subscribed(connection, subscription, filters).recipients(scope, e) == v.recipients(
            scope,
            e,
        ),
{
    let r = v.subscribed(connection, subscription, filters);
    if v.indexes.contains_key(scope) {
        let index = v.indexes[scope];
        lemma_connected_same(
            v.connections,
            r.connections,
            index.deliveries(e, index.candidates(e)),
        );
    }
}

proof fn lemma_connected_same(
    a: Map<Seq<char>, ConnectionView>,
    b: Map<Seq<char>, ConnectionView>,
    list: Seq<GroupKey>,
)
    requires
        forall|c: Seq<char>| #[trigger] a.contains_key(c) <==> b.contains_key(c),
    ensures
        connected(a, list) == connected(b, list),
    decreases list.len(),
{
    if list.len() > 0 {
        lemma_connected_same(a, b, list.drop_last());
        assert(a.contains_key(list.last().0) <==> b.contains_key(list.last().0));
    }
}

/// After a connection was cleaned up, no index holds a subscription of it, and no event is sent to
/// it.
pub proof fn law_cleanup_leaves_nothing(v: RegistryView, connection: Seq<char>)
    requires
        v.wf(),
        v.linked(),
    ensures
        !v.cleaned(connection).connections.contains_key(connection),
        forall|scope: Option<Seq<char>>, s: Seq<char>|
            v.cleaned(connection).indexes.contains_key(scope) ==> !#[trigger] v.cleaned(
                connection,
            ).indexes[scope].groups.contains_key((connection, s)),
        forall|scope: Option<Seq<char>>, e: EventView, g: GroupKey| #[trigger]
            v.cleaned(connection).recipients(scope, e).contains(g) ==> g.0 != connection,
{
    let r = v.cleaned(connection);
    assert forall|scope: Option<Seq<char>>, e: EventView, g: GroupKey| #[trigger]
        r.recipients(scope, e).contains(g) implies g.0 != connection by {
        if r.indexes.contains_key(scope) {
            let index = r.indexes[scope];
            lemma_connected(r.connections, index.deliveries(e, index.candidates(e)));
        }
    }
    if v.connections.contains_key(connection) {
        let c0 = v.connections[connection];
        if v.indexes.contains_key(c0.scope) {
            lemma_without_subscriptions(v.indexes[c0.scope], connection, c0.subscriptions);
        }
    }
    assert forall|scope: Option<Seq<char>>, s: Seq<char>|
        r.indexes.contains_key(scope) implies !#[trigger] r.indexes[scope].groups.contains_key(
        (connection, s),
    ) by {
        if r.indexes[scope].groups.contains_key((connection, s)) {
            assert(v.indexes[scope].groups.contains_key((connection, s)));
        }
    }
}

proof fn lemma_connected_once(connections: Map<Seq<char>, ConnectionView>, list: Seq<GroupKey>)
    requires
        list.no_duplicates(),
    ensures
        connected(connections, list).no_duplicates(),
    decreases list.len(),
{
    if list.len() > 0 {
        let init = list.drop_last();
        let before = connected(connections, init);
        lemma_connected_once(connections, init);
        lemma_connected(connections, init);
        if before.contains(list.last()) {
            assert(init.contains(list.last()));
            let i = choose|i: int| 0 <= i < init.len() && init[i] == list.last();
            assert(list[i] == list[list.len() - 1]);
        }
        let more = before.push(list.last());
        assert forall|i: int, j: int|
            0 <= i < more.len() && 0 <= j < more.len() && i != j implies more[i] != more[j] by {
            if i < before.len() && j < before.len() {
                assert(before[i] != before[j]);
            } else if i < before.len() {
                assert(before.contains(before[i]));
            } else {
                assert(before.contains(before[j]));
            }
        }
    }
}

/// An event that is published in a scope goes, once each, to the subscriptions of that scope whose
/// connection is there and of which a filter matches the event, unless the subscription or the
/// filter saw that very event last.
pub proof fn law_recipients_are_exact(
    v: RegistryView,
    scope: Option<Seq<char>>,
    e: EventView,
    g: GroupKey,
)
    requires
        v.wf(),
    ensures
        v.recipients(scope, e).no_duplicates(),
        v.recipients(scope, e).contains(g) <==> {
            &&& v.connections.contains_key(g.0)
            &&& v.indexes.contains_key(scope)
            &&& v.indexes[scope].groups.contains_key(g)
            &&& v.indexes[scope].groups[g].last_seen != Some(e.id)
            &&& exists|id: u64| #[trigger]
                v.indexes[scope].groups[g].filter_ids.contains(id)
                    && v.indexes[scope].filters[id].last_seen != Some(e.id) && filter_matches(
                    v.indexes[scope].filters[id].filter,
                    e,
                )
        },
{
    if v.indexes.contains_key(scope) {
        let index = v.indexes[scope];
        law_matching_filters_deliver(index, e, g);
        lemma_connected(v.connections, index.deliveries(e, index.candidates(e)));
        lemma_connected_once(v.connections, index.deliveries(e, index.candidates(e)));
    }
}

/// A subscription that is opened on a connection receives an event of the connection's scope exactly
/// when one of its filters matches the event, and no event of another scope. It is one more
/// subscription of the connection, and nothing changes for other connections.
pub proof fn law_opened_subscription_receives(
    v: RegistryView,
    connection: Seq<char>,
    subscription: Seq<char>,
    filters: Seq<FilterView>,
    scope: Option<Seq<char>>,
    e: EventView,
)
    requires
        v.wf(),
        v.linked(),
        v.connections.contains_key(connection),
        !v.connections[connection].subscriptions.contains(subscription),
        filters_wf(filters),
        v.index(v.connections[connection].scope).next_id + filters.len() <= u64::MAX,
    ensures
        v.subscribed(connection, subscription, filters).recipients(scope, e).contains(
            (connection, subscription),
        ) <==> scope == v.connections[connection].scope && exists|i: int|
            0 <= i < filters.len() && filter_matches(#[trigger] filters[i], e),
        v.subscribed(connection, subscription, filters).connections.dom() == v.connections.dom(),
        v.subscribed(connection, subscription, filters).connections[connection].subscriptions
            == v.connections[connection].subscriptions.push(subscription),
        v.subscribed(connection, subscription, filters).connections[connection].scope
            == v.connections[connection].scope,
        v.subscribed(connection, subscription, filters).connections[connection].auth_pubkey
            == v.connections[connection].auth_pubkey,
        forall|other: Seq<char>|
            other != connection && v.connections.contains_key(other)
                ==> #[trigger] v.subscribed(connection, subscription, filters).connections[other]
                == v.connections[other],
        forall|other: Option<Seq<char>>|
            other != v.connections[connection].scope ==> #[trigger] v.subscribed(
                connection,
                subscription,
                filters,
            ).index(other) == v.index(other),
{
    let r = v.subscribed(connection, subscription, filters);
    let g = (connection, subscription);
    let home = v.connections[connection].scope;
    let index = v.index(home);
    assert(r.connections.dom() =~= v.connections.dom());
    if v.indexes.contains_key(home) && v.indexes[home].groups.contains_key(g) {
        assert(v.connections[connection].subscriptions.contains(subscription));
    }
    if !v.indexes.contains_key(home) {
        assert(index.filters.dom() =~= Set::empty());
        assert(index.groups.dom() =~= Set::empty());
    }
    assert(index.wf());
    crate::index_model::lemma_added_wf(index, g, filters);
    crate::index_model::law_new_subscription_receives(index, g, filters, e);
    if scope == home {
        let added = index.added(g, filters);
        assert(r.indexes[home] == added);
        crate::index_model::law_distribution_is_exact(added, e);
        lemma_connected(r.connections, added.deliveries(e, added.candidates(e)));
    } else if r.indexes.contains_key(scope) {
        let other = v.indexes[scope];
        assert(r.indexes[scope] == other);
        crate::index_model::law_distribution_is_exact(other, e);
        lemma_connected(r.connections, other.deliveries(e, other.candidates(e)));
        if other.receives(e, g) {
            assert(other.groups.contains_key(g));
        }
    }
}

/// A subscription that is ended receives nothing any more, in any scope; the other subscriptions of
/// the connection and all other connections stay.
pub proof fn law_ended_subscription_receives_nothing(
    v: RegistryView,
    connection: Seq<char>,
    subscription: Seq<char>,
    scope: Option<Seq<char>>,
    e: EventView,
)
    requires
        v.wf(),
        v.linked(),
        v.connections.contains_key(connection),
        v.connections[connection].subscriptions.contains(subscription),
    ensures
        !v.unsubscribed(connection, subscription).recipients(scope, e).contains(
            (connection, subscription),
        ),
        v.unsubscribed(connection, subscription).connections.dom() == v.connections.dom(),
        forall|s: Seq<char>|
            s != subscription ==> (#[trigger] v.unsubscribed(
                connection,
                subscription,
            ).connections[connection].subscriptions.contains(s)
                <==> v.connections[connection].subscriptions.contains(s)),
        !v.unsubscribed(connection, subscription).connections[connection].subscriptions.contains(
            subscription,
        ),
        forall|other: Seq<char>|
            other != connection && v.connections.contains_key(other)
                ==> #[trigger] v.unsubscribed(connection, subscription).connections[other]
                == v.connections[other],
{
    let r = v.unsubscribed(connection, subscription);
    let g = (connection, subscription);
    let home = v.connections[connection].scope;
    let subs = v.connections[connection].subscriptions;
    let at = subs.index_of(subscription);
    let left = subs.remove(at);
    assert(0 <= at < subs.len() && subs[at] == subscription);
    assert(r.connections.dom() =~= v.connections.dom());
    assert forall|s: Seq<char>| s != subscription implies (#[trigger] left.contains(s)
        <==> subs.contains(s)) by {
        if subs.contains(s) {
            let k = choose|k: int| 0 <= k < subs.len() && subs[k] == s;
            assert(left[if k < at { k } else { k - 1 }] == s);
        }
        if left.contains(s) {
            let k = choose|k: int| 0 <= k < left.len() && left[k] == s;
            assert(subs[if k < at { k } else { k + 1 }] == s);
        }
    }
    if left.contains(subscription) {
        let k = choose|k: int| 0 <= k < left.len() && left[k] == subscription;
        let k2 = if k < at { k } else { k + 1 };
        assert(subs[k2] == subs[at]);
    }
    if r.indexes.contains_key(scope) {
        let index = r.indexes[scope];
        if scope == home {
            crate::index_model::lemma_removed_wf(v.indexes[scope], g);
        }
        assert(index.wf());
        crate::index_model::law_distribution_is_exact(index, e);
        lemma_connected(r.connections, index.deliveries(e, index.candidates(e)));
        if index.receives(e, g) {
            assert(index.groups.contains_key(g));
            if scope != home {
                assert(v.indexes[scope].groups.contains_key(g));
            }
        }
    }
}

/// When deliveries are settled, exactly the connections are gone that a delivery could not be handed
/// to; the others are as they were.
pub proof fn law_settling_removes_the_unreachable(
    v: RegistryView,
    deliveries: Seq<Delivery>,
    sent: Seq<bool>,
    c: Seq<char>,
)
    requires
        deliveries.len() == sent.len(),
    ensures
        v.all_cleaned(failed(deliveries, sent)).connections.contains_key(c)
            <==> v.connections.contains_key(c) && forall|i: int|
            0 <= i < sent.len() && !#[trigger] sent[i] ==> deliveries[i].connection_id@ != c,
        v.all_cleaned(failed(deliveries, sent)).connections.contains_key(c) ==> v.all_cleaned(
            failed(deliveries, sent),
        ).connections[c] == v.connections[c],
    decreases sent.len(),
{
    if sent.len() > 0 {
        let d = deliveries.drop_last();
        let s = sent.drop_last();
        law_settling_removes_the_unreachable(v, d, s, c);
        let list = failed(d, s);
        let last = deliveries.last().connection_id@;
        if !sent.last() {
            assert(list.push(last).drop_last() =~= list);
        }
        if forall|i: int| 0 <= i < sent.len() && !#[trigger] sent[i] ==> deliveries[i].connection_id@
            != c {
            assert forall|i: int| 0 <= i < s.len() && !#[trigger] s[i] implies d[i].connection_id@
                != c by {
                assert(sent[i] == s[i]);
            }
            if !sent.last() {
                assert(!sent[sent.len() - 1]);
            }
        } else {
            let i = choose|i: int|
                0 <= i < sent.len() && !#[trigger] sent[i] && deliveries[i].connection_id@ == c;
            if i < s.len() {
                assert(!s[i] && d[i].connection_id@ == c);
            }
        }
    }
}

/// The text that brings an event to a subscription is a JSON list: the word for events, the
/// subscription in quotes, and the JSON text of the event as it is.
pub proof fn law_delivery_text_frames_the_event(subscription: Seq<char>, json: Seq<char>)
    ensures
        "[\"EVENT\",\""@.is_prefix_of(event_message_text(subscription, json)),
        (json + "]"@).is_suffix_of(event_message_text(subscription, json)),
        event_message_text(subscription, json).subrange(10, 10 + subscription.len() as int)
            == subscription,
        event_message_text(subscription, json).len() == 10 + subscription.len() + 2 + json.len() + 1,
        event_message_text(subscription, json)[10 + subscription.len() as int] == '"',
        event_message_text(subscription, json)[11 + subscription.len() as int] == ',',
{
    reveal_strlit("[\"EVENT\",\"");
    reveal_strlit("\",");
    reveal_strlit("]");
    let head = "[\"EVENT\",\""@;
    let text = event_message_text(subscription, json);
    assert(text.subrange(0, 10) =~= head);
    assert(text.subrange(10, 10 + subscription.len() as int) =~= subscription);
    assert(text.subrange(text.len() - json.len() - 1, text.len() as int) =~= json + "]"@);
}

/// The connections of a scope are those that work in it, and its subscriptions are theirs.
pub proof fn law_figures_count_what_is_there(v: RegistryView, scope: Option<Seq<char>>, g: GroupKey)
    ensures
        v.connections_in(scope).contains(g.0) <==> v.connections.contains_key(g.0)
            && v.connections[g.0].scope == scope,
        v.subscriptions_in(scope).contains(g) <==> v.connections.contains_key(g.0)
            && v.connections[g.0].scope == scope && v.connections[g.0].subscriptions.contains(g.1),
{
}

/// Distributing an event in a scope prepares one delivery for each subscription of the scope whose
/// connection is there and of which a filter matches the event, unless the subscription or the filter
/// saw that very event last. Connections stay, and so do the other scopes.
pub proof fn law_events_are_delivered(
    before: SubscriptionRegistry,
    after: SubscriptionRegistry,
    event: Event,
    scope: Scope,
    r: Vec<Delivery>,
    g: GroupKey,
)
    requires
        before.wf(),
        exists|registry: &mut SubscriptionRegistry|
            {
                &&& #[trigger] call_ensures(
                    SubscriptionRegistry::distribute_event_indexed,
                    (registry, &event, &scope),
                    r,
                )
                &&& *registry == before
                &&& *final(registry) == after
            },
    ensures
        (exists|i: int| 0 <= i < r@.len() && (#[trigger] r@[i]).brings(g, event@)) <==> {
            &&& before@.connections.contains_key(g.0)
            &&& before@.indexes.contains_key(scope@)
            &&& before@.indexes[scope@].groups.contains_key(g)
            &&& before@.indexes[scope@].groups[g].last_seen != Some(event.id)
            &&& exists|id: u64| #[trigger]
                before@.indexes[scope@].groups[g].filter_ids.contains(id)
                    && before@.indexes[scope@].filters[id].last_seen != Some(event.id)
                    && filter_matches(before@.indexes[scope@].filters[id].filter, event@)
        },
        forall|i: int, j: int|
            0 <= i < j < r@.len() && (#[trigger] r@[i]).brings(g, event@)
                ==> !(#[trigger] r@[j]).brings(g, event@),
        after@.connections == before@.connections,
        forall|other: Option<Seq<char>>|
            other != scope@ ==> #[trigger] after@.index(other) == before@.index(other),
{
    before.lemma_model();
    law_recipients_are_exact(before@, scope@, event@, g);
    let list = before@.recipients(scope@, event@);
    if exists|i: int| 0 <= i < r@.len() && (#[trigger] r@[i]).brings(g, event@) {
        let i = choose|i: int| 0 <= i < r@.len() && (#[trigger] r@[i]).brings(g, event@);
        assert(r@[i].brings(list[i], event@));
        assert(list[i] == g);
    }
    if list.contains(g) {
        let i = choose|i: int| 0 <= i < list.len() && list[i] == g;
        assert(r@[i].brings(list[i], event@));
    }
    assert forall|i: int, j: int| 0 <= i < j < r@.len() && (#[trigger] r@[i]).brings(
        g,
        event@,
    ) implies !(#[trigger] r@[j]).brings(g, event@) by {
        assert(r@[i].brings(list[i], event@));
        assert(r@[j].brings(list[j], event@));
        if r@[j].brings(g, event@) {
            assert(list[i] == g && list[j] == g);
        }
    }
}

/// A delivery goes to the connection of its subscription, and carries the event under the name of the
/// subscription.
pub proof fn law_deliveries_name_their_subscription(d: Delivery, g: GroupKey, e: EventView)
    requires
        d.brings(g, e),
    ensures
        d.connection_id@ == g.0,
        d.message@ == (RelayMessageView::Event { subscription_id: g.1, event: e }),
        has_substring(d.json@, sdk::event_json(e)),
        has_substring(d.json@, g.1),
{
    reveal_strlit("[\"EVENT\",\"");
    reveal_strlit("\",");
    reveal_strlit("]");
    let json = sdk::event_json(e);
    let head = "[\"EVENT\",\""@;
    let middle = "\","@;
    let end = "]"@;
    law_substring_stands_between(d.json@, json);
    law_substring_stands_between(d.json@, g.1);
    assert(d.json@ =~= (head + g.1 + middle) + json + end);
    assert(d.json@ =~= head + g.1 + (middle + json + end));
}

proof fn lemma_without_keeps_others(index: IndexView, connection: Seq<char>, ids: Seq<Seq<char>>)
    ensures
        forall|g: GroupKey|
            g.0 != connection ==> (#[trigger] without_subscriptions(
                index,
                connection,
                ids,
            ).groups.contains_key(g) <==> index.groups.contains_key(g)) && without_subscriptions(
                index,
                connection,
                ids,
            ).groups[g] == index.groups[g],
        forall|id: u64|
            index.filters.contains_key(id) && index.filters[id].parent.0 != connection
                ==> #[trigger] without_subscriptions(index, connection, ids).filters.contains_key(id)
                && without_subscriptions(index, connection, ids).filters[id] == index.filters[id],
    decreases ids.len(),
{
    if ids.len() > 0 {
        lemma_without_keeps_others(index, connection, ids.drop_last());
        let before = without_subscriptions(index, connection, ids.drop_last());
        let r = without_subscriptions(index, connection, ids);
        assert(r == before.removed((connection, ids.last())));
        assert forall|g: GroupKey| g.0 != connection implies (#[trigger] r.groups.contains_key(g)
            <==> index.groups.contains_key(g)) && r.groups[g] == index.groups[g] by {
            assert(before.groups.contains_key(g) <==> index.groups.contains_key(g));
        }
        assert forall|id: u64|
            index.filters.contains_key(id) && index.filters[id].parent.0
                != connection implies #[trigger] r.filters.contains_key(id) && r.filters[id]
            == index.filters[id] by {
            assert(before.filters.contains_key(id));
        }
    }
}

/// Cleaning a connection up changes nothing for the others: they stay as they are, and so do their
/// subscriptions and filters.
pub proof fn law_cleanup_keeps_the_others(v: RegistryView, connection: Seq<char>)
    ensures
        forall|c: Seq<char>|
            c != connection ==> (#[trigger] v.cleaned(connection).connections.contains_key(c)
                <==> v.connections.contains_key(c)) && v.cleaned(connection).connections[c]
                == v.connections[c],
        v.cleaned(connection).indexes.dom() == v.indexes.dom(),
        forall|scope: Option<Seq<char>>, g: GroupKey|
            v.indexes.contains_key(scope) && g.0 != connection ==> (#[trigger] v.cleaned(
                connection,
            ).indexes[scope].groups.contains_key(g) <==> v.indexes[scope].groups.contains_key(g))
                && v.cleaned(connection).indexes[scope].groups[g] == v.indexes[scope].groups[g],
        forall|scope: Option<Seq<char>>, id: u64|
            v.indexes.contains_key(scope) && v.indexes[scope].filters.contains_key(id)
                && v.indexes[scope].filters[id].parent.0 != connection ==> #[trigger] v.cleaned(
                connection,
            ).indexes[scope].filters.contains_key(id) && v.cleaned(connection).indexes[scope].filters[id]
                == v.indexes[scope].filters[id],
{
    let r = v.cleaned(connection);
    assert(r.indexes.dom() =~= v.indexes.dom());
    if v.connections.contains_key(connection) {
        let c = v.connections[connection];
        if v.indexes.contains_key(c.scope) {
            lemma_without_keeps_others(v.indexes[c.scope], connection, c.subscriptions);
        }
    }
}

/// A connection that is registered is there, with its key and its scope and without subscriptions;
/// the others, and all indexes, stay as they are.
pub proof fn law_registered_connections_are_there(
    v: RegistryView,
    connection: Seq<char>,
    auth_pubkey: Option<PublicKey>,
    scope: Option<Seq<char>>,
    other: Seq<char>,
)
    ensures
        v.registered(connection, auth_pubkey, scope).connections.contains_key(connection),
        v.registered(connection, auth_pubkey, scope).connections[connection].auth_pubkey
            == auth_pubkey,
        v.registered(connection, auth_pubkey, scope).connections[connection].scope == scope,
        v.registered(connection, auth_pubkey, scope).connections[connection].subscriptions.len() == 0,
        other != connection ==> (v.registered(
            connection,
            auth_pubkey,
            scope,
        ).connections.contains_key(other) <==> v.connections.contains_key(other)) && v.registered(
            connection,
            auth_pubkey,
            scope,
        ).connections[other] == v.connections[other],
        v.registered(connection, auth_pubkey, scope).indexes == v.indexes,
{
}

/// The figures of a scope are those of the connections that work in it, of their subscriptions, and of
/// the filters of its index.
pub proof fn law_figures_of_a_scope(d: ScopeDiagnostics, v: RegistryView)
    requires
        d.fits(v),
    ensures
        v.indexes.contains_key(d.scope@),
        d.connection_count == Set::new(
            |c: Seq<char>| v.connections.contains_key(c) && v.connections[c].scope == d.scope@,
        ).len(),
        d.subscription_count == Set::new(
            |g: GroupKey|
                v.connections.contains_key(g.0) && v.connections[g.0].scope == d.scope@
                    && v.connections[g.0].subscriptions.contains(g.1),
        ).len(),
        d.filter_count == v.indexes[d.scope@].filters.dom().len(),
        d.tracked_events == v.indexes[d.scope@].filters.dom().filter(
            |id: u64| v.indexes[d.scope@].filters[id].last_seen is Some,
        ).len(),
        d.authors_indexed == v.indexes[d.scope@].authors_in_use().len(),
        d.kinds_indexed == v.indexes[d.scope@].kinds_in_use().len(),
        d.event_ids_indexed == v.indexes[d.scope@].ids_in_use().len(),
        d.tags_indexed == v.indexes[d.scope@].tags_in_use().len(),
{
    let s = d.scope@;
    assert(v.connections_in(s) =~= Set::new(
        |c: Seq<char>| v.connections.contains_key(c) && v.connections[c].scope == s,
    ));
    assert(v.subscriptions_in(s) =~= Set::new(
        |g: GroupKey|
            v.connections.contains_key(g.0) && v.connections[g.0].scope == s
                && v.connections[g.0].subscriptions.contains(g.1),
    ));
}

} // verus!
