//! The configuration of a relay.

use crate::error::Error;
use crate::protocol::Scope;
use crate::subdomain::{
    extract_subdomain, is_address, is_dotted_address, is_local_or_address, subdomain_of,
};
use crate::text::{
    join_with, law_split_after_join, lemma_split_prepend, lemma_split_single, split_on, split_string,
    str_eq, views,
};
use crate::web::{host_of_url, url_host};
use nostr_sdk::Keys;
use vstd::prelude::*;

verus! {

#[verifier::external_type_specification]
#[verifier::external_body]
pub struct ExKeys(Keys);

/// How the scope of a connection is found.
#[derive(Debug)]
pub enum ScopeConfig {
    /// Every connection works in the default scope.
    Disabled,
    /// The subdomain of the host names the scope. The domain itself has the given number of
    /// parts.
    Subdomain { base_domain_parts: usize },
    /// Every connection works in the same scope.
    Fixed { scope: Scope },
}

/// The scope of a connection to a host.
pub open spec fn resolved_scope(config: ScopeConfig, host: Option<Seq<char>>) -> Option<Seq<char>> {
    match config {
        ScopeConfig::Disabled => None,
        ScopeConfig::Fixed { scope } => scope@,
        ScopeConfig::Subdomain { base_domain_parts } => match host {
            Some(h) => match subdomain_of(h, base_domain_parts as nat) {
                Some(s) => if s.len() > 0 {
                    Some(s)
                } else {
                    None
                },
                None => None,
            },
            None => None,
        },
    }
}

impl Default for ScopeConfig {
    fn default() -> (r: ScopeConfig)
        ensures
            r is Disabled,
    {
        ScopeConfig::Disabled
    }
}

impl ScopeConfig {
    /// The subdomain names the scope.
    pub fn subdomain(base_domain_parts: usize) -> (r: ScopeConfig)
        ensures
            r == (ScopeConfig::Subdomain { base_domain_parts }),
    {
        ScopeConfig::Subdomain { base_domain_parts }
    }

    /// One scope for every connection.
    pub fn fixed(scope: Scope) -> (r: ScopeConfig)
        ensures
            r == (ScopeConfig::Fixed { scope }),
    {
        ScopeConfig::Fixed { scope }
    }

    /// The scope of a connection to a host.
    pub fn resolve_scope(&self, host: Option<&str>) -> (r: Scope)
        ensures
            r@ == resolved_scope(
                *self,
                match host {
                    Some(h) => Some(h@),
                    None => None,
                },
            ),
    {
        match self {
            ScopeConfig::Disabled => Scope::Default,
            ScopeConfig::Subdomain { base_domain_parts } => {
                if let Some(h) = host {
                    if let Some(s) = extract_subdomain(h, *base_domain_parts) {
                        if let Some(scope) = Scope::named(s.as_str()) {
                            return scope;
                        }
                    }
                }
                Scope::Default
            },
            ScopeConfig::Fixed { scope } => scope.copy(),
        }
    }
}

/// The limits of the connections.
#[derive(Debug, Clone, Copy, PartialEq, Eq, Structural)]
pub struct WebSocketConfig {
    /// The largest number of connections at a time.
    pub max_connections: Option<usize>,
    /// The longest time of a connection, in seconds.
    pub max_connection_time: Option<u64>,
}

impl Default for WebSocketConfig {
    fn default() -> (r: WebSocketConfig)
        ensures
            r.max_connections is None,
            r.max_connection_time is None,
    {
        WebSocketConfig { max_connections: None, max_connection_time: None }
    }
}

/// Where the events are stored: at a path, or in a database of type `D` that is open already.
#[derive(Debug)]
pub enum DatabaseConfig<D> {
    Path(String),
    Instance(D),
}

/// The number of parts of the domain that a host names; two where it names none.
pub open spec fn domain_parts(host: Option<Seq<char>>) -> nat {
    match host {
        Some(h) => if h.len() == 0 || is_local_or_address(h) {
            2
        } else {
            split_on(h, '.').len()
        },
        None => 2,
    }
}

/// The number of parts of the domain that a host names; two where it names none.
pub fn count_domain_parts(host: Option<&str>) -> (r: usize)
    ensures
        r == domain_parts(
            match host {
                Some(h) => Some(h@),
                None => None,
            },
        ),
{
    match host {
        Some(h) => {
            if h.is_empty() || str_eq(h, "localhost") || is_address(h) {
                2
            } else {
                let parts = split_string(h, '.');
                proof {
                    assert(views(parts@).len() == parts@.len());
                }
                parts.len()
            }
        },
        None => 2,
    }
}

/// The configuration of a relay.
pub struct RelayConfig<D> {
    /// The URL of the relay.
    pub relay_url: String,
    /// The store.
    pub database: Option<DatabaseConfig<D>>,
    /// The keys of the relay.
    pub keys: Keys,
    /// How scopes are found.
    pub scope_config: ScopeConfig,
    /// Whether clients can authenticate.
    pub enable_auth: bool,
    /// The limits of the connections.
    pub websocket_config: WebSocketConfig,
    /// The largest number of subscriptions of a connection.
    pub max_subscriptions: usize,
    /// The largest number of events that a filter may ask for.
    pub max_limit: usize,
}

/// The room in a connection's channel for messages other than events.
pub const CHANNEL_OVERHEAD: usize = 5;

impl<D> RelayConfig<D> {
    /// A configuration with the usual limits, without scopes and without authentication.
    pub fn new(relay_url: &str, database: DatabaseConfig<D>, keys: Keys) -> (r: RelayConfig<D>)
        ensures
            r.relay_url@ == relay_url@,
            r.database == Some(database),
            r.keys == keys,
            r.scope_config is Disabled,
            !r.enable_auth,
            r.websocket_config.max_connections is None,
            r.websocket_config.max_connection_time is None,
            r.max_subscriptions == 50,
            r.max_limit == 5000,
    {
        RelayConfig {
            relay_url: relay_url.to_owned(),
            database: Some(database),
            keys,
            scope_config: ScopeConfig::default(),
            enable_auth: false,
            websocket_config: WebSocketConfig::default(),
            max_subscriptions: 50,
            max_limit: 5000,
        }
    }

    /// The store that is configured; an error where none is.
    pub fn database_or_error(&self) -> (r: Result<&DatabaseConfig<D>, Error>)
        ensures
            match r {
                Ok(database) => self.database == Some(*database),
                Err(e) => self.database is None && (e matches Error::Internal { message } && message@
                    == "Database configuration is required"@),
            },
    {
        match &self.database {
            Some(database) => Ok(database),
            None => Err(Error::internal("Database configuration is required")),
        }
    }

    /// Sets how scopes are found.
    pub fn with_scope_config(self, scope_config: ScopeConfig) -> (r: RelayConfig<D>)
        ensures
            r == (RelayConfig { scope_config, ..self }),
    {
        RelayConfig { scope_config, ..self }
    }

    /// Lets subdomains name scopes.
    pub fn with_subdomains(self, base_domain_parts: usize) -> (r: RelayConfig<D>)
        ensures
            r == (RelayConfig {
                scope_config: ScopeConfig::Subdomain { base_domain_parts },
                ..self
            }),
    {
        RelayConfig { scope_config: ScopeConfig::subdomain(base_domain_parts), ..self }
    }

    /// Lets subdomains name scopes; the URL of the relay says how many parts the domain has.
    pub fn with_subdomains_from_url(self, relay_url: &str) -> (r: RelayConfig<D>)
        ensures
            r == (RelayConfig {
                scope_config: ScopeConfig::Subdomain {
                    base_domain_parts: domain_parts(url_host(relay_url@)) as usize,
                },
                ..self
            }),
            domain_parts(url_host(relay_url@)) <= usize::MAX,
    {
        let host = host_of_url(relay_url);
        let parts = match &host {
            Some(h) => count_domain_parts(Some(h.as_str())),
            None => count_domain_parts(None),
        };
        RelayConfig { scope_config: ScopeConfig::subdomain(parts), ..self }
    }

    /// Sets the limits of the connections.
    pub fn with_websocket_config(self, config: WebSocketConfig) -> (r: RelayConfig<D>)
        ensures
            r == (RelayConfig { websocket_config: config, ..self }),
    {
        RelayConfig { websocket_config: config, ..self }
    }

    /// Sets the largest number of connections at a time.
    pub fn with_max_connections(self, max: usize) -> (r: RelayConfig<D>)
        ensures
            r == (RelayConfig {
                websocket_config: WebSocketConfig {
                    max_connections: Some(max),
                    ..self.websocket_config
                },
                ..self
            }),
    {
        let websocket_config = WebSocketConfig {
            max_connections: Some(max),
            ..self.websocket_config
        };
        RelayConfig { websocket_config, ..self }
    }

    /// Sets the longest time of a connection, in seconds.
    pub fn with_max_connection_time(self, seconds: u64) -> (r: RelayConfig<D>)
        ensures
            r == (RelayConfig {
                websocket_config: WebSocketConfig {
                    max_connection_time: Some(seconds),
                    ..self.websocket_config
                },
                ..self
            }),
    {
        let websocket_config = WebSocketConfig {
            max_connection_time: Some(seconds),
            ..self.websocket_config
        };
        RelayConfig { websocket_config, ..self }
    }

    /// Sets the largest number of subscriptions of a connection.
    pub fn with_max_subscriptions(self, max_subscriptions: usize) -> (r: RelayConfig<D>)
        ensures
            r == (RelayConfig { max_subscriptions, ..self }),
    {
        RelayConfig { max_subscriptions, ..self }
    }

    /// Sets the largest number of events that a filter may ask for.
    pub fn with_max_limit(self, max_limit: usize) -> (r: RelayConfig<D>)
        ensures
            r == (RelayConfig { max_limit, ..self }),
    {
        RelayConfig { max_limit, ..self }
    }

    /// Sets both limits.
    pub fn with_subscription_limits(self, max_subscriptions: usize, max_limit: usize) -> (r:
        RelayConfig<D>)
        ensures
            r == (RelayConfig { max_subscriptions, max_limit, ..self }),
    {
        RelayConfig { max_subscriptions, max_limit, ..self }
    }

    /// The room of a connection's channel: every subscription may bring as many events as a
    /// filter may ask for, and a few other messages.
    pub fn calculate_channel_size(&self) -> (r: usize)
        requires
            self.max_subscriptions * (self.max_limit + CHANNEL_OVERHEAD) <= usize::MAX,
            self.max_limit + CHANNEL_OVERHEAD <= usize::MAX,
        ensures
            r == self.max_subscriptions * (self.max_limit + CHANNEL_OVERHEAD),
    {
        self.max_subscriptions * (self.max_limit + CHANNEL_OVERHEAD)
    }
}

/// With the subdomains of the relay's URL, the host of that URL has the default scope, and a label
/// before it names the scope. The host is no address: it has no colon and is not `localhost` or a
/// dotted address, and neither does the label make one of it.
pub proof fn law_subdomains_from_url_name_scopes(
    relay_url: Seq<char>,
    host: Seq<char>,
    label: Seq<char>,
    base_domain_parts: usize,
)
    requires
        url_host(relay_url) == Some(host),
        base_domain_parts == domain_parts(url_host(relay_url)),
        host.len() > 0,
        !host.contains(':'),
        !is_local_or_address(host),
        label.len() > 0,
        !label.contains('.'),
        !label.contains(':'),
        !is_dotted_address(label + "."@ + host),
    ensures
        resolved_scope(ScopeConfig::Subdomain { base_domain_parts }, Some(host)) is None,
        resolved_scope(
            ScopeConfig::Subdomain { base_domain_parts },
            Some(label + "."@ + host),
        ) == Some(label),
{
    reveal_strlit(".");
    reveal_strlit("localhost");
    let whole = label + "."@ + host;
    assert(whole =~= label.push('.') + host);
    assert(whole[label.len() as int] == '.');
    assert(!whole.contains(':')) by {
        assert forall|i: int| 0 <= i < whole.len() implies whole[i] != ':' by {
            if i < label.len() {
                assert(label.contains(label[i]));
            } else if i > label.len() {
                assert(host.contains(host[i - label.len() - 1]));
            }
        }
    }
    lemma_split_single(host, ':');
    lemma_split_single(whole, ':');
    lemma_split_prepend(label, '.', host);
    let parts = split_on(whole, '.');
    assert(parts == seq![label] + split_on(host, '.'));
    assert(parts.take(parts.len() - base_domain_parts) =~= seq![label]);
    assert(join_with(seq![label], "."@) == label);
    assert(whole != "localhost"@) by {
        if whole == "localhost"@ {
            assert("localhost"@[label.len() as int] == '.');
        }
    }
}

/// Every connection works in the default scope where scopes are off, and in the one scope where it is
/// fixed, whatever the host; where subdomains name scopes, a connection without a host, or whose host
/// has no subdomain, works in the default scope, and any other in that of its subdomain.
pub proof fn law_scopes_are_resolved(
    host: Option<Seq<char>>,
    scope: Scope,
    base_domain_parts: usize,
)
    ensures
        resolved_scope(ScopeConfig::Disabled, host) is None,
        resolved_scope(ScopeConfig::Fixed { scope }, host) == scope@,
        resolved_scope(ScopeConfig::Subdomain { base_domain_parts }, None) is None,
        host matches Some(h) ==> match subdomain_of(h, base_domain_parts as nat) {
            Some(name) => name.len() > 0 ==> resolved_scope(
                ScopeConfig::Subdomain { base_domain_parts },
                host,
            ) == Some(name),
            None => resolved_scope(ScopeConfig::Subdomain { base_domain_parts }, host) is None,
        },
        resolved_scope(ScopeConfig::Subdomain { base_domain_parts }, host) matches Some(name) ==> name.len() > 0,
{
}

/// The parts of a domain are counted by its points; a host that names no domain counts as two parts.
pub proof fn law_domain_parts_are_counted(labels: Seq<Seq<char>>)
    requires
        labels.len() > 0,
        forall|i: int| 0 <= i < labels.len() ==> !(#[trigger] labels[i]).contains('.'),
        join_with(labels, seq!['.']).len() > 0,
        !is_local_or_address(join_with(labels, seq!['.'])),
    ensures
        domain_parts(Some(join_with(labels, seq!['.']))) == labels.len(),
        domain_parts(None) == 2,
        domain_parts(Some("localhost"@)) == 2,
{
    law_split_after_join(labels, '.');
}

} // verus!
