//! Authentication of clients: a client proves that it holds a key by signing an event that
//! names the relay and the challenge it was sent.

use crate::error::Error;
use crate::nostr_middleware::{is_ok_reply, ok_reply, Flow, Outcome};
use crate::protocol::{opt_text, tag_view, ClientMessage, Event, EventView, RelayMessage, Scope};
use crate::sdk::{auth_tag, event_verifies, parse_auth_tag, verify_event, AuthTag, AuthTagView};
use crate::state::NostrConnectionState;
use crate::subdomain::{
    extract_subdomain, is_dotted_address, law_subdomain_stands_before_the_domain,
    lemma_join_split_at, subdomain_of,
};
use crate::text::{
    contains_text, decimal, has_substring, join_from, join_with, law_join_after_split,
    law_split_after_join, law_substring_stands_between, law_trim_end_drops_the_run,
    lemma_split_nonempty, lemma_split_prepend, lemma_split_single, occurs_at, run_of, split_on,
    split_string, str_eq, trim_end, trim_end_char, views,
};
use crate::web::{host_of_url, url_host};
use vstd::prelude::*;

verus! {

/// The kind of the events that answer a challenge.
pub const AUTHENTICATION_KIND: u16 = 22242;

/// The age up to which an answer is accepted, in seconds.
pub const MAX_AGE: u64 = 600;

/// The settings of authentication.
#[derive(Debug)]
pub struct AuthConfig {
    /// The URL of the relay, which an answer has to name.
    pub relay_url: String,
    /// Whether the subdomain has to be that of the connection.
    pub validate_subdomains: bool,
}

impl Default for AuthConfig {
    fn default() -> (r: AuthConfig)
        ensures
            r.relay_url@ == Seq::<char>::empty(),
            r.validate_subdomains,
    {
        AuthConfig { relay_url: String::new(), validate_subdomains: true }
    }
}

/// The URL names this machine.
pub open spec fn is_local_url(url: Seq<char>) -> bool {
    has_substring(url, "localhost"@) || has_substring(url, "127.0.0.1"@)
}

/// The last parts of a host, as many as the domain has.
pub open spec fn domain_of(host: Seq<char>, parts: nat) -> Seq<char> {
    let p = split_on(host, '.');
    join_with(
        p.skip(
            if p.len() >= parts {
                p.len() - parts
            } else {
                0
            },
        ),
        "."@,
    )
}

/// The URL that a client names is that of the relay, for a connection in the given scope. On
/// this machine the URLs are the same up to slashes at the end. Elsewhere the client's host is
/// in the relay's domain, and where subdomains count its subdomain is the scope's name.
pub open spec fn relay_url_fits(
    relay_url: Seq<char>,
    validate_subdomains: bool,
    client_url: Seq<char>,
    client_host: Option<Seq<char>>,
    relay_host: Option<Seq<char>>,
    scope: Option<Seq<char>>,
) -> bool {
    if is_local_url(client_url) || is_local_url(relay_url) {
        trim_end(client_url, '/') == trim_end(relay_url, '/')
    } else {
        match (client_host, relay_host) {
            (Some(client), Some(relay)) => {
                let parts = split_on(relay, '.').len();
                domain_of(client, parts) == relay && (validate_subdomains ==> subdomain_of(
                    client,
                    parts,
                ) == scope)
            },
            _ => false,
        }
    }
}

/// What becomes of an answer to a challenge.
#[derive(Clone, Copy, PartialEq, Eq, Structural, Debug)]
pub enum AuthVerdict {
    /// No challenge is pending.
    NoChallenge,
    WrongKind,
    BadSignature,
    NoChallengeTag,
    ChallengeMismatch,
    NoRelayTag,
    RelayMismatch,
    Expired,
    Accepted,
}

/// The verdict on an answer, by the first of its faults. `relay` says whether it names this
/// relay; there is nothing to say where it names none.
pub open spec fn verdict(
    expected: Option<Seq<char>>,
    kind: u16,
    signature_valid: bool,
    challenge: Option<Seq<char>>,
    relay: Option<bool>,
    created_at: u64,
    now: u64,
) -> AuthVerdict {
    if expected is None {
        AuthVerdict::NoChallenge
    } else if kind != AUTHENTICATION_KIND {
        AuthVerdict::WrongKind
    } else if !signature_valid {
        AuthVerdict::BadSignature
    } else if challenge is None {
        AuthVerdict::NoChallengeTag
    } else if challenge != expected {
        AuthVerdict::ChallengeMismatch
    } else if relay is None {
        AuthVerdict::NoRelayTag
    } else if relay == Some(false) {
        AuthVerdict::RelayMismatch
    } else if created_at < now - MAX_AGE {
        AuthVerdict::Expired
    } else {
        AuthVerdict::Accepted
    }
}

/// What the client is told.
pub open spec fn reply_text(v: AuthVerdict) -> Seq<char> {
    match v {
        AuthVerdict::NoChallenge => "auth-required: no challenge pending"@,
        AuthVerdict::WrongKind => "auth-required: invalid event kind"@,
        AuthVerdict::BadSignature => "auth-required: invalid signature"@,
        AuthVerdict::NoChallengeTag => "auth-required: missing challenge tag"@,
        AuthVerdict::ChallengeMismatch => "auth-required: challenge mismatch"@,
        AuthVerdict::NoRelayTag => "auth-required: missing relay tag"@,
        AuthVerdict::RelayMismatch => "auth-required: relay mismatch"@,
        AuthVerdict::Expired => "auth-required: expired auth event"@,
        AuthVerdict::Accepted => "authenticated"@,
    }
}

/// The message of the error that a refused answer ends with.
pub open spec fn refusal_text(v: AuthVerdict) -> Seq<char> {
    match v {
        AuthVerdict::NoChallenge => "No challenge found in state"@,
        AuthVerdict::WrongKind => "Invalid event kind"@,
        AuthVerdict::BadSignature => "Invalid signature"@,
        AuthVerdict::NoChallengeTag => "No challenge tag found"@,
        AuthVerdict::ChallengeMismatch => "Challenge mismatch"@,
        AuthVerdict::NoRelayTag => "No relay tag found"@,
        AuthVerdict::RelayMismatch => "Relay mismatch"@,
        AuthVerdict::Expired => "Expired auth event"@,
        AuthVerdict::Accepted => ""@,
    }
}

/// The challenge that the first challenge tag answers.
pub open spec fn first_challenge(tags: Seq<Seq<Seq<char>>>) -> Option<Seq<char>>
    decreases tags.len(),
{
    if tags.len() == 0 {
        None
    } else {
        match auth_tag(tags[0]) {
            AuthTagView::Challenge(text) => Some(text),
            _ => first_challenge(tags.drop_first()),
        }
    }
}

/// The relay that the first relay tag names.
pub open spec fn first_relay(tags: Seq<Seq<Seq<char>>>) -> Option<Seq<char>>
    decreases tags.len(),
{
    if tags.len() == 0 {
        None
    } else {
        match auth_tag(tags[0]) {
            AuthTagView::Relay(url) => Some(url),
            _ => first_relay(tags.drop_first()),
        }
    }
}

/// The verdict on an event that answers a challenge.
pub open spec fn event_verdict(
    relay_url: Seq<char>,
    validate_subdomains: bool,
    expected: Option<Seq<char>>,
    e: EventView,
    scope: Option<Seq<char>>,
    now: u64,
) -> AuthVerdict {
    verdict(
        expected,
        e.kind,
        event_verifies(e),
        first_challenge(e.tags),
        match first_relay(e.tags) {
            Some(url) => Some(
                relay_url_fits(
                    relay_url,
                    validate_subdomains,
                    url,
                    url_host(url),
                    url_host(relay_url),
                    scope,
                ),
            ),
            None => None,
        },
        e.created_at,
        now,
    )
}

/// The verdict on an answer, by the first of its faults.
pub fn judge(
    expected: Option<&str>,
    kind: u16,
    signature_valid: bool,
    challenge: Option<&str>,
    relay: Option<bool>,
    created_at: u64,
    now: u64,
) -> (r: AuthVerdict)
    ensures
        r == verdict(
            str_view(expected),
            kind,
            signature_valid,
            str_view(challenge),
            relay,
            created_at,
            now,
        ),
{
    let expected = match expected {
        Some(text) => text,
        None => return AuthVerdict::NoChallenge,
    };
    if kind != AUTHENTICATION_KIND {
        return AuthVerdict::WrongKind;
    }
    if !signature_valid {
        return AuthVerdict::BadSignature;
    }
    match challenge {
        Some(text) => {
            if !str_eq(text, expected) {
                return AuthVerdict::ChallengeMismatch;
            }
        },
        None => return AuthVerdict::NoChallengeTag,
    }
    match relay {
        Some(fits) => {
            if !fits {
                return AuthVerdict::RelayMismatch;
            }
        },
        None => return AuthVerdict::NoRelayTag,
    }
    if created_at < now.saturating_sub(MAX_AGE) {
        return AuthVerdict::Expired;
    }
    AuthVerdict::Accepted
}

/// The view of an optional string slice.
pub open spec fn str_view(text: Option<&str>) -> Option<Seq<char>> {
    match text {
        Some(s) => Some(s@),
        None => None,
    }
}

/// Whether a URL names this machine.
fn names_local(url: &str) -> (r: bool)
    ensures
        r == is_local_url(url@),
{
    contains_text(url, "localhost") || contains_text(url, "127.0.0.1")
}

/// Whether the URL that a client names is that of the relay, given the hosts of both.
pub fn check_relay_url(
    config: &AuthConfig,
    client_url: &str,
    client_host: Option<&str>,
    relay_host: Option<&str>,
    scope: &Scope,
) -> (r: bool)
    ensures
        r == relay_url_fits(
            config.relay_url@,
            config.validate_subdomains,
            client_url@,
            str_view(client_host),
            str_view(relay_host),
            scope@,
        ),
{
    if names_local(client_url) || names_local(config.relay_url.as_str()) {
        let client = trim_end_char(client_url, '/');
        let relay = trim_end_char(config.relay_url.as_str(), '/');
        return client == relay;
    }
    let client_host = match client_host {
        Some(host) => host,
        None => return false,
    };
    let relay_host = match relay_host {
        Some(host) => host,
        None => return false,
    };
    let client_parts = split_string(client_host, '.');
    let relay_parts = split_string(relay_host, '.');
    proof {
        assert(views(client_parts@).len() == client_parts@.len());
        assert(views(relay_parts@).len() == relay_parts@.len());
    }
    let base_domain_parts: usize = relay_parts.len();
    let start: usize = if client_parts.len() >= base_domain_parts {
        client_parts.len() - base_domain_parts
    } else {
        0
    };
    let client_base = join_from(&client_parts, start, ".");
    if !str_eq(client_base.as_str(), relay_host) {
        return false;
    }
    if !config.validate_subdomains {
        return true;
    }
    let client_subdomain = extract_subdomain(client_host, base_domain_parts);
    match (scope, &client_subdomain) {
        (Scope::Named { name }, Some(subdomain)) => *name == *subdomain,
        (Scope::Named { .. }, None) => false,
        (Scope::Default, Some(_)) => false,
        (Scope::Default, None) => true,
    }
}

/// The middleware that lets clients authenticate.
pub struct Nip42Middleware {
    pub config: AuthConfig,
}

impl Nip42Middleware {
    /// The middleware with the given settings.
    pub fn new(config: AuthConfig) -> (r: Nip42Middleware)
        ensures
            r.config == config,
    {
        Nip42Middleware { config }
    }

    /// The middleware of a relay at a URL, which checks subdomains.
    pub fn with_url(relay_url: String) -> (r: Nip42Middleware)
        ensures
            r.config.relay_url == relay_url,
            r.config.validate_subdomains,
    {
        Nip42Middleware { config: AuthConfig { relay_url, validate_subdomains: true } }
    }

    /// The host of a URL.
    pub fn extract_host_from_url(&self, url: &str) -> (r: Option<String>)
        ensures
            opt_text(r) == url_host(url@),
    {
        host_of_url(url)
    }

    /// Whether the URL that a client names is that of the relay, for a connection in a scope.
    pub fn validate_relay_url(&self, client_relay_url: &str, connection_scope: &Scope) -> (r: bool)
        ensures
            r == relay_url_fits(
                self.config.relay_url@,
                self.config.validate_subdomains,
                client_relay_url@,
                url_host(client_relay_url@),
                url_host(self.config.relay_url@),
                connection_scope@,
            ),
    {
        let client_host = self.extract_host_from_url(client_relay_url);
        let relay_host = self.extract_host_from_url(self.config.relay_url.as_str());
        let client = match &client_host {
            Some(host) => Some(host.as_str()),
            None => None,
        };
        let relay = match &relay_host {
            Some(host) => Some(host.as_str()),
            None => None,
        };
        check_relay_url(&self.config, client_relay_url, client, relay, connection_scope)
    }

    /// The challenge message that a new connection is sent.
    pub fn on_connect<T>(&self, state: &mut NostrConnectionState<T>) -> (r: RelayMessage)
        ensures
            final(state).challenge is Some,
            old(state).challenge is Some ==> opt_text(final(state).challenge) == opt_text(
                old(state).challenge,
            ),
            old(state).challenge is None ==> exists|number: u64|
                opt_text(final(state).challenge) == Some(#[trigger] decimal(number as nat)),
            r matches RelayMessage::Auth { challenge } && Some(challenge@) == opt_text(
                final(state).challenge,
            ),
            final(state).authed_pubkey == old(state).authed_pubkey,
            final(state).tracked_ids() == old(state).tracked_ids(),
            final(state).max_subscriptions == old(state).max_subscriptions,
            final(state).sessions() == old(state).sessions(),
            final(state).coordinator == old(state).coordinator,
            final(state).custom_state == old(state).custom_state,
            old(state).wf() ==> final(state).wf(),
    {
        state.get_challenge_event()
    }

    /// The verdict on an event that answers the pending challenge of a connection.
    pub fn judge_event(
        &self,
        expected: Option<&str>,
        event: &Event,
        scope: &Scope,
        now: u64,
    ) -> (r: AuthVerdict)
        requires
            event@.wf(),
        ensures
            r == event_verdict(
                self.config.relay_url@,
                self.config.validate_subdomains,
                str_view(expected),
                event@,
                scope@,
                now,
            ),
    {
        let signature_valid = expected.is_some() && event.kind == AUTHENTICATION_KIND
            && verify_event(event).is_ok();
        let found_challenge = find_challenge(&event.tags);
        let challenge = match &found_challenge {
            Some(text) => Some(text.as_str()),
            None => None,
        };
        let found_relay = find_relay(&event.tags);
        let relay = match &found_relay {
            Some(url) => Some(self.validate_relay_url(url.as_str(), scope)),
            None => None,
        };
        judge(expected, event.kind, signature_valid, challenge, relay, event.created_at, now)
    }

    /// Deals with the answer to a challenge; other messages go on to the next middleware. A
    /// client whose answer is accepted is authenticated, and the challenge is spent. One whose
    /// answer is refused is told why.
    pub fn process_inbound<T>(
        &self,
        message: &ClientMessage,
        state: &mut NostrConnectionState<T>,
        scope: &Scope,
        now: u64,
    ) -> (r: Outcome)
        requires
            message@.wf(),
        ensures
            match *message {
                ClientMessage::Auth(event) => {
                    let v = event_verdict(
                        self.config.relay_url@,
                        self.config.validate_subdomains,
                        opt_text(old(state).challenge),
                        event@,
                        scope@,
                        now,
                    );
                    &&& r.replies@.len() == 1
                    &&& is_ok_reply(
                        r.replies@[0],
                        event.id,
                        v == AuthVerdict::Accepted,
                        reply_text(v),
                    )
                    &&& if v == AuthVerdict::Accepted {
                        &&& r.flow is Done
                        &&& *final(state) == (NostrConnectionState {
                            authed_pubkey: Some(event.pubkey),
                            challenge: None,
                            ..*old(state)
                        })
                    } else {
                        &&& r.flow matches Flow::Fail(e) && (e matches Error::AuthRequired {
                            message,
                        } && message@ == refusal_text(v))
                        &&& *final(state) == *old(state)
                    }
                },
                _ => r.is_next() && *final(state) == *old(state),
            },
    {
        match message {
            ClientMessage::Auth(event) => {
                let expected = match &state.challenge {
                    Some(text) => Some(text.as_str()),
                    None => None,
                };
                let v = self.judge_event(expected, event, scope, now);
                let id = event.id;
                match v {
                    AuthVerdict::Accepted => {
                        state.authed_pubkey = Some(event.pubkey);
                        state.challenge = None;
                        Outcome::reply(ok_reply(id, true, "authenticated"))
                    },
                    AuthVerdict::NoChallenge => Outcome::reply_then_fail(
                        ok_reply(id, false, "auth-required: no challenge pending"),
                        Error::auth_required("No challenge found in state"),
                    ),
                    AuthVerdict::WrongKind => Outcome::reply_then_fail(
                        ok_reply(id, false, "auth-required: invalid event kind"),
                        Error::auth_required("Invalid event kind"),
                    ),
                    AuthVerdict::BadSignature => Outcome::reply_then_fail(
                        ok_reply(id, false, "auth-required: invalid signature"),
                        Error::auth_required("Invalid signature"),
                    ),
                    AuthVerdict::NoChallengeTag => Outcome::reply_then_fail(
                        ok_reply(id, false, "auth-required: missing challenge tag"),
                        Error::auth_required("No challenge tag found"),
                    ),
                    AuthVerdict::ChallengeMismatch => Outcome::reply_then_fail(
                        ok_reply(id, false, "auth-required: challenge mismatch"),
                        Error::auth_required("Challenge mismatch"),
                    ),
                    AuthVerdict::NoRelayTag => Outcome::reply_then_fail(
                        ok_reply(id, false, "auth-required: missing relay tag"),
                        Error::auth_required("No relay tag found"),
                    ),
                    AuthVerdict::RelayMismatch => Outcome::reply_then_fail(
                        ok_reply(id, false, "auth-required: relay mismatch"),
                        Error::auth_required("Relay mismatch"),
                    ),
                    AuthVerdict::Expired => Outcome::reply_then_fail(
                        ok_reply(id, false, "auth-required: expired auth event"),
                        Error::auth_required("Expired auth event"),
                    ),
                }
            },
            _ => Outcome::next(),
        }
    }
}

/// The challenge that the first challenge tag answers.
pub fn find_challenge(tags: &Vec<Vec<String>>) -> (r: Option<String>)
    ensures
        opt_text(r) == first_challenge(crate::protocol::tags_view(tags@)),
{
    let ghost all = crate::protocol::tags_view(tags@);
    let mut i: usize = 0;
    proof {
        assert(all.skip(0) =~= all);
    }
    while i < tags.len()
        invariant
            i <= tags@.len(),
            all == crate::protocol::tags_view(tags@),
            first_challenge(all) == first_challenge(all.skip(i as int)),
        decreases tags@.len() - i,
    {
        proof {
            assert(all.skip(i as int)[0] == tag_view(tags@[i as int]));
            assert(all.skip(i as int).drop_first() =~= all.skip(i + 1));
        }
        if let AuthTag::Challenge(text) = parse_auth_tag(&tags[i]) {
            return Some(text);
        }
        i = i + 1;
    }
    None
}

/// The relay that the first relay tag names.
pub fn find_relay(tags: &Vec<Vec<String>>) -> (r: Option<String>)
    ensures
        opt_text(r) == first_relay(crate::protocol::tags_view(tags@)),
{
    let ghost all = crate::protocol::tags_view(tags@);
    let mut i: usize = 0;
    proof {
        assert(all.skip(0) =~= all);
    }
    while i < tags.len()
        invariant
            i <= tags@.len(),
            all == crate::protocol::tags_view(tags@),
            first_relay(all) == first_relay(all.skip(i as int)),
        decreases tags@.len() - i,
    {
        proof {
            assert(all.skip(i as int)[0] == tag_view(tags@[i as int]));
            assert(all.skip(i as int).drop_first() =~= all.skip(i + 1));
        }
        if let AuthTag::Relay(url) = parse_auth_tag(&tags[i]) {
            return Some(url);
        }
        i = i + 1;
    }
    None
}

/// A client is authenticated exactly when it answers the pending challenge with a fresh, signed
/// event of the right kind that names this relay.
pub proof fn law_accepted_answers(
    relay_url: Seq<char>,
    validate_subdomains: bool,
    expected: Option<Seq<char>>,
    e: EventView,
    scope: Option<Seq<char>>,
    now: u64,
)
    ensures
        event_verdict(relay_url, validate_subdomains, expected, e, scope, now)
            == AuthVerdict::Accepted <==> {
            &&& expected is Some
            &&& e.kind == AUTHENTICATION_KIND
            &&& event_verifies(e)
            &&& first_challenge(e.tags) == expected
            &&& first_relay(e.tags) matches Some(url) && relay_url_fits(
                relay_url,
                validate_subdomains,
                url,
                url_host(url),
                url_host(relay_url),
                scope,
            )
            &&& e.created_at + MAX_AGE >= now
        },
{
}

/// Where subdomains count, one URL is good for the connections of one scope only.
pub proof fn law_answers_do_not_cross_scopes(
    relay_url: Seq<char>,
    client_url: Seq<char>,
    client_host: Option<Seq<char>>,
    relay_host: Option<Seq<char>>,
    scope_a: Option<Seq<char>>,
    scope_b: Option<Seq<char>>,
)
    requires
        !is_local_url(client_url),
        !is_local_url(relay_url),
        relay_url_fits(relay_url, true, client_url, client_host, relay_host, scope_a),
        relay_url_fits(relay_url, true, client_url, client_host, relay_host, scope_b),
    ensures
        scope_a == scope_b,
{
}

/// On this machine, a URL fits exactly when it is the relay's own, with or without slashes at its
/// end, in every scope. `own` and `client` are the URLs before the slashes at their ends.
pub proof fn law_local_relay_fits_its_own_url(
    own: Seq<char>,
    own_slashes: nat,
    client: Seq<char>,
    client_slashes: nat,
    validate_subdomains: bool,
    client_host: Option<Seq<char>>,
    relay_host: Option<Seq<char>>,
    scope: Option<Seq<char>>,
)
    requires
        own.len() > 0 ==> own.last() != '/',
        client.len() > 0 ==> client.last() != '/',
        exists|i: int|
            0 <= i && (i + 9 <= own.len() && #[trigger] own.subrange(i, i + 9) == "localhost"@ || i
                + 9 <= own.len() && own.subrange(i, i + 9) == "127.0.0.1"@),
    ensures
        relay_url_fits(
            own + run_of('/', own_slashes),
            validate_subdomains,
            client + run_of('/', client_slashes),
            client_host,
            relay_host,
            scope,
        ) <==> client == own,
        relay_url_fits(
            client + run_of('/', client_slashes),
            validate_subdomains,
            own + run_of('/', own_slashes),
            client_host,
            relay_host,
            scope,
        ) <==> client == own,
{
    let relay_url = own + run_of('/', own_slashes);
    let client_url = client + run_of('/', client_slashes);
    law_trim_end_drops_the_run(own, '/', own_slashes);
    law_trim_end_drops_the_run(client, '/', client_slashes);
    let i = choose|i: int|
        0 <= i && (i + 9 <= own.len() && #[trigger] own.subrange(i, i + 9) == "localhost"@ || i + 9
            <= own.len() && own.subrange(i, i + 9) == "127.0.0.1"@);
    reveal_strlit("localhost");
    reveal_strlit("127.0.0.1");
    assert(relay_url.subrange(i, i + 9) =~= own.subrange(i, i + 9));
    if own.subrange(i, i + 9) == "localhost"@ {
        assert(occurs_at(relay_url, "localhost"@, i));
    } else {
        assert(occurs_at(relay_url, "127.0.0.1"@, i));
    }
    assert(is_local_url(relay_url));
}

/// Elsewhere, the host that a client names is the relay's own, or a subdomain of it, or it does not
/// fit; a URL without a host does not fit. Where subdomains count, the relay's own host fits the
/// default scope only.
pub proof fn law_remote_relay_fits_its_domain(
    relay_url: Seq<char>,
    validate_subdomains: bool,
    client_url: Seq<char>,
    client: Seq<char>,
    relay: Seq<char>,
    scope: Option<Seq<char>>,
)
    requires
        !is_local_url(relay_url),
        !is_local_url(client_url),
        !client.contains(':'),
        !relay.contains(':'),
    ensures
        relay_url_fits(relay_url, validate_subdomains, client_url, Some(client), Some(relay), scope)
            ==> client == relay || (seq!['.'] + relay).is_suffix_of(client),
        relay_url_fits(relay_url, validate_subdomains, client_url, Some(relay), Some(relay), scope)
            <==> (validate_subdomains ==> scope is None),
        !relay_url_fits(relay_url, validate_subdomains, client_url, None, Some(relay), scope),
        !relay_url_fits(relay_url, validate_subdomains, client_url, Some(client), None, scope),
{
    reveal_strlit(".");
    let sep = "."@;
    assert(sep =~= seq!['.']);
    let p = split_on(client, '.');
    let q = split_on(relay, '.');
    law_join_after_split(client, '.');
    law_join_after_split(relay, '.');
    assert(q.skip(0) =~= q);
    assert(p.skip(0) =~= p);
    lemma_split_single(relay, ':');
    if relay_url_fits(relay_url, validate_subdomains, client_url, Some(client), Some(relay), scope) {
        if p.len() > q.len() {
            lemma_split_nonempty(relay, '.');
            lemma_join_split_at(p, sep, p.len() - q.len());
            let head = join_with(p.take(p.len() - q.len()), sep);
            assert(client =~= head + (seq!['.'] + relay));
            assert((seq!['.'] + relay).is_suffix_of(client)) by {
                assert(client.subrange(
                    client.len() - (seq!['.'] + relay).len(),
                    client.len() as int,
                ) =~= seq!['.'] + relay);
            }
        }
    }
}

/// Elsewhere, a label before the relay's host fits the scope of that name, and where subdomains
/// count no other.
pub proof fn law_subdomain_fits_its_scope(
    relay_url: Seq<char>,
    validate_subdomains: bool,
    client_url: Seq<char>,
    label: Seq<char>,
    relay: Seq<char>,
    scope: Option<Seq<char>>,
)
    requires
        !is_local_url(relay_url),
        !is_local_url(client_url),
        !relay.contains(':'),
        !label.contains('.'),
        !label.contains(':'),
        !is_dotted_address(label + seq!['.'] + relay),
    ensures
        relay_url_fits(
            relay_url,
            validate_subdomains,
            client_url,
            Some(label + seq!['.'] + relay),
            Some(relay),
            scope,
        ) <==> (validate_subdomains ==> scope == Some(label)),
{
    reveal_strlit(".");
    reveal_strlit("localhost");
    let sep = "."@;
    assert(sep =~= seq!['.']);
    let client = label + seq!['.'] + relay;
    assert(client =~= label.push('.') + relay);
    assert(client[label.len() as int] == '.');
    assert(!client.contains(':')) by {
        assert forall|i: int| 0 <= i < client.len() implies client[i] != ':' by {
            if i < label.len() {
                assert(label.contains(label[i]));
            } else if i > label.len() {
                assert(relay.contains(relay[i - label.len() - 1]));
            }
        }
    }
    lemma_split_single(client, ':');
    lemma_split_prepend(label, '.', relay);
    law_join_after_split(relay, '.');
    let p = split_on(client, '.');
    let q = split_on(relay, '.');
    assert(p == seq![label] + q);
    assert(p.skip(p.len() - q.len()) =~= q);
    assert(p.take(p.len() - q.len()) =~= seq![label]);
    assert(client != "localhost"@) by {
        if client == "localhost"@ {
            assert("localhost"@[label.len() as int] == '.');
        }
    }
}

/// The challenge that an answer gives is that of its first challenge tag, and the relay that it
/// names that of its first relay tag, at whatever place the tags are.
pub proof fn law_first_tags_count(tags: Seq<Seq<Seq<char>>>, i: int)
    requires
        0 <= i < tags.len(),
    ensures
        auth_tag(tags[i]) is Challenge && (forall|j: int|
            0 <= j < i ==> !(auth_tag(#[trigger] tags[j]) is Challenge)) ==> first_challenge(tags)
            == Some(auth_tag(tags[i])->Challenge_0),
        auth_tag(tags[i]) is Relay && (forall|j: int|
            0 <= j < i ==> !(auth_tag(#[trigger] tags[j]) is Relay)) ==> first_relay(tags) == Some(
            auth_tag(tags[i])->Relay_0,
        ),
    decreases i,
{
    if i > 0 {
        let rest = tags.drop_first();
        law_first_tags_count(rest, i - 1);
        assert(rest[i - 1] == tags[i]);
        if forall|j: int| 0 <= j < i ==> !(auth_tag(#[trigger] tags[j]) is Challenge) {
            assert forall|j: int| 0 <= j < i - 1 implies !(auth_tag(#[trigger] rest[j])
                is Challenge) by {
                assert(rest[j] == tags[j + 1]);
            }
            assert(!(auth_tag(tags[0]) is Challenge));
        }
        if forall|j: int| 0 <= j < i ==> !(auth_tag(#[trigger] tags[j]) is Relay) {
            assert forall|j: int| 0 <= j < i - 1 implies !(auth_tag(#[trigger] rest[j])
                is Relay) by {
                assert(rest[j] == tags[j + 1]);
            }
            assert(!(auth_tag(tags[0]) is Relay));
        }
    }
}

/// An answer without a challenge tag gives no challenge, and one without a relay tag names no relay.
pub proof fn law_missing_tags_give_nothing(tags: Seq<Seq<Seq<char>>>)
    ensures
        first_challenge(tags) is None <==> forall|j: int|
            0 <= j < tags.len() ==> !(auth_tag(#[trigger] tags[j]) is Challenge),
        first_relay(tags) is None <==> forall|j: int|
            0 <= j < tags.len() ==> !(auth_tag(#[trigger] tags[j]) is Relay),
    decreases tags.len(),
{
    if tags.len() > 0 {
        let rest = tags.drop_first();
        law_missing_tags_give_nothing(rest);
        if first_challenge(tags) is None {
            assert forall|j: int| 0 <= j < tags.len() implies !(auth_tag(#[trigger] tags[j])
                is Challenge) by {
                if j > 0 {
                    assert(rest[j - 1] == tags[j]);
                }
            }
        }
        if first_relay(tags) is None {
            assert forall|j: int| 0 <= j < tags.len() implies !(auth_tag(#[trigger] tags[j])
                is Relay) by {
                if j > 0 {
                    assert(rest[j - 1] == tags[j]);
                }
            }
        }
        if forall|j: int| 0 <= j < tags.len() ==> !(auth_tag(#[trigger] tags[j]) is Challenge) {
            assert forall|j: int| 0 <= j < rest.len() implies !(auth_tag(#[trigger] rest[j])
                is Challenge) by {
                assert(rest[j] == tags[j + 1]);
            }
            assert(!(auth_tag(tags[0]) is Challenge));
        }
        if forall|j: int| 0 <= j < tags.len() ==> !(auth_tag(#[trigger] tags[j]) is Relay) {
            assert forall|j: int| 0 <= j < rest.len() implies !(auth_tag(#[trigger] rest[j])
                is Relay) by {
                assert(rest[j] == tags[j + 1]);
            }
            assert(!(auth_tag(tags[0]) is Relay));
        }
    }
}

/// The verdict on an answer: it is accepted where it answers the pending challenge in an event of
/// kind 22242 that is signed, names this relay and is at most ten minutes old, and where it is not,
/// the first fault that it has decides, whatever others follow.
pub proof fn law_first_fault_decides(
    expected: Option<Seq<char>>,
    kind: u16,
    signature_valid: bool,
    challenge: Option<Seq<char>>,
    relay: Option<bool>,
    created_at: u64,
    now: u64,
    v: AuthVerdict,
)
    requires
        v == verdict(expected, kind, signature_valid, challenge, relay, created_at, now),
    ensures
        v == AuthVerdict::Accepted <==> expected is Some && kind == 22242 && signature_valid
            && challenge == expected && relay == Some(true) && now - created_at <= 600,
        v == AuthVerdict::NoChallenge <==> expected is None,
        v == AuthVerdict::WrongKind <==> expected is Some && kind != 22242,
        v == AuthVerdict::BadSignature <==> expected is Some && kind == 22242 && !signature_valid,
        v == AuthVerdict::NoChallengeTag <==> expected is Some && kind == 22242 && signature_valid
            && challenge is None,
        v == AuthVerdict::ChallengeMismatch <==> expected is Some && kind == 22242
            && signature_valid && challenge is Some && challenge != expected,
        v == AuthVerdict::NoRelayTag <==> expected is Some && kind == 22242 && signature_valid
            && challenge == expected && relay is None,
        v == AuthVerdict::RelayMismatch <==> expected is Some && kind == 22242 && signature_valid
            && challenge == expected && relay == Some(false),
        v == AuthVerdict::Expired <==> expected is Some && kind == 22242 && signature_valid
            && challenge == expected && relay == Some(true) && now - created_at > 600,
{
    if let Some(fits) = relay {
        if fits {
            assert(relay == Some(true));
        } else {
            assert(relay == Some(false));
        }
    }
}

/// Every refusal is told to the client as one that requires authentication, each with words of its
/// own, and acceptance is not.
pub proof fn law_refusals_are_told_apart(a: AuthVerdict, b: AuthVerdict)
    ensures
        a != AuthVerdict::Accepted <==> "auth-required: "@.is_prefix_of(reply_text(a)),
        a != b ==> reply_text(a) != reply_text(b),
{
    reveal_strlit("auth-required: ");
    reveal_strlit("auth-required: no challenge pending");
    reveal_strlit("auth-required: invalid event kind");
    reveal_strlit("auth-required: invalid signature");
    reveal_strlit("auth-required: missing challenge tag");
    reveal_strlit("auth-required: challenge mismatch");
    reveal_strlit("auth-required: missing relay tag");
    reveal_strlit("auth-required: relay mismatch");
    reveal_strlit("auth-required: expired auth event");
    reveal_strlit("authenticated");
    let p = "auth-required: "@;
    if a != AuthVerdict::Accepted {
        assert(reply_text(a).subrange(0, p.len() as int) =~= p);
    } else {
        assert(reply_text(a).len() < p.len());
    }
    if a != b {
        assert(reply_text(a).len() != reply_text(b).len() || reply_text(a)[15] != reply_text(b)[15]
            || reply_text(a)[16] != reply_text(b)[16] || reply_text(a)[23] != reply_text(b)[23]);
    }
}

/// A URL names this machine exactly when `localhost` or `127.0.0.1` stands in it.
pub proof fn law_local_urls(url: Seq<char>)
    ensures
        is_local_url(url) <==> {
            ||| exists|before: Seq<char>, after: Seq<char>|
                url == #[trigger] (before + "localhost"@ + after)
            ||| exists|before: Seq<char>, after: Seq<char>|
                url == #[trigger] (before + "127.0.0.1"@ + after)
        },
{
    law_substring_stands_between(url, "localhost"@);
    law_substring_stands_between(url, "127.0.0.1"@);
}

/// A relay on this machine accepts its own URL, with or without slashes at its end, in every scope,
/// and no other.
pub proof fn law_local_relay_accepts_its_own_url(
    middleware: Nip42Middleware,
    own: Seq<char>,
    own_slashes: nat,
    client: Seq<char>,
    client_slashes: nat,
    client_url: &str,
    scope: Scope,
    r: bool,
)
    requires
        middleware.config.relay_url@ == own + run_of('/', own_slashes),
        client_url@ == client + run_of('/', client_slashes),
        own.len() > 0 ==> own.last() != '/',
        client.len() > 0 ==> client.last() != '/',
        exists|i: int|
            0 <= i && (i + 9 <= own.len() && #[trigger] own.subrange(i, i + 9) == "localhost"@ || i
                + 9 <= own.len() && own.subrange(i, i + 9) == "127.0.0.1"@),
        call_ensures(Nip42Middleware::validate_relay_url, (&middleware, client_url, &scope), r),
    ensures
        r <==> client == own,
{
    law_local_relay_fits_its_own_url(
        own,
        own_slashes,
        client,
        client_slashes,
        middleware.config.validate_subdomains,
        url_host(client_url@),
        url_host(middleware.config.relay_url@),
        scope@,
    );
}

/// A client is authenticated exactly when it answers the pending challenge in an event of kind 22242
/// that is signed, names this relay and is at most ten minutes old; its key is then known and the
/// challenge is spent. Any other answer changes nothing and is refused. Other messages go on.
pub proof fn law_clients_authenticate<T>(
    middleware: Nip42Middleware,
    message: ClientMessage,
    before: NostrConnectionState<T>,
    after: NostrConnectionState<T>,
    scope: Scope,
    now: u64,
    r: Outcome,
)
    requires
        exists|state: &mut NostrConnectionState<T>|
            {
                &&& #[trigger] call_ensures(
                    Nip42Middleware::process_inbound::<T>,
                    (&middleware, &message, state, &scope, now),
                    r,
                )
                &&& *state == before
                &&& *final(state) == after
            },
    ensures
        message matches ClientMessage::Auth(event) ==> {
            let accepted = {
                &&& before.challenge is Some
                &&& event.kind == 22242
                &&& event_verifies(event@)
                &&& first_challenge(event@.tags) == Some(before.challenge->0@)
                &&& first_relay(event@.tags) matches Some(url) && relay_url_fits(
                    middleware.config.relay_url@,
                    middleware.config.validate_subdomains,
                    url,
                    url_host(url),
                    url_host(middleware.config.relay_url@),
                    scope@,
                )
                &&& now - event.created_at <= 600
            };
            &&& accepted ==> after.authed_pubkey == Some(event.pubkey) && after.challenge is None
                && r.flow is Done
            &&& !accepted ==> after == before && r.flow is Fail
            &&& r.replies@.len() == 1
            &&& r.replies@[0] matches RelayMessage::OkReply { event_id, status, message: text }
                && event_id == event.id && status == accepted
        },
        !(message is Auth) ==> after == before && r.flow is Next && r.replies@.len() == 0,
{
    if let ClientMessage::Auth(event) = message {
        law_accepted_answers(
            middleware.config.relay_url@,
            middleware.config.validate_subdomains,
            opt_text(before.challenge),
            event@,
            scope@,
            now,
        );
    }
}

/// Elsewhere, labels before the relay's host fit the scope of their name, all of them with the points
/// between them, and where subdomains count no other.
pub proof fn law_deep_subdomain_fits_its_scope(
    relay_url: Seq<char>,
    validate_subdomains: bool,
    client_url: Seq<char>,
    labels: Seq<Seq<char>>,
    domain: Seq<Seq<char>>,
    scope: Option<Seq<char>>,
)
    requires
        !is_local_url(relay_url),
        !is_local_url(client_url),
        labels.len() > 0,
        domain.len() > 0,
        forall|i: int|
            0 <= i < labels.len() ==> !(#[trigger] labels[i]).contains('.') && !labels[i].contains(':'),
        forall|i: int|
            0 <= i < domain.len() ==> !(#[trigger] domain[i]).contains('.') && !domain[i].contains(':'),
        !is_dotted_address(join_with(labels + domain, seq!['.'])),
        join_with(labels + domain, seq!['.']) != "localhost"@,
    ensures
        relay_url_fits(
            relay_url,
            validate_subdomains,
            client_url,
            Some(join_with(labels + domain, seq!['.'])),
            Some(join_with(domain, seq!['.'])),
            scope,
        ) <==> (validate_subdomains ==> scope == Some(join_with(labels, seq!['.']))),
{
    reveal_strlit(".");
    assert("."@ =~= seq!['.']);
    let parts = labels + domain;
    assert forall|i: int| 0 <= i < parts.len() implies !(#[trigger] parts[i]).contains('.') by {
        if i < labels.len() {
            assert(parts[i] == labels[i]);
        } else {
            assert(parts[i] == domain[i - labels.len()]);
        }
    }
    law_split_after_join(parts, '.');
    law_split_after_join(domain, '.');
    assert(parts.skip(parts.len() - domain.len()) =~= domain);
    law_subdomain_stands_before_the_domain(labels, domain, Seq::empty());
}

} // verus!
