//! Limits on the rate of messages, for each connection and for the relay as a whole. The budgets
//! themselves depend on the time and are kept by the program; here is what is asked of them, in
//! which order, and what follows.

use crate::error::Error;
use crate::nostr_middleware::{Flow, Outcome};
use vstd::prelude::*;

verus! {

/// What is to be done next about a message.
pub enum RateStep {
    /// Ask the budget of the relay.
    CheckGlobal,
    /// Ask the budget of the connection.
    CheckConnection,
    /// Nothing more: it is decided.
    Decided(Outcome),
}

/// The processing ends with the error that the message is restricted.
pub open spec fn is_restricted(r: Outcome, text: Seq<char>) -> bool {
    &&& r.replies@.len() == 0
    &&& r.flow matches Flow::Fail(e) && (e matches Error::Restricted { message } && message@ == text)
}

/// The middleware that limits the rate of messages.
#[derive(Debug, Clone, Copy, PartialEq, Eq, Structural)]
pub struct RateLimitMiddleware {
    /// Whether the relay as a whole has a budget.
    pub has_global_limit: bool,
}

impl RateLimitMiddleware {
    /// A limit for each connection.
    pub fn new() -> (r: RateLimitMiddleware)
        ensures
            !r.has_global_limit,
    {
        RateLimitMiddleware { has_global_limit: false }
    }

    /// A limit for each connection and one for the relay as a whole.
    pub fn with_global_limit() -> (r: RateLimitMiddleware)
        ensures
            r.has_global_limit,
    {
        RateLimitMiddleware { has_global_limit: true }
    }

    /// The budget of the relay is asked first, where it has one.
    pub fn process_inbound(&self) -> (r: RateStep)
        ensures
            r == if self.has_global_limit {
                RateStep::CheckGlobal
            } else {
                RateStep::CheckConnection
            },
    {
        if self.has_global_limit {
            RateStep::CheckGlobal
        } else {
            RateStep::CheckConnection
        }
    }

    /// What follows from the answer of the relay's budget. The budget of the connection is only
    /// asked where the relay's allows the message.
    pub fn after_global(&self, allowed: bool) -> (r: RateStep)
        ensures
            if allowed {
                r is CheckConnection
            } else {
                r matches RateStep::Decided(o) && is_restricted(o, "global rate limit exceeded"@)
            },
    {
        if allowed {
            RateStep::CheckConnection
        } else {
            RateStep::Decided(Outcome::fail(Error::restricted("global rate limit exceeded")))
        }
    }

    /// What follows from the answer of the connection's budget.
    pub fn after_connection(&self, allowed: bool) -> (r: Outcome)
        ensures
            if allowed {
                r.is_next()
            } else {
                is_restricted(r, "connection rate limit exceeded"@)
            },
    {
        if allowed {
            Outcome::next()
        } else {
            Outcome::fail(Error::restricted("connection rate limit exceeded"))
        }
    }
}

/// A message gets through exactly when every budget that it is held to allows it: the relay's, where
/// it has one, and the connection's.
pub proof fn law_every_budget_has_to_allow(
    middleware: RateLimitMiddleware,
    first: RateStep,
    relay_allows: bool,
    second: RateStep,
    connection_allows: bool,
    last: Outcome,
)
    requires
        call_ensures(RateLimitMiddleware::process_inbound, (&middleware,), first),
        call_ensures(RateLimitMiddleware::after_global, (&middleware, relay_allows), second),
        call_ensures(RateLimitMiddleware::after_connection, (&middleware, connection_allows), last),
    ensures
        first is CheckGlobal <==> middleware.has_global_limit,
        first is CheckConnection <==> !middleware.has_global_limit,
        relay_allows ==> second is CheckConnection,
        !relay_allows ==> (second matches RateStep::Decided(o) && o.replies@.len() == 0 && (o.flow
            matches Flow::Fail(e) && e is Restricted)),
        connection_allows <==> last.flow is Next,
        !connection_allows ==> (last.flow matches Flow::Fail(e) && e is Restricted),
        last.replies@.len() == 0,
{
}

} // verus!
