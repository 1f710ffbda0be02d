//! The middleware that logs messages. It lets every message through.

use crate::protocol::Scope;
use vstd::prelude::*;

verus! {

/// The middleware that logs messages.
#[derive(Debug, Clone, Copy, PartialEq, Eq, Structural)]
pub struct LoggerMiddleware;

impl LoggerMiddleware {
    pub fn new() -> (r: LoggerMiddleware)
        ensures
            r == LoggerMiddleware,
    {
        LoggerMiddleware
    }

    /// The subdomain that a log entry names: that of the scope, where it has a name.
    pub fn extract_subdomain(scope: &Scope) -> (r: Option<String>)
        ensures
            match r {
                Some(name) => scope@ == Some(name@),
                None => scope@ is None,
            },
    {
        match scope {
            Scope::Named { name } => Some(name.clone()),
            Scope::Default => None,
        }
    }
}

} // verus!
