//! The rules of a relay: which events a connection may see, which filters it may use, and what
//! becomes of the events it sends.

use crate::error::Error;
use crate::protocol::{Event, Filter, PublicKey, Scope, UnsignedEvent};
use vstd::prelude::*;

verus! {

/// A change of the store.
pub enum StoreCommand {
    /// Sign an event and save it.
    SaveUnsignedEvent(UnsignedEvent, Scope),
    /// Save an event.
    SaveSignedEvent(Event, Scope),
    /// Delete the events that a filter selects.
    DeleteEvents(Filter, Scope),
}

/// What the rules know of a connection.
pub struct EventContext {
    /// The public key that the connection authenticated with.
    pub authed_pubkey: Option<PublicKey>,
    /// The scope that the connection works in.
    pub subdomain: Scope,
    /// The public key of the relay.
    pub relay_pubkey: PublicKey,
}

impl EventContext {
    /// The context of a connection.
    pub fn new(authed_pubkey: Option<PublicKey>, subdomain: &Scope, relay_pubkey: PublicKey) -> (r:
        EventContext)
        ensures
            r.authed_pubkey == authed_pubkey,
            r.subdomain@ == subdomain@,
            r.relay_pubkey == relay_pubkey,
    {
        EventContext { authed_pubkey, subdomain: subdomain.copy(), relay_pubkey }
    }
}

/// The event is saved in the scope of its connection, and nothing else happens.
pub open spec fn saves_event<T>(
    event: Event,
    before: T,
    context: EventContext,
    after: T,
    result: Result<Vec<StoreCommand>, Error>,
) -> bool {
    &&& after == before
    &&& result matches Ok(commands) && commands@.len() == 1 && (commands@[0]
        matches StoreCommand::SaveSignedEvent(saved, scope) && saved == event && scope@
        == context.subdomain@)
}

/// The rules of a relay, over a state of type `T` that each connection has. Where an
/// implementation leaves a method out, the rule is that of a public relay.
pub trait EventProcessor<T>: Sized {
    /// Whether the connection may see an event.
    fn can_see_event(&self, event: &Event, custom_state: &T, context: &EventContext) -> (r: Result<
        bool,
        Error,
    >)
        default_ensures
            r == Ok::<bool, Error>(true),
    {
        Ok(true)
    }

    /// Whether the connection may use filters.
    fn verify_filters(
        &self,
        filters: &Vec<Filter>,
        custom_state: &T,
        context: &EventContext,
    ) -> (r: Result<(), Error>)
        default_ensures
            r == Ok::<(), Error>(()),
    {
        Ok(())
    }

    /// What becomes of an event that the connection sends.
    fn handle_event(
        &self,
        event: Event,
        custom_state: &mut T,
        context: &EventContext,
    ) -> (r: Result<Vec<StoreCommand>, Error>)
        default_ensures
            saves_event(event, *old(custom_state), *context, *final(custom_state), r),
    {
        let mut commands: Vec<StoreCommand> = Vec::new();
        commands.push(StoreCommand::SaveSignedEvent(event, context.subdomain.copy()));
        Ok(commands)
    }
}

/// The rules of a public relay: everyone sees every event and may use every filter, and every
/// event is saved in the scope of its connection.
#[derive(Debug, Clone, Copy)]
pub struct DefaultRelayProcessor;

impl Default for DefaultRelayProcessor {
    fn default() -> (r: DefaultRelayProcessor)
        ensures
            r == DefaultRelayProcessor,
    {
        DefaultRelayProcessor
    }
}

impl<T> EventProcessor<T> for DefaultRelayProcessor {

}

} // verus!
