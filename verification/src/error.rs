//! The errors of the relay.

use crate::protocol::EventId;
use crate::text::concat2;
use vstd::prelude::*;

verus! {

#[derive(Debug)]
pub enum Error {
    Internal { message: String },
    WebSocket { message: String },
    Database { message: String },
    Protocol { message: String },
    AuthRequired { message: String },
    Restricted { message: String },
    Notice { message: String },
    Duplicate { message: String },
    EventError { message: String, event_id: EventId },
    SubscriptionError { message: String, subscription_id: String },
}

/// The text of an error: what went wrong where, and the message.
pub open spec fn error_text(e: Error) -> Seq<char> {
    match e {
        Error::Internal { message } => "Internal error: "@ + message@,
        Error::WebSocket { message } => "WebSocket error: "@ + message@,
        Error::Database { message } => "Database error: "@ + message@,
        Error::Protocol { message } => "Protocol error: "@ + message@,
        Error::AuthRequired { message } => "Auth required: "@ + message@,
        Error::Restricted { message } => "Restricted: "@ + message@,
        Error::Notice { message } => "Notice: "@ + message@,
        Error::Duplicate { message } => "Duplicate: "@ + message@,
        Error::EventError { message, event_id } => "Event error: "@ + message@,
        Error::SubscriptionError { message, subscription_id } => "Subscription error: "@ + message@,
    }
}

impl Error {
    /// An internal error.
    pub fn internal(message: &str) -> (r: Error)
        ensures
            r matches Error::Internal { message: m } && m@ == message@,
    {
        Error::Internal { message: message.to_owned() }
    }

    /// A database error.
    pub fn database(message: &str) -> (r: Error)
        ensures
            r matches Error::Database { message: m } && m@ == message@,
    {
        Error::Database { message: message.to_owned() }
    }

    /// A protocol error.
    pub fn protocol(message: &str) -> (r: Error)
        ensures
            r matches Error::Protocol { message: m } && m@ == message@,
    {
        Error::Protocol { message: message.to_owned() }
    }

    /// The client has to authenticate first.
    pub fn auth_required(message: &str) -> (r: Error)
        ensures
            r matches Error::AuthRequired { message: m } && m@ == message@,
    {
        Error::AuthRequired { message: message.to_owned() }
    }

    /// The client may not do this.
    pub fn restricted(message: &str) -> (r: Error)
        ensures
            r matches Error::Restricted { message: m } && m@ == message@,
    {
        Error::Restricted { message: message.to_owned() }
    }

    /// A message for the client.
    pub fn notice(message: &str) -> (r: Error)
        ensures
            r matches Error::Notice { message: m } && m@ == message@,
    {
        Error::Notice { message: message.to_owned() }
    }

    /// The event is there already.
    pub fn duplicate(message: &str) -> (r: Error)
        ensures
            r matches Error::Duplicate { message: m } && m@ == message@,
    {
        Error::Duplicate { message: message.to_owned() }
    }

    /// An error about an event.
    pub fn event_error(message: &str, event_id: EventId) -> (r: Error)
        ensures
            r matches Error::EventError { message: m, event_id: id } && m@ == message@ && id
                == event_id,
    {
        Error::EventError { message: message.to_owned(), event_id }
    }

    /// An error about a subscription.
    pub fn subscription_error(message: &str, subscription_id: &str) -> (r: Error)
        ensures
            r matches Error::SubscriptionError { message: m, subscription_id: id } && m@ == message@
                && id@ == subscription_id@,
    {
        Error::SubscriptionError {
            message: message.to_owned(),
            subscription_id: subscription_id.to_owned(),
        }
    }

    /// The text of the error.
    pub fn to_string(&self) -> (r: String)
        ensures
            r@ == error_text(*self),
    {
        match self {
            Error::Internal { message } => concat2("Internal error: ", message.as_str()),
            Error::WebSocket { message } => concat2("WebSocket error: ", message.as_str()),
            Error::Database { message } => concat2("Database error: ", message.as_str()),
            Error::Protocol { message } => concat2("Protocol error: ", message.as_str()),
            Error::AuthRequired { message } => concat2("Auth required: ", message.as_str()),
            Error::Restricted { message } => concat2("Restricted: ", message.as_str()),
            Error::Notice { message } => concat2("Notice: ", message.as_str()),
            Error::Duplicate { message } => concat2("Duplicate: ", message.as_str()),
            Error::EventError { message, .. } => concat2("Event error: ", message.as_str()),
            Error::SubscriptionError { message, .. } => concat2(
                "Subscription error: ",
                message.as_str(),
            ),
        }
    }
}

/// The text of an error begins with a word for its kind and ends in its message; errors of different
/// kinds never read the same but for their messages.
pub proof fn law_error_texts(e: Error)
    ensures
        match e {
            Error::Internal { message } => error_text(e) == "Internal error: "@ + message@,
            Error::WebSocket { message } => error_text(e) == "WebSocket error: "@ + message@,
            Error::Database { message } => error_text(e) == "Database error: "@ + message@,
            Error::Protocol { message } => error_text(e) == "Protocol error: "@ + message@,
            Error::AuthRequired { message } => error_text(e) == "Auth required: "@ + message@,
            Error::Restricted { message } => error_text(e) == "Restricted: "@ + message@,
            Error::Notice { message } => error_text(e) == "Notice: "@ + message@,
            Error::Duplicate { message } => error_text(e) == "Duplicate: "@ + message@,
            Error::EventError { message, event_id } => error_text(e) == "Event error: "@ + message@,
            Error::SubscriptionError { message, subscription_id } => error_text(e)
                == "Subscription error: "@ + message@,
        },
{
}

} // verus!
