//! What a client is told when the processing of its message fails.

use crate::error::{error_text, Error};
use crate::nostr_middleware::{is_ok_reply, Flow, Outcome};
use crate::protocol::{ClientMessage, EventId, RelayMessage};
use crate::relay_middleware::{is_work_for, RelayAction};
use crate::text::concat2;
use vstd::prelude::*;

verus! {

/// What a message is about, and what an answer to it has to name.
#[derive(Debug)]
pub enum ClientMessageId {
    Event(EventId),
    Subscription(String),
}

/// The message closes a subscription with a text.
pub open spec fn is_closed_reply(
    message: RelayMessage,
    subscription: Seq<char>,
    text: Seq<char>,
) -> bool {
    message matches RelayMessage::Closed { subscription_id, message: m } && subscription_id@
        == subscription && m@ == text
}

/// The message tells the client, about what its message was about, a text.
pub open spec fn answers(message: RelayMessage, about: ClientMessageId, text: Seq<char>) -> bool {
    match about {
        ClientMessageId::Event(id) => is_ok_reply(message, id, false, text),
        ClientMessageId::Subscription(id) => is_closed_reply(message, id@, text),
    }
}

/// The message is the right answer to an error.
pub open spec fn answers_error(
    message: RelayMessage,
    error: Error,
    about: ClientMessageId,
) -> bool {
    match error {
        Error::Notice { message: text } => message matches RelayMessage::Notice(m) && m@ == text@,
        Error::EventError { message: text, event_id } => is_ok_reply(
            message,
            event_id,
            false,
            "error: "@ + text@,
        ),
        Error::SubscriptionError { message: text, subscription_id } => is_closed_reply(
            message,
            subscription_id@,
            "error: "@ + text@,
        ),
        Error::AuthRequired { message: text } => answers(
            message,
            about,
            "auth-required: "@ + text@,
        ),
        Error::Restricted { message: text } => answers(message, about, "restricted: "@ + text@),
        _ => answers(message, about, "error: "@ + error_text(error)),
    }
}

/// What a message is about, where its failure is answered at all.
pub open spec fn about_of(message: Option<ClientMessage>, about: Option<ClientMessageId>) -> bool {
    match message {
        Some(ClientMessage::Event(event)) => about matches Some(ClientMessageId::Event(id)) && id
            == event.id,
        Some(ClientMessage::Auth(event)) => about matches Some(ClientMessageId::Event(id)) && id
            == event.id,
        Some(ClientMessage::Req(sub, _)) => about matches Some(ClientMessageId::Subscription(id))
            && id@ == sub@,
        Some(ClientMessage::ReqMultiFilter(sub, _)) => about matches Some(
            ClientMessageId::Subscription(id),
        ) && id@ == sub@,
        Some(ClientMessage::Close(sub)) => about matches Some(ClientMessageId::Subscription(id))
            && id@ == sub@,
        _ => about is None,
    }
}

/// The middleware that turns errors into answers.
#[derive(Debug, Clone, Copy, PartialEq, Eq, Structural)]
pub struct ErrorHandlingMiddleware;

impl Default for ErrorHandlingMiddleware {
    fn default() -> (r: ErrorHandlingMiddleware)
        ensures
            r == ErrorHandlingMiddleware,
    {
        ErrorHandlingMiddleware
    }
}

impl ErrorHandlingMiddleware {
    pub fn new() -> (r: ErrorHandlingMiddleware)
        ensures
            r == ErrorHandlingMiddleware,
    {
        ErrorHandlingMiddleware
    }

    /// What a message is about. A message that is about nothing that can be answered is not
    /// processed any further.
    pub fn process_inbound(&self, message: &Option<ClientMessage>) -> (r: Option<ClientMessageId>)
        ensures
            about_of(*message, r),
    {
        match message {
            Some(ClientMessage::Event(event)) => Some(ClientMessageId::Event(event.id)),
            Some(ClientMessage::Auth(event)) => Some(ClientMessageId::Event(event.id)),
            Some(ClientMessage::Req(id, _)) => Some(ClientMessageId::Subscription(id.clone())),
            Some(ClientMessage::ReqMultiFilter(id, _)) => Some(
                ClientMessageId::Subscription(id.clone()),
            ),
            Some(ClientMessage::Close(id)) => Some(ClientMessageId::Subscription(id.clone())),
            _ => None,
        }
    }

    /// What follows when the rest of the chain is done with a message: nothing where it
    /// succeeded, and an answer where it failed. The failure goes no further.
    pub fn after_next(&self, result: Result<(), Error>, about: ClientMessageId) -> (r: Outcome)
        ensures
            r.flow is Done,
            match result {
                Ok(_) => r.replies@.len() == 0,
                Err(error) => r.replies@.len() == 1 && answers_error(r.replies@[0], error, about),
            },
    {
        match result {
            Ok(_) => Outcome { replies: Vec::new(), flow: Flow::Done },
            Err(error) => Outcome::reply(handle_inbound_error(&error, about)),
        }
    }
}

fn answer(about: ClientMessageId, text: String) -> (r: RelayMessage)
    ensures
        answers(r, about, text@),
{
    match about {
        ClientMessageId::Event(event_id) => RelayMessage::OkReply {
            event_id,
            status: false,
            message: text,
        },
        ClientMessageId::Subscription(subscription_id) => RelayMessage::Closed {
            subscription_id,
            message: text,
        },
    }
}

/// The answer to a message whose processing failed.
pub fn handle_inbound_error(error: &Error, client_message_id: ClientMessageId) -> (r: RelayMessage)
    ensures
        answers_error(r, *error, client_message_id),
{
    match error {
        Error::Notice { message } => RelayMessage::Notice(message.clone()),
        Error::EventError { message, event_id } => RelayMessage::OkReply {
            event_id: *event_id,
            status: false,
            message: concat2("error: ", message.as_str()),
        },
        Error::SubscriptionError { message, subscription_id } => RelayMessage::Closed {
            subscription_id: subscription_id.clone(),
            message: concat2("error: ", message.as_str()),
        },
        Error::AuthRequired { message } => answer(
            client_message_id,
            concat2("auth-required: ", message.as_str()),
        ),
        Error::Restricted { message } => answer(
            client_message_id,
            concat2("restricted: ", message.as_str()),
        ),
        _ => answer(client_message_id, concat2("error: ", error.to_string().as_str())),
    }
}

/// Every message for which the core of the relay opens or ends a subscription, judges an event or
/// goes on from an authentication is about something, and so reaches the next middleware: a request
/// is about its subscription, whether it has one filter or several, and an event about itself.
pub proof fn law_requests_reach_the_core(
    message: ClientMessage,
    about: Option<ClientMessageId>,
    action: RelayAction,
)
    requires
        about_of(Some(message), about),
        is_work_for(Some(message), action),
    ensures
        action is Subscribe || action is Unsubscribe ==> about matches Some(
            ClientMessageId::Subscription(_),
        ),
        action is HandleEvent ==> about matches Some(ClientMessageId::Event(_)),
        message matches ClientMessage::Event(event) ==> (about matches Some(
            ClientMessageId::Event(id),
        ) && id == event.id),
        message matches ClientMessage::Auth(event) ==> (about matches Some(
            ClientMessageId::Event(id),
        ) && id == event.id),
        message matches ClientMessage::Req(subscription, _) ==> (about matches Some(
            ClientMessageId::Subscription(id),
        ) && id@ == subscription@),
        message matches ClientMessage::ReqMultiFilter(subscription, _) ==> (about matches Some(
            ClientMessageId::Subscription(id),
        ) && id@ == subscription@),
        message matches ClientMessage::Close(subscription) ==> (about matches Some(
            ClientMessageId::Subscription(id),
        ) && id@ == subscription@),
        about is None ==> message is Count || message is NegOpen || message is NegMsg
            || message is NegClose,
{
}

/// An answer to a failure names what the failed message was about, or what the error itself is
/// about, and ends in the words of the error. A notice is passed on as it is. No answer says that
/// an event was taken.
pub proof fn law_failures_are_answered(
    reply: RelayMessage,
    error: Error,
    about: ClientMessageId,
)
    requires
        answers_error(reply, error, about),
    ensures
        match error {
            Error::Notice { message } => reply matches RelayMessage::Notice(text) && text@
                == message@,
            Error::EventError { message, event_id } => reply matches RelayMessage::OkReply {
                event_id: id,
                status,
                message: text,
            } && id == event_id && !status && text@ == "error: "@ + message@,
            Error::SubscriptionError { message, subscription_id } => reply
                matches RelayMessage::Closed { subscription_id: id, message: text } && id@
                == subscription_id@ && text@ == "error: "@ + message@,
            _ => match about {
                ClientMessageId::Event(event_id) => reply matches RelayMessage::OkReply {
                    event_id: id,
                    status,
                    message: text,
                } && id == event_id && !status && is_explained(text@, error),
                ClientMessageId::Subscription(subscription_id) => reply
                    matches RelayMessage::Closed { subscription_id: id, message: text } && id@
                    == subscription_id@ && is_explained(text@, error),
            },
        },
{
}

/// The text tells a client of an error in the way of the protocol: a word for its kind, and what
/// happened.
pub open spec fn is_explained(text: Seq<char>, error: Error) -> bool {
    match error {
        Error::AuthRequired { message } => text == "auth-required: "@ + message@,
        Error::Restricted { message } => text == "restricted: "@ + message@,
        _ => text == "error: "@ + error_text(error),
    }
}

/// What the handling of errors makes of a message: a request is about its subscription, whether it
/// has one filter or several, as is the end of a subscription, and an event or an authentication is
/// about the event; these go on to the next middleware, and a failure of theirs is answered once,
/// while a success is not answered.
pub proof fn law_requests_are_handled(
    middleware: ErrorHandlingMiddleware,
    message: ClientMessage,
    about: Option<ClientMessageId>,
    result: Result<(), Error>,
    outcome: Outcome,
)
    requires
        call_ensures(ErrorHandlingMiddleware::process_inbound, (&middleware, &Some(message)), about),
        about is Some ==> call_ensures(
            ErrorHandlingMiddleware::after_next,
            (&middleware, result, about->0),
            outcome,
        ),
    ensures
        match message {
            ClientMessage::Event(event) => about == Some(ClientMessageId::Event(event.id)),
            ClientMessage::Auth(event) => about == Some(ClientMessageId::Event(event.id)),
            ClientMessage::Req(subscription, _) => about matches Some(
                ClientMessageId::Subscription(id),
            ) && id@ == subscription@,
            ClientMessage::ReqMultiFilter(subscription, _) => about matches Some(
                ClientMessageId::Subscription(id),
            ) && id@ == subscription@,
            ClientMessage::Close(subscription) => about matches Some(
                ClientMessageId::Subscription(id),
            ) && id@ == subscription@,
            _ => about is None,
        },
        about is Some ==> outcome.flow is Done && (outcome.replies@.len() == if result is Ok {
            0nat
        } else {
            1nat
        }),
{
}

} // verus!
