//! Messages as bytes.

use crate::protocol::{ClientMessage, ClientMessageView, RelayMessage};
use crate::sdk::{
    parse_client_message, parsed_client_message, relay_message_as_json, relay_message_json,
};
use crate::text::{
    concat2, is_space, law_trimmed_is_the_middle, text_of_bytes, trim, trimmed,
};
use vstd::prelude::*;
use vstd::utf8::{decode_utf8, encode_utf8, valid_utf8};

verus! {

/// What becomes of bytes from a client, given what their text was parsed to.
pub open spec fn converted(
    r: Result<Option<ClientMessage>, String>,
    bytes: Seq<u8>,
    parsed: Result<ClientMessageView, Seq<char>>,
) -> bool {
    if bytes.len() == 0 || !valid_utf8(bytes) {
        r == Ok::<Option<ClientMessage>, String>(None)
    } else {
        match parsed {
            Ok(message) => r matches Ok(Some(m)) && m@ == message,
            Err(e) => if trimmed(decode_utf8(bytes)).len() == 0 {
                r == Ok::<Option<ClientMessage>, String>(None)
            } else {
                r matches Err(text) && text@ == "Failed to parse client message: "@ + e
            },
        }
    }
}

/// Decides about a text from a client, given what it was parsed to: white space is no message,
/// and anything else that is not a message is an error.
pub fn after_parsing(text: &str, parsed: Result<ClientMessage, String>) -> (r: Result<
    Option<ClientMessage>,
    String,
>)
    ensures
        match parsed {
            Ok(message) => r == Ok::<Option<ClientMessage>, String>(Some(message)),
            Err(e) => if trimmed(text@).len() == 0 {
                r == Ok::<Option<ClientMessage>, String>(None)
            } else {
                r matches Err(t) && t@ == "Failed to parse client message: "@ + e@
            },
        },
{
    match parsed {
        Ok(message) => Ok(Some(message)),
        Err(e) => {
            let rest = trim(text);
            if rest.as_str().is_empty() {
                Ok(None)
            } else {
                Err(concat2("Failed to parse client message: ", e.as_str()))
            }
        },
    }
}

/// The converter between messages and bytes.
#[derive(Debug, Clone, Copy, PartialEq, Eq, Structural)]
pub struct NostrMessageConverter;

impl NostrMessageConverter {
    /// The message that bytes from a client hold. There is none where the bytes are empty, are
    /// not UTF-8, or are only white space.
    pub fn inbound_from_bytes(&self, bytes: &[u8]) -> (r: Result<Option<ClientMessage>, String>)
        ensures
            converted(r, bytes@, parsed_client_message(decode_utf8(bytes@))),
            r matches Ok(Some(m)) ==> m@.wf(),
    {
        if bytes.len() == 0 {
            return Ok(None);
        }
        match text_of_bytes(bytes) {
            Some(text) => after_parsing(text.as_str(), parse_client_message(text.as_str())),
            None => Ok(None),
        }
    }

    /// The bytes of a message of the relay.
    pub fn outbound_to_bytes(&self, message: &RelayMessage) -> (r: Vec<u8>)
        requires
            message@.wf(),
        ensures
            r@ == encode_utf8(relay_message_json(message@)),
    {
        relay_message_as_json(message).as_str().as_bytes_vec()
    }
}

/// Bytes that hold a message give that message. There is none in empty bytes, in bytes that are not
/// UTF-8, and in white space; anything else that holds none is an error.
pub proof fn law_bytes_give_their_message(
    r: Result<Option<ClientMessage>, String>,
    bytes: Seq<u8>,
    parsed: Result<ClientMessageView, Seq<char>>,
)
    requires
        converted(r, bytes, parsed),
    ensures
        bytes.len() > 0 && valid_utf8(bytes) && parsed is Ok ==> (r matches Ok(Some(m)) && m@
            == parsed->Ok_0),
        bytes.len() == 0 || !valid_utf8(bytes) ==> r == Ok::<Option<ClientMessage>, String>(None),
        bytes.len() > 0 && valid_utf8(bytes) && parsed is Err ==> (r is Err <==> exists|i: int|
            0 <= i < decode_utf8(bytes).len() && !is_space(#[trigger] decode_utf8(bytes)[i])),
        r is Err || r is Ok && (r->Ok_0 is None || parsed is Ok),
{
    law_trimmed_is_the_middle(decode_utf8(bytes));
}

} // verus!
