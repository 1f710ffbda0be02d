//! Bytes in hexadecimal.

use vstd::prelude::*;

verus! {

/// The hexadecimal digit of a number below sixteen, in lower case.
pub open spec fn hex_digit(n: int) -> char {
    if n < 10 {
        (('0' as u32) + n) as char
    } else {
        (('a' as u32) + (n - 10)) as char
    }
}

/// Two digits for each byte.
pub open spec fn hex_text(bytes: Seq<u8>) -> Seq<char> {
    Seq::new(
        bytes.len() * 2,
        |i: int|
            if i % 2 == 0 {
                hex_digit(bytes[i / 2] as int / 16)
            } else {
                hex_digit(bytes[i / 2] as int % 16)
            },
    )
}

/// The character is a hexadecimal digit, in lower or upper case.
pub open spec fn is_hex_digit(c: char) -> bool {
    ||| '0' <= c && c <= '9'
    ||| 'a' <= c && c <= 'f'
    ||| 'A' <= c && c <= 'F'
}

/// The number that a hexadecimal digit stands for.
pub open spec fn hex_value(c: char) -> int {
    if '0' <= c && c <= '9' {
        c as u32 - '0' as u32
    } else if 'a' <= c && c <= 'f' {
        c as u32 - 'a' as u32 + 10
    } else {
        c as u32 - 'A' as u32 + 10
    }
}

/// The text is an even number of hexadecimal digits.
pub open spec fn is_hex(text: Seq<char>) -> bool {
    text.len() % 2 == 0 && forall|i: int| 0 <= i < text.len() ==> is_hex_digit(#[trigger] text[i])
}

/// The bytes that pairs of hexadecimal digits stand for.
pub open spec fn hex_bytes(text: Seq<char>) -> Seq<u8> {
    Seq::new(
        text.len() / 2,
        |i: int| (hex_value(text[2 * i]) * 16 + hex_value(text[2 * i + 1])) as u8,
    )
}

/// What `hex` says of a text that it cannot decode.
pub uninterp spec fn hex_error(text: Seq<char>) -> Seq<char>;

/// `hex::encode`: two lower-case digits for each byte.
#[verifier::external_body]
pub(crate) fn encode(bytes: &Vec<u8>) -> (r: String)
    ensures
        r@ == hex_text(bytes@),
{
    hex::encode(bytes)
}

/// `hex::decode`: the bytes of an even number of hexadecimal digits of either case. The text
/// of the error for any other input is the crate's own.
#[verifier::external_body]
pub(crate) fn decode(text: &str) -> (r: Result<Vec<u8>, String>)
    ensures
        match r {
            Ok(bytes) => is_hex(text@) && bytes@ == hex_bytes(text@),
            Err(e) => !is_hex(text@) && e@ == hex_error(text@),
        },
{
    hex::decode(text).map_err(|e| e.to_string())
}

/// Bytes, written in hexadecimal and read again, are the same bytes.
pub proof fn law_decode_after_encode(bytes: Seq<u8>)
    ensures
        is_hex(hex_text(bytes)),
        hex_bytes(hex_text(bytes)) == bytes,
{
    let text = hex_text(bytes);
    assert forall|i: int| 0 <= i < text.len() implies is_hex_digit(#[trigger] text[i]) by {
        lemma_digit(bytes[i / 2] as int / 16);
        lemma_digit(bytes[i / 2] as int % 16);
    }
    assert forall|i: int| 0 <= i < bytes.len() implies #[trigger] hex_bytes(text)[i] == bytes[i] by {
        assert(text[2 * i] == hex_digit(bytes[i] as int / 16));
        assert((2 * i + 1) / 2 == i);
        assert((2 * i + 1) % 2 == 1);
        assert(text[2 * i + 1] == hex_digit(bytes[i] as int % 16));
        lemma_digit(bytes[i] as int / 16);
        lemma_digit(bytes[i] as int % 16);
    }
    assert(hex_bytes(text) =~= bytes);
}

proof fn lemma_digit(n: int)
    requires
        0 <= n < 16,
    ensures
        is_hex_digit(hex_digit(n)),
        hex_value(hex_digit(n)) == n,
{
}

} // verus!
