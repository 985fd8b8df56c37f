//! Session transport encoding: a serialized session travels to sub-processes
//! as base64 text, and chain keys are displayed as short hex names.

use vstd::prelude::*;

use crate::hashing::AteHash;

verus! {

/// The base64 text that encoding a byte sequence produces.
pub uninterp spec fn b64_of(bytes: Seq<u8>) -> Seq<char>;

/// What decoding a piece of base64 text yields.
pub uninterp spec fn b64_decode_of(text: Seq<char>) -> Option<Seq<u8>>;

/// Relies on base64::encode (standard alphabet, padded): the text is a
/// function of the bytes alone, and base64::decode inverts it.
#[verifier::external_body]
fn b64_encode(bytes: &Vec<u8>) -> (r: String)
    ensures
        r@ == b64_of(bytes@),
        b64_decode_of(r@) == Some(bytes@),
{
    base64::encode(bytes)
}

/// Relies on base64::decode (standard alphabet, padded): what it yields is a
/// function of the text alone.
#[verifier::external_body]
fn b64_decode(text: &String) -> (r: Option<Vec<u8>>)
    ensures
        match r {
            Some(w) => b64_decode_of(text@) == Some(w@),
            None => b64_decode_of(text@) is None,
        },
{
    base64::decode(text).ok()
}

/// Encode a serialized session for transport to a sub-process.
pub fn session_to_b64(bytes: &Vec<u8>) -> (r: String)
    ensures
        r@ == b64_of(bytes@),
        b64_decode_of(r@) == Some(bytes@),
{
    b64_encode(bytes)
}

/// Decode a transported session back to its serialized bytes.
pub fn b64_to_session(text: &String) -> (r: Option<Vec<u8>>)
    ensures
        match r {
            Some(w) => b64_decode_of(text@) == Some(w@),
            None => b64_decode_of(text@) is None,
        },
{
    b64_decode(text)
}

/// Encoding then decoding a session is the identity.
pub proof fn lemma_session_transport_round_trip(bytes: Seq<u8>, text: Seq<char>, back: Option<
    Vec<u8>,
>)
    requires
        text == b64_of(bytes),
        b64_decode_of(text) == Some(bytes),
        match back {
            Some(w) => b64_decode_of(text) == Some(w@),
            None => b64_decode_of(text) is None,
        },
    ensures
        back matches Some(w) && w@ == bytes,
{
}

/// The lowercase hex digit of a nibble.
pub open spec fn hex_digit(n: u8) -> char {
    if n == 0 {
        '0'
    } else if n == 1 {
        '1'
    } else if n == 2 {
        '2'
    } else if n == 3 {
        '3'
    } else if n == 4 {
        '4'
    } else if n == 5 {
        '5'
    } else if n == 6 {
        '6'
    } else if n == 7 {
        '7'
    } else if n == 8 {
        '8'
    } else if n == 9 {
        '9'
    } else if n == 10 {
        'a'
    } else if n == 11 {
        'b'
    } else if n == 12 {
        'c'
    } else if n == 13 {
        'd'
    } else if n == 14 {
        'e'
    } else {
        'f'
    }
}

/// The lowercase hex text of a byte sequence, two digits per byte.
pub open spec fn hex_of(bytes: Seq<u8>) -> Seq<char>
    decreases bytes.len(),
{
    if bytes.len() == 0 {
        Seq::empty()
    } else {
        hex_of(bytes.drop_last()) + seq![
            hex_digit(bytes.last() / 16),
            hex_digit(bytes.last() % 16),
        ]
    }
}

/// Relies on hex::encode: two lowercase digits for each byte, high nibble
/// first.
#[verifier::external_body]
fn hex_encode(bytes: &Vec<u8>) -> (r: String)
    ensures
        r@ == hex_of(bytes@),
{
    hex::encode(bytes)
}

/// The short hex name a hash is displayed under.
pub fn hash_as_hex(h: &AteHash) -> (r: String)
    ensures
        r@ == hex_of(crate::codec::enc_u64(h.val)),
{
    let mut b: Vec<u8> = Vec::new();
    crate::codec::push_u64(&mut b, h.val);
    hex_encode(&b)
}

} // verus!
