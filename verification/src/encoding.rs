//! SHA-1 and base64, as the WebSocket handshake and the h2c upgrade use
//! them. Both are computed by their crates; the digest is named here,
//! base64 text and its decoding are stated.

use vstd::prelude::*;

verus! {

/// The SHA-1 digest of some bytes.
pub uninterp spec fn sha1_of(data: Seq<u8>) -> Seq<u8>;

/// The char of a six-bit value in the standard base64 alphabet.
pub open spec fn base64_char(v: nat) -> char {
    if v < 26 {
        (('A' as nat) + v) as char
    } else if v < 52 {
        (('a' as nat) + v - 26) as char
    } else if v < 62 {
        (('0' as nat) + v - 52) as char
    } else if v == 62 {
        '+'
    } else {
        '/'
    }
}

/// The standard base64 text (with padding) of some bytes: each group of
/// three bytes as four chars of six bits each, a last group of one or two
/// bytes padded with `=`.
pub open spec fn base64_text(data: Seq<u8>) -> Seq<char>
    decreases data.len(),
{
    if data.len() == 0 {
        Seq::empty()
    } else if data.len() == 1 {
        let a = data[0] as nat;
        seq![base64_char(a / 4), base64_char((a % 4) * 16), '=', '=']
    } else if data.len() == 2 {
        let a = data[0] as nat;
        let b = data[1] as nat;
        seq![base64_char(a / 4), base64_char((a % 4) * 16 + b / 16), base64_char((b % 16) * 4), '=']
    } else {
        let a = data[0] as nat;
        let b = data[1] as nat;
        let c = data[2] as nat;
        seq![
            base64_char(a / 4),
            base64_char((a % 4) * 16 + b / 16),
            base64_char((b % 16) * 4 + c / 64),
            base64_char(c % 64),
        ] + base64_text(data.subrange(3, data.len() as int))
    }
}

/// The standard base64 text of some bytes, as ASCII bytes.
pub open spec fn base64_bytes(data: Seq<u8>) -> Seq<u8> {
    base64_text(data).map_values(|c: char| c as u8)
}

/// What standard base64 decoding (canonical padding, no stray trailing
/// bits) makes of some bytes: the bytes whose base64 text they are, when
/// they are one (different bytes have different texts), else nothing.
pub open spec fn base64_decoded(input: Seq<u8>) -> Option<Seq<u8>> {
    if exists|d: Seq<u8>| #[trigger] base64_bytes(d) == input {
        Some(choose|d: Seq<u8>| #[trigger] base64_bytes(d) == input)
    } else {
        None
    }
}

/// `sha1::Sha1::digest`: the 20-byte SHA-1 digest of `data`.
#[verifier::external_body]
pub(crate) fn sha1_digest(data: &[u8]) -> (r: Vec<u8>)
    ensures
        r@ == sha1_of(data@),
        r@.len() == 20,
{
    <sha1::Sha1 as sha1::Digest>::digest(data).to_vec()
}

/// `base64::Engine::encode` with the `STANDARD` engine: the base64 text of
/// `data`, padded to a multiple of four chars.
#[verifier::external_body]
pub(crate) fn base64_encode(data: &[u8]) -> (r: String)
    ensures
        r@ == base64_text(data@),
        r@.len() == 4 * ((data@.len() + 2) / 3),
{
    base64::Engine::encode(&base64::engine::general_purpose::STANDARD, data)
}

/// `base64::Engine::decode` with the `STANDARD` engine (padding required
/// and canonical, trailing bits refused): the bytes `input` spells, or
/// `None` when it is not the base64 text of any bytes.
#[verifier::external_body]
pub(crate) fn base64_decode(input: &[u8]) -> (r: Option<Vec<u8>>)
    ensures
        match r {
            Some(v) => base64_decoded(input@) == Some(v@),
            None => base64_decoded(input@) is None,
        },
{
    base64::Engine::decode(&base64::engine::general_purpose::STANDARD, input).ok()
}

} // verus!
