//! The one-way and reversible element encodings that rest on outside crates:
//! SHA-256 digests, standard base64 text, and compact binary serialization.

use vstd::prelude::*;

use crate::error::Error;

verus! {

/// The SHA-256 digest of a byte sequence. Its 32 bytes are a function of the
/// input alone; they are named here, not written out.
pub uninterp spec fn sha256_of(data: Seq<u8>) -> Seq<u8>;

/// The standard base64 rendering, with padding, of a byte sequence.
pub uninterp spec fn base64_of(data: Seq<u8>) -> Seq<char>;

/// The compact binary serialization of a 64-bit value with the standard
/// configuration: the value's own byte up to 250, else a width marker
/// followed by the value's little-endian bytes in the smallest width that
/// holds it.
pub open spec fn bincode_u64_of(x: u64) -> Seq<u8> {
    if x <= 250 {
        seq![x as u8]
    } else if x <= u16::MAX {
        seq![251u8] + vstd::bytes::spec_u16_to_le_bytes(x as u16)
    } else if x <= u32::MAX {
        seq![252u8] + vstd::bytes::spec_u32_to_le_bytes(x as u32)
    } else {
        seq![253u8] + vstd::bytes::spec_u64_to_le_bytes(x)
    }
}

/// The cryptographic-hash encoding of one element: SHA-256, then base64.
pub open spec fn sha256_enc(data: Seq<u8>) -> Seq<char> {
    base64_of(sha256_of(data))
}

/// The structured-serialization encoding of one element: compact binary
/// form, then base64.
pub open spec fn serde_enc(x: u64) -> Seq<char> {
    base64_of(bincode_u64_of(x))
}

/// Relies on ring::digest::digest with SHA-256: the digest has 32 bytes and
/// depends on the input bytes alone.
#[verifier::external_body]
fn sha256(data: &[u8]) -> (r: Vec<u8>)
    ensures
        r@ == sha256_of(data@),
        r@.len() == 32,
{
    ring::digest::digest(&ring::digest::SHA256, data).as_ref().to_vec()
}

/// Relies on the encode of base64's standard engine: the text depends on the
/// input bytes alone, four characters for every started group of three bytes
/// (padding included).
#[verifier::external_body]
fn base64_encode(data: &[u8]) -> (r: String)
    ensures
        r@ == base64_of(data@),
        r@.len() == 4 * ((data@.len() + 2) / 3),
{
    base64::Engine::encode(&base64::engine::general_purpose::STANDARD, data)
}

/// Relies on the decode of base64's standard engine, the inverse of its
/// encode: on text that encode produced, it returns the bytes encoded.
#[verifier::external_body]
fn base64_decode(s: &str) -> (r: Option<Vec<u8>>)
    ensures
        r matches Some(v) ==> forall|b: Seq<u8>| s@ == base64_of(b) ==> v@ == b,
        r is None ==> forall|b: Seq<u8>| s@ != base64_of(b),
{
    match base64::Engine::decode(&base64::engine::general_purpose::STANDARD, s) {
        Ok(v) => Some(v),
        Err(_) => None,
    }
}

/// Relies on bincode::serde::encode_to_vec with the standard configuration:
/// it writes exactly the variable-width form that `bincode_u64_of` states,
/// and writing it into a fresh vector cannot fail.
#[verifier::external_body]
fn bincode_encode_u64(x: u64) -> (r: Result<Vec<u8>, Error>)
    ensures
        r is Ok,
        r matches Ok(v) ==> v@ == bincode_u64_of(x),
{
    match bincode::serde::encode_to_vec(x, bincode::config::standard()) {
        Ok(v) => Ok(v),
        Err(e) => Err(Error::Encode(format!("{e}"))),
    }
}

/// Relies on bincode::serde::decode_from_slice with the standard
/// configuration, the inverse of encoding: on bytes that encoding produced,
/// it returns the value that was encoded.
#[verifier::external_body]
fn bincode_decode_u64(data: &[u8]) -> (r: Option<u64>)
    ensures
        r matches Some(v) ==> forall|x: u64| data@ == bincode_u64_of(x) ==> v == x,
        r is None ==> forall|x: u64| data@ != bincode_u64_of(x),
{
    match bincode::serde::decode_from_slice::<u64, _>(data, bincode::config::standard()) {
        Ok((v, _)) => Some(v),
        Err(_) => None,
    }
}

/// Digests a byte string and renders the digest as base64 text: always 44
/// characters, the base64 form of 32 bytes.
pub fn sha256_base64(data: &[u8]) -> (r: String)
    ensures
        r@ == sha256_enc(data@),
        r@.len() == 44,
{
    let h = sha256(data);
    base64_encode(h.as_slice())
}

/// Serializes a value into its compact binary form rendered as base64 text.
/// Serializing an integer always succeeds.
pub fn serialize_base64(x: u64) -> (r: Result<String, Error>)
    ensures
        r is Ok,
        r matches Ok(s) ==> s@ == serde_enc(x),
{
    match bincode_encode_u64(x) {
        Ok(bytes) => Ok(base64_encode(bytes.as_slice())),
        Err(e) => Err(e),
    }
}

/// Round trip: decodes one serialized record value, base64 first and then
/// the binary form; whatever `serialize_base64` encoded comes back exactly.
pub fn deserialize_base64(s: &str) -> (r: Option<u64>)
    ensures
        forall|x: u64| s@ == serde_enc(x) ==> r == Some(x),
{
    match base64_decode(s) {
        Some(bytes) => bincode_decode_u64(bytes.as_slice()),
        None => None,
    }
}

} // verus!
