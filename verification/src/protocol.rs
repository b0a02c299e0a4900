//! The four interchangeable encoding strategies: each turns a sequence of
//! elements and a target into one framed prompt.

use vstd::prelude::*;

use std::collections::hash_map::DefaultHasher;
use std::hash::Hasher;

use crate::digest::{serde_enc, serialize_base64, sha256_base64, sha256_enc};
use crate::error::Error;
use crate::frame::{build_frame, frame_text, is_delimiter, random_base36, DELIMITER_LEN};
use crate::text::{spec_decimal, u64_to_decimal};

use vstd::std_specs::hash::DefaultHasherAdditionalSpecFns;

verus! {

/// The stable 64-bit digest of a value: what the standard hasher returns
/// after the value's eight little-endian bytes are written to it.
pub open spec fn stable_hash_of(x: u64) -> u64 {
    DefaultHasher::spec_finish(seq![vstd::bytes::spec_u64_to_le_bytes(x)])
}

/// Hashes a value with the standard 64-bit hasher; equal inputs give equal
/// digests on every call.
pub fn stable_hash_u64(x: u64) -> (r: u64)
    ensures
        r == stable_hash_of(x),
{
    let bytes = vstd::bytes::u64_to_le_bytes(x);
    let mut h = DefaultHasher::new();
    h.write(bytes.as_slice());
    proof {
        assert(h@ =~= seq![vstd::bytes::spec_u64_to_le_bytes(x)]);
    }
    h.finish()
}

/// The record encodings of the literal-text strategy: each element as given.
pub open spec fn literal_encs(xs: Seq<Seq<char>>) -> Seq<Seq<char>> {
    xs
}

/// The record encodings of the stable-hash strategy: each element's digest
/// in decimal.
pub open spec fn hash_encs(xs: Seq<u64>) -> Seq<Seq<char>> {
    xs.map(|i: int, x: u64| spec_decimal(stable_hash_of(x) as nat))
}

/// The record encodings of the cryptographic-hash strategy.
pub open spec fn sha256_encs(xs: Seq<Seq<u8>>) -> Seq<Seq<char>> {
    xs.map(|i: int, b: Seq<u8>| sha256_enc(b))
}

/// The record encodings of the structured-serialization strategy.
pub open spec fn serde_encs(xs: Seq<u64>) -> Seq<Seq<char>> {
    xs.map(|i: int, x: u64| serde_enc(x))
}

/// The literal-text strategy: each element stands in its record exactly as
/// given, around a freshly minted random delimiter.
pub fn literal_prompt(elements: &Vec<String>, target: &String) -> (r: String)
    ensures
        exists|d: Seq<char>|
            is_delimiter(d) && r@ == frame_text(d, target@, literal_encs(elements.deep_view())),
{
    let delimiter = random_base36(DELIMITER_LEN);
    let res = build_frame(&delimiter, target, elements);
    proof {
        assert(is_delimiter(delimiter@) && res@ == frame_text(
            delimiter@,
            target@,
            literal_encs(elements.deep_view()),
        ));
    }
    res
}

/// The stable-hash strategy: every element and the target go through the
/// stable 64-bit hash; records carry decimal digests around the fixed `#`
/// delimiter.
pub fn hash_prompt(elements: &Vec<u64>, target: u64) -> (r: String)
    ensures
        r@ == frame_text("#"@, spec_decimal(stable_hash_of(target) as nat), hash_encs(elements@)),
{
    let delimiter: String = "#".to_owned();
    let target_enc = u64_to_decimal(stable_hash_u64(target));
    let mut encs: Vec<String> = Vec::new();
    let mut i: usize = 0;
    while i < elements.len()
        invariant
            i <= elements.len(),
            encs@.len() == i,
            forall|j: int|
                0 <= j < i ==> encs@[j]@ == spec_decimal(
                    stable_hash_of(#[trigger] elements@[j]) as nat,
                ),
        decreases elements.len() - i,
    {
        let e = u64_to_decimal(stable_hash_u64(elements[i]));
        encs.push(e);
        i = i + 1;
    }
    proof {
        assert forall|j: int| 0 <= j < elements@.len() implies encs.deep_view()[j] == hash_encs(
            elements@,
        )[j] by {
            assert(encs.deep_view()[j] == encs@[j]@);
        }
        assert(encs.deep_view() =~= hash_encs(elements@));
    }
    build_frame(&delimiter, &target_enc, &encs)
}

/// The cryptographic-hash strategy: every element and the target are
/// digested with SHA-256 and rendered as base64, around the fixed `#`
/// delimiter.
pub fn sha256_prompt(elements: &Vec<Vec<u8>>, target: &[u8]) -> (r: String)
    ensures
        r@ == frame_text("#"@, sha256_enc(target@), sha256_encs(elements.deep_view())),
{
    let delimiter: String = "#".to_owned();
    let target_enc = sha256_base64(target);
    let mut encs: Vec<String> = Vec::new();
    let mut i: usize = 0;
    while i < elements.len()
        invariant
            i <= elements.len(),
            encs@.len() == i,
            forall|j: int| 0 <= j < i ==> encs@[j]@ == sha256_enc(#[trigger] elements@[j]@),
        decreases elements.len() - i,
    {
        let e = sha256_base64(elements[i].as_slice());
        encs.push(e);
        i = i + 1;
    }
    proof {
        assert forall|j: int| 0 <= j < elements@.len() implies encs.deep_view()[j] == sha256_encs(
            elements.deep_view(),
        )[j] by {
            assert(encs.deep_view()[j] == encs@[j]@);
            assert(elements.deep_view()[j] == elements@[j]@);
        }
        assert(encs.deep_view() =~= sha256_encs(elements.deep_view()));
    }
    build_frame(&delimiter, &target_enc, &encs)
}

/// The structured-serialization strategy: every element and the target are
/// binary-encoded and rendered as base64, around a freshly minted random
/// delimiter. The one strategy whose encoding step is fallible by type; if an
/// element ever failed to encode, no partial frame would be returned. For
/// integer elements every encoding succeeds, so the whole frame is owed.
pub fn serde_prompt(elements: &Vec<u64>, target: u64) -> (r: Result<String, Error>)
    ensures
        r is Ok,
        r matches Ok(s) ==> exists|d: Seq<char>|
            is_delimiter(d) && s@ == frame_text(d, serde_enc(target), serde_encs(elements@)),
{
    let target_enc = match serialize_base64(target) {
        Ok(s) => s,
        Err(e) => {
            return Err(e);
        },
    };
    let mut encs: Vec<String> = Vec::new();
    let mut i: usize = 0;
    while i < elements.len()
        invariant
            i <= elements.len(),
            encs@.len() == i,
            forall|j: int| 0 <= j < i ==> encs@[j]@ == serde_enc(#[trigger] elements@[j]),
        decreases elements.len() - i,
    {
        let e = match serialize_base64(elements[i]) {
            Ok(s) => s,
            Err(e) => {
                return Err(e);
            },
        };
        encs.push(e);
        i = i + 1;
    }
    let delimiter = random_base36(DELIMITER_LEN);
    proof {
        assert forall|j: int| 0 <= j < elements@.len() implies encs.deep_view()[j] == serde_encs(
            elements@,
        )[j] by {
            assert(encs.deep_view()[j] == encs@[j]@);
        }
        assert(encs.deep_view() =~= serde_encs(elements@));
    }
    let res = build_frame(&delimiter, &target_enc, &encs);
    proof {
        assert(is_delimiter(delimiter@) && res@ == frame_text(
            delimiter@,
            serde_enc(target),
            serde_encs(elements@),
        ));
    }
    Ok(res)
}

/// One strategy choice together with its typed traversal and target.
pub enum Strategy {
    /// Human-readable direct rendering.
    Literal(Vec<String>, String),
    /// Opaque 64-bit digest per element.
    StableHash(Vec<u64>, u64),
    /// SHA-256 plus base64, for binary or untrusted content.
    CryptoHash(Vec<Vec<u8>>, Vec<u8>),
    /// Compact binary encoding plus base64, for typed records.
    StructuredSerialization(Vec<u64>, u64),
}

/// What frame text a strategy owes for its traversal and target.
pub open spec fn strategy_frame_ok(s: Strategy, out: Seq<char>) -> bool {
    match s {
        Strategy::Literal(els, t) => exists|d: Seq<char>|
            is_delimiter(d) && out == frame_text(d, t@, literal_encs(els.deep_view())),
        Strategy::StableHash(els, t) => out == frame_text(
            "#"@,
            spec_decimal(stable_hash_of(t) as nat),
            hash_encs(els@),
        ),
        Strategy::CryptoHash(els, t) => out == frame_text(
            "#"@,
            sha256_enc(t@),
            sha256_encs(els.deep_view()),
        ),
        Strategy::StructuredSerialization(els, t) => exists|d: Seq<char>|
            is_delimiter(d) && out == frame_text(d, serde_enc(t), serde_encs(els@)),
    }
}

/// The single closed encode interface over the four strategies. Every
/// strategy succeeds on its typed inputs.
pub fn encode(strategy: &Strategy) -> (r: Result<String, Error>)
    ensures
        r is Ok,
        r matches Ok(s) ==> strategy_frame_ok(*strategy, s@),
{
    match strategy {
        Strategy::Literal(els, t) => Ok(literal_prompt(els, t)),
        Strategy::StableHash(els, t) => Ok(hash_prompt(els, *t)),
        Strategy::CryptoHash(els, t) => Ok(sha256_prompt(els, t.as_slice())),
        Strategy::StructuredSerialization(els, t) => serde_prompt(els, *t),
    }
}

} // verus!
