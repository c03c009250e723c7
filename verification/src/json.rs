//! JSON canonicalization.
//!
//! A JWKS document is stored and hashed in canonical form: the bytes are
//! parsed as JSON and re-serialized with object keys in a fixed total
//! order, so that semantically equal documents dedup to the same blob.

use vstd::prelude::*;

verus! {

/// Whether the byte string parses as a JSON document.
pub uninterp spec fn json_valid(bytes: Seq<u8>) -> bool;

/// The canonical serialization of a valid JSON document: the same value
/// re-serialized with object keys in lexicographic order.  It is a function
/// of the input bytes alone.
pub uninterp spec fn canon_of(bytes: Seq<u8>) -> Seq<u8>;

/// Relies on `serde_json::from_slice::<serde_json::Value>`, which accepts
/// exactly the valid JSON documents, and `serde_json::to_string`, which
/// serializes the parsed value deterministically with object keys ordered
/// (and never fails on a value produced by parsing).
#[verifier::external_body]
pub fn canonicalize(bytes: &Vec<u8>) -> (r: Option<Vec<u8>>)
    ensures
        r is Some <==> json_valid(bytes@),
        r is Some ==> r->0@ == canon_of(bytes@),
{
    match serde_json::from_slice::<serde_json::Value>(bytes.as_slice()) {
        Ok(value) => match serde_json::to_string(&value) {
            Ok(text) => Some(text.into_bytes()),
            Err(_) => None,
        },
        Err(_) => None,
    }
}

} // verus!
