//! Content hashing for the deduplicating JWKS blob store.

use vstd::prelude::*;

verus! {

/// The 256-bit BLAKE2b digest of a byte string.  The digest is a function
/// of the input bytes alone; its value is not axiomatized here, only its
/// length.
pub uninterp spec fn hash_of(bytes: Seq<u8>) -> Seq<u8>;

/// Relies on `blake2::Blake2b256` (`Digest::update` / `Digest::finalize`):
/// the digest is 32 bytes long and depends on the input bytes alone.
#[verifier::external_body]
pub fn blake2b_256(bytes: &Vec<u8>) -> (r: Vec<u8>)
    ensures
        r@ == hash_of(bytes@),
        r@.len() == 32,
{
    let mut hasher = <blake2::Blake2b256 as blake2::Digest>::new();
    blake2::Digest::update(&mut hasher, bytes.as_slice());
    blake2::Digest::finalize(hasher).to_vec()
}

} // verus!
