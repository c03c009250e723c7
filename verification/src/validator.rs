//! Standalone token-validation helpers.
//!
//! These mirror the verifier of [`crate::jwt`] with option-returning
//! accessors: absence is reported as `None`, and `verify_jwt` folds every
//! missing piece into its error type.

use vstd::prelude::*;

pub use crate::jwt::{
    get_issuer, get_sub, Claims, ErrorInJwt, Header, Jwk, JwkSet, JwksEnum, KeyParameters,
    TokenData,
};

use crate::jwt::{
    decode_token_header, decoded_kid, find_jwk, first_jwk, key_derivable, rsa_decoding_key,
};
use crate::split::{
    chars_of, has_three_segments, message_of, segment_string, signature_of, three_segment_dots,
};

verus! {

/// The token header's key identifier, when it is present and non-empty.
pub fn get_kid_from_token(the_header: &Header) -> (r: Option<String>)
    ensures
        match r {
            Some(kid) => the_header.kid is Some && kid@ == the_header.kid->0@ && kid@.len() > 0,
            None => the_header.kid is None || the_header.kid->0@.len() == 0,
        },
{
    match &the_header.kid {
        Some(kid) => {
            if kid.as_str().is_empty() {
                None
            } else {
                Some(kid.clone())
            }
        },
        None => None,
    }
}

/// Looks a key identifier up in the key set; the first match wins.
pub fn get_jwk(jwt_kid: &str, jwks: &JwkSet) -> (r: Option<Jwk>)
    ensures
        match r {
            Some(jwk) => first_jwk(jwks.keys@, jwt_kid@, 0) == Some(jwk@),
            None => first_jwk(jwks.keys@, jwt_kid@, 0) is None,
        },
{
    find_jwk(jwt_kid, jwks)
}

/// The signature segment of a compact token with exactly three segments.
pub fn get_signature(token: &str) -> (r: Option<String>)
    ensures
        match r {
            Some(sig) => has_three_segments(token@) && sig@ == signature_of(token@),
            None => !has_three_segments(token@),
        },
{
    let v = chars_of(token);
    match three_segment_dots(&v) {
        Some((_i, j)) => Some(segment_string(&v, j + 1, v.len())),
        None => None,
    }
}

/// The payload segment of a compact token with exactly three segments.
pub fn get_message(token: &str) -> (r: Option<String>)
    ensures
        match r {
            Some(msg) => has_three_segments(token@) && msg@ == message_of(token@),
            None => !has_three_segments(token@),
        },
{
    let v = chars_of(token);
    match three_segment_dots(&v) {
        Some((i, j)) => Some(segment_string(&v, i + 1, j)),
        None => None,
    }
}

/// Derives an RSA decode key from a key's parameters, when possible.
fn get_public_key(jwk: &Jwk) -> (r: Option<jsonwebtoken::DecodingKey>)
    ensures
        r is Some <==> key_derivable(jwk@),
{
    match &jwk.algorithm {
        KeyParameters::Rsa { n, e } => rsa_decoding_key(n.as_str(), e.as_str()),
        KeyParameters::Unsupported => None,
    }
}

/// The error `verify_jwt` is bound to return before the cryptographic
/// check, if any; `None` means the token reaches the signature check.
/// A header that does not decode and a missing or empty key identifier
/// are both reported as `InvalidJwt` here.
pub open spec fn verify_gate(token: Seq<char>, keys: Seq<Jwk>) -> Option<ErrorInJwt> {
    match decoded_kid(token) {
        None => Some(ErrorInJwt::InvalidJwt),
        Some(kid_opt) => match kid_opt {
            None => Some(ErrorInJwt::InvalidJwt),
            Some(kid) => if kid.len() == 0 {
                Some(ErrorInJwt::InvalidJwt)
            } else {
                match first_jwk(keys, kid, 0) {
                    None => Some(ErrorInJwt::NoJwkForKid),
                    Some(j) => if !key_derivable(j) {
                        Some(ErrorInJwt::NotPossibleToGetDecodeKey)
                    } else if !has_three_segments(token) {
                        Some(ErrorInJwt::NoSignaturePresent)
                    } else {
                        None
                    },
                }
            },
        },
    }
}

/// Verifies a compact token against a key set, reporting every missing
/// piece through [`ErrorInJwt`].  Every rejection before the
/// cryptographic check is pinned down by [`verify_gate`]; the check
/// itself answers `Ok(true)`, `Ok(false)` or `ErrorVerifying` as the
/// provider decides.
pub fn verify_jwt(token: &str, jwks: &JwkSet) -> (r: Result<bool, ErrorInJwt>)
    ensures
        match verify_gate(token@, jwks.keys@) {
            Some(e) => r == Err::<bool, ErrorInJwt>(e),
            None => r is Ok || r == Err::<bool, ErrorInJwt>(ErrorInJwt::ErrorVerifying),
        },
{
    let token_header = match decode_token_header(token) {
        Ok(h) => h,
        Err(_) => {
            return Err(ErrorInJwt::InvalidJwt);
        },
    };
    let jwt_kid = match get_kid_from_token(&token_header) {
        Some(k) => k,
        None => {
            return Err(ErrorInJwt::InvalidJwt);
        },
    };
    let jwk = match get_jwk(jwt_kid.as_str(), jwks) {
        Some(j) => j,
        None => {
            return Err(ErrorInJwt::NoJwkForKid);
        },
    };
    let decode_key = match get_public_key(&jwk) {
        Some(k) => k,
        None => {
            return Err(ErrorInJwt::NotPossibleToGetDecodeKey);
        },
    };
    let signature = match get_signature(token) {
        Some(s) => s,
        None => {
            return Err(ErrorInJwt::NoSignaturePresent);
        },
    };
    let message = match get_message(token) {
        Some(m) => m,
        None => {
            return Err(ErrorInJwt::NoSignaturePresent);
        },
    };
    crate::jwt::verify_rs256(signature.as_str(), message.as_str().as_bytes(), &decode_key)
}

} // verus!
