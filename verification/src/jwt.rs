//! Verification of JSON Web Tokens against a JWKS snapshot.
//!
//! The verifier extracts the token's key identifier, locates the matching
//! key in the key set, derives an RSA decode key from the key's
//! parameters, and checks the token's signature over its payload segment.
//! The cryptographic calls are made through `jsonwebtoken`; all the
//! decisions around them are verified.

use vstd::prelude::*;

use crate::split::{
    chars_of, has_three_segments, message_of, segment_string, signature_of, str_eq,
    three_segment_dots,
};

verus! {

/// Everything that can go wrong while verifying a token.
#[derive(Clone, Copy, Debug, PartialEq, Eq, Structural)]
pub enum ErrorInJwt {
    InvalidJwt,
    InvalidJwks,
    InvalidJwk,
    InvalidJson,
    InvalidToken,
    TokenExpired,
    AlgorithmNotSupported,
    NoIssuer,
    NoSub,
    NoJwkForKid,
    NotPossibleToGetDecodeKey,
    ErrorVerifying,
    NoSignaturePresent,
}

/// The part of a decoded token header that the verifier reads: the
/// optional key identifier.
pub struct Header {
    pub kid: Option<String>,
}

/// The claims carried in a token's payload.
#[derive(Debug)]
pub struct Claims {
    pub aud: String,
    pub company: String,
    pub sub: String,
    pub exp: u64,
    pub iss: String,
}

/// A decoded token: its header and its claims.
pub struct TokenData {
    pub header: Header,
    pub claims: Claims,
}

/// The algorithm parameters of a key in a JWKS; only RSA public keys can
/// yield a decode key here.
pub enum KeyParameters {
    Rsa { n: String, e: String },
    Unsupported,
}

/// A single key of a JWKS, identified by its optional key identifier.
pub struct Jwk {
    pub key_id: Option<String>,
    pub algorithm: KeyParameters,
}

/// A JSON Web Key Set: the keys trusted for one issuer.
pub struct JwkSet {
    pub keys: Vec<Jwk>,
}

/// Either a whole key set, a single key, or a bare key string.
pub enum JwksEnum {
    Jwk(Jwk),
    Jwks(JwkSet),
    InnerKey(String),
}

/// The mathematical value of [`KeyParameters`].
pub ghost enum KeyParametersV {
    Rsa { n: Seq<char>, e: Seq<char> },
    Unsupported,
}

/// The mathematical value of a [`Jwk`].
pub ghost struct JwkV {
    pub key_id: Option<Seq<char>>,
    pub algorithm: KeyParametersV,
}

impl View for Jwk {
    type V = JwkV;

    open spec fn view(&self) -> JwkV {
        JwkV {
            key_id: match self.key_id {
                Some(k) => Some(k@),
                None => None,
            },
            algorithm: match self.algorithm {
                KeyParameters::Rsa { n, e } => KeyParametersV::Rsa { n: n@, e: e@ },
                KeyParameters::Unsupported => KeyParametersV::Unsupported,
            },
        }
    }
}

#[verifier::external_type_specification]
#[verifier::external_body]
pub struct ExDecodingKey(jsonwebtoken::DecodingKey);

/// What `jsonwebtoken::decode_header` extracts from a token: `None` when
/// the token's header cannot be decoded, otherwise the header's optional
/// key identifier.  It depends on the token text alone.
pub uninterp spec fn decoded_kid(token: Seq<char>) -> Option<Option<Seq<char>>>;

/// Whether `jsonwebtoken::DecodingKey::from_rsa_components` accepts the
/// two components; it depends on the component strings alone.
pub uninterp spec fn rsa_components_ok(n: Seq<char>, e: Seq<char>) -> bool;

/// Relies on `jsonwebtoken::decode_header`: the header is decoded from
/// the token text alone, without validating the signature; `kid` is its
/// optional key identifier.
#[verifier::external_body]
pub(crate) fn decode_token_header(token: &str) -> (r: Result<Header, ErrorInJwt>)
    ensures
        match r {
            Ok(h) => decoded_kid(token@) == Some(
                match h.kid {
                    Some(k) => Some(k@),
                    None => None::<Seq<char>>,
                },
            ),
            Err(e) => decoded_kid(token@) is None && e == ErrorInJwt::InvalidJwt,
        },
{
    match jsonwebtoken::decode_header(token) {
        Ok(h) => Ok(Header { kid: h.kid }),
        Err(_) => Err(ErrorInJwt::InvalidJwt),
    }
}

/// Relies on `jsonwebtoken::DecodingKey::from_rsa_components`: whether the
/// components yield a key depends on the two strings alone.
#[verifier::external_body]
pub(crate) fn rsa_decoding_key(n: &str, e: &str) -> (r: Option<jsonwebtoken::DecodingKey>)
    ensures
        r is Some <==> rsa_components_ok(n@, e@),
{
    match jsonwebtoken::DecodingKey::from_rsa_components(n, e) {
        Ok(k) => Some(k),
        Err(_) => None,
    }
}

/// Relies on `jsonwebtoken::crypto::verify` with RS256: whether the
/// signature matches is decided by the cryptographic provider; any
/// failure to decode or verify is reported as `ErrorVerifying`.
#[verifier::external_body]
pub(crate) fn verify_rs256(
    signature: &str,
    message: &[u8],
    key: &jsonwebtoken::DecodingKey,
) -> (r: Result<bool, ErrorInJwt>)
    ensures
        match r {
            Ok(_) => true,
            Err(e) => e == ErrorInJwt::ErrorVerifying,
        },
{
    match jsonwebtoken::crypto::verify(signature, message, key, jsonwebtoken::Algorithm::RS256) {
        Ok(b) => Ok(b),
        Err(_) => Err(ErrorInJwt::ErrorVerifying),
    }
}

/// The first key of the set, from position `i` on, whose identifier
/// equals `kid`.
pub open spec fn first_jwk(keys: Seq<Jwk>, kid: Seq<char>, i: int) -> Option<JwkV>
    decreases keys.len() - i,
{
    if i >= keys.len() {
        None
    } else if keys[i]@.key_id == Some(kid) {
        Some(keys[i]@)
    } else {
        first_jwk(keys, kid, i + 1)
    }
}

/// Whether a decode key can be derived from the key's parameters: it must
/// be an RSA key with acceptable components.
pub open spec fn key_derivable(j: JwkV) -> bool {
    j.algorithm matches KeyParametersV::Rsa { n, e } && rsa_components_ok(n, e)
}

/// Extracts the key identifier from a decoded token header; a missing or
/// empty identifier makes the token invalid.
pub fn get_kid_from_token(the_header: &Header) -> (r: Result<String, ErrorInJwt>)
    ensures
        match r {
            Ok(kid) => the_header.kid is Some && kid@ == the_header.kid->0@ && kid@.len() > 0,
            Err(e) => e == ErrorInJwt::InvalidToken && (the_header.kid is None
                || the_header.kid->0@.len() == 0),
        },
{
    match &the_header.kid {
        Some(kid) => {
            if kid.as_str().is_empty() {
                Err(ErrorInJwt::InvalidToken)
            } else {
                Ok(kid.clone())
            }
        },
        None => Err(ErrorInJwt::InvalidToken),
    }
}

/// The token's issuer claim, which must be non-empty.
pub fn get_issuer(token: &TokenData) -> (r: Result<String, ErrorInJwt>)
    ensures
        match r {
            Ok(iss) => iss@ == token.claims.iss@ && iss@.len() > 0,
            Err(e) => e == ErrorInJwt::NoIssuer && token.claims.iss@.len() == 0,
        },
{
    if token.claims.iss.as_str().is_empty() {
        Err(ErrorInJwt::NoIssuer)
    } else {
        Ok(token.claims.iss.clone())
    }
}

/// The token's subject claim, which must be non-empty.
pub fn get_sub(token: &TokenData) -> (r: Result<String, ErrorInJwt>)
    ensures
        match r {
            Ok(sub) => sub@ == token.claims.sub@ && sub@.len() > 0,
            Err(e) => e == ErrorInJwt::NoSub && token.claims.sub@.len() == 0,
        },
{
    if token.claims.sub.as_str().is_empty() {
        Err(ErrorInJwt::NoSub)
    } else {
        Ok(token.claims.sub.clone())
    }
}

/// A copy of a key with the same value.
fn clone_jwk(jwk: &Jwk) -> (r: Jwk)
    ensures
        r@ == jwk@,
{
    Jwk {
        key_id: match &jwk.key_id {
            Some(k) => Some(k.clone()),
            None => None,
        },
        algorithm: match &jwk.algorithm {
            KeyParameters::Rsa { n, e } => KeyParameters::Rsa { n: n.clone(), e: e.clone() },
            KeyParameters::Unsupported => KeyParameters::Unsupported,
        },
    }
}

/// The first key of the set whose identifier equals `kid`, if any.
pub(crate) fn find_jwk(jwt_kid: &str, jwks: &JwkSet) -> (r: Option<Jwk>)
    ensures
        match r {
            Some(jwk) => first_jwk(jwks.keys@, jwt_kid@, 0) == Some(jwk@),
            None => first_jwk(jwks.keys@, jwt_kid@, 0) is None,
        },
{
    let mut i: usize = 0;
    while i < jwks.keys.len()
        invariant
            i <= jwks.keys@.len(),
            first_jwk(jwks.keys@, jwt_kid@, 0) == first_jwk(jwks.keys@, jwt_kid@, i as int),
        decreases jwks.keys@.len() - i,
    {
        let matches_kid = match &jwks.keys[i].key_id {
            Some(k) => str_eq(k.as_str(), jwt_kid),
            None => false,
        };
        if matches_kid {
            return Some(clone_jwk(&jwks.keys[i]));
        }
        i = i + 1;
    }
    None
}

/// Looks the token's key identifier up in the key set; the first match
/// wins.
pub fn get_jwk(jwt_kid: &String, jwks: &JwkSet) -> (r: Option<Jwk>)
    ensures
        match r {
            Some(jwk) => first_jwk(jwks.keys@, jwt_kid@, 0) == Some(jwk@),
            None => first_jwk(jwks.keys@, jwt_kid@, 0) is None,
        },
{
    find_jwk(jwt_kid.as_str(), jwks)
}

/// The signature segment of a compact token: the text after the second of
/// its two dots.
pub fn get_signature(token: &str) -> (r: Result<String, ErrorInJwt>)
    ensures
        match r {
            Ok(sig) => has_three_segments(token@) && sig@ == signature_of(token@),
            Err(e) => e == ErrorInJwt::NoSignaturePresent && !has_three_segments(token@),
        },
{
    let v = chars_of(token);
    match three_segment_dots(&v) {
        Some((_i, j)) => Ok(segment_string(&v, j + 1, v.len())),
        None => Err(ErrorInJwt::NoSignaturePresent),
    }
}

/// The payload segment of a compact token: the text between its two dots.
pub fn get_message(token: &str) -> (r: Result<String, ErrorInJwt>)
    ensures
        match r {
            Ok(msg) => has_three_segments(token@) && msg@ == message_of(token@),
            Err(e) => e == ErrorInJwt::NoSignaturePresent && !has_three_segments(token@),
        },
{
    let v = chars_of(token);
    match three_segment_dots(&v) {
        Some((i, j)) => Ok(segment_string(&v, i + 1, j)),
        None => Err(ErrorInJwt::NoSignaturePresent),
    }
}

/// Derives an RSA decode key from a key's parameters.
fn get_public_key(jwk: &Jwk) -> (r: Result<jsonwebtoken::DecodingKey, ErrorInJwt>)
    ensures
        match r {
            Ok(_) => key_derivable(jwk@),
            Err(e) => e == ErrorInJwt::NotPossibleToGetDecodeKey && !key_derivable(jwk@),
        },
{
    match &jwk.algorithm {
        KeyParameters::Rsa { n, e } => match rsa_decoding_key(n.as_str(), e.as_str()) {
            Some(k) => Ok(k),
            None => Err(ErrorInJwt::NotPossibleToGetDecodeKey),
        },
        KeyParameters::Unsupported => Err(ErrorInJwt::NotPossibleToGetDecodeKey),
    }
}

/// The error `verify_jwt` is bound to return before the cryptographic
/// check, if any; `None` means the token reaches the signature check.
pub open spec fn verify_gate(token: Seq<char>, keys: Seq<Jwk>) -> Option<ErrorInJwt> {
    match decoded_kid(token) {
        None => Some(ErrorInJwt::InvalidJwt),
        Some(kid_opt) => match kid_opt {
            None => Some(ErrorInJwt::InvalidToken),
            Some(kid) => if kid.len() == 0 {
                Some(ErrorInJwt::InvalidToken)
            } else {
                match first_jwk(keys, kid, 0) {
                    None => Some(ErrorInJwt::NoJwkForKid),
                    Some(j) => if !key_derivable(j) {
                        Some(ErrorInJwt::NotPossibleToGetDecodeKey)
                    } else if !has_three_segments(token) {
                        Some(ErrorInJwt::NoSignaturePresent)
                    } else {
                        None
                    },
                }
            },
        },
    }
}

/// Verifies a compact token against a key set: the token's header names a
/// key identifier, the identified RSA key yields a decode key, and the
/// signature segment is checked over the payload segment with RS256.
/// Every rejection before the cryptographic check is pinned down by
/// [`verify_gate`]; the check itself answers `Ok(true)`, `Ok(false)` or
/// `ErrorVerifying` as the provider decides.
pub fn verify_jwt(token: &str, jwks: &JwkSet) -> (r: Result<bool, ErrorInJwt>)
    ensures
        match verify_gate(token@, jwks.keys@) {
            Some(e) => r == Err::<bool, ErrorInJwt>(e),
            None => r is Ok || r == Err::<bool, ErrorInJwt>(ErrorInJwt::ErrorVerifying),
        },
{
    let token_header = match decode_token_header(token) {
        Ok(h) => h,
        Err(e) => {
            return Err(e);
        },
    };
    let jwt_kid = match get_kid_from_token(&token_header) {
        Ok(k) => k,
        Err(e) => {
            return Err(e);
        },
    };
    let jwk = match get_jwk(&jwt_kid, jwks) {
        Some(j) => j,
        None => {
            return Err(ErrorInJwt::NoJwkForKid);
        },
    };
    let decode_key = match get_public_key(&jwk) {
        Ok(k) => k,
        Err(e) => {
            return Err(e);
        },
    };
    let signature = match get_signature(token) {
        Ok(s) => s,
        Err(e) => {
            return Err(e);
        },
    };
    let message = match get_message(token) {
        Ok(m) => m,
        Err(e) => {
            return Err(e);
        },
    };
    verify_rs256(signature.as_str(), message.as_str().as_bytes(), &decode_key)
}

} // verus!
