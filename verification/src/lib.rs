//! A replicated trust-anchor registry for JSON Web Key Sets, together with
//! the token-validation helpers that consume its active key sets.
//!
//! The registry maps issuer domains to their metadata and lets a bounded set
//! of voters converge, through a propose-and-tally protocol, on the JWKS
//! document trusted for each domain.  Every state transition is atomic:
//! an operation either commits all of its table writes or leaves the
//! registry exactly as it was.

pub mod hashing;
pub mod json;
pub mod jwt;
pub mod registry;
pub mod split;
pub mod storage;
pub mod types;
pub mod validator;
