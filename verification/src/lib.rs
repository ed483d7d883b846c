//! Core of a small social-network service: request-header validation,
//! credential hashing, signed-token issuance and verification, the
//! authorization resolver built on it, and the membership-toggle update
//! used for likes.

use vstd::prelude::*;

pub mod api;
pub mod dict;
pub mod digits;
pub mod hashing;
pub mod headers;
pub mod safe_user;
pub mod scan;
pub mod token;
pub mod tweet;
pub mod user;

verus! {

/// Seconds in the thirty-day window a freshly issued token stays valid.
pub const TOKEN_LIFETIME_SECONDS: u64 = 2592000;

/// Relies on `String::push`: appends exactly the given character.
pub assume_specification[ String::push ](s: &mut String, c: char)
    ensures
        final(s)@ == old(s)@.push(c),
;

/// Relies on `str::eq`: string slices compare equal exactly when they
/// spell the same characters.
pub assume_specification[ <str as PartialEq>::eq ](s: &str, other: &str) -> (r: bool)
    ensures
        r == (s@ == other@),
;

} // verus!
