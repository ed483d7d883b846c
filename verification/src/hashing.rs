//! One-way credential hashing.
//!
//! A plaintext secret is stored only as its digest; comparing digests is
//! the sole password check anywhere in the system.

use vstd::prelude::*;

verus! {

/// A lowercase hexadecimal digit.
pub open spec fn is_hex_digit_char(c: char) -> bool {
    (48 <= c as u32 <= 57) || (97 <= c as u32 <= 102)
}

/// The hexadecimal SHA3-256 digest of a character sequence, as the outside
/// hashing primitive computes it.  Named only: the contracts state the
/// digest's shape, never its digits.
pub uninterp spec fn sha3_hex_of(s: Seq<char>) -> Seq<char>;

/// Relies on `sha3::Sha3_256` (via the `Digest` trait) and the lowercase
/// hexadecimal formatting of its 32-byte output: the result is a function
/// of the input characters alone, 64 lowercase hex digits long.
#[verifier::external_body]
fn sha3_hex(value: &str) -> (r: String)
    ensures
        r@ == sha3_hex_of(value@),
        r@.len() == 64,
        forall|i: int| 0 <= i < r@.len() ==> is_hex_digit_char(#[trigger] r@[i]),
{
    let mut hasher = <sha3::Sha3_256 as sha3::Digest>::new();
    sha3::Digest::update(&mut hasher, value.as_bytes());
    format!("{:x}", sha3::Digest::finalize(hasher))
}

/// Hashes a plaintext secret into the fixed-length digest stored in its
/// place.  Deterministic: equal secrets give equal digests, so digest
/// equality is a sound password check.
pub fn hash(value: &str) -> (r: String)
    ensures
        r@ == sha3_hex_of(value@),
        r@.len() == 64,
        forall|i: int| 0 <= i < r@.len() ==> is_hex_digit_char(#[trigger] r@[i]),
{
    sha3_hex(value)
}

/// The digest is a function of the hashed characters alone: hashing the
/// same secret twice, in the same or another place, gives the same digest.
pub proof fn lemma_hash_deterministic(x: Seq<char>, y: Seq<char>)
    requires
        x == y,
    ensures
        sha3_hex_of(x) == sha3_hex_of(y),
{
}

} // verus!
