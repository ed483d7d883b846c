//! Signed, time-limited bearer tokens.
//!
//! A token is a three-part compact string `header.payload.signature`:
//! a fixed header naming the signing algorithm, a canonical rendering of
//! the claim set, and an HMAC-SHA256 signature (base64url, computed by an
//! outside crate) over everything before the second separator.
//!
//! The payload renders the four claim fields with fixed-width numeric
//! fields ([`crate::digits`]), so every claim set has exactly one encoding
//! and every encoding parses back to exactly one claim set; the round-trip
//! and tamper lemmas at the bottom rest on that canonicity.

use vstd::prelude::*;
use vstd::string::*;

use crate::digits::{
    all_digits, lemma_padded_val_of, lemma_val_of_padded, padded, read_padded, val_of,
    write_padded, NUM_BOUND, NUM_WIDTH,
};

verus! {

/// Claim set bound to a token: the bearer's identity and an expiration
/// instant in seconds since the epoch.
#[derive(Debug, Clone)]
pub struct UserClaims {
    pub username: String,
    pub uid: String,
    pub suid: String,
    pub exp: u64,
}

/// Mathematical model of a claim set.
pub struct ClaimsView {
    pub username: Seq<char>,
    pub uid: Seq<char>,
    pub suid: Seq<char>,
    pub exp: nat,
}

impl View for UserClaims {
    type V = ClaimsView;

    open spec fn view(&self) -> ClaimsView {
        ClaimsView {
            username: self.username@,
            uid: self.uid@,
            suid: self.suid@,
            exp: self.exp as nat,
        }
    }
}

/// Why a presented token was rejected.  Callers collapse all three into a
/// single "invalid" outcome; they stay distinct for diagnostics.
#[derive(Clone, Copy, Debug, PartialEq, Eq, Structural)]
pub enum VerificationError {
    /// The token does not have the three-part shape, or its payload is not
    /// a canonical claim rendering.
    Malformed,
    /// The signature segment is not the signature of the first two parts.
    BadSignature,
    /// Signature and shape are good, but the expiration instant has passed.
    Expired,
}

/// The fixed token header: the name of the signing algorithm.
pub open spec fn header_chars() -> Seq<char> {
    seq!['H', 'S', '2', '5', '6']
}

/// A claim set fits on the wire when each numeric field of its rendering
/// stays below the fixed-width bound.
pub open spec fn claims_wf(c: ClaimsView) -> bool {
    &&& c.username.len() < NUM_BOUND
    &&& c.uid.len() < NUM_BOUND
    &&& c.suid.len() < NUM_BOUND
    &&& c.exp < NUM_BOUND
}

/// Canonical rendering of a claim set: the three string lengths and the
/// expiration instant as fixed-width numeric fields, then the three
/// strings themselves.
pub open spec fn payload_of(c: ClaimsView) -> Seq<char> {
    padded(c.username.len(), NUM_WIDTH as nat) + padded(c.uid.len(), NUM_WIDTH as nat) + padded(
        c.suid.len(),
        NUM_WIDTH as nat,
    ) + padded(c.exp, NUM_WIDTH as nat) + c.username + c.uid + c.suid
}

/// The part of a token that is signed: header, separator, payload.
pub open spec fn signing_input(c: ClaimsView) -> Seq<char> {
    header_chars() + seq!['.'] + payload_of(c)
}

/// The base64url signature the outside HMAC-SHA256 primitive computes for
/// a message under a key.  Named only: the contracts never say what the
/// digits of a signature are, just that equal inputs give equal output.
pub uninterp spec fn hmac_sig_of(message: Seq<char>, key: Seq<char>) -> Seq<char>;

/// The one token issued for a claim set under a key.
pub open spec fn spec_token(c: ClaimsView, key: Seq<char>) -> Seq<char> {
    signing_input(c) + seq!['.'] + hmac_sig_of(signing_input(c), key)
}

/// Reads one claim set back from a prefix of `t`; yields the claims and
/// the number of characters they occupied, or nothing when no canonical
/// rendering starts there.
pub open spec fn parse_payload_prefix(t: Seq<char>) -> Option<(ClaimsView, int)> {
    let w = NUM_WIDTH as int;
    if t.len() < 4 * w {
        None
    } else {
        let f0 = t.subrange(0, w);
        let f1 = t.subrange(w, 2 * w);
        let f2 = t.subrange(2 * w, 3 * w);
        let f3 = t.subrange(3 * w, 4 * w);
        if all_digits(f0) && all_digits(f1) && all_digits(f2) && all_digits(f3) {
            let l1 = val_of(f0) as int;
            let l2 = val_of(f1) as int;
            let l3 = val_of(f2) as int;
            if t.len() < 4 * w + l1 + l2 + l3 {
                None
            } else {
                Some(
                    (
                        ClaimsView {
                            username: t.subrange(4 * w, 4 * w + l1),
                            uid: t.subrange(4 * w + l1, 4 * w + l1 + l2),
                            suid: t.subrange(4 * w + l1 + l2, 4 * w + l1 + l2 + l3),
                            exp: val_of(f3),
                        },
                        4 * w + l1 + l2 + l3,
                    ),
                )
            }
        } else {
            None
        }
    }
}

/// What verification of a presented token means: the header must match,
/// a canonical claim rendering must follow, a separator must follow that,
/// the rest must be the signature of everything before it, and the
/// expiration instant must lie in the future.
pub open spec fn spec_verify(token: Seq<char>, key: Seq<char>, now: nat) -> Result<
    ClaimsView,
    VerificationError,
> {
    if token.len() < 6 || token.subrange(0, 6) != header_chars() + seq!['.'] {
        Err(VerificationError::Malformed)
    } else {
        match parse_payload_prefix(token.subrange(6, token.len() as int)) {
            None => Err(VerificationError::Malformed),
            Some((c, n)) => {
                let end = 6 + n;
                if token.len() < end + 1 || token[end] != '.' {
                    Err(VerificationError::Malformed)
                } else if token.subrange(end + 1, token.len() as int) != hmac_sig_of(
                    token.take(end),
                    key,
                ) {
                    Err(VerificationError::BadSignature)
                } else if now < c.exp {
                    Ok(c)
                } else {
                    Err(VerificationError::Expired)
                }
            },
        }
    }
}

/// A parsed prefix is the canonical rendering of the parsed claims: the
/// payload codec never accepts a second spelling of the same claim set.
pub proof fn lemma_parse_canonical(t: Seq<char>)
    requires
        parse_payload_prefix(t) is Some,
    ensures
        ({
            let (c, n) = parse_payload_prefix(t)->Some_0;
            &&& claims_wf(c)
            &&& 4 * NUM_WIDTH <= n <= t.len()
            &&& t.take(n) == payload_of(c)
        }),
{
    let w = NUM_WIDTH as int;
    let (c, n) = parse_payload_prefix(t)->Some_0;
    let f0 = t.subrange(0, w);
    let f1 = t.subrange(w, 2 * w);
    let f2 = t.subrange(2 * w, 3 * w);
    let f3 = t.subrange(3 * w, 4 * w);
    crate::digits::lemma_pow10_bound();
    lemma_padded_val_of(f0, NUM_WIDTH as nat);
    lemma_padded_val_of(f1, NUM_WIDTH as nat);
    lemma_padded_val_of(f2, NUM_WIDTH as nat);
    lemma_padded_val_of(f3, NUM_WIDTH as nat);
    assert(t.take(n) =~= payload_of(c));
}

/// The canonical rendering of a well-formed claim set, followed by
/// anything at all, parses back to exactly that claim set.
pub proof fn lemma_parse_payload(c: ClaimsView, rest: Seq<char>)
    requires
        claims_wf(c),
    ensures
        parse_payload_prefix(payload_of(c) + rest) == Some(
            (c, payload_of(c).len() as int),
        ),
{
    let w = NUM_WIDTH as int;
    let t = payload_of(c) + rest;
    crate::digits::lemma_pow10_bound();
    lemma_val_of_padded(c.username.len(), NUM_WIDTH as nat);
    lemma_val_of_padded(c.uid.len(), NUM_WIDTH as nat);
    lemma_val_of_padded(c.suid.len(), NUM_WIDTH as nat);
    lemma_val_of_padded(c.exp, NUM_WIDTH as nat);
    assert(t.subrange(0, w) =~= padded(c.username.len(), NUM_WIDTH as nat));
    assert(t.subrange(w, 2 * w) =~= padded(c.uid.len(), NUM_WIDTH as nat));
    assert(t.subrange(2 * w, 3 * w) =~= padded(c.suid.len(), NUM_WIDTH as nat));
    assert(t.subrange(3 * w, 4 * w) =~= padded(c.exp, NUM_WIDTH as nat));
    let l1 = c.username.len() as int;
    let l2 = c.uid.len() as int;
    let l3 = c.suid.len() as int;
    assert(t.subrange(4 * w, 4 * w + l1) =~= c.username);
    assert(t.subrange(4 * w + l1, 4 * w + l1 + l2) =~= c.uid);
    assert(t.subrange(4 * w + l1 + l2, 4 * w + l1 + l2 + l3) =~= c.suid);
}

/// Verifying a freshly issued token gives back exactly the claims it was
/// issued for while the expiration instant lies ahead, and reports only
/// expiry once it has passed.
pub proof fn lemma_token_round_trip(c: ClaimsView, key: Seq<char>, now: nat)
    requires
        claims_wf(c),
    ensures
        now < c.exp ==> spec_verify(spec_token(c, key), key, now) == Ok::<
            ClaimsView,
            VerificationError,
        >(c),
        now >= c.exp ==> spec_verify(spec_token(c, key), key, now) == Err::<
            ClaimsView,
            VerificationError,
        >(VerificationError::Expired),
{
    let token = spec_token(c, key);
    let msg = signing_input(c);
    let sig = hmac_sig_of(msg, key);
    let pl = payload_of(c);
    assert(token.subrange(0, 6) =~= header_chars() + seq!['.']);
    assert(token.subrange(6, token.len() as int) =~= pl + (seq!['.'] + sig));
    lemma_parse_payload(c, seq!['.'] + sig);
    let end = 6 + pl.len() as int;
    assert(token[end] == '.');
    assert(token.take(end) =~= msg);
    assert(token.subrange(end + 1, token.len() as int) =~= sig);
}

/// Every accepted token is the one canonical token of the claims it
/// yields: a verifier that says yes has seen exactly what [`issue`] would
/// produce for those claims under that key, never a second spelling.
pub proof fn lemma_accepted_token_is_canonical(token: Seq<char>, key: Seq<char>, now: nat)
    requires
        spec_verify(token, key, now) is Ok,
    ensures
        ({
            let c = spec_verify(token, key, now)->Ok_0;
            &&& claims_wf(c)
            &&& now < c.exp
            &&& token == spec_token(c, key)
        }),
{
    let t = token.subrange(6, token.len() as int);
    let (c, n) = parse_payload_prefix(t)->Some_0;
    lemma_parse_canonical(t);
    let end = 6 + n;
    assert(t.take(n) =~= token.subrange(6, end));
    assert(signing_input(c) =~= token.take(end));
    assert(token =~= spec_token(c, key));
}

/// The round trip stated over the issuing instant: a claim set issued at
/// time `t` carries the expiration instant thirty days ahead, so verifying
/// its token at any `now` before that instant gives the claims back, and
/// at any `now` from that instant on reports only expiry.  (The thirty-day
/// window is exact while `t` keeps the expiration instant below the wire
/// format's numeric bound, which holds for any realistic clock.)
pub proof fn lemma_issue_window(c: ClaimsView, key: Seq<char>, t: nat, now: nat)
    requires
        c.username.len() < NUM_BOUND,
        c.uid.len() < NUM_BOUND,
        c.suid.len() < NUM_BOUND,
        c.exp == spec_expiration(t),
        t + crate::TOKEN_LIFETIME_SECONDS < NUM_BOUND,
    ensures
        now < t + crate::TOKEN_LIFETIME_SECONDS ==> spec_verify(spec_token(c, key), key, now)
            == Ok::<ClaimsView, VerificationError>(c),
        now >= t + crate::TOKEN_LIFETIME_SECONDS ==> spec_verify(spec_token(c, key), key, now)
            == Err::<ClaimsView, VerificationError>(VerificationError::Expired),
{
    lemma_token_round_trip(c, key, now);
}

/// Replacing the signature segment of an issued token with anything other
/// than the true signature makes verification fail, whatever the clock
/// says: flipping any bit of that segment invalidates the token.
pub proof fn lemma_tampered_signature(c: ClaimsView, key: Seq<char>, now: nat, sig2: Seq<char>)
    requires
        claims_wf(c),
        sig2 != hmac_sig_of(signing_input(c), key),
    ensures
        spec_verify(signing_input(c) + seq!['.'] + sig2, key, now) == Err::<
            ClaimsView,
            VerificationError,
        >(VerificationError::BadSignature),
{
    let token = signing_input(c) + seq!['.'] + sig2;
    let msg = signing_input(c);
    let pl = payload_of(c);
    assert(token.subrange(0, 6) =~= header_chars() + seq!['.']);
    assert(token.subrange(6, token.len() as int) =~= pl + (seq!['.'] + sig2));
    lemma_parse_payload(c, seq!['.'] + sig2);
    let end = 6 + pl.len() as int;
    assert(token[end] == '.');
    assert(token.take(end) =~= msg);
    assert(token.subrange(end + 1, token.len() as int) =~= sig2);
}

/// Relies on `jsonwebtoken::crypto::sign` with `Algorithm::HS256` and a
/// key from `EncodingKey::from_secret`: it returns the base64url HMAC-SHA256
/// signature of the message bytes, a function of message and key alone,
/// and never fails for an HMAC algorithm.
#[verifier::external_body]
fn hmac_sign(message: &str, key: &str) -> (r: String)
    ensures
        r@ == hmac_sig_of(message@, key@),
{
    let k = jsonwebtoken::EncodingKey::from_secret(key.as_bytes());
    jsonwebtoken::crypto::sign(message.as_bytes(), &k, jsonwebtoken::Algorithm::HS256)
        .expect("HMAC signing does not fail")
}

/// Relies on `jsonwebtoken::crypto::verify` with `Algorithm::HS256`: for an
/// HMAC algorithm it recomputes the signature of the message under the key
/// and reports whether the presented signature equals it.
#[verifier::external_body]
fn hmac_check(signature: &str, message: &str, key: &str) -> (r: bool)
    ensures
        r == (signature@ == hmac_sig_of(message@, key@)),
{
    let k = jsonwebtoken::DecodingKey::from_secret(key.as_bytes());
    match jsonwebtoken::crypto::verify(
        signature,
        message.as_bytes(),
        &k,
        jsonwebtoken::Algorithm::HS256,
    ) {
        Ok(eq) => eq,
        Err(_) => false,
    }
}

/// The expiration instant a token issued at `now` carries: thirty days
/// ahead, capped at the largest instant the wire format can carry.
pub open spec fn spec_expiration(now: nat) -> nat {
    if now + crate::TOKEN_LIFETIME_SECONDS < NUM_BOUND {
        (now + crate::TOKEN_LIFETIME_SECONDS) as nat
    } else {
        (NUM_BOUND - 1) as nat
    }
}

/// Relies on `std::time::SystemTime::now` and
/// `SystemTime::duration_since(UNIX_EPOCH)`: the current instant as whole
/// seconds since the Unix epoch, or zero for a clock before the epoch.
/// Nothing is promised of the value: it depends on the wall clock.
#[verifier::external_body]
pub fn now_unix_seconds() -> (r: u64) {
    match std::time::SystemTime::now().duration_since(std::time::UNIX_EPOCH) {
        Ok(d) => d.as_secs(),
        Err(_) => 0,
    }
}

/// The expiration instant for a token issued at `now`.
pub fn expiration_after(now: u64) -> (r: u64)
    ensures
        r as nat == spec_expiration(now as nat),
        r < NUM_BOUND,
{
    if now < NUM_BOUND - crate::TOKEN_LIFETIME_SECONDS {
        now + crate::TOKEN_LIFETIME_SECONDS
    } else {
        NUM_BOUND - 1
    }
}

/// Serializes and signs a claim set under `key`.
pub fn issue(claims: &UserClaims, key: &str) -> (r: String)
    requires
        claims_wf(claims@),
    ensures
        r@ == spec_token(claims@, key@),
{
    let mut out = String::new();
    out.append("HS256.");
    proof {
        reveal_strlit("HS256.");
        assert(out@ =~= header_chars() + seq!['.']);
    }
    let l1 = claims.username.as_str().unicode_len();
    let l2 = claims.uid.as_str().unicode_len();
    let l3 = claims.suid.as_str().unicode_len();
    write_padded(&mut out, l1 as u64);
    write_padded(&mut out, l2 as u64);
    write_padded(&mut out, l3 as u64);
    write_padded(&mut out, claims.exp);
    out.append(claims.username.as_str());
    out.append(claims.uid.as_str());
    out.append(claims.suid.as_str());
    proof {
        assert(out@ =~= signing_input(claims@));
    }
    let sig = hmac_sign(out.as_str(), key);
    out.push('.');
    out.append(sig.as_str());
    proof {
        assert(out@ =~= spec_token(claims@, key@));
    }
    out
}

/// Checks a presented token under `key` against the clock reading `now`
/// and returns the claim set it binds, or the reason it was rejected.
pub fn verify_token(token: &str, key: &str, now: u64) -> (r: Result<UserClaims, VerificationError>)
    ensures
        match r {
            Ok(c) => spec_verify(token@, key@, now as nat) == Ok::<
                ClaimsView,
                VerificationError,
            >(c@),
            Err(e) => spec_verify(token@, key@, now as nat) == Err::<
                ClaimsView,
                VerificationError,
            >(e),
        },
{
    let n = token.unicode_len();
    let ghost tv = token@;
    if n < 6 {
        return Err(VerificationError::Malformed);
    }
    let head: [char; 6] = ['H', 'S', '2', '5', '6', '.'];
    let mut i: usize = 0;
    while i < 6
        invariant
            i <= 6,
            6 <= n,
            n as nat == tv.len(),
            tv == token@,
            head@ == header_chars() + seq!['.'],
            tv.subrange(0, i as int) == head@.subrange(0, i as int),
        decreases 6 - i,
    {
        let c = token.get_char(i);
        if c != head[i] {
            proof {
                assert(tv.subrange(0, 6)[i as int] != (header_chars() + seq!['.'])[i as int]);
            }
            return Err(VerificationError::Malformed);
        }
        proof {
            assert(tv.subrange(0, i + 1 as int) =~= tv.subrange(0, i as int).push(c));
            assert(head@.subrange(0, i + 1 as int) =~= head@.subrange(0, i as int).push(c));
        }
        i = i + 1;
    }
    proof {
        assert(tv.subrange(0, 6) == head@.subrange(0, 6));
        assert(head@.subrange(0, 6) =~= header_chars() + seq!['.']);
    }
    let ghost t = tv.subrange(6, tv.len() as int);
    let ghost w = NUM_WIDTH as int;
    if n - 6 < 4 * NUM_WIDTH {
        return Err(VerificationError::Malformed);
    }
    proof {
        assert(t.subrange(0, w) =~= tv.subrange(6, 6 + w));
        assert(t.subrange(w, 2 * w) =~= tv.subrange(6 + w, 6 + 2 * w));
        assert(t.subrange(2 * w, 3 * w) =~= tv.subrange(6 + 2 * w, 6 + 3 * w));
        assert(t.subrange(3 * w, 4 * w) =~= tv.subrange(6 + 3 * w, 6 + 4 * w));
    }
    let r1 = read_padded(token, 6);
    let l1: u64 = match r1 {
        Some(v) => v,
        None => {
            return Err(VerificationError::Malformed);
        },
    };
    let r2 = read_padded(token, 6 + NUM_WIDTH);
    let l2: u64 = match r2 {
        Some(v) => v,
        None => {
            return Err(VerificationError::Malformed);
        },
    };
    let r3 = read_padded(token, 6 + 2 * NUM_WIDTH);
    let l3: u64 = match r3 {
        Some(v) => v,
        None => {
            return Err(VerificationError::Malformed);
        },
    };
    let r4 = read_padded(token, 6 + 3 * NUM_WIDTH);
    let exp: u64 = match r4 {
        Some(v) => v,
        None => {
            return Err(VerificationError::Malformed);
        },
    };
    let strings_start: usize = 6 + 4 * NUM_WIDTH;
    let avail: u64 = (n - strings_start) as u64;
    if l1 > avail || l2 > avail - l1 || l3 > avail - l1 - l2 {
        return Err(VerificationError::Malformed);
    }
    let u_end: usize = strings_start + l1 as usize;
    let i_end: usize = u_end + l2 as usize;
    let s_end: usize = i_end + l3 as usize;
    let ghost parsed = parse_payload_prefix(t)->Some_0;
    proof {
        assert(t.subrange(4 * w, 4 * w + l1 as int) =~= tv.subrange(
            strings_start as int,
            u_end as int,
        ));
        assert(t.subrange(4 * w + l1 as int, 4 * w + l1 as int + l2 as int) =~= tv.subrange(
            u_end as int,
            i_end as int,
        ));
        assert(t.subrange(
            4 * w + l1 as int + l2 as int,
            4 * w + l1 as int + l2 as int + l3 as int,
        ) =~= tv.subrange(i_end as int, s_end as int));
    }
    let username = token.substring_char(strings_start, u_end).to_owned();
    let uid = token.substring_char(u_end, i_end).to_owned();
    let suid = token.substring_char(i_end, s_end).to_owned();
    if s_end == n {
        return Err(VerificationError::Malformed);
    }
    if token.get_char(s_end) != '.' {
        return Err(VerificationError::Malformed);
    }
    let message = token.substring_char(0, s_end);
    let sig = token.substring_char(s_end + 1, n);
    proof {
        assert(message@ =~= tv.take(s_end as int));
        assert(sig@ =~= tv.subrange(s_end as int + 1, tv.len() as int));
    }
    if !hmac_check(sig, message, key) {
        return Err(VerificationError::BadSignature);
    }
    if now < exp {
        let claims = UserClaims { username, uid, suid, exp };
        proof {
            assert(claims@ == parsed.0);
        }
        Ok(claims)
    } else {
        Err(VerificationError::Expired)
    }
}

} // verus!
