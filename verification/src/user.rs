//! Accounts, the email grammar, and the authorization resolver.

use vstd::prelude::*;
use vstd::string::*;

use crate::digits::NUM_BOUND;
use crate::headers::HeaderMap;
use crate::safe_user::SafeUser;
use crate::scan::{find_char, lemma_seq_first_index, lemma_seq_first_index_is, seq_first_index};
use crate::token::{
    expiration_after, issue, now_unix_seconds, spec_token, spec_verify, verify_token, ClaimsView,
    UserClaims,
};

verus! {

/// A stored account.  `password` holds the credential digest, never the
/// plaintext secret; `uid` is internal, `suid` is the public identifier.
#[derive(Debug, Clone)]
pub struct User {
    pub username: String,
    pub displayname: String,
    pub password: String,
    pub email: String,
    pub bio: String,
    pub uid: String,
    pub suid: String,
    pub age: u8,
}

/// Mathematical model of an account.
pub struct UserView {
    pub username: Seq<char>,
    pub displayname: Seq<char>,
    pub password: Seq<char>,
    pub email: Seq<char>,
    pub bio: Seq<char>,
    pub uid: Seq<char>,
    pub suid: Seq<char>,
    pub age: u8,
}

impl View for User {
    type V = UserView;

    open spec fn view(&self) -> UserView {
        UserView {
            username: self.username@,
            displayname: self.displayname@,
            password: self.password@,
            email: self.email@,
            bio: self.bio@,
            uid: self.uid@,
            suid: self.suid@,
            age: self.age,
        }
    }
}

impl Default for User {
    /// An account with every field empty and age zero.
    fn default() -> (r: User)
        ensures
            r@.username.len() == 0,
            r@.displayname.len() == 0,
            r@.password.len() == 0,
            r@.email.len() == 0,
            r@.bio.len() == 0,
            r@.uid.len() == 0,
            r@.suid.len() == 0,
            r@.age == 0,
    {
        User {
            username: String::new(),
            displayname: String::new(),
            password: String::new(),
            email: String::new(),
            bio: String::new(),
            uid: String::new(),
            suid: String::new(),
            age: 0,
        }
    }
}

/// The identity claims minted for an account.
pub open spec fn claims_for(u: UserView, exp: nat) -> ClaimsView {
    ClaimsView { username: u.username, uid: u.uid, suid: u.suid, exp: exp }
}

/// An account whose identity fields fit the token wire format.
pub open spec fn user_wf(u: UserView) -> bool {
    &&& u.username.len() < NUM_BOUND
    &&& u.uid.len() < NUM_BOUND
    &&& u.suid.len() < NUM_BOUND
}

impl User {
    /// Mints a signed token binding this account's identity, expiring
    /// thirty days from the clock reading taken during the call.
    pub fn create__JWT__token(user: User, key: &str) -> (r: String)
        requires
            user_wf(user@),
        ensures
            exists|e: nat|
                e < NUM_BOUND && r@ == spec_token(#[trigger] claims_for(user@, e), key@),
    {
        let exp = expiration_after(now_unix_seconds());
        let claims = UserClaims {
            username: user.username,
            uid: user.uid,
            suid: user.suid,
            exp,
        };
        let r = issue(&claims, key);
        proof {
            assert(claims@ == claims_for(user@, exp as nat));
            assert(r@ == spec_token(claims_for(user@, exp as nat), key@));
        }
        r
    }

    /// Checks a presented token and gives back the claims it binds, or a
    /// unit error for any of the rejection reasons.
    pub fn decode__JWT__token(token: &str, key: &str, now: u64) -> (r: Result<UserClaims, ()>)
        ensures
            match r {
                Ok(c) => spec_verify(token@, key@, now as nat) matches Ok(cv) && cv == c@,
                Err(_) => spec_verify(token@, key@, now as nat) is Err,
            },
    {
        match verify_token(token, key, now) {
            Ok(c) => Ok(c),
            Err(_) => Err(()),
        }
    }

    /// Strips this account down to its public view.
    pub fn to_safe(user: User) -> (r: SafeUser)
        ensures
            r@ == crate::safe_user::spec_safe_user(user@),
    {
        SafeUser {
            username: user.username,
            displayname: user.displayname,
            suid: user.suid,
            age: user.age,
        }
    }
}

/// Relies on `uuid::Uuid::new_v4` and `as_hyphenated`: the hyphenated
/// textual form of a fresh random identifier, 36 characters.  Nothing more
/// is promised: the value is random.
#[verifier::external_body]
pub fn generate_uuid() -> (r: String)
    ensures
        r@.len() == 36,
{
    uuid::Uuid::new_v4().as_hyphenated().to_string()
}

/// Relies on `uuid::Uuid::new_v4` and `as_simple`: the compact textual
/// form of a fresh random identifier, 32 lowercase hexadecimal
/// characters.  Nothing more is promised: the value is random.
#[verifier::external_body]
pub fn generate_suid() -> (r: String)
    ensures
        r@.len() == 32,
        forall|i: int|
            0 <= i < r@.len() ==> crate::hashing::is_hex_digit_char(#[trigger] r@[i]),
{
    uuid::Uuid::new_v4().as_simple().to_string()
}

/// Fresh expiration instant for a token issued now: thirty days from the
/// current clock reading.  Whatever the clock said, the result lies at
/// least a full window past the epoch and fits the token's numeric
/// fields.
pub fn get_expiration_time() -> (r: usize)
    ensures
        crate::TOKEN_LIFETIME_SECONDS as nat <= r as nat,
        (r as nat) < NUM_BOUND as nat,
{
    let e = expiration_after(now_unix_seconds());
    if e > usize::MAX as u64 {
        usize::MAX
    } else {
        e as usize
    }
}

// --- The address grammar an email must match before an account is created. ---

pub open spec fn is_alnum_char(c: char) -> bool {
    (48 <= c as u32 <= 57) || (65 <= c as u32 <= 90) || (97 <= c as u32 <= 122)
}

/// Characters allowed in the part before the `@`.
pub open spec fn is_local_char(c: char) -> bool {
    is_alnum_char(c) || c == '.' || c == '!' || c == '#' || c == '$' || c == '%' || c == '&'
        || c == '\'' || c == '*' || c == '+' || c == '/' || c == '=' || c == '?' || c == '^'
        || c == '_' || c == '`' || c == '{' || c == '|' || c == '}' || c == '~' || c == '-'
}

pub open spec fn is_label_char(c: char) -> bool {
    is_alnum_char(c) || c == '-'
}

/// One domain label: up to 63 characters, letters, digits or hyphens,
/// beginning and ending with a letter or digit.
pub open spec fn valid_label(s: Seq<char>) -> bool {
    &&& 1 <= s.len() <= 63
    &&& is_alnum_char(s[0])
    &&& is_alnum_char(s[s.len() - 1])
    &&& forall|i: int| 0 <= i < s.len() ==> is_label_char(#[trigger] s[i])
}

/// A domain: valid labels separated by single dots.
pub open spec fn valid_domain(s: Seq<char>) -> bool
    decreases s.len(),
    via valid_domain_dec
{
    let d = seq_first_index(s, '.');
    if d >= s.len() {
        valid_label(s)
    } else {
        valid_label(s.take(d)) && valid_domain(s.subrange(d + 1, s.len() as int))
    }
}

#[via_fn]
proof fn valid_domain_dec(s: Seq<char>) {
    lemma_seq_first_index(s, '.');
}

/// A valid address: a nonempty run of local characters, one `@`, and a
/// valid domain.
pub open spec fn valid_email(s: Seq<char>) -> bool {
    let a = seq_first_index(s, '@');
    &&& 1 <= a < s.len()
    &&& forall|i: int| 0 <= i < a ==> is_local_char(#[trigger] s[i])
    &&& valid_domain(s.subrange(a + 1, s.len() as int))
}

fn alnum_char(c: char) -> (r: bool)
    ensures
        r == is_alnum_char(c),
{
    let u = c as u32;
    (48 <= u && u <= 57) || (65 <= u && u <= 90) || (97 <= u && u <= 122)
}

fn local_char(c: char) -> (r: bool)
    ensures
        r == is_local_char(c),
{
    alnum_char(c) || c == '.' || c == '!' || c == '#' || c == '$' || c == '%' || c == '&'
        || c == '\'' || c == '*' || c == '+' || c == '/' || c == '=' || c == '?' || c == '^'
        || c == '_' || c == '`' || c == '{' || c == '|' || c == '}' || c == '~' || c == '-'
}

fn label_char(c: char) -> (r: bool)
    ensures
        r == is_label_char(c),
{
    alnum_char(c) || c == '-'
}

/// Checks one domain label sitting at `[from, to)` of `s`.
fn check_label(s: &str, from: usize, to: usize) -> (r: bool)
    requires
        from <= to <= s@.len(),
        s@.len() <= usize::MAX,
    ensures
        r == valid_label(s@.subrange(from as int, to as int)),
{
    let ghost t = s@.subrange(from as int, to as int);
    let len = to - from;
    if len == 0 || len > 63 {
        return false;
    }
    if !alnum_char(s.get_char(from)) {
        assert(t[0] == s@[from as int]);
        return false;
    }
    if !alnum_char(s.get_char(to - 1)) {
        assert(t[t.len() - 1] == s@[to - 1]);
        return false;
    }
    let mut i: usize = from;
    while i < to
        invariant
            from <= i <= to <= s@.len() <= usize::MAX,
            t == s@.subrange(from as int, to as int),
            forall|j: int| from <= j < i ==> is_label_char(#[trigger] s@[j]),
        decreases to - i,
    {
        if !label_char(s.get_char(i)) {
            proof {
                assert(t[i - from] == s@[i as int]);
                if valid_label(t) {
                    assert(is_label_char(t[i - from]));
                }
            }
            return false;
        }
        i = i + 1;
    }
    proof {
        assert(t[0] == s@[from as int]);
        assert(t[t.len() - 1] == s@[to - 1]);
        assert forall|j: int| 0 <= j < t.len() implies is_label_char(#[trigger] t[j]) by {
            assert(t[j] == s@[from + j]);
        }
    }
    true
}

/// Whether a string is a valid email address.  Checked before any account
/// is created; an address outside the grammar is turned away as invalid
/// input.
pub fn check_email(email: &str) -> (r: bool)
    ensures
        r == valid_email(email@),
{
    let ghost sv = email@;
    let n = email.unicode_len();
    let a = find_char(email, 0, '@');
    proof {
        assert(sv.subrange(0, sv.len() as int) =~= sv);
    }
    if a == n {
        assert(seq_first_index(sv, '@') == sv.len());
        return false;
    }
    if a == 0 {
        return false;
    }
    let mut i: usize = 0;
    while i < a
        invariant
            0 <= i <= a,
            a < n,
            n as nat == sv.len(),
            sv == email@,
            a as int == seq_first_index(sv, '@'),
            forall|j: int| 0 <= j < i ==> is_local_char(#[trigger] sv[j]),
        decreases a - i,
    {
        if !local_char(email.get_char(i)) {
            proof {
                if valid_email(sv) {
                    assert(is_local_char(sv[i as int]));
                }
            }
            return false;
        }
        i = i + 1;
    }
    let mut pos: usize = a + 1;
    proof {
        assert(valid_email(sv) == valid_domain(sv.subrange(a + 1, sv.len() as int)));
    }
    loop
        invariant
            a + 1 <= pos <= n,
            n as nat == sv.len(),
            sv == email@,
            valid_email(sv) == valid_domain(sv.subrange(pos as int, sv.len() as int)),
        decreases n - pos,
    {
        let ghost t = sv.subrange(pos as int, sv.len() as int);
        let d = find_char(email, pos, '.');
        let ok = check_label(email, pos, d);
        proof {
            assert forall|j: int| 0 <= j < d - pos implies t[j] != '.' by {
                assert(t[j] == sv[pos + j]);
            }
            if d < n {
                assert(t[d - pos] == sv[d as int]);
                lemma_seq_first_index_is(t, '.', d - pos);
            } else {
                lemma_seq_first_index_is(t, '.', t.len() as int);
            }
            assert(sv.subrange(pos as int, d as int) =~= t.take(d - pos));
        }
        if !ok {
            proof {
                if d == n {
                    assert(t.take(d - pos) =~= t);
                }
                assert(!valid_domain(t));
            }
            return false;
        }
        if d == n {
            proof {
                assert(t.take(d - pos) =~= t);
                assert(seq_first_index(t, '.') == t.len());
                assert(valid_domain(t));
            }
            return true;
        }
        proof {
            assert(sv.subrange(d + 1, sv.len() as int) =~= t.subrange(
                d - pos + 1,
                t.len() as int,
            ));
            assert(valid_domain(t) == (valid_label(t.take(d - pos)) && valid_domain(
                sv.subrange(d + 1, sv.len() as int),
            )));
        }
        pos = d + 1;
    }
}

// --- The authorization resolver. ---

/// Outcome of resolving a request's bearer credential.
pub enum AuthorizationStatus {
    /// The credential was present and verified: the caller is who the
    /// claims say.
    Authorized(UserClaims),
    /// A credential was presented but did not verify.
    Unauthorized,
    /// No credential field was found in the headers.
    Malformed,
}

/// The conventional scheme prefix a bearer credential may carry.
pub open spec fn bearer_prefix() -> Seq<char> {
    seq!['B', 'e', 'a', 'r', 'e', 'r', ' ']
}

/// Drops one leading scheme prefix, if present.
pub open spec fn strip_bearer(s: Seq<char>) -> Seq<char> {
    if s.len() >= 7 && s.take(7) == bearer_prefix() {
        s.subrange(7, s.len() as int)
    } else {
        s
    }
}

/// The credential field of a request: a header literally named for the
/// credential, or the conventional capitalized one.
pub open spec fn header_token(m: Map<Seq<char>, Seq<char>>) -> Option<Seq<char>> {
    if m.contains_key("authorization"@) {
        Some(m["authorization"@])
    } else if m.contains_key("Authorization"@) {
        Some(m["Authorization"@])
    } else {
        None
    }
}

/// Resolves a request's bearer credential to one of three outcomes: no
/// credential field at all, a credential that fails verification, or the
/// verified claims.  Pure in the headers: no lookups beyond them.
pub fn authenticate(headers: &HeaderMap, key: &str, now: u64) -> (r: AuthorizationStatus)
    ensures
        match r {
            AuthorizationStatus::Malformed => header_token(headers@) is None,
            AuthorizationStatus::Unauthorized => header_token(headers@) matches Some(t)
                && spec_verify(strip_bearer(t), key@, now as nat) is Err,
            AuthorizationStatus::Authorized(c) => header_token(headers@) matches Some(t)
                && spec_verify(strip_bearer(t), key@, now as nat) matches Ok(cv) && cv == c@,
        },
{
    let tok: String = match headers.get("authorization") {
        Some(t) => t,
        None => match headers.get("Authorization") {
            Some(t) => t,
            None => {
                return AuthorizationStatus::Malformed;
            },
        },
    };
    let tn = tok.as_str().unicode_len();
    let stripped: String = if tn >= 7 {
        let bp: [char; 7] = ['B', 'e', 'a', 'r', 'e', 'r', ' '];
        let mut i: usize = 0;
        let mut is_prefix = true;
        proof {
            assert(tok@.take(0) =~= bearer_prefix().take(0));
        }
        while i < 7
            invariant
                i <= 7,
                7 <= tn,
                tn as nat == tok@.len(),
                bp@ == bearer_prefix(),
                is_prefix == (tok@.take(i as int) == bearer_prefix().take(i as int)),
            decreases 7 - i,
        {
            let c = tok.as_str().get_char(i);
            let step_eq = is_prefix && c == bp[i];
            proof {
                let tp = tok@.take(i + 1);
                let bq = bearer_prefix().take(i + 1);
                assert(tp.drop_last() =~= tok@.take(i as int));
                assert(bq.drop_last() =~= bearer_prefix().take(i as int));
                assert(tp.last() == c);
                assert(bq.last() == bearer_prefix()[i as int]);
                if step_eq {
                    assert(tp =~= bq);
                }
                if tp == bq {
                    assert(tok@.take(i as int) == bearer_prefix().take(i as int));
                    assert(c == bearer_prefix()[i as int]);
                }
            }
            is_prefix = step_eq;
            i = i + 1;
        }
        proof {
            assert(bearer_prefix().take(7) =~= bearer_prefix());
        }
        if is_prefix {
            tok.as_str().substring_char(7, tn).to_owned()
        } else {
            tok
        }
    } else {
        tok
    };
    match verify_token(stripped.as_str(), key, now) {
        Ok(c) => AuthorizationStatus::Authorized(c),
        Err(_) => AuthorizationStatus::Unauthorized,
    }
}

} // verus!
