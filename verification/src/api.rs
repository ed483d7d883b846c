//! The request pipeline: the account and post stores as the persistence
//! layer's single-document semantics present them, and one handler per
//! operation — each a pure function from store and request to outcome,
//! validating the header contract first and authorizing before any
//! mutation.

use vstd::prelude::*;
use vstd::string::*;

use crate::digits::{parse_u8, spec_parse_u8, NUM_BOUND};
use crate::hashing::{hash, sha3_hex_of};
use crate::headers::{required_for, spec_validate, validate, HeaderMap};
use crate::safe_user::{spec_safe_user, SafeUser};
use crate::scan::{lemma_seq_first_index_is, seq_first_index};
use crate::token::{expiration_after, issue, spec_expiration, spec_token, spec_verify, UserClaims};
use crate::tweet::{
    extract_hashtags, lemma_toggle_properties, likes_unique, spec_decoded_content, spec_hashtags,
    spec_toggle, toggle_membership, decode_content, LikeAction, Tweet, TweetView,
};
use crate::user::{
    authenticate, check_email, claims_for, header_token, strip_bearer, user_wf, valid_email,
    AuthorizationStatus, User, UserView,
};

verus! {

/// Why an operation was refused.  Each kind maps to one response status.
#[derive(Clone, Copy, Debug, PartialEq, Eq, Structural)]
pub enum ApiError {
    /// A required header is missing, so the handler never ran.
    ContractViolation,
    /// A field fails its grammar or does not parse to its type.
    InvalidCredentialFormat,
    /// The username or email is already registered.
    Conflict,
    /// The caller's credential is missing, forged or expired.
    AuthenticationFailure,
    /// The addressed entity does not exist.
    NotFound,
}

/// The response status an error is surfaced as.
pub open spec fn spec_error_status(e: ApiError) -> u16 {
    match e {
        ApiError::ContractViolation => 400,
        ApiError::InvalidCredentialFormat => 400,
        ApiError::Conflict => 409,
        ApiError::AuthenticationFailure => 401,
        ApiError::NotFound => 404,
    }
}

pub fn error_status(e: ApiError) -> (r: u16)
    ensures
        r == spec_error_status(e),
{
    match e {
        ApiError::ContractViolation => 400,
        ApiError::InvalidCredentialFormat => 400,
        ApiError::Conflict => 409,
        ApiError::AuthenticationFailure => 401,
        ApiError::NotFound => 404,
    }
}

// --- The account store. ---

/// The account collection: find and insert, with username and email
/// unique across all accounts.
pub struct AccountStore {
    users: Vec<User>,
}

/// The store's standing invariant: every account's identity fields fit
/// the token wire format, and no username or email repeats.
pub open spec fn accounts_wf(s: Seq<UserView>) -> bool {
    &&& forall|i: int| 0 <= i < s.len() ==> user_wf(#[trigger] s[i])
    &&& forall|i: int, j: int|
        #![trigger s[i], s[j]]
        0 <= i < j < s.len() ==> s[i].username != s[j].username && s[i].email != s[j].email
}

pub open spec fn taken_username(s: Seq<UserView>, name: Seq<char>) -> bool {
    exists|i: int| 0 <= i < s.len() && (#[trigger] s[i]).username == name
}

pub open spec fn taken_email(s: Seq<UserView>, email: Seq<char>) -> bool {
    exists|i: int| 0 <= i < s.len() && (#[trigger] s[i]).email == email
}

impl View for AccountStore {
    type V = Seq<UserView>;

    closed spec fn view(&self) -> Seq<UserView> {
        Seq::new(self.users@.len(), |i: int| self.users@[i]@)
    }
}

/// What creating an account means: the header contract first, then the
/// field grammars, then uniqueness; on success, the exact stored account —
/// the password replaced by its digest, the identifiers as generated.
pub open spec fn spec_create_account(
    s: Seq<UserView>,
    m: Map<Seq<char>, Seq<char>>,
    uid: Seq<char>,
    suid: Seq<char>,
) -> Result<UserView, ApiError> {
    if !spec_validate("create_account"@, m) {
        Err(ApiError::ContractViolation)
    } else if !valid_email(m["email"@]) {
        Err(ApiError::InvalidCredentialFormat)
    } else if spec_parse_u8(m["age"@]) is None {
        Err(ApiError::InvalidCredentialFormat)
    } else if m["username"@].len() >= NUM_BOUND {
        Err(ApiError::InvalidCredentialFormat)
    } else if taken_username(s, m["username"@]) {
        Err(ApiError::Conflict)
    } else if taken_email(s, m["email"@]) {
        Err(ApiError::Conflict)
    } else {
        Ok(
            UserView {
                username: m["username"@],
                displayname: m["display_name"@],
                password: sha3_hex_of(m["password"@]),
                email: m["email"@],
                bio: m["bio"@],
                uid: uid,
                suid: suid,
                age: spec_parse_u8(m["age"@])->Some_0,
            },
        )
    }
}

/// What logging in means: the header contract, then the account the email
/// names, then digest equality as the sole password check; on success the
/// exact token issued for that account, expiring thirty days from `now`.
/// A missing account and a wrong password are the same failure: the
/// outcome never says whether the email exists.
pub open spec fn spec_login(
    s: Seq<UserView>,
    m: Map<Seq<char>, Seq<char>>,
    key: Seq<char>,
    now: nat,
) -> Result<(Seq<char>, Seq<char>), ApiError> {
    if !spec_validate("login"@, m) {
        Err(ApiError::ContractViolation)
    } else {
        let ix = seq_first_index(s.map_values(|u: UserView| u.email), m["email"@]);
        if ix >= s.len() {
            Err(ApiError::AuthenticationFailure)
        } else if s[ix].password != sha3_hex_of(m["password"@]) {
            Err(ApiError::AuthenticationFailure)
        } else {
            Ok((spec_token(claims_for(s[ix], spec_expiration(now)), key), s[ix].suid))
        }
    }
}

/// What a profile query means: the public view of the account the public
/// identifier names, or nothing.
pub open spec fn spec_profile_data(s: Seq<UserView>, suid: Seq<char>) -> Result<
    crate::safe_user::SafeUserView,
    ApiError,
> {
    let ix = seq_first_index(s.map_values(|u: UserView| u.suid), suid);
    if ix >= s.len() {
        Err(ApiError::NotFound)
    } else {
        Ok(spec_safe_user(s[ix]))
    }
}

/// A fresh login's outcome: the signed token and the account's public
/// identifier.
pub struct LoginSuccess {
    pub token: String,
    pub suid: String,
}

impl AccountStore {
    /// An empty account collection.
    pub fn new() -> (r: AccountStore)
        ensures
            r@ == Seq::<UserView>::empty(),
            accounts_wf(r@),
    {
        let r = AccountStore { users: Vec::new() };
        proof {
            assert(r@ =~= Seq::<UserView>::empty());
        }
        r
    }

    /// How many accounts are stored.
    pub fn len(&self) -> (r: usize)
        ensures
            r == self@.len(),
    {
        self.users.len()
    }

    /// The stored account at a position.
    pub fn get(&self, i: usize) -> (r: &User)
        requires
            i < self@.len(),
        ensures
            r@ == self@[i as int],
    {
        &self.users[i]
    }

    /// Creates an account from a validated request: enforces the header
    /// contract, the email grammar, the age grammar and the uniqueness of
    /// username and email, hashes the password, and stores the account
    /// with the supplied generated identifiers.  On any refusal the store
    /// is exactly as before: no partial write ever happens.
    #[verifier::loop_isolation(false)]
    pub fn create_account(&mut self, headers: &HeaderMap, uid: String, suid: String) -> (r:
        Result<(), ApiError>)
        requires
            accounts_wf(old(self)@),
            uid@.len() < NUM_BOUND,
            suid@.len() < NUM_BOUND,
        ensures
            accounts_wf(final(self)@),
            match r {
                Ok(_) => spec_create_account(old(self)@, headers@, uid@, suid@) matches Ok(u)
                    && final(self)@ == old(self)@.push(u),
                Err(e) => spec_create_account(old(self)@, headers@, uid@, suid@) == Err::<
                    UserView,
                    ApiError,
                >(e) && final(self)@ == old(self)@,
            },
    {
        let ghost s = old(self)@;
        if !validate("create_account", headers) {
            return Err(ApiError::ContractViolation);
        }
        proof {
            let fs = required_for("create_account"@)->Some_0;
            assert(headers@.contains_key(fs[0]) && fs[0] == "username"@);
            assert(headers@.contains_key(fs[1]) && fs[1] == "display_name"@);
            assert(headers@.contains_key(fs[2]) && fs[2] == "password"@);
            assert(headers@.contains_key(fs[3]) && fs[3] == "email"@);
            assert(headers@.contains_key(fs[4]) && fs[4] == "bio"@);
            assert(headers@.contains_key(fs[5]) && fs[5] == "age"@);
        }
        let username = match headers.get("username") {
            Some(v) => v,
            None => {
                assert(false);
                return Err(ApiError::ContractViolation);
            },
        };
        let displayname = match headers.get("display_name") {
            Some(v) => v,
            None => {
                assert(false);
                return Err(ApiError::ContractViolation);
            },
        };
        let password = match headers.get("password") {
            Some(v) => v,
            None => {
                assert(false);
                return Err(ApiError::ContractViolation);
            },
        };
        let email = match headers.get("email") {
            Some(v) => v,
            None => {
                assert(false);
                return Err(ApiError::ContractViolation);
            },
        };
        let bio = match headers.get("bio") {
            Some(v) => v,
            None => {
                assert(false);
                return Err(ApiError::ContractViolation);
            },
        };
        let age_text = match headers.get("age") {
            Some(v) => v,
            None => {
                assert(false);
                return Err(ApiError::ContractViolation);
            },
        };
        if !check_email(email.as_str()) {
            return Err(ApiError::InvalidCredentialFormat);
        }
        let age = match parse_u8(age_text.as_str()) {
            Some(a) => a,
            None => {
                return Err(ApiError::InvalidCredentialFormat);
            },
        };
        let ulen = username.as_str().unicode_len();
        if ulen as u64 >= NUM_BOUND {
            return Err(ApiError::InvalidCredentialFormat);
        }
        let mut i: usize = 0;
        while i < self.users.len()
            invariant
                i <= self.users.len(),
                self@ == s,
                username@ == headers@["username"@],
                forall|j: int| 0 <= j < i ==> (#[trigger] s[j]).username != username@,
            decreases self.users.len() - i,
        {
            if self.users[i].username.as_str().eq(username.as_str()) {
                proof {
                    assert(s[i as int].username == username@);
                }
                return Err(ApiError::Conflict);
            }
            i = i + 1;
        }
        proof {
            if taken_username(s, username@) {
                let j = choose|j: int| 0 <= j < s.len() && s[j].username == username@;
                assert(s[j].username != username@);
            }
        }
        let mut i2: usize = 0;
        while i2 < self.users.len()
            invariant
                i2 <= self.users.len(),
                self@ == s,
                email@ == headers@["email"@],
                forall|j: int| 0 <= j < i2 ==> (#[trigger] s[j]).email != email@,
            decreases self.users.len() - i2,
        {
            if self.users[i2].email.as_str().eq(email.as_str()) {
                proof {
                    assert(s[i2 as int].email == email@);
                }
                return Err(ApiError::Conflict);
            }
            i2 = i2 + 1;
        }
        proof {
            if taken_email(s, email@) {
                let j = choose|j: int| 0 <= j < s.len() && s[j].email == email@;
                assert(s[j].email != email@);
            }
        }
        let digest = hash(password.as_str());
        let user = User {
            username,
            displayname,
            password: digest,
            email,
            bio,
            uid,
            suid,
            age,
        };
        let ghost uv = user@;
        self.users.push(user);
        proof {
            assert(self@ =~= s.push(uv));
            assert(spec_create_account(s, headers@, uid@, suid@) == Ok::<UserView, ApiError>(uv));
            assert forall|p: int, q: int|
                #![trigger self@[p], self@[q]]
                0 <= p < q < self@.len() implies self@[p].username != self@[q].username
                && self@[p].email != self@[q].email by {
                if q == s.len() {
                    assert(s[p].username != uv.username);
                    assert(s[p].email != uv.email);
                }
            }
        }
        Ok(())
    }

    /// Logs an account in: enforces the header contract, finds the
    /// account by email, compares digests — never plaintext — and mints a
    /// token expiring thirty days from `now`.  Whether the email was
    /// unknown or the password wrong, the refusal is the same.
    #[verifier::loop_isolation(false)]
    pub fn login(&self, headers: &HeaderMap, key: &str, now: u64) -> (r: Result<
        LoginSuccess,
        ApiError,
    >)
        requires
            accounts_wf(self@),
        ensures
            match r {
                Ok(ls) => spec_login(self@, headers@, key@, now as nat) matches Ok(ok) && ls.token@
                    == ok.0 && ls.suid@ == ok.1,
                Err(e) => spec_login(self@, headers@, key@, now as nat) == Err::<
                    (Seq<char>, Seq<char>),
                    ApiError,
                >(e),
            },
    {
        let ghost s = self@;
        let ghost emails = s.map_values(|u: UserView| u.email);
        if !validate("login", headers) {
            return Err(ApiError::ContractViolation);
        }
        proof {
            crate::headers::lemma_required_tables();
            let fs = required_for("login"@)->Some_0;
            assert(headers@.contains_key(fs[0]) && fs[0] == "email"@);
            assert(headers@.contains_key(fs[1]) && fs[1] == "password"@);
        }
        let email = match headers.get("email") {
            Some(v) => v,
            None => {
                assert(false);
                return Err(ApiError::ContractViolation);
            },
        };
        let password = match headers.get("password") {
            Some(v) => v,
            None => {
                assert(false);
                return Err(ApiError::ContractViolation);
            },
        };
        let mut i: usize = 0;
        while i < self.users.len()
            invariant
                i <= self.users.len(),
                self@ == s,
                emails == s.map_values(|u: UserView| u.email),
                email@ == headers@["email"@],
                forall|j: int| 0 <= j < i ==> (#[trigger] s[j]).email != email@,
            decreases self.users.len() - i,
        {
            if self.users[i].email.as_str().eq(email.as_str()) {
                proof {
                    assert forall|j: int| 0 <= j < i implies emails[j] != email@ by {
                        assert(emails[j] == s[j].email);
                    }
                    assert(emails[i as int] == s[i as int].email);
                    lemma_seq_first_index_is(emails, email@, i as int);
                }
                let digest = hash(password.as_str());
                let good = self.users[i].password.as_str().eq(digest.as_str());
                if !good {
                    return Err(ApiError::AuthenticationFailure);
                }
                let exp = expiration_after(now);
                let claims = UserClaims {
                    username: self.users[i].username.clone(),
                    uid: self.users[i].uid.clone(),
                    suid: self.users[i].suid.clone(),
                    exp,
                };
                proof {
                    assert(user_wf(s[i as int]));
                    assert(claims@ == claims_for(s[i as int], exp as nat));
                }
                let token = issue(&claims, key);
                return Ok(LoginSuccess { token, suid: self.users[i].suid.clone() });
            }
            i = i + 1;
        }
        proof {
            assert forall|j: int| 0 <= j < emails.len() implies emails[j] != email@ by {
                assert(emails[j] == s[j].email);
            }
            lemma_seq_first_index_is(emails, email@, emails.len() as int);
        }
        Err(ApiError::AuthenticationFailure)
    }

    /// The public profile of the account a public identifier names.
    #[verifier::loop_isolation(false)]
    pub fn profile_data(&self, suid: &str) -> (r: Result<SafeUser, ApiError>)
        ensures
            match r {
                Ok(p) => spec_profile_data(self@, suid@) matches Ok(v) && p@ == v,
                Err(e) => spec_profile_data(self@, suid@) == Err::<
                    crate::safe_user::SafeUserView,
                    ApiError,
                >(e),
            },
    {
        let ghost s = self@;
        let ghost suids = s.map_values(|u: UserView| u.suid);
        let mut i: usize = 0;
        while i < self.users.len()
            invariant
                i <= self.users.len(),
                self@ == s,
                suids == s.map_values(|u: UserView| u.suid),
                forall|j: int| 0 <= j < i ==> (#[trigger] s[j]).suid != suid@,
            decreases self.users.len() - i,
        {
            if self.users[i].suid.as_str().eq(suid) {
                proof {
                    assert forall|j: int| 0 <= j < i implies suids[j] != suid@ by {
                        assert(suids[j] == s[j].suid);
                    }
                    assert(suids[i as int] == s[i as int].suid);
                    lemma_seq_first_index_is(suids, suid@, i as int);
                }
                let u = &self.users[i];
                return Ok(
                    SafeUser {
                        username: u.username.clone(),
                        displayname: u.displayname.clone(),
                        suid: u.suid.clone(),
                        age: u.age,
                    },
                );
            }
            i = i + 1;
        }
        proof {
            assert forall|j: int| 0 <= j < suids.len() implies suids[j] != suid@ by {
                assert(suids[j] == s[j].suid);
            }
            lemma_seq_first_index_is(suids, suid@, suids.len() as int);
        }
        Err(ApiError::NotFound)
    }
}

// --- The post store. ---

/// The post collection: find by identifier or hashtag, insert, and the
/// single-document conditional update behind likes.
pub struct TweetStore {
    tweets: Vec<Tweet>,
}

/// The store's standing invariant: every post's liker list is
/// duplicate-free.
pub open spec fn tweets_wf(s: Seq<TweetView>) -> bool {
    forall|i: int| 0 <= i < s.len() ==> likes_unique((#[trigger] s[i]).likes)
}

impl View for TweetStore {
    type V = Seq<TweetView>;

    closed spec fn view(&self) -> Seq<TweetView> {
        Seq::new(self.tweets@.len(), |i: int| self.tweets@[i]@)
    }
}

/// What creating a post means: the header contract, then a verified
/// bearer credential, then the post exactly as derived from the request —
/// text decoded from its wire form, hashtags derived from the text, the
/// liker list empty.
pub open spec fn spec_create_tweet(
    m: Map<Seq<char>, Seq<char>>,
    key: Seq<char>,
    now: nat,
    id: Seq<char>,
    unix: u64,
) -> Result<TweetView, ApiError> {
    if !spec_validate("tweet"@, m) {
        Err(ApiError::ContractViolation)
    } else {
        match header_token(m) {
            None => Err(ApiError::AuthenticationFailure),
            Some(t) => match spec_verify(strip_bearer(t), key, now) {
                Err(_) => Err(ApiError::AuthenticationFailure),
                Ok(c) => {
                    let content = spec_decoded_content(m["content"@]);
                    Ok(
                        TweetView {
                            owner: c.suid,
                            content: content,
                            id: id,
                            likes: Seq::empty(),
                            unix: unix,
                            hashtags: spec_hashtags(content),
                        },
                    )
                },
            },
        }
    }
}

/// What a like means: the header contract, a verified credential, the
/// post the identifier names, and then one toggle of the caller's
/// membership in that post's liker list — a single conditional update of
/// that one post, nothing else touched.
pub open spec fn spec_like(
    s: Seq<TweetView>,
    m: Map<Seq<char>, Seq<char>>,
    key: Seq<char>,
    now: nat,
) -> Result<(Seq<TweetView>, LikeAction), ApiError> {
    if !spec_validate("like"@, m) {
        Err(ApiError::ContractViolation)
    } else {
        match header_token(m) {
            None => Err(ApiError::AuthenticationFailure),
            Some(t) => match spec_verify(strip_bearer(t), key, now) {
                Err(_) => Err(ApiError::AuthenticationFailure),
                Ok(c) => {
                    let ix = seq_first_index(s.map_values(|t: TweetView| t.id), m["tweet"@]);
                    if ix >= s.len() {
                        Err(ApiError::NotFound)
                    } else {
                        let (nl, act) = spec_toggle(s[ix].likes, c.suid);
                        Ok((s.update(ix, TweetView { likes: nl, ..s[ix] }), act))
                    }
                },
            },
        }
    }
}

impl TweetStore {
    /// An empty post collection.
    pub fn new() -> (r: TweetStore)
        ensures
            r@ == Seq::<TweetView>::empty(),
            tweets_wf(r@),
    {
        let r = TweetStore { tweets: Vec::new() };
        proof {
            assert(r@ =~= Seq::<TweetView>::empty());
        }
        r
    }

    /// How many posts are stored.
    pub fn len(&self) -> (r: usize)
        ensures
            r == self@.len(),
    {
        self.tweets.len()
    }

    /// The stored post at a position.
    pub fn get(&self, i: usize) -> (r: &Tweet)
        requires
            i < self@.len(),
        ensures
            r@ == self@[i as int],
    {
        &self.tweets[i]
    }

    /// Creates a post from a validated, authorized request.  On any
    /// refusal the store is exactly as before.
    #[verifier::loop_isolation(false)]
    pub fn tweet(&mut self, headers: &HeaderMap, key: &str, now: u64, id: String, unix: u64) -> (r:
        Result<(), ApiError>)
        requires
            tweets_wf(old(self)@),
        ensures
            tweets_wf(final(self)@),
            match r {
                Ok(_) => spec_create_tweet(headers@, key@, now as nat, id@, unix) matches Ok(t)
                    && final(self)@ == old(self)@.push(t),
                Err(e) => spec_create_tweet(headers@, key@, now as nat, id@, unix) == Err::<
                    TweetView,
                    ApiError,
                >(e) && final(self)@ == old(self)@,
            },
    {
        let ghost s = old(self)@;
        if !validate("tweet", headers) {
            return Err(ApiError::ContractViolation);
        }
        proof {
            crate::headers::lemma_required_tables();
            let fs = required_for("tweet"@)->Some_0;
            assert(headers@.contains_key(fs[0]) && fs[0] == "Authorization"@);
            assert(headers@.contains_key(fs[1]) && fs[1] == "content"@);
        }
        let claims = match authenticate(headers, key, now) {
            AuthorizationStatus::Authorized(c) => c,
            AuthorizationStatus::Unauthorized => {
                return Err(ApiError::AuthenticationFailure);
            },
            AuthorizationStatus::Malformed => {
                return Err(ApiError::AuthenticationFailure);
            },
        };
        let raw = match headers.get("content") {
            Some(v) => v,
            None => {
                assert(false);
                return Err(ApiError::ContractViolation);
            },
        };
        let content = decode_content(raw.as_str());
        let hashtags = extract_hashtags(content.as_str());
        let t = Tweet {
            owner: claims.suid,
            content,
            id,
            likes: Vec::new(),
            unix,
            hashtags,
        };
        let ghost tv = t@;
        self.tweets.push(t);
        proof {
            assert(tv.likes =~= Seq::<Seq<char>>::empty());
            assert(self@ =~= s.push(tv));
            assert(spec_create_tweet(headers@, key@, now as nat, id@, unix) matches Ok(x) && x
                == tv);
        }
        Ok(())
    }

    /// Toggles the caller's like on the post the request names: removes
    /// the caller from that post's liker list if present, adds the caller
    /// if absent, and reports which happened.  One conditional update of
    /// one post; on any refusal the store is exactly as before.
    #[verifier::loop_isolation(false)]
    pub fn like(&mut self, headers: &HeaderMap, key: &str, now: u64) -> (r: Result<
        LikeAction,
        ApiError,
    >)
        requires
            tweets_wf(old(self)@),
        ensures
            tweets_wf(final(self)@),
            match r {
                Ok(a) => spec_like(old(self)@, headers@, key@, now as nat) matches Ok(ok)
                    && final(self)@ == ok.0 && a == ok.1,
                Err(e) => spec_like(old(self)@, headers@, key@, now as nat) == Err::<
                    (Seq<TweetView>, LikeAction),
                    ApiError,
                >(e) && final(self)@ == old(self)@,
            },
    {
        let ghost s = old(self)@;
        let ghost ids = s.map_values(|t: TweetView| t.id);
        if !validate("like", headers) {
            return Err(ApiError::ContractViolation);
        }
        proof {
            crate::headers::lemma_required_tables();
            let fs = required_for("like"@)->Some_0;
            assert(headers@.contains_key(fs[0]) && fs[0] == "Authorization"@);
            assert(headers@.contains_key(fs[1]) && fs[1] == "tweet"@);
        }
        let claims = match authenticate(headers, key, now) {
            AuthorizationStatus::Authorized(c) => c,
            AuthorizationStatus::Unauthorized => {
                return Err(ApiError::AuthenticationFailure);
            },
            AuthorizationStatus::Malformed => {
                return Err(ApiError::AuthenticationFailure);
            },
        };
        let tweet_id = match headers.get("tweet") {
            Some(v) => v,
            None => {
                assert(false);
                return Err(ApiError::ContractViolation);
            },
        };
        let mut i: usize = 0;
        while i < self.tweets.len()
            invariant
                i <= self.tweets.len(),
                self@ == s,
                ids == s.map_values(|t: TweetView| t.id),
                tweet_id@ == headers@["tweet"@],
                forall|j: int| 0 <= j < i ==> (#[trigger] s[j]).id != tweet_id@,
            decreases self.tweets.len() - i,
        {
            if self.tweets[i].id.as_str().eq(tweet_id.as_str()) {
                proof {
                    assert forall|j: int| 0 <= j < i implies ids[j] != tweet_id@ by {
                        assert(ids[j] == s[j].id);
                    }
                    assert(ids[i as int] == s[i as int].id);
                    lemma_seq_first_index_is(ids, tweet_id@, i as int);
                    assert(likes_unique(s[i as int].likes));
                    lemma_toggle_properties(s[i as int].likes, claims@.suid);
                }
                let mut t = self.tweets.remove(i);
                let act = toggle_membership(&mut t.likes, claims.suid.as_str());
                let ghost tv = t@;
                self.tweets.insert(i, t);
                proof {
                    let (nl, sact) = spec_toggle(s[i as int].likes, claims@.suid);
                    assert(tv == TweetView { likes: nl, ..s[i as int] });
                    assert(self@ =~= s.update(i as int, tv));
                    assert(act == sact);
                    assert forall|p: int| 0 <= p < self@.len() implies likes_unique(
                        (#[trigger] self@[p]).likes,
                    ) by {
                        if p != i {
                            assert(self@[p] == s[p]);
                        }
                    }
                }
                return Ok(act);
            }
            i = i + 1;
        }
        proof {
            assert forall|j: int| 0 <= j < ids.len() implies ids[j] != tweet_id@ by {
                assert(ids[j] == s[j].id);
            }
            lemma_seq_first_index_is(ids, tweet_id@, ids.len() as int);
        }
        Err(ApiError::NotFound)
    }

    /// The positions of the posts that carry a hashtag, in order: what the
    /// hashtag query hands back.
    #[verifier::loop_isolation(false)]
    pub fn search_hashtag(&self, tag: &str) -> (r: Vec<usize>)
        ensures
            forall|k: int|
                0 <= k < r@.len() ==> (#[trigger] r@[k]) < self@.len() && self@[r@[k] as int]
                    .hashtags.contains(tag@),
            forall|k1: int, k2: int| 0 <= k1 < k2 < r@.len() ==> r@[k1] < r@[k2],
            forall|i: int|
                0 <= i < self@.len() && (#[trigger] self@[i]).hashtags.contains(tag@) ==> r@
                    .contains(i as usize),
    {
        let ghost s = self@;
        let mut out: Vec<usize> = Vec::new();
        let mut i: usize = 0;
        while i < self.tweets.len()
            invariant
                i <= self.tweets.len(),
                self@ == s,
                forall|k: int|
                    0 <= k < out@.len() ==> (#[trigger] out@[k]) < i && s[out@[k] as int]
                        .hashtags.contains(tag@),
                forall|k1: int, k2: int| 0 <= k1 < k2 < out@.len() ==> out@[k1] < out@[k2],
                forall|j: int|
                    0 <= j < i && (#[trigger] s[j]).hashtags.contains(tag@) ==> out@.contains(
                        j as usize,
                    ),
            decreases self.tweets.len() - i,
        {
            let has = has_hashtag(&self.tweets[i], tag);
            if has {
                let ghost before = out@;
                out.push(i);
                proof {
                    assert forall|j: int|
                        0 <= j < i + 1 && (#[trigger] s[j]).hashtags.contains(tag@) implies out@
                        .contains(j as usize) by {
                        if j < i {
                            let k = choose|k: int| 0 <= k < before.len() && before[k] == j as usize;
                            assert(out@[k] == j as usize);
                        } else {
                            assert(out@[out@.len() - 1] == i);
                        }
                    }
                }
            }
            i = i + 1;
        }
        out
    }

    /// Serves the hashtag query: the request must name a hashtag, and the
    /// answer is the positions of the posts that carry it.
    pub fn hashtag(&self, headers: &HeaderMap) -> (r: Result<Vec<usize>, ApiError>)
        ensures
            match r {
                Ok(v) => headers@.contains_key("hashtag"@) && {
                    let tag = headers@["hashtag"@];
                    &&& forall|k: int|
                        0 <= k < v@.len() ==> (#[trigger] v@[k]) < self@.len()
                            && self@[v@[k] as int].hashtags.contains(tag)
                    &&& forall|k1: int, k2: int| 0 <= k1 < k2 < v@.len() ==> v@[k1] < v@[k2]
                    &&& forall|i: int|
                        0 <= i < self@.len() && (#[trigger] self@[i]).hashtags.contains(tag)
                            ==> v@.contains(i as usize)
                },
                Err(e) => e == ApiError::ContractViolation && !headers@.contains_key("hashtag"@),
            },
    {
        match headers.get("hashtag") {
            None => Err(ApiError::ContractViolation),
            Some(tag) => Ok(self.search_hashtag(tag.as_str())),
        }
    }
}

/// Whether a post carries a hashtag.
#[verifier::loop_isolation(false)]
fn has_hashtag(t: &Tweet, tag: &str) -> (r: bool)
    ensures
        r == t@.hashtags.contains(tag@),
{
    let ghost hs = t@.hashtags;
    let mut i: usize = 0;
    while i < t.hashtags.len()
        invariant
            i <= t.hashtags.len(),
            hs == t@.hashtags,
            hs.len() == t.hashtags@.len(),
            forall|j: int| 0 <= j < i ==> hs[j] != tag@,
        decreases t.hashtags.len() - i,
    {
        if t.hashtags[i].as_str().eq(tag) {
            proof {
                assert(hs[i as int] == tag@);
            }
            return true;
        }
        i = i + 1;
    }
    proof {
        if hs.contains(tag@) {
            let j = choose|j: int| 0 <= j < hs.len() && hs[j] == tag@;
            assert(hs[j] != tag@);
        }
    }
    false
}

// --- The profile-image response. ---

/// The chunked transfer coding of a byte sequence with a chunk size, as
/// the outside encoder computes it.  Named only: a function of the bytes
/// and the chunk size alone.
pub uninterp spec fn chunked_of(data: Seq<u8>, size: nat) -> Seq<u8>;

/// Relies on `chunked_transfer::Encoder::with_chunks_size` and its
/// `io::Write` impl: writing all the bytes through the encoder leaves
/// their chunked transfer coding in the sink, a function of bytes and
/// chunk size alone; writing to an in-memory sink does not fail.  The
/// chunk size must be positive: with a chunk size of zero the encoder
/// never consumes anything and never returns.
#[verifier::external_body]
fn chunk_encode(data: &Vec<u8>, size: usize) -> (r: Vec<u8>)
    requires
        1 <= size,
    ensures
        r@ == chunked_of(data@, size as nat),
{
    let mut out: Vec<u8> = Vec::new();
    {
        let mut enc = chunked_transfer::Encoder::with_chunks_size(&mut out, size);
        let _ = std::io::Write::write_all(&mut enc, data.as_slice());
    }
    out
}

/// Builds the profile-image response: the fixed response head, and the
/// image bytes in chunked transfer coding with 64-byte chunks.  Reading
/// the image from disk and writing to the connection stay with the
/// caller.
pub fn profile_image_response(image: &Vec<u8>) -> (r: (String, Vec<u8>))
    ensures
        r.0@ == "HTTP/1.1 200 OK\r\nContent-type: image/png\r\nTransfer-Encoding: chunked\r\n\r\n"@,
        r.1@ == chunked_of(image@, 64),
{
    let head =
        "HTTP/1.1 200 OK\r\nContent-type: image/png\r\nTransfer-Encoding: chunked\r\n\r\n".to_owned();
    let body = chunk_encode(image, 64);
    (head, body)
}

} // verus!
