use tweetbook::api::{error_status, AccountStore, ApiError, TweetStore};
use tweetbook::dict::{dictionary, get_error_code};
use tweetbook::headers::HeaderMap;
use tweetbook::token::verify_token;
use tweetbook::tweet::LikeAction;
use tweetbook::user::{generate_suid, generate_uuid};

const KEY: &str = "service-signing-key";

fn account_headers(username: &str, email: &str, password: &str) -> HeaderMap {
    let mut m = HeaderMap::new();
    m.insert("username".to_string(), username.to_string());
    m.insert("display_name".to_string(), format!("{} display", username));
    m.insert("password".to_string(), password.to_string());
    m.insert("email".to_string(), email.to_string());
    m.insert("bio".to_string(), "hello".to_string());
    m.insert("age".to_string(), "30".to_string());
    m
}

fn login_headers(email: &str, password: &str) -> HeaderMap {
    let mut m = HeaderMap::new();
    m.insert("email".to_string(), email.to_string());
    m.insert("password".to_string(), password.to_string());
    m
}

fn signup(store: &mut AccountStore, username: &str, email: &str, password: &str) {
    let r = store.create_account(
        &account_headers(username, email, password),
        generate_uuid(),
        generate_suid(),
    );
    assert!(r.is_ok());
}

#[test]
fn account_then_login_then_verified_claims() {
    let mut store = AccountStore::new();
    signup(&mut store, "alice", "alice@example.com", "hunter2");
    let ok = store
        .login(&login_headers("alice@example.com", "hunter2"), KEY, 1000)
        .expect("correct password logs in");
    let claims = verify_token(&ok.token, KEY, 2000).expect("fresh token verifies");
    assert_eq!(claims.username, "alice");
    assert_eq!(claims.suid, ok.suid);
    assert_eq!(claims.exp, 1000 + 2592000);
}

#[test]
fn wrong_password_and_unknown_email_look_alike() {
    let mut store = AccountStore::new();
    signup(&mut store, "alice", "alice@example.com", "hunter2");
    let wrong_pw = store.login(&login_headers("alice@example.com", "nope"), KEY, 0);
    let no_email = store.login(&login_headers("bob@example.com", "hunter2"), KEY, 0);
    assert_eq!(wrong_pw.err().unwrap(), ApiError::AuthenticationFailure);
    assert_eq!(no_email.err().unwrap(), ApiError::AuthenticationFailure);
}

#[test]
fn stale_login_token_expires() {
    let mut store = AccountStore::new();
    signup(&mut store, "alice", "alice@example.com", "hunter2");
    let ok = store.login(&login_headers("alice@example.com", "hunter2"), KEY, 1000).unwrap();
    assert!(verify_token(&ok.token, KEY, 1000 + 2592000).is_err());
}

#[test]
fn duplicate_email_conflicts_and_writes_nothing() {
    let mut store = AccountStore::new();
    signup(&mut store, "alice", "alice@example.com", "hunter2");
    assert_eq!(store.len(), 1);
    let r = store.create_account(
        &account_headers("someone_else", "alice@example.com", "pw"),
        generate_uuid(),
        generate_suid(),
    );
    assert_eq!(r.err().unwrap(), ApiError::Conflict);
    assert_eq!(store.len(), 1);
}

#[test]
fn duplicate_username_conflicts() {
    let mut store = AccountStore::new();
    signup(&mut store, "alice", "alice@example.com", "hunter2");
    let r = store.create_account(
        &account_headers("alice", "other@example.com", "pw"),
        generate_uuid(),
        generate_suid(),
    );
    assert_eq!(r.err().unwrap(), ApiError::Conflict);
    assert_eq!(store.len(), 1);
}

#[test]
fn missing_header_rejects_before_any_write() {
    let mut store = AccountStore::new();
    let mut m = account_headers("alice", "alice@example.com", "pw");
    // Rebuild without the email field.
    let mut short = HeaderMap::new();
    short.insert("username".to_string(), "alice".to_string());
    short.insert("display_name".to_string(), "Alice".to_string());
    short.insert("password".to_string(), "pw".to_string());
    short.insert("bio".to_string(), "".to_string());
    short.insert("age".to_string(), "30".to_string());
    let r = store.create_account(&short, generate_uuid(), generate_suid());
    assert_eq!(r.err().unwrap(), ApiError::ContractViolation);
    assert_eq!(store.len(), 0);
    // The full set passes.
    m.insert("age".to_string(), "30".to_string());
    assert!(store.create_account(&m, generate_uuid(), generate_suid()).is_ok());
}

#[test]
fn invalid_email_and_age_are_rejected() {
    let mut store = AccountStore::new();
    let r = store.create_account(
        &account_headers("alice", "not-an-email", "pw"),
        generate_uuid(),
        generate_suid(),
    );
    assert_eq!(r.err().unwrap(), ApiError::InvalidCredentialFormat);
    let mut m = account_headers("alice", "alice@example.com", "pw");
    m.insert("age".to_string(), "not-a-number".to_string());
    let r2 = store.create_account(&m, generate_uuid(), generate_suid());
    assert_eq!(r2.err().unwrap(), ApiError::InvalidCredentialFormat);
    assert_eq!(store.len(), 0);
}

#[test]
fn profile_data_hides_sensitive_fields() {
    let mut store = AccountStore::new();
    signup(&mut store, "alice", "alice@example.com", "hunter2");
    let suid = store.get(0).suid.clone();
    let p = store.profile_data(&suid).expect("profile exists");
    assert_eq!(p.username, "alice");
    assert_eq!(p.displayname, "alice display");
    assert_eq!(p.suid, suid);
    assert_eq!(p.age, 30);
    assert_eq!(store.profile_data("no-such-suid").err().unwrap(), ApiError::NotFound);
}

#[test]
fn stored_password_is_a_digest() {
    let mut store = AccountStore::new();
    signup(&mut store, "alice", "alice@example.com", "hunter2");
    let stored = &store.get(0).password;
    assert_ne!(stored.as_str(), "hunter2");
    assert_eq!(stored.len(), 64);
}

fn bearer_headers(token: &str, extra: &[(&str, &str)]) -> HeaderMap {
    let mut m = HeaderMap::new();
    m.insert("Authorization".to_string(), format!("Bearer {}", token));
    for (k, v) in extra {
        m.insert(k.to_string(), v.to_string());
    }
    m
}

fn logged_in_token() -> (AccountStore, String, String) {
    let mut store = AccountStore::new();
    signup(&mut store, "alice", "alice@example.com", "hunter2");
    let ok = store.login(&login_headers("alice@example.com", "hunter2"), KEY, 100).unwrap();
    (store, ok.token, ok.suid)
}

#[test]
fn tweeting_decodes_content_and_derives_hashtags() {
    let (_store, token, suid) = logged_in_token();
    let mut tweets = TweetStore::new();
    // "hi #hej" as comma-separated UTF-16 code units.
    let wire = "104,105,32,35,104,101,106";
    let r = tweets.tweet(
        &bearer_headers(&token, &[("content", wire)]),
        KEY,
        200,
        generate_suid(),
        12345,
    );
    assert!(r.is_ok());
    assert_eq!(tweets.len(), 1);
    let t = tweets.get(0);
    assert_eq!(t.content, "hi #hej");
    assert_eq!(t.hashtags, vec!["hej"]);
    assert_eq!(t.owner, suid);
    assert_eq!(t.unix, 12345);
    assert!(t.likes.is_empty());
}

#[test]
fn tweeting_needs_a_valid_token() {
    let mut tweets = TweetStore::new();
    let r = tweets.tweet(
        &bearer_headers("not-a-token", &[("content", "104")]),
        KEY,
        200,
        generate_suid(),
        0,
    );
    assert_eq!(r.err().unwrap(), ApiError::AuthenticationFailure);
    assert_eq!(tweets.len(), 0);
}

#[test]
fn raw_authorization_value_is_accepted_too() {
    let (_store, token, _suid) = logged_in_token();
    let mut tweets = TweetStore::new();
    let mut m = HeaderMap::new();
    m.insert("Authorization".to_string(), token);
    m.insert("content".to_string(), "104".to_string());
    assert!(tweets.tweet(&m, KEY, 200, generate_suid(), 0).is_ok());
}

#[test]
fn liking_toggles_and_survives_retries() {
    let (_store, token, suid) = logged_in_token();
    let mut tweets = TweetStore::new();
    let post_id = generate_suid();
    tweets
        .tweet(&bearer_headers(&token, &[("content", "104")]), KEY, 200, post_id.clone(), 0)
        .unwrap();
    let like_headers = bearer_headers(&token, &[("tweet", &post_id)]);
    assert_eq!(tweets.like(&like_headers, KEY, 300).unwrap(), LikeAction::Added);
    assert_eq!(tweets.get(0).likes, vec![suid.clone()]);
    assert_eq!(tweets.like(&like_headers, KEY, 300).unwrap(), LikeAction::Removed);
    assert!(tweets.get(0).likes.is_empty());
    assert_eq!(tweets.like(&like_headers, KEY, 300).unwrap(), LikeAction::Added);
    assert_eq!(tweets.get(0).likes, vec![suid]);
}

#[test]
fn likes_from_distinct_accounts_accumulate() {
    let mut store = AccountStore::new();
    let mut tweets = TweetStore::new();
    let n = 6;
    let mut tokens: Vec<String> = Vec::new();
    for i in 0..n {
        signup(&mut store, &format!("user{}", i), &format!("user{}@example.com", i), "pw");
        let ok = store
            .login(&login_headers(&format!("user{}@example.com", i), "pw"), KEY, 0)
            .unwrap();
        tokens.push(ok.token);
    }
    let post_id = generate_suid();
    tweets
        .tweet(&bearer_headers(&tokens[0], &[("content", "104")]), KEY, 0, post_id.clone(), 0)
        .unwrap();
    for token in &tokens {
        let r = tweets.like(&bearer_headers(token, &[("tweet", &post_id)]), KEY, 0);
        assert_eq!(r.unwrap(), LikeAction::Added);
    }
    assert_eq!(tweets.get(0).likes.len(), n);
}

#[test]
fn liking_a_missing_post_is_not_found() {
    let (_store, token, _suid) = logged_in_token();
    let mut tweets = TweetStore::new();
    let r = tweets.like(&bearer_headers(&token, &[("tweet", "absent")]), KEY, 200);
    assert_eq!(r.err().unwrap(), ApiError::NotFound);
}

#[test]
fn hashtag_query_finds_matching_posts() {
    let (_store, token, _suid) = logged_in_token();
    let mut tweets = TweetStore::new();
    // "#a", "#b", "#a #b" as UTF-16 code unit strings.
    for wire in ["35,97", "35,98", "35,97,32,35,98"] {
        tweets
            .tweet(&bearer_headers(&token, &[("content", wire)]), KEY, 0, generate_suid(), 0)
            .unwrap();
    }
    let mut m = HeaderMap::new();
    m.insert("hashtag".to_string(), "a".to_string());
    assert_eq!(tweets.hashtag(&m).unwrap(), vec![0usize, 2usize]);
    let mut m2 = HeaderMap::new();
    m2.insert("hashtag".to_string(), "b".to_string());
    assert_eq!(tweets.hashtag(&m2).unwrap(), vec![1usize, 2usize]);
    let empty = HeaderMap::new();
    assert_eq!(tweets.hashtag(&empty).err().unwrap(), ApiError::ContractViolation);
}

#[test]
fn error_statuses_follow_the_taxonomy() {
    assert_eq!(error_status(ApiError::ContractViolation), 400);
    assert_eq!(error_status(ApiError::InvalidCredentialFormat), 400);
    assert_eq!(error_status(ApiError::Conflict), 409);
    assert_eq!(error_status(ApiError::AuthenticationFailure), 401);
    assert_eq!(error_status(ApiError::NotFound), 404);
}

#[test]
fn error_codes_render_exactly() {
    assert_eq!(get_error_code(102), "Errno.102 - Internal error");
    assert_eq!(get_error_code(103), "Errno.103 - Docker -> mongo bridge failed.");
    assert_eq!(get_error_code(7), "Errno.7 - ");
}

#[test]
fn dictionary_phrases() {
    let d = dictionary();
    assert_eq!(d.error.in_use.email, "Email is already in use");
    assert_eq!(d.error.in_use.username, "Username is already in use");
    assert_eq!(d.error.invalid.email, "Email is invalid");
    assert_eq!(d.error.login, "Email or password is incorrect.");
    assert_eq!(d.error.unauthorized, "Unauthorized.");
}

#[test]
fn generated_identifiers_have_their_shapes() {
    let u1 = generate_uuid();
    let u2 = generate_uuid();
    let s1 = generate_suid();
    let s2 = generate_suid();
    assert_eq!(u1.len(), 36);
    assert_eq!(s1.len(), 32);
    assert!(s1.chars().all(|c| c.is_ascii_hexdigit() && !c.is_ascii_uppercase()));
    assert!(s2.chars().all(|c| c.is_ascii_hexdigit() && !c.is_ascii_uppercase()));
    assert_ne!(u1, u2);
    assert_ne!(s1, s2);
}
