use tweetbook::api::profile_image_response;
use tweetbook::digits::parse_u8;
use tweetbook::headers::HeaderMap;
use tweetbook::safe_user::convert_user;
use tweetbook::tweet::{Comment, Tweet};
use tweetbook::user::{authenticate, get_expiration_time, AuthorizationStatus, User};

const KEY: &str = "service-signing-key";

#[test]
fn image_response_is_chunked() {
    let image: Vec<u8> = b"hello".to_vec();
    let (head, body) = profile_image_response(&image);
    assert_eq!(
        head,
        "HTTP/1.1 200 OK\r\nContent-type: image/png\r\nTransfer-Encoding: chunked\r\n\r\n"
    );
    assert_eq!(body, b"5\r\nhello\r\n0\r\n\r\n".to_vec());
}

#[test]
fn image_response_chunks_large_bodies() {
    let image: Vec<u8> = vec![b'x'; 65];
    let (_head, body) = profile_image_response(&image);
    // 64 bytes in the first chunk ("40" in hex), one in the second.
    let mut expected: Vec<u8> = Vec::new();
    expected.extend(b"40\r\n");
    expected.extend(vec![b'x'; 64]);
    expected.extend(b"\r\n1\r\nx\r\n0\r\n\r\n");
    assert_eq!(body, expected);
}

#[test]
fn ages_parse_canonically() {
    assert_eq!(parse_u8("0"), Some(0));
    assert_eq!(parse_u8("30"), Some(30));
    assert_eq!(parse_u8("255"), Some(255));
    assert_eq!(parse_u8("256"), None);
    assert_eq!(parse_u8("007"), None);
    assert_eq!(parse_u8(""), None);
    assert_eq!(parse_u8("+3"), None);
    assert_eq!(parse_u8("1000"), None);
}

#[test]
fn resolver_reads_either_header_spelling() {
    let user = User {
        username: "alice".to_string(),
        displayname: "Alice".to_string(),
        password: String::new(),
        email: "alice@example.com".to_string(),
        bio: String::new(),
        uid: "u".to_string(),
        suid: "s".to_string(),
        age: 30,
    };
    let token = User::create__JWT__token(user, KEY);
    let mut lower = HeaderMap::new();
    lower.insert("authorization".to_string(), format!("Bearer {}", token));
    assert!(matches!(authenticate(&lower, KEY, 0), AuthorizationStatus::Authorized(_)));
    let mut upper = HeaderMap::new();
    upper.insert("Authorization".to_string(), token.clone());
    assert!(matches!(authenticate(&upper, KEY, 0), AuthorizationStatus::Authorized(_)));
    let mut bad = HeaderMap::new();
    bad.insert("Authorization".to_string(), format!("Bearer {}x", token));
    assert!(matches!(authenticate(&bad, KEY, 0), AuthorizationStatus::Unauthorized));
    let none = HeaderMap::new();
    assert!(matches!(authenticate(&none, KEY, 0), AuthorizationStatus::Malformed));
}

#[test]
fn issued_claims_carry_the_identity() {
    let user = User {
        username: "bob".to_string(),
        displayname: "Bob".to_string(),
        password: String::new(),
        email: "bob@example.com".to_string(),
        bio: String::new(),
        uid: "uid-1".to_string(),
        suid: "suid-1".to_string(),
        age: 20,
    };
    let token = User::create__JWT__token(user, KEY);
    let claims = User::decode__JWT__token(&token, KEY, 0).expect("fresh token decodes");
    assert_eq!(claims.username, "bob");
    assert_eq!(claims.uid, "uid-1");
    assert_eq!(claims.suid, "suid-1");
    assert!(claims.exp > 0);
}

#[test]
fn expiration_lies_a_month_ahead() {
    let e = get_expiration_time();
    // Thirty days from any plausible clock reading is past the epoch by
    // at least the window itself, and fits the token's numeric fields.
    assert!(e as u64 >= 2592000);
    assert!((e as u64) < 10_000_000_000_000_000_000);
}

#[test]
fn defaults_are_empty() {
    let u = User::default();
    assert_eq!(u.username, "");
    assert_eq!(u.email, "");
    assert_eq!(u.age, 0);
    let t = Tweet::default();
    assert_eq!(t.id, "");
    assert!(t.likes.is_empty());
    assert!(t.hashtags.is_empty());
    let c = Comment::default();
    assert_eq!(c.tweet, "");
    assert!(c.likes.is_empty());
}

#[test]
fn safe_user_drops_the_secrets() {
    let user = User {
        username: "alice".to_string(),
        displayname: "Alice".to_string(),
        password: "digest".to_string(),
        email: "alice@example.com".to_string(),
        bio: "bio".to_string(),
        uid: "internal".to_string(),
        suid: "public".to_string(),
        age: 30,
    };
    let safe = convert_user(user.clone());
    assert_eq!(safe.username, "alice");
    assert_eq!(safe.displayname, "Alice");
    assert_eq!(safe.suid, "public");
    assert_eq!(safe.age, 30);
    let safe2 = User::to_safe(user);
    assert_eq!(safe2.username, safe.username);
    assert_eq!(safe2.suid, safe.suid);
}
