use tweetbook::headers::{get_required_headers, validate, HeaderMap};

fn map_of(pairs: &[(&str, &str)]) -> HeaderMap {
    let mut m = HeaderMap::new();
    for (k, v) in pairs {
        m.insert(k.to_string(), v.to_string());
    }
    m
}

#[test]
fn required_headers_table() {
    assert_eq!(
        get_required_headers("create_account").unwrap(),
        vec!["username", "display_name", "password", "email", "bio", "age"]
    );
    assert_eq!(get_required_headers("login").unwrap(), vec!["email", "password"]);
    assert_eq!(get_required_headers("auth_test").unwrap(), vec!["Authorization"]);
    assert_eq!(get_required_headers("tweet").unwrap(), vec!["Authorization", "content"]);
    assert_eq!(get_required_headers("like").unwrap(), vec!["Authorization", "tweet"]);
}

#[test]
fn unknown_operations_have_no_contract() {
    assert!(get_required_headers("").is_none());
    assert!(get_required_headers("feed").is_none());
    assert!(get_required_headers("create-account").is_none());
    assert!(get_required_headers("LOGIN").is_none());
}

#[test]
fn validation_needs_every_required_field() {
    let all = [
        ("username", "alice"),
        ("display_name", "Alice"),
        ("password", "pw"),
        ("email", "alice@example.com"),
        ("bio", ""),
        ("age", "30"),
    ];
    assert!(validate("create_account", &map_of(&all)));
    // Leaving any one required field out must fail validation.
    for skip in 0..all.len() {
        let mut rest: Vec<(&str, &str)> = Vec::new();
        for (i, p) in all.iter().enumerate() {
            if i != skip {
                rest.push(*p);
            }
        }
        assert!(
            !validate("create_account", &map_of(&rest)),
            "missing {:?} must be rejected",
            all[skip].0
        );
    }
}

#[test]
fn validation_checks_presence_not_content() {
    let m = map_of(&[("email", ""), ("password", "")]);
    assert!(validate("login", &m));
}

#[test]
fn unknown_operation_fails_validation() {
    let m = map_of(&[("anything", "x")]);
    assert!(!validate("no_such_operation", &m));
}

#[test]
fn lookup_finds_latest_value() {
    let mut m = HeaderMap::new();
    m.insert("k".to_string(), "one".to_string());
    m.insert("other".to_string(), "x".to_string());
    m.insert("k".to_string(), "two".to_string());
    assert_eq!(m.get("k").unwrap(), "two");
    assert_eq!(m.get("other").unwrap(), "x");
    assert!(m.get("missing").is_none());
    assert!(m.contains_key("k"));
    assert!(!m.contains_key("K"));
}
