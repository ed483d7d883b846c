use tweetbook::user::check_email;

#[test]
fn plain_addresses_are_valid() {
    assert!(check_email("a@b.com"));
    assert!(check_email("alice@example.com"));
    assert!(check_email("a@b"));
    assert!(check_email("user.name+tag@sub.example-domain.org"));
    assert!(check_email("x!#$%&'*+/=?^_`{|}~-@host0.a1"));
}

#[test]
fn missing_parts_are_invalid() {
    assert!(!check_email(""));
    assert!(!check_email("plainaddress"));
    assert!(!check_email("@example.com"));
    assert!(!check_email("user@"));
    assert!(!check_email("user"));
}

#[test]
fn bad_domains_are_invalid() {
    assert!(!check_email("a@b..com"));
    assert!(!check_email("a@.b.com"));
    assert!(!check_email("a@b.com."));
    assert!(!check_email("a@-b.com"));
    assert!(!check_email("a@b-.com"));
    assert!(!check_email("a@b.c_d"));
    assert!(!check_email("a@b c.com"));
}

#[test]
fn bad_local_parts_are_invalid() {
    assert!(!check_email("a b@c.com"));
    assert!(!check_email("a(b)@c.com"));
    assert!(!check_email("a,b@c.com"));
    assert!(!check_email("a@b@c.com"));
}

#[test]
fn long_labels_are_bounded() {
    let label63 = "a".repeat(63);
    let label64 = "a".repeat(64);
    assert!(check_email(&format!("u@{}.com", label63)));
    assert!(!check_email(&format!("u@{}.com", label64)));
}
