use tweetbook::hashing::hash;

#[test]
fn hash_is_deterministic() {
    let a = hash("password1");
    let b = hash("password1");
    assert_eq!(a, b);
    let c = hash(&String::from("password1"));
    assert_eq!(a, c);
}

#[test]
fn distinct_inputs_hash_differently() {
    assert_ne!(hash("password1"), hash("password2"));
    assert_ne!(hash(""), hash(" "));
    assert_ne!(hash("abc"), hash("abd"));
}

#[test]
fn digest_is_fixed_length_lowercase_hex() {
    for input in ["", "a", "password1", "a rather longer input with spaces and \u{00e9} accents"] {
        let d = hash(input);
        assert_eq!(d.len(), 64, "digest of {:?} has the fixed length", input);
        assert!(d.chars().all(|c| c.is_ascii_hexdigit() && !c.is_ascii_uppercase()));
    }
}

#[test]
fn digest_is_not_the_input() {
    let d = hash("abcdefghijklmnopqrstuvwxyzabcdefghijklmnopqrstuvwxyzabcdefghijkl");
    assert_ne!(d.as_str(), "abcdefghijklmnopqrstuvwxyzabcdefghijklmnopqrstuvwxyzabcdefghijkl");
}
