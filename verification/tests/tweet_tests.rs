use tweetbook::tweet::{
    decode_content, extract_hashtags, parse_units, rank_feed, toggle_membership, LikeAction,
    Tweet,
};

fn post(id: &str, like_count: usize) -> Tweet {
    let mut t = Tweet::default();
    t.id = id.to_string();
    for i in 0..like_count {
        t.likes.push(format!("user{}", i));
    }
    t
}

#[test]
fn toggle_is_a_strict_flip() {
    let mut likes: Vec<String> = Vec::new();
    assert_eq!(toggle_membership(&mut likes, "alice"), LikeAction::Added);
    assert_eq!(likes, vec!["alice"]);
    assert_eq!(toggle_membership(&mut likes, "alice"), LikeAction::Removed);
    assert!(likes.is_empty());
    assert_eq!(toggle_membership(&mut likes, "alice"), LikeAction::Added);
    assert_eq!(likes, vec!["alice"]);
}

#[test]
fn toggle_never_duplicates() {
    let mut likes: Vec<String> = Vec::new();
    for _ in 0..5 {
        toggle_membership(&mut likes, "alice");
        assert!(likes.iter().filter(|l| l.as_str() == "alice").count() <= 1);
    }
}

#[test]
fn togglers_with_distinct_identities_all_land() {
    let mut likes: Vec<String> = Vec::new();
    let n = 6;
    for i in 0..n {
        let user = format!("user{}", i);
        assert_eq!(toggle_membership(&mut likes, &user), LikeAction::Added);
    }
    assert_eq!(likes.len(), n);
    for i in 0..n {
        assert!(likes.contains(&format!("user{}", i)));
    }
}

#[test]
fn toggle_leaves_others_alone() {
    let mut likes: Vec<String> = vec!["a".to_string(), "b".to_string(), "c".to_string()];
    assert_eq!(toggle_membership(&mut likes, "b"), LikeAction::Removed);
    assert!(likes.contains(&"a".to_string()));
    assert!(likes.contains(&"c".to_string()));
    assert!(!likes.contains(&"b".to_string()));
    assert_eq!(likes.len(), 2);
}

#[test]
fn content_units_parse_leniently() {
    assert_eq!(parse_units("72,105"), vec![72u16, 105u16]);
    assert_eq!(parse_units("72,not-a-number,33"), vec![72u16, 0u16, 33u16]);
    assert_eq!(parse_units("99999,5"), vec![0u16, 5u16]);
    assert_eq!(parse_units("+65"), vec![65u16]);
    assert_eq!(parse_units(""), vec![0u16]);
    assert_eq!(parse_units("7,"), vec![7u16, 0u16]);
}

#[test]
fn content_decodes_from_utf16_units() {
    assert_eq!(decode_content("72,105"), "Hi");
    assert_eq!(decode_content("104,101,106,32,33"), "hej !");
    // A lone high surrogate is not valid UTF-16: the text comes out empty.
    assert_eq!(decode_content("55296"), "");
}

#[test]
fn hashtags_are_derived_from_text() {
    let tags = extract_hashtags("hello #world, this is #rust_lang #2024");
    assert_eq!(tags, vec!["world", "rust_lang", "2024"]);
}

#[test]
fn hashtag_edge_cases() {
    assert_eq!(extract_hashtags(""), Vec::<String>::new());
    assert_eq!(extract_hashtags("#"), Vec::<String>::new());
    assert_eq!(extract_hashtags("# spaced"), Vec::<String>::new());
    assert_eq!(extract_hashtags("##double"), vec!["double"]);
    assert_eq!(extract_hashtags("#a#b"), vec!["a", "b"]);
    assert_eq!(extract_hashtags("tail#x"), vec!["x"]);
    assert_eq!(extract_hashtags("#end."), vec!["end"]);
}

#[test]
fn feed_ranks_by_like_count() {
    let tweets = vec![post("low", 1), post("high", 5), post("none", 0), post("mid", 3)];
    let ranked = rank_feed(tweets);
    let ids: Vec<&str> = ranked.iter().map(|t| t.id.as_str()).collect();
    assert_eq!(ids, vec!["high", "mid", "low", "none"]);
}

#[test]
fn feed_keeps_every_post() {
    let tweets = vec![post("a", 2), post("b", 2), post("c", 2)];
    let ranked = rank_feed(tweets);
    assert_eq!(ranked.len(), 3);
    let mut ids: Vec<&str> = ranked.iter().map(|t| t.id.as_str()).collect();
    ids.sort();
    assert_eq!(ids, vec!["a", "b", "c"]);
}
