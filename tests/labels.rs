use vec2check::labels::{default_label, label_from_digest, LabelSet};

fn labels(pairs: &[(&str, &str)]) -> LabelSet {
    let mut set = LabelSet::new();
    for (k, v) in pairs {
        set.insert(k.to_string(), v.to_string());
    }
    set
}

#[test]
fn default_label_ignores_insertion_order() {
    let a = labels(&[("some_label", "some_value"), ("another_label", "another_value")]);
    let b = labels(&[("another_label", "another_value"), ("some_label", "some_value")]);
    assert_eq!(a, b);
    assert_eq!(default_label("foobar", &a), default_label("foobar", &b));
    assert_eq!(default_label("foobar", &a), "foobar/eaa8c4");
}

#[test]
fn label_set_keeps_keys_sorted_and_unique() {
    let mut set = labels(&[("b", "2"), ("a", "1"), ("ab", "3")]);
    set.insert("a".to_string(), "9".to_string());
    assert_eq!(set.len(), 3);
    assert_eq!(set.pair(0), &("a".to_string(), "9".to_string()));
    assert_eq!(set.pair(1), &("ab".to_string(), "3".to_string()));
    assert_eq!(set.pair(2), &("b".to_string(), "2".to_string()));
    assert_eq!(set.get("ab"), Some(&"3".to_string()));
    assert_eq!(set.get("c"), None);
    assert_eq!(set.digest_input_string(), "a9ab3b2");
}

#[test]
fn unix_timestamp_is_after_the_epoch() {
    let now = vec2check::timestamp::get_unix_timestamp().unwrap();
    assert!(now > 1_500_000_000);
}

#[test]
fn label_from_digest_keeps_six_characters() {
    assert_eq!(label_from_digest("m", "0123456789abcdef"), "m/012345");
    assert_eq!(label_from_digest("m", "abc"), "m/abc");
}

#[test]
fn default_label_uses_the_digest() {
    let set = labels(&[("k", "v")]);
    let label = default_label("name", &set);
    assert_eq!(label.len(), "name/".len() + 6);
    assert_ne!(label, "name/kv");
}
