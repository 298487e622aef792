use sync_s3::diff::{contains_key, get_missing_keys};

fn keys(v: &[&str]) -> Vec<String> {
    v.iter().map(|k| k.to_string()).collect()
}

#[test]
fn missing_keys_keep_source_order() {
    let s = keys(&["a", "b", "c", "d"]);
    let d = keys(&["c", "a"]);
    assert_eq!(get_missing_keys(&s, &d), keys(&["b", "d"]));
}

#[test]
fn empty_source_gives_nothing() {
    assert_eq!(get_missing_keys(&keys(&[]), &keys(&["a"])), keys(&[]));
}

#[test]
fn subset_gives_nothing() {
    let s = keys(&["a", "b"]);
    let d = keys(&["b", "a", "z"]);
    assert_eq!(get_missing_keys(&s, &d), keys(&[]));
}

#[test]
fn empty_marker_key_is_left_out() {
    let s = keys(&["", "a", ""]);
    assert_eq!(get_missing_keys(&s, &keys(&[])), keys(&["a"]));
}

#[test]
fn empty_destination_copies_everything() {
    let s = keys(&["x/1", "x/2"]);
    assert_eq!(get_missing_keys(&s, &keys(&[])), s);
}

#[test]
fn membership_is_exact() {
    let s = keys(&["a", "A", "a/"]);
    let d = keys(&["a"]);
    assert_eq!(get_missing_keys(&s, &d), keys(&["A", "a/"]));
}

#[test]
fn contains_key_finds_exact_match() {
    let d = keys(&["a", "b"]);
    assert!(contains_key(&d, &"b".to_string()));
    assert!(!contains_key(&d, &"c".to_string()));
    assert!(!contains_key(&keys(&[]), &"a".to_string()));
}
