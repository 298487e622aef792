use sync_s3::address::Bucket;
use sync_s3::listing::{relative_key_of, CursorMode, KeyListing};

/// Pages of at most `k` keys strictly after `start_after`, from sorted `keys`.
fn page(keys: &[String], start_after: &Option<String>, k: usize) -> Vec<String> {
    keys.iter()
        .filter(|key| match start_after {
            Some(c) => key.as_str() > c.as_str(),
            None => true,
        })
        .take(k)
        .cloned()
        .collect()
}

fn list(listing: &mut KeyListing, keys: &[String], k: usize) -> usize {
    let mut requests = 0;
    while !listing.is_done() {
        let p = page(keys, &listing.start_after(), k);
        listing.record_page(p);
        requests += 1;
        assert!(requests < 1000);
    }
    requests
}

fn store(prefix: &str, n: usize) -> Vec<String> {
    let mut v: Vec<String> = (0..n).map(|i| format!("{}k{:03}", prefix, i)).collect();
    v.sort();
    v
}

#[test]
fn pages_until_an_empty_page() {
    for (n, k) in [(0usize, 3usize), (1, 3), (3, 3), (7, 3), (9, 3), (10, 1), (5, 10)] {
        let keys = store("", n);
        let mut listing = KeyListing::new(&Bucket::new("s3://b"));
        let requests = list(&mut listing, &keys, k);
        assert_eq!(requests, (n + k - 1) / k + 1, "n={} k={}", n, k);
        assert_eq!(listing.keys(), &keys);
    }
}

#[test]
fn keys_are_made_relative_to_the_sub_path() {
    let keys = store("x/y/", 7);
    let mut listing = KeyListing::new(&Bucket::new("s3://b/x/y/"));
    let requests = list(&mut listing, &keys, 2);
    assert_eq!(requests, 5);
    let expected: Vec<String> = (0..7).map(|i| format!("k{:03}", i)).collect();
    assert_eq!(listing.keys(), &expected);
}

#[test]
fn empty_bucket_takes_one_request() {
    let mut listing = KeyListing::new(&Bucket::new("b/p"));
    assert_eq!(listing.start_after(), None);
    let requests = list(&mut listing, &[], 5);
    assert_eq!(requests, 1);
    assert!(listing.keys().is_empty());
}

#[test]
fn cursor_follows_last_store_key() {
    let mut listing = KeyListing::new(&Bucket::new("b/p"));
    listing.record_page(vec!["p/a".to_string(), "p/b".to_string()]);
    assert!(!listing.is_done());
    assert_eq!(listing.start_after(), Some("p/b".to_string()));
    listing.record_page(vec![]);
    assert!(listing.is_done());
}

#[test]
fn relative_cursor_mode_follows_last_relative_key() {
    let mut listing = KeyListing::with_mode(&Bucket::new("b/p"), CursorMode::RelativeKey);
    listing.record_page(vec!["p/a".to_string(), "p/b".to_string()]);
    assert_eq!(listing.start_after(), Some("b".to_string()));
    listing.record_page(vec![]);
    assert!(listing.is_done());
    assert_eq!(listing.keys(), &vec!["a".to_string(), "b".to_string()]);
}

#[test]
fn directory_marker_becomes_empty_key() {
    let mut listing = KeyListing::new(&Bucket::new("b/p/"));
    listing.record_page(vec!["p/".to_string(), "p/a".to_string()]);
    assert_eq!(listing.keys(), &vec!["".to_string(), "a".to_string()]);
}

#[test]
fn relative_key_strips_prefix_and_one_slash() {
    assert_eq!(relative_key_of("x/y/a/b", &Some("x/y".to_string())), "a/b");
    assert_eq!(relative_key_of("x/y", &Some("x/y".to_string())), "");
    assert_eq!(relative_key_of("a/b", &None), "a/b");
    assert_eq!(relative_key_of("/a", &None), "a");
    assert_eq!(relative_key_of("x", &Some("x/y".to_string())), "");
}
