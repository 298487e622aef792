use sync_s3::address::Bucket;

fn parse(s: &str) -> (String, Option<String>) {
    let b = Bucket::new(s);
    (b.name, b.path)
}

#[test]
fn parses_scheme_bucket_and_sub_path() {
    assert_eq!(parse("s3://b/x/y/"), ("b".to_string(), Some("x/y".to_string())));
}

#[test]
fn parses_bare_bucket() {
    assert_eq!(parse("b"), ("b".to_string(), None));
}

#[test]
fn bare_trailing_slash_gives_no_path() {
    assert_eq!(parse("b/"), ("b".to_string(), None));
    assert_eq!(parse("s3://b/"), ("b".to_string(), None));
}

#[test]
fn scheme_without_path() {
    assert_eq!(parse("s3://my-bucket"), ("my-bucket".to_string(), None));
}

#[test]
fn path_without_trailing_slash() {
    assert_eq!(
        parse("s3://my-bucket/some/sub/path"),
        ("my-bucket".to_string(), Some("some/sub/path".to_string()))
    );
}

#[test]
fn only_one_trailing_slash_is_dropped() {
    assert_eq!(parse("b/x//"), ("b".to_string(), Some("x/".to_string())));
}

#[test]
fn scheme_marker_only_stripped_at_front() {
    assert_eq!(parse("b/s3://x"), ("b".to_string(), Some("s3://x".to_string())));
}

#[test]
fn empty_input_gives_empty_name() {
    assert_eq!(parse(""), ("".to_string(), None));
}
