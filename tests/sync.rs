use std::collections::BTreeMap;
use sync_s3::address::Bucket;
use sync_s3::listing::KeyListing;
use sync_s3::sync::{Args, Phase, SyncError, SyncRun};

type Store = BTreeMap<String, String>;

fn args(source: &str, destination: &str) -> Args {
    Args {
        source: source.to_string(),
        src_profile: "src".to_string(),
        destination: destination.to_string(),
        dest_profile: "dst".to_string(),
    }
}

fn list(store: &Store, bucket: &Bucket) -> Vec<String> {
    let prefix = bucket.path.clone().unwrap_or_default();
    let keys: Vec<String> = store.keys().filter(|k| k.starts_with(&prefix)).cloned().collect();
    let mut listing = KeyListing::new(bucket);
    while !listing.is_done() {
        let after = listing.start_after();
        let page: Vec<String> = keys
            .iter()
            .filter(|k| after.as_ref().map_or(true, |c| k.as_str() > c.as_str()))
            .take(2)
            .cloned()
            .collect();
        listing.record_page(page);
    }
    listing.keys().clone()
}

/// Runs one sync; `fail_on` names a relative key whose transfer fails.
fn sync(src: &Store, dst: &mut Store, a: &Args, fail_on: Option<&str>) -> (SyncRun, Vec<String>) {
    let mut run = SyncRun::new(a);
    run.clients_ready(true);
    let s = list(src, run.source());
    let d = list(dst, run.destination());
    run.listed(&s, &d);
    let mut attempted = Vec::new();
    while let Some(t) = run.start_transfer() {
        attempted.push(t.key.clone());
        if fail_on == Some(t.key.as_str()) {
            run.finish_transfer(false);
            continue;
        }
        let body = src[&t.get_key].clone();
        dst.insert(t.put_key.clone(), body);
        run.finish_transfer(true);
    }
    (run, attempted)
}

fn store(keys: &[&str]) -> Store {
    keys.iter().map(|k| (k.to_string(), format!("body of {}", k))).collect()
}

#[test]
fn second_sync_transfers_nothing() {
    let src = store(&["x/", "x/a", "x/b", "x/c/d"]);
    let mut dst = store(&["y/b", "y/z"]);
    let a = args("s3://s/x/", "s3://d/y");
    let (run, attempted) = sync(&src, &mut dst, &a, None);
    assert_eq!(run.phase(), Phase::Done);
    assert_eq!(run.transferred(), 2);
    assert_eq!(attempted, vec!["a".to_string(), "c/d".to_string()]);
    let keys: Vec<&str> = dst.keys().map(|k| k.as_str()).collect();
    assert_eq!(keys, vec!["y/a", "y/b", "y/c/d", "y/z"]);
    assert_eq!(dst["y/a"], "body of x/a");
    let (run2, attempted2) = sync(&src, &mut dst, &a, None);
    assert_eq!(run2.phase(), Phase::Done);
    assert_eq!(run2.transferred(), 0);
    assert!(attempted2.is_empty());
}

#[test]
fn failed_transfer_aborts_the_rest() {
    let src = store(&["k1", "k2", "k3", "k4", "k5"]);
    let mut dst = Store::new();
    let (run, attempted) = sync(&src, &mut dst, &args("src", "dst"), Some("k3"));
    assert_eq!(run.phase(), Phase::Failed);
    assert_eq!(attempted, vec!["k1", "k2", "k3"]);
    assert_eq!(run.transferred(), 2);
    assert!(!dst.contains_key("k4") && !dst.contains_key("k5"));
    match run.error() {
        Some(SyncError::Transfer { key }) => assert_eq!(key, "k3"),
        other => panic!("unexpected error {:?}", other),
    }
}

#[test]
fn client_failure_fails_the_run() {
    let mut run = SyncRun::new(&args("a", "b"));
    run.clients_ready(false);
    assert_eq!(run.phase(), Phase::Failed);
    assert!(matches!(run.error(), Some(SyncError::ClientInit)));
    let mut run2 = run;
    assert!(run2.start_transfer().is_none());
}

#[test]
fn listing_failure_fails_the_run() {
    let mut run = SyncRun::new(&args("a", "b"));
    run.clients_ready(true);
    assert_eq!(run.phase(), Phase::ClientsReady);
    run.listing_failed();
    assert_eq!(run.phase(), Phase::Failed);
    assert!(matches!(run.error(), Some(SyncError::Enumeration)));
}

#[test]
fn transfer_keys_carry_both_prefixes() {
    let mut run = SyncRun::new(&args("s3://s/in/", "s3://d"));
    assert_eq!(run.source().name, "s");
    assert_eq!(run.destination().path, None);
    run.clients_ready(true);
    run.listed(&vec!["f".to_string(), "".to_string()], &vec![]);
    let t = run.start_transfer().unwrap();
    assert_eq!((t.key.as_str(), t.get_key.as_str(), t.put_key.as_str()), ("f", "in/f", "f"));
    assert_eq!(run.phase(), Phase::Transferring);
    run.finish_transfer(true);
    assert!(run.start_transfer().is_none());
    assert_eq!(run.phase(), Phase::Done);
    assert!(run.error().is_none());
}
