use kvstore::config::{init, reset};
use kvstore::ops::{get, get_all, open_bucket, open_store, remove, transaction};
use kvstore::ops::set as set_record;
use kvstore::record::{Filter, Record, Types};
use kvstore::{Bucket, KvError, StorageConfig};

fn fresh_path(label: &str) -> String {
    let nanos = std::time::SystemTime::now()
        .duration_since(std::time::UNIX_EPOCH)
        .expect("clock before epoch")
        .as_nanos();
    format!("/tmp/kvstore_tests/{}_{}", label, nanos)
}

fn open_fresh_store(label: &str) -> kv::Store {
    let mut config = StorageConfig::new();
    init(&mut config, Some(fresh_path(label)));
    open_store(&config).expect("opening a fresh store must succeed")
}

fn open_fresh_bucket(label: &str, bucket: &str) -> Bucket {
    let store = open_fresh_store(label);
    open_bucket(&store, bucket).expect("opening a bucket must succeed")
}

fn record(name: &str, values: Vec<Types>) -> Record {
    Record { name: name.to_string(), values }
}

#[test]
fn get_missing_key_is_empty_not_error() {
    let bucket = open_fresh_bucket("missing", "B");
    let r = get(&bucket, "missing-key").expect("a healthy bucket must not fail");
    assert!(r.is_none());
}

#[test]
fn set_then_get_returns_the_record() {
    let mut bucket = open_fresh_bucket("set_get", "B");
    let rec = record("models", vec![Types::String("Sony".to_string()), Types::I32(-7)]);
    set_record(&mut bucket, "tvs", rec.clone()).expect("set must succeed");
    let got = get(&bucket, "tvs").expect("get must succeed").expect("key must be present");
    assert_eq!(got.key, "tvs");
    assert_eq!(got.record, rec);
}

#[test]
fn set_overwrites_existing_entry() {
    let mut bucket = open_fresh_bucket("overwrite", "B");
    set_record(&mut bucket, "k", record("first", vec![Types::U16(1)])).expect("set must succeed");
    set_record(&mut bucket, "k", record("second", vec![Types::U16(2)])).expect("set must succeed");
    let got = get(&bucket, "k").expect("get must succeed").expect("key must be present");
    assert_eq!(got.record, record("second", vec![Types::U16(2)]));
}

#[test]
fn remove_is_idempotent() {
    let mut bucket = open_fresh_bucket("remove_twice", "B");
    set_record(&mut bucket, "k", record("x", vec![Types::Bool(true)])).expect("set must succeed");
    remove(&mut bucket, "k").expect("first remove must succeed");
    remove(&mut bucket, "k").expect("second remove must succeed");
    assert!(get(&bucket, "k").expect("get must succeed").is_none());
}

#[test]
fn remove_absent_key_is_a_no_op_success() {
    let mut bucket = open_fresh_bucket("remove_absent", "B");
    remove(&mut bucket, "never-set").expect("removing an absent key must succeed");
}

#[test]
fn transaction_makes_all_writes_visible() {
    let mut bucket = open_fresh_bucket("txn", "B");
    let a = record("ra", vec![Types::I16(1)]);
    let b = record("rb", vec![Types::I16(2)]);
    let c = record("rc", vec![Types::I16(3)]);
    let ts = vec![
        ("a".to_string(), a.clone()),
        ("b".to_string(), b.clone()),
        ("c".to_string(), c.clone()),
    ];
    transaction(&mut bucket, &ts).expect("transaction must succeed");
    assert_eq!(get(&bucket, "a").unwrap().unwrap().record, a);
    assert_eq!(get(&bucket, "b").unwrap().unwrap().record, b);
    assert_eq!(get(&bucket, "c").unwrap().unwrap().record, c);
}

#[test]
fn transaction_last_write_of_a_key_wins() {
    let mut bucket = open_fresh_bucket("txn_dup", "B");
    let ts = vec![
        ("k".to_string(), record("first", vec![])),
        ("k".to_string(), record("last", vec![])),
    ];
    transaction(&mut bucket, &ts).expect("transaction must succeed");
    assert_eq!(get(&bucket, "k").unwrap().unwrap().record, record("last", vec![]));
}

#[test]
fn filter_conjunction_selects_exactly_the_matching_entry() {
    let mut bucket = open_fresh_bucket("filter", "B");
    let tvs = record("models", vec![Types::String("Sony".to_string())]);
    let radios = record("old-models", vec![Types::String("Hitachi".to_string())]);
    set_record(&mut bucket, "electronics-tvs", tvs).expect("set must succeed");
    set_record(&mut bucket, "electronics-radios", radios.clone()).expect("set must succeed");
    let filter = Filter { key: Some("electronics*".to_string()), name: Some("old*".to_string()) };
    let all = get_all(&bucket, Some(&filter)).expect("scan must succeed");
    assert_eq!(all.len(), 1);
    assert_eq!(all[0].key, "electronics-radios");
    assert_eq!(all[0].record, radios);
}

#[test]
fn filter_on_key_alone() {
    let mut bucket = open_fresh_bucket("filter_key", "B");
    set_record(&mut bucket, "electronics-tvs", record("models", vec![])).unwrap();
    set_record(&mut bucket, "vehicles", record("models", vec![])).unwrap();
    let filter = Filter { key: Some("electronics*".to_string()), name: None };
    let all = get_all(&bucket, Some(&filter)).expect("scan must succeed");
    assert_eq!(all.len(), 1);
    assert_eq!(all[0].key, "electronics-tvs");
}

#[test]
fn filter_on_name_alone() {
    let mut bucket = open_fresh_bucket("filter_name", "B");
    set_record(&mut bucket, "k1", record("old-models", vec![])).unwrap();
    set_record(&mut bucket, "k2", record("models", vec![])).unwrap();
    let filter = Filter { key: None, name: Some("old*".to_string()) };
    let all = get_all(&bucket, Some(&filter)).expect("scan must succeed");
    assert_eq!(all.len(), 1);
    assert_eq!(all[0].key, "k1");
}

#[test]
fn filter_can_exclude_everything() {
    let mut bucket = open_fresh_bucket("filter_none_match", "B");
    set_record(&mut bucket, "k1", record("models", vec![])).unwrap();
    let filter = Filter { key: Some("nothing*".to_string()), name: None };
    let all = get_all(&bucket, Some(&filter)).expect("scan must succeed");
    assert!(all.is_empty());
}

#[test]
fn scan_returns_entries_in_key_order() {
    let mut bucket = open_fresh_bucket("order", "B");
    set_record(&mut bucket, "b", record("2", vec![])).unwrap();
    set_record(&mut bucket, "a", record("1", vec![])).unwrap();
    set_record(&mut bucket, "c", record("3", vec![])).unwrap();
    let all = get_all(&bucket, None).expect("scan must succeed");
    let keys: Vec<&str> = all.iter().map(|e| e.key.as_str()).collect();
    assert_eq!(keys, vec!["a", "b", "c"]);
}

#[test]
fn bucket_isolation() {
    let store = open_fresh_store("isolation");
    let mut bucket_a = open_bucket(&store, "A").expect("bucket A must open");
    let bucket_b = open_bucket(&store, "B").expect("bucket B must open");
    set_record(&mut bucket_a, "k", record("x", vec![Types::U64(1)])).expect("set must succeed");
    assert!(get(&bucket_b, "k").expect("get must succeed").is_none());
    assert!(get(&bucket_a, "k").expect("get must succeed").is_some());
}

#[test]
fn full_scenario_set_get_scan_remove() {
    let mut config = StorageConfig::new();
    init(&mut config, Some(fresh_path("scenario")));
    let store = open_store(&config).expect("store must open");
    let mut bucket = open_bucket(&store, "B1").expect("bucket must open");
    let rec = record("x", vec![Types::String("a".to_string()), Types::I32(7)]);
    set_record(&mut bucket, "k1", rec.clone()).expect("set must succeed");
    let got = get(&bucket, "k1").expect("get must succeed").expect("key must be present");
    assert_eq!(got.record, rec);
    let all = get_all(&bucket, None).expect("scan must succeed");
    assert_eq!(all.len(), 1);
    assert_eq!(all[0].key, "k1");
    assert_eq!(all[0].record, rec);
    remove(&mut bucket, "k1").expect("remove must succeed");
    assert!(get(&bucket, "k1").expect("get must succeed").is_none());
}

#[test]
fn reset_missing_path_is_path_not_found() {
    let missing = fresh_path("never_created");
    let r = reset(Some(missing.as_str()), false);
    assert_eq!(r, Err(KvError::PathNotFound));
    // Another active location is untouched by the refused reset.
    let mut bucket = open_fresh_bucket("reset_other", "B");
    set_record(&mut bucket, "k", record("x", vec![])).expect("set must succeed");
    assert!(get(&bucket, "k").expect("get must succeed").is_some());
}

#[test]
fn reset_existing_path_is_allowed() {
    assert_eq!(reset(Some("/tmp"), true), Ok(()));
    assert_eq!(reset(None, false), Ok(()));
}

#[test]
fn open_store_unconfigured_fails() {
    let config = StorageConfig::new();
    assert!(!config.is_configured());
    match open_store(&config) {
        Err(KvError::StorageNotConfigured) => {},
        other => panic!("expected StorageNotConfigured, got {:?}", other.is_ok()),
    }
}

#[test]
fn init_repoints_the_active_location() {
    let mut config = StorageConfig::new();
    init(&mut config, Some(fresh_path("repoint_one")));
    let store1 = open_store(&config).expect("first location must open");
    let mut b1 = open_bucket(&store1, "B").expect("bucket must open");
    set_record(&mut b1, "k", record("x", vec![])).expect("set must succeed");
    init(&mut config, Some(fresh_path("repoint_two")));
    let store2 = open_store(&config).expect("second location must open");
    let b2 = open_bucket(&store2, "B").expect("bucket must open");
    assert!(get(&b2, "k").expect("get must succeed").is_none());
    // A call without a path keeps the configured location.
    init(&mut config, None);
    assert!(config.is_configured());
}
