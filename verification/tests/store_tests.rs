use raft::store::KvStore;

#[test]
fn test_set_and_get() {
    let mut store = KvStore::new("test_kv.log");
    store.set("foo".to_string(), "bar".to_string());
    assert_eq!(store.get("foo"), Some("bar".to_string()));
}

#[test]
fn test_overwrite() {
    let mut store = KvStore::new("test_kv.log");
    store.set("foo".to_string(), "bar".to_string());
    store.set("foo".to_string(), "baz".to_string());
    assert_eq!(store.get("foo"), Some("baz".to_string()));
}

#[test]
fn store_set_returns_log_line() {
    let mut store = KvStore::new("test_kv.log");
    let line = store.set("foo".to_string(), "bar".to_string());
    assert_eq!(line, "foo:bar");
    assert_eq!(store.log_path(), "test_kv.log");
}

#[test]
fn store_missing_key_reads_none() {
    let mut store = KvStore::new("test_kv.log");
    store.set("a".to_string(), "1".to_string());
    assert_eq!(store.get("b"), None);
}

#[test]
fn store_replays_log_lines_in_order() {
    let mut store = KvStore::new("test_kv.log");
    let lines = vec![
        "a:1".to_string(),
        "garbage".to_string(),
        "b:2".to_string(),
        "a:3".to_string(),
        "c:x:y".to_string(),
        ":empty".to_string(),
    ];
    store.load_lines(&lines);
    assert_eq!(store.get("a"), Some("3".to_string()));
    assert_eq!(store.get("b"), Some("2".to_string()));
    assert_eq!(store.get("c"), Some("x:y".to_string()));
    assert_eq!(store.get(""), Some("empty".to_string()));
    assert_eq!(store.get("garbage"), None);
}

#[test]
fn store_recovers_from_its_own_log() {
    let mut store = KvStore::new("test_kv.log");
    let mut log = Vec::new();
    log.push(store.set("x".to_string(), "1".to_string()));
    log.push(store.set("y".to_string(), "two words".to_string()));
    log.push(store.set("x".to_string(), "3".to_string()));
    let mut recovered = KvStore::new("test_kv.log");
    recovered.load_lines(&log);
    for k in ["x", "y", "z"] {
        assert_eq!(recovered.get(k), store.get(k));
    }
}
