use raft::client::KeyValueStore;
use raft::kv_store::KvStore;

#[test]
fn test_kv_set_and_get() {
    let log_path = "test_kv_1.log";
    let snap_path = "test_kv_1.snap";
    let mut store = KvStore::new(log_path, snap_path);
    store.set("foo".to_string(), "bar".to_string());
    assert_eq!(store.get("foo"), Some("bar".to_string()));
}

#[test]
fn test_kv_overwrite() {
    let log_path = "test_kv_2.log";
    let snap_path = "test_kv_2.snap";
    let mut store = KvStore::new(log_path, snap_path);
    store.set("foo".to_string(), "bar".to_string());
    store.set("foo".to_string(), "baz".to_string());
    assert_eq!(store.get("foo"), Some("baz".to_string()));
}

#[test]
fn kv_store_paths_are_kept() {
    let store = KvStore::new("a.log", "a.snap");
    assert_eq!(store.log_path(), "a.log");
    assert_eq!(store.snapshot_path(), "a.snap");
}

#[test]
fn kv_store_replays_records_last_write_wins() {
    let mut store = KvStore::new("a.log", "a.snap");
    let records = vec![
        ("k".to_string(), "1".to_string()),
        ("j".to_string(), "2".to_string()),
        ("k".to_string(), "3".to_string()),
    ];
    store.load_records(&records);
    assert_eq!(store.get("k"), Some("3".to_string()));
    assert_eq!(store.get("j"), Some("2".to_string()));
}

#[test]
fn kv_store_snapshot_lists_each_entry_once() {
    let mut store = KvStore::new("a.log", "a.snap");
    store.set("k".to_string(), "1".to_string());
    store.set("j".to_string(), "2".to_string());
    store.set("k".to_string(), "3".to_string());
    let mut entries = store.snapshot_entries();
    entries.sort();
    assert_eq!(
        entries,
        vec![("j".to_string(), "2".to_string()), ("k".to_string(), "3".to_string())]
    );
    let mut restored = KvStore::new("a.log", "a.snap");
    restored.load_records(&entries);
    assert_eq!(restored.get("k"), Some("3".to_string()));
    assert_eq!(restored.get("j"), Some("2".to_string()));
}

#[test]
fn client_store_set_get_and_snapshot() {
    let mut store = KeyValueStore::new("c.log", "c.snap");
    assert_eq!(store.set("a".to_string(), "1".to_string()), "a:1");
    store.set("b".to_string(), "2".to_string());
    store.set("a".to_string(), "9".to_string());
    assert_eq!(store.get("a"), Some("9".to_string()));
    let mut lines = store.snapshot_lines();
    lines.sort();
    assert_eq!(lines, vec!["a:9".to_string(), "b:2".to_string()]);
    let mut restored = KeyValueStore::new("c.log", "c.snap");
    restored.load_lines(&Vec::new());
    restored.load_lines(&lines);
    assert_eq!(restored.get("a"), Some("9".to_string()));
    assert_eq!(restored.get("b"), Some("2".to_string()));
    assert_eq!(restored.snapshot_path(), "c.snap");
    assert_eq!(restored.log_path(), "c.log");
}

#[test]
fn client_snapshot_overrides_log_on_load() {
    let mut store = KeyValueStore::new("c.log", "c.snap");
    store.load_lines(&vec!["a:from-log".to_string(), "b:only-log".to_string()]);
    store.load_lines(&vec!["a:from-snapshot".to_string()]);
    assert_eq!(store.get("a"), Some("from-snapshot".to_string()));
    assert_eq!(store.get("b"), Some("only-log".to_string()));
}

#[test]
fn kv_store_loads_snapshot_then_log_skipping_corrupt_records() {
    let mut store = KvStore::new("a.log", "a.snap");
    store.load_log_records(&vec![Some(("k".to_string(), "snap".to_string())), Some(("j".to_string(), "1".to_string()))]);
    store.load_log_records(&vec![None, Some(("k".to_string(), "log".to_string())), None]);
    assert_eq!(store.get("k"), Some("log".to_string()));
    assert_eq!(store.get("j"), Some("1".to_string()));
}
