//! Tests for the store facade and the replay engine: the round-trip,
//! overwrite, removal, replay and reopen guarantees on concrete data.
use kvs::index::Index;
use kvs::replay::replay;
use kvs::shell;
use kvs::store::KvStore;
use kvs::KvError;

fn s(t: &str) -> String {
    t.to_string()
}

#[test]
fn set_then_get_round_trip() {
    let mut store = KvStore::new();
    store.set(s("key1"), s("value1")).unwrap();
    assert_eq!(store.get(s("key1")).unwrap(), Some(s("value1")));
}

#[test]
fn overwrite_last_write_wins() {
    let mut store = KvStore::new();
    store.set(s("k"), s("v1")).unwrap();
    store.set(s("k"), s("v2")).unwrap();
    assert_eq!(store.get(s("k")).unwrap(), Some(s("v2")));
}

#[test]
fn set_remove_get_returns_none() {
    let mut store = KvStore::new();
    store.set(s("k"), s("v")).unwrap();
    store.remove(s("k")).unwrap();
    assert_eq!(store.get(s("k")).unwrap(), None);
}

#[test]
fn remove_missing_key_fails() {
    let mut store = KvStore::new();
    assert!(matches!(store.remove(s("never")), Err(KvError::KeyNotFound)));
    let mut other = KvStore::new();
    other.set(s("a"), s("1")).unwrap();
    assert!(matches!(other.remove(s("b")), Err(KvError::KeyNotFound)));
}

#[test]
fn replay_twice_gives_same_index() {
    let mut store = KvStore::new();
    store.set(s("a"), s("1")).unwrap();
    store.set(s("b"), s("2")).unwrap();
    store.set(s("a"), s("3")).unwrap();
    store.remove(s("b")).unwrap();
    let lines = store.lines().clone();
    let first: Index = replay(&lines).unwrap();
    let second: Index = replay(&lines).unwrap();
    for key in ["a", "b", "c"] {
        assert_eq!(first.lookup(&s(key)), second.lookup(&s(key)));
    }
    assert!(first.lookup(&s("a")).is_some());
    assert_eq!(first.lookup(&s("b")), None);
}

#[test]
fn reopen_preserves_values() {
    let mut store = KvStore::new();
    store.set(s("k"), s("v")).unwrap();
    let lines = store.lines().clone();
    drop(store);
    let mut fresh = KvStore::open(lines);
    assert_eq!(fresh.get(s("k")).unwrap(), Some(s("v")));
}

#[test]
fn empty_directory_scenario() {
    // An empty directory: the caller finds no lines on disk.
    let mut store = KvStore::open(Vec::new());
    store.set(s("a"), s("1")).unwrap();
    store.set(s("b"), s("2")).unwrap();
    store.remove(s("a")).unwrap();
    assert_eq!(store.get(s("a")).unwrap(), None);
    assert_eq!(store.get(s("b")).unwrap(), Some(s("2")));
    let lines = store.lines().clone();
    let mut reopened = KvStore::open(lines);
    assert_eq!(reopened.get(s("b")).unwrap(), Some(s("2")));
    assert_eq!(reopened.get(s("a")).unwrap(), None);
}

#[test]
fn keys_and_values_with_special_characters_survive() {
    let mut store = KvStore::new();
    store.set(s("ta\tb"), s("v\\1\n2")).unwrap();
    store.set(s("plain"), s("x")).unwrap();
    assert_eq!(store.get(s("ta\tb")).unwrap(), Some(s("v\\1\n2")));
    let lines = store.lines().clone();
    let mut fresh = KvStore::open(lines);
    assert_eq!(fresh.get(s("ta\tb")).unwrap(), Some(s("v\\1\n2")));
}

#[test]
fn corrupt_line_fails_reads_but_not_the_process() {
    let mut store = KvStore::open(vec![s("set\ta\t1"), s("garbage line")]);
    assert!(matches!(store.get(s("a")), Err(KvError::CorruptRecord)));
    assert!(matches!(store.remove(s("a")), Err(KvError::CorruptRecord)));
}

#[test]
fn corrupt_line_does_not_stop_set() {
    // `set` never replays, so it still appends past a corrupt line.
    let mut store = KvStore::open(vec![s("broken\\")]);
    assert!(store.set(s("a"), s("1")).is_ok());
    assert_eq!(store.lines().len(), 2);
}

#[test]
fn shell_set_and_get_print_value() {
    let mut store = KvStore::new();
    shell::set(&mut store, s("k"), s("v")).unwrap();
    assert_eq!(shell::get(&mut store, s("k")).unwrap(), s("v"));
}

#[test]
fn shell_get_missing_prints_key_not_found() {
    let mut store = KvStore::new();
    assert_eq!(shell::get(&mut store, s("nope")).unwrap(), s("Key not found"));
}

#[test]
fn shell_rm_missing_reports_key_not_found() {
    let mut store = KvStore::new();
    assert!(matches!(shell::rm(&mut store, s("nope")), Err(KvError::KeyNotFound)));
}

#[test]
fn index_insert_remove_lookup() {
    let mut idx = Index::new();
    assert_eq!(idx.lookup(&s("a")), None);
    idx.insert(s("a"), 0);
    idx.insert(s("b"), 1);
    assert_eq!(idx.lookup(&s("a")), Some(0));
    idx.insert(s("a"), 2);
    assert_eq!(idx.lookup(&s("a")), Some(2));
    idx.remove(s("a"));
    assert_eq!(idx.lookup(&s("a")), None);
    assert_eq!(idx.lookup(&s("b")), Some(1));
}
