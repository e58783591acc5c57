use git2p::commit::{commit_id, is_log_entry_of, log_entry_id, Commit, FullCommit};
use git2p::store::{CommitStore, StoreError};

fn s(text: &str) -> String {
    text.to_string()
}

fn snapshot(id: &str, message: &str, files: &[(&str, &str)]) -> FullCommit {
    FullCommit {
        commit: Commit { id: s(id), message: s(message), timestamp: s("2024-01-01T00:00:00+00:00") },
        files: files.iter().map(|(n, c)| (s(n), c.as_bytes().to_vec())).collect(),
    }
}

#[test]
fn commit_id_is_short_sha1_hex_of_message_and_timestamp() {
    assert_eq!(commit_id("init", "2024-01-01T00:00:00+00:00"), "6a533ee");
    assert_eq!(commit_id("x", "t1"), "0c7ed27");
    assert_eq!(commit_id("", ""), "da39a3e");
}

#[test]
fn commit_id_depends_on_both_parts() {
    assert_ne!(commit_id("x", "t1"), commit_id("x", "t2"));
    assert_ne!(commit_id("x", "t1"), commit_id("y", "t1"));
    assert_eq!(commit_id("x", "t1").len(), 7);
}

#[test]
fn log_entry_names() {
    assert_eq!(log_entry_id("abc1234.json"), Some(s("abc1234")));
    assert_eq!(log_entry_id("a.b.json"), Some(s("a.b")));
    assert_eq!(log_entry_id(".json"), None);
    assert_eq!(log_entry_id("abc.txt"), None);
    assert_eq!(log_entry_id("json"), None);
    assert_eq!(log_entry_id(""), None);
}

#[test]
fn empty_store_lists_nothing() {
    let store = CommitStore::new();
    assert!(store.list_commit_ids().is_empty());
    assert_eq!(store.len(), 0);
}

#[test]
fn create_commit_records_snapshot() {
    let mut store = CommitStore::new();
    let files = vec![(s("a.txt"), b"hello".to_vec())];
    let c = store.create_commit(&s("init"), &s("2024-01-01T00:00:00+00:00"), files).unwrap();
    assert_eq!(c.id, "6a533ee");
    assert_eq!(c.message, "init");
    assert_eq!(store.list_commit_ids(), vec![s("6a533ee")]);
    let full = store.materialize(&s("6a533ee")).unwrap();
    assert_eq!(full.files, vec![(s("a.txt"), b"hello".to_vec())]);
    assert_eq!(store.load_commit(&s("6a533ee")).unwrap().timestamp, "2024-01-01T00:00:00+00:00");
}

#[test]
fn create_commit_twice_with_same_input_fails() {
    let mut store = CommitStore::new();
    let t = s("2024-01-01T00:00:00+00:00");
    store.create_commit(&s("init"), &t, vec![(s("a.txt"), b"one".to_vec())]).unwrap();
    let second = store.create_commit(&s("init"), &t, vec![(s("a.txt"), b"two".to_vec())]);
    assert_eq!(second.unwrap_err(), StoreError::DuplicateCommit);
    assert_eq!(store.len(), 1);
    let full = store.materialize(&s("6a533ee")).unwrap();
    assert_eq!(full.files[0].1, b"one".to_vec());
}

#[test]
fn missing_commit_is_not_found() {
    let store = CommitStore::new();
    assert_eq!(store.load_commit(&s("0000000")).unwrap_err(), StoreError::CommitNotFound);
    assert_eq!(store.materialize(&s("0000000")).unwrap_err(), StoreError::CommitNotFound);
    assert!(!store.contains(&s("0000000")));
}

#[test]
fn apply_remote_twice_is_idempotent() {
    let mut once = CommitStore::new();
    once.apply_remote(snapshot("c1", "init", &[("a.txt", "hello")]));
    let mut twice = CommitStore::new();
    twice.apply_remote(snapshot("c1", "init", &[("a.txt", "hello")]));
    twice.apply_remote(snapshot("c1", "init", &[("a.txt", "hello")]));
    assert_eq!(once.list_commit_ids(), twice.list_commit_ids());
    assert_eq!(twice.len(), 1);
    assert_eq!(
        once.materialize(&s("c1")).unwrap().files,
        twice.materialize(&s("c1")).unwrap().files
    );
}

#[test]
fn apply_remote_replaces_snapshot_of_same_id() {
    let mut store = CommitStore::new();
    store.apply_remote(snapshot("c1", "init", &[("a.txt", "old")]));
    store.apply_remote(snapshot("c2", "next", &[]));
    store.apply_remote(snapshot("c1", "init", &[("a.txt", "new")]));
    assert_eq!(store.list_commit_ids(), vec![s("c1"), s("c2")]);
    assert_eq!(store.materialize(&s("c1")).unwrap().files[0].1, b"new".to_vec());
}

#[test]
fn copies_are_equal() {
    let full = snapshot("c1", "init", &[("a.txt", "hello"), ("b.txt", "")]);
    let copy = full.copy();
    assert_eq!(copy.commit.id, "c1");
    assert_eq!(copy.files, full.files);
    assert_eq!(full.commit.copy().message, "init");
}

#[test]
fn log_entry_belongs_to_its_commit() {
    assert!(is_log_entry_of("abc1234.json", &s("abc1234")));
    assert!(!is_log_entry_of("abc1234.json", &s("abc1235")));
    assert!(!is_log_entry_of("abc1234.txt", &s("abc1234")));
}
