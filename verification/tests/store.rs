//! The backend store's own behaviour: last-writer-wins writes, snapshots,
//! and the set-membership counting.
use resp_store::backend::Backend;
use resp_store::frame::RespFrame;

fn bulk(s: &str) -> RespFrame {
    RespFrame::BulkString(s.as_bytes().to_vec())
}

#[test]
fn get_and_set_round_trip() {
    let mut backend = Backend::new();
    assert_eq!(backend.get("k"), None);
    backend.set("k".to_string(), bulk("v"));
    assert_eq!(backend.get("k"), Some(bulk("v")));
}

#[test]
fn hset_creates_entry_lazily() {
    let mut backend = Backend::new();
    assert_eq!(backend.hgetall("h"), None);
    backend.hset("h".to_string(), "f".to_string(), bulk("v"));
    let pairs = backend.hgetall("h").unwrap();
    assert_eq!(pairs, vec![("f".to_string(), bulk("v"))]);
}

#[test]
fn hgetall_is_a_snapshot() {
    let mut backend = Backend::new();
    backend.hset("h".to_string(), "f".to_string(), bulk("before"));
    let snapshot = backend.hgetall("h").unwrap();
    backend.hset("h".to_string(), "f".to_string(), bulk("after"));
    assert_eq!(snapshot, vec![("f".to_string(), bulk("before"))]);
    assert_eq!(backend.hget("h", "f"), Some(bulk("after")));
}

#[test]
fn sadd_counts_only_new_members() {
    let mut backend = Backend::new();
    let added = backend.sadd("s", vec!["a".to_string(), "a".to_string(), "b".to_string()]);
    assert_eq!(added, 2);
    let added = backend.sadd("s", vec!["a".to_string(), "c".to_string()]);
    assert_eq!(added, 1);
    assert!(backend.sismember("s", "a"));
    assert!(backend.sismember("s", "b"));
    assert!(backend.sismember("s", "c"));
    assert!(!backend.sismember("s", "d"));
}

#[test]
fn sismember_false_without_sadd() {
    let backend = Backend::new();
    assert!(!backend.sismember("s", "a"));
}

#[test]
fn default_store_is_empty() {
    let backend = Backend::default();
    assert_eq!(backend.get("anything"), None);
    assert_eq!(backend.hgetall("anything"), None);
}
