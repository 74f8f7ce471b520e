use dotenvpull::store::{RecordStore, StoreError};
use std::sync::{Arc, Mutex};

#[test]
fn create_returns_a_fresh_uuid_access_key() {
    let mut store = RecordStore::new();
    let a = store.create("app1".to_string(), "c1".to_string()).unwrap();
    let b = store.create("app2".to_string(), "c2".to_string()).unwrap();
    assert_eq!(a.len(), 36);
    assert_eq!(a.matches('-').count(), 4);
    assert_ne!(a, b);
    assert_eq!(store.read(&a), Ok("c1".to_string()));
    assert_eq!(store.read(&b), Ok("c2".to_string()));
}

#[test]
fn second_create_for_same_project_conflicts() {
    let mut store = RecordStore::new();
    let key = store.create("app1".to_string(), "c".to_string()).unwrap();
    assert_eq!(store.create("app1".to_string(), "c2".to_string()), Err(StoreError::Conflict));
    assert_eq!(store.read(&key), Ok("c".to_string()));
}

#[test]
fn create_with_taken_key_conflicts() {
    let mut store = RecordStore::new();
    assert_eq!(store.create_with_key("a".to_string(), "c".to_string(), "k".to_string()), Ok(()));
    assert_eq!(
        store.create_with_key("b".to_string(), "d".to_string(), "k".to_string()),
        Err(StoreError::Conflict)
    );
    assert_eq!(store.read("k"), Ok("c".to_string()));
}

#[test]
fn read_unknown_key_is_not_found() {
    let store = RecordStore::new();
    assert_eq!(store.read("no-such-key"), Err(StoreError::NotFound));
}

#[test]
fn read_after_delete_is_not_found() {
    let mut store = RecordStore::new();
    store.create_with_key("a".to_string(), "c".to_string(), "k".to_string()).unwrap();
    assert_eq!(store.delete("k"), Ok(()));
    assert_eq!(store.read("k"), Err(StoreError::NotFound));
    assert_eq!(store.delete("k"), Err(StoreError::NotFound));
}

#[test]
fn delete_frees_the_project_for_a_new_create() {
    let mut store = RecordStore::new();
    store.create_with_key("a".to_string(), "c".to_string(), "k".to_string()).unwrap();
    store.delete("k").unwrap();
    assert_eq!(store.create_with_key("a".to_string(), "d".to_string(), "k2".to_string()), Ok(()));
    assert_eq!(store.read("k2"), Ok("d".to_string()));
}

#[test]
fn update_then_read_gives_new_ciphertext() {
    let mut store = RecordStore::new();
    store.create_with_key("a".to_string(), "c1".to_string(), "k".to_string()).unwrap();
    assert_eq!(store.update("k", "c2".to_string()), Ok(()));
    assert_eq!(store.read("k"), Ok("c2".to_string()));
}

#[test]
fn update_unknown_key_is_not_found() {
    let mut store = RecordStore::new();
    assert_eq!(store.update("k", "c".to_string()), Err(StoreError::NotFound));
}

#[test]
fn update_keeps_the_project_reserved() {
    let mut store = RecordStore::new();
    store.create_with_key("a".to_string(), "c1".to_string(), "k".to_string()).unwrap();
    store.update("k", "c2".to_string()).unwrap();
    assert_eq!(store.create("a".to_string(), "c3".to_string()), Err(StoreError::Conflict));
}

#[test]
fn records_of_other_projects_are_untouched() {
    let mut store = RecordStore::new();
    store.create_with_key("a".to_string(), "ca".to_string(), "ka".to_string()).unwrap();
    store.create_with_key("b".to_string(), "cb".to_string(), "kb".to_string()).unwrap();
    store.create_with_key("c".to_string(), "cc".to_string(), "kc".to_string()).unwrap();
    store.delete("kb").unwrap();
    store.update("kc", "cc2".to_string()).unwrap();
    assert_eq!(store.read("ka"), Ok("ca".to_string()));
    assert_eq!(store.read("kb"), Err(StoreError::NotFound));
    assert_eq!(store.read("kc"), Ok("cc2".to_string()));
}

#[test]
fn consume_succeeds_once() {
    let mut store = RecordStore::new();
    assert_eq!(store.publish("a".to_string(), "code".to_string(), "c".to_string()), Ok(()));
    assert_eq!(store.consume("a", "code"), Ok("c".to_string()));
    assert_eq!(store.consume("a", "code"), Err(StoreError::NotFound));
}

#[test]
fn consume_needs_both_project_and_code() {
    let mut store = RecordStore::new();
    store.publish("a".to_string(), "code".to_string(), "c".to_string()).unwrap();
    assert_eq!(store.consume("a", "other"), Err(StoreError::NotFound));
    assert_eq!(store.consume("b", "code"), Err(StoreError::NotFound));
    assert_eq!(store.consume("a", "code"), Ok("c".to_string()));
}

#[test]
fn publish_conflicts_while_share_pending() {
    let mut store = RecordStore::new();
    store.publish("a".to_string(), "one".to_string(), "c1".to_string()).unwrap();
    assert_eq!(
        store.publish("a".to_string(), "two".to_string(), "c2".to_string()),
        Err(StoreError::Conflict)
    );
    assert_eq!(store.consume("a", "one"), Ok("c1".to_string()));
}

#[test]
fn spent_code_stays_spent_after_republish() {
    let mut store = RecordStore::new();
    store.publish("a".to_string(), "one".to_string(), "c1".to_string()).unwrap();
    store.consume("a", "one").unwrap();
    assert_eq!(store.publish("a".to_string(), "two".to_string(), "c2".to_string()), Ok(()));
    assert_eq!(store.consume("a", "one"), Err(StoreError::NotFound));
    assert_eq!(store.consume("a", "two"), Ok("c2".to_string()));
}

#[test]
fn shares_and_secrets_are_separate_namespaces() {
    let mut store = RecordStore::new();
    store.create_with_key("a".to_string(), "secret".to_string(), "k".to_string()).unwrap();
    assert_eq!(store.publish("a".to_string(), "code".to_string(), "shared".to_string()), Ok(()));
    assert_eq!(store.consume("a", "code"), Ok("shared".to_string()));
    assert_eq!(store.read("k"), Ok("secret".to_string()));
}

#[test]
fn two_consumers_behind_one_lock_get_exactly_one_success() {
    let store = Arc::new(Mutex::new(RecordStore::new()));
    store
        .lock()
        .unwrap()
        .publish("a".to_string(), "code".to_string(), "c".to_string())
        .unwrap();
    let first = Arc::clone(&store);
    let second = Arc::clone(&store);
    let one = first.lock().unwrap().consume("a", "code");
    let two = second.lock().unwrap().consume("a", "code");
    let results = [one, two];
    assert_eq!(results.iter().filter(|r| r.is_ok()).count(), 1);
    assert_eq!(results.iter().filter(|r| **r == Err(StoreError::NotFound)).count(), 1);
}
