use dotenvpull::server::{
    delete_data, pull_config, retrieve_data, share_config, store_data, update_data, Reply,
    ReplyBody,
};
use dotenvpull::store::RecordStore;

fn content_of(reply: &Reply) -> Option<String> {
    match &reply.body {
        ReplyBody::Content { encrypted_content } => Some(encrypted_content.clone()),
        _ => None,
    }
}

fn access_key_of(reply: &Reply) -> Option<String> {
    match &reply.body {
        ReplyBody::Stored { access_key, .. } => Some(access_key.clone()),
        _ => None,
    }
}

fn is_failure(reply: &Reply) -> bool {
    matches!(reply.body, ReplyBody::Failure { .. })
}

#[test]
fn store_data_answers_with_access_key() {
    let mut store = RecordStore::new();
    let reply = store_data(&mut store, "app1".to_string(), "c".to_string());
    assert_eq!(reply.status, 200);
    let key = access_key_of(&reply).unwrap();
    let read = retrieve_data(&store, Some(key));
    assert_eq!(read.status, 200);
    assert_eq!(content_of(&read), Some("c".to_string()));
}

#[test]
fn store_data_twice_answers_400() {
    let mut store = RecordStore::new();
    store_data(&mut store, "app1".to_string(), "c".to_string());
    let reply = store_data(&mut store, "app1".to_string(), "c2".to_string());
    assert_eq!(reply.status, 400);
    assert!(is_failure(&reply));
}

#[test]
fn retrieve_data_without_key_answers_400() {
    let store = RecordStore::new();
    let reply = retrieve_data(&store, None);
    assert_eq!(reply.status, 400);
    assert!(is_failure(&reply));
}

#[test]
fn retrieve_data_with_unknown_key_answers_404() {
    let mut store = RecordStore::new();
    store_data(&mut store, "app1".to_string(), "c".to_string());
    let reply = retrieve_data(&store, Some("fabricated".to_string()));
    assert_eq!(reply.status, 404);
    assert!(is_failure(&reply));
}

#[test]
fn update_data_replaces_content() {
    let mut store = RecordStore::new();
    let key = access_key_of(&store_data(&mut store, "app1".to_string(), "c1".to_string())).unwrap();
    let reply = update_data(&mut store, Some(key.clone()), "c2".to_string());
    assert_eq!(reply.status, 200);
    assert!(matches!(reply.body, ReplyBody::Message { .. }));
    assert_eq!(content_of(&retrieve_data(&store, Some(key))), Some("c2".to_string()));
}

#[test]
fn update_data_answers_400_and_404() {
    let mut store = RecordStore::new();
    assert_eq!(update_data(&mut store, None, "c".to_string()).status, 400);
    assert_eq!(update_data(&mut store, Some("k".to_string()), "c".to_string()).status, 404);
}

#[test]
fn delete_data_removes_record() {
    let mut store = RecordStore::new();
    let key = access_key_of(&store_data(&mut store, "app1".to_string(), "c".to_string())).unwrap();
    assert_eq!(delete_data(&mut store, Some(key.clone())).status, 200);
    assert_eq!(retrieve_data(&store, Some(key.clone())).status, 404);
    assert_eq!(delete_data(&mut store, Some(key)).status, 404);
    assert_eq!(delete_data(&mut store, None).status, 400);
}

#[test]
fn share_config_then_pull_config_once() {
    let mut store = RecordStore::new();
    let published = share_config(&mut store, "app1".to_string(), "S1".to_string(), "c".to_string());
    assert_eq!(published.status, 200);
    let first = pull_config(&mut store, Some("S1".to_string()), Some("app1".to_string()));
    assert_eq!(first.status, 200);
    assert_eq!(content_of(&first), Some("c".to_string()));
    let second = pull_config(&mut store, Some("S1".to_string()), Some("app1".to_string()));
    assert_eq!(second.status, 404);
}

#[test]
fn share_config_twice_answers_400() {
    let mut store = RecordStore::new();
    share_config(&mut store, "app1".to_string(), "S1".to_string(), "c".to_string());
    let reply = share_config(&mut store, "app1".to_string(), "S2".to_string(), "d".to_string());
    assert_eq!(reply.status, 400);
}

#[test]
fn pull_config_missing_header_answers_400_and_keeps_share() {
    let mut store = RecordStore::new();
    share_config(&mut store, "app1".to_string(), "S1".to_string(), "c".to_string());
    assert_eq!(pull_config(&mut store, None, Some("app1".to_string())).status, 400);
    assert_eq!(pull_config(&mut store, Some("S1".to_string()), None).status, 400);
    assert_eq!(pull_config(&mut store, None, None).status, 400);
    let reply = pull_config(&mut store, Some("S1".to_string()), Some("app1".to_string()));
    assert_eq!(content_of(&reply), Some("c".to_string()));
}

#[test]
fn pull_config_wrong_code_answers_404() {
    let mut store = RecordStore::new();
    share_config(&mut store, "app1".to_string(), "S1".to_string(), "c".to_string());
    let reply = pull_config(&mut store, Some("S2".to_string()), Some("app1".to_string()));
    assert_eq!(reply.status, 404);
}

#[test]
fn not_found_answer_is_the_same_for_every_wrong_key() {
    let mut empty = RecordStore::new();
    let mut full = RecordStore::new();
    store_data(&mut full, "app1".to_string(), "c".to_string());
    let mut details = Vec::new();
    for key in ["fabricated", "", "00000000-0000-4000-8000-000000000000"] {
        for reply in [
            retrieve_data(&empty, Some(key.to_string())),
            retrieve_data(&full, Some(key.to_string())),
            update_data(&mut full, Some(key.to_string()), "x".to_string()),
            delete_data(&mut empty, Some(key.to_string())),
        ] {
            assert_eq!(reply.status, 404);
            match reply.body {
                ReplyBody::Failure { detail } => details.push(detail),
                _ => panic!("not a failure"),
            }
        }
    }
    assert!(details.iter().all(|d| d == "Data not found"));
}
