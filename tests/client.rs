use dotenvpull::cipher::encrypt;
use dotenvpull::client::{
    access_key_of, confirm, delete, getshared, key_from_text, merge_shared, pull,
    pull_credentials, push, share, share_payload, share_request, update, ClientError,
    Credentials,
};
use dotenvpull::config::{default_config, list_projects, update_config, LocalConfig};
use dotenvpull::server::{Reply, ReplyBody};

const ZERO_KEY_B64: &str = "AAAAAAAAAAAAAAAAAAAAAAAAAAAAAAAAAAAAAAAAAAA=";

fn stored(access_key: &str) -> Reply {
    Reply {
        status: 200,
        body: ReplyBody::Stored {
            message: "Data stored successfully".to_string(),
            access_key: access_key.to_string(),
        },
    }
}

fn message() -> Reply {
    Reply { status: 200, body: ReplyBody::Message { message: "ok".to_string() } }
}

fn failure(status: u16) -> Reply {
    Reply { status, body: ReplyBody::Failure { detail: "no".to_string() } }
}

fn content(encrypted_content: String) -> Reply {
    Reply { status: 200, body: ReplyBody::Content { encrypted_content } }
}

#[test]
fn key_from_text_reads_a_base64_256_bit_key() {
    assert_eq!(key_from_text(ZERO_KEY_B64), Ok([0u8; 32]));
    let mut key = [0u8; 32];
    key[0] = 0xfb;
    key[31] = 0x01;
    assert_eq!(key_from_text("+wAAAAAAAAAAAAAAAAAAAAAAAAAAAAAAAAAAAAAAAAE="), Ok(key));
}

#[test]
fn key_from_text_rejects_bad_text_and_wrong_length() {
    assert_eq!(key_from_text("***"), Err(ClientError::EncodingError));
    assert_eq!(key_from_text("AAAA"), Err(ClientError::EncodingError));
}

#[test]
fn push_records_base64_key_and_access_key() {
    let mut config = default_config();
    update_config(&mut config, "other", "ko", "eo");
    push(&mut config, "app1", &[0u8; 32], &stored("K1")).unwrap();
    let entry = config.get("app1").unwrap();
    assert_eq!(entry.access_key, "K1");
    assert_eq!(entry.encryption_key, ZERO_KEY_B64);
    assert_eq!(config.get("other").unwrap().access_key, "ko");
    assert_eq!(config.server(), Some("http://localhost:8080".to_string()));
}

#[test]
fn push_conflict_leaves_config_untouched() {
    let mut config = default_config();
    assert_eq!(push(&mut config, "app1", &[0u8; 32], &failure(400)), Err(ClientError::Conflict));
    assert!(config.get("app1").is_none());
    assert_eq!(push(&mut config, "app1", &[0u8; 32], &failure(500)), Err(ClientError::Server(500)));
    assert_eq!(push(&mut config, "app1", &[0u8; 32], &message()), Err(ClientError::MalformedReply));
}

#[test]
fn pull_credentials_refuses_existing_destination_first() {
    let config = default_config();
    assert_eq!(
        pull_credentials(&config, "unknown", true, false).err(),
        Some(ClientError::DestinationExists)
    );
}

#[test]
fn pull_credentials_reports_unknown_project_and_bad_key() {
    let mut config = default_config();
    assert_eq!(
        pull_credentials(&config, "app1", true, true).err(),
        Some(ClientError::UnknownProject)
    );
    update_config(&mut config, "app1", "K1", "not-a-key");
    assert_eq!(
        pull_credentials(&config, "app1", false, false).err(),
        Some(ClientError::EncodingError)
    );
}

#[test]
fn pull_credentials_gives_stored_credentials() {
    let mut config = default_config();
    update_config(&mut config, "app1", "K1", ZERO_KEY_B64);
    let creds = pull_credentials(&config, "app1", true, true).unwrap();
    assert_eq!(creds.access_key, "K1");
    assert_eq!(creds.encryption_key, [0u8; 32]);
}

#[test]
fn pull_opens_content_and_reports_failures() {
    let creds = Credentials { access_key: "K1".to_string(), encryption_key: [5u8; 32] };
    let sealed = encrypt("A=1", &[5u8; 32]);
    assert_eq!(pull(&creds, &content(sealed)), Ok("A=1".to_string()));
    let foreign = encrypt("A=1", &[6u8; 32]);
    assert_eq!(pull(&creds, &content(foreign)), Err(ClientError::AuthenticationFailure));
    assert_eq!(pull(&creds, &content("%%".to_string())), Err(ClientError::EncodingError));
    assert_eq!(pull(&creds, &failure(404)), Err(ClientError::NotFound));
    assert_eq!(pull(&creds, &failure(400)), Err(ClientError::Server(400)));
    assert_eq!(pull(&creds, &message()), Err(ClientError::MalformedReply));
}

#[test]
fn update_reseals_under_the_stored_key() {
    let mut config = default_config();
    update_config(&mut config, "app1", "K1", ZERO_KEY_B64);
    let request = update(&config, "app1", "B=2").unwrap();
    assert_eq!(request.access_key, "K1");
    let creds = Credentials { access_key: "K1".to_string(), encryption_key: [0u8; 32] };
    assert_eq!(pull(&creds, &content(request.encrypted_content)), Ok("B=2".to_string()));
    assert_eq!(update(&config, "nope", "B=2").err(), Some(ClientError::UnknownProject));
}

#[test]
fn confirm_reads_answers() {
    assert_eq!(confirm(&message()), Ok(()));
    assert_eq!(confirm(&failure(404)), Err(ClientError::NotFound));
    assert_eq!(confirm(&failure(500)), Err(ClientError::Server(500)));
}

#[test]
fn delete_drops_entry_only_after_confirmation() {
    let mut config = default_config();
    update_config(&mut config, "app1", "K1", ZERO_KEY_B64);
    update_config(&mut config, "app2", "K2", ZERO_KEY_B64);
    assert_eq!(access_key_of(&config, "app1"), Ok("K1".to_string()));
    assert_eq!(delete(&mut config, "app1", &failure(500)), Err(ClientError::Server(500)));
    assert!(config.get("app1").is_some());
    assert_eq!(delete(&mut config, "app1", &message()), Ok(()));
    assert!(config.get("app1").is_none());
    assert!(config.get("app2").is_some());
    assert_eq!(access_key_of(&config, "app1"), Err(ClientError::UnknownProject));
}

#[test]
fn share_payload_selects_project_or_everything() {
    let mut config = default_config();
    update_config(&mut config, "app1", "K1", "E1");
    update_config(&mut config, "app2", "K2", "E2");
    let one = share_payload(&config, "app1", false).ok().unwrap();
    assert_eq!(one.server(), None);
    assert_eq!(list_projects(&one), vec!["app1".to_string()]);
    let all = share_payload(&config, "app1", true).ok().unwrap();
    assert_eq!(all.server(), Some("http://localhost:8080".to_string()));
    assert_eq!(list_projects(&all).len(), 2);
    assert_eq!(share_payload(&config, "app3", false).err(), Some(ClientError::UnknownProject));
}

#[test]
fn share_request_uses_fresh_code_and_key() {
    let a = share_request("app1", "{}");
    let b = share_request("app1", "{}");
    assert_eq!(a.project_id, "app1");
    assert_eq!(a.share_code.len(), 44);
    assert_ne!(a.share_code, b.share_code);
    assert_ne!(a.share_key, b.share_key);
}

#[test]
fn share_ticket_carries_what_the_recipient_needs() {
    let request = share_request("app1", "{}");
    let ticket = share(&request, "http://h:1", &message()).ok().unwrap();
    assert_eq!(ticket.share_code, request.share_code);
    assert_eq!(ticket.project_id, "app1");
    assert_eq!(ticket.api_url, "http://h:1");
    assert_eq!(key_from_text(&ticket.encryption_key), Ok(request.share_key));
    assert_eq!(share(&request, "http://h:1", &failure(400)).err(), Some(ClientError::Conflict));
}

#[test]
fn getshared_opens_with_handed_over_key() {
    let request = share_request("app1", "{\"app1\":{}}");
    let ticket = share(&request, "http://h:1", &message()).ok().unwrap();
    let reply = content(request.encrypted_content.clone());
    assert_eq!(getshared(&ticket.encryption_key, &reply), Ok("{\"app1\":{}}".to_string()));
    assert_eq!(getshared("bad", &reply), Err(ClientError::EncodingError));
    assert_eq!(getshared(ZERO_KEY_B64, &reply), Err(ClientError::AuthenticationFailure));
}

#[test]
fn merge_shared_takes_only_the_project() {
    let mut config = default_config();
    update_config(&mut config, "app1", "old", "old");
    update_config(&mut config, "app2", "K2", "E2");
    let mut shared = LocalConfig::new(None);
    update_config(&mut shared, "app1", "K1", "E1");
    update_config(&mut shared, "app3", "K3", "E3");
    assert_eq!(merge_shared(&mut config, "app1", shared), Ok(()));
    assert_eq!(config.get("app1").unwrap().access_key, "K1");
    assert_eq!(config.get("app2").unwrap().access_key, "K2");
    assert!(config.get("app3").is_none());
    assert_eq!(config.server(), Some("http://localhost:8080".to_string()));
}

#[test]
fn merge_shared_replaces_whole_configuration() {
    let mut config = default_config();
    update_config(&mut config, "app2", "K2", "E2");
    let mut shared = LocalConfig::new(Some("http://other:9".to_string()));
    update_config(&mut shared, "app1", "K1", "E1");
    assert_eq!(merge_shared(&mut config, "app1", shared), Ok(()));
    assert_eq!(config.server(), Some("http://other:9".to_string()));
    assert!(config.get("app2").is_none());
    assert_eq!(config.get("app1").unwrap().access_key, "K1");
}

#[test]
fn merge_shared_without_the_project_is_refused() {
    let mut config = default_config();
    update_config(&mut config, "app2", "K2", "E2");
    let shared = LocalConfig::new(None);
    assert_eq!(merge_shared(&mut config, "app1", shared), Err(ClientError::UnknownProject));
    assert_eq!(list_projects(&config), vec!["app2".to_string()]);
}

#[test]
fn update_config_keeps_other_entries_and_replaces_own() {
    let mut config = default_config();
    update_config(&mut config, "a", "ka", "ea");
    update_config(&mut config, "b", "kb", "eb");
    update_config(&mut config, "a", "ka2", "ea2");
    let mut names = list_projects(&config);
    names.sort();
    assert_eq!(names, vec!["a".to_string(), "b".to_string()]);
    assert_eq!(config.get("a").unwrap().access_key, "ka2");
    assert_eq!(config.get("a").unwrap().encryption_key, "ea2");
    assert_eq!(config.get("b").unwrap().access_key, "kb");
}

#[test]
fn api_url_falls_back_to_default() {
    assert_eq!(LocalConfig::new(None).api_url(), "http://localhost:8080");
    assert_eq!(LocalConfig::new(Some("http://x".to_string())).api_url(), "http://x");
    assert_eq!(default_config().api_url(), "http://localhost:8080");
}

#[test]
fn list_projects_of_empty_config_is_empty() {
    assert!(list_projects(&default_config()).is_empty());
}

#[test]
fn list_projects_keeps_entry_order() {
    let mut config = default_config();
    update_config(&mut config, "b", "kb", "eb");
    update_config(&mut config, "a", "ka", "ea");
    update_config(&mut config, "c", "kc", "ec");
    update_config(&mut config, "b", "kb2", "eb2");
    assert_eq!(list_projects(&config), vec!["b".to_string(), "a".to_string(), "c".to_string()]);
    config.remove("a");
    assert_eq!(list_projects(&config), vec!["b".to_string(), "c".to_string()]);
}

#[test]
fn pushed_key_text_reads_back_as_the_key() {
    let mut config = default_config();
    let key = [0x5au8; 32];
    push(&mut config, "app1", &key, &stored("K1")).unwrap();
    let text = config.get("app1").unwrap().encryption_key.clone();
    assert_eq!(key_from_text(&text), Ok(key));
}
