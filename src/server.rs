//! The server's request handlers: each takes the values of one request and
//! the store, applies the store operation and says what to answer.
//!
//! A request that lacks a required header fails with status 400 before the
//! store is consulted. A refused create or publish answers 400, a missing
//! record 404.
use vstd::prelude::*;
use crate::store::{
    RecordStore, StoreError, create_step, read_step, update_step, delete_step, publish_step,
    consume_step, share_matches,
};

verus! {

/// The body of an answer.
pub enum ReplyBody {
    /// A record was created; `access_key` is its credential.
    Stored { message: String, access_key: String },
    /// The operation took effect.
    Message { message: String },
    /// The ciphertext that was asked for.
    Content { encrypted_content: String },
    /// The operation failed; `detail` says why.
    Failure { detail: String },
}

/// An answer: an HTTP status and a body.
pub struct Reply {
    pub status: u16,
    pub body: ReplyBody,
}

/// The detail of every answer that finds no matching record.
pub const NOT_FOUND_DETAIL: &'static str = "Data not found";

/// The one answer given when no record matches a credential: it is the
/// same whatever the credential and whatever the store holds, so it tells
/// nothing beyond the failed match.
pub open spec fn is_not_found(r: Reply) -> bool {
    r.status == 404 && (r.body matches ReplyBody::Failure { detail } && detail@
        == NOT_FOUND_DETAIL@)
}

/// The status that answers a store error.
pub open spec fn status_of(e: StoreError) -> u16 {
    match e {
        StoreError::Conflict => 400,
        StoreError::NotFound => 404,
    }
}

/// Whether `r` answers the outcome `o` of an operation that returns nothing.
pub open spec fn answers(r: Reply, o: Result<(), StoreError>) -> bool {
    match o {
        Ok(()) => r.status == 200 && r.body is Message,
        Err(e) => r.status == status_of(e) && r.body is Failure,
    }
}

/// Whether `r` answers the outcome `o` of an operation that returns a ciphertext.
pub open spec fn answers_content(r: Reply, o: Result<Seq<char>, StoreError>) -> bool {
    match o {
        Ok(c) => r.status == 200 && (r.body matches ReplyBody::Content { encrypted_content } &&
            encrypted_content@ == c),
        Err(e) => r.status == status_of(e) && r.body is Failure,
    }
}

/// Whether `r` refuses a request that lacks a header.
pub open spec fn bad_request(r: Reply) -> bool {
    r.status == 400 && r.body is Failure
}

fn failure(status: u16, detail: &str) -> (r: Reply)
    ensures
        r.status == status,
        r.body is Failure,
{
    Reply { status, body: ReplyBody::Failure { detail: detail.to_owned() } }
}

fn message(text: &str) -> (r: Reply)
    ensures
        r.status == 200,
        r.body is Message,
{
    Reply { status: 200, body: ReplyBody::Message { message: text.to_owned() } }
}

fn not_found() -> (r: Reply)
    ensures
        r.status == status_of(StoreError::NotFound),
        r.body is Failure,
        is_not_found(r),
{
    Reply { status: 404, body: ReplyBody::Failure { detail: NOT_FOUND_DETAIL.to_owned() } }
}

/// `POST /share`: publishes a one-time share.
pub fn share_config(
    store: &mut RecordStore,
    project_id: String,
    share_code: String,
    encrypted_content: String,
) -> (r: Reply)
    ensures
        final(store)@ == publish_step(old(store)@, project_id@, share_code@, encrypted_content@).0,
        answers(r, publish_step(old(store)@, project_id@, share_code@, encrypted_content@).1),
{
    match store.publish(project_id, share_code, encrypted_content) {
        Ok(()) => message("Data stored successfully."),
        Err(_) => failure(400, "Data already exists, use update if you want to modify it"),
    }
}

/// `GET /share`: reads a pending share once, by the `X-Share-Code` and
/// `X-Project-Id` headers; both are required.
pub fn pull_config(store: &mut RecordStore, share_code: Option<String>, project_id: Option<
    String,
>) -> (r: Reply)
    ensures
        share_code is None || project_id is None ==> bad_request(r) && final(store)@ == old(
            store,
        )@,
        share_code matches Some(code) ==> (project_id matches Some(pid) ==> {
            let (v, o) = consume_step(old(store)@, pid@, code@);
            final(store)@ == v && answers_content(r, o)
        }),
        share_code matches Some(code) ==> (project_id matches Some(pid) ==> (!share_matches(
            old(store)@,
            pid@,
            code@,
        ) ==> is_not_found(r))),
{
    let code = match share_code {
        Some(c) => c,
        None => return failure(400, "Missing Share Code"),
    };
    let pid = match project_id {
        Some(p) => p,
        None => return failure(400, "Missing Project Id"),
    };
    match store.consume(pid.as_str(), code.as_str()) {
        Ok(c) => Reply { status: 200, body: ReplyBody::Content { encrypted_content: c } },
        Err(_) => not_found(),
    }
}

/// `POST /push`: stores a new secret under a fresh access key. It answers
/// 400 when the project already has a record, and otherwise only when the
/// drawn key is already stored.
pub fn store_data(store: &mut RecordStore, project_id: String, encrypted_content: String) -> (r:
    Reply)
    ensures
        old(store)@.project_in_use(project_id@) ==> r.status == 400 && r.body is Failure,
        r.body matches ReplyBody::Stored { access_key, .. } ==> r.status == 200 && (
        final(store)@,
        Ok::<(), StoreError>(()),
        ) == create_step(old(store)@, project_id@, encrypted_content@, access_key@),
        r.body is Stored || (r.status == 400 && r.body is Failure && final(store)@ == old(
            store,
        )@),
        !(r.body is Stored) ==> old(store)@.project_in_use(project_id@) || exists|k: Seq<char>|
            k.len() == 36 && #[trigger] old(store)@.secrets.contains_key(k),
{
    match store.create(project_id, encrypted_content) {
        Ok(k) => Reply {
            status: 200,
            body: ReplyBody::Stored {
                message: "Data stored successfully".to_owned(),
                access_key: k,
            },
        },
        Err(_) => failure(400, "Data already exists, use update if you want to modify it"),
    }
}

/// `GET /pull`: reads a secret by the `X-API-Key` header.
pub fn retrieve_data(store: &RecordStore, api_key: Option<String>) -> (r: Reply)
    ensures
        api_key is None ==> bad_request(r),
        api_key matches Some(k) ==> answers_content(r, read_step(store@, k@)),
        api_key matches Some(k) ==> (!store@.secrets.contains_key(k@) ==> is_not_found(r)),
{
    let key = match api_key {
        Some(k) => k,
        None => return failure(400, "Missing API Key"),
    };
    match store.read(key.as_str()) {
        Ok(c) => Reply { status: 200, body: ReplyBody::Content { encrypted_content: c } },
        Err(_) => not_found(),
    }
}

/// `PUT /update`: replaces a secret's ciphertext, by the `X-API-Key` header.
pub fn update_data(store: &mut RecordStore, api_key: Option<String>, encrypted_content: String) -> (r:
    Reply)
    ensures
        api_key is None ==> bad_request(r) && final(store)@ == old(store)@,
        api_key matches Some(k) ==> {
            let (v, o) = update_step(old(store)@, k@, encrypted_content@);
            final(store)@ == v && answers(r, o)
        },
        api_key matches Some(k) ==> (!old(store)@.secrets.contains_key(k@) ==> is_not_found(r)),
{
    let key = match api_key {
        Some(k) => k,
        None => return failure(400, "Missing API Key"),
    };
    match store.update(key.as_str(), encrypted_content) {
        Ok(()) => message("Data updated successfully"),
        Err(_) => not_found(),
    }
}

/// `DELETE /delete`: removes a secret, by the `X-API-Key` header.
pub fn delete_data(store: &mut RecordStore, api_key: Option<String>) -> (r: Reply)
    ensures
        api_key is None ==> bad_request(r) && final(store)@ == old(store)@,
        api_key matches Some(k) ==> {
            let (v, o) = delete_step(old(store)@, k@);
            final(store)@ == v && answers(r, o)
        },
        api_key matches Some(k) ==> (!old(store)@.secrets.contains_key(k@) ==> is_not_found(r)),
{
    let key = match api_key {
        Some(k) => k,
        None => return failure(400, "Missing API Key"),
    };
    match store.delete(key.as_str()) {
        Ok(()) => message("Data deleted successfully"),
        Err(_) => not_found(),
    }
}

} // verus!
