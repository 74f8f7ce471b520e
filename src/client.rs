//! The client's side of each command. The network call in the middle of a
//! command is made by the caller: a command is split into what is decided
//! before the call (which credentials, what to send) and what is decided
//! from the server's answer (what to return, how local state changes).
use vstd::prelude::*;
use vstd::string::StringSliceAdditionalSpecFns;
use crate::cipher::{CipherError, decrypt, decrypted, encrypt, sealable, sealed, KEY_LEN, NONCE_LEN};
use crate::codec::{b64_decode, b64_encode, base64_decode, base64_encode};
use crate::config::{EntryView, LocalConfig, update_config};
use crate::server::{Reply, ReplyBody};

verus! {

/// Why a client command failed.
#[derive(Clone, Copy, Debug, PartialEq, Eq, Structural)]
pub enum ClientError {
    /// The local configuration holds nothing for the project.
    UnknownProject,
    /// The destination file exists and overwriting was not asked for.
    DestinationExists,
    /// The server already holds a record for the project.
    Conflict,
    /// The server holds no record matching the credential.
    NotFound,
    /// The ciphertext did not open under the key.
    AuthenticationFailure,
    /// A key, a payload or a plaintext was not in the expected encoding.
    EncodingError,
    /// The server answered with a success status but an unexpected body.
    MalformedReply,
    /// The server answered with another failure status.
    Server(u16),
}

/// The credentials that a pull needs: what to present and what to open with.
pub struct Credentials {
    pub access_key: String,
    pub encryption_key: [u8; 32],
}

/// What an update sends: the credential and the new ciphertext.
pub struct UpdateRequest {
    pub access_key: String,
    pub encrypted_content: String,
}

/// What a share publishes, and the key it was sealed under.
pub struct ShareRequest {
    pub project_id: String,
    pub share_code: String,
    pub encrypted_content: String,
    pub share_key: [u8; 32],
}

/// What the sharer hands to the recipient, outside this protocol.
pub struct ShareTicket {
    pub share_code: String,
    pub project_id: String,
    pub api_url: String,
    pub encryption_key: String,
}

/// The 32-byte key that base64 `text` holds, if it holds one.
pub open spec fn key_of(text: Seq<char>) -> Option<Seq<u8>> {
    match b64_decode(text) {
        Some(b) => if b.len() == KEY_LEN {
            Some(b)
        } else {
            None
        },
        None => None,
    }
}

/// The client error for a cipher error.
pub open spec fn from_cipher(e: CipherError) -> ClientError {
    match e {
        CipherError::EncodingError => ClientError::EncodingError,
        CipherError::AuthenticationFailure => ClientError::AuthenticationFailure,
    }
}

/// The client error for an answer that is not the expected success; a 400
/// means `Conflict` where the request creates a record.
pub open spec fn failure_of(status: u16, creates: bool) -> ClientError {
    if creates && status == 400 {
        ClientError::Conflict
    } else if status == 404 {
        ClientError::NotFound
    } else if status == 200 {
        ClientError::MalformedReply
    } else {
        ClientError::Server(status)
    }
}

fn reply_failure(status: u16, creates: bool) -> (r: ClientError)
    ensures
        r == failure_of(status, creates),
{
    if creates && status == 400 {
        ClientError::Conflict
    } else if status == 404 {
        ClientError::NotFound
    } else if status == 200 {
        ClientError::MalformedReply
    } else {
        ClientError::Server(status)
    }
}

fn cipher_failure(e: CipherError) -> (r: ClientError)
    ensures
        r == from_cipher(e),
{
    match e {
        CipherError::EncodingError => ClientError::EncodingError,
        CipherError::AuthenticationFailure => ClientError::AuthenticationFailure,
    }
}

/// Reads the 32-byte key that base64 `text` holds.
pub fn key_from_text(text: &str) -> (r: Result<[u8; 32], ClientError>)
    ensures
        r matches Ok(k) ==> key_of(text@) == Some(k@),
        r matches Err(e) ==> e == ClientError::EncodingError && key_of(text@) is None,
{
    let bytes = match base64_decode(text) {
        Ok(b) => b,
        Err(_) => return Err(ClientError::EncodingError),
    };
    if bytes.len() != KEY_LEN {
        return Err(ClientError::EncodingError);
    }
    let mut key: [u8; 32] = [0u8; 32];
    let mut i: usize = 0;
    while i < KEY_LEN
        invariant
            bytes@.len() == KEY_LEN,
            key@.len() == KEY_LEN,
            0 <= i <= KEY_LEN,
            forall|j: int| 0 <= j < i ==> key@[j] == bytes@[j],
        decreases KEY_LEN - i,
    {
        key[i] = bytes[i];
        i = i + 1;
    }
    proof {
        assert(key@ =~= bytes@);
    }
    Ok(key)
}

/// Draws a fresh random 256-bit key.
pub fn new_encryption_key() -> (r: [u8; 32]) {
    rand::random()
}

/// Finishes a push from the server's answer: on success the issued access
/// key and the base64 encryption key are recorded for the project, and
/// nothing else changes; on failure the configuration is untouched.
pub fn push(config: &mut LocalConfig, project_name: &str, encryption_key: &[u8; 32], reply: &Reply) -> (r:
    Result<(), ClientError>)
    ensures
        r is Ok <==> reply.status == 200 && reply.body is Stored,
        reply.body matches ReplyBody::Stored { access_key, .. } ==> (reply.status == 200 ==> (
        final(config)@.api_url == old(config)@.api_url && final(config)@.projects == old(
            config,
        )@.projects.insert(
            project_name@,
            EntryView { access_key: access_key@, encryption_key: b64_encode(encryption_key@) },
        ))),
        r is Ok ==> key_of(final(config)@.projects[project_name@].encryption_key) == Some(
            encryption_key@,
        ),
        r matches Err(e) ==> e == failure_of(reply.status, true) && final(config)@ == old(
            config,
        )@,
{
    if reply.status == 200 {
        if let ReplyBody::Stored { access_key, .. } = &reply.body {
            let key_text = base64_encode(encryption_key.as_slice());
            update_config(config, project_name, access_key.as_str(), key_text.as_str());
            return Ok(());
        }
    }
    Err(reply_failure(reply.status, true))
}

/// Decides a pull before the server is asked: refuses when the destination
/// exists and overwriting was not asked for, then when the project is
/// unknown, then when its stored key is not a base64 256-bit key.
pub fn pull_credentials(
    config: &LocalConfig,
    project_name: &str,
    destination_exists: bool,
    overwrite: bool,
) -> (r: Result<Credentials, ClientError>)
    ensures
        destination_exists && !overwrite ==> r == Err::<Credentials, ClientError>(
            ClientError::DestinationExists,
        ),
        !(destination_exists && !overwrite) && !config@.projects.contains_key(project_name@)
            ==> r == Err::<Credentials, ClientError>(ClientError::UnknownProject),
        !(destination_exists && !overwrite) && config@.projects.contains_key(project_name@) ==> {
            let entry = config@.projects[project_name@];
            match key_of(entry.encryption_key) {
                None => r == Err::<Credentials, ClientError>(ClientError::EncodingError),
                Some(k) => r matches Ok(c) && c.access_key@ == entry.access_key
                    && c.encryption_key@ == k,
            }
        },
{
    if destination_exists && !overwrite {
        return Err(ClientError::DestinationExists);
    }
    let entry = match config.get(project_name) {
        Some(e) => e,
        None => return Err(ClientError::UnknownProject),
    };
    let key = match key_from_text(entry.encryption_key.as_str()) {
        Ok(k) => k,
        Err(e) => return Err(e),
    };
    Ok(Credentials { access_key: entry.access_key.clone(), encryption_key: key })
}

/// What a pull returns for the server's answer: the plaintext that the
/// ciphertext opens to under `key`; a failure status is reported as such
/// and nothing is opened.
pub open spec fn pull_outcome(key: Seq<u8>, reply: Reply) -> Result<Seq<char>, ClientError> {
    if reply.status == 200 {
        match reply.body {
            ReplyBody::Content { encrypted_content } => match decrypted(encrypted_content@, key) {
                Ok(p) => Ok(p),
                Err(e) => Err(from_cipher(e)),
            },
            _ => Err(ClientError::MalformedReply),
        }
    } else {
        Err(failure_of(reply.status, false))
    }
}

fn open_content(key: &[u8; 32], reply: &Reply) -> (r: Result<String, ClientError>)
    ensures
        r matches Ok(s) ==> pull_outcome(key@, *reply) == Ok::<Seq<char>, ClientError>(s@),
        r matches Err(e) ==> pull_outcome(key@, *reply) == Err::<Seq<char>, ClientError>(e),
{
    if reply.status != 200 {
        return Err(reply_failure(reply.status, false));
    }
    match &reply.body {
        ReplyBody::Content { encrypted_content } => {
            match decrypt(encrypted_content.as_str(), key) {
                Ok(p) => Ok(p),
                Err(e) => Err(cipher_failure(e)),
            }
        },
        _ => Err(ClientError::MalformedReply),
    }
}

/// Finishes a pull from the server's answer: opens the ciphertext with the
/// project's encryption key. A failure status is reported as it came and
/// nothing is opened, so a wrong access key yields `NotFound`, never
/// `AuthenticationFailure`.
pub fn pull(credentials: &Credentials, reply: &Reply) -> (r: Result<String, ClientError>)
    ensures
        reply.status != 200 ==> r == Err::<String, ClientError>(failure_of(reply.status, false)),
        r matches Ok(s) ==> pull_outcome(credentials.encryption_key@, *reply) == Ok::<
            Seq<char>,
            ClientError,
        >(s@),
        r matches Err(e) ==> pull_outcome(credentials.encryption_key@, *reply) == Err::<
            Seq<char>,
            ClientError,
        >(e),
{
    open_content(&credentials.encryption_key, reply)
}

/// The access key held for a project, for a delete.
pub fn access_key_of(config: &LocalConfig, project_name: &str) -> (r: Result<String, ClientError>)
    ensures
        r matches Ok(k) ==> config@.projects.contains_key(project_name@)
            && config@.projects[project_name@].access_key == k@,
        r matches Err(e) ==> e == ClientError::UnknownProject && !config@.projects.contains_key(
            project_name@,
        ),
{
    match config.get(project_name) {
        Some(e) => Ok(e.access_key.clone()),
        None => Err(ClientError::UnknownProject),
    }
}

/// Prepares an update: the new content is sealed under the project's
/// stored encryption key, which is not regenerated.
pub fn update(config: &LocalConfig, project_name: &str, content: &str) -> (r: Result<
    UpdateRequest,
    ClientError,
>)
    requires
        sealable(content.spec_bytes().len()),
    ensures
        !config@.projects.contains_key(project_name@) ==> r == Err::<UpdateRequest, ClientError>(
            ClientError::UnknownProject,
        ),
        config@.projects.contains_key(project_name@) ==> {
            let entry = config@.projects[project_name@];
            match key_of(entry.encryption_key) {
                None => r == Err::<UpdateRequest, ClientError>(ClientError::EncodingError),
                Some(k) => r matches Ok(q) && q.access_key@ == entry.access_key && (exists|
                    nonce: Seq<u8>,
                |
                    nonce.len() == NONCE_LEN && q.encrypted_content@ == b64_encode(
                        #[trigger] sealed(content.spec_bytes(), k, nonce),
                    )) && decrypted(q.encrypted_content@, k) == Ok::<Seq<char>, CipherError>(
                    content@,
                ),
            }
        },
{
    let entry = match config.get(project_name) {
        Some(e) => e,
        None => return Err(ClientError::UnknownProject),
    };
    let key = match key_from_text(entry.encryption_key.as_str()) {
        Ok(k) => k,
        Err(e) => return Err(e),
    };
    let encrypted_content = encrypt(content, &key);
    Ok(UpdateRequest { access_key: entry.access_key.clone(), encrypted_content })
}

/// Reads an answer that confirms an update or a delete.
pub fn confirm(reply: &Reply) -> (r: Result<(), ClientError>)
    ensures
        r is Ok <==> reply.status == 200 && reply.body is Message,
        r matches Err(e) ==> e == failure_of(reply.status, false),
{
    if reply.status == 200 {
        if let ReplyBody::Message { .. } = &reply.body {
            return Ok(());
        }
    }
    Err(reply_failure(reply.status, false))
}

/// Finishes a delete from the server's answer: the local entry is dropped
/// only once the server confirmed; otherwise it is kept, so that the
/// delete can be retried.
pub fn delete(config: &mut LocalConfig, project_name: &str, reply: &Reply) -> (r: Result<
    (),
    ClientError,
>)
    ensures
        r is Ok <==> reply.status == 200 && reply.body is Message,
        r is Ok ==> final(config)@.api_url == old(config)@.api_url && final(config)@.projects
            == old(config)@.projects.remove(project_name@),
        r matches Err(e) ==> e == failure_of(reply.status, false) && final(config)@ == old(
            config,
        )@,
{
    match confirm(reply) {
        Ok(()) => {
            config.remove(project_name);
            Ok(())
        },
        Err(e) => Err(e),
    }
}

/// What a share hands over: the whole configuration when asked to include
/// all projects, else only the project's own credentials.
pub fn share_payload(config: &LocalConfig, project_id: &str, include_all_projects: bool) -> (r:
    Result<LocalConfig, ClientError>)
    ensures
        include_all_projects ==> (r matches Ok(c) && c@ == config@),
        !include_all_projects && !config@.projects.contains_key(project_id@) ==> r == Err::<
            LocalConfig,
            ClientError,
        >(ClientError::UnknownProject),
        !include_all_projects && config@.projects.contains_key(project_id@) ==> (r matches Ok(c)
            && c@.api_url is None && c@.projects == Map::<Seq<char>, EntryView>::empty().insert(
            project_id@,
            config@.projects[project_id@],
        )),
{
    if include_all_projects {
        return Ok(config.duplicate());
    }
    match config.single_project(project_id) {
        Some(c) => Ok(c),
        None => Err(ClientError::UnknownProject),
    }
}

/// Prepares a share of `payload` (the serialised configuration to hand
/// over) for `project_id` under a fresh random share code and a fresh
/// random key, unrelated to any key the project is stored under.
pub fn share_request(project_id: &str, payload: &str) -> (r: ShareRequest)
    requires
        sealable(payload.spec_bytes().len()),
    ensures
        r.project_id@ == project_id@,
        exists|code: Seq<u8>| code.len() == 32 && r.share_code@ == b64_encode(code),
        decrypted(r.encrypted_content@, r.share_key@) == Ok::<Seq<char>, CipherError>(payload@),
{
    let code: [u8; 32] = rand::random();
    let share_key = new_encryption_key();
    let share_code = base64_encode(code.as_slice());
    let encrypted_content = encrypt(payload, &share_key);
    ShareRequest { project_id: project_id.to_owned(), share_code, encrypted_content, share_key }
}

/// Finishes a share from the server's answer: what the recipient needs is
/// the share code, the project, the server address and the share key.
pub fn share(request: &ShareRequest, api_url: &str, reply: &Reply) -> (r: Result<
    ShareTicket,
    ClientError,
>)
    ensures
        r is Ok <==> reply.status == 200 && reply.body is Message,
        r matches Ok(t) ==> t.share_code@ == request.share_code@ && t.project_id@
            == request.project_id@ && t.api_url@ == api_url@ && t.encryption_key@ == b64_encode(
            request.share_key@,
        ),
        r matches Ok(t) ==> key_of(t.encryption_key@) == Some(request.share_key@),
        r matches Err(e) ==> e == failure_of(reply.status, true),
{
    if reply.status == 200 {
        if let ReplyBody::Message { .. } = &reply.body {
            return Ok(
                ShareTicket {
                    share_code: request.share_code.clone(),
                    project_id: request.project_id.clone(),
                    api_url: api_url.to_owned(),
                    encryption_key: base64_encode(request.share_key.as_slice()),
                },
            );
        }
    }
    Err(reply_failure(reply.status, true))
}

/// What a recipient recovers from the server's answer to a share read,
/// given the share key in base64.
pub open spec fn getshared_outcome(encryption_key: Seq<char>, reply: Reply) -> Result<
    Seq<char>,
    ClientError,
> {
    match key_of(encryption_key) {
        None => Err(ClientError::EncodingError),
        Some(k) => pull_outcome(k, reply),
    }
}

/// Opens a share from the server's answer with the share key the sharer
/// handed over, and gives the serialised configuration it holds.
pub fn getshared(encryption_key: &str, reply: &Reply) -> (r: Result<String, ClientError>)
    ensures
        r matches Ok(s) ==> getshared_outcome(encryption_key@, *reply) == Ok::<
            Seq<char>,
            ClientError,
        >(s@),
        r matches Err(e) ==> getshared_outcome(encryption_key@, *reply) == Err::<
            Seq<char>,
            ClientError,
        >(e),
{
    let key = match key_from_text(encryption_key) {
        Ok(k) => k,
        Err(e) => return Err(e),
    };
    open_content(&key, reply)
}

/// Merges a received configuration into the local one. One that names a
/// server address replaces the local configuration wholesale; otherwise
/// only `project_id`'s entry is taken from it, and every other local entry
/// is kept.
pub fn merge_shared(config: &mut LocalConfig, project_id: &str, shared: LocalConfig) -> (r: Result<
    (),
    ClientError,
>)
    ensures
        shared@.api_url is Some ==> r is Ok && final(config)@ == shared@,
        shared@.api_url is None && shared@.projects.contains_key(project_id@) ==> r is Ok
            && final(config)@.api_url == old(config)@.api_url && final(config)@.projects == old(
            config,
        )@.projects.insert(project_id@, shared@.projects[project_id@]),
        shared@.api_url is None && !shared@.projects.contains_key(project_id@) ==> r == Err::<
            (),
            ClientError,
        >(ClientError::UnknownProject) && final(config)@ == old(config)@,
{
    if shared.server().is_some() {
        *config = shared;
        return Ok(());
    }
    match shared.get(project_id) {
        Some(e) => {
            config.insert(e.duplicate());
            Ok(())
        },
        None => Err(ClientError::UnknownProject),
    }
}

} // verus!
