//! Authenticated encryption of secrets under a caller-held 256-bit key.
//!
//! A sealed payload is `nonce (12 bytes) || ciphertext || tag (16 bytes)`,
//! produced by AES-256-GCM with a fresh random nonce for every call.
use vstd::prelude::*;
use vstd::utf8::*;
use vstd::string::StringSliceAdditionalSpecFns;
use aes_gcm::aead::{Aead, KeyInit};
use aes_gcm::{Aes256Gcm, Key, Nonce};
use crate::codec::{
    b64_decode, b64_encode, b64_fits, base64_decode, base64_encode, string_from_utf8,
};

verus! {

/// Bytes in a key.
pub const KEY_LEN: usize = 32;

/// Bytes in a nonce, which leads every sealed payload.
pub const NONCE_LEN: usize = 12;

/// Bytes in the authentication tag, which ends every sealed payload.
pub const TAG_LEN: usize = 16;

/// The longest plaintext that AES-GCM encrypts under one nonce: 2^36 bytes.
pub const MAX_PLAINTEXT_LEN: u64 = 68719476736;

/// Why a sealed payload could not be turned back into plaintext.
#[derive(Clone, Copy, Debug, PartialEq, Eq, Structural)]
pub enum CipherError {
    /// The text was not valid base64, or the plaintext was not UTF-8.
    EncodingError,
    /// The payload was too short, or its tag did not verify under the key.
    AuthenticationFailure,
}

/// The ciphertext and tag that AES-256-GCM gives for `plaintext` under
/// `key` and `nonce`, with no associated data.
pub uninterp spec fn gcm_encrypt(key: Seq<u8>, nonce: Seq<u8>, plaintext: Seq<u8>) -> Seq<u8>;

/// The plaintext that AES-256-GCM recovers from `ciphertext` (tag last)
/// under `key` and `nonce`, with no associated data, or `None` where it
/// refuses the ciphertext: shorter than a tag, longer than its limit, or
/// with a tag that does not verify.
pub uninterp spec fn gcm_decrypt(key: Seq<u8>, nonce: Seq<u8>, ciphertext: Seq<u8>) -> Option<Seq<u8>>;

#[verifier::external_type_specification]
#[verifier::external_body]
pub struct ExAeadError(aes_gcm::Error);

/// Relies on `Aead::encrypt` of `aes_gcm::Aes256Gcm`: it fails only on a
/// plaintext longer than `P_MAX` (2^36 bytes), appends a 16-byte tag, and
/// `Aead::decrypt` under the same key and nonce gives the plaintext back.
#[verifier::external_body]
fn aes_gcm_encrypt(key: &[u8; 32], nonce: &[u8], plaintext: &[u8]) -> (r: Result<
    Vec<u8>,
    aes_gcm::Error,
>)
    requires
        nonce@.len() == NONCE_LEN,
        plaintext@.len() <= MAX_PLAINTEXT_LEN,
    ensures
        r is Ok,
        r matches Ok(c) ==> c@ == gcm_encrypt(key@, nonce@, plaintext@),
        r matches Ok(c) ==> c@.len() == plaintext@.len() + TAG_LEN,
        r matches Ok(c) ==> gcm_decrypt(key@, nonce@, c@) == Some(plaintext@),
{
    Aes256Gcm::new(Key::<Aes256Gcm>::from_slice(key)).encrypt(Nonce::from_slice(nonce), plaintext)
}

/// Relies on `Aead::decrypt` of `aes_gcm::Aes256Gcm`, with no associated data.
#[verifier::external_body]
fn aes_gcm_decrypt(key: &[u8; 32], nonce: &[u8], ciphertext: &[u8]) -> (r: Result<
    Vec<u8>,
    aes_gcm::Error,
>)
    requires
        nonce@.len() == NONCE_LEN,
    ensures
        r matches Ok(p) ==> gcm_decrypt(key@, nonce@, ciphertext@) == Some(p@),
        r is Err ==> gcm_decrypt(key@, nonce@, ciphertext@) is None,
{
    Aes256Gcm::new(Key::<Aes256Gcm>::from_slice(key)).decrypt(Nonce::from_slice(nonce), ciphertext)
}

/// Relies on `rand::random`, which draws from the thread-local generator;
/// nothing is stated of the value it returns.
pub assume_specification<T>[ rand::random::<T> ]() -> T
    where
        rand::distributions::Standard: rand::distributions::Distribution<T>,
;

/// The payload that sealing `plaintext` under `key` with `nonce` produces.
pub open spec fn sealed(plaintext: Seq<u8>, key: Seq<u8>, nonce: Seq<u8>) -> Seq<u8> {
    nonce + gcm_encrypt(key, nonce, plaintext)
}

/// What opening `payload` under `key` gives.
pub open spec fn opened(payload: Seq<u8>, key: Seq<u8>) -> Result<Seq<u8>, CipherError> {
    if payload.len() < NONCE_LEN {
        Err(CipherError::AuthenticationFailure)
    } else {
        match gcm_decrypt(
            key,
            payload.subrange(0, NONCE_LEN as int),
            payload.subrange(NONCE_LEN as int, payload.len() as int),
        ) {
            Some(p) => Ok(p),
            None => Err(CipherError::AuthenticationFailure),
        }
    }
}

/// Whether a plaintext of `n` bytes can be sealed and base64-encoded.
pub open spec fn sealable(n: nat) -> bool {
    n <= MAX_PLAINTEXT_LEN && b64_fits((n + NONCE_LEN + TAG_LEN) as nat)
}

/// Whether a plaintext of `n` bytes can be passed to `seal` and `encrypt`.
pub fn sealable_len(n: usize) -> (r: bool)
    ensures
        r == sealable(n as nat),
{
    if n as u64 > MAX_PLAINTEXT_LEN {
        return false;
    }
    let total = n as u64 + (NONCE_LEN + TAG_LEN) as u64;
    total / 3 <= (usize::MAX as u64 - 4) / 4
}

/// The text that `decrypt` recovers from `text` under `key`.
pub open spec fn decrypted(text: Seq<char>, key: Seq<u8>) -> Result<Seq<char>, CipherError> {
    match b64_decode(text) {
        None => Err(CipherError::EncodingError),
        Some(payload) => match opened(payload, key) {
            Err(e) => Err(e),
            Ok(p) => if valid_utf8(p) {
                Ok(decode_utf8(p))
            } else {
                Err(CipherError::EncodingError)
            },
        },
    }
}

/// Seals `plaintext` under `key` with the given `nonce`, which must not
/// have sealed anything else under `key`; `seal` draws a fresh one.
pub fn seal_with_nonce(plaintext: &[u8], key: &[u8; 32], nonce: &[u8; 12]) -> (r: Vec<u8>)
    requires
        plaintext@.len() <= MAX_PLAINTEXT_LEN,
    ensures
        r@ == sealed(plaintext@, key@, nonce@),
        r@.len() == NONCE_LEN + plaintext@.len() + TAG_LEN,
        opened(r@, key@) == Ok::<Seq<u8>, CipherError>(plaintext@),
{
    let n = nonce.as_slice();
    let mut out: Vec<u8> = Vec::new();
    let mut i: usize = 0;
    while i < NONCE_LEN
        invariant
            n@ == nonce@,
            n@.len() == NONCE_LEN,
            0 <= i <= NONCE_LEN,
            out@ == n@.subrange(0, i as int),
        decreases NONCE_LEN - i,
    {
        out.push(n[i]);
        i = i + 1;
    }
    let mut body = match aes_gcm_encrypt(key, n, plaintext) {
        Ok(c) => c,
        Err(_) => {
            proof {
                assert(false);
            }
            Vec::new()
        },
    };
    let ghost c = body@;
    out.append(&mut body);
    proof {
        assert(out@.subrange(0, NONCE_LEN as int) =~= nonce@);
        assert(out@.subrange(NONCE_LEN as int, out@.len() as int) =~= c);
    }
    out
}

/// Seals `plaintext` under `key` with a fresh random nonce.
///
/// Opening the result under the same key gives `plaintext` back.
pub fn seal(plaintext: &[u8], key: &[u8; 32]) -> (r: Vec<u8>)
    requires
        plaintext@.len() <= MAX_PLAINTEXT_LEN,
    ensures
        r@.len() == NONCE_LEN + plaintext@.len() + TAG_LEN,
        r@ == sealed(plaintext@, key@, r@.subrange(0, NONCE_LEN as int)),
        opened(r@, key@) == Ok::<Seq<u8>, CipherError>(plaintext@),
{
    let nonce: [u8; 12] = rand::random();
    let r = seal_with_nonce(plaintext, key, &nonce);
    proof {
        assert(r@.subrange(0, NONCE_LEN as int) =~= nonce@);
    }
    r
}

/// Opens a sealed payload under `key`; fails with `AuthenticationFailure`
/// when the payload is shorter than a nonce or its tag does not verify.
pub fn open(payload: &[u8], key: &[u8; 32]) -> (r: Result<Vec<u8>, CipherError>)
    ensures
        r matches Ok(p) ==> opened(payload@, key@) == Ok::<Seq<u8>, CipherError>(p@),
        r matches Err(e) ==> opened(payload@, key@) == Err::<Seq<u8>, CipherError>(e),
{
    if payload.len() < NONCE_LEN {
        return Err(CipherError::AuthenticationFailure);
    }
    let nonce = &payload[0..NONCE_LEN];
    let body = &payload[NONCE_LEN..payload.len()];
    match aes_gcm_decrypt(key, nonce, body) {
        Ok(p) => Ok(p),
        Err(_) => Err(CipherError::AuthenticationFailure),
    }
}

/// Encrypts `data` under `key` and returns the sealed payload as base64 text.
///
/// Decrypting the result under the same key gives `data` back.
pub fn encrypt(data: &str, key: &[u8; 32]) -> (r: String)
    requires
        sealable(data.spec_bytes().len()),
    ensures
        exists|nonce: Seq<u8>|
            nonce.len() == NONCE_LEN && r@ == b64_encode(
                #[trigger] sealed(data.spec_bytes(), key@, nonce),
            ) && b64_decode(r@) == Some(sealed(data.spec_bytes(), key@, nonce)) && sealed(
                data.spec_bytes(),
                key@,
                nonce,
            ).len() == NONCE_LEN + data.spec_bytes().len() + TAG_LEN,
        decrypted(r@, key@) == Ok::<Seq<char>, CipherError>(data@),
{
    let bytes = data.as_bytes();
    let payload = seal(bytes, key);
    let r = base64_encode(payload.as_slice());
    proof {
        broadcast use encode_utf8_decode_utf8, encode_utf8_valid_utf8;

        let nonce = payload@.subrange(0, NONCE_LEN as int);
        assert(r@ == b64_encode(sealed(data.spec_bytes(), key@, nonce)));
    }
    r
}

/// Decrypts base64 text produced by `encrypt` under `key`.
///
/// Fails with `EncodingError` when the text is not base64 or the plaintext
/// is not UTF-8, and with `AuthenticationFailure` when opening fails.
pub fn decrypt(encrypted_data: &str, key: &[u8; 32]) -> (r: Result<String, CipherError>)
    ensures
        r matches Ok(s) ==> decrypted(encrypted_data@, key@) == Ok::<Seq<char>, CipherError>(s@),
        r matches Err(e) ==> decrypted(encrypted_data@, key@) == Err::<Seq<char>, CipherError>(e),
{
    let payload = match base64_decode(encrypted_data) {
        Ok(b) => b,
        Err(_) => return Err(CipherError::EncodingError),
    };
    let plain = match open(payload.as_slice(), key) {
        Ok(p) => p,
        Err(e) => return Err(e),
    };
    match string_from_utf8(plain) {
        Some(s) => Ok(s),
        None => Err(CipherError::EncodingError),
    }
}

} // verus!
