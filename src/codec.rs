//! Text encodings used on the wire and in the local configuration:
//! base64 (standard alphabet, padded) for byte strings, UTF-8 for text.
use vstd::prelude::*;
use vstd::utf8::*;
use base64::engine::general_purpose;
use base64::Engine;

verus! {

/// The text that base64's standard padded engine produces for `bytes`.
pub uninterp spec fn b64_encode(bytes: Seq<u8>) -> Seq<char>;

/// The bytes that base64's standard padded engine decodes `text` to,
/// or `None` where it rejects `text`.
pub uninterp spec fn b64_decode(text: Seq<char>) -> Option<Seq<u8>>;

/// Whether the base64 text of `n` bytes has a length that fits in `usize`.
pub open spec fn b64_fits(n: nat) -> bool {
    (n / 3) * 4 + 4 <= usize::MAX
}

#[verifier::external_type_specification]
#[verifier::external_body]
pub struct ExDecodeError(base64::DecodeError);

/// Relies on `Engine::encode` of `base64::engine::general_purpose::STANDARD`:
/// it panics only where the length of its output overflows `usize`, and
/// `Engine::decode` of the same engine gives the input back from its output.
#[verifier::external_body]
pub(crate) fn base64_encode(bytes: &[u8]) -> (r: String)
    requires
        b64_fits(bytes@.len()),
    ensures
        r@ == b64_encode(bytes@),
        b64_decode(r@) == Some(bytes@),
{
    general_purpose::STANDARD.encode(bytes)
}

/// Relies on `Engine::decode` of `base64::engine::general_purpose::STANDARD`,
/// applied to the UTF-8 bytes of `text`.
#[verifier::external_body]
pub(crate) fn base64_decode(text: &str) -> (r: Result<Vec<u8>, base64::DecodeError>)
    ensures
        r matches Ok(b) ==> b64_decode(text@) == Some(b@),
        r is Err ==> b64_decode(text@) is None,
{
    general_purpose::STANDARD.decode(text)
}

/// Relies on `String::from_utf8`: it accepts exactly the valid UTF-8 byte
/// strings, and the string it returns holds the characters they encode.
#[verifier::external_body]
pub(crate) fn string_from_utf8(bytes: Vec<u8>) -> (r: Option<String>)
    ensures
        r matches Some(s) ==> valid_utf8(bytes@) && s@ == decode_utf8(bytes@),
        r is None ==> !valid_utf8(bytes@),
{
    String::from_utf8(bytes).ok()
}

} // verus!
