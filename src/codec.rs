//! The binary-safe text encoding used on the event channel (standard base64,
//! with padding), and the session identifiers handed to callers.

use base64::Engine;
use vstd::prelude::*;

verus! {

/// The standard base64 text of a byte string.
pub uninterp spec fn b64_encoded(bytes: Seq<u8>) -> Seq<char>;

/// The bytes that a standard base64 text stands for, or `None` where the text
/// is not canonical standard base64.
pub uninterp spec fn b64_decoded(text: Seq<char>) -> Option<Seq<u8>>;

/// Relies on `base64::engine::general_purpose::STANDARD.encode`: the padded
/// standard base64 text of the bytes; no bytes give the empty text. It panics
/// only where the encoded length overflows `usize`.
#[verifier::external_body]
pub(crate) fn encode_base64(bytes: &[u8]) -> (r: String)
    requires
        bytes@.len() < usize::MAX as int / 2,
    ensures
        r@ == b64_encoded(bytes@),
        bytes@.len() == 0 ==> r@.len() == 0,
{
    base64::engine::general_purpose::STANDARD.encode(bytes)
}

/// Relies on `base64::engine::general_purpose::STANDARD.decode`: the bytes
/// that a canonical padded base64 text stands for, an error otherwise (turned
/// into `None` here). The text that `encode` produced for some bytes decodes
/// to exactly those bytes.
#[verifier::external_body]
pub(crate) fn decode_base64(text: &str) -> (r: Option<Vec<u8>>)
    ensures
        match r {
            Some(v) => b64_decoded(text@) == Some(v@),
            None => b64_decoded(text@) is None,
        },
        forall|b: Seq<u8>| #[trigger] b64_encoded(b) == text@ ==> (r is Some && r->Some_0@ == b),
{
    base64::engine::general_purpose::STANDARD.decode(text).ok()
}

/// Relies on `uuid::Uuid::new_v4` and its `Display`: a random version-4
/// identifier in its hyphenated lower-case form. Nothing is promised of the
/// value: two calls may in principle agree.
#[verifier::external_body]
pub(crate) fn random_session_id() -> (r: String) {
    uuid::Uuid::new_v4().to_string()
}

/// Encodes bytes for the event channel.
pub fn encode_bytes(bytes: &[u8]) -> (r: String)
    requires
        bytes@.len() < usize::MAX as int / 2,
    ensures
        r@ == b64_encoded(bytes@),
{
    encode_base64(bytes)
}

/// Decodes a payload from the event channel: `None` exactly when the text is
/// not standard base64. What `encode_bytes` produced comes back unchanged.
pub fn decode_bytes(text: &str) -> (r: Option<Vec<u8>>)
    ensures
        r is Some <==> b64_decoded(text@) is Some,
        r is Some ==> b64_decoded(text@) == Some(r->Some_0@),
        forall|b: Seq<u8>| #[trigger] b64_encoded(b) == text@ ==> (r is Some && r->Some_0@ == b),
{
    decode_base64(text)
}

} // verus!
