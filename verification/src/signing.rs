//! Signatures with a shared secret.

use data_encoding::{DecodeError, BASE64};
use ring::hmac;
use vstd::prelude::*;
use vstd::utf8::encode_utf8;

verus! {

/// The error of a text that is not base64.
#[verifier::external_type_specification]
#[verifier::external_body]
pub struct ExDecodeError(DecodeError);

/// The bytes that a padded base64 text stands for, or `None` where it is not such a text.
pub uninterp spec fn base64_decoded(text: Seq<u8>) -> Option<Seq<u8>>;

/// The padded base64 text of some bytes.
pub uninterp spec fn base64_encoded(bytes: Seq<u8>) -> Seq<char>;

/// The HMAC-SHA256 tag of some data under a key.
pub uninterp spec fn hmac_sha256(key: Seq<u8>, data: Seq<u8>) -> Seq<u8>;

/// Whether `text` holds only letters, digits, `+`, `/` and `=`.
pub open spec fn is_base64_text(text: Seq<char>) -> bool {
    forall|i: int|
        0 <= i < text.len() ==> {
            let c = #[trigger] text[i];
            ('A' <= c && c <= 'Z') || ('a' <= c && c <= 'z') || ('0' <= c && c <= '9') || c == '+'
                || c == '/' || c == '='
        }
}

/// Whether the last `count` characters of `text`, and no others, are `=`.
pub open spec fn is_padded(text: Seq<char>, count: int) -> bool {
    forall|i: int|
        0 <= i < text.len() ==> ((#[trigger] text[i]) == '=' <==> text.len() - count <= i)
}

/// Calls `Encoding::decode` of `BASE64`, which gives the bytes, never more of them than the text
/// has, or an error where the text is not padded base64. It may panic on a text longer than the
/// bound.
#[verifier::external_body]
pub(crate) fn decode_base64(text: &[u8]) -> (bytes: Result<Vec<u8>, DecodeError>)
    requires
        text@.len() <= usize::MAX / 8,
    ensures
        match bytes {
            Ok(b) => base64_decoded(text@) == Some(b@),
            Err(_) => base64_decoded(text@) is None,
        },
        bytes matches Ok(b) ==> b@.len() <= text@.len(),
{
    BASE64.decode(text)
}

/// Calls `Encoding::encode` of `BASE64`, which writes four characters of the base64 alphabet for
/// each three bytes begun. One `=` closes the text for each byte that is missing from the last
/// three, and there is none before. Decoding the text gives the bytes back. It panics on more
/// bytes than the bound.
#[verifier::external_body]
pub(crate) fn encode_base64(bytes: &[u8]) -> (text: String)
    requires
        bytes@.len() <= usize::MAX / 512,
    ensures
        text@ == base64_encoded(bytes@),
        is_base64_text(text@),
        text@.len() == (bytes@.len() + 2) / 3 * 4,
        is_padded(text@, (3 - bytes@.len() % 3) % 3),
        base64_decoded(encode_utf8(text@)) == Some(bytes@),
{
    BASE64.encode(bytes)
}

/// Calls `hmac::sign` with the key that `hmac::Key::new` makes for HMAC-SHA256 from the bytes of
/// `key`. The tag has 32 bytes. It panics on data whose length in bits, with the padded key in
/// front, does not fit 64 bits.
#[verifier::external_body]
pub(crate) fn sign_hmac_sha256(key: &[u8], data: &[u8]) -> (tag: Vec<u8>)
    requires
        key@.len() <= usize::MAX / 8,
        data@.len() + 128 <= usize::MAX / 8,
    ensures
        tag@ == hmac_sha256(key@, data@),
        tag@.len() == 32,
{
    hmac::sign(&hmac::Key::new(hmac::HMAC_SHA256, key), data).as_ref().to_vec()
}

/// The signature of `message` under `key`: the base64 text of the HMAC-SHA256 tag of its bytes.
pub open spec fn signature(key: Seq<u8>, message: Seq<char>) -> Seq<char> {
    base64_encoded(hmac_sha256(key, encode_utf8(message)))
}

} // verus!
