//! HTTP header fields.

use reqwest::header::{HeaderMap, HeaderValue, InvalidHeaderValue};
use vstd::prelude::*;
use vstd::utf8::{encode_utf8, is_ascii_chars, is_ascii_chars_encode_utf8};

verus! {

/// The header map of the `http` crate.
#[verifier::external_type_specification]
#[verifier::external_body]
#[verifier::reject_recursive_types(T)]
pub struct ExHeaderMap<T>(HeaderMap<T>);

/// A header field value of the `http` crate.
#[verifier::external_type_specification]
#[verifier::external_body]
pub struct ExHeaderValue(HeaderValue);

/// The error of a refused header field value.
#[verifier::external_type_specification]
#[verifier::external_body]
pub struct ExInvalidHeaderValue(InvalidHeaderValue);

/// The values that a header map holds under each name, in the order in which they were appended.
pub uninterp spec fn header_fields(headers: HeaderMap<HeaderValue>) -> Map<Seq<char>, Seq<Seq<u8>>>;

/// The bytes that a header value holds.
pub uninterp spec fn header_value_bytes(value: HeaderValue) -> Seq<u8>;

/// Whether `text` can be sent as a header value: its UTF-8 bytes hold no control character
/// other than a tab.
pub open spec fn is_header_text(text: Seq<char>) -> bool {
    forall|i: int|
        0 <= i < encode_utf8(text).len() ==> {
            let b = #[trigger] encode_utf8(text)[i];
            (b >= 32 && b != 127) || b == 9
        }
}

/// Calls `HeaderValue::from_str`, which keeps the bytes of `text` as they are, and refuses it if
/// and only if one of them is below 32, other than a tab, or is 127.
#[verifier::external_body]
pub(crate) fn header_value(text: &str) -> (value: Result<HeaderValue, InvalidHeaderValue>)
    ensures
        value is Ok <==> is_header_text(text@),
        value matches Ok(v) ==> header_value_bytes(v) == encode_utf8(text@),
{
    HeaderValue::from_str(text)
}

/// Calls `HeaderMap::new`, which makes a map without fields.
#[verifier::external_body]
pub(crate) fn no_headers() -> (headers: HeaderMap<HeaderValue>)
    ensures
        (header_fields(headers) == Map::<Seq<char>, Seq<Seq<u8>>>::empty()),
{
    HeaderMap::new()
}

/// Whether `name` is a header name of at most 64 lower case letters, digits and hyphens.
pub open spec fn is_header_name(name: Seq<char>) -> bool {
    &&& 1 <= name.len() <= 64
    &&& forall|i: int|
        0 <= i < name.len() ==> {
            let c = #[trigger] name[i];
            ('a' <= c && c <= 'z') || ('0' <= c && c <= '9') || c == '-'
        }
}

/// The fields that `fields` become when `value` is appended under `name`.
pub open spec fn with_field(
    fields: Map<Seq<char>, Seq<Seq<u8>>>,
    name: Seq<char>,
    value: Seq<u8>,
) -> Map<Seq<char>, Seq<Seq<u8>>> {
    if fields.dom().contains(name) {
        fields.insert(name, fields[name].push(value))
    } else {
        fields.insert(name, seq![value])
    }
}

/// Calls `HeaderMap::append`, which puts the value behind those that stand under the name, and
/// says whether there were any. Standard names, such as `content-type`, are the same name
/// whether given as a text or as the crate's constant. It panics on a name that is not valid, and
/// on a map that has grown too large; a map of fewer than 1024 names is far from that.
#[verifier::external_body]
pub(crate) fn append_header(
    headers: &mut HeaderMap<HeaderValue>,
    name: &'static str,
    value: HeaderValue,
) -> (present: bool)
    requires
        is_header_name(name@),
        header_fields(*old(headers)).dom().finite(),
        header_fields(*old(headers)).dom().len() < 1024,
    ensures
        present == header_fields(*old(headers)).dom().contains(name@),
        header_fields(*final(headers)) == with_field(
            header_fields(*old(headers)),
            name@,
            header_value_bytes(value),
        ),
{
    headers.append(name, value)
}

/// Whether `text` holds only visible ASCII characters and spaces.
pub open spec fn is_visible_ascii(text: Seq<char>) -> bool {
    forall|i: int|
        0 <= i < text.len() ==> 32 <= (#[trigger] text[i]) as int && (text[i] as int) < 127
}

/// A text of visible ASCII characters can be sent as a header value.
pub proof fn lemma_visible_ascii_is_header_text(text: Seq<char>)
    requires
        is_visible_ascii(text),
    ensures
        is_header_text(text),
{
    assert(is_ascii_chars(text));
    is_ascii_chars_encode_utf8(text);
}

} // verus!
