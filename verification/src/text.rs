//! Texts and their UTF-8 bytes.

use vstd::prelude::*;
use vstd::utf8::{encode_scalar, encode_utf8, is_ascii_chars, is_ascii_chars_encode_utf8};

verus! {

/// The number of bytes of a text in UTF-8.
pub open spec fn byte_len(text: Seq<char>) -> nat {
    encode_utf8(text).len()
}

/// The bytes of two joined texts are the bytes of the one and then those of the other.
pub proof fn lemma_encode_concat(a: Seq<char>, b: Seq<char>)
    ensures
        encode_utf8(a + b) == encode_utf8(a) + encode_utf8(b),
    decreases a.len(),
{
    if a.len() == 0 {
        assert(a + b =~= b);
        assert(encode_utf8(a) + encode_utf8(b) =~= encode_utf8(b));
    } else {
        let tail = a.drop_first();
        assert((a + b).drop_first() =~= tail + b);
        lemma_encode_concat(tail, b);
        let head = encode_scalar(a[0] as u32);
        assert(encode_utf8(a + b) == head + (encode_utf8(tail) + encode_utf8(b)));
        assert(head + (encode_utf8(tail) + encode_utf8(b)) =~= (head + encode_utf8(tail))
            + encode_utf8(b));
    }
}

/// An ASCII text has a byte for each character.
pub proof fn lemma_ascii_byte_len(text: Seq<char>)
    requires
        is_ascii_chars(text),
    ensures
        byte_len(text) == text.len(),
{
    is_ascii_chars_encode_utf8(text);
}

/// Joins four texts.
pub(crate) fn join(a: &str, b: &str, c: &str, d: &str) -> (joined: String)
    ensures
        joined@ == a@ + b@ + c@ + d@,
{
    let mut joined = String::new();
    joined.append(a);
    joined.append(b);
    joined.append(c);
    joined.append(d);
    assert(Seq::<char>::empty() + a@ =~= a@);
    joined
}

} // verus!
