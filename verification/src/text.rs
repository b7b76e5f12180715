//! Strings as the bytes they are stored as.

use vstd::prelude::*;
use vstd::utf8::*;

verus! {

/// The bytes of each string of a list.
pub open spec fn bytes_of_each(list: Seq<String>) -> Seq<Seq<u8>> {
    Seq::new(list.len(), |i: int| encode_utf8(list[i]@))
}

/// The characters of each string of a list.
pub open spec fn chars_of_each(list: Seq<String>) -> Seq<Seq<char>> {
    Seq::new(list.len(), |i: int| list[i]@)
}

/// In well-formed UTF-8 a byte below 0x80 is a character of its own: a
/// character starts at it and another one, or nothing, right after it.
pub proof fn lemma_ascii_byte_boundaries(bytes: Seq<u8>, j: int)
    requires
        valid_utf8(bytes),
        0 <= j < bytes.len(),
        bytes[j] <= 0x7f,
    ensures
        is_char_boundary(bytes, j),
        is_char_boundary(bytes, j + 1),
    decreases bytes.len(),
{
    is_char_boundary_iff_not_is_continuation_byte(bytes, j);
    let first = length_of_first_scalar(bytes);
    let rest = pop_first_scalar(bytes);
    if j < first {
        reveal_with_fuel(is_char_boundary, 2);
    } else {
        assert(rest[j - first] == bytes[j]);
        lemma_ascii_byte_boundaries(rest, j - first);
    }
}

/// The bytes of two strings put together are the bytes of the first
/// followed by those of the second.
pub proof fn lemma_encode_concat(a: Seq<char>, b: Seq<char>)
    ensures
        encode_utf8(a + b) == encode_utf8(a) + encode_utf8(b),
    decreases a.len(),
{
    if a.len() == 0 {
        assert(a + b =~= b);
        assert(encode_utf8(a) + encode_utf8(b) =~= encode_utf8(b));
    } else {
        assert((a + b).drop_first() =~= a.drop_first() + b);
        lemma_encode_concat(a.drop_first(), b);
        assert(encode_utf8(a + b) =~= encode_utf8(a) + encode_utf8(b));
    }
}

/// Strings with the same bytes are the same text: two lists whose strings
/// have the same bytes, one by one, have the same characters.
pub proof fn lemma_same_bytes_same_chars(a: Seq<String>, b: Seq<String>)
    requires
        bytes_of_each(a) == bytes_of_each(b),
    ensures
        chars_of_each(a) == chars_of_each(b),
{
    assert(a.len() == bytes_of_each(a).len());
    assert(b.len() == bytes_of_each(b).len());
    assert forall|i: int| 0 <= i < a.len() implies a[i]@ == b[i]@ by {
        assert(bytes_of_each(a)[i] == bytes_of_each(b)[i]);
        encode_utf8_decode_utf8(a[i]@);
        encode_utf8_decode_utf8(b[i]@);
    }
    assert(chars_of_each(a) =~= chars_of_each(b));
}

} // verus!
