//! Bytes read as text, ASCII letters and digits, and the operations of the
//! standard library that this crate builds text with.

use vstd::prelude::*;
use vstd::utf8::{encode_utf8, is_ascii_chars, is_ascii_chars_encode_utf8};

verus! {

/// The character that the byte `b` stands for: the one whose code point is
/// `b`.
pub open spec fn char_of(b: u8) -> char {
    b as char
}

/// `bytes` read as text, one character for each byte.
pub open spec fn text_of(bytes: Seq<u8>) -> Seq<char> {
    bytes.map_values(|b: u8| char_of(b))
}

/// Whether `c` is one of the digits `0` to `9`.
pub open spec fn is_digit(c: char) -> bool {
    '0' <= c <= '9'
}

/// Whether `c` is one of the capital letters `A` to `Z`.
pub open spec fn is_upper(c: char) -> bool {
    'A' <= c <= 'Z'
}

/// Whether `c` is one of the small letters `a` to `z`.
pub open spec fn is_lower(c: char) -> bool {
    'a' <= c <= 'z'
}

/// The lowercase form of the byte `b`: a capital letter becomes the small
/// letter 32 places further on, every other byte stays as it is.
pub open spec fn lowercase(b: u8) -> u8 {
    if is_upper(char_of(b)) {
        (b + 32) as u8
    } else {
        b
    }
}

/// Trusted: `u8::to_ascii_lowercase` of the standard library. Its
/// documentation says that the ASCII letters `A` to `Z` are mapped to `a` to
/// `z` and that every other value is returned unchanged; that is what
/// [`lowercase`] states.
pub assume_specification[ u8::to_ascii_lowercase ](b: &u8) -> (r: u8)
    ensures
        r == lowercase(*b),
;

/// Trusted: `String::with_capacity` of the standard library, which returns a
/// new, empty string. A capacity above `isize::MAX` is left out, since the
/// allocation behind the string would panic on it.
pub assume_specification[ String::with_capacity ](capacity: usize) -> (s: String)
    requires
        capacity <= isize::MAX,
    ensures
        s@ == Seq::<char>::empty(),
;

/// Trusted: `String::push` of the standard library, which appends the given
/// character to the end of the string and leaves what came before as it was.
pub assume_specification[ String::push ](s: &mut String, ch: char)
    ensures
        final(s)@ == old(s)@.push(ch),
;

/// No two sequences of bytes read as the same text.
pub proof fn lemma_text_of_injective(a: Seq<u8>, b: Seq<u8>)
    requires
        text_of(a) == text_of(b),
    ensures
        a == b,
{
    assert(a.len() == text_of(a).len());
    assert(b.len() == text_of(b).len());
    assert forall|i: int| 0 <= i < a.len() implies a[i] == b[i] by {
        assert(char_of(a[i]) == text_of(a)[i]);
        assert(char_of(b[i]) == text_of(b)[i]);
    }
    assert(a =~= b);
}

/// Bytes that read as ASCII text are the UTF-8 bytes of that text.
pub proof fn lemma_ascii_bytes(bytes: Seq<u8>)
    requires
        is_ascii_chars(text_of(bytes)),
    ensures
        encode_utf8(text_of(bytes)) == bytes,
{
    let text = text_of(bytes);
    is_ascii_chars_encode_utf8(text);
    assert forall|i: int| 0 <= i < bytes.len() implies encode_utf8(text)[i] == bytes[i] by {
        assert(text[i] == char_of(bytes[i]));
        assert(text[i] as u8 == encode_utf8(text)[i]);
    }
    assert(encode_utf8(text) =~= bytes);
}

} // verus!
