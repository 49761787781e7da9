//! Facts that tie a text to its UTF-8 bytes: the executable code scans
//! bytes, the contracts speak of characters.

use vstd::prelude::*;
use vstd::utf8::*;
use crate::text::{occurs, occurs_at};

verus! {

/// The encoding of a concatenation is the concatenation of the encodings.
pub proof fn lemma_encode_concat(a: Seq<char>, b: Seq<char>)
    ensures
        encode_utf8(a + b) == encode_utf8(a) + encode_utf8(b),
    decreases a.len(),
{
    if a.len() > 0 {
        lemma_encode_concat(a.drop_first(), b);
        assert((a + b).drop_first() =~= a.drop_first() + b);
    }
}

/// Two texts with the same encoding are the same text.
pub proof fn lemma_encode_injective(a: Seq<char>, b: Seq<char>)
    requires
        encode_utf8(a) == encode_utf8(b),
    ensures
        a == b,
{
    encode_utf8_decode_utf8(a);
    encode_utf8_decode_utf8(b);
}

/// Where the bytes of `whole` are cut in two and each part is the encoding
/// of a text, `whole` is the first text followed by the second.
pub proof fn lemma_join(whole: Seq<char>, head: Seq<char>, tail: Seq<char>, mid: int)
    requires
        0 <= mid <= encode_utf8(whole).len(),
        encode_utf8(head) == encode_utf8(whole).subrange(0, mid),
        encode_utf8(tail) == encode_utf8(whole).subrange(mid, encode_utf8(whole).len() as int),
    ensures
        whole == head + tail,
        encode_utf8(head).len() == mid,
{
    lemma_encode_concat(head, tail);
    assert(encode_utf8(head) + encode_utf8(tail) =~= encode_utf8(whole));
    lemma_encode_injective(head + tail, whole);
}

/// A character below 128 is encoded as the one byte of the same value.
pub proof fn lemma_encode_ascii(c: char)
    requires
        c as u32 <= 0x7f,
    ensures
        encode_utf8(seq![c]) == seq![c as u8],
{
    let one = seq![c];
    let v = c as u32;
    assert(encode_utf8(one.drop_first()) =~= Seq::<u8>::empty());
    assert((v & 0x7F) as u8 == v as u8) by (bit_vector)
        requires
            v <= 0x7f,
    ;
}

/// A text whose encoding is one byte below 128 is the one character of
/// that value.
pub proof fn lemma_decode_ascii(text: Seq<char>, c: char)
    requires
        c as u32 <= 0x7f,
        encode_utf8(text) == seq![c as u8],
    ensures
        text == seq![c],
{
    lemma_encode_ascii(c);
    lemma_encode_injective(text, seq![c]);
}

/// A byte below 128 in a valid encoding starts a character.
pub proof fn lemma_ascii_byte_starts_char(bytes: Seq<u8>, at: int)
    requires
        valid_utf8(bytes),
        0 <= at < bytes.len(),
        bytes[at] <= 0x7f,
    ensures
        is_char_boundary(bytes, at),
{
    is_char_boundary_iff_not_is_continuation_byte(bytes, at);
}

/// Where a valid encoding opens with a byte below 128, the next character
/// starts right behind it.
pub proof fn lemma_char_after_ascii_byte(bytes: Seq<u8>)
    requires
        valid_utf8(bytes),
        0 < bytes.len(),
        bytes[0] <= 0x7f,
    ensures
        is_char_boundary(bytes, 1),
{
    reveal_with_fuel(is_char_boundary, 2);
}

/// A character below 128 in a text shows as its byte in the encoding.
pub proof fn lemma_ascii_char_shows(text: Seq<char>, at: int)
    requires
        0 <= at < text.len(),
        text[at] as u32 <= 0x7f,
    ensures
        exists|p: int| 0 <= p < encode_utf8(text).len() && encode_utf8(text)[p] == text[at] as u8,
{
    let before = text.subrange(0, at);
    let one = seq![text[at]];
    let after = text.subrange(at + 1, text.len() as int);
    assert(text =~= before + one + after);
    lemma_encode_concat(before + one, after);
    lemma_encode_concat(before, one);
    lemma_encode_ascii(text[at]);
    let p = encode_utf8(before).len() as int;
    assert(encode_utf8(text)[p] == text[at] as u8);
}

/// A text that ends in a character below 128 has an encoding that ends in
/// the byte of that value.
pub proof fn lemma_last_ascii_char_shows(text: Seq<char>)
    requires
        0 < text.len(),
        text.last() as u32 <= 0x7f,
    ensures
        0 < encode_utf8(text).len(),
        encode_utf8(text).last() == text.last() as u8,
{
    assert(text =~= text.drop_last() + seq![text.last()]);
    lemma_encode_concat(text.drop_last(), seq![text.last()]);
    lemma_encode_ascii(text.last());
}

/// Only the empty text has no bytes.
pub proof fn lemma_no_bytes_no_chars(text: Seq<char>)
    requires
        encode_utf8(text).len() == 0,
    ensures
        text.len() == 0,
{
    lemma_encode_injective(text, Seq::<char>::empty());
}

/// Where a valid encoding opens with another valid encoding, a character
/// starts right behind the latter.
pub proof fn lemma_prefix_ends_char(bytes: Seq<u8>, len: int)
    requires
        valid_utf8(bytes),
        0 <= len <= bytes.len(),
        valid_utf8(bytes.subrange(0, len)),
    ensures
        is_char_boundary(bytes, len),
    decreases len,
{
    if len > 0 {
        let prefix = bytes.subrange(0, len);
        let width = length_of_first_scalar(bytes);
        assert(pop_first_scalar(prefix) =~= pop_first_scalar(bytes).subrange(0, len - width));
        lemma_prefix_ends_char(pop_first_scalar(bytes), len - width);
    }
}

/// A run of characters in a text shows as the run of its bytes in the
/// encoding of the text.
pub proof fn lemma_occurs_at_encoded(needle: Seq<char>, haystack: Seq<char>, at: int)
    requires
        occurs_at(needle, haystack, at),
    ensures
        occurs_at(
            encode_utf8(needle),
            encode_utf8(haystack),
            encode_utf8(haystack.subrange(0, at)).len() as int,
        ),
{
    let before = haystack.subrange(0, at);
    let after = haystack.subrange(at + needle.len(), haystack.len() as int);
    assert(haystack =~= before + needle + after);
    lemma_encode_concat(before + needle, after);
    lemma_encode_concat(before, needle);
    let p = encode_utf8(before).len() as int;
    assert(encode_utf8(haystack).subrange(p, p + encode_utf8(needle).len()) =~= encode_utf8(
        needle,
    ));
}

/// Where the encoding of one text stands in the encoding of another, the
/// first text stands in the second: a match on bytes never starts or ends
/// inside a character.
pub proof fn lemma_occurs_at_decoded(needle: Seq<char>, haystack: Seq<char>, at: int)
    requires
        occurs_at(encode_utf8(needle), encode_utf8(haystack), at),
    ensures
        occurs(needle, haystack),
{
    let pin = encode_utf8(needle);
    let hay = encode_utf8(haystack);
    encode_utf8_valid_utf8(needle);
    encode_utf8_valid_utf8(haystack);
    if pin.len() == 0 {
        lemma_no_bytes_no_chars(needle);
        assert(haystack.subrange(0, 0) =~= needle);
        assert(occurs_at(needle, haystack, 0));
    } else {
        is_char_boundary_iff_not_is_continuation_byte(pin, 0);
        is_char_boundary_iff_not_is_continuation_byte(hay, at);
        valid_utf8_split(hay, at);
        let rest = hay.subrange(at, hay.len() as int);
        assert(rest.subrange(0, pin.len() as int) =~= pin);
        lemma_prefix_ends_char(rest, pin.len() as int);
        valid_utf8_split(rest, pin.len() as int);
        let before = decode_utf8(hay.subrange(0, at));
        let after = decode_utf8(rest.subrange(pin.len() as int, rest.len() as int));
        decode_utf8_encode_utf8(hay.subrange(0, at));
        decode_utf8_encode_utf8(rest.subrange(pin.len() as int, rest.len() as int));
        lemma_encode_concat(before + needle, after);
        lemma_encode_concat(before, needle);
        assert(encode_utf8(before + needle + after) =~= hay);
        lemma_encode_injective(before + needle + after, haystack);
        let start = before.len() as int;
        assert(haystack.subrange(start, start + needle.len()) =~= needle);
        assert(occurs_at(needle, haystack, start));
    }
}

/// A text stands in another exactly when its encoding stands in the
/// encoding of the other.
pub proof fn lemma_occurs_encoded(needle: Seq<char>, haystack: Seq<char>)
    ensures
        occurs(encode_utf8(needle), encode_utf8(haystack)) <==> occurs(needle, haystack),
{
    if occurs(needle, haystack) {
        let at = choose|at: int| occurs_at(needle, haystack, at);
        lemma_occurs_at_encoded(needle, haystack, at);
    }
    if occurs(encode_utf8(needle), encode_utf8(haystack)) {
        let at = choose|at: int| occurs_at(encode_utf8(needle), encode_utf8(haystack), at);
        lemma_occurs_at_decoded(needle, haystack, at);
    }
}

} // verus!
