//! Facts about the UTF-8 encoding of text that let a scan over bytes stand
//! for a scan over characters.

use vstd::prelude::*;
use vstd::utf8::*;

verus! {

/// Whether `b` is the encoding of an ASCII character.
pub open spec fn is_ascii_byte(b: u8) -> bool {
    b < 0x80
}

/// An ASCII character is encoded as the one byte of its own value; every
/// byte of the encoding of any other character lies outside the ASCII range.
pub proof fn lemma_encode_scalar_bytes(c: char)
    ensures
        (c as u32) < 0x80 ==> encode_scalar(c as u32) == seq![(c as u32) as u8],
        (c as u32) >= 0x80 ==> forall|i: int|
            0 <= i < encode_scalar(c as u32).len() ==> !is_ascii_byte(
                #[trigger] encode_scalar(c as u32)[i],
            ),
        1 <= encode_scalar(c as u32).len() <= 4,
{
    let s = c as u32;
    assert(s < 0x80 ==> (s & 0x7F) as u8 == s as u8) by (bit_vector);
    assert(forall|x: u32| #![auto] (0xC0u8 | ((x >> 6) & 0x1F) as u8) >= 0x80) by (bit_vector);
    assert(forall|x: u32| #![auto] (0xE0u8 | ((x >> 12) & 0x0F) as u8) >= 0x80) by (bit_vector);
    assert(forall|x: u32| #![auto] (0xF0u8 | ((x >> 18) & 0x7) as u8) >= 0x80) by (bit_vector);
    assert(forall|x: u32| #![auto] (0x80u8 | (x & 0x3F) as u8) >= 0x80) by (bit_vector);
    assert(forall|x: u32| #![auto] (0x80u8 | ((x >> 6) & 0x3F) as u8) >= 0x80) by (bit_vector);
    assert(forall|x: u32| #![auto] (0x80u8 | ((x >> 12) & 0x3F) as u8) >= 0x80) by (bit_vector);
}

/// The encoding of a concatenation is the concatenation of the encodings.
pub proof fn lemma_encode_concat(a: Seq<char>, b: Seq<char>)
    ensures
        encode_utf8(a + b) == encode_utf8(a) + encode_utf8(b),
    decreases a.len(),
{
    if a.len() == 0 {
        assert(a + b =~= b);
        assert(encode_utf8(a) + encode_utf8(b) =~= encode_utf8(b));
    } else {
        assert((a + b).drop_first() =~= a.drop_first() + b);
        lemma_encode_concat(a.drop_first(), b);
        assert(encode_utf8(a + b) =~= encode_utf8(a) + encode_utf8(b));
    }
}

/// Text is never longer than its encoding, and only empty text has an empty
/// encoding.
pub proof fn lemma_encode_len(s: Seq<char>)
    ensures
        s.len() <= encode_utf8(s).len(),
    decreases s.len(),
{
    if s.len() > 0 {
        lemma_encode_scalar_bytes(s[0]);
        lemma_encode_len(s.drop_first());
    }
}

/// An ASCII character at position `j` of `s` shows as its own byte in the
/// encoding of `s`, right after the encoding of what precedes it.
pub proof fn lemma_char_has_byte(s: Seq<char>, j: int)
    requires
        0 <= j < s.len(),
        (s[j] as u32) < 0x80,
    ensures
        encode_utf8(s.subrange(0, j)).len() < encode_utf8(s).len(),
        encode_utf8(s)[encode_utf8(s.subrange(0, j)).len() as int] == (s[j] as u32) as u8,
{
    let before = s.subrange(0, j);
    let from = s.subrange(j, s.len() as int);
    assert(s =~= before + from);
    lemma_encode_concat(before, from);
    lemma_encode_scalar_bytes(s[j]);
    assert(from[0] == s[j]);
    assert(encode_utf8(from) == encode_scalar(from[0] as u32) + encode_utf8(from.drop_first()));
}

/// Text whose encoding holds ASCII bytes only has one character for each
/// byte, of the value of that byte.
pub proof fn lemma_ascii_bytes_are_chars(s: Seq<char>)
    requires
        forall|i: int| 0 <= i < encode_utf8(s).len() ==> is_ascii_byte(#[trigger] encode_utf8(s)[i]),
    ensures
        s.len() == encode_utf8(s).len(),
        forall|i: int| 0 <= i < s.len() ==> (#[trigger] s[i]) as u32 == encode_utf8(s)[i],
    decreases s.len(),
{
    if s.len() > 0 {
        let bytes = encode_utf8(s);
        let rest = s.drop_first();
        lemma_encode_scalar_bytes(s[0]);
        assert(bytes[0] == encode_scalar(s[0] as u32)[0]);
        assert((s[0] as u32) < 0x80);
        assert(encode_utf8(rest) =~= bytes.subrange(1, bytes.len() as int));
        assert forall|i: int| 0 <= i < encode_utf8(rest).len() implies is_ascii_byte(
            #[trigger] encode_utf8(rest)[i],
        ) by {
            assert(encode_utf8(rest)[i] == bytes[i + 1]);
        }
        lemma_ascii_bytes_are_chars(rest);
        assert forall|i: int| 0 <= i < s.len() implies (#[trigger] s[i]) as u32 == bytes[i] by {
            if i > 0 {
                assert(s[i] == rest[i - 1]);
                assert(bytes[i] == encode_utf8(rest)[i - 1]);
            }
        }
    }
}

/// Whether the bytes `needle` stand in `haystack` at position `at`.
pub open spec fn bytes_occur_at(needle: Seq<u8>, haystack: Seq<u8>, at: int) -> bool {
    &&& 0 <= at
    &&& at + needle.len() <= haystack.len()
    &&& haystack.subrange(at, at + needle.len()) == needle
}

/// Where one encoded text begins with another, the end of the shorter one
/// lies between two characters of the longer one.
pub proof fn lemma_prefix_ends_at_boundary(n: Seq<u8>, h: Seq<u8>)
    requires
        valid_utf8(n),
        valid_utf8(h),
        bytes_occur_at(n, h, 0),
    ensures
        is_char_boundary(h, n.len() as int),
    decreases n.len(),
{
    if n.len() > 0 {
        let l = length_of_first_scalar(n);
        assert(h.subrange(0, n.len() as int)[0] == n[0]);
        assert(length_of_first_scalar(h) == l);
        let n2 = pop_first_scalar(n);
        let h2 = pop_first_scalar(h);
        assert(h2.subrange(0, n2.len() as int) =~= n2) by {
            assert forall|i: int| 0 <= i < n2.len() implies h2[i] == n2[i] by {
                assert(h.subrange(0, n.len() as int)[i + l] == n[i + l]);
            }
        }
        lemma_prefix_ends_at_boundary(n2, h2);
    }
}

} // verus!
