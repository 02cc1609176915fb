//! Taking a text apart into its lines, each a slice of the text itself.

use crate::encoding::{lemma_ascii_bytes_are_chars, lemma_char_has_byte, lemma_encode_len};
use crate::text::{after_first_line, first_line, is_break, lemma_first_break_is, terminator_len};
use vstd::prelude::*;
use vstd::string::*;
use vstd::utf8::*;

verus! {

/// The byte that encodes a line feed.
pub const LINE_FEED: u8 = 0x0A;

/// The byte that encodes a carriage return.
pub const CARRIAGE_RETURN: u8 = 0x0D;

/// Cuts `s` in two at the byte position `mid`, which must lie between two
/// characters. The two parts are slices of `s`.
fn cut<'a>(s: &'a str, mid: usize) -> (r: (&'a str, &'a str))
    requires
        is_char_boundary(s.spec_bytes(), mid as int),
        mid <= s.spec_bytes().len(),
    ensures
        s@ == r.0@ + r.1@,
        r.0.spec_bytes() == s.spec_bytes().subrange(0, mid as int),
        r.1.spec_bytes() == s.spec_bytes().subrange(mid as int, s.spec_bytes().len() as int),
{
    let r = s.split_at(mid);
    proof {
        let bytes = s.spec_bytes();
        encode_utf8_valid_utf8(s@);
        decode_utf8_split(bytes, mid as int);
        encode_utf8_decode_utf8(s@);
        encode_utf8_decode_utf8(r.0@);
        encode_utf8_decode_utf8(r.1@);
    }
    r
}

/// The position of the first line feed or carriage return byte in `bytes`,
/// or the length of `bytes` if it holds neither.
fn find_break(bytes: &[u8]) -> (i: usize)
    ensures
        i <= bytes@.len(),
        i < bytes@.len() ==> bytes@[i as int] == LINE_FEED || bytes@[i as int] == CARRIAGE_RETURN,
        forall|j: int| 0 <= j < i ==> bytes@[j] != LINE_FEED && bytes@[j] != CARRIAGE_RETURN,
{
    let n = bytes.len();
    let mut i: usize = 0;
    while i < n && bytes[i] != LINE_FEED && bytes[i] != CARRIAGE_RETURN
        invariant
            i <= n,
            n == bytes@.len(),
            forall|j: int| 0 <= j < i ==> bytes@[j] != LINE_FEED && bytes@[j] != CARRIAGE_RETURN,
        decreases n - i,
    {
        i += 1;
    }
    i
}

/// Text whose encoding holds neither a line feed byte nor a carriage return
/// byte holds neither of the two characters.
proof fn lemma_no_break_bytes(s: Seq<char>)
    requires
        forall|p: int|
            0 <= p < encode_utf8(s).len() ==> encode_utf8(s)[p] != LINE_FEED && encode_utf8(s)[p]
                != CARRIAGE_RETURN,
    ensures
        forall|j: int| 0 <= j < s.len() ==> !is_break(#[trigger] s[j]),
{
    assert forall|j: int| 0 <= j < s.len() implies !is_break(#[trigger] s[j]) by {
        if is_break(s[j]) {
            lemma_char_has_byte(s, j);
        }
    }
}

/// Takes the first line off `text`: returns that line, without its
/// terminator, and what follows the terminator. Both are slices of `text`.
///
/// A line ends at a line feed, at a carriage return, or at a carriage return
/// directly followed by a line feed, which together are one terminator.
pub fn split_first_line<'a>(text: &'a str) -> (r: (&'a str, &'a str))
    ensures
        r.0@ == first_line(text@),
        r.1@ == after_first_line(text@),
{
    let bytes = text.as_bytes();
    let n = bytes.len();
    let i = find_break(bytes);
    proof {
        encode_utf8_valid_utf8(text@);
        if i < n {
            is_char_boundary_iff_is_leading_byte(bytes@, i as int);
        } else {
            is_char_boundary_start_end_of_seq(bytes@);
        }
    }
    let (head, tail) = cut(text, i);
    proof {
        lemma_no_break_bytes(head@);
        assert(head@ =~= text@.subrange(0, head@.len() as int));
    }
    if i == n {
        proof {
            lemma_encode_len(tail@);
            lemma_first_break_is(text@, text@.len() as int);
            assert(head@ =~= text@);
        }
        return (head, tail);
    }
    let paired = bytes[i] == CARRIAGE_RETURN && i + 1 < n && bytes[i + 1] == LINE_FEED;
    let width: usize = if paired {
        2
    } else {
        1
    };
    proof {
        encode_utf8_valid_utf8(tail@);
        assert(is_char_boundary(tail.spec_bytes(), width as int)) by {
            reveal_with_fuel(is_char_boundary, 3);
            reveal_with_fuel(valid_utf8, 3);
        }
    }
    let (terminator, rest) = cut(tail, width);
    proof {
        lemma_ascii_bytes_are_chars(terminator@);
        char_u32_cast(terminator@[0], terminator@[0] as u32);
        char_u32_cast('\n', 0x0A);
        char_u32_cast('\r', 0x0D);
        assert(is_break(terminator@[0]));
        assert(tail@[0] == terminator@[0]);
        assert(text@[head@.len() as int] == tail@[0]);
        lemma_first_break_is(text@, head@.len() as int);
        let at = head@.len() as int;
        if paired {
            char_u32_cast(terminator@[1], terminator@[1] as u32);
            assert(tail@[1] == terminator@[1]);
            assert(text@[at + 1] == tail@[1]);
            assert(terminator_len(text@, at) == 2);
        } else {
            if text@[at] == '\r' && at + 1 < text@.len() && text@[at + 1] == '\n' {
                assert(rest@[0] == tail@[1]);
                assert(tail@[1] == text@[at + 1]);
                lemma_char_has_byte(rest@, 0);
                assert(rest@.subrange(0, 0) =~= Seq::<char>::empty());
                assert(rest.spec_bytes()[0] == bytes@[i + 1]);
                assert(false);
            }
            assert(terminator_len(text@, at) == 1);
        }
        assert(rest@ =~= tail@.subrange(width as int, tail@.len() as int));
        assert(rest@ =~= text@.subrange(at + width, text@.len() as int));
    }
    (head, rest)
}

} // verus!
