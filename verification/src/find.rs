//! Looking for one piece of text in another.

use crate::encoding::{bytes_occur_at, lemma_encode_concat, lemma_prefix_ends_at_boundary};
use crate::text::{occurs_at, occurs_in};
use vstd::prelude::*;
use vstd::string::*;
use vstd::utf8::*;

verus! {

/// An occurrence of `needle` in `haystack` shows as an occurrence of its
/// encoding in the encoding of `haystack`.
pub proof fn lemma_occurrence_is_encoded(needle: Seq<char>, haystack: Seq<char>, at: int)
    requires
        occurs_at(needle, haystack, at),
    ensures
        bytes_occur_at(
            encode_utf8(needle),
            encode_utf8(haystack),
            encode_utf8(haystack.subrange(0, at)).len() as int,
        ),
{
    let before = haystack.subrange(0, at);
    let after = haystack.subrange(at + needle.len(), haystack.len() as int);
    assert(haystack =~= before + needle + after);
    lemma_encode_concat(before, needle);
    lemma_encode_concat(before + needle, after);
    let b = encode_utf8(before);
    let n = encode_utf8(needle);
    assert(encode_utf8(haystack).subrange(b.len() as int, (b.len() + n.len()) as int) =~= n);
}

/// An occurrence of the encoding of `needle` in the encoding of `haystack`
/// is the encoding of an occurrence of `needle` in `haystack`: it cannot
/// begin or end inside a character.
pub proof fn lemma_encoded_occurrence_is_one(needle: Seq<char>, haystack: Seq<char>, at: int)
    requires
        bytes_occur_at(encode_utf8(needle), encode_utf8(haystack), at),
    ensures
        occurs_in(needle, haystack),
{
    let n = encode_utf8(needle);
    let h = encode_utf8(haystack);
    encode_utf8_valid_utf8(needle);
    encode_utf8_valid_utf8(haystack);
    encode_utf8_decode_utf8(needle);
    encode_utf8_decode_utf8(haystack);
    if n.len() == 0 {
        assert(needle.len() == 0);
        assert(haystack.subrange(0, 0) =~= needle);
        assert(occurs_at(needle, haystack, 0));
    } else {
        assert(h.subrange(at, at + n.len())[0] == n[0]);
        is_char_boundary_iff_not_is_continuation_byte(h, at);
        assert(is_char_boundary(h, at));
        valid_utf8_split(h, at);
        decode_utf8_split(h, at);
        let front = h.subrange(0, at);
        let back = h.subrange(at, h.len() as int);
        assert(back.subrange(0, n.len() as int) =~= n);
        lemma_prefix_ends_at_boundary(n, back);
        decode_utf8_split(back, n.len() as int);
        let rest = back.subrange(n.len() as int, back.len() as int);
        let a = decode_utf8(front);
        assert(haystack =~= a + needle + decode_utf8(rest));
        assert(haystack.subrange(a.len() as int, (a.len() + needle.len()) as int) =~= needle);
        assert(occurs_at(needle, haystack, a.len() as int));
    }
}

/// Whether the bytes of `needle` stand in `haystack` at position `at`.
fn bytes_match_at(needle: &[u8], haystack: &[u8], at: usize) -> (same: bool)
    requires
        at + needle@.len() <= haystack@.len(),
    ensures
        same == bytes_occur_at(needle@, haystack@, at as int),
{
    let n = needle.len();
    let m = haystack.len();
    let mut i: usize = 0;
    while i < n
        invariant
            i <= n,
            n == needle@.len(),
            m == haystack@.len(),
            at + n <= m,
            forall|j: int| 0 <= j < i ==> haystack@[at + j] == needle@[j],
        decreases n - i,
    {
        if haystack[at + i] != needle[i] {
            proof {
                assert(haystack@.subrange(at as int, at + n)[i as int] == haystack@[at + i]);
            }
            return false;
        }
        i += 1;
    }
    proof {
        assert(haystack@.subrange(at as int, at + n) =~= needle@);
    }
    true
}

/// Whether `needle` occurs in `haystack` as a run of consecutive characters,
/// compared exactly. The empty text occurs in every text.
pub fn contains(haystack: &str, needle: &str) -> (found: bool)
    ensures
        found == occurs_in(needle@, haystack@),
{
    let h = haystack.as_bytes();
    let n = needle.as_bytes();
    if n.len() > h.len() {
        proof {
            if occurs_in(needle@, haystack@) {
                let at = choose|at: int| occurs_at(needle@, haystack@, at);
                lemma_occurrence_is_encoded(needle@, haystack@, at);
            }
        }
        return false;
    }
    let last = h.len() - n.len();
    let mut at: usize = 0;
    loop
        invariant
            at <= last,
            last == h@.len() - n@.len(),
            h@ == encode_utf8(haystack@),
            n@ == encode_utf8(needle@),
            forall|p: int| 0 <= p < at ==> !bytes_occur_at(n@, h@, p),
        decreases last - at,
    {
        if bytes_match_at(n, h, at) {
            proof {
                lemma_encoded_occurrence_is_one(needle@, haystack@, at as int);
            }
            return true;
        }
        if at == last {
            proof {
                if occurs_in(needle@, haystack@) {
                    let k = choose|k: int| occurs_at(needle@, haystack@, k);
                    lemma_occurrence_is_encoded(needle@, haystack@, k);
                }
            }
            return false;
        }
        at += 1;
    }
}

} // verus!
