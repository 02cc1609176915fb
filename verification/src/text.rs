//! What the lines of a text are, and what it means for one piece of text to
//! occur in another.

use vstd::prelude::*;

verus! {

/// Whether `c` ends a line: a line feed or a carriage return.
pub open spec fn is_break(c: char) -> bool {
    c == '\n' || c == '\r'
}

/// The position of the first line feed or carriage return in `text`, or the
/// length of `text` if it holds neither.
pub open spec fn first_break(text: Seq<char>) -> nat
    decreases text.len(),
{
    if text.len() == 0 || is_break(text[0]) {
        0
    } else {
        1 + first_break(text.drop_first())
    }
}

/// The length of the line terminator that stands in `text` at position `at`:
/// two characters where a carriage return is directly followed by a line
/// feed, one character otherwise.
pub open spec fn terminator_len(text: Seq<char>, at: int) -> int {
    if text[at] == '\r' && at + 1 < text.len() && text[at + 1] == '\n' {
        2
    } else {
        1
    }
}

/// The first line of `text`, without its terminator. A line ends at a line
/// feed, at a carriage return, at a carriage return directly followed by a
/// line feed, or where the text ends.
pub open spec fn first_line(text: Seq<char>) -> Seq<char> {
    text.subrange(0, first_break(text) as int)
}

/// What follows the first line of `text` and its terminator.
pub open spec fn after_first_line(text: Seq<char>) -> Seq<char> {
    let i = first_break(text) as int;
    if i < text.len() {
        text.subrange(i + terminator_len(text, i), text.len() as int)
    } else {
        Seq::empty()
    }
}

/// The lines of `text`, in order and without their terminators. A terminator
/// at the very end of the text does not open another, empty line.
pub open spec fn lines_of(text: Seq<char>) -> Seq<Seq<char>>
    decreases text.len(),
{
    if text.len() == 0 {
        Seq::empty()
    } else {
        seq![first_line(text)] + lines_of(after_first_line(text))
    }
}

/// Whether `needle` stands in `haystack` at position `at`.
pub open spec fn occurs_at(needle: Seq<char>, haystack: Seq<char>, at: int) -> bool {
    &&& 0 <= at
    &&& at + needle.len() <= haystack.len()
    &&& haystack.subrange(at, at + needle.len()) == needle
}

/// Whether `needle` occurs somewhere in `haystack` as a run of consecutive
/// characters. The empty text occurs in every text.
pub open spec fn occurs_in(needle: Seq<char>, haystack: Seq<char>) -> bool {
    exists|at: int| occurs_at(needle, haystack, at)
}

/// `first_break` is a position that holds a line feed or a carriage return,
/// or is the end of the text, and has neither of the two before it.
pub proof fn lemma_first_break(text: Seq<char>)
    ensures
        first_break(text) <= text.len(),
        first_break(text) < text.len() ==> is_break(text[first_break(text) as int]),
        forall|j: int| 0 <= j < first_break(text) ==> !is_break(#[trigger] text[j]),
    decreases text.len(),
{
    if text.len() == 0 || is_break(text[0]) {
    } else {
        let rest = text.drop_first();
        lemma_first_break(rest);
        assert forall|j: int| 0 <= j < first_break(text) implies !is_break(
            #[trigger] text[j],
        ) by {
            if j > 0 {
                assert(text[j] == rest[j - 1]);
            }
        }
    }
}

/// A position that holds a line feed or a carriage return, or is the end of
/// the text, and has neither of the two before it is `first_break`.
pub proof fn lemma_first_break_is(text: Seq<char>, i: int)
    requires
        0 <= i <= text.len(),
        i < text.len() ==> is_break(text[i]),
        forall|j: int| 0 <= j < i ==> !is_break(#[trigger] text[j]),
    ensures
        first_break(text) == i,
{
    lemma_first_break(text);
}

/// No line holds a line feed or a carriage return.
pub proof fn lemma_lines_hold_no_break(text: Seq<char>, i: int, j: int)
    requires
        0 <= i < lines_of(text).len(),
        0 <= j < lines_of(text)[i].len(),
    ensures
        !is_break(lines_of(text)[i][j]),
    decreases text.len(),
{
    lemma_first_break(text);
    if i > 0 {
        lemma_lines_hold_no_break(after_first_line(text), i - 1, j);
    }
}

} // verus!
