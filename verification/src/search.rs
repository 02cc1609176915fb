//! The search itself: the lines of a text that contain a query.

use crate::config::Config;
use crate::find::contains;
use crate::fold::{lowercase_of, same_ignoring_case, to_lowercase};
use crate::lines::split_first_line;
use crate::selection::{lemma_filter_picks_in_order, picks_in_order, positions_passing};
use crate::text::{
    after_first_line, first_line, lemma_first_break, lines_of, occurs_at, occurs_in,
};
use vstd::prelude::*;
use vstd::string::*;

verus! {

/// The characters of each of `lines`.
pub open spec fn texts(lines: Seq<&str>) -> Seq<Seq<char>> {
    lines.map_values(|line: &str| line@)
}

/// The test that a line passes if `query` occurs in it.
pub open spec fn holds(query: Seq<char>) -> spec_fn(Seq<char>) -> bool {
    |line: Seq<char>| occurs_in(query, line)
}

/// The test that a line passes if `folded_query` occurs in its lower-case
/// form.
pub open spec fn holds_folded(folded_query: Seq<char>) -> spec_fn(Seq<char>) -> bool {
    |line: Seq<char>| occurs_in(folded_query, lowercase_of(line))
}

/// The lines of `content` in which `query` occurs, in their order in
/// `content`, each as often as it stands there.
pub open spec fn matching_lines(query: Seq<char>, content: Seq<char>) -> Seq<Seq<char>> {
    lines_of(content).filter(holds(query))
}

/// The lines of `content` whose lower-case form holds `folded_query`, in
/// their order in `content`.
pub open spec fn lines_matching_folded(folded_query: Seq<char>, content: Seq<char>) -> Seq<
    Seq<char>,
> {
    lines_of(content).filter(holds_folded(folded_query))
}

/// The lines of `content` in which `query` occurs when the case of letters
/// is disregarded: those whose lower-case form holds the lower-case form of
/// `query`.
pub open spec fn matching_lines_ignoring_case(query: Seq<char>, content: Seq<char>) -> Seq<
    Seq<char>,
> {
    lines_matching_folded(lowercase_of(query), content)
}

/// A filter keeps a sequence whole if every element passes it.
pub proof fn lemma_filter_keeps_all<A>(s: Seq<A>, pred: spec_fn(A) -> bool)
    requires
        forall|i: int| 0 <= i < s.len() ==> pred(#[trigger] s[i]),
    ensures
        s.filter(pred) == s,
    decreases s.len(),
{
    reveal(Seq::filter);
    if s.len() > 0 {
        lemma_filter_keeps_all(s.drop_last(), pred);
        assert(s.drop_last().push(s.last()) =~= s);
    }
}

/// Filtering the lines of a non-empty text is deciding on its first line and
/// filtering the lines of what follows it.
proof fn lemma_filter_first_line(content: Seq<char>, pred: spec_fn(Seq<char>) -> bool)
    requires
        content.len() > 0,
    ensures
        after_first_line(content).len() < content.len(),
        lines_of(content).filter(pred) == (if pred(first_line(content)) {
            seq![first_line(content)]
        } else {
            Seq::empty()
        }) + lines_of(after_first_line(content)).filter(pred),
{
    lemma_first_break(content);
    lines_of(after_first_line(content)).lemma_filter_prepend(first_line(content), pred);
}

/// A text without characters has no lines to select from.
proof fn lemma_filter_no_lines(content: Seq<char>, pred: spec_fn(Seq<char>) -> bool)
    requires
        content.len() == 0,
    ensures
        lines_of(content).filter(pred) == Seq::<Seq<char>>::empty(),
{
    reveal(Seq::filter);
}

/// The lines of `content` that contain `query`, compared exactly, in the
/// order in which they stand in `content`. Each is a slice of `content`.
///
/// A line that holds the query several times is returned once; two lines
/// that read the same are returned each. The empty query is contained in
/// every line.
pub fn search<'a>(query: &str, content: &'a str) -> (result: Vec<&'a str>)
    ensures
        texts(result@) == matching_lines(query@, content@),
        query@.len() == 0 ==> texts(result@) == lines_of(content@),
{
    let mut result: Vec<&'a str> = Vec::new();
    let mut rest: &'a str = content;
    proof {
        assert(texts(result@) =~= Seq::empty());
    }
    while !rest.is_empty()
        invariant
            texts(result@) + matching_lines(query@, rest@) == matching_lines(query@, content@),
        decreases rest@.len(),
    {
        let (line, tail) = split_first_line(rest);
        proof {
            lemma_filter_first_line(rest@, holds(query@));
        }
        let ghost before = result@;
        if contains(line, query) {
            result.push(line);
            proof {
                assert(texts(result@) =~= texts(before) + seq![line@]);
            }
        }
        rest = tail;
    }
    proof {
        lemma_filter_no_lines(rest@, holds(query@));
        if query@.len() == 0 {
            assert(query@ =~= Seq::empty());
            lemma_empty_query_matches_every_line(content@);
        }
    }
    result
}

/// The empty query selects every line.
pub proof fn lemma_empty_query_matches_every_line(content: Seq<char>)
    ensures
        matching_lines(Seq::empty(), content) == lines_of(content),
{
    let lines = lines_of(content);
    let pred = holds(Seq::<char>::empty());
    assert forall|i: int| 0 <= i < lines.len() implies pred(#[trigger] lines[i]) by {
        assert(lines[i].subrange(0, 0) =~= Seq::<char>::empty());
        assert(occurs_at(Seq::<char>::empty(), lines[i], 0));
    }
    lemma_filter_keeps_all(lines, pred);
}

/// The lines of `content` that contain `query` when the case of letters is
/// disregarded, in the order in which they stand in `content`. Each is a
/// slice of `content`, in its own case.
///
/// The query is folded to lower case once, each line when its turn comes, and
/// the folded line is searched for the folded query. The empty query is
/// contained in every line.
pub fn search_case_insensitive<'a>(query: &str, content: &'a str) -> (result: Vec<&'a str>)
    ensures
        texts(result@) == matching_lines_ignoring_case(query@, content@),
        query@.len() == 0 ==> texts(result@) == lines_of(content@),
{
    let folded_query = to_lowercase(query);
    let result = search_folded(folded_query.as_str(), content);
    proof {
        if query@.len() == 0 {
            assert(folded_query@ =~= Seq::empty());
            lemma_empty_folded_query_matches_every_line(content@);
        }
    }
    result
}

/// The lines of `content` whose lower-case form contains `folded_query`, in
/// the order in which they stand in `content`. Each is a slice of `content`.
///
/// This is the case-insensitive search for a query that has been folded to
/// lower case already.
pub fn search_folded<'a>(folded_query: &str, content: &'a str) -> (result: Vec<&'a str>)
    ensures
        texts(result@) == lines_matching_folded(folded_query@, content@),
{
    let mut result: Vec<&'a str> = Vec::new();
    let mut rest: &'a str = content;
    proof {
        assert(texts(result@) =~= Seq::empty());
    }
    while !rest.is_empty()
        invariant
            texts(result@) + lines_matching_folded(folded_query@, rest@) == lines_matching_folded(
                folded_query@,
                content@,
            ),
        decreases rest@.len(),
    {
        let (line, tail) = split_first_line(rest);
        proof {
            lemma_filter_first_line(rest@, holds_folded(folded_query@));
        }
        let ghost before = result@;
        let folded_line = to_lowercase(line);
        if contains(folded_line.as_str(), folded_query) {
            result.push(line);
            proof {
                assert(texts(result@) =~= texts(before) + seq![line@]);
            }
        }
        rest = tail;
    }
    proof {
        lemma_filter_no_lines(rest@, holds_folded(folded_query@));
    }
    result
}

/// The lines of `content` that a search with the settings `config` selects:
/// those that contain `config.query`, compared exactly if
/// `config.case_sensitive` is set and without regard to case if it is not.
pub open spec fn selected_lines(config: &Config, content: Seq<char>) -> Seq<Seq<char>> {
    if config.case_sensitive {
        matching_lines(config.query@, content)
    } else {
        matching_lines_ignoring_case(config.query@, content)
    }
}

/// Searches `content` as `config` asks: for `config.query`, in the mode that
/// `config.case_sensitive` selects. The lines come in the order in which they
/// stand in `content`, and each is a slice of it. The empty query selects
/// every line, in either mode.
pub fn select_lines<'a>(config: &Config, content: &'a str) -> (result: Vec<&'a str>)
    ensures
        texts(result@) == selected_lines(config, content@),
        config.query@.len() == 0 ==> texts(result@) == lines_of(content@),
{
    if config.case_sensitive {
        search(config.query.as_str(), content)
    } else {
        search_case_insensitive(config.query.as_str(), content)
    }
}

/// A query that is empty once folded selects every line.
pub proof fn lemma_empty_folded_query_matches_every_line(content: Seq<char>)
    ensures
        lines_matching_folded(Seq::empty(), content) == lines_of(content),
{
    let lines = lines_of(content);
    let pred = holds_folded(Seq::<char>::empty());
    assert forall|i: int| 0 <= i < lines.len() implies pred(#[trigger] lines[i]) by {
        let folded = lowercase_of(lines[i]);
        assert(folded.subrange(0, 0) =~= Seq::<char>::empty());
        assert(occurs_at(Seq::<char>::empty(), folded, 0));
    }
    lemma_filter_keeps_all(lines, pred);
}

/// A case-insensitive search gives the same lines for two queries that
/// differ only in the case of their letters.
pub proof fn lemma_case_of_query_is_ignored(a: Seq<char>, b: Seq<char>, content: Seq<char>)
    requires
        same_ignoring_case(a, b),
    ensures
        matching_lines_ignoring_case(a, content) == matching_lines_ignoring_case(b, content),
{
}

/// The positions, among the lines of `content`, of the lines in which
/// `query` occurs, in ascending order.
pub open spec fn matching_positions(query: Seq<char>, content: Seq<char>) -> Seq<int> {
    positions_passing(lines_of(content), holds(query))
}

/// A case-sensitive search returns the lines of the text at the positions
/// where the query occurs in the line: every such position is taken, no
/// other is, none is taken twice, and the lines come in the order of their
/// positions.
pub proof fn lemma_search_picks_matching_lines_in_order(query: Seq<char>, content: Seq<char>)
    ensures
        picks_in_order(
            matching_lines(query, content),
            lines_of(content),
            holds(query),
            matching_positions(query, content),
        ),
{
    lemma_filter_picks_in_order(lines_of(content), holds(query));
}

} // verus!
