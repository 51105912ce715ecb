use vstd::prelude::*;

use crate::lines::{lemma_filter_push, lemma_numbered_push, lines_of, numbered, split_lines, strip_cr};
use crate::search::{line_matches, matching_lines, selects};
use crate::text::{has_substring, lower_of, occurs_at};

verus! {

/// The numbered lines kept by a filter name their lines truly, and their
/// numbers start at 1 and rise strictly.
proof fn lemma_numbered_filter(lines: Seq<Seq<char>>, pred: spec_fn((Seq<char>, int)) -> bool)
    ensures
        forall|i: int|
            0 <= i < numbered(lines).filter(pred).len() ==> {
                &&& 1 <= (#[trigger] numbered(lines).filter(pred)[i]).1 <= lines.len()
                &&& numbered(lines).filter(pred)[i].0 == lines[numbered(lines).filter(pred)[i].1
                    - 1]
                &&& pred(numbered(lines).filter(pred)[i])
            },
        forall|i: int, j: int|
            0 <= i < j < numbered(lines).filter(pred).len() ==> #[trigger] numbered(lines).filter(
                pred,
            )[i].1 < #[trigger] numbered(lines).filter(pred)[j].1,
    decreases lines.len(),
{
    if lines.len() > 0 {
        let init = lines.drop_last();
        lemma_numbered_filter(init, pred);
        assert(init.push(lines.last()) =~= lines);
        lemma_numbered_push(init, lines.last());
        lemma_filter_push(numbered(init), (lines.last(), init.len() as int + 1), pred);
    } else {
        reveal(Seq::filter);
    }
}

/// A filter that keeps everything keeps the sequence whole.
proof fn lemma_filter_all<A>(s: Seq<A>, pred: spec_fn(A) -> bool)
    requires
        forall|i: int| 0 <= i < s.len() ==> pred(#[trigger] s[i]),
    ensures
        s.filter(pred) == s,
    decreases s.len(),
{
    reveal(Seq::filter);
    if s.len() > 0 {
        lemma_filter_all(s.drop_last(), pred);
    }
}

/// A filter that keeps nothing leaves nothing.
proof fn lemma_filter_none<A>(s: Seq<A>, pred: spec_fn(A) -> bool)
    requires
        forall|i: int| 0 <= i < s.len() ==> !pred(#[trigger] s[i]),
    ensures
        s.filter(pred).len() == 0,
    decreases s.len(),
{
    reveal(Seq::filter);
    if s.len() > 0 {
        lemma_filter_none(s.drop_last(), pred);
    }
}

/// Every text holds itself.
proof fn lemma_holds_itself(t: Seq<char>)
    ensures
        has_substring(t, t),
{
    assert(t.subrange(0, t.len() as int) =~= t);
    assert(occurs_at(t, t, 0));
}

/// Every text holds the empty text.
proof fn lemma_holds_empty(t: Seq<char>)
    ensures
        has_substring(t, Seq::<char>::empty()),
{
    assert(t.subrange(0, 0) =~= Seq::<char>::empty());
    assert(occurs_at(t, Seq::<char>::empty(), 0));
}

/// A line that is a match for the query is among the matches, with its number
/// (its position counted from 1).
pub proof fn law_match_is_found(folded: bool, query: Seq<char>, contents: Seq<char>, k: int)
    requires
        0 <= k < lines_of(contents).len(),
        line_matches(folded, query, lines_of(contents)[k]),
    ensures
        matching_lines(folded, query, contents).contains((lines_of(contents)[k], k + 1)),
{
    let nl = numbered(lines_of(contents));
    assert(nl[k] == (lines_of(contents)[k], k + 1));
    nl.lemma_filter_contains(selects(folded, query), k);
}

/// Letter case counts: every line found holds the query as it stands, and sits
/// at its number among the lines.
pub proof fn law_found_holds_query(query: Seq<char>, contents: Seq<char>, i: int)
    requires
        0 <= i < matching_lines(false, query, contents).len(),
    ensures
        has_substring(matching_lines(false, query, contents)[i].0, query),
        matching_lines(false, query, contents)[i].0 == lines_of(contents)[
            matching_lines(false, query, contents)[i].1 - 1
        ],
{
    lemma_numbered_filter(lines_of(contents), selects(false, query));
}

/// Without regard to case, a line that is the query up to letter case is found,
/// with its number.
pub proof fn law_case_variant_is_found(query: Seq<char>, contents: Seq<char>, k: int)
    requires
        0 <= k < lines_of(contents).len(),
        lower_of(lines_of(contents)[k]) == lower_of(query),
    ensures
        matching_lines(true, query, contents).contains((lines_of(contents)[k], k + 1)),
{
    lemma_holds_itself(lower_of(query));
    law_match_is_found(true, query, contents, k);
}

/// The numbers of the lines found start at 1, rise strictly, and each names
/// the line found among the lines of the text.
pub proof fn law_numbering(folded: bool, query: Seq<char>, contents: Seq<char>)
    ensures
        forall|i: int|
            0 <= i < matching_lines(folded, query, contents).len() ==> {
                &&& 1 <= (#[trigger] matching_lines(folded, query, contents)[i]).1 <= lines_of(
                    contents,
                ).len()
                &&& matching_lines(folded, query, contents)[i].0 == lines_of(contents)[
                    matching_lines(folded, query, contents)[i].1 - 1
                ]
            },
        forall|i: int, j: int|
            0 <= i < j < matching_lines(folded, query, contents).len() ==> #[trigger] matching_lines(
                folded,
                query,
                contents,
            )[i].1 < #[trigger] matching_lines(folded, query, contents)[j].1,
{
    lemma_numbered_filter(lines_of(contents), selects(folded, query));
}

/// The empty query finds every line, with its number.
pub proof fn law_empty_query_finds_all(contents: Seq<char>)
    ensures
        matching_lines(false, Seq::<char>::empty(), contents) == numbered(lines_of(contents)),
{
    let nl = numbered(lines_of(contents));
    let q = Seq::<char>::empty();
    assert forall|i: int| 0 <= i < nl.len() implies #[trigger] selects(false, q)(nl[i]) by {
        lemma_holds_empty(nl[i].0);
    }
    lemma_filter_all(nl, selects(false, q));
}

/// Without regard to case, a query that lowercases to the empty text finds
/// every line, with its number.
pub proof fn law_folded_empty_query_finds_all(query: Seq<char>, contents: Seq<char>)
    requires
        lower_of(query).len() == 0,
    ensures
        matching_lines(true, query, contents) == numbered(lines_of(contents)),
{
    let nl = numbered(lines_of(contents));
    assert(lower_of(query) =~= Seq::<char>::empty());
    assert forall|i: int| 0 <= i < nl.len() implies #[trigger] selects(true, query)(nl[i]) by {
        lemma_holds_empty(lower_of(nl[i].0));
    }
    lemma_filter_all(nl, selects(true, query));
}

/// A query that no line holds finds nothing.
pub proof fn law_absent_query_finds_nothing(folded: bool, query: Seq<char>, contents: Seq<char>)
    requires
        forall|k: int|
            0 <= k < lines_of(contents).len() ==> !line_matches(
                folded,
                query,
                #[trigger] lines_of(contents)[k],
            ),
    ensures
        matching_lines(folded, query, contents).len() == 0,
{
    let nl = numbered(lines_of(contents));
    assert forall|i: int| 0 <= i < nl.len() implies !#[trigger] selects(folded, query)(nl[i]) by {
        assert(nl[i].0 == lines_of(contents)[i]);
    }
    lemma_filter_none(nl, selects(folded, query));
}

/// What a text holds, a longer text that starts with it holds too.
proof fn lemma_within_longer(s: Seq<char>, x: Seq<char>)
    requires
        s.len() > 0,
        has_substring(s.drop_last(), x),
    ensures
        has_substring(s, x),
{
    let a = choose|a: int| occurs_at(s.drop_last(), x, a);
    assert(s.subrange(a, a + x.len()) =~= s.drop_last().subrange(a, a + x.len()));
    assert(occurs_at(s, x, a));
}

/// What a piece of a text holds, the text holds.
proof fn lemma_within_within(s: Seq<char>, line: Seq<char>, q: Seq<char>)
    requires
        has_substring(s, line),
        has_substring(line, q),
    ensures
        has_substring(s, q),
{
    let a = choose|a: int| occurs_at(s, line, a);
    let i = choose|i: int| occurs_at(line, q, i);
    assert(s.subrange(a + i, a + i + q.len()) =~= line.subrange(i, i + q.len()));
    assert(occurs_at(s, q, a + i));
}

/// Each closed line is a piece of the text, and the tail is its end.
proof fn lemma_split_within(s: Seq<char>)
    ensures
        forall|k: int|
            0 <= k < split_lines(s).0.len() ==> has_substring(s, #[trigger] split_lines(s).0[k]),
        split_lines(s).1.len() <= s.len(),
        split_lines(s).1 == s.subrange(s.len() - split_lines(s).1.len(), s.len() as int),
    decreases s.len(),
{
    if s.len() == 0 {
        assert(s.subrange(0, 0) =~= Seq::<char>::empty());
    } else {
        let init = s.drop_last();
        lemma_split_within(init);
        let (closed, tail) = split_lines(init);
        let n = s.len() as int;
        let m = n - 1 - tail.len();
        assert forall|k: int| 0 <= k < closed.len() implies has_substring(s, #[trigger] closed[k]) by {
            lemma_within_longer(s, closed[k]);
        }
        if s.last() == '\n' {
            let line = strip_cr(tail);
            assert(line =~= s.subrange(m, m + line.len()));
            assert(occurs_at(s, line, m));
            assert(s.subrange(n, n) =~= Seq::<char>::empty());
            assert forall|k: int|
                0 <= k < split_lines(s).0.len() implies has_substring(
                s,
                #[trigger] split_lines(s).0[k],
            ) by {
                if k < closed.len() {
                    assert(split_lines(s).0[k] == closed[k]);
                }
            }
        } else {
            assert(tail.push(s.last()) =~= s.subrange(m, n));
        }
    }
}

/// Each line is a piece of the text.
proof fn lemma_lines_within(s: Seq<char>, k: int)
    requires
        0 <= k < lines_of(s).len(),
    ensures
        has_substring(s, lines_of(s)[k]),
{
    lemma_split_within(s);
    let (closed, tail) = split_lines(s);
    if k == closed.len() {
        assert(occurs_at(s, tail, s.len() - tail.len()));
    } else {
        assert(lines_of(s)[k] == closed[k]);
    }
}

/// A query that the text does not hold finds nothing.
pub proof fn law_absent_from_text_finds_nothing(query: Seq<char>, contents: Seq<char>)
    requires
        !has_substring(contents, query),
    ensures
        matching_lines(false, query, contents).len() == 0,
{
    assert forall|k: int| 0 <= k < lines_of(contents).len() implies !line_matches(
        false,
        query,
        #[trigger] lines_of(contents)[k],
    ) by {
        lemma_lines_within(contents, k);
        if has_substring(lines_of(contents)[k], query) {
            lemma_within_within(contents, lines_of(contents)[k], query);
        }
    }
    law_absent_query_finds_nothing(false, query, contents);
}

} // verus!
