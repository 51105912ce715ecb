use vstd::prelude::*;

use crate::lines::{
    lemma_filter_push, lemma_line_then_rest, lemma_no_newline, lemma_numbered_push, lines_of,
    numbered, split_lines, strip_cr,
};
use crate::text::{chars_of, contains_in_range, has_substring, lower_of, lowercase};

verus! {

/// Whether a line is a match for `query`: as it stands, or, when `folded`, once
/// both are lowercased.
pub open spec fn line_matches(folded: bool, query: Seq<char>, line: Seq<char>) -> bool {
    if folded {
        has_substring(lower_of(line), lower_of(query))
    } else {
        has_substring(line, query)
    }
}

/// Picks the numbered lines that are a match for `query`.
pub open spec fn selects(folded: bool, query: Seq<char>) -> spec_fn((Seq<char>, int)) -> bool {
    |p: (Seq<char>, int)| line_matches(folded, query, p.0)
}

/// The lines of `contents` that are a match for `query`, each with its number, in order.
pub open spec fn matching_lines(folded: bool, query: Seq<char>, contents: Seq<char>) -> Seq<
    (Seq<char>, int),
> {
    numbered(lines_of(contents)).filter(selects(folded, query))
}

/// What a result of a search says: each line's text and number.
pub open spec fn found_view(r: Seq<(&str, i32)>) -> Seq<(Seq<char>, int)> {
    r.map_values(|p: (&str, i32)| (p.0@, p.1 as int))
}

proof fn lemma_found_push<'a>(r: Seq<(&'a str, i32)>, p: (&'a str, i32))
    ensures
        found_view(r.push(p)) == found_view(r).push((p.0@, p.1 as int)),
{
    assert(found_view(r.push(p)) =~= found_view(r).push((p.0@, p.1 as int)));
}

/// Relies on `str::split_once` with the delimiter `'\n'`: the text before the
/// first newline and the text after it, or `None` where there is no newline.
#[verifier::external_body]
fn split_at_newline<'a>(s: &'a str) -> (r: Option<(&'a str, &'a str)>)
    ensures
        r is None <==> !s@.contains('\n'),
        r matches Some(parts) ==> s@ == parts.0@ + seq!['\n'] + parts.1@ && !parts.0@.contains(
            '\n',
        ),
{
    s.split_once('\n')
}

/// The text of a line without the carriage return that ends it, if one does.
fn strip_line_end<'a>(text: &'a str) -> (r: &'a str)
    ensures
        r@ == strip_cr(text@),
{
    let n = text.unicode_len();
    if n > 0 && text.get_char(n - 1) == '\r' {
        text.substring_char(0, n - 1)
    } else {
        text
    }
}

/// Whether `line` is a match; `q` holds the query, lowercased when `folded`.
fn line_is_match(line: &str, q: &Vec<char>, folded: bool, Ghost(query): Ghost<Seq<char>>) -> (r:
    bool)
    requires
        q@ == (if folded {
            lower_of(query)
        } else {
            query
        }),
    ensures
        r == line_matches(folded, query, line@),
{
    let cs = if folded {
        let lowered = lowercase(line);
        chars_of(lowered.as_str())
    } else {
        chars_of(line)
    };
    assert(cs@.subrange(0, cs@.len() as int) =~= cs@);
    contains_in_range(&cs, 0, cs.len(), q)
}

/// The lines of `contents` that are a match for `query`, with their numbers.
fn scan<'a>(query: &str, contents: &'a str, folded: bool) -> (r: Vec<(&'a str, i32)>)
    requires
        lines_of(contents@).len() <= i32::MAX,
    ensures
        found_view(r@) == matching_lines(folded, query@, contents@),
{
    let q = if folded {
        let lowered = lowercase(query);
        chars_of(lowered.as_str())
    } else {
        chars_of(query)
    };
    let ghost pred = selects(folded, query@);
    let ghost mut closed: Seq<Seq<char>> = seq![];
    let mut r: Vec<(&'a str, i32)> = Vec::new();
    let mut rest: &'a str = contents;
    let mut count: i32 = 0;
    proof {
        assert(closed + lines_of(rest@) =~= lines_of(contents@));
        assert(numbered(closed) =~= Seq::<(Seq<char>, int)>::empty());
        reveal(Seq::filter);
        assert(found_view(r@) =~= Seq::<(Seq<char>, int)>::empty());
    }
    loop
        invariant_except_break
            lines_of(contents@) == closed + lines_of(rest@),
            count as int == closed.len(),
            found_view(r@) == numbered(closed).filter(pred),
        invariant
            lines_of(contents@).len() <= i32::MAX,
            pred == selects(folded, query@),
            q@ == (if folded {
                lower_of(query@)
            } else {
                query@
            }),
        ensures
            found_view(r@) == numbered(lines_of(contents@)).filter(pred),
        decreases rest@.len(),
    {
        match split_at_newline(rest) {
            Some((text, tail)) => {
                proof {
                    lemma_line_then_rest(text@, tail@);
                    assert(closed + (seq![strip_cr(text@)] + lines_of(tail@)) =~= closed.push(
                        strip_cr(text@),
                    ) + lines_of(tail@));
                }
                let line = strip_line_end(text);
                let number: i32 = count + 1;
                if line_is_match(line, &q, folded, Ghost(query@)) {
                    proof {
                        lemma_found_push(r@, (line, number));
                    }
                    r.push((line, number));
                }
                proof {
                    lemma_numbered_push(closed, line@);
                    lemma_filter_push(numbered(closed), (line@, closed.len() as int + 1), pred);
                    closed = closed.push(line@);
                }
                count = number;
                rest = tail;
            },
            None => {
                if !rest.is_empty() {
                    proof {
                        lemma_no_newline(rest@);
                        assert(lines_of(rest@) =~= seq![rest@]);
                        assert(closed + seq![rest@] =~= closed.push(rest@));
                    }
                    let number: i32 = count + 1;
                    if line_is_match(rest, &q, folded, Ghost(query@)) {
                        proof {
                            lemma_found_push(r@, (rest, number));
                        }
                        r.push((rest, number));
                    }
                    proof {
                        lemma_numbered_push(closed, rest@);
                        lemma_filter_push(numbered(closed), (rest@, closed.len() as int + 1), pred);
                    }
                } else {
                    assert(split_lines(rest@) == (Seq::<Seq<char>>::empty(), Seq::<char>::empty()));
                    assert(closed + lines_of(rest@) =~= closed);
                }
                break;
            },
        }
    }
    r
}

/// The lines of `contents` that hold `query`, letter case counting, each with
/// its number from 1, in the order of the text.
pub fn search<'a>(query: &str, contents: &'a str) -> (r: Vec<(&'a str, i32)>)
    requires
        lines_of(contents@).len() <= i32::MAX,
    ensures
        found_view(r@) == matching_lines(false, query@, contents@),
{
    scan(query, contents, false)
}

/// The lines of `contents` that hold `query` once both are lowercased, each with
/// its number from 1, in the order of the text; a line is given as it stands.
pub fn search_case_insensitive<'a>(query: &str, contents: &'a str) -> (r: Vec<(&'a str, i32)>)
    requires
        lines_of(contents@).len() <= i32::MAX,
    ensures
        found_view(r@) == matching_lines(true, query@, contents@),
{
    scan(query, contents, true)
}

} // verus!
