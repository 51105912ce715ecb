use vstd::prelude::*;

verus! {

/// A line without the carriage return that ends it, if one does.
pub open spec fn strip_cr(line: Seq<char>) -> Seq<char> {
    if line.len() > 0 && line.last() == '\r' {
        line.drop_last()
    } else {
        line
    }
}

/// The lines of `s` that a newline has closed, and the text after the last newline.
pub open spec fn split_lines(s: Seq<char>) -> (Seq<Seq<char>>, Seq<char>)
    decreases s.len(),
{
    if s.len() == 0 {
        (seq![], seq![])
    } else {
        let (closed, tail) = split_lines(s.drop_last());
        if s.last() == '\n' {
            (closed.push(strip_cr(tail)), seq![])
        } else {
            (closed, tail.push(s.last()))
        }
    }
}

/// The lines of `s`: split at each `\n`, a `\r` just before it dropped, and no
/// empty line after a final newline.
pub open spec fn lines_of(s: Seq<char>) -> Seq<Seq<char>> {
    let (closed, tail) = split_lines(s);
    if tail.len() == 0 {
        closed
    } else {
        closed.push(tail)
    }
}

/// Each line beside its number, counting from 1.
pub open spec fn numbered(lines: Seq<Seq<char>>) -> Seq<(Seq<char>, int)> {
    Seq::new(lines.len(), |i: int| (lines[i], i + 1))
}

/// A text without newlines is all tail.
pub proof fn lemma_no_newline(x: Seq<char>)
    requires
        !x.contains('\n'),
    ensures
        split_lines(x) == (Seq::<Seq<char>>::empty(), x),
    decreases x.len(),
{
    if x.len() == 0 {
        assert(x =~= Seq::<char>::empty());
    } else {
        let init = x.drop_last();
        assert forall|i: int| 0 <= i < init.len() implies init[i] != '\n' by {
            assert(x[i] == init[i]);
        }
        lemma_no_newline(init);
        assert(x[x.len() - 1] == x.last());
        assert(init.push(x.last()) =~= x);
    }
}

/// After a text that ends with a newline, the split goes on afresh.
pub proof fn lemma_split_concat(p: Seq<char>, x: Seq<char>)
    requires
        split_lines(p).1 == Seq::<char>::empty(),
    ensures
        split_lines(p + x) == (split_lines(p).0 + split_lines(x).0, split_lines(x).1),
    decreases x.len(),
{
    if x.len() == 0 {
        assert(p + x =~= p);
        assert(split_lines(p).0 + split_lines(x).0 =~= split_lines(p).0);
    } else {
        lemma_split_concat(p, x.drop_last());
        assert((p + x).drop_last() =~= p + x.drop_last());
        assert((p + x).last() == x.last());
        let (c, t) = split_lines(x.drop_last());
        assert((split_lines(p).0 + c).push(strip_cr(t)) =~= split_lines(p).0 + c.push(strip_cr(t)));
    }
}

/// A line, its newline, and the rest: the line leads the lines of the whole.
pub proof fn lemma_line_then_rest(line: Seq<char>, rest: Seq<char>)
    requires
        !line.contains('\n'),
    ensures
        lines_of(line + seq!['\n'] + rest) == seq![strip_cr(line)] + lines_of(rest),
{
    let head = line + seq!['\n'];
    lemma_no_newline(line);
    assert(head.drop_last() =~= line);
    assert(split_lines(head) == (seq![strip_cr(line)], Seq::<char>::empty()));
    lemma_split_concat(head, rest);
    assert((seq![strip_cr(line)] + split_lines(rest).0).push(split_lines(rest).1) =~= seq![
        strip_cr(line),
    ] + split_lines(rest).0.push(split_lines(rest).1));
}

/// Numbering one more line gives it the next number.
pub proof fn lemma_numbered_push(lines: Seq<Seq<char>>, line: Seq<char>)
    ensures
        numbered(lines.push(line)) == numbered(lines).push((line, lines.len() as int + 1)),
{
    assert(numbered(lines.push(line)) =~= numbered(lines).push((line, lines.len() as int + 1)));
}

/// Filtering one more element keeps it at the end or leaves it out.
pub proof fn lemma_filter_push<A>(s: Seq<A>, x: A, pred: spec_fn(A) -> bool)
    ensures
        s.push(x).filter(pred) == (if pred(x) {
            s.filter(pred).push(x)
        } else {
            s.filter(pred)
        }),
{
    reveal(Seq::filter);
    assert(s.push(x).drop_last() =~= s);
}

} // verus!
