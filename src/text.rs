use vstd::prelude::*;

verus! {

/// `q` occurs in `t` starting at position `i`.
pub open spec fn occurs_at(t: Seq<char>, q: Seq<char>, i: int) -> bool {
    0 <= i && i + q.len() <= t.len() && t.subrange(i, i + q.len()) == q
}

/// `q` occurs somewhere in `t` as a run of consecutive characters.
pub open spec fn has_substring(t: Seq<char>, q: Seq<char>) -> bool {
    exists|i: int| occurs_at(t, q, i)
}

/// What `str::to_lowercase` makes of a text.
pub uninterp spec fn lower_of(s: Seq<char>) -> Seq<char>;

/// Relies on `str::to_lowercase`: its result depends on the characters alone.
#[verifier::external_body]
pub(crate) fn lowercase(s: &str) -> (r: String)
    ensures
        r@ == lower_of(s@),
{
    s.to_lowercase()
}

/// The characters of `s`, in order, in a vector.
pub fn chars_of(s: &str) -> (r: Vec<char>)
    ensures
        r@ == s@,
{
    let mut r: Vec<char> = Vec::new();
    for c in it: s.chars()
        invariant
            r@ == it.seq().take(it.index() as int),
    {
        r.push(c);
    }
    r
}

/// Whether `q` occurs in `t[lo..hi]` at position `lo + i`.
fn occurs_in_range(t: &Vec<char>, lo: usize, hi: usize, q: &Vec<char>, i: usize) -> (r: bool)
    requires
        lo <= hi <= t@.len(),
    ensures
        r == occurs_at(t@.subrange(lo as int, hi as int), q@, i as int),
{
    let ghost w = t@.subrange(lo as int, hi as int);
    if q.len() > hi - lo || i > (hi - lo) - q.len() {
        return false;
    }
    let mut k: usize = 0;
    while k < q.len()
        invariant
            lo <= hi <= t@.len(),
            w == t@.subrange(lo as int, hi as int),
            i + q@.len() <= w.len(),
            k <= q@.len(),
            forall|j: int| 0 <= j < k ==> w[i + j] == q@[j],
        decreases q.len() - k,
    {
        if t[lo + i + k] != q[k] {
            assert(w.subrange(i as int, i + q@.len())[k as int] != q@[k as int]);
            return false;
        }
        k = k + 1;
    }
    assert(w.subrange(i as int, i + q@.len()) =~= q@);
    true
}

/// Whether `q` occurs in the range `t[lo..hi]`.
pub(crate) fn contains_in_range(t: &Vec<char>, lo: usize, hi: usize, q: &Vec<char>) -> (r: bool)
    requires
        lo <= hi <= t@.len(),
    ensures
        r == has_substring(t@.subrange(lo as int, hi as int), q@),
{
    let ghost w = t@.subrange(lo as int, hi as int);
    if q.len() > hi - lo {
        return false;
    }
    if q.len() == 0 {
        assert(w.subrange(0, 0) =~= q@);
        assert(occurs_at(w, q@, 0));
        return true;
    }
    let last: usize = (hi - lo) - q.len();
    let mut i: usize = 0;
    while i <= last
        invariant
            lo <= hi <= t@.len(),
            w == t@.subrange(lo as int, hi as int),
            last + q@.len() == w.len(),
            q@.len() >= 1,
            forall|j: int| 0 <= j < i ==> !occurs_at(w, q@, j),
        decreases last + 1 - i,
    {
        if occurs_in_range(t, lo, hi, q, i) {
            return true;
        }
        i = i + 1;
    }
    assert forall|j: int| !occurs_at(w, q@, j) by {
        if 0 <= j && j < i {
        }
    }
    false
}

/// Whether `query` occurs in `text` as a run of consecutive characters.
pub fn contains(text: &str, query: &str) -> (r: bool)
    ensures
        r == has_substring(text@, query@),
{
    let t = chars_of(text);
    let q = chars_of(query);
    let r = contains_in_range(&t, 0, t.len(), &q);
    assert(t@.subrange(0, t@.len() as int) =~= t@);
    r
}

} // verus!
