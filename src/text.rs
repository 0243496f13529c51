use vstd::prelude::*;

verus! {

broadcast use vstd::string::group_string_axioms;

/// `needle` stands in `hay` at position `i`.
pub open spec fn occurs_at(hay: Seq<char>, needle: Seq<char>, i: int) -> bool {
    0 <= i && i + needle.len() <= hay.len() && hay.subrange(i, i + needle.len()) == needle
}

/// `needle` is a contiguous part of `hay`; the empty sequence is part of every sequence.
pub open spec fn contains(hay: Seq<char>, needle: Seq<char>) -> bool {
    exists|i: int| occurs_at(hay, needle, i)
}

/// A line without the carriage return that ended it, if any.
pub open spec fn trim_cr(l: Seq<char>) -> Seq<char> {
    if l.len() > 0 && l.last() == '\r' {
        l.drop_last()
    } else {
        l
    }
}

/// The lines of `t` that begin at or after `start`, where the current line began at
/// `start` and the scan has reached `i`. A line ends at `'\n'`, which it does not hold,
/// nor a `'\r'` just before it; a last line without `'\n'` counts unless it is empty.
pub open spec fn lines_from(t: Seq<char>, start: int, i: int) -> Seq<Seq<char>>
    decreases t.len() - i,
{
    if i >= t.len() {
        if start < t.len() {
            seq![t.subrange(start, t.len() as int)]
        } else {
            seq![]
        }
    } else if t[i] == '\n' {
        seq![trim_cr(t.subrange(start, i))] + lines_from(t, i + 1, i + 1)
    } else {
        lines_from(t, start, i + 1)
    }
}

/// The lines of the text `t`, in order.
pub open spec fn lines_of(t: Seq<char>) -> Seq<Seq<char>> {
    lines_from(t, 0, 0)
}

/// What the spans `s` cut out of `t`.
pub open spec fn cut(t: Seq<char>, s: Seq<(usize, usize)>) -> Seq<Seq<char>> {
    s.map_values(|p: (usize, usize)| t.subrange(p.0 as int, p.1 as int))
}

/// Every span of `s` lies within `t`.
pub open spec fn spans_within(t: Seq<char>, s: Seq<(usize, usize)>) -> bool {
    forall|k: int| 0 <= k < s.len() ==> #[trigger] s[k].0 <= s[k].1 && s[k].1 <= t.len()
}

/// The characters of `s`, in order, collected into a vector.
pub fn chars_of(s: &str) -> (r: Vec<char>)
    ensures
        r@ == s@,
{
    let mut r: Vec<char> = Vec::new();
    for c in iter: s.chars()
        invariant
            r@ == iter.seq().take(iter.index()),
            iter.seq() == s@,
    {
        r.push(c);
    }
    r
}

/// The start and end of each line of `t`, in order.
pub fn line_spans(t: &Vec<char>) -> (r: Vec<(usize, usize)>)
    ensures
        spans_within(t@, r@),
        cut(t@, r@) == lines_of(t@),
{
    let mut r: Vec<(usize, usize)> = Vec::new();
    let mut start: usize = 0;
    let mut i: usize = 0;
    while i < t.len()
        invariant
            start <= i <= t.len(),
            spans_within(t@, r@),
            cut(t@, r@) + lines_from(t@, start as int, i as int) == lines_of(t@),
        decreases t.len() - i,
    {
        if t[i] == '\n' {
            let mut end: usize = i;
            if start < i && t[i - 1] == '\r' {
                end = i - 1;
            }
            let ghost line = t@.subrange(start as int, i as int);
            assert(t@.subrange(start as int, end as int) == trim_cr(line));
            let ghost before = cut(t@, r@);
            r.push((start, end));
            assert(cut(t@, r@) == before.push(trim_cr(line)));
            assert(before + lines_from(t@, start as int, i as int) == before + (seq![trim_cr(line)]
                + lines_from(t@, i + 1, i + 1)));
            assert(before + (seq![trim_cr(line)] + lines_from(t@, i + 1, i + 1)) == before.push(
                trim_cr(line),
            ) + lines_from(t@, i + 1, i + 1));
            start = i + 1;
        }
        i = i + 1;
    }
    if start < t.len() {
        let ghost before = cut(t@, r@);
        r.push((start, t.len()));
        assert(cut(t@, r@) == before.push(t@.subrange(start as int, t.len() as int)));
        assert(cut(t@, r@) == before + lines_from(t@, start as int, i as int));
    } else {
        assert(cut(t@, r@) == cut(t@, r@) + lines_from(t@, start as int, i as int));
    }
    r
}

/// Whether `q` stands in `t` between positions `lo` and `hi`.
pub fn occurs_between(t: &Vec<char>, lo: usize, hi: usize, q: &Vec<char>) -> (r: bool)
    requires
        lo <= hi <= t.len(),
    ensures
        r == contains(t@.subrange(lo as int, hi as int), q@),
{
    let ghost hay = t@.subrange(lo as int, hi as int);
    if q.len() > hi - lo {
        assert forall|j: int| !occurs_at(hay, q@, j) by {}
        return false;
    }
    let last: usize = hi - q.len();
    let mut s: usize = lo;
    while s <= last
        invariant
            lo <= s <= last + 1,
            last + q.len() == hi,
            hi <= t.len(),
            hay == t@.subrange(lo as int, hi as int),
            forall|j: int| 0 <= j < s - lo ==> !occurs_at(hay, q@, j),
        decreases last + 1 - s,
    {
        let mut k: usize = 0;
        while k < q.len() && t[s + k] == q[k]
            invariant
                k <= q.len(),
                s + q.len() <= hi <= t.len(),
                forall|m: int| 0 <= m < k ==> t@[s + m] == q@[m],
            decreases q.len() - k,
        {
            k = k + 1;
        }
        if k == q.len() {
            assert(hay.subrange(s - lo, s - lo + q.len()) == q@);
            assert(occurs_at(hay, q@, s - lo));
            return true;
        }
        assert(!occurs_at(hay, q@, s - lo)) by {
            if occurs_at(hay, q@, s - lo) {
                assert(hay.subrange(s - lo, s - lo + q.len())[k as int] == q@[k as int]);
            }
        }
        s = s + 1;
    }
    false
}

/// Whether `needle` is a contiguous part of `hay`.
pub fn contains_str(hay: &str, needle: &str) -> (r: bool)
    ensures
        r == contains(hay@, needle@),
{
    let h = chars_of(hay);
    let n = chars_of(needle);
    assert(h@.subrange(0, h@.len() as int) == h@);
    occurs_between(&h, 0, h.len(), &n)
}

} // verus!
