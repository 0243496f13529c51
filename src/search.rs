use vstd::prelude::*;

use crate::laws::{empty_query_matches_every_line, lemma_contains_empty, lemma_filter_all};
use crate::text::{
    chars_of, contains, contains_str, cut, line_spans, lines_of, occurs_between, spans_within,
};

verus! {

broadcast use vstd::string::group_string_axioms;

/// The lowercase form of `s`, as Unicode defines it.
pub uninterp spec fn lower_of(s: Seq<char>) -> Seq<char>;

/// Relies on str::to_lowercase: the result depends on the characters alone, and an
/// empty string stays empty.
#[verifier::external_body]
fn lowercase(s: &str) -> (r: String)
    ensures
        r@ == lower_of(s@),
        s@.len() == 0 ==> r@.len() == 0,
{
    s.to_lowercase()
}

/// The views of a sequence of string slices.
pub open spec fn views(r: Seq<&str>) -> Seq<Seq<char>> {
    r.map_values(|l: &str| l@)
}

/// The lines of `text` that hold `query`, in order.
pub open spec fn matching_lines(query: Seq<char>, text: Seq<char>) -> Seq<Seq<char>> {
    lines_of(text).filter(|l: Seq<char>| contains(l, query))
}

/// The lines of `text` whose lowercase form holds the lowercase form of `query`, in order.
pub open spec fn matching_lines_folded(query: Seq<char>, text: Seq<char>) -> Seq<Seq<char>> {
    lines_of(text).filter(|l: Seq<char>| contains(lower_of(l), lower_of(query)))
}

/// The lines of `text` that hold `query`, case-sensitively, in their order in `text`.
pub fn search<'a>(query: &str, text: &'a str) -> (r: Vec<&'a str>)
    ensures
        views(r@) == matching_lines(query@, text@),
        forall|k: int| 0 <= k < r@.len() ==> contains(#[trigger] r@[k]@, query@),
        query@.len() == 0 ==> views(r@) == lines_of(text@),
{
    let t = chars_of(text);
    let q = chars_of(query);
    let spans = line_spans(&t);
    let ghost pred = |l: Seq<char>| contains(l, query@);
    let mut r: Vec<&'a str> = Vec::new();
    for k in 0..spans.len()
        invariant
            t@ == text@,
            q@ == query@,
            pred == (|l: Seq<char>| contains(l, query@)),
            spans_within(t@, spans@),
            cut(t@, spans@) == lines_of(text@),
            views(r@) == cut(t@, spans@).take(k as int).filter(pred),
    {
        let (a, b) = spans[k];
        let ghost lines = cut(t@, spans@);
        assert(lines.take(k + 1).drop_last() == lines.take(k as int));
        assert(lines.take(k + 1).last() == lines[k as int]);
        assert(lines[k as int] == t@.subrange(a as int, b as int));
        reveal(Seq::filter);
        let ghost before = r@;
        if occurs_between(&t, a, b, &q) {
            r.push(text.substring_char(a, b));
            assert(pred(lines[k as int]));
            assert(lines.take(k + 1).filter(pred) == lines.take(k as int).filter(pred).push(
                lines[k as int],
            ));
            assert(views(r@) == views(before).push(lines[k as int]));
        } else {
            assert(!pred(lines[k as int]));
            assert(lines.take(k + 1).filter(pred) == lines.take(k as int).filter(pred));
        }
    }
    proof {
        assert(cut(t@, spans@).take(spans@.len() as int) == cut(t@, spans@));
        assert forall|k: int| 0 <= k < r@.len() implies contains(#[trigger] r@[k]@, query@) by {
            lines_of(text@).lemma_filter_pred(pred, k);
            assert(views(r@)[k] == r@[k]@);
        }
        if query@.len() == 0 {
            assert(query@ == Seq::<char>::empty());
            empty_query_matches_every_line(text@);
        }
    }
    r
}

/// The lines of `text` whose lowercase form holds the lowercase form of `query`, in their
/// order in `text`. Each line comes back as it stands in `text`.
pub fn search_case_insensitive<'a>(query: &str, text: &'a str) -> (r: Vec<&'a str>)
    ensures
        views(r@) == matching_lines_folded(query@, text@),
        forall|k: int| 0 <= k < r@.len() ==> contains(lower_of(#[trigger] r@[k]@), lower_of(query@)),
        query@.len() == 0 ==> views(r@) == lines_of(text@),
{
    let t = chars_of(text);
    let q = lowercase(query);
    let spans = line_spans(&t);
    let ghost pred = |l: Seq<char>| contains(lower_of(l), lower_of(query@));
    let mut r: Vec<&'a str> = Vec::new();
    for k in 0..spans.len()
        invariant
            t@ == text@,
            q@ == lower_of(query@),
            pred == (|l: Seq<char>| contains(lower_of(l), lower_of(query@))),
            spans_within(t@, spans@),
            cut(t@, spans@) == lines_of(text@),
            views(r@) == cut(t@, spans@).take(k as int).filter(pred),
    {
        let (a, b) = spans[k];
        let ghost lines = cut(t@, spans@);
        assert(lines.take(k + 1).drop_last() == lines.take(k as int));
        assert(lines.take(k + 1).last() == lines[k as int]);
        assert(lines[k as int] == t@.subrange(a as int, b as int));
        reveal(Seq::filter);
        let ghost before = r@;
        let line = text.substring_char(a, b);
        let folded = lowercase(line);
        if contains_str(folded.as_str(), q.as_str()) {
            r.push(line);
            assert(pred(lines[k as int]));
            assert(lines.take(k + 1).filter(pred) == lines.take(k as int).filter(pred).push(
                lines[k as int],
            ));
            assert(views(r@) == views(before).push(lines[k as int]));
        } else {
            assert(!pred(lines[k as int]));
            assert(lines.take(k + 1).filter(pred) == lines.take(k as int).filter(pred));
        }
    }
    proof {
        assert(cut(t@, spans@).take(spans@.len() as int) == cut(t@, spans@));
        assert forall|k: int| 0 <= k < r@.len() implies contains(
            lower_of(#[trigger] r@[k]@),
            lower_of(query@),
        ) by {
            lines_of(text@).lemma_filter_pred(pred, k);
            assert(views(r@)[k] == r@[k]@);
        }
        if query@.len() == 0 {
            assert(lower_of(query@) == Seq::<char>::empty());
            assert forall|l: Seq<char>| #[trigger] pred(l) by {
                lemma_contains_empty(lower_of(l));
            }
            lemma_filter_all(lines_of(text@), pred);
        }
    }
    r
}

} // verus!
