use vstd::prelude::*;

use crate::search::{lower_of, matching_lines, matching_lines_folded};
use crate::text::{contains, lines_of, occurs_at};

verus! {

/// `sub` is made of elements of `full` taken in their order in `full`.
pub open spec fn in_order(sub: Seq<Seq<char>>, full: Seq<Seq<char>>) -> bool {
    exists|idx: Seq<int>|
        {
            &&& idx.len() == sub.len()
            &&& forall|k: int| 0 <= k < idx.len() ==> 0 <= #[trigger] idx[k] < full.len()
            &&& forall|k: int| 0 <= k < idx.len() ==> sub[k] == full[#[trigger] idx[k]]
            &&& forall|j: int, k: int| 0 <= j < k < idx.len() ==> idx[j] < idx[k]
        }
}

/// Filtering keeps the elements that stay in their order.
pub proof fn lemma_filter_in_order(s: Seq<Seq<char>>, p: spec_fn(Seq<char>) -> bool)
    ensures
        in_order(s.filter(p), s),
    decreases s.len(),
{
    reveal(Seq::filter);
    if s.len() == 0 {
        assert(in_order(s.filter(p), s)) by {
            let idx: Seq<int> = seq![];
            assert(idx.len() == s.filter(p).len());
        }
    } else {
        let init = s.drop_last();
        lemma_filter_in_order(init, p);
        let sub = init.filter(p);
        let idx = choose|idx: Seq<int>|
            {
                &&& idx.len() == sub.len()
                &&& forall|k: int| 0 <= k < idx.len() ==> 0 <= #[trigger] idx[k] < init.len()
                &&& forall|k: int| 0 <= k < idx.len() ==> sub[k] == init[#[trigger] idx[k]]
                &&& forall|j: int, k: int| 0 <= j < k < idx.len() ==> idx[j] < idx[k]
            };
        if p(s.last()) {
            let idx2 = idx.push(s.len() - 1);
            let sub2 = sub.push(s.last());
            assert(s.filter(p) == sub2);
            assert forall|k: int| 0 <= k < idx2.len() implies sub2[k] == s[#[trigger] idx2[k]] by {
                if k < idx.len() {
                    assert(idx2[k] == idx[k]);
                }
            }
            assert forall|j: int, k: int| 0 <= j < k < idx2.len() implies idx2[j] < idx2[k] by {
                if k < idx.len() {
                    assert(idx2[j] == idx[j] && idx2[k] == idx[k]);
                } else {
                    assert(idx2[j] == idx[j]);
                }
            }
            assert(forall|k: int| 0 <= k < idx2.len() ==> 0 <= #[trigger] idx2[k] < s.len());
            assert(idx2.len() == sub2.len());
            assert(in_order(sub2, s));
        } else {
            assert(s.filter(p) == sub);
            assert forall|k: int| 0 <= k < idx.len() implies sub[k] == s[#[trigger] idx[k]] by {
                assert(init[idx[k]] == s[idx[k]]);
            }
            assert(forall|k: int| 0 <= k < idx.len() ==> 0 <= #[trigger] idx[k] < s.len());
            assert(in_order(sub, s));
        }
    }
}

/// A looser test keeps at least as many elements.
pub proof fn lemma_filter_len_monotone(
    s: Seq<Seq<char>>,
    p: spec_fn(Seq<char>) -> bool,
    q: spec_fn(Seq<char>) -> bool,
)
    requires
        forall|k: int| 0 <= k < s.len() && p(s[k]) ==> q(#[trigger] s[k]),
    ensures
        s.filter(p).len() <= s.filter(q).len(),
    decreases s.len(),
{
    reveal(Seq::filter);
    if s.len() > 0 {
        let init = s.drop_last();
        assert forall|k: int| 0 <= k < init.len() && p(init[k]) implies q(#[trigger] init[k]) by {
            assert(init[k] == s[k]);
        }
        lemma_filter_len_monotone(init, p, q);
        assert(s.last() == s[s.len() - 1]);
    }
}

/// A test that every element passes keeps the whole sequence.
pub proof fn lemma_filter_all(s: Seq<Seq<char>>, p: spec_fn(Seq<char>) -> bool)
    requires
        forall|l: Seq<char>| #[trigger] p(l),
    ensures
        s.filter(p) == s,
    decreases s.len(),
{
    reveal(Seq::filter);
    if s.len() > 0 {
        lemma_filter_all(s.drop_last(), p);
        assert(s.drop_last().push(s.last()) == s);
    }
}

/// The empty sequence is part of every sequence.
pub proof fn lemma_contains_empty(hay: Seq<char>)
    ensures
        contains(hay, Seq::<char>::empty()),
{
    assert(hay.subrange(0, 0) =~= Seq::<char>::empty());
    assert(occurs_at(hay, Seq::<char>::empty(), 0));
}

/// Case-sensitive search returns only lines that hold the query, in their order in the text.
pub proof fn search_keeps_matching_lines_in_order(query: Seq<char>, text: Seq<char>)
    ensures
        forall|k: int|
            0 <= k < matching_lines(query, text).len() ==> contains(
                #[trigger] matching_lines(query, text)[k],
                query,
            ),
        in_order(matching_lines(query, text), lines_of(text)),
{
    let p = |l: Seq<char>| contains(l, query);
    assert forall|k: int| 0 <= k < matching_lines(query, text).len() implies contains(
        #[trigger] matching_lines(query, text)[k],
        query,
    ) by {
        lines_of(text).lemma_filter_pred(p, k);
    }
    lemma_filter_in_order(lines_of(text), p);
}

/// Where lowercasing keeps each occurrence of the query in the lines of the text, every
/// line that case-sensitive search finds is found case-insensitively too, so the latter
/// finds at least as many lines.
pub proof fn folded_search_finds_at_least_as_many(query: Seq<char>, text: Seq<char>)
    requires
        forall|l: Seq<char>|
            lines_of(text).contains(l) && contains(l, query) ==> contains(
                #[trigger] lower_of(l),
                lower_of(query),
            ),
    ensures
        matching_lines(query, text).len() <= matching_lines_folded(query, text).len(),
        forall|l: Seq<char>|
            #[trigger] matching_lines(query, text).contains(l) ==> matching_lines_folded(
                query,
                text,
            ).contains(l),
{
    let s = lines_of(text);
    let p = |l: Seq<char>| contains(l, query);
    let q = |l: Seq<char>| contains(lower_of(l), lower_of(query));
    assert forall|k: int| 0 <= k < s.len() && p(s[k]) implies q(#[trigger] s[k]) by {
        assert(s.contains(s[k]));
    }
    lemma_filter_len_monotone(s, p, q);
    assert forall|l: Seq<char>| #[trigger]
        matching_lines(query, text).contains(l) implies matching_lines_folded(
        query,
        text,
    ).contains(l) by {
        s.lemma_filter_contains_rev(p, l);
        let k = choose|k: int| 0 <= k < s.len() && s[k] == l;
        s.lemma_filter_contains(q, k);
    }
}

/// Searching twice with the same query and text gives the same lines in the same order,
/// and that order is the order of the text.
pub proof fn search_is_repeatable(query: Seq<char>, text: Seq<char>)
    ensures
        matching_lines(query, text) == matching_lines(query, text),
        matching_lines_folded(query, text) == matching_lines_folded(query, text),
        in_order(matching_lines(query, text), lines_of(text)),
        in_order(matching_lines_folded(query, text), lines_of(text)),
{
    lemma_filter_in_order(lines_of(text), |l: Seq<char>| contains(l, query));
    lemma_filter_in_order(
        lines_of(text),
        |l: Seq<char>| contains(lower_of(l), lower_of(query)),
    );
}

/// The empty query matches every line of the text.
pub proof fn empty_query_matches_every_line(text: Seq<char>)
    ensures
        matching_lines(Seq::<char>::empty(), text) == lines_of(text),
{
    let p = |l: Seq<char>| contains(l, Seq::<char>::empty());
    assert forall|l: Seq<char>| #[trigger] p(l) by {
        lemma_contains_empty(l);
    }
    lemma_filter_all(lines_of(text), p);
}

} // verus!
