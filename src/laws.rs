//! Properties of the search that relate its results to the lines of the text.
use vstd::prelude::*;

use crate::lines::{has_substring, lines_of};
use crate::search::{
    contains_folded_query,
    contains_query,
    insensitive_matches,
    lower_of,
    sensitive_matches,
};

verus! {

/// `a` is `b` with some items left out and the rest in their order: item
/// `i` of `a` is item `idx[i]` of `b`, and `idx` increases.
pub open spec fn is_subsequence(a: Seq<Seq<char>>, b: Seq<Seq<char>>) -> bool {
    exists|idx: Seq<int>|
        {
            &&& idx.len() == a.len()
            &&& forall|i: int|
                0 <= i < a.len() ==> 0 <= #[trigger] idx[i] < b.len() && a[i] == b[idx[i]]
            &&& forall|i: int, j: int| 0 <= i < j < a.len() ==> idx[i] < idx[j]
        }
}

/// What a filter keeps is a subsequence of what it was given.
proof fn lemma_filter_is_subsequence(s: Seq<Seq<char>>, pred: spec_fn(Seq<char>) -> bool)
    ensures
        is_subsequence(s.filter(pred), s),
    decreases s.len(),
{
    reveal(Seq::filter);
    if s.len() == 0 {
        let idx: Seq<int> = seq![];
        assert(idx.len() == s.filter(pred).len());
    } else {
        let sub = s.drop_last().filter(pred);
        lemma_filter_is_subsequence(s.drop_last(), pred);
        let idx0 = choose|idx: Seq<int>|
            {
                &&& idx.len() == sub.len()
                &&& forall|i: int|
                    0 <= i < sub.len() ==> 0 <= #[trigger] idx[i] < s.drop_last().len() && sub[i]
                        == s.drop_last()[idx[i]]
                &&& forall|i: int, j: int| 0 <= i < j < sub.len() ==> idx[i] < idx[j]
            };
        if pred(s.last()) {
            let idx = idx0.push(s.len() - 1);
            assert(forall|i: int| 0 <= i < idx0.len() ==> idx[i] == idx0[i]);
            assert(idx[idx0.len() as int] == s.len() - 1);
            assert(forall|i: int|
                0 <= i < s.filter(pred).len() ==> 0 <= #[trigger] idx[i] < s.len()
                    && s.filter(pred)[i] == s[idx[i]]);
        } else {
            assert(forall|i: int|
                0 <= i < s.filter(pred).len() ==> 0 <= #[trigger] idx0[i] < s.len()
                    && s.filter(pred)[i] == s[idx0[i]]);
        }
    }
}

/// Every line that the exact search keeps contains the query, and every
/// line of the text that contains the query is kept.
pub proof fn law_exact_search_keeps_exactly_the_containing_lines(
    query: Seq<char>,
    contents: Seq<char>,
)
    ensures
        forall|i: int|
            0 <= i < sensitive_matches(query, contents).len() ==> has_substring(
                #[trigger] sensitive_matches(query, contents)[i],
                query,
            ),
        forall|i: int|
            0 <= i < lines_of(contents).len() && has_substring(
                #[trigger] lines_of(contents)[i],
                query,
            ) ==> sensitive_matches(query, contents).contains(lines_of(contents)[i]),
{
    broadcast use vstd::seq_lib::group_filter_ensures;

    let pred = contains_query(query);
    assert forall|i: int|
        0 <= i < sensitive_matches(query, contents).len() implies has_substring(
        #[trigger] sensitive_matches(query, contents)[i],
        query,
    ) by {
        lines_of(contents).lemma_filter_pred(pred, i);
    }
    assert forall|i: int|
        0 <= i < lines_of(contents).len() && has_substring(
            #[trigger] lines_of(contents)[i],
            query,
        ) implies sensitive_matches(query, contents).contains(lines_of(contents)[i]) by {
        lines_of(contents).lemma_filter_contains(pred, i);
    }
}

/// Every line that the case-folding search keeps is a line of the text, as
/// it stands there, whose lowercase form contains the lowercase query; and
/// every such line of the text is kept.
pub proof fn law_folded_search_keeps_exactly_the_matching_lines(
    query: Seq<char>,
    contents: Seq<char>,
)
    ensures
        forall|i: int|
            0 <= i < insensitive_matches(query, contents).len() ==> {
                &&& lines_of(contents).contains(
                    #[trigger] insensitive_matches(query, contents)[i],
                )
                &&& has_substring(
                    lower_of(insensitive_matches(query, contents)[i]),
                    lower_of(query),
                )
            },
        forall|i: int|
            0 <= i < lines_of(contents).len() && has_substring(
                lower_of(#[trigger] lines_of(contents)[i]),
                lower_of(query),
            ) ==> insensitive_matches(query, contents).contains(lines_of(contents)[i]),
{
    let pred = contains_folded_query(query);
    let m = insensitive_matches(query, contents);
    lemma_filter_is_subsequence(lines_of(contents), pred);
    assert forall|i: int| 0 <= i < m.len() implies {
        &&& lines_of(contents).contains(#[trigger] m[i])
        &&& has_substring(lower_of(m[i]), lower_of(query))
    } by {
        lines_of(contents).lemma_filter_pred(pred, i);
        let idx = choose|idx: Seq<int>|
            {
                &&& idx.len() == m.len()
                &&& forall|i: int|
                    0 <= i < m.len() ==> 0 <= #[trigger] idx[i] < lines_of(contents).len() && m[i]
                        == lines_of(contents)[idx[i]]
                &&& forall|i: int, j: int| 0 <= i < j < m.len() ==> idx[i] < idx[j]
            };
        assert(m[i] == lines_of(contents)[idx[i]]);
    }
    assert forall|i: int|
        0 <= i < lines_of(contents).len() && has_substring(
            lower_of(#[trigger] lines_of(contents)[i]),
            lower_of(query),
        ) implies m.contains(lines_of(contents)[i]) by {
        lines_of(contents).lemma_filter_contains(pred, i);
    }
}

/// Both searches keep lines in the order in which they stand in the text.
pub proof fn law_search_keeps_line_order(query: Seq<char>, contents: Seq<char>)
    ensures
        is_subsequence(sensitive_matches(query, contents), lines_of(contents)),
        is_subsequence(insensitive_matches(query, contents), lines_of(contents)),
{
    lemma_filter_is_subsequence(lines_of(contents), contains_query(query));
    lemma_filter_is_subsequence(lines_of(contents), contains_folded_query(query));
}

/// An empty query matches every line: the exact search keeps the whole text.
pub proof fn law_empty_query_keeps_every_line(contents: Seq<char>)
    ensures
        sensitive_matches(Seq::empty(), contents) == lines_of(contents),
{
    let lines = lines_of(contents);
    let pred = contains_query(Seq::empty());
    assert forall|i: int| 0 <= i < lines.len() implies pred(#[trigger] lines[i]) by {
        assert(lines[i].subrange(0int, 0int + Seq::<char>::empty().len()) =~= Seq::<char>::empty());
    }
    crate::search::lemma_filter_keeps_all(lines, pred);
}

} // verus!
