//! Keeping the lines of a text that contain a query, exactly or with letter
//! case folded on both sides.
use vstd::prelude::*;

use crate::lines::{chars_of, has_substring, line_bounds, lines_of, occurs_in};

verus! {

broadcast use vstd::string::group_string_axioms;

/// What `str::to_lowercase` makes of a string.
pub uninterp spec fn lower_of(s: Seq<char>) -> Seq<char>;

/// Relies on `str::to_lowercase`: the lowercase form depends on the
/// characters alone, and the empty string stays empty.
#[verifier::external_body]
fn lowercase(s: &str) -> (r: String)
    ensures
        r@ == lower_of(s@),
        s@.len() == 0 ==> r@.len() == 0,
{
    s.to_lowercase()
}

/// Holds of the lines that contain `query` exactly.
pub open spec fn contains_query(query: Seq<char>) -> spec_fn(Seq<char>) -> bool {
    |line: Seq<char>| has_substring(line, query)
}

/// Holds of the lines whose lowercase form contains the lowercase form of
/// `query`.
pub open spec fn contains_folded_query(query: Seq<char>) -> spec_fn(Seq<char>) -> bool {
    |line: Seq<char>| has_substring(lower_of(line), lower_of(query))
}

/// The lines of `contents` that contain `query`, in order.
pub open spec fn sensitive_matches(query: Seq<char>, contents: Seq<char>) -> Seq<Seq<char>> {
    lines_of(contents).filter(contains_query(query))
}

/// The lines of `contents` that contain `query` once both are lowercased,
/// in order and as they stand in `contents`.
pub open spec fn insensitive_matches(query: Seq<char>, contents: Seq<char>) -> Seq<Seq<char>> {
    lines_of(contents).filter(contains_folded_query(query))
}

/// The string slices `r` read, one by one, as the texts `m`.
pub open spec fn spells<'a>(r: Seq<&'a str>, m: Seq<Seq<char>>) -> bool {
    &&& r.len() == m.len()
    &&& forall|i: int| 0 <= i < r.len() ==> (#[trigger] r[i])@ == m[i]
}

/// A filter that keeps everything changes nothing.
pub(crate) proof fn lemma_filter_keeps_all(s: Seq<Seq<char>>, pred: spec_fn(Seq<char>) -> bool)
    requires
        forall|i: int| 0 <= i < s.len() ==> pred(#[trigger] s[i]),
    ensures
        s.filter(pred) == s,
    decreases s.len(),
{
    reveal(Seq::filter);
    if s.len() > 0 {
        lemma_filter_keeps_all(s.drop_last(), pred);
        assert(s.drop_last().push(s.last()) =~= s);
    }
}

/// Whether `query` occurs in `line`.
pub fn contains(line: &str, query: &str) -> (r: bool)
    ensures
        r == has_substring(line@, query@),
{
    let text = chars_of(line);
    let q = chars_of(query);
    assert(text@.subrange(0, text@.len() as int) =~= text@);
    occurs_in(&text, 0, text.len(), &q)
}

/// The lines of `contents` that contain `query`, letter case included, in
/// the order in which they stand there. Each is a slice of `contents`.
pub fn search_case_sensitive<'a>(query: &str, contents: &'a str) -> (r: Vec<&'a str>)
    ensures
        spells(r@, sensitive_matches(query@, contents@)),
        query@.len() == 0 ==> spells(r@, lines_of(contents@)),
{
    let text = chars_of(contents);
    let q = chars_of(query);
    let bounds = line_bounds(&text);
    let ghost lines = lines_of(contents@);
    let ghost pred = contains_query(query@);
    let mut r: Vec<&'a str> = Vec::new();
    let mut k: usize = 0;
    while k < bounds.len()
        invariant
            text@ == contents@,
            q@ == query@,
            lines == lines_of(contents@),
            pred == contains_query(query@),
            bounds.len() == lines.len(),
            forall|j: int|
                0 <= j < bounds.len() ==> {
                    &&& (#[trigger] bounds[j]).0 <= bounds[j].1 <= text.len()
                    &&& text@.subrange(bounds[j].0 as int, bounds[j].1 as int) == lines[j]
                },
            0 <= k <= bounds.len(),
            spells(r@, lines.take(k as int).filter(pred)),
        decreases bounds.len() - k,
    {
        let (lo, hi) = bounds[k];
        proof {
            assert(lines.take(k + 1) =~= lines.take(k as int).push(lines[k as int]));
            lines.take(k as int).lemma_filter_push(lines[k as int], pred);
        }
        if occurs_in(&text, lo, hi, &q) {
            r.push(contents.substring_char(lo, hi));
        }
        k = k + 1;
    }
    proof {
        assert(lines.take(bounds.len() as int) =~= lines);
        if query@.len() == 0 {
            assert forall|i: int| 0 <= i < lines.len() implies pred(#[trigger] lines[i]) by {
                assert(lines[i].subrange(0int, 0int + query@.len()) =~= query@);
            }
            lemma_filter_keeps_all(lines, pred);
        }
    }
    r
}

/// The lines of `contents` whose lowercase form contains the lowercase form
/// of `query`, in the order in which they stand there. Each is a slice of
/// `contents`, not lowercased.
pub fn search_case_insensitive<'a>(query: &str, contents: &'a str) -> (r: Vec<&'a str>)
    ensures
        spells(r@, insensitive_matches(query@, contents@)),
        query@.len() == 0 ==> spells(r@, lines_of(contents@)),
{
    let folded_query = lowercase(query);
    let text = chars_of(contents);
    let bounds = line_bounds(&text);
    let ghost lines = lines_of(contents@);
    let ghost pred = contains_folded_query(query@);
    let mut r: Vec<&'a str> = Vec::new();
    let mut k: usize = 0;
    while k < bounds.len()
        invariant
            text@ == contents@,
            folded_query@ == lower_of(query@),
            lines == lines_of(contents@),
            pred == contains_folded_query(query@),
            bounds.len() == lines.len(),
            forall|j: int|
                0 <= j < bounds.len() ==> {
                    &&& (#[trigger] bounds[j]).0 <= bounds[j].1 <= text.len()
                    &&& text@.subrange(bounds[j].0 as int, bounds[j].1 as int) == lines[j]
                },
            0 <= k <= bounds.len(),
            spells(r@, lines.take(k as int).filter(pred)),
        decreases bounds.len() - k,
    {
        let (lo, hi) = bounds[k];
        proof {
            assert(lines.take(k + 1) =~= lines.take(k as int).push(lines[k as int]));
            lines.take(k as int).lemma_filter_push(lines[k as int], pred);
        }
        let line = contents.substring_char(lo, hi);
        let folded_line = lowercase(line);
        if contains(folded_line.as_str(), folded_query.as_str()) {
            r.push(line);
        }
        k = k + 1;
    }
    proof {
        assert(lines.take(bounds.len() as int) =~= lines);
        if query@.len() == 0 {
            assert forall|i: int| 0 <= i < lines.len() implies pred(#[trigger] lines[i]) by {
                assert(lower_of(lines[i]).subrange(0int, 0int + lower_of(query@).len())
                    =~= lower_of(query@));
            }
            lemma_filter_keeps_all(lines, pred);
        }
    }
    r
}

} // verus!
