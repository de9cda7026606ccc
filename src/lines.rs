//! What a line of a text is, and the character-level helpers the search uses.
use vstd::prelude::*;

verus! {

broadcast use vstd::string::group_string_axioms;

/// Index of the first `'\n'` in `s`, or `s.len()` when there is none.
pub open spec fn first_newline(s: Seq<char>) -> int
    decreases s.len(),
{
    if s.len() == 0 {
        0
    } else if s[0] == '\n' {
        0
    } else {
        1 + first_newline(s.drop_first())
    }
}

/// A line with one trailing carriage return removed, if it has one.
pub open spec fn strip_cr(line: Seq<char>) -> Seq<char> {
    if line.len() > 0 && line.last() == '\r' {
        line.drop_last()
    } else {
        line
    }
}

/// The lines of a text. A line ends at `'\n'` or at the end of the text; a
/// `"\r\n"` terminator counts as `'\n'`, and a terminator at the very end of
/// the text does not start another, empty line.
pub open spec fn lines_of(s: Seq<char>) -> Seq<Seq<char>>
    decreases s.len(),
    via lines_of_decreases
{
    if s.len() == 0 {
        seq![]
    } else {
        let k = first_newline(s);
        if k >= s.len() {
            seq![s]
        } else {
            seq![strip_cr(s.take(k))] + lines_of(s.skip(k + 1))
        }
    }
}

#[via_fn]
proof fn lines_of_decreases(s: Seq<char>) {
    lemma_first_newline_bounds(s);
}

pub proof fn lemma_first_newline_bounds(s: Seq<char>)
    ensures
        0 <= first_newline(s) <= s.len(),
        first_newline(s) < s.len() ==> s[first_newline(s)] == '\n',
        forall|j: int| 0 <= j < first_newline(s) ==> s[j] != '\n',
    decreases s.len(),
{
    if s.len() > 0 && s[0] != '\n' {
        lemma_first_newline_bounds(s.drop_first());
        assert forall|j: int| 0 < j < s.len() implies s[j] == s.drop_first()[j - 1] by {}
    }
}

/// `first_newline` is the position of the first `'\n'`, however that
/// position was found.
pub proof fn lemma_first_newline_at(s: Seq<char>, k: int)
    requires
        0 <= k <= s.len(),
        k < s.len() ==> s[k] == '\n',
        forall|j: int| 0 <= j < k ==> s[j] != '\n',
    ensures
        first_newline(s) == k,
    decreases s.len(),
{
    if s.len() > 0 && k > 0 {
        lemma_first_newline_at(s.drop_first(), k - 1);
    }
}

/// Whether `needle` occurs in `hay` as a contiguous run of characters.
pub open spec fn has_substring(hay: Seq<char>, needle: Seq<char>) -> bool {
    exists|k: int|
        0 <= k && k + needle.len() <= hay.len() && #[trigger] hay.subrange(k, k + needle.len())
            == needle
}

/// Collects the characters of `s` into a vector.
pub(crate) fn chars_of(s: &str) -> (r: Vec<char>)
    ensures
        r@ == s@,
{
    let mut r: Vec<char> = Vec::new();
    for c in it: s.chars()
        invariant
            it.seq() == s@,
            r@ == it.seq().take(it.index() as int),
    {
        r.push(c);
    }
    r
}

/// Whether `needle` occurs in `hay[lo..hi]`.
pub(crate) fn occurs_in(hay: &Vec<char>, lo: usize, hi: usize, needle: &Vec<char>) -> (r: bool)
    requires
        lo <= hi <= hay.len(),
    ensures
        r == has_substring(hay@.subrange(lo as int, hi as int), needle@),
{
    let ghost h = hay@.subrange(lo as int, hi as int);
    let n = needle.len();
    if n == 0 {
        assert(h.subrange(0int, 0int + needle@.len()) =~= needle@);
        return true;
    }
    let mut k: usize = lo;
    while k <= hi && n <= hi - k
        invariant
            lo <= k <= hi <= hay.len(),
            n == needle.len() > 0,
            h == hay@.subrange(lo as int, hi as int),
            forall|j: int|
                0 <= j < k - lo ==> #[trigger] h.subrange(j, j + needle@.len()) != needle@,
        decreases hi - k,
    {
        let mut i: usize = 0;
        while i < n && hay[k + i] == needle[i]
            invariant
                0 <= i <= n,
                k + n <= hi <= hay.len(),
                n == needle.len(),
                forall|j: int| 0 <= j < i ==> hay@[k + j] == needle@[j],
            decreases n - i,
        {
            i = i + 1;
        }
        assert(h.subrange(k - lo, k - lo + n) =~= hay@.subrange(k as int, k + n));
        if i == n {
            assert(hay@.subrange(k as int, k + n) =~= needle@);
            return true;
        }
        assert(hay@.subrange(k as int, k + n)[i as int] != needle@[i as int]);
        k = k + 1;
    }
    false
}

/// Splitting a text at a `'\n'` that ends the first line of `text[start..]`.
proof fn lemma_lines_at_newline(text: Seq<char>, start: int, i: int)
    requires
        0 <= start <= i < text.len(),
        text[i] == '\n',
        forall|j: int| start <= j < i ==> text[j] != '\n',
    ensures
        lines_of(text.subrange(start, text.len() as int)) == seq![
            strip_cr(text.subrange(start, i)),
        ] + lines_of(text.subrange(i + 1, text.len() as int)),
{
    let s = text.subrange(start, text.len() as int);
    lemma_first_newline_at(s, i - start);
    assert(s.take(i - start) =~= text.subrange(start, i));
    assert(s.skip(i - start + 1) =~= text.subrange(i + 1, text.len() as int));
}

/// The last line of a text that does not end with a terminator.
proof fn lemma_lines_at_end(text: Seq<char>, start: int)
    requires
        0 <= start <= text.len(),
        forall|j: int| start <= j < text.len() ==> text[j] != '\n',
    ensures
        lines_of(text.subrange(start, text.len() as int)) == if start < text.len() {
            seq![text.subrange(start, text.len() as int)]
        } else {
            Seq::<Seq<char>>::empty()
        },
{
    let s = text.subrange(start, text.len() as int);
    lemma_first_newline_at(s, s.len() as int);
}

/// The bounds `(start, end)` of each line of `text`, in order, without the
/// terminators.
pub(crate) fn line_bounds(text: &Vec<char>) -> (r: Vec<(usize, usize)>)
    ensures
        r.len() == lines_of(text@).len(),
        forall|k: int|
            0 <= k < r.len() ==> {
                &&& (#[trigger] r[k]).0 <= r[k].1 <= text.len()
                &&& text@.subrange(r[k].0 as int, r[k].1 as int) == lines_of(text@)[k]
            },
{
    let n = text.len();
    let mut r: Vec<(usize, usize)> = Vec::new();
    let mut start: usize = 0;
    let mut i: usize = 0;
    let ghost done: Seq<Seq<char>> = seq![];
    assert(text@.subrange(0, n as int) =~= text@);
    while i < n
        invariant
            start <= i <= n == text.len(),
            lines_of(text@) == done + lines_of(text@.subrange(start as int, n as int)),
            forall|j: int| start <= j < i ==> text@[j] != '\n',
            r.len() == done.len(),
            forall|k: int|
                0 <= k < r.len() ==> {
                    &&& (#[trigger] r[k]).0 <= r[k].1 <= text.len()
                    &&& text@.subrange(r[k].0 as int, r[k].1 as int) == done[k]
                },
        decreases n - i,
    {
        if text[i] == '\n' {
            let mut end = i;
            if end > start && text[end - 1] == '\r' {
                end = end - 1;
            }
            proof {
                lemma_lines_at_newline(text@, start as int, i as int);
                let line = text@.subrange(start as int, i as int);
                assert(strip_cr(line) =~= text@.subrange(start as int, end as int));
                assert(done + lines_of(text@.subrange(start as int, n as int)) =~= done.push(
                    strip_cr(line),
                ) + lines_of(text@.subrange(i + 1, n as int)));
                done = done.push(strip_cr(line));
            }
            r.push((start, end));
            start = i + 1;
        }
        i = i + 1;
    }
    proof {
        lemma_lines_at_end(text@, start as int);
    }
    if start < n {
        proof {
            assert(done + lines_of(text@.subrange(start as int, n as int)) =~= done.push(
                text@.subrange(start as int, n as int),
            ));
            done = done.push(text@.subrange(start as int, n as int));
        }
        r.push((start, n));
    } else {
        assert(done + lines_of(text@.subrange(start as int, n as int)) =~= done);
    }
    assert(lines_of(text@) == done);
    r
}

} // verus!
