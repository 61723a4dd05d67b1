//! The segmenter: splits post text into paragraph ranges on the blank-line
//! separator (two consecutive newlines), and each paragraph range into line
//! ranges on single newlines.
//!
//! Every range is `[start, end)` in codepoints. Empty paragraphs and lines
//! are preserved, except that a trailing empty segment produced by a
//! trailing separator is not emitted.

use vstd::prelude::*;
use vstd::string::StrSliceExecFns;

verus! {

/// Pairs of `usize` bounds seen as pairs of mathematical integers.
pub open spec fn ranges_view(s: Seq<(usize, usize)>) -> Seq<(int, int)> {
    s.map_values(|p: (usize, usize)| (p.0 as int, p.1 as int))
}

/// The first index in `[a, b)` holding a newline, or `b` if there is none.
pub open spec fn line_end(text: Seq<char>, a: int, b: int) -> int
    recommends
        0 <= a <= b <= text.len(),
    decreases b - a,
{
    if a >= b {
        b
    } else if text[a] == '\n' {
        a
    } else {
        line_end(text, a + 1, b)
    }
}

/// The first index `k` in `[a, b)` with `k + 1 < b` where two consecutive
/// newlines start, or `b` if there is no such pair.
pub open spec fn para_end(text: Seq<char>, a: int, b: int) -> int
    recommends
        0 <= a <= b <= text.len(),
    decreases b - a,
{
    if a + 1 >= b {
        b
    } else if text[a] == '\n' && text[a + 1] == '\n' {
        a
    } else {
        para_end(text, a + 1, b)
    }
}

/// The line ranges of `[a, b)`: split on each newline, keeping empty
/// segments, except a trailing empty segment after a final newline.
pub open spec fn split_lines(text: Seq<char>, a: int, b: int) -> Seq<(int, int)>
    recommends
        0 <= a <= b <= text.len(),
    decreases b - a,
{
    let k = line_end(text, a, b);
    if a < b && a <= k && k < b {
        if k + 1 == b {
            seq![(a, k)]
        } else {
            seq![(a, k)] + split_lines(text, k + 1, b)
        }
    } else {
        seq![(a, b)]
    }
}

/// The paragraph ranges of `[a, b)`: split on each two-newline separator,
/// keeping empty segments, except a trailing empty segment after a final
/// separator.
pub open spec fn split_paras(text: Seq<char>, a: int, b: int) -> Seq<(int, int)>
    recommends
        0 <= a <= b <= text.len(),
    decreases b - a,
{
    let k = para_end(text, a, b);
    if a < b && a <= k && k + 1 < b {
        if k + 2 == b {
            seq![(a, k)]
        } else {
            seq![(a, k)] + split_paras(text, k + 2, b)
        }
    } else {
        seq![(a, b)]
    }
}

/// The paragraph ranges of a whole text.
pub open spec fn split_paragraphs(text: Seq<char>) -> Seq<(int, int)> {
    split_paras(text, 0, text.len() as int)
}

/// `line_end` lands between `a` and `b`, on a newline unless it is `b`,
/// and nothing before it is a newline.
pub proof fn lemma_line_end_bounds(text: Seq<char>, a: int, b: int)
    requires
        0 <= a <= b <= text.len(),
    ensures
        a <= line_end(text, a, b) <= b,
        line_end(text, a, b) < b ==> text[line_end(text, a, b)] == '\n',
        forall|k: int| a <= k < line_end(text, a, b) ==> text[k] != '\n',
    decreases b - a,
{
    if a >= b {
    } else if text[a] == '\n' {
    } else {
        lemma_line_end_bounds(text, a + 1, b);
    }
}

/// `para_end` lands between `a` and `b`, on a two-newline pair unless it
/// is `b`, and no pair starts before it.
pub proof fn lemma_para_end_bounds(text: Seq<char>, a: int, b: int)
    requires
        0 <= a <= b <= text.len(),
    ensures
        a <= para_end(text, a, b) <= b,
        para_end(text, a, b) < b ==> para_end(text, a, b) + 1 < b && text[para_end(text, a, b)]
            == '\n' && text[para_end(text, a, b) + 1] == '\n',
        forall|k: int|
            a <= k < para_end(text, a, b) && k + 1 < b ==> !((#[trigger] text[k]) == '\n'
                && text[k + 1] == '\n'),
    decreases b - a,
{
    if a + 1 >= b {
    } else if text[a] == '\n' && text[a + 1] == '\n' {
    } else {
        lemma_para_end_bounds(text, a + 1, b);
    }
}

/// Every line range of `[a, b)` lies inside `[a, b)` and is well ordered.
pub proof fn lemma_split_lines_in_range(text: Seq<char>, a: int, b: int)
    requires
        0 <= a <= b <= text.len(),
    ensures
        forall|i: int|
            0 <= i < split_lines(text, a, b).len() ==> a <= (
            #[trigger] split_lines(text, a, b)[i]).0 && split_lines(text, a, b)[i].0
                <= split_lines(text, a, b)[i].1 && split_lines(text, a, b)[i].1 <= b,
    decreases b - a,
{
    lemma_line_end_bounds(text, a, b);
    let k = line_end(text, a, b);
    if a < b && a <= k && k < b && k + 1 != b {
        lemma_split_lines_in_range(text, k + 1, b);
        let rest = split_lines(text, k + 1, b);
        assert(split_lines(text, a, b) == seq![(a, k)] + rest);
        assert forall|i: int|
            0 <= i < split_lines(text, a, b).len() implies a <= (
        #[trigger] split_lines(text, a, b)[i]).0 && split_lines(text, a, b)[i].0 <= split_lines(
            text,
            a,
            b,
        )[i].1 && split_lines(text, a, b)[i].1 <= b by {
            if i > 0 {
                assert(split_lines(text, a, b)[i] == rest[i - 1]);
            }
        }
    }
}

/// Every paragraph range of `[a, b)` lies inside `[a, b)` and is well
/// ordered.
pub proof fn lemma_split_paras_in_range(text: Seq<char>, a: int, b: int)
    requires
        0 <= a <= b <= text.len(),
    ensures
        forall|i: int|
            0 <= i < split_paras(text, a, b).len() ==> a <= (
            #[trigger] split_paras(text, a, b)[i]).0 && split_paras(text, a, b)[i].0
                <= split_paras(text, a, b)[i].1 && split_paras(text, a, b)[i].1 <= b,
    decreases b - a,
{
    lemma_para_end_bounds(text, a, b);
    let k = para_end(text, a, b);
    if a < b && a <= k && k + 1 < b && k + 2 != b {
        lemma_split_paras_in_range(text, k + 2, b);
        let rest = split_paras(text, k + 2, b);
        assert(split_paras(text, a, b) == seq![(a, k)] + rest);
        assert forall|i: int|
            0 <= i < split_paras(text, a, b).len() implies a <= (
        #[trigger] split_paras(text, a, b)[i]).0 && split_paras(text, a, b)[i].0 <= split_paras(
            text,
            a,
            b,
        )[i].1 && split_paras(text, a, b)[i].1 <= b by {
            if i > 0 {
                assert(split_paras(text, a, b)[i] == rest[i - 1]);
            }
        }
    }
}

/// The index of the first newline in `[from, end)` of `text`, or `end`.
fn find_line_end(text: &str, from: usize, end: usize) -> (k: usize)
    requires
        from <= end,
        end as int <= text@.len(),
    ensures
        k as int == line_end(text@, from as int, end as int),
{
    let mut i = from;
    while i < end
        invariant
            from <= i <= end,
            end as int <= text@.len(),
            line_end(text@, from as int, end as int) == line_end(text@, i as int, end as int),
        decreases end - i,
    {
        let c = text.get_char(i);
        if c == '\n' {
            return i;
        }
        i = i + 1;
    }
    end
}

/// The index where the first two-newline separator of `[from, end)`
/// starts, or `end`.
fn find_para_end(text: &str, from: usize, end: usize) -> (k: usize)
    requires
        from <= end,
        end as int <= text@.len(),
    ensures
        k as int == para_end(text@, from as int, end as int),
{
    let mut i = from;
    while i < end
        invariant
            from <= i <= end,
            end as int <= text@.len(),
            para_end(text@, from as int, end as int) == para_end(text@, i as int, end as int),
        decreases end - i,
    {
        if i + 1 == end {
            return end;
        }
        let c1 = text.get_char(i);
        let c2 = text.get_char(i + 1);
        if c1 == '\n' && c2 == '\n' {
            return i;
        }
        i = i + 1;
    }
    end
}

/// The line ranges of `[start, end)` of `text`, split on single newlines.
pub fn line_ranges(text: &str, start: usize, end: usize) -> (r: Vec<(usize, usize)>)
    requires
        start <= end,
        end as int <= text@.len(),
    ensures
        ranges_view(r@) == split_lines(text@, start as int, end as int),
{
    let mut r: Vec<(usize, usize)> = Vec::new();
    let mut cur = start;
    proof {
        assert(ranges_view(r@) =~= Seq::<(int, int)>::empty());
    }
    loop
        invariant
            start <= cur <= end,
            end as int <= text@.len(),
            ranges_view(r@) + split_lines(text@, cur as int, end as int) == split_lines(
                text@,
                start as int,
                end as int,
            ),
        decreases end - cur,
    {
        let k = find_line_end(text, cur, end);
        proof {
            lemma_line_end_bounds(text@, cur as int, end as int);
        }
        let ghost prev = ranges_view(r@);
        if k == end {
            r.push((cur, end));
            proof {
                assert(ranges_view(r@) =~= prev + seq![(cur as int, end as int)]);
                assert(split_lines(text@, cur as int, end as int) == seq![
                    (cur as int, end as int),
                ]);
                assert(ranges_view(r@) =~= split_lines(text@, start as int, end as int));
            }
            return r;
        } else if k + 1 == end {
            r.push((cur, k));
            proof {
                assert(ranges_view(r@) =~= prev + seq![(cur as int, k as int)]);
                assert(split_lines(text@, cur as int, end as int) == seq![(cur as int, k as int)]);
                assert(ranges_view(r@) =~= split_lines(text@, start as int, end as int));
            }
            return r;
        } else {
            r.push((cur, k));
            proof {
                assert(ranges_view(r@) =~= prev + seq![(cur as int, k as int)]);
                assert(split_lines(text@, cur as int, end as int) == seq![(cur as int, k as int)]
                    + split_lines(text@, k + 1, end as int));
                assert(ranges_view(r@) + split_lines(text@, k + 1, end as int) =~= split_lines(
                    text@,
                    start as int,
                    end as int,
                ));
            }
            cur = k + 1;
        }
    }
}

/// The paragraph ranges of the whole text, split on two-newline
/// separators.
pub fn segment(text: &str) -> (r: Vec<(usize, usize)>)
    ensures
        ranges_view(r@) == split_paragraphs(text@),
{
    let n = text.unicode_len();
    let mut r: Vec<(usize, usize)> = Vec::new();
    let mut cur: usize = 0;
    proof {
        assert(ranges_view(r@) =~= Seq::<(int, int)>::empty());
    }
    loop
        invariant
            cur <= n,
            n as int == text@.len(),
            ranges_view(r@) + split_paras(text@, cur as int, n as int) == split_paragraphs(text@),
        decreases n - cur,
    {
        let k = find_para_end(text, cur, n);
        proof {
            lemma_para_end_bounds(text@, cur as int, n as int);
        }
        let ghost prev = ranges_view(r@);
        if k == n {
            r.push((cur, n));
            proof {
                assert(ranges_view(r@) =~= prev + seq![(cur as int, n as int)]);
                assert(split_paras(text@, cur as int, n as int) == seq![(cur as int, n as int)]);
                assert(ranges_view(r@) =~= split_paragraphs(text@));
            }
            return r;
        } else if k + 2 == n {
            r.push((cur, k));
            proof {
                assert(ranges_view(r@) =~= prev + seq![(cur as int, k as int)]);
                assert(split_paras(text@, cur as int, n as int) == seq![(cur as int, k as int)]);
                assert(ranges_view(r@) =~= split_paragraphs(text@));
            }
            return r;
        } else {
            r.push((cur, k));
            proof {
                assert(ranges_view(r@) =~= prev + seq![(cur as int, k as int)]);
                assert(split_paras(text@, cur as int, n as int) == seq![(cur as int, k as int)]
                    + split_paras(text@, k + 2, n as int));
                assert(ranges_view(r@) + split_paras(text@, k + 2, n as int) =~= split_paragraphs(
                    text@,
                ));
            }
            cur = k + 2;
        }
    }
}

} // verus!
