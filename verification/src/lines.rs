//! The lines of a text and where they stand in it.
//!
//! A line ends at a line feed, or at a carriage return directly followed by
//! a line feed; the last line may lack its ending. The line ending is no
//! part of the line's text.
use vstd::prelude::*;
use crate::split::{first_index, lemma_first_index, next_index};
use crate::text::copy_range;

verus! {

/// Where a line stands in a text: its text is `start..end`, and the next
/// line, if there is one, begins at `next`.
pub struct Span {
    pub start: int,
    pub end: int,
    pub next: int,
}

/// Where a line stands in a text, in machine integers.
#[derive(Clone, Copy, Debug, PartialEq, Eq)]
pub struct LineSpan {
    pub start: usize,
    pub end: usize,
    pub next: usize,
}

impl View for LineSpan {
    type V = Span;

    open spec fn view(&self) -> Span {
        Span { start: self.start as int, end: self.end as int, next: self.next as int }
    }
}

/// The spans of a vector of line spans.
pub open spec fn span_views(v: Seq<LineSpan>) -> Seq<Span> {
    Seq::new(v.len(), |i: int| v[i]@)
}

/// The line of `s` that begins at `from`.
pub open spec fn span_at(s: Seq<char>, from: int) -> Span {
    let feed = from + first_index(s.skip(from), '\n');
    if feed < s.len() {
        Span {
            start: from,
            end: if feed > from && s[feed - 1] == '\r' {
                feed - 1
            } else {
                feed
            },
            next: feed + 1,
        }
    } else {
        Span { start: from, end: s.len() as int, next: s.len() as int }
    }
}

/// The lines of `s` from the position `from` on, which begins a line.
pub open spec fn spans_from(s: Seq<char>, from: int) -> Seq<Span>
    decreases s.len() - from,
{
    if 0 <= from < s.len() {
        if span_at(s, from).next > from {
            seq![span_at(s, from)] + spans_from(s, span_at(s, from).next)
        } else {
            seq![span_at(s, from)]
        }
    } else {
        Seq::empty()
    }
}

/// The lines of `s`, in order. An empty text has no line; a text that ends
/// with a line ending has no empty line after it.
pub open spec fn line_spans(s: Seq<char>) -> Seq<Span> {
    spans_from(s, 0)
}

/// The texts of the lines of `s`.
pub open spec fn line_texts(s: Seq<char>) -> Seq<Seq<char>> {
    Seq::new(line_spans(s).len(), |i: int| s.subrange(line_spans(s)[i].start, line_spans(s)[i].end))
}

/// Where line `k` begins, or the length of the text for the line after
/// the last.
pub open spec fn line_start(s: Seq<char>, k: int) -> int {
    if 0 <= k < line_spans(s).len() {
        line_spans(s)[k].start
    } else {
        s.len() as int
    }
}

pub proof fn lemma_span_at(s: Seq<char>, from: int)
    requires
        0 <= from < s.len(),
    ensures
        span_at(s, from).start == from,
        from <= span_at(s, from).end <= span_at(s, from).next <= s.len(),
        from < span_at(s, from).next,
        forall|k: int| from <= k < span_at(s, from).end ==> #[trigger] s[k] != '\n',
{
    let t = s.skip(from);
    lemma_first_index(t, '\n');
    let feed = from + first_index(t, '\n');
    assert forall|k: int| from <= k < feed implies #[trigger] s[k] != '\n' by {
        assert(t[k - from] == s[k]);
    }
}

/// The lines follow one another: each begins where the one before it said,
/// the first at the start of the text, and the last reaches its end.
pub proof fn lemma_spans_from(s: Seq<char>, from: int)
    requires
        0 <= from <= s.len(),
    ensures
        forall|k: int|
            0 <= k < spans_from(s, from).len() ==> (#[trigger] spans_from(s, from)[k])
                == span_at(s, spans_from(s, from)[k].start) && from <= spans_from(s, from)[k].start
                < s.len(),
        forall|k: int|
            0 <= k < spans_from(s, from).len() - 1 ==> (#[trigger] spans_from(s, from)[k]).next
                == spans_from(s, from)[k + 1].start,
        spans_from(s, from).len() > 0 ==> spans_from(s, from)[0].start == from && spans_from(
            s,
            from,
        ).last().next == s.len(),
        spans_from(s, from).len() == 0 <==> from == s.len(),
    decreases s.len() - from,
{
    if from < s.len() {
        lemma_span_at(s, from);
        let first = span_at(s, from);
        lemma_spans_from(s, first.next);
        let rest = spans_from(s, first.next);
        let all = spans_from(s, from);
        assert(all == seq![first] + rest);
        assert forall|k: int| 0 <= k < all.len() implies (#[trigger] all[k]) == span_at(
            s,
            all[k].start,
        ) && from <= all[k].start < s.len() by {
            if k > 0 {
                assert(all[k] == rest[k - 1]);
            }
        }
        assert forall|k: int| 0 <= k < all.len() - 1 implies (#[trigger] all[k]).next == all[k
            + 1].start by {
            assert(all[k + 1] == rest[k]);
            if k > 0 {
                assert(all[k] == rest[k - 1]);
            }
        }
        if rest.len() > 0 {
            assert(all.last() == rest.last());
        }
    }
}

/// Lines that follow one another begin in increasing order.
pub proof fn lemma_starts_increase(v: Seq<LineSpan>, a: int, b: int)
    requires
        forall|k: int| 0 <= k < v.len() ==> (#[trigger] v[k]).start < v[k].next,
        forall|k: int| 0 <= k < v.len() - 1 ==> (#[trigger] v[k]).next == v[k + 1].start,
        0 <= a <= b < v.len(),
    ensures
        v[a].start <= v[b].start,
        a < b ==> v[a].next <= v[b].start,
    decreases b - a,
{
    if a < b {
        lemma_starts_increase(v, a + 1, b);
        assert(v[a].next == v[a + 1].start);
    }
}

/// The lines of `s` and where they stand.
pub fn split_lines(s: &Vec<char>) -> (r: Vec<LineSpan>)
    ensures
        span_views(r@) == line_spans(s@),
        forall|k: int|
            0 <= k < r@.len() ==> (#[trigger] r@[k]).start <= r@[k].end <= r@[k].next <= s@.len()
                && r@[k].start < r@[k].next,
        forall|k: int| 0 <= k < r@.len() - 1 ==> (#[trigger] r@[k]).next == r@[k + 1].start,
        r@.len() > 0 ==> r@[0].start == 0 && r@[r@.len() - 1].next == s@.len(),
        r@.len() == 0 <==> s@.len() == 0,
{
    let n = s.len();
    let mut r: Vec<LineSpan> = Vec::new();
    let mut from: usize = 0;
    proof {
        lemma_spans_from(s@, 0);
    }
    while from < n
        invariant
            from <= n == s.len(),
            line_spans(s@) == span_views(r@) + spans_from(s@, from as int),
            forall|k: int|
                0 <= k < r@.len() ==> (#[trigger] r@[k]).start <= r@[k].end <= r@[k].next <= n
                    && r@[k].start < r@[k].next,
            forall|k: int| 0 <= k < r@.len() - 1 ==> (#[trigger] r@[k]).next == r@[k + 1].start,
            r@.len() > 0 ==> r@[0].start == 0 && r@[r@.len() - 1].next == from,
            r@.len() == 0 ==> from == 0,
        decreases n - from,
    {
        let feed = next_index(s, '\n', from);
        let span = if feed < n {
            let end = if feed > from && s[feed - 1] == '\r' {
                feed - 1
            } else {
                feed
            };
            LineSpan { start: from, end, next: feed + 1 }
        } else {
            LineSpan { start: from, end: n, next: n }
        };
        proof {
            lemma_span_at(s@, from as int);
            assert(span@ == span_at(s@, from as int));
            let before = span_views(r@);
            assert(before + (seq![span@] + spans_from(s@, span.next as int)) == before.push(span@)
                + spans_from(s@, span.next as int));
        }
        let ghost before = span_views(r@);
        r.push(span);
        assert(span_views(r@) =~= before.push(span@));
        from = span.next;
    }
    assert(spans_from(s@, n as int) =~= Seq::empty());
    assert(span_views(r@) + Seq::<Span>::empty() =~= span_views(r@));
    r
}

/// The texts of the lines of `s`.
pub fn lines_of(s: &Vec<char>) -> (r: Vec<Vec<char>>)
    ensures
        crate::split::views(r@) == line_texts(s@),
{
    let spans = split_lines(s);
    let mut r: Vec<Vec<char>> = Vec::new();
    let mut i: usize = 0;
    while i < spans.len()
        invariant
            i <= spans.len(),
            r@.len() == i,
            span_views(spans@) == line_spans(s@),
            forall|k: int|
                0 <= k < spans@.len() ==> (#[trigger] spans@[k]).start <= spans@[k].end
                    <= spans@[k].next <= s@.len(),
            forall|k: int|
                0 <= k < i ==> (#[trigger] r@[k])@ == s@.subrange(
                    spans@[k].start as int,
                    spans@[k].end as int,
                ),
        decreases spans.len() - i,
    {
        r.push(copy_range(s, spans[i].start, spans[i].end));
        i += 1;
    }
    proof {
        assert forall|k: int| 0 <= k < r@.len() implies crate::split::views(r@)[k] == line_texts(
            s@,
        )[k] by {
            assert(span_views(spans@)[k] == spans@[k]@);
        }
        assert(crate::split::views(r@) =~= line_texts(s@));
    }
    r
}

} // verus!
