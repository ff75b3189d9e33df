//! How the lines of a text made of two parts come from the lines of the
//! parts.
use vstd::prelude::*;
use crate::lines::{
    lemma_span_at, lemma_spans_from, line_spans, line_start, line_texts, span_at, spans_from, Span,
};
use crate::split::{first_index, lemma_first_index, lemma_first_index_is};
use crate::sql_blocks::with_feeds;

verus! {

/// A text that ends with a line feed, or is empty: its last line is ended.
pub open spec fn ends_lines(a: Seq<char>) -> bool {
    a.len() == 0 || a.last() == '\n'
}

/// The span moved `by` characters to the right.
pub open spec fn moved(sp: Span, by: int) -> Span {
    Span { start: sp.start + by, end: sp.end + by, next: sp.next + by }
}

/// The spans moved `by` characters to the right.
pub open spec fn moved_all(spans: Seq<Span>, by: int) -> Seq<Span> {
    Seq::new(spans.len(), |i: int| moved(spans[i], by))
}

/// A line of the second part of a text stands in the whole text where it
/// stands in the part, moved by the length of the first part.
pub proof fn lemma_span_in_suffix(a: Seq<char>, b: Seq<char>, j: int)
    requires
        0 <= j < b.len(),
    ensures
        span_at(a + b, a.len() + j) == moved(span_at(b, j), a.len() as int),
{
    let x = a + b;
    assert(x.skip(a.len() + j) =~= b.skip(j));
    lemma_first_index(b.skip(j), '\n');
    let feed = j + first_index(b.skip(j), '\n');
    if feed < b.len() && feed > j {
        assert(x[a.len() + feed - 1] == b[feed - 1]);
    }
}

/// The lines of the second part of a text, from a position on.
pub proof fn lemma_spans_in_suffix(a: Seq<char>, b: Seq<char>, j: int)
    requires
        0 <= j <= b.len(),
    ensures
        spans_from(a + b, a.len() + j) == moved_all(spans_from(b, j), a.len() as int),
    decreases b.len() - j,
{
    let x = a + b;
    if j < b.len() {
        lemma_span_in_suffix(a, b, j);
        lemma_span_at(b, j);
        let sp = span_at(b, j);
        lemma_spans_in_suffix(a, b, sp.next);
        assert(spans_from(x, a.len() + j) =~= moved_all(spans_from(b, j), a.len() as int));
    } else {
        assert(spans_from(x, a.len() + j) =~= moved_all(spans_from(b, j), a.len() as int));
    }
}

/// A line of the first part of a text whose last line is ended stands in
/// the whole text where it stands in the part.
pub proof fn lemma_span_in_prefix(a: Seq<char>, b: Seq<char>, from: int)
    requires
        ends_lines(a),
        0 <= from < a.len(),
    ensures
        span_at(a + b, from) == span_at(a, from),
        span_at(a, from).next <= a.len(),
{
    let x = a + b;
    let t = a.skip(from);
    lemma_first_index(t, '\n');
    let f = first_index(t, '\n');
    if f >= t.len() {
        assert(t[t.len() - 1] == a[a.len() - 1]);
    }
    let u = x.skip(from);
    assert forall|k: int| 0 <= k < f implies #[trigger] u[k] != '\n' by {
        assert(u[k] == t[k]);
    }
    assert(u[f] == t[f]);
    lemma_first_index_is(u, '\n', f);
    if from + f > from {
        assert(x[from + f - 1] == a[from + f - 1]);
    }
}

/// The lines of a text made of two parts, the first of which ends its last
/// line, from a position in the first part on.
pub proof fn lemma_spans_of_parts(a: Seq<char>, b: Seq<char>, from: int)
    requires
        ends_lines(a),
        0 <= from <= a.len(),
        from == a.len() || from == 0 || a[from - 1] == '\n',
    ensures
        spans_from(a + b, from) == spans_from(a, from) + moved_all(
            spans_from(b, 0),
            a.len() as int,
        ),
    decreases a.len() - from,
{
    let x = a + b;
    if from < a.len() {
        lemma_span_in_prefix(a, b, from);
        lemma_span_at(a, from);
        let sp = span_at(a, from);
        assert(a[sp.next - 1] == '\n') by {
            let t = a.skip(from);
            lemma_first_index(t, '\n');
            let f = first_index(t, '\n');
            if f >= t.len() {
                assert(t[t.len() - 1] == a[a.len() - 1]);
            }
            assert(t[f] == a[from + f]);
        }
        lemma_spans_of_parts(a, b, sp.next);
        assert(spans_from(x, from) =~= spans_from(a, from) + moved_all(
            spans_from(b, 0),
            a.len() as int,
        ));
    } else {
        lemma_spans_in_suffix(a, b, 0);
        assert(spans_from(a, from) =~= Seq::empty());
        assert(spans_from(x, from) =~= spans_from(a, from) + moved_all(
            spans_from(b, 0),
            a.len() as int,
        ));
    }
}

/// The lines of a text made of two parts, the first of which ends its last
/// line, are the lines of the first part and then those of the second.
pub proof fn lemma_lines_of_parts(a: Seq<char>, b: Seq<char>)
    requires
        ends_lines(a),
    ensures
        line_spans(a + b) == line_spans(a) + moved_all(line_spans(b), a.len() as int),
        line_texts(a + b) == line_texts(a) + line_texts(b),
        forall|k: int|
            0 <= k <= line_texts(b).len() ==> #[trigger] line_start(a + b, line_texts(a).len() + k)
                == a.len() + line_start(b, k),
        forall|k: int|
            0 <= k < line_texts(a).len() ==> #[trigger] line_start(a + b, k) == line_start(a, k),
{
    let x = a + b;
    lemma_spans_of_parts(a, b, 0);
    lemma_spans_from(a, 0);
    lemma_spans_from(b, 0);
    let sa = line_spans(a);
    let sb = line_spans(b);
    let sx = line_spans(x);
    assert(sx == sa + moved_all(sb, a.len() as int));
    assert forall|k: int| 0 <= k < sx.len() implies #[trigger] line_texts(x)[k] == (line_texts(a)
        + line_texts(b))[k] by {
        if k < sa.len() {
            assert(sx[k] == sa[k]);
            assert(sa[k] == span_at(a, sa[k].start));
            lemma_span_at(a, sa[k].start);
            lemma_span_in_prefix(a, b, sa[k].start);
            assert(x.subrange(sa[k].start, sa[k].end) =~= a.subrange(sa[k].start, sa[k].end));
        } else {
            let j = k - sa.len();
            assert(sx[k] == moved(sb[j], a.len() as int));
            assert(sb[j] == span_at(b, sb[j].start));
            lemma_span_at(b, sb[j].start);
            assert(x.subrange(sb[j].start + a.len(), sb[j].end + a.len()) =~= b.subrange(
                sb[j].start,
                sb[j].end,
            ));
        }
    }
    assert(line_texts(x) =~= line_texts(a) + line_texts(b));
    assert forall|k: int| 0 <= k <= line_texts(b).len() implies #[trigger] line_start(
        x,
        line_texts(a).len() + k,
    ) == a.len() + line_start(b, k) by {
        if k < sb.len() {
            assert(sx[sa.len() + k] == moved(sb[k], a.len() as int));
        }
    }
    assert forall|k: int| 0 <= k < line_texts(a).len() implies #[trigger] line_start(x, k)
        == line_start(a, k) by {
        assert(sx[k] == sa[k]);
    }
}

/// A line: a text without line feed that does not end with a carriage
/// return.
pub open spec fn is_line(l: Seq<char>) -> bool {
    !l.contains('\n') && (l.len() == 0 || l.last() != '\r')
}

/// A line with its line feed is a text of one line.
pub proof fn lemma_one_line(l: Seq<char>)
    requires
        is_line(l),
    ensures
        line_spans(l + seq!['\n']) == seq![
            Span { start: 0, end: l.len() as int, next: l.len() as int + 1 },
        ],
        line_texts(l + seq!['\n']) == seq![l],
        ends_lines(l + seq!['\n']),
{
    let x = l + seq!['\n'];
    assert forall|k: int| 0 <= k < l.len() implies #[trigger] x.skip(0)[k] != '\n' by {
        assert(x[k] == l[k]);
        if l[k] == '\n' {
            assert(l.contains('\n'));
        }
    }
    assert(x.skip(0)[l.len() as int] == '\n');
    lemma_first_index_is(x.skip(0), '\n', l.len() as int);
    let sp = Span { start: 0, end: l.len() as int, next: l.len() as int + 1 };
    if l.len() > 0 {
        assert(x[l.len() - 1] == l[l.len() - 1]);
    }
    assert(span_at(x, 0) == sp);
    assert(spans_from(x, l.len() as int + 1) =~= Seq::empty());
    assert(spans_from(x, 0) =~= seq![sp]);
    assert(x.subrange(0, l.len() as int) =~= l);
    assert(line_texts(x) =~= seq![l]);
}

/// A line without its carriage return, if it ends with one.
pub open spec fn without_return(l: Seq<char>) -> Seq<char> {
    if l.len() > 0 && l.last() == '\r' {
        l.drop_last()
    } else {
        l
    }
}

/// A text without line feed, followed by a line feed, is a text of one
/// line; a carriage return before the line feed is no part of the line.
pub proof fn lemma_one_ended_line(l: Seq<char>)
    requires
        !l.contains('\n'),
    ensures
        line_spans(l + seq!['\n']).len() == 1,
        line_texts(l + seq!['\n']) == seq![without_return(l)],
        ends_lines(l + seq!['\n']),
{
    let x = l + seq!['\n'];
    assert forall|k: int| 0 <= k < l.len() implies #[trigger] x.skip(0)[k] != '\n' by {
        assert(x[k] == l[k]);
        if l[k] == '\n' {
            assert(l.contains('\n'));
        }
    }
    assert(x.skip(0)[l.len() as int] == '\n');
    lemma_first_index_is(x.skip(0), '\n', l.len() as int);
    if l.len() > 0 {
        assert(x[l.len() - 1] == l[l.len() - 1]);
    }
    let sp = span_at(x, 0);
    assert(sp.next == l.len() + 1);
    assert(spans_from(x, l.len() as int + 1) =~= Seq::empty());
    assert(spans_from(x, 0) =~= seq![sp]);
    assert(x.subrange(0, sp.end) =~= without_return(l));
    assert(line_texts(x) =~= seq![without_return(l)]);
}

/// A text without line feed that is not empty is a text of one line.
pub proof fn lemma_one_open_line(l: Seq<char>)
    requires
        !l.contains('\n'),
        l.len() > 0,
    ensures
        line_spans(l) == seq![Span { start: 0, end: l.len() as int, next: l.len() as int }],
        line_texts(l) == seq![l],
{
    assert forall|k: int| 0 <= k < l.len() implies #[trigger] l.skip(0)[k] != '\n' by {
        if l[k] == '\n' {
            assert(l.contains('\n'));
        }
    }
    lemma_first_index_is(l.skip(0), '\n', l.len() as int);
    let sp = Span { start: 0, end: l.len() as int, next: l.len() as int };
    assert(span_at(l, 0) == sp);
    assert(spans_from(l, l.len() as int) =~= Seq::empty());
    assert(spans_from(l, 0) =~= seq![sp]);
    assert(l.subrange(0, l.len() as int) =~= l);
    assert(line_texts(l) =~= seq![l]);
}

/// The shape of a line within a text. A line that is ended reaches up to a
/// line feed, before which no other line feed stands, and a carriage return
/// before that line feed is no part of the line. A line that is not ended
/// reaches to the end of the text.
pub proof fn lemma_line_shape(s: Seq<char>, i: int)
    requires
        0 <= i < line_texts(s).len(),
    ensures
        0 <= line_start(s, i) < line_start(s, i + 1) <= s.len(),
        !s.subrange(line_start(s, i), line_start(s, i + 1) - 1).contains('\n'),
        s[line_start(s, i + 1) - 1] == '\n' ==> line_texts(s)[i] == without_return(
            s.subrange(line_start(s, i), line_start(s, i + 1) - 1),
        ),
        s[line_start(s, i + 1) - 1] != '\n' ==> line_texts(s)[i] == s.subrange(
            line_start(s, i),
            line_start(s, i + 1),
        ) && i == line_texts(s).len() - 1 && line_start(s, i + 1) == s.len(),
{
    lemma_spans_from(s, 0);
    let spans = line_spans(s);
    let sp = spans[i];
    let from = sp.start;
    assert(sp == span_at(s, from));
    lemma_span_at(s, from);
    let t = s.skip(from);
    lemma_first_index(t, '\n');
    let feed = from + first_index(t, '\n');
    let next = line_start(s, i + 1);
    if i + 1 < spans.len() {
        assert(spans[i].next == spans[i + 1].start);
    } else {
        assert(spans.last() == spans[i]);
    }
    assert(next == sp.next);
    assert forall|k: int| from <= k < feed implies #[trigger] s[k] != '\n' by {
        assert(t[k - from] == s[k]);
    }
    let body = s.subrange(from, next - 1);
    if feed < s.len() {
        assert(t[feed - from] == s[feed]);
        assert(next == feed + 1);
        if body.contains('\n') {
            let k = choose|k: int| 0 <= k < body.len() && body[k] == '\n';
            assert(s[from + k] == '\n');
        }
        if feed > from {
            assert(body.last() == s[feed - 1]);
        }
        assert(s.subrange(from, sp.end) =~= without_return(body));
    } else {
        assert(next == s.len());
        if body.contains('\n') {
            let k = choose|k: int| 0 <= k < body.len() && body[k] == '\n';
            assert(s[from + k] == '\n');
        }
        assert(s[next - 1] != '\n');
    }
}

/// Lines with their line feeds, put together.
pub proof fn lemma_with_feeds_concat(a: Seq<Seq<char>>, b: Seq<Seq<char>>)
    ensures
        with_feeds(a + b) == with_feeds(a) + with_feeds(b),
        ends_lines(with_feeds(a)),
    decreases b.len(),
{
    if b.len() == 0 {
        assert(a + b =~= a);
        assert(with_feeds(a) + with_feeds(b) =~= with_feeds(a));
    } else {
        lemma_with_feeds_concat(a, b.drop_last());
        assert((a + b).drop_last() =~= a + b.drop_last());
        assert((a + b).last() == b.last());
        assert(with_feeds(a + b) =~= with_feeds(a) + with_feeds(b));
    }
    if a.len() > 0 {
        assert(with_feeds(a).last() == '\n');
    }
}

/// A text made of lines with their line feeds has exactly these lines.
pub proof fn lemma_lines_of_feeds(ls: Seq<Seq<char>>)
    requires
        forall|i: int| 0 <= i < ls.len() ==> is_line(#[trigger] ls[i]),
    ensures
        line_texts(with_feeds(ls)) == ls,
        ends_lines(with_feeds(ls)),
    decreases ls.len(),
{
    if ls.len() == 0 {
        assert(line_texts(with_feeds(ls)) =~= ls);
    } else {
        let init = ls.drop_last();
        assert forall|i: int| 0 <= i < init.len() implies is_line(#[trigger] init[i]) by {
            assert(init[i] == ls[i]);
        }
        lemma_lines_of_feeds(init);
        lemma_one_line(ls.last());
        lemma_lines_of_parts(with_feeds(init), ls.last() + seq!['\n']);
        assert(with_feeds(ls) =~= with_feeds(init) + (ls.last() + seq!['\n']));
        assert(init + seq![ls.last()] =~= ls);
        assert(with_feeds(ls).last() == '\n');
    }
}

} // verus!
