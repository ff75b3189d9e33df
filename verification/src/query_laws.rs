//! The query of a block is read back as itself from its rendering.
use vstd::prelude::*;
use crate::line_laws::{
    ends_lines, is_line, lemma_line_shape, lemma_lines_of_feeds, lemma_lines_of_parts,
    lemma_one_ended_line, lemma_with_feeds_concat, without_return,
};
use crate::lines::{lemma_spans_from, line_start, line_texts};
use crate::render_laws::{query_lines, reads_back};
use crate::scan_laws::{lemma_block_at, lemma_blocks_from, lemma_body_end};
use crate::split::{first_index, lemma_first_index};
use crate::sql_blocks::{block_at, block_view, blocks_from, is_fence, sql_blocks, with_feeds};
use crate::text::{
    is_space, is_trimmed, leading_spaces, lemma_leading_spaces_bound, lemma_leading_spaces_is,
    lemma_trailing_spaces_bound, lemma_trailing_spaces_is, lemma_trim_is_trimmed, starts_with,
    trailing_spaces, trim, trim_end, trim_start,
};

verus! {

/// A text made of white space alone.
pub open spec fn all_space(w: Seq<char>) -> bool {
    forall|k: int| 0 <= k < w.len() ==> is_space(#[trigger] w[k])
}

/// Trimming a text made of white space leaves nothing.
pub proof fn lemma_trim_of_space(w: Seq<char>)
    requires
        all_space(w),
    ensures
        trim(w) == Seq::<char>::empty(),
{
    lemma_leading_spaces_is(w, w.len() as int);
    assert(trim_start(w) =~= Seq::<char>::empty());
    assert(trim(w) =~= Seq::<char>::empty());
}

/// White space around a text does not change what trimming gives.
pub proof fn lemma_trim_padded(w1: Seq<char>, x: Seq<char>, w2: Seq<char>)
    requires
        all_space(w1),
        all_space(w2),
    ensures
        trim(w1 + x + w2) == trim(x),
{
    let t = w1 + x + w2;
    lemma_leading_spaces_bound(x);
    let lx = leading_spaces(x) as int;
    if lx == x.len() {
        assert(all_space(x));
        assert(all_space(t)) by {
            assert forall|k: int| 0 <= k < t.len() implies is_space(#[trigger] t[k]) by {
                if k < w1.len() {
                    assert(t[k] == w1[k]);
                } else if k < w1.len() + x.len() {
                    assert(t[k] == x[k - w1.len()]);
                } else {
                    assert(t[k] == w2[k - w1.len() - x.len()]);
                }
            }
        }
        lemma_trim_of_space(t);
        lemma_trim_of_space(x);
    } else {
        assert forall|k: int| 0 <= k < w1.len() + lx implies is_space(#[trigger] t[k]) by {
            if k < w1.len() {
                assert(t[k] == w1[k]);
            } else {
                assert(t[k] == x[k - w1.len()]);
            }
        }
        assert(t[w1.len() + lx] == x[lx]);
        lemma_leading_spaces_is(t, w1.len() + lx);
        let m = x.skip(lx);
        assert(trim_start(x) == m);
        assert(trim_start(t) =~= m + w2);
        assert(m[0] == x[lx]);
        lemma_trailing_spaces_bound(m);
        let tm = trailing_spaces(m) as int;
        if tm == m.len() {
            assert(is_space(m[0]));
        }
        let mw = m + w2;
        assert forall|k: int| mw.len() - (w2.len() + tm) <= k < mw.len() implies is_space(
            #[trigger] mw[k],
        ) by {
            if k < m.len() {
                assert(mw[k] == m[k]);
            } else {
                assert(mw[k] == w2[k - m.len()]);
            }
        }
        assert(mw[mw.len() - (w2.len() + tm) - 1] == m[m.len() - tm - 1]);
        lemma_trailing_spaces_is(mw, w2.len() + tm);
        assert(trim_end(mw) =~= trim_end(m));
    }
}

/// Trimming a trimmed text with a line feed behind it gives the text back.
pub proof fn lemma_trim_with_feed(t: Seq<char>)
    requires
        is_trimmed(t),
    ensures
        trim(t + seq!['\n']) == t,
{
    let w1 = Seq::<char>::empty();
    let w2 = seq!['\n'];
    assert(is_space('\n'));
    lemma_trim_padded(w1, t, w2);
    assert(w1 + t + w2 =~= t + seq!['\n']);
    lemma_trim_is_trimmed(t);
}

/// Where the line begins in which the position `p` stands.
pub open spec fn line_begin(s: Seq<char>, p: int) -> int
    decreases p,
{
    if p <= 0 || s[p - 1] == '\n' {
        p
    } else {
        line_begin(s, p - 1)
    }
}

pub proof fn lemma_line_begin(s: Seq<char>, p: int)
    requires
        0 <= p <= s.len(),
    ensures
        0 <= line_begin(s, p) <= p,
        line_begin(s, p) == 0 || s[line_begin(s, p) - 1] == '\n',
        forall|k: int| line_begin(s, p) <= k < p ==> #[trigger] s[k] != '\n',
    decreases p,
{
    if !(p <= 0 || s[p - 1] == '\n') {
        lemma_line_begin(s, p - 1);
    }
}

/// A text whose last line is ended, and which holds no carriage return, is
/// the text of its lines with their line feeds, and each of its lines is a
/// line.
pub proof fn lemma_feeds_of_lines(t: Seq<char>)
    requires
        ends_lines(t),
        !t.contains('\r'),
    ensures
        with_feeds(line_texts(t)) == t,
        forall|i: int| 0 <= i < line_texts(t).len() ==> is_line(#[trigger] line_texts(t)[i]),
    decreases t.len(),
{
    lemma_spans_from(t, 0);
    if t.len() == 0 {
        assert(line_texts(t) =~= Seq::<Seq<char>>::empty());
    } else {
        lemma_line_shape(t, 0);
        let next = line_start(t, 1);
        assert(line_start(t, 0) == 0);
        let body = t.subrange(0, next - 1);
        if t[next - 1] != '\n' {
            assert(next == t.len());
            assert(t.last() == '\n');
        }
        let first = body + seq!['\n'];
        let rest = t.skip(next);
        assert(t =~= first + rest);
        assert(!body.contains('\r')) by {
            if body.contains('\r') {
                let k = choose|k: int| 0 <= k < body.len() && body[k] == '\r';
                assert(t[k] == '\r');
                assert(t.contains('\r'));
            }
        }
        assert(without_return(body) == body) by {
            if body.len() > 0 && body.last() == '\r' {
                assert(body.contains(body[body.len() - 1]));
            }
        }
        lemma_one_ended_line(body);
        lemma_lines_of_parts(first, rest);
        assert(!rest.contains('\r')) by {
            if rest.contains('\r') {
                let k = choose|k: int| 0 <= k < rest.len() && rest[k] == '\r';
                assert(t[next + k] == '\r');
                assert(t.contains('\r'));
            }
        }
        assert(ends_lines(rest)) by {
            if rest.len() > 0 {
                assert(rest.last() == t.last());
            }
        }
        lemma_feeds_of_lines(rest);
        let ls = line_texts(t);
        assert(ls == seq![body] + line_texts(rest));
        lemma_with_feeds_concat(seq![body], line_texts(rest));
        assert(with_feeds(seq![body]) =~= first) by {
            assert(seq![body].drop_last() =~= Seq::<Seq<char>>::empty());
            assert(with_feeds(Seq::<Seq<char>>::empty()) =~= Seq::<char>::empty());
        }
        assert(is_line(body)) by {
            if body.len() > 0 && body.last() == '\r' {
                assert(body.contains(body[body.len() - 1]));
            }
        }
        assert forall|i: int| 0 <= i < ls.len() implies is_line(#[trigger] ls[i]) by {
            if i > 0 {
                assert(ls[i] == line_texts(rest)[i - 1]);
            }
        }
    }
}

/// Lines that can stand as the body of a block: each is a line without
/// carriage return and no fence.
pub open spec fn body_lines_ok(body: Seq<Seq<char>>) -> bool {
    forall|i: int|
        0 <= i < body.len() ==> is_line(#[trigger] body[i]) && !is_fence(body[i])
            && !body[i].contains('\r')
}

/// Lines without carriage return, with their line feeds, hold none.
pub proof fn lemma_no_return_in_feeds(body: Seq<Seq<char>>)
    requires
        forall|i: int| 0 <= i < body.len() ==> !(#[trigger] body[i]).contains('\r'),
    ensures
        !with_feeds(body).contains('\r'),
    decreases body.len(),
{
    let u = with_feeds(body);
    if body.len() > 0 {
        let init = body.drop_last();
        assert forall|i: int| 0 <= i < init.len() implies !(#[trigger] init[i]).contains('\r') by {
            assert(init[i] == body[i]);
        }
        lemma_no_return_in_feeds(init);
        let h = with_feeds(init);
        let l = body.last();
        if u.contains('\r') {
            let k = choose|k: int| 0 <= k < u.len() && u[k] == '\r';
            if k < h.len() {
                assert(h[k] == '\r');
                assert(h.contains('\r'));
            } else if k < h.len() + l.len() {
                assert(l[k - h.len()] == '\r');
                assert(l.contains('\r'));
            }
        }
    } else {
        if u.contains('\r') {
            let k = choose|k: int| 0 <= k < u.len() && u[k] == '\r';
        }
    }
}

/// A stretch of a text that, with white space around it, fills the room
/// between two line boundaries is, trimmed, a line of the text trimmed.
pub proof fn lemma_padded_line(u: Seq<char>, lb: int, p0: int, q0: int, rb: int) -> (idx: int)
    requires
        !u.contains('\r'),
        0 <= lb <= p0 <= q0 <= rb < u.len(),
        lb == 0 || u[lb - 1] == '\n',
        u[rb] == '\n',
        forall|q: int| lb <= q < rb ==> #[trigger] u[q] != '\n',
        forall|q: int| lb <= q < p0 ==> is_space(#[trigger] u[q]),
        forall|q: int| q0 <= q < rb ==> is_space(#[trigger] u[q]),
    ensures
        0 <= idx < line_texts(u).len(),
        trim(line_texts(u)[idx]) == trim(u.subrange(p0, q0)),
{
    let w1 = u.subrange(lb, p0);
    let mid = u.subrange(p0, q0);
    let w2 = u.subrange(q0, rb);
    let whole = u.subrange(lb, rb);
    assert(whole =~= w1 + mid + w2);
    assert(all_space(w1)) by {
        assert forall|q: int| 0 <= q < w1.len() implies is_space(#[trigger] w1[q]) by {
            assert(w1[q] == u[lb + q]);
        }
    }
    assert(all_space(w2)) by {
        assert forall|q: int| 0 <= q < w2.len() implies is_space(#[trigger] w2[q]) by {
            assert(w2[q] == u[q0 + q]);
        }
    }
    assert(!whole.contains('\n')) by {
        if whole.contains('\n') {
            let q = choose|q: int| 0 <= q < whole.len() && whole[q] == '\n';
            assert(u[lb + q] == '\n');
        }
    }
    assert(without_return(whole) == whole) by {
        if whole.len() > 0 && whole.last() == '\r' {
            assert(u[rb - 1] == '\r');
            assert(u.contains('\r'));
        }
    }
    let before = u.take(lb);
    let after = u.skip(rb + 1);
    assert(u =~= before + (whole + seq!['\n'] + after));
    assert(ends_lines(before)) by {
        if lb > 0 {
            assert(before.last() == u[lb - 1]);
        }
    }
    lemma_one_ended_line(whole);
    lemma_lines_of_parts(whole + seq!['\n'], after);
    lemma_lines_of_parts(before, whole + seq!['\n'] + after);
    let idx = line_texts(before).len() as int;
    assert(line_texts(whole + seq!['\n'] + after)[0] == whole);
    assert(line_texts(u)[idx] == whole);
    lemma_trim_padded(w1, mid, w2);
    idx
}

/// Where the trimmed text stands in a text: white space stands before it
/// and behind it.
pub proof fn lemma_trim_range(u: Seq<char>) -> (r: (int, int))
    ensures
        0 <= r.0 <= r.1 <= u.len(),
        trim(u) == u.subrange(r.0, r.1),
        forall|p: int| 0 <= p < r.0 ==> is_space(#[trigger] u[p]),
        forall|p: int| r.1 <= p < u.len() ==> is_space(#[trigger] u[p]),
        r.0 < r.1 ==> !is_space(u[r.1 - 1]),
{
    lemma_leading_spaces_bound(u);
    let a = leading_spaces(u) as int;
    let rest = trim_start(u);
    lemma_trailing_spaces_bound(rest);
    let ts = trailing_spaces(rest) as int;
    let b = u.len() - ts;
    assert(trim(u) =~= u.subrange(a, b));
    assert forall|p: int| b <= p < u.len() implies is_space(#[trigger] u[p]) by {
        assert(rest[p - a] == u[p]);
    }
    if a < b {
        assert(rest[rest.len() - ts - 1] == u[b - 1]);
    }
    (a, b)
}

/// A line of a text that ends its last line and holds no carriage return:
/// where it begins and where its line feed stands.
pub proof fn lemma_ended_line(v: Seq<char>, k: int) -> (r: (int, int))
    requires
        ends_lines(v),
        !v.contains('\r'),
        0 <= k < line_texts(v).len(),
    ensures
        0 <= r.0 <= r.1 < v.len(),
        line_texts(v)[k] == v.subrange(r.0, r.1),
        v[r.1] == '\n',
        r.0 == 0 || v[r.0 - 1] == '\n',
        forall|q: int| r.0 <= q < r.1 ==> #[trigger] v[q] != '\n',
{
    lemma_spans_from(v, 0);
    lemma_line_shape(v, k);
    let start = line_start(v, k);
    let next = line_start(v, k + 1);
    let e = next - 1;
    if v[e] != '\n' {
        assert(v[v.len() - 1] == '\n');
    }
    let piece = v.subrange(start, e);
    assert(without_return(piece) == piece) by {
        if piece.len() > 0 && piece.last() == '\r' {
            assert(v[e - 1] == '\r');
            assert(v.contains('\r'));
        }
    }
    if k > 0 {
        lemma_line_shape(v, k - 1);
    }
    assert forall|q: int| start <= q < e implies #[trigger] v[q] != '\n' by {
        if v[q] == '\n' {
            assert(piece[q - start] == '\n');
            assert(piece.contains('\n'));
        }
    }
    (start, e)
}

/// A line of the trimmed text of the body of a block is empty, or it is,
/// trimmed, a line of the body trimmed: the line that is handed back.
pub proof fn lemma_trimmed_body_line(body: Seq<Seq<char>>, k: int) -> (idx: int)
    requires
        body_lines_ok(body),
        0 <= k < line_texts(trim(with_feeds(body)) + seq!['\n']).len(),
    ensures
        line_texts(trim(with_feeds(body)) + seq!['\n'])[k].len() == 0 || (0 <= idx < body.len()
            && trim(line_texts(trim(with_feeds(body)) + seq!['\n'])[k]) == trim(body[idx])),
{
    let u = with_feeds(body);
    let sql = trim(u);
    let v = sql + seq!['\n'];
    lemma_lines_of_feeds(body);
    lemma_no_return_in_feeds(body);
    let (a, b) = lemma_trim_range(u);
    assert(!v.contains('\r')) by {
        if v.contains('\r') {
            let p = choose|p: int| 0 <= p < v.len() && v[p] == '\r';
            assert(u[a + p] == '\r');
            assert(u.contains('\r'));
        }
    }
    let (start, e) = lemma_ended_line(v, k);
    let piece = v.subrange(start, e);
    if sql.len() == 0 {
        assert(piece.len() == 0);
        0
    } else {
        assert(u.last() == '\n');
        assert(is_space('\n'));
        assert(b < u.len());
        let p0 = a + start;
        let q0 = a + e;
        assert(piece =~= u.subrange(p0, q0));
        let lb = line_begin(u, p0);
        lemma_line_begin(u, p0);
        assert(start > 0 ==> lb == p0) by {
            if start > 0 {
                assert(v[start - 1] == u[a + start - 1]);
            }
        }
        let rb = lemma_line_finish(u, a, b, e, v);
        assert forall|q: int| lb <= q < rb implies #[trigger] u[q] != '\n' by {
            if p0 <= q < q0 {
                assert(v[q - a] == u[q]);
            }
        }
        let idx = lemma_padded_line(u, lb, p0, q0, rb);
        assert(line_texts(u)[idx] == body[idx]);
        idx
    }
}

/// No line of the trimmed text of the body of a block is a fence.
pub proof fn lemma_trimmed_body_has_no_fence(body: Seq<Seq<char>>, k: int)
    requires
        body_lines_ok(body),
        0 <= k < line_texts(trim(with_feeds(body)) + seq!['\n']).len(),
    ensures
        !is_fence(line_texts(trim(with_feeds(body)) + seq!['\n'])[k]),
{
    let line = line_texts(trim(with_feeds(body)) + seq!['\n'])[k];
    let idx = lemma_trimmed_body_line(body, k);
    if line.len() == 0 {
        reveal_strlit("```");
        lemma_trim_of_space(line);
        assert(trim(line).len() == 0);
    } else {
        assert(!is_fence(body[idx]));
    }
}

/// Where the line of the body ends in which a line of the trimmed text
/// ends: at the line feed of that line, or at the first line feed of the
/// white space behind the trimmed text.
proof fn lemma_line_finish(u: Seq<char>, a: int, b: int, e: int, v: Seq<char>) -> (rb: int)
    requires
        0 <= a <= b < u.len(),
        v == u.subrange(a, b) + seq!['\n'],
        0 <= e < v.len(),
        v[e] == '\n',
        u.last() == '\n',
        forall|p: int| b <= p < u.len() ==> is_space(#[trigger] u[p]),
    ensures
        a + e <= rb < u.len(),
        u[rb] == '\n',
        forall|q: int| a + e <= q < rb ==> is_space(#[trigger] u[q]) && u[q] != '\n',
{
    if e < b - a {
        assert(v[e] == u[a + e]);
        a + e
    } else {
        let tail = u.skip(b);
        lemma_first_index(tail, '\n');
        let f = first_index(tail, '\n');
        if f >= tail.len() {
            assert(tail[tail.len() - 1] == u[u.len() - 1]);
        }
        assert(tail[f] == u[b + f]);
        assert forall|q: int| b <= q < b + f implies is_space(#[trigger] u[q]) && u[q] != '\n' by {
            assert(tail[q - b] == u[q]);
        }
        b + f
    }
}

/// The query of a block whose body is made of lines without carriage
/// return reads back as itself.
pub proof fn lemma_query_reads_back(body: Seq<Seq<char>>)
    requires
        body_lines_ok(body),
    ensures
        reads_back(trim(with_feeds(body))),
{
    let u = with_feeds(body);
    let sql = trim(u);
    let v = sql + seq!['\n'];
    lemma_trim_is_trimmed(u);
    lemma_trim_with_feed(sql);
    lemma_no_return_in_feeds(body);
    lemma_leading_spaces_bound(u);
    let a = leading_spaces(u) as int;
    lemma_trailing_spaces_bound(trim_start(u));
    let b = u.len() - trailing_spaces(trim_start(u));
    assert(sql =~= u.subrange(a, b));
    assert(!v.contains('\r')) by {
        if v.contains('\r') {
            let p = choose|p: int| 0 <= p < v.len() && v[p] == '\r';
            assert(u[a + p] == '\r');
            assert(u.contains('\r'));
        }
    }
    lemma_feeds_of_lines(v);
    let lines = line_texts(v);
    assert forall|i: int| 0 <= i < lines.len() implies is_line(#[trigger] lines[i]) && !is_fence(
        lines[i],
    ) by {
        lemma_trimmed_body_has_no_fence(body, i);
    }
    assert(query_lines(sql, lines));
}

/// No line of a text holds a line feed.
pub proof fn lemma_line_holds_no_feed(s: Seq<char>, i: int)
    requires
        0 <= i < line_texts(s).len(),
    ensures
        !line_texts(s)[i].contains('\n'),
{
    lemma_line_shape(s, i);
    let start = line_start(s, i);
    let next = line_start(s, i + 1);
    let l = line_texts(s)[i];
    let body = s.subrange(start, next - 1);
    if l.contains('\n') {
        let k = choose|k: int| 0 <= k < l.len() && l[k] == '\n';
        if s[next - 1] == '\n' {
            assert(body[k] == '\n');
            assert(body.contains('\n'));
        } else if k < l.len() - 1 {
            assert(body[k] == '\n');
            assert(body.contains('\n'));
        }
    }
}

/// No line of a query of the note holds a carriage return. A carriage
/// return that ends a line, before its line feed, is no part of the line:
/// a note whose lines end with a carriage return and a line feed has
/// plain queries, as has every note without carriage return.
pub open spec fn queries_are_plain(s: Seq<char>) -> bool {
    forall|k: int, i: int|
        #![trigger blocks_from(s, 0)[k], line_texts(s)[i]]
        0 <= k < blocks_from(s, 0).len() && blocks_from(s, 0)[k].first < i < blocks_from(
            s,
            0,
        )[k].close ==> !line_texts(s)[i].contains('\r')
}

/// A note without carriage return has plain queries.
pub proof fn lemma_no_return_is_plain(s: Seq<char>)
    requires
        !s.contains('\r'),
    ensures
        queries_are_plain(s),
{
    lemma_blocks_from(s, 0);
    assert forall|k: int, i: int|
        #![trigger blocks_from(s, 0)[k], line_texts(s)[i]]
        0 <= k < blocks_from(s, 0).len() && blocks_from(s, 0)[k].first < i < blocks_from(
            s,
            0,
        )[k].close implies !line_texts(s)[i].contains('\r') by {
        let b = blocks_from(s, 0)[k];
        assert(b == block_at(line_texts(s), b.first));
        lemma_block_at(line_texts(s), b.first);
        lemma_line_shape(s, i);
        let l = line_texts(s)[i];
        if l.contains('\r') {
            let p = choose|p: int| 0 <= p < l.len() && l[p] == '\r';
            assert(s[line_start(s, i) + p] == '\r');
            assert(s.contains('\r'));
        }
    }
}

/// In a note with plain queries the query of each block reads back as
/// itself.
pub proof fn lemma_queries_read_back(s: Seq<char>)
    requires
        queries_are_plain(s),
    ensures
        forall|k: int|
            0 <= k < sql_blocks(s).len() ==> reads_back((#[trigger] sql_blocks(s)[k]).sql),
{
    let lines = line_texts(s);
    let all = blocks_from(s, 0);
    lemma_blocks_from(s, 0);
    assert forall|k: int| 0 <= k < sql_blocks(s).len() implies reads_back(
        (#[trigger] sql_blocks(s)[k]).sql,
    ) by {
        let b = all[k];
        assert(sql_blocks(s)[k] == block_view(s, b));
        assert(b == block_at(lines, b.first));
        lemma_block_at(lines, b.first);
        lemma_body_end(lines, b.first + 1);
        let body = lines.subrange(b.first + 1, b.close);
        assert forall|i: int| 0 <= i < body.len() implies is_line(#[trigger] body[i]) && !is_fence(
            body[i],
        ) && !body[i].contains('\r') by {
            let l = lines[b.first + 1 + i];
            assert(body[i] == l);
            assert(!line_texts(s)[b.first + 1 + i].contains('\r'));
            lemma_line_holds_no_feed(s, b.first + 1 + i);
            if l.len() > 0 && l.last() == '\r' {
                assert(l.contains(l[l.len() - 1]));
            }
        }
        lemma_query_reads_back(body);
    }
}

} // verus!
