//! A note whose one query block is rendered for the first time holds one
//! pair of markers, behind the block.
use vstd::prelude::*;
use crate::line_laws::{ends_lines, is_line, lemma_line_shape, lemma_lines_of_feeds, lemma_lines_of_parts};
use crate::lines::{lemma_spans_from, line_start, line_texts};
use crate::query_laws::{
    lemma_line_holds_no_feed, lemma_queries_read_back, lemma_trim_of_space,
    lemma_trimmed_body_line, queries_are_plain,
};
use crate::render_laws::{
    begin_marker, close_fence, end_marker, is_clean_rendering, lemma_rendering_reads_back,
    open_fence, query_lines, rendering_lines, rendering_of, table_lines_ok,
};
use crate::rewrite_laws::{lemma_spliced_rest, renderings, rewritten};
use crate::scan_laws::{lemma_block_at, lemma_blocks_from, lemma_body_end, lemma_line_start_increases};
use crate::sql_blocks::{
    block_at, block_view, blocks_from, is_begin_marker, is_end_marker, is_fence, sql_blocks,
    with_feeds,
};
use crate::text::{is_space, is_trimmed, lemma_trimmed_fixed, trim};

verus! {

/// No line is a marker of a rendered result.
pub open spec fn holds_no_marker(lines: Seq<Seq<char>>) -> bool {
    forall|i: int|
        0 <= i < lines.len() ==> !is_begin_marker(#[trigger] lines[i]) && !is_end_marker(lines[i])
}

/// The lines hold one begin marker, at `begin`, and one end marker, at
/// `end`, behind it.
pub open spec fn one_marker_pair(lines: Seq<Seq<char>>, begin: int, end: int) -> bool {
    &&& 0 <= begin < end < lines.len()
    &&& lines[begin] == begin_marker()
    &&& lines[end] == end_marker()
    &&& forall|i: int| 0 <= i < lines.len() && i != begin ==> !is_begin_marker(#[trigger] lines[i])
    &&& forall|i: int| 0 <= i < lines.len() && i != end ==> !is_end_marker(#[trigger] lines[i])
}

/// Which of the four fixed lines of a rendering is a marker.
pub proof fn lemma_fixed_markers()
    ensures
        is_begin_marker(begin_marker()),
        is_end_marker(end_marker()),
        !is_end_marker(begin_marker()),
        !is_begin_marker(end_marker()),
        !is_begin_marker(open_fence()) && !is_end_marker(open_fence()),
        !is_begin_marker(close_fence()) && !is_end_marker(close_fence()),
{
    reveal_strlit("```sql");
    reveal_strlit("```");
    reveal_strlit("<!-- BEGIN SQL -->");
    reveal_strlit("<!-- END SQL -->");
    let o = open_fence();
    let c = close_fence();
    let b = begin_marker();
    let e = end_marker();
    assert(o.len() == 6 && c.len() == 3 && b.len() == 18 && e.len() == 16);
    assert(o[0] == '`' && o[5] == 'l');
    assert(c[0] == '`' && c[2] == '`');
    assert(b[0] == '<' && b[17] == '>');
    assert(e[0] == '<' && e[15] == '>');
    assert(!is_space('`') && !is_space('l') && !is_space('<') && !is_space('>'));
    assert(is_trimmed(o) && is_trimmed(c) && is_trimmed(b) && is_trimmed(e));
    lemma_trimmed_fixed(o);
    lemma_trimmed_fixed(c);
    lemma_trimmed_fixed(b);
    lemma_trimmed_fixed(e);
}

/// The lines of the part of a text before line `i` are the lines of the
/// text before that line.
pub proof fn lemma_lines_before(s: Seq<char>, i: int, k: int)
    requires
        0 <= i < line_texts(s).len(),
        0 <= k < line_texts(s.take(line_start(s, i))).len(),
    ensures
        ends_lines(s.take(line_start(s, i))),
        k < line_texts(s).len(),
        line_texts(s.take(line_start(s, i)))[k] == line_texts(s)[k],
{
    lemma_spans_from(s, 0);
    lemma_line_start_increases(s, i, i);
    let c = line_start(s, i);
    let head = s.take(c);
    if i > 0 {
        lemma_line_shape(s, i - 1);
        assert(head.last() == s[c - 1]);
    } else {
        assert(c == 0);
    }
    assert(s =~= head + s.skip(c));
    lemma_lines_of_parts(head, s.skip(c));
}

/// The lines of the part of a text from line `i` on are lines of the text.
pub proof fn lemma_lines_behind(s: Seq<char>, i: int, k: int) -> (at: int)
    requires
        0 <= i <= line_texts(s).len(),
        0 <= k < line_texts(s.skip(line_start(s, i))).len(),
    ensures
        0 <= at < line_texts(s).len(),
        line_texts(s.skip(line_start(s, i)))[k] == line_texts(s)[at],
{
    lemma_spans_from(s, 0);
    lemma_line_start_increases(s, i, i);
    let c = line_start(s, i);
    let head = s.take(c);
    let tail = s.skip(c);
    if i == line_texts(s).len() {
        assert(c == s.len());
        lemma_spans_from(tail, 0);
        assert(line_texts(tail).len() == 0);
        0
    } else {
        if i > 0 {
            lemma_line_shape(s, i - 1);
            assert(head.last() == s[c - 1]);
        } else {
            assert(c == 0);
        }
        assert(s =~= head + tail);
        lemma_lines_of_parts(head, tail);
        line_texts(head).len() + k
    }
}

/// After the first rendering of the one query block of a note that holds
/// no marker line, the note holds one pair of markers: the begin marker
/// stands right behind the closing fence of the block, the end marker
/// behind it, and between the opening fence and the closing fence stands
/// the query as it was. Handed back are the lines at which the opening
/// fence, the begin marker and the end marker stand.
///
/// This holds of every note with plain queries and of every clean
/// rendering of the query.
pub proof fn lemma_one_marker_pair(s: Seq<char>, render: spec_fn(Seq<char>) -> Seq<char>) -> (r: (
    int,
    int,
    int,
))
    requires
        queries_are_plain(s),
        sql_blocks(s).len() == 1,
        holds_no_marker(line_texts(s)),
        is_clean_rendering(render(sql_blocks(s)[0].sql), sql_blocks(s)[0].sql),
    ensures
        ({
            let out = line_texts(rewritten(s, render));
            let (open, begin, end) = r;
            &&& one_marker_pair(out, begin, end)
            &&& 0 <= open < begin - 1
            &&& out[open] == open_fence()
            &&& out[begin - 1] == close_fence()
            &&& trim(with_feeds(out.subrange(open + 1, begin - 1))) == sql_blocks(s)[0].sql
            &&& forall|i: int| 0 <= i < open ==> #[trigger] out[i] == line_texts(s)[i]
        }),
{
    let lines = line_texts(s);
    let blocks = sql_blocks(s);
    let reps = renderings(blocks, render);
    let span = blocks_from(s, 0)[0];
    let sql = blocks[0].sql;
    lemma_blocks_from(s, 0);
    lemma_fixed_markers();
    assert(blocks[0] == block_view(s, span));
    assert(span == block_at(lines, span.first));
    lemma_block_at(lines, span.first);
    lemma_body_end(lines, span.first + 1);
    lemma_line_start_increases(s, span.first, span.after);
    lemma_line_start_increases(s, span.after, span.after);
    let c0 = line_start(s, span.first);
    let c1 = line_start(s, span.after);
    let head = s.take(c0);
    let tail = s.skip(c1);
    // The text after the rewriting.
    lemma_spliced_rest(s, blocks, reps, 0);
    assert(reps[0] == render(sql));
    assert(s.subrange(0, c0) =~= head);
    assert(rewritten(s, render) =~= head + (render(sql) + tail));
    // The lines of the rendering.
    lemma_queries_read_back(s);
    let query = choose|query: Seq<Seq<char>>| #[trigger] query_lines(sql, query);
    let table = choose|table: Seq<Seq<char>>|
        table_lines_ok(table) && #[trigger] rendering_of(sql, table) == render(sql);
    lemma_rendering_reads_back(sql, query, table, tail);
    let rl = rendering_lines(query, table);
    let q = query.len() as int;
    let t = table.len() as int;
    let m = rl.len() as int;
    assert(m == q + t + 4);
    assert forall|i: int| 0 <= i < m implies #[trigger] rl[i] == (if i == 0 {
        open_fence()
    } else if i <= q {
        query[i - 1]
    } else if i == q + 1 {
        close_fence()
    } else if i == q + 2 {
        begin_marker()
    } else if i < m - 1 {
        table[i - q - 3]
    } else {
        end_marker()
    }) by {}
    // The lines of the query are no markers.
    let body = lines.subrange(span.first + 1, span.close);
    assert forall|i: int| 0 <= i < body.len() implies is_line(#[trigger] body[i]) && !is_fence(
        body[i],
    ) && !body[i].contains('\r') by {
        let l = lines[span.first + 1 + i];
        assert(body[i] == l);
        assert(!line_texts(s)[span.first + 1 + i].contains('\r'));
        lemma_line_holds_no_feed(s, span.first + 1 + i);
        if l.len() > 0 && l.last() == '\r' {
            assert(l.contains(l[l.len() - 1]));
        }
    }
    assert(sql == trim(with_feeds(body)));
    lemma_lines_of_feeds(query);
    assert(line_texts(sql + seq!['\n']) == query);
    reveal_strlit("<!-- BEGIN SQL -->");
    reveal_strlit("<!-- END SQL -->");
    assert forall|i: int| 0 <= i < q implies !is_begin_marker(#[trigger] query[i]) && !is_end_marker(
        query[i],
    ) by {
        let idx = lemma_trimmed_body_line(body, i);
        if query[i].len() == 0 {
            lemma_trim_of_space(query[i]);
        } else {
            assert(body[idx] == lines[span.first + 1 + idx]);
        }
    }
    // The lines of the whole.
    let n0 = line_texts(head).len() as int;
    assert(ends_lines(head) && forall|k: int|
        0 <= k < n0 ==> #[trigger] line_texts(head)[k] == lines[k] && k < lines.len()) by {
        if n0 > 0 {
            lemma_lines_before(s, span.first, 0);
        } else {
            lemma_spans_from(head, 0);
        }
        assert forall|k: int| 0 <= k < n0 implies #[trigger] line_texts(head)[k] == lines[k] && k
            < lines.len() by {
            lemma_lines_before(s, span.first, k);
        }
    }
    lemma_lines_of_parts(head, render(sql) + tail);
    let out = line_texts(rewritten(s, render));
    assert(out == line_texts(head) + (rl + line_texts(tail)));
    let open = n0;
    let begin = n0 + q + 2;
    let end = n0 + m - 1;
    assert forall|i: int| 0 <= i < out.len() implies (i != begin ==> !is_begin_marker(
        #[trigger] out[i],
    )) && (i != end ==> !is_end_marker(out[i])) by {
        if i < n0 {
            assert(out[i] == lines[i]);
        } else if i < n0 + m {
            let j = i - n0;
            assert(out[i] == rl[j]);
            if 0 < j <= q {
                assert(rl[j] == query[j - 1]);
            } else if q + 2 < j < m - 1 {
                assert(rl[j] == table[j - q - 3]);
            }
        } else {
            let k = i - n0 - m;
            assert(out[i] == line_texts(tail)[k]);
            let at = lemma_lines_behind(s, span.after, k);
        }
    }
    assert(out[open] == rl[0]);
    assert(out[begin] == rl[q + 2]);
    assert(out[begin - 1] == rl[q + 1]);
    assert(out[end] == rl[m - 1]);
    assert(out.subrange(open + 1, begin - 1) =~= query) by {
        assert forall|j: int| 0 <= j < q implies out.subrange(open + 1, begin - 1)[j] == query[j] by {
            assert(out[open + 1 + j] == rl[j + 1]);
        }
    }
    assert(trim(with_feeds(query)) == sql);
    (open, begin, end)
}

} // verus!
