//! The rewriting of the query blocks of a note as a function of the note
//! and of the rendering of each query, and what holds of it: a second pass
//! finds the blocks where the first pass put them, and leaves what stands
//! behind a table-of-contents marker as it is.
use vstd::prelude::*;
use crate::line_laws::{
    ends_lines, lemma_line_shape, lemma_lines_of_parts, lemma_one_ended_line, lemma_one_open_line,
    without_return,
};
use crate::lines::{lemma_spans_from, line_start, line_texts};
use crate::query_laws::{lemma_line_holds_no_feed, lemma_queries_read_back, queries_are_plain};
use crate::render_laws::{
    is_clean_rendering, lemma_fixed_lines, lemma_rendering_reads_back, query_lines, reads_back,
    rendering_lines, rendering_of, table_lines_ok,
};
use crate::scan_laws::{
    lemma_block_at, lemma_block_at_shift, lemma_blocks_from, lemma_line_start_increases,
};
use crate::sql_blocks::{
    block_at, block_view, blocks_from, is_sql_open, opens_block, sql_blocks, toc_marker,
    with_feeds, BlockSpan, BlockView,
};
use crate::sql_render::{prev_end, rewritten_upto, spliced};
use crate::text::{contains_text, occurs_at, trim};

verus! {

/// The renderings of the queries of the blocks, where `render` gives the
/// rendering of each query.
pub open spec fn renderings(
    blocks: Seq<BlockView>,
    render: spec_fn(Seq<char>) -> Seq<char>,
) -> Seq<Seq<char>> {
    Seq::new(blocks.len(), |k: int| render(blocks[k].sql))
}

/// The note `s` with each of its query blocks replaced by the rendering of
/// its query.
pub open spec fn rewritten(s: Seq<char>, render: spec_fn(Seq<char>) -> Seq<char>) -> Seq<char> {
    spliced(s, sql_blocks(s), renderings(sql_blocks(s), render))
}

/// Line `i` of `s` with its line ending.
pub open spec fn raw_line(s: Seq<char>, i: int) -> Seq<char> {
    s.subrange(line_start(s, i), line_start(s, i + 1))
}

/// The query of the block `b`.
pub open spec fn query_of(lines: Seq<Seq<char>>, b: BlockSpan) -> Seq<char> {
    trim(with_feeds(lines.subrange(b.first + 1, b.close)))
}

/// The text `s` from the position `pos` on, with the blocks from the
/// `j`-th on replaced.
pub open spec fn rest_from(
    s: Seq<char>,
    blocks: Seq<BlockView>,
    replacements: Seq<Seq<char>>,
    j: int,
    pos: int,
) -> Seq<char>
    decreases blocks.len() - j,
{
    if j < 0 || j >= blocks.len() {
        s.skip(pos)
    } else {
        s.subrange(pos, blocks[j].chars.0) + replacements[j] + rest_from(
            s,
            blocks,
            replacements,
            j + 1,
            blocks[j].chars.1,
        )
    }
}

/// The spliced text is what was rewritten up to a block, and the rest from
/// there.
pub proof fn lemma_spliced_rest(
    s: Seq<char>,
    blocks: Seq<BlockView>,
    replacements: Seq<Seq<char>>,
    j: int,
)
    requires
        0 <= j <= blocks.len(),
    ensures
        spliced(s, blocks, replacements) == rewritten_upto(s, blocks, replacements, j) + rest_from(
            s,
            blocks,
            replacements,
            j,
            prev_end(blocks, j),
        ),
    decreases blocks.len() - j,
{
    if j < blocks.len() {
        lemma_spliced_rest(s, blocks, replacements, j + 1);
        let up = rewritten_upto(s, blocks, replacements, j);
        let mid = s.subrange(prev_end(blocks, j), blocks[j].chars.0);
        let rest = rest_from(s, blocks, replacements, j + 1, blocks[j].chars.1);
        assert(rewritten_upto(s, blocks, replacements, j + 1) == up + mid + replacements[j]);
        assert(prev_end(blocks, j + 1) == blocks[j].chars.1);
        assert(up + mid + replacements[j] + rest =~= up + (mid + replacements[j] + rest));
    }
}

/// The queries of the blocks from the `j`-th on read back as themselves,
/// and their renderings are clean.
pub open spec fn blocks_render_cleanly(
    blocks: Seq<BlockView>,
    render: spec_fn(Seq<char>) -> Seq<char>,
    j: int,
) -> bool {
    forall|k: int|
        j <= k < blocks.len() ==> reads_back((#[trigger] blocks[k]).sql) && is_clean_rendering(
            render(blocks[k].sql),
            blocks[k].sql,
        )
}

/// A text without line feed that occurs in a text of two parts, the first
/// of which ends its last line, occurs in one of the parts.
pub proof fn lemma_occurs_in_part(x: Seq<char>, y: Seq<char>, pat: Seq<char>)
    requires
        ends_lines(x),
        !pat.contains('\n'),
        contains_text(x + y, pat),
    ensures
        contains_text(x, pat) || contains_text(y, pat),
{
    let k = choose|k: int| occurs_at(x + y, pat, k);
    let all = x + y;
    if k + pat.len() <= x.len() {
        assert(all.subrange(k, k + pat.len()) =~= x.subrange(k, k + pat.len()));
        assert(occurs_at(x, pat, k));
    } else if k >= x.len() {
        assert(all.subrange(k, k + pat.len()) =~= y.subrange(k - x.len(), k - x.len() + pat.len()));
        assert(occurs_at(y, pat, k - x.len()));
    } else {
        let at = x.len() - 1 - k;
        assert(all.subrange(k, k + pat.len())[at] == all[x.len() - 1]);
        assert(all[x.len() - 1] == x[x.len() - 1]);
        assert(pat[at] == '\n');
        assert(pat.contains('\n'));
    }
}

/// A text that occurs in a stretch of a text occurs in the text.
pub proof fn lemma_occurs_in_whole(s: Seq<char>, a: int, b: int, pat: Seq<char>)
    requires
        0 <= a <= b <= s.len(),
        contains_text(s.subrange(a, b), pat),
    ensures
        contains_text(s, pat),
{
    let k = choose|k: int| occurs_at(s.subrange(a, b), pat, k);
    assert(s.subrange(a, b).subrange(k, k + pat.len()) =~= s.subrange(a + k, a + k + pat.len()));
    assert(occurs_at(s, pat, a + k));
}

/// The renderings of the blocks from the `j`-th on end their last line and
/// hold no table-of-contents marker.
pub open spec fn renderings_hold_no_marker(
    blocks: Seq<BlockView>,
    render: spec_fn(Seq<char>) -> Seq<char>,
    j: int,
) -> bool {
    forall|k: int|
        j <= k < blocks.len() ==> ends_lines(render((#[trigger] blocks[k]).sql)) && !contains_text(
            render(blocks[k].sql),
            toc_marker(),
        )
}

/// The query of each block is rendered cleanly, and without
/// table-of-contents marker.
pub open spec fn renders_cleanly(
    blocks: Seq<BlockView>,
    render: spec_fn(Seq<char>) -> Seq<char>,
) -> bool {
    forall|k: int|
        0 <= k < blocks.len() ==> is_clean_rendering(
            render((#[trigger] blocks[k]).sql),
            blocks[k].sql,
        ) && !contains_text(render(blocks[k].sql), toc_marker())
}


/// The table-of-contents marker is a text of eleven characters without
/// line feed.
pub proof fn lemma_marker_is_plain()
    ensures
        toc_marker().len() == 11,
        !toc_marker().contains('\n'),
{
    reveal_strlit("## Contents");
    let marker = toc_marker();
    if marker.contains('\n') {
        let k = choose|k: int| 0 <= k < marker.len() && marker[k] == '\n';
        assert(0 <= k < 11);
        assert(marker[0] == '#' && marker[1] == '#' && marker[2] == ' ' && marker[3] == 'C');
        assert(marker[4] == 'o' && marker[5] == 'n' && marker[6] == 't' && marker[7] == 'e');
        assert(marker[8] == 'n' && marker[9] == 't' && marker[10] == 's');
    }
}

/// The text `s` from line `i` on, with each block that begins there or
/// later replaced by the rendering of its query.
pub open spec fn rewritten_behind(
    s: Seq<char>,
    render: spec_fn(Seq<char>) -> Seq<char>,
    i: int,
) -> Seq<char>
    decreases line_texts(s).len() - i,
{
    let lines = line_texts(s);
    if i < 0 || i >= lines.len() {
        Seq::empty()
    } else if opens_block(s, i) {
        let b = block_at(lines, i);
        if i < b.after <= lines.len() {
            render(query_of(lines, b)) + rewritten_behind(s, render, b.after)
        } else {
            render(query_of(lines, b))
        }
    } else {
        raw_line(s, i) + rewritten_behind(s, render, i + 1)
    }
}

/// The rewriting from a line on is the rest of the note from that line on
/// with the blocks replaced that begin there or later.
pub proof fn lemma_behind_is_rest(
    s: Seq<char>,
    render: spec_fn(Seq<char>) -> Seq<char>,
    i: int,
    j: int,
)
    requires
        0 <= i <= line_texts(s).len(),
        0 <= j <= blocks_from(s, 0).len(),
        blocks_from(s, 0).skip(j) == blocks_from(s, i),
    ensures
        rewritten_behind(s, render, i) == rest_from(
            s,
            sql_blocks(s),
            renderings(sql_blocks(s), render),
            j,
            line_start(s, i),
        ),
    decreases line_texts(s).len() - i,
{
    let lines = line_texts(s);
    let n = lines.len() as int;
    let all = blocks_from(s, 0);
    let blocks = sql_blocks(s);
    let reps = renderings(blocks, render);
    lemma_line_start_increases(s, i, i + 1);
    if i >= n {
        assert(blocks_from(s, i).len() == 0);
        assert(j == all.len());
        assert(line_start(s, i) == s.len());
        assert(s.skip(s.len() as int) =~= Seq::<char>::empty());
    } else if opens_block(s, i) {
        lemma_block_at(lines, i);
        let b = block_at(lines, i);
        assert(blocks_from(s, i) == seq![b] + blocks_from(s, b.after));
        assert(all.skip(j)[0] == b);
        assert(all[j] == b);
        assert(all.skip(j + 1) =~= blocks_from(s, b.after)) by {
            assert(all.skip(j).skip(1) =~= all.skip(j + 1));
            assert((seq![b] + blocks_from(s, b.after)).skip(1) =~= blocks_from(s, b.after));
        }
        lemma_behind_is_rest(s, render, b.after, j + 1);
        assert(blocks[j] == block_view(s, b));
        assert(reps[j] == render(query_of(lines, b)));
        assert(s.subrange(line_start(s, i), line_start(s, i)) =~= Seq::<char>::empty());
        assert(Seq::<char>::empty() + reps[j] =~= reps[j]);
    } else {
        assert(blocks_from(s, i) == blocks_from(s, i + 1));
        lemma_behind_is_rest(s, render, i + 1, j);
        let here = line_start(s, i);
        let next = line_start(s, i + 1);
        if j >= all.len() {
            assert(s.skip(here) =~= s.subrange(here, next) + s.skip(next));
        } else {
            lemma_blocks_from(s, i + 1);
            assert(all.skip(j)[0] == all[j]);
            let first = all[j].first;
            assert(i + 1 <= first);
            lemma_line_start_increases(s, i + 1, first);
            let to = blocks[j].chars.0;
            assert(to == line_start(s, first));
            assert(s.subrange(here, to) =~= s.subrange(here, next) + s.subrange(next, to));
            assert(s.subrange(here, next) + s.subrange(next, to) + reps[j] + rest_from(
                s,
                blocks,
                reps,
                j + 1,
                blocks[j].chars.1,
            ) =~= s.subrange(here, next) + (s.subrange(next, to) + reps[j] + rest_from(
                s,
                blocks,
                reps,
                j + 1,
                blocks[j].chars.1,
            )));
        }
    }
}

/// The rewriting of a note goes line by line from its first line on.
pub proof fn lemma_rewritten_is_behind(s: Seq<char>, render: spec_fn(Seq<char>) -> Seq<char>)
    ensures
        rewritten(s, render) == rewritten_behind(s, render, 0),
{
    let blocks = sql_blocks(s);
    let reps = renderings(blocks, render);
    lemma_spliced_rest(s, blocks, reps, 0);
    assert(blocks_from(s, 0).skip(0) =~= blocks_from(s, 0));
    lemma_behind_is_rest(s, render, 0, 0);
    lemma_spans_from(s, 0);
    assert(line_start(s, 0) == 0);
    assert(Seq::<char>::empty() + rest_from(s, blocks, reps, 0, 0) =~= rest_from(
        s,
        blocks,
        reps,
        0,
        0,
    ));
}

/// Behind a table-of-contents marker no block begins: the text stays as it
/// is.
pub proof fn lemma_behind_marker(u: Seq<char>, render: spec_fn(Seq<char>) -> Seq<char>, k: int)
    requires
        0 <= k <= line_texts(u).len(),
        contains_text(u.take(line_start(u, k)), toc_marker()),
    ensures
        rewritten_behind(u, render, k) == u.skip(line_start(u, k)),
    decreases line_texts(u).len() - k,
{
    let n = line_texts(u).len() as int;
    lemma_line_start_increases(u, k, k + 1);
    let here = line_start(u, k);
    let next = line_start(u, k + 1);
    if k >= n {
        assert(here == u.len());
        assert(u.skip(here) =~= Seq::<char>::empty());
    } else {
        let at = choose|at: int| occurs_at(u.take(here), toc_marker(), at);
        assert(u.take(here).subrange(at, at + toc_marker().len()) =~= u.take(next).subrange(
            at,
            at + toc_marker().len(),
        ));
        assert(occurs_at(u.take(next), toc_marker(), at));
        lemma_behind_marker(u, render, k + 1);
        assert(u.skip(here) =~= u.subrange(here, next) + u.skip(next));
    }
}

/// A rendered block behind a text without marker is rewritten to itself,
/// and the rewriting goes on behind it. Handed back is the number of the
/// lines of the rendering.
proof fn lemma_block_step(
    p: Seq<char>,
    sql: Seq<char>,
    y: Seq<char>,
    render: spec_fn(Seq<char>) -> Seq<char>,
) -> (m: int)
    requires
        ends_lines(p),
        !contains_text(p, toc_marker()),
        reads_back(sql),
        is_clean_rendering(render(sql), sql),
    ensures
        m > 0,
        ends_lines(render(sql)),
        line_texts(p + render(sql)).len() == line_texts(p).len() + m,
        rewritten_behind(p + (render(sql) + y), render, line_texts(p).len() as int) == render(sql)
            + rewritten_behind(p + (render(sql) + y), render, line_texts(p).len() as int + m),
{
    let r = render(sql);
    let table = choose|table: Seq<Seq<char>>|
        table_lines_ok(table) && #[trigger] rendering_of(sql, table) == r;
    let query = choose|lines: Seq<Seq<char>>| #[trigger] query_lines(sql, lines);
    lemma_rendering_reads_back(sql, query, table, y);
    let rl = rendering_lines(query, table);
    let m = rl.len() as int;
    let l = line_texts(r + y);
    let lp = line_texts(p);
    let k = lp.len() as int;
    let w = p + (r + y);
    assert(m > 0);
    lemma_lines_of_parts(p, r + y);
    lemma_lines_of_parts(p, r);
    lemma_spans_from(r + y, 0);
    assert(line_start(r + y, 0) == 0);
    assert(line_start(w, k + 0) == p.len() + line_start(r + y, 0));
    assert(w.take(p.len() as int) =~= p);
    let lines = line_texts(w);
    assert(lines == lp + l);
    assert(lines[k] == l[0]);
    assert(opens_block(w, k));
    lemma_block_at_shift(lp, l, 0);
    let b = block_at(lines, k);
    assert(b.after == k + m);
    assert(query_of(lines, b) == sql);
    m
}

/// A line that opens no block, behind a text that ends its last line, is
/// rewritten to itself, and the rewriting goes on behind it.
proof fn lemma_line_step(
    p: Seq<char>,
    body: Seq<char>,
    y: Seq<char>,
    render: spec_fn(Seq<char>) -> Seq<char>,
)
    requires
        ends_lines(p),
        !body.contains('\n'),
        !is_sql_open(without_return(body)),
    ensures
        ends_lines(p + (body + seq!['\n'])),
        line_texts(p + (body + seq!['\n'])).len() == line_texts(p).len() + 1,
        line_texts(p).len() + 1 <= line_texts(p + (body + seq!['\n'] + y)).len(),
        line_start(p + (body + seq!['\n'] + y), line_texts(p).len() as int + 1) == p.len()
            + body.len() + 1,
        rewritten_behind(p + (body + seq!['\n'] + y), render, line_texts(p).len() as int) == body
            + seq!['\n'] + rewritten_behind(
            p + (body + seq!['\n'] + y),
            render,
            line_texts(p).len() as int + 1,
        ),
{
    let raw = body + seq!['\n'];
    let w = p + (raw + y);
    let lp = line_texts(p);
    let k = lp.len() as int;
    lemma_one_ended_line(body);
    lemma_lines_of_parts(raw, y);
    lemma_lines_of_parts(p, raw + y);
    lemma_lines_of_parts(p, raw);
    lemma_spans_from(raw + y, 0);
    lemma_spans_from(y, 0);
    assert(line_start(raw + y, 0) == 0);
    assert(line_start(y, 0) == 0);
    assert(line_start(raw + y, line_texts(raw).len() + 0int) == raw.len() + line_start(y, 0));
    assert(line_start(w, k + 0) == p.len() + line_start(raw + y, 0));
    assert(line_start(w, k + 1) == p.len() + line_start(raw + y, 1));
    assert(line_texts(w)[k] == without_return(body));
    assert(raw_line(w, k) =~= raw);
    assert((p + raw).last() == '\n');
}

/// No table-of-contents marker stands before the end of a query block. So
/// it is where the marker stands behind the blocks, where the note holds
/// no marker, and where it holds no block.
pub open spec fn marker_behind_blocks(s: Seq<char>) -> bool {
    forall|k: int|
        0 <= k < blocks_from(s, 0).len() ==> !contains_text(
            s.take(line_start(s, (#[trigger] blocks_from(s, 0)[k]).after)),
            toc_marker(),
        )
}

/// An ended line that opens no block, followed by the rewriting of what
/// follows it, is rewritten to itself behind a text without marker, if the
/// rewriting of what follows is, or a marker stands in the line.
proof fn lemma_ended_line_is_stable(
    s: Seq<char>,
    render: spec_fn(Seq<char>) -> Seq<char>,
    i: int,
    p: Seq<char>,
)
    requires
        0 <= i < line_texts(s).len(),
        s[line_start(s, i + 1) - 1] == '\n',
        !is_sql_open(line_texts(s)[i]),
        !contains_text(s.take(line_start(s, i)), toc_marker()),
        ends_lines(p),
        !contains_text(p, toc_marker()),
        !contains_text(s.take(line_start(s, i + 1)), toc_marker()) ==> rewritten_behind(
            p + raw_line(s, i) + rewritten_behind(s, render, i + 1),
            render,
            line_texts(p + raw_line(s, i)).len() as int,
        ) == rewritten_behind(s, render, i + 1),
    ensures
        rewritten_behind(p + rewritten_behind(s, render, i), render, line_texts(p).len() as int)
            == rewritten_behind(s, render, i),
{
    lemma_marker_is_plain();
    let marker = toc_marker();
    let k = line_texts(p).len() as int;
    lemma_line_start_increases(s, i, i + 1);
    lemma_line_shape(s, i);
    let start = line_start(s, i);
    let next = line_start(s, i + 1);
    let x1 = rewritten_behind(s, render, i + 1);
    let x = rewritten_behind(s, render, i);
    let body = s.subrange(start, next - 1);
    let raw = body + seq!['\n'];
    assert(raw_line(s, i) =~= raw);
    assert(x == raw + x1);
    lemma_line_step(p, body, x1, render);
    let w = p + (raw + x1);
    assert(p + x =~= w);
    let p2 = p + raw;
    assert(p2 + x1 =~= w);
    if contains_text(s.take(next), marker) {
        lemma_behind_marker(s, render, i + 1);
        assert(s.take(next) =~= s.take(start) + raw);
        assert(ends_lines(s.take(start))) by {
            if i > 0 {
                lemma_line_shape(s, i - 1);
                assert(s.take(start).last() == s[start - 1]);
            } else {
                lemma_spans_from(s, 0);
            }
        }
        lemma_occurs_in_part(s.take(start), raw, marker);
        assert(p2.subrange(p.len() as int, p2.len() as int) =~= raw);
        lemma_occurs_in_whole(p2, p.len() as int, p2.len() as int, marker);
        assert(w.take(p.len() as int + raw.len()) =~= p2);
        lemma_behind_marker(w, render, k + 1);
        assert(w.skip(p.len() as int + raw.len()) =~= x1);
    } else {
        assert(p + raw_line(s, i) + x1 =~= w);
    }
}

/// The last line of a note, where it is not ended and opens no block, is
/// rewritten to itself behind a text that ends its last line.
proof fn lemma_last_line_is_stable(
    s: Seq<char>,
    render: spec_fn(Seq<char>) -> Seq<char>,
    i: int,
    p: Seq<char>,
)
    requires
        0 <= i < line_texts(s).len(),
        s[line_start(s, i + 1) - 1] != '\n',
        !is_sql_open(line_texts(s)[i]),
        !contains_text(s.take(line_start(s, i)), toc_marker()),
        ends_lines(p),
    ensures
        rewritten_behind(p + rewritten_behind(s, render, i), render, line_texts(p).len() as int)
            == rewritten_behind(s, render, i),
{
    let k = line_texts(p).len() as int;
    lemma_line_start_increases(s, i, i + 1);
    lemma_line_shape(s, i);
    let start = line_start(s, i);
    let next = line_start(s, i + 1);
    let line = s.subrange(start, next);
    let x = rewritten_behind(s, render, i);
    assert(rewritten_behind(s, render, i + 1) =~= Seq::<char>::empty());
    assert(x =~= line);
    assert(line == line_texts(s)[i]);
    lemma_line_holds_no_feed(s, i);
    lemma_one_open_line(line);
    lemma_lines_of_parts(p, line);
    let w = p + line;
    lemma_spans_from(line, 0);
    assert(line_start(line, 0) == 0);
    assert(line_start(w, k + 0) == p.len() + line_start(line, 0));
    assert(line_texts(w).len() == k + 1);
    assert(line_start(w, k + 1) == w.len());
    assert(line_texts(w)[k] == line);
    assert(raw_line(w, k) =~= line);
    assert(rewritten_behind(w, render, k + 1) =~= Seq::<char>::empty());
    assert(rewritten_behind(w, render, k) == raw_line(w, k) + rewritten_behind(w, render, k + 1));
    assert(line + Seq::<char>::empty() =~= line);
}

/// What was rewritten from a line on is rewritten to itself, behind any
/// text without marker that ends its last line.
pub proof fn lemma_behind_is_stable(
    s: Seq<char>,
    render: spec_fn(Seq<char>) -> Seq<char>,
    i: int,
    j: int,
    p: Seq<char>,
)
    requires
        0 <= i <= line_texts(s).len(),
        0 <= j <= blocks_from(s, 0).len(),
        blocks_from(s, 0).skip(j) == blocks_from(s, i),
        blocks_render_cleanly(sql_blocks(s), render, j),
        renderings_hold_no_marker(sql_blocks(s), render, j),
        marker_behind_blocks(s),
        !contains_text(s.take(line_start(s, i)), toc_marker()),
        ends_lines(p),
        !contains_text(p, toc_marker()),
    ensures
        rewritten_behind(p + rewritten_behind(s, render, i), render, line_texts(p).len() as int)
            == rewritten_behind(s, render, i),
    decreases line_texts(s).len() - i,
{
    lemma_marker_is_plain();
    let marker = toc_marker();
    let lines = line_texts(s);
    let n = lines.len() as int;
    let all = blocks_from(s, 0);
    let blocks = sql_blocks(s);
    let x = rewritten_behind(s, render, i);
    let k = line_texts(p).len() as int;
    lemma_line_start_increases(s, i, i + 1);
    if i >= n {
        assert(p + x =~= p);
    } else if opens_block(s, i) {
        lemma_block_at(lines, i);
        let b = block_at(lines, i);
        assert(blocks_from(s, i) == seq![b] + blocks_from(s, b.after));
        assert(all.skip(j)[0] == b);
        assert(all[j] == b);
        assert(all.skip(j + 1) =~= blocks_from(s, b.after)) by {
            assert(all.skip(j).skip(1) =~= all.skip(j + 1));
            assert((seq![b] + blocks_from(s, b.after)).skip(1) =~= blocks_from(s, b.after));
        }
        assert(blocks[j] == block_view(s, b));
        let sql = blocks[j].sql;
        assert(sql == query_of(lines, b));
        let r = render(sql);
        let y = rewritten_behind(s, render, b.after);
        assert(x == r + y);
        let m = lemma_block_step(p, sql, y, render);
        if r.len() == 0 {
            assert(p + r =~= p);
        }
        assert((p + r).last() == r.last());
        if contains_text(p + r, marker) {
            lemma_occurs_in_part(p, r, marker);
        }
        lemma_behind_is_stable(s, render, b.after, j + 1, p + r);
        assert((p + r) + y =~= p + (r + y));
    } else {
        lemma_line_shape(s, i);
        let next = line_start(s, i + 1);
        if s[next - 1] == '\n' {
            let start = line_start(s, i);
            let raw = raw_line(s, i);
            let body = s.subrange(start, next - 1);
            assert(raw =~= body + seq!['\n']);
            if !contains_text(s.take(next), marker) {
                assert(blocks_from(s, i) == blocks_from(s, i + 1));
                lemma_line_step(p, body, rewritten_behind(s, render, i + 1), render);
                if contains_text(p + raw, marker) {
                    lemma_occurs_in_part(p, raw, marker);
                    assert(s.take(next).subrange(start, next) =~= raw);
                    lemma_occurs_in_whole(s.take(next), start, next, marker);
                }
                lemma_behind_is_stable(s, render, i + 1, j, p + raw);
            }
            lemma_ended_line_is_stable(s, render, i, p);
        } else {
            lemma_last_line_is_stable(s, render, i, p);
        }
    }
}

/// Running the rewriter twice in a row gives what one run gives.
///
/// This holds of every note with plain queries in which no
/// table-of-contents marker stands before the end of a query block, and of
/// every way of rendering that gives for each query a clean rendering
/// without such a marker. The rendering of a query is a function of the
/// query alone: the same query gives the same result in both runs.
pub proof fn lemma_rewrite_is_idempotent(s: Seq<char>, render: spec_fn(Seq<char>) -> Seq<char>)
    requires
        queries_are_plain(s),
        marker_behind_blocks(s),
        renders_cleanly(sql_blocks(s), render),
    ensures
        rewritten(rewritten(s, render), render) == rewritten(s, render),
{
    lemma_marker_is_plain();
    let blocks = sql_blocks(s);
    lemma_queries_read_back(s);
    lemma_fixed_lines();
    assert forall|k: int| 0 <= k < blocks.len() implies ends_lines(
        render((#[trigger] blocks[k]).sql),
    ) by {
        let sql = blocks[k].sql;
        let table = choose|table: Seq<Seq<char>>|
            table_lines_ok(table) && #[trigger] rendering_of(sql, table) == render(sql);
        assert(rendering_of(sql, table).last() == '\n');
    }
    let e = Seq::<char>::empty();
    let y = rewritten(s, render);
    lemma_rewritten_is_behind(s, render);
    lemma_rewritten_is_behind(y, render);
    assert(blocks_from(s, 0).skip(0) =~= blocks_from(s, 0));
    lemma_spans_from(s, 0);
    lemma_spans_from(e, 0);
    assert(line_start(s, 0) == 0);
    assert(s.take(0) =~= e);
    assert(!contains_text(e, toc_marker())) by {
        if contains_text(e, toc_marker()) {
            let at = choose|at: int| occurs_at(e, toc_marker(), at);
        }
    }
    lemma_behind_is_stable(s, render, 0, 0, e);
    assert(e + y =~= y);
    assert(line_texts(e).len() == 0);
}

/// A note without table-of-contents marker holds none before the end of a
/// block, and neither does a note without query block.
pub proof fn lemma_marker_behind_blocks(s: Seq<char>)
    requires
        !contains_text(s, toc_marker()) || sql_blocks(s).len() == 0,
    ensures
        marker_behind_blocks(s),
{
    lemma_blocks_from(s, 0);
    assert forall|k: int| 0 <= k < blocks_from(s, 0).len() implies !contains_text(
        s.take(line_start(s, (#[trigger] blocks_from(s, 0)[k]).after)),
        toc_marker(),
    ) by {
        let c = line_start(s, blocks_from(s, 0)[k].after);
        lemma_line_start_increases(s, blocks_from(s, 0)[k].after, blocks_from(s, 0)[k].after);
        if contains_text(s.take(c), toc_marker()) {
            assert(s.take(c) =~= s.subrange(0, c));
            lemma_occurs_in_whole(s, 0, c, toc_marker());
        }
    }
}

} // verus!
