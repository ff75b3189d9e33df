//! Facts about the scanning of query blocks: where a block ends, and that
//! the scanning of a text looks at the lines from its starting point on
//! alone.
use vstd::prelude::*;
use crate::lines::{lemma_spans_from, line_spans, line_start, line_texts};
use crate::sql_blocks::{
    block_at, blocks_from, body_end, is_end_marker, is_fence, is_sql_open, opens_block, reach_end,
    BlockSpan,
};

verus! {

/// The body of a block ends at a fence or at the end of the text, and no
/// line before that is a fence.
pub proof fn lemma_body_end(lines: Seq<Seq<char>>, i: int)
    requires
        0 <= i <= lines.len(),
    ensures
        i <= body_end(lines, i) <= lines.len(),
        body_end(lines, i) < lines.len() ==> is_fence(lines[body_end(lines, i)]),
        forall|j: int| i <= j < body_end(lines, i) ==> !is_fence(#[trigger] lines[j]),
    decreases lines.len() - i,
{
    if i < lines.len() && !is_fence(lines[i]) {
        lemma_body_end(lines, i + 1);
    }
}

/// The body of a block ends at `e` if `e` is the first fence, or the end of
/// the text.
pub proof fn lemma_body_end_is(lines: Seq<Seq<char>>, i: int, e: int)
    requires
        0 <= i <= e <= lines.len(),
        forall|j: int| i <= j < e ==> !is_fence(#[trigger] lines[j]),
        e < lines.len() ==> is_fence(lines[e]),
    ensures
        body_end(lines, i) == e,
    decreases e - i,
{
    if i < e {
        lemma_body_end_is(lines, i + 1, e);
    }
}

/// The reach of a block ends within the text.
pub proof fn lemma_reach_end(lines: Seq<Seq<char>>, i: int)
    requires
        0 <= i <= lines.len(),
    ensures
        i <= reach_end(lines, i) <= lines.len(),
    decreases lines.len() - i,
{
    if i < lines.len() && !is_sql_open(lines[i]) && !is_end_marker(lines[i]) {
        lemma_reach_end(lines, i + 1);
    }
}

/// The reach of a block ends after the first end marker, if no line before
/// it opens a block.
pub proof fn lemma_reach_end_is(lines: Seq<Seq<char>>, i: int, e: int)
    requires
        0 <= i < e <= lines.len(),
        forall|j: int| i <= j < e ==> !is_sql_open(#[trigger] lines[j]),
        forall|j: int| i <= j < e - 1 ==> !is_end_marker(#[trigger] lines[j]),
        is_end_marker(lines[e - 1]),
    ensures
        reach_end(lines, i) == e,
    decreases e - i,
{
    if i < e - 1 {
        lemma_reach_end_is(lines, i + 1, e);
    }
}

/// A block that begins within the text reaches further than its first line,
/// and not beyond the text.
pub proof fn lemma_block_at(lines: Seq<Seq<char>>, i: int)
    requires
        0 <= i < lines.len(),
    ensures
        i < block_at(lines, i).close <= lines.len(),
        i < block_at(lines, i).after <= lines.len(),
        block_at(lines, i).close <= block_at(lines, i).after,
        block_at(lines, i).first == i,
{
    lemma_body_end(lines, i + 1);
    let close = body_end(lines, i + 1);
    let resume = if close < lines.len() {
        close + 1
    } else {
        close
    };
    lemma_reach_end(lines, resume);
}

/// The body of a block is found by looking at the lines from its start on
/// alone.
pub proof fn lemma_body_end_shift(a: Seq<Seq<char>>, b: Seq<Seq<char>>, j: int)
    requires
        0 <= j <= b.len(),
    ensures
        body_end(a + b, a.len() + j) == a.len() + body_end(b, j),
    decreases b.len() - j,
{
    if j < b.len() {
        assert((a + b)[a.len() + j] == b[j]);
        if !is_fence(b[j]) {
            lemma_body_end_shift(a, b, j + 1);
        }
    }
}

/// The reach of a block is found by looking at the lines from its start on
/// alone.
pub proof fn lemma_reach_end_shift(a: Seq<Seq<char>>, b: Seq<Seq<char>>, j: int)
    requires
        0 <= j <= b.len(),
    ensures
        reach_end(a + b, a.len() + j) == a.len() + reach_end(b, j),
    decreases b.len() - j,
{
    if j < b.len() {
        assert((a + b)[a.len() + j] == b[j]);
        if !is_sql_open(b[j]) && !is_end_marker(b[j]) {
            lemma_reach_end_shift(a, b, j + 1);
        }
    }
}

/// A block is found by looking at the lines from its start on alone.
pub proof fn lemma_block_at_shift(a: Seq<Seq<char>>, b: Seq<Seq<char>>, j: int)
    requires
        0 <= j < b.len(),
    ensures
        block_at(a + b, a.len() + j) == (BlockSpan {
            first: a.len() + block_at(b, j).first,
            close: a.len() + block_at(b, j).close,
            after: a.len() + block_at(b, j).after,
        }),
        (a + b).subrange(a.len() + j + 1, a.len() + block_at(b, j).close) == b.subrange(
            j + 1,
            block_at(b, j).close,
        ),
{
    lemma_body_end_shift(a, b, j + 1);
    lemma_body_end(b, j + 1);
    let close = body_end(b, j + 1);
    let resume = if close < b.len() {
        close + 1
    } else {
        close
    };
    lemma_reach_end_shift(a, b, resume);
    assert((a + b).subrange(a.len() + j + 1, a.len() + close) =~= b.subrange(j + 1, close));
}

/// The lines of a text begin in increasing order, within the text.
pub proof fn lemma_line_start_increases(s: Seq<char>, a: int, b: int)
    requires
        0 <= a <= b,
    ensures
        0 <= line_start(s, a) <= line_start(s, b) <= s.len(),
    decreases b - a,
{
    lemma_spans_from(s, 0);
    let n = line_spans(s).len();
    if a < b {
        lemma_line_start_increases(s, a + 1, b);
        if a < n {
            let sp = line_spans(s)[a];
            crate::lines::lemma_span_at(s, sp.start);
            if a + 1 < n {
                assert(line_spans(s)[a].next == line_spans(s)[a + 1].start);
            } else {
                assert(line_spans(s).last() == line_spans(s)[a]);
            }
        }
    } else {
        if a < n {
            assert(0 <= line_spans(s)[a].start < s.len());
        }
    }
}

/// The blocks from a line on begin at that line or later, reach further
/// than they begin and not beyond the text, and follow one another.
pub proof fn lemma_blocks_from(s: Seq<char>, i: int)
    requires
        0 <= i,
    ensures
        forall|k: int|
            0 <= k < blocks_from(s, i).len() ==> i <= (#[trigger] blocks_from(s, i)[k]).first
                < blocks_from(s, i)[k].after <= line_texts(s).len(),
        forall|k: int|
            0 <= k < blocks_from(s, i).len() ==> (#[trigger] blocks_from(s, i)[k]) == block_at(
                line_texts(s),
                blocks_from(s, i)[k].first,
            ),
    decreases line_texts(s).len() - i,
{
    let n = line_texts(s).len();
    if i < n {
        if opens_block(s, i) {
            lemma_block_at(line_texts(s), i);
            let b = block_at(line_texts(s), i);
            lemma_blocks_from(s, b.after);
            let rest = blocks_from(s, b.after);
            assert forall|k: int| 0 <= k < blocks_from(s, i).len() implies i <= (
            #[trigger] blocks_from(s, i)[k]).first < blocks_from(s, i)[k].after <= n by {
                if k > 0 {
                    assert(blocks_from(s, i)[k] == rest[k - 1]);
                }
            }
            assert forall|k: int| 0 <= k < blocks_from(s, i).len() implies (
            #[trigger] blocks_from(s, i)[k]) == block_at(
                line_texts(s),
                blocks_from(s, i)[k].first,
            ) by {
                if k > 0 {
                    assert(blocks_from(s, i)[k] == rest[k - 1]);
                }
            }
        } else {
            lemma_blocks_from(s, i + 1);
            let rest = blocks_from(s, i + 1);
            assert(blocks_from(s, i) == rest);
            assert forall|k: int| 0 <= k < blocks_from(s, i).len() implies i <= (
            #[trigger] blocks_from(s, i)[k]).first < blocks_from(s, i)[k].after <= n by {
                assert(i + 1 <= rest[k].first);
            }
            assert forall|k: int| 0 <= k < blocks_from(s, i).len() implies (
            #[trigger] blocks_from(s, i)[k]) == block_at(
                line_texts(s),
                blocks_from(s, i)[k].first,
            ) by {
                assert(rest[k] == block_at(line_texts(s), rest[k].first));
            }
        }
    } else {
        assert(blocks_from(s, i).len() == 0);
    }
}

} // verus!
