//! Finding the embedded query blocks of a note.
//!
//! A block begins at a line that opens a fenced `sql` block and stands before
//! any table of contents. The lines up to the closing fence are the query.
//! What follows the closing fence up to the next opening fence, or through
//! the end marker of an earlier rendering, belongs to the block too, so that
//! a fresh rendering takes the place of the old one.
use vstd::prelude::*;
use vstd::string::StringSliceAdditionalSpecFns;
use vstd::utf8::encode_utf8;
use crate::lines::{
    lemma_starts_increase, line_spans, line_start, line_texts, lines_of, span_views, split_lines,
    LineSpan,
};
use crate::split::views;
use crate::text::{
    chars_eq, contains_text, find_from, from_chars, has_prefix, occurs_at, push_all, starts_with,
    to_chars, trim, trim_chars,
};

verus! {

/// The heading that begins a table of contents.
pub open spec fn toc_marker() -> Seq<char> {
    "## Contents"@
}

/// Number of bytes that encode the character `c` in UTF-8.
pub open spec fn utf8_width(c: char) -> nat {
    if (c as u32) < 0x80 {
        1
    } else if (c as u32) < 0x800 {
        2
    } else if (c as u32) < 0x10000 {
        3
    } else {
        4
    }
}

/// Number of bytes that encode the character `c` in UTF-8.
pub fn char_width(c: char) -> (w: usize)
    ensures
        w == utf8_width(c),
{
    let code: u32 = c as u32;
    if code < 0x80 {
        1
    } else if code < 0x800 {
        2
    } else if code < 0x10000 {
        3
    } else {
        4
    }
}

/// Number of bytes of the UTF-8 encoding of `s`.
pub open spec fn byte_len(s: Seq<char>) -> nat {
    encode_utf8(s).len()
}

/// Whether the line opens a fenced query block.
pub open spec fn is_sql_open(line: Seq<char>) -> bool {
    starts_with(trim(line), "```sql"@)
}

/// Whether the line is a fence.
pub open spec fn is_fence(line: Seq<char>) -> bool {
    starts_with(trim(line), "```"@)
}

/// Whether the line is the marker that begins a rendered result.
pub open spec fn is_begin_marker(line: Seq<char>) -> bool {
    trim(line) == "<!-- BEGIN SQL -->"@
}

/// Whether the line is the marker that ends a rendered result.
pub open spec fn is_end_marker(line: Seq<char>) -> bool {
    trim(line) == "<!-- END SQL -->"@
}

/// The first line at or after `i` that is a fence, or the number of lines.
pub open spec fn body_end(lines: Seq<Seq<char>>, i: int) -> int
    decreases lines.len() - i,
{
    if i < 0 || i >= lines.len() || is_fence(lines[i]) {
        i
    } else {
        body_end(lines, i + 1)
    }
}

/// Where the reach of a block ends whose closing fence is passed at line
/// `i`: before the next line that opens a block, or after the next end
/// marker, whichever comes first, or at the end of the text.
pub open spec fn reach_end(lines: Seq<Seq<char>>, i: int) -> int
    decreases lines.len() - i,
{
    if i < 0 || i >= lines.len() || is_sql_open(lines[i]) {
        i
    } else if is_end_marker(lines[i]) {
        i + 1
    } else {
        reach_end(lines, i + 1)
    }
}

/// A block by its lines: the opening fence is line `first`, the closing
/// fence line `close` (the number of lines where it is missing), and the
/// block reaches up to line `after`, which is no part of it.
pub struct BlockSpan {
    pub first: int,
    pub close: int,
    pub after: int,
}

/// The block that line `i` opens.
pub open spec fn block_at(lines: Seq<Seq<char>>, i: int) -> BlockSpan {
    let close = body_end(lines, i + 1);
    let resume = if close < lines.len() {
        close + 1
    } else {
        close
    };
    BlockSpan { first: i, close, after: reach_end(lines, resume) }
}

/// Whether line `i` of `s` begins a block: it opens a fenced query block,
/// and the text before it holds no table-of-contents marker.
pub open spec fn opens_block(s: Seq<char>, i: int) -> bool {
    is_sql_open(line_texts(s)[i]) && !contains_text(s.take(line_start(s, i)), toc_marker())
}

/// The blocks of `s` that begin at line `i` or later.
pub open spec fn blocks_from(s: Seq<char>, i: int) -> Seq<BlockSpan>
    decreases line_texts(s).len() - i,
{
    if i < 0 || i >= line_texts(s).len() {
        Seq::empty()
    } else if opens_block(s, i) {
        let b = block_at(line_texts(s), i);
        if i < b.after <= line_texts(s).len() {
            seq![b] + blocks_from(s, b.after)
        } else {
            seq![b]
        }
    } else {
        blocks_from(s, i + 1)
    }
}

/// The lines, each followed by a line feed.
pub open spec fn with_feeds(lines: Seq<Seq<char>>) -> Seq<char>
    decreases lines.len(),
{
    if lines.len() == 0 {
        Seq::empty()
    } else {
        with_feeds(lines.drop_last()) + lines.last() + seq!['\n']
    }
}

/// A query block as plain values: its query, the bytes `range.0..range.1`
/// that it takes up in the UTF-8 text of the note, and the same stretch
/// counted in characters.
pub struct BlockView {
    pub sql: Seq<char>,
    pub range: (int, int),
    pub chars: (int, int),
}

/// The block `b` of the text `s` as plain values. Its query is the text of
/// the lines between the fences, trimmed.
pub open spec fn block_view(s: Seq<char>, b: BlockSpan) -> BlockView {
    BlockView {
        sql: trim(with_feeds(line_texts(s).subrange(b.first + 1, b.close))),
        range: (
            byte_len(s.take(line_start(s, b.first))) as int,
            byte_len(s.take(line_start(s, b.after))) as int,
        ),
        chars: (line_start(s, b.first), line_start(s, b.after)),
    }
}

/// The query blocks of the text `s`, in the order in which they stand.
pub open spec fn sql_blocks(s: Seq<char>) -> Seq<BlockView> {
    Seq::new(blocks_from(s, 0).len(), |k: int| block_view(s, blocks_from(s, 0)[k]))
}

/// An embedded query block: the query and the bytes that the block takes up
/// in the note, an earlier rendering of its result included.
pub struct SqlBlock {
    pub sql: String,
    pub range: (usize, usize),
    pub chars: (usize, usize),
}

impl View for SqlBlock {
    type V = BlockView;

    open spec fn view(&self) -> BlockView {
        BlockView {
            sql: self.sql@,
            range: (self.range.0 as int, self.range.1 as int),
            chars: (self.chars.0 as int, self.chars.1 as int),
        }
    }
}

/// The blocks of a vector as plain values.
pub open spec fn block_views(v: Seq<SqlBlock>) -> Seq<BlockView> {
    Seq::new(v.len(), |i: int| v[i]@)
}

pub proof fn lemma_encode_concat(a: Seq<char>, b: Seq<char>)
    ensures
        encode_utf8(a + b) == encode_utf8(a) + encode_utf8(b),
    decreases a.len(),
{
    if a.len() == 0 {
        assert(a + b == b);
        assert(encode_utf8(a) + encode_utf8(b) == encode_utf8(b));
    } else {
        assert((a + b).drop_first() == a.drop_first() + b);
        lemma_encode_concat(a.drop_first(), b);
        assert((a + b)[0] == a[0]);
    }
}

/// The bytes of a text up to a position and one character further.
pub proof fn lemma_byte_len_step(s: Seq<char>, i: int)
    requires
        0 <= i < s.len(),
    ensures
        byte_len(s.take(i + 1)) == byte_len(s.take(i)) + utf8_width(s[i]),
        byte_len(s.take(i + 1)) <= byte_len(s),
        byte_len(s.take(0)) == 0,
{
    let one = seq![s[i]];
    assert(s.take(i + 1) == s.take(i) + one);
    lemma_encode_concat(s.take(i), one);
    assert(one.drop_first() == Seq::<char>::empty());
    assert(encode_utf8(one) == vstd::utf8::encode_scalar(s[i] as u32) + encode_utf8(
        Seq::<char>::empty(),
    ));
    vstd::utf8::char_is_scalar(s[i]);
    assert(s == s.take(i + 1) + s.skip(i + 1));
    lemma_encode_concat(s.take(i + 1), s.skip(i + 1));
}

/// The byte at which the character `idx` of `s` begins in the UTF-8 text: the
/// number of bytes that encode the characters before it.
pub fn byte_offset(s: &Vec<char>, idx: usize) -> (r: usize)
    requires
        idx <= s.len(),
        byte_len(s@) <= usize::MAX,
    ensures
        r == byte_len(s@.take(idx as int)),
{
    let mut bytes: usize = 0;
    let mut i: usize = 0;
    assert(s@.take(0) == Seq::<char>::empty());
    while i < idx
        invariant
            i <= idx <= s.len(),
            bytes == byte_len(s@.take(i as int)),
            byte_len(s@) <= usize::MAX,
        decreases idx - i,
    {
        proof {
            lemma_byte_len_step(s@, i as int);
        }
        bytes = bytes + char_width(s[i]);
        i += 1;
    }
    bytes
}

/// Whether the line opens a fenced query block.
pub fn line_is_sql_open(line: &Vec<char>) -> (r: bool)
    ensures
        r == is_sql_open(line@),
{
    has_prefix(&trim_chars(line), &to_chars("```sql"))
}

/// Whether the line is a fence.
pub fn line_is_fence(line: &Vec<char>) -> (r: bool)
    ensures
        r == is_fence(line@),
{
    has_prefix(&trim_chars(line), &to_chars("```"))
}

/// Whether the line is the marker that ends a rendered result.
pub fn line_is_end_marker(line: &Vec<char>) -> (r: bool)
    ensures
        r == is_end_marker(line@),
{
    chars_eq(&trim_chars(line), &to_chars("<!-- END SQL -->"))
}

/// The first line at or after `i` that is a fence, or the number of lines;
/// and the lines passed over, each with a line feed.
fn scan_body(lines: &Vec<Vec<char>>, i: usize) -> (r: (usize, Vec<char>))
    requires
        i <= lines.len(),
    ensures
        r.0 == body_end(views(lines@), i as int),
        i <= r.0 <= lines.len(),
        r.1@ == with_feeds(views(lines@).subrange(i as int, r.0 as int)),
{
    let mut j: usize = i;
    let mut sql: Vec<char> = Vec::new();
    assert(views(lines@).subrange(i as int, i as int) =~= Seq::empty());
    while j < lines.len() && !line_is_fence(&lines[j])
        invariant
            i <= j <= lines.len(),
            body_end(views(lines@), i as int) == body_end(views(lines@), j as int),
            sql@ == with_feeds(views(lines@).subrange(i as int, j as int)),
        decreases lines.len() - j,
    {
        proof {
            let next = views(lines@).subrange(i as int, j + 1);
            assert(next.drop_last() =~= views(lines@).subrange(i as int, j as int));
            assert(next.last() == lines@[j as int]@);
        }
        push_all(&mut sql, &lines[j]);
        sql.push('\n');
        j += 1;
    }
    (j, sql)
}

/// Where the reach of a block ends whose closing fence is passed at line `i`.
fn scan_reach(lines: &Vec<Vec<char>>, i: usize) -> (r: usize)
    requires
        i <= lines.len(),
    ensures
        r == reach_end(views(lines@), i as int),
        i <= r <= lines.len(),
{
    let mut e: usize = i;
    while e < lines.len()
        invariant
            i <= e <= lines.len(),
            reach_end(views(lines@), i as int) == reach_end(views(lines@), e as int),
        decreases lines.len() - e,
    {
        if line_is_sql_open(&lines[e]) {
            return e;
        }
        if line_is_end_marker(&lines[e]) {
            return e + 1;
        }
        e += 1;
    }
    e
}

/// A text that ends before `p` holds `m` exactly where the whole text holds
/// it and `m` ends before `p`.
pub proof fn lemma_occurs_in_prefix(s: Seq<char>, m: Seq<char>, p: int, k: int)
    requires
        0 <= p <= s.len(),
    ensures
        occurs_at(s.take(p), m, k) <==> occurs_at(s, m, k) && k + m.len() <= p,
{
    if 0 <= k && k + m.len() <= p {
        assert(s.take(p).subrange(k, k + m.len()) == s.subrange(k, k + m.len()));
    }
}

/// The query blocks of the note body `content`, in the order in which they
/// stand, each with its query and with the bytes that it takes up.
pub fn extract_sql_blocks(content: &str) -> (r: Vec<SqlBlock>)
    ensures
        block_views(r@) == sql_blocks(content@),
        blocks_in_order(sql_blocks(content@), content@.len() as int),
{
    let total = content.as_bytes().len();
    let chars = to_chars(content);
    assert(byte_len(chars@) == total);
    extract_blocks(&chars)
}

/// The blocks stand one after the other within a text of `len` characters.
pub open spec fn blocks_in_order(blocks: Seq<BlockView>, len: int) -> bool {
    &&& forall|k: int|
        0 <= k < blocks.len() ==> 0 <= (#[trigger] blocks[k]).chars.0 <= blocks[k].chars.1 <= len
    &&& forall|k: int|
        0 <= k < blocks.len() - 1 ==> (#[trigger] blocks[k]).chars.1 <= blocks[k + 1].chars.0
}

/// `found` is where `m` first occurs in `s`, if it occurs.
pub open spec fn is_first_occurrence(s: Seq<char>, m: Seq<char>, found: Option<usize>) -> bool {
    match found {
        Some(k) => occurs_at(s, m, k as int) && forall|j: int| 0 <= j < k ==> !occurs_at(s, m, j),
        None => forall|j: int| 0 <= j ==> !occurs_at(s, m, j),
    }
}

/// Whether `m` occurs in `s` before the position `start`, given where it
/// first occurs in `s`.
fn occurs_before(s: &Vec<char>, m: &Vec<char>, found: Option<usize>, start: usize) -> (r: bool)
    requires
        start <= s.len(),
        is_first_occurrence(s@, m@, found),
    ensures
        r == contains_text(s@.take(start as int), m@),
{
    let r = match found {
        Some(k) => m.len() <= start && k <= start - m.len(),
        None => false,
    };
    proof {
        let prefix = s@.take(start as int);
        if r {
            lemma_occurs_in_prefix(s@, m@, start as int, found->Some_0 as int);
            assert(occurs_at(prefix, m@, found->Some_0 as int));
        } else {
            assert forall|k: int| !occurs_at(prefix, m@, k) by {
                lemma_occurs_in_prefix(s@, m@, start as int, k);
            }
        }
    }
    r
}

/// The lines of `s`, where they stand, and their texts.
pub open spec fn lines_match(s: Seq<char>, spans: Seq<LineSpan>, lines: Seq<Vec<char>>) -> bool {
    &&& span_views(spans) == line_spans(s)
    &&& views(lines) == line_texts(s)
    &&& spans.len() == lines.len()
    &&& forall|k: int|
        0 <= k < spans.len() ==> (#[trigger] spans[k]).start <= spans[k].end <= spans[k].next
            <= s.len() && spans[k].start < spans[k].next
    &&& forall|k: int| 0 <= k < spans.len() - 1 ==> (#[trigger] spans[k]).next == spans[k + 1].start
}

/// Where line `k` begins, or the length of the text for the line after the
/// last.
fn start_of(s: &Vec<char>, spans: &Vec<LineSpan>, lines: &Vec<Vec<char>>, k: usize) -> (r: usize)
    requires
        lines_match(s@, spans@, lines@),
        k <= spans@.len(),
    ensures
        r == line_start(s@, k as int),
        r <= s@.len(),
        forall|j: int| 0 <= j <= k && j < spans@.len() ==> (#[trigger] spans@[j]).start <= r,
{
    if k < spans.len() {
        proof {
            assert(span_views(spans@)[k as int] == spans@[k as int]@);
            assert forall|j: int| 0 <= j <= k && j < spans@.len() implies (#[trigger] spans@[j]).start
                <= spans@[k as int].start by {
                lemma_starts_increase(spans@, j, k as int);
            }
        }
        spans[k].start
    } else {
        proof {
            assert(span_views(spans@).len() == spans@.len());
        }
        s.len()
    }
}

/// The block that line `i` opens, and the line after its reach.
fn take_block(s: &Vec<char>, spans: &Vec<LineSpan>, lines: &Vec<Vec<char>>, i: usize) -> (r: (
    SqlBlock,
    usize,
))
    requires
        lines_match(s@, spans@, lines@),
        i < spans@.len(),
        byte_len(s@) <= usize::MAX,
    ensures
        r.0@ == block_view(s@, block_at(line_texts(s@), i as int)),
        r.1 == block_at(line_texts(s@), i as int).after,
        i < r.1 <= spans@.len(),
        r.0.chars.0 == spans@[i as int].start,
        r.0.chars.0 <= r.0.chars.1 <= s@.len(),
        r.0.chars.1 == line_start(s@, r.1 as int),
{
    let n = spans.len();
    let (close, sql) = scan_body(lines, i + 1);
    let resume = if close < n {
        close + 1
    } else {
        close
    };
    let after = scan_reach(lines, resume);
    let start = start_of(s, spans, lines, i);
    let end = start_of(s, spans, lines, after);
    proof {
        assert(spans@[i as int].start <= end);
    }
    let block = SqlBlock {
        sql: from_chars(&trim_chars(&sql)),
        range: (byte_offset(s, start), byte_offset(s, end)),
        chars: (start, end),
    };
    (block, after)
}

/// The query blocks of the text `s`.
pub fn extract_blocks(s: &Vec<char>) -> (r: Vec<SqlBlock>)
    requires
        byte_len(s@) <= usize::MAX,
    ensures
        block_views(r@) == sql_blocks(s@),
        blocks_in_order(sql_blocks(s@), s@.len() as int),
{
    let spans = split_lines(s);
    let lines = lines_of(s);
    let n = spans.len();
    let marker = to_chars("## Contents");
    let toc = find_from(s, &marker, 0);
    let mut out: Vec<SqlBlock> = Vec::new();
    let ghost mut found: Seq<BlockSpan> = Seq::empty();
    let mut i: usize = 0;
    proof {
        assert(span_views(spans@).len() == n);
        assert(views(lines@).len() == lines@.len());
        assert(found + blocks_from(s@, 0) =~= blocks_from(s@, 0));
    }
    while i < n
        invariant
            i <= n == spans@.len(),
            n == line_texts(s@).len(),
            byte_len(s@) <= usize::MAX,
            marker@ == toc_marker(),
            lines_match(s@, spans@, lines@),
            is_first_occurrence(s@, marker@, toc),
            blocks_in_order(block_views(out@), s@.len() as int),
            out@.len() > 0 ==> out@[out@.len() - 1].chars.1 <= line_start(s@, i as int),
            blocks_from(s@, 0) == found + blocks_from(s@, i as int),
            out@.len() == found.len(),
            forall|k: int| 0 <= k < found.len() ==> (#[trigger] out@[k])@ == block_view(s@, found[k]),
        decreases n - i,
    {
        let start = start_of(s, &spans, &lines, i);
        let in_toc = occurs_before(s, &marker, toc, start);
        let opens = line_is_sql_open(&lines[i]);
        assert(views(lines@)[i as int] == lines@[i as int]@);
        assert((opens && !in_toc) == opens_block(s@, i as int));
        if opens && !in_toc {
            let (block, after) = take_block(s, &spans, &lines, i);
            let ghost b = block_at(line_texts(s@), i as int);
            let ghost earlier = block_views(out@);
            proof {
                assert(found + (seq![b] + blocks_from(s@, after as int)) =~= found.push(b)
                    + blocks_from(s@, after as int));
                found = found.push(b);
            }
            out.push(block);
            proof {
                let now = block_views(out@);
                assert(now =~= earlier.push(block@));
                assert forall|k: int| 0 <= k < now.len() - 1 implies (#[trigger] now[k]).chars.1
                    <= now[k + 1].chars.0 by {
                    if k < earlier.len() - 1 {
                        assert(earlier[k].chars.1 <= earlier[k + 1].chars.0);
                    }
                }
            }
            i = after;
        } else {
            let ghost here = line_start(s@, i as int);
            let next = start_of(s, &spans, &lines, i + 1);
            assert(here <= next);
            i += 1;
        }
    }
    proof {
        assert(blocks_from(s@, n as int) =~= Seq::empty());
        assert(found =~= blocks_from(s@, 0));
        assert(block_views(out@) =~= sql_blocks(s@));
    }
    out
}

} // verus!
