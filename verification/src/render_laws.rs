//! The shape of a rendered query block, and how it is read back as a block
//! with the same query.
use vstd::prelude::*;
use crate::line_laws::{
    ends_lines, is_line, lemma_lines_of_feeds, lemma_lines_of_parts, lemma_with_feeds_concat,
};
use crate::lines::line_texts;
use crate::scan_laws::{lemma_body_end_is, lemma_reach_end_is};
use crate::sql_blocks::{
    block_at, body_end, is_begin_marker, is_end_marker, is_fence, is_sql_open, reach_end,
    with_feeds, BlockSpan,
};
use crate::text::{is_space, is_trimmed, lemma_trimmed_fixed, starts_with, trim};

verus! {

/// The line that opens a rendered query block.
pub open spec fn open_fence() -> Seq<char> {
    "```sql"@
}

/// The line that closes the query of a rendered block.
pub open spec fn close_fence() -> Seq<char> {
    "```"@
}

/// The line that begins the result of a rendered block.
pub open spec fn begin_marker() -> Seq<char> {
    "<!-- BEGIN SQL -->"@
}

/// The line that ends the result of a rendered block.
pub open spec fn end_marker() -> Seq<char> {
    "<!-- END SQL -->"@
}

/// Lines that can stand as the table of a rendered block: each is a line,
/// opens no block and is no marker.
pub open spec fn table_lines_ok(table: Seq<Seq<char>>) -> bool {
    forall|i: int|
        0 <= i < table.len() ==> is_line(#[trigger] table[i]) && !is_sql_open(table[i])
            && !is_end_marker(table[i]) && !is_begin_marker(table[i])
}

/// The rendering of the query `sql` with the lines `table` as its table.
pub open spec fn rendering_of(sql: Seq<char>, table: Seq<Seq<char>>) -> Seq<char> {
    "```sql\n"@ + sql + "\n```\n"@ + "<!-- BEGIN SQL -->\n"@ + with_feeds(table)
        + "<!-- END SQL -->\n"@
}

/// `text` is a rendering of the query `sql` whose table is made of whole
/// lines, none of which opens a block or is an end marker.
pub open spec fn is_clean_rendering(text: Seq<char>, sql: Seq<char>) -> bool {
    exists|table: Seq<Seq<char>>| table_lines_ok(table) && #[trigger] rendering_of(sql, table) == text
}

/// The lines `lines` are the lines of the query `sql`: whole lines, none of
/// them a fence.
pub open spec fn query_lines(sql: Seq<char>, lines: Seq<Seq<char>>) -> bool {
    with_feeds(lines) == sql + seq!['\n'] && forall|i: int|
        0 <= i < lines.len() ==> is_line(#[trigger] lines[i]) && !is_fence(lines[i])
}

/// The query `sql` reads back as itself: it is made of whole lines, none of
/// them a fence, and trimming it, with a line feed at its end, gives it
/// back.
pub open spec fn reads_back(sql: Seq<char>) -> bool {
    trim(sql + seq!['\n']) == sql && exists|lines: Seq<Seq<char>>| #[trigger] query_lines(sql, lines)
}

/// The lines of a rendering.
pub open spec fn rendering_lines(query: Seq<Seq<char>>, table: Seq<Seq<char>>) -> Seq<Seq<char>> {
    seq![open_fence()] + query + seq![close_fence(), begin_marker()] + table + seq![end_marker()]
}

/// What the four fixed lines of a rendering are.
pub proof fn lemma_fixed_lines()
    ensures
        is_line(open_fence()),
        is_line(close_fence()),
        is_line(begin_marker()),
        is_line(end_marker()),
        is_sql_open(open_fence()),
        is_fence(close_fence()),
        !is_sql_open(begin_marker()),
        !is_end_marker(begin_marker()),
        is_end_marker(end_marker()),
        !is_sql_open(end_marker()),
        "```sql\n"@ == open_fence() + seq!['\n'],
        "\n```\n"@ == seq!['\n'] + close_fence() + seq!['\n'],
        "<!-- BEGIN SQL -->\n"@ == begin_marker() + seq!['\n'],
        "<!-- END SQL -->\n"@ == end_marker() + seq!['\n'],
{
    reveal_strlit("```sql");
    reveal_strlit("```");
    reveal_strlit("<!-- BEGIN SQL -->");
    reveal_strlit("<!-- END SQL -->");
    reveal_strlit("```sql\n");
    reveal_strlit("\n```\n");
    reveal_strlit("<!-- BEGIN SQL -->\n");
    reveal_strlit("<!-- END SQL -->\n");
    let o = open_fence();
    let c = close_fence();
    let b = begin_marker();
    let e = end_marker();
    assert(o.len() == 6 && c.len() == 3 && b.len() == 18 && e.len() == 16);
    assert(!o.contains('\n')) by {
        if o.contains('\n') {
            let k = choose|k: int| 0 <= k < o.len() && o[k] == '\n';
            assert(k == 0 || k == 1 || k == 2 || k == 3 || k == 4 || k == 5);
        }
    }
    assert(!c.contains('\n')) by {
        if c.contains('\n') {
            let k = choose|k: int| 0 <= k < c.len() && c[k] == '\n';
            assert(k == 0 || k == 1 || k == 2);
        }
    }
    assert(!b.contains('\n')) by {
        if b.contains('\n') {
            let k = choose|k: int| 0 <= k < b.len() && b[k] == '\n';
            assert(0 <= k < 18);
            assert(b[k] != '\n') by {
                assert(b[0] == '<' && b[1] == '!' && b[2] == '-' && b[3] == '-' && b[4] == ' ');
                assert(b[5] == 'B' && b[6] == 'E' && b[7] == 'G' && b[8] == 'I' && b[9] == 'N');
                assert(b[10] == ' ' && b[11] == 'S' && b[12] == 'Q' && b[13] == 'L');
                assert(b[14] == ' ' && b[15] == '-' && b[16] == '-' && b[17] == '>');
            }
        }
    }
    assert(!e.contains('\n')) by {
        if e.contains('\n') {
            let k = choose|k: int| 0 <= k < e.len() && e[k] == '\n';
            assert(0 <= k < 16);
            assert(e[k] != '\n') by {
                assert(e[0] == '<' && e[1] == '!' && e[2] == '-' && e[3] == '-' && e[4] == ' ');
                assert(e[5] == 'E' && e[6] == 'N' && e[7] == 'D' && e[8] == ' ' && e[9] == 'S');
                assert(e[10] == 'Q' && e[11] == 'L' && e[12] == ' ' && e[13] == '-');
                assert(e[14] == '-' && e[15] == '>');
            }
        }
    }
    assert(o[0] == '`' && o[5] == 'l');
    assert(c[0] == '`' && c[2] == '`');
    assert(b[0] == '<' && b[17] == '>');
    assert(e[0] == '<' && e[15] == '>');
    assert(!is_space('`') && !is_space('l') && !is_space('<') && !is_space('>'));
    assert(is_trimmed(o) && is_trimmed(c) && is_trimmed(b) && is_trimmed(e));
    lemma_trimmed_fixed(o);
    lemma_trimmed_fixed(c);
    lemma_trimmed_fixed(b);
    lemma_trimmed_fixed(e);
    assert(o.take(6) =~= o);
    assert(c.take(3) =~= c);
    assert(starts_with(o, o));
    assert(starts_with(c, c));
    assert(!starts_with(b, o)) by {
        if starts_with(b, o) {
            assert(b.take(6)[0] == o[0]);
        }
    }
    assert(!starts_with(e, o)) by {
        if starts_with(e, o) {
            assert(e.take(6)[0] == o[0]);
        }
    }
    assert(b != e);
    assert("```sql\n"@ =~= o + seq!['\n']);
    assert("\n```\n"@ =~= seq!['\n'] + c + seq!['\n']);
    assert("<!-- BEGIN SQL -->\n"@ =~= b + seq!['\n']);
    assert("<!-- END SQL -->\n"@ =~= e + seq!['\n']);
}

/// A rendering is the text of its lines.
pub proof fn lemma_rendering_is_lines(sql: Seq<char>, query: Seq<Seq<char>>, table: Seq<Seq<char>>)
    requires
        with_feeds(query) == sql + seq!['\n'],
    ensures
        rendering_of(sql, table) == with_feeds(rendering_lines(query, table)),
{
    lemma_fixed_lines();
    let o = seq![open_fence()];
    let cb = seq![close_fence(), begin_marker()];
    let e = seq![end_marker()];
    assert(with_feeds(o) =~= open_fence() + seq!['\n']) by {
        assert(o.drop_last() =~= Seq::<Seq<char>>::empty());
        assert(with_feeds(Seq::<Seq<char>>::empty()) =~= Seq::<char>::empty());
    }
    assert(with_feeds(e) =~= end_marker() + seq!['\n']) by {
        assert(e.drop_last() =~= Seq::<Seq<char>>::empty());
        assert(with_feeds(Seq::<Seq<char>>::empty()) =~= Seq::<char>::empty());
    }
    assert(with_feeds(cb) =~= close_fence() + seq!['\n'] + begin_marker() + seq!['\n']) by {
        assert(cb.drop_last() =~= seq![close_fence()]);
        assert(seq![close_fence()].drop_last() =~= Seq::<Seq<char>>::empty());
        assert(with_feeds(Seq::<Seq<char>>::empty()) =~= Seq::<char>::empty());
        assert(with_feeds(seq![close_fence()]) =~= close_fence() + seq!['\n']);
    }
    lemma_with_feeds_concat(o, query);
    lemma_with_feeds_concat(o + query, cb);
    lemma_with_feeds_concat(o + query + cb, table);
    lemma_with_feeds_concat(o + query + cb + table, e);
    assert(rendering_of(sql, table) =~= with_feeds(o) + with_feeds(query) + with_feeds(cb)
        + with_feeds(table) + with_feeds(e));
}

/// A rendering of a query that reads back, followed by any text, begins
/// with a block that takes up exactly the rendering and has that query.
pub proof fn lemma_rendering_reads_back(
    sql: Seq<char>,
    query: Seq<Seq<char>>,
    table: Seq<Seq<char>>,
    z: Seq<char>,
)
    requires
        trim(sql + seq!['\n']) == sql,
        query_lines(sql, query),
        table_lines_ok(table),
    ensures
        ends_lines(rendering_of(sql, table)),
        line_texts(rendering_of(sql, table)) == rendering_lines(query, table),
        line_texts(rendering_of(sql, table) + z) == rendering_lines(query, table) + line_texts(z),
        is_sql_open((rendering_lines(query, table) + line_texts(z))[0]),
        block_at(rendering_lines(query, table) + line_texts(z), 0) == (BlockSpan {
            first: 0,
            close: 1 + query.len() as int,
            after: rendering_lines(query, table).len() as int,
        }),
        trim(
            with_feeds(
                (rendering_lines(query, table) + line_texts(z)).subrange(
                    1,
                    1 + query.len() as int,
                ),
            ),
        ) == sql,
{
    lemma_fixed_lines();
    let r = rendering_of(sql, table);
    let rl = rendering_lines(query, table);
    let m = rl.len() as int;
    let q = query.len() as int;
    let t = table.len() as int;
    lemma_rendering_is_lines(sql, query, table);
    assert(m == q + t + 4);
    assert forall|i: int| 0 <= i < m implies #[trigger] rl[i] == (if i == 0 {
        open_fence()
    } else if i <= q {
        query[i - 1]
    } else if i == q + 1 {
        close_fence()
    } else if i == q + 2 {
        begin_marker()
    } else if i < m - 1 {
        table[i - q - 3]
    } else {
        end_marker()
    }) by {}
    assert forall|i: int| 0 <= i < m implies is_line(#[trigger] rl[i]) by {
        if 0 < i <= q {
            assert(is_line(query[i - 1]));
        } else if q + 2 < i < m - 1 {
            assert(is_line(table[i - q - 3]));
        }
    }
    lemma_lines_of_feeds(rl);
    lemma_lines_of_parts(r, z);
    let all = rl + line_texts(z);
    assert forall|i: int| 0 <= i < m implies #[trigger] all[i] == rl[i] by {}
    assert(all[0] == open_fence());
    assert forall|j: int| 1 <= j < 1 + q implies !is_fence(#[trigger] all[j]) by {
        assert(all[j] == query[j - 1]);
    }
    assert(all[1 + q] == close_fence());
    lemma_body_end_is(all, 1, 1 + q);
    assert forall|j: int| q + 2 <= j < m implies !is_sql_open(#[trigger] all[j]) by {
        assert(all[j] == rl[j]);
        if q + 2 < j < m - 1 {
            assert(!is_sql_open(table[j - q - 3]));
        }
    }
    assert forall|j: int| q + 2 <= j < m - 1 implies !is_end_marker(#[trigger] all[j]) by {
        assert(all[j] == rl[j]);
        if q + 2 < j {
            assert(!is_end_marker(table[j - q - 3]));
        }
    }
    assert(all[m - 1] == end_marker());
    lemma_reach_end_is(all, q + 2, m);
    assert(all.subrange(1, 1 + q) =~= query);
}

} // verus!
