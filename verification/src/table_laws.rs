//! The rendering of a query result is a clean rendering, if no name of a
//! column and no cell holds a line feed.
use vstd::prelude::*;
use crate::line_laws::{is_line, lemma_with_feeds_concat};
use crate::query_laws::queries_are_plain;
use crate::render_laws::{is_clean_rendering, rendering_of, table_lines_ok};
use crate::rewrite_laws::{lemma_rewrite_is_idempotent, marker_behind_blocks, rewritten};
use crate::split::join;
use crate::sql_blocks::{
    is_begin_marker, is_end_marker, is_sql_open, sql_blocks, toc_marker, with_feeds,
};
use crate::sql_render::{
    rendered, row_cells, rows_text, separator_line, stem_at, table_line, QueryView,
};
use crate::text::{contains_text, is_space, is_trimmed, lemma_trimmed_fixed, starts_with, trim};

verus! {

/// A text without line feed.
pub open spec fn is_plain(t: Seq<char>) -> bool {
    !t.contains('\n')
}

/// Plain texts joined by a plain separator are plain.
pub proof fn lemma_join_is_plain(parts: Seq<Seq<char>>, sep: Seq<char>)
    requires
        is_plain(sep),
        forall|i: int| 0 <= i < parts.len() ==> is_plain(#[trigger] parts[i]),
    ensures
        is_plain(join(parts, sep)),
    decreases parts.len(),
{
    let j = join(parts, sep);
    if parts.len() == 0 {
        if j.contains('\n') {
            let k = choose|k: int| 0 <= k < j.len() && j[k] == '\n';
        }
    } else if parts.len() == 1 {
        assert(is_plain(parts[0]));
    } else {
        let init = parts.drop_last();
        assert forall|i: int| 0 <= i < init.len() implies is_plain(#[trigger] init[i]) by {
            assert(init[i] == parts[i]);
        }
        lemma_join_is_plain(init, sep);
        let h = join(init, sep);
        let l = parts.last();
        assert(is_plain(l));
        if j.contains('\n') {
            let k = choose|k: int| 0 <= k < j.len() && j[k] == '\n';
            if k < h.len() {
                assert(h[k] == '\n');
                assert(h.contains('\n'));
            } else if k < h.len() + sep.len() {
                assert(sep[k - h.len()] == '\n');
                assert(sep.contains('\n'));
            } else {
                assert(l[k - h.len() - sep.len()] == '\n');
                assert(l.contains('\n'));
            }
        }
    }
}

/// A plain text between two bars is a line that opens no block and is no
/// marker.
pub proof fn lemma_bar_line(left: Seq<char>, inner: Seq<char>, right: Seq<char>)
    requires
        is_plain(left),
        is_plain(inner),
        is_plain(right),
        left.len() > 0,
        right.len() > 0,
        left[0] == '|',
        right.last() == '|',
    ensures
        is_line(left + inner + right),
        !is_sql_open(left + inner + right),
        !is_end_marker(left + inner + right),
        !is_begin_marker(left + inner + right),
{
    reveal_strlit("```sql");
    reveal_strlit("<!-- END SQL -->");
    reveal_strlit("<!-- BEGIN SQL -->");
    let l = left + inner + right;
    assert(l[0] == '|');
    assert(l.last() == '|');
    assert(!is_space('|'));
    assert(is_trimmed(l));
    lemma_trimmed_fixed(l);
    if l.contains('\n') {
        let k = choose|k: int| 0 <= k < l.len() && l[k] == '\n';
        if k < left.len() {
            assert(left[k] == '\n');
            assert(left.contains('\n'));
        } else if k < left.len() + inner.len() {
            assert(inner[k - left.len()] == '\n');
            assert(inner.contains('\n'));
        } else {
            assert(right[k - left.len() - inner.len()] == '\n');
            assert(right.contains('\n'));
        }
    }
    if starts_with(l, "```sql"@) {
        assert(l.take(6)[0] == "```sql"@[0]);
    }
    if l == "<!-- END SQL -->"@ {
        assert("<!-- END SQL -->"@[0] == '<');
    }
    if l == "<!-- BEGIN SQL -->"@ {
        assert("<!-- BEGIN SQL -->"@[0] == '<');
    }
}

/// No name of a column and no cell of the result holds a line feed.
pub open spec fn is_plain_result(q: QueryView, stems: Seq<Seq<char>>, file_type: Seq<char>) -> bool {
    &&& forall|i: int| 0 <= i < q.columns.len() ==> is_plain(#[trigger] q.columns[i])
    &&& forall|k: int, i: int|
        0 <= k < q.rows.len() && 0 <= i < q.columns.len() ==> is_plain(
            #[trigger] row_cells(q.rows[k], q.columns, stem_at(stems, k), file_type)[i],
        )
}

/// The line of the table for row `k`, without its line feed.
pub open spec fn row_line(q: QueryView, stems: Seq<Seq<char>>, file_type: Seq<char>, k: int) -> Seq<
    char,
> {
    "| "@ + join(row_cells(q.rows[k], q.columns, stem_at(stems, k), file_type), " | "@) + " |"@
}

/// The lines of the table of a result: the header, the separator, and a
/// line for each row.
pub open spec fn table_of(q: QueryView, stems: Seq<Seq<char>>, file_type: Seq<char>) -> Seq<
    Seq<char>,
> {
    seq![
        "| "@ + join(q.columns, " | "@) + " |"@,
        "|"@ + join(Seq::new(q.columns.len(), |i: int| "---"@), "|"@) + "|"@,
    ] + Seq::new(q.rows.len(), |k: int| row_line(q, stems, file_type, k))
}

/// The lines of the first `k` rows, each with its line feed.
proof fn lemma_rows_text(q: QueryView, stems: Seq<Seq<char>>, file_type: Seq<char>, k: int)
    requires
        0 <= k <= q.rows.len(),
    ensures
        rows_text(q, stems, file_type, k) == with_feeds(
            Seq::new(k as nat, |j: int| row_line(q, stems, file_type, j)),
        ),
    decreases k,
{
    reveal_strlit(" |");
    reveal_strlit(" |\n");
    let rows = Seq::new(k as nat, |j: int| row_line(q, stems, file_type, j));
    if k > 0 {
        lemma_rows_text(q, stems, file_type, k - 1);
        let init = Seq::new((k - 1) as nat, |j: int| row_line(q, stems, file_type, j));
        assert(rows.drop_last() =~= init);
        assert(rows.last() == row_line(q, stems, file_type, k - 1));
        assert(" |\n"@ =~= " |"@ + seq!['\n']);
        let cells = row_cells(q.rows[k - 1], q.columns, stem_at(stems, k - 1), file_type);
        assert(table_line(cells) =~= row_line(q, stems, file_type, k - 1) + seq!['\n']);
        assert(rows_text(q, stems, file_type, k) =~= with_feeds(rows));
    } else {
        assert(rows =~= Seq::<Seq<char>>::empty());
    }
}

/// The rendering of a query with a plain result is a clean rendering.
pub proof fn lemma_rendered_is_clean(
    sql: Seq<char>,
    q: QueryView,
    stems: Seq<Seq<char>>,
    file_type: Seq<char>,
)
    requires
        is_plain_result(q, stems, file_type),
    ensures
        is_clean_rendering(rendered(sql, q, stems, file_type), sql),
{
    reveal_strlit("| ");
    reveal_strlit(" | ");
    reveal_strlit(" |");
    reveal_strlit(" |\n");
    reveal_strlit("|");
    reveal_strlit("|\n");
    reveal_strlit("---");
    let bar_open = "| "@;
    let bar_mid = " | "@;
    let bar_close = " |"@;
    let bar = "|"@;
    let dashes = Seq::new(q.columns.len(), |i: int| "---"@);
    assert(is_plain(bar_open) && is_plain(bar_mid) && is_plain(bar_close) && is_plain(bar)) by {
        if bar_open.contains('\n') {
            let k = choose|k: int| 0 <= k < bar_open.len() && bar_open[k] == '\n';
            assert(k == 0 || k == 1);
        }
        if bar_mid.contains('\n') {
            let k = choose|k: int| 0 <= k < bar_mid.len() && bar_mid[k] == '\n';
            assert(k == 0 || k == 1 || k == 2);
        }
        if bar_close.contains('\n') {
            let k = choose|k: int| 0 <= k < bar_close.len() && bar_close[k] == '\n';
            assert(k == 0 || k == 1);
        }
        if bar.contains('\n') {
            let k = choose|k: int| 0 <= k < bar.len() && bar[k] == '\n';
            assert(k == 0);
        }
    }
    assert forall|i: int| 0 <= i < dashes.len() implies is_plain(#[trigger] dashes[i]) by {
        let d = "---"@;
        if d.contains('\n') {
            let k = choose|k: int| 0 <= k < d.len() && d[k] == '\n';
            assert(k == 0 || k == 1 || k == 2);
        }
    }
    let table = table_of(q, stems, file_type);
    let header = "| "@ + join(q.columns, " | "@) + " |"@;
    let separator = "|"@ + join(dashes, "|"@) + "|"@;
    let rows = Seq::new(q.rows.len(), |k: int| row_line(q, stems, file_type, k));
    lemma_join_is_plain(q.columns, bar_mid);
    lemma_bar_line(bar_open, join(q.columns, bar_mid), bar_close);
    lemma_join_is_plain(dashes, bar);
    lemma_bar_line(bar, join(dashes, bar), bar);
    assert forall|i: int| 0 <= i < table.len() implies is_line(#[trigger] table[i]) && !is_sql_open(
        table[i],
    ) && !is_end_marker(table[i]) && !is_begin_marker(table[i]) by {
        if i >= 2 {
            let k = i - 2;
            assert(table[i] == rows[k]);
            let cells = row_cells(q.rows[k], q.columns, stem_at(stems, k), file_type);
            assert forall|c: int| 0 <= c < cells.len() implies is_plain(#[trigger] cells[c]) by {}
            lemma_join_is_plain(cells, bar_mid);
            lemma_bar_line(bar_open, join(cells, bar_mid), bar_close);
        } else if i == 0 {
            assert(table[i] == header);
        } else {
            assert(table[i] == separator);
        }
    }
    assert(table_lines_ok(table));
    let top = seq![header, separator];
    lemma_with_feeds_concat(top, rows);
    lemma_rows_text(q, stems, file_type, q.rows.len() as int);
    assert(with_feeds(top) =~= header + seq!['\n'] + separator + seq!['\n']) by {
        assert(top.drop_last() =~= seq![header]);
        assert(seq![header].drop_last() =~= Seq::<Seq<char>>::empty());
        assert(with_feeds(Seq::<Seq<char>>::empty()) =~= Seq::<char>::empty());
        assert(with_feeds(seq![header]) =~= header + seq!['\n']);
    }
    assert(" |\n"@ =~= " |"@ + seq!['\n']);
    assert("|\n"@ =~= "|"@ + seq!['\n']);
    assert(table_line(q.columns) =~= header + seq!['\n']);
    assert(separator_line(q.columns.len() as int) =~= separator + seq!['\n']);
    assert(with_feeds(table) =~= table_line(q.columns) + separator_line(q.columns.len() as int)
        + rows_text(q, stems, file_type, q.rows.len() as int));
    assert(rendering_of(sql, table) =~= rendered(sql, q, stems, file_type));
}

/// The rendering of each query of the note by the results `results`, the
/// file stems `stems` and the extension `file_type`.
pub open spec fn rendering_by(
    results: spec_fn(Seq<char>) -> QueryView,
    stems: spec_fn(Seq<char>) -> Seq<Seq<char>>,
    file_type: Seq<char>,
) -> spec_fn(Seq<char>) -> Seq<char> {
    |sql: Seq<char>| rendered(sql, results(sql), stems(sql), file_type)
}

/// Rendering the query blocks of a note twice in a row, with a store that
/// gives the same result for the same query, gives what one pass gives.
///
/// This holds of every note with plain queries in which no
/// table-of-contents marker stands before the end of a query block, where
/// no name of a column and no cell of a result holds a line feed and no
/// rendering holds a table-of-contents marker.
pub proof fn lemma_rendering_twice(
    s: Seq<char>,
    results: spec_fn(Seq<char>) -> QueryView,
    stems: spec_fn(Seq<char>) -> Seq<Seq<char>>,
    file_type: Seq<char>,
)
    requires
        queries_are_plain(s),
        marker_behind_blocks(s),
        forall|k: int|
            0 <= k < sql_blocks(s).len() ==> is_plain_result(
                results((#[trigger] sql_blocks(s)[k]).sql),
                stems(sql_blocks(s)[k].sql),
                file_type,
            ) && !contains_text(
                rendered(
                    sql_blocks(s)[k].sql,
                    results(sql_blocks(s)[k].sql),
                    stems(sql_blocks(s)[k].sql),
                    file_type,
                ),
                toc_marker(),
            ),
    ensures
        rewritten(
            rewritten(s, rendering_by(results, stems, file_type)),
            rendering_by(results, stems, file_type),
        ) == rewritten(s, rendering_by(results, stems, file_type)),
{
    let render = rendering_by(results, stems, file_type);
    let blocks = sql_blocks(s);
    assert forall|k: int| 0 <= k < blocks.len() implies is_clean_rendering(
        render((#[trigger] blocks[k]).sql),
        blocks[k].sql,
    ) && !contains_text(render(blocks[k].sql), toc_marker()) by {
        let sql = blocks[k].sql;
        lemma_rendered_is_clean(sql, results(sql), stems(sql), file_type);
    }
    lemma_rewrite_is_idempotent(s, render);
}

} // verus!
