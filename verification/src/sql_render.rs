//! Rendering the result of a query as a Markdown table, and putting the
//! rendered blocks in the place of the query blocks of a note.
use vstd::prelude::*;
use vstd::string::StringSliceAdditionalSpecFns;
use crate::fields::FieldMap;
use crate::metadata::lookup;
use crate::split::{join, join_chars, str_views, views};
use crate::sql_blocks::{
    blocks_in_order, byte_len, extract_blocks, extract_sql_blocks, sql_blocks, block_views,
    BlockView, SqlBlock,
};
use crate::text::{copy_range, from_chars, push_all, push_str, str_eq, to_chars, trim, trim_chars};
use crate::utils::path_file_stem;

verus! {

/// What a query gave: the names of the columns, and for each row the value
/// of each column.
pub struct QueryResult {
    pub columns: Vec<String>,
    pub rows: Vec<FieldMap>,
}

/// The result of a query as plain values.
pub struct QueryView {
    pub columns: Seq<Seq<char>>,
    pub rows: Seq<Map<Seq<char>, Seq<char>>>,
}

impl View for QueryResult {
    type V = QueryView;

    open spec fn view(&self) -> QueryView {
        QueryView {
            columns: str_views(self.columns@),
            rows: Seq::new(self.rows@.len(), |i: int| self.rows@[i]@),
        }
    }
}

/// The value of `column` in `row`, or the empty text.
pub open spec fn value_of(row: Map<Seq<char>, Seq<char>>, column: Seq<char>) -> Seq<char> {
    match lookup(row, column) {
        Some(v) => v,
        None => Seq::empty(),
    }
}

/// A cell of the table. The column `path` holds a link to the note with
/// the file stem `stem`, by a path relative to the note directory; any
/// other column holds the trimmed value.
pub open spec fn cell(
    row: Map<Seq<char>, Seq<char>>,
    column: Seq<char>,
    stem: Seq<char>,
    file_type: Seq<char>,
) -> Seq<char> {
    if column == "path"@ {
        "["@ + stem + "](./"@ + stem + "."@ + file_type + ")"@
    } else {
        trim(value_of(row, column))
    }
}

/// The cells of a row, one for each column.
pub open spec fn row_cells(
    row: Map<Seq<char>, Seq<char>>,
    columns: Seq<Seq<char>>,
    stem: Seq<char>,
    file_type: Seq<char>,
) -> Seq<Seq<char>> {
    Seq::new(columns.len(), |i: int| cell(row, columns[i], stem, file_type))
}

/// A line of the table with the given cells.
pub open spec fn table_line(cells: Seq<Seq<char>>) -> Seq<char> {
    "| "@ + join(cells, " | "@) + " |\n"@
}

/// The line under the header: three dashes for each column.
pub open spec fn separator_line(columns: int) -> Seq<char> {
    "|"@ + join(Seq::new(columns as nat, |i: int| "---"@), "|"@) + "|\n"@
}

/// The file stem of row `k`, or the empty text where none is given.
pub open spec fn stem_at(stems: Seq<Seq<char>>, k: int) -> Seq<char> {
    if 0 <= k < stems.len() {
        stems[k]
    } else {
        Seq::empty()
    }
}

/// The lines of the first `k` rows.
pub open spec fn rows_text(q: QueryView, stems: Seq<Seq<char>>, file_type: Seq<char>, k: int) -> Seq<
    char,
>
    decreases k,
{
    if k <= 0 {
        Seq::empty()
    } else {
        rows_text(q, stems, file_type, k - 1) + table_line(
            row_cells(q.rows[k - 1], q.columns, stem_at(stems, k - 1), file_type),
        )
    }
}

/// The rendering of a query block: the fenced query, the marker that
/// begins the result, the header of the table, the separator, a line for
/// each row, and the marker that ends the result.
pub open spec fn rendered(
    sql: Seq<char>,
    q: QueryView,
    stems: Seq<Seq<char>>,
    file_type: Seq<char>,
) -> Seq<char> {
    "```sql\n"@ + sql + "\n```\n"@ + "<!-- BEGIN SQL -->\n"@ + table_line(q.columns)
        + separator_line(q.columns.len() as int) + rows_text(q, stems, file_type, q.rows.len() as int)
        + "<!-- END SQL -->\n"@
}

/// `text` is the rendering of the query with some file stem for each row.
pub open spec fn is_rendering(
    text: Seq<char>,
    sql: Seq<char>,
    q: QueryView,
    file_type: Seq<char>,
) -> bool {
    exists|stems: Seq<Seq<char>>| stems.len() == q.rows.len() && #[trigger] rendered(
        sql,
        q,
        stems,
        file_type,
    ) == text
}

/// Where block `k` may begin at the earliest: at the end of the block
/// before it.
pub open spec fn prev_end(blocks: Seq<BlockView>, k: int) -> int {
    if 0 < k <= blocks.len() {
        blocks[k - 1].chars.1
    } else {
        0
    }
}

/// The rewritten text up to the end of block `k - 1`: for each block the
/// text between the block before it and itself, and then its replacement.
pub open spec fn rewritten_upto(
    s: Seq<char>,
    blocks: Seq<BlockView>,
    replacements: Seq<Seq<char>>,
    k: int,
) -> Seq<char>
    decreases k,
{
    if k <= 0 {
        Seq::empty()
    } else {
        rewritten_upto(s, blocks, replacements, k - 1) + s.subrange(
            prev_end(blocks, k - 1),
            blocks[k - 1].chars.0,
        ) + replacements[k - 1]
    }
}

/// The text `s` with each block replaced by its replacement; what stands
/// outside the blocks stays.
pub open spec fn spliced(s: Seq<char>, blocks: Seq<BlockView>, replacements: Seq<Seq<char>>) -> Seq<
    char,
> {
    rewritten_upto(s, blocks, replacements, blocks.len() as int) + s.skip(
        prev_end(blocks, blocks.len() as int),
    )
}

/// Renders one cell.
fn render_cell(row: &FieldMap, column: &String, stem: &str, file_type: &str) -> (r: Vec<char>)
    ensures
        r@ == cell(row@, column@, stem@, file_type@),
{
    if str_eq(column.as_str(), "path") {
        let mut out = to_chars("[");
        push_str(&mut out, stem);
        push_str(&mut out, "](./");
        push_str(&mut out, stem);
        push_str(&mut out, ".");
        push_str(&mut out, file_type);
        push_str(&mut out, ")");
        out
    } else {
        match row.get(column.as_str()) {
            Some(v) => trim_chars(&to_chars(v.as_str())),
            None => {
                let nothing: Vec<char> = Vec::new();
                trim_chars(&nothing)
            },
        }
    }
}

/// Appends a line of the table with the given cells.
fn push_table_line(out: &mut Vec<char>, cells: &Vec<Vec<char>>)
    ensures
        final(out)@ == old(out)@ + table_line(views(cells@)),
{
    let ghost before = out@;
    push_str(out, "| ");
    push_all(out, &join_chars(cells, &to_chars(" | ")));
    push_str(out, " |\n");
    assert(out@ == before + table_line(views(cells@)));
}

/// The rendering of the query `sql` with the result `result`, where the
/// `path` of row `k` has the file stem `stems[k]`.
pub fn render_block(sql: &str, result: &QueryResult, stems: &Vec<String>, file_type: &str) -> (r:
    String)
    ensures
        r@ == rendered(sql@, result@, str_views(stems@), file_type@),
{
    let ghost q = result@;
    let ghost st = str_views(stems@);
    let mut out = to_chars("```sql\n");
    push_str(&mut out, sql);
    push_str(&mut out, "\n```\n");
    push_str(&mut out, "<!-- BEGIN SQL -->\n");
    // header
    let mut names: Vec<Vec<char>> = Vec::new();
    let mut dashes: Vec<Vec<char>> = Vec::new();
    let mut c: usize = 0;
    while c < result.columns.len()
        invariant
            c <= result.columns.len(),
            names@.len() == c,
            dashes@.len() == c,
            forall|j: int| 0 <= j < c ==> (#[trigger] names@[j])@ == result.columns@[j]@,
            forall|j: int| 0 <= j < c ==> (#[trigger] dashes@[j])@ == "---"@,
        decreases result.columns.len() - c,
    {
        names.push(to_chars(result.columns[c].as_str()));
        dashes.push(to_chars("---"));
        c += 1;
    }
    assert(views(names@) =~= q.columns);
    assert(views(dashes@) =~= Seq::new(q.columns.len(), |i: int| "---"@));
    push_table_line(&mut out, &names);
    let ghost before_sep = out@;
    push_str(&mut out, "|");
    push_all(&mut out, &join_chars(&dashes, &to_chars("|")));
    push_str(&mut out, "|\n");
    assert(out@ == before_sep + separator_line(q.columns.len() as int));
    let ghost head = out@;
    // rows
    let mut k: usize = 0;
    assert(head + rows_text(q, st, file_type@, 0) == head);
    while k < result.rows.len()
        invariant
            k <= result.rows.len(),
            q == result@,
            st == str_views(stems@),
            out@ == head + rows_text(q, st, file_type@, k as int),
        decreases result.rows.len() - k,
    {
        let empty = String::new();
        let stem: &String = if k < stems.len() {
            &stems[k]
        } else {
            &empty
        };
        assert(stem@ == stem_at(st, k as int));
        let row = &result.rows[k];
        let mut cells: Vec<Vec<char>> = Vec::new();
        let mut c: usize = 0;
        while c < result.columns.len()
            invariant
                c <= result.columns.len(),
                cells@.len() == c,
                forall|j: int|
                    0 <= j < c ==> (#[trigger] cells@[j])@ == cell(
                        row@,
                        result.columns@[j]@,
                        stem@,
                        file_type@,
                    ),
            decreases result.columns.len() - c,
        {
            cells.push(render_cell(row, &result.columns[c], stem.as_str(), file_type));
            c += 1;
        }
        assert(views(cells@) =~= row_cells(q.rows[k as int], q.columns, stem@, file_type@));
        let ghost before = out@;
        push_table_line(&mut out, &cells);
        assert(out@ == head + (rows_text(q, st, file_type@, k as int) + table_line(views(cells@))));
        k += 1;
    }
    push_str(&mut out, "<!-- END SQL -->\n");
    from_chars(&out)
}

/// The file stem of the `path` of each row of the result.
pub fn path_stems(result: &QueryResult) -> (r: Vec<String>)
    ensures
        r@.len() == result@.rows.len(),
{
    let mut r: Vec<String> = Vec::new();
    let mut k: usize = 0;
    while k < result.rows.len()
        invariant
            k <= result.rows.len(),
            r@.len() == k,
        decreases result.rows.len() - k,
    {
        let stem = match result.rows[k].get("path") {
            Some(path) => path_file_stem(path.as_str()),
            None => path_file_stem(""),
        };
        match stem {
            Some(s) => r.push(s),
            None => r.push(String::new()),
        }
        k += 1;
    }
    r
}

/// The rendering of the query `sql` with the result `result`; a `path` is
/// shown by the stem of its file name.
pub fn render_result(sql: &str, result: &QueryResult, file_type: &str) -> (r: String)
    ensures
        is_rendering(r@, sql@, result@, file_type@),
{
    let stems = path_stems(result);
    let r = render_block(sql, result, &stems, file_type);
    assert(rendered(sql@, result@, str_views(stems@), file_type@) == r@);
    r
}

/// Puts the replacements in the place of the blocks of `s`, which stand in
/// order within `s`.
fn splice(s: &Vec<char>, blocks: &Vec<SqlBlock>, replacements: &Vec<String>) -> (r: Vec<char>)
    requires
        blocks_in_order(block_views(blocks@), s@.len() as int),
        replacements@.len() == blocks@.len(),
    ensures
        r@ == spliced(s@, block_views(blocks@), str_views(replacements@)),
{
    let ghost bs = block_views(blocks@);
    let ghost reps = str_views(replacements@);
    let mut out: Vec<char> = Vec::new();
    let mut pos: usize = 0;
    let mut k: usize = 0;
    while k < blocks.len()
        invariant
            k <= blocks.len(),
            bs == block_views(blocks@),
            reps == str_views(replacements@),
            replacements@.len() == blocks@.len(),
            blocks_in_order(bs, s@.len() as int),
            pos == prev_end(bs, k as int),
            pos <= s@.len(),
            out@ == rewritten_upto(s@, bs, reps, k as int),
        decreases blocks.len() - k,
    {
        let start = blocks[k].chars.0;
        let end = blocks[k].chars.1;
        proof {
            assert(bs[k as int] == blocks@[k as int]@);
            if k > 0 {
                assert(bs[k - 1].chars.1 <= bs[k as int].chars.0);
            }
        }
        push_all(&mut out, &copy_range(s, pos, start));
        push_str(&mut out, replacements[k].as_str());
        pos = end;
        k += 1;
    }
    push_all(&mut out, &copy_range(s, pos, s.len()));
    assert(s@.subrange(pos as int, s@.len() as int) == s@.skip(pos as int));
    out
}

/// The note body `content` with each of its query blocks replaced by the
/// replacement given for it, in the order of the blocks. `None`: there are
/// not as many replacements as blocks.
pub fn replace_blocks(content: &str, replacements: &Vec<String>) -> (r: Option<String>)
    ensures
        match r {
            Some(text) => replacements@.len() == sql_blocks(content@).len() && text@ == spliced(
                content@,
                sql_blocks(content@),
                str_views(replacements@),
            ),
            None => replacements@.len() != sql_blocks(content@).len(),
        },
{
    let total = content.as_bytes().len();
    let chars = to_chars(content);
    assert(byte_len(chars@) == total) by {
        assert(content.spec_bytes() == vstd::utf8::encode_utf8(content@));
    }
    let blocks = extract_blocks(&chars);
    if blocks.len() != replacements.len() {
        return None;
    }
    Some(from_chars(&splice(&chars, &blocks, replacements)))
}

/// Renders the result of each query block of `content` and puts the
/// renderings in the place of the blocks; `results` holds the result of
/// each block, in the order of the blocks. A body without query blocks
/// stays as it is. `None`: there are not as many results as blocks.
pub fn process_sql_blocks(content: &str, results: &Vec<QueryResult>, file_type: &str) -> (r:
    Option<String>)
    ensures
        r is Some <==> results@.len() == sql_blocks(content@).len(),
        match r {
            Some(text) => exists|replacements: Seq<Seq<char>>|
                replacements.len() == results@.len() && (forall|k: int|
                    0 <= k < replacements.len() ==> is_rendering(
                        #[trigger] replacements[k],
                        sql_blocks(content@)[k].sql,
                        results@[k]@,
                        file_type@,
                    )) && #[trigger] spliced(content@, sql_blocks(content@), replacements) == text@,
            None => true,
        },
{
    let blocks = extract_sql_blocks(content);
    if blocks.len() != results.len() {
        return None;
    }
    let mut replacements: Vec<String> = Vec::new();
    let mut k: usize = 0;
    while k < blocks.len()
        invariant
            k <= blocks.len(),
            blocks@.len() == results@.len(),
            block_views(blocks@) == sql_blocks(content@),
            replacements@.len() == k,
            forall|j: int|
                0 <= j < k ==> is_rendering(
                    #[trigger] str_views(replacements@)[j],
                    sql_blocks(content@)[j].sql,
                    results@[j]@,
                    file_type@,
                ),
        decreases blocks.len() - k,
    {
        let ghost before = str_views(replacements@);
        let text = render_result(blocks[k].sql.as_str(), &results[k], file_type);
        proof {
            assert(block_views(blocks@)[k as int] == blocks@[k as int]@);
        }
        replacements.push(text);
        assert(str_views(replacements@) =~= before.push(text@));
        k += 1;
    }
    let r = replace_blocks(content, &replacements);
    proof {
        let reps = str_views(replacements@);
        assert(spliced(content@, sql_blocks(content@), reps) == r->Some_0@);
    }
    r
}

/// The rendering of a result without a column `path` is the same whatever
/// the file stems are: it depends on the query and its result alone.
pub proof fn lemma_rendering_without_path(
    sql: Seq<char>,
    q: QueryView,
    a: Seq<Seq<char>>,
    b: Seq<Seq<char>>,
    file_type: Seq<char>,
)
    requires
        !q.columns.contains("path"@),
    ensures
        rendered(sql, q, a, file_type) == rendered(sql, q, b, file_type),
{
    lemma_rows_without_path(q, a, b, file_type, q.rows.len() as int);
}

/// The lines of the rows of a result without a column `path` are the same
/// whatever the file stems are.
pub proof fn lemma_rows_without_path(
    q: QueryView,
    a: Seq<Seq<char>>,
    b: Seq<Seq<char>>,
    file_type: Seq<char>,
    k: int,
)
    requires
        !q.columns.contains("path"@),
    ensures
        rows_text(q, a, file_type, k) == rows_text(q, b, file_type, k),
    decreases k,
{
    if k > 0 {
        lemma_rows_without_path(q, a, b, file_type, k - 1);
        let row = q.rows[k - 1];
        let ca = row_cells(row, q.columns, stem_at(a, k - 1), file_type);
        let cb = row_cells(row, q.columns, stem_at(b, k - 1), file_type);
        assert forall|i: int| 0 <= i < q.columns.len() implies ca[i] == cb[i] by {
            assert(q.columns.contains(q.columns[i]));
        }
        assert(ca =~= cb);
    }
}

/// Two runs of the rewriter over the same note, in which each query gives
/// the same result, give the same text, where no result has a column
/// `path`. The cells of such a column hold the stem of a file name, which
/// the platform's rules for paths decide.
pub proof fn lemma_same_results_same_text(
    content: Seq<char>,
    results: Seq<QueryView>,
    file_type: Seq<char>,
    first: Seq<Seq<char>>,
    second: Seq<Seq<char>>,
)
    requires
        results.len() == sql_blocks(content).len(),
        first.len() == results.len(),
        second.len() == results.len(),
        forall|k: int| 0 <= k < results.len() ==> !(#[trigger] results[k]).columns.contains("path"@),
        forall|k: int|
            0 <= k < results.len() ==> is_rendering(
                #[trigger] first[k],
                sql_blocks(content)[k].sql,
                results[k],
                file_type,
            ),
        forall|k: int|
            0 <= k < results.len() ==> is_rendering(
                #[trigger] second[k],
                sql_blocks(content)[k].sql,
                results[k],
                file_type,
            ),
    ensures
        spliced(content, sql_blocks(content), first) == spliced(
            content,
            sql_blocks(content),
            second,
        ),
{
    assert forall|k: int| 0 <= k < results.len() implies first[k] == second[k] by {
        let sql = sql_blocks(content)[k].sql;
        let q = results[k];
        assert(is_rendering(first[k], sql, q, file_type));
        assert(is_rendering(second[k], sql, q, file_type));
        let a = choose|stems: Seq<Seq<char>>|
            stems.len() == q.rows.len() && #[trigger] rendered(sql, q, stems, file_type)
                == first[k];
        let b = choose|stems: Seq<Seq<char>>|
            stems.len() == q.rows.len() && #[trigger] rendered(sql, q, stems, file_type)
                == second[k];
        lemma_rendering_without_path(sql, q, a, b, file_type);
    }
    assert(first =~= second);
}

/// A note without query blocks is left as it is.
pub proof fn lemma_no_blocks_no_change(content: Seq<char>, replacements: Seq<Seq<char>>)
    requires
        sql_blocks(content).len() == 0,
    ensures
        spliced(content, sql_blocks(content), replacements) == content,
{
    assert(content.skip(0) == content);
    assert(Seq::<char>::empty() + content == content);
}

} // verus!
