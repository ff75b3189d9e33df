use noorg::fields::FieldMap;
use noorg::sql_blocks::{byte_offset, extract_sql_blocks};
use noorg::sql_render::{
    path_stems, process_sql_blocks, render_block, render_result, replace_blocks, QueryResult,
};

fn row(pairs: &[(&str, &str)]) -> FieldMap {
    let mut m = FieldMap::new();
    for (k, v) in pairs {
        m.insert(k.to_string(), v.to_string());
    }
    m
}

fn result(columns: &[&str], rows: Vec<FieldMap>) -> QueryResult {
    QueryResult { columns: columns.iter().map(|c| c.to_string()).collect(), rows }
}

fn count(text: &str, pat: &str) -> usize {
    text.matches(pat).count()
}

#[test]
fn no_blocks_in_plain_text() {
    assert!(extract_sql_blocks("# Title\n\nSome text\n").is_empty());
    assert!(extract_sql_blocks("").is_empty());
}

#[test]
fn block_without_rendering_reaches_to_the_end() {
    let text = "intro\n```sql\nSELECT 1\n```\ntrailing\n";
    let blocks = extract_sql_blocks(text);
    assert_eq!(blocks.len(), 1);
    assert_eq!(blocks[0].sql, "SELECT 1");
    assert_eq!(blocks[0].range, (6, text.len()));
}

#[test]
fn block_with_rendering_ends_after_the_end_marker() {
    let text = "a\n```sql\nSELECT 1\n```\n<!-- BEGIN SQL -->\n| x |\n<!-- END SQL -->\nafter\n";
    let blocks = extract_sql_blocks(text);
    assert_eq!(blocks.len(), 1);
    let (start, end) = blocks[0].range;
    assert_eq!(start, 2);
    assert_eq!(&text[end..], "after\n");
    assert!(text[start..end].ends_with("<!-- END SQL -->\n"));
}

#[test]
fn block_stops_before_the_next_opening_fence() {
    let text = "```sql\nq1\n```\nold\n```sql\nq2\n```\n";
    let blocks = extract_sql_blocks(text);
    assert_eq!(blocks.len(), 2);
    assert_eq!(blocks[0].sql, "q1");
    assert_eq!(blocks[1].sql, "q2");
    assert_eq!(&text[blocks[0].range.0..blocks[0].range.1], "```sql\nq1\n```\nold\n");
    assert_eq!(&text[blocks[1].range.0..blocks[1].range.1], "```sql\nq2\n```\n");
}

#[test]
fn byte_ranges_count_multi_byte_characters() {
    let text = "héllo wörld ☃\n```sql\nSELECT 'é'\n```\n<!-- END SQL -->\nπ\n";
    let blocks = extract_sql_blocks(text);
    assert_eq!(blocks.len(), 1);
    let (start, end) = blocks[0].range;
    assert_eq!(start, "héllo wörld ☃\n".len());
    assert!(text.is_char_boundary(start) && text.is_char_boundary(end));
    assert_eq!(&text[end..], "π\n");
    assert_eq!(blocks[0].chars.0, "héllo wörld ☃\n".chars().count());
    assert_eq!(blocks[0].sql, "SELECT 'é'");
}

#[test]
fn byte_offset_of_characters() {
    let chars: Vec<char> = "a€😀b".chars().collect();
    assert_eq!(byte_offset(&chars, 0), 0);
    assert_eq!(byte_offset(&chars, 1), 1);
    assert_eq!(byte_offset(&chars, 2), 4);
    assert_eq!(byte_offset(&chars, 3), 8);
    assert_eq!(byte_offset(&chars, 4), 9);
    let two: Vec<char> = "é".chars().collect();
    assert_eq!(byte_offset(&two, 1), 2);
}

#[test]
fn carriage_returns_are_counted_in_ranges() {
    let text = "x\r\n```sql\r\nSELECT 1\r\n```\r\n<!-- END SQL -->\r\nrest\r\n";
    let blocks = extract_sql_blocks(text);
    assert_eq!(blocks.len(), 1);
    assert_eq!(blocks[0].sql, "SELECT 1");
    assert_eq!(blocks[0].range.0, 3);
    assert_eq!(&text[blocks[0].range.1..], "rest\r\n");
}

#[test]
fn blocks_after_the_contents_marker_are_left_alone() {
    let text = "```sql\nq1\n```\n<!-- END SQL -->\n## Contents\n```sql\nq2\n```\n";
    let blocks = extract_sql_blocks(text);
    assert_eq!(blocks.len(), 1);
    assert_eq!(blocks[0].sql, "q1");
}

#[test]
fn indented_fence_opens_a_block_and_query_is_trimmed() {
    let text = "  ```sql title\n\n  SELECT a,\n    b\n\n  ```\n";
    let blocks = extract_sql_blocks(text);
    assert_eq!(blocks.len(), 1);
    assert_eq!(blocks[0].sql, "SELECT a,\n    b");
}

#[test]
fn block_without_closing_fence() {
    let text = "```sql\nSELECT 1";
    let blocks = extract_sql_blocks(text);
    assert_eq!(blocks.len(), 1);
    assert_eq!(blocks[0].sql, "SELECT 1");
    assert_eq!(blocks[0].range, (0, text.len()));
}

#[test]
fn render_block_lays_out_the_table() {
    let q = result(
        &["title", "path", "tags"],
        vec![
            row(&[("title", " Demo "), ("path", "/notes/Demo.md"), ("tags", "a, b")]),
            row(&[("title", "Other"), ("path", "/notes/Other%20One.md")]),
        ],
    );
    let stems = vec!["Demo".to_string(), "Other%20One".to_string()];
    let text = render_block("SELECT *", &q, &stems, "md");
    assert_eq!(
        text,
        "```sql\nSELECT *\n```\n<!-- BEGIN SQL -->\n| title | path | tags |\n|---|---|---|\n| Demo | [Demo](./Demo.md) | a, b |\n| Other | [Other%20One](./Other%20One.md) |  |\n<!-- END SQL -->\n"
    );
}

#[test]
fn render_block_with_no_columns_and_missing_stems() {
    let q = result(&[], vec![]);
    assert_eq!(
        render_block("q", &q, &Vec::new(), "md"),
        "```sql\nq\n```\n<!-- BEGIN SQL -->\n|  |\n||\n<!-- END SQL -->\n"
    );
    let q = result(&["path"], vec![row(&[("path", "x")])]);
    assert_eq!(
        render_block("q", &q, &Vec::new(), "txt"),
        "```sql\nq\n```\n<!-- BEGIN SQL -->\n| path |\n|---|\n| [](./.txt) |\n<!-- END SQL -->\n"
    );
}

#[test]
fn render_result_links_by_file_stem() {
    let q = result(&["path"], vec![row(&[("path", "/home/me/notes/My%20Note.md")]), row(&[])]);
    assert_eq!(path_stems(&q), vec!["My%20Note".to_string(), String::new()]);
    let text = render_result("q", &q, "md");
    assert!(text.contains("| [My%20Note](./My%20Note.md) |\n"));
    assert!(text.contains("| [](./.md) |\n"));
}

#[test]
fn rewrite_puts_one_marker_pair_with_the_header() {
    let text = "# Note\n\n```sql\nSELECT title, tags FROM notes\n```\n";
    let q = result(&["title", "tags"], vec![row(&[("title", "Demo"), ("tags", "a")])]);
    let out = process_sql_blocks(text, &vec![q], "md").unwrap();
    assert_eq!(count(&out, "<!-- BEGIN SQL -->"), 1);
    assert_eq!(count(&out, "<!-- END SQL -->"), 1);
    let begin = out.find("<!-- BEGIN SQL -->\n").unwrap() + "<!-- BEGIN SQL -->\n".len();
    let end = out.find("<!-- END SQL -->").unwrap();
    let table: Vec<&str> = out[begin..end].lines().collect();
    assert_eq!(table, vec!["| title | tags |", "|---|---|", "| Demo | a |"]);
    assert!(out.starts_with("# Note\n\n```sql\nSELECT title, tags FROM notes\n```\n"));
}

#[test]
fn rewrite_twice_gives_the_same_text() {
    let text = "intro\n```sql\nq1\n```\nstale\n```sql\nq2\n```\n<!-- BEGIN SQL -->\n| old |\n<!-- END SQL -->\ntail\n";
    let results = || {
        vec![
            result(&["a"], vec![row(&[("a", "1")])]),
            result(&["b", "c"], vec![row(&[("b", "2"), ("c", "3")]), row(&[("b", "4")])]),
        ]
    };
    let once = process_sql_blocks(text, &results(), "md").unwrap();
    let again = process_sql_blocks(text, &results(), "md").unwrap();
    assert_eq!(once, again);
    let twice = process_sql_blocks(&once, &results(), "md").unwrap();
    assert_eq!(twice, once);
    assert_eq!(
        once,
        "intro\n```sql\nq1\n```\n<!-- BEGIN SQL -->\n| a |\n|---|\n| 1 |\n<!-- END SQL -->\n```sql\nq2\n```\n<!-- BEGIN SQL -->\n| b | c |\n|---|---|\n| 2 | 3 |\n| 4 |  |\n<!-- END SQL -->\ntail\n"
    );
}

#[test]
fn rewrite_without_blocks_leaves_the_text() {
    let text = "nothing to see\n";
    assert_eq!(process_sql_blocks(text, &Vec::new(), "md"), Some(text.to_string()));
    assert_eq!(replace_blocks(text, &Vec::new()), Some(text.to_string()));
}

#[test]
fn rewrite_needs_a_result_for_each_block() {
    let text = "```sql\nq\n```\n";
    assert_eq!(process_sql_blocks(text, &Vec::new(), "md"), None);
    assert_eq!(replace_blocks(text, &vec!["a".to_string(), "b".to_string()]), None);
}

#[test]
fn replace_blocks_keeps_text_outside_blocks() {
    let text = "é before\n```sql\nq1\n```\n<!-- END SQL -->\nbetween ö\n```sql\nq2\n```\n<!-- END SQL -->\nafter ü";
    let out = replace_blocks(text, &vec!["<ONE>".to_string(), "<TWO>".to_string()]).unwrap();
    assert_eq!(out, "é before\n<ONE>between ö\n<TWO>after ü");
}

#[test]
fn rewrite_twice_with_carriage_returns_and_contents_behind_the_block() {
    let text = "# T\r\n```sql\r\nSELECT a\r\nFROM notes\r\n```\r\n<!-- BEGIN SQL -->\r\nold\r\n<!-- END SQL -->\r\n\r\n## Contents\r\n```sql\r\nSELECT b\r\n```\r\n";
    let results = vec![result(&["a"], vec![row(&[("a", "1")])])];
    let once = process_sql_blocks(text, &results, "md").unwrap();
    assert_eq!(
        once,
        "# T\r\n```sql\nSELECT a\nFROM notes\n```\n<!-- BEGIN SQL -->\n| a |\n|---|\n| 1 |\n<!-- END SQL -->\n\r\n## Contents\r\n```sql\r\nSELECT b\r\n```\r\n"
    );
    let twice = process_sql_blocks(&once, &results, "md").unwrap();
    assert_eq!(twice, once);
}

#[test]
fn rewrite_of_a_note_whose_contents_stand_first_changes_nothing() {
    let text = "## Contents\n- [a](#a)\n\n```sql\nSELECT 1\n```\n";
    assert_eq!(process_sql_blocks(text, &Vec::new(), "md"), Some(text.to_string()));
    assert_eq!(process_sql_blocks(text, &vec![result(&["a"], vec![])], "md"), None);
}

#[test]
fn first_rendering_puts_one_marker_pair_behind_the_closing_fence() {
    let text = "intro\n  ```sql\n  SELECT t\n  ```\nbelow\n";
    let out = process_sql_blocks(text, &vec![result(&["t"], vec![row(&[("t", "x")])])], "md").unwrap();
    let lines: Vec<&str> = out.lines().collect();
    assert_eq!(
        lines,
        vec!["intro", "```sql", "SELECT t", "```", "<!-- BEGIN SQL -->", "| t |", "|---|", "| x |", "<!-- END SQL -->"]
    );
    assert_eq!(count(&out, "<!-- BEGIN SQL -->"), 1);
    assert_eq!(count(&out, "<!-- END SQL -->"), 1);
}

#[test]
fn same_results_give_the_same_text() {
    let text = "```sql\nq1\n```\nmid\n```sql\nq2\n```\n";
    let results = || vec![result(&["a", "b"], vec![row(&[("a", " 1 "), ("b", "2")])]), result(&["c"], vec![])];
    let first = process_sql_blocks(text, &results(), "md").unwrap();
    let second = process_sql_blocks(text, &results(), "md").unwrap();
    assert_eq!(first, second);
    assert_eq!(
        first,
        "```sql\nq1\n```\n<!-- BEGIN SQL -->\n| a | b |\n|---|---|\n| 1 | 2 |\n<!-- END SQL -->\n```sql\nq2\n```\n<!-- BEGIN SQL -->\n| c |\n|---|\n<!-- END SQL -->\n"
    );
}
