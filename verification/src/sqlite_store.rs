//! What the observer of the relational store decides: for which events it
//! works, what it hands back, and how a generated query is tidied before it
//! is run.
use vstd::prelude::*;
use crate::event::{EventKind, ObserverResult};
use crate::lines::{line_texts, lines_of};
use crate::split::{first_index, next_index, split_chars, split_on, views};
use crate::sql_blocks::sql_blocks;
use crate::sql_render::{process_sql_blocks, spliced, is_rendering, QueryResult};
use crate::text::{copy_range, from_chars, has_prefix, opt_text, starts_with, to_chars, trim, trim_chars};
use crate::utils::{replace_all, replaced};

verus! {

/// The upper-case form of a text, by the rules of Unicode.
pub uninterp spec fn uppercase(s: Seq<char>) -> Seq<char>;

/// `str::to_uppercase` gives the upper-case form of the text, which depends
/// on the text alone. Nothing more is said of it.
pub assume_specification[ str::to_uppercase ](s: &str) -> (r: String)
    ensures
        r@ == uppercase(s@),
;

/// A note as the store lists it.
#[derive(Debug)]
pub struct NoteResult {
    pub id: i64,
    pub title: String,
    pub filepath: String,
}

/// Whether the store works for an event of this kind: it indexes notes
/// that were synchronised.
pub fn stores(kind: EventKind) -> (r: bool)
    ensures
        r == (kind == EventKind::Synced),
{
    match kind {
        EventKind::Synced => true,
        _ => false,
    }
}

/// What the store hands back for a body, given the result of the query of
/// each of its blocks: nothing for a body without query blocks, else the
/// body with its blocks rendered: each block followed by a rendering of
/// its result, the rest of the body as it was. `None` also where there are
/// not as many results as blocks.
pub fn store_result(content: &str, results: &Vec<QueryResult>, file_type: &str) -> (r: Option<
    ObserverResult,
>)
    ensures
        r is Some <==> results@.len() == sql_blocks(content@).len() && results@.len() > 0,
        r matches Some(result) ==> result@.metadata is None && result@.content is Some,
        r matches Some(result) ==> exists|replacements: Seq<Seq<char>>|
            replacements.len() == results@.len() && (forall|k: int|
                0 <= k < replacements.len() ==> is_rendering(
                    #[trigger] replacements[k],
                    sql_blocks(content@)[k].sql,
                    results@[k]@,
                    file_type@,
                )) && #[trigger] spliced(content@, sql_blocks(content@), replacements)
                == result@.content->Some_0,
{
    if results.len() == 0 {
        return None;
    }
    match process_sql_blocks(content, results, file_type) {
        Some(text) => Some(ObserverResult { metadata: None, content: Some(text) }),
        None => None,
    }
}

/// Whether the line begins, trimmed and in upper case, with `SELECT`.
pub open spec fn is_select_line(line: Seq<char>) -> bool {
    starts_with(uppercase(trim(line)), "SELECT"@)
}

/// The first of the lines that begins with `SELECT`, or the empty text.
pub open spec fn select_line(lines: Seq<Seq<char>>) -> Seq<char>
    decreases lines.len(),
{
    if lines.len() == 0 {
        Seq::empty()
    } else if is_select_line(lines[0]) {
        lines[0]
    } else {
        select_line(lines.drop_first())
    }
}

/// A line of a generated answer as a query: `nodes` reads `notes`, ` AS `
/// is a blank, back quotes are dropped, and what follows the first
/// semicolon is cut; the rest is trimmed.
pub open spec fn tidy_query(line: Seq<char>) -> Seq<char> {
    let text = replaced(replaced(replaced(line, "nodes"@, "notes"@), " AS "@, " "@), "`"@, ""@);
    trim(split_on(text, ';')[0])
}

/// The query that a generated answer holds: its first line that begins
/// with `SELECT`, tidied. None where the answer holds no such line, or
/// nothing is left of it.
pub open spec fn generated_query(response: Seq<char>) -> Option<Seq<char>> {
    let q = tidy_query(select_line(line_texts(response)));
    if q.len() == 0 {
        None
    } else {
        Some(q)
    }
}

/// The query that a generated answer holds.
pub fn clean_generated_query(response: &str) -> (r: Option<String>)
    ensures
        opt_text(r) == generated_query(response@),
{
    let lines = lines_of(&to_chars(response));
    let select = to_chars("SELECT");
    let mut found: Vec<char> = Vec::new();
    let mut i: usize = 0;
    assert(views(lines@).skip(0) =~= views(lines@));
    let ghost mut done = false;
    while i < lines.len()
        invariant
            i <= lines.len(),
            select@ == "SELECT"@,
            !done ==> found@.len() == 0 && select_line(views(lines@)) == select_line(
                views(lines@).skip(i as int),
            ),
            done ==> found@ == select_line(views(lines@)) && i == lines.len(),
        decreases lines.len() - i,
    {
        let ghost rest = views(lines@).skip(i as int);
        proof {
            assert(rest[0] == lines@[i as int]@);
            assert(rest.drop_first() =~= views(lines@).skip(i + 1));
        }
        let trimmed = from_chars(&trim_chars(&lines[i]));
        let upper = trimmed.as_str().to_uppercase();
        if has_prefix(&to_chars(upper.as_str()), &select) {
            found = copy_range(&lines[i], 0, lines[i].len());
            assert(lines@[i as int]@.subrange(0, lines@[i as int]@.len() as int) == lines@[i as int]@);
            proof {
                done = true;
            }
            i = lines.len();
        } else {
            i += 1;
        }
    }
    proof {
        if !done {
            assert(views(lines@).skip(lines.len() as int) =~= Seq::<Seq<char>>::empty());
        }
    }
    let a = replace_all(&found, &to_chars("nodes"), &to_chars("notes"));
    let b = replace_all(&a, &to_chars(" AS "), &to_chars(" "));
    let c = replace_all(&b, &to_chars("`"), &to_chars(""));
    let pieces = split_chars(&c, ';');
    assert(views(pieces@)[0] == pieces@[0]@);
    let q = trim_chars(&pieces[0]);
    if q.len() == 0 {
        None
    } else {
        Some(from_chars(&q))
    }
}

} // verus!
