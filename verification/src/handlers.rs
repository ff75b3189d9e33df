//! What the commands show: the table of a query result, and whether a note
//! passes the filters of the listing.
use chrono::DateTime;
use vstd::prelude::*;
use crate::fields::FieldMap;
use crate::metadata::lookup;
use crate::note::non_empty;
use crate::order::clone_chars;
use crate::split::{join, join_chars, str_views, views};
use crate::sql_render::{separator_line, table_line, value_of, QueryResult, QueryView};
use crate::text::{from_chars, opt_text, push_all, push_str, str_eq, to_chars, trim};

verus! {

/// A cell of the table that is shown: the title is a link to the path of
/// the row, the path itself is left out, any other column shows its value.
pub open spec fn shown_cell(row: Map<Seq<char>, Seq<char>>, column: Seq<char>) -> Seq<char> {
    if column == "title"@ {
        "["@ + value_of(row, column) + "]("@ + value_of(row, "path"@) + ")"@
    } else if column != "path"@ {
        value_of(row, column)
    } else {
        Seq::empty()
    }
}

/// The cells of a row that are shown: those that are not empty.
pub open spec fn shown_cells(row: Map<Seq<char>, Seq<char>>, columns: Seq<Seq<char>>) -> Seq<
    Seq<char>,
> {
    non_empty(Seq::new(columns.len(), |i: int| shown_cell(row, columns[i])))
}

/// The lines of the first `k` rows.
pub open spec fn shown_rows(q: QueryView, k: int) -> Seq<char>
    decreases k,
{
    if k <= 0 {
        Seq::empty()
    } else {
        shown_rows(q, k - 1) + table_line(shown_cells(q.rows[k - 1], q.columns))
    }
}

/// The table that a query shows: the header, the separator, and a line for
/// each row.
pub open spec fn shown_table(q: QueryView) -> Seq<char> {
    table_line(q.columns) + separator_line(q.columns.len() as int) + shown_rows(
        q,
        q.rows.len() as int,
    )
}

fn text_of(row: &FieldMap, column: &str) -> (r: Vec<char>)
    ensures
        r@ == value_of(row@, column@),
{
    match row.get(column) {
        Some(v) => to_chars(v.as_str()),
        None => Vec::new(),
    }
}

fn push_line(out: &mut Vec<char>, cells: &Vec<Vec<char>>)
    ensures
        final(out)@ == old(out)@ + table_line(views(cells@)),
{
    let ghost before = out@;
    push_str(out, "| ");
    push_all(out, &join_chars(cells, &to_chars(" | ")));
    push_str(out, " |\n");
    assert(out@ == before + table_line(views(cells@)));
}

/// The table that the result of a query shows.
pub fn query_results_text(results: &QueryResult) -> (r: String)
    ensures
        r@ == shown_table(results@),
{
    let ghost q = results@;
    let mut out: Vec<char> = Vec::new();
    let mut names: Vec<Vec<char>> = Vec::new();
    let mut dashes: Vec<Vec<char>> = Vec::new();
    let mut c: usize = 0;
    while c < results.columns.len()
        invariant
            c <= results.columns.len(),
            names@.len() == c,
            dashes@.len() == c,
            forall|j: int| 0 <= j < c ==> (#[trigger] names@[j])@ == results.columns@[j]@,
            forall|j: int| 0 <= j < c ==> (#[trigger] dashes@[j])@ == "---"@,
        decreases results.columns.len() - c,
    {
        names.push(to_chars(results.columns[c].as_str()));
        dashes.push(to_chars("---"));
        c += 1;
    }
    assert(views(names@) =~= q.columns);
    assert(views(dashes@) =~= Seq::new(q.columns.len(), |i: int| "---"@));
    push_line(&mut out, &names);
    let ghost before_sep = out@;
    push_str(&mut out, "|");
    push_all(&mut out, &join_chars(&dashes, &to_chars("|")));
    push_str(&mut out, "|\n");
    assert(out@ == before_sep + separator_line(q.columns.len() as int));
    let ghost head = out@;
    let mut k: usize = 0;
    assert(head + shown_rows(q, 0) == head);
    while k < results.rows.len()
        invariant
            k <= results.rows.len(),
            q == results@,
            out@ == head + shown_rows(q, k as int),
        decreases results.rows.len() - k,
    {
        let row = &results.rows[k];
        let mut cells: Vec<Vec<char>> = Vec::new();
        let ghost all = Seq::new(q.columns.len(), |i: int| shown_cell(row@, q.columns[i]));
        let mut c: usize = 0;
        assert(all.take(0) =~= Seq::empty());
        assert(views(cells@) =~= Seq::empty());
        while c < results.columns.len()
            invariant
                c <= results.columns.len(),
                q == results@,
                all == Seq::new(q.columns.len(), |i: int| shown_cell(row@, q.columns[i])),
                views(cells@) == non_empty(all.take(c as int)),
            decreases results.columns.len() - c,
        {
            let column = results.columns[c].as_str();
            let cell = if str_eq(column, "title") {
                let mut link = to_chars("[");
                push_all(&mut link, &text_of(row, column));
                push_str(&mut link, "](");
                push_all(&mut link, &text_of(row, "path"));
                push_str(&mut link, ")");
                link
            } else if !str_eq(column, "path") {
                text_of(row, column)
            } else {
                Vec::new()
            };
            proof {
                let next = all.take(c + 1);
                assert(next.drop_last() =~= all.take(c as int));
                assert(next.last() == shown_cell(row@, q.columns[c as int]));
                assert(cell@ == next.last());
            }
            if cell.len() > 0 {
                let ghost before = views(cells@);
                cells.push(cell);
                assert(views(cells@) =~= before.push(cell@));
            }
            c += 1;
        }
        assert(all.take(results.columns.len() as int) =~= all);
        push_line(&mut out, &cells);
        assert(out@ == head + (shown_rows(q, k as int) + table_line(views(cells@))));
        k += 1;
    }
    from_chars(&out)
}

/// Whether the fields hold each of the filters with its value.
pub open spec fn passes_filters(
    fields: Map<Seq<char>, Seq<char>>,
    filters: Seq<(Seq<char>, Seq<char>)>,
) -> bool {
    forall|i: int| 0 <= i < filters.len() ==> lookup(fields, (#[trigger] filters[i]).0) == Some(
        filters[i].1,
    )
}

/// Whether a note with these fields passes the filters of the listing.
pub fn matches_filters(fields: &FieldMap, filters: &Vec<(String, String)>) -> (r: bool)
    ensures
        r == passes_filters(fields@, crate::fields::pair_views(filters@)),
{
    let mut i: usize = 0;
    while i < filters.len()
        invariant
            i <= filters.len(),
            forall|j: int|
                0 <= j < i ==> lookup(
                    fields@,
                    (#[trigger] crate::fields::pair_views(filters@)[j]).0,
                ) == Some(crate::fields::pair_views(filters@)[j].1),
        decreases filters.len() - i,
    {
        let ghost f = crate::fields::pair_views(filters@)[i as int];
        assert(f == (filters@[i as int].0@, filters@[i as int].1@));
        let holds = match fields.get(filters[i].0.as_str()) {
            Some(v) => str_eq(v.as_str(), filters[i].1.as_str()),
            None => false,
        };
        if !holds {
            return false;
        }
        i += 1;
    }
    true
}

/// A moment: the seconds since the epoch, and the nanoseconds within the
/// second.
#[derive(Clone, Copy, Debug, PartialEq, Eq, Structural)]
pub struct Moment {
    pub seconds: i64,
    pub nanos: u32,
}

/// Whether the moment `a` is not later than `b`.
pub open spec fn not_after(a: Moment, b: Moment) -> bool {
    a.seconds < b.seconds || (a.seconds == b.seconds && a.nanos <= b.nanos)
}

/// Whether a note of the moment `at` stands within the range of the
/// listing; a bound that is not given does not bind.
pub fn in_range(at: Moment, from: Option<Moment>, to: Option<Moment>) -> (r: bool)
    ensures
        r == ((from matches Some(f) ==> not_after(f, at)) && (to matches Some(t) ==> not_after(
            at,
            t,
        ))),
{
    let after_from = match from {
        Some(f) => f.seconds < at.seconds || (f.seconds == at.seconds && f.nanos <= at.nanos),
        None => true,
    };
    let before_to = match to {
        Some(t) => at.seconds < t.seconds || (at.seconds == t.seconds && at.nanos <= t.nanos),
        None => true,
    };
    after_from && before_to
}

/// The moment that the text `s` names when it is read by the format
/// `format`, if it names one.
pub uninterp spec fn parsed_moment(s: Seq<char>, format: Seq<char>) -> Option<Moment>;

/// `chrono::DateTime::parse_from_str`: the moment, with its offset taken
/// into account, that the text names by the format, or nothing where the
/// text does not fit the format or names no offset.
#[verifier::external_body]
fn parse_moment(s: &str, format: &str) -> (r: Option<Moment>)
    ensures
        r == parsed_moment(s@, format@),
{
    DateTime::parse_from_str(s, format).ok().map(
        |d| Moment { seconds: d.timestamp(), nanos: d.timestamp_subsec_nanos() },
    )
}

/// The moment that a date of the command line names: the text is read as a
/// date, then as a date with a time, then as a date with a time and an
/// offset, and the first reading that fits counts.
pub open spec fn date_of(s: Seq<char>) -> Option<Moment> {
    if parsed_moment(s, "%Y-%m-%d"@) is Some {
        parsed_moment(s, "%Y-%m-%d"@)
    } else if parsed_moment(s, "%Y-%m-%d %H:%M:%S"@) is Some {
        parsed_moment(s, "%Y-%m-%d %H:%M:%S"@)
    } else {
        parsed_moment(s, "%Y-%m-%d %H:%M:%S %z"@)
    }
}

/// The moment that a date of the command line names, or the message that
/// tells that it names none.
pub fn parse_date_string(date_str: &str) -> (r: Result<Moment, String>)
    ensures
        match r {
            Ok(m) => date_of(date_str@) == Some(m),
            Err(message) => date_of(date_str@) is None && message@ == "Invalid dateformat '"@
                + date_str@ + "'"@,
        },
{
    match parse_moment(date_str, "%Y-%m-%d") {
        Some(m) => {
            return Ok(m);
        },
        None => {},
    }
    match parse_moment(date_str, "%Y-%m-%d %H:%M:%S") {
        Some(m) => {
            return Ok(m);
        },
        None => {},
    }
    match parse_moment(date_str, "%Y-%m-%d %H:%M:%S %z") {
        Some(m) => Ok(m),
        None => {
            let mut message = to_chars("Invalid dateformat '");
            push_str(&mut message, date_str);
            push_str(&mut message, "'");
            Err(from_chars(&message))
        },
    }
}

/// Whether a note is added at all: one whose body is blank is not.
pub fn is_blank(content: &str) -> (r: bool)
    ensures
        r == (trim(content@).len() == 0),
{
    crate::text::trim_chars(&to_chars(content)).len() == 0
}

} // verus!
