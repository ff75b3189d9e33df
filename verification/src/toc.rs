//! The observer that keeps a table of contents below the first heading of
//! a note.
use pulldown_cmark::{Event, Parser, Tag};
use vstd::prelude::*;
use vstd::string::StringExecFns;
use crate::event::{NoteEvent, NoteObserver, ObserverResult, Outcome};
use crate::fields::FieldMap;
use crate::lines::{line_texts, lines_of};
use crate::order::clone_chars;
use crate::split::{join, join_chars, views};
use crate::text::{
    chars_eq, from_chars, has_prefix, push_all, push_str, starts_with, to_chars, trim, trim_chars,
};

verus! {

/// The lower-case form of a text, by the rules of Unicode.
pub uninterp spec fn lowercase(s: Seq<char>) -> Seq<char>;

/// Whether a character is a letter or a digit, by the rules of Unicode.
pub uninterp spec fn is_alphanumeric(c: char) -> bool;

/// `str::to_lowercase` gives the lower-case form of the text, which depends
/// on the text alone. Nothing more is said of it.
pub assume_specification[ str::to_lowercase ](s: &str) -> (r: String)
    ensures
        r@ == lowercase(s@),
;

/// `char::is_alphanumeric` tells whether the character is a letter or a
/// digit, which depends on the character alone. Nothing more is said of it.
pub assume_specification[ char::is_alphanumeric ](c: char) -> (b: bool)
    ensures
        b == is_alphanumeric(c),
;

/// What the Markdown parser tells of a text, as far as headings go.
pub enum MdEvent {
    /// A heading of the given level begins.
    HeadingStart(usize),
    /// A run of text.
    Text(String),
    /// A run of inline code.
    Code(String),
    /// A heading ends.
    HeadingEnd,
    /// Anything else.
    Other,
}

/// An event of the parser as plain values.
pub enum MdEventView {
    HeadingStart(usize),
    Text(Seq<char>),
    Code(Seq<char>),
    HeadingEnd,
    Other,
}

impl View for MdEvent {
    type V = MdEventView;

    open spec fn view(&self) -> MdEventView {
        match *self {
            MdEvent::HeadingStart(level) => MdEventView::HeadingStart(level),
            MdEvent::Text(t) => MdEventView::Text(t@),
            MdEvent::Code(t) => MdEventView::Code(t@),
            MdEvent::HeadingEnd => MdEventView::HeadingEnd,
            MdEvent::Other => MdEventView::Other,
        }
    }
}

/// The events of a vector as plain values.
pub open spec fn event_views(v: Seq<MdEvent>) -> Seq<MdEventView> {
    Seq::new(v.len(), |i: int| v[i]@)
}

/// The events that the Markdown parser gives for `content`: the beginning
/// and the end of each heading and each run of text or code; any other
/// event stands as `Other`.
pub uninterp spec fn markdown_events(content: Seq<char>) -> Seq<MdEventView>;

/// Runs `pulldown_cmark::Parser::new` over `content` and hands out its
/// events, each as the event of this module that stands for it.
#[verifier::external_body]
fn parse_markdown(content: &str) -> (r: Vec<MdEvent>)
    ensures
        event_views(r@) == markdown_events(content@),
{
    Parser::new(content).map(|e| match e {
        Event::Start(Tag::Heading(level, ..)) => MdEvent::HeadingStart(level as usize),
        Event::Text(t) => MdEvent::Text(t.into_string()),
        Event::Code(t) => MdEvent::Code(t.into_string()),
        Event::End(Tag::Heading(..)) => MdEvent::HeadingEnd,
        _ => MdEvent::Other,
    }).collect()
}

/// A text with a dash for each blank.
pub open spec fn dashed(s: Seq<char>) -> Seq<char> {
    Seq::new(s.len(), |i: int| if s[i] == ' ' {
        '-'
    } else {
        s[i]
    })
}

/// The letters, digits and dashes of a text.
pub open spec fn anchor_chars(s: Seq<char>) -> Seq<char>
    decreases s.len(),
{
    if s.len() == 0 {
        s
    } else if is_alphanumeric(s.last()) || s.last() == '-' {
        anchor_chars(s.drop_last()).push(s.last())
    } else {
        anchor_chars(s.drop_last())
    }
}

/// The anchor of a heading: its lower-case form with dashes for blanks,
/// without anything but letters, digits and dashes.
pub open spec fn anchor_of(heading: Seq<char>) -> Seq<char> {
    anchor_chars(dashed(lowercase(heading)))
}

/// The anchor of a heading.
pub fn create_anchor(heading: &str) -> (r: String)
    ensures
        r@ == anchor_of(heading@),
{
    let lower = heading.to_lowercase();
    let chars = to_chars(lower.as_str());
    let mut out: Vec<char> = Vec::new();
    let mut i: usize = 0;
    assert(dashed(chars@).take(0) =~= Seq::empty());
    while i < chars.len()
        invariant
            i <= chars.len(),
            out@ == anchor_chars(dashed(chars@).take(i as int)),
        decreases chars.len() - i,
    {
        let c = if chars[i] == ' ' {
            '-'
        } else {
            chars[i]
        };
        proof {
            let next = dashed(chars@).take(i + 1);
            assert(next.drop_last() =~= dashed(chars@).take(i as int));
            assert(next.last() == c);
        }
        if c.is_alphanumeric() || c == '-' {
            out.push(c);
        }
        i += 1;
    }
    assert(dashed(chars@).take(chars.len() as int) =~= dashed(chars@));
    from_chars(&out)
}

/// What the collecting of headings remembers from event to event.
pub struct Collecting {
    pub in_heading: bool,
    pub level: usize,
    pub text: Seq<char>,
    pub first_seen: bool,
}

/// The state before the first event.
pub open spec fn collecting_start() -> Collecting {
    Collecting { in_heading: false, level: 0, text: Seq::empty(), first_seen: false }
}

/// A heading of the table: its level and its text.
pub struct Heading {
    pub level: usize,
    pub text: Seq<char>,
}

/// The state after the event `e`, and the heading that the event
/// completes, if any. Text and code count only inside a heading. A heading
/// without text is passed over, and so is the first heading of the first
/// level, which is the title of the note.
pub open spec fn collect_step(st: Collecting, e: MdEventView) -> (Collecting, Option<Heading>) {
    match e {
        MdEventView::HeadingStart(level) => (Collecting { in_heading: true, level, ..st }, None),
        MdEventView::Text(t) => if st.in_heading {
            (Collecting { text: st.text + t, ..st }, None)
        } else {
            (st, None)
        },
        MdEventView::Code(t) => if st.in_heading {
            (Collecting { text: st.text + t, ..st }, None)
        } else {
            (st, None)
        },
        MdEventView::HeadingEnd => if st.text.len() == 0 {
            (Collecting { in_heading: false, ..st }, None)
        } else if st.level == 1 && !st.first_seen {
            (Collecting { in_heading: false, text: Seq::empty(), first_seen: true, ..st }, None)
        } else {
            (
                Collecting { in_heading: false, text: Seq::empty(), ..st },
                Some(Heading { level: st.level, text: st.text }),
            )
        },
        MdEventView::Other => (st, None),
    }
}

/// The headings that the events complete, from the state `st` on.
pub open spec fn headings_of(events: Seq<MdEventView>, st: Collecting) -> Seq<Heading>
    decreases events.len(),
{
    if events.len() == 0 {
        Seq::empty()
    } else {
        let step = collect_step(st, events[0]);
        match step.1 {
            Some(h) => seq![h] + headings_of(events.drop_first(), step.0),
            None => headings_of(events.drop_first(), step.0),
        }
    }
}

/// Two blanks for each level below the first.
pub open spec fn indent(level: int) -> Seq<char>
    decreases level,
{
    if level <= 1 {
        Seq::empty()
    } else {
        indent(level - 1) + "  "@
    }
}

/// The line of the table for a heading: indented by its level, a link to
/// the anchor of the heading.
pub open spec fn toc_entry(h: Heading) -> Seq<char> {
    indent(h.level as int) + "* ["@ + h.text + "](#"@ + anchor_of(h.text) + ")\n"@
}

/// The lines of the table for the headings.
pub open spec fn toc_entries(hs: Seq<Heading>) -> Seq<char>
    decreases hs.len(),
{
    if hs.len() == 0 {
        Seq::empty()
    } else {
        toc_entries(hs.drop_last()) + toc_entry(hs.last())
    }
}

/// The table of contents for the headings; none where there is no heading.
pub open spec fn toc_text(hs: Seq<Heading>) -> Option<Seq<char>> {
    if hs.len() == 0 {
        None
    } else {
        Some("## Contents\n\n"@ + toc_entries(hs))
    }
}

/// The table of contents that the events of a text call for.
pub open spec fn toc_of(events: Seq<MdEventView>) -> Option<Seq<char>> {
    toc_text(headings_of(events, collecting_start()))
}

/// The table of contents for the events of a text.
pub fn toc_from_events(events: &Vec<MdEvent>) -> (r: Option<Vec<char>>)
    ensures
        match r {
            Some(toc) => toc_of(event_views(events@)) == Some(toc@),
            None => toc_of(event_views(events@)) is None,
        },
{
    let ghost all = event_views(events@);
    let mut out = to_chars("## Contents\n\n");
    let ghost head = out@;
    let mut count: usize = 0;
    let ghost mut found: Seq<Heading> = Seq::empty();
    let mut in_heading = false;
    let mut level: usize = 0;
    let mut text: Vec<char> = Vec::new();
    let mut first_seen = false;
    let mut i: usize = 0;
    proof {
        assert(all.skip(0) =~= all);
        assert(found + headings_of(all, collecting_start()) =~= headings_of(
            all,
            collecting_start(),
        ));
        assert(head + toc_entries(found) =~= head);
    }
    while i < events.len()
        invariant
            i <= events.len(),
            all == event_views(events@),
            head == "## Contents\n\n"@,
            headings_of(all, collecting_start()) == found + headings_of(
                all.skip(i as int),
                Collecting { in_heading, level, text: text@, first_seen },
            ),
            out@ == head + toc_entries(found),
            (count == 0) == (found.len() == 0),
        decreases events.len() - i,
    {
        let ghost st = Collecting { in_heading, level, text: text@, first_seen };
        let ghost rest = all.skip(i as int);
        proof {
            assert(rest[0] == events@[i as int]@);
            assert(rest.drop_first() =~= all.skip(i + 1));
        }
        match &events[i] {
            MdEvent::HeadingStart(l) => {
                in_heading = true;
                level = *l;
            },
            MdEvent::Text(t) => {
                if in_heading {
                    push_str(&mut text, t.as_str());
                }
            },
            MdEvent::Code(t) => {
                if in_heading {
                    push_str(&mut text, t.as_str());
                }
            },
            MdEvent::HeadingEnd => {
                if text.len() > 0 {
                    if level == 1 && !first_seen {
                        first_seen = true;
                    } else {
                        let heading = from_chars(&text);
                        let ghost h = Heading { level, text: text@ };
                        let ghost before = out@;
                        let mut k: usize = 1;
                        while k < level
                            invariant
                                1 <= k,
                                k <= level || level == 0,
                                level == 0 ==> k == 1,
                                out@ == before + indent(k as int),
                            decreases level - k,
                        {
                            push_str(&mut out, "  ");
                            assert(before + (indent(k as int) + "  "@) =~= before + indent(k as int)
                                + "  "@);
                            k += 1;
                        }
                        assert(indent(k as int) == indent(level as int));
                        push_str(&mut out, "* [");
                        push_all(&mut out, &text);
                        push_str(&mut out, "](#");
                        push_str(&mut out, create_anchor(heading.as_str()).as_str());
                        push_str(&mut out, ")\n");
                        proof {
                            assert(out@ =~= before + toc_entry(h));
                            assert(found.push(h).drop_last() =~= found);
                            assert(head + (toc_entries(found) + toc_entry(h)) =~= head
                                + toc_entries(found) + toc_entry(h));
                            assert(found + (seq![h] + headings_of(all.skip(i + 1), collect_step(st, rest[0]).0))
                                =~= found.push(h) + headings_of(
                                all.skip(i + 1),
                                collect_step(st, rest[0]).0,
                            ));
                            found = found.push(h);
                        }
                        if count == 0 {
                            count = 1;
                        }
                    }
                    text = Vec::new();
                }
                in_heading = false;
            },
            MdEvent::Other => {},
        }
        i += 1;
    }
    proof {
        assert(headings_of(all.skip(events.len() as int), Collecting {
            in_heading,
            level,
            text: text@,
            first_seen,
        }) =~= Seq::empty());
        assert(found + Seq::<Heading>::empty() =~= found);
    }
    if count == 0 {
        None
    } else {
        Some(out)
    }
}

/// The table of contents of the note body `content`; none where the body
/// has no heading below its title.
pub fn generate_toc(content: &str) -> (r: Option<String>)
    ensures
        match r {
            Some(toc) => toc_of(markdown_events(content@)) == Some(toc@),
            None => toc_of(markdown_events(content@)) is None,
        },
{
    let events = parse_markdown(content);
    match toc_from_events(&events) {
        Some(toc) => Some(from_chars(&toc)),
        None => None,
    }
}

/// The last line `---` after the first one, or line 0 where there is none:
/// where the frontmatter ends.
pub open spec fn frontmatter_end(lines: Seq<Seq<char>>, k: int) -> int
    decreases k,
{
    if k <= 0 {
        0
    } else if trim(lines[k - 1]) == "---"@ && rules_before(lines, k - 1) > 0 {
        k - 1
    } else {
        frontmatter_end(lines, k - 1)
    }
}

/// Number of lines `---` among the first `k` lines.
pub open spec fn rules_before(lines: Seq<Seq<char>>, k: int) -> int
    decreases k,
{
    if k <= 0 {
        0
    } else if trim(lines[k - 1]) == "---"@ {
        rules_before(lines, k - 1) + 1
    } else {
        rules_before(lines, k - 1)
    }
}

/// Whether one of the first `k` lines is a heading of the first level.
pub open spec fn has_heading(lines: Seq<Seq<char>>, k: int) -> bool
    decreases k,
{
    if k <= 0 {
        false
    } else {
        has_heading(lines, k - 1) || starts_with(lines[k - 1], "# "@)
    }
}

/// The first line among the first `k` that is a heading of the first
/// level, or line 0 where there is none.
pub open spec fn first_heading(lines: Seq<Seq<char>>, k: int) -> int
    decreases k,
{
    if k <= 0 {
        0
    } else if has_heading(lines, k - 1) {
        first_heading(lines, k - 1)
    } else if starts_with(lines[k - 1], "# "@) {
        k - 1
    } else {
        0
    }
}

/// Whether the line begins a table of contents.
pub open spec fn is_toc_heading(line: Seq<char>) -> bool {
    starts_with(line, "## Contents"@) || starts_with(line, "## Table of Contents"@)
}

/// The lines without the tables of contents among them: a table reaches
/// from its heading up to the next heading of the second level, which
/// stays. `skipping` tells whether the first line stands inside a table.
pub open spec fn without_toc(lines: Seq<Seq<char>>, skipping: bool) -> Seq<Seq<char>>
    decreases lines.len(),
{
    if lines.len() == 0 {
        lines
    } else if is_toc_heading(lines[0]) {
        without_toc(lines.drop_first(), true)
    } else if skipping && !starts_with(lines[0], "## "@) {
        without_toc(lines.drop_first(), true)
    } else {
        seq![lines[0]] + without_toc(lines.drop_first(), false)
    }
}

/// The lines of a body with the table `toc` put below its first heading:
/// the frontmatter, an empty line, what stands between the frontmatter and
/// the first heading, that heading, an empty line, the table, an empty
/// line, and what follows the heading without any earlier table.
pub open spec fn lines_with_toc(lines: Seq<Seq<char>>, toc: Seq<char>) -> Seq<Seq<char>> {
    let n = lines.len() as int;
    let fe = frontmatter_end(lines, n);
    let fh = first_heading(lines, n);
    lines.subrange(0, fe + 1) + seq![Seq::<char>::empty()] + (if fe + 1 <= fh {
        lines.subrange(fe + 1, fh)
    } else {
        Seq::empty()
    }) + seq![lines[fh]] + seq![Seq::<char>::empty()] + line_texts(toc) + seq![
        Seq::<char>::empty(),
    ] + without_toc(lines.skip(fh + 1), false)
}

/// The body `content` with the table `toc` put below its first heading.
/// A body without lines stays as it is.
pub open spec fn with_toc(content: Seq<char>, toc: Seq<char>) -> Seq<char> {
    if line_texts(content).len() == 0 {
        content
    } else {
        join(lines_with_toc(line_texts(content), toc), "\n"@) + "\n"@
    }
}

/// Puts the table `toc` below the first heading of the body `content`.
pub fn insert_toc_text(content: &str, toc: &str) -> (r: String)
    ensures
        r@ == with_toc(content@, toc@),
{
    let lines = lines_of(&to_chars(content));
    let n = lines.len();
    if n == 0 {
        return String::from_str(content);
    }
    let ghost ls = views(lines@);
    let rule = to_chars("---");
    let h1 = to_chars("# ");
    let mut seen_rule = false;
    let mut fe: usize = 0;
    let mut found = false;
    let mut fh: usize = 0;
    let mut i: usize = 0;
    while i < n
        invariant
            i <= n == lines.len(),
            ls == views(lines@),
            rule@ == "---"@,
            h1@ == "# "@,
            rules_before(ls, i as int) >= 0,
            seen_rule == (rules_before(ls, i as int) > 0),
            fe == frontmatter_end(ls, i as int),
            fh == first_heading(ls, i as int),
            fe < n,
            fh < n,
            found == has_heading(ls, i as int),
            !found ==> fh == 0,
        decreases n - i,
    {
        assert(ls[i as int] == lines@[i as int]@);
        if chars_eq(&trim_chars(&lines[i]), &rule) {
            if !seen_rule {
                seen_rule = true;
            } else {
                fe = i;
            }
        }
        if has_prefix(&lines[i], &h1) && !found {
            found = true;
            fh = i;
        }
        i += 1;
    }
    let mut out: Vec<Vec<char>> = Vec::new();
    let mut k: usize = 0;
    while k <= fe
        invariant
            k <= fe + 1,
            fe < n == lines.len(),
            ls == views(lines@),
            views(out@) == ls.subrange(0, k as int),
        decreases fe + 1 - k,
    {
        let ghost before = views(out@);
        out.push(clone_chars(&lines[k]));
        assert(views(out@) =~= before.push(lines@[k as int]@));
        assert(ls.subrange(0, k + 1) =~= ls.subrange(0, k as int).push(ls[k as int]));
        k += 1;
    }
    let ghost part1 = views(out@);
    out.push(Vec::new());
    assert(views(out@) =~= part1 + seq![Seq::<char>::empty()]);
    let ghost part2 = views(out@);
    let mut k: usize = fe + 1;
    if fe + 1 <= fh {
        while k < fh
            invariant
                fe + 1 <= k <= fh < n == lines.len(),
                ls == views(lines@),
                views(out@) == part2 + ls.subrange(fe + 1, k as int),
            decreases fh - k,
        {
            let ghost before = views(out@);
            out.push(clone_chars(&lines[k]));
            assert(views(out@) =~= before.push(lines@[k as int]@));
            assert(ls.subrange(fe + 1, k + 1) =~= ls.subrange(fe + 1, k as int).push(ls[k as int]));
            k += 1;
        }
    } else {
        assert(part2 + Seq::<Seq<char>>::empty() =~= part2);
    }
    let ghost part3 = views(out@);
    out.push(clone_chars(&lines[fh]));
    out.push(Vec::new());
    assert(views(out@) =~= part3 + seq![ls[fh as int]] + seq![Seq::<char>::empty()]);
    let ghost part4 = views(out@);
    let toc_lines = lines_of(&to_chars(toc));
    let mut k: usize = 0;
    while k < toc_lines.len()
        invariant
            k <= toc_lines.len(),
            views(toc_lines@) == line_texts(toc@),
            views(out@) == part4 + line_texts(toc@).take(k as int),
        decreases toc_lines.len() - k,
    {
        let ghost before = views(out@);
        out.push(clone_chars(&toc_lines[k]));
        assert(views(out@) =~= before.push(toc_lines@[k as int]@));
        assert(line_texts(toc@).take(k + 1) =~= line_texts(toc@).take(k as int).push(
            toc_lines@[k as int]@,
        ));
        k += 1;
    }
    assert(line_texts(toc@).take(toc_lines.len() as int) =~= line_texts(toc@));
    let ghost part5 = views(out@);
    out.push(Vec::new());
    assert(views(out@) =~= part5 + seq![Seq::<char>::empty()]);
    let ghost part6 = views(out@);
    let toc1 = to_chars("## Contents");
    let toc2 = to_chars("## Table of Contents");
    let h2 = to_chars("## ");
    let mut skipping = false;
    let mut k: usize = fh + 1;
    let ghost tail = ls.skip(fh + 1);
    proof {
        assert(part6 + without_toc(tail, false) =~= part6 + without_toc(ls.skip(k as int), skipping));
    }
    while k < n
        invariant
            fh + 1 <= k <= n == lines.len(),
            ls == views(lines@),
            tail == ls.skip(fh + 1),
            toc1@ == "## Contents"@,
            toc2@ == "## Table of Contents"@,
            h2@ == "## "@,
            part6 + without_toc(tail, false) == views(out@) + without_toc(ls.skip(k as int), skipping),
        decreases n - k,
    {
        let ghost rest = ls.skip(k as int);
        let ghost before = views(out@);
        proof {
            assert(rest[0] == lines@[k as int]@);
            assert(rest.drop_first() =~= ls.skip(k + 1));
        }
        if has_prefix(&lines[k], &toc1) || has_prefix(&lines[k], &toc2) {
            skipping = true;
        } else if skipping && !has_prefix(&lines[k], &h2) {
        } else {
            skipping = false;
            out.push(clone_chars(&lines[k]));
            assert(views(out@) =~= before.push(lines@[k as int]@));
            assert(before + (seq![lines@[k as int]@] + without_toc(ls.skip(k + 1), false))
                =~= before.push(lines@[k as int]@) + without_toc(ls.skip(k + 1), false));
        }
        k += 1;
    }
    proof {
        assert(without_toc(ls.skip(n as int), skipping) =~= Seq::empty());
        assert(views(out@) + Seq::<Seq<char>>::empty() =~= views(out@));
        assert(views(out@) =~= lines_with_toc(ls, toc@));
        reveal_strlit("\n");
        assert("\n"@ =~= seq!['\n']);
    }
    let mut text = join_chars(&out, &to_chars("\n"));
    text.push('\n');
    from_chars(&text)
}

/// What the observer hands back for a body, given its table of contents:
/// nothing for a body of less than 50 bytes or without a `#`, for a body
/// without table, and for a body that holds its table already; else the
/// body with the table.
pub open spec fn toc_update(content: Seq<char>, bytes: int, toc: Option<Seq<char>>) -> Option<
    Seq<char>,
> {
    if bytes < 50 || !content.contains('#') {
        None
    } else {
        match toc {
            None => None,
            Some(t) => if with_toc(content, t) == content {
                None
            } else {
                Some(with_toc(content, t))
            },
        }
    }
}

/// The body of an event with its table of contents, where it needs one.
pub fn insert_toc(content: &str) -> (r: Option<String>)
    ensures
        crate::text::opt_text(r) == toc_update(
            content@,
            crate::sql_blocks::byte_len(content@) as int,
            toc_of(markdown_events(content@)),
        ),
{
    let bytes = content.as_bytes().len();
    let chars = to_chars(content);
    let mut has_hash = false;
    let mut i: usize = 0;
    while i < chars.len()
        invariant
            i <= chars.len(),
            has_hash == chars@.take(i as int).contains('#'),
        decreases chars.len() - i,
    {
        let ghost done = chars@.take(i as int);
        let ghost next = chars@.take(i + 1);
        proof {
            assert(next =~= done.push(chars@[i as int]));
            if done.contains('#') {
                let k = choose|k: int| 0 <= k < done.len() && done[k] == '#';
                assert(next[k] == '#');
            }
            if next.contains('#') && chars@[i as int] != '#' {
                let k = choose|k: int| 0 <= k < next.len() && next[k] == '#';
                assert(done[k] == '#');
            }
            if chars@[i as int] == '#' {
                assert(next[i as int] == '#');
            }
        }
        if chars[i] == '#' {
            has_hash = true;
        }
        i += 1;
    }
    assert(chars@.take(chars.len() as int) =~= chars@);
    if bytes < 50 || !has_hash {
        return None;
    }
    match generate_toc(content) {
        None => None,
        Some(toc) => {
            let updated = insert_toc_text(content, toc.as_str());
            if crate::text::str_eq(updated.as_str(), content) {
                None
            } else {
                Some(updated)
            }
        },
    }
}

/// Keeps a table of contents below the first heading of a note.
pub struct TocObserver;

impl TocObserver {
    /// The observer.
    pub fn new() -> (r: Self) {
        TocObserver
    }
}

impl NoteObserver for TocObserver {
    fn on_event(&self, event: NoteEvent) -> (r: Outcome)
        ensures
            r is Ok,
            match r->Ok_0 {
                Some(result) => result@.content == toc_update(
                    event@.content,
                    crate::sql_blocks::byte_len(event@.content) as int,
                    toc_of(markdown_events(event@.content)),
                ) && result@.content is Some && result@.metadata == Some(
                    Map::<Seq<char>, Seq<char>>::empty().insert("toc_generated"@, "true"@),
                ),
                None => toc_update(
                    event@.content,
                    crate::sql_blocks::byte_len(event@.content) as int,
                    toc_of(markdown_events(event@.content)),
                ) is None,
            },
    {
        match insert_toc(event.content().as_str()) {
            Some(updated) => {
                let mut metadata = FieldMap::new();
                metadata.insert(String::from_str("toc_generated"), String::from_str("true"));
                Ok(Some(ObserverResult { metadata: Some(metadata), content: Some(updated) }))
            },
            None => Ok(None),
        }
    }

    fn name(&self) -> (r: String)
        ensures
            r@ == "toc"@,
    {
        String::from_str("toc")
    }

    fn priority(&self) -> (r: i32)
        ensures
            r == 0,
    {
        0
    }
}

} // verus!
