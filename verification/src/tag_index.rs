//! The tag index: a note that lists, for each tag, the notes that carry it.
//!
//! The index is a Markdown text with a heading of the second level for each
//! tag, in increasing order, and below it a list of links to the notes with
//! that tag, ordered by title.
use vstd::prelude::*;
use vstd::string::StringExecFns;
use crate::event::{EventView, NoteEvent, ObserverResult};
use crate::fields::FieldMap;
use crate::lines::{line_texts, lines_of};
use crate::metadata::{list_items, lookup, split_list};
use crate::note::{first_match, lemma_first_match, non_empty};
use crate::order::{clone_chars, text_less, text_lt};
use crate::settings::Settings;
use crate::split::{first_index, join, join_chars, next_index, str_views, views};
use crate::text::{
    chars_eq, copy_range, find_from, from_chars, has_prefix, occurs_at, push_all, push_str,
    starts_with, to_chars, trim, trim_chars,
};

verus! {

/// An entry of the index: a note with a tag.
pub struct Entry {
    pub tag: Seq<char>,
    pub title: Seq<char>,
    pub path: Seq<char>,
}

/// A link of the index: the title and the path of a note.
pub struct Link {
    pub title: Seq<char>,
    pub path: Seq<char>,
}

/// The notes of one tag.
pub struct Group {
    pub tag: Seq<char>,
    pub links: Seq<Link>,
}

/// The link that a line of the index holds: its title stands between the
/// first `[` and the first `]`, its path between the first `(` and the
/// first `)`.
pub open spec fn link_of(line: Seq<char>) -> Option<Link> {
    let a = first_index(line, '[');
    let b = first_index(line, ']');
    let c = first_index(line, '(');
    let d = first_index(line, ')');
    if 0 <= a < b < line.len() && 0 <= c < d < line.len() {
        Some(Link { title: line.subrange(a + 1, b), path: line.subrange(c + 1, d) })
    } else {
        None
    }
}

/// The tag under which the lines after `line` stand, where `tag` is the
/// tag before it, and the entry that the line holds, if any. A heading of
/// the second level names a tag; an item of a list below a tag holds a
/// link.
pub open spec fn parse_step(tag: Seq<char>, line: Seq<char>) -> (Seq<char>, Option<Entry>) {
    if starts_with(line, "## "@) {
        (trim(line.skip(3)), None)
    } else if starts_with(line, "- "@) && tag.len() > 0 {
        match link_of(line) {
            Some(link) => (tag, Some(Entry { tag, title: link.title, path: link.path })),
            None => (tag, None),
        }
    } else {
        (tag, None)
    }
}

/// The entries that the lines hold, where `tag` is the tag before them.
pub open spec fn parsed_entries(lines: Seq<Seq<char>>, tag: Seq<char>) -> Seq<Entry>
    decreases lines.len(),
{
    if lines.len() == 0 {
        Seq::empty()
    } else {
        let step = parse_step(tag, lines[0]);
        match step.1 {
            Some(e) => seq![e] + parsed_entries(lines.drop_first(), step.0),
            None => parsed_entries(lines.drop_first(), step.0),
        }
    }
}

/// The entries of other notes than `title`.
pub open spec fn other_entries(entries: Seq<Entry>, title: Seq<char>) -> Seq<Entry>
    decreases entries.len(),
{
    if entries.len() == 0 {
        entries
    } else if entries.last().title == title {
        other_entries(entries.drop_last(), title)
    } else {
        other_entries(entries.drop_last(), title).push(entries.last())
    }
}

/// Whether a tag goes into the index: it is not empty and is no leftover
/// of a frontmatter line.
pub open spec fn is_index_tag(tag: Seq<char>) -> bool {
    tag.len() > 0 && !starts_with(tag, "tags:"@)
}

/// The path of the note `title`, relative to the note directory.
pub open spec fn relative_path(title: Seq<char>, file_type: Seq<char>) -> Seq<char> {
    "./"@ + title + "."@ + file_type
}

/// The entries of the note `title` for its tags.
pub open spec fn note_entries(tags: Seq<Seq<char>>, title: Seq<char>, file_type: Seq<char>) -> Seq<
    Entry,
>
    decreases tags.len(),
{
    if tags.len() == 0 {
        Seq::empty()
    } else if is_index_tag(trim(tags.last())) {
        note_entries(tags.drop_last(), title, file_type).push(
            Entry { tag: trim(tags.last()), title, path: relative_path(title, file_type) },
        )
    } else {
        note_entries(tags.drop_last(), title, file_type)
    }
}

/// The links with `link` put behind the last link whose title does not
/// come after its title.
pub open spec fn with_link(links: Seq<Link>, link: Link) -> Seq<Link>
    decreases links.len(),
{
    if links.len() == 0 || !text_lt(link.title, links.last().title) {
        links.push(link)
    } else {
        with_link(links.drop_last(), link).push(links.last())
    }
}

/// The groups, which stand in the order of their tags, with the entry put
/// into the group of its tag; a tag without group gets one.
pub open spec fn with_entry(groups: Seq<Group>, e: Entry) -> Seq<Group>
    decreases groups.len(),
{
    let link = Link { title: e.title, path: e.path };
    if groups.len() == 0 {
        seq![Group { tag: e.tag, links: seq![link] }]
    } else if groups.last().tag == e.tag {
        groups.drop_last().push(Group { tag: e.tag, links: with_link(groups.last().links, link) })
    } else if text_lt(groups.last().tag, e.tag) {
        groups.push(Group { tag: e.tag, links: seq![link] })
    } else {
        with_entry(groups.drop_last(), e).push(groups.last())
    }
}

/// The entries by tag: the tags in increasing order, the notes of each tag
/// ordered by title, notes with one title in the order of their entries.
pub open spec fn grouped(entries: Seq<Entry>) -> Seq<Group>
    decreases entries.len(),
{
    if entries.len() == 0 {
        Seq::empty()
    } else {
        with_entry(grouped(entries.drop_last()), entries.last())
    }
}

/// The list of the links.
pub open spec fn links_text(links: Seq<Link>) -> Seq<char>
    decreases links.len(),
{
    if links.len() == 0 {
        Seq::empty()
    } else {
        links_text(links.drop_last()) + "- ["@ + links.last().title + "]("@ + links.last().path
            + ")\n"@
    }
}

/// The sections of the groups: for each a heading, an empty line, the list
/// of its links, and an empty line.
pub open spec fn groups_text(groups: Seq<Group>) -> Seq<char>
    decreases groups.len(),
{
    if groups.len() == 0 {
        Seq::empty()
    } else {
        groups_text(groups.drop_last()) + "## "@ + groups.last().tag + "\n\n"@ + links_text(
            groups.last().links,
        ) + "\n"@
    }
}

/// The frontmatter that an index text begins with: from its start through
/// the second rule `---`. None where the text does not begin with a rule
/// or lacks the second one.
pub open spec fn kept_frontmatter(existing: Seq<char>) -> Option<Seq<char>> {
    let first = first_match(existing, "---\n"@, 0);
    if starts_with(existing, "---"@) && first >= 0 {
        let second = first_match(existing.skip(first + 4), "---"@, 0);
        if second >= 0 {
            Some(existing.take(first + second + 7))
        } else {
            None
        }
    } else {
        None
    }
}

/// The text of the index with the given frontmatter and groups.
pub open spec fn index_text(frontmatter: Option<Seq<char>>, groups: Seq<Group>) -> Seq<char> {
    (match frontmatter {
        Some(f) => f + "\n\n"@,
        None => Seq::empty(),
    }) + "# _tag_index\n\n"@ + groups_text(groups)
}

/// The entries of the index after the note `title` was given the tags
/// `tags`: the entries of the other notes, then those of the note.
pub open spec fn updated_entries(
    existing: Seq<char>,
    title: Seq<char>,
    tags: Seq<Seq<char>>,
    file_type: Seq<char>,
) -> Seq<Entry> {
    other_entries(parsed_entries(line_texts(existing), Seq::empty()), title) + note_entries(
        tags,
        title,
        file_type,
    )
}

/// The text of the index after the note `title` was given the tags `tags`,
/// where `existing` is the text of the index before. The frontmatter of the
/// index is kept.
pub open spec fn updated_index(
    existing: Seq<char>,
    title: Seq<char>,
    tags: Seq<Seq<char>>,
    file_type: Seq<char>,
) -> Seq<char> {
    index_text(kept_frontmatter(existing), grouped(updated_entries(existing, title, tags, file_type)))
}

/// An entry of the index.
pub struct IndexEntry {
    pub tag: Vec<char>,
    pub title: Vec<char>,
    pub path: Vec<char>,
}

impl View for IndexEntry {
    type V = Entry;

    open spec fn view(&self) -> Entry {
        Entry { tag: self.tag@, title: self.title@, path: self.path@ }
    }
}

/// The entries of a vector as plain values.
pub open spec fn entry_views(v: Seq<IndexEntry>) -> Seq<Entry> {
    Seq::new(v.len(), |i: int| v[i]@)
}

/// A link of the index.
pub struct IndexLink {
    pub title: Vec<char>,
    pub path: Vec<char>,
}

impl View for IndexLink {
    type V = Link;

    open spec fn view(&self) -> Link {
        Link { title: self.title@, path: self.path@ }
    }
}

/// The links of a vector as plain values.
pub open spec fn link_views(v: Seq<IndexLink>) -> Seq<Link> {
    Seq::new(v.len(), |i: int| v[i]@)
}

/// The notes of one tag.
pub struct IndexGroup {
    pub tag: Vec<char>,
    pub links: Vec<IndexLink>,
}

impl View for IndexGroup {
    type V = Group;

    open spec fn view(&self) -> Group {
        Group { tag: self.tag@, links: link_views(self.links@) }
    }
}

/// The groups of a vector as plain values.
pub open spec fn group_views(v: Seq<IndexGroup>) -> Seq<Group> {
    Seq::new(v.len(), |i: int| v[i]@)
}

/// The link that a line of the index holds.
fn parse_link(line: &Vec<char>) -> (r: Option<IndexLink>)
    ensures
        match r {
            Some(link) => link_of(line@) == Some(link@),
            None => link_of(line@) is None,
        },
{
    assert(line@.skip(0) == line@);
    let a = next_index(line, '[', 0);
    let b = next_index(line, ']', 0);
    let c = next_index(line, '(', 0);
    let d = next_index(line, ')', 0);
    if a < b && b < line.len() && c < d && d < line.len() {
        Some(IndexLink { title: copy_range(line, a + 1, b), path: copy_range(line, c + 1, d) })
    } else {
        None
    }
}

/// The entries that the text of an index holds.
pub fn parse_index(text: &Vec<char>) -> (r: Vec<IndexEntry>)
    ensures
        entry_views(r@) == parsed_entries(line_texts(text@), Seq::empty()),
{
    let lines = lines_of(text);
    let ghost ls = views(lines@);
    let heading = to_chars("## ");
    let item = to_chars("- ");
    let mut out: Vec<IndexEntry> = Vec::new();
    let mut tag: Vec<char> = Vec::new();
    let mut i: usize = 0;
    proof {
        reveal_strlit("## ");
        assert(ls.skip(0) =~= ls);
        assert(entry_views(out@) + parsed_entries(ls, tag@) =~= parsed_entries(ls, tag@));
    }
    while i < lines.len()
        invariant
            i <= lines.len(),
            ls == views(lines@),
            heading@ == "## "@,
            heading@.len() == 3,
            item@ == "- "@,
            parsed_entries(ls, Seq::empty()) == entry_views(out@) + parsed_entries(
                ls.skip(i as int),
                tag@,
            ),
        decreases lines.len() - i,
    {
        let ghost rest = ls.skip(i as int);
        let ghost before = entry_views(out@);
        let ghost old_tag = tag@;
        proof {
            assert(rest[0] == lines@[i as int]@);
            assert(rest.drop_first() =~= ls.skip(i + 1));
        }
        let line = &lines[i];
        if has_prefix(line, &heading) {
            tag = trim_chars(&copy_range(line, 3, line.len()));
            assert(line@.subrange(3, line@.len() as int) == line@.skip(3));
        } else if has_prefix(line, &item) && tag.len() > 0 {
            match parse_link(line) {
                Some(link) => {
                    let entry = IndexEntry { tag: clone_chars(&tag), title: link.title, path: link.path };
                    out.push(entry);
                    proof {
                        assert(entry_views(out@) =~= before.push(entry@));
                        assert(before + (seq![entry@] + parsed_entries(ls.skip(i + 1), old_tag))
                            =~= before.push(entry@) + parsed_entries(ls.skip(i + 1), old_tag));
                    }
                },
                None => {},
            }
        }
        i += 1;
    }
    proof {
        assert(parsed_entries(ls.skip(lines.len() as int), tag@) =~= Seq::empty());
        assert(entry_views(out@) + Seq::<Entry>::empty() =~= entry_views(out@));
    }
    out
}

/// Puts the link into the links, behind the last link whose title does not
/// come after its title.
fn insert_link(links: &mut Vec<IndexLink>, link: IndexLink)
    ensures
        link_views(final(links)@) == with_link(link_views(old(links)@), link@),
{
    let ghost s = link_views(links@);
    let mut p: usize = links.len();
    proof {
        assert(s.take(p as int) =~= s);
        assert(with_link(s, link@) + s.skip(p as int) =~= with_link(s, link@));
    }
    while p > 0 && text_less(&link.title, &links[p - 1].title)
        invariant
            p <= links.len(),
            s == link_views(links@),
            links@ == old(links)@,
            with_link(s, link@) == with_link(s.take(p as int), link@) + s.skip(p as int),
        decreases p,
    {
        proof {
            let t = s.take(p as int);
            assert(t.last() == links@[p - 1]@);
            assert(t.drop_last() =~= s.take(p - 1));
            assert(with_link(t.drop_last(), link@).push(t.last()) + s.skip(p as int) =~= with_link(
                s.take(p - 1),
                link@,
            ) + s.skip(p - 1));
        }
        p -= 1;
    }
    proof {
        let t = s.take(p as int);
        if p > 0 {
            assert(t.last() == links@[p - 1]@);
        }
        assert(with_link(t, link@) == t.push(link@));
    }
    let ghost lv = link@;
    links.insert(p, link);
    assert(link_views(links@) =~= s.take(p as int).push(lv) + s.skip(p as int));
}

/// Puts the entry into the group of its tag; a tag without group gets one.
fn insert_entry(groups: &mut Vec<IndexGroup>, entry: IndexEntry)
    ensures
        group_views(final(groups)@) == with_entry(group_views(old(groups)@), entry@),
{
    let ghost s = group_views(groups@);
    let ghost e = entry@;
    let IndexEntry { tag, title, path } = entry;
    let link = IndexLink { title, path };
    let mut p: usize = groups.len();
    proof {
        assert(s.take(p as int) =~= s);
        assert(with_entry(s, e) + s.skip(p as int) =~= with_entry(s, e));
    }
    while p > 0 && !chars_eq(&groups[p - 1].tag, &tag) && !text_less(&groups[p - 1].tag, &tag)
        invariant
            p <= groups.len(),
            s == group_views(groups@),
            groups@ == old(groups)@,
            e == (Entry { tag: tag@, title: link.title@, path: link.path@ }),
            with_entry(s, e) == with_entry(s.take(p as int), e) + s.skip(p as int),
        decreases p,
    {
        proof {
            let t = s.take(p as int);
            assert(t.last() == groups@[p - 1]@);
            assert(t.drop_last() =~= s.take(p - 1));
            assert(with_entry(t.drop_last(), e).push(t.last()) + s.skip(p as int) =~= with_entry(
                s.take(p - 1),
                e,
            ) + s.skip(p - 1));
        }
        p -= 1;
    }
    let ghost t = s.take(p as int);
    proof {
        if p > 0 {
            assert(t.last() == groups@[p - 1]@);
            assert(t.drop_last() =~= s.take(p - 1));
        }
    }
    if p > 0 && chars_eq(&groups[p - 1].tag, &tag) {
        let mut group = groups.remove(p - 1);
        let ghost before = link_views(group.links@);
        insert_link(&mut group.links, link);
        let ghost g = group@;
        groups.insert(p - 1, group);
        proof {
            assert(g == Group { tag: e.tag, links: with_link(before, Link { title: e.title, path: e.path }) });
            assert(group_views(groups@) =~= s.take(p - 1).push(g) + s.skip(p as int));
        }
    } else {
        let mut links: Vec<IndexLink> = Vec::new();
        let ghost lv = link@;
        links.push(link);
        let group = IndexGroup { tag, links };
        let ghost g = group@;
        proof {
            assert(link_views(group.links@) =~= seq![lv]);
        }
        groups.insert(p, group);
        proof {
            assert(group_views(groups@) =~= t.push(g) + s.skip(p as int));
        }
    }
}

/// The frontmatter that an index text begins with.
fn keep_frontmatter(existing: &Vec<char>) -> (r: Option<Vec<char>>)
    ensures
        match r {
            Some(f) => kept_frontmatter(existing@) == Some(f@),
            None => kept_frontmatter(existing@) is None,
        },
{
    let rule = to_chars("---");
    let rule_line = to_chars("---\n");
    proof {
        reveal_strlit("---");
        reveal_strlit("---\n");
    }
    let found = find_from(existing, &rule_line, 0);
    proof {
        match found {
            Some(k) => lemma_first_match(existing@, rule_line@, 0, k as int),
            None => lemma_first_match(existing@, rule_line@, 0, 0),
        }
    }
    if !has_prefix(existing, &rule) {
        return None;
    }
    match found {
        None => None,
        Some(first) => {
            assert(rule_line@.len() == 4 && rule@.len() == 3);
            assert(occurs_at(existing@, rule_line@, first as int));
            assert(first + 4 <= existing.len());
            let rest = copy_range(existing, first + 4, existing.len());
            assert(rest@ == existing@.skip(first + 4));
            let again = find_from(&rest, &rule, 0);
            match again {
                None => {
                    proof {
                        lemma_first_match(rest@, rule@, 0, 0);
                    }
                    None
                },
                Some(second) => {
                    proof {
                        lemma_first_match(rest@, rule@, 0, second as int);
                        assert(occurs_at(rest@, rule@, second as int));
                    }
                    let r = copy_range(existing, 0, first + second + 7);
                    assert(existing@.subrange(0, first + second + 7) == existing@.take(
                        first + second + 7,
                    ));
                    Some(r)
                },
            }
        },
    }
}

/// The text of the index with the given frontmatter and groups.
fn render_index(frontmatter: Option<Vec<char>>, groups: &Vec<IndexGroup>) -> (r: Vec<char>)
    ensures
        r@ == index_text(
            match frontmatter {
                Some(f) => Some(f@),
                None => None,
            },
            group_views(groups@),
        ),
{
    let mut out: Vec<char> = Vec::new();
    match &frontmatter {
        Some(f) => {
            push_all(&mut out, f);
            push_str(&mut out, "\n\n");
        },
        None => {},
    }
    push_str(&mut out, "# _tag_index\n\n");
    let ghost head = out@;
    let ghost gs = group_views(groups@);
    let mut g: usize = 0;
    assert(gs.take(0) =~= Seq::empty());
    assert(head + groups_text(gs.take(0)) =~= head);
    while g < groups.len()
        invariant
            g <= groups.len(),
            gs == group_views(groups@),
            out@ == head + groups_text(gs.take(g as int)),
        decreases groups.len() - g,
    {
        let ghost before = out@;
        let group = &groups[g];
        push_str(&mut out, "## ");
        push_all(&mut out, &group.tag);
        push_str(&mut out, "\n\n");
        let ghost start = out@;
        let ghost ls = link_views(group.links@);
        let mut k: usize = 0;
        assert(ls.take(0) =~= Seq::empty());
        assert(start + links_text(ls.take(0)) =~= start);
        while k < group.links.len()
            invariant
                k <= group.links.len(),
                ls == link_views(group.links@),
                out@ == start + links_text(ls.take(k as int)),
            decreases group.links.len() - k,
        {
            let ghost was = out@;
            push_str(&mut out, "- [");
            push_all(&mut out, &group.links[k].title);
            push_str(&mut out, "](");
            push_all(&mut out, &group.links[k].path);
            push_str(&mut out, ")\n");
            proof {
                let next = ls.take(k + 1);
                assert(next.drop_last() =~= ls.take(k as int));
                assert(next.last() == group.links@[k as int]@);
                assert(out@ =~= start + links_text(next));
            }
            k += 1;
        }
        push_str(&mut out, "\n");
        proof {
            assert(ls.take(group.links.len() as int) =~= ls);
            let next = gs.take(g + 1);
            assert(next.drop_last() =~= gs.take(g as int));
            assert(next.last() == groups@[g as int]@);
            assert(out@ =~= head + groups_text(next));
        }
        g += 1;
    }
    assert(gs.take(groups.len() as int) =~= gs);
    out
}

/// The text of the index after the note `title` was given the tags `tags`,
/// where `existing` is the text of the index before: the entries of the
/// note are taken out, an entry for each of its tags is put in, and the
/// index is written anew, with its frontmatter kept.
pub fn update_index(existing: &str, title: &str, tags: &Vec<String>, file_type: &str) -> (r: String)
    ensures
        r@ == updated_index(existing@, title@, str_views(tags@), file_type@),
{
    let text = to_chars(existing);
    let name = to_chars(title);
    let parsed = parse_index(&text);
    let mut entries: Vec<IndexEntry> = Vec::new();
    let ghost ps = entry_views(parsed@);
    let mut i: usize = 0;
    assert(ps.take(0) =~= Seq::empty());
    assert(entry_views(entries@) =~= Seq::empty());
    while i < parsed.len()
        invariant
            i <= parsed.len(),
            ps == entry_views(parsed@),
            name@ == title@,
            entry_views(entries@) == other_entries(ps.take(i as int), title@),
        decreases parsed.len() - i,
    {
        proof {
            let next = ps.take(i + 1);
            assert(next.drop_last() =~= ps.take(i as int));
            assert(next.last() == parsed@[i as int]@);
        }
        if !chars_eq(&parsed[i].title, &name) {
            let ghost before = entry_views(entries@);
            let entry = IndexEntry {
                tag: clone_chars(&parsed[i].tag),
                title: clone_chars(&parsed[i].title),
                path: clone_chars(&parsed[i].path),
            };
            entries.push(entry);
            assert(entry_views(entries@) =~= before.push(parsed@[i as int]@));
        }
        i += 1;
    }
    assert(ps.take(parsed.len() as int) =~= ps);
    let ghost others = entry_views(entries@);
    let ghost ts = str_views(tags@);
    let prefix = to_chars("tags:");
    let mut path = to_chars("./");
    push_str(&mut path, title);
    push_str(&mut path, ".");
    push_str(&mut path, file_type);
    let mut k: usize = 0;
    proof {
        assert(ts.take(0) =~= Seq::empty());
        assert(others + note_entries(ts.take(0), title@, file_type@) =~= others);
    }
    while k < tags.len()
        invariant
            k <= tags.len(),
            ts == str_views(tags@),
            name@ == title@,
            prefix@ == "tags:"@,
            path@ == relative_path(title@, file_type@),
            entry_views(entries@) == others + note_entries(ts.take(k as int), title@, file_type@),
        decreases tags.len() - k,
    {
        proof {
            let next = ts.take(k + 1);
            assert(next.drop_last() =~= ts.take(k as int));
            assert(next.last() == tags@[k as int]@);
        }
        let tag = trim_chars(&to_chars(tags[k].as_str()));
        if tag.len() > 0 && !has_prefix(&tag, &prefix) {
            let ghost before = entry_views(entries@);
            let entry = IndexEntry { tag, title: clone_chars(&name), path: clone_chars(&path) };
            entries.push(entry);
            proof {
                assert(entry_views(entries@) =~= before.push(entry@));
                assert(others + note_entries(ts.take(k as int), title@, file_type@).push(entry@)
                    =~= before.push(entry@));
            }
        }
        k += 1;
    }
    assert(ts.take(tags.len() as int) =~= ts);
    let ghost all = entry_views(entries@);
    let mut groups: Vec<IndexGroup> = Vec::new();
    assert(all.take(0) =~= Seq::empty());
    assert(group_views(groups@) =~= Seq::empty());
    while entries.len() > 0
        invariant
            entry_views(entries@) == all.skip(all.len() - entries@.len()),
            entries@.len() <= all.len(),
            group_views(groups@) == grouped(all.take(all.len() - entries@.len())),
        decreases entries.len(),
    {
        let ghost done = all.len() - entries@.len();
        let ghost before = entries@;
        let entry = entries.remove(0);
        proof {
            assert(entry_views(before)[0] == before[0]@);
            assert(all.skip(done)[0] == all[done]);
            assert(entry@ == all[done]);
            let next = all.take(done + 1);
            assert(next.drop_last() =~= all.take(done));
            assert(next.last() == entry@);
            assert forall|j: int| 0 <= j < entries@.len() implies entry_views(entries@)[j]
                == all.skip(done + 1)[j] by {
                assert(entries@[j] == before[j + 1]);
                assert(entry_views(before)[j + 1] == before[j + 1]@);
                assert(all.skip(done)[j + 1] == all[done + 1 + j]);
            }
            assert(entry_views(entries@) =~= all.skip(done + 1));
        }
        insert_entry(&mut groups, entry);
    }
    assert(all.take(all.len() as int) =~= all);
    from_chars(&render_index(keep_frontmatter(&text), &groups))
}

/// The tags of a note as they stand in its frontmatter: the items of the
/// list that are tags of the index.
pub open spec fn index_tags(items: Seq<Seq<char>>) -> Seq<Seq<char>>
    decreases items.len(),
{
    if items.len() == 0 {
        items
    } else if is_index_tag(items.last()) {
        index_tags(items.drop_last()).push(items.last())
    } else {
        index_tags(items.drop_last())
    }
}

/// The tags of a comma-separated list that go into the index.
pub fn tags_of(list: &str) -> (r: Vec<String>)
    ensures
        str_views(r@) == index_tags(list_items(list@)),
{
    let items = split_list(&to_chars(list));
    let prefix = to_chars("tags:");
    let mut r: Vec<String> = Vec::new();
    let mut i: usize = 0;
    assert(views(items@).take(0) =~= Seq::empty());
    assert(str_views(r@) =~= Seq::empty());
    while i < items.len()
        invariant
            i <= items.len(),
            prefix@ == "tags:"@,
            str_views(r@) == index_tags(views(items@).take(i as int)),
        decreases items.len() - i,
    {
        proof {
            let next = views(items@).take(i + 1);
            assert(next.drop_last() =~= views(items@).take(i as int));
            assert(next.last() == items@[i as int]@);
        }
        if items[i].len() > 0 && !has_prefix(&items[i], &prefix) {
            let ghost before = str_views(r@);
            let item = from_chars(&items[i]);
            r.push(item);
            assert(str_views(r@) =~= before.push(items@[i as int]@));
        }
        i += 1;
    }
    assert(views(items@).take(items.len() as int) =~= views(items@));
    r
}

/// The first of the lines that, trimmed, begins with `tags:`.
pub open spec fn tags_line(lines: Seq<Seq<char>>) -> Option<Seq<char>>
    decreases lines.len(),
{
    if lines.len() == 0 {
        None
    } else if starts_with(trim(lines[0]), "tags:"@) {
        Some(lines[0])
    } else {
        tags_line(lines.drop_first())
    }
}

/// A text without the prefix `p` at its start, as often as it stands
/// there.
pub open spec fn without_prefixes(s: Seq<char>, p: Seq<char>) -> Seq<char>
    decreases s.len(),
{
    if p.len() > 0 && starts_with(s, p) {
        without_prefixes(s.skip(p.len() as int), p)
    } else {
        s
    }
}

/// The tags that the text of a frontmatter names: the items of the list
/// on its line `tags:` that go into the index; none where it has no such
/// line.
pub open spec fn frontmatter_tags(frontmatter: Seq<char>) -> Seq<Seq<char>> {
    match tags_line(line_texts(frontmatter)) {
        Some(line) => index_tags(list_items(without_prefixes(line, "tags:"@))),
        None => Seq::empty(),
    }
}

/// The tags that the text of a frontmatter names.
pub fn parse_frontmatter_tags(frontmatter: &str) -> (r: Vec<String>)
    ensures
        str_views(r@) == frontmatter_tags(frontmatter@),
{
    let lines = lines_of(&to_chars(frontmatter));
    let prefix = to_chars("tags:");
    proof {
        reveal_strlit("tags:");
    }
    let mut i: usize = 0;
    assert(views(lines@).skip(0) =~= views(lines@));
    while i < lines.len()
        invariant
            i <= lines.len(),
            prefix@ == "tags:"@,
            prefix@.len() == 5,
            views(lines@) == line_texts(frontmatter@),
            tags_line(views(lines@)) == tags_line(views(lines@).skip(i as int)),
        decreases lines.len() - i,
    {
        let ghost rest = views(lines@).skip(i as int);
        proof {
            assert(rest[0] == lines@[i as int]@);
            assert(rest.drop_first() =~= views(lines@).skip(i + 1));
        }
        if has_prefix(&trim_chars(&lines[i]), &prefix) {
            let line = &lines[i];
            let mut from: usize = 0;
            assert(line@.skip(0) =~= line@);
            while has_prefix(&copy_range(line, from, line.len()), &prefix)
                invariant
                    from <= line.len(),
                    prefix@ == "tags:"@,
                    prefix@.len() == 5,
                    without_prefixes(line@, prefix@) == without_prefixes(
                        line@.skip(from as int),
                        prefix@,
                    ),
                decreases line.len() - from,
            {
                assert(line@.subrange(from as int, line@.len() as int) =~= line@.skip(from as int));
                assert(line@.skip(from as int).skip(5) =~= line@.skip(from + 5));
                from = from + 5;
            }
            assert(line@.subrange(from as int, line@.len() as int) =~= line@.skip(from as int));
            assert(!starts_with(line@.skip(from as int), prefix@));
            assert(without_prefixes(line@.skip(from as int), prefix@) == line@.skip(from as int));
            assert(tags_line(rest) == Some(line@));
            assert(views(lines@) == line_texts(frontmatter@));
            let rest_of_line = from_chars(&copy_range(line, from, line.len()));
            assert(rest_of_line@ == without_prefixes(line@, "tags:"@));
            return tags_of(rest_of_line.as_str());
        }
        i += 1;
    }
    proof {
        assert(views(lines@).skip(lines.len() as int) =~= Seq::<Seq<char>>::empty());
    }
    let r: Vec<String> = Vec::new();
    assert(str_views(r@) =~= Seq::empty());
    r
}

/// The metadata that the observer hands back for a note with the tags
/// `tags`: the list of the tags.
pub fn tags_result(tags: &Vec<String>) -> (r: ObserverResult)
    ensures
        r@.content is None,
        r@.metadata == Some(
            Map::<Seq<char>, Seq<char>>::empty().insert("tags"@, join(str_views(tags@), ", "@)),
        ),
{
    let mut parts: Vec<Vec<char>> = Vec::new();
    let mut i: usize = 0;
    while i < tags.len()
        invariant
            i <= tags.len(),
            parts@.len() == i,
            forall|j: int| 0 <= j < i ==> (#[trigger] parts@[j])@ == tags@[j]@,
        decreases tags.len() - i,
    {
        parts.push(to_chars(tags[i].as_str()));
        i += 1;
    }
    assert(views(parts@) =~= str_views(tags@));
    let list = from_chars(&join_chars(&parts, &to_chars(", ")));
    let mut metadata = FieldMap::new();
    metadata.insert(String::from_str("tags"), list);
    ObserverResult { metadata: Some(metadata), content: None }
}

/// The observer that keeps the tag index. It holds where the index stands.
pub struct TagIndexObserver {
    pub index_path: String,
    pub settings: Settings,
}

/// The text of an index that lists no note yet.
pub fn empty_index() -> (r: String)
    ensures
        r@ == "# Tag Index\n\n"@,
{
    String::from_str("# Tag Index\n\n")
}

impl TagIndexObserver {
    /// The observer of the index in the note directory of the settings. The
    /// index is the note `_tag_index.md` of that directory; where the path of
    /// the directory and that name do not join to a text, the name alone is
    /// the path.
    pub fn new(settings: Settings) -> (r: Self)
        ensures
            r.settings == settings,
    {
        let index_path = match crate::utils::path_join(settings.note_dir.as_str(), "_tag_index.md") {
            Some(path) => path,
            None => String::from_str("_tag_index.md"),
        };
        TagIndexObserver { index_path, settings }
    }

    /// The name of the observer, by which it is pinned behind the others.
    pub fn name(&self) -> (r: String)
        ensures
            r@ == "tag_index"@,
    {
        String::from_str("tag_index")
    }

    /// The priority of the observer.
    pub fn priority(&self) -> (r: i32)
        ensures
            r == -99,
    {
        -99
    }

    /// The tags of the note of an event that go into the index; none where
    /// the note has no field `tags`.
    pub fn event_tags(&self, event: &NoteEvent) -> (r: Option<Vec<String>>)
        ensures
            match r {
                Some(tags) => event@.frontmatter.contains_key("tags"@) && str_views(tags@)
                    == index_tags(list_items(event@.frontmatter["tags"@])),
                None => !event@.frontmatter.contains_key("tags"@),
            },
    {
        match event.frontmatter().get("tags") {
            Some(list) => Some(tags_of(list.as_str())),
            None => None,
        }
    }

    /// The text of the index after the note of the event was given its
    /// tags, where `existing` is the text of the index before; and what the
    /// observer hands back. Nothing where the note has no field `tags`.
    pub fn index_event(&self, event: &NoteEvent, existing: &str) -> (r: Option<
        (String, ObserverResult),
    >)
        ensures
            match r {
                Some(update) => event@.frontmatter.contains_key("tags"@) && update.0@
                    == updated_index(
                    existing@,
                    event@.title,
                    index_tags(list_items(event@.frontmatter["tags"@])),
                    self.settings.file_type@,
                ) && update.1@.content is None && update.1@.metadata == Some(
                    Map::<Seq<char>, Seq<char>>::empty().insert(
                        "tags"@,
                        join(index_tags(list_items(event@.frontmatter["tags"@])), ", "@),
                    ),
                ),
                None => !event@.frontmatter.contains_key("tags"@),
            },
    {
        match self.event_tags(event) {
            Some(tags) => {
                let text = update_index(
                    existing,
                    event.title().as_str(),
                    &tags,
                    self.settings.file_type.as_str(),
                );
                Some((text, tags_result(&tags)))
            },
            None => None,
        }
    }
}

} // verus!
