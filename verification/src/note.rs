//! A note: its title, its body and its frontmatter, and the text of its
//! file, which begins with the frontmatter between two lines `---`.
use std::collections::BTreeMap;
use std::collections::HashMap;
use vstd::prelude::*;
use vstd::string::StringExecFns;
use crate::fields::{FieldMap, distinct_keys, map_of, pair_views};
use crate::lines::{line_texts, lines_of};
use crate::metadata::{list_items, lookup, split_list};
use crate::order::clone_chars;
use crate::settings::Settings;
use crate::split::{join, join_chars, views};
use crate::text::{
    chars_eq, contains_text, copy_range, find_from, from_chars, has_prefix, has_text, occurs_at,
    push_str, starts_with, to_chars, trim, trim_chars,
};

verus! {

/// The error of `serde_yaml`, of which nothing is known.
#[verifier::external_type_specification]
#[verifier::external_body]
pub struct ExYamlError(serde_yaml::Error);

/// The YAML document that holds the fields of `fields` in the order of
/// their keys; `None` where the fields cannot be written as YAML.
pub uninterp spec fn yaml_text(fields: Map<Seq<char>, Seq<char>>) -> Option<Seq<char>>;

/// The map from texts to texts that the YAML document `text` holds, if it
/// is such a document.
pub uninterp spec fn yaml_fields(text: Seq<char>) -> Option<Map<Seq<char>, Seq<char>>>;

/// Writes the pairs, as a map ordered by key, with `serde_yaml::to_string`.
/// Of two pairs with one key the later one counts. Whether a document comes
/// back, and which, depends on the map alone.
#[verifier::external_body]
fn write_yaml(pairs: &Vec<(String, String)>) -> (r: Result<String, serde_yaml::Error>)
    ensures
        match r {
            Ok(text) => yaml_text(map_of(pair_views(pairs@))) == Some(text@),
            Err(_) => yaml_text(map_of(pair_views(pairs@))) is None,
        },
{
    let map: BTreeMap<&str, &str> = pairs.iter().map(|p| (p.0.as_str(), p.1.as_str())).collect();
    serde_yaml::to_string(&map)
}

/// Reads `text` with `serde_yaml::from_str` as a map from strings to
/// strings and hands its entries out. The entries have distinct keys and
/// describe the map that the document holds; a text that is no such
/// document gives the error of `serde_yaml`.
#[verifier::external_body]
fn read_yaml(text: &str) -> (r: Result<Vec<(String, String)>, serde_yaml::Error>)
    ensures
        match r {
            Ok(pairs) => distinct_keys(pair_views(pairs@)) && yaml_fields(text@) == Some(
                map_of(pair_views(pairs@)),
            ),
            Err(_) => yaml_fields(text@) is None,
        },
{
    let map: HashMap<String, String> = serde_yaml::from_str(text)?;
    Ok(map.into_iter().collect())
}

/// The first position at or after `from` where `pat` occurs in `s`, or -1.
pub open spec fn first_match(s: Seq<char>, pat: Seq<char>, from: int) -> int
    decreases s.len() + 1 - from,
{
    if from < 0 || from + pat.len() > s.len() {
        -1
    } else if occurs_at(s, pat, from) {
        from
    } else {
        first_match(s, pat, from + 1)
    }
}

pub proof fn lemma_first_match(s: Seq<char>, pat: Seq<char>, from: int, k: int)
    requires
        0 <= from <= k,
        forall|j: int| from <= j < k ==> !occurs_at(s, pat, j),
        occurs_at(s, pat, k) || forall|j: int| from <= j ==> !occurs_at(s, pat, j),
    ensures
        first_match(s, pat, from) == (if occurs_at(s, pat, k) {
            k
        } else {
            -1
        }),
    decreases s.len() + 1 - from,
{
    if from + pat.len() <= s.len() && !occurs_at(s, pat, from) {
        if occurs_at(s, pat, k) {
            lemma_first_match(s, pat, from + 1, k);
        } else {
            lemma_first_match(s, pat, from + 1, from + 1);
        }
    }
}

/// What stands in `s` before the first occurrence of `pat`; all of `s`
/// where `pat` does not occur.
pub open spec fn before_first(s: Seq<char>, pat: Seq<char>) -> Seq<char> {
    if first_match(s, pat, 0) >= 0 {
        s.take(first_match(s, pat, 0))
    } else {
        s
    }
}

/// What stands in `s` after the first occurrence of `pat`, if it occurs.
pub open spec fn after_first(s: Seq<char>, pat: Seq<char>) -> Option<Seq<char>> {
    if first_match(s, pat, 0) >= 0 {
        Some(s.skip(first_match(s, pat, 0) + pat.len()))
    } else {
        None
    }
}

/// Cuts `s` at the first occurrence of `pat`.
pub fn cut_at(s: &Vec<char>, pat: &Vec<char>) -> (r: (Vec<char>, Option<Vec<char>>))
    ensures
        r.0@ == before_first(s@, pat@),
        match r.1 {
            Some(rest) => after_first(s@, pat@) == Some(rest@),
            None => after_first(s@, pat@) is None,
        },
{
    match find_from(s, pat, 0) {
        Some(k) => {
            proof {
                lemma_first_match(s@, pat@, 0, k as int);
                assert(occurs_at(s@, pat@, k as int));
                assert(k + pat.len() <= s.len());
            }
            let head = copy_range(s, 0, k);
            let rest = copy_range(s, k + pat.len(), s.len());
            assert(s@.subrange(0, k as int) == s@.take(k as int));
            assert(s@.subrange(k + pat.len(), s.len() as int) == s@.skip(k + pat.len()));
            (head, Some(rest))
        },
        None => {
            proof {
                lemma_first_match(s@, pat@, 0, 0);
            }
            (clone_chars(s), None)
        },
    }
}

/// The items of the list that are not empty.
pub open spec fn non_empty(items: Seq<Seq<char>>) -> Seq<Seq<char>>
    decreases items.len(),
{
    if items.len() == 0 {
        items
    } else if items.last().len() == 0 {
        non_empty(items.drop_last())
    } else {
        non_empty(items.drop_last()).push(items.last())
    }
}

/// A list of tags in its tidy form: its items that are not empty, with a
/// comma and a blank between them.
pub open spec fn tidy_list(s: Seq<char>) -> Seq<char> {
    join(non_empty(list_items(s)), ", "@)
}

/// Brings a list of tags into its tidy form.
pub fn tidy_tags(s: &str) -> (r: String)
    ensures
        r@ == tidy_list(s@),
{
    let items = split_list(&to_chars(s));
    let mut kept: Vec<Vec<char>> = Vec::new();
    let mut i: usize = 0;
    assert(views(items@).take(0) =~= Seq::empty());
    while i < items.len()
        invariant
            i <= items.len(),
            views(kept@) == non_empty(views(items@).take(i as int)),
        decreases items.len() - i,
    {
        proof {
            let next = views(items@).take(i + 1);
            assert(next.drop_last() =~= views(items@).take(i as int));
            assert(next.last() == items@[i as int]@);
        }
        if items[i].len() > 0 {
            let ghost before = views(kept@);
            kept.push(clone_chars(&items[i]));
            assert(views(kept@) =~= before.push(items@[i as int]@));
        }
        i += 1;
    }
    assert(views(items@).take(items.len() as int) =~= views(items@));
    from_chars(&join_chars(&kept, &to_chars(", ")))
}

/// What the tidying of a body remembers from line to line.
pub struct Tidying {
    /// Still before the first line of the body proper.
    pub leading: bool,
    /// A first-level heading was kept already.
    pub heading_seen: bool,
    /// Inside a fenced query block.
    pub in_query: bool,
    /// Inside the table of contents.
    pub in_contents: bool,
}

/// The state at the first line of a body.
pub open spec fn tidying_start() -> Tidying {
    Tidying { leading: true, heading_seen: false, in_query: false, in_contents: false }
}

/// Whether a line before the body proper is passed over: a blank line, a
/// line `---`, or a line that holds a colon and a blank.
pub open spec fn is_leading_noise(line: Seq<char>) -> bool {
    trim(line).len() == 0 || trim(line) == "---"@ || contains_text(line, ": "@)
}

/// The state after `line`, and whether the line is kept.
///
/// Fenced query blocks and the table of contents are kept as they are.
/// Of the other lines, blank lines and frontmatter at the start are dropped,
/// and so is every first-level heading after the first.
pub open spec fn tidy_step(st: Tidying, line: Seq<char>) -> (Tidying, bool) {
    if starts_with(line, "```sql"@) {
        (Tidying { in_query: true, ..st }, true)
    } else if st.in_query {
        (Tidying { in_query: !starts_with(line, "```"@), ..st }, true)
    } else if starts_with(line, "## Contents"@) {
        (Tidying { in_contents: true, ..st }, true)
    } else if st.in_contents && !starts_with(line, "## "@) {
        (st, true)
    } else {
        let st1 = Tidying { in_contents: false, ..st };
        if st1.leading && is_leading_noise(line) {
            (st1, false)
        } else {
            let st2 = Tidying { leading: false, ..st1 };
            if starts_with(line, "# "@) {
                (Tidying { heading_seen: true, ..st2 }, !st2.heading_seen)
            } else {
                (st2, true)
            }
        }
    }
}

/// The lines that the tidying keeps, from the state `st` on.
pub open spec fn tidied(lines: Seq<Seq<char>>, st: Tidying) -> Seq<Seq<char>>
    decreases lines.len(),
{
    if lines.len() == 0 {
        lines
    } else {
        let step = tidy_step(st, lines[0]);
        if step.1 {
            seq![lines[0]] + tidied(lines.drop_first(), step.0)
        } else {
            tidied(lines.drop_first(), step.0)
        }
    }
}

/// The heading that begins the references of a note, as it stands in a
/// body.
pub open spec fn references_mark() -> Seq<char> {
    "\n## References\n"@
}

/// The line that begins the list of similar notes within the references.
pub open spec fn similar_mark() -> Seq<char> {
    "\n\nSimilar notes:\n"@
}

/// The body of a note as it is written to its file: the part before the
/// references tidied, then the references and the similar notes as they
/// are.
pub open spec fn note_body(content: Seq<char>) -> Seq<char> {
    let main = join(tidied(line_texts(before_first(content, references_mark())), tidying_start()), "\n"@);
    match after_first(content, references_mark()) {
        None => main,
        Some(rest) => {
            let refs = before_first(rest, references_mark());
            match after_first(refs, similar_mark()) {
                None => main + "\n\n## References\n"@ + refs,
                Some(similar) => main + "\n\n## References\n"@ + before_first(refs, similar_mark())
                    + "\n\nSimilar notes:\n"@ + before_first(similar, similar_mark()),
            }
        },
    }
}

/// The text of the file of a note: the frontmatter `yaml` between two
/// lines `---`, an empty line, and the body.
pub open spec fn note_text(yaml: Seq<char>, content: Seq<char>) -> Seq<char> {
    "---\n"@ + yaml + "---\n\n"@ + note_body(content)
}

/// One step of the tidying.
fn tidy_line(st: Tidying, line: &Vec<char>) -> (r: (Tidying, bool))
    ensures
        r == tidy_step(st, line@),
{
    if has_prefix(line, &to_chars("```sql")) {
        (Tidying { in_query: true, ..st }, true)
    } else if st.in_query {
        (Tidying { in_query: !has_prefix(line, &to_chars("```")), ..st }, true)
    } else if has_prefix(line, &to_chars("## Contents")) {
        (Tidying { in_contents: true, ..st }, true)
    } else if st.in_contents && !has_prefix(line, &to_chars("## ")) {
        (st, true)
    } else {
        let st1 = Tidying { in_contents: false, ..st };
        let trimmed = trim_chars(line);
        if st1.leading && (trimmed.len() == 0 || chars_eq(&trimmed, &to_chars("---")) || has_text(
            line,
            &to_chars(": "),
        )) {
            (st1, false)
        } else {
            let st2 = Tidying { leading: false, ..st1 };
            if has_prefix(line, &to_chars("# ")) {
                (Tidying { heading_seen: true, ..st2 }, !st2.heading_seen)
            } else {
                (st2, true)
            }
        }
    }
}

/// The body of a note as it is written to its file.
pub fn tidy_body(content: &Vec<char>) -> (r: Vec<char>)
    ensures
        r@ == note_body(content@),
{
    let refs_mark = to_chars("\n## References\n");
    let similar_mark = to_chars("\n\nSimilar notes:\n");
    let (head, rest) = cut_at(content, &refs_mark);
    let lines = lines_of(&head);
    let mut kept: Vec<Vec<char>> = Vec::new();
    let mut st = Tidying { leading: true, heading_seen: false, in_query: false, in_contents: false };
    let mut i: usize = 0;
    assert(views(lines@).skip(0) =~= views(lines@));
    assert(views(kept@) + tidied(views(lines@), st) =~= tidied(views(lines@), st));
    while i < lines.len()
        invariant
            i <= lines.len(),
            tidied(views(lines@), tidying_start()) == views(kept@) + tidied(
                views(lines@).skip(i as int),
                st,
            ),
        decreases lines.len() - i,
    {
        let ghost rest_lines = views(lines@).skip(i as int);
        let ghost before = views(kept@);
        proof {
            assert(rest_lines[0] == lines@[i as int]@);
            assert(rest_lines.drop_first() =~= views(lines@).skip(i + 1));
        }
        let (next, keep) = tidy_line(st, &lines[i]);
        if keep {
            kept.push(clone_chars(&lines[i]));
            assert(views(kept@) =~= before.push(lines@[i as int]@));
            assert(before + (seq![lines@[i as int]@] + tidied(views(lines@).skip(i + 1), next))
                =~= before.push(lines@[i as int]@) + tidied(views(lines@).skip(i + 1), next));
        }
        st = next;
        i += 1;
    }
    assert(tidied(views(lines@).skip(lines.len() as int), st) =~= Seq::empty());
    assert(views(kept@) + Seq::<Seq<char>>::empty() =~= views(kept@));
    let mut out = join_chars(&kept, &to_chars("\n"));
    match rest {
        None => out,
        Some(rest) => {
            let (refs, _) = cut_at(&rest, &refs_mark);
            let (refs_head, similar) = cut_at(&refs, &similar_mark);
            push_str(&mut out, "\n\n## References\n");
            match similar {
                None => {
                    crate::text::push_all(&mut out, &refs);
                    out
                },
                Some(similar) => {
                    let (similar_head, _) = cut_at(&similar, &similar_mark);
                    crate::text::push_all(&mut out, &refs_head);
                    push_str(&mut out, "\n\nSimilar notes:\n");
                    crate::text::push_all(&mut out, &similar_head);
                    out
                },
            }
        },
    }
}

/// The text of the file of a note with the frontmatter `yaml` and the
/// body `content`.
pub fn render_note(yaml: &str, content: &str) -> (r: String)
    ensures
        r@ == note_text(yaml@, content@),
{
    let mut out = to_chars("---\n");
    push_str(&mut out, yaml);
    push_str(&mut out, "---\n\n");
    crate::text::push_all(&mut out, &tidy_body(&to_chars(content)));
    from_chars(&out)
}

/// A note: its title, which is the stem of its file name, its body, and
/// its frontmatter.
pub struct Note {
    title: String,
    content: String,
    frontmatter: FieldMap,
}

/// A note as plain values.
pub struct NoteView {
    pub title: Seq<char>,
    pub content: Seq<char>,
    pub frontmatter: Map<Seq<char>, Seq<char>>,
}

impl View for Note {
    type V = NoteView;

    closed spec fn view(&self) -> NoteView {
        NoteView { title: self.title@, content: self.content@, frontmatter: self.frontmatter@ }
    }
}

/// The frontmatter of a new note: the given fields, with the list of tags
/// in its tidy form.
pub open spec fn tidy_fields(fields: Map<Seq<char>, Seq<char>>) -> Map<Seq<char>, Seq<char>> {
    if fields.contains_key("tags"@) {
        fields.insert("tags"@, tidy_list(fields["tags"@]))
    } else {
        fields
    }
}

/// The frontmatter of a note as it stands in the note's file: the YAML
/// document of its fields, or nothing where the fields cannot be written.
pub open spec fn frontmatter_text(fields: Map<Seq<char>, Seq<char>>) -> Seq<char> {
    match yaml_text(fields) {
        Some(text) => text,
        None => Seq::empty(),
    }
}

impl Note {
    /// The note with the given title, body and frontmatter; its tags are
    /// brought into their tidy form.
    pub fn new(title: String, content: String, frontmatter_fields: FieldMap) -> (r: Self)
        ensures
            r@ == (NoteView {
                title: title@,
                content: content@,
                frontmatter: tidy_fields(frontmatter_fields@),
            }),
    {
        let mut fields = frontmatter_fields;
        let tidy = match fields.get("tags") {
            Some(tags) => Some(tidy_tags(tags.as_str())),
            None => None,
        };
        match tidy {
            Some(tags) => {
                fields.insert(String::from_str("tags"), tags);
            },
            None => {},
        }
        Note { title, content, frontmatter: fields }
    }

    /// The note's title.
    pub fn title(&self) -> (r: &String)
        ensures
            r@ == self@.title,
    {
        &self.title
    }

    /// The note's body.
    pub fn content(&self) -> (r: &String)
        ensures
            r@ == self@.content,
    {
        &self.content
    }

    /// The note's frontmatter.
    pub fn frontmatter(&self) -> (r: &FieldMap)
        ensures
            r@ == self@.frontmatter,
    {
        &self.frontmatter
    }

    /// The text of the note's file. Where the frontmatter cannot be
    /// written as YAML, the text holds none.
    pub fn to_string(&self, _settings: &Settings) -> (r: String)
        ensures
            r@ == note_text(frontmatter_text(self@.frontmatter), self@.content),
    {
        let pairs = self.frontmatter.to_pairs();
        let yaml = match write_yaml(&pairs) {
            Ok(text) => text,
            Err(_) => String::new(),
        };
        render_note(yaml.as_str(), self.content.as_str())
    }
}

/// The frontmatter text and the body of the text of a note file: the
/// frontmatter stands between the first line `---` and the next line
/// `---`, and the body, trimmed, after that line. `None`: the text has no
/// such frontmatter.
pub open spec fn frontmatter_split(raw: Seq<char>) -> Option<(Seq<char>, Seq<char>)> {
    match after_first(raw, "---\n"@) {
        None => None,
        Some(rest) => match after_first(rest, "\n---\n"@) {
            None => None,
            Some(body) => Some((before_first(rest, "\n---\n"@), trim(body))),
        },
    }
}

/// Cuts the text of a note file into its frontmatter and its body.
pub fn split_frontmatter(raw: &str) -> (r: Option<(String, String)>)
    ensures
        match r {
            Some(parts) => frontmatter_split(raw@) == Some((parts.0@, parts.1@)),
            None => frontmatter_split(raw@) is None,
        },
{
    let (_, rest) = cut_at(&to_chars(raw), &to_chars("---\n"));
    match rest {
        None => None,
        Some(rest) => {
            let (frontmatter, body) = cut_at(&rest, &to_chars("\n---\n"));
            match body {
                None => None,
                Some(body) => Some((from_chars(&frontmatter), from_chars(&trim_chars(&body)))),
            }
        },
    }
}

/// The fields with a `created_at` of `created` where they had none.
pub open spec fn with_created_at(fields: Map<Seq<char>, Seq<char>>, created: Seq<char>) -> Map<
    Seq<char>,
    Seq<char>,
> {
    if fields.contains_key("created_at"@) {
        fields
    } else {
        fields.insert("created_at"@, created)
    }
}

/// What loading the text `raw` of a note file gives: the body and the
/// frontmatter. A text without frontmatter, or with frontmatter that is no
/// YAML map of texts, is taken whole as the body, with empty frontmatter.
/// Either way the frontmatter gets a `created_at` of `created` where it
/// has none.
pub open spec fn loaded(raw: Seq<char>, created: Seq<char>) -> (Seq<char>, Map<Seq<char>, Seq<char>>) {
    match frontmatter_split(raw) {
        Some((frontmatter, body)) => match yaml_fields(frontmatter) {
            Some(fields) => (body, with_created_at(fields, created)),
            None => (raw, with_created_at(Map::empty(), created)),
        },
        None => (raw, with_created_at(Map::empty(), created)),
    }
}

/// Gives the fields a `created_at` of `created` where they have none.
pub fn ensure_created_at(fields: &mut FieldMap, created: &str)
    ensures
        final(fields)@ == with_created_at(old(fields)@, created@),
{
    if !fields.contains_key("created_at") {
        fields.insert(String::from_str("created_at"), String::from_str(created));
    }
}

/// Loads a note from the text `raw` of its file; `created` is the time at
/// which the file was made.
pub fn parse_note(raw: &str, created: &str) -> (r: (String, FieldMap))
    ensures
        (r.0@, r.1@) == loaded(raw@, created@),
{
    match split_frontmatter(raw) {
        Some((frontmatter, body)) => {
            match read_yaml(frontmatter.as_str()) {
                Ok(pairs) => {
                    let mut fields = FieldMap::from_pairs(&pairs);
                    ensure_created_at(&mut fields, created);
                    return (body, fields);
                },
                Err(_) => {},
            }
        },
        None => {},
    }
    let mut fields = FieldMap::new();
    ensure_created_at(&mut fields, created);
    (String::from_str(raw), fields)
}

} // verus!
