//! The list of similar notes at the end of a note.
use vstd::prelude::*;
use crate::note::split_frontmatter;
use crate::note::frontmatter_split;
use crate::observer_registry::has_name;
use crate::split::str_views;
use crate::text::{
    copy_range, from_chars, matches_at, occurs_at, push_all, push_str, to_chars, trim, trim_chars,
};

verus! {

/// The text of a note that is compared with other notes: its body without
/// the frontmatter, trimmed.
pub open spec fn compared_text(text: Seq<char>) -> Seq<char> {
    match frontmatter_split(text) {
        Some(parts) => parts.1,
        None => trim(text),
    }
}

/// The text of a note that is compared with other notes.
pub fn extract_content(text: &str) -> (r: String)
    ensures
        r@ == compared_text(text@),
{
    match split_frontmatter(text) {
        Some((_, body)) => body,
        None => from_chars(&trim_chars(&to_chars(text))),
    }
}

/// Whether a note is left out of the comparison.
pub fn is_excluded(title: &String, excluded: &Option<Vec<String>>) -> (r: bool)
    ensures
        r == match *excluded {
            Some(names) => str_views(names@).contains(title@),
            None => false,
        },
{
    match excluded {
        Some(names) => has_name(names, title),
        None => false,
    }
}

/// The last position at or before `k` where `pat` occurs in `s`, or -1.
pub open spec fn last_match(s: Seq<char>, pat: Seq<char>, k: int) -> int
    decreases k + 1,
{
    if k < 0 {
        -1
    } else if occurs_at(s, pat, k) {
        k
    } else {
        last_match(s, pat, k - 1)
    }
}

/// The decimal digits of `n`.
pub open spec fn decimal(n: nat) -> Seq<char>
    decreases n,
{
    if n < 10 {
        seq![digit(n)]
    } else {
        decimal(n / 10).push(digit(n % 10))
    }
}

/// The digit for a number below ten.
pub open spec fn digit(d: nat) -> char {
    if d == 0 {
        '0'
    } else if d == 1 {
        '1'
    } else if d == 2 {
        '2'
    } else if d == 3 {
        '3'
    } else if d == 4 {
        '4'
    } else if d == 5 {
        '5'
    } else if d == 6 {
        '6'
    } else if d == 7 {
        '7'
    } else if d == 8 {
        '8'
    } else {
        '9'
    }
}

fn digit_of(d: u32) -> (c: char)
    requires
        d < 10,
    ensures
        c == digit(d as nat),
{
    if d == 0 {
        '0'
    } else if d == 1 {
        '1'
    } else if d == 2 {
        '2'
    } else if d == 3 {
        '3'
    } else if d == 4 {
        '4'
    } else if d == 5 {
        '5'
    } else if d == 6 {
        '6'
    } else if d == 7 {
        '7'
    } else if d == 8 {
        '8'
    } else {
        '9'
    }
}

/// The decimal digits of `n`.
pub fn decimal_digits(n: u32) -> (r: Vec<char>)
    ensures
        r@ == decimal(n as nat),
    decreases n,
{
    if n < 10 {
        let mut r: Vec<char> = Vec::new();
        r.push(digit_of(n));
        r
    } else {
        let mut r = decimal_digits(n / 10);
        r.push(digit_of(n % 10));
        r
    }
}

/// A note that is similar to another: its title, and how similar it is, in
/// percent.
pub struct Similar {
    pub title: String,
    pub percent: u32,
}

/// A similar note as plain values.
pub struct SimilarView {
    pub title: Seq<char>,
    pub percent: nat,
}

impl View for Similar {
    type V = SimilarView;

    open spec fn view(&self) -> SimilarView {
        SimilarView { title: self.title@, percent: self.percent as nat }
    }
}

/// The similar notes of a vector as plain values.
pub open spec fn similar_views(v: Seq<Similar>) -> Seq<SimilarView> {
    Seq::new(v.len(), |i: int| v[i]@)
}

/// The lines of the references to the similar notes.
pub open spec fn reference_lines(similar: Seq<SimilarView>, file_type: Seq<char>) -> Seq<char>
    decreases similar.len(),
{
    if similar.len() == 0 {
        Seq::empty()
    } else {
        reference_lines(similar.drop_last(), file_type) + "- ["@ + similar.last().title + "](./"@
            + similar.last().title + "."@ + file_type + ") ("@ + decimal(similar.last().percent)
            + "% similar)\n"@
    }
}

/// The heading of the references to similar notes, as it stands in a body.
pub open spec fn similar_heading() -> Seq<char> {
    "\n## Similar Notes\n"@
}

/// The body without its last section of similar notes.
pub open spec fn without_references(content: Seq<char>) -> Seq<char> {
    let at = last_match(content, similar_heading(), content.len() as int);
    if at >= 0 {
        content.take(at)
    } else {
        content
    }
}

/// The body with the references to the similar notes at its end, in the
/// place of an earlier section of such references. Without similar notes
/// the body ends where that section began.
pub open spec fn with_references(
    content: Seq<char>,
    similar: Seq<SimilarView>,
    file_type: Seq<char>,
) -> Seq<char> {
    if similar.len() == 0 {
        without_references(content)
    } else {
        without_references(content) + "\n## Similar Notes\n\n"@ + reference_lines(similar, file_type)
    }
}

/// Puts the references to the similar notes at the end of the body.
pub fn append_references(content: &str, similar: &Vec<Similar>, file_type: &str) -> (r: String)
    ensures
        r@ == with_references(content@, similar_views(similar@), file_type@),
{
    let chars = to_chars(content);
    let heading = to_chars("\n## Similar Notes\n");
    let n = chars.len();
    let mut k: usize = n;
    let mut found = false;
    let mut exhausted = false;
    while !found && !exhausted
        invariant
            k <= n == chars.len(),
            heading@ == similar_heading(),
            !(found && exhausted),
            !found && !exhausted ==> last_match(chars@, heading@, n as int) == last_match(
                chars@,
                heading@,
                k as int,
            ),
            found ==> last_match(chars@, heading@, n as int) == k,
            exhausted ==> last_match(chars@, heading@, n as int) == -1,
        decreases
                k + (if !found && !exhausted {
                    1int
                } else {
                    0int
                }),
    {
        if matches_at(&chars, &heading, k) {
            found = true;
        } else if k == 0 {
            assert(last_match(chars@, heading@, -1) == -1);
            exhausted = true;
        } else {
            k -= 1;
        }
    }
    let mut out = if found {
        let head = copy_range(&chars, 0, k);
        assert(chars@.subrange(0, k as int) == chars@.take(k as int));
        head
    } else {
        let whole = copy_range(&chars, 0, n);
        assert(chars@.subrange(0, n as int) == chars@);
        whole
    };
    assert(out@ == without_references(content@));
    if similar.len() == 0 {
        return from_chars(&out);
    }
    push_str(&mut out, "\n## Similar Notes\n\n");
    let ghost head = out@;
    let ghost all = similar_views(similar@);
    let mut i: usize = 0;
    assert(all.take(0) =~= Seq::empty());
    assert(head + reference_lines(all.take(0), file_type@) =~= head);
    while i < similar.len()
        invariant
            i <= similar.len(),
            all == similar_views(similar@),
            out@ == head + reference_lines(all.take(i as int), file_type@),
        decreases similar.len() - i,
    {
        let ghost before = out@;
        push_str(&mut out, "- [");
        push_str(&mut out, similar[i].title.as_str());
        push_str(&mut out, "](./");
        push_str(&mut out, similar[i].title.as_str());
        push_str(&mut out, ".");
        push_str(&mut out, file_type);
        push_str(&mut out, ") (");
        push_all(&mut out, &decimal_digits(similar[i].percent));
        push_str(&mut out, "% similar)\n");
        proof {
            let next = all.take(i + 1);
            assert(next.drop_last() =~= all.take(i as int));
            assert(next.last() == similar@[i as int]@);
            assert(out@ =~= head + reference_lines(next, file_type@));
        }
        i += 1;
    }
    assert(all.take(similar.len() as int) =~= all);
    from_chars(&out)
}

} // verus!
