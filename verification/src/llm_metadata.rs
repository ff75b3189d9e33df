//! Tidying what a language model proposes as metadata of a note: only tags
//! that are known already are taken, five at most, and the summary is cut to
//! three sentences.
use vstd::prelude::*;
use vstd::string::StringExecFns;
use crate::event::ObserverResult;
use crate::fields::FieldMap;
use crate::metadata::{list_items, split_list, trim_all};
use crate::note::non_empty;
use crate::observer_registry::has_name;
use crate::order::clone_chars;
use crate::split::{join, join_chars, split_chars, split_on, str_views, views};
use crate::text::{from_chars, push_str, to_chars, trim_chars};

verus! {

/// The items of all the lists, in order.
pub open spec fn all_items(lists: Seq<Seq<char>>) -> Seq<Seq<char>>
    decreases lists.len(),
{
    if lists.len() == 0 {
        Seq::empty()
    } else {
        all_items(lists.drop_last()) + list_items(lists.last())
    }
}

/// The tags that the store knows: the items of all lists of tags that it
/// holds.
pub fn existing_tags(lists: &Vec<String>) -> (r: Vec<String>)
    ensures
        str_views(r@) == all_items(str_views(lists@)),
{
    let mut r: Vec<String> = Vec::new();
    let mut i: usize = 0;
    assert(str_views(lists@).take(0) =~= Seq::empty());
    assert(str_views(r@) =~= Seq::empty());
    while i < lists.len()
        invariant
            i <= lists.len(),
            str_views(r@) == all_items(str_views(lists@).take(i as int)),
        decreases lists.len() - i,
    {
        proof {
            let next = str_views(lists@).take(i + 1);
            assert(next.drop_last() =~= str_views(lists@).take(i as int));
            assert(next.last() == lists@[i as int]@);
        }
        let items = split_list(&to_chars(lists[i].as_str()));
        let ghost before = str_views(r@);
        let mut k: usize = 0;
        while k < items.len()
            invariant
                k <= items.len(),
                str_views(r@) == before + views(items@).take(k as int),
            decreases items.len() - k,
        {
            let ghost was = str_views(r@);
            let item = from_chars(&items[k]);
            r.push(item);
            assert(str_views(r@) =~= was.push(items@[k as int]@));
            assert(views(items@).take(k + 1) =~= views(items@).take(k as int).push(items@[k as int]@));
            k += 1;
        }
        assert(views(items@).take(items.len() as int) =~= views(items@));
        i += 1;
    }
    assert(str_views(lists@).take(lists.len() as int) =~= str_views(lists@));
    r
}

/// The first tags of `proposed` that `known` holds, `limit` at most.
pub open spec fn known_tags(proposed: Seq<Seq<char>>, known: Seq<Seq<char>>, limit: int) -> Seq<
    Seq<char>,
>
    decreases proposed.len(),
{
    if proposed.len() == 0 {
        proposed
    } else {
        let before = known_tags(proposed.drop_last(), known, limit);
        if before.len() < limit && known.contains(proposed.last()) {
            before.push(proposed.last())
        } else {
            before
        }
    }
}

/// The tags of a note: of the proposed tags those that are known, five at
/// most.
pub fn choose_tags(proposed: &Vec<String>, known: &Vec<String>) -> (r: Vec<String>)
    ensures
        str_views(r@) == known_tags(str_views(proposed@), str_views(known@), 5),
{
    let mut r: Vec<String> = Vec::new();
    let mut i: usize = 0;
    assert(str_views(proposed@).take(0) =~= Seq::empty());
    assert(str_views(r@) =~= Seq::empty());
    while i < proposed.len()
        invariant
            i <= proposed.len(),
            str_views(r@) == known_tags(str_views(proposed@).take(i as int), str_views(known@), 5),
        decreases proposed.len() - i,
    {
        proof {
            let next = str_views(proposed@).take(i + 1);
            assert(next.drop_last() =~= str_views(proposed@).take(i as int));
            assert(next.last() == proposed@[i as int]@);
        }
        if r.len() < 5 && has_name(known, &proposed[i]) {
            let ghost before = str_views(r@);
            r.push(proposed[i].clone());
            assert(str_views(r@) =~= before.push(proposed@[i as int]@));
        }
        i += 1;
    }
    assert(str_views(proposed@).take(proposed.len() as int) =~= str_views(proposed@));
    r
}

/// The first `limit` of the texts.
pub open spec fn first_of(texts: Seq<Seq<char>>, limit: int) -> Seq<Seq<char>> {
    if texts.len() <= limit {
        texts
    } else {
        texts.take(limit)
    }
}

/// The summary of a note: the first three sentences of the proposed text,
/// each trimmed, with a full stop and a blank between them and a full stop
/// at the end. A sentence is what stands between two full stops and is not
/// blank.
pub open spec fn summary_of(text: Seq<char>) -> Seq<char> {
    join(first_of(non_empty(trim_all(split_on(text, '.'))), 3), ". "@) + "."@
}

/// The summary of a note.
pub fn summarize(text: &str) -> (r: String)
    ensures
        r@ == summary_of(text@),
{
    let pieces = split_chars(&to_chars(text), '.');
    let ghost all = trim_all(views(pieces@));
    let mut kept: Vec<Vec<char>> = Vec::new();
    let mut i: usize = 0;
    assert(all.take(0) =~= Seq::empty());
    assert(views(kept@) =~= Seq::empty());
    while i < pieces.len()
        invariant
            i <= pieces.len(),
            all == trim_all(views(pieces@)),
            views(kept@) == non_empty(all.take(i as int)),
        decreases pieces.len() - i,
    {
        let sentence = trim_chars(&pieces[i]);
        proof {
            let next = all.take(i + 1);
            assert(next.drop_last() =~= all.take(i as int));
            assert(next.last() == sentence@);
        }
        if sentence.len() > 0 {
            let ghost before = views(kept@);
            kept.push(sentence);
            assert(views(kept@) =~= before.push(sentence@));
        }
        i += 1;
    }
    assert(all.take(pieces.len() as int) =~= all);
    let mut first: Vec<Vec<char>> = Vec::new();
    let mut k: usize = 0;
    while k < kept.len() && k < 3
        invariant
            k <= kept.len(),
            k <= 3,
            views(first@) == views(kept@).take(k as int),
        decreases kept.len() - k,
    {
        let ghost before = views(first@);
        first.push(clone_chars(&kept[k]));
        assert(views(first@) =~= before.push(kept@[k as int]@));
        assert(views(kept@).take(k + 1) =~= views(kept@).take(k as int).push(kept@[k as int]@));
        k += 1;
    }
    assert(views(first@) =~= first_of(views(kept@), 3)) by {
        if kept.len() <= 3 {
            assert(views(kept@).take(kept.len() as int) =~= views(kept@));
        }
    }
    let mut out = join_chars(&first, &to_chars(". "));
    push_str(&mut out, ".");
    from_chars(&out)
}

/// What the observer hands back: the tags as a list, and the summary.
pub fn llm_result(tags: &Vec<String>, summary: String) -> (r: ObserverResult)
    ensures
        r@.content is None,
        r@.metadata == Some(
            Map::<Seq<char>, Seq<char>>::empty().insert("tags"@, join(str_views(tags@), ", "@)).insert(
                "summary"@,
                summary@,
            ),
        ),
{
    let mut parts: Vec<Vec<char>> = Vec::new();
    let mut i: usize = 0;
    while i < tags.len()
        invariant
            i <= tags.len(),
            parts@.len() == i,
            forall|j: int| 0 <= j < i ==> (#[trigger] parts@[j])@ == tags@[j]@,
        decreases tags.len() - i,
    {
        parts.push(to_chars(tags[i].as_str()));
        i += 1;
    }
    assert(views(parts@) =~= str_views(tags@));
    let mut metadata = FieldMap::new();
    metadata.insert(String::from_str("tags"), from_chars(&join_chars(&parts, &to_chars(", "))));
    metadata.insert(String::from_str("summary"), summary);
    ObserverResult { metadata: Some(metadata), content: None }
}

} // verus!
