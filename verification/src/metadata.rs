//! Merging the metadata that an observer hands back into a field map.
//!
//! `tags` and `topics` hold comma-separated lists and are united; a
//! `created_at` once set stays; `timestamp` is never taken over; every other
//! field takes the incoming value.
use vstd::prelude::*;
use crate::fields::{FieldMap, distinct_keys, has_key, lemma_map_of_dom, map_of};
use crate::order::{
    clone_chars, lemma_sort_dedup_exists, lemma_sort_dedup_is, same_elements, sort_dedup,
    sort_dedup_chars, strictly_sorted,
};
use crate::split::{
    join, join_chars, lemma_split_concat, lemma_split_none, lemma_split_pieces, split_chars,
    split_on, views,
};
use crate::text::{
    from_chars, is_space, is_trimmed, leading_spaces, lemma_leading_spaces_bound,
    lemma_leading_spaces_is, lemma_trailing_spaces_bound, lemma_trim_is_trimmed,
    lemma_trimmed_fixed, str_eq, to_chars, trim, trim_chars, trim_start,
};

verus! {

/// Each text of the list, trimmed.
pub open spec fn trim_all(ps: Seq<Seq<char>>) -> Seq<Seq<char>> {
    Seq::new(ps.len(), |i: int| trim(ps[i]))
}

/// The items of a comma-separated list: its pieces between commas, trimmed.
/// An empty text has one item, the empty one.
pub open spec fn list_items(s: Seq<char>) -> Seq<Seq<char>> {
    trim_all(split_on(s, ','))
}

/// The items of a list value that may be absent.
pub open spec fn items_of(value: Option<Seq<char>>) -> Seq<Seq<char>> {
    match value {
        Some(s) => list_items(s),
        None => Seq::empty(),
    }
}

/// The list that holds the items of both lists, in increasing order, each
/// once, with a comma and a blank between them.
pub open spec fn merged_list(existing: Option<Seq<char>>, incoming: Seq<char>) -> Seq<char> {
    join(sort_dedup(items_of(existing) + list_items(incoming)), ", "@)
}

/// What the field `key` holds after the value `incoming` was merged into
/// it, where `existing` is what it held before; `None`: the field is absent.
pub open spec fn merged_value(
    key: Seq<char>,
    existing: Option<Seq<char>>,
    incoming: Seq<char>,
) -> Option<Seq<char>> {
    if key == "tags"@ || key == "topics"@ {
        Some(merged_list(existing, incoming))
    } else if key == "created_at"@ {
        match existing {
            Some(v) => Some(v),
            None => Some(incoming),
        }
    } else if key == "timestamp"@ {
        existing
    } else {
        Some(incoming)
    }
}

/// The value of `k` in `m`, if it has one.
pub open spec fn lookup(m: Map<Seq<char>, Seq<char>>, k: Seq<char>) -> Option<Seq<char>> {
    if m.contains_key(k) {
        Some(m[k])
    } else {
        None
    }
}

/// `m` after the single field (`k`, `v`) was merged into it.
pub open spec fn merge_one(m: Map<Seq<char>, Seq<char>>, k: Seq<char>, v: Seq<char>) -> Map<
    Seq<char>,
    Seq<char>,
> {
    match merged_value(k, lookup(m, k), v) {
        Some(x) => m.insert(k, x),
        None => m,
    }
}

/// `existing` after all fields of `incoming` were merged into it.
pub open spec fn merged(
    existing: Map<Seq<char>, Seq<char>>,
    incoming: Map<Seq<char>, Seq<char>>,
) -> Map<Seq<char>, Seq<char>> {
    Map::new(
        |k: Seq<char>|
            existing.contains_key(k) || (incoming.contains_key(k) && k != "timestamp"@),
        |k: Seq<char>|
            if incoming.contains_key(k) {
                match merged_value(k, lookup(existing, k), incoming[k]) {
                    Some(x) => x,
                    None => existing[k],
                }
            } else {
                existing[k]
            },
    )
}

/// Merging one more field, whose key the incoming map did not hold yet.
pub proof fn lemma_merge_step(
    existing: Map<Seq<char>, Seq<char>>,
    incoming: Map<Seq<char>, Seq<char>>,
    k: Seq<char>,
    v: Seq<char>,
)
    requires
        !incoming.contains_key(k),
    ensures
        merged(existing, incoming.insert(k, v)) == merge_one(merged(existing, incoming), k, v),
{
    reveal_strlit("tags");
    reveal_strlit("topics");
    reveal_strlit("created_at");
    reveal_strlit("timestamp");
    assert("tags"@.len() == 4 && "topics"@.len() == 6 && "created_at"@.len() == 10
        && "timestamp"@.len() == 9);
    let a = merged(existing, incoming.insert(k, v));
    let m = merged(existing, incoming);
    let b = merge_one(m, k, v);
    assert(lookup(m, k) == lookup(existing, k));
    assert forall|x: Seq<char>| a.contains_key(x) == b.contains_key(x) by {
        if x != k {
            assert(incoming.insert(k, v).contains_key(x) == incoming.contains_key(x));
            assert(b.contains_key(x) == m.contains_key(x));
        }
    }
    assert forall|x: Seq<char>| a.contains_key(x) implies a[x] == b[x] by {
        if x != k {
            assert(incoming.insert(k, v).contains_key(x) == incoming.contains_key(x));
            assert(b[x] == m[x]);
        }
    }
    assert(a =~= b);
}

/// Merging nothing changes nothing.
pub proof fn lemma_merge_empty(existing: Map<Seq<char>, Seq<char>>)
    ensures
        merged(existing, Map::empty()) == existing,
{
    assert(merged(existing, Map::empty()) =~= existing);
}

/// The trimmed items of a comma-separated list.
pub fn split_list(s: &Vec<char>) -> (r: Vec<Vec<char>>)
    ensures
        views(r@) == list_items(s@),
{
    let pieces = split_chars(s, ',');
    let mut r: Vec<Vec<char>> = Vec::new();
    let mut i: usize = 0;
    while i < pieces.len()
        invariant
            i <= pieces.len(),
            r.len() == i,
            forall|j: int| 0 <= j < i ==> (#[trigger] r@[j])@ == trim(pieces@[j]@),
        decreases pieces.len() - i,
    {
        r.push(trim_chars(&pieces[i]));
        i += 1;
    }
    assert(views(r@) =~= trim_all(views(pieces@)));
    r
}

/// Unites the list held by `existing`, if any, with the list `incoming`.
pub fn merge_lists(existing: Option<&String>, incoming: &str) -> (r: String)
    ensures
        r@ == merged_list(
            match existing {
                Some(s) => Some(s@),
                None => None,
            },
            incoming@,
        ),
{
    let mut all: Vec<Vec<char>> = match existing {
        Some(s) => split_list(&to_chars(s.as_str())),
        None => Vec::new(),
    };
    let ghost olds = views(all@);
    let news = split_list(&to_chars(incoming));
    let mut i: usize = 0;
    while i < news.len()
        invariant
            i <= news.len(),
            views(all@) == olds + views(news@).take(i as int),
        decreases news.len() - i,
    {
        let ghost before = views(all@);
        all.push(clone_chars(&news[i]));
        assert(views(all@) =~= before.push(news@[i as int]@));
        assert(views(news@).take(i + 1) =~= views(news@).take(i as int).push(news@[i as int]@));
        i += 1;
    }
    assert(views(news@).take(news.len() as int) =~= views(news@));
    let sorted = sort_dedup_chars(&all);
    let joined = join_chars(&sorted, &to_chars(", "));
    from_chars(&joined)
}

/// Merges the single field (`key`, `value`) into `existing`.
pub fn merge_field(existing: &mut FieldMap, key: &String, value: &String)
    ensures
        final(existing)@ == merge_one(old(existing)@, key@, value@),
{
    let k = key.as_str();
    if str_eq(k, "tags") || str_eq(k, "topics") {
        let united = merge_lists(existing.get(k), value.as_str());
        existing.insert(key.clone(), united);
    } else if str_eq(k, "created_at") {
        if !existing.contains_key(k) {
            existing.insert(key.clone(), value.clone());
        } else {
            assert(existing@ =~= existing@.insert(key@, existing@[key@]));
        }
    } else if str_eq(k, "timestamp") {
        proof {
            if existing@.contains_key(key@) {
                assert(existing@ =~= existing@.insert(key@, existing@[key@]));
            }
        }
    } else {
        existing.insert(key.clone(), value.clone());
    }
}

/// Merges the fields of `new` into `existing`.
///
/// `tags` and `topics` become the union of both lists, sorted and free of
/// duplicates; `created_at` is written only where `existing` has none;
/// `timestamp` is not taken over; any other field, `updated_at` among them,
/// takes the value of `new`.
pub fn merge_metadata(existing: &mut FieldMap, new: FieldMap)
    ensures
        final(existing)@ == merged(old(existing)@, new@),
{
    let n = new.len();
    let mut i: usize = 0;
    proof {
        assert(new.pairs().take(0) =~= Seq::empty());
        lemma_merge_empty(existing@);
    }
    while i < n
        invariant
            i <= n == new.pairs().len(),
            distinct_keys(new.pairs()),
            existing@ == merged(old(existing)@, map_of(new.pairs().take(i as int))),
        decreases n - i,
    {
        let ghost done = new.pairs().take(i as int);
        let ghost next = new.pairs().take(i + 1);
        match new.entry(i) {
            Some((key, value)) => {
                proof {
                    assert(next.drop_last() =~= done);
                    assert(next.last() == new.pairs()[i as int]);
                    lemma_map_of_dom(done, key@);
                    if has_key(done, key@) {
                        let j = choose|j: int| 0 <= j < done.len() && (#[trigger] done[j]).0 == key@;
                        assert(new.pairs()[j].0 == new.pairs()[i as int].0);
                    }
                    lemma_merge_step(old(existing)@, map_of(done), key@, value@);
                }
                merge_field(existing, key, value);
            },
            None => {},
        }
        i += 1;
    }
    assert(new.pairs().take(n as int) =~= new.pairs());
}

/// A list of items that are trimmed and free of commas, joined with a comma
/// and a blank, has exactly these items.
pub proof fn lemma_items_of_joined(items: Seq<Seq<char>>)
    requires
        items.len() > 0,
        forall|i: int| 0 <= i < items.len() ==> is_trimmed(#[trigger] items[i]),
        forall|i: int| 0 <= i < items.len() ==> !(#[trigger] items[i]).contains(','),
    ensures
        list_items(join(items, ", "@)) == items,
    decreases items.len(),
{
    reveal_strlit(", ");
    let sep = ", "@;
    assert(sep =~= seq![',', ' ']);
    if items.len() == 1 {
        lemma_split_none(items[0], ',');
        lemma_trimmed_fixed(items[0]);
        assert(list_items(items[0]) =~= items);
    } else {
        let init = items.drop_last();
        let last = items.last();
        assert forall|i: int| 0 <= i < init.len() implies is_trimmed(#[trigger] init[i]) by {
            assert(init[i] == items[i]);
        }
        assert forall|i: int| 0 <= i < init.len() implies !(#[trigger] init[i]).contains(',') by {
            assert(init[i] == items[i]);
        }
        lemma_items_of_joined(init);
        let head = join(init, sep);
        let tail = seq![' '] + last;
        assert(join(items, sep) =~= head + seq![','] + tail);
        lemma_split_concat(head, tail, ',');
        assert(!tail.contains(',')) by {
            if tail.contains(',') {
                let j = choose|j: int| 0 <= j < tail.len() && tail[j] == ',';
                assert(last[j - 1] == ',');
                assert(last.contains(','));
            }
        }
        lemma_split_none(tail, ',');
        assert(trim(tail) == last) by {
            lemma_trimmed_fixed(last);
            assert(is_space(' '));
            if last.len() > 0 {
                assert(tail[1] == last[0]);
            }
            assert forall|k: int| 0 <= k < 1 implies is_space(#[trigger] tail[k]) by {}
            lemma_leading_spaces_is(tail, 1);
            assert(trim_start(tail) =~= last);
        }
        let sp = split_on(head, ',');
        assert(split_on(join(items, sep), ',') == sp + seq![tail]);
        assert(list_items(head) == init);
        assert(sp.len() == init.len());
        let got = list_items(join(items, sep));
        assert(got.len() == items.len());
        assert forall|i: int| 0 <= i < items.len() implies got[i] == items[i] by {
            if i < sp.len() {
                assert((sp + seq![tail])[i] == sp[i]);
                assert(list_items(head)[i] == trim(sp[i]));
                assert(init[i] == items[i]);
            } else {
                assert((sp + seq![tail])[i] == tail);
            }
        }
        assert(got =~= items);
    }
}

/// Every item of a comma-separated list is trimmed and free of commas.
pub proof fn lemma_list_items(s: Seq<char>)
    ensures
        list_items(s).len() > 0,
        forall|i: int| 0 <= i < list_items(s).len() ==> is_trimmed(#[trigger] list_items(s)[i]),
        forall|i: int| 0 <= i < list_items(s).len() ==> !(#[trigger] list_items(s)[i]).contains(','),
{
    lemma_split_pieces(s, ',');
    let ps = split_on(s, ',');
    assert forall|i: int| 0 <= i < list_items(s).len() implies is_trimmed(
        #[trigger] list_items(s)[i],
    ) && !list_items(s)[i].contains(',') by {
        lemma_trim_is_trimmed(ps[i]);
        let t = trim(ps[i]);
        lemma_leading_spaces_bound(ps[i]);
        lemma_trailing_spaces_bound(trim_start(ps[i]));
        if t.contains(',') {
            let j = choose|j: int| 0 <= j < t.len() && t[j] == ',';
            assert(ps[i][j + leading_spaces(ps[i])] == ',');
            assert(ps[i].contains(','));
        }
    }
}

/// Merging the same list a second time changes nothing: the merged list is
/// in its final form.
pub proof fn lemma_merged_list_idempotent(existing: Option<Seq<char>>, incoming: Seq<char>)
    ensures
        merged_list(Some(merged_list(existing, incoming)), incoming) == merged_list(
            existing,
            incoming,
        ),
{
    let all = items_of(existing) + list_items(incoming);
    let sorted = sort_dedup(all);
    lemma_list_items(incoming);
    // a strictly sorted list with the elements of `all` exists
    lemma_sort_dedup_exists(all);
    assert(strictly_sorted(sorted) && same_elements(sorted, all));
    assert(all.contains(list_items(incoming)[0])) by {
        assert(all[items_of(existing).len() as int] == list_items(incoming)[0]);
    }
    assert(sorted.len() > 0) by {
        assert(sorted.contains(list_items(incoming)[0]));
    }
    assert forall|i: int| 0 <= i < sorted.len() implies is_trimmed(#[trigger] sorted[i]) && !sorted[i].contains(',') by {
        assert(sorted.contains(sorted[i]));
        assert(all.contains(sorted[i]));
        let j = choose|j: int| 0 <= j < all.len() && all[j] == sorted[i];
        if j < items_of(existing).len() {
            lemma_list_items(existing->Some_0);
            assert(all[j] == items_of(existing)[j]);
        } else {
            assert(all[j] == list_items(incoming)[j - items_of(existing).len()]);
        }
    }
    lemma_items_of_joined(sorted);
    let again = sorted + list_items(incoming);
    assert forall|t: Seq<char>| sorted.contains(t) <==> again.contains(t) by {
        if sorted.contains(t) {
            let j = choose|j: int| 0 <= j < sorted.len() && sorted[j] == t;
            assert(again[j] == t);
        }
        if again.contains(t) {
            let j = choose|j: int| 0 <= j < again.len() && again[j] == t;
            if j >= sorted.len() {
                let m = j - sorted.len();
                assert(list_items(incoming)[m] == t);
                assert(all[items_of(existing).len() + m] == t);
                assert(all.contains(t));
            }
        }
    }
    lemma_sort_dedup_is(again, sorted);
}

/// The united list does not depend on which of the two lists came first.
pub proof fn lemma_merged_list_commutes(a: Seq<char>, b: Seq<char>)
    ensures
        merged_list(Some(a), b) == merged_list(Some(b), a),
{
    let x = list_items(a) + list_items(b);
    let y = list_items(b) + list_items(a);
    lemma_sort_dedup_exists(x);
    let s = sort_dedup(x);
    assert forall|t: Seq<char>| x.contains(t) <==> y.contains(t) by {
        if x.contains(t) {
            let k = choose|k: int| 0 <= k < x.len() && x[k] == t;
            if k < list_items(a).len() {
                assert(y[list_items(b).len() + k] == t);
            } else {
                assert(y[k - list_items(a).len()] == t);
            }
        }
        if y.contains(t) {
            let k = choose|k: int| 0 <= k < y.len() && y[k] == t;
            if k < list_items(b).len() {
                assert(x[list_items(a).len() + k] == t);
            } else {
                assert(x[k - list_items(b).len()] == t);
            }
        }
    }
    lemma_sort_dedup_is(y, s);
}

/// Merging the same incoming fields a second time leaves the list fields
/// `tags` and `topics` as the first merge made them.
pub proof fn lemma_list_merge_idempotent(
    existing: Map<Seq<char>, Seq<char>>,
    incoming: Map<Seq<char>, Seq<char>>,
    key: Seq<char>,
)
    requires
        key == "tags"@ || key == "topics"@,
        incoming.contains_key(key),
    ensures
        merged(existing, incoming).contains_key(key),
        merged(merged(existing, incoming), incoming)[key] == merged(existing, incoming)[key],
{
    reveal_strlit("tags");
    reveal_strlit("topics");
    reveal_strlit("timestamp");
    assert(key != "timestamp"@) by {
        assert("tags"@.len() == 4 && "topics"@.len() == 6 && "timestamp"@.len() == 9);
    }
    lemma_merged_list_idempotent(lookup(existing, key), incoming[key]);
}

/// A `created_at` that the existing fields hold stays as it is, whatever
/// the incoming fields carry.
pub proof fn lemma_created_at_kept(
    existing: Map<Seq<char>, Seq<char>>,
    incoming: Map<Seq<char>, Seq<char>>,
)
    requires
        existing.contains_key("created_at"@),
    ensures
        merged(existing, incoming).contains_key("created_at"@),
        merged(existing, incoming)["created_at"@] == existing["created_at"@],
{
    reveal_strlit("tags");
    reveal_strlit("topics");
    reveal_strlit("created_at");
    assert("created_at"@ != "tags"@ && "created_at"@ != "topics"@) by {
        assert("tags"@.len() == 4 && "topics"@.len() == 6 && "created_at"@.len() == 10);
    }
}

} // verus!
