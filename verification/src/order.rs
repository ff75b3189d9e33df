//! The lexicographic order of texts by code point (the order of their UTF-8
//! encodings), and the sorted, duplicate-free form of a list of texts.
use vstd::prelude::*;
use crate::text::{chars_eq, copy_range};
use crate::split::views;

verus! {

/// Whether `a` stands before `b` in the lexicographic order by code point.
pub open spec fn text_lt(a: Seq<char>, b: Seq<char>) -> bool
    decreases a.len(),
{
    if b.len() == 0 {
        false
    } else if a.len() == 0 {
        true
    } else if a[0] != b[0] {
        a[0] < b[0]
    } else {
        text_lt(a.drop_first(), b.drop_first())
    }
}

/// No text stands before itself.
pub proof fn lemma_lt_irreflexive(a: Seq<char>)
    ensures
        !text_lt(a, a),
    decreases a.len(),
{
    if a.len() > 0 {
        lemma_lt_irreflexive(a.drop_first());
    }
}

/// Of two different texts exactly one stands before the other.
pub proof fn lemma_lt_total(a: Seq<char>, b: Seq<char>)
    ensures
        a != b ==> (text_lt(a, b) <==> !text_lt(b, a)),
        a == b ==> !text_lt(a, b) && !text_lt(b, a),
    decreases a.len(),
{
    if a == b {
        lemma_lt_irreflexive(a);
    } else if a.len() > 0 && b.len() > 0 {
        if a[0] == b[0] {
            if a.drop_first() == b.drop_first() {
                assert(a =~= seq![a[0]] + a.drop_first());
                assert(b =~= seq![b[0]] + b.drop_first());
                assert(false);
            }
            lemma_lt_total(a.drop_first(), b.drop_first());
            assert(text_lt(a, b) == text_lt(a.drop_first(), b.drop_first()));
            assert(text_lt(b, a) == text_lt(b.drop_first(), a.drop_first()));
        }
    } else if a.len() == 0 && b.len() == 0 {
        assert(a =~= b);
    }
}

/// The order is transitive.
pub proof fn lemma_lt_transitive(a: Seq<char>, b: Seq<char>, c: Seq<char>)
    requires
        text_lt(a, b),
        text_lt(b, c),
    ensures
        text_lt(a, c),
    decreases a.len(),
{
    if a.len() > 0 {
        if a[0] == b[0] && b[0] == c[0] {
            lemma_lt_transitive(a.drop_first(), b.drop_first(), c.drop_first());
        }
    }
}

/// Whether `a` stands before `b` in the lexicographic order by code point.
pub fn text_less(a: &Vec<char>, b: &Vec<char>) -> (r: bool)
    ensures
        r == text_lt(a@, b@),
{
    let mut i: usize = 0;
    assert(a@.skip(0) == a@ && b@.skip(0) == b@);
    loop
        invariant
            i <= a.len(),
            i <= b.len(),
            text_lt(a@, b@) == text_lt(a@.skip(i as int), b@.skip(i as int)),
        decreases a.len() - i,
    {
        if i == b.len() {
            return false;
        }
        if i == a.len() {
            return true;
        }
        let x = a[i];
        let y = b[i];
        proof {
            assert(a@.skip(i as int)[0] == x);
            assert(b@.skip(i as int)[0] == y);
            assert(a@.skip(i as int).drop_first() == a@.skip(i + 1));
            assert(b@.skip(i as int).drop_first() == b@.skip(i + 1));
        }
        if x != y {
            return x < y;
        }
        i += 1;
    }
}

/// Each text stands before all that follow it: sorted, and nothing twice.
pub open spec fn strictly_sorted(ts: Seq<Seq<char>>) -> bool {
    forall|i: int, j: int| 0 <= i < j < ts.len() ==> text_lt(#[trigger] ts[i], #[trigger] ts[j])
}

/// Two lists hold the same texts, whatever their order and number.
pub open spec fn same_elements(a: Seq<Seq<char>>, b: Seq<Seq<char>>) -> bool {
    forall|t: Seq<char>| a.contains(t) <==> b.contains(t)
}

/// The texts of `ts` in increasing order, each once.
pub open spec fn sort_dedup(ts: Seq<Seq<char>>) -> Seq<Seq<char>> {
    choose|r: Seq<Seq<char>>| strictly_sorted(r) && same_elements(r, ts)
}

/// Two strictly sorted lists with the same texts are the same list.
pub proof fn lemma_sorted_unique(r1: Seq<Seq<char>>, r2: Seq<Seq<char>>)
    requires
        strictly_sorted(r1),
        strictly_sorted(r2),
        same_elements(r1, r2),
    ensures
        r1 == r2,
    decreases r1.len(),
{
    if r1.len() == 0 {
        if r2.len() > 0 {
            assert(r2.contains(r2[0]));
            assert(r1.contains(r2[0]));
        }
        assert(r1 =~= r2);
    } else {
        assert(r1.contains(r1[0]));
        assert(r2.contains(r1[0]));
        let j = choose|j: int| 0 <= j < r2.len() && r2[j] == r1[0];
        assert(r2.contains(r2[0]));
        assert(r1.contains(r2[0]));
        let i = choose|i: int| 0 <= i < r1.len() && r1[i] == r2[0];
        if r1[0] != r2[0] {
            assert(text_lt(r2[0], r2[j]));
            assert(text_lt(r1[0], r1[i]));
            lemma_lt_total(r1[0], r2[0]);
        }
        let t1 = r1.drop_first();
        let t2 = r2.drop_first();
        assert forall|a: int, b: int| 0 <= a < b < t1.len() implies text_lt(
            #[trigger] t1[a],
            #[trigger] t1[b],
        ) by {
            assert(t1[a] == r1[a + 1] && t1[b] == r1[b + 1]);
        }
        assert forall|a: int, b: int| 0 <= a < b < t2.len() implies text_lt(
            #[trigger] t2[a],
            #[trigger] t2[b],
        ) by {
            assert(t2[a] == r2[a + 1] && t2[b] == r2[b + 1]);
        }
        assert forall|t: Seq<char>| t1.contains(t) <==> t2.contains(t) by {
            if t1.contains(t) {
                let k = choose|k: int| 0 <= k < t1.len() && t1[k] == t;
                assert(r1[k + 1] == t);
                assert(text_lt(r1[0], r1[k + 1]));
                lemma_lt_irreflexive(t);
                assert(r1.contains(t));
                let m = choose|m: int| 0 <= m < r2.len() && r2[m] == t;
                assert(m != 0);
                assert(t2[m - 1] == t);
            }
            if t2.contains(t) {
                let k = choose|k: int| 0 <= k < t2.len() && t2[k] == t;
                assert(r2[k + 1] == t);
                assert(text_lt(r2[0], r2[k + 1]));
                lemma_lt_irreflexive(t);
                assert(r2.contains(t));
                let m = choose|m: int| 0 <= m < r1.len() && r1[m] == t;
                assert(m != 0);
                assert(t1[m - 1] == t);
            }
        }
        lemma_sorted_unique(t1, t2);
        assert(r1 =~= seq![r1[0]] + t1);
        assert(r2 =~= seq![r2[0]] + t2);
    }
}

/// A strictly sorted list with the texts of `ts` is the sorted form of `ts`.
pub proof fn lemma_sort_dedup_is(ts: Seq<Seq<char>>, r: Seq<Seq<char>>)
    requires
        strictly_sorted(r),
        same_elements(r, ts),
    ensures
        sort_dedup(ts) == r,
{
    let c = sort_dedup(ts);
    assert(strictly_sorted(c) && same_elements(c, ts));
    lemma_sorted_unique(c, r);
}

/// The strictly sorted list `s` with `t` put in its place, unless `s` holds
/// it already.
pub open spec fn with_text(s: Seq<Seq<char>>, t: Seq<char>) -> Seq<Seq<char>>
    decreases s.len(),
{
    if s.len() == 0 {
        seq![t]
    } else if text_lt(s.last(), t) {
        s.push(t)
    } else if s.last() == t {
        s
    } else {
        with_text(s.drop_last(), t).push(s.last())
    }
}

pub proof fn lemma_with_text(s: Seq<Seq<char>>, t: Seq<char>)
    requires
        strictly_sorted(s),
    ensures
        strictly_sorted(with_text(s, t)),
        forall|x: Seq<char>|
            #![trigger with_text(s, t).contains(x)]
            #![trigger s.contains(x)]
            with_text(s, t).contains(x) <==> (s.contains(x) || x == t),
    decreases s.len(),
{
    let r = with_text(s, t);
    if s.len() == 0 {
        assert(r[0] == t);
        assert forall|x: Seq<char>| r.contains(x) <==> (s.contains(x) || x == t) by {
            if r.contains(x) {
                let k = choose|k: int| 0 <= k < r.len() && r[k] == x;
            }
        }
    } else if text_lt(s.last(), t) {
        assert forall|i: int, j: int| 0 <= i < j < r.len() implies text_lt(
            #[trigger] r[i],
            #[trigger] r[j],
        ) by {
            if j == s.len() {
                if i < s.len() - 1 {
                    assert(text_lt(s[i], s[s.len() - 1]));
                    lemma_lt_transitive(s[i], s.last(), t);
                }
            } else {
                assert(text_lt(s[i], s[j]));
            }
        }
        assert forall|x: Seq<char>| r.contains(x) <==> (s.contains(x) || x == t) by {
            if r.contains(x) {
                let k = choose|k: int| 0 <= k < r.len() && r[k] == x;
                if k < s.len() {
                    assert(s[k] == x);
                }
            }
            if s.contains(x) {
                let k = choose|k: int| 0 <= k < s.len() && s[k] == x;
                assert(r[k] == x);
            }
            if x == t {
                assert(r[s.len() as int] == x);
            }
        }
    } else if s.last() == t {
        assert(s.contains(s[s.len() - 1]));
    } else {
        let init = s.drop_last();
        let last = s.last();
        assert forall|i: int, j: int| 0 <= i < j < init.len() implies text_lt(
            #[trigger] init[i],
            #[trigger] init[j],
        ) by {
            assert(text_lt(s[i], s[j]));
        }
        lemma_with_text(init, t);
        let w = with_text(init, t);
        lemma_lt_total(last, t);
        assert forall|i: int, j: int| 0 <= i < j < r.len() implies text_lt(
            #[trigger] r[i],
            #[trigger] r[j],
        ) by {
            if j == w.len() {
                assert(w.contains(w[i]));
                if init.contains(w[i]) {
                    let k = choose|k: int| 0 <= k < init.len() && init[k] == w[i];
                    assert(text_lt(s[k], s[s.len() - 1]));
                }
            } else {
                assert(text_lt(w[i], w[j]));
            }
        }
        assert forall|x: Seq<char>| r.contains(x) <==> (s.contains(x) || x == t) by {
            if r.contains(x) {
                let k = choose|k: int| 0 <= k < r.len() && r[k] == x;
                if k < w.len() {
                    assert(w[k] == x);
                    assert(w.contains(x));
                    if init.contains(x) {
                        let m = choose|m: int| 0 <= m < init.len() && init[m] == x;
                        assert(s[m] == x);
                    }
                } else {
                    assert(s[s.len() - 1] == x);
                }
            }
            if s.contains(x) {
                let k = choose|k: int| 0 <= k < s.len() && s[k] == x;
                if k < s.len() - 1 {
                    assert(init[k] == x);
                    assert(init.contains(x));
                    assert(w.contains(x));
                    let m = choose|m: int| 0 <= m < w.len() && w[m] == x;
                    assert(r[m] == x);
                } else {
                    assert(r[w.len() as int] == x);
                }
            }
            if x == t {
                assert(w.contains(x));
                let m = choose|m: int| 0 <= m < w.len() && w[m] == x;
                assert(r[m] == x);
            }
        }
    }
}

/// Every list of texts has a sorted form: `sort_dedup` is strictly sorted
/// and holds the texts of the list.
pub proof fn lemma_sort_dedup_exists(ts: Seq<Seq<char>>)
    ensures
        strictly_sorted(sort_dedup(ts)),
        same_elements(sort_dedup(ts), ts),
    decreases ts.len(),
{
    if ts.len() == 0 {
        let e = Seq::<Seq<char>>::empty();
        assert(strictly_sorted(e) && same_elements(e, ts));
    } else {
        let init = ts.drop_last();
        lemma_sort_dedup_exists(init);
        let s = sort_dedup(init);
        let t = ts.last();
        let r = with_text(s, t);
        lemma_with_text(s, t);
        assert forall|x: Seq<char>| r.contains(x) <==> ts.contains(x) by {
            if ts.contains(x) {
                let j = choose|j: int| 0 <= j < ts.len() && ts[j] == x;
                if j < ts.len() - 1 {
                    assert(init[j] == x);
                    assert(init.contains(x));
                }
            }
            if init.contains(x) {
                let j = choose|j: int| 0 <= j < init.len() && init[j] == x;
                assert(ts[j] == x);
            }
            if x == t {
                assert(ts[ts.len() - 1] == x);
            }
        }
        assert(strictly_sorted(r) && same_elements(r, ts));
    }
}

/// Copy of a character vector.
pub fn clone_chars(s: &Vec<char>) -> (r: Vec<char>)
    ensures
        r@ == s@,
{
    let r = copy_range(s, 0, s.len());
    assert(s@.subrange(0, s.len() as int) == s@);
    r
}

/// Puts `t` into the strictly sorted `acc`, unless it is there already.
pub fn insert_sorted(acc: &mut Vec<Vec<char>>, t: Vec<char>)
    requires
        strictly_sorted(views(old(acc)@)),
    ensures
        strictly_sorted(views(final(acc)@)),
        forall|x: Seq<char>|
            views(final(acc)@).contains(x) <==> (views(old(acc)@).contains(x) || x == t@),
{
    let ghost before = views(acc@);
    let mut p: usize = 0;
    while p < acc.len() && text_less(&acc[p], &t)
        invariant
            p <= acc.len(),
            views(acc@) == before,
            forall|k: int| 0 <= k < p ==> text_lt(#[trigger] before[k], t@),
        decreases acc.len() - p,
    {
        assert(before[p as int] == acc@[p as int]@);
        p += 1;
    }
    if p < acc.len() && chars_eq(&acc[p], &t) {
        assert(before[p as int] == t@);
        assert(before.contains(t@));
        return ;
    }
    proof {
        if p < acc.len() {
            assert(before[p as int] == acc@[p as int]@);
            lemma_lt_total(before[p as int], t@);
        }
    }
    let ghost tv = t@;
    acc.insert(p, t);
    proof {
        let after = views(acc@);
        assert(after.len() == before.len() + 1);
        assert forall|k: int| 0 <= k < after.len() implies #[trigger] after[k] == (if k < p {
            before[k]
        } else if k == p {
            tv
        } else {
            before[k - 1]
        }) by {}
        assert forall|i: int, j: int| 0 <= i < j < after.len() implies text_lt(
            #[trigger] after[i],
            #[trigger] after[j],
        ) by {
            if j < p {
                assert(text_lt(before[i], before[j]));
            } else if j == p {
                assert(text_lt(before[i], tv));
            } else if i < p {
                assert(text_lt(before[i], before[j - 1]));
            } else if i == p {
                if j - 1 > p {
                    assert(text_lt(before[p as int], before[j - 1]));
                    lemma_lt_transitive(tv, before[p as int], before[j - 1]);
                }
            } else {
                assert(text_lt(before[i - 1], before[j - 1]));
            }
        }
        assert forall|x: Seq<char>| after.contains(x) <==> (before.contains(x) || x == tv) by {
            if after.contains(x) {
                let k = choose|k: int| 0 <= k < after.len() && after[k] == x;
                if k < p {
                    assert(before[k] == x);
                } else if k > p {
                    assert(before[k - 1] == x);
                }
            }
            if before.contains(x) {
                let k = choose|k: int| 0 <= k < before.len() && before[k] == x;
                if k < p {
                    assert(after[k] == x);
                } else {
                    assert(after[k + 1] == x);
                }
            }
            if x == tv {
                assert(after[p as int] == x);
            }
        }
    }
}

/// The texts of `ts` in increasing order, each once.
pub fn sort_dedup_chars(ts: &Vec<Vec<char>>) -> (r: Vec<Vec<char>>)
    ensures
        views(r@) == sort_dedup(views(ts@)),
        strictly_sorted(views(r@)),
        same_elements(views(r@), views(ts@)),
{
    let mut r: Vec<Vec<char>> = Vec::new();
    let mut i: usize = 0;
    assert(views(ts@).take(0) =~= Seq::empty());
    while i < ts.len()
        invariant
            i <= ts.len(),
            strictly_sorted(views(r@)),
            same_elements(views(r@), views(ts@).take(i as int)),
        decreases ts.len() - i,
    {
        let t = clone_chars(&ts[i]);
        let ghost before = views(r@);
        insert_sorted(&mut r, t);
        proof {
            let a = views(ts@).take(i as int);
            let b = views(ts@).take(i + 1);
            assert(b == a.push(ts@[i as int]@));
            assert forall|x: Seq<char>| views(r@).contains(x) <==> b.contains(x) by {
                if b.contains(x) {
                    let k = choose|k: int| 0 <= k < b.len() && b[k] == x;
                    if k < i {
                        assert(a[k] == x);
                        assert(a.contains(x));
                    }
                }
                if a.contains(x) {
                    let k = choose|k: int| 0 <= k < a.len() && a[k] == x;
                    assert(b[k] == x);
                }
                if x == ts@[i as int]@ {
                    assert(b[i as int] == x);
                }
            }
        }
        i += 1;
    }
    proof {
        assert(views(ts@).take(ts.len() as int) == views(ts@));
        lemma_sort_dedup_is(views(ts@), views(r@));
    }
    r
}

} // verus!
