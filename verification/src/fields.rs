//! A map from field names to field values, both texts: the frontmatter of a
//! note, the metadata an observer hands back, the digest cache.
use vstd::prelude::*;
use vstd::string::StringExecFns;

verus! {

/// The map that a list of (key, value) pairs describes; of two pairs with
/// one key the later one counts.
pub open spec fn map_of<V>(es: Seq<(Seq<char>, V)>) -> Map<Seq<char>, V>
    decreases es.len(),
{
    if es.len() == 0 {
        Map::empty()
    } else {
        map_of(es.drop_last()).insert(es.last().0, es.last().1)
    }
}

/// No key stands twice in the list.
pub open spec fn distinct_keys<V>(es: Seq<(Seq<char>, V)>) -> bool {
    forall|i: int, j: int| 0 <= i < j < es.len() ==> (#[trigger] es[i]).0 != (#[trigger] es[j]).0
}

/// Whether some pair of the list has the key `k`.
pub open spec fn has_key<V>(es: Seq<(Seq<char>, V)>, k: Seq<char>) -> bool {
    exists|i: int| 0 <= i < es.len() && (#[trigger] es[i]).0 == k
}

pub proof fn lemma_map_of_dom<V>(es: Seq<(Seq<char>, V)>, k: Seq<char>)
    ensures
        map_of(es).contains_key(k) <==> has_key(es, k),
        map_of(es).dom().finite(),
    decreases es.len(),
{
    if es.len() > 0 {
        let init = es.drop_last();
        lemma_map_of_dom(init, k);
        if has_key(es, k) {
            let i = choose|i: int| 0 <= i < es.len() && (#[trigger] es[i]).0 == k;
            if i < es.len() - 1 {
                assert(init[i].0 == k);
            }
        }
        if has_key(init, k) {
            let i = choose|i: int| 0 <= i < init.len() && (#[trigger] init[i]).0 == k;
            assert(es[i].0 == k);
        }
        if es.last().0 == k {
            assert(es[es.len() - 1].0 == k);
        }
    }
}

pub proof fn lemma_map_of_value<V>(es: Seq<(Seq<char>, V)>, i: int)
    requires
        distinct_keys(es),
        0 <= i < es.len(),
    ensures
        map_of(es).contains_key(es[i].0),
        map_of(es)[es[i].0] == es[i].1,
    decreases es.len(),
{
    let init = es.drop_last();
    if i < es.len() - 1 {
        assert(init[i] == es[i]);
        assert(es[i].0 != es[es.len() - 1].0);
        lemma_map_of_value(init, i);
    }
}

pub proof fn lemma_map_of_update<V>(es: Seq<(Seq<char>, V)>, i: int, v: V)
    requires
        distinct_keys(es),
        0 <= i < es.len(),
    ensures
        map_of(es.update(i, (es[i].0, v))) == map_of(es).insert(es[i].0, v),
        distinct_keys(es.update(i, (es[i].0, v))),
    decreases es.len(),
{
    let k = es[i].0;
    let up = es.update(i, (k, v));
    let init = es.drop_last();
    if i < es.len() - 1 {
        assert(init[i] == es[i]);
        assert(es[i].0 != es[es.len() - 1].0);
        lemma_map_of_update(init, i, v);
        assert(up.drop_last() == init.update(i, (k, v)));
        assert(map_of(up) =~= map_of(es).insert(k, v));
    } else {
        assert(up.drop_last() == init);
        assert(map_of(up) =~= map_of(es).insert(k, v));
    }
}

pub proof fn lemma_map_of_remove<V>(es: Seq<(Seq<char>, V)>, i: int)
    requires
        distinct_keys(es),
        0 <= i < es.len(),
    ensures
        map_of(es.remove(i)) == map_of(es).remove(es[i].0),
        distinct_keys(es.remove(i)),
    decreases es.len(),
{
    let k = es[i].0;
    let rm = es.remove(i);
    let init = es.drop_last();
    if i < es.len() - 1 {
        assert(init[i] == es[i]);
        assert(es[i].0 != es[es.len() - 1].0);
        lemma_map_of_remove(init, i);
        assert(rm.drop_last() == init.remove(i));
        assert(rm.last() == es.last());
        assert(map_of(rm) =~= map_of(es).remove(k));
    } else {
        assert(rm == init);
        lemma_map_of_dom(init, k);
        if has_key(init, k) {
            let j = choose|j: int| 0 <= j < init.len() && (#[trigger] init[j]).0 == k;
            assert(es[j].0 == k);
        }
        assert(map_of(rm) =~= map_of(es).remove(k));
    }
}

/// A finite map from text keys to text values. It keeps its entries in the
/// order in which their keys first came.
pub struct FieldMap {
    entries: Vec<(String, String)>,
}

impl View for FieldMap {
    type V = Map<Seq<char>, Seq<char>>;

    open spec fn view(&self) -> Map<Seq<char>, Seq<char>> {
        map_of(self.pairs())
    }
}

impl FieldMap {
    /// The entries as (key, value) pairs of texts, in their order.
    pub closed spec fn pairs(&self) -> Seq<(Seq<char>, Seq<char>)> {
        Seq::new(self.entries@.len(), |i: int| (self.entries@[i].0@, self.entries@[i].1@))
    }

    #[verifier::type_invariant]
    closed spec fn inv(&self) -> bool {
        distinct_keys(self.pairs())
    }

    /// The map without entries.
    pub fn new() -> (r: Self)
        ensures
            r@ == Map::<Seq<char>, Seq<char>>::empty(),
            r.pairs().len() == 0,
    {
        FieldMap { entries: Vec::new() }
    }

    /// Number of entries. No key stands twice among them.
    pub fn len(&self) -> (n: usize)
        ensures
            n == self.pairs().len(),
            distinct_keys(self.pairs()),
            self@.dom().finite(),
    {
        proof {
            use_type_invariant(self);
            lemma_map_of_dom(self.pairs(), Seq::empty());
        }
        self.entries.len()
    }

    /// Whether the map has no entry.
    pub fn is_empty(&self) -> (b: bool)
        ensures
            b == (self.pairs().len() == 0),
            b == (self@ == Map::<Seq<char>, Seq<char>>::empty()),
    {
        proof {
            if self.entries.len() > 0 {
                let es = self.pairs();
                assert(es[0].0 == es[0].0);
                lemma_map_of_dom(es, es[0].0);
                assert(has_key(es, es[0].0));
            }
        }
        self.entries.len() == 0
    }

    /// The entry at position `i` of the order kept, if there is one.
    pub fn entry(&self, i: usize) -> (r: Option<(&String, &String)>)
        ensures
            match r {
                Some(e) => i < self.pairs().len() && (e.0@, e.1@) == self.pairs()[i as int]
                    && self@.contains_key(e.0@) && self@[e.0@] == e.1@,
                None => i >= self.pairs().len(),
            },
    {
        if i < self.entries.len() {
            proof {
                use_type_invariant(self);
                lemma_map_of_value(self.pairs(), i as int);
            }
            Some((&self.entries[i].0, &self.entries[i].1))
        } else {
            None
        }
    }

    fn position(&self, key: &str) -> (r: Option<usize>)
        ensures
            match r {
                Some(i) => i < self.pairs().len() && self.pairs()[i as int].0 == key@
                    && self@.contains_key(key@) && self@[key@] == self.pairs()[i as int].1,
                None => !self@.contains_key(key@),
            },
    {
        let k = String::from_str(key);
        let mut i: usize = 0;
        while i < self.entries.len()
            invariant
                i <= self.entries.len(),
                k@ == key@,
                forall|j: int| 0 <= j < i ==> (#[trigger] self.pairs()[j]).0 != key@,
            decreases self.entries.len() - i,
        {
            if self.entries[i].0 == k {
                proof {
                    use_type_invariant(self);
                    lemma_map_of_value(self.pairs(), i as int);
                }
                return Some(i);
            }
            i += 1;
        }
        proof {
            lemma_map_of_dom(self.pairs(), key@);
        }
        None
    }

    /// Whether the map has an entry for `key`.
    pub fn contains_key(&self, key: &str) -> (b: bool)
        ensures
            b == self@.contains_key(key@),
    {
        self.position(key).is_some()
    }

    /// The value of `key`, if the map has one.
    pub fn get(&self, key: &str) -> (r: Option<&String>)
        ensures
            match r {
                Some(v) => self@.contains_key(key@) && v@ == self@[key@],
                None => !self@.contains_key(key@),
            },
    {
        match self.position(key) {
            Some(i) => Some(&self.entries[i].1),
            None => None,
        }
    }

    /// Sets the value of `key`, replacing an earlier value.
    pub fn insert(&mut self, key: String, value: String)
        ensures
            final(self)@ == old(self)@.insert(key@, value@),
    {
        let ghost es = self.pairs();
        let ghost kv = (key@, value@);
        proof {
            use_type_invariant(&*self);
        }
        let found = self.position(key.as_str());
        let mut entries: Vec<(String, String)> = Vec::new();
        core::mem::swap(&mut self.entries, &mut entries);
        match found {
            Some(i) => {
                proof {
                    lemma_map_of_update(es, i as int, value@);
                }
                entries.set(i, (key, value));
            },
            None => {
                proof {
                    lemma_map_of_dom(es, key@);
                    assert(es.push(kv).drop_last() == es);
                    assert forall|i: int, j: int| 0 <= i < j < es.len() + 1 implies (
                    #[trigger] es.push(kv)[i]).0 != (#[trigger] es.push(kv)[j]).0 by {
                        if j == es.len() {
                            assert(es[i].0 != kv.0);
                        } else {
                            assert(es[i].0 != es[j].0);
                        }
                    }
                }
                entries.push((key, value));
            },
        }
        let ghost after = Seq::new(entries@.len(), |i: int| (entries@[i].0@, entries@[i].1@));
        proof {
            match found {
                Some(i) => {
                    assert(after =~= es.update(i as int, kv));
                },
                None => {
                    assert(after =~= es.push(kv));
                },
            }
        }
        core::mem::swap(&mut self.entries, &mut entries);
        assert(self.pairs() =~= after);
    }

    /// Takes the entry of `key` out, and gives its value back.
    pub fn remove(&mut self, key: &str) -> (r: Option<String>)
        ensures
            final(self)@ == old(self)@.remove(key@),
            match r {
                Some(v) => old(self)@.contains_key(key@) && v@ == old(self)@[key@],
                None => !old(self)@.contains_key(key@),
            },
    {
        let ghost es = self.pairs();
        proof {
            use_type_invariant(&*self);
        }
        match self.position(key) {
            Some(i) => {
                proof {
                    lemma_map_of_remove(es, i as int);
                }
                let mut entries: Vec<(String, String)> = Vec::new();
                core::mem::swap(&mut self.entries, &mut entries);
                let e = entries.remove(i);
                let ghost after = Seq::new(
                    entries@.len(),
                    |i: int| (entries@[i].0@, entries@[i].1@),
                );
                assert(after =~= es.remove(i as int));
                core::mem::swap(&mut self.entries, &mut entries);
                assert(self.pairs() =~= after);
                Some(e.1)
            },
            None => {
                assert(self@ =~= self@.remove(key@));
                None
            },
        }
    }
}

/// A vector of (key, value) strings as pairs of texts.
pub open spec fn pair_views(v: Seq<(String, String)>) -> Seq<(Seq<char>, Seq<char>)> {
    Seq::new(v.len(), |i: int| (v[i].0@, v[i].1@))
}

impl FieldMap {
    /// The map that the pairs describe; of two pairs with one key the later
    /// one counts.
    pub fn from_pairs(pairs: &Vec<(String, String)>) -> (r: Self)
        ensures
            r@ == map_of(pair_views(pairs@)),
    {
        let mut r = FieldMap::new();
        let mut i: usize = 0;
        assert(pair_views(pairs@).take(0) =~= Seq::empty());
        while i < pairs.len()
            invariant
                i <= pairs.len(),
                r@ == map_of(pair_views(pairs@).take(i as int)),
            decreases pairs.len() - i,
        {
            proof {
                let next = pair_views(pairs@).take(i + 1);
                assert(next.drop_last() =~= pair_views(pairs@).take(i as int));
                assert(next.last() == (pairs@[i as int].0@, pairs@[i as int].1@));
            }
            r.insert(pairs[i].0.clone(), pairs[i].1.clone());
            i += 1;
        }
        assert(pair_views(pairs@).take(pairs.len() as int) =~= pair_views(pairs@));
        r
    }

    /// The entries as pairs of strings, in the order kept.
    pub fn to_pairs(&self) -> (r: Vec<(String, String)>)
        ensures
            pair_views(r@) == self.pairs(),
            distinct_keys(self.pairs()),
            self@ == map_of(pair_views(r@)),
    {
        let mut r: Vec<(String, String)> = Vec::new();
        let mut i: usize = 0;
        while i < self.entries.len()
            invariant
                i <= self.entries.len(),
                r@.len() == i,
                forall|j: int|
                    0 <= j < i ==> (#[trigger] r@[j]).0@ == self.entries@[j].0@ && r@[j].1@
                        == self.entries@[j].1@,
            decreases self.entries.len() - i,
        {
            r.push((self.entries[i].0.clone(), self.entries[i].1.clone()));
            i += 1;
        }
        proof {
            use_type_invariant(self);
            assert(pair_views(r@) =~= self.pairs());
        }
        r
    }
}

impl Clone for FieldMap {
    fn clone(&self) -> (r: Self)
        ensures
            r@ == self@,
            r.pairs() == self.pairs(),
    {
        let mut entries: Vec<(String, String)> = Vec::new();
        let mut i: usize = 0;
        while i < self.entries.len()
            invariant
                i <= self.entries.len(),
                entries@.len() == i,
                forall|j: int|
                    0 <= j < i ==> (#[trigger] entries@[j]).0@ == self.entries@[j].0@ && entries@[j].1@
                        == self.entries@[j].1@,
            decreases self.entries.len() - i,
        {
            entries.push((self.entries[i].0.clone(), self.entries[i].1.clone()));
            i += 1;
        }
        proof {
            use_type_invariant(self);
            let copied = Seq::new(entries@.len(), |i: int| (entries@[i].0@, entries@[i].1@));
            assert(copied =~= self.pairs());
        }
        let r = FieldMap { entries };
        assert(r.pairs() =~= self.pairs());
        r
    }
}

} // verus!
