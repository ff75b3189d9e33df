//! The registry of observers: in which order they are told of an event, and
//! how their results are folded into the result of a round.
use vstd::prelude::*;
use vstd::string::StringExecFns;
use crate::event::{NoteEvent, NoteObserver, ObserverResult, Outcome, ResultView};
use crate::fields::FieldMap;
use crate::metadata::{merge_metadata, merged};
use crate::split::str_views;
use crate::text::str_eq;

verus! {

/// Name of the observer that keeps the tag index; it runs after all
/// observers but the store.
pub open spec fn tag_index_name() -> Seq<char> {
    "tag_index"@
}

/// Name of the observer that keeps the relational store; it runs last.
pub open spec fn store_name() -> Seq<char> {
    "sqlite"@
}

/// Whether observer `i` runs before observer `j` by priority alone: the
/// higher priority first, and of two equal ones the one registered first.
pub open spec fn runs_before(prios: Seq<i32>, i: int, j: int) -> bool {
    prios[i] > prios[j] || (prios[i] == prios[j] && i < j)
}

/// `order` lists every observer once, by descending priority, observers of
/// equal priority in the order of their registration.
pub open spec fn is_priority_order(order: Seq<int>, prios: Seq<i32>) -> bool {
    &&& order.len() == prios.len()
    &&& forall|i: int| 0 <= i < prios.len() ==> #[trigger] order.contains(i)
    &&& forall|a: int| 0 <= a < order.len() ==> 0 <= #[trigger] order[a] < prios.len()
    &&& forall|a: int, b: int|
        0 <= a < b < order.len() ==> runs_before(prios, #[trigger] order[a], #[trigger] order[b])
}

/// Position in `order` of the first observer called `name`, or the length
/// of `order` when none is.
pub open spec fn first_named(order: Seq<int>, names: Seq<Seq<char>>, name: Seq<char>) -> int
    decreases order.len(),
{
    if order.len() == 0 || names[order[0]] == name {
        0
    } else {
        1 + first_named(order.drop_first(), names, name)
    }
}

/// `order` with the first observer called `name` moved to the end.
pub open spec fn pinned_last(order: Seq<int>, names: Seq<Seq<char>>, name: Seq<char>) -> Seq<int> {
    let p = first_named(order, names, name);
    if 0 <= p < order.len() {
        order.remove(p).push(order[p])
    } else {
        order
    }
}

/// The order of a notification round: by descending priority, then the tag
/// index moved to the end, then the store moved to the end.
pub open spec fn is_dispatch_order(order: Seq<int>, names: Seq<Seq<char>>, prios: Seq<i32>) -> bool {
    exists|base: Seq<int>| #[trigger]
        is_priority_order(base, prios) && order == pinned_last(
            pinned_last(base, names, tag_index_name()),
            names,
            store_name(),
        )
}

/// The indices of a vector as integers.
pub open spec fn as_ints(v: Seq<usize>) -> Seq<int> {
    Seq::new(v.len(), |i: int| v[i] as int)
}

pub proof fn lemma_first_named(order: Seq<int>, names: Seq<Seq<char>>, name: Seq<char>)
    ensures
        0 <= first_named(order, names, name) <= order.len(),
        forall|k: int|
            0 <= k < first_named(order, names, name) ==> names[#[trigger] order[k]] != name,
        first_named(order, names, name) < order.len() ==> names[order[first_named(
            order,
            names,
            name,
        )]] == name,
    decreases order.len(),
{
    if !(order.len() == 0 || names[order[0]] == name) {
        let t = order.drop_first();
        lemma_first_named(t, names, name);
        assert forall|k: int| 0 <= k < first_named(order, names, name) implies names[#[trigger] order[k]]
            != name by {
            if k > 0 {
                assert(order[k] == t[k - 1]);
            }
        }
    }
}

pub proof fn lemma_first_named_is(
    order: Seq<int>,
    names: Seq<Seq<char>>,
    name: Seq<char>,
    p: int,
)
    requires
        0 <= p <= order.len(),
        forall|k: int| 0 <= k < p ==> names[#[trigger] order[k]] != name,
        p < order.len() ==> names[order[p]] == name,
    ensures
        first_named(order, names, name) == p,
    decreases p,
{
    if p > 0 {
        let t = order.drop_first();
        assert(names[order[0]] != name);
        assert forall|k: int| 0 <= k < p - 1 implies names[#[trigger] t[k]] != name by {
            assert(t[k] == order[k + 1]);
        }
        lemma_first_named_is(t, names, name, p - 1);
    }
}

/// The observers, in the order of their registration, each with the name
/// and the priority that it gave when it was registered. Observers are added
/// and never taken out.
pub struct ObserverRegistry {
    names: Vec<String>,
    priorities: Vec<i32>,
    observers: Vec<Box<dyn NoteObserver>>,
}

/// What a round gives: the folded metadata and, where an observer supplied
/// one, the body that won.
pub struct RoundResult {
    pub metadata: FieldMap,
    pub content: Option<String>,
}

/// The result of a round as plain values.
pub struct RoundView {
    pub metadata: Map<Seq<char>, Seq<char>>,
    pub content: Option<Seq<char>>,
}

impl View for RoundResult {
    type V = RoundView;

    open spec fn view(&self) -> RoundView {
        RoundView {
            metadata: self.metadata@,
            content: match self.content {
                Some(c) => Some(c@),
                None => None,
            },
        }
    }
}

/// What an outcome adds to a round: a failure adds nothing.
pub open spec fn contribution(outcome: Outcome) -> Option<ResultView> {
    match outcome {
        Ok(Some(r)) => Some(r@),
        _ => None,
    }
}

/// The round after one more contribution: its metadata is merged in, and
/// its body, where it has one, takes the place of the body that won so far.
pub open spec fn absorbed(acc: RoundView, contribution: Option<ResultView>) -> RoundView {
    match contribution {
        None => acc,
        Some(r) => RoundView {
            metadata: match r.metadata {
                Some(m) => merged(acc.metadata, m),
                None => acc.metadata,
            },
            content: match r.content {
                Some(c) => Some(c),
                None => acc.content,
            },
        },
    }
}

/// The round after the contributions were absorbed one after the other.
pub open spec fn folded(initial: RoundView, contributions: Seq<Option<ResultView>>) -> RoundView
    decreases contributions.len(),
{
    if contributions.len() == 0 {
        initial
    } else {
        absorbed(folded(initial, contributions.drop_last()), contributions.last())
    }
}

/// The body that wins a round is the body of the last contribution that
/// has one.
pub proof fn lemma_last_content_wins(
    initial: RoundView,
    contributions: Seq<Option<ResultView>>,
    k: int,
)
    requires
        0 <= k < contributions.len(),
        contributions[k] matches Some(r) && r.content is Some,
        forall|j: int|
            k < j < contributions.len() ==> !((#[trigger] contributions[j]) matches Some(r)
                && r.content is Some),
    ensures
        folded(initial, contributions).content == contributions[k]->Some_0.content,
    decreases contributions.len(),
{
    if k < contributions.len() - 1 {
        let init = contributions.drop_last();
        assert(init[k] == contributions[k]);
        assert forall|j: int| k < j < init.len() implies !((#[trigger] init[j]) matches Some(r)
            && r.content is Some) by {
            assert(init[j] == contributions[j]);
        }
        lemma_last_content_wins(initial, init, k);
        assert(!(contributions[contributions.len() - 1] matches Some(r) && r.content is Some));
    }
}

/// A round in which no observer supplies a body keeps the body it started
/// with.
pub proof fn lemma_no_content_no_change(initial: RoundView, contributions: Seq<Option<ResultView>>)
    requires
        forall|j: int|
            0 <= j < contributions.len() ==> !((#[trigger] contributions[j]) matches Some(r)
                && r.content is Some),
    ensures
        folded(initial, contributions).content == initial.content,
    decreases contributions.len(),
{
    if contributions.len() > 0 {
        let init = contributions.drop_last();
        assert forall|j: int| 0 <= j < init.len() implies !((#[trigger] init[j]) matches Some(r)
            && r.content is Some) by {
            assert(init[j] == contributions[j]);
        }
        lemma_no_content_no_change(initial, init);
        assert(!(contributions[contributions.len() - 1] matches Some(r) && r.content is Some));
    }
}

/// Takes one outcome into the round. A failure and an empty result leave
/// the round as it is.
pub fn absorb(acc: &mut RoundResult, outcome: Outcome)
    ensures
        final(acc)@ == absorbed(old(acc)@, contribution(outcome)),
{
    match outcome {
        Ok(Some(result)) => {
            let ObserverResult { metadata, content } = result;
            match metadata {
                Some(m) => {
                    merge_metadata(&mut acc.metadata, m);
                },
                None => {},
            }
            match content {
                Some(c) => {
                    acc.content = Some(c);
                },
                None => {},
            }
        },
        Ok(None) => {},
        Err(_) => {},
    }
}

impl ObserverRegistry {
    /// The names of the observers, in the order of registration.
    pub closed spec fn names(&self) -> Seq<Seq<char>> {
        str_views(self.names@)
    }

    /// The priorities of the observers, in the order of registration.
    pub closed spec fn priorities(&self) -> Seq<i32> {
        self.priorities@
    }

    #[verifier::type_invariant]
    closed spec fn inv(&self) -> bool {
        self.names@.len() == self.priorities@.len() && self.names@.len() == self.observers@.len()
    }

    /// A registry without observers.
    pub fn new() -> (r: Self)
        ensures
            r.names().len() == 0,
            r.priorities().len() == 0,
    {
        ObserverRegistry { names: Vec::new(), priorities: Vec::new(), observers: Vec::new() }
    }

    /// Number of registered observers.
    pub fn len(&self) -> (n: usize)
        ensures
            n == self.names().len(),
            n == self.priorities().len(),
    {
        proof {
            use_type_invariant(self);
        }
        self.names.len()
    }

    /// Registers `observer` under the given name and priority.
    pub fn register_as(&mut self, name: String, priority: i32, observer: Box<dyn NoteObserver>)
        ensures
            final(self).names() == old(self).names().push(name@),
            final(self).priorities() == old(self).priorities().push(priority),
    {
        proof {
            use_type_invariant(&*self);
        }
        let mut taken = ObserverRegistry::new();
        core::mem::swap(self, &mut taken);
        let ObserverRegistry { mut names, mut priorities, mut observers } = taken;
        let ghost before = str_views(names@);
        let ghost held = observers@;
        names.push(name);
        priorities.push(priority);
        observers.push(observer);
        proof {
            vstd::seq::axiom_seq_push_len(held, observer);
        }
        assert(str_views(names@) =~= before.push(name@));
        *self = ObserverRegistry { names, priorities, observers };
    }

    /// Registers `observer` under the name and priority that it gives.
    pub fn register(&mut self, observer: Box<dyn NoteObserver>)
        ensures
            final(self).names().len() == old(self).names().len() + 1,
            final(self).names().drop_last() == old(self).names(),
            final(self).priorities().len() == old(self).priorities().len() + 1,
            final(self).priorities().drop_last() == old(self).priorities(),
    {
        let name = observer.name();
        let priority = observer.priority();
        self.register_as(name, priority, observer);
        assert(self.names().drop_last() =~= old(self).names());
        assert(self.priorities().drop_last() =~= old(self).priorities());
    }

    /// The name under which observer `i` was registered.
    pub fn name_at(&self, i: usize) -> (r: Option<&String>)
        ensures
            match r {
                Some(n) => i < self.names().len() && n@ == self.names()[i as int],
                None => i >= self.names().len(),
            },
    {
        if i < self.names.len() {
            Some(&self.names[i])
        } else {
            None
        }
    }

    /// The names of the observers, in the order of registration.
    pub fn get_observers(&self) -> (r: Vec<String>)
        ensures
            str_views(r@) == self.names(),
    {
        let mut r: Vec<String> = Vec::new();
        let mut i: usize = 0;
        while i < self.names.len()
            invariant
                i <= self.names.len(),
                r.len() == i,
                forall|j: int| 0 <= j < i ==> (#[trigger] r@[j])@ == self.names@[j]@,
            decreases self.names.len() - i,
        {
            r.push(self.names[i].clone());
            i += 1;
        }
        assert(str_views(r@) =~= self.names());
        r
    }

    /// The observers by descending priority, those of equal priority in the
    /// order of their registration.
    pub fn priority_order(&self) -> (r: Vec<usize>)
        ensures
            is_priority_order(as_ints(r@), self.priorities()),
    {
        let n = self.priorities.len();
        let ghost prios = self.priorities();
        let mut order: Vec<usize> = Vec::new();
        let mut k: usize = 0;
        while k < n
            invariant
                k <= n == self.priorities.len(),
                prios == self.priorities(),
                order.len() == k,
                forall|a: int| 0 <= a < k ==> 0 <= #[trigger] order@[a] < k,
                forall|i: int| 0 <= i < k ==> #[trigger] as_ints(order@).contains(i),
                forall|a: int, b: int|
                    0 <= a < b < k ==> runs_before(
                        prios,
                        #[trigger] order@[a] as int,
                        #[trigger] order@[b] as int,
                    ),
            decreases n - k,
        {
            let prio = self.priorities[k];
            let mut p: usize = 0;
            while p < k && self.priorities[order[p]] >= prio
                invariant
                    p <= k < n == self.priorities.len(),
                    order.len() == k,
                    prios == self.priorities(),
                    prio == prios[k as int],
                    forall|a: int| 0 <= a < k ==> 0 <= #[trigger] order@[a] < k,
                    forall|a: int| 0 <= a < p ==> prios[#[trigger] order@[a] as int] >= prio,
                decreases k - p,
            {
                p += 1;
            }
            let ghost before = order@;
            order.insert(p, k);
            proof {
                assert forall|a: int| 0 <= a < k + 1 implies 0 <= #[trigger] order@[a] < k + 1 by {
                    if a < p {
                        assert(order@[a] == before[a]);
                    } else if a > p {
                        assert(order@[a] == before[a - 1]);
                    }
                }
                assert forall|i: int| 0 <= i < k + 1 implies #[trigger] as_ints(order@).contains(
                    i,
                ) by {
                    if i == k {
                        assert(as_ints(order@)[p as int] == i);
                    } else {
                        assert(as_ints(before).contains(i));
                        let a = choose|a: int| 0 <= a < before.len() && as_ints(before)[a] == i;
                        if a < p {
                            assert(as_ints(order@)[a] == i);
                        } else {
                            assert(as_ints(order@)[a + 1] == i);
                        }
                    }
                }
                assert forall|a: int, b: int| 0 <= a < b < k + 1 implies runs_before(
                    prios,
                    #[trigger] order@[a] as int,
                    #[trigger] order@[b] as int,
                ) by {
                    if b < p {
                        assert(order@[a] == before[a] && order@[b] == before[b]);
                    } else if b == p {
                        assert(order@[a] == before[a]);
                    } else if a < p {
                        assert(order@[a] == before[a] && order@[b] == before[b - 1]);
                    } else if a == p {
                        assert(order@[b] == before[b - 1]);
                        if b - 1 > p {
                            assert(runs_before(prios, before[p as int] as int, before[b - 1] as int));
                        }
                    } else {
                        assert(order@[a] == before[a - 1] && order@[b] == before[b - 1]);
                    }
                }
            }
            k += 1;
        }
        proof {
            let ints = as_ints(order@);
            assert forall|a: int, b: int| 0 <= a < b < ints.len() implies runs_before(
                prios,
                #[trigger] ints[a],
                #[trigger] ints[b],
            ) by {
                assert(runs_before(prios, order@[a] as int, order@[b] as int));
            }
            assert forall|a: int| 0 <= a < ints.len() implies 0 <= #[trigger] ints[a] < prios.len() by {
                assert(0 <= order@[a] < k);
            }
        }
        order
    }

    /// Moves the first observer of `order` that is called `name` to the end.
    fn pin_last(&self, order: &mut Vec<usize>, name: &str)
        requires
            forall|a: int| 0 <= a < old(order)@.len() ==> #[trigger] old(order)@[a] < self.names().len(),
        ensures
            as_ints(final(order)@) == pinned_last(as_ints(old(order)@), self.names(), name@),
            final(order)@.len() == old(order)@.len(),
            forall|a: int|
                0 <= a < final(order)@.len() ==> #[trigger] final(order)@[a] < self.names().len(),
    {
        let target = String::from_str(name);
        let ghost ints = as_ints(order@);
        let mut p: usize = 0;
        while p < order.len() && !(self.names[order[p]] == target)
            invariant
                p <= order.len(),
                order@ == old(order)@,
                ints == as_ints(order@),
                target@ == name@,
                forall|a: int| 0 <= a < order@.len() ==> #[trigger] order@[a] < self.names().len(),
                forall|a: int| 0 <= a < p ==> self.names()[#[trigger] ints[a]] != name@,
            decreases order.len() - p,
        {
            p += 1;
        }
        proof {
            lemma_first_named_is(ints, self.names(), name@, p as int);
        }
        if p < order.len() {
            let idx = order.remove(p);
            order.push(idx);
            assert(as_ints(order@) =~= ints.remove(p as int).push(ints[p as int]));
            assert forall|a: int| 0 <= a < order@.len() implies #[trigger] order@[a]
                < self.names().len() by {
                if a < p {
                    assert(order@[a] == old(order)@[a]);
                } else if a < order@.len() - 1 {
                    assert(order@[a] == old(order)@[a + 1]);
                } else {
                    assert(order@[a] == old(order)@[p as int]);
                }
            }
        }
    }

    /// The order in which the observers are told of an event: by descending
    /// priority, but the tag index after the others and the store last.
    pub fn notification_order(&self) -> (r: Vec<usize>)
        ensures
            is_dispatch_order(as_ints(r@), self.names(), self.priorities()),
            r@.len() == self.names().len(),
            forall|a: int| 0 <= a < r@.len() ==> #[trigger] r@[a] < self.names().len(),
    {
        proof {
            use_type_invariant(self);
        }
        let mut order = self.priority_order();
        let ghost base = as_ints(order@);
        assert forall|a: int| 0 <= a < order@.len() implies #[trigger] order@[a]
            < self.names().len() by {
            assert(0 <= base[a] < self.priorities().len());
        }
        self.pin_last(&mut order, "tag_index");
        self.pin_last(&mut order, "sqlite");
        assert(is_priority_order(base, self.priorities()));
        order
    }

    /// The position of the store among the observers, if it is registered:
    /// the first observer with the store's name.
    pub fn store_index(&self) -> (r: Option<usize>)
        ensures
            match r {
                Some(i) => i < self.names().len() && self.names()[i as int] == store_name()
                    && forall|j: int| 0 <= j < i ==> #[trigger] self.names()[j] != store_name(),
                None => forall|j: int|
                    0 <= j < self.names().len() ==> #[trigger] self.names()[j] != store_name(),
            },
    {
        let target = String::from_str("sqlite");
        let mut i: usize = 0;
        while i < self.names.len()
            invariant
                i <= self.names.len(),
                target@ == store_name(),
                forall|j: int| 0 <= j < i ==> #[trigger] self.names()[j] != store_name(),
            decreases self.names.len() - i,
        {
            if self.names[i] == target {
                return Some(i);
            }
            i += 1;
        }
        None
    }

    /// The observers of a round that leaves out the skipped observers and
    /// the store, in the order of notification.
    pub fn active_order(&self, skip: &Vec<String>) -> (r: Vec<usize>)
        ensures
            exists|full: Seq<int>| #[trigger]
                is_dispatch_order(full, self.names(), self.priorities()) && as_ints(r@)
                    == active_part(full, self.names(), str_views(skip@)),
            forall|a: int| 0 <= a < r@.len() ==> #[trigger] r@[a] < self.names().len(),
    {
        let full = self.notification_order();
        let target = String::from_str("sqlite");
        let mut r: Vec<usize> = Vec::new();
        let mut i: usize = 0;
        assert(as_ints(full@).take(0) =~= Seq::empty());
        while i < full.len()
            invariant
                i <= full.len(),
                target@ == store_name(),
                forall|a: int| 0 <= a < full@.len() ==> #[trigger] full@[a] < self.names().len(),
                forall|a: int| 0 <= a < r@.len() ==> #[trigger] r@[a] < self.names().len(),
                as_ints(r@) == active_part(
                    as_ints(full@).take(i as int),
                    self.names(),
                    str_views(skip@),
                ),
            decreases full.len() - i,
        {
            let idx = full[i];
            let name = &self.names[idx];
            let ghost done = as_ints(full@).take(i as int);
            let ghost next = as_ints(full@).take(i + 1);
            let ghost before = as_ints(r@);
            proof {
                assert(next.drop_last() =~= done);
                assert(next.last() == idx as int);
            }
            let skipped = has_name(skip, name);
            if !(*name == target) && !skipped {
                r.push(idx);
                assert(as_ints(r@) =~= before.push(idx as int));
            }
            i += 1;
        }
        assert(as_ints(full@).take(full.len() as int) =~= as_ints(full@));
        r
    }

    /// Tells the observers at the positions `order`, one after the other,
    /// of the event, each with its own copy, and folds what they hand back
    /// into the round `initial`. A position beyond the last observer adds
    /// nothing.
    pub fn run_round(&self, event: &NoteEvent, order: &Vec<usize>, initial: RoundResult) -> (r:
        RoundResult)
        ensures
            exists|contributions: Seq<Option<ResultView>>|
                contributions.len() == order@.len() && #[trigger] folded(initial@, contributions)
                    == r@,
    {
        let ghost start = initial@;
        let mut acc = initial;
        let ghost mut contributions: Seq<Option<ResultView>> = Seq::empty();
        let mut i: usize = 0;
        while i < order.len()
            invariant
                i <= order.len(),
                contributions.len() == i,
                acc@ == folded(start, contributions),
            decreases order.len() - i,
        {
            let idx = order[i];
            let ghost before = contributions;
            if idx < self.observers.len() {
                let outcome = self.observers[idx].on_event(event.clone());
                proof {
                    contributions = before.push(contribution(outcome));
                }
                absorb(&mut acc, outcome);
            } else {
                proof {
                    contributions = before.push(None);
                }
            }
            assert(contributions.drop_last() =~= before);
            i += 1;
        }
        assert(folded(start, contributions) == acc@);
        acc
    }

    /// One notification round over all observers, from empty metadata.
    pub fn notify(&self, event: NoteEvent) -> (r: RoundResult)
        ensures
            exists|contributions: Seq<Option<ResultView>>|
                contributions.len() == self.names().len() && #[trigger] folded(
                    RoundView { metadata: Map::empty(), content: None },
                    contributions,
                ) == r@,
    {
        let order = self.notification_order();
        let initial = RoundResult { metadata: FieldMap::new(), content: None };
        self.run_round(&event, &order, initial)
    }

    /// Tells the store alone of the event. `None`: no store is registered.
    pub fn run_store(&self, event: NoteEvent) -> (r: Option<Outcome>)
        ensures
            r is Some <==> self.names().contains(store_name()),
    {
        proof {
            use_type_invariant(self);
        }
        match self.store_index() {
            Some(i) => {
                assert(self.names().contains(self.names()[i as int]));
                Some(self.observers[i].on_event(event))
            },
            None => {
                None
            },
        }
    }
}

/// Moving an observer to the end keeps every observer in the order.
pub proof fn lemma_pinned_keeps(order: Seq<int>, names: Seq<Seq<char>>, name: Seq<char>, i: int)
    requires
        order.contains(i),
    ensures
        pinned_last(order, names, name).contains(i),
        pinned_last(order, names, name).len() == order.len(),
{
    let p = first_named(order, names, name);
    lemma_first_named(order, names, name);
    let r = pinned_last(order, names, name);
    let a = choose|a: int| 0 <= a < order.len() && order[a] == i;
    if p < order.len() {
        if a < p {
            assert(r[a] == i);
        } else if a == p {
            assert(r[order.len() - 1] == i);
        } else {
            assert(r[a - 1] == i);
        }
    }
}

/// An order in which some observer is called `name` ends, once that name
/// was pinned, with an observer of that name; the observers before it keep
/// their order.
pub proof fn lemma_pinned_is_last(order: Seq<int>, names: Seq<Seq<char>>, name: Seq<char>, i: int)
    requires
        order.contains(i),
        names[i] == name,
    ensures
        pinned_last(order, names, name).len() == order.len(),
        names[pinned_last(order, names, name).last()] == name,
{
    let p = first_named(order, names, name);
    lemma_first_named(order, names, name);
    let a = choose|a: int| 0 <= a < order.len() && order[a] == i;
    if p >= order.len() {
        assert(names[order[a]] != name);
    }
}

/// In the order of a notification round the store comes last, and the tag
/// index comes after every observer but the store, whatever the priorities
/// are.
pub proof fn lemma_pinned_observers_trail(
    order: Seq<int>,
    names: Seq<Seq<char>>,
    prios: Seq<i32>,
)
    requires
        names.len() == prios.len(),
        is_dispatch_order(order, names, prios),
    ensures
        order.len() == names.len(),
        names.contains(store_name()) ==> names[order.last()] == store_name(),
        names.contains(tag_index_name()) && !names.contains(store_name()) ==> names[order.last()]
            == tag_index_name(),
        names.contains(tag_index_name()) && names.contains(store_name()) ==> names[order[order.len()
            - 2]] == tag_index_name(),
{
    reveal_strlit("tag_index");
    reveal_strlit("sqlite");
    assert(tag_index_name() != store_name()) by {
        assert("tag_index"@.len() == 9 && "sqlite"@.len() == 6);
    }
    let base = choose|base: Seq<int>| #[trigger]
        is_priority_order(base, prios) && order == pinned_last(
            pinned_last(base, names, tag_index_name()),
            names,
            store_name(),
        );
    let mid = pinned_last(base, names, tag_index_name());
    lemma_first_named(base, names, tag_index_name());
    lemma_first_named(mid, names, store_name());
    assert(mid.len() == base.len());
    assert(order.len() == mid.len());
    if names.contains(tag_index_name()) {
        let i = choose|i: int| 0 <= i < names.len() && names[i] == tag_index_name();
        assert(base.contains(i));
        lemma_pinned_is_last(base, names, tag_index_name(), i);
        assert(names[mid.last()] == tag_index_name());
    }
    if names.contains(store_name()) {
        let i = choose|i: int| 0 <= i < names.len() && names[i] == store_name();
        assert(base.contains(i));
        lemma_pinned_keeps(base, names, tag_index_name(), i);
        lemma_pinned_is_last(mid, names, store_name(), i);
        if names.contains(tag_index_name()) {
            let p = first_named(mid, names, store_name());
            assert(p < mid.len() - 1);
            assert(order[order.len() - 2] == mid[mid.len() - 1]);
        }
    } else {
        let p = first_named(mid, names, store_name());
        if p < mid.len() {
            assert(0 <= mid[p] < names.len()) by {
                lemma_mid_in_range(base, names, prios, p);
            }
            assert(names.contains(names[mid[p]]));
        }
        assert(order == mid);
    }
}

/// Moving an observer to the end keeps the length of the order, and every
/// position holds an index below `n` as before.
pub proof fn lemma_pinned_in_range(order: Seq<int>, names: Seq<Seq<char>>, name: Seq<char>, n: int)
    requires
        forall|a: int| 0 <= a < order.len() ==> 0 <= #[trigger] order[a] < n,
    ensures
        pinned_last(order, names, name).len() == order.len(),
        forall|a: int|
            0 <= a < order.len() ==> 0 <= #[trigger] pinned_last(order, names, name)[a] < n,
{
    let p = first_named(order, names, name);
    lemma_first_named(order, names, name);
    let r = pinned_last(order, names, name);
    if p < order.len() {
        assert forall|a: int| 0 <= a < order.len() implies 0 <= #[trigger] r[a] < n by {
            if a < p {
                assert(r[a] == order[a]);
            } else if a < order.len() - 1 {
                assert(r[a] == order[a + 1]);
            } else {
                assert(r[a] == order[p]);
            }
        }
    }
}

/// The order of a notification round has a position for each observer, and
/// every position holds an observer.
pub proof fn lemma_dispatch_in_range(order: Seq<int>, names: Seq<Seq<char>>, prios: Seq<i32>)
    requires
        is_dispatch_order(order, names, prios),
    ensures
        order.len() == prios.len(),
        forall|a: int| 0 <= a < order.len() ==> 0 <= #[trigger] order[a] < prios.len(),
{
    let base = choose|base: Seq<int>| #[trigger]
        is_priority_order(base, prios) && order == pinned_last(
            pinned_last(base, names, tag_index_name()),
            names,
            store_name(),
        );
    let n = prios.len() as int;
    lemma_pinned_in_range(base, names, tag_index_name(), n);
    lemma_pinned_in_range(pinned_last(base, names, tag_index_name()), names, store_name(), n);
}

/// Every position of the order after the first pinning holds an observer.
proof fn lemma_mid_in_range(base: Seq<int>, names: Seq<Seq<char>>, prios: Seq<i32>, a: int)
    requires
        names.len() == prios.len(),
        is_priority_order(base, prios),
        0 <= a < base.len(),
    ensures
        0 <= pinned_last(base, names, tag_index_name())[a] < names.len(),
{
    let p = first_named(base, names, tag_index_name());
    lemma_first_named(base, names, tag_index_name());
    let mid = pinned_last(base, names, tag_index_name());
    if p < base.len() {
        if a < p {
            assert(mid[a] == base[a]);
        } else if a < base.len() - 1 {
            assert(mid[a] == base[a + 1]);
        } else {
            assert(mid[a] == base[p]);
        }
    }
}

/// Whether `i` is an observer of a round that leaves out the observers
/// named in `skip` and the store.
pub open spec fn is_active(names: Seq<Seq<char>>, skip: Seq<Seq<char>>, i: int) -> bool {
    names[i] != store_name() && !skip.contains(names[i])
}

/// The observers of `order` that are active, in their order.
pub open spec fn active_part(order: Seq<int>, names: Seq<Seq<char>>, skip: Seq<Seq<char>>) -> Seq<
    int,
>
    decreases order.len(),
{
    if order.len() == 0 {
        order
    } else {
        let rest = active_part(order.drop_last(), names, skip);
        if is_active(names, skip, order.last()) {
            rest.push(order.last())
        } else {
            rest
        }
    }
}

/// Every observer of the active part is active and stands in the order: an
/// observer that is skipped, and the store, are not among those that a round
/// tells.
pub proof fn lemma_active_part_members(
    order: Seq<int>,
    names: Seq<Seq<char>>,
    skip: Seq<Seq<char>>,
    k: int,
)
    requires
        0 <= k < active_part(order, names, skip).len(),
    ensures
        is_active(names, skip, active_part(order, names, skip)[k]),
        order.contains(active_part(order, names, skip)[k]),
    decreases order.len(),
{
    let rest = active_part(order.drop_last(), names, skip);
    if k < rest.len() {
        lemma_active_part_members(order.drop_last(), names, skip, k);
        let a = choose|a: int| 0 <= a < order.drop_last().len() && order.drop_last()[a] == rest[k];
        assert(order[a] == rest[k]);
    } else {
        assert(order[order.len() - 1] == order.last());
    }
}

/// Where no observer of the order is active, the active part is empty.
pub proof fn lemma_no_active_observer(order: Seq<int>, names: Seq<Seq<char>>, skip: Seq<Seq<char>>)
    requires
        forall|a: int| 0 <= a < order.len() ==> !is_active(names, skip, #[trigger] order[a]),
    ensures
        active_part(order, names, skip).len() == 0,
    decreases order.len(),
{
    if order.len() > 0 {
        let t = order.drop_last();
        assert forall|a: int| 0 <= a < t.len() implies !is_active(names, skip, #[trigger] t[a]) by {
            assert(t[a] == order[a]);
        }
        lemma_no_active_observer(t, names, skip);
        assert(order.last() == order[order.len() - 1]);
    }
}

/// Whether `names` holds `name`.
pub fn has_name(names: &Vec<String>, name: &String) -> (r: bool)
    ensures
        r == str_views(names@).contains(name@),
{
    let mut i: usize = 0;
    while i < names.len()
        invariant
            i <= names.len(),
            forall|j: int| 0 <= j < i ==> #[trigger] str_views(names@)[j] != name@,
        decreases names.len() - i,
    {
        if names[i] == *name {
            assert(str_views(names@)[i as int] == name@);
            return true;
        }
        i += 1;
    }
    false
}

} // verus!
