//! The decisions of the directory watcher: which change of a file sets a
//! synchronisation going.
//!
//! A change of a note file is passed over while the file is in flight, that
//! is from the moment a change of it was accepted until the debounce window
//! after the end of its synchronisation has passed, and while the debounce
//! window since the last accepted change of that file has not passed. Time
//! is counted in milliseconds.
use percent_encoding::percent_decode_str;
use std::path::Path;
use vstd::prelude::*;
use vstd::string::StringExecFns;
use crate::fields::{
    distinct_keys, has_key, lemma_map_of_dom, lemma_map_of_update, lemma_map_of_value, map_of,
};
use crate::split::str_views;
use crate::text::{opt_text, str_eq};
use crate::utils::path_file_stem;

verus! {

/// The debounce window, in milliseconds.
pub const DEBOUNCE_MS: u64 = 100;

/// The text that the percent-encoded `text` stands for, if its bytes are
/// UTF-8: each `%` with two hexadecimal digits after it stands for one byte.
pub uninterp spec fn percent_decoded(text: Seq<char>) -> Option<Seq<char>>;

/// `percent_encoding::percent_decode_str(text).decode_utf8()`: the decoded
/// text, or nothing where the decoded bytes are no UTF-8.
#[verifier::external_body]
fn percent_decode(text: &str) -> (r: Option<String>)
    ensures
        opt_text(r) == percent_decoded(text@),
{
    percent_decode_str(text).decode_utf8().ok().map(|s| s.into_owned())
}

/// `Path::extension` of the path `path`, where it has one that is valid
/// Unicode. What counts as a separator depends on the platform, so nothing
/// is said of the result.
#[verifier::external_body]
fn path_extension(path: &str) -> (r: Option<String>) {
    Path::new(path).extension().and_then(|s| s.to_str()).map(|s| s.to_string())
}

/// What happened to a file.
#[derive(Clone, Copy, Debug, PartialEq, Eq, Structural)]
pub enum ChangeKind {
    Created,
    Modified,
    Other,
}

/// What the watcher does about a change.
pub enum WatchAction {
    /// No change of a note file: another kind of event, another extension,
    /// or no file stem.
    Ignore,
    /// The file is in flight.
    Busy,
    /// The last accepted change of the file is less than the window ago.
    Debounced,
    /// Synchronise the note with this title; the file is now in flight.
    Sync { title: String },
}

/// What the watcher does about a change, as plain values.
pub enum ActionView {
    Ignore,
    Busy,
    Debounced,
    Sync { title: Seq<char> },
}

impl View for WatchAction {
    type V = ActionView;

    open spec fn view(&self) -> ActionView {
        match *self {
            WatchAction::Ignore => ActionView::Ignore,
            WatchAction::Busy => ActionView::Busy,
            WatchAction::Debounced => ActionView::Debounced,
            WatchAction::Sync { title } => ActionView::Sync { title: title@ },
        }
    }
}

/// The state of the watcher as plain values: for each path the time of its
/// last accepted change, the paths in flight, and the releases that are
/// due: the paths whose synchronisation is done, each with the time from
/// which it leaves flight.
pub struct WatchView {
    pub last_events: Map<Seq<char>, u64>,
    pub in_flight: Set<Seq<char>>,
    pub releases: Seq<(Seq<char>, u64)>,
}

/// Pairs of a path and a time as plain values.
pub open spec fn timed_views(v: Seq<(String, u64)>) -> Seq<(Seq<char>, u64)> {
    Seq::new(v.len(), |i: int| (v[i].0@, v[i].1))
}

/// The time from which a file leaves flight whose synchronisation was done
/// at `done`: the debounce window later.
pub open spec fn release_time(done: u64) -> u64 {
    if done > u64::MAX - DEBOUNCE_MS {
        u64::MAX
    } else {
        (done + DEBOUNCE_MS) as u64
    }
}

/// Whether a release of `path` is due at `now`.
pub open spec fn is_due(releases: Seq<(Seq<char>, u64)>, path: Seq<char>, now: u64) -> bool {
    exists|k: int| 0 <= k < releases.len() && (#[trigger] releases[k]).0 == path && releases[k].1 <= now
}

/// The releases that are not yet due at `now`, in their order.
pub open spec fn not_due(releases: Seq<(Seq<char>, u64)>, now: u64) -> Seq<(Seq<char>, u64)>
    decreases releases.len(),
{
    if releases.len() == 0 {
        releases
    } else {
        let rest = not_due(releases.drop_last(), now);
        if releases.last().1 <= now {
            rest
        } else {
            rest.push(releases.last())
        }
    }
}

/// The paths in flight once the releases that are due at `now` are made.
pub open spec fn still_flying(
    in_flight: Set<Seq<char>>,
    releases: Seq<(Seq<char>, u64)>,
    now: u64,
) -> Set<Seq<char>> {
    Set::new(|p: Seq<char>| in_flight.contains(p) && !is_due(releases, p, now))
}

/// One more release is due for its own path, if its time has come, and
/// changes nothing for the other paths.
pub proof fn lemma_is_due_push(
    releases: Seq<(Seq<char>, u64)>,
    entry: (Seq<char>, u64),
    path: Seq<char>,
    now: u64,
)
    ensures
        is_due(releases.push(entry), path, now) == (is_due(releases, path, now) || (entry.0 == path
            && entry.1 <= now)),
{
    let more = releases.push(entry);
    if is_due(more, path, now) {
        let k = choose|k: int| 0 <= k < more.len() && (#[trigger] more[k]).0 == path && more[k].1 <= now;
        if k < releases.len() {
            assert(releases[k] == more[k]);
        }
    }
    if is_due(releases, path, now) {
        let k = choose|k: int|
            0 <= k < releases.len() && (#[trigger] releases[k]).0 == path && releases[k].1 <= now;
        assert(more[k] == releases[k]);
    }
    if entry.0 == path && entry.1 <= now {
        assert(more[releases.len() as int] == entry);
    }
}

/// The title of the note with the file stem `stem`: the stem
/// percent-decoded, or the stem itself where that is no text.
pub open spec fn decoded_title(stem: Seq<char>) -> Seq<char> {
    match percent_decoded(stem) {
        Some(t) => t,
        None => stem,
    }
}

/// Whether a change at `now` comes within the window after the last
/// accepted change of the path.
pub open spec fn within_window(last_events: Map<Seq<char>, u64>, path: Seq<char>, now: u64) -> bool {
    last_events.contains_key(path) && (now < last_events[path] || now - last_events[path]
        < DEBOUNCE_MS)
}

/// What the watcher does about a change of the file `path` at the time
/// `now`, and its state afterwards; `title` is the title of the note in the
/// file, if the change is one of a note file.
pub open spec fn decide(st: WatchView, path: Seq<char>, title: Option<Seq<char>>, now: u64) -> (
    ActionView,
    WatchView,
) {
    match title {
        None => (ActionView::Ignore, st),
        Some(t) => if st.in_flight.contains(path) {
            (ActionView::Busy, st)
        } else if within_window(st.last_events, path, now) {
            (ActionView::Debounced, st)
        } else {
            (
                ActionView::Sync { title: t },
                WatchView {
                    last_events: st.last_events.insert(path, now),
                    in_flight: st.in_flight.insert(path),
                    releases: st.releases,
                },
            )
        },
    }
}

/// The title of the note in a changed file: none unless a file was created
/// or modified, has the extension of the note files and has a stem.
pub open spec fn note_title(
    kind: ChangeKind,
    extension: Option<Seq<char>>,
    stem: Option<Seq<char>>,
    file_type: Seq<char>,
) -> Option<Seq<char>> {
    if kind == ChangeKind::Other || extension != Some(file_type) {
        None
    } else {
        match stem {
            Some(s) => Some(decoded_title(s)),
            None => None,
        }
    }
}

/// The title of the note in a changed file, given the extension and the
/// stem of the file.
pub fn title_of_change(
    kind: ChangeKind,
    extension: Option<String>,
    stem: Option<String>,
    file_type: &str,
) -> (r: Option<String>)
    ensures
        opt_text(r) == note_title(kind, opt_text(extension), opt_text(stem), file_type@),
{
    match kind {
        ChangeKind::Other => {
            return None;
        },
        _ => {},
    }
    let matches = match &extension {
        Some(e) => str_eq(e.as_str(), file_type),
        None => false,
    };
    if !matches {
        return None;
    }
    match stem {
        Some(s) => match percent_decode(s.as_str()) {
            Some(t) => Some(t),
            None => Some(s),
        },
        None => None,
    }
}

/// The state of the directory watcher.
pub struct Watcher {
    file_type: String,
    last_events: Vec<(String, u64)>,
    in_flight: Vec<String>,
    releases: Vec<(String, u64)>,
}

impl Watcher {
    /// The last accepted changes as pairs of a path and a time.
    pub closed spec fn events(&self) -> Seq<(Seq<char>, u64)> {
        Seq::new(self.last_events@.len(), |i: int| (self.last_events@[i].0@, self.last_events@[i].1))
    }

    #[verifier::type_invariant]
    closed spec fn inv(&self) -> bool {
        distinct_keys(self.events())
    }

    /// The extension of the note files.
    pub closed spec fn file_type(&self) -> Seq<char> {
        self.file_type@
    }
}

impl View for Watcher {
    type V = WatchView;

    closed spec fn view(&self) -> WatchView {
        WatchView {
            last_events: map_of(self.events()),
            in_flight: str_views(self.in_flight@).to_set(),
            releases: timed_views(self.releases@),
        }
    }
}

impl Watcher {
    /// A watcher of note files with the extension `file_type`, which has
    /// seen no change yet.
    pub fn new(file_type: String) -> (r: Self)
        ensures
            r.file_type() == file_type@,
            r@.last_events == Map::<Seq<char>, u64>::empty(),
            r@.in_flight == Set::<Seq<char>>::empty(),
            r@.releases == Seq::<(Seq<char>, u64)>::empty(),
    {
        let r = Watcher {
            file_type,
            last_events: Vec::new(),
            in_flight: Vec::new(),
            releases: Vec::new(),
        };
        assert(r@.in_flight =~= Set::<Seq<char>>::empty());
        assert(r@.releases =~= Seq::<(Seq<char>, u64)>::empty());
        r
    }

    fn flying(&self, path: &String) -> (r: bool)
        ensures
            r == self@.in_flight.contains(path@),
    {
        let mut i: usize = 0;
        while i < self.in_flight.len()
            invariant
                i <= self.in_flight.len(),
                forall|j: int| 0 <= j < i ==> #[trigger] str_views(self.in_flight@)[j] != path@,
            decreases self.in_flight.len() - i,
        {
            if self.in_flight[i] == *path {
                assert(str_views(self.in_flight@)[i as int] == path@);
                return true;
            }
            i += 1;
        }
        false
    }

    fn last_event(&self, path: &String) -> (r: Option<usize>)
        ensures
            match r {
                Some(i) => i < self.events().len() && self.events()[i as int].0 == path@
                    && self@.last_events.contains_key(path@) && self@.last_events[path@]
                    == self.events()[i as int].1,
                None => !self@.last_events.contains_key(path@),
            },
    {
        let mut i: usize = 0;
        while i < self.last_events.len()
            invariant
                i <= self.last_events.len(),
                forall|j: int| 0 <= j < i ==> (#[trigger] self.events()[j]).0 != path@,
            decreases self.last_events.len() - i,
        {
            if self.last_events[i].0 == *path {
                proof {
                    use_type_invariant(self);
                    lemma_map_of_value(self.events(), i as int);
                }
                return Some(i);
            }
            i += 1;
        }
        proof {
            lemma_map_of_dom(self.events(), path@);
        }
        None
    }

    /// Decides about a change of the file `path` at the time `now`, where
    /// `title` is the title of the note in the file, if the change is one
    /// of a note file. An accepted change puts the file in flight and
    /// starts its debounce window.
    pub fn on_change(&mut self, path: &str, title: Option<String>, now: u64) -> (r: WatchAction)
        ensures
            (r@, final(self)@) == decide(old(self)@, path@, opt_text(title), now),
            final(self).file_type() == old(self).file_type(),
    {
        let title = match title {
            Some(t) => t,
            None => {
                return WatchAction::Ignore;
            },
        };
        let key = String::from_str(path);
        if self.flying(&key) {
            return WatchAction::Busy;
        }
        let found = self.last_event(&key);
        match found {
            Some(i) => {
                let last = self.last_events[i].1;
                if now < last || now - last < DEBOUNCE_MS {
                    return WatchAction::Debounced;
                }
            },
            None => {},
        }
        let ghost es = self.events();
        let ghost flights = str_views(self.in_flight@);
        proof {
            use_type_invariant(&*self);
        }
        let mut taken = Watcher {
            file_type: String::new(),
            last_events: Vec::new(),
            in_flight: Vec::new(),
            releases: Vec::new(),
        };
        core::mem::swap(self, &mut taken);
        let Watcher { file_type, mut last_events, mut in_flight, releases } = taken;
        match found {
            Some(i) => {
                proof {
                    lemma_map_of_update(es, i as int, now);
                }
                last_events.set(i, (key.clone(), now));
            },
            None => {
                proof {
                    lemma_map_of_dom(es, key@);
                    assert(es.push((key@, now)).drop_last() == es);
                    assert forall|a: int, b: int| 0 <= a < b < es.len() + 1 implies (
                    #[trigger] es.push((key@, now))[a]).0 != (#[trigger] es.push((key@, now))[b]).0 by {
                        if b == es.len() {
                            assert(es[a].0 != key@);
                        } else {
                            assert(es[a].0 != es[b].0);
                        }
                    }
                }
                last_events.push((key.clone(), now));
            },
        }
        in_flight.push(key);
        proof {
            let after = Seq::new(last_events@.len(), |i: int| (last_events@[i].0@, last_events@[i].1));
            match found {
                Some(i) => {
                    assert(after =~= es.update(i as int, (path@, now)));
                },
                None => {
                    assert(after =~= es.push((path@, now)));
                },
            }
            assert(str_views(in_flight@) =~= flights.push(path@));
            assert(flights.push(path@).to_set() =~= flights.to_set().insert(path@)) by {
                assert forall|x: Seq<char>| flights.push(path@).contains(x) <==> (flights.contains(x)
                    || x == path@) by {
                    if flights.push(path@).contains(x) {
                        let k = choose|k: int|
                            0 <= k < flights.push(path@).len() && flights.push(path@)[k] == x;
                        if k < flights.len() {
                            assert(flights[k] == x);
                        }
                    }
                    if flights.contains(x) {
                        let k = choose|k: int| 0 <= k < flights.len() && flights[k] == x;
                        assert(flights.push(path@)[k] == x);
                    }
                    if x == path@ {
                        assert(flights.push(path@)[flights.len() as int] == x);
                    }
                }
            }
        }
        *self = Watcher { file_type, last_events, in_flight, releases };
        assert(self.events() =~= Seq::new(
            self.last_events@.len(),
            |i: int| (self.last_events@[i].0@, self.last_events@[i].1),
        ));
        WatchAction::Sync { title }
    }

    /// Decides about a change of the given kind of the file `path` at the
    /// time `now`: a file that was created or modified and has the
    /// extension of the note files is a note file, and its stem,
    /// percent-decoded, the title of the note.
    pub fn on_event(&mut self, kind: ChangeKind, path: &str, now: u64) -> (r: WatchAction)
        ensures
            exists|title: Option<Seq<char>>| #[trigger]
                decide(old(self)@, path@, title, now) == (r@, final(self)@),
            kind == ChangeKind::Other ==> r@ == ActionView::Ignore && final(self)@ == old(self)@,
            final(self).file_type() == old(self).file_type(),
    {
        let extension = path_extension(path);
        let stem = path_file_stem(path);
        let title = title_of_change(kind, extension, stem, self.file_type.as_str());
        let ghost t = opt_text(title);
        let r = self.on_change(path, title, now);
        assert(decide(old(self)@, path@, t, now) == (r@, self@));
        r
    }

    /// Puts `releases` in the place of the releases that are due, and hands
    /// those out.
    fn swap_releases(&mut self, releases: Vec<(String, u64)>) -> (r: Vec<(String, u64)>)
        ensures
            timed_views(r@) == old(self)@.releases,
            final(self)@.releases == timed_views(releases@),
            final(self)@.in_flight == old(self)@.in_flight,
            final(self)@.last_events == old(self)@.last_events,
            final(self).file_type() == old(self).file_type(),
    {
        let ghost es = self.events();
        proof {
            use_type_invariant(&*self);
        }
        let mut taken = Watcher {
            file_type: String::new(),
            last_events: Vec::new(),
            in_flight: Vec::new(),
            releases: Vec::new(),
        };
        core::mem::swap(self, &mut taken);
        let Watcher { file_type, last_events, in_flight, releases: due } = taken;
        proof {
            let after = Seq::new(last_events@.len(), |i: int| (last_events@[i].0@, last_events@[i].1));
            assert(after =~= es);
        }
        *self = Watcher { file_type, last_events, in_flight, releases };
        assert(self.events() =~= es);
        due
    }

    /// Notes that the synchronisation of the file `path` was done at the
    /// time `now`, whether it succeeded or not: the file leaves flight once
    /// the debounce window after `now` has passed.
    pub fn sync_done(&mut self, path: &str, now: u64)
        ensures
            final(self)@.releases == old(self)@.releases.push((path@, release_time(now))),
            final(self)@.in_flight == old(self)@.in_flight,
            final(self)@.last_events == old(self)@.last_events,
            final(self).file_type() == old(self).file_type(),
    {
        let mut releases = self.swap_releases(Vec::new());
        let ghost before = timed_views(releases@);
        let due = if now > u64::MAX - DEBOUNCE_MS {
            u64::MAX
        } else {
            now + DEBOUNCE_MS
        };
        releases.push((String::from_str(path), due));
        assert(timed_views(releases@) =~= before.push((path@, release_time(now))));
        let _ = self.swap_releases(releases);
    }

    /// Makes the releases that are due at the time `now`: each file whose
    /// time has come leaves flight, the other releases stay due.
    pub fn release_due(&mut self, now: u64)
        ensures
            final(self)@.releases == not_due(old(self)@.releases, now),
            final(self)@.in_flight == still_flying(old(self)@.in_flight, old(self)@.releases, now),
            final(self)@.last_events == old(self)@.last_events,
            final(self).file_type() == old(self).file_type(),
    {
        let ghost flying = self@.in_flight;
        let queue = self.swap_releases(Vec::new());
        let ghost all = timed_views(queue@);
        let mut waiting: Vec<(String, u64)> = Vec::new();
        let mut i: usize = 0;
        assert(all.take(0) =~= Seq::empty());
        assert(self@.in_flight =~= still_flying(flying, all.take(0), now));
        assert(timed_views(waiting@) =~= not_due(all.take(0), now));
        while i < queue.len()
            invariant
                i <= queue.len(),
                all == timed_views(queue@),
                self@.last_events == old(self)@.last_events,
                self.file_type() == old(self).file_type(),
                self@.in_flight == still_flying(flying, all.take(i as int), now),
                timed_views(waiting@) == not_due(all.take(i as int), now),
            decreases queue.len() - i,
        {
            let ghost done = all.take(i as int);
            let ghost next = all.take(i + 1);
            let ghost entry = all[i as int];
            let ghost before = timed_views(waiting@);
            let ghost flights = self@.in_flight;
            proof {
                assert(next.drop_last() =~= done);
                assert(next.last() == entry);
                assert(next =~= done.push(entry));
                assert(entry == (queue@[i as int].0@, queue@[i as int].1));
            }
            if queue[i].1 <= now {
                self.release(queue[i].0.as_str());
                proof {
                    assert forall|p: Seq<char>| flights.remove(entry.0).contains(p)
                        == still_flying(flying, next, now).contains(p) by {
                        lemma_is_due_push(done, entry, p, now);
                    }
                    assert(self@.in_flight =~= still_flying(flying, next, now));
                }
            } else {
                waiting.push((queue[i].0.clone(), queue[i].1));
                proof {
                    assert(timed_views(waiting@) =~= before.push(entry));
                    assert forall|p: Seq<char>| flights.contains(p) == still_flying(
                        flying,
                        next,
                        now,
                    ).contains(p) by {
                        lemma_is_due_push(done, entry, p, now);
                    }
                    assert(self@.in_flight =~= still_flying(flying, next, now));
                }
            }
            i += 1;
        }
        assert(all.take(queue.len() as int) =~= all);
        let _ = self.swap_releases(waiting);
    }

    /// Takes the file `path` out of flight.
    pub fn release(&mut self, path: &str)
        ensures
            final(self)@.in_flight == old(self)@.in_flight.remove(path@),
            final(self)@.last_events == old(self)@.last_events,
            final(self)@.releases == old(self)@.releases,
            final(self).file_type() == old(self).file_type(),
    {
        let key = String::from_str(path);
        let ghost es = self.events();
        let ghost flights = str_views(self.in_flight@);
        proof {
            use_type_invariant(&*self);
        }
        let mut taken = Watcher {
            file_type: String::new(),
            last_events: Vec::new(),
            in_flight: Vec::new(),
            releases: Vec::new(),
        };
        core::mem::swap(self, &mut taken);
        let Watcher { file_type, last_events, in_flight, releases } = taken;
        let mut kept: Vec<String> = Vec::new();
        let mut i: usize = 0;
        while i < in_flight.len()
            invariant
                i <= in_flight.len(),
                str_views(in_flight@) == flights,
                key@ == path@,
                forall|x: Seq<char>|
                    str_views(kept@).contains(x) <==> (flights.take(i as int).contains(x) && x
                        != path@),
            decreases in_flight.len() - i,
        {
            let ghost before = str_views(kept@);
            let ghost item = flights[i as int];
            assert(item == in_flight@[i as int]@);
            let keep = !(in_flight[i] == key);
            if keep {
                kept.push(in_flight[i].clone());
                assert(str_views(kept@) =~= before.push(item));
            }
            proof {
                let done = flights.take(i as int);
                let next = flights.take(i + 1);
                assert(next =~= done.push(item));
                assert forall|x: Seq<char>| str_views(kept@).contains(x) <==> (next.contains(x) && x
                    != path@) by {
                    if str_views(kept@).contains(x) {
                        let k = choose|k: int|
                            0 <= k < str_views(kept@).len() && str_views(kept@)[k] == x;
                        if keep && k == before.len() {
                            assert(next[i as int] == x);
                        } else {
                            assert(before[k] == x);
                            assert(before.contains(x));
                            let m = choose|m: int| 0 <= m < done.len() && done[m] == x;
                            assert(next[m] == x);
                        }
                    }
                    if next.contains(x) && x != path@ {
                        let m = choose|m: int| 0 <= m < next.len() && next[m] == x;
                        if m < i {
                            assert(done[m] == x);
                            assert(done.contains(x));
                            assert(before.contains(x));
                            let k = choose|k: int| 0 <= k < before.len() && before[k] == x;
                            assert(str_views(kept@)[k] == x);
                        } else {
                            assert(keep);
                            assert(str_views(kept@)[before.len() as int] == x);
                        }
                    }
                }
            }
            i += 1;
        }
        proof {
            assert(flights.take(in_flight.len() as int) =~= flights);
            assert(str_views(kept@).to_set() =~= flights.to_set().remove(path@));
            let after = Seq::new(last_events@.len(), |i: int| (last_events@[i].0@, last_events@[i].1));
            assert(after =~= es);
        }
        *self = Watcher { file_type, last_events, in_flight: kept, releases };
        assert(self.events() =~= es);
    }
}

/// A change of a file within the debounce window after an accepted change
/// of that file sets no synchronisation going, whether the file is still in
/// flight or not.
pub proof fn lemma_second_change_within_window(
    st: WatchView,
    path: Seq<char>,
    title: Seq<char>,
    first: u64,
    second: u64,
    released: bool,
)
    requires
        decide(st, path, Some(title), first).0 is Sync,
        first <= second,
        second - first < DEBOUNCE_MS,
    ensures
        ({
            let after = decide(st, path, Some(title), first).1;
            let then = if released {
                WatchView { in_flight: after.in_flight.remove(path), ..after }
            } else {
                after
            };
            !(decide(then, path, Some(title), second).0 is Sync)
        }),
{
}

/// A change of a file that comes when the window after the last accepted
/// change has passed and the file was released sets a synchronisation
/// going.
pub proof fn lemma_change_after_window(
    st: WatchView,
    path: Seq<char>,
    title: Seq<char>,
    first: u64,
    second: u64,
)
    requires
        decide(st, path, Some(title), first).0 is Sync,
        first <= second,
        second - first >= DEBOUNCE_MS,
    ensures
        ({
            let after = decide(st, path, Some(title), first).1;
            let then = WatchView { in_flight: after.in_flight.remove(path), ..after };
            decide(then, path, Some(title), second).0 == ActionView::Sync { title }
        }),
{
}

/// A file whose synchronisation is done leaves flight with the releases
/// that are made once its debounce window has passed, and stays in flight
/// with those that are made before, unless an earlier release of it is due.
pub proof fn lemma_done_file_leaves_flight(st: WatchView, path: Seq<char>, done: u64, now: u64)
    ensures
        now >= release_time(done) ==> !still_flying(
            st.in_flight,
            st.releases.push((path, release_time(done))),
            now,
        ).contains(path),
        now < release_time(done) && st.in_flight.contains(path) && !is_due(st.releases, path, now)
            ==> still_flying(
            st.in_flight,
            st.releases.push((path, release_time(done))),
            now,
        ).contains(path),
{
    lemma_is_due_push(st.releases, (path, release_time(done)), path, now);
}

/// While a file is in flight no change of it sets a synchronisation going:
/// the writes of a synchronisation do not set off another one.
pub proof fn lemma_in_flight_is_passed_over(
    st: WatchView,
    path: Seq<char>,
    title: Option<Seq<char>>,
    now: u64,
)
    requires
        st.in_flight.contains(path),
    ensures
        !(decide(st, path, title, now).0 is Sync),
        decide(st, path, title, now).1 == st,
{
}

} // verus!
