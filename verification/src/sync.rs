//! The workflow of a note: a round of the observers, the note to persist,
//! then the store alone, and the note to persist once more where the store
//! rewrote the body.
//!
//! Persisting is left to the caller: `add_note` and `sync_single_note` give
//! the note of the first write, `index_note` the note of the second.
use vstd::prelude::*;
use vstd::string::StringExecFns;
use crate::event::{EventKind, NoteEvent, ObserverError, Outcome, ResultView};
use crate::fields::FieldMap;
use crate::handlers::{date_of, Moment};
use crate::hash_cache::{content_digest, digest_check, HashCache};
use crate::metadata::{list_items, lookup, split_list};
use crate::note::{non_empty, tidy_fields, Note, NoteView};
use crate::observer_registry::{
    active_part, as_ints, folded, is_active, is_dispatch_order, lemma_dispatch_in_range,
    lemma_no_active_observer, ObserverRegistry, RoundResult, RoundView,
};
use crate::order::clone_chars;
use crate::settings::Settings;
use crate::split::{str_views, views};
use crate::text::{chars_eq, from_chars, opt_text, push_str, to_chars, trim, trim_chars};
use crate::toc::lowercase;
use crate::utils::{get_absolute_note_path, replace_all, replaced};

verus! {

/// The observers that a note asks to leave out, by its field
/// `skip_observers`: all of them where it says `all`, else those that its
/// comma-separated list names.
pub open spec fn skipped(frontmatter: Map<Seq<char>, Seq<char>>, names: Seq<Seq<char>>) -> Seq<
    Seq<char>,
> {
    match lookup(frontmatter, "skip_observers"@) {
        Some(value) => if trim(value) == "all"@ {
            names
        } else {
            non_empty(list_items(value))
        },
        None => Seq::empty(),
    }
}

/// The observers that the note leaves out; `names` are the names of all
/// observers.
pub fn skip_list(frontmatter: &FieldMap, names: &Vec<String>) -> (r: Vec<String>)
    ensures
        str_views(r@) == skipped(frontmatter@, str_views(names@)),
{
    match frontmatter.get("skip_observers") {
        Some(value) => {
            let chars = to_chars(value.as_str());
            if chars_eq(&trim_chars(&chars), &to_chars("all")) {
                let mut r: Vec<String> = Vec::new();
                let mut i: usize = 0;
                while i < names.len()
                    invariant
                        i <= names.len(),
                        r@.len() == i,
                        forall|j: int| 0 <= j < i ==> (#[trigger] r@[j])@ == names@[j]@,
                    decreases names.len() - i,
                {
                    r.push(names[i].clone());
                    i += 1;
                }
                assert(str_views(r@) =~= str_views(names@));
                r
            } else {
                let items = split_list(&chars);
                let mut r: Vec<String> = Vec::new();
                let mut i: usize = 0;
                assert(views(items@).take(0) =~= Seq::empty());
                while i < items.len()
                    invariant
                        i <= items.len(),
                        str_views(r@) == non_empty(views(items@).take(i as int)),
                    decreases items.len() - i,
                {
                    proof {
                        let next = views(items@).take(i + 1);
                        assert(next.drop_last() =~= views(items@).take(i as int));
                        assert(next.last() == items@[i as int]@);
                    }
                    if items[i].len() > 0 {
                        let ghost before = str_views(r@);
                        let item = from_chars(&items[i]);
                        r.push(item);
                        assert(str_views(r@) =~= before.push(items@[i as int]@));
                    }
                    i += 1;
                }
                assert(views(items@).take(items.len() as int) =~= views(items@));
                r
            }
        },
        None => {
            let r: Vec<String> = Vec::new();
            assert(str_views(r@) =~= Seq::empty());
            r
        },
    }
}

/// What a round over a note gave: the event that the observers were told
/// of, the note to persist, and the metadata of the round.
pub struct SyncStep {
    pub event: NoteEvent,
    pub note: Note,
    pub metadata: FieldMap,
}

/// The round from which the workflow of a note starts: the note's own
/// frontmatter, and no new body.
pub open spec fn round_start(frontmatter: Map<Seq<char>, Seq<char>>) -> RoundView {
    RoundView { metadata: frontmatter, content: None }
}

/// The note of the first write: the body that won the round, or the note's
/// own body where no observer supplied one, with the metadata of the round.
pub open spec fn first_write(title: Seq<char>, content: Seq<char>, round: RoundView) -> NoteView {
    NoteView {
        title,
        content: match round.content {
            Some(c) => c,
            None => content,
        },
        frontmatter: tidy_fields(round.metadata),
    }
}

/// The note of the second write, where the store supplied a body: that
/// body with the metadata of the round. A store that gave no body, or
/// nothing, asks for no second write.
pub open spec fn second_write(
    title: Seq<char>,
    metadata: Map<Seq<char>, Seq<char>>,
    store: Option<ResultView>,
) -> Option<NoteView> {
    match store {
        Some(result) => match result.content {
            Some(c) => Some(NoteView { title, content: c, frontmatter: tidy_fields(metadata) }),
            None => None,
        },
        None => None,
    }
}

/// Whether `metadata` and `note` are what a round over a note gives. The
/// observers that are told are those of the order of notification that the
/// note does not leave out, the store excepted; each of them contributes
/// once, the contributions are folded into the note's own frontmatter in
/// that order, and the note is the note of the first write.
pub open spec fn is_round(
    names: Seq<Seq<char>>,
    priorities: Seq<i32>,
    title: Seq<char>,
    content: Seq<char>,
    frontmatter: Map<Seq<char>, Seq<char>>,
    metadata: Map<Seq<char>, Seq<char>>,
    note: NoteView,
) -> bool {
    exists|full: Seq<int>, contributions: Seq<Option<ResultView>>|
        #![trigger is_dispatch_order(full, names, priorities), folded(round_start(frontmatter), contributions)]
        is_dispatch_order(full, names, priorities) && contributions.len() == active_part(
            full,
            names,
            skipped(frontmatter, names),
        ).len() && folded(round_start(frontmatter), contributions).metadata == metadata && note
            == first_write(title, content, folded(round_start(frontmatter), contributions))
}

/// A round in which no observer is active tells no observer: the metadata
/// are the note's own frontmatter, and the note of the first write has the
/// note's own body. So it is with no observer registered, and with the
/// store alone.
pub proof fn lemma_round_without_observers(
    names: Seq<Seq<char>>,
    priorities: Seq<i32>,
    title: Seq<char>,
    content: Seq<char>,
    frontmatter: Map<Seq<char>, Seq<char>>,
    metadata: Map<Seq<char>, Seq<char>>,
    note: NoteView,
)
    requires
        names.len() == priorities.len(),
        is_round(names, priorities, title, content, frontmatter, metadata, note),
        forall|i: int|
            0 <= i < names.len() ==> !is_active(names, skipped(frontmatter, names), i),
    ensures
        metadata == frontmatter,
        note == first_write(title, content, round_start(frontmatter)),
{
    let (full, contributions) = choose|full: Seq<int>, contributions: Seq<Option<ResultView>>|
        #![trigger is_dispatch_order(full, names, priorities), folded(round_start(frontmatter), contributions)]
        is_dispatch_order(full, names, priorities) && contributions.len() == active_part(
            full,
            names,
            skipped(frontmatter, names),
        ).len() && folded(round_start(frontmatter), contributions).metadata == metadata && note
            == first_write(title, content, folded(round_start(frontmatter), contributions));
    lemma_dispatch_in_range(full, names, priorities);
    lemma_no_active_observer(full, names, skipped(frontmatter, names));
}

/// A note whose field `skip_observers` says `all` has no observer told:
/// the round leaves its frontmatter and its body as they were given.
pub proof fn lemma_skip_all_tells_nobody(
    names: Seq<Seq<char>>,
    priorities: Seq<i32>,
    title: Seq<char>,
    content: Seq<char>,
    frontmatter: Map<Seq<char>, Seq<char>>,
    metadata: Map<Seq<char>, Seq<char>>,
    note: NoteView,
)
    requires
        names.len() == priorities.len(),
        is_round(names, priorities, title, content, frontmatter, metadata, note),
        lookup(frontmatter, "skip_observers"@) matches Some(value) && trim(value) == "all"@,
    ensures
        metadata == frontmatter,
        note == first_write(title, content, round_start(frontmatter)),
{
    assert forall|i: int| 0 <= i < names.len() implies !is_active(
        names,
        skipped(frontmatter, names),
        i,
    ) by {
        assert(names.contains(names[i]));
    }
    lemma_round_without_observers(names, priorities, title, content, frontmatter, metadata, note);
}

/// The view of a note that may be absent.
pub open spec fn opt_note(note: Option<Note>) -> Option<NoteView> {
    match note {
        Some(n) => Some(n@),
        None => None,
    }
}

/// What the outcome of the store asks for: on success the second write, if
/// any; a failure of the store fails the whole operation.
pub fn store_pass(step: &SyncStep, outcome: Option<Outcome>) -> (r: Result<Option<Note>, ObserverError>)
    ensures
        match outcome {
            Some(Err(e)) => r == Err::<Option<Note>, ObserverError>(e),
            Some(Ok(Some(result))) => r is Ok && opt_note(r->Ok_0) == second_write(
                step.event@.title,
                step.metadata@,
                Some(result@),
            ),
            _ => r is Ok && r->Ok_0 is None,
        },
{
    match outcome {
        Some(Err(e)) => Err(e),
        Some(Ok(Some(result))) => {
            match result.content {
                Some(content) => Ok(
                    Some(Note::new(step.event.title().clone(), content, step.metadata.clone())),
                ),
                None => Ok(None),
            }
        },
        _ => Ok(None),
    }
}

/// Runs the workflows of notes with the settings it holds.
pub struct NoteManager {
    settings: Settings,
}

impl NoteManager {
    /// A manager with the given settings.
    pub fn new(settings: Settings) -> (r: Self)
        ensures
            r.settings() == settings,
    {
        NoteManager { settings }
    }

    /// The settings of the manager.
    pub closed spec fn settings(&self) -> Settings {
        self.settings
    }

    /// Whether the note `title` with the body `content` must be processed:
    /// its digest is compared with the one that the cache holds for it, and
    /// recorded where it differs.
    pub fn should_process_note(&self, cache: &mut HashCache, title: &str, content: &str) -> (changed:
        bool)
        ensures
            (changed, final(cache)@) == digest_check(
                old(cache)@,
                title@,
                content_digest(content@),
            ),
    {
        cache.should_process_note(title, content)
    }

    /// The moment that a date of the command line names, or the message
    /// that tells that it names none.
    pub fn parse_date_string(date_str: &str) -> (r: Result<Moment, String>)
        ensures
            match r {
                Ok(m) => date_of(date_str@) == Some(m),
                Err(message) => date_of(date_str@) is None && message@ == "Invalid dateformat '"@
                    + date_str@ + "'"@,
            },
    {
        crate::handlers::parse_date_string(date_str)
    }

    /// The name under which a note is deleted: its title in lower case,
    /// with an underscore for each blank.
    pub fn title_to_filename(&self, title: &str) -> (r: String)
        ensures
            r@ == replaced(lowercase(title@), " "@, "_"@),
    {
        let lower = title.to_lowercase();
        from_chars(&replace_all(&to_chars(lower.as_str()), &to_chars(" "), &to_chars("_")))
    }

    /// The path of the file that deleting the note `title` removes.
    pub fn deleted_file(&self, title: &str) -> (r: String)
        ensures
            r@ == self.settings().note_dir@ + "/"@ + replaced(lowercase(title@), " "@, "_"@) + "."@
                + self.settings().file_type@,
    {
        let mut path = to_chars(self.settings.note_dir.as_str());
        push_str(&mut path, "/");
        push_str(&mut path, self.title_to_filename(title).as_str());
        push_str(&mut path, ".");
        push_str(&mut path, self.settings.file_type.as_str());
        from_chars(&path)
    }

    /// The round of a note: tells the observers that the note does not
    /// leave out, the store excepted, of the event, and gives the note to
    /// persist.
    pub fn round(
        &self,
        registry: &ObserverRegistry,
        kind: EventKind,
        title: String,
        content: String,
        frontmatter: FieldMap,
    ) -> (r: SyncStep)
        ensures
            r.event@.kind == kind,
            r.event@.title == title@,
            r.event@.content == content@,
            r.event@.frontmatter == frontmatter@,
            is_round(
                registry.names(),
                registry.priorities(),
                title@,
                content@,
                frontmatter@,
                r.metadata@,
                r.note@,
            ),
    {
        let path = get_absolute_note_path(title.as_str(), &self.settings);
        let event = NoteEvent::new(kind, title.clone(), content.clone(), path, frontmatter.clone());
        let names = registry.get_observers();
        let skip = skip_list(&frontmatter, &names);
        let order = registry.active_order(&skip);
        let start = RoundResult { metadata: frontmatter, content: None };
        let ghost start_view = start@;
        let round = registry.run_round(&event, &order, start);
        let ghost full = choose|full: Seq<int>| #[trigger]
            is_dispatch_order(full, registry.names(), registry.priorities()) && as_ints(order@)
                == active_part(full, registry.names(), str_views(skip@));
        let ghost contributions = choose|contributions: Seq<Option<ResultView>>|
            contributions.len() == order@.len() && #[trigger] folded(start_view, contributions)
                == round@;
        let RoundResult { metadata, content: won } = round;
        let body = match won {
            Some(c) => c,
            None => content,
        };
        let note = Note::new(title, body, metadata.clone());
        assert(as_ints(order@).len() == order@.len());
        assert(is_dispatch_order(full, registry.names(), registry.priorities()) && folded(
            round_start(frontmatter@),
            contributions,
        ).metadata == metadata@);
        SyncStep { event, note, metadata }
    }

    /// Adds a note: tells the observers that a note was created, and gives
    /// the note to persist.
    pub fn add_note(
        &self,
        registry: &ObserverRegistry,
        title: String,
        content: String,
        frontmatter_fields: FieldMap,
    ) -> (r: SyncStep)
        ensures
            r.event@.kind == EventKind::Created,
            r.event@.title == title@,
            r.event@.content == content@,
            r.event@.frontmatter == frontmatter_fields@,
            is_round(
                registry.names(),
                registry.priorities(),
                title@,
                content@,
                frontmatter_fields@,
                r.metadata@,
                r.note@,
            ),
    {
        self.round(registry, EventKind::Created, title, content, frontmatter_fields)
    }

    /// Synchronises one note that was read from its file. Unless
    /// `skip_hash_check` is set, a note whose body has the digest that the
    /// cache holds for it is left alone: nothing is returned, no observer
    /// is told and the cache stays as it is. Any other note has its digest
    /// recorded, the observers are told that it was synchronised, and the
    /// note to persist is returned.
    pub fn sync_single_note(
        &self,
        registry: &ObserverRegistry,
        cache: &mut HashCache,
        title: String,
        content: String,
        frontmatter: FieldMap,
        skip_hash_check: bool,
    ) -> (r: Option<SyncStep>)
        ensures
            skip_hash_check ==> r is Some && final(cache)@ == old(cache)@,
            !skip_hash_check ==> (r is Some, final(cache)@) == digest_check(
                old(cache)@,
                title@,
                content_digest(content@),
            ),
            match r {
                Some(step) => step.event@.kind == EventKind::Synced && step.event@.title == title@
                    && step.event@.content == content@ && step.event@.frontmatter == frontmatter@
                    && is_round(
                    registry.names(),
                    registry.priorities(),
                    title@,
                    content@,
                    frontmatter@,
                    step.metadata@,
                    step.note@,
                ),
                None => true,
            },
    {
        if !skip_hash_check && !cache.should_process_note(title.as_str(), content.as_str()) {
            return None;
        }
        Some(self.round(registry, EventKind::Synced, title, content, frontmatter))
    }

    /// Tells the store alone of the event of the step, the event as it was
    /// before the round, and gives the note to persist once more, if the
    /// store supplied a body. A failure of the store fails the operation;
    /// the note of the first write stays as it was persisted.
    pub fn index_note(&self, registry: &ObserverRegistry, step: &SyncStep) -> (r: Result<
        Option<Note>,
        ObserverError,
    >)
        ensures
            !registry.names().contains(crate::observer_registry::store_name()) ==> r is Ok
                && r->Ok_0 is None,
            r matches Ok(Some(note)) ==> note@.title == step.event@.title && note@.frontmatter
                == tidy_fields(step.metadata@),
    {
        let outcome = registry.run_store(step.event.clone());
        store_pass(step, outcome)
    }
}

} // verus!
