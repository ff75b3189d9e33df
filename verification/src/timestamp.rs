//! The observer that stamps notes with the time of their creation and of
//! their last change.
use chrono::Local;
use vstd::prelude::*;
use vstd::string::StringExecFns;
use crate::event::{
    EventKind, EventView, NoteEvent, NoteObserver, ObserverResult, Outcome, ResultView,
};
use crate::fields::FieldMap;
use crate::metadata::{lemma_created_at_kept, merged};
use crate::note::tidy_list;
use crate::observer_registry::folded;
use crate::sync::{first_write, round_start};

verus! {

/// The format of `created_at`: date, time and offset.
pub open spec fn created_format() -> Seq<char> {
    "%Y-%m-%d %H:%M:%S %z"@
}

/// The format of `updated_at`: date, time with its fraction, and offset.
pub open spec fn updated_format() -> Seq<char> {
    "%Y-%m-%d %H:%M:%S.%f %z"@
}

/// `chrono::Local::now()`, formatted by `format`. The result is the time
/// of the call, so only this is said of it: it is not empty, as both
/// formats of this module write the digits of a date. The two formats are
/// valid; another format could make the formatting fail.
#[verifier::external_body]
fn local_now(format: &str) -> (r: String)
    requires
        format@ == created_format() || format@ == updated_format(),
    ensures
        r@.len() > 0,
{
    Local::now().format(format).to_string()
}

/// The fields that the observer hands back for an event, where `created`
/// and `updated` are the time of the event in the two formats.
///
/// A note that is created gets a `created_at` unless it brings one. A note
/// that is updated or synchronised keeps the `created_at` it has. Either
/// way `updated_at` is set anew.
pub open spec fn timestamp_fields(event: EventView, created: Seq<char>, updated: Seq<char>) -> Map<
    Seq<char>,
    Seq<char>,
> {
    let has = event.frontmatter.contains_key("created_at"@);
    let base: Map<Seq<char>, Seq<char>> = if event.kind == EventKind::Created {
        if has {
            Map::empty()
        } else {
            Map::empty().insert("created_at"@, created)
        }
    } else {
        if has {
            Map::empty().insert("created_at"@, event.frontmatter["created_at"@])
        } else {
            Map::empty()
        }
    };
    base.insert("updated_at"@, updated)
}

/// The fields that the observer hands back for `event` at the given time.
pub fn stamp(event: &NoteEvent, created: String, updated: String) -> (r: FieldMap)
    ensures
        r@ == timestamp_fields(event@, created@, updated@),
{
    let mut metadata = FieldMap::new();
    match event.kind() {
        EventKind::Created => {
            if !event.frontmatter().contains_key("created_at") {
                metadata.insert(String::from_str("created_at"), created);
            }
        },
        _ => {
            match event.frontmatter().get("created_at") {
                Some(kept) => {
                    metadata.insert(String::from_str("created_at"), kept.clone());
                },
                None => {},
            }
        },
    }
    metadata.insert(String::from_str("updated_at"), updated);
    metadata
}

/// Stamps notes with `created_at` and `updated_at`.
pub struct TimestampObserver;

impl NoteObserver for TimestampObserver {
    fn on_event(&self, event: NoteEvent) -> (r: Outcome)
        ensures
            r matches Ok(Some(result)) && result@.content is None && exists|
                created: Seq<char>,
                updated: Seq<char>,
            | #[trigger]
                timestamp_fields(event@, created, updated) == result@.metadata->Some_0
                    && result@.metadata is Some && created.len() > 0 && updated.len() > 0,
    {
        let created = local_now("%Y-%m-%d %H:%M:%S %z");
        let updated = local_now("%Y-%m-%d %H:%M:%S.%f %z");
        let ghost c = created@;
        let ghost u = updated@;
        let metadata = stamp(&event, created, updated);
        let result = ObserverResult { metadata: Some(metadata), content: None };
        assert(timestamp_fields(event@, c, u) == result@.metadata->Some_0);
        Ok(Some(result))
    }

    fn name(&self) -> (r: String)
        ensures
            r@ == "timestamp"@,
    {
        String::from_str("timestamp")
    }

    fn priority(&self) -> (r: i32)
        ensures
            r == 0,
    {
        0
    }
}

/// Merging the stamp of an event into the frontmatter that the event
/// carries never changes a `created_at` that the frontmatter holds, and
/// always sets `updated_at` to the time of the event.
pub proof fn lemma_stamp_keeps_created_at(event: EventView, created: Seq<char>, updated: Seq<char>)
    ensures
        event.frontmatter.contains_key("created_at"@) ==> merged(
            event.frontmatter,
            timestamp_fields(event, created, updated),
        )["created_at"@] == event.frontmatter["created_at"@],
        merged(event.frontmatter, timestamp_fields(event, created, updated)).contains_key(
            "created_at"@,
        ) || event.kind != EventKind::Created,
        merged(event.frontmatter, timestamp_fields(event, created, updated))["updated_at"@]
            == updated,
{
    reveal_strlit("tags");
    reveal_strlit("topics");
    reveal_strlit("created_at");
    reveal_strlit("updated_at");
    reveal_strlit("timestamp");
    assert("tags"@.len() == 4 && "topics"@.len() == 6 && "created_at"@.len() == 10
        && "timestamp"@.len() == 9 && "updated_at"@.len() == 10);
    assert("updated_at"@ != "created_at"@) by {
        assert("updated_at"@[0] == 'u' && "created_at"@[0] == 'c');
    }
    if event.frontmatter.contains_key("created_at"@) {
        lemma_created_at_kept(event.frontmatter, timestamp_fields(event, created, updated));
    }
}

/// What the observer contributes to a round for `event` at the given time.
pub open spec fn stamp_of(event: EventView, created: Seq<char>, updated: Seq<char>) -> Option<
    ResultView,
> {
    Some(ResultView { metadata: Some(timestamp_fields(event, created, updated)), content: None })
}

/// The note to persist after a round in which the stamp is the one
/// contribution keeps its body and its tags, in their tidy form, and holds
/// an `updated_at`, which is the time of the event. A note that was created
/// holds a `created_at` too, which is the time of the event unless the
/// note brought one. The times of the event are what the observer read
/// from the clock, which is never empty: so neither are these two fields,
/// unless the note brought an empty `created_at`.
pub proof fn lemma_stamped_note(
    title: Seq<char>,
    content: Seq<char>,
    event: EventView,
    created: Seq<char>,
    updated: Seq<char>,
)
    requires
        created.len() > 0,
        updated.len() > 0,
    ensures
        ({
            let round = folded(
                round_start(event.frontmatter),
                seq![stamp_of(event, created, updated)],
            );
            let note = first_write(title, content, round);
            &&& note.title == title
            &&& note.frontmatter["updated_at"@].len() > 0
            &&& event.kind == EventKind::Created && !event.frontmatter.contains_key("created_at"@)
                ==> note.frontmatter["created_at"@].len() > 0
            &&& note.content == content
            &&& note.frontmatter.contains_key("updated_at"@) && note.frontmatter["updated_at"@]
                == updated
            &&& event.kind == EventKind::Created ==> note.frontmatter.contains_key("created_at"@)
            &&& event.kind == EventKind::Created && !event.frontmatter.contains_key("created_at"@)
                ==> note.frontmatter["created_at"@] == created
            &&& event.frontmatter.contains_key("created_at"@) ==> note.frontmatter.contains_key(
                "created_at"@,
            ) && note.frontmatter["created_at"@] == event.frontmatter["created_at"@]
            &&& event.frontmatter.contains_key("tags"@) ==> note.frontmatter.contains_key("tags"@)
                && note.frontmatter["tags"@] == tidy_list(event.frontmatter["tags"@])
        }),
{
    reveal_strlit("tags");
    reveal_strlit("topics");
    reveal_strlit("created_at");
    reveal_strlit("updated_at");
    reveal_strlit("timestamp");
    assert("tags"@.len() == 4 && "topics"@.len() == 6 && "created_at"@.len() == 10
        && "timestamp"@.len() == 9 && "updated_at"@.len() == 10);
    assert("updated_at"@ != "created_at"@) by {
        assert("updated_at"@[0] == 'u' && "created_at"@[0] == 'c');
    }
    let one = seq![stamp_of(event, created, updated)];
    assert(one.drop_last() =~= Seq::<Option<ResultView>>::empty());
    assert(one.last() == stamp_of(event, created, updated));
    let start = round_start(event.frontmatter);
    assert(folded(start, one.drop_last()) == start);
    let round = folded(start, one);
    assert(round.metadata == merged(event.frontmatter, timestamp_fields(event, created, updated)));
    assert(round.content is None);
    lemma_stamp_keeps_created_at(event, created, updated);
}

} // verus!
