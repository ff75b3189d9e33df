//! The observers that come with the application, by name.
use vstd::prelude::*;
use vstd::string::StringExecFns;
use crate::event::NoteObserver;
use crate::observer_registry::has_name;
use crate::settings::Settings;
use crate::split::str_views;
use crate::tag_index::TagIndexObserver;
use crate::text::str_eq;
use crate::timestamp::TimestampObserver;
use crate::toc::TocObserver;

verus! {

/// An observer that comes with the application.
pub enum BuiltIn {
    /// Stamps notes with the times of their creation and last change.
    Timestamp(TimestampObserver),
    /// Keeps the relational store. The store is opened by the caller, so
    /// this names it only.
    Sqlite,
    /// Keeps the tag index.
    TagIndex(TagIndexObserver),
    /// Keeps the table of contents of a note.
    Toc(TocObserver),
}

/// The names of the observers that come with the application.
pub open spec fn available_names() -> Seq<Seq<char>> {
    seq!["timestamp"@, "sqlite"@, "tag_index"@, "toc"@]
}

/// The names of the observers that come with the application.
pub fn get_available_observers() -> (r: Vec<&'static str>)
    ensures
        r@.len() == 4,
        Seq::new(r@.len(), |i: int| r@[i]@) == available_names(),
{
    let mut r: Vec<&'static str> = Vec::new();
    r.push("timestamp");
    r.push("sqlite");
    r.push("tag_index");
    r.push("toc");
    assert(Seq::new(r@.len(), |i: int| r@[i]@) =~= available_names());
    r
}

/// The observer of the given name, if the application comes with one.
pub fn create_observer(name: &str, settings: Settings) -> (r: Option<BuiltIn>)
    ensures
        match r {
            Some(BuiltIn::Timestamp(_)) => name@ == "timestamp"@,
            Some(BuiltIn::Sqlite) => name@ == "sqlite"@,
            Some(BuiltIn::TagIndex(observer)) => name@ == "tag_index"@ && observer.settings
                == settings,
            Some(BuiltIn::Toc(_)) => name@ == "toc"@,
            None => !available_names().contains(name@),
        },
{
    if str_eq(name, "timestamp") {
        Some(BuiltIn::Timestamp(TimestampObserver))
    } else if str_eq(name, "sqlite") {
        Some(BuiltIn::Sqlite)
    } else if str_eq(name, "tag_index") {
        Some(BuiltIn::TagIndex(TagIndexObserver::new(settings)))
    } else if str_eq(name, "toc") {
        Some(BuiltIn::Toc(TocObserver::new()))
    } else {
        proof {
            if available_names().contains(name@) {
                let i = choose|i: int|
                    0 <= i < available_names().len() && available_names()[i] == name@;
                assert(i == 0 || i == 1 || i == 2 || i == 3);
            }
        }
        None
    }
}

/// The observers that are made without further ado: the observer of the
/// table of contents, where the settings enable it.
pub fn create_observers(settings: Settings) -> (r: Vec<Box<dyn NoteObserver>>)
    ensures
        r@.len() == (if str_views(settings.enabled_observers@).contains("toc"@) {
            1nat
        } else {
            0nat
        }),
{
    let mut observers: Vec<Box<dyn NoteObserver>> = Vec::new();
    let toc = String::from_str("toc");
    if has_name(&settings.enabled_observers, &toc) {
        let observer: Box<dyn NoteObserver> = Box::new(TocObserver::new());
        let ghost before = observers@;
        observers.push(observer);
        proof {
            vstd::seq::axiom_seq_push_len(before, observer);
        }
    }
    observers
}

} // verus!
