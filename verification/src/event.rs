//! Note events, what an observer hands back, and the observer interface.
use vstd::prelude::*;
use crate::fields::FieldMap;

verus! {

/// What happened to the note that an event speaks of.
#[derive(Clone, Copy, Debug, PartialEq, Eq, Structural)]
pub enum EventKind {
    Created,
    Updated,
    Synced,
}

/// A snapshot of a note at the moment something happened to it. Every
/// observer of a round gets a copy of the same event.
pub enum NoteEvent {
    Created { title: String, content: String, file_path: String, frontmatter: FieldMap },
    Updated { title: String, content: String, file_path: String, frontmatter: FieldMap },
    Synced { title: String, content: String, file_path: String, frontmatter: FieldMap },
}

/// An event as plain values.
pub struct EventView {
    pub kind: EventKind,
    pub title: Seq<char>,
    pub content: Seq<char>,
    pub file_path: Seq<char>,
    pub frontmatter: Map<Seq<char>, Seq<char>>,
}

impl View for NoteEvent {
    type V = EventView;

    open spec fn view(&self) -> EventView {
        match *self {
            NoteEvent::Created { title, content, file_path, frontmatter } => EventView {
                kind: EventKind::Created,
                title: title@,
                content: content@,
                file_path: file_path@,
                frontmatter: frontmatter@,
            },
            NoteEvent::Updated { title, content, file_path, frontmatter } => EventView {
                kind: EventKind::Updated,
                title: title@,
                content: content@,
                file_path: file_path@,
                frontmatter: frontmatter@,
            },
            NoteEvent::Synced { title, content, file_path, frontmatter } => EventView {
                kind: EventKind::Synced,
                title: title@,
                content: content@,
                file_path: file_path@,
                frontmatter: frontmatter@,
            },
        }
    }
}

impl NoteEvent {
    /// Builds the event of the given kind.
    pub fn new(
        kind: EventKind,
        title: String,
        content: String,
        file_path: String,
        frontmatter: FieldMap,
    ) -> (r: Self)
        ensures
            r@ == (EventView {
                kind,
                title: title@,
                content: content@,
                file_path: file_path@,
                frontmatter: frontmatter@,
            }),
    {
        match kind {
            EventKind::Created => NoteEvent::Created { title, content, file_path, frontmatter },
            EventKind::Updated => NoteEvent::Updated { title, content, file_path, frontmatter },
            EventKind::Synced => NoteEvent::Synced { title, content, file_path, frontmatter },
        }
    }

    /// Which kind of event this is.
    pub fn kind(&self) -> (r: EventKind)
        ensures
            r == self@.kind,
    {
        match self {
            NoteEvent::Created { .. } => EventKind::Created,
            NoteEvent::Updated { .. } => EventKind::Updated,
            NoteEvent::Synced { .. } => EventKind::Synced,
        }
    }

    /// The note's title, which is also the stem of its file name.
    pub fn title(&self) -> (r: &String)
        ensures
            r@ == self@.title,
    {
        match self {
            NoteEvent::Created { title, .. } => title,
            NoteEvent::Updated { title, .. } => title,
            NoteEvent::Synced { title, .. } => title,
        }
    }

    /// The note's body, without its frontmatter.
    pub fn content(&self) -> (r: &String)
        ensures
            r@ == self@.content,
    {
        match self {
            NoteEvent::Created { content, .. } => content,
            NoteEvent::Updated { content, .. } => content,
            NoteEvent::Synced { content, .. } => content,
        }
    }

    /// The path of the note's file.
    pub fn file_path(&self) -> (r: &String)
        ensures
            r@ == self@.file_path,
    {
        match self {
            NoteEvent::Created { file_path, .. } => file_path,
            NoteEvent::Updated { file_path, .. } => file_path,
            NoteEvent::Synced { file_path, .. } => file_path,
        }
    }

    /// The note's frontmatter fields.
    pub fn frontmatter(&self) -> (r: &FieldMap)
        ensures
            r@ == self@.frontmatter,
    {
        match self {
            NoteEvent::Created { frontmatter, .. } => frontmatter,
            NoteEvent::Updated { frontmatter, .. } => frontmatter,
            NoteEvent::Synced { frontmatter, .. } => frontmatter,
        }
    }
}

impl Clone for NoteEvent {
    fn clone(&self) -> (r: Self)
        ensures
            r@ == self@,
    {
        NoteEvent::new(
            self.kind(),
            self.title().clone(),
            self.content().clone(),
            self.file_path().clone(),
            self.frontmatter().clone(),
        )
    }
}

/// What an observer hands back. An absent part means "no opinion".
pub struct ObserverResult {
    /// Fields to merge into the note's metadata.
    pub metadata: Option<FieldMap>,
    /// A complete body to put in place of the note's body.
    pub content: Option<String>,
}

/// An observer's result as plain values.
pub struct ResultView {
    pub metadata: Option<Map<Seq<char>, Seq<char>>>,
    pub content: Option<Seq<char>>,
}

impl View for ObserverResult {
    type V = ResultView;

    open spec fn view(&self) -> ResultView {
        ResultView {
            metadata: match self.metadata {
                Some(m) => Some(m@),
                None => None,
            },
            content: match self.content {
                Some(c) => Some(c@),
                None => None,
            },
        }
    }
}

impl Clone for ObserverResult {
    fn clone(&self) -> (r: Self)
        ensures
            r@ == self@,
    {
        ObserverResult {
            metadata: match &self.metadata {
                Some(m) => Some(m.clone()),
                None => None,
            },
            content: match &self.content {
                Some(c) => Some(c.clone()),
                None => None,
            },
        }
    }
}

/// Why an observer failed.
pub struct ObserverError {
    pub message: String,
}

/// What one call of an observer gave: its result, nothing, or a failure.
pub type Outcome = Result<Option<ObserverResult>, ObserverError>;

/// A handler that is told of note events. It may hand back metadata, a new
/// body, both or neither.
pub trait NoteObserver {
    /// Handles one event.
    fn on_event(&self, event: NoteEvent) -> Outcome;

    /// The observer's name: unique among the observers and stable.
    fn name(&self) -> String;

    /// The priority, 0 by default: observers of higher priority are told first.
    fn priority(&self) -> (r: i32)
        default_ensures
            r == 0,
    {
        0
    }
}

} // verus!
