//! The settings of the application, and how the settings dialog changes
//! them.
use vstd::prelude::*;
use vstd::string::StringExecFns;
use crate::split::str_views;

verus! {

/// Which notes the search for similar notes leaves out.
#[derive(Clone, Debug)]
pub struct SimilarNotesConfig {
    pub excluded_notes: Option<Vec<String>>,
    pub excluded_from_references: Option<Vec<String>>,
}

impl Default for SimilarNotesConfig {
    fn default() -> (r: Self)
        ensures
            r.excluded_notes is None,
            r.excluded_from_references is None,
    {
        SimilarNotesConfig { excluded_notes: None, excluded_from_references: None }
    }
}

impl Default for Settings {
    fn default() -> (r: Self)
        ensures
            r.file_type@.len() == 0,
            !r.timestamps,
            r.note_dir@.len() == 0,
            r.scripts_dir@.len() == 0,
            r.obsidian_vault_path is None,
            r.enabled_observers@.len() == 0,
            r.similar_notes.excluded_notes is None,
            r.similar_notes.excluded_from_references is None,
    {
        Settings {
            file_type: String::new(),
            timestamps: false,
            note_dir: String::new(),
            scripts_dir: String::new(),
            obsidian_vault_path: None,
            enabled_observers: Vec::new(),
            similar_notes: SimilarNotesConfig::default(),
        }
    }
}

/// The settings of the application.
#[derive(Clone, Debug)]
pub struct Settings {
    /// Extension of the note files, without the dot.
    pub file_type: String,
    pub timestamps: bool,
    /// Directory that holds the notes.
    pub note_dir: String,
    pub scripts_dir: String,
    pub obsidian_vault_path: Option<String>,
    /// Names of the observers to register.
    pub enabled_observers: Vec<String>,
    pub similar_notes: SimilarNotesConfig,
}

/// The strings of the given texts.
fn strings(texts: &Vec<&'static str>) -> (r: Vec<String>)
    ensures
        str_views(r@) == Seq::new(texts@.len(), |i: int| texts@[i]@),
{
    let mut r: Vec<String> = Vec::new();
    let mut i: usize = 0;
    while i < texts.len()
        invariant
            i <= texts.len(),
            r@.len() == i,
            forall|j: int| 0 <= j < i ==> (#[trigger] r@[j])@ == texts@[j]@,
        decreases texts.len() - i,
    {
        r.push(String::from_str(texts[i]));
        i += 1;
    }
    assert(str_views(r@) =~= Seq::new(texts@.len(), |i: int| texts@[i]@));
    r
}

/// The settings that a new configuration starts with: Markdown notes with
/// timestamps in the given directories, all observers that come with the
/// application enabled, and the notes of the application's own left out of
/// the search for similar notes.
pub fn default_settings(note_dir: String, scripts_dir: String, obsidian_vault_path: String) -> (r:
    Settings)
    ensures
        r.file_type@ == "md"@,
        r.timestamps,
        r.note_dir == note_dir,
        r.scripts_dir == scripts_dir,
        r.obsidian_vault_path == Some(obsidian_vault_path),
        str_views(r.enabled_observers@) == seq![
            "timestamp"@,
            "sqlite"@,
            "tag_index"@,
            "similar_notes"@,
            "toc"@,
        ],
        r.similar_notes.excluded_notes matches Some(notes) && str_views(notes@) == seq![
            "_kanban"@,
            "_tag_index"@,
            "project"@,
        ],
        r.similar_notes.excluded_from_references matches Some(notes) && str_views(notes@) == seq![
            "_tag_index"@,
            "_kanban"@,
        ],
{
    let mut observers: Vec<&'static str> = Vec::new();
    observers.push("timestamp");
    observers.push("sqlite");
    observers.push("tag_index");
    observers.push("similar_notes");
    observers.push("toc");
    let mut excluded: Vec<&'static str> = Vec::new();
    excluded.push("_kanban");
    excluded.push("_tag_index");
    excluded.push("project");
    let mut unreferenced: Vec<&'static str> = Vec::new();
    unreferenced.push("_tag_index");
    unreferenced.push("_kanban");
    let enabled_observers = strings(&observers);
    let excluded_notes = strings(&excluded);
    let excluded_from_references = strings(&unreferenced);
    proof {
        assert(str_views(enabled_observers@) =~= seq![
            "timestamp"@,
            "sqlite"@,
            "tag_index"@,
            "similar_notes"@,
            "toc"@,
        ]);
        assert(str_views(excluded_notes@) =~= seq!["_kanban"@, "_tag_index"@, "project"@]);
        assert(str_views(excluded_from_references@) =~= seq!["_tag_index"@, "_kanban"@]);
    }
    Settings {
        file_type: String::from_str("md"),
        timestamps: true,
        note_dir,
        scripts_dir,
        obsidian_vault_path: Some(obsidian_vault_path),
        enabled_observers,
        similar_notes: SimilarNotesConfig {
            excluded_notes: Some(excluded_notes),
            excluded_from_references: Some(excluded_from_references),
        },
    }
}

/// What the settings dialog tells of.
#[derive(Debug, Clone)]
pub enum Message {
    FileTypeChanged(String),
    TimestampsToggled(bool),
    SelectNoteDir,
    SelectScriptsDir,
    SelectObsidianVault,
    ObserverToggled(String, bool),
    SaveSettings,
    DismissMessage,
}

/// The names without `name`.
pub open spec fn without_name(names: Seq<Seq<char>>, name: Seq<char>) -> Seq<Seq<char>>
    decreases names.len(),
{
    if names.len() == 0 {
        names
    } else if names.last() == name {
        without_name(names.drop_last(), name)
    } else {
        without_name(names.drop_last(), name).push(names.last())
    }
}

/// Takes `name` out of the names.
pub fn remove_name(names: &Vec<String>, name: &String) -> (r: Vec<String>)
    ensures
        str_views(r@) == without_name(str_views(names@), name@),
{
    let mut r: Vec<String> = Vec::new();
    let mut i: usize = 0;
    assert(str_views(names@).take(0) =~= Seq::empty());
    assert(str_views(r@) =~= Seq::empty());
    while i < names.len()
        invariant
            i <= names.len(),
            str_views(r@) == without_name(str_views(names@).take(i as int), name@),
        decreases names.len() - i,
    {
        proof {
            let next = str_views(names@).take(i + 1);
            assert(next.drop_last() =~= str_views(names@).take(i as int));
            assert(next.last() == names@[i as int]@);
        }
        if !(names[i] == *name) {
            let ghost before = str_views(r@);
            r.push(names[i].clone());
            assert(str_views(r@) =~= before.push(names@[i as int]@));
        }
        i += 1;
    }
    assert(str_views(names@).take(names.len() as int) =~= str_views(names@));
    r
}

/// Changes the settings as the message of the dialog asks; `picked` is the
/// directory that the user picked, where the message asked for one. A
/// directory is set only where one was picked. An observer that is enabled
/// is put behind the enabled ones, one that is disabled is taken out of
/// them. The other messages leave the settings as they are.
pub fn apply_message(settings: &mut Settings, message: Message, picked: Option<String>)
    ensures
        match message {
            Message::FileTypeChanged(v) => *final(settings) == (Settings {
                file_type: v,
                ..*old(settings)
            }),
            Message::TimestampsToggled(v) => *final(settings) == (Settings {
                timestamps: v,
                ..*old(settings)
            }),
            Message::SelectNoteDir => *final(settings) == (Settings {
                note_dir: match picked {
                    Some(p) => p,
                    None => old(settings).note_dir,
                },
                ..*old(settings)
            }),
            Message::SelectScriptsDir => *final(settings) == (Settings {
                scripts_dir: match picked {
                    Some(p) => p,
                    None => old(settings).scripts_dir,
                },
                ..*old(settings)
            }),
            Message::SelectObsidianVault => *final(settings) == (Settings {
                obsidian_vault_path: match picked {
                    Some(p) => Some(p),
                    None => old(settings).obsidian_vault_path,
                },
                ..*old(settings)
            }),
            Message::ObserverToggled(name, enabled) => str_views(
                final(settings).enabled_observers@,
            ) == (if enabled {
                str_views(old(settings).enabled_observers@).push(name@)
            } else {
                without_name(str_views(old(settings).enabled_observers@), name@)
            }) && final(settings).file_type == old(settings).file_type && final(settings).note_dir
                == old(settings).note_dir && final(settings).timestamps == old(settings).timestamps
                && final(settings).scripts_dir == old(settings).scripts_dir,
            _ => *final(settings) == *old(settings),
        },
{
    match message {
        Message::FileTypeChanged(v) => {
            settings.file_type = v;
        },
        Message::TimestampsToggled(v) => {
            settings.timestamps = v;
        },
        Message::SelectNoteDir => {
            match picked {
                Some(p) => {
                    settings.note_dir = p;
                },
                None => {},
            }
        },
        Message::SelectScriptsDir => {
            match picked {
                Some(p) => {
                    settings.scripts_dir = p;
                },
                None => {},
            }
        },
        Message::SelectObsidianVault => {
            match picked {
                Some(p) => {
                    settings.obsidian_vault_path = Some(p);
                },
                None => {},
            }
        },
        Message::ObserverToggled(name, enabled) => {
            if enabled {
                let ghost before = str_views(settings.enabled_observers@);
                let ghost n = name@;
                settings.enabled_observers.push(name);
                assert(str_views(settings.enabled_observers@) =~= before.push(n));
            } else {
                settings.enabled_observers = remove_name(&settings.enabled_observers, &name);
            }
        },
        Message::SaveSettings => {},
        Message::DismissMessage => {},
    }
}

} // verus!
