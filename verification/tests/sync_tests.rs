use noorg::event::{EventKind, NoteEvent, NoteObserver, ObserverError, ObserverResult, Outcome};
use noorg::fields::FieldMap;
use noorg::hash_cache::HashCache;
use noorg::observer_registry::ObserverRegistry;
use noorg::settings::Settings;
use noorg::sync::{skip_list, store_pass, NoteManager};
use noorg::timestamp::TimestampObserver;
use std::sync::{Arc, Mutex};

struct Probe {
    name: String,
    priority: i32,
    metadata: Vec<(String, String)>,
    content: Option<String>,
    fails: bool,
    calls: Arc<Mutex<Vec<(String, String)>>>,
}

impl NoteObserver for Probe {
    fn on_event(&self, event: NoteEvent) -> Outcome {
        self.calls.lock().unwrap().push((self.name.clone(), event.content().clone()));
        if self.fails {
            return Err(ObserverError { message: "store is down".to_string() });
        }
        let mut m = FieldMap::new();
        for (k, v) in &self.metadata {
            m.insert(k.clone(), v.clone());
        }
        Ok(Some(ObserverResult {
            metadata: if self.metadata.is_empty() { None } else { Some(m) },
            content: self.content.clone(),
        }))
    }

    fn name(&self) -> String {
        self.name.clone()
    }

    fn priority(&self) -> i32 {
        self.priority
    }
}

fn probe(
    name: &str,
    metadata: &[(&str, &str)],
    content: Option<&str>,
    fails: bool,
    calls: &Arc<Mutex<Vec<(String, String)>>>,
) -> Box<dyn NoteObserver> {
    Box::new(Probe {
        name: name.to_string(),
        priority: 0,
        metadata: metadata.iter().map(|(k, v)| (k.to_string(), v.to_string())).collect(),
        content: content.map(|c| c.to_string()),
        fails,
        calls: calls.clone(),
    })
}

fn fields(pairs: &[(&str, &str)]) -> FieldMap {
    let mut m = FieldMap::new();
    for (k, v) in pairs {
        m.insert(k.to_string(), v.to_string());
    }
    m
}

fn manager() -> NoteManager {
    NoteManager::new(Settings {
        file_type: "md".to_string(),
        note_dir: "/notes".to_string(),
        ..Settings::default()
    })
}

fn names(calls: &Arc<Mutex<Vec<(String, String)>>>) -> Vec<String> {
    calls.lock().unwrap().iter().map(|c| c.0.clone()).collect()
}

#[test]
fn add_note_keeps_tags_and_stamps_the_note() {
    let mut registry = ObserverRegistry::new();
    registry.register(Box::new(TimestampObserver));
    let step = manager().add_note(
        &registry,
        "Demo".to_string(),
        "# Demo\nHello".to_string(),
        fields(&[("tags", "a, b")]),
    );
    let fm = step.note.frontmatter();
    assert_eq!(fm.get("tags").cloned(), Some("a, b".to_string()));
    assert!(!fm.get("created_at").unwrap().is_empty());
    assert!(!fm.get("updated_at").unwrap().is_empty());
    assert_eq!(step.note.title(), "Demo");
    assert_eq!(step.note.content(), "# Demo\nHello");
    assert!(step.event.kind() == EventKind::Created);
    assert_eq!(step.event.file_path(), "/notes/Demo.md");
    let text = step.note.to_string(&Settings::default());
    assert!(text.starts_with("---\ncreated_at: "));
    assert!(text.contains("\ntags: a, b\n"));
    assert!(text.ends_with("---\n\n# Demo\nHello"));
    assert!(matches!(manager().index_note(&registry, &step), Ok(None)));
}

#[test]
fn round_leaves_out_the_store_and_the_skipped() {
    let calls = Arc::new(Mutex::new(Vec::new()));
    let mut registry = ObserverRegistry::new();
    registry.register(probe("sqlite", &[("k", "store")], Some("stored"), false, &calls));
    registry.register(probe("a", &[("k", "a")], Some("from a"), false, &calls));
    registry.register(probe("b", &[("k", "b")], None, false, &calls));
    registry.register(probe("c", &[("k", "c")], Some("from c"), false, &calls));
    let step = manager().add_note(
        &registry,
        "T".to_string(),
        "initial".to_string(),
        fields(&[("skip_observers", "c, x")]),
    );
    assert_eq!(names(&calls), vec!["a", "b"]);
    assert_eq!(step.note.content(), "from a");
    assert_eq!(step.metadata.get("k").cloned(), Some("b".to_string()));
    assert_eq!(step.event.content(), "initial");
}

#[test]
fn store_sees_the_initial_body_and_asks_for_a_second_write() {
    let calls = Arc::new(Mutex::new(Vec::new()));
    let mut registry = ObserverRegistry::new();
    registry.register(probe("a", &[("tags", "x")], Some("from a"), false, &calls));
    registry.register(probe("sqlite", &[("ignored", "1")], Some("rendered"), false, &calls));
    let m = manager();
    let step = m.add_note(&registry, "T".to_string(), "initial".to_string(), FieldMap::new());
    assert_eq!(step.note.content(), "from a");
    let second = m.index_note(&registry, &step).ok().unwrap().unwrap();
    assert_eq!(
        *calls.lock().unwrap(),
        vec![("a".to_string(), "initial".to_string()), ("sqlite".to_string(), "initial".to_string())]
    );
    assert_eq!(second.content(), "rendered");
    assert_eq!(second.title(), "T");
    assert_eq!(second.frontmatter().get("tags").cloned(), Some("x".to_string()));
    assert_eq!(second.frontmatter().get("ignored"), None);
}

#[test]
fn store_failure_fails_the_operation() {
    let calls = Arc::new(Mutex::new(Vec::new()));
    let mut registry = ObserverRegistry::new();
    registry.register(probe("sqlite", &[], None, true, &calls));
    let m = manager();
    let step = m.add_note(&registry, "T".to_string(), "c".to_string(), FieldMap::new());
    match m.index_note(&registry, &step) {
        Err(e) => assert_eq!(e.message, "store is down"),
        Ok(_) => panic!("the failure of the store was swallowed"),
    }
}

#[test]
fn store_runs_even_when_all_observers_are_skipped() {
    let calls = Arc::new(Mutex::new(Vec::new()));
    let mut registry = ObserverRegistry::new();
    registry.register(probe("a", &[], Some("a"), false, &calls));
    registry.register(probe("sqlite", &[], None, false, &calls));
    let m = manager();
    let step = m.add_note(&registry, "T".to_string(), "c".to_string(), fields(&[("skip_observers", " all ")]));
    assert!(names(&calls).is_empty());
    assert_eq!(step.note.content(), "c");
    assert!(matches!(m.index_note(&registry, &step), Ok(None)));
    assert_eq!(names(&calls), vec!["sqlite"]);
}

#[test]
fn unchanged_note_is_not_synced_again() {
    let calls = Arc::new(Mutex::new(Vec::new()));
    let mut registry = ObserverRegistry::new();
    registry.register(probe("a", &[("k", "v")], None, false, &calls));
    let m = manager();
    let mut cache = HashCache::new();
    let first = m.sync_single_note(&registry, &mut cache, "T".to_string(), "body".to_string(), FieldMap::new(), false);
    assert!(first.is_some());
    assert!(first.unwrap().event.kind() == EventKind::Synced);
    let json = cache.to_json();
    let second = m.sync_single_note(&registry, &mut cache, "T".to_string(), "body".to_string(), FieldMap::new(), false);
    assert!(second.is_none());
    assert_eq!(names(&calls).len(), 1);
    assert_eq!(cache.to_json(), json);
    let third = m.sync_single_note(&registry, &mut cache, "T".to_string(), "body!".to_string(), FieldMap::new(), false);
    assert!(third.is_some());
    assert_eq!(names(&calls).len(), 2);
}

#[test]
fn forced_sync_passes_the_cache_by() {
    let calls = Arc::new(Mutex::new(Vec::new()));
    let mut registry = ObserverRegistry::new();
    registry.register(probe("a", &[], None, false, &calls));
    let m = manager();
    let mut cache = HashCache::new();
    for _ in 0..2 {
        let step = m.sync_single_note(&registry, &mut cache, "T".to_string(), "body".to_string(), FieldMap::new(), true);
        assert!(step.is_some());
    }
    assert_eq!(names(&calls).len(), 2);
    assert_eq!(cache.get("T"), None);
}

#[test]
fn skip_list_of_a_note() {
    let all = vec!["a".to_string(), "b".to_string()];
    assert_eq!(skip_list(&fields(&[("skip_observers", "all")]), &all), all);
    assert_eq!(skip_list(&fields(&[("skip_observers", " b ,, z ")]), &all), vec!["b", "z"]);
    assert_eq!(skip_list(&fields(&[("skip_observers", "")]), &all), Vec::<String>::new());
    assert_eq!(skip_list(&FieldMap::new(), &all), Vec::<String>::new());
}

#[test]
fn store_pass_without_store_or_body() {
    let registry = ObserverRegistry::new();
    let m = manager();
    let step = m.add_note(&registry, "T".to_string(), "c".to_string(), fields(&[("tags", " x,,y ")]));
    assert_eq!(step.note.frontmatter().get("tags").cloned(), Some("x, y".to_string()));
    assert!(matches!(store_pass(&step, None), Ok(None)));
    assert!(matches!(store_pass(&step, Some(Ok(None))), Ok(None)));
    let no_body = ObserverResult { metadata: Some(fields(&[("k", "v")])), content: None };
    assert!(matches!(store_pass(&step, Some(Ok(Some(no_body)))), Ok(None)));
}

#[test]
fn round_without_active_observer_leaves_the_note_as_given() {
    let calls = Arc::new(Mutex::new(Vec::new()));
    let empty = ObserverRegistry::new();
    let step = manager().add_note(&empty, "T".to_string(), "body".to_string(), fields(&[("tags", "b,a"), ("k", "v")]));
    assert_eq!(step.note.content(), "body");
    assert_eq!(step.metadata.get("tags").cloned(), Some("b,a".to_string()));
    assert_eq!(step.note.frontmatter().get("tags").cloned(), Some("b, a".to_string()));
    assert_eq!(step.note.frontmatter().get("k").cloned(), Some("v".to_string()));
    assert_eq!(step.note.frontmatter().len(), 2);

    let mut store_only = ObserverRegistry::new();
    store_only.register(probe("sqlite", &[("k", "store")], Some("stored"), false, &calls));
    let step = manager().add_note(&store_only, "T".to_string(), "body".to_string(), fields(&[("k", "v")]));
    assert!(names(&calls).is_empty());
    assert_eq!(step.note.content(), "body");
    assert_eq!(step.metadata.get("k").cloned(), Some("v".to_string()));
    assert_eq!(step.metadata.len(), 1);
}
