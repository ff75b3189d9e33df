use noorg::event::{EventKind, NoteEvent, NoteObserver, ObserverError, ObserverResult, Outcome};
use noorg::fields::FieldMap;
use noorg::observer_registry::{absorb, has_name, ObserverRegistry, RoundResult};
use std::sync::{Arc, Mutex};

struct Probe {
    name: String,
    priority: i32,
    metadata: Vec<(String, String)>,
    content: Option<String>,
    fails: bool,
    log: Arc<Mutex<Vec<String>>>,
    seen: Arc<Mutex<Vec<String>>>,
}

impl NoteObserver for Probe {
    fn on_event(&self, event: NoteEvent) -> Outcome {
        self.log.lock().unwrap().push(self.name.clone());
        self.seen.lock().unwrap().push(event.content().clone());
        if self.fails {
            return Err(ObserverError { message: "boom".to_string() });
        }
        if self.metadata.is_empty() && self.content.is_none() {
            return Ok(None);
        }
        let metadata = if self.metadata.is_empty() {
            None
        } else {
            Some(fields(&self.metadata))
        };
        Ok(Some(ObserverResult { metadata, content: self.content.clone() }))
    }

    fn name(&self) -> String {
        self.name.clone()
    }

    fn priority(&self) -> i32 {
        self.priority
    }
}

struct Plain;

impl NoteObserver for Plain {
    fn on_event(&self, _event: NoteEvent) -> Outcome {
        Ok(None)
    }

    fn name(&self) -> String {
        "plain".to_string()
    }
}

fn fields(pairs: &[(String, String)]) -> FieldMap {
    let mut m = FieldMap::new();
    for (k, v) in pairs {
        m.insert(k.clone(), v.clone());
    }
    m
}

fn probe(
    name: &str,
    priority: i32,
    metadata: &[(&str, &str)],
    content: Option<&str>,
    log: &Arc<Mutex<Vec<String>>>,
) -> Box<dyn NoteObserver> {
    Box::new(Probe {
        name: name.to_string(),
        priority,
        metadata: metadata.iter().map(|(k, v)| (k.to_string(), v.to_string())).collect(),
        content: content.map(|c| c.to_string()),
        fails: false,
        log: log.clone(),
        seen: Arc::new(Mutex::new(Vec::new())),
    })
}

fn event(content: &str) -> NoteEvent {
    NoteEvent::new(
        EventKind::Synced,
        "T".to_string(),
        content.to_string(),
        "/notes/T.md".to_string(),
        FieldMap::new(),
    )
}

fn names_in(reg: &ObserverRegistry, order: &[usize]) -> Vec<String> {
    order.iter().map(|i| reg.name_at(*i).unwrap().clone()).collect()
}

#[test]
fn dispatch_order_pins_tag_index_and_store() {
    let log = Arc::new(Mutex::new(Vec::new()));
    let mut reg = ObserverRegistry::new();
    reg.register(probe("a", 5, &[], None, &log));
    reg.register(probe("tag_index", 100, &[], None, &log));
    reg.register(probe("sqlite", 0, &[], None, &log));
    reg.register(probe("b", 1, &[], None, &log));
    let order = reg.notification_order();
    assert_eq!(names_in(&reg, &order), vec!["a", "b", "tag_index", "sqlite"]);
    reg.notify(event("body"));
    assert_eq!(*log.lock().unwrap(), vec!["a", "b", "tag_index", "sqlite"]);
}

#[test]
fn priority_order_is_descending_and_stable() {
    let log = Arc::new(Mutex::new(Vec::new()));
    let mut reg = ObserverRegistry::new();
    reg.register(probe("low", -3, &[], None, &log));
    reg.register(probe("first", 2, &[], None, &log));
    reg.register(probe("top", 9, &[], None, &log));
    reg.register(probe("second", 2, &[], None, &log));
    let order = reg.priority_order();
    assert_eq!(names_in(&reg, &order), vec!["top", "first", "second", "low"]);
    assert_eq!(reg.notification_order(), order);
}

#[test]
fn store_runs_last_even_with_top_priority() {
    let log = Arc::new(Mutex::new(Vec::new()));
    let mut reg = ObserverRegistry::new();
    reg.register(probe("sqlite", 100, &[], None, &log));
    reg.register(probe("x", i32::MIN, &[], None, &log));
    reg.register(probe("y", i32::MAX, &[], None, &log));
    let order = reg.notification_order();
    assert_eq!(names_in(&reg, &order), vec!["y", "x", "sqlite"]);
}

#[test]
fn default_priority_is_zero() {
    let mut reg = ObserverRegistry::new();
    reg.register(Box::new(Plain));
    let log = Arc::new(Mutex::new(Vec::new()));
    reg.register(probe("neg", -1, &[], None, &log));
    reg.register(probe("pos", 1, &[], None, &log));
    let order = reg.notification_order();
    assert_eq!(names_in(&reg, &order), vec!["pos", "plain", "neg"]);
    assert_eq!(reg.len(), 3);
    assert_eq!(reg.get_observers(), vec!["plain", "neg", "pos"]);
}

#[test]
fn round_folds_metadata_and_last_content_wins() {
    let log = Arc::new(Mutex::new(Vec::new()));
    let mut reg = ObserverRegistry::new();
    reg.register(probe("one", 3, &[("tags", "b"), ("k", "1")], Some("first body"), &log));
    reg.register(probe("two", 2, &[("tags", "a"), ("k", "2")], None, &log));
    reg.register(probe("three", 1, &[], Some("last body"), &log));
    let round = reg.notify(event("initial"));
    assert_eq!(round.content, Some("last body".to_string()));
    assert_eq!(round.metadata.get("tags").cloned(), Some("a, b".to_string()));
    assert_eq!(round.metadata.get("k").cloned(), Some("2".to_string()));
}

#[test]
fn every_observer_sees_the_same_event() {
    let log = Arc::new(Mutex::new(Vec::new()));
    let seen = Arc::new(Mutex::new(Vec::new()));
    let mut reg = ObserverRegistry::new();
    for (name, content) in [("one", Some("changed")), ("two", None)] {
        reg.register(Box::new(Probe {
            name: name.to_string(),
            priority: 0,
            metadata: Vec::new(),
            content: content.map(|c: &str| c.to_string()),
            fails: false,
            log: log.clone(),
            seen: seen.clone(),
        }));
    }
    let round = reg.notify(event("initial"));
    assert_eq!(*seen.lock().unwrap(), vec!["initial", "initial"]);
    assert_eq!(round.content, Some("changed".to_string()));
}

#[test]
fn a_failing_observer_does_not_abort_the_round() {
    let log = Arc::new(Mutex::new(Vec::new()));
    let mut reg = ObserverRegistry::new();
    reg.register(Box::new(Probe {
        name: "bad".to_string(),
        priority: 5,
        metadata: vec![("k".to_string(), "bad".to_string())],
        content: Some("bad".to_string()),
        fails: true,
        log: log.clone(),
        seen: Arc::new(Mutex::new(Vec::new())),
    }));
    reg.register(probe("good", 0, &[("k", "good")], None, &log));
    let round = reg.notify(event("body"));
    assert_eq!(*log.lock().unwrap(), vec!["bad", "good"]);
    assert_eq!(round.metadata.get("k").cloned(), Some("good".to_string()));
    assert_eq!(round.content, None);
}

#[test]
fn empty_registry_gives_empty_round() {
    let reg = ObserverRegistry::new();
    let round = reg.notify(event("body"));
    assert!(round.metadata.is_empty());
    assert_eq!(round.content, None);
    assert!(reg.run_store(event("body")).is_none());
    assert_eq!(reg.store_index(), None);
}

#[test]
fn active_order_leaves_out_skipped_and_store() {
    let log = Arc::new(Mutex::new(Vec::new()));
    let mut reg = ObserverRegistry::new();
    reg.register(probe("sqlite", 0, &[], None, &log));
    reg.register(probe("a", 1, &[], None, &log));
    reg.register(probe("b", 2, &[], None, &log));
    reg.register(probe("tag_index", 3, &[], None, &log));
    let order = reg.active_order(&vec!["a".to_string()]);
    assert_eq!(names_in(&reg, &order), vec!["b", "tag_index"]);
    let all = reg.active_order(&Vec::new());
    assert_eq!(names_in(&reg, &all), vec!["b", "a", "tag_index"]);
    assert_eq!(reg.store_index(), Some(0));
}

#[test]
fn run_store_calls_only_the_store() {
    let log = Arc::new(Mutex::new(Vec::new()));
    let mut reg = ObserverRegistry::new();
    reg.register(probe("a", 1, &[], Some("a"), &log));
    reg.register(probe("sqlite", 0, &[], Some("stored"), &log));
    let outcome = reg.run_store(event("body"));
    assert_eq!(*log.lock().unwrap(), vec!["sqlite"]);
    match outcome {
        Some(Ok(Some(result))) => assert_eq!(result.content, Some("stored".to_string())),
        _ => panic!("the store was not called"),
    }
}

#[test]
fn run_round_skips_positions_without_observer() {
    let log = Arc::new(Mutex::new(Vec::new()));
    let mut reg = ObserverRegistry::new();
    reg.register(probe("a", 1, &[("k", "v")], None, &log));
    let start = RoundResult { metadata: FieldMap::new(), content: Some("kept".to_string()) };
    let round = reg.run_round(&event("body"), &vec![7, 0], start);
    assert_eq!(round.content, Some("kept".to_string()));
    assert_eq!(round.metadata.get("k").cloned(), Some("v".to_string()));
}

#[test]
fn absorb_takes_metadata_and_content() {
    let mut acc = RoundResult { metadata: FieldMap::new(), content: None };
    let mut m = FieldMap::new();
    m.insert("created_at".to_string(), "1".to_string());
    absorb(&mut acc, Ok(Some(ObserverResult { metadata: Some(m), content: None })));
    let mut m2 = FieldMap::new();
    m2.insert("created_at".to_string(), "2".to_string());
    absorb(&mut acc, Ok(Some(ObserverResult { metadata: Some(m2), content: Some("c".to_string()) })));
    absorb(&mut acc, Ok(None));
    absorb(&mut acc, Err(ObserverError { message: "e".to_string() }));
    assert_eq!(acc.metadata.get("created_at").cloned(), Some("1".to_string()));
    assert_eq!(acc.content, Some("c".to_string()));
}

#[test]
fn has_name_finds_names() {
    let names = vec!["a".to_string(), "b".to_string()];
    assert!(has_name(&names, &"b".to_string()));
    assert!(!has_name(&names, &"c".to_string()));
}

#[test]
fn event_accessors_and_clone() {
    let mut fm = FieldMap::new();
    fm.insert("tags".to_string(), "x".to_string());
    let e = NoteEvent::Created {
        title: "T".to_string(),
        content: "C".to_string(),
        file_path: "/p".to_string(),
        frontmatter: fm,
    };
    let c = e.clone();
    assert!(c.kind() == EventKind::Created);
    assert_eq!(c.title(), "T");
    assert_eq!(c.content(), "C");
    assert_eq!(c.file_path(), "/p");
    assert_eq!(c.frontmatter().get("tags").cloned(), Some("x".to_string()));
}
