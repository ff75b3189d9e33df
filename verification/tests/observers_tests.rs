use noorg::event::{EventKind, NoteEvent, NoteObserver};
use noorg::fields::FieldMap;
use noorg::observers::{create_observer, create_observers, get_available_observers, BuiltIn};
use noorg::settings::Settings;
use noorg::tag_index::{empty_index, tags_of, tags_result, update_index, TagIndexObserver};
use noorg::timestamp::{stamp, TimestampObserver};
use noorg::toc::{create_anchor, generate_toc, insert_toc, insert_toc_text, toc_from_events, MdEvent, TocObserver};

fn fields(pairs: &[(&str, &str)]) -> FieldMap {
    let mut m = FieldMap::new();
    for (k, v) in pairs {
        m.insert(k.to_string(), v.to_string());
    }
    m
}

fn event(kind: EventKind, content: &str, fm: &[(&str, &str)]) -> NoteEvent {
    NoteEvent::new(kind, "Demo".to_string(), content.to_string(), "/n/Demo.md".to_string(), fields(fm))
}

fn settings() -> Settings {
    Settings {
        file_type: "md".to_string(),
        note_dir: "/notes".to_string(),
        enabled_observers: vec!["timestamp".to_string(), "toc".to_string()],
        ..Settings::default()
    }
}

#[test]
fn stamp_of_a_created_note() {
    let e = event(EventKind::Created, "c", &[]);
    let m = stamp(&e, "C".to_string(), "U".to_string());
    assert_eq!(m.get("created_at").cloned(), Some("C".to_string()));
    assert_eq!(m.get("updated_at").cloned(), Some("U".to_string()));
    let e = event(EventKind::Created, "c", &[("created_at", "old")]);
    let m = stamp(&e, "C".to_string(), "U".to_string());
    assert_eq!(m.get("created_at"), None);
    assert_eq!(m.get("updated_at").cloned(), Some("U".to_string()));
}

#[test]
fn stamp_of_a_synced_note() {
    for kind in [EventKind::Updated, EventKind::Synced] {
        let e = event(kind, "c", &[("created_at", "old")]);
        let m = stamp(&e, "C".to_string(), "U".to_string());
        assert_eq!(m.get("created_at").cloned(), Some("old".to_string()));
        assert_eq!(m.get("updated_at").cloned(), Some("U".to_string()));
        let e = event(kind, "c", &[]);
        let m = stamp(&e, "C".to_string(), "U".to_string());
        assert_eq!(m.get("created_at"), None);
        assert_eq!(m.len(), 1);
    }
}

#[test]
fn timestamp_observer_stamps_with_the_current_time() {
    let o = TimestampObserver;
    assert_eq!(o.name(), "timestamp");
    assert_eq!(o.priority(), 0);
    let result = o.on_event(event(EventKind::Created, "c", &[])).ok().unwrap().unwrap();
    assert!(result.content.is_none());
    let m = result.metadata.unwrap();
    let created = m.get("created_at").cloned().unwrap();
    let updated = m.get("updated_at").cloned().unwrap();
    assert_eq!(created.len(), "2024-03-14 10:20:30 +0000".len());
    assert!(updated.len() > created.len());
    assert_eq!(&created[4..5], "-");
    assert_eq!(&updated[..10], &created[..10]);
}

#[test]
fn anchors_are_lower_case_with_dashes() {
    assert_eq!(create_anchor("Hello World"), "hello-world");
    assert_eq!(create_anchor("What's New? (v2.0)"), "whats-new-v20");
    assert_eq!(create_anchor("Ünï-Code Straße 1"), "ünï-code-straße-1");
    assert_eq!(create_anchor(""), "");
}

#[test]
fn toc_skips_the_title_and_indents_by_level() {
    let content = "# Title\n\nintro\n\n## First `code`\n\n### Deep one\n\n# Second top\n";
    assert_eq!(
        generate_toc(content),
        Some("## Contents\n\n  * [First code](#first-code)\n    * [Deep one](#deep-one)\n* [Second top](#second-top)\n".to_string())
    );
    assert_eq!(generate_toc("# Only title\n\ntext\n"), None);
    assert_eq!(generate_toc("plain text"), None);
}

#[test]
fn toc_from_events_collects_headings() {
    let events = vec![
        MdEvent::Text("outside".to_string()),
        MdEvent::HeadingStart(1),
        MdEvent::Text("Title".to_string()),
        MdEvent::HeadingEnd,
        MdEvent::HeadingStart(2),
        MdEvent::HeadingEnd,
        MdEvent::HeadingStart(0),
        MdEvent::Text("a".to_string()),
        MdEvent::Other,
        MdEvent::Code("b".to_string()),
        MdEvent::HeadingEnd,
        MdEvent::HeadingStart(3),
        MdEvent::Text("c d".to_string()),
        MdEvent::HeadingEnd,
    ];
    let toc: String = toc_from_events(&events).unwrap().into_iter().collect();
    assert_eq!(toc, "## Contents\n\n* [ab](#ab)\n    * [c d](#c-d)\n");
    assert_eq!(toc_from_events(&Vec::new()), None);
}

#[test]
fn toc_goes_below_the_first_heading() {
    let content = "# Title\nintro\n## A\ntext\n";
    let toc = "## Contents\n\n  * [A](#a)\n";
    assert_eq!(
        insert_toc_text(content, toc),
        "# Title\n\n# Title\n\n## Contents\n\n  * [A](#a)\n\nintro\n## A\ntext\n"
    );
}

#[test]
fn toc_takes_the_place_of_an_old_one_and_keeps_frontmatter() {
    let content = "---\nk: v\n---\npre\n# Title\n## Table of Contents\nold\n## A\ntext\n## Contents\nolder\n";
    let toc = "## Contents\n\n  * [A](#a)\n";
    assert_eq!(
        insert_toc_text(content, toc),
        "---\nk: v\n---\n\npre\n# Title\n\n## Contents\n\n  * [A](#a)\n\n## A\ntext\n"
    );
    assert_eq!(insert_toc_text("", toc), "");
}

#[test]
fn toc_observer_leaves_short_bodies_alone() {
    assert_eq!(insert_toc("# T\n## A\n"), None);
    assert_eq!(insert_toc(&"no heading at all, just some long running text. ".repeat(3)), None);
    let o = TocObserver::new();
    assert_eq!(o.name(), "toc");
    assert!(o.on_event(event(EventKind::Synced, "# T\n## A\n", &[])).ok().unwrap().is_none());
}

#[test]
fn toc_observer_hands_back_body_and_mark() {
    let body = "# Title of the note\n\nSome introduction text here.\n\n## Section one\n\ncontent\n";
    let o = TocObserver::new();
    let result = o.on_event(event(EventKind::Synced, body, &[])).ok().unwrap().unwrap();
    let text = result.content.unwrap();
    assert!(text.contains("## Contents\n\n  * [Section one](#section-one)\n"));
    assert_eq!(
        result.metadata.unwrap().get("toc_generated").cloned(),
        Some("true".to_string())
    );
    assert_eq!(
        text,
        "# Title of the note\n\n# Title of the note\n\n## Contents\n\n  * [Section one](#section-one)\n\n\nSome introduction text here.\n\n## Section one\n\ncontent\n"
    );
}

#[test]
fn tag_index_lists_notes_by_tag_and_title() {
    let first = update_index(&empty_index(), "Zeta", &vec!["rust".to_string(), " notes ".to_string()], "md");
    assert_eq!(
        first,
        "# _tag_index\n\n## notes\n\n- [Zeta](./Zeta.md)\n\n## rust\n\n- [Zeta](./Zeta.md)\n\n"
    );
    let second = update_index(&first, "Alpha", &vec!["rust".to_string()], "md");
    assert_eq!(
        second,
        "# _tag_index\n\n## notes\n\n- [Zeta](./Zeta.md)\n\n## rust\n\n- [Alpha](./Alpha.md)\n- [Zeta](./Zeta.md)\n\n"
    );
    let third = update_index(&second, "Zeta", &vec!["".to_string(), "tags: x".to_string(), "a".to_string()], "md");
    assert_eq!(
        third,
        "# _tag_index\n\n## a\n\n- [Zeta](./Zeta.md)\n\n## rust\n\n- [Alpha](./Alpha.md)\n\n"
    );
    assert_eq!(update_index(&third, "Zeta", &Vec::new(), "md"), "# _tag_index\n\n## rust\n\n- [Alpha](./Alpha.md)\n\n");
}

#[test]
fn tag_index_keeps_its_frontmatter_and_reads_links() {
    let existing = "---\nskip_observers: all\n---\n# _tag_index\n\n## b\n\n- [N](./N.md)\n- broken ]x[ )(\n- [M](./sub/M.md) trailing\nnot an item\n## b\n- [K](k)\n";
    assert_eq!(
        update_index(existing, "other", &Vec::new(), "md"),
        "---\nskip_observers: all\n---\n\n# _tag_index\n\n## b\n\n- [K](k)\n- [M](./sub/M.md)\n- [N](./N.md)\n\n"
    );
    assert_eq!(update_index("- [N](n)\n", "x", &Vec::new(), "md"), "# _tag_index\n\n");
}

#[test]
fn tag_index_observer_results() {
    assert_eq!(tags_of(" b ,, tags: c, a"), vec!["b", "a"]);
    let result = tags_result(&vec!["b".to_string(), "a".to_string()]);
    assert_eq!(result.metadata.unwrap().get("tags").cloned(), Some("b, a".to_string()));
    let o = TagIndexObserver::new(settings());
    assert_eq!(o.name(), "tag_index");
    assert_eq!(o.priority(), -99);
    assert_eq!(o.index_path, "/notes/_tag_index.md");
    assert!(o.index_event(&event(EventKind::Synced, "c", &[]), "").is_none());
    assert_eq!(o.event_tags(&event(EventKind::Synced, "c", &[("tags", "x, y")])), Some(vec!["x".to_string(), "y".to_string()]));
    let (text, result) = o.index_event(&event(EventKind::Created, "c", &[("tags", "x")]), "").unwrap();
    assert_eq!(text, "# _tag_index\n\n## x\n\n- [Demo](./Demo.md)\n\n");
    assert_eq!(result.metadata.unwrap().get("tags").cloned(), Some("x".to_string()));
}

#[test]
fn built_in_observers_by_name() {
    assert_eq!(get_available_observers(), vec!["timestamp", "sqlite", "tag_index", "toc"]);
    assert!(matches!(create_observer("timestamp", settings()), Some(BuiltIn::Timestamp(_))));
    assert!(matches!(create_observer("sqlite", settings()), Some(BuiltIn::Sqlite)));
    assert!(matches!(create_observer("tag_index", settings()), Some(BuiltIn::TagIndex(_))));
    assert!(matches!(create_observer("toc", settings()), Some(BuiltIn::Toc(_))));
    assert!(create_observer("similar_notes", settings()).is_none());
    assert_eq!(create_observers(settings()).len(), 1);
    assert_eq!(create_observers(settings())[0].name(), "toc");
    assert_eq!(create_observers(Settings::default()).len(), 0);
}
