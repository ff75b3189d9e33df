use noorg::event::EventKind;
use noorg::fields::FieldMap;
use noorg::handlers::{
    in_range, is_blank, matches_filters, parse_date_string, query_results_text, Moment,
};
use noorg::settings::{apply_message, default_settings, remove_name, Message, Settings};
use noorg::sql_render::QueryResult;
use noorg::sqlite_store::{clean_generated_query, store_result, stores};
use noorg::sync::NoteManager;
use noorg::tag_index::parse_frontmatter_tags;

fn row(pairs: &[(&str, &str)]) -> FieldMap {
    let mut m = FieldMap::new();
    for (k, v) in pairs {
        m.insert(k.to_string(), v.to_string());
    }
    m
}

fn result(columns: &[&str], rows: Vec<FieldMap>) -> QueryResult {
    QueryResult { columns: columns.iter().map(|c| c.to_string()).collect(), rows }
}

#[test]
fn query_results_are_shown_as_a_table() {
    let q = result(
        &["id", "title", "path", "note"],
        vec![
            row(&[("id", "1"), ("title", "Demo"), ("path", "/n/Demo.md"), ("note", " x ")]),
            row(&[("id", "2"), ("title", "B")]),
            row(&[]),
        ],
    );
    assert_eq!(
        query_results_text(&q),
        "| id | title | path | note |\n|---|---|---|---|\n| 1 | [Demo](/n/Demo.md) |  x  |\n| 2 | [B]() |\n| []() |\n"
    );
    assert_eq!(query_results_text(&result(&[], vec![])), "|  |\n||\n");
}

#[test]
fn filters_ask_for_equal_values() {
    let fields = row(&[("tags", "rust"), ("k", "v")]);
    let pair = |k: &str, v: &str| (k.to_string(), v.to_string());
    assert!(matches_filters(&fields, &vec![]));
    assert!(matches_filters(&fields, &vec![pair("tags", "rust"), pair("k", "v")]));
    assert!(!matches_filters(&fields, &vec![pair("tags", "rust"), pair("k", "w")]));
    assert!(!matches_filters(&fields, &vec![pair("missing", "")]));
}

#[test]
fn range_of_the_listing() {
    let m = |s: i64, n: u32| Moment { seconds: s, nanos: n };
    assert!(in_range(m(5, 0), None, None));
    assert!(in_range(m(5, 0), Some(m(5, 0)), Some(m(5, 0))));
    assert!(in_range(m(5, 7), Some(m(4, 999)), Some(m(5, 8))));
    assert!(!in_range(m(5, 7), Some(m(5, 8)), None));
    assert!(!in_range(m(5, 7), None, Some(m(5, 6))));
    assert!(!in_range(m(-1, 0), Some(m(0, 0)), None));
}

#[test]
fn dates_need_an_offset() {
    assert_eq!(
        parse_date_string("2024-03-14 10:20:30 +0100"),
        Ok(Moment { seconds: 1710408030, nanos: 0 })
    );
    assert_eq!(
        parse_date_string("2024-03-14"),
        Err("Invalid dateformat '2024-03-14'".to_string())
    );
    assert!(parse_date_string("2024-03-14 10:20:30").is_err());
    assert!(parse_date_string("").is_err());
}

#[test]
fn blank_bodies() {
    assert!(is_blank(""));
    assert!(is_blank(" \n\t\u{a0}"));
    assert!(!is_blank(" x "));
}

#[test]
fn store_works_for_synced_notes() {
    assert!(stores(EventKind::Synced));
    assert!(!stores(EventKind::Created));
    assert!(!stores(EventKind::Updated));
}

#[test]
fn store_hands_back_the_rendered_body() {
    let text = "```sql\nq\n```\n";
    let r = store_result(text, &vec![result(&["a"], vec![row(&[("a", "1")])])], "md").unwrap();
    assert!(r.metadata.is_none());
    assert_eq!(
        r.content.unwrap(),
        "```sql\nq\n```\n<!-- BEGIN SQL -->\n| a |\n|---|\n| 1 |\n<!-- END SQL -->\n"
    );
    assert!(store_result("no blocks", &Vec::new(), "md").is_none());
    assert!(store_result(text, &Vec::new(), "md").is_none());
    assert!(store_result("no blocks", &vec![result(&[], vec![])], "md").is_none());
}

#[test]
fn generated_queries_are_tidied() {
    assert_eq!(
        clean_generated_query("Sure!\n  select n.id AS id FROM `nodes` n; DROP TABLE x\nSELECT 2"),
        Some("select n.id id FROM notes n".to_string())
    );
    assert_eq!(clean_generated_query("no query here\nat all"), None);
    assert_eq!(clean_generated_query("SELECT;"), Some("SELECT".to_string()));
    assert_eq!(clean_generated_query(""), None);
}

#[test]
fn default_settings_enable_the_built_in_observers() {
    let s = default_settings("/n".to_string(), "/s".to_string(), "/o".to_string());
    assert_eq!(s.file_type, "md");
    assert!(s.timestamps);
    assert_eq!(s.note_dir, "/n");
    assert_eq!(s.scripts_dir, "/s");
    assert_eq!(s.obsidian_vault_path, Some("/o".to_string()));
    assert_eq!(s.enabled_observers, vec!["timestamp", "sqlite", "tag_index", "similar_notes", "toc"]);
    assert_eq!(s.similar_notes.excluded_notes.unwrap(), vec!["_kanban", "_tag_index", "project"]);
    assert_eq!(s.similar_notes.excluded_from_references.unwrap(), vec!["_tag_index", "_kanban"]);
}

#[test]
fn messages_change_the_settings() {
    let mut s = default_settings("/n".to_string(), "/s".to_string(), "/o".to_string());
    apply_message(&mut s, Message::FileTypeChanged("txt".to_string()), None);
    assert_eq!(s.file_type, "txt");
    apply_message(&mut s, Message::TimestampsToggled(false), None);
    assert!(!s.timestamps);
    apply_message(&mut s, Message::SelectNoteDir, None);
    assert_eq!(s.note_dir, "/n");
    apply_message(&mut s, Message::SelectNoteDir, Some("/n2".to_string()));
    assert_eq!(s.note_dir, "/n2");
    apply_message(&mut s, Message::SelectScriptsDir, Some("/s2".to_string()));
    assert_eq!(s.scripts_dir, "/s2");
    apply_message(&mut s, Message::SelectObsidianVault, Some("/o2".to_string()));
    assert_eq!(s.obsidian_vault_path, Some("/o2".to_string()));
    apply_message(&mut s, Message::ObserverToggled("toc".to_string(), false), None);
    apply_message(&mut s, Message::ObserverToggled("extra".to_string(), true), None);
    assert_eq!(s.enabled_observers, vec!["timestamp", "sqlite", "tag_index", "similar_notes", "extra"]);
    apply_message(&mut s, Message::SaveSettings, Some("ignored".to_string()));
    apply_message(&mut s, Message::DismissMessage, None);
    assert_eq!(s.note_dir, "/n2");
    let names = vec!["a".to_string(), "b".to_string(), "a".to_string()];
    assert_eq!(remove_name(&names, &"a".to_string()), vec!["b"]);
}

#[test]
fn tags_of_a_frontmatter_text() {
    assert_eq!(parse_frontmatter_tags("title: x\ntags: rust, , notes\nk: v"), vec!["rust", "notes"]);
    assert_eq!(parse_frontmatter_tags("tags:tags:a,tags:b, c"), vec!["a", "c"]);
    assert_eq!(parse_frontmatter_tags("  tags: a"), Vec::<String>::new());
    assert_eq!(parse_frontmatter_tags("no tags"), Vec::<String>::new());
}

#[test]
fn deleted_file_of_a_note() {
    let m = NoteManager::new(Settings {
        file_type: "md".to_string(),
        note_dir: "/notes".to_string(),
        ..Settings::default()
    });
    assert_eq!(m.title_to_filename("My Great NOTE"), "my_great_note");
    assert_eq!(m.deleted_file("Ünï Code"), "/notes/ünï_code.md");
}
