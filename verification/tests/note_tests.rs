use noorg::cli::{frontmatter_of, parse_key_val};
use noorg::fields::FieldMap;
use noorg::hash_cache::{calculate_content_hash, HashCache};
use noorg::note::{parse_note, render_note, split_frontmatter, tidy_tags, Note};
use noorg::settings::Settings;
use noorg::utils::{
    file_name_of, get_absolute_note_path, get_fs_path, get_note_title_from_path, note_path_from,
    title_from_stem,
};

fn fields(pairs: &[(&str, &str)]) -> FieldMap {
    let mut m = FieldMap::new();
    for (k, v) in pairs {
        m.insert(k.to_string(), v.to_string());
    }
    m
}

fn settings(dir: &str) -> Settings {
    Settings { file_type: "md".to_string(), note_dir: dir.to_string(), ..Settings::default() }
}

#[test]
fn test_parse_key_val() {
    // Valid cases
    assert_eq!(parse_key_val("tags:rust").unwrap(), ("tags".to_string(), "rust".to_string()));
    assert_eq!(parse_key_val("title:My Note").unwrap(), ("title".to_string(), "My Note".to_string()));

    // Invalid cases
    assert!(parse_key_val("invalid").is_err());
    assert!(parse_key_val(":empty_key").is_err());
    assert!(parse_key_val("empty_value:").is_err());
    assert!(parse_key_val(":").is_err());
}

#[test]
fn parse_key_val_messages_and_first_colon() {
    assert_eq!(
        parse_key_val("invalid"),
        Err("'invalid' is not a valid key:value pair (use 'key:value' format)".to_string())
    );
    assert_eq!(parse_key_val(" : x"), Err("Key cannot be empty".to_string()));
    assert_eq!(parse_key_val("k:   "), Err("Value cannot be empty".to_string()));
    assert_eq!(
        parse_key_val(" url : http://x "),
        Ok(("url".to_string(), "http://x".to_string()))
    );
}

#[test]
fn frontmatter_of_tidies_tags() {
    let pairs = vec![
        ("tags".to_string(), " b ,, a ,".to_string()),
        ("k".to_string(), " v ".to_string()),
        ("k".to_string(), "w".to_string()),
    ];
    let fm = frontmatter_of(&pairs);
    assert_eq!(fm.get("tags").cloned(), Some("b, a".to_string()));
    assert_eq!(fm.get("k").cloned(), Some("w".to_string()));
    assert_eq!(fm.len(), 2);
}

#[test]
fn test_frontmatter_serialization() {
    let note = Note::new(
        "t".to_string(),
        "body".to_string(),
        fields(&[("tags", "test, example"), ("timestamp", "2024-03-14")]),
    );
    let yaml = note.to_string(&settings("/n"));

    assert!(!yaml.contains("fields:"));
    assert!(yaml.contains("tags: test, example"));
    assert!(yaml.contains("timestamp: 2024-03-14"));
}

#[test]
fn note_text_has_frontmatter_between_rules() {
    let note = Note::new("t".to_string(), "# T\nHello".to_string(), fields(&[("b", "2"), ("a", "1")]));
    assert_eq!(note.to_string(&settings("/n")), "---\na: '1'\nb: '2'\n---\n\n# T\nHello");
    assert_eq!(note.title(), "t");
    assert_eq!(note.content(), "# T\nHello");
}

#[test]
fn new_note_tidies_its_tags() {
    let note = Note::new("t".to_string(), "c".to_string(), fields(&[("tags", " x,, y ,z,")]));
    assert_eq!(note.frontmatter().get("tags").cloned(), Some("x, y, z".to_string()));
    assert_eq!(tidy_tags(""), "");
    assert_eq!(tidy_tags("b,a,b"), "b, a, b");
}

#[test]
fn render_note_drops_leading_noise_and_repeated_headings() {
    let body = "\n---\nkey: value\n\n# Title\ntext: kept\n\n# Title\n## Sub\n# Other\nend";
    assert_eq!(
        render_note("k: v\n", body),
        "---\nk: v\n---\n\n# Title\ntext: kept\n\n## Sub\nend"
    );
}

#[test]
fn render_note_keeps_query_blocks_and_contents() {
    let body = "```sql\n# not a heading\nkey: v\n```\n# One\n## Contents\n# in toc\n* item\n## Next\n# Two\nx\n";
    assert_eq!(
        render_note("", body),
        "---\n---\n\n```sql\n# not a heading\nkey: v\n```\n# One\n## Contents\n# in toc\n* item\n## Next\nx"
    );
}

#[test]
fn render_note_keeps_references_and_similar_notes() {
    let body = "# T\ntext\n## References\n- [a](a)\n\nSimilar notes:\n- s\n";
    assert_eq!(
        render_note("", body),
        "---\n---\n\n# T\ntext\n\n## References\n- [a](a)\n\nSimilar notes:\n- s\n"
    );
    let only_refs = "# T\ntext\n## References\n- [a](a)\n";
    assert_eq!(render_note("", only_refs), "---\n---\n\n# T\ntext\n\n## References\n- [a](a)\n");
}

#[test]
fn split_frontmatter_finds_the_two_rules() {
    assert_eq!(
        split_frontmatter("---\na: 1\nb: 2\n---\n\n  body text \n"),
        Some(("a: 1\nb: 2".to_string(), "body text".to_string()))
    );
    assert_eq!(split_frontmatter("no frontmatter"), None);
    assert_eq!(split_frontmatter("---\nopen only\n"), None);
}

#[test]
fn parse_note_reads_frontmatter_and_keeps_created_at() {
    let (body, fm) = parse_note("---\ncreated_at: then\ntags: a, b\n---\n\nHello\n", "now");
    assert_eq!(body, "Hello");
    assert_eq!(fm.get("created_at").cloned(), Some("then".to_string()));
    assert_eq!(fm.get("tags").cloned(), Some("a, b".to_string()));
}

#[test]
fn parse_note_adds_created_at() {
    let (body, fm) = parse_note("---\ntags: a\n---\nHello", "2024-01-01 00:00:00 +0000");
    assert_eq!(body, "Hello");
    assert_eq!(fm.get("created_at").cloned(), Some("2024-01-01 00:00:00 +0000".to_string()));
}

#[test]
fn parse_note_without_or_with_bad_frontmatter() {
    let (body, fm) = parse_note("just text\n", "now");
    assert_eq!(body, "just text\n");
    assert_eq!(fm.len(), 1);
    assert_eq!(fm.get("created_at").cloned(), Some("now".to_string()));
    let raw = "---\n- a\n- list\n---\nbody";
    let (body, fm) = parse_note(raw, "now");
    assert_eq!(body, raw);
    assert_eq!(fm.len(), 1);
}

#[test]
fn hash_is_sha256_in_lower_case_hex() {
    assert_eq!(
        calculate_content_hash(""),
        "e3b0c44298fc1c149afbf4c8996fb92427ae41e4649b934ca495991b7852b855"
    );
    assert_eq!(
        calculate_content_hash("abc"),
        "ba7816bf8f01cfea414140de5dae2223b00361a396177a9cb410ff61f20015ad"
    );
}

#[test]
fn unchanged_body_is_reported_once() {
    let mut cache = HashCache::new();
    assert!(cache.should_process_note("Demo", "body"));
    assert_eq!(cache.get("Demo").cloned(), Some(calculate_content_hash("body")));
    assert!(!cache.should_process_note("Demo", "body"));
    assert!(cache.should_process_note("Demo", "body."));
    assert_eq!(cache.get("Demo").cloned(), Some(calculate_content_hash("body.")));
    assert!(cache.should_process_note("Other", "body."));
    assert!(!cache.should_process_note("Demo", "body."));
}

#[test]
fn check_digest_compares_with_the_recorded_digest() {
    let mut cache = HashCache::new();
    assert!(cache.check_digest("a", "d1".to_string()));
    assert!(!cache.check_digest("a", "d1".to_string()));
    assert!(cache.check_digest("a", "d2".to_string()));
    assert_eq!(cache.get("a").cloned(), Some("d2".to_string()));
    assert_eq!(cache.get("b"), None);
}

#[test]
fn cache_round_trips_through_json() {
    let mut cache = HashCache::new();
    cache.check_digest("b note", "22".to_string());
    cache.check_digest("a \"note\"", "11".to_string());
    let json = cache.to_json().unwrap();
    assert_eq!(json, "{\n  \"a \\\"note\\\"\": \"11\",\n  \"b note\": \"22\"\n}");
    let mut back = HashCache::from_json(&json);
    assert_eq!(back.get("b note").cloned(), Some("22".to_string()));
    assert!(!back.check_digest("a \"note\"", "11".to_string()));
}

#[test]
fn cache_from_bad_json_is_empty() {
    for text in ["", "not json", "[1, 2]", "{\"a\": 1}"] {
        let mut cache = HashCache::from_json(text);
        assert_eq!(cache.get("a"), None);
        assert!(cache.check_digest("a", "d".to_string()));
    }
    assert_eq!(HashCache::new().to_json(), Some("{}".to_string()));
}

#[test]
fn file_names_write_blanks_as_percent_20() {
    assert_eq!(file_name_of("My Note  x", "md"), "My%20Note%20%20x.md");
    assert_eq!(title_from_stem(Some("My%20Note%2".to_string())), "My Note%2");
    assert_eq!(title_from_stem(None), "");
}

#[test]
fn note_paths() {
    let s = settings("/notes");
    assert_eq!(get_absolute_note_path("My Note", &s), "/notes/My%20Note.md");
    assert_eq!(get_fs_path("My Note", &s), std::path::PathBuf::from("/notes/My%20Note.md"));
    assert_eq!(note_path_from(None, "a b", &s), "/notes/a%20b.md");
    assert_eq!(note_path_from(Some("joined".to_string()), "a b", &s), "joined");
    assert_eq!(get_note_title_from_path("/notes/My%20Note.md"), "My Note");
    assert_eq!(get_note_title_from_path(""), "");
}
