use noorg::fields::FieldMap;
use noorg::metadata::{merge_lists, merge_metadata};

fn fields(pairs: &[(&str, &str)]) -> FieldMap {
    let mut m = FieldMap::new();
    for (k, v) in pairs {
        m.insert(k.to_string(), v.to_string());
    }
    m
}

fn value(m: &FieldMap, key: &str) -> Option<String> {
    m.get(key).cloned()
}

#[test]
fn merge_unites_sorts_and_dedups_tags() {
    let mut existing = fields(&[("tags", "rust, notes")]);
    merge_metadata(&mut existing, fields(&[("tags", "zeta,alpha , rust")]));
    assert_eq!(value(&existing, "tags"), Some("alpha, notes, rust, zeta".to_string()));
}

#[test]
fn merge_tags_into_map_without_tags() {
    let mut existing = FieldMap::new();
    merge_metadata(&mut existing, fields(&[("tags", "b,a,b")]));
    assert_eq!(value(&existing, "tags"), Some("a, b".to_string()));
}

#[test]
fn merge_topics_like_tags() {
    let mut existing = fields(&[("topics", "x")]);
    merge_metadata(&mut existing, fields(&[("topics", "y, x")]));
    assert_eq!(value(&existing, "topics"), Some("x, y".to_string()));
}

#[test]
fn merge_tags_twice_is_idempotent() {
    let mut once = fields(&[("tags", "b, a")]);
    merge_metadata(&mut once, fields(&[("tags", "c, a")]));
    let first = value(&once, "tags");
    merge_metadata(&mut once, fields(&[("tags", "c, a")]));
    assert_eq!(value(&once, "tags"), first);
    assert_eq!(first, Some("a, b, c".to_string()));
}

#[test]
fn merge_keeps_an_empty_item() {
    let mut existing = fields(&[("tags", "a,,b")]);
    merge_metadata(&mut existing, fields(&[("tags", "")]));
    assert_eq!(value(&existing, "tags"), Some(", a, b".to_string()));
}

#[test]
fn merge_created_at_is_kept_once_set() {
    let mut existing = fields(&[("created_at", "2024-01-01")]);
    merge_metadata(&mut existing, fields(&[("created_at", "2025-05-05")]));
    assert_eq!(value(&existing, "created_at"), Some("2024-01-01".to_string()));
}

#[test]
fn merge_created_at_is_written_when_absent() {
    let mut existing = FieldMap::new();
    merge_metadata(&mut existing, fields(&[("created_at", "2025-05-05")]));
    assert_eq!(value(&existing, "created_at"), Some("2025-05-05".to_string()));
}

#[test]
fn merge_updated_at_is_overwritten() {
    let mut existing = fields(&[("updated_at", "old")]);
    merge_metadata(&mut existing, fields(&[("updated_at", "new")]));
    assert_eq!(value(&existing, "updated_at"), Some("new".to_string()));
}

#[test]
fn merge_drops_incoming_timestamp() {
    let mut existing = fields(&[("title", "t")]);
    merge_metadata(&mut existing, fields(&[("timestamp", "2024-03-14")]));
    assert_eq!(value(&existing, "timestamp"), None);
    assert_eq!(existing.len(), 1);
}

#[test]
fn merge_keeps_existing_timestamp() {
    let mut existing = fields(&[("timestamp", "old")]);
    merge_metadata(&mut existing, fields(&[("timestamp", "new")]));
    assert_eq!(value(&existing, "timestamp"), Some("old".to_string()));
}

#[test]
fn merge_other_key_takes_incoming_value() {
    let mut existing = fields(&[("summary", "old"), ("keep", "k")]);
    merge_metadata(&mut existing, fields(&[("summary", "new"), ("extra", "e")]));
    assert_eq!(value(&existing, "summary"), Some("new".to_string()));
    assert_eq!(value(&existing, "keep"), Some("k".to_string()));
    assert_eq!(value(&existing, "extra"), Some("e".to_string()));
    assert_eq!(existing.len(), 3);
}

#[test]
fn merge_lists_orders_by_code_point() {
    let existing = "b, A, é".to_string();
    assert_eq!(merge_lists(Some(&existing), "a, Z"), "A, Z, a, b, é");
}

#[test]
fn merge_lists_trims_unicode_white_space() {
    assert_eq!(merge_lists(None, "\u{3000}x\u{a0},\ty\n"), "x, y");
}

#[test]
fn field_map_insert_get_remove() {
    let mut m = FieldMap::new();
    assert!(m.is_empty());
    m.insert("a".to_string(), "1".to_string());
    m.insert("b".to_string(), "2".to_string());
    m.insert("a".to_string(), "3".to_string());
    assert_eq!(m.len(), 2);
    assert_eq!(value(&m, "a"), Some("3".to_string()));
    assert!(m.contains_key("b"));
    assert!(!m.contains_key("c"));
    assert_eq!(m.entry(0).map(|e| (e.0.clone(), e.1.clone())), Some(("a".to_string(), "3".to_string())));
    assert_eq!(m.remove("a"), Some("3".to_string()));
    assert_eq!(m.remove("a"), None);
    assert_eq!(m.len(), 1);
    let copy = m.clone();
    assert_eq!(value(&copy, "b"), Some("2".to_string()));
}
