use noorg::llm_metadata::{choose_tags, existing_tags, llm_result, summarize};
use noorg::script_loader::parse_script_result;
use noorg::similar_notes::{append_references, decimal_digits, extract_content, is_excluded, Similar};

fn strings(items: &[&str]) -> Vec<String> {
    items.iter().map(|s| s.to_string()).collect()
}

#[test]
fn existing_tags_are_the_items_of_all_lists() {
    assert_eq!(existing_tags(&strings(&["a, b", "", " c ,a"])), strings(&["a", "b", "", "c", "a"]));
    assert_eq!(existing_tags(&Vec::new()), Vec::<String>::new());
}

#[test]
fn only_known_tags_are_chosen_five_at_most() {
    let known = strings(&["a", "b", "c", "d", "e", "f"]);
    assert_eq!(
        choose_tags(&strings(&["x", "f", "a", "a", "b", "y", "c", "d", "e"]), &known),
        strings(&["f", "a", "a", "b", "c"])
    );
    assert_eq!(choose_tags(&strings(&["x"]), &known), Vec::<String>::new());
}

#[test]
fn summary_has_three_sentences() {
    assert_eq!(summarize(" One.  Two . . Three. Four."), "One. Two. Three.");
    assert_eq!(summarize("Only one"), "Only one.");
    assert_eq!(summarize(""), ".");
    assert_eq!(summarize("a.b"), "a. b.");
}

#[test]
fn model_result_holds_tags_and_summary() {
    let r = llm_result(&strings(&["b", "a"]), "S.".to_string());
    assert!(r.content.is_none());
    let m = r.metadata.unwrap();
    assert_eq!(m.get("tags").cloned(), Some("b, a".to_string()));
    assert_eq!(m.get("summary").cloned(), Some("S.".to_string()));
    assert_eq!(m.len(), 2);
}

#[test]
fn script_answers_are_read_as_json() {
    let r = parse_script_result("{\"metadata\": {\"k\": \"v\"}, \"content\": \"body\"}").unwrap();
    assert_eq!(r.content, Some("body".to_string()));
    assert_eq!(r.metadata.unwrap().get("k").cloned(), Some("v".to_string()));
    let r = parse_script_result("{\"metadata\": {\"k\": 1}, \"content\": 2}").unwrap();
    assert!(r.content.is_none());
    assert!(r.metadata.is_none());
    let r = parse_script_result("{}").unwrap();
    assert!(r.content.is_none() && r.metadata.is_none());
    let r = parse_script_result("null").unwrap();
    assert!(r.content.is_none() && r.metadata.is_none());
    assert!(parse_script_result("not json").is_none());
    assert!(parse_script_result("").is_none());
}

#[test]
fn compared_text_leaves_out_the_frontmatter() {
    assert_eq!(extract_content("---\na: 1\n---\n\n body \n"), "body");
    assert_eq!(extract_content("  plain text \n"), "plain text");
    assert_eq!(extract_content("---\nopen"), "---\nopen");
}

#[test]
fn excluded_notes() {
    let t = "_kanban".to_string();
    assert!(is_excluded(&t, &Some(strings(&["a", "_kanban"]))));
    assert!(!is_excluded(&t, &Some(strings(&["a"]))));
    assert!(!is_excluded(&t, &None));
}

#[test]
fn decimal_digits_of_numbers() {
    let text = |n: u32| decimal_digits(n).into_iter().collect::<String>();
    assert_eq!(text(0), "0");
    assert_eq!(text(7), "7");
    assert_eq!(text(85), "85");
    assert_eq!(text(100), "100");
    assert_eq!(text(u32::MAX), "4294967295");
}

#[test]
fn references_take_the_place_of_the_last_section() {
    let similar = vec![
        Similar { title: "A b".to_string(), percent: 85 },
        Similar { title: "C".to_string(), percent: 9 },
    ];
    let body = "text\n## Similar Notes\nold one\n## Similar Notes\n\n- old\n";
    assert_eq!(
        append_references(body, &similar, "md"),
        "text\n## Similar Notes\nold one\n## Similar Notes\n\n- [A b](./A b.md) (85% similar)\n- [C](./C.md) (9% similar)\n"
    );
    assert_eq!(append_references(body, &Vec::new(), "md"), "text\n## Similar Notes\nold one");
    assert_eq!(
        append_references("text", &similar[1..].iter().map(|s| Similar { title: s.title.clone(), percent: s.percent }).collect(), "txt"),
        "text\n## Similar Notes\n\n- [C](./C.txt) (9% similar)\n"
    );
    assert_eq!(append_references("", &Vec::new(), "md"), "");
}
