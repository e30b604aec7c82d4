use wm_core::graph::{is_custom_edge, validate_custom_edge_types};
use wm_core::tools::{
    count_variables, description_cut_ok_exec, extract_variables, parse_time_spent_to_minutes, task_description,
    time_spent_parse_ok,
};
use wm_core::memory::{is_session, session_entries};
use wm_core::engine::MemoryEntry;

#[test]
fn time_spent_formats() {
    assert_eq!(parse_time_spent_to_minutes("2h 30m"), 150);
    assert_eq!(parse_time_spent_to_minutes("45m"), 45);
    assert_eq!(parse_time_spent_to_minutes("1h"), 60);
    assert_eq!(parse_time_spent_to_minutes("  3H15M "), 195);
    assert_eq!(parse_time_spent_to_minutes("soon"), 0);
    assert_eq!(parse_time_spent_to_minutes(""), 0);
}

#[test]
fn time_spent_readability() {
    assert!(time_spent_parse_ok("2h 30m"));
    assert!(!time_spent_parse_ok("5m 2h"));
    assert!(!time_spent_parse_ok("18446744073709551615h"));
}

#[test]
fn placeholders_are_counted_without_overlap() {
    assert_eq!(count_variables("{{a}} and {{b}}"), 2);
    assert_eq!(count_variables("{{{x}}}"), 1);
    assert_eq!(count_variables("none"), 0);
}

#[test]
fn custom_edges() {
    assert!(!is_custom_edge("Extends"));
    assert!(!is_custom_edge("related"));
    assert!(is_custom_edge("blocks"));
    let registered = vec!["blocks".to_string()];
    let used = vec!["blocks".to_string(), "owns".to_string(), "extends".to_string(), "owns".to_string()];
    assert_eq!(validate_custom_edge_types(&registered, &used), vec!["owns".to_string(), "owns".to_string()]);
}

#[test]
fn variables_are_unique_and_sorted() {
    assert_eq!(
        extract_variables("Hi {{ name }}, {{age}} and {{name}} {{}} {{b"),
        vec!["age".to_string(), "name".to_string()]
    );
    assert_eq!(extract_variables("{{Zeta}}{{alpha}}{{Beta}}"), vec!["Beta", "Zeta", "alpha"]);
    assert!(extract_variables("plain").is_empty());
}

#[test]
fn task_descriptions() {
    let page = "---\ntitle: T\n---\n\n\n  First real line  \nsecond";
    assert_eq!(task_description(page), "First real line");
    assert_eq!(task_description("no frontmatter here\nmore"), "no frontmatter here");
    assert_eq!(task_description("---\ntitle: x\n---\n   \n"), "");
    let long = format!("---\n---\n{}", "a".repeat(250));
    assert!(description_cut_ok_exec(&long));
    let d = task_description(&long);
    assert_eq!(d.len(), 200);
    assert!(d.ends_with("..."));
    let wide = format!("---\n---\n{}", "é".repeat(150));
    assert!(!description_cut_ok_exec(&wide));
}

fn mem(id: &str, tags: &[&str]) -> MemoryEntry {
    MemoryEntry {
        id: id.to_string(),
        title: format!("t-{}", id),
        content: String::new(),
        tags: tags.iter().map(|t| t.to_string()).collect(),
        created_at: String::new(),
        updated_at: String::new(),
    }
}

#[test]
fn session_memory_listing() {
    assert!(is_session("session"));
    assert!(!is_session("project"));
    let store = vec![mem("a", &["Rust"]), mem("b", &["go"]), mem("c", &["RUST", "x"]), mem("d", &[])];
    let all: Vec<String> = session_entries(&store, None, 10).into_iter().map(|m| m.id).collect();
    assert_eq!(all, vec!["a", "b", "c", "d"]);
    let tagged: Vec<String> = session_entries(&store, Some("rust"), 10).into_iter().map(|m| m.id).collect();
    assert_eq!(tagged, vec!["a", "c"]);
    let limited: Vec<String> = session_entries(&store, None, 2).into_iter().map(|m| m.id).collect();
    assert_eq!(limited, vec!["a", "b"]);
    assert_eq!(session_entries(&store, Some("rust"), 1)[0].title, "t-a");
}
