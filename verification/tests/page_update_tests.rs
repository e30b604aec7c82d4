use wm_core::code_intel::{deps_from_captures, symbols_from_captures, SupportedLanguage, TsCapture};
use wm_core::engine::{EdgeType, PageType, SourceState, WikiPageMeta};
use wm_core::sources::{new_source, source_state_counts};
use wm_core::graph::from_pages::graph_from_pages;
use wm_core::page::{
    apply_page_update, frontmatter_yaml, orphan_time_spent, recover_orphan_page, recover_orphan_timer, PageUpdate,
};
use wm_core::parser::{parse_wiki_page, Frontmatter, Relation};
use wm_core::reference::references_from_captures;
use wm_core::search::context::assemble_context;
use wm_core::search::query::{plan_query, select_results, QueryParams};
use wm_core::embed::SearchMode;
use wm_core::vectors::{keep_last_per_id, VectorEntry, VectorsBin};
use wm_core::yaml::YamlValue;
use wm_core::clock::minutes_since;
use serde_yaml::Value as Yv;

fn fm(title: &str, kind: &str, status: &str) -> Frontmatter {
    Frontmatter {
        title: Some(title.to_string()),
        page_type: Some(kind.to_string()),
        tags: vec!["a".to_string(), "b".to_string()],
        status: Some(status.to_string()),
        relates_to: vec![Relation { edge_type: "depends_on".to_string(), target: "wiki:specs:x".to_string() }],
        aliases: vec![],
        sources: vec![],
        confidence: None,
        superseded_by: None,
        version: Some("2".to_string()),
    }
}

fn no_update() -> PageUpdate {
    PageUpdate {
        title: None,
        status: None,
        priority: None,
        assignee: None,
        tags: None,
        acceptance_criteria: None,
        content: None,
        relates_to: None,
        remove_relates_to: None,
        checked_ac: None,
        unchecked_ac: None,
    }
}

#[test]
fn frontmatter_is_written_back_field_by_field() {
    assert_eq!(
        frontmatter_yaml(&fm("T", "task", "todo")),
        "title: T\ntype: task\ntags: [a, b]\nstatus: todo\nversion: 2\nrelates_to:\n  - {type: depends_on, target: wiki:specs:x}\n"
    );
}

#[test]
fn an_empty_update_rewrites_the_page_from_its_fields() {
    let page = apply_page_update(&Some(fm("T", "task", "todo")), "Body", &no_update(), &read_yaml, &write_yaml);
    assert_eq!(
        page,
        "---\ntitle: T\ntype: task\ntags: [a, b]\nstatus: todo\nversion: 2\nrelates_to:\n  - {type: depends_on, target: wiki:specs:x}\n---\n\nBody"
    );
}

#[test]
fn update_sets_fields_and_replaces_blocks() {
    let mut u = no_update();
    u.title = Some("New".to_string());
    u.content = Some("Fresh body".to_string());
    u.tags = Some(vec!["x".to_string()]);
    let page = apply_page_update(&None, "Old", &u, &read_yaml, &write_yaml);
    assert_eq!(page, "---\ntitle: New\ntags: [x]\n---\n\nFresh body");
}

#[test]
fn update_drops_relations_naming_a_target() {
    let mut u = no_update();
    u.remove_relates_to = Some("wiki:specs:x".to_string());
    let page = apply_page_update(&Some(fm("T", "task", "todo")), "B", &u, &read_yaml, &write_yaml);
    assert!(!page.contains("wiki:specs:x"));
    assert!(page.starts_with("---\n"));
    assert!(page.ends_with("---\n\nB"));
}

#[test]
fn update_checks_criteria_by_number() {
    let mut u = no_update();
    u.acceptance_criteria = Some(vec![(Some("one".to_string()), None), (Some("two".to_string()), Some(true))]);
    let page = apply_page_update(&None, "", &u, &read_yaml, &write_yaml);
    assert_eq!(
        page,
        "---\n{}\nacceptance_criteria:\n  - {text: \"one\", checked: false}\n  - {text: \"two\", checked: true}\n---\n\n"
    );
    let mut c = no_update();
    c.checked_ac = Some(vec![0, 1]);
    let yaml_page = apply_page_update(&None, "", &c, &read_yaml, &write_yaml);
    assert_eq!(yaml_page, "---\n{}\n---\n\n");
}

#[test]
fn orphan_timers_close_after_a_day() {
    assert_eq!(orphan_time_spent(0, 3600 * 23), None);
    assert_eq!(orphan_time_spent(0, 3600 * 24 + 125), Some("24h 2m".to_string()));
    assert_eq!(orphan_time_spent(100, 50), None);
    let f = fm("T", "task", "in-progress");
    let page = recover_orphan_page(PageType::Task, &f, "Body", "2024-01-01T00:00:00Z", 0, 3600 * 30).unwrap();
    assert_eq!(
        page,
        "---\ntitle: T\ntype: task\ntags: [a, b]\nversion: 2\nrelates_to:\n  - {type: depends_on, target: wiki:specs:x}\nstatus: done\ntime_started: 2024-01-01T00:00:00Z\ntime_spent: 30h 0m\n---\n\nBody"
    );
    assert!(recover_orphan_page(PageType::Concept, &f, "Body", "t", 0, 3600 * 30).is_none());
}

fn meta(path: &str, title: &str, rels: &[&str]) -> WikiPageMeta {
    let mut m = parse_wiki_page(path, &None);
    m.title = title.to_string();
    m.relates_to = rels.iter().map(|r| r.to_string()).collect();
    m
}

#[test]
fn graph_is_built_from_relations() {
    let pages = vec![
        meta("wiki/concepts/a.md", "Alpha", &["depends_on:wiki:concepts:b", "depends_on:wiki:concepts:b", "custom_x:wiki:concepts:b", "noedge"]),
        meta("wiki/concepts/b.md", "Beta", &["relates_to:alpha", "extends:missing"]),
    ];
    let g = graph_from_pages(pages, &[]);
    assert_eq!(g.node_count(), 2);
    let out0 = g.out_edges(0);
    assert_eq!(out0.len(), 1);
    assert_eq!(out0[0].0, 1);
    assert!(matches!(out0[0].1, EdgeType::DependsOn));
    let out1 = g.out_edges(1);
    assert_eq!(out1.len(), 1);
    assert_eq!(out1[0].0, 0);
    let registered = vec!["custom_x".to_string()];
    let pages2 = vec![
        meta("wiki/concepts/a.md", "Alpha", &["custom_x:wiki:concepts:b"]),
        meta("wiki/concepts/b.md", "Beta", &[]),
    ];
    let g2 = graph_from_pages(pages2, &registered);
    assert_eq!(g2.out_edges(0).len(), 1);
}

#[test]
fn plans_follow_mode_and_stores() {
    let params = |kind: &str, mode: &str| QueryParams {
        query: "how does login work".to_string(),
        kind: kind.to_string(),
        mode: mode.to_string(),
        limit: 5,
        offset: 0,
        recency: false,
    };
    let p = plan_query(&params("all", "hybrid"), true, true, true, true).unwrap();
    assert!(p.pages && p.memory && p.fuse_pages);
    assert_eq!(p.page_keyword, Some(10));
    assert_eq!(p.page_semantic, Some(10));
    assert!(matches!(p.mode, SearchMode::Hybrid));
    let k = plan_query(&params("page", "hybrid"), false, true, true, true).unwrap();
    assert_eq!(k.page_keyword, Some(5));
    assert!(!k.fuse_pages && !k.memory_keyword);
    assert_eq!(
        plan_query(&params("page", "semantic"), false, true, true, true).unwrap_err(),
        "Semantic search unavailable: no embedding model loaded"
    );
    assert_eq!(
        plan_query(&params("page", "semantic"), true, false, true, true).unwrap_err(),
        "No embeddings indexed. Run index rebuild first."
    );
    assert!(plan_query(&params("memory", "semantic"), false, false, true, true).is_ok());
}

#[test]
fn result_window_keeps_limit_and_offset() {
    assert_eq!(select_results(vec![1, 2, 3, 4, 5], 3, 1), vec![2, 3]);
    assert_eq!(select_results(vec![1, 2, 3], 10, 7), vec![3]);
    assert_eq!(select_results(Vec::<u8>::new(), 10, 2), Vec::<u8>::new());
}

#[test]
fn context_pack_starts_with_the_match() {
    let pages = vec![
        meta("wiki/concepts/a.md", "Alpha", &["extends:wiki:concepts:b", "relates_to:wiki:concepts:c"]),
        meta("wiki/concepts/b.md", "Beta", &[]),
        meta("wiki/concepts/c.md", "Gamma", &[]),
    ];
    let g = graph_from_pages(pages, &[]);
    let pack = assemble_context(&g, 0, "beta", 1000);
    assert_eq!(pack.len(), 3);
    assert_eq!(pack[0].score, 999);
    assert_eq!(pack[0].text, "[MATCH: wiki:concepts:a]\nTitle: Alpha\n");
    assert_eq!(pack[1].id, "wiki:concepts:b");
    assert_eq!(pack[1].score, 90);
    assert_eq!(pack[1].text, "[extends: wiki:concepts:b]\nTitle: Beta");
    assert_eq!(pack[2].score, 0);
    assert_eq!(pack[2].text, "  wiki:concepts:c --[relatesto]--> Gamma");
}

#[test]
fn repeated_ids_keep_the_last_entry() {
    let e = |id: &str, x: u32| VectorEntry { id: id.to_string(), hash: vec![x as u8; 32], vector: vec![x] };
    let kept = keep_last_per_id(&vec![e("a", 1), e("b", 2), e("a", 3)]);
    assert_eq!(kept.len(), 2);
    assert_eq!(kept[0].id, "a");
    assert_eq!(kept[0].vector, vec![3]);
    assert_eq!(kept[1].id, "b");
    let entries = vec![("a".to_string(), vec![1u32]), ("a".to_string(), vec![2u32])];
    let data = VectorsBin::write("m", &entries, &Vec::new()).unwrap();
    let (h, loaded) = VectorsBin::read(&data).unwrap();
    assert_eq!(h.count, 2);
    assert_eq!(loaded.len(), 1);
    assert_eq!(loaded[0].vector, vec![2]);
    let (_, all) = VectorsBin::read_records(&data).unwrap();
    assert_eq!(all.len(), 2);
}

fn cap(index: u32, text: &str, row: usize, start: usize) -> TsCapture {
    TsCapture { index, text: text.to_string(), row, column: 3, start_byte: start, end_byte: start + text.len() }
}

#[test]
fn captures_become_symbols_and_deps() {
    let src: Vec<char> = "fn a() {}\n  struct Bee;\n".chars().collect();
    let syms = symbols_from_captures(&vec![cap(1, "a", 0, 3), cap(0, "skip", 0, 0), cap(1, "", 1, 12), cap(1, "Bee", 1, 19)], 1, &src, "x.rs", "rust", "struct");
    assert_eq!(syms.len(), 2);
    assert_eq!(syms[0].name, "a");
    assert_eq!(syms[0].line, 1);
    assert_eq!(syms[1].line, 2);
    assert_eq!(syms[1].snippet, "struct Bee;");
    assert_eq!(syms[1].file, "x.rs");
    let deps = deps_from_captures(&vec![cap(0, "use std::io;", 4, 0), cap(0, "use ;", 5, 0)], 0, SupportedLanguage::Rust);
    assert_eq!(deps.len(), 1);
    assert_eq!(deps[0].target, "std::io");
    assert_eq!(deps[0].line, 5);
    assert_eq!(deps[0].kind, "use");
    let refs = references_from_captures(&vec![
        vec![Some("@doc/a".to_string()), Some("doc".to_string()), Some("a".to_string())],
        vec![Some("@x".to_string()), None, Some("b".to_string())],
    ]);
    assert_eq!(refs.len(), 1);
    assert_eq!(refs[0].full_match, "@doc/a");
}

#[test]
fn sources_are_counted_by_state_name() {
    let mk = |st: SourceState| {
        let mut e = new_source("i".to_string(), "p".to_string(), "s".to_string(), "h".to_string(), "t".to_string());
        e.state = st;
        e
    };
    let counts = source_state_counts(&vec![mk(SourceState::Pending), mk(SourceState::Done), mk(SourceState::Pending)]);
    assert_eq!(counts, vec![("done", 1), ("pending", 2)]);
    assert!(source_state_counts(&Vec::new()).is_empty());
}

#[test]
fn new_pages_and_their_files() {
    assert_eq!(wm_core::page::new_page_text("  \n", "Body"), "Body");
    assert_eq!(wm_core::page::new_page_text("title: X\n", "Body"), "---\ntitle: X\n---\n\nBody");
    assert_eq!(wm_core::page::page_file("wiki:concepts:auth"), "concepts/auth.md");
    assert_eq!(wm_core::page::page_file("notes:a"), "notes/a.md");
}

fn from_yaml(v: &Yv) -> YamlValue {
    match v {
        Yv::Null => YamlValue::Null,
        Yv::Bool(b) => YamlValue::Bool(*b),
        Yv::Number(n) => YamlValue::Number(n.to_string()),
        Yv::String(s) => YamlValue::String(s.clone()),
        Yv::Sequence(items) => YamlValue::Sequence(items.iter().map(from_yaml).collect()),
        Yv::Mapping(m) => YamlValue::Mapping(m.iter().map(|(k, v)| (from_yaml(k), from_yaml(v))).collect()),
        Yv::Tagged(t) => YamlValue::Tagged(t.tag.to_string(), Box::new(from_yaml(&t.value))),
    }
}

fn to_yaml(v: &YamlValue) -> Yv {
    match v {
        YamlValue::Null => Yv::Null,
        YamlValue::Bool(b) => Yv::Bool(*b),
        YamlValue::Number(t) => t.parse::<serde_yaml::Number>().map(Yv::Number).unwrap_or_else(|_| Yv::String(t.clone())),
        YamlValue::String(s) => Yv::String(s.clone()),
        YamlValue::Sequence(items) => Yv::Sequence(items.iter().map(to_yaml).collect()),
        YamlValue::Mapping(es) => {
            let mut m = serde_yaml::Mapping::new();
            for (k, v) in es {
                m.insert(to_yaml(k), to_yaml(v));
            }
            Yv::Mapping(m)
        },
        YamlValue::Tagged(_, b) => to_yaml(b),
    }
}

fn read_yaml(t: &str) -> Option<YamlValue> {
    serde_yaml::from_str::<Yv>(t).ok().map(|v| from_yaml(&v))
}

fn write_yaml(d: &YamlValue) -> Option<String> {
    serde_yaml::to_string(&to_yaml(d)).ok()
}

#[test]
fn update_edits_front_matter_as_a_mapping() {
    let mut u = no_update();
    u.status = Some("done".to_string());
    u.checked_ac = Some(vec![2]);
    let page = apply_page_update(&None, "B", &u, &read_yaml, &write_yaml);
    assert_eq!(page, "---\nstatus: done\n---\n\nB");
    let mut a = no_update();
    a.acceptance_criteria = Some(vec![(Some("one".to_string()), None), (Some("two".to_string()), None)]);
    a.checked_ac = Some(vec![2]);
    let page = apply_page_update(&Some(fm("T", "task", "todo")), "", &a, &read_yaml, &write_yaml);
    assert!(page.contains("- text: two\n  checked: true\n"));
    assert!(page.contains("- text: one\n  checked: false\n"));
}

#[test]
fn yaml_edits_follow_mapping_rules() {
    let doc = read_yaml("a: 1\nb: 2\nc: 3\n").unwrap();
    let edited = wm_core::yaml::edit_doc(doc, &wm_core::yaml::YamlEdit::Remove("a".to_string()));
    assert_eq!(write_yaml(&edited).unwrap(), "c: 3\nb: 2\n");
    let front = wm_core::yaml::yaml_front(read_yaml("~"));
    let set = wm_core::yaml::edit_doc(front, &wm_core::yaml::YamlEdit::SetText("k".to_string(), "v".to_string()));
    assert_eq!(write_yaml(&set).unwrap(), "k: v\n");
    let list = read_yaml("- 1\n").unwrap();
    let same = wm_core::yaml::edit_doc(list, &wm_core::yaml::YamlEdit::SetText("k".to_string(), "v".to_string()));
    assert_eq!(write_yaml(&same).unwrap(), "- 1\n");
}

fn read_doc_yaml(t: &str) -> Option<YamlValue> {
    serde_yaml::from_str::<serde_json::Value>(t).ok().map(|v| from_yaml(&serde_yaml::to_value(v).unwrap()))
}

fn write_doc_yaml(d: &YamlValue) -> Option<String> {
    let mut m = std::collections::BTreeMap::new();
    if let YamlValue::Mapping(es) = d {
        for (k, v) in es {
            if let YamlValue::String(k) = k {
                m.insert(k.clone(), to_yaml(v));
            }
        }
    }
    serde_yaml::to_string(&m).ok()
}

#[test]
fn docs_read_titles_and_tags() {
    let front = wm_core::docs::doc_front(read_doc_yaml("title: Guide\ntags: [a, 3, b]\ndescription: d\n"));
    assert_eq!(wm_core::docs::doc_list_title(&front, "stem"), "Guide");
    assert_eq!(wm_core::docs::doc_tags(&front), vec!["a".to_string(), "b".to_string()]);
    assert_eq!(wm_core::docs::doc_text(&front, "description"), Some("d".to_string()));
    let empty = wm_core::docs::doc_front(read_doc_yaml("title: ''\n"));
    assert_eq!(wm_core::docs::doc_list_title(&empty, "stem"), "stem");
    assert!(wm_core::docs::doc_front(read_doc_yaml("- x\n")).is_empty());
    assert!(wm_core::docs::doc_front(read_doc_yaml("a: [")).is_empty());
}

#[test]
fn docs_are_written_as_markdown() {
    let md = wm_core::docs::build_markdown("T", "Body", &vec!["x".to_string()], &write_doc_yaml);
    assert_eq!(md, "---\ntags:\n- x\ntitle: T\n---\n\nBody");
    let plain = wm_core::docs::build_markdown("T", "", &Vec::new(), &write_doc_yaml);
    assert_eq!(plain, "---\ntitle: T\n---\n\n");
    let front = wm_core::docs::doc_front(read_doc_yaml("title: Old\nother: 1\n"));
    let updated = wm_core::docs::doc_update(front, Some("New"), Some(&vec!["t".to_string()]));
    let md = wm_core::docs::doc_markdown(updated, "B", &write_doc_yaml);
    assert_eq!(md, "---\nother: 1\ntags:\n- t\ntitle: New\n---\n\nB");
}

#[test]
fn invalid_search_patterns_are_refused() {
    assert!(wm_core::code_scan::check_search_pattern("fn [a-z]+").is_ok());
    let e = wm_core::code_scan::check_search_pattern("(unclosed").unwrap_err();
    assert!(e.message.starts_with("Invalid regex pattern: "));
    assert_eq!(e.code, "INTERNAL_ERROR");
}

#[test]
fn orphan_timer_reads_its_start_as_rfc3339() {
    let f = fm("T", "task", "in-progress");
    let start = 1_704_067_200i64; // 2024-01-01T00:00:00Z
    let page = recover_orphan_timer(PageType::Task, &f, "Body", "2024-01-01T00:00:00Z", (start + 3600 * 25 + 60 * 30, 0)).unwrap();
    assert!(page.ends_with("time_spent: 25h 30m\n---\n\nBody"));
    let shifted = recover_orphan_timer(PageType::Task, &f, "Body", "2024-01-01T02:00:00+02:00", (start + 3600 * 24, 5)).unwrap();
    assert!(shifted.ends_with("time_spent: 24h 0m\n---\n\nBody"));
    assert!(recover_orphan_timer(PageType::Task, &f, "Body", "2024-01-01T00:00:00Z", (start + 3600 * 23, 0)).is_none());
    assert!(recover_orphan_timer(PageType::Task, &f, "Body", "yesterday", (start + 3600 * 48, 0)).is_none());
    assert!(recover_orphan_timer(PageType::Spec, &f, "Body", "2024-01-01T00:00:00Z", (start + 3600 * 48, 0)).is_none());
}

#[test]
fn minutes_since_counts_whole_minutes_toward_zero() {
    let start = 1_704_067_200i64;
    assert_eq!(minutes_since(Some("2024-01-01T00:00:00Z"), (start + 31 * 60, 0)), Some(31));
    assert_eq!(minutes_since(Some("2024-01-01T00:00:00.5Z"), (start + 60, 0)), Some(0));
    assert_eq!(minutes_since(Some("2024-01-01T00:01:30Z"), (start, 0)), Some(-1));
    assert_eq!(minutes_since(Some("not a time"), (start, 0)), None);
    assert_eq!(minutes_since(None, (start, 0)), None);
}

#[test]
fn graph_edges_come_newest_first() {
    let pages = vec![
        meta("wiki/concepts/a.md", "Alpha", &["relates_to:wiki:concepts:b", "depends_on:wiki:concepts:c"]),
        meta("wiki/concepts/b.md", "Beta", &[]),
        meta("wiki/concepts/c.md", "Gamma", &[]),
    ];
    let g = graph_from_pages(pages, &[]);
    assert_eq!(g.edge_count(), 2);
    let out = g.out_edges(0);
    assert_eq!(out.len(), 2);
    assert_eq!(out[0].0, 2);
    assert!(matches!(out[0].1, EdgeType::DependsOn));
    assert_eq!(out[1].0, 1);
    assert!(matches!(out[1].1, EdgeType::RelatesTo));
}
