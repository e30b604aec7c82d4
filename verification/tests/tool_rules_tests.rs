use wm_core::transport::{audit_action, audit_status, method_not_found, parse_error, route, Route, ToolRegistry};
use sha2::Digest;
use wm_core::code_scan::{file_deps, find_symbols, search_lines};
use wm_core::records::decision_front_matter_text;
use wm_core::tools::criteria_indices;
use wm_core::task::task_front_matter_text;
use wm_core::task::{check_task_update, list_tasks};
use wm_core::sources::claim_source;
use wm_core::sources::complete_source;
use wm_core::sources::{already_tracked, new_source, source_names, state_passes, state_text};
use wm_core::memory::{apply_memory_update, memory_layer, MemoryLayer};
use wm_core::parser::split_doc;
use wm_core::engine::{AcceptanceCriterion, EdgeType, PageStatus, PageType, SourceEntry, SourceState, WikiPageMeta};
use wm_core::graph::walks::{eq_ignore_ascii_case, resolve_page};
use wm_core::graph::{infer_page_type, PageGraph};
use wm_core::help::{help_matches, tool_catalog};
use wm_core::logs::{log_filter, log_lines, log_recent, log_since};
use wm_core::parser::{parse_wiki_page, Frontmatter};
use wm_core::search::{memory_entry_id, search_scope};
use wm_core::validate::{lint_pages, source_stale, stale_source_issue, stale_summary_issue, validate_specs, validate_wiki};

fn page(path: &str, kind: &str, title: &str) -> WikiPageMeta {
    let fm = Frontmatter {
        title: Some(title.to_string()),
        page_type: Some(kind.to_string()),
        tags: vec![],
        status: Some("draft".to_string()),
        relates_to: vec![],
        aliases: vec![],
        sources: vec![],
        confidence: None,
        superseded_by: None,
        version: None,
    };
    parse_wiki_page(path, &Some(fm))
}

const LOG: &str = "## start\nfirst entry\nMARK here\nsecond Entry\r\nthird entry\n";

#[test]
fn log_lines_follow_str_lines() {
    assert_eq!(log_lines(LOG), vec!["## start", "first entry", "MARK here", "second Entry", "third entry"]);
    assert!(log_lines("").is_empty());
}

#[test]
fn log_recent_keeps_the_tail() {
    let (lines, total) = log_recent(LOG, 2);
    assert_eq!(total, 5);
    assert_eq!(lines, vec!["second Entry", "third entry"]);
    let (all, _) = log_recent(LOG, 20);
    assert_eq!(all.len(), 5);
    let (none, _) = log_recent(LOG, 0);
    assert!(none.is_empty());
}

#[test]
fn log_since_starts_after_the_marker() {
    assert_eq!(log_since(LOG, "MARK"), vec!["second Entry", "third entry"]);
    assert!(log_since(LOG, "absent").is_empty());
    assert_eq!(log_since(LOG, "").len(), 4);
}

#[test]
fn log_filter_ignores_case() {
    assert_eq!(log_filter(LOG, "ENTRY"), vec!["first entry", "second Entry", "third entry"]);
    assert!(log_filter(LOG, "zzz").is_empty());
}

#[test]
fn help_lists_and_filters_tools() {
    let tools = tool_catalog();
    assert_eq!(tools.len(), 47);
    assert_eq!(tools[0].0, "wm_initial");
    assert_eq!(help_matches(&tools, None).len(), 47);
    let pages = help_matches(&tools, Some("page.*"));
    assert_eq!(pages.len(), 7);
    assert!(pages.iter().all(|(n, _)| n.starts_with("wm_page.")));
    let star = help_matches(&tools, Some("time*"));
    assert_eq!(star.len(), 4);
    let by_desc = help_matches(&tools, Some("ACCEPTANCE"));
    let names: Vec<&str> = by_desc.iter().map(|(n, _)| n.as_str()).collect();
    assert_eq!(names, vec!["wm_task.check_ac", "wm_task.uncheck_ac"]);
    assert!(help_matches(&tools, Some("nothing-like-this")).is_empty());
}

#[test]
fn new_page_type_comes_from_the_directory() {
    assert_eq!(infer_page_type("wiki/tasks/auth"), "task");
    assert_eq!(infer_page_type("specs/login"), "spec");
    assert_eq!(infer_page_type("wiki/wiki/howto/x"), "howto");
    assert_eq!(infer_page_type("wiki/other/x"), "concept");
    assert_eq!(infer_page_type("reference"), "reference");
    assert_eq!(infer_page_type(""), "concept");
}

#[test]
fn search_scope_by_kind() {
    assert_eq!(search_scope("all"), (true, true));
    assert_eq!(search_scope("page"), (true, false));
    assert_eq!(search_scope("task"), (true, false));
    assert_eq!(search_scope("memory"), (false, true));
    assert_eq!(search_scope("other"), (false, false));
}

#[test]
fn memory_hits_stay_inside_the_memory_directory() {
    assert_eq!(memory_entry_id("memory:abc-1").as_deref(), Some("abc-1"));
    assert_eq!(memory_entry_id("memory:a:b").as_deref(), Some("a:b"));
    assert_eq!(memory_entry_id("noseparator"), None);
    assert_eq!(memory_entry_id("memory:../x"), None);
    assert_eq!(memory_entry_id("memory:a/b"), None);
    assert_eq!(memory_entry_id("memory:a\\b"), None);
}

#[test]
fn resolve_prefers_exact_id_then_title() {
    let mut g = PageGraph::new();
    g.add_node(page("wiki/concepts/auth.md", "concept", "Login Flow"));
    g.add_node(page("wiki/concepts/login-flow.md", "concept", "Other"));
    assert_eq!(resolve_page(&g, "wiki:concepts:login-flow"), Some(1));
    assert_eq!(resolve_page(&g, "login flow"), Some(0));
    assert_eq!(resolve_page(&g, "WIKI:CONCEPTS:AUTH"), Some(0));
    assert_eq!(resolve_page(&g, "missing"), None);
    assert!(eq_ignore_ascii_case("AbC", "aBc"));
    assert!(!eq_ignore_ascii_case("abc", "abcd"));
}

fn wiki() -> PageGraph {
    wiki_with(&[])
}

fn wiki_with(extra: &[&str]) -> PageGraph {
    let mut g = PageGraph::new();
    let mut task = page("wiki/tasks/t1.md", "task", "Task one");
    task.relates_to = vec!["implements:wiki:specs:login".to_string(), "relates_to:wiki:concepts:nowhere".to_string()];
    for r in extra {
        task.relates_to.push(r.to_string());
    }
    g.add_node(task);
    let mut spec = page("wiki/specs/login.md", "spec", "Login");
    spec.acceptance_criteria = vec![AcceptanceCriterion { text: "works".to_string(), checked: false }];
    g.add_node(spec);
    g.add_node(page("wiki/concepts/auth.md", "concept", ""));
    g.add_node(page("wiki/specs/lonely.md", "spec", "Lonely"));
    g.add_edge(0, 1, EdgeType::Implements);
    g
}

#[test]
fn validate_reports_errors_and_warnings() {
    let g = wiki();
    let v = validate_wiki(&g);
    let errors: Vec<(&str, &str)> = v.errors.iter().map(|f| (f.id.as_str(), f.field.as_str())).collect();
    assert_eq!(errors, vec![
        ("wiki:tasks:t1", "acceptance_criteria"),
        ("wiki:tasks:t1", "relates_to"),
        ("wiki:concepts:auth", "title"),
    ]);
    assert_eq!(v.errors[1].message, "Broken wiki ref: 'wiki:concepts:nowhere' — page 'concepts/nowhere' not found");
    assert_eq!(v.errors[1].reference, Some(("wiki:concepts:nowhere".to_string(), "concepts/nowhere".to_string())));
    let warnings: Vec<(&str, &str)> = v.warnings.iter().map(|f| (f.id.as_str(), f.field.as_str())).collect();
    assert_eq!(warnings, vec![
        ("wiki:tasks:t1", "assignee"),
        ("wiki:specs:login", "stakeholders"),
        ("wiki:specs:lonely", "stakeholders"),
        ("wiki:concepts:auth", "orphan"),
        ("wiki:specs:lonely", "orphan"),
    ]);
}

#[test]
fn validate_specs_checks_task_links() {
    let g = wiki();
    let w = validate_specs(&g);
    let fields: Vec<(&str, &str)> = w.iter().map(|f| (f.id.as_str(), f.field.as_str())).collect();
    assert_eq!(fields, vec![("wiki:specs:login", "sdd_coverage"), ("wiki:specs:lonely", "sdd_coverage")]);
    assert_eq!(w[1].message, "Spec 'Lonely' has no linked tasks — add task pages with relates_to edges");
}

#[test]
fn validate_specs_accepts_a_task_naming_the_spec() {
    let g = wiki_with(&["wiki:specs:lonely"]);
    let w = validate_specs(&g);
    let fields: Vec<&str> = w.iter().map(|f| f.id.as_str()).collect();
    assert_eq!(fields, vec!["wiki:specs:login"]);
}

#[test]
fn lint_pages_flags_orphans_and_gaps() {
    let g = wiki();
    let issues = lint_pages(&g);
    let kinds: Vec<(&str, &str, &str)> =
        issues.iter().map(|i| (i.kind.as_str(), i.severity.as_str(), i.id.as_str())).collect();
    assert_eq!(kinds, vec![
        ("orphan", "warning", "wiki:tasks:t1"),
        ("missing_acs", "warning", "wiki:tasks:t1"),
        ("spec_status", "info", "wiki:specs:login"),
        ("orphan", "warning", "wiki:concepts:auth"),
        ("orphan", "warning", "wiki:specs:lonely"),
        ("spec_status", "info", "wiki:specs:lonely"),
    ]);
    let _ = (PageType::Task, PageStatus::Draft);
}

#[test]
fn stale_sources_by_state_or_hash() {
    let entry = SourceEntry {
        id: "src-1".to_string(),
        original_path: None,
        stored_path: "raw/src-1.md".to_string(),
        content_hash: "abc".to_string(),
        state: SourceState::Done,
        added_at: "2024-01-01".to_string(),
        last_processed_at: None,
        page_refs: vec![],
        page_count: 0,
        error_message: None,
        retry_count: 0,
    };
    assert!(!source_stale(&entry, Some("abc")));
    assert!(source_stale(&entry, Some("abd")));
    assert!(!source_stale(&entry, None));
    let mut stale = entry.clone();
    stale.state = SourceState::Stale;
    assert!(source_stale(&stale, Some("abc")));
    assert_eq!(stale_source_issue("src-1").message, "Source 'src-1' content hash changed — needs reprocessing");
    assert_eq!(stale_summary_issue(3).message, "3 stale source(s) found. Run source.verify to check.");
}

#[test]
fn criteria_indices_keep_numbers() {
    let items = vec!["1".to_string(), "x".to_string(), "+3".to_string(), "-2".to_string(), "".to_string(), "18446744073709551616".to_string(), "7".to_string()];
    assert_eq!(criteria_indices(&items), vec![1, 3, 7]);
}

#[test]
fn task_front_matter_defaults_and_lists() {
    let plain = task_front_matter_text("Fix login", None, None, &vec![], &vec![], None);
    assert_eq!(plain, "title: Fix login\ntype: task\nstatus: todo\npriority: medium\n");
    let full = task_front_matter_text(
        "Fix login",
        Some("in_progress"),
        Some("high"),
        &vec!["auth".to_string(), "web".to_string()],
        &vec!["works".to_string(), "tested".to_string()],
        Some("ana"),
    );
    assert_eq!(
        full,
        "title: Fix login\ntype: task\nstatus: in_progress\npriority: high\ntags: [auth, web]\nacceptance_criteria:\n  - {text: \"works\", checked: false}\n  - {text: \"tested\", checked: false}\nassignee: ana\n"
    );
}

#[test]
fn list_tasks_filters_and_limits() {
    let mut a = page("wiki/tasks/a.md", "task", "A");
    a.status = PageStatus::InProgress;
    a.tags = vec!["Backend".to_string()];
    let b = page("wiki/tasks/b.md", "task", "B");
    let c = page("wiki/concepts/c.md", "concept", "C");
    let mut d = page("wiki/tasks/d.md", "task", "D");
    d.status = PageStatus::InProgress;
    let pages = vec![a, b, c, d];
    assert_eq!(list_tasks(&pages, None, None, 50), vec![0, 1, 3]);
    assert_eq!(list_tasks(&pages, Some("InProgress".to_string()), None, 50), vec![0, 3]);
    assert_eq!(list_tasks(&pages, None, Some("backend".to_string()), 50), vec![0]);
    assert_eq!(list_tasks(&pages, Some("done".to_string()), None, 50), Vec::<usize>::new());
    assert_eq!(list_tasks(&pages, None, None, 2), vec![0, 1]);
    assert_eq!(list_tasks(&pages, None, None, 0), vec![0]);
}

fn source(state: SourceState) -> SourceEntry {
    SourceEntry {
        id: "src_1".to_string(),
        original_path: Some("raw/a.md".to_string()),
        stored_path: ".wm/sources/a.md".to_string(),
        content_hash: "0123456789abcdef".to_string(),
        state,
        added_at: "t0".to_string(),
        last_processed_at: None,
        page_refs: vec![],
        page_count: 0,
        error_message: None,
        retry_count: 0,
    }
}

#[test]
fn claiming_sources_follows_the_state_machine() {
    let mut s = source(SourceState::Pending);
    assert!(claim_source(&mut s, None, "t1".to_string()).is_ok());
    assert_eq!(s.state, SourceState::Processing);
    assert_eq!(s.retry_count, 1);
    assert_eq!(s.last_processed_at.as_deref(), Some("t1"));

    let e = claim_source(&mut s, Some(5), "t2".to_string()).unwrap_err();
    assert_eq!(e.message, "Source src_1 is already being processed by another agent");
    assert_eq!(s.state, SourceState::Processing);

    let e = claim_source(&mut s, None, "t2".to_string()).unwrap_err();
    assert_eq!(e.message, "Source src_1 is already being processed");

    let e = claim_source(&mut s, Some(31), "t2".to_string()).unwrap_err();
    assert_eq!(e.message, "Source src_1 is already being processed");
    assert_eq!(s.state, SourceState::Pending);

    let mut err = source(SourceState::Error);
    assert!(claim_source(&mut err, None, "t3".to_string()).is_ok());
    assert_eq!(err.retry_count, 0);

    let mut done = source(SourceState::Done);
    let e = claim_source(&mut done, None, "t3".to_string()).unwrap_err();
    assert_eq!(e.message, "Source src_1 already processed. Use source.verify to check for staleness.");
    assert_eq!(e.code, "INTERNAL_ERROR");
}

#[test]
fn completing_requires_processing() {
    let refs = vec!["wiki:concepts:a".to_string(), "wiki:concepts:b".to_string()];
    let mut s = source(SourceState::Pending);
    let e = complete_source(&mut s, &refs, "t".to_string()).unwrap_err();
    assert_eq!(e.message, "Source src_1 is not in processing state");
    let mut p = source(SourceState::Processing);
    assert!(complete_source(&mut p, &refs, "t9".to_string()).is_ok());
    assert_eq!(p.state, SourceState::Done);
    assert_eq!(p.page_count, 2);
    assert_eq!(p.page_refs, refs);
    assert_eq!(p.last_processed_at.as_deref(), Some("t9"));
}

#[test]
fn new_sources_are_named_from_their_hash() {
    let (id, name) = source_names("deadbeefcafe", "notes", Some("md"));
    assert_eq!(id, "src_deadbeef");
    assert_eq!(name, "deadbeef-notes.md");
    let (_, bare) = source_names("deadbeefcafe", "README", None);
    assert_eq!(bare, "deadbeef-README");
    let e = new_source(id.clone(), "raw/notes.md".into(), ".wm/sources/x".into(), "deadbeefcafe".into(), "now".into());
    assert_eq!(e.state, SourceState::Pending);
    let entries = vec![source(SourceState::Done)];
    assert!(already_tracked(&entries, "0123456789abcdef", "other"));
    assert!(already_tracked(&entries, "ffff", "raw/a.md"));
    assert!(!already_tracked(&entries, "ffff", "raw/b.md"));
    assert_eq!(state_text(SourceState::Processing), "processing");
    assert!(state_passes(SourceState::Done, Some("done")));
    assert!(!state_passes(SourceState::Done, Some("pending")));
    assert!(state_passes(SourceState::Done, Some("whatever")));
    assert!(state_passes(SourceState::Done, None));
}

#[test]
fn memory_layers_by_name() {
    assert_eq!(memory_layer("").unwrap(), MemoryLayer::Project);
    assert_eq!(memory_layer("project").unwrap(), MemoryLayer::Project);
    assert_eq!(memory_layer("global").unwrap(), MemoryLayer::Global);
    assert_eq!(memory_layer("session").unwrap(), MemoryLayer::Session);
    let e = memory_layer("cloud").unwrap_err();
    assert_eq!(e.message, "Unknown memory layer: cloud. Valid layers: project, global, session");
    let mut m = wm_core::engine::MemoryEntry {
        id: "m1".into(), title: "t".into(), content: "c".into(), tags: vec!["a".into()],
        created_at: "c0".into(), updated_at: "u0".into(),
    };
    apply_memory_update(&mut m, Some("T".into()), None, Some(vec![]), "u1".into());
    assert_eq!((m.title.as_str(), m.content.as_str(), m.tags.len(), m.updated_at.as_str()), ("T", "c", 0, "u1"));
}

#[test]
fn documents_split_into_front_matter_and_body() {
    let (yaml, body) = split_doc("  ---\ntitle: Doc\n---\n\n  Body text\n\n").unwrap();
    assert_eq!(yaml, "\ntitle: Doc");
    assert_eq!(body, "Body text");
    let (_, kept) = split_doc("---\na: 1\n---\nline\n  trailing  ").unwrap();
    assert_eq!(kept, "line\n  trailing");
    assert!(split_doc("no front matter").is_none());
    assert!(split_doc("---\nunterminated").is_none());
}

const RUST: &str = "use std::fmt;\npub fn alpha() {}\n  pub struct Beta;\nimpl Display for Beta {}\n  use crate::x::{a, b};\nfn hidden() {}\n";

#[test]
fn code_search_finds_lines() {
    let hits = search_lines(RUST, "pub \\w+", 10);
    let got: Vec<(usize, &str)> = hits.iter().map(|h| (h.0, h.2.as_str())).collect();
    assert_eq!(got, vec![(2, "pub fn"), (3, "pub struct")]);
    assert_eq!(hits[1].1, "  pub struct Beta;");
    assert_eq!(search_lines(RUST, "fn", 1).len(), 1);
    assert_eq!(search_lines(RUST, "fn", 0).len(), 1);
    assert!(search_lines(RUST, "(", 10).is_empty());
}

#[test]
fn code_symbols_by_pattern_order() {
    let syms = find_symbols(RUST, None, None);
    let got: Vec<(&str, &str, usize)> = syms.iter().map(|s| (s.0.as_str(), s.1.as_str(), s.2)).collect();
    assert_eq!(got, vec![("alpha", "function", 2), ("Beta", "struct", 3), ("Beta", "impl", 4), ("Display", "impl", 4)]);
    assert_eq!(syms[1].3, "pub struct Beta;");
    let only_impl = find_symbols(RUST, None, Some("impl"));
    assert_eq!(only_impl.len(), 2);
    let by_name = find_symbols(RUST, Some("alp"), None);
    assert_eq!(by_name.len(), 1);
}

#[test]
fn code_deps_from_use_lines() {
    let deps = file_deps(RUST);
    let got: Vec<(&str, usize)> = deps.iter().map(|d| (d.0.as_str(), d.1)).collect();
    assert_eq!(got, vec![("std::fmt", 1), ("crate::x::{a, b}", 5)]);
}

#[test]
fn decision_front_matter_lists_options() {
    let plain = decision_front_matter_text("Use X", None, "ctx", "why", None, None);
    assert_eq!(plain, "title: Use X\ntype: decision\nstatus: draft\ndecision:\n  context: \"ctx\"\n  rationale: \"why\"\n");
    let opts = vec!["A".to_string(), "B".to_string()];
    let full = decision_front_matter_text("Use X", Some("accepted"), "ctx", "why", Some(&opts), Some("done"));
    assert_eq!(full, "title: Use X\ntype: decision\nstatus: accepted\ndecision:\n  context: \"ctx\"\n  rationale: \"why\"\n  options: [\"A\", \"B\"]\n  outcome: \"done\"\n");
    let none: Vec<String> = vec![];
    assert_eq!(decision_front_matter_text("T", None, "c", "r", Some(&none), None), plain.replace("Use X", "T").replace("ctx", "c").replace("why", "r"));
}

#[test]
fn page_counts_and_front_matter() {
    use_graph_helpers();
}

fn use_graph_helpers() {
    let pages = vec![
        page("wiki/tasks/a.md", "task", "A"),
        page("wiki/concepts/b.md", "concept", "B"),
        page("wiki/tasks/c.md", "task", "C"),
    ];
    assert_eq!(wm_core::graph::page_type_counts(&pages), vec![("concept", 1), ("task", 2)]);
    assert_eq!(wm_core::graph::page_front_matter_text("T", "spec", None), "title: T\ntype: spec\n");
    assert_eq!(wm_core::graph::page_front_matter_text("T", "spec", Some("draft")), "title: T\ntype: spec\nstatus: draft\n");
}

fn section(id: &str, body: &str) -> wm_core::engine::SectionDoc {
    wm_core::engine::SectionDoc { section_id: id.to_string(), page_id: "p".to_string(), header: "h".to_string(), body: body.to_string() }
}

#[test]
fn embedding_plan_skips_unchanged_sections() {

    let secs = vec![section("a", "alpha"), section("b", "beta"), section("c", "gamma")];
    let old = vec![
        ("a".to_string(), sha2::Sha256::digest(b"alpha").to_vec()),
        ("b".to_string(), sha2::Sha256::digest(b"BETA").to_vec()),
    ];
    let (digests, changed) = wm_core::embed::embedding_plan(&secs, &old);
    assert_eq!(changed, vec![1, 2]);
    assert_eq!(digests.len(), 3);
    assert_eq!(digests[2].0, "c");
    assert_eq!(digests[2].1, sha2::Sha256::digest(b"gamma").to_vec());
    let (_, none) = wm_core::embed::embedding_plan(&secs[..1].to_vec(), &old);
    assert!(none.is_empty());
}

#[test]
fn batches_cover_the_items() {
    assert_eq!(wm_core::embed::batch_ranges(7, 3), vec![(0, 3), (3, 6), (6, 7)]);
    assert_eq!(wm_core::embed::batch_ranges(6, 3), vec![(0, 3), (3, 6)]);
    assert!(wm_core::embed::batch_ranges(0, 4).is_empty());
}

#[test]
fn debounced_submissions_coalesce() {
    let mut d = wm_core::scheduler::Debouncer::new();
    let (none, t1) = d.submit("page");
    assert_eq!(none, None);
    let (cancelled, t2) = d.submit("page");
    assert_eq!(cancelled, Some(t1));
    assert_ne!(t1, t2);
    let (_, other) = d.submit("memory");
    assert!(!d.fire("page", t1));
    assert!(d.fire("page", t2));
    assert!(!d.fire("page", t2));
    assert!(d.fire("memory", other));
}

#[test]
fn staleness_follows_directory_time() {
    use_staleness();
}

fn use_staleness() {
    use_check(true, None, None, true);
    use_check(false, Some(5), Some(4), true);
    use_check(false, Some(4), Some(4), false);
    use_check(false, None, Some(4), false);
    use_check(false, Some(9), None, false);
}

fn use_check(stale: bool, cur: Option<u128>, rec: Option<u128>, want: bool) {
    assert_eq!(wm_core::engine::check_staleness(stale, cur, rec), want);
}

#[test]
fn requests_are_routed_by_method() {
    use_routes();
}

fn use_routes() {

    assert_eq!(route("initialize"), Route::Initialize);
    assert_eq!(route("tools/list"), Route::ListTools);
    assert_eq!(route("tools/call"), Route::CallTool);
    assert_eq!(route("notifications/initialized"), Route::Initialized);
    assert_eq!(route("resources/list"), Route::Unknown);
    let e = method_not_found("resources/list");
    assert_eq!((e.code, e.message.as_str()), (-32601, "Method not found: resources/list"));
    assert_eq!(parse_error("Parse error: x").code, -32700);
}

#[test]
fn registry_plans_calls() {
    let mut reg = ToolRegistry::new();
    assert_eq!(reg.register_with_desc("wm_page.get", "Get page"), 0);
    assert_eq!(reg.register("wm_help"), 1);
    reg.register_with_desc("wm_page.get", "Get a page by id");
    let list = reg.list_tools();
    assert_eq!(list.len(), 3);
    assert_eq!(list[0], ("wm_page.get".to_string(), "Get a page by id".to_string()));
    assert_eq!(list[1], ("wm_help".to_string(), String::new()));
    assert_eq!(reg.plan_call("wm_page.get", true).unwrap(), (0, true));
    assert_eq!(reg.plan_call("wm_help", true).unwrap(), (1, false));
    let denied = reg.plan_call("wm_page.get", false).unwrap_err();
    assert_eq!(denied.message, "Action not permitted");
    let unknown = reg.plan_call("wm_nope", true).unwrap_err();
    assert_eq!(unknown.code, "INVALID_ACTION");
    assert_eq!(unknown.message, "Unknown action. Valid actions: wm_nope");
    assert_eq!(audit_action("wm_page.get"), "get");
    assert_eq!(audit_action("wm_a.b.c"), "b");
    assert_eq!(audit_action("wm_initial"), "unknown");
    assert_eq!(audit_status(false), "error");
}

#[test]
fn matched_page_context_fits_the_budget() {
    use_context();
}

fn use_context() {
    let sources = vec!["src/a.md".to_string(), "src/b.md".to_string()];
    assert_eq!(wm_core::search::clamp_budget(10), 256);
    assert_eq!(wm_core::search::clamp_budget(500), 500);
    assert_eq!(wm_core::search::clamp_budget(1 << 20), 131072);
    let (full, t) = wm_core::search::match_context("wiki:c:x", "X", &sources, 0, 256);
    assert_eq!(full, "[MATCH: wiki:c:x]\nTitle: X\nsrc/a.md, src/b.md");
    assert_eq!(t, full.len() / 4);
    let (mid, _) = wm_core::search::match_context("wiki:c:x", "X", &sources, 0, 6);
    assert_eq!(mid, "[MATCH: wiki:c:x]\nTitle: X");
    let (min, _) = wm_core::search::match_context("wiki:c:x", "X", &sources, 0, 4);
    assert_eq!(min, "[MATCH: wiki:c:x]");
    let (none, zero) = wm_core::search::match_context("wiki:c:x", "X", &sources, 0, 3);
    assert_eq!((none.as_str(), zero), ("", 0));
}

#[test]
fn cycles_are_reported() {
    let mut g = wiki();
    assert!(wm_core::validate::cycle_issue(&g).is_none());
    g.add_edge(1, 0, EdgeType::RelatesTo);
    let issue = wm_core::validate::cycle_issue(&g).unwrap();
    assert_eq!((issue.kind.as_str(), issue.severity.as_str(), issue.id.as_str()), ("cycle", "warning", "graph"));
    let mut lone = PageGraph::new();
    lone.add_node(page("wiki/concepts/x.md", "concept", "X"));
    assert!(wm_core::validate::cycle_issue(&lone).is_none());
    lone.add_edge(0, 0, EdgeType::SimilarTo);
    assert!(wm_core::validate::cycle_issue(&lone).is_some());
}

#[test]
fn intake_names_a_source_by_the_hash_of_its_bytes() {
    let bytes: &[u8] = b"hello world";
    let (id, name, entry) = wm_core::sources::intake_source(
        bytes,
        Some("notes"),
        Some("md"),
        "raw/notes.md".to_string(),
        "2024-01-01T00:00:00Z".to_string(),
    );
    assert_eq!(id, "src_b94d27b9");
    assert_eq!(name, "b94d27b9-notes.md");
    assert_eq!(entry.id, "src_b94d27b9");
    assert_eq!(entry.stored_path, ".wm/sources/b94d27b9-notes.md");
    assert_eq!(entry.content_hash, "b94d27b9934d3e08a52e52d7da7dabfac484efe37a5380ee9088f7ace2efcde9");
    assert_eq!(entry.original_path.as_deref(), Some("raw/notes.md"));
    assert!(matches!(entry.state, SourceState::Pending));
    let (_, bare, _) = wm_core::sources::intake_source(&[0xff, 0x00], None, None, "x".to_string(), "t".to_string());
    let expected = hex::encode(sha2::Sha256::digest([0xffu8, 0x00]));
    assert_eq!(bare, format!("{}-source", &expected[..8]));
}

#[test]
fn bytes_hash_and_stale_copy() {
    assert_eq!(
        wm_core::parser::bytes_content_hash(&[0xff, 0xfe]),
        hex::encode(sha2::Sha256::digest([0xffu8, 0xfe]))
    );
    let (_, _, entry) = wm_core::sources::intake_source(b"abc", Some("a"), None, "a".to_string(), "t".to_string());
    assert!(!wm_core::validate::source_content_stale(&entry, Some(b"abc")));
    assert!(wm_core::validate::source_content_stale(&entry, Some(b"abd")));
    assert!(!wm_core::validate::source_content_stale(&entry, None));
}

#[test]
fn task_updates_check_the_page_and_the_status_move() {
    let g = wiki();
    assert_eq!(check_task_update(&g, "wiki:tasks:t1", None).unwrap(), 0);
    assert_eq!(check_task_update(&g, "wiki:tasks:t1", Some("TODO")).unwrap(), 0);
    assert_eq!(check_task_update(&g, "wiki:tasks:t1", Some("draft")).unwrap(), 0);
    let refused = check_task_update(&g, "wiki:tasks:t1", Some("done")).unwrap_err();
    assert_eq!(refused.code, "INTERNAL_ERROR");
    assert_eq!(refused.message, "Invalid transition: draft → done. Allowed: todo, cancelled");
    let spec = check_task_update(&g, "wiki:specs:login", None).unwrap_err();
    assert_eq!(spec.code, "NOT_FOUND");
    assert_eq!(spec.message, "task not found: wiki:specs:login");
    let missing = check_task_update(&g, "wiki:tasks:zz", Some("todo")).unwrap_err();
    assert_eq!(missing.message, "task not found: wiki:tasks:zz");
}
