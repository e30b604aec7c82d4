use wm_core::config::{ProjectConfig, SearchConfig};
use wm_core::engine::{PageType, WikiPageMeta};
use wm_core::status::{PageStatus, Priority};
use wm_core::task::build_task_board;
use wm_core::parser::{parse_wiki_page, Frontmatter};

#[test]
fn config_defaults() {
    let c = ProjectConfig::default();
    assert_eq!(c.schema_version, 1);
    assert_eq!(c.embedding.model_name, "bge-small-en-v1.5");
    assert_eq!(c.embedding.dimensions, 384);
    assert_eq!(c.permissions.preset, "read-write");
    assert_eq!(c.source_dirs, vec!["docs/".to_string(), "specs/".to_string()]);
    assert_eq!(c.source_extensions, vec!["md".to_string(), "yaml".to_string(), "txt".to_string()]);
    let s = SearchConfig::default();
    assert_eq!((s.default_mode.as_str(), s.default_limit, s.rrf_k), ("hybrid", 20, 60));
}

fn page(path: &str, kind: &str, status: &str) -> WikiPageMeta {
    let fm = Frontmatter {
        title: Some(format!("Title of {}", path)),
        page_type: Some(kind.to_string()),
        tags: vec![],
        status: Some(status.to_string()),
        relates_to: vec![],
        aliases: vec![],
        sources: vec![],
        confidence: None,
        superseded_by: None,
        version: None,
    };
    parse_wiki_page(path, &Some(fm))
}

#[test]
fn task_board_groups_tasks_by_status() {
    let mut pages = vec![
        page("wiki/tasks/a.md", "task", "todo"),
        page("wiki/concepts/c.md", "concept", "todo"),
        page("wiki/tasks/b.md", "task", "done"),
        page("wiki/tasks/d.md", "task", "todo"),
    ];
    pages[2].priority = Some(Priority::High);
    let board = build_task_board(&pages);
    let names: Vec<&str> = board.columns.iter().map(|(k, _)| k.as_str()).collect();
    assert_eq!(
        names,
        vec!["draft", "todo", "in-progress", "in-review", "blocked", "done", "reviewed", "approved", "superseded", "cancelled"]
    );
    let todo = &board.columns[1].1;
    assert_eq!(todo.len(), 2);
    assert_eq!(todo[0].id, pages[0].id);
    assert_eq!(todo[1].id, pages[3].id);
    assert_eq!(todo[0].priority, "medium");
    let done = &board.columns[5].1;
    assert_eq!(done.len(), 1);
    assert_eq!(done[0].priority, "high");
    assert_eq!(board.counts[1], ("todo".to_string(), 2));
    assert_eq!(board.counts[0], ("draft".to_string(), 0));
    assert_eq!(pages[1].page_type, PageType::Concept);
    assert_eq!(pages[2].status, PageStatus::Done);
}
