use wm_core::engine::WikiPageMeta;
use wm_core::engine::EdgeType;
use wm_core::graph::{edge_label, find_path, index_content, lint_fix_page, subgraph, PageGraph};
use wm_core::parser::{parse_wiki_page, Frontmatter};

fn fm(title: Option<&str>, kind: Option<&str>, status: Option<&str>, tags: &[&str]) -> Frontmatter {
    Frontmatter {
        title: title.map(String::from),
        page_type: kind.map(String::from),
        tags: tags.iter().map(|t| t.to_string()).collect(),
        status: status.map(String::from),
        relates_to: vec![],
        aliases: vec![],
        sources: vec![],
        confidence: None,
        superseded_by: None,
        version: None,
    }
}

fn page(path: &str, kind: &str, status: &str, title: &str) -> WikiPageMeta {
    parse_wiki_page(path, &Some(fm(Some(title), Some(kind), Some(status), &[])))
}

#[test]
fn index_groups_pages_by_type() {
    let pages = vec![
        page("wiki/tasks/a.md", "task", "in-progress", "Task A"),
        page("wiki/concepts/auth.md", "concept", "draft", "Auth"),
        page("wiki/tasks/b.md", "task", "done", "Task B"),
    ];
    let text = index_content(&pages, 4);
    let expected = "---\ntitle: Wiki Index\ntype: reference\n---\n\n# Wiki Index\n\n> **Do not edit this file manually.** It is auto-generated by `wm index rebuild`.\n\n\
## concepts\n\n- [Auth](wiki/concepts/auth.md) — *draft*\n\n\
## tasks\n\n- [Task A](wiki/tasks/a.md) — *inprogress*\n- [Task B](wiki/tasks/b.md) — *done*\n\n\
## Graph Stats\n\n- **Nodes:** 3\n- **Edges:** 4\n\n";
    assert_eq!(text, expected);
}

#[test]
fn lint_fix_adds_inferred_type() {
    let fixed = lint_fix_page("wiki/specs/login.md", &fm(None, None, Some("draft"), &["a", "b"]), "Body").unwrap();
    assert_eq!(fixed, "---\ntitle: login\ntype: spec\ntags: [a, b]\nstatus: draft\n---\n\nBody");
    let other = lint_fix_page("wiki/misc/x.md", &fm(Some("X"), None, None, &[]), "").unwrap();
    assert_eq!(other, "---\ntitle: X\ntype: concept\n---\n\n");
    assert!(lint_fix_page("wiki/specs/ok.md", &fm(None, Some("spec"), None, &[]), "b").is_none());
}

fn chain_graph() -> PageGraph {
    // a -> b -> c -> d, plus a shortcut a -> c and an isolated e
    let mut g = PageGraph::new();
    for (i, name) in ["a", "b", "c", "d", "e"].iter().enumerate() {
        let idx = g.add_node(page(&format!("wiki/concepts/{}.md", name), "concept", "draft", &name.to_uppercase()));
        assert_eq!(idx, i);
    }
    g.add_edge(0, 1, EdgeType::RelatesTo);
    g.add_edge(1, 2, EdgeType::DependsOn);
    g.add_edge(2, 3, EdgeType::Custom("Blocks".to_string()));
    g.add_edge(0, 2, EdgeType::PartOf);
    g
}

#[test]
fn edge_labels_are_lowercase_debug_names() {
    assert_eq!(edge_label(&EdgeType::RelatesTo), "relatesto");
    assert_eq!(edge_label(&EdgeType::ExampleOf), "exampleof");
    assert_eq!(edge_label(&EdgeType::Custom("Blocks".to_string())), "custom(\"blocks\")");
}

#[test]
fn find_path_takes_the_shortest_route() {
    let g = chain_graph();
    let path = find_path(&g, 0, 3, 10);
    let ids: Vec<&str> = path.iter().map(|p| p.0.as_str()).collect();
    assert_eq!(ids, vec!["wiki:concepts:a", "wiki:concepts:c", "wiki:concepts:d"]);
    assert_eq!(path[0].2, None);
    assert_eq!(path[1].2.as_deref(), Some("partof"));
    assert_eq!(path[2].2.as_deref(), Some("custom(\"blocks\")"));
    assert_eq!(path[1].1, "C");
}

#[test]
fn find_path_respects_depth_and_reachability() {
    let g = chain_graph();
    assert!(find_path(&g, 0, 3, 1).is_empty());
    assert_eq!(find_path(&g, 0, 3, 2).len(), 3);
    assert!(find_path(&g, 3, 0, 10).is_empty());
    assert!(find_path(&g, 0, 4, 10).is_empty());
    let same = find_path(&g, 2, 2, 0);
    assert_eq!(same.len(), 1);
    assert_eq!(same[0].0, "wiki:concepts:c");
    assert_eq!(g.index_of("wiki:concepts:d"), Some(3));
    assert_eq!(g.index_of("zz"), None);
}

#[test]
fn subgraph_lists_nodes_by_distance() {
    let g = chain_graph();
    let sg = subgraph(&g, 0, 1);
    assert_eq!(sg.depth, 1);
    // Out-edges come newest first, as petgraph lists them.
    assert_eq!(sg.nodes, vec![(0, 0), (2, 1), (1, 1)]);
    let edges: Vec<(usize, usize, &str)> = sg.edges.iter().map(|e| (e.0, e.1, e.2.as_str())).collect();
    assert_eq!(edges, vec![(0, 2, "partof"), (0, 1, "relatesto"), (2, 3, "custom(\"blocks\")"), (1, 2, "dependson")]);
    let capped = subgraph(&g, 0, 99);
    assert_eq!(capped.depth, 5);
    assert_eq!(capped.nodes, vec![(0, 0), (2, 1), (1, 1), (3, 2)]);
    let lone = subgraph(&g, 4, 3);
    assert_eq!(lone.nodes, vec![(4, 0)]);
    assert!(lone.edges.is_empty());
}
