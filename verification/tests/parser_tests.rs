use wm_core::engine::{EdgeType, PageStatus, PageType};
use wm_core::parser::{
    file_stem, page_id, parse_edge_type, parse_page_status, parse_page_type, parse_sections,
    parse_wiki_page, split_frontmatter, split_sections, Frontmatter,
};

#[test]
fn test_code_fence_ignores_headers() {
    let md = "\
## Real header

Some text

```
## This is inside a code fence
## Should not be parsed as a header
```

## Another real header

More text";

    let sections = split_sections(md);
    assert_eq!(sections.len(), 2);
    assert_eq!(sections[0].0, "Real header");
    assert_eq!(sections[1].0, "Another real header");
}

#[test]
fn test_path_inferred_id() {
    let path = "wiki/concepts/auth.md";
    let content = "# Hello\n\nWorld";
    let fm: Option<Frontmatter> = None;
    assert!(split_frontmatter(content).is_none());
    let meta = parse_wiki_page(path, &fm);
    assert_eq!(meta.id, "wiki:concepts:auth");
}

#[test]
fn overview_section_and_bodies() {
    let s = split_sections("intro line\n\n## A\nbody a\n## ## B\nbee\n## C\n   \n");
    assert_eq!(s.len(), 3);
    assert_eq!(s[0], ("Overview".to_string(), "intro line".to_string()));
    assert_eq!(s[1], ("A".to_string(), "body a".to_string()));
    assert_eq!(s[2], ("B".to_string(), "bee".to_string()));
}

#[test]
fn frontmatter_split() {
    let md = "\n---\ntitle: T\ntype: concept\n---\n\n# Body\n\nText.\n";
    let (yaml, body) = split_frontmatter(md).unwrap();
    assert_eq!(yaml, "\ntitle: T\ntype: concept");
    assert_eq!(body, "# Body\n\nText.");
    assert!(split_frontmatter("---\nno end").is_none());
}

#[test]
fn keywords() {
    assert_eq!(parse_page_type("TASK"), PageType::Task);
    assert_eq!(parse_page_type("guide"), PageType::Howto);
    assert_eq!(parse_page_type("whatever"), PageType::Concept);
    assert_eq!(parse_page_status("WIP"), PageStatus::InProgress);
    assert_eq!(parse_page_status("canceled"), PageStatus::Cancelled);
    assert_eq!(parse_page_status("?"), PageStatus::Draft);
    assert_eq!(parse_edge_type("Part_Of").unwrap(), EdgeType::PartOf);
    assert_eq!(parse_edge_type("similar").unwrap(), EdgeType::SimilarTo);
    assert_eq!(parse_edge_type("Blocks").unwrap(), EdgeType::Custom("blocks".to_string()));
}

#[test]
fn ids_and_stems() {
    assert_eq!(page_id("wiki\\specs\\x.md"), "wiki:specs:x");
    assert_eq!(page_id("notes/readme.txt"), "notes:readme.txt");
    assert_eq!(file_stem("wiki/concepts/auth-flow.md").as_deref(), Some("auth-flow"));
    assert_eq!(file_stem("dir/.hidden").as_deref(), Some(".hidden"));
    assert_eq!(file_stem("a/b.tar.gz").as_deref(), Some("b.tar"));
    assert_eq!(file_stem("a/.."), None);
    assert_eq!(file_stem("a/b/"), Some("b".to_string()));
}

#[test]
fn wiki_page_from_frontmatter() {
    let fm = Frontmatter {
        title: None,
        page_type: Some("Spec".to_string()),
        tags: vec!["x".to_string()],
        status: Some("done".to_string()),
        relates_to: vec![],
        aliases: vec![],
        sources: vec![],
        confidence: None,
        superseded_by: None,
        version: None,
    };
    let meta = parse_wiki_page("wiki/specs/auth-v2.md", &Some(fm));
    assert_eq!(meta.title, "auth v2");
    assert_eq!(meta.page_type, PageType::Spec);
    assert_eq!(meta.status, PageStatus::Done);
    assert_eq!(meta.tags, vec!["x".to_string()]);
}

#[test]
fn sections_get_ids() {
    let docs = parse_sections("wiki/a.md", "## Getting Started\nhello");
    assert_eq!(docs.len(), 1);
    assert_eq!(docs[0].section_id, "wiki:a#getting-started");
    assert_eq!(docs[0].page_id, "wiki:a");
    assert_eq!(docs[0].body, "hello");
}

#[test]
fn test_content_hash() {
    let h1 = wm_core::parser::content_hash("hello world");
    let h2 = wm_core::parser::content_hash("hello world");
    let h3 = wm_core::parser::content_hash("hello world!");
    assert_eq!(h1, h2);
    assert_ne!(h1, h3);
}

#[test]
fn content_hash_is_hex_sha256() {
    assert_eq!(
        wm_core::parser::content_hash("hello world"),
        "b94d27b9934d3e08a52e52d7da7dabfac484efe37a5380ee9088f7ace2efcde9"
    );
    assert_eq!(wm_core::parser::content_hash("").len(), 64);
}
