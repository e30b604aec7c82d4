use wm_core::reference::{
    extract_references, format_json_block, format_note, format_page, reference_target, sanitize_ref_target,
    ReferenceTarget,
};

#[test]
fn test_extract_references_basic() {
    let content = "See @doc/specs/auth for details and @task/fix-bug for progress.";
    let refs = extract_references(content);
    assert_eq!(refs.len(), 2);
    assert_eq!(refs[0].ref_type, "doc");
    assert_eq!(refs[0].target, "specs/auth");
    assert_eq!(refs[1].ref_type, "task");
    assert_eq!(refs[1].target, "fix-bug");
}

#[test]
fn test_extract_references_skips_code_blocks() {
    let content = "Normal text @doc/valid\n\n```\n@doc/should-skip\n```\n\nAfter @task/also-valid";
    let refs = extract_references(content);
    assert_eq!(refs.len(), 2);
    assert_eq!(refs[0].target, "valid");
    assert_eq!(refs[1].target, "also-valid");
}

#[test]
fn test_extract_references_all_types() {
    let content = "@doc/a @task/b @memory/c @decision/d @template/e";
    let refs = extract_references(content);
    assert_eq!(refs.len(), 5);
    assert_eq!(refs[0].ref_type, "doc");
    assert_eq!(refs[1].ref_type, "task");
    assert_eq!(refs[2].ref_type, "memory");
    assert_eq!(refs[3].ref_type, "decision");
    assert_eq!(refs[4].ref_type, "template");
}

#[test]
fn test_extract_references_no_refs() {
    let content = "Just plain text with no references.";
    let refs = extract_references(content);
    assert!(refs.is_empty());
}

#[test]
fn test_extract_references_empty() {
    let refs = extract_references("");
    assert!(refs.is_empty());
}

#[test]
fn test_reference_struct_fields() {
    let refs = extract_references("@doc/learnings/foo-bar");
    assert_eq!(refs.len(), 1);
    assert_eq!(refs[0].full_match, "@doc/learnings/foo-bar");
    assert_eq!(refs[0].ref_type, "doc");
    assert_eq!(refs[0].target, "learnings/foo-bar");
}

#[test]
fn email_like_text_is_not_a_reference() {
    assert!(extract_references("mail me at me@doc/x").is_empty());
    assert!(extract_references("@wiki/x").is_empty());
}

#[test]
fn sanitize_drops_dot_segments() {
    assert_eq!(sanitize_ref_target("../../etc/passwd"), "etc/passwd");
    assert_eq!(sanitize_ref_target("a/./b/../c"), "a/b/c");
    assert_eq!(sanitize_ref_target("plain"), "plain");
    assert_eq!(sanitize_ref_target("/abs"), "/abs");
}

fn reference(ty: &str, target: &str) -> wm_core::reference::Reference {
    wm_core::reference::Reference {
        ref_type: ty.to_string(),
        target: target.to_string(),
        full_match: format!("@{}/{}", ty, target),
    }
}

#[test]
fn reference_targets() {
    match reference_target(&reference("doc", "specs/auth.md")).unwrap() {
        ReferenceTarget::Page(ids) => assert_eq!(ids, vec!["specs/auth".to_string(), "specs/auth.md".to_string()]),
        other => panic!("unexpected {:?}", other),
    }
    match reference_target(&reference("task", "t1.md.md")).unwrap() {
        ReferenceTarget::Page(ids) => assert_eq!(ids, vec!["t1".to_string()]),
        other => panic!("unexpected {:?}", other),
    }
    match reference_target(&reference("memory", "../x/./y")).unwrap() {
        ReferenceTarget::Memory(name) => assert_eq!(name, "x/y"),
        other => panic!("unexpected {:?}", other),
    }
    match reference_target(&reference("template", "a/../b")).unwrap() {
        ReferenceTarget::Template(name) => assert_eq!(name, "a/b"),
        other => panic!("unexpected {:?}", other),
    }
    let err = reference_target(&reference("video", "x")).unwrap_err();
    assert_eq!(err.message, "Unknown reference type: @video. Supported: doc, task, memory, decision, template");
}

#[test]
fn reference_formats() {
    assert_eq!(format_page("T", "body"), "# T\n\nbody");
    assert_eq!(format_json_block("{}"), "```json\n{}\n```");
    assert_eq!(format_note("N", "c"), "**N**\n\nc");
}
