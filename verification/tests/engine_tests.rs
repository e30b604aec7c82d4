use wm_core::engine::{EdgeType, PageType};

#[test]
fn test_page_type_priority_rank() {
    assert_eq!(PageType::Task.priority_rank(), 7);
    assert_eq!(PageType::Spec.priority_rank(), 6);
    assert_eq!(PageType::Pattern.priority_rank(), 5);
    assert_eq!(PageType::Concept.priority_rank(), 4);
    assert_eq!(PageType::Decision.priority_rank(), 3);
    assert_eq!(PageType::Howto.priority_rank(), 2);
    assert_eq!(PageType::Reference.priority_rank(), 1);
}

#[test]
fn test_edge_type_priority() {
    assert!(EdgeType::Extends.priority() > EdgeType::RelatesTo.priority());
    assert!(EdgeType::Implements.priority() > EdgeType::References.priority());
    assert_eq!(EdgeType::DependsOn.priority(), EdgeType::RequiredBy.priority());
}

#[test]
fn custom_edges_rank_lowest() {
    assert_eq!(EdgeType::Custom("blocks".to_string()).priority(), 0);
    assert_eq!(EdgeType::Supersedes.priority(), 8);
}
