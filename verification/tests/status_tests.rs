use wm_core::status::{PageStatus, Priority};

#[test]
fn test_page_status_same_state_is_valid() {
    assert!(PageStatus::Todo.can_transition_to(&PageStatus::Todo).is_ok());
    assert!(PageStatus::Done.can_transition_to(&PageStatus::Done).is_ok());
    assert!(PageStatus::Cancelled.can_transition_to(&PageStatus::Cancelled).is_ok());
}

#[test]
fn test_draft_transitions() {
    let s = PageStatus::Draft;
    assert!(s.can_transition_to(&PageStatus::Todo).is_ok());
    assert!(s.can_transition_to(&PageStatus::Cancelled).is_ok());
    assert!(s.can_transition_to(&PageStatus::Done).is_err());
    assert!(s.can_transition_to(&PageStatus::InProgress).is_err());
}

#[test]
fn test_todo_transitions() {
    let s = PageStatus::Todo;
    assert!(s.can_transition_to(&PageStatus::InProgress).is_ok());
    assert!(s.can_transition_to(&PageStatus::Cancelled).is_ok());
    assert!(s.can_transition_to(&PageStatus::Done).is_err());
    assert!(s.can_transition_to(&PageStatus::InReview).is_err());
}

#[test]
fn test_in_progress_transitions() {
    let s = PageStatus::InProgress;
    assert!(s.can_transition_to(&PageStatus::InReview).is_ok());
    assert!(s.can_transition_to(&PageStatus::Blocked).is_ok());
    assert!(s.can_transition_to(&PageStatus::Done).is_ok());
    assert!(s.can_transition_to(&PageStatus::Cancelled).is_ok());
    assert!(s.can_transition_to(&PageStatus::Approved).is_err());
}

#[test]
fn test_in_review_transitions() {
    let s = PageStatus::InReview;
    assert!(s.can_transition_to(&PageStatus::Done).is_ok());
    assert!(s.can_transition_to(&PageStatus::InProgress).is_ok());
    assert!(s.can_transition_to(&PageStatus::Cancelled).is_ok());
    assert!(s.can_transition_to(&PageStatus::Approved).is_err());
    assert!(s.can_transition_to(&PageStatus::Todo).is_err());
}

#[test]
fn test_blocked_transitions() {
    let s = PageStatus::Blocked;
    assert!(s.can_transition_to(&PageStatus::InProgress).is_ok());
    assert!(s.can_transition_to(&PageStatus::Cancelled).is_ok());
    assert!(s.can_transition_to(&PageStatus::Done).is_err());
}

#[test]
fn test_done_transitions() {
    let s = PageStatus::Done;
    assert!(s.can_transition_to(&PageStatus::Reviewed).is_ok());
    assert!(s.can_transition_to(&PageStatus::InProgress).is_ok());
    assert!(s.can_transition_to(&PageStatus::Todo).is_ok());
    assert!(s.can_transition_to(&PageStatus::Cancelled).is_ok());
    assert!(s.can_transition_to(&PageStatus::Approved).is_err());
}

#[test]
fn test_reviewed_transitions() {
    let s = PageStatus::Reviewed;
    assert!(s.can_transition_to(&PageStatus::Approved).is_ok());
    assert!(s.can_transition_to(&PageStatus::InProgress).is_ok());
    assert!(s.can_transition_to(&PageStatus::Todo).is_ok());
    assert!(s.can_transition_to(&PageStatus::Cancelled).is_ok());
    assert!(s.can_transition_to(&PageStatus::Done).is_err());
}

#[test]
fn test_approved_transitions() {
    let s = PageStatus::Approved;
    assert!(s.can_transition_to(&PageStatus::Superseded).is_ok());
    assert!(s.can_transition_to(&PageStatus::Cancelled).is_ok());
    assert!(s.can_transition_to(&PageStatus::Done).is_err());
}

#[test]
fn test_superseded_transitions() {
    let s = PageStatus::Superseded;
    assert!(s.can_transition_to(&PageStatus::Cancelled).is_ok());
    assert!(s.can_transition_to(&PageStatus::Todo).is_err());
    assert!(s.can_transition_to(&PageStatus::Done).is_err());
}

#[test]
fn test_cancelled_reopen() {
    let s = PageStatus::Cancelled;
    assert!(s.can_transition_to(&PageStatus::Todo).is_ok());
    assert!(s.can_transition_to(&PageStatus::Done).is_err());
    assert!(s.can_transition_to(&PageStatus::InProgress).is_err());
}

#[test]
fn test_page_status_as_str() {
    assert_eq!(PageStatus::Todo.as_str(), "todo");
    assert_eq!(PageStatus::InProgress.as_str(), "in-progress");
    assert_eq!(PageStatus::InReview.as_str(), "in-review");
    assert_eq!(PageStatus::Done.as_str(), "done");
    assert_eq!(PageStatus::Blocked.as_str(), "blocked");
    assert_eq!(PageStatus::Cancelled.as_str(), "cancelled");
    assert_eq!(PageStatus::Draft.as_str(), "draft");
    assert_eq!(PageStatus::Reviewed.as_str(), "reviewed");
    assert_eq!(PageStatus::Approved.as_str(), "approved");
    assert_eq!(PageStatus::Superseded.as_str(), "superseded");
}

#[test]
fn test_priority_as_str() {
    assert_eq!(Priority::Low.as_str(), "low");
    assert_eq!(Priority::Medium.as_str(), "medium");
    assert_eq!(Priority::High.as_str(), "high");
    assert_eq!(Priority::Urgent.as_str(), "urgent");
}

#[test]
fn test_task_board_columns_count() {
    let cols = PageStatus::task_board_columns();
    assert_eq!(cols.len(), 10, "should have 10 status columns");
}

#[test]
fn transition_error_message_lists_allowed_targets() {
    let err = PageStatus::Draft.can_transition_to(&PageStatus::Done).unwrap_err();
    assert_eq!(err, "Invalid transition: draft → done. Allowed: todo, cancelled");
    let err = PageStatus::Superseded.can_transition_to(&PageStatus::Todo).unwrap_err();
    assert_eq!(err, "Invalid transition: superseded → todo. Allowed: cancelled");
}

#[test]
fn every_status_can_be_cancelled() {
    for s in PageStatus::task_board_columns() {
        assert!(s.can_transition_to(&PageStatus::Cancelled).is_ok());
        assert!(s.can_transition_to(&s).is_ok());
    }
}
