//! Page lifecycle statuses, priorities and confidence levels.
use vstd::prelude::*;
use crate::text::{owned, push_str};

verus! {

/// Lifecycle status of a wiki page.
#[derive(Clone, Copy, Debug, PartialEq, Eq, Structural)]
pub enum PageStatus {
    Todo,
    InProgress,
    InReview,
    Done,
    Blocked,
    Cancelled,
    Draft,
    Reviewed,
    Superseded,
    Approved,
}

/// Canonical kebab-case text of a status.
pub open spec fn status_text(s: PageStatus) -> Seq<char> {
    match s {
        PageStatus::Todo => "todo"@,
        PageStatus::InProgress => "in-progress"@,
        PageStatus::InReview => "in-review"@,
        PageStatus::Done => "done"@,
        PageStatus::Blocked => "blocked"@,
        PageStatus::Cancelled => "cancelled"@,
        PageStatus::Draft => "draft"@,
        PageStatus::Reviewed => "reviewed"@,
        PageStatus::Superseded => "superseded"@,
        PageStatus::Approved => "approved"@,
    }
}

/// The statuses a page may move to from `s`, in the order they are reported.
pub open spec fn allowed_targets(s: PageStatus) -> Seq<PageStatus> {
    match s {
        PageStatus::Draft => seq![PageStatus::Todo, PageStatus::Cancelled],
        PageStatus::Todo => seq![PageStatus::InProgress, PageStatus::Cancelled],
        PageStatus::InProgress => seq![
            PageStatus::InReview,
            PageStatus::Blocked,
            PageStatus::Done,
            PageStatus::Cancelled,
        ],
        PageStatus::InReview => seq![PageStatus::Done, PageStatus::InProgress, PageStatus::Cancelled],
        PageStatus::Blocked => seq![PageStatus::InProgress, PageStatus::Cancelled],
        PageStatus::Done => seq![
            PageStatus::Reviewed,
            PageStatus::InProgress,
            PageStatus::Todo,
            PageStatus::Cancelled,
        ],
        PageStatus::Reviewed => seq![
            PageStatus::Approved,
            PageStatus::InProgress,
            PageStatus::Todo,
            PageStatus::Cancelled,
        ],
        PageStatus::Approved => seq![PageStatus::Superseded, PageStatus::Cancelled],
        PageStatus::Superseded => seq![PageStatus::Cancelled],
        PageStatus::Cancelled => seq![PageStatus::Todo],
    }
}

/// A move from `from` to `to` is valid when it stays put or goes to an allowed target.
pub open spec fn transition_ok(from: PageStatus, to: PageStatus) -> bool {
    from == to || allowed_targets(from).contains(to)
}

/// Texts of `list` joined by `sep`.
pub open spec fn join_status_texts(list: Seq<PageStatus>, sep: Seq<char>) -> Seq<char>
    decreases list.len(),
{
    if list.len() == 0 {
        Seq::empty()
    } else if list.len() == 1 {
        status_text(list[0])
    } else {
        join_status_texts(list.drop_last(), sep) + sep + status_text(list.last())
    }
}

/// The message explaining a refused transition.
pub open spec fn transition_error(from: PageStatus, to: PageStatus) -> Seq<char> {
    "Invalid transition: "@ + status_text(from) + " → "@ + status_text(to) + ". Allowed: "@
        + join_status_texts(allowed_targets(from), ", "@)
}

/// The ten task-board columns in display order.
pub open spec fn board_columns() -> Seq<PageStatus> {
    seq![
        PageStatus::Draft,
        PageStatus::Todo,
        PageStatus::InProgress,
        PageStatus::InReview,
        PageStatus::Blocked,
        PageStatus::Done,
        PageStatus::Reviewed,
        PageStatus::Approved,
        PageStatus::Superseded,
        PageStatus::Cancelled,
    ]
}

fn allowed_list(s: PageStatus) -> (res: Vec<PageStatus>)
    ensures
        res@ == allowed_targets(s),
{
    match s {
        PageStatus::Draft => vec![PageStatus::Todo, PageStatus::Cancelled],
        PageStatus::Todo => vec![PageStatus::InProgress, PageStatus::Cancelled],
        PageStatus::InProgress => vec![
            PageStatus::InReview,
            PageStatus::Blocked,
            PageStatus::Done,
            PageStatus::Cancelled,
        ],
        PageStatus::InReview => vec![PageStatus::Done, PageStatus::InProgress, PageStatus::Cancelled],
        PageStatus::Blocked => vec![PageStatus::InProgress, PageStatus::Cancelled],
        PageStatus::Done => vec![
            PageStatus::Reviewed,
            PageStatus::InProgress,
            PageStatus::Todo,
            PageStatus::Cancelled,
        ],
        PageStatus::Reviewed => vec![
            PageStatus::Approved,
            PageStatus::InProgress,
            PageStatus::Todo,
            PageStatus::Cancelled,
        ],
        PageStatus::Approved => vec![PageStatus::Superseded, PageStatus::Cancelled],
        PageStatus::Superseded => vec![PageStatus::Cancelled],
        PageStatus::Cancelled => vec![PageStatus::Todo],
    }
}

impl PageStatus {
    /// Return the canonical string representation (kebab-case).
    pub fn as_str(&self) -> (res: &'static str)
        ensures
            res@ == status_text(*self),
    {
        match self {
            PageStatus::Todo => "todo",
            PageStatus::InProgress => "in-progress",
            PageStatus::InReview => "in-review",
            PageStatus::Done => "done",
            PageStatus::Blocked => "blocked",
            PageStatus::Cancelled => "cancelled",
            PageStatus::Draft => "draft",
            PageStatus::Reviewed => "reviewed",
            PageStatus::Superseded => "superseded",
            PageStatus::Approved => "approved",
        }
    }

    /// Check if a transition from `self` to `to` is valid.
    /// Returns Ok(()) if valid, Err with a message explaining why not.
    pub fn can_transition_to(&self, to: &PageStatus) -> (res: Result<(), String>)
        ensures
            res is Ok <==> transition_ok(*self, *to),
            res matches Err(msg) ==> msg@ == transition_error(*self, *to),
    {
        if *self == *to {
            return Ok(());
        }
        let allowed = allowed_list(*self);
        let mut i: usize = 0;
        while i < allowed.len()
            invariant
                allowed@ == allowed_targets(*self),
                i <= allowed.len(),
                forall|j: int| 0 <= j < i ==> allowed@[j] != *to,
            decreases allowed.len() - i,
        {
            if allowed[i] == *to {
                return Ok(());
            }
            i = i + 1;
        }
        let mut msg = owned("Invalid transition: ");
        push_str(&mut msg, self.as_str());
        push_str(&mut msg, " → ");
        push_str(&mut msg, to.as_str());
        push_str(&mut msg, ". Allowed: ");
        let mut k: usize = 0;
        while k < allowed.len()
            invariant
                allowed@ == allowed_targets(*self),
                k <= allowed.len(),
                msg@ == "Invalid transition: "@ + status_text(*self) + " → "@ + status_text(*to)
                    + ". Allowed: "@ + join_status_texts(allowed@.take(k as int), ", "@),
            decreases allowed.len() - k,
        {
            if k > 0 {
                push_str(&mut msg, ", ");
            }
            push_str(&mut msg, allowed[k].as_str());
            proof {
                assert(allowed@.take(k + 1).drop_last() == allowed@.take(k as int));
            }
            k = k + 1;
        }
        proof {
            assert(allowed@.take(allowed.len() as int) == allowed@);
        }
        Err(msg)
    }

    /// Return all statuses that should appear as task board columns.
    pub fn task_board_columns() -> (res: Vec<PageStatus>)
        ensures
            res@ == board_columns(),
    {
        vec![
            PageStatus::Draft,
            PageStatus::Todo,
            PageStatus::InProgress,
            PageStatus::InReview,
            PageStatus::Blocked,
            PageStatus::Done,
            PageStatus::Reviewed,
            PageStatus::Approved,
            PageStatus::Superseded,
            PageStatus::Cancelled,
        ]
    }
}

/// Every status may stay where it is.
pub proof fn lemma_transition_reflexive(s: PageStatus)
    ensures
        transition_ok(s, s),
{
}

/// A cancelled page can only stay cancelled or be reopened as a todo.
pub proof fn lemma_cancelled_reopens_to_todo_only(to: PageStatus)
    ensures
        transition_ok(PageStatus::Cancelled, to) <==> (to == PageStatus::Cancelled || to == PageStatus::Todo),
{
    let a = allowed_targets(PageStatus::Cancelled);
    assert(a.len() == 1 && a[0] == PageStatus::Todo);
    if a.contains(to) {
        let i = choose|i: int| 0 <= i < a.len() && a[i] == to;
        assert(i == 0);
    }
}

/// From approved a page may only stay approved, become superseded or be
/// cancelled.
pub proof fn law_approved_moves(to: PageStatus)
    ensures
        transition_ok(PageStatus::Approved, to) <==> (to == PageStatus::Approved || to == PageStatus::Superseded
            || to == PageStatus::Cancelled),
{
    let a = allowed_targets(PageStatus::Approved);
    assert(a.len() == 2 && a[0] == PageStatus::Superseded && a[1] == PageStatus::Cancelled);
    if a.contains(to) {
        let i = choose|i: int| 0 <= i < a.len() && a[i] == to;
        assert(i == 0 || i == 1);
    }
}

/// The status table: a page may always stay where it is, and may otherwise
/// move only as listed here.
pub proof fn law_transition_table(from: PageStatus, to: PageStatus)
    ensures
        from == PageStatus::Draft ==> (transition_ok(from, to) <==> (to == PageStatus::Draft || to == PageStatus::Todo || to == PageStatus::Cancelled)),
        from == PageStatus::Todo ==> (transition_ok(from, to) <==> (to == PageStatus::Todo || to == PageStatus::InProgress || to == PageStatus::Cancelled)),
        from == PageStatus::InProgress ==> (transition_ok(from, to) <==> (to == PageStatus::InProgress || to == PageStatus::InReview || to == PageStatus::Blocked || to == PageStatus::Done || to == PageStatus::Cancelled)),
        from == PageStatus::InReview ==> (transition_ok(from, to) <==> (to == PageStatus::InReview || to == PageStatus::Done || to == PageStatus::InProgress || to == PageStatus::Cancelled)),
        from == PageStatus::Blocked ==> (transition_ok(from, to) <==> (to == PageStatus::Blocked || to == PageStatus::InProgress || to == PageStatus::Cancelled)),
        from == PageStatus::Done ==> (transition_ok(from, to) <==> (to == PageStatus::Done || to == PageStatus::Reviewed || to == PageStatus::InProgress || to == PageStatus::Todo || to == PageStatus::Cancelled)),
        from == PageStatus::Reviewed ==> (transition_ok(from, to) <==> (to == PageStatus::Reviewed || to == PageStatus::Approved || to == PageStatus::InProgress || to == PageStatus::Todo || to == PageStatus::Cancelled)),
        from == PageStatus::Approved ==> (transition_ok(from, to) <==> (to == PageStatus::Approved || to == PageStatus::Superseded || to == PageStatus::Cancelled)),
        from == PageStatus::Superseded ==> (transition_ok(from, to) <==> (to == PageStatus::Superseded || to == PageStatus::Cancelled)),
        from == PageStatus::Cancelled ==> (transition_ok(from, to) <==> (to == PageStatus::Cancelled || to == PageStatus::Todo)),
{
    let a = allowed_targets(from);
    if a.contains(to) {
        let i = choose|i: int| 0 <= i < a.len() && a[i] == to;
    }
    match from {
        PageStatus::Draft => { if to == PageStatus::Todo { assert(a[0] == to); } if to == PageStatus::Cancelled { assert(a[1] == to); } },
        PageStatus::Todo => { if to == PageStatus::InProgress { assert(a[0] == to); } if to == PageStatus::Cancelled { assert(a[1] == to); } },
        PageStatus::InProgress => { if to == PageStatus::InReview { assert(a[0] == to); } if to == PageStatus::Blocked { assert(a[1] == to); } if to == PageStatus::Done { assert(a[2] == to); } if to == PageStatus::Cancelled { assert(a[3] == to); } },
        PageStatus::InReview => { if to == PageStatus::Done { assert(a[0] == to); } if to == PageStatus::InProgress { assert(a[1] == to); } if to == PageStatus::Cancelled { assert(a[2] == to); } },
        PageStatus::Blocked => { if to == PageStatus::InProgress { assert(a[0] == to); } if to == PageStatus::Cancelled { assert(a[1] == to); } },
        PageStatus::Done => { if to == PageStatus::Reviewed { assert(a[0] == to); } if to == PageStatus::InProgress { assert(a[1] == to); } if to == PageStatus::Todo { assert(a[2] == to); } if to == PageStatus::Cancelled { assert(a[3] == to); } },
        PageStatus::Reviewed => { if to == PageStatus::Approved { assert(a[0] == to); } if to == PageStatus::InProgress { assert(a[1] == to); } if to == PageStatus::Todo { assert(a[2] == to); } if to == PageStatus::Cancelled { assert(a[3] == to); } },
        PageStatus::Approved => { if to == PageStatus::Superseded { assert(a[0] == to); } if to == PageStatus::Cancelled { assert(a[1] == to); } },
        PageStatus::Superseded => { if to == PageStatus::Cancelled { assert(a[0] == to); } },
        PageStatus::Cancelled => { if to == PageStatus::Todo { assert(a[0] == to); } },
    }
}

/// Every status other than cancelled may be cancelled.
pub proof fn lemma_cancel_always_allowed(s: PageStatus)
    ensures
        transition_ok(s, PageStatus::Cancelled),
{
    match s {
        PageStatus::Cancelled => {},
        _ => {
            let a = allowed_targets(s);
            assert(a[a.len() - 1] == PageStatus::Cancelled);
        },
    }
}

/// Every board column is a distinct status and every status has a column.
pub proof fn lemma_board_columns_cover_all(s: PageStatus)
    ensures
        board_columns().contains(s),
        board_columns().len() == 10,
        forall|i: int, j: int| 0 <= i < j < 10 ==> board_columns()[i] != board_columns()[j],
{
    let c = board_columns();
    match s {
        PageStatus::Draft => assert(c[0] == s),
        PageStatus::Todo => assert(c[1] == s),
        PageStatus::InProgress => assert(c[2] == s),
        PageStatus::InReview => assert(c[3] == s),
        PageStatus::Blocked => assert(c[4] == s),
        PageStatus::Done => assert(c[5] == s),
        PageStatus::Reviewed => assert(c[6] == s),
        PageStatus::Approved => assert(c[7] == s),
        PageStatus::Superseded => assert(c[8] == s),
        PageStatus::Cancelled => assert(c[9] == s),
    }
}

// ─── Priorities & Confidence ────────────────────────────────

/// Task priority.
#[derive(Clone, Copy, Debug, PartialEq, Eq, Structural)]
pub enum Priority {
    Low,
    Medium,
    High,
    Urgent,
}

/// Canonical text of a priority.
pub open spec fn priority_text(p: Priority) -> Seq<char> {
    match p {
        Priority::Low => "low"@,
        Priority::Medium => "medium"@,
        Priority::High => "high"@,
        Priority::Urgent => "urgent"@,
    }
}

impl Priority {
    /// Return the canonical string representation.
    pub fn as_str(&self) -> (res: &'static str)
        ensures
            res@ == priority_text(*self),
    {
        match self {
            Priority::Low => "low",
            Priority::Medium => "medium",
            Priority::High => "high",
            Priority::Urgent => "urgent",
        }
    }
}

/// Confidence level of a page's content.
#[derive(Clone, Copy, Debug, PartialEq, Eq, Structural)]
pub enum Confidence {
    High,
    Medium,
    Low,
}

} // verus!
