//! The task board: task pages grouped by status.
use vstd::prelude::*;
use crate::engine::{PageType, WikiPageMeta};
use crate::error::{internal_view, ToolError};
use crate::graph::from_pages::{last_index, last_with_id};
use crate::graph::PageGraph;
use crate::parser::{page_status_of, parse_page_status};
use crate::status::{transition_error, transition_ok};
use crate::status::{board_columns, priority_text, status_text, PageStatus, Priority};
use crate::text::{owned, push_str, spec_to_lowercase, to_lowercase, str_eq};
use crate::error::join_texts;
use crate::graph::{join_comma, status_key, status_key_exec, texts};

verus! {

/// A single task item for the board.
#[derive(Clone, Debug)]
pub struct TaskBoardItem {
    pub id: String,
    pub title: String,
    pub priority: String,
}

/// Task board grouped by status columns, in the order of the board's columns.
#[derive(Clone, Debug)]
pub struct TaskBoard {
    pub columns: Vec<(String, Vec<TaskBoardItem>)>,
    pub counts: Vec<(String, usize)>,
}

/// View of a board item: id, title and priority text.
pub open spec fn item_view(i: TaskBoardItem) -> (Seq<char>, Seq<char>, Seq<char>) {
    (i.id@, i.title@, i.priority@)
}

/// Priority text of a task: its own, or `medium` when it has none.
pub open spec fn task_priority(m: WikiPageMeta) -> Seq<char> {
    match m.priority {
        Some(p) => priority_text(p),
        None => priority_text(Priority::Medium),
    }
}

/// Board entry of a task page.
pub open spec fn task_entry(m: WikiPageMeta) -> (Seq<char>, Seq<char>, Seq<char>) {
    (m.id@, m.title@, task_priority(m))
}

/// The page is a task with status `s`.
pub open spec fn in_column(m: WikiPageMeta, s: PageStatus) -> bool {
    m.page_type == PageType::Task && m.status == s
}

/// Entries of the column `s`: the task pages with that status, in page order.
pub open spec fn column_entries(pages: Seq<WikiPageMeta>, s: PageStatus) -> Seq<(Seq<char>, Seq<char>, Seq<char>)>
    decreases pages.len(),
{
    if pages.len() == 0 {
        Seq::empty()
    } else {
        let rest = column_entries(pages.drop_last(), s);
        if in_column(pages.last(), s) {
            rest.push(task_entry(pages.last()))
        } else {
            rest
        }
    }
}

/// The board is built from `pages`: one column per board status, in order,
/// each holding its entries, and one count per column equal to its length.
pub open spec fn board_of(b: TaskBoard, pages: Seq<WikiPageMeta>) -> bool {
    let cols = board_columns();
    &&& b.columns@.len() == cols.len()
    &&& b.counts@.len() == cols.len()
    &&& forall|k: int|
        0 <= k < cols.len() ==> {
            &&& (#[trigger] b.columns@[k]).0@ == status_text(cols[k])
            &&& b.columns@[k].1@.map_values(|i: TaskBoardItem| item_view(i)) == column_entries(pages, cols[k])
            &&& b.counts@[k].0@ == status_text(cols[k])
            &&& b.counts@[k].1 == column_entries(pages, cols[k]).len()
        }
}

/// The entries of one column.
fn column(pages: &Vec<WikiPageMeta>, s: PageStatus) -> (res: Vec<TaskBoardItem>)
    ensures
        res@.map_values(|i: TaskBoardItem| item_view(i)) == column_entries(pages@, s),
{
    let mut out: Vec<TaskBoardItem> = Vec::new();
    let mut i: usize = 0;
    while i < pages.len()
        invariant
            i <= pages.len(),
            out@.map_values(|i: TaskBoardItem| item_view(i)) == column_entries(pages@.take(i as int), s),
        decreases pages.len() - i,
    {
        let m = &pages[i];
        proof {
            assert(pages@.take(i + 1).drop_last() == pages@.take(i as int));
            assert(pages@.take(i + 1).last() == pages@[i as int]);
        }
        if m.page_type == PageType::Task && m.status == s {
            let p = match &m.priority {
                Some(p) => p.as_str(),
                None => Priority::Medium.as_str(),
            };
            let item = TaskBoardItem { id: owned(m.id.as_str()), title: owned(m.title.as_str()), priority: owned(p) };
            let ghost before = out@;
            out.push(item);
            proof {
                assert(out@.map_values(|i: TaskBoardItem| item_view(i)) == before.map_values(
                    |i: TaskBoardItem| item_view(i),
                ).push(item_view(item)));
            }
        }
        i = i + 1;
    }
    proof {
        assert(pages@.take(pages.len() as int) == pages@);
    }
    out
}

/// Builds the task board from the pages of the wiki: every task page goes into
/// the column of its status, in page order, with its priority (medium when it
/// has none).
pub fn build_task_board(pages: &Vec<WikiPageMeta>) -> (res: TaskBoard)
    ensures
        board_of(res, pages@),
{
    let all = PageStatus::task_board_columns();
    let mut columns: Vec<(String, Vec<TaskBoardItem>)> = Vec::new();
    let mut counts: Vec<(String, usize)> = Vec::new();
    let mut k: usize = 0;
    while k < all.len()
        invariant
            k <= all.len(),
            all@ == board_columns(),
            columns@.len() == k,
            counts@.len() == k,
            forall|j: int|
                0 <= j < k ==> {
                    &&& (#[trigger] columns@[j]).0@ == status_text(all@[j])
                    &&& columns@[j].1@.map_values(|i: TaskBoardItem| item_view(i)) == column_entries(
                        pages@,
                        all@[j],
                    )
                    &&& counts@[j].0@ == status_text(all@[j])
                    &&& counts@[j].1 == column_entries(pages@, all@[j]).len()
                },
        decreases all.len() - k,
    {
        let s = all[k];
        let items = column(pages, s);
        let n = items.len();
        proof {
            assert(items@.map_values(|i: TaskBoardItem| item_view(i)).len() == n);
        }
        let ghost c0 = columns@;
        let ghost n0 = counts@;
        let ghost iv = items@.map_values(|i: TaskBoardItem| item_view(i));
        columns.push((owned(s.as_str()), items));
        counts.push((owned(s.as_str()), n));
        proof {
            assert forall|j: int| 0 <= j < k + 1 implies {
                &&& (#[trigger] columns@[j]).0@ == status_text(all@[j])
                &&& columns@[j].1@.map_values(|i: TaskBoardItem| item_view(i)) == column_entries(
                    pages@,
                    all@[j],
                )
                &&& counts@[j].0@ == status_text(all@[j])
                &&& counts@[j].1 == column_entries(pages@, all@[j]).len()
            } by {
                if j < k {
                    assert(columns@[j] == c0[j]);
                    assert(counts@[j] == n0[j]);
                } else {
                    assert(columns@[j].1@.map_values(|i: TaskBoardItem| item_view(i)) == iv);
                }
            }
        }
        k = k + 1;
    }
    TaskBoard { columns, counts }
}

// ─── Board laws ─────────────────────────────────────────────

/// Number of task pages.
pub open spec fn task_count(pages: Seq<WikiPageMeta>) -> nat
    decreases pages.len(),
{
    if pages.len() == 0 {
        0
    } else {
        task_count(pages.drop_last()) + if pages.last().page_type == PageType::Task { 1nat } else { 0nat }
    }
}

/// Total number of entries in the columns `cols`.
pub open spec fn entries_in(pages: Seq<WikiPageMeta>, cols: Seq<PageStatus>) -> nat
    decreases cols.len(),
{
    if cols.len() == 0 {
        0
    } else {
        entries_in(pages, cols.drop_last()) + column_entries(pages, cols.last()).len()
    }
}

/// Number of columns among `cols` that a page belongs to.
pub open spec fn columns_of(m: WikiPageMeta, cols: Seq<PageStatus>) -> nat
    decreases cols.len(),
{
    if cols.len() == 0 {
        0
    } else {
        columns_of(m, cols.drop_last()) + if in_column(m, cols.last()) { 1nat } else { 0nat }
    }
}

proof fn lemma_entries_in_push(pages: Seq<WikiPageMeta>, m: WikiPageMeta, cols: Seq<PageStatus>)
    ensures
        entries_in(pages.push(m), cols) == entries_in(pages, cols) + columns_of(m, cols),
    decreases cols.len(),
{
    if cols.len() > 0 {
        lemma_entries_in_push(pages, m, cols.drop_last());
        assert(pages.push(m).drop_last() == pages);
    }
}

proof fn lemma_columns_of_distinct(m: WikiPageMeta, cols: Seq<PageStatus>)
    requires
        forall|i: int, j: int| 0 <= i < j < cols.len() ==> cols[i] != cols[j],
    ensures
        columns_of(m, cols) == (if m.page_type == PageType::Task && cols.contains(m.status) { 1nat } else { 0nat }),
    decreases cols.len(),
{
    if cols.len() > 0 {
        let init = cols.drop_last();
        assert forall|i: int, j: int| 0 <= i < j < init.len() implies init[i] != init[j] by {
            assert(init[i] == cols[i] && init[j] == cols[j]);
        }
        lemma_columns_of_distinct(m, init);
        if init.contains(m.status) {
            let w = choose|w: int| 0 <= w < init.len() && init[w] == m.status;
            assert(cols[w] == m.status);
            assert(cols.last() != m.status);
            assert(cols.contains(m.status));
        } else if cols.last() == m.status {
            assert(cols.contains(m.status));
        } else {
            assert(!cols.contains(m.status)) by {
                if cols.contains(m.status) {
                    let w = choose|w: int| 0 <= w < cols.len() && cols[w] == m.status;
                    if w < init.len() {
                        assert(init[w] == m.status);
                    }
                }
            }
        }
    } else {
        assert(!cols.contains(m.status));
    }
}

/// Every task page is on the board exactly once: the columns together hold as
/// many entries as there are task pages.
pub proof fn lemma_board_holds_every_task_once(pages: Seq<WikiPageMeta>)
    ensures
        entries_in(pages, board_columns()) == task_count(pages),
    decreases pages.len(),
{
    let cols = board_columns();
    if pages.len() == 0 {
        assert(entries_in(pages, cols) == 0) by {
            lemma_entries_in_empty(pages, cols);
        }
    } else {
        let init = pages.drop_last();
        let m = pages.last();
        lemma_board_holds_every_task_once(init);
        assert(init.push(m) == pages);
        lemma_entries_in_push(init, m, cols);
        crate::status::lemma_board_columns_cover_all(m.status);
        lemma_columns_of_distinct(m, cols);
    }
}

proof fn lemma_entries_in_empty(pages: Seq<WikiPageMeta>, cols: Seq<PageStatus>)
    requires
        pages.len() == 0,
    ensures
        entries_in(pages, cols) == 0,
    decreases cols.len(),
{
    if cols.len() > 0 {
        lemma_entries_in_empty(pages, cols.drop_last());
    }
}

// ─── Creating a task ────────────────────────────────────────

/// The front-matter line of one acceptance criterion, unchecked.
pub open spec fn criterion_line(text: Seq<char>) -> Seq<char> {
    "  - {text: \""@ + text + "\", checked: false}\n"@
}

/// The front-matter lines of the acceptance criteria, in order.
pub open spec fn criteria_lines(list: Seq<Seq<char>>) -> Seq<char>
    decreases list.len(),
{
    if list.len() == 0 {
        Seq::empty()
    } else {
        criteria_lines(list.drop_last()) + criterion_line(list.last())
    }
}

/// The front matter of a new task: title, type, status (`todo` when none is
/// given), priority (`medium` when none is given), then the tags, the
/// unchecked acceptance criteria and the assignee where there are any.
pub open spec fn task_front_matter(
    title: Seq<char>,
    status: Option<Seq<char>>,
    priority: Option<Seq<char>>,
    tags: Seq<Seq<char>>,
    criteria: Seq<Seq<char>>,
    assignee: Option<Seq<char>>,
) -> Seq<char> {
    let st = match status { Some(s) => s, None => "todo"@ };
    let pr = match priority { Some(p) => p, None => "medium"@ };
    "title: "@ + title + "\ntype: task\nstatus: "@ + st + "\npriority: "@ + pr + "\n"@
        + (if tags.len() > 0 { "tags: ["@ + join_texts(tags, ", "@) + "]\n"@ } else { Seq::empty() })
        + (if criteria.len() > 0 { "acceptance_criteria:\n"@ + criteria_lines(criteria) } else { Seq::empty() })
        + (match assignee { Some(a) => "assignee: "@ + a + "\n"@, None => Seq::empty() })
}

/// Optional text as a view.
pub open spec fn opt_text(o: Option<&str>) -> Option<Seq<char>> {
    match o {
        Some(s) => Some(s@),
        None => None,
    }
}

/// Builds the front matter of a new task page.
#[verifier::rlimit(60)]
pub fn task_front_matter_text(
    title: &str,
    status: Option<&str>,
    priority: Option<&str>,
    tags: &Vec<String>,
    criteria: &Vec<String>,
    assignee: Option<&str>,
) -> (res: String)
    ensures
        res@ == task_front_matter(title@, opt_text(status), opt_text(priority), texts(tags@), texts(criteria@), opt_text(assignee)),
{
    let mut fm = owned("title: ");
    push_str(&mut fm, title);
    push_str(&mut fm, "\ntype: task\nstatus: ");
    match status {
        Some(s) => push_str(&mut fm, s),
        None => push_str(&mut fm, "todo"),
    }
    push_str(&mut fm, "\npriority: ");
    match priority {
        Some(p) => push_str(&mut fm, p),
        None => push_str(&mut fm, "medium"),
    }
    push_str(&mut fm, "\n");
    let ghost head = fm@;
    if tags.len() > 0 {
        push_str(&mut fm, "tags: [");
        let joined = join_comma(tags);
        push_str(&mut fm, joined.as_str());
        push_str(&mut fm, "]\n");
    }
    let ghost with_tags = fm@;
    if criteria.len() > 0 {
        push_str(&mut fm, "acceptance_criteria:\n");
        let ghost base = fm@;
        let ghost cs = texts(criteria@);
        let mut i: usize = 0;
        proof {
            assert(cs.take(0) =~= Seq::<Seq<char>>::empty());
            assert(fm@ =~= base + criteria_lines(cs.take(0)));
        }
        while i < criteria.len()
            invariant
                i <= criteria@.len(),
                cs == texts(criteria@),
                fm@ == base + criteria_lines(cs.take(i as int)),
            decreases criteria.len() - i,
        {
            push_str(&mut fm, "  - {text: \"");
            push_str(&mut fm, criteria[i].as_str());
            push_str(&mut fm, "\", checked: false}\n");
            proof {
                assert(cs.take(i + 1).drop_last() =~= cs.take(i as int));
                assert(cs.take(i + 1).last() == criteria@[i as int]@);
            }
            i = i + 1;
        }
        proof {
            assert(cs.take(criteria@.len() as int) =~= cs);
        }
    }
    let ghost with_criteria = fm@;
    match assignee {
        Some(a) => {
            push_str(&mut fm, "assignee: ");
            push_str(&mut fm, a);
            push_str(&mut fm, "\n");
        },
        None => {},
    }
    proof {
        assert(texts(tags@).len() == tags@.len());
        assert(texts(criteria@).len() == criteria@.len());
    }
    fm
}

// ─── Listing tasks ──────────────────────────────────────────

/// The page is a task that passes the filters: its status, by lower-cased
/// variant name, is the status asked for, and one of its tags is the label
/// asked for, both compared in lower case.
pub open spec fn task_selected(m: WikiPageMeta, status: Option<Seq<char>>, label: Option<Seq<char>>) -> bool {
    &&& m.page_type == PageType::Task
    &&& status matches Some(s) ==> status_key(m.status) == spec_to_lowercase(s)
    &&& label matches Some(l) ==> exists|t: int|
        0 <= t < m.tags@.len() && spec_to_lowercase((#[trigger] m.tags@[t])@) == spec_to_lowercase(l)
}

/// Positions of the selected tasks among `pages`, in order.
pub open spec fn selected_tasks(pages: Seq<WikiPageMeta>, status: Option<Seq<char>>, label: Option<Seq<char>>) -> Seq<int>
    decreases pages.len(),
{
    if pages.len() == 0 {
        Seq::empty()
    } else {
        selected_tasks(pages.drop_last(), status, label) + if task_selected(pages.last(), status, label) {
            seq![pages.len() - 1]
        } else {
            Seq::empty()
        }
    }
}

/// How many tasks a listing with limit `limit` returns at most: the limit,
/// and one when the limit is zero.
pub open spec fn listing_cap(limit: int) -> int {
    if limit == 0 { 1 } else { limit }
}

/// Optional owned text as a view.
pub open spec fn opt_string(o: Option<String>) -> Option<Seq<char>> {
    match o {
        Some(s) => Some(s@),
        None => None,
    }
}

/// Whether the page is a task that passes the filters.
fn task_selected_exec(m: &WikiPageMeta, status: &Option<String>, label: &Option<String>) -> (r: bool)
    ensures
        r == task_selected(*m, opt_string(*status), opt_string(*label)),
{
    if !matches!(m.page_type, PageType::Task) {
        return false;
    }
    match status {
        Some(s) => {
            let want = to_lowercase(s.as_str());
            if !str_eq(status_key_exec(m.status), want.as_str()) {
                return false;
            }
        },
        None => {},
    }
    match label {
        Some(l) => {
            let want = to_lowercase(l.as_str());
            let mut t: usize = 0;
            while t < m.tags.len()
                invariant
                    t <= m.tags@.len(),
                    m.page_type == PageType::Task,
                    *label == Some(*l),
                    opt_string(*status) matches Some(x) ==> status_key(m.status) == spec_to_lowercase(x),
                    want@ == spec_to_lowercase(l@),
                    forall|q: int| 0 <= q < t ==> spec_to_lowercase((#[trigger] m.tags@[q])@) != want@,
                decreases m.tags.len() - t,
            {
                let tag = to_lowercase(m.tags[t].as_str());
                if str_eq(tag.as_str(), want.as_str()) {
                    proof {
                        assert(spec_to_lowercase(m.tags@[t as int]@) == spec_to_lowercase(l@));
                    }
                    return true;
                }
                t = t + 1;
            }
            false
        },
        None => true,
    }
}

/// Lists tasks: the positions of the task pages that pass the status and
/// label filters, in page order, stopping once `limit` are found (one when
/// the limit is zero).
pub fn list_tasks(pages: &Vec<WikiPageMeta>, status: Option<String>, label: Option<String>, limit: usize) -> (res: Vec<usize>)
    ensures
        ({
            let sel = selected_tasks(pages@, opt_string(status), opt_string(label));
            &&& res@.len() == if sel.len() < listing_cap(limit as int) { sel.len() as int } else { listing_cap(limit as int) }
            &&& forall|i: int| 0 <= i < res@.len() ==> res@[i] as int == #[trigger] sel[i]
        }),
{
    let ghost st = opt_string(status);
    let ghost lb = opt_string(label);
    let mut out: Vec<usize> = Vec::new();
    let mut i: usize = 0;
    proof {
        assert(pages@.take(0) =~= Seq::<WikiPageMeta>::empty());
    }
    while i < pages.len()
        invariant
            i <= pages@.len(),
            st == (opt_string(status)),
            lb == (opt_string(label)),
            out@.len() == selected_tasks(pages@.take(i as int), st, lb).len(),
            out@.len() < listing_cap(limit as int),
            forall|k: int| 0 <= k < out@.len() ==> out@[k] as int == #[trigger] selected_tasks(pages@.take(i as int), st, lb)[k],
        decreases pages.len() - i,
    {
        let keep = task_selected_exec(&pages[i], &status, &label);
        proof {
            assert(pages@.take(i + 1).drop_last() =~= pages@.take(i as int));
            assert(pages@.take(i + 1).last() == pages@[i as int]);
            assert(pages@.take(i + 1).len() == i + 1);
        }
        if keep {
            out.push(i);
            proof {
                let prev = selected_tasks(pages@.take(i as int), st, lb);
                assert(selected_tasks(pages@.take(i + 1), st, lb) == prev + seq![i as int]);
            }
            if out.len() >= limit {
                proof {
                    lemma_selected_prefix(pages@, st, lb, i + 1);
                }
                return out;
            }
        }
        i = i + 1;
    }
    proof {
        assert(pages@.take(pages@.len() as int) =~= pages@);
    }
    out
}

/// The selections of a prefix of the pages begin the selection of all pages.
proof fn lemma_selected_prefix(pages: Seq<WikiPageMeta>, st: Option<Seq<char>>, lb: Option<Seq<char>>, i: int)
    requires
        0 <= i <= pages.len(),
    ensures
        selected_tasks(pages.take(i), st, lb).len() <= selected_tasks(pages, st, lb).len(),
        forall|k: int|
            0 <= k < selected_tasks(pages.take(i), st, lb).len() ==> #[trigger] selected_tasks(pages, st, lb)[k]
                == selected_tasks(pages.take(i), st, lb)[k],
    decreases pages.len() - i,
{
    if i < pages.len() {
        lemma_selected_prefix(pages, st, lb, i + 1);
        assert(pages.take(i + 1).drop_last() =~= pages.take(i));
        let a = selected_tasks(pages.take(i), st, lb);
        let b = selected_tasks(pages.take(i + 1), st, lb);
        assert forall|k: int| 0 <= k < a.len() implies b[k] == a[k] by {}
    } else {
        assert(pages.take(i) =~= pages);
    }
}

// ─── Task updates ───────────────────────────────────────────

/// Checks a task update before it is written: the node of the last page with
/// the id (the wiki's index keeps the last page of an id), `task not found`
/// when there is none or it is no task, and the status table's refusal when
/// the new status, read as the page parser reads it, cannot follow the
/// current one.
pub fn check_task_update(graph: &PageGraph, id: &str, status: Option<&str>) -> (res: Result<usize, ToolError>)
    ensures
        match last_with_id(graph.nodes_view(), id@) {
            None => res matches Err(e) && e.code@ == "NOT_FOUND"@ && e.message@ == "task"@ + " not found: "@ + id@,
            Some(k) => if graph.nodes_view()[k].page_type != PageType::Task {
                res matches Err(e) && e.code@ == "NOT_FOUND"@ && e.message@ == "task"@ + " not found: "@ + id@
            } else {
                match status {
                    None => res == Ok::<usize, ToolError>(k as usize),
                    Some(s) => if transition_ok(graph.nodes_view()[k].status, page_status_of(spec_to_lowercase(s@))) {
                        res == Ok::<usize, ToolError>(k as usize)
                    } else {
                        res matches Err(e) && e@ == internal_view(
                            transition_error(graph.nodes_view()[k].status, page_status_of(spec_to_lowercase(s@))),
                        )
                    },
                }
            },
        },
{
    proof {
        use_type_invariant(graph);
    }
    let k = match last_index(graph, id) {
        Some(k) => k,
        None => return Err(ToolError::not_found("task", id)),
    };
    let meta = graph.node(k);
    if !matches!(meta.page_type, PageType::Task) {
        return Err(ToolError::not_found("task", id));
    }
    match status {
        None => Ok(k),
        Some(s) => {
            let to = parse_page_status(s);
            match meta.status.can_transition_to(&to) {
                Ok(()) => Ok(k),
                Err(msg) => Err(ToolError::internal(msg.as_str())),
            }
        },
    }
}

} // verus!

