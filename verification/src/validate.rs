//! Health checks of the wiki: page completeness, broken references between
//! pages, orphan pages, and the coverage of specs by tasks.
use vstd::prelude::*;
use crate::engine::{PageStatus, PageType, SourceEntry, SourceState};
use crate::parser::{bytes_content_hash, hex_of, spec_sha256};
use crate::graph::PageGraph;
use crate::graph::walks::{has_cycle, page_graph_is_cyclic};
use crate::search::strings_view;
use crate::text::{
    index_of_char, lemma_index_of_char_unique, owned, push_str, replace_char, replace_char_vec,
    starts_with, starts_with_exec, string_of, string_of_all, to_chars,
};

verus! {

/// One finding of a check: the page, the field concerned, a message, and for
/// a broken reference the target as written and as normalised.
pub struct Finding {
    pub id: String,
    pub field: String,
    pub message: String,
    pub reference: Option<(String, String)>,
}

/// A finding as text.
pub type FindingText = (Seq<char>, Seq<char>, Seq<char>, Option<(Seq<char>, Seq<char>)>);

/// The text of a finding.
pub open spec fn finding_view(f: Finding) -> FindingText {
    (
        f.id@,
        f.field@,
        f.message@,
        match f.reference {
            Some(r) => Some((r.0@, r.1@)),
            None => None,
        },
    )
}

/// The texts of findings.
pub open spec fn findings_view(v: Seq<Finding>) -> Seq<FindingText> {
    v.map_values(|f: Finding| finding_view(f))
}

/// A finding without a reference.
pub open spec fn note(id: Seq<char>, field: Seq<char>, message: Seq<char>) -> FindingText {
    (id, field, message, None)
}

/// `note(..)` when `cond` holds, else nothing.
pub open spec fn note_if(cond: bool, id: Seq<char>, field: Seq<char>, message: Seq<char>) -> Seq<FindingText> {
    if cond {
        seq![note(id, field, message)]
    } else {
        Seq::empty()
    }
}

fn add_note(out: &mut Vec<Finding>, id: &str, field: &str, message: &str)
    ensures
        findings_view(final(out)@) == findings_view(old(out)@).push(note(id@, field@, message@)),
{
    let ghost before = out@;
    out.push(Finding { id: owned(id), field: owned(field), message: owned(message), reference: None });
    proof {
        assert(findings_view(out@) =~= findings_view(before).push(note(id@, field@, message@)));
    }
}

// ─── References ─────────────────────────────────────────────

/// Some page of the graph has the id `s`.
pub open spec fn has_page_id(g: PageGraph, s: Seq<char>) -> bool {
    exists|j: int| 0 <= j < g.nodes_view().len() && (#[trigger] g.nodes_view()[j]).id@ == s
}

/// Target of a typed reference `type:target`: the text after the first `:`.
pub open spec fn ref_target(rel: Seq<char>) -> Option<Seq<char>> {
    let i = index_of_char(rel, ':');
    if i < rel.len() {
        Some(rel.skip(i as int + 1))
    } else {
        None
    }
}

/// A reference target as a page id: `wiki:concepts:auth` becomes
/// `concepts/auth`; a target without `wiki:` stays as it is.
pub open spec fn normalized_ref(t: Seq<char>) -> Seq<char> {
    if starts_with(t, "wiki:"@) {
        replace_char(t.skip(5), ':', '/')
    } else {
        t
    }
}

/// The message for a broken reference.
pub open spec fn broken_message(t: Seq<char>, nm: Seq<char>) -> Seq<char> {
    "Broken wiki ref: '"@ + t + "' — page '"@ + nm + "' not found"@
}

/// The finding, if any, for one reference of page `id`: its target names no
/// page, neither as written nor normalised.
pub open spec fn ref_finding(g: PageGraph, id: Seq<char>, rel: Seq<char>) -> Seq<FindingText> {
    match ref_target(rel) {
        Some(t) => {
            let nm = normalized_ref(t);
            if !has_page_id(g, nm) && !has_page_id(g, t) {
                seq![(id, "relates_to"@, broken_message(t, nm), Some((t, nm)))]
            } else {
                Seq::empty()
            }
        },
        None => Seq::empty(),
    }
}

/// The findings for the references `rels` of page `id`, in order.
pub open spec fn ref_findings(g: PageGraph, id: Seq<char>, rels: Seq<Seq<char>>) -> Seq<FindingText>
    decreases rels.len(),
{
    if rels.len() == 0 {
        Seq::empty()
    } else {
        ref_findings(g, id, rels.drop_last()) + ref_finding(g, id, rels.last())
    }
}

/// Whether a page has the id `s`.
fn has_page_id_exec(g: &PageGraph, s: &str) -> (r: bool)
    requires
        g.wf(),
    ensures
        r == has_page_id(*g, s@),
{
    match g.index_of(s) {
        Some(i) => {
            assert(g.nodes_view()[i as int].id@ == s@);
            true
        },
        None => false,
    }
}

/// The target of a typed reference.
fn ref_target_exec(rel: &str) -> (r: Option<String>)
    ensures
        r matches Some(t) ==> ref_target(rel@) == Some(t@),
        r is None ==> ref_target(rel@) is None,
{
    let v = to_chars(rel);
    let mut i: usize = 0;
    while i < v.len() && v[i] != ':'
        invariant
            v@ == rel@,
            i <= v@.len(),
            forall|j: int| 0 <= j < i ==> v@[j] != ':',
        decreases v.len() - i,
    {
        i = i + 1;
    }
    proof {
        lemma_index_of_char_unique(rel@, ':', i as int);
    }
    if i < v.len() {
        let t = string_of(&v, i + 1, v.len());
        proof {
            assert(t@ =~= rel@.skip(i as int + 1));
        }
        Some(t)
    } else {
        None
    }
}

/// A reference target as a page id.
fn normalized_ref_exec(t: &str) -> (r: String)
    ensures
        r@ == normalized_ref(t@),
{
    let v = to_chars(t);
    let p = to_chars("wiki:");
    proof {
        reveal_strlit("wiki:");
    }
    if starts_with_exec(&v, &p) {
        let rest = crate::text::slice_vec(&v, 5, v.len());
        let out = replace_char_vec(&rest, ':', '/');
        proof {
            assert(rest@ =~= t@.skip(5));
        }
        string_of_all(&out)
    } else {
        owned(t)
    }
}

/// Appends the findings for the references of page `id`.
fn add_ref_findings(g: &PageGraph, id: &str, rels: &Vec<String>, out: &mut Vec<Finding>)
    requires
        g.wf(),
    ensures
        findings_view(final(out)@) == findings_view(old(out)@) + ref_findings(*g, id@, strings_view(rels@)),
{
    let ghost rv = strings_view(rels@);
    let ghost start = findings_view(out@);
    let mut k: usize = 0;
    proof {
        assert(rv.take(0) =~= Seq::<Seq<char>>::empty());
        assert(findings_view(out@) =~= start + ref_findings(*g, id@, rv.take(0)));
    }
    while k < rels.len()
        invariant
            g.wf(),
            k <= rels@.len(),
            rv == strings_view(rels@),
            findings_view(out@) == start + ref_findings(*g, id@, rv.take(k as int)),
        decreases rels.len() - k,
    {
        let rel = rels[k].as_str();
        proof {
            assert(rv.take(k + 1).drop_last() =~= rv.take(k as int));
            assert(rv.take(k + 1).last() == rel@);
        }
        let ghost before = findings_view(out@);
        match ref_target_exec(rel) {
            Some(t) => {
                let nm = normalized_ref_exec(t.as_str());
                if !has_page_id_exec(g, nm.as_str()) && !has_page_id_exec(g, t.as_str()) {
                    let mut message = owned("Broken wiki ref: '");
                    push_str(&mut message, t.as_str());
                    push_str(&mut message, "' — page '");
                    push_str(&mut message, nm.as_str());
                    push_str(&mut message, "' not found");
                    let ghost tv = t@;
                    let ghost nv = nm@;
                    let f = Finding { id: owned(id), field: owned("relates_to"), message, reference: Some((t, nm)) };
                    let ghost fv = finding_view(f);
                    let ghost prev = out@;
                    out.push(f);
                    proof {
                        assert(fv == (id@, "relates_to"@, broken_message(tv, nv), Some((tv, nv))));
                        assert(findings_view(out@) =~= findings_view(prev).push(fv));
                        assert(ref_finding(*g, id@, rel@) =~= seq![fv]);
                    }
                } else {
                    proof {
                        assert(ref_finding(*g, id@, rel@) =~= Seq::<FindingText>::empty());
                    }
                }
            },
            None => {
                proof {
                    assert(ref_finding(*g, id@, rel@) =~= Seq::<FindingText>::empty());
                }
            },
        }
        proof {
            assert(findings_view(out@) =~= before + ref_finding(*g, id@, rel@));
        }
        k = k + 1;
    }
    proof {
        assert(rv.take(rels@.len() as int) =~= rv);
    }
}

// ─── Pages ──────────────────────────────────────────────────

/// The errors of page `v`: a missing title, a task without acceptance
/// criteria, and its broken references.
pub open spec fn page_errors(g: PageGraph, v: int) -> Seq<FindingText> {
    let m = g.nodes_view()[v];
    note_if(m.title@.len() == 0, m.id@, "title"@, "Title is required"@) + note_if(
        m.page_type == PageType::Task && m.acceptance_criteria@.len() == 0,
        m.id@,
        "acceptance_criteria"@,
        "Task should have at least one acceptance criterion"@,
    ) + ref_findings(g, m.id@, strings_view(m.relates_to@))
}

/// The warnings of page `v` about what its type expects: a task's assignee,
/// a draft spec's stakeholders, a decision's record, a pattern's description.
pub open spec fn page_warnings(g: PageGraph, v: int) -> Seq<FindingText> {
    let m = g.nodes_view()[v];
    match m.page_type {
        PageType::Task => note_if(m.assignee is None, m.id@, "assignee"@, "Task should have an assignee"@),
        PageType::Spec => note_if(
            m.status == PageStatus::Draft && m.stakeholders@.len() == 0,
            m.id@,
            "stakeholders"@,
            "Spec should have stakeholders defined"@,
        ),
        PageType::Decision => note_if(
            m.decision is None,
            m.id@,
            "decision"@,
            "Decision page should have context, options, rationale"@,
        ),
        PageType::Pattern => note_if(
            m.pattern is None,
            m.id@,
            "pattern"@,
            "Pattern page should have when_to_use and example"@,
        ),
        _ => Seq::empty(),
    }
}

/// Some edge of the graph ends at a page with the id `id`.
pub open spec fn has_incoming(g: PageGraph, id: Seq<char>) -> bool {
    exists|u: int, k: int|
        0 <= u < g.node_total() && 0 <= k < g.out(u).len() && g.nodes_view()[(#[trigger] g.out(u)[k]).0 as int].id@
            == id
}

/// The orphan warning of page `v`: a page other than a task that no edge
/// reaches.
pub open spec fn orphan_warning(g: PageGraph, v: int) -> Seq<FindingText> {
    let m = g.nodes_view()[v];
    note_if(
        m.page_type != PageType::Task && !has_incoming(g, m.id@),
        m.id@,
        "orphan"@,
        "Page has no incoming links from other pages"@,
    )
}

/// The findings `f` gives for the first `n` pages, page after page.
pub open spec fn over_pages(n: int, f: spec_fn(int) -> Seq<FindingText>) -> Seq<FindingText>
    decreases n,
{
    if n <= 0 {
        Seq::empty()
    } else {
        over_pages(n - 1, f) + f(n - 1)
    }
}

/// An edge before the `k`-th edge of node `u` ends at a page with the id `id`.
pub open spec fn incoming_before(g: PageGraph, id: Seq<char>, u: int, k: int) -> bool {
    exists|u2: int, k2: int|
        0 <= u2 < g.node_total() && 0 <= k2 < g.out(u2).len() && (u2 < u || (u2 == u && k2 < k))
            && g.nodes_view()[(#[trigger] g.out(u2)[k2]).0 as int].id@ == id
}

/// Whether some edge ends at a page with the id `id`.
fn has_incoming_exec(g: &PageGraph, id: &str) -> (r: bool)
    requires
        g.wf(),
    ensures
        r == has_incoming(*g, id@),
{
    let n = g.node_count();
    let mut u: usize = 0;
    while u < n
        invariant
            g.wf(),
            n == g.nodes_view().len(),
            u <= n,
            !incoming_before(*g, id@, u as int, 0),
        decreases n - u,
    {
        let outs = g.out_edges(u);
        let len = outs.len();
        let mut k: usize = 0;
        while k < len
            invariant
                g.wf(),
                n == g.nodes_view().len(),
                u < n,
                outs@ == g.out(u as int),
                len == g.out(u as int).len(),
                k <= len,
                !incoming_before(*g, id@, u as int, k as int),
            decreases len - k,
        {
            let t = outs[k].0;
            proof {
                assert(g.out(u as int)[k as int].0 < n);
            }
            if crate::text::str_eq(g.node(t).id.as_str(), id) {
                proof {
                    assert(g.nodes_view()[g.out(u as int)[k as int].0 as int].id@ == id@);
                }
                return true;
            }
            proof {
                assert forall|u2: int, k2: int|
                    0 <= u2 < g.node_total() && 0 <= k2 < g.out(u2).len() && (u2 < u || (u2 == u && k2 < k + 1))
                        implies g.nodes_view()[(#[trigger] g.out(u2)[k2]).0 as int].id@ != id@ by {
                    if !(u2 == u && k2 == k) {
                        assert(!(0 <= u2 < g.node_total() && 0 <= k2 < g.out(u2).len() && (u2 < u || (u2 == u
                            && k2 < k)) && g.nodes_view()[g.out(u2)[k2].0 as int].id@ == id@));
                    }
                }
            }
            k = k + 1;
        }
        proof {
            assert forall|u2: int, k2: int|
                0 <= u2 < g.node_total() && 0 <= k2 < g.out(u2).len() && (u2 < u + 1 || (u2 == u + 1 && k2 < 0))
                    implies g.nodes_view()[(#[trigger] g.out(u2)[k2]).0 as int].id@ != id@ by {
                assert(!(0 <= u2 < g.node_total() && 0 <= k2 < g.out(u2).len() && (u2 < u || (u2 == u && k2
                    < len)) && g.nodes_view()[g.out(u2)[k2].0 as int].id@ == id@));
            }
        }
        u = u + 1;
    }
    proof {
        assert forall|u2: int, k2: int|
            0 <= u2 < g.node_total() && 0 <= k2 < g.out(u2).len() implies g.nodes_view()[(#[trigger] g.out(
            u2,
        )[k2]).0 as int].id@ != id@ by {
            assert(!(0 <= u2 < g.node_total() && 0 <= k2 < g.out(u2).len() && (u2 < u || (u2 == u && k2 < 0))
                && g.nodes_view()[g.out(u2)[k2].0 as int].id@ == id@));
        }
    }
    false
}

/// The result of validating the wiki: errors make it fail, warnings do not.
pub struct Validation {
    pub errors: Vec<Finding>,
    pub warnings: Vec<Finding>,
}

/// Validates every page of the wiki. Errors: a missing title, a task without
/// acceptance criteria, a reference to no page. Warnings: what a page's type
/// expects and is missing, then every page other than a task that no edge
/// reaches. Findings come page after page, in graph order.
pub fn validate_wiki(graph: &PageGraph) -> (res: Validation)
    ensures
        findings_view(res.errors@) == over_pages(graph.nodes_view().len() as int, |v: int| page_errors(*graph, v)),
        findings_view(res.warnings@) == over_pages(graph.nodes_view().len() as int, |v: int| page_warnings(*graph, v))
            + over_pages(graph.nodes_view().len() as int, |v: int| orphan_warning(*graph, v)),
{
    proof {
        use_type_invariant(graph);
    }
    let ghost g = *graph;
    let ghost fe = |v: int| page_errors(g, v);
    let ghost fw = |v: int| page_warnings(g, v);
    let ghost fo = |v: int| orphan_warning(g, v);
    let n = graph.node_count();
    let mut errors: Vec<Finding> = Vec::new();
    let mut warnings: Vec<Finding> = Vec::new();
    let mut v: usize = 0;
    proof {
        assert(findings_view(errors@) =~= over_pages(0, fe));
        assert(findings_view(warnings@) =~= over_pages(0, fw));
    }
    while v < n
        invariant
            g == *graph,
            g.wf(),
            n == g.nodes_view().len(),
            v <= n,
            fe == (|v: int| page_errors(g, v)),
            fw == (|v: int| page_warnings(g, v)),
            findings_view(errors@) == over_pages(v as int, fe),
            findings_view(warnings@) == over_pages(v as int, fw),
        decreases n - v,
    {
        let m = graph.node(v);
        let id = m.id.as_str();
        let ghost e0 = findings_view(errors@);
        let ghost w0 = findings_view(warnings@);
        if m.title.as_str().unicode_len() == 0 {
            add_note(&mut errors, id, "title", "Title is required");
        }
        let ghost e1 = findings_view(errors@);
        if matches!(m.page_type, PageType::Task) && m.acceptance_criteria.len() == 0 {
            add_note(&mut errors, id, "acceptance_criteria", "Task should have at least one acceptance criterion");
        }
        let ghost e2 = findings_view(errors@);
        add_ref_findings(graph, id, &m.relates_to, &mut errors);
        proof {
            assert(e1 =~= e0 + note_if(m.title@.len() == 0, m.id@, "title"@, "Title is required"@));
            assert(findings_view(errors@) =~= e0 + page_errors(g, v as int));
        }
        match m.page_type {
            PageType::Task => {
                if m.assignee.is_none() {
                    add_note(&mut warnings, id, "assignee", "Task should have an assignee");
                }
            },
            PageType::Spec => {
                if matches!(m.status, PageStatus::Draft) && m.stakeholders.len() == 0 {
                    add_note(&mut warnings, id, "stakeholders", "Spec should have stakeholders defined");
                }
            },
            PageType::Decision => {
                if m.decision.is_none() {
                    add_note(&mut warnings, id, "decision", "Decision page should have context, options, rationale");
                }
            },
            PageType::Pattern => {
                if m.pattern.is_none() {
                    add_note(&mut warnings, id, "pattern", "Pattern page should have when_to_use and example");
                }
            },
            _ => {},
        }
        proof {
            assert(findings_view(warnings@) =~= w0 + page_warnings(g, v as int));
            assert(over_pages(v + 1, fe) == over_pages(v as int, fe) + fe(v as int));
            assert(over_pages(v + 1, fw) == over_pages(v as int, fw) + fw(v as int));
        }
        v = v + 1;
    }
    let ghost w_pages = findings_view(warnings@);
    let mut j: usize = 0;
    proof {
        assert(findings_view(warnings@) =~= w_pages + over_pages(0, fo));
    }
    while j < n
        invariant
            g == *graph,
            g.wf(),
            n == g.nodes_view().len(),
            j <= n,
            fo == (|v: int| orphan_warning(g, v)),
            findings_view(warnings@) == w_pages + over_pages(j as int, fo),
        decreases n - j,
    {
        let m = graph.node(j);
        let ghost w0 = findings_view(warnings@);
        if !matches!(m.page_type, PageType::Task) && !has_incoming_exec(graph, m.id.as_str()) {
            add_note(&mut warnings, m.id.as_str(), "orphan", "Page has no incoming links from other pages");
        }
        proof {
            assert(findings_view(warnings@) =~= w0 + orphan_warning(g, j as int));
            assert(over_pages(j + 1, fo) == over_pages(j as int, fo) + fo(j as int));
        }
        j = j + 1;
    }
    Validation { errors, warnings }
}

// ─── Spec coverage ──────────────────────────────────────────

/// The page id a task's relation names: the text after the first `:`,
/// without a leading `wiki:`, with `:` read as `/`.
pub open spec fn link_target(rel: Seq<char>) -> Option<Seq<char>> {
    match ref_target(rel) {
        Some(t) => Some(replace_char(if starts_with(t, "wiki:"@) { t.skip(5) } else { t }, ':', '/')),
        None => None,
    }
}

/// The relation names the page `id`, by its target or as a whole.
pub open spec fn rel_names(rel: Seq<char>, id: Seq<char>) -> bool {
    link_target(rel) == Some(id) || rel == id
}

/// Page `j` is a task with a relation that names `id`.
pub open spec fn task_links(g: PageGraph, j: int, id: Seq<char>) -> bool {
    &&& g.nodes_view()[j].page_type == PageType::Task
    &&& exists|r: int|
        0 <= r < g.nodes_view()[j].relates_to@.len() && rel_names((#[trigger] g.nodes_view()[j].relates_to@[r])@, id)
}

/// Some task relates to the page `id`.
pub open spec fn linked_by_task(g: PageGraph, id: Seq<char>) -> bool {
    exists|j: int| 0 <= j < g.nodes_view().len() && #[trigger] task_links(g, j, id)
}

/// The wiki has a task page.
pub open spec fn has_task(g: PageGraph) -> bool {
    exists|j: int| 0 <= j < g.nodes_view().len() && (#[trigger] g.nodes_view()[j]).page_type == PageType::Task
}

/// The coverage warnings of page `v`: a spec no task relates to, and a spec
/// with acceptance criteria in a wiki without tasks.
pub open spec fn spec_warnings(g: PageGraph, v: int) -> Seq<FindingText> {
    let m = g.nodes_view()[v];
    if m.page_type != PageType::Spec {
        Seq::empty()
    } else {
        note_if(
            !linked_by_task(g, m.id@),
            m.id@,
            "sdd_coverage"@,
            "Spec '"@ + m.title@ + "' has no linked tasks — add task pages with relates_to edges"@,
        ) + note_if(
            m.acceptance_criteria@.len() > 0 && !has_task(g),
            m.id@,
            "sdd_acceptance"@,
            "Spec '"@ + m.title@ + "' has acceptance criteria but no task pages found in wiki"@,
        )
    }
}

/// Whether the relation names the page `id`.
fn rel_names_exec(rel: &str, id: &str) -> (r: bool)
    ensures
        r == rel_names(rel@, id@),
{
    let named = match ref_target_exec(rel) {
        Some(t) => {
            let v = to_chars(t.as_str());
            let p = to_chars("wiki:");
            proof {
                reveal_strlit("wiki:");
            }
            let rest = if starts_with_exec(&v, &p) {
                let r = crate::text::slice_vec(&v, 5, v.len());
                proof {
                    assert(r@ =~= t@.skip(5));
                }
                r
            } else {
                v
            };
            let norm = string_of_all(&replace_char_vec(&rest, ':', '/'));
            crate::text::str_eq(norm.as_str(), id)
        },
        None => false,
    };
    named || crate::text::str_eq(rel, id)
}

/// Whether page `j` is a task with a relation that names `id`.
fn task_links_exec(g: &PageGraph, j: usize, id: &str) -> (r: bool)
    requires
        g.wf(),
        j < g.nodes_view().len(),
    ensures
        r == task_links(*g, j as int, id@),
{
    let m = g.node(j);
    if !matches!(m.page_type, PageType::Task) {
        return false;
    }
    let mut r: usize = 0;
    while r < m.relates_to.len()
        invariant
            j < g.nodes_view().len(),
            m == g.nodes_view()[j as int],
            m.page_type == PageType::Task,
            r <= m.relates_to@.len(),
            forall|q: int| 0 <= q < r ==> !rel_names((#[trigger] m.relates_to@[q])@, id@),
        decreases m.relates_to.len() - r,
    {
        if rel_names_exec(m.relates_to[r].as_str(), id) {
            proof {
                assert(rel_names(m.relates_to@[r as int]@, id@));
            }
            return true;
        }
        r = r + 1;
    }
    false
}

/// Whether some task relates to the page `id`.
fn linked_by_task_exec(g: &PageGraph, id: &str) -> (r: bool)
    requires
        g.wf(),
    ensures
        r == linked_by_task(*g, id@),
{
    let mut j: usize = 0;
    while j < g.node_count()
        invariant
            g.wf(),
            j <= g.nodes_view().len(),
            forall|q: int| 0 <= q < j ==> !#[trigger] task_links(*g, q, id@),
        decreases g.nodes_view().len() - j,
    {
        if task_links_exec(g, j, id) {
            return true;
        }
        j = j + 1;
    }
    false
}

/// Whether the wiki has a task page.
fn has_task_exec(g: &PageGraph) -> (r: bool)
    requires
        g.wf(),
    ensures
        r == has_task(*g),
{
    let mut j: usize = 0;
    while j < g.node_count()
        invariant
            g.wf(),
            j <= g.nodes_view().len(),
            forall|q: int| 0 <= q < j ==> (#[trigger] g.nodes_view()[q]).page_type != PageType::Task,
        decreases g.nodes_view().len() - j,
    {
        if matches!(g.node(j).page_type, PageType::Task) {
            return true;
        }
        j = j + 1;
    }
    false
}

/// Validates how the specs are covered by tasks: warns of a spec that no task
/// relates to, and of a spec with acceptance criteria in a wiki without tasks.
/// Warnings come page after page, in graph order.
pub fn validate_specs(graph: &PageGraph) -> (res: Vec<Finding>)
    ensures
        findings_view(res@) == over_pages(graph.nodes_view().len() as int, |v: int| spec_warnings(*graph, v)),
{
    proof {
        use_type_invariant(graph);
    }
    let ghost g = *graph;
    let ghost f = |v: int| spec_warnings(g, v);
    let n = graph.node_count();
    let mut out: Vec<Finding> = Vec::new();
    let mut v: usize = 0;
    proof {
        assert(findings_view(out@) =~= over_pages(0, f));
    }
    while v < n
        invariant
            g == *graph,
            g.wf(),
            n == g.nodes_view().len(),
            v <= n,
            f == (|v: int| spec_warnings(g, v)),
            findings_view(out@) == over_pages(v as int, f),
        decreases n - v,
    {
        let m = graph.node(v);
        let ghost w0 = findings_view(out@);
        if matches!(m.page_type, PageType::Spec) {
            if !linked_by_task_exec(graph, m.id.as_str()) {
                let mut message = owned("Spec '");
                push_str(&mut message, m.title.as_str());
                push_str(&mut message, "' has no linked tasks — add task pages with relates_to edges");
                add_note(&mut out, m.id.as_str(), "sdd_coverage", message.as_str());
            }
            if m.acceptance_criteria.len() > 0 && !has_task_exec(graph) {
                let mut message = owned("Spec '");
                push_str(&mut message, m.title.as_str());
                push_str(&mut message, "' has acceptance criteria but no task pages found in wiki");
                add_note(&mut out, m.id.as_str(), "sdd_acceptance", message.as_str());
            }
        }
        proof {
            assert(findings_view(out@) =~= w0 + spec_warnings(g, v as int));
            assert(over_pages(v + 1, f) == over_pages(v as int, f) + f(v as int));
        }
        v = v + 1;
    }
    out
}

// ─── Lint ───────────────────────────────────────────────────

/// One lint issue: its kind, its severity, the page or source, a message.
pub struct Issue {
    pub kind: String,
    pub severity: String,
    pub id: String,
    pub message: String,
}

/// An issue as text.
pub open spec fn issue_view(i: Issue) -> (Seq<char>, Seq<char>, Seq<char>, Seq<char>) {
    (i.kind@, i.severity@, i.id@, i.message@)
}

/// Issues as text.
pub open spec fn issues_view(v: Seq<Issue>) -> Seq<(Seq<char>, Seq<char>, Seq<char>, Seq<char>)> {
    v.map_values(|i: Issue| issue_view(i))
}

/// An issue when `cond` holds, else nothing.
pub open spec fn issue_if(cond: bool, kind: Seq<char>, severity: Seq<char>, id: Seq<char>, message: Seq<char>) -> Seq<(Seq<char>, Seq<char>, Seq<char>, Seq<char>)> {
    if cond {
        seq![(kind, severity, id, message)]
    } else {
        Seq::empty()
    }
}

fn add_issue(out: &mut Vec<Issue>, kind: &str, severity: &str, id: &str, message: &str)
    ensures
        issues_view(final(out)@) == issues_view(old(out)@).push((kind@, severity@, id@, message@)),
{
    let ghost before = out@;
    out.push(Issue { kind: owned(kind), severity: owned(severity), id: owned(id), message: owned(message) });
    proof {
        assert(issues_view(out@) =~= issues_view(before).push((kind@, severity@, id@, message@)));
    }
}

/// Some edge ends at node `v`.
pub open spec fn has_inbound(g: PageGraph, v: int) -> bool {
    exists|u: int, k: int| 0 <= u < g.node_total() && 0 <= k < g.out(u).len() && (#[trigger] g.out(u)[k]).0 == v
}

/// An edge before the `k`-th edge of node `u` ends at node `v`.
pub open spec fn inbound_before(g: PageGraph, v: int, u: int, k: int) -> bool {
    exists|u2: int, k2: int|
        0 <= u2 < g.node_total() && 0 <= k2 < g.out(u2).len() && (u2 < u || (u2 == u && k2 < k))
            && (#[trigger] g.out(u2)[k2]).0 == v
}

/// Whether some edge ends at node `v`.
fn has_inbound_exec(g: &PageGraph, v: usize) -> (r: bool)
    requires
        g.wf(),
    ensures
        r == has_inbound(*g, v as int),
{
    let n = g.node_count();
    let mut u: usize = 0;
    while u < n
        invariant
            g.wf(),
            n == g.nodes_view().len(),
            u <= n,
            !inbound_before(*g, v as int, u as int, 0),
        decreases n - u,
    {
        let outs = g.out_edges(u);
        let len = outs.len();
        let mut k: usize = 0;
        while k < len
            invariant
                g.wf(),
                n == g.nodes_view().len(),
                u < n,
                outs@ == g.out(u as int),
                len == g.out(u as int).len(),
                k <= len,
                !inbound_before(*g, v as int, u as int, k as int),
            decreases len - k,
        {
            if outs[k].0 == v {
                proof {
                    assert(g.out(u as int)[k as int].0 == v);
                }
                return true;
            }
            proof {
                assert forall|u2: int, k2: int|
                    0 <= u2 < g.node_total() && 0 <= k2 < g.out(u2).len() && (u2 < u || (u2 == u && k2 < k + 1))
                        implies (#[trigger] g.out(u2)[k2]).0 != v by {
                    if !(u2 == u && k2 == k) {
                        assert(!(0 <= u2 < g.node_total() && 0 <= k2 < g.out(u2).len() && (u2 < u || (u2 == u
                            && k2 < k)) && g.out(u2)[k2].0 == v));
                    }
                }
            }
            k = k + 1;
        }
        proof {
            assert forall|u2: int, k2: int|
                0 <= u2 < g.node_total() && 0 <= k2 < g.out(u2).len() && (u2 < u + 1 || (u2 == u + 1 && k2 < 0))
                    implies (#[trigger] g.out(u2)[k2]).0 != v by {
                assert(!(0 <= u2 < g.node_total() && 0 <= k2 < g.out(u2).len() && (u2 < u || (u2 == u && k2
                    < len)) && g.out(u2)[k2].0 == v));
            }
        }
        u = u + 1;
    }
    proof {
        assert forall|u2: int, k2: int|
            0 <= u2 < g.node_total() && 0 <= k2 < g.out(u2).len() implies (#[trigger] g.out(u2)[k2]).0 != v by {
            assert(!(0 <= u2 < g.node_total() && 0 <= k2 < g.out(u2).len() && (u2 < u || (u2 == u && k2 < 0))
                && g.out(u2)[k2].0 == v));
        }
    }
    false
}

/// The lint issues of page `v`: no edge reaches it, a task without
/// acceptance criteria, a spec still in draft.
pub open spec fn page_issues(g: PageGraph, v: int) -> Seq<(Seq<char>, Seq<char>, Seq<char>, Seq<char>)> {
    let m = g.nodes_view()[v];
    issue_if(!has_inbound(g, v), "orphan"@, "warning"@, m.id@, "No inbound edges — consider adding relationships"@)
        + issue_if(
        m.page_type == PageType::Task && m.acceptance_criteria@.len() == 0,
        "missing_acs"@,
        "warning"@,
        m.id@,
        "Task has no acceptance criteria"@,
    ) + issue_if(
        m.page_type == PageType::Spec && m.status == PageStatus::Draft,
        "spec_status"@,
        "info"@,
        m.id@,
        "Spec status is draft — consider setting reviewed/approved"@,
    )
}

/// The issues `f` gives for the first `n` pages, page after page.
pub open spec fn issues_over(n: int, f: spec_fn(int) -> Seq<(Seq<char>, Seq<char>, Seq<char>, Seq<char>)>) -> Seq<(Seq<char>, Seq<char>, Seq<char>, Seq<char>)>
    decreases n,
{
    if n <= 0 {
        Seq::empty()
    } else {
        issues_over(n - 1, f) + f(n - 1)
    }
}

/// Lints the pages of the wiki: orphans, tasks without acceptance criteria,
/// specs in draft, page after page in graph order.
pub fn lint_pages(graph: &PageGraph) -> (res: Vec<Issue>)
    ensures
        issues_view(res@) == issues_over(graph.nodes_view().len() as int, |v: int| page_issues(*graph, v)),
{
    proof {
        use_type_invariant(graph);
    }
    let ghost g = *graph;
    let ghost f = |v: int| page_issues(g, v);
    let n = graph.node_count();
    let mut out: Vec<Issue> = Vec::new();
    let mut v: usize = 0;
    proof {
        assert(issues_view(out@) =~= issues_over(0, f));
    }
    while v < n
        invariant
            g == *graph,
            g.wf(),
            n == g.nodes_view().len(),
            v <= n,
            f == (|v: int| page_issues(g, v)),
            issues_view(out@) == issues_over(v as int, f),
        decreases n - v,
    {
        let m = graph.node(v);
        let ghost w0 = issues_view(out@);
        if !has_inbound_exec(graph, v) {
            add_issue(&mut out, "orphan", "warning", m.id.as_str(), "No inbound edges — consider adding relationships");
        }
        if matches!(m.page_type, PageType::Task) && m.acceptance_criteria.len() == 0 {
            add_issue(&mut out, "missing_acs", "warning", m.id.as_str(), "Task has no acceptance criteria");
        }
        if matches!(m.page_type, PageType::Spec) && matches!(m.status, PageStatus::Draft) {
            add_issue(
                &mut out,
                "spec_status",
                "info",
                m.id.as_str(),
                "Spec status is draft — consider setting reviewed/approved",
            );
        }
        proof {
            assert(issues_view(out@) =~= w0 + page_issues(g, v as int));
            assert(issues_over(v + 1, f) == issues_over(v as int, f) + f(v as int));
        }
        v = v + 1;
    }
    out
}

/// A source is stale when it is marked so, or when the hash of its stored
/// content, where it could be read, differs from the recorded one.
pub open spec fn source_is_stale(state: SourceState, recorded: Seq<char>, current: Option<Seq<char>>) -> bool {
    state == SourceState::Stale || (current matches Some(h) && h != recorded)
}

/// Whether a source is stale, given the hash of its stored content where it
/// could be read.
pub fn source_stale(entry: &SourceEntry, current_hash: Option<&str>) -> (r: bool)
    ensures
        r == source_is_stale(entry.state, entry.content_hash@, match current_hash { Some(h) => Some(h@), None => None }),
{
    if matches!(entry.state, SourceState::Stale) {
        return true;
    }
    match current_hash {
        Some(h) => !crate::text::str_eq(h, entry.content_hash.as_str()),
        None => false,
    }
}

/// Whether a source is stale, given the bytes of its stored copy where they
/// could be read: they are hashed and the hash compared with the recorded one.
pub fn source_content_stale(entry: &SourceEntry, stored: Option<&[u8]>) -> (r: bool)
    ensures
        r == source_is_stale(entry.state, entry.content_hash@, match stored {
            Some(c) => Some(hex_of(spec_sha256(c@))),
            None => None,
        }),
{
    if matches!(entry.state, SourceState::Stale) {
        return true;
    }
    match stored {
        Some(c) => {
            let h = bytes_content_hash(c);
            source_stale(entry, Some(h.as_str()))
        },
        None => false,
    }
}

/// The stale-source issue of a source.
pub fn stale_source_issue(id: &str) -> (res: Issue)
    ensures
        issue_view(res) == ("stale_source"@, "warning"@, id@, "Source '"@ + id@ + "' content hash changed — needs reprocessing"@),
{
    let mut message = owned("Source '");
    push_str(&mut message, id);
    push_str(&mut message, "' content hash changed — needs reprocessing");
    Issue { kind: owned("stale_source"), severity: owned("warning"), id: owned(id), message }
}

/// The summary issue for `count` stale sources.
pub fn stale_summary_issue(count: u64) -> (res: Issue)
    ensures
        issue_view(res) == ("stale_sources_summary"@, "info"@, "registry"@, crate::text::decimal(count as nat)
            + " stale source(s) found. Run source.verify to check."@),
{
    let mut message = crate::text::u64_text(count);
    push_str(&mut message, " stale source(s) found. Run source.verify to check.");
    Issue { kind: owned("stale_sources_summary"), severity: owned("info"), id: owned("registry"), message }
}

// ─── Cycles ─────────────────────────────────────────────────

/// The lint issue for a cycle in the page graph, when there is one.
pub fn cycle_issue(graph: &PageGraph) -> (res: Option<Issue>)
    ensures
        res is Some <==> has_cycle(*graph),
        res matches Some(i) ==> issue_view(i) == ("cycle"@, "warning"@, "graph"@, "Cycle detected in wiki graph"@),
{
    proof {
        use_type_invariant(graph);
    }
    if page_graph_is_cyclic(graph) {
        Some(Issue {
            kind: owned("cycle"),
            severity: owned("warning"),
            id: owned("graph"),
            message: owned("Cycle detected in wiki graph"),
        })
    } else {
        None
    }
}

} // verus!
