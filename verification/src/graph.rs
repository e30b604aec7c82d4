//! Edge-type checks of the knowledge graph.
use vstd::prelude::*;
use crate::engine::{EdgeType, PageStatus, PageType, WikiPageMeta};
use crate::parser::{file_stem, file_stem_of, Frontmatter};
use crate::skill::{name_and_parent, parent_name_of};
use crate::error::join_texts;
use crate::text::{decimal, push_str, replace_char, u64_text};
use crate::parser::{edge_denoted, known_edge_of, parse_edge_type};
use crate::search::strings_view;
use crate::text::{owned, spec_to_lowercase, str_eq};
use crate::text::{index_of_char, lemma_index_of_char_unique, to_chars, trim_prefix_repeated, trim_prefix_repeated_range};

pub mod walks;
pub mod from_pages;
pub use walks::{edge_label, find_path, subgraph, PageGraph, Subgraph};

verus! {

/// The keyword names no built-in edge type, so it makes a custom edge.
pub open spec fn is_custom_keyword(s: Seq<char>) -> bool {
    known_edge_of(spec_to_lowercase(s)) is None
}

/// Whether the edge keyword `s` makes a custom edge type.
pub fn is_custom_edge(s: &str) -> (res: bool)
    ensures
        res == is_custom_keyword(s@),
{
    match parse_edge_type(s) {
        Ok(EdgeType::Custom(_)) => true,
        _ => false,
    }
}

/// The used edge types that are custom and not registered, in order of use.
pub open spec fn rejected_types(registered: Seq<Seq<char>>, used: Seq<Seq<char>>) -> Seq<Seq<char>> {
    used.filter(|t: Seq<char>| !registered.contains(t) && is_custom_keyword(t))
}

/// Validate custom edge types against a registered set: the used types that
/// are custom edges and not registered.
pub fn validate_custom_edge_types(registered: &[String], used_types: &[String]) -> (res: Vec<String>)
    ensures
        strings_view(res@) == rejected_types(strings_view(registered@), strings_view(used_types@)),
{
    let ghost reg = strings_view(registered@);
    let ghost used = strings_view(used_types@);
    let ghost pred = |t: Seq<char>| !reg.contains(t) && is_custom_keyword(t);
    let mut rejected: Vec<String> = Vec::new();
    let mut i: usize = 0;
    proof {
        reveal(Seq::filter);
        assert(used.take(0).filter(pred) =~= Seq::<Seq<char>>::empty());
        assert(strings_view(rejected@) =~= Seq::<Seq<char>>::empty());
    }
    while i < used_types.len()
        invariant
            i <= used_types.len(),
            reg == strings_view(registered@),
            used == strings_view(used_types@),
            pred == (|t: Seq<char>| !reg.contains(t) && is_custom_keyword(t)),
            strings_view(rejected@) == used.take(i as int).filter(pred),
        decreases used_types.len() - i,
    {
        let t = used_types[i].as_str();
        let mut known = false;
        let mut j: usize = 0;
        while j < registered.len()
            invariant
                j <= registered.len(),
                reg == strings_view(registered@),
                known == reg.take(j as int).contains(t@),
            decreases registered.len() - j,
        {
            proof {
                assert(reg.take(j + 1) == reg.take(j as int).push(registered@[j as int]@));
                if reg.take(j as int).contains(t@) {
                    let w = choose|w: int| 0 <= w < j && #[trigger] reg.take(j as int)[w] == t@;
                    assert(reg.take(j + 1)[w] == t@);
                }
            }
            if str_eq(registered[j].as_str(), t) {
                known = true;
                proof {
                    assert(reg.take(j + 1)[j as int] == t@);
                }
            }
            proof {
                if reg.take(j + 1).contains(t@) && !reg.take(j as int).contains(t@) {
                    let w = choose|w: int| 0 <= w < j + 1 && #[trigger] reg.take(j + 1)[w] == t@;
                    if w < j {
                        assert(reg.take(j as int)[w] == t@);
                    }
                }
            }
            j = j + 1;
        }
        proof {
            assert(reg.take(registered.len() as int) == reg);
            reveal(Seq::filter);
            assert(used.take(i + 1).drop_last() == used.take(i as int));
            assert(used.take(i + 1).last() == t@);
        }
        let custom = is_custom_edge(t);
        if !known && custom {
            let ghost before = rejected@;
            rejected.push(owned(t));
            proof {
                assert(strings_view(rejected@) == strings_view(before).push(t@));
            }
        }
        i = i + 1;
    }
    proof {
        assert(used.take(used_types.len() as int) == used);
    }
    rejected
}

// ─── Index page ─────────────────────────────────────────────

/// Lower-cased variant name of a page type.
pub open spec fn type_key(t: PageType) -> Seq<char> {
    match t {
        PageType::Task => "task"@,
        PageType::Spec => "spec"@,
        PageType::Concept => "concept"@,
        PageType::Pattern => "pattern"@,
        PageType::Decision => "decision"@,
        PageType::Howto => "howto"@,
        PageType::Reference => "reference"@,
    }
}

/// Lower-cased variant name of a status.
pub open spec fn status_key(s: PageStatus) -> Seq<char> {
    match s {
        PageStatus::Todo => "todo"@,
        PageStatus::InProgress => "inprogress"@,
        PageStatus::InReview => "inreview"@,
        PageStatus::Done => "done"@,
        PageStatus::Blocked => "blocked"@,
        PageStatus::Cancelled => "cancelled"@,
        PageStatus::Draft => "draft"@,
        PageStatus::Reviewed => "reviewed"@,
        PageStatus::Superseded => "superseded"@,
        PageStatus::Approved => "approved"@,
    }
}

/// Page types in the alphabetical order of their names.
pub open spec fn types_by_key() -> Seq<PageType> {
    seq![
        PageType::Concept,
        PageType::Decision,
        PageType::Howto,
        PageType::Pattern,
        PageType::Reference,
        PageType::Spec,
        PageType::Task,
    ]
}

/// Index line of a page: a link to its file and its status.
pub open spec fn index_line(m: WikiPageMeta) -> Seq<char> {
    "- ["@ + m.title@ + "]("@ + replace_char(m.id@, ':', '/') + ".md) — *"@ + status_key(m.status) + "*\n"@
}

/// Index lines of the pages of type `t`, in page order.
pub open spec fn type_lines(pages: Seq<WikiPageMeta>, t: PageType) -> Seq<char>
    decreases pages.len(),
{
    if pages.len() == 0 {
        Seq::empty()
    } else {
        type_lines(pages.drop_last(), t) + if pages.last().page_type == t {
            index_line(pages.last())
        } else {
            Seq::empty()
        }
    }
}

/// Some page has type `t`.
pub open spec fn has_type(pages: Seq<WikiPageMeta>, t: PageType) -> bool {
    exists|i: int| 0 <= i < pages.len() && (#[trigger] pages[i]).page_type == t
}

/// The section of type `t`: a heading and its lines, when a page has that type.
pub open spec fn type_section(pages: Seq<WikiPageMeta>, t: PageType) -> Seq<char> {
    if has_type(pages, t) {
        "## "@ + type_key(t) + "s\n\n"@ + type_lines(pages, t) + "\n"@
    } else {
        Seq::empty()
    }
}

/// The sections of the types `ts`, in order.
pub open spec fn sections_text(pages: Seq<WikiPageMeta>, ts: Seq<PageType>) -> Seq<char>
    decreases ts.len(),
{
    if ts.len() == 0 {
        Seq::empty()
    } else {
        sections_text(pages, ts.drop_last()) + type_section(pages, ts.last())
    }
}

/// Front matter and preamble of the index page.
pub open spec fn index_header() -> Seq<char> {
    "---\ntitle: Wiki Index\ntype: reference\n---\n\n# Wiki Index\n\n> **Do not edit this file manually.** It is auto-generated by `wm index rebuild`.\n\n"@
}

/// The index page: the preamble, one section per page type present (types in
/// alphabetical order, pages in graph order), then the node and edge counts.
pub open spec fn index_text(pages: Seq<WikiPageMeta>, edges: nat) -> Seq<char> {
    index_header() + sections_text(pages, types_by_key()) + "## Graph Stats\n\n- **Nodes:** "@ + decimal(
        pages.len(),
    ) + "\n- **Edges:** "@ + decimal(edges) + "\n\n"@
}

fn type_key_exec(t: PageType) -> (res: &'static str)
    ensures
        res@ == type_key(t),
{
    match t {
        PageType::Task => "task",
        PageType::Spec => "spec",
        PageType::Concept => "concept",
        PageType::Pattern => "pattern",
        PageType::Decision => "decision",
        PageType::Howto => "howto",
        PageType::Reference => "reference",
    }
}

pub(crate) fn status_key_exec(s: PageStatus) -> (res: &'static str)
    ensures
        res@ == status_key(s),
{
    match s {
        PageStatus::Todo => "todo",
        PageStatus::InProgress => "inprogress",
        PageStatus::InReview => "inreview",
        PageStatus::Done => "done",
        PageStatus::Blocked => "blocked",
        PageStatus::Cancelled => "cancelled",
        PageStatus::Draft => "draft",
        PageStatus::Reviewed => "reviewed",
        PageStatus::Superseded => "superseded",
        PageStatus::Approved => "approved",
    }
}

/// The section of one page type.
fn section_exec(pages: &Vec<WikiPageMeta>, t: PageType) -> (res: String)
    ensures
        res@ == type_section(pages@, t),
{
    let mut lines = String::new();
    let mut any = false;
    let mut i: usize = 0;
    proof {
        assert(pages@.take(0) =~= Seq::<WikiPageMeta>::empty());
    }
    while i < pages.len()
        invariant
            i <= pages.len(),
            lines@ == type_lines(pages@.take(i as int), t),
            any == (exists|j: int| 0 <= j < i && (#[trigger] pages@[j]).page_type == t),
        decreases pages.len() - i,
    {
        let m = &pages[i];
        proof {
            assert(pages@.take(i + 1).drop_last() == pages@.take(i as int));
            assert(pages@.take(i + 1).last() == pages@[i as int]);
        }
        if m.page_type == t {
            any = true;
            push_str(&mut lines, "- [");
            push_str(&mut lines, m.title.as_str());
            push_str(&mut lines, "](");
            let idv = crate::text::to_chars(m.id.as_str());
            let link = crate::text::replace_char_vec(&idv, ':', '/');
            let ls = crate::text::string_of_all(&link);
            push_str(&mut lines, ls.as_str());
            push_str(&mut lines, ".md) — *");
            push_str(&mut lines, status_key_exec(m.status));
            push_str(&mut lines, "*\n");
        }
        i = i + 1;
    }
    proof {
        assert(pages@.take(pages.len() as int) == pages@);
    }
    if any {
        let mut out = owned("## ");
        push_str(&mut out, type_key_exec(t));
        push_str(&mut out, "s\n\n");
        push_str(&mut out, lines.as_str());
        push_str(&mut out, "\n");
        out
    } else {
        String::new()
    }
}

/// Content of the generated `index.md` for the pages of the graph and its
/// number of edges.
pub fn index_content(pages: &Vec<WikiPageMeta>, edge_count: usize) -> (res: String)
    ensures
        res@ == index_text(pages@, edge_count as nat),
{
    let mut content = owned(
        "---\ntitle: Wiki Index\ntype: reference\n---\n\n# Wiki Index\n\n> **Do not edit this file manually.** It is auto-generated by `wm index rebuild`.\n\n",
    );
    let order: Vec<PageType> = vec![
        PageType::Concept,
        PageType::Decision,
        PageType::Howto,
        PageType::Pattern,
        PageType::Reference,
        PageType::Spec,
        PageType::Task,
    ];
    let ghost head = content@;
    let mut k: usize = 0;
    proof {
        assert(order@ == types_by_key());
        assert(order@.take(0) =~= Seq::<PageType>::empty());
    }
    while k < order.len()
        invariant
            k <= order.len(),
            order@ == types_by_key(),
            content@ == head + sections_text(pages@, order@.take(k as int)),
        decreases order.len() - k,
    {
        let sec = section_exec(pages, order[k]);
        push_str(&mut content, sec.as_str());
        proof {
            assert(order@.take(k + 1).drop_last() == order@.take(k as int));
            assert(order@.take(k + 1).last() == order@[k as int]);
        }
        k = k + 1;
    }
    proof {
        assert(order@.take(order.len() as int) == order@);
    }
    push_str(&mut content, "## Graph Stats\n\n- **Nodes:** ");
    let n = u64_text(pages.len() as u64);
    push_str(&mut content, n.as_str());
    push_str(&mut content, "\n- **Edges:** ");
    let e = u64_text(edge_count as u64);
    push_str(&mut content, e.as_str());
    push_str(&mut content, "\n\n");
    content
}

// ─── Lint fixes ─────────────────────────────────────────────

/// Page type a page's directory suggests; `concept` for any other directory.
pub open spec fn inferred_type(parent: Seq<char>) -> Seq<char> {
    if parent == "tasks"@ {
        "task"@
    } else if parent == "specs"@ {
        "spec"@
    } else if parent == "concepts"@ {
        "concept"@
    } else if parent == "patterns"@ {
        "pattern"@
    } else if parent == "decisions"@ {
        "decision"@
    } else if parent == "howto"@ {
        "howto"@
    } else if parent == "reference"@ {
        "reference"@
    } else {
        "concept"@
    }
}

/// Views of a list of strings.
pub open spec fn texts(v: Seq<String>) -> Seq<Seq<char>> {
    v.map_values(|s: String| s@)
}

/// The fixed page of a page whose frontmatter lacks a type: frontmatter with
/// its title (or the file stem, or `Untitled`), the type its directory
/// suggests, its tags and status, then its body. A page that has a type needs no fix.
pub open spec fn lint_fixed(path: Seq<char>, fm: Frontmatter, body: Seq<char>) -> Option<Seq<char>> {
    if fm.page_type is Some {
        None
    } else {
        let title = match fm.title {
            Some(t) => t@,
            None => match file_stem_of(path) {
                Some(s) => s,
                None => "Untitled"@,
            },
        };
        let parent = match parent_name_of(path) {
            Some(p) => p,
            None => Seq::empty(),
        };
        let tags = if fm.tags@.len() > 0 {
            "tags: ["@ + join_texts(texts(fm.tags@), ", "@) + "]\n"@
        } else {
            Seq::empty()
        };
        let status = match fm.status {
            Some(s) => "status: "@ + s@ + "\n"@,
            None => Seq::empty(),
        };
        Some("---\n"@ + ("title: "@ + title + "\n"@ + "type: "@ + inferred_type(parent) + "\n"@ + tags + status)
            + "---\n\n"@ + body)
    }
}

fn inferred_type_exec(parent: &str) -> (res: &'static str)
    ensures
        res@ == inferred_type(parent@),
{
    if str_eq(parent, "tasks") {
        "task"
    } else if str_eq(parent, "specs") {
        "spec"
    } else if str_eq(parent, "concepts") {
        "concept"
    } else if str_eq(parent, "patterns") {
        "pattern"
    } else if str_eq(parent, "decisions") {
        "decision"
    } else if str_eq(parent, "howto") {
        "howto"
    } else if str_eq(parent, "reference") {
        "reference"
    } else {
        "concept"
    }
}

/// Joins texts with `, `.
pub(crate) fn join_comma(list: &Vec<String>) -> (res: String)
    ensures
        res@ == join_texts(texts(list@), ", "@),
{
    let mut out = String::new();
    let mut i: usize = 0;
    proof {
        assert(texts(list@).take(0) =~= Seq::<Seq<char>>::empty());
    }
    while i < list.len()
        invariant
            i <= list.len(),
            out@ == join_texts(texts(list@).take(i as int), ", "@),
        decreases list.len() - i,
    {
        if i > 0 {
            push_str(&mut out, ", ");
        }
        push_str(&mut out, list[i].as_str());
        proof {
            assert(texts(list@).take(i + 1).drop_last() == texts(list@).take(i as int));
            assert(texts(list@).take(i + 1).last() == list@[i as int]@);
        }
        i = i + 1;
    }
    proof {
        assert(texts(list@).take(list.len() as int) == texts(list@));
    }
    out
}

/// The fixed content of a page lacking a type in its frontmatter, given its
/// path, parsed frontmatter and body; `None` when the page needs no fix.
#[verifier::rlimit(40)]
pub fn lint_fix_page(path: &str, fm: &Frontmatter, body: &str) -> (res: Option<String>)
    ensures
        match lint_fixed(path@, *fm, body@) {
            Some(t) => res matches Some(r) && r@ == t,
            None => res is None,
        },
{
    if fm.page_type.is_some() {
        return None;
    }
    let title = match &fm.title {
        Some(t) => owned(t.as_str()),
        None => match file_stem(path) {
            Some(s) => s,
            None => owned("Untitled"),
        },
    };
    let (_file, parent) = name_and_parent(path);
    let parent_text = match parent {
        Some(p) => p,
        None => String::new(),
    };
    let mut new_fm = owned("title: ");
    push_str(&mut new_fm, title.as_str());
    push_str(&mut new_fm, "\n");
    push_str(&mut new_fm, "type: ");
    push_str(&mut new_fm, inferred_type_exec(parent_text.as_str()));
    push_str(&mut new_fm, "\n");
    if fm.tags.len() > 0 {
        push_str(&mut new_fm, "tags: [");
        let j = join_comma(&fm.tags);
        push_str(&mut new_fm, j.as_str());
        push_str(&mut new_fm, "]\n");
    }
    match &fm.status {
        Some(s) => {
            push_str(&mut new_fm, "status: ");
            push_str(&mut new_fm, s.as_str());
            push_str(&mut new_fm, "\n");
        },
        None => {},
    }
    let mut full = owned("---\n");
    push_str(&mut full, new_fm.as_str());
    push_str(&mut full, "---\n\n");
    push_str(&mut full, body);
    Some(full)
}

// ─── New pages ──────────────────────────────────────────────

/// The first `/`-separated segment of `s` (all of it when there is no `/`).
pub open spec fn first_segment(s: Seq<char>) -> Seq<char> {
    s.take(index_of_char(s, '/') as int)
}

/// Page type of a new page at `path` when none is given: the type its first
/// directory under `wiki/` suggests, `concept` for any other.
pub open spec fn page_type_for_path(path: Seq<char>) -> Seq<char> {
    inferred_type(first_segment(trim_prefix_repeated(path, "wiki/"@)))
}

/// Infers the page type of a new page from its path: `wiki/tasks/auth` gives
/// `task`, an unknown or missing directory gives `concept`.
pub fn infer_page_type(path: &str) -> (res: &'static str)
    ensures
        res@ == page_type_for_path(path@),
{
    let v = to_chars(path);
    let p = to_chars("wiki/");
    proof {
        reveal_strlit("wiki/");
    }
    let a = trim_prefix_repeated_range(&v, 0, v.len(), &p);
    let ghost rest = v@.subrange(a as int, v@.len() as int);
    proof {
        assert(v@.subrange(0, v@.len() as int) =~= v@);
    }
    let mut b = a;
    while b < v.len() && v[b] != '/'
        invariant
            a <= b <= v@.len(),
            rest == v@.subrange(a as int, v@.len() as int),
            forall|j: int| a <= j < b ==> v@[j] != '/',
        decreases v.len() - b,
    {
        b = b + 1;
    }
    proof {
        assert forall|j: int| 0 <= j < b - a implies rest[j] != '/' by {
            assert(rest[j] == v@[a + j]);
        }
        lemma_index_of_char_unique(rest, '/', b - a);
    }
    let seg = crate::text::string_of(&v, a, b);
    proof {
        assert(seg@ == rest.take(b - a));
    }
    inferred_type_exec(seg.as_str())
}

/// The front matter of a new page: its title and type, and its status when
/// one is given.
pub open spec fn page_front_matter(title: Seq<char>, page_type: Seq<char>, status: Option<Seq<char>>) -> Seq<char> {
    "title: "@ + title + "\ntype: "@ + page_type + "\n"@ + match status {
        Some(s) => "status: "@ + s + "\n"@,
        None => Seq::empty(),
    }
}

/// Builds the front matter of a new page.
pub fn page_front_matter_text(title: &str, page_type: &str, status: Option<&str>) -> (res: String)
    ensures
        res@ == page_front_matter(title@, page_type@, match status { Some(s) => Some(s@), None => None }),
{
    let mut fm = owned("title: ");
    push_str(&mut fm, title);
    push_str(&mut fm, "\ntype: ");
    push_str(&mut fm, page_type);
    push_str(&mut fm, "\n");
    match status {
        Some(s) => {
            push_str(&mut fm, "status: ");
            push_str(&mut fm, s);
            push_str(&mut fm, "\n");
        },
        None => {},
    }
    fm
}

// ─── Counts by type ─────────────────────────────────────────

/// Number of pages of type `t`.
pub open spec fn count_of_type(pages: Seq<WikiPageMeta>, t: PageType) -> nat
    decreases pages.len(),
{
    if pages.len() == 0 {
        0
    } else {
        count_of_type(pages.drop_last(), t) + if pages.last().page_type == t { 1nat } else { 0nat }
    }
}

/// The page types present among `pages`, in the order of `ts`, each with its
/// name and its number of pages.
pub open spec fn type_counts(pages: Seq<WikiPageMeta>, ts: Seq<PageType>) -> Seq<(Seq<char>, nat)>
    decreases ts.len(),
{
    if ts.len() == 0 {
        Seq::empty()
    } else {
        type_counts(pages, ts.drop_last()) + if count_of_type(pages, ts.last()) > 0 {
            seq![(type_key(ts.last()), count_of_type(pages, ts.last()))]
        } else {
            Seq::empty()
        }
    }
}

/// Counts as text.
pub open spec fn counts_view(v: Seq<(&'static str, usize)>) -> Seq<(Seq<char>, nat)> {
    v.map_values(|c: (&'static str, usize)| (c.0@, c.1 as nat))
}

fn count_type_exec(pages: &Vec<WikiPageMeta>, t: PageType) -> (res: usize)
    ensures
        res == count_of_type(pages@, t),
{
    let mut c: usize = 0;
    let mut i: usize = 0;
    proof {
        assert(pages@.take(0) =~= Seq::<WikiPageMeta>::empty());
    }
    while i < pages.len()
        invariant
            i <= pages@.len(),
            c == count_of_type(pages@.take(i as int), t),
            c <= i,
        decreases pages.len() - i,
    {
        proof {
            assert(pages@.take(i + 1).drop_last() =~= pages@.take(i as int));
            assert(pages@.take(i + 1).last() == pages@[i as int]);
        }
        if pages[i].page_type == t {
            c = c + 1;
        }
        i = i + 1;
    }
    proof {
        assert(pages@.take(pages@.len() as int) =~= pages@);
    }
    c
}

/// The number of pages of each type present, types in the alphabetical order
/// of their names.
pub fn page_type_counts(pages: &Vec<WikiPageMeta>) -> (res: Vec<(&'static str, usize)>)
    ensures
        counts_view(res@) == type_counts(pages@, types_by_key()),
{
    let order: Vec<PageType> = vec![
        PageType::Concept,
        PageType::Decision,
        PageType::Howto,
        PageType::Pattern,
        PageType::Reference,
        PageType::Spec,
        PageType::Task,
    ];
    let mut out: Vec<(&'static str, usize)> = Vec::new();
    let mut k: usize = 0;
    proof {
        assert(order@ == types_by_key());
        assert(order@.take(0) =~= Seq::<PageType>::empty());
        assert(counts_view(out@) =~= Seq::<(Seq<char>, nat)>::empty());
    }
    while k < order.len()
        invariant
            k <= order.len(),
            order@ == types_by_key(),
            counts_view(out@) == type_counts(pages@, order@.take(k as int)),
        decreases order.len() - k,
    {
        let t = order[k];
        let c = count_type_exec(pages, t);
        proof {
            assert(order@.take(k + 1).drop_last() =~= order@.take(k as int));
            assert(order@.take(k + 1).last() == t);
        }
        if c > 0 {
            let ghost before = out@;
            out.push((type_key_exec(t), c));
            proof {
                assert(counts_view(out@) =~= counts_view(before).push((type_key(t), c as nat)));
            }
        }
        k = k + 1;
    }
    proof {
        assert(order@.take(order.len() as int) =~= order@);
    }
    out
}

} // verus!
