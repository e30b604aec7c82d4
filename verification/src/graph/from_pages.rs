//! Building the page graph from the parsed pages: one node per page, and an
//! edge for each relation whose type is accepted and whose target is found.
use vstd::prelude::*;
use crate::engine::WikiPageMeta;
use crate::graph::walks::{names_page, resolve_page, same_ignoring_ascii_case, PageGraph};
use crate::graph::{is_custom_edge, is_custom_keyword, rejected_types, texts, validate_custom_edge_types};
use crate::parser::{edge_denoted, parse_edge_type};
use crate::search::strings_view;
use crate::text::{index_of_char, lemma_index_of_char_unique, str_eq, string_of, to_chars};

verus! {

// ─── Specification ──────────────────────────────────────────

/// The edges a page's relations ask for: (source id, type, target) for each
/// relation `type:target`, split at its first `:`; a relation without `:`
/// asks for none.
pub open spec fn page_edges(src: Seq<char>, rels: Seq<Seq<char>>) -> Seq<(Seq<char>, Seq<char>, Seq<char>)>
    decreases rels.len(),
{
    if rels.len() == 0 {
        Seq::empty()
    } else {
        let r = rels.last();
        let i = index_of_char(r, ':');
        page_edges(src, rels.drop_last()) + if i < r.len() {
            seq![(src, r.take(i as int), r.skip(i as int + 1))]
        } else {
            Seq::empty()
        }
    }
}

/// The edges all pages ask for, page by page.
pub open spec fn pending_edges(pages: Seq<WikiPageMeta>) -> Seq<(Seq<char>, Seq<char>, Seq<char>)>
    decreases pages.len(),
{
    if pages.len() == 0 {
        Seq::empty()
    } else {
        pending_edges(pages.drop_last()) + page_edges(pages.last().id@, texts(pages.last().relates_to@))
    }
}

/// The custom edge types the edges use, in order of first use.
pub open spec fn used_custom_types(es: Seq<(Seq<char>, Seq<char>, Seq<char>)>) -> Seq<Seq<char>>
    decreases es.len(),
{
    if es.len() == 0 {
        Seq::empty()
    } else {
        let prev = used_custom_types(es.drop_last());
        let t = es.last().1;
        if is_custom_keyword(t) && !prev.contains(t) {
            prev.push(t)
        } else {
            prev
        }
    }
}

/// The last node whose page has the id `id` (later pages shadow earlier ones
/// of the same id).
pub open spec fn last_with_id(nodes: Seq<WikiPageMeta>, id: Seq<char>) -> Option<int>
    decreases nodes.len(),
{
    if nodes.len() == 0 {
        None
    } else if nodes.last().id@ == id {
        Some(nodes.len() - 1)
    } else {
        last_with_id(nodes.drop_last(), id)
    }
}

/// Node `i` answers `q` by its title or its id, ignoring ASCII case.
pub open spec fn names_node(nodes: Seq<WikiPageMeta>, i: int, q: Seq<char>) -> bool {
    same_ignoring_ascii_case(nodes[i].title@, q) || same_ignoring_ascii_case(nodes[i].id@, q)
}

/// The first node from `from` on that answers `q` by title or id, ignoring
/// ASCII case.
pub open spec fn first_named(nodes: Seq<WikiPageMeta>, q: Seq<char>, from: int) -> Option<int>
    decreases nodes.len() - from,
{
    if from < 0 || from >= nodes.len() {
        None
    } else if names_node(nodes, from, q) {
        Some(from)
    } else {
        first_named(nodes, q, from + 1)
    }
}

/// The node a relation's target names: the last page with that id, else the
/// last page with the id of the first page it names by title or id.
pub open spec fn link_target(nodes: Seq<WikiPageMeta>, q: Seq<char>) -> Option<int> {
    match last_with_id(nodes, q) {
        Some(t) => Some(t),
        None => match first_named(nodes, q, 0) {
            Some(i) => last_with_id(nodes, nodes[i].id@),
            None => None,
        },
    }
}

/// Some edge already added goes from `s` to `t`.
pub open spec fn has_pair(added: Seq<(int, int, Seq<char>)>, s: int, t: int) -> bool {
    exists|k: int| 0 <= k < added.len() && (#[trigger] added[k]).0 == s && added[k].1 == t
}

/// The edges added, in order, as (source, target, type): an edge is skipped
/// when its type is rejected, its source or target is not found, or an edge
/// between the same two nodes was added before.
pub open spec fn added_edges(
    nodes: Seq<WikiPageMeta>,
    es: Seq<(Seq<char>, Seq<char>, Seq<char>)>,
    rejected: Seq<Seq<char>>,
) -> Seq<(int, int, Seq<char>)>
    decreases es.len(),
{
    if es.len() == 0 {
        Seq::empty()
    } else {
        let prev = added_edges(nodes, es.drop_last(), rejected);
        let e = es.last();
        if rejected.contains(e.1) {
            prev
        } else {
            match (last_with_id(nodes, e.0), link_target(nodes, e.2)) {
                (Some(s), Some(t)) => if has_pair(prev, s, t) {
                    prev
                } else {
                    prev.push((s, t, e.1))
                },
                _ => prev,
            }
        }
    }
}

/// The added edges that leave node `u`: target and type, in order.
pub open spec fn edges_from(added: Seq<(int, int, Seq<char>)>, u: int) -> Seq<(int, Seq<char>)>
    decreases added.len(),
{
    if added.len() == 0 {
        Seq::empty()
    } else {
        edges_from(added.drop_last(), u) + if added.last().0 == u {
            seq![(added.last().1, added.last().2)]
        } else {
            Seq::empty()
        }
    }
}

/// The out-edges of node `u` are those added from it, newest first: same
/// targets, of the types their keywords denote.
pub open spec fn out_matches(g: PageGraph, added: Seq<(int, int, Seq<char>)>, u: int) -> bool {
    let ef = edges_from(added, u);
    &&& g.out(u).len() == ef.len()
    &&& forall|k: int|
        0 <= k < g.out(u).len() ==> (#[trigger] g.out(u)[k]).0 == ef[ef.len() - 1 - k].0 && edge_denoted(
            g.out(u)[k].1,
            ef[ef.len() - 1 - k].1,
        )
}

/// The graph of the pages: their nodes in order, and the edges added from
/// their relations, given the custom edge types that are registered.
pub open spec fn graph_of(g: PageGraph, pages: Seq<WikiPageMeta>, registered: Seq<Seq<char>>) -> bool {
    let es = pending_edges(pages);
    let added = added_edges(pages, es, rejected_types(registered, used_custom_types(es)));
    &&& g.wf()
    &&& g.nodes_view() == pages
    &&& forall|u: int| 0 <= u < pages.len() ==> out_matches(g, added, u)
}

// ─── Building ───────────────────────────────────────────────

/// Views of (source, type, target) triples.
pub open spec fn triples_view(v: Seq<(String, String, String)>) -> Seq<(Seq<char>, Seq<char>, Seq<char>)> {
    v.map_values(|t: (String, String, String)| (t.0@, t.1@, t.2@))
}

/// Index of the first `c` in `v`, or its length.
fn char_index(v: &Vec<char>, c: char) -> (r: usize)
    ensures
        r == index_of_char(v@, c),
{
    let mut i: usize = 0;
    while i < v.len() && v[i] != c
        invariant
            i <= v.len(),
            forall|j: int| 0 <= j < i ==> v@[j] != c,
        decreases v.len() - i,
    {
        i = i + 1;
    }
    proof {
        lemma_index_of_char_unique(v@, c, i as int);
    }
    i
}

/// The edges the pages' relations ask for, in order.
fn pending_of(pages: &Vec<WikiPageMeta>) -> (res: Vec<(String, String, String)>)
    ensures
        triples_view(res@) == pending_edges(pages@),
{
    let mut out: Vec<(String, String, String)> = Vec::new();
    let mut p: usize = 0;
    proof {
        assert(pages@.take(0) =~= Seq::<WikiPageMeta>::empty());
        assert(triples_view(out@) =~= Seq::empty());
    }
    while p < pages.len()
        invariant
            p <= pages@.len(),
            triples_view(out@) == pending_edges(pages@.take(p as int)),
        decreases pages.len() - p,
    {
        let page = &pages[p];
        let ghost src = page.id@;
        let ghost rels = texts(page.relates_to@);
        let ghost base = triples_view(out@);
        let mut j: usize = 0;
        proof {
            assert(rels.take(0) =~= Seq::<Seq<char>>::empty());
            assert(triples_view(out@) =~= base + page_edges(src, rels.take(0)));
        }
        while j < page.relates_to.len()
            invariant
                j <= page.relates_to@.len(),
                src == page.id@,
                rels == texts(page.relates_to@),
                triples_view(out@) == base + page_edges(src, rels.take(j as int)),
            decreases page.relates_to.len() - j,
        {
            let r = to_chars(page.relates_to[j].as_str());
            let k = char_index(&r, ':');
            let ghost before = out@;
            proof {
                assert(rels.take(j + 1).drop_last() =~= rels.take(j as int));
                assert(rels.take(j + 1).last() == r@);
            }
            if k < r.len() {
                let ty = string_of(&r, 0, k);
                let target = string_of(&r, k + 1, r.len());
                out.push((page.id.clone(), ty, target));
                proof {
                    assert(r@.subrange(0, k as int) == r@.take(k as int));
                    assert(r@.subrange(k + 1, r@.len() as int) == r@.skip(k + 1));
                    assert(triples_view(out@) =~= triples_view(before).push((src, r@.take(k as int), r@.skip(k + 1))));
                }
            }
            j = j + 1;
        }
        proof {
            assert(rels.take(page.relates_to@.len() as int) =~= rels);
            assert(pages@.take(p + 1).drop_last() =~= pages@.take(p as int));
            assert(pages@.take(p + 1).last() == *page);
        }
        p = p + 1;
    }
    proof {
        assert(pages@.take(pages@.len() as int) =~= pages@);
    }
    out
}

/// Whether `t` is among the texts.
fn has_text(v: &Vec<String>, t: &str) -> (r: bool)
    ensures
        r == strings_view(v@).contains(t@),
{
    let mut i: usize = 0;
    while i < v.len()
        invariant
            i <= v@.len(),
            forall|j: int| 0 <= j < i ==> v@[j]@ != t@,
        decreases v.len() - i,
    {
        if str_eq(v[i].as_str(), t) {
            proof {
                assert(strings_view(v@)[i as int] == t@);
            }
            return true;
        }
        i = i + 1;
    }
    proof {
        assert forall|j: int| 0 <= j < strings_view(v@).len() implies strings_view(v@)[j] != t@ by {
            assert(strings_view(v@)[j] == v@[j]@);
        }
    }
    false
}

/// The custom edge types the edges use, in order of first use.
fn used_customs(es: &Vec<(String, String, String)>) -> (res: Vec<String>)
    ensures
        strings_view(res@) == used_custom_types(triples_view(es@)),
{
    let ghost ev = triples_view(es@);
    let mut out: Vec<String> = Vec::new();
    let mut i: usize = 0;
    proof {
        assert(ev.take(0) =~= Seq::<(Seq<char>, Seq<char>, Seq<char>)>::empty());
        assert(strings_view(out@) =~= Seq::<Seq<char>>::empty());
    }
    while i < es.len()
        invariant
            i <= es@.len(),
            ev == triples_view(es@),
            strings_view(out@) == used_custom_types(ev.take(i as int)),
        decreases es.len() - i,
    {
        let t = &es[i].1;
        proof {
            assert(ev.take(i + 1).drop_last() =~= ev.take(i as int));
            assert(ev.take(i + 1).last().1 == t@);
        }
        if is_custom_edge(t.as_str()) && !has_text(&out, t.as_str()) {
            let ghost before = out@;
            out.push(t.clone());
            proof {
                assert(strings_view(out@) =~= strings_view(before).push(t@));
            }
        }
        i = i + 1;
    }
    proof {
        assert(ev.take(es@.len() as int) =~= ev);
    }
    out
}

/// The last node whose page has the id `id`.
pub fn last_index(g: &PageGraph, id: &str) -> (res: Option<usize>)
    ensures
        res is None <==> last_with_id(g.nodes_view(), id@) is None,
        res matches Some(k) ==> last_with_id(g.nodes_view(), id@) == Some(k as int) && k < g.nodes_view().len(),
{
    proof {
        use_type_invariant(g);
    }
    let ghost nodes = g.nodes_view();
    let n = g.node_count();
    let mut found: Option<usize> = None;
    let mut i: usize = 0;
    proof {
        assert(nodes.take(0) =~= Seq::<WikiPageMeta>::empty());
    }
    while i < n
        invariant
            g.wf(),
            nodes == g.nodes_view(),
            n == nodes.len(),
            i <= nodes.len(),
            found is None <==> last_with_id(nodes.take(i as int), id@) is None,
            found matches Some(k) ==> last_with_id(nodes.take(i as int), id@) == Some(k as int) && k < i,
        decreases n - i,
    {
        proof {
            assert(nodes.take(i + 1).drop_last() =~= nodes.take(i as int));
            assert(nodes.take(i + 1).last() == nodes[i as int]);
        }
        if str_eq(g.node(i).id.as_str(), id) {
            found = Some(i);
        }
        i = i + 1;
    }
    proof {
        assert(nodes.take(nodes.len() as int) =~= nodes);
    }
    found
}

proof fn lemma_first_named(nodes: Seq<WikiPageMeta>, q: Seq<char>, from: int, i: int)
    requires
        0 <= from <= i < nodes.len(),
        names_node(nodes, i, q),
        forall|j: int| from <= j < i ==> !names_node(nodes, j, q),
    ensures
        first_named(nodes, q, from) == Some(i),
    decreases i - from,
{
    if from < i {
        lemma_first_named(nodes, q, from + 1, i);
    }
}

proof fn lemma_none_named(nodes: Seq<WikiPageMeta>, q: Seq<char>, from: int)
    requires
        0 <= from,
        forall|j: int| from <= j < nodes.len() ==> !names_node(nodes, j, q),
    ensures
        first_named(nodes, q, from) is None,
    decreases nodes.len() - from,
{
    if from < nodes.len() {
        lemma_none_named(nodes, q, from + 1);
    }
}

proof fn lemma_last_with_id_bound(nodes: Seq<WikiPageMeta>, id: Seq<char>)
    ensures
        last_with_id(nodes, id) matches Some(k) ==> 0 <= k < nodes.len() && nodes[k].id@ == id,
        last_with_id(nodes, id) is None ==> forall|j: int| 0 <= j < nodes.len() ==> nodes[j].id@ != id,
    decreases nodes.len(),
{
    if nodes.len() > 0 {
        lemma_last_with_id_bound(nodes.drop_last(), id);
        assert forall|j: int| 0 <= j < nodes.len() - 1 implies nodes.drop_last()[j] == nodes[j] by {}
    }
}

/// The node a relation's target names.
fn target_index(g: &PageGraph, q: &str) -> (res: Option<usize>)
    requires
        g.wf(),
    ensures
        res is None <==> link_target(g.nodes_view(), q@) is None,
        res matches Some(k) ==> link_target(g.nodes_view(), q@) == Some(k as int) && k < g.nodes_view().len(),
{
    proof {
        lemma_last_with_id_bound(g.nodes_view(), q@);
    }
    match last_index(g, q) {
        Some(t) => Some(t),
        None => match resolve_page(g, q) {
            Some(k) => {
                proof {
                    assert(g.nodes_view()[k as int].id@ != q@);
                    assert forall|j: int| 0 <= j < k implies !names_node(g.nodes_view(), j, q@) by {
                        assert(!names_page(*g, j, q@));
                    }
                    assert(names_page(*g, k as int, q@));
                    lemma_first_named(g.nodes_view(), q@, 0, k as int);
                }
                last_index(g, g.node(k).id.as_str())
            },
            None => {
                proof {
                    assert forall|j: int| 0 <= j < g.nodes_view().len() implies !names_node(g.nodes_view(), j, q@) by {
                        assert(!names_page(*g, j, q@));
                    }
                    lemma_none_named(g.nodes_view(), q@, 0);
                }
                None
            },
        },
    }
}

/// Whether an edge between the two nodes was added already.
fn pair_added(added: &Vec<(usize, usize)>, s: usize, t: usize) -> (r: bool)
    ensures
        r == exists|k: int| 0 <= k < added@.len() && (#[trigger] added@[k]).0 == s && added@[k].1 == t,
{
    let mut i: usize = 0;
    while i < added.len()
        invariant
            i <= added@.len(),
            forall|k: int| 0 <= k < i ==> !((#[trigger] added@[k]).0 == s && added@[k].1 == t),
        decreases added.len() - i,
    {
        if added[i].0 == s && added[i].1 == t {
            return true;
        }
        i = i + 1;
    }
    false
}

proof fn lemma_edges_from_push(added: Seq<(int, int, Seq<char>)>, x: (int, int, Seq<char>), u: int)
    ensures
        edges_from(added.push(x), u) == edges_from(added, u) + if x.0 == u {
            seq![(x.1, x.2)]
        } else {
            Seq::empty()
        },
{
    assert(added.push(x).drop_last() =~= added);
}

/// The page graph of the pages: a node for each page, in order, and an edge
/// for each relation `type:target` whose type is not an unregistered custom
/// type, whose source and target pages are found (a page id names the last
/// page with that id; a target that is no id names the page whose title or
/// id it is, ignoring ASCII case), and whose two nodes have no edge yet.
pub fn graph_from_pages(pages: Vec<WikiPageMeta>, registered: &[String]) -> (res: PageGraph)
    requires
        pages@.len() <= u32::MAX,
        pending_edges(pages@).len() <= u32::MAX,
    ensures
        graph_of(res, pages@, strings_view(registered@)),
{
    let es = pending_of(&pages);
    let used = used_customs(&es);
    let rejected = validate_custom_edge_types(registered, used.as_slice());
    let ghost nodes = pages@;
    let ghost ev = triples_view(es@);
    let ghost rej = rejected_types(strings_view(registered@), used_custom_types(ev));
    let n = pages.len();
    let mut rest = pages;
    let mut rev: Vec<WikiPageMeta> = Vec::new();
    while rest.len() > 0
        invariant
            n == nodes.len(),
            rest@.len() + rev@.len() == n,
            forall|j: int| 0 <= j < rest@.len() ==> #[trigger] rest@[j] == nodes[j],
            forall|j: int| 0 <= j < rev@.len() ==> #[trigger] rev@[j] == nodes[n - 1 - j],
        decreases rest@.len(),
    {
        match rest.pop() {
            Some(x) => {
                rev.push(x);
            },
            None => {},
        }
    }
    let mut g = PageGraph::new();
    while rev.len() > 0
        invariant
            n == nodes.len(),
            n <= u32::MAX,
            g.wf(),
            g.edge_total() == 0,
            rev@.len() <= n,
            g.nodes_view() == nodes.take(n - rev@.len()),
            forall|j: int| 0 <= j < rev@.len() ==> #[trigger] rev@[j] == nodes[n - 1 - j],
            forall|u: int| #![auto] g.out(u).len() == 0,
        decreases rev@.len(),
    {
        let ghost before = rev@;
        match rev.pop() {
            Some(x) => {
                let ghost k = n - before.len();
                proof {
                    assert(before == rev@.push(x));
                    assert(x == before[before.len() - 1]);
                    assert(x == nodes[k]);
                    assert(nodes.take(k + 1) =~= nodes.take(k).push(x));
                }
                g.add_node(x);
            },
            None => {},
        }
    }
    proof {
        assert(nodes.take(n as int) =~= nodes);
        assert(es@.len() == ev.len());
    }
    let mut added: Vec<(usize, usize)> = Vec::new();
    let ghost mut addedg: Seq<(int, int, Seq<char>)> = Seq::empty();
    let mut i: usize = 0;
    proof {
        assert(ev.take(0) =~= Seq::<(Seq<char>, Seq<char>, Seq<char>)>::empty());
        assert forall|u: int| 0 <= u < nodes.len() implies out_matches(g, addedg, u) by {
            assert(g.out(u).len() == 0);
        }
    }
    while i < es.len()
        invariant
            i <= es@.len(),
            ev == triples_view(es@),
            strings_view(rejected@) == rej,
            g.wf(),
            g.nodes_view() == nodes,
            es@.len() <= u32::MAX,
            g.edge_total() == added@.len(),
            added@.len() <= i,
            addedg == added_edges(nodes, ev.take(i as int), rej),
            added@.len() == addedg.len(),
            forall|k: int| 0 <= k < added@.len() ==> (#[trigger] added@[k]).0 == addedg[k].0 && added@[k].1 == addedg[k].1,
            forall|u: int| 0 <= u < nodes.len() ==> out_matches(g, addedg, u),
        decreases es.len() - i,
    {
        let ghost e = ev[i as int];
        proof {
            assert(e == (es@[i as int].0@, es@[i as int].1@, es@[i as int].2@));
            assert(ev.take(i + 1).drop_last() =~= ev.take(i as int));
            assert(ev.take(i + 1).last() == e);
        }
        let skip = has_text(&rejected, es[i].1.as_str());
        proof {
            assert(skip == rej.contains(e.1));
            let prev = added_edges(nodes, ev.take(i + 1).drop_last(), rej);
            assert(prev == addedg);
        }
        if !skip {
            let src = last_index(&g, es[i].0.as_str());
            let tgt = target_index(&g, es[i].2.as_str());
            match (src, tgt) {
                (Some(s), Some(t)) => {
                    let dup = pair_added(&added, s, t);
                    proof {
                        if dup {
                            let k = choose|k: int| 0 <= k < added@.len() && (#[trigger] added@[k]).0 == s && added@[k].1 == t;
                            assert(addedg[k].0 == s && addedg[k].1 == t);
                        }
                        if has_pair(addedg, s as int, t as int) {
                            let k = choose|k: int| 0 <= k < addedg.len() && (#[trigger] addedg[k]).0 == s && addedg[k].1 == t;
                            assert(added@[k].0 == s && added@[k].1 == t);
                        }
                    }
                    proof {
                        assert(last_with_id(nodes, e.0) == Some(s as int));
                        assert(link_target(nodes, e.2) == Some(t as int));
                        assert(dup == has_pair(addedg, s as int, t as int));
                    }
                    if !dup {
                        let kind = match parse_edge_type(es[i].1.as_str()) {
                            Ok(k) => k,
                            Err(_) => crate::engine::EdgeType::RelatesTo,
                        };
                        let ghost old_g = g;
                        let ghost x = (s as int, t as int, e.1);
                        proof {
                            assert(e.1 == es@[i as int].1@);
                            assert(edge_denoted(kind, e.1));
                        }
                        g.add_edge(s, t, kind);
                        added.push((s, t));
                        proof {
                            assert forall|u: int| 0 <= u < nodes.len() implies out_matches(g, addedg.push(x), u) by {
                                lemma_edges_from_push(addedg, x, u);
                                assert(out_matches(old_g, addedg, u));
                                if u == s {
                                    let ef = edges_from(addedg, u);
                                    let ef2 = edges_from(addedg.push(x), u);
                                    assert(g.out(u) == seq![(t, kind)] + old_g.out(u));
                                    assert(ef2 == ef.push((t as int, e.1)));
                                    assert forall|k: int| 0 <= k < g.out(u).len() implies (#[trigger] g.out(u)[k]).0
                                        == ef2[ef2.len() - 1 - k].0 && edge_denoted(
                                        g.out(u)[k].1,
                                        ef2[ef2.len() - 1 - k].1,
                                    ) by {
                                        assert(out_matches(old_g, addedg, u));
                                        if k > 0 {
                                            assert(g.out(u)[k] == old_g.out(u)[k - 1]);
                                            assert(ef2[ef2.len() - 1 - k] == ef[ef.len() - 1 - (k - 1)]);
                                        } else {
                                            assert(ef2[ef2.len() - 1 - k] == (t as int, e.1));
                                            assert(g.out(u)[k] == (t, kind));
                                        }
                                    }
                                } else {
                                    assert(g.out(u) == old_g.out(u));
                                    assert(edges_from(addedg.push(x), u) =~= edges_from(addedg, u));
                                }
                            }
                            addedg = addedg.push(x);
                        }
                    }
                },
                _ => {},
            }
        }
        i = i + 1;
    }
    proof {
        assert(ev.take(es@.len() as int) =~= ev);
    }
    g
}

} // verus!
