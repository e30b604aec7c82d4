//! The page graph, held in petgraph's `StableGraph`, and breadth-first walks
//! over it: the shortest path between two pages and the neighbourhood of a
//! page.
use vstd::prelude::*;
use vstd::set_lib::{lemma_int_range, lemma_len_subset, set_int_range};
use crate::engine::{EdgeType, WikiPageMeta};
use petgraph::graph::NodeIndex;
use petgraph::stable_graph::StableGraph;
use petgraph::visit::EdgeRef;
use crate::text::{ascii_lower, ascii_lower_char, owned, push_str, spec_to_lowercase, to_chars, to_lowercase};

verus! {

// ─── The graph ──────────────────────────────────────────────

/// petgraph's stable graph, carried through opaquely.
#[verifier::external_type_specification]
#[verifier::external_body]
#[verifier::reject_recursive_types(N)]
#[verifier::reject_recursive_types(E)]
#[verifier::reject_recursive_types(Ty)]
#[verifier::reject_recursive_types(Ix)]
pub struct ExStableGraph<N, E, Ty, Ix>(StableGraph<N, E, Ty, Ix>);

/// petgraph's marker for directed graphs.
#[verifier::external_type_specification]
#[verifier::external_body]
pub struct ExDirected(petgraph::Directed);

/// The slots of a `StableGraph` of pages, by index: its node slots (a slot
/// left by a removed node holds `None`) and its edge slots (source, target,
/// type).
pub uninterp spec fn stable_graph_slots(g: StableGraph<WikiPageMeta, EdgeType>) -> (Seq<Option<WikiPageMeta>>, Seq<Option<(usize, usize, EdgeType)>>);

/// No node slot and no edge slot is vacant.
pub open spec fn slots_full(s: (Seq<Option<WikiPageMeta>>, Seq<Option<(usize, usize, EdgeType)>>)) -> bool {
    &&& forall|i: int| 0 <= i < s.0.len() ==> (#[trigger] s.0[i]) is Some
    &&& forall|i: int| 0 <= i < s.1.len() ==> (#[trigger] s.1[i]) is Some
}

/// The edges in the slots `es` that leave node `u`, newest first: target
/// and type.
pub open spec fn edges_leaving(es: Seq<Option<(usize, usize, EdgeType)>>, u: int) -> Seq<(usize, EdgeType)>
    decreases es.len(),
{
    if es.len() == 0 {
        Seq::empty()
    } else {
        let rest = edges_leaving(es.drop_last(), u);
        match es.last() {
            Some(e) => if e.0 == u {
                seq![(e.1, e.2)] + rest
            } else {
                rest
            },
            None => rest,
        }
    }
}

/// `StableGraph::new`: a directed graph with no node and no edge.
#[verifier::external_body]
fn stable_graph_new() -> (g: StableGraph<WikiPageMeta, EdgeType>)
    ensures
        stable_graph_slots(g).0.len() == 0,
        stable_graph_slots(g).1.len() == 0,
{
    StableGraph::new()
}

/// `StableGraph::add_node`: with no vacant node slot, the weight goes into a
/// new slot at the end, whose index comes back; the edges stay. It panics
/// when that index is the index type's end marker (`u32::MAX`).
#[verifier::external_body]
fn stable_graph_add_node(g: &mut StableGraph<WikiPageMeta, EdgeType>, w: WikiPageMeta) -> (i: usize)
    requires
        slots_full(stable_graph_slots(*old(g))),
        stable_graph_slots(*old(g)).0.len() < u32::MAX,
    ensures
        i == stable_graph_slots(*old(g)).0.len(),
        stable_graph_slots(*final(g)).0 == stable_graph_slots(*old(g)).0.push(Some(w)),
        stable_graph_slots(*final(g)).1 == stable_graph_slots(*old(g)).1,
{
    g.add_node(w).index()
}

/// `StableGraph::add_edge`: with no vacant edge slot, the edge goes into a
/// new slot at the end; the nodes stay. It panics when an endpoint is no
/// node, and when the new slot's index is the end marker (`u32::MAX`).
#[verifier::external_body]
fn stable_graph_add_edge(g: &mut StableGraph<WikiPageMeta, EdgeType>, a: usize, b: usize, w: EdgeType)
    requires
        slots_full(stable_graph_slots(*old(g))),
        a < stable_graph_slots(*old(g)).0.len(),
        b < stable_graph_slots(*old(g)).0.len(),
        stable_graph_slots(*old(g)).1.len() < u32::MAX,
    ensures
        stable_graph_slots(*final(g)).0 == stable_graph_slots(*old(g)).0,
        stable_graph_slots(*final(g)).1 == stable_graph_slots(*old(g)).1.push(Some((a, b, w))),
{
    g.add_edge(NodeIndex::new(a), NodeIndex::new(b), w);
}

/// `StableGraph::node_count`: the number of occupied node slots, which is
/// the number of slots when none is vacant.
#[verifier::external_body]
fn stable_graph_node_count(g: &StableGraph<WikiPageMeta, EdgeType>) -> (n: usize)
    ensures
        slots_full(stable_graph_slots(*g)) ==> n == stable_graph_slots(*g).0.len(),
{
    g.node_count()
}

/// `StableGraph::edge_count`: the number of occupied edge slots, which is
/// the number of slots when none is vacant.
#[verifier::external_body]
fn stable_graph_edge_count(g: &StableGraph<WikiPageMeta, EdgeType>) -> (n: usize)
    ensures
        slots_full(stable_graph_slots(*g)) ==> n == stable_graph_slots(*g).1.len(),
{
    g.edge_count()
}

/// Indexing a `StableGraph` by node: the weight in the node's slot.
#[verifier::external_body]
fn stable_graph_node(g: &StableGraph<WikiPageMeta, EdgeType>, i: usize) -> (r: &WikiPageMeta)
    requires
        i < stable_graph_slots(*g).0.len(),
        stable_graph_slots(*g).0[i as int] is Some,
    ensures
        stable_graph_slots(*g).0[i as int] == Some(*r),
{
    &g[NodeIndex::new(i)]
}

/// `StableGraph::edges` of a directed graph: the edges leaving node `u`,
/// newest first (each new edge is put at the head of its source's list;
/// with no vacant slot no list was ever relinked), as target and type.
#[verifier::external_body]
fn stable_graph_edges(g: &StableGraph<WikiPageMeta, EdgeType>, u: usize) -> (r: Vec<(usize, EdgeType)>)
    requires
        slots_full(stable_graph_slots(*g)),
        u < stable_graph_slots(*g).0.len(),
    ensures
        r@ == edges_leaving(stable_graph_slots(*g).1, u as int),
{
    g.edges(NodeIndex::new(u)).map(|e| (e.target().index(), e.weight().clone())).collect()
}

/// The page graph: one node per page, held in petgraph's `StableGraph`;
/// a walk visits the outgoing typed edges of a node newest first, as
/// petgraph lists them. Nothing is ever removed from it.
pub struct PageGraph {
    graph: StableGraph<WikiPageMeta, EdgeType>,
}

impl PageGraph {
    /// The slots of the underlying graph.
    pub closed spec fn slots(&self) -> (Seq<Option<WikiPageMeta>>, Seq<Option<(usize, usize, EdgeType)>>) {
        stable_graph_slots(self.graph)
    }

    /// The pages of the nodes, by index.
    pub closed spec fn nodes_view(&self) -> Seq<WikiPageMeta> {
        Seq::new(self.slots().0.len(), |i: int| self.slots().0[i]->0)
    }

    /// Number of edges.
    pub closed spec fn edge_total(&self) -> nat {
        self.slots().1.len()
    }

    /// Number of nodes.
    pub open spec fn node_total(&self) -> int {
        self.nodes_view().len() as int
    }

    /// Outgoing edges of node `u`, newest first: target node and edge type.
    pub closed spec fn out(&self, u: int) -> Seq<(usize, EdgeType)> {
        edges_leaving(self.slots().1, u)
    }

    /// No slot of the underlying graph is vacant.
    pub closed spec fn intact(&self) -> bool {
        &&& slots_full(self.slots())
        &&& forall|i: int|
            0 <= i < self.slots().1.len() && (#[trigger] self.slots().1[i]) is Some ==> self.slots().1[i].unwrap().0
                < self.slots().0.len() && self.slots().1[i].unwrap().1 < self.slots().0.len()
    }

    /// Nothing was removed, and every edge ends at a node.
    pub open spec fn wf(&self) -> bool {
        &&& self.intact()
        &&& forall|u: int, k: int|
            0 <= u < self.node_total() && 0 <= k < self.out(u).len() ==> (#[trigger] self.out(
                u,
            )[k]).0 < self.node_total()
    }

    /// There is an edge from `u` to `v`.
    pub open spec fn has_edge(&self, u: int, v: int) -> bool {
        exists|k: int| 0 <= k < self.out(u).len() && (#[trigger] self.out(u)[k]).0 == v
    }

    /// Every page graph is well formed.
    #[verifier::type_invariant]
    pub(crate) open spec fn graph_inv(self) -> bool {
        self.wf()
    }

    /// A graph on an empty petgraph graph is well formed.
    proof fn lemma_empty_wf(gr: StableGraph<WikiPageMeta, EdgeType>)
        requires
            stable_graph_slots(gr).0.len() == 0,
            stable_graph_slots(gr).1.len() == 0,
        ensures
            (PageGraph { graph: gr }).wf(),
            (PageGraph { graph: gr }).nodes_view().len() == 0,
            (PageGraph { graph: gr }).edge_total() == 0,
            forall|u: int| #![auto] (PageGraph { graph: gr }).out(u).len() == 0,
    {
        let g = PageGraph { graph: gr };
        assert forall|u: int| #![auto] g.out(u).len() == 0 by {
            assert(g.slots().1.len() == 0);
        }
    }

    /// An empty graph.
    pub fn new() -> (g: PageGraph)
        ensures
            g.wf(),
            g.nodes_view().len() == 0,
            g.edge_total() == 0,
            forall|u: int| #![auto] g.out(u).len() == 0,
    {
        let gr = stable_graph_new();
        proof {
            PageGraph::lemma_empty_wf(gr);
        }
        PageGraph { graph: gr }
    }

    /// Adds a page as a new node without edges and returns its index.
    pub fn add_node(&mut self, meta: WikiPageMeta) -> (idx: usize)
        requires
            old(self).nodes_view().len() < u32::MAX,
        ensures
            final(self).wf(),
            idx == old(self).nodes_view().len(),
            final(self).nodes_view() == old(self).nodes_view().push(meta),
            final(self).edge_total() == old(self).edge_total(),
            forall|u: int| #![auto] final(self).out(u) == old(self).out(u),
    {
        proof {
            use_type_invariant(&*self);
        }
        let ghost s0 = self.slots();
        let mut gr = stable_graph_new();
        proof {
            PageGraph::lemma_empty_wf(gr);
        }
        std::mem::swap(&mut gr, &mut self.graph);
        let idx = stable_graph_add_node(&mut gr, meta);
        let ghost ng = PageGraph { graph: gr };
        proof {
            let s1 = ng.slots();
            assert(ng.nodes_view() =~= old(self).nodes_view().push(meta));
            assert forall|i: int| 0 <= i < s1.0.len() implies (#[trigger] s1.0[i]) is Some by {
                if i < s0.0.len() {
                    assert(s1.0[i] == s0.0[i]);
                }
            }
            assert forall|i: int| 0 <= i < s0.1.len() && (#[trigger] s0.1[i]) is Some implies s0.1[i].unwrap().0
                < s0.0.len() by {
                assert(old(self).intact());
            }
            assert forall|u: int, k: int|
                0 <= u < ng.node_total() && 0 <= k < ng.out(u).len() implies (#[trigger] ng.out(
                u,
            )[k]).0 < ng.node_total() by {
                assert(ng.out(u) == old(self).out(u));
                if u < old(self).node_total() {
                } else {
                    lemma_edges_leaving_sources(s0.1, s0.0.len() as int, u);
                }
            }
            assert(ng.wf());
        }
        self.graph = gr;
        idx
    }

    /// Adds an edge of type `kind` from `from` to `to`, ahead of the existing
    /// edges of `from`.
    pub fn add_edge(&mut self, from: usize, to: usize, kind: EdgeType)
        requires
            from < old(self).node_total(),
            to < old(self).node_total(),
            old(self).edge_total() < u32::MAX,
        ensures
            final(self).wf(),
            final(self).nodes_view() == old(self).nodes_view(),
            final(self).edge_total() == old(self).edge_total() + 1,
            final(self).out(from as int) == seq![(to, kind)] + old(self).out(from as int),
            forall|u: int| u != from ==> #[trigger] final(self).out(u) == old(self).out(u),
    {
        proof {
            use_type_invariant(&*self);
        }
        let ghost s0 = self.slots();
        let mut gr = stable_graph_new();
        proof {
            PageGraph::lemma_empty_wf(gr);
        }
        std::mem::swap(&mut gr, &mut self.graph);
        stable_graph_add_edge(&mut gr, from, to, kind);
        let ghost ng = PageGraph { graph: gr };
        proof {
            let s1 = ng.slots();
            assert(s1.1.drop_last() =~= s0.1);
            assert(ng.nodes_view() =~= old(self).nodes_view());
            assert forall|i: int| 0 <= i < s1.1.len() implies (#[trigger] s1.1[i]) is Some by {
                if i < s0.1.len() {
                    assert(s1.1[i] == s0.1[i]);
                }
            }
            assert forall|i: int| 0 <= i < s1.1.len() && (#[trigger] s1.1[i]) is Some implies s1.1[i].unwrap().0
                < s1.0.len() && s1.1[i].unwrap().1 < s1.0.len() by {
                if i < s0.1.len() {
                    assert(s1.1[i] == s0.1[i]);
                }
            }
            assert forall|u: int, k: int|
                0 <= u < ng.node_total() && 0 <= k < ng.out(u).len() implies (#[trigger] ng.out(
                u,
            )[k]).0 < ng.node_total() by {
                if u != from {
                    assert(ng.out(u) == old(self).out(u));
                } else if k > 0 {
                    assert(ng.out(u)[k] == old(self).out(u)[k - 1]);
                }
            }
            assert(ng.wf());
        }
        self.graph = gr;
    }

    /// Number of nodes.
    pub fn node_count(&self) -> (n: usize)
        ensures
            n == self.nodes_view().len(),
    {
        proof {
            use_type_invariant(self);
        }
        stable_graph_node_count(&self.graph)
    }

    /// Number of edges.
    pub fn edge_count(&self) -> (n: usize)
        ensures
            n == self.edge_total(),
    {
        proof {
            use_type_invariant(self);
        }
        stable_graph_edge_count(&self.graph)
    }

    /// The page of node `i`.
    pub fn node(&self, i: usize) -> (m: &WikiPageMeta)
        requires
            i < self.nodes_view().len(),
        ensures
            *m == self.nodes_view()[i as int],
    {
        proof {
            use_type_invariant(self);
        }
        stable_graph_node(&self.graph, i)
    }

    /// The outgoing edges of node `u`, newest first.
    pub fn out_edges(&self, u: usize) -> (r: Vec<(usize, EdgeType)>)
        requires
            u < self.nodes_view().len(),
        ensures
            r@ == self.out(u as int),
    {
        proof {
            use_type_invariant(self);
        }
        stable_graph_edges(&self.graph, u)
    }

    /// Index of the first node whose page has the id `id`.
    pub fn index_of(&self, id: &str) -> (res: Option<usize>)
        ensures
            res matches Some(i) ==> i < self.nodes_view().len() && self.nodes_view()[i as int].id@ == id@
                && forall|j: int| 0 <= j < i ==> self.nodes_view()[j].id@ != id@,
            res is None ==> forall|j: int|
                0 <= j < self.nodes_view().len() ==> self.nodes_view()[j].id@ != id@,
    {
        proof {
            use_type_invariant(self);
        }
        let n = self.node_count();
        let mut i: usize = 0;
        while i < n
            invariant
                self.wf(),
                n == self.nodes_view().len(),
                i <= n,
                forall|j: int| 0 <= j < i ==> self.nodes_view()[j].id@ != id@,
            decreases n - i,
        {
            if crate::text::str_eq(self.node(i).id.as_str(), id) {
                return Some(i);
            }
            i = i + 1;
        }
        None
    }
}

/// The edges leaving `u` in the slots `es` come from edge slots whose
/// source is `u`; with no edge slot from node `n` or beyond, a node `u >= n`
/// has none.
proof fn lemma_edges_leaving_sources(es: Seq<Option<(usize, usize, EdgeType)>>, n: int, u: int)
    requires
        n <= u,
        forall|i: int| 0 <= i < es.len() && (#[trigger] es[i]) is Some ==> es[i].unwrap().0 < n,
    ensures
        edges_leaving(es, u).len() == 0,
    decreases es.len(),
{
    if es.len() > 0 {
        lemma_edges_leaving_sources(es.drop_last(), n, u);
        assert(es[es.len() - 1] == es.last());
    }
}

// ─── Walks ──────────────────────────────────────────────────

/// The `i`-th node of `p` has an edge to the next one.
pub open spec fn steps_to(g: PageGraph, p: Seq<int>, i: int) -> bool {
    g.has_edge(p[i], p[i + 1])
}

/// `p` is a walk: a nonempty sequence of nodes, each joined to the next by an
/// edge.
pub open spec fn is_walk(g: PageGraph, p: Seq<int>) -> bool {
    &&& p.len() >= 1
    &&& forall|i: int| 0 <= i < p.len() ==> 0 <= #[trigger] p[i] < g.node_total()
    &&& forall|i: int| 0 <= i < p.len() - 1 ==> #[trigger] steps_to(g, p, i)
}

/// `p` is a walk from `s` to `t`.
pub open spec fn walk_between(g: PageGraph, p: Seq<int>, s: int, t: int) -> bool {
    is_walk(g, p) && p[0] == s && p.last() == t
}

/// `t` can be reached from `s` along at most `d` edges.
pub open spec fn reachable_within(g: PageGraph, s: int, t: int, d: int) -> bool {
    exists|p: Seq<int>| #[trigger] walk_between(g, p, s, t) && p.len() <= d + 1
}

// ─── Edge labels ────────────────────────────────────────────

/// What std's `Debug` formatting makes of a string slice.
pub uninterp spec fn spec_debug_str(s: Seq<char>) -> Seq<char>;

/// Calls std's `Debug` formatting of a string slice (the text in double
/// quotes, with quotes, backslashes and control characters escaped). Claims
/// only that the result is the named text for `s`.
#[verifier::external_body]
fn debug_str(s: &str) -> (r: String)
    ensures
        r@ == spec_debug_str(s@),
{
    format!("{:?}", s)
}

/// The `Debug` text of an edge type: the variant's name, and for a custom
/// edge its keyword in quotes inside `Custom(..)`.
pub open spec fn edge_debug_text(e: EdgeType) -> Seq<char> {
    match e {
        EdgeType::Extends => "Extends"@,
        EdgeType::Implements => "Implements"@,
        EdgeType::ExampleOf => "ExampleOf"@,
        EdgeType::PartOf => "PartOf"@,
        EdgeType::RelatesTo => "RelatesTo"@,
        EdgeType::Supports => "Supports"@,
        EdgeType::Contradicts => "Contradicts"@,
        EdgeType::Supersedes => "Supersedes"@,
        EdgeType::DependsOn => "DependsOn"@,
        EdgeType::RequiredBy => "RequiredBy"@,
        EdgeType::Questions => "Questions"@,
        EdgeType::Answers => "Answers"@,
        EdgeType::References => "References"@,
        EdgeType::SimilarTo => "SimilarTo"@,
        EdgeType::Causes => "Causes"@,
        EdgeType::Mitigates => "Mitigates"@,
        EdgeType::Custom(s) => "Custom("@ + spec_debug_str(s@) + ")"@,
    }
}

/// The label of an edge type in walk results: its `Debug` text in lower case.
pub open spec fn edge_label_text(e: EdgeType) -> Seq<char> {
    spec_to_lowercase(edge_debug_text(e))
}

/// The label of an edge type: its `Debug` text in lower case
/// (`RelatesTo` gives `relatesto`).
pub fn edge_label(e: &EdgeType) -> (r: String)
    ensures
        r@ == edge_label_text(*e),
{
    let text: String = match e {
        EdgeType::Extends => owned("Extends"),
        EdgeType::Implements => owned("Implements"),
        EdgeType::ExampleOf => owned("ExampleOf"),
        EdgeType::PartOf => owned("PartOf"),
        EdgeType::RelatesTo => owned("RelatesTo"),
        EdgeType::Supports => owned("Supports"),
        EdgeType::Contradicts => owned("Contradicts"),
        EdgeType::Supersedes => owned("Supersedes"),
        EdgeType::DependsOn => owned("DependsOn"),
        EdgeType::RequiredBy => owned("RequiredBy"),
        EdgeType::Questions => owned("Questions"),
        EdgeType::Answers => owned("Answers"),
        EdgeType::References => owned("References"),
        EdgeType::SimilarTo => owned("SimilarTo"),
        EdgeType::Causes => owned("Causes"),
        EdgeType::Mitigates => owned("Mitigates"),
        EdgeType::Custom(s) => {
            let mut t = owned("Custom(");
            let quoted = debug_str(s.as_str());
            push_str(&mut t, quoted.as_str());
            push_str(&mut t, ")");
            t
        },
    };
    to_lowercase(text.as_str())
}

// ─── Breadth-first search ───────────────────────────────────

/// The state of a breadth-first search: which nodes were reached, at what
/// depth, from which node and by which of its edges, and in what order.
struct Search {
    visited: Vec<bool>,
    dist: Vec<usize>,
    parent: Vec<usize>,
    hop: Vec<usize>,
    order: Vec<usize>,
}

/// The sizes of the search state, its start, and how far it has got.
#[verifier::opaque]
spec fn inv_shape(
    g: PageGraph,
    start: int,
    vis: Seq<bool>,
    dist: Seq<usize>,
    par: Seq<usize>,
    hop: Seq<usize>,
    ord: Seq<usize>,
    pos: Seq<int>,
    h: int,
) -> bool {
    let n = g.node_total();
    &&& vis.len() == n && dist.len() == n && par.len() == n && hop.len() == n && pos.len() == n
    &&& 0 <= start < n
    &&& 0 <= h <= ord.len()
    &&& ord.len() >= 1 && ord[0] == start
    &&& vis[start] && dist[start] == 0
}

/// The discovery order holds each reached node once, at the position that
/// `pos` records for it.
#[verifier::opaque]
spec fn inv_order(g: PageGraph, vis: Seq<bool>, ord: Seq<usize>, pos: Seq<int>) -> bool {
    let n = g.node_total();
    &&& forall|j: int|
        0 <= j < ord.len() ==> (#[trigger] ord[j]) < n && vis[ord[j] as int] && pos[ord[j] as int] == j
    &&& forall|v: int| 0 <= v < n && #[trigger] vis[v] ==> 0 <= pos[v] < ord.len() && ord[pos[v]] == v
}

/// Every reached node other than the start was reached from a reached node,
/// one level deeper, along the recorded edge.
spec fn parent_link(g: PageGraph, vis: Seq<bool>, dist: Seq<usize>, par: Seq<usize>, hop: Seq<usize>, v: int) -> bool {
    let u = par[v] as int;
    let k = hop[v] as int;
    &&& 0 <= u < g.node_total()
    &&& vis[u]
    &&& dist[v] == dist[u] + 1
    &&& 0 <= k < g.out(u).len()
    &&& g.out(u)[k].0 == v
}

/// The recorded parents form a tree of shortest-first discoveries.
#[verifier::opaque]
spec fn inv_tree(g: PageGraph, start: int, vis: Seq<bool>, dist: Seq<usize>, par: Seq<usize>, hop: Seq<usize>) -> bool {
    forall|v: int|
        0 <= v < g.node_total() && #[trigger] vis[v] && v != start ==> parent_link(g, vis, dist, par, hop, v)
}

/// Depths are bounded by `md`, never decrease along the order, and the nodes
/// not yet taken lie at most one level below the last one taken.
#[verifier::opaque]
spec fn inv_levels(g: PageGraph, md: int, vis: Seq<bool>, dist: Seq<usize>, ord: Seq<usize>, h: int) -> bool {
    &&& forall|v: int| 0 <= v < g.node_total() && #[trigger] vis[v] ==> dist[v] <= md
    &&& forall|i: int, j: int|
        #![trigger ord[i], ord[j]]
        0 <= i <= j < ord.len() ==> dist[ord[i] as int] <= dist[ord[j] as int]
    &&& h > 0 ==> forall|j: int|
        h <= j < ord.len() ==> dist[#[trigger] ord[j] as int] <= dist[ord[h - 1] as int] + 1
    &&& h == 0 ==> ord.len() == 1
}

/// What holds of a breadth-first search from `start` that expands no node at
/// depth `md` or deeper, after `h` nodes of the discovery order were taken.
spec fn search_inv(
    g: PageGraph,
    start: int,
    md: int,
    vis: Seq<bool>,
    dist: Seq<usize>,
    par: Seq<usize>,
    hop: Seq<usize>,
    ord: Seq<usize>,
    pos: Seq<int>,
    h: int,
) -> bool {
    &&& inv_shape(g, start, vis, dist, par, hop, ord, pos, h)
    &&& inv_order(g, vis, ord, pos)
    &&& inv_tree(g, start, vis, dist, par, hop)
    &&& inv_levels(g, md, vis, dist, ord, h)
}

/// Every node taken before position `h` whose depth is below `md` has all its
/// neighbours reached, at most one level deeper.
#[verifier::opaque]
spec fn closed_below(g: PageGraph, vis: Seq<bool>, dist: Seq<usize>, pos: Seq<int>, h: int, md: int) -> bool {
    forall|v: int, k: int|
        0 <= v < g.node_total() && vis[v] && pos[v] < h && dist[v] < md && 0 <= k < g.out(v).len()
            ==> vis[(#[trigger] g.out(v)[k]).0 as int] && dist[g.out(v)[k].0 as int] <= dist[v] + 1
}

/// A discovery order whose entries are told apart by their positions is no
/// longer than the number of nodes.
proof fn lemma_order_len(ord: Seq<usize>, pos: Seq<int>, n: int)
    requires
        n >= 0,
        forall|j: int| 0 <= j < ord.len() ==> (#[trigger] ord[j]) < n && pos[ord[j] as int] == j,
    ensures
        ord.len() <= n,
{
    let s = ord.map_values(|x: usize| x as int);
    assert forall|i: int, j: int| 0 <= i < s.len() && 0 <= j < s.len() && i != j implies s[i]
        != s[j] by {
        assert(pos[ord[i] as int] == i);
        assert(pos[ord[j] as int] == j);
    }
    assert(s.no_duplicates());
    s.unique_seq_to_set();
    lemma_int_range(0, n);
    assert forall|x: int| s.to_set().contains(x) implies set_int_range(0, n).contains(x) by {
        assert(s.contains(x));
        let i = choose|i: int| 0 <= i < s.len() && s[i] == x;
        assert(ord[i] < n);
    }
    lemma_len_subset(s.to_set(), set_int_range(0, n));
}

/// Along a walk from the start, every node is reached no deeper than its
/// place in the walk, as long as the nodes before it were expanded.
proof fn lemma_reach_bound(
    g: PageGraph,
    vis: Seq<bool>,
    dist: Seq<usize>,
    pos: Seq<int>,
    h: int,
    md: int,
    c: int,
    p: Seq<int>,
)
    requires
        g.wf(),
        vis.len() == g.node_total(),
        dist.len() == g.node_total(),
        pos.len() == g.node_total(),
        is_walk(g, p),
        vis[p[0]],
        dist[p[0]] == 0,
        closed_below(g, vis, dist, pos, h, md),
        forall|v: int| 0 <= v < g.node_total() && #[trigger] vis[v] && dist[v] < c ==> pos[v] < h,
        p.len() - 1 < c,
        p.len() - 1 <= md,
    ensures
        vis[p.last()],
        dist[p.last()] <= p.len() - 1,
    decreases p.len(),
{
    reveal(closed_below);
    if p.len() > 1 {
        let q = p.drop_last();
        assert(is_walk(g, q)) by {
            assert forall|i: int| 0 <= i < q.len() implies 0 <= #[trigger] q[i] < g.node_total() by {
                assert(p[i] == q[i]);
            }
            assert forall|i: int| 0 <= i < q.len() - 1 implies #[trigger] steps_to(g, q, i) by {
                assert(steps_to(g, p, i));
            }
        }
        lemma_reach_bound(g, vis, dist, pos, h, md, c, q);
        let u = p[p.len() - 2];
        let v = p.last();
        assert(q.last() == u);
        assert(steps_to(g, p, p.len() - 2));
        let k = choose|k: int| 0 <= k < g.out(u).len() && (#[trigger] g.out(u)[k]).0 == v;
        assert(0 <= u < g.node_total());
        assert(pos[u] < h);
        assert(vis[g.out(u)[k].0 as int]);
    }
}

/// The plain facts of the search state that the search loop reads.
proof fn lemma_inv_facts(
    g: PageGraph,
    start: int,
    md: int,
    vis: Seq<bool>,
    dist: Seq<usize>,
    par: Seq<usize>,
    hop: Seq<usize>,
    ord: Seq<usize>,
    pos: Seq<int>,
    h: int,
)
    requires
        search_inv(g, start, md, vis, dist, par, hop, ord, pos, h),
    ensures
        vis.len() == g.node_total(),
        dist.len() == g.node_total(),
        par.len() == g.node_total(),
        hop.len() == g.node_total(),
        pos.len() == g.node_total(),
        0 <= start < g.node_total(),
        0 <= h <= ord.len() <= g.node_total(),
        forall|j: int| 0 <= j < ord.len() ==> (#[trigger] ord[j]) < g.node_total() && vis[ord[j] as int],
        forall|v: int| 0 <= v < g.node_total() && #[trigger] vis[v] ==> dist[v] <= md,
{
    reveal(inv_shape);
    reveal(inv_order);
    reveal(inv_levels);
    lemma_order_len(ord, pos, g.node_total());
}

/// Taking the node at position `h` keeps the invariant; a node that is not
/// expanded keeps the expanded part closed.
proof fn lemma_take(
    g: PageGraph,
    start: int,
    md: int,
    vis: Seq<bool>,
    dist: Seq<usize>,
    par: Seq<usize>,
    hop: Seq<usize>,
    ord: Seq<usize>,
    pos: Seq<int>,
    h: int,
)
    requires
        search_inv(g, start, md, vis, dist, par, hop, ord, pos, h),
        closed_below(g, vis, dist, pos, h, md),
        h < ord.len(),
    ensures
        search_inv(g, start, md, vis, dist, par, hop, ord, pos, h + 1),
        dist[ord[h] as int] >= md ==> closed_below(g, vis, dist, pos, h + 1, md),
{
    reveal(inv_shape);
    reveal(inv_order);
    reveal(inv_levels);
    reveal(closed_below);
    if h > 0 {
        assert forall|j: int| h + 1 <= j < ord.len() implies dist[#[trigger] ord[j] as int] <= dist[ord[h] as int]
            + 1 by {
            assert(dist[ord[h - 1] as int] <= dist[ord[h] as int]);
        }
    }
    if dist[ord[h] as int] >= md {
        assert forall|v: int, k: int|
            0 <= v < g.node_total() && vis[v] && pos[v] < h + 1 && dist[v] < md && 0 <= k < g.out(v).len()
                implies vis[(#[trigger] g.out(v)[k]).0 as int] && dist[g.out(v)[k].0 as int] <= dist[v] + 1 by {
            if pos[v] == h {
                assert(ord[pos[v]] == v);
            }
        }
    }
}

/// A neighbour of the node just taken that was reached already lies at most
/// one level deeper than it.
proof fn lemma_seen(
    g: PageGraph,
    start: int,
    md: int,
    vis: Seq<bool>,
    dist: Seq<usize>,
    par: Seq<usize>,
    hop: Seq<usize>,
    ord: Seq<usize>,
    pos: Seq<int>,
    h: int,
    t: int,
)
    requires
        search_inv(g, start, md, vis, dist, par, hop, ord, pos, h),
        h > 0,
        0 <= t < g.node_total(),
        vis[t],
    ensures
        dist[t] <= dist[ord[h - 1] as int] + 1,
{
    reveal(inv_shape);
    reveal(inv_order);
    reveal(inv_levels);
    let j = pos[t];
    assert(ord[j] == t);
    if j < h - 1 {
        assert(dist[ord[j] as int] <= dist[ord[h - 1] as int]);
    }
}

/// Reaching the new node `t` keeps the order and the shape of the state.
proof fn lemma_visit_order(
    g: PageGraph,
    start: int,
    vis: Seq<bool>,
    dist: Seq<usize>,
    par: Seq<usize>,
    hop: Seq<usize>,
    ord: Seq<usize>,
    pos: Seq<int>,
    h: int,
    t: usize,
    d: usize,
    u: usize,
    k: usize,
)
    requires
        inv_shape(g, start, vis, dist, par, hop, ord, pos, h),
        inv_order(g, vis, ord, pos),
        t < g.node_total(),
        !vis[t as int],
    ensures
        forall|j: int| 0 <= j < ord.len() ==> (#[trigger] ord[j]) < g.node_total(),
        inv_shape(
            g,
            start,
            vis.update(t as int, true),
            dist.update(t as int, d),
            par.update(t as int, u),
            hop.update(t as int, k),
            ord.push(t),
            pos.update(t as int, ord.len() as int),
            h,
        ),
        inv_order(g, vis.update(t as int, true), ord.push(t), pos.update(t as int, ord.len() as int)),
        forall|j: int| 0 <= j < ord.len() ==> ord[j] != t,
{
    reveal(inv_shape);
    reveal(inv_order);
    let n = g.node_total();
    let vis2 = vis.update(t as int, true);
    let ord2 = ord.push(t);
    let pos2 = pos.update(t as int, ord.len() as int);
    assert forall|j: int| 0 <= j < ord.len() implies ord[j] != t by {
        assert(vis[ord[j] as int]);
    }
    assert forall|j: int| 0 <= j < ord2.len() implies (#[trigger] ord2[j]) < n && vis2[ord2[j] as int]
        && pos2[ord2[j] as int] == j by {
        if j < ord.len() {
            assert(ord2[j] == ord[j]);
        }
    }
    assert forall|v: int| 0 <= v < n && #[trigger] vis2[v] implies 0 <= pos2[v] < ord2.len() && ord2[pos2[v]]
        == v by {
        if v != t {
            assert(vis[v]);
        }
    }
    assert(ord2[0] == ord[0]);
}

/// Reaching the new node `t` from `u` along its `k`-th edge keeps the tree.
proof fn lemma_visit_tree(
    g: PageGraph,
    start: int,
    vis: Seq<bool>,
    dist: Seq<usize>,
    par: Seq<usize>,
    hop: Seq<usize>,
    t: usize,
    u: usize,
    k: usize,
)
    requires
        inv_tree(g, start, vis, dist, par, hop),
        vis.len() == g.node_total(),
        dist.len() == g.node_total(),
        par.len() == g.node_total(),
        hop.len() == g.node_total(),
        t < g.node_total(),
        u < g.node_total(),
        !vis[t as int],
        vis[u as int],
        dist[u as int] + 1 <= usize::MAX,
        k < g.out(u as int).len(),
        g.out(u as int)[k as int].0 == t,
    ensures
        inv_tree(
            g,
            start,
            vis.update(t as int, true),
            dist.update(t as int, (dist[u as int] + 1) as usize),
            par.update(t as int, u),
            hop.update(t as int, k),
        ),
{
    reveal(inv_tree);
    let n = g.node_total();
    let vis2 = vis.update(t as int, true);
    let dist2 = dist.update(t as int, (dist[u as int] + 1) as usize);
    let par2 = par.update(t as int, u);
    let hop2 = hop.update(t as int, k);
    assert forall|v: int|
        0 <= v < n && #[trigger] vis2[v] && v != start implies parent_link(g, vis2, dist2, par2, hop2, v) by {
        if v != t {
            assert(vis[v]);
            assert(parent_link(g, vis, dist, par, hop, v));
            assert(par[v] != t);
        }
    }
}

/// Reaching the new node `t`, one level below the node just taken, keeps the
/// levels in order.
proof fn lemma_visit_levels(
    g: PageGraph,
    md: int,
    vis: Seq<bool>,
    dist: Seq<usize>,
    ord: Seq<usize>,
    h: int,
    t: usize,
)
    requires
        inv_levels(g, md, vis, dist, ord, h),
        vis.len() == g.node_total(),
        dist.len() == g.node_total(),
        md <= usize::MAX,
        0 < h <= ord.len(),
        t < g.node_total(),
        !vis[t as int],
        dist[ord[h - 1] as int] < md,
        forall|j: int| 0 <= j < ord.len() ==> ord[j] != t && (#[trigger] ord[j]) < g.node_total(),
    ensures
        inv_levels(
            g,
            md,
            vis.update(t as int, true),
            dist.update(t as int, (dist[ord[h - 1] as int] + 1) as usize),
            ord.push(t),
            h,
        ),
{
    reveal(inv_levels);
    let n = g.node_total();
    let hc = h - 1;
    let vis2 = vis.update(t as int, true);
    let dist2 = dist.update(t as int, (dist[ord[hc] as int] + 1) as usize);
    let ord2 = ord.push(t);
    assert forall|v: int| 0 <= v < n && #[trigger] vis2[v] implies dist2[v] <= md by {
        if v != t {
            assert(vis[v]);
        }
    }
    assert forall|i: int, j: int|
        #![trigger ord2[i], ord2[j]]
        0 <= i <= j < ord2.len() implies dist2[ord2[i] as int] <= dist2[ord2[j] as int] by {
        if j == ord.len() {
            if i <= hc {
                assert(dist[ord[i] as int] <= dist[ord[hc] as int]);
            } else if i < ord.len() {
                assert(dist[ord[i] as int] <= dist[ord[hc] as int] + 1);
            }
        } else {
            assert(dist[ord[i] as int] <= dist[ord[j] as int]);
        }
    }
    assert forall|j: int| h <= j < ord2.len() implies dist2[#[trigger] ord2[j] as int] <= dist2[ord2[h - 1] as int]
        + 1 by {
        if j < ord.len() {
            assert(dist[ord[j] as int] <= dist[ord[hc] as int] + 1);
        }
    }
}

/// Reaching the new node `t` keeps closed the part expanded before.
proof fn lemma_visit_closed(
    g: PageGraph,
    vis: Seq<bool>,
    dist: Seq<usize>,
    ord: Seq<usize>,
    pos: Seq<int>,
    h: int,
    md: int,
    t: usize,
    d: usize,
)
    requires
        g.wf(),
        closed_below(g, vis, dist, pos, h, md),
        inv_order(g, vis, ord, pos),
        vis.len() == g.node_total(),
        dist.len() == g.node_total(),
        pos.len() == g.node_total(),
        h <= ord.len(),
        t < g.node_total(),
        !vis[t as int],
    ensures
        closed_below(g, vis.update(t as int, true), dist.update(t as int, d), pos.update(t as int, ord.len() as int), h, md),
{
    reveal(closed_below);
    reveal(inv_order);
    let n = g.node_total();
    let vis2 = vis.update(t as int, true);
    let dist2 = dist.update(t as int, d);
    let pos2 = pos.update(t as int, ord.len() as int);
    assert forall|v: int, kk: int|
        0 <= v < n && vis2[v] && pos2[v] < h && dist2[v] < md && 0 <= kk < g.out(v).len() implies vis2[(
        #[trigger] g.out(v)[kk]).0 as int] && dist2[g.out(v)[kk].0 as int] <= dist2[v] + 1 by {
        assert(v != t);
        assert(vis[v]);
        assert(g.out(v)[kk].0 < n);
        assert(vis[g.out(v)[kk].0 as int]);
    }
}

/// Reaching the new node `t` from the node just taken, along its `k`-th edge,
/// keeps the invariant and the closed part.
proof fn lemma_visit(
    g: PageGraph,
    start: int,
    md: int,
    vis: Seq<bool>,
    dist: Seq<usize>,
    par: Seq<usize>,
    hop: Seq<usize>,
    ord: Seq<usize>,
    pos: Seq<int>,
    h: int,
    k: usize,
    t: usize,
)
    requires
        g.wf(),
        search_inv(g, start, md, vis, dist, par, hop, ord, pos, h),
        closed_below(g, vis, dist, pos, h - 1, md),
        0 < h <= ord.len(),
        ord[h - 1] < g.node_total(),
        vis[ord[h - 1] as int],
        dist.len() == g.node_total(),
        md <= usize::MAX,
        dist[ord[h - 1] as int] < md,
        k < g.out(ord[h - 1] as int).len(),
        g.out(ord[h - 1] as int)[k as int].0 == t,
        t < g.node_total(),
        !vis[t as int],
    ensures
        ({
            let u = ord[h - 1];
            let d = (dist[u as int] + 1) as usize;
            let vis2 = vis.update(t as int, true);
            let dist2 = dist.update(t as int, d);
            let par2 = par.update(t as int, u);
            let hop2 = hop.update(t as int, k);
            let ord2 = ord.push(t);
            let pos2 = pos.update(t as int, ord.len() as int);
            &&& search_inv(g, start, md, vis2, dist2, par2, hop2, ord2, pos2, h)
            &&& closed_below(g, vis2, dist2, pos2, h - 1, md)
        }),
{
    let u = ord[h - 1];
    let d = (dist[u as int] + 1) as usize;
    reveal(inv_shape);
    lemma_visit_order(g, start, vis, dist, par, hop, ord, pos, h, t, d, u, k);
    lemma_visit_tree(g, start, vis, dist, par, hop, t, u, k);
    lemma_visit_levels(g, md, vis, dist, ord, h, t);
    lemma_visit_closed(g, vis, dist, ord, pos, h - 1, md, t, d);
}

/// Once every edge of the node just taken leads to a reached node at most one
/// level deeper, the expanded part, that node included, is closed.
proof fn lemma_expanded(
    g: PageGraph,
    start: int,
    md: int,
    vis: Seq<bool>,
    dist: Seq<usize>,
    par: Seq<usize>,
    hop: Seq<usize>,
    ord: Seq<usize>,
    pos: Seq<int>,
    h: int,
)
    requires
        search_inv(g, start, md, vis, dist, par, hop, ord, pos, h),
        closed_below(g, vis, dist, pos, h - 1, md),
        h > 0,
        forall|kk: int|
            0 <= kk < g.out(ord[h - 1] as int).len() ==> vis[(#[trigger] g.out(ord[h - 1] as int)[kk]).0 as int]
                && dist[g.out(ord[h - 1] as int)[kk].0 as int] <= dist[ord[h - 1] as int] + 1,
    ensures
        closed_below(g, vis, dist, pos, h, md),
{
    reveal(inv_shape);
    reveal(inv_order);
    reveal(closed_below);
    assert forall|v: int, kk: int|
        0 <= v < g.node_total() && vis[v] && pos[v] < h && dist[v] < md && 0 <= kk < g.out(v).len()
            implies vis[(#[trigger] g.out(v)[kk]).0 as int] && dist[g.out(v)[kk].0 as int] <= dist[v] + 1 by {
        if pos[v] == h - 1 {
            assert(ord[pos[v]] == v);
        }
    }
}

/// The state of a search that has only reached its start.
proof fn lemma_initial(
    g: PageGraph,
    start: usize,
    md: int,
    vis: Seq<bool>,
    dist: Seq<usize>,
    par: Seq<usize>,
    hop: Seq<usize>,
    ord: Seq<usize>,
    pos: Seq<int>,
)
    requires
        start < g.node_total(),
        md >= 0,
        vis.len() == g.node_total() && dist.len() == g.node_total() && par.len() == g.node_total()
            && hop.len() == g.node_total() && pos.len() == g.node_total(),
        forall|v: int| 0 <= v < g.node_total() ==> (#[trigger] vis[v]) == (v == start),
        dist[start as int] == 0,
        ord.len() == 1,
        ord[0] == start,
        pos[start as int] == 0,
    ensures
        search_inv(g, start as int, md, vis, dist, par, hop, ord, pos, 0),
        closed_below(g, vis, dist, pos, 0, md),
{
    reveal(inv_shape);
    reveal(inv_order);
    reveal(inv_tree);
    reveal(inv_levels);
    reveal(closed_below);
    assert forall|v: int| 0 <= v < g.node_total() && #[trigger] vis[v] implies 0 <= pos[v] < ord.len()
        && ord[pos[v]] == v by {
        assert(v == start);
    }
}

/// Runs a breadth-first search from `start` that expands no node at depth
/// `md` or deeper and stops when it takes `target`. Returns the search state,
/// how many nodes it took before stopping, and whether it found the target.
fn search(g: &PageGraph, start: usize, md: usize, target: Option<usize>) -> (r: (
    Search,
    usize,
    bool,
    Ghost<Seq<int>>,
))
    requires
        g.wf(),
        start < g.nodes_view().len(),
    ensures
        search_inv(
            *g,
            start as int,
            md as int,
            r.0.visited@,
            r.0.dist@,
            r.0.parent@,
            r.0.hop@,
            r.0.order@,
            r.3@,
            r.1 as int,
        ),
        closed_below(*g, r.0.visited@, r.0.dist@, r.3@, r.1 as int, md as int),
        r.2 ==> r.1 < r.0.order@.len() && target == Some(r.0.order@[r.1 as int]),
        !r.2 ==> r.1 == r.0.order@.len(),
        forall|j: int| 0 <= j < r.1 ==> target != Some(#[trigger] r.0.order@[j]),
{
    let n = g.node_count();
    let mut visited: Vec<bool> = vec![false; n];
    let mut dist: Vec<usize> = vec![0; n];
    let mut parent: Vec<usize> = vec![0; n];
    let mut hop: Vec<usize> = vec![0; n];
    let mut order: Vec<usize> = Vec::new();
    let ghost mut pos: Seq<int> = Seq::new(n as nat, |i: int| 0int);
    visited.set(start, true);
    dist.set(start, 0);
    order.push(start);
    proof {
        pos = pos.update(start as int, 0);
        assert forall|v: int| 0 <= v < n implies (#[trigger] visited@[v]) == (v == start) by {
            if v != start {
                assert(cloned(false, visited@[v]));
            }
        }
        lemma_initial(*g, start, md as int, visited@, dist@, parent@, hop@, order@, pos);
    }
    let mut head: usize = 0;
    let mut found = false;
    while !found && head < order.len()
        invariant
            g.wf(),
            n == g.nodes_view().len(),
            search_inv(*g, start as int, md as int, visited@, dist@, parent@, hop@, order@, pos, head as int),
            closed_below(*g, visited@, dist@, pos, head as int, md as int),
            found ==> head < order@.len() && target == Some(order@[head as int]),
            forall|j: int| 0 <= j < head ==> target != Some(#[trigger] order@[j]),
        decreases n - head + (if found { 0int } else { 1int }),
    {
        proof {
            lemma_inv_facts(*g, start as int, md as int, visited@, dist@, parent@, hop@, order@, pos, head as int);
        }
        let cur = order[head];
        let hit = match target {
            Some(t) => t == cur,
            None => false,
        };
        if hit {
            found = true;
        } else {
            proof {
                lemma_take(*g, start as int, md as int, visited@, dist@, parent@, hop@, order@, pos, head as int);
            }
            head = head + 1;
            if dist[cur] < md {
                let d = dist[cur] + 1;
                let outs = g.out_edges(cur);
                let len = outs.len();
                let mut k: usize = 0;
                while k < len
                    invariant
                        g.wf(),
                        n == g.nodes_view().len(),
                        0 < head <= order@.len(),
                        order@[head - 1] == cur,
                        cur < n,
                        visited@[cur as int],
                        visited@.len() == n,
                        dist@.len() == n,
                        parent@.len() == n,
                        hop@.len() == n,
                        dist@[cur as int] < md,
                        d == dist@[cur as int] + 1,
                        outs@ == g.out(cur as int),
                        len == g.out(cur as int).len(),
                        k <= len,
                        search_inv(*g, start as int, md as int, visited@, dist@, parent@, hop@, order@, pos, head as int),
                        closed_below(*g, visited@, dist@, pos, head - 1, md as int),
                        forall|j: int| 0 <= j < head ==> target != Some(#[trigger] order@[j]),
                        forall|kk: int|
                            0 <= kk < k ==> visited@[(#[trigger] g.out(cur as int)[kk]).0 as int]
                                && dist@[g.out(cur as int)[kk].0 as int] <= d,
                    decreases len - k,
                {
                    let t = outs[k].0;
                    proof {
                        assert(g.out(cur as int)[k as int].0 < n);
                    }
                    if !visited[t] {
                        let ghost old_vis = visited@;
                        let ghost old_dist = dist@;
                        let ghost old_ord = order@;
                        proof {
                            lemma_visit(*g, start as int, md as int, visited@, dist@, parent@, hop@, order@, pos, head as int, k, t);
                        }
                        visited.set(t, true);
                        dist.set(t, d);
                        parent.set(t, cur);
                        hop.set(t, k);
                        proof {
                            pos = pos.update(t as int, order@.len() as int);
                        }
                        order.push(t);
                        proof {
                            assert(order@[head - 1] == old_ord[head - 1]);
                            assert forall|kk: int| 0 <= kk < k + 1 implies visited@[(
                            #[trigger] g.out(cur as int)[kk]).0 as int] && dist@[g.out(
                                cur as int,
                            )[kk].0 as int] <= d by {
                                if kk < k {
                                    assert(old_vis[g.out(cur as int)[kk].0 as int]);
                                }
                            }
                        }
                    } else {
                        proof {
                            lemma_seen(*g, start as int, md as int, visited@, dist@, parent@, hop@, order@, pos, head as int, t as int);
                        }
                    }
                    k = k + 1;
                }
                proof {
                    lemma_expanded(*g, start as int, md as int, visited@, dist@, parent@, hop@, order@, pos, head as int);
                }
            }
        }
    }
    proof {
        lemma_inv_facts(*g, start as int, md as int, visited@, dist@, parent@, hop@, order@, pos, head as int);
    }
    (Search { visited, dist, parent, hop, order }, head, found, Ghost(pos))
}

// ─── Shortest path ──────────────────────────────────────────

/// Entry `i` of `r` names the `i`-th node of `p` by its page id and title,
/// and, past the first, the type of an edge from the node before it.
pub open spec fn entry_ok(g: PageGraph, p: Seq<int>, r: Seq<(String, String, Option<String>)>, i: int) -> bool {
    &&& r[i].0@ == g.nodes_view()[p[i]].id@
    &&& r[i].1@ == g.nodes_view()[p[i]].title@
    &&& i == 0 ==> r[i].2 is None
    &&& i > 0 ==> exists|k: int|
        0 <= k < g.out(p[i - 1]).len() && (#[trigger] g.out(p[i - 1])[k]).0 == p[i] && r[i].2 is Some
            && r[i].2.unwrap()@ == edge_label_text(g.out(p[i - 1])[k].1)
}

/// `r` describes the walk `p`, entry by entry.
pub open spec fn describes_walk(g: PageGraph, p: Seq<int>, r: Seq<(String, String, Option<String>)>) -> bool {
    r.len() == p.len() && forall|i: int| 0 <= i < r.len() ==> #[trigger] entry_ok(g, p, r, i)
}

/// `r` answers a path query from `s` to `t` within `md` edges: empty exactly
/// when `t` cannot be reached within `md` edges, and otherwise the
/// description of a walk from `s` to `t` that no walk between them is
/// shorter than.
pub open spec fn path_answer(g: PageGraph, s: int, t: int, md: int, r: Seq<(String, String, Option<String>)>) -> bool {
    &&& r.len() == 0 <==> !reachable_within(g, s, t, md)
    &&& r.len() > 0 ==> exists|p: Seq<int>| walk_between(g, p, s, t) && #[trigger] describes_walk(g, p, r)
    &&& forall|p: Seq<int>| #[trigger] walk_between(g, p, s, t) && r.len() > 0 ==> r.len() <= p.len()
}

/// Shortest path from `start` to `end` along at most `max_depth` edges, by
/// breadth-first search: each node as (page id, title, label of the edge that
/// led to it), the first with no edge. Empty when `end` cannot be reached
/// within `max_depth` edges.
pub fn find_path(graph: &PageGraph, start: usize, end: usize, max_depth: usize) -> (res: Vec<(String, String, Option<String>)>)
    requires
        start < graph.nodes_view().len(),
        end < graph.nodes_view().len(),
    ensures
        path_answer(*graph, start as int, end as int, max_depth as int, res@),
{
    proof {
        use_type_invariant(graph);
    }
    let ghost g = *graph;
    let ghost n = g.node_total();
    let ghost md = max_depth as int;
    let (s, done, found, Ghost(pos)) = search(graph, start, max_depth, Some(end));
    proof {
        lemma_inv_facts(g, start as int, md, s.visited@, s.dist@, s.parent@, s.hop@, s.order@, pos, done as int);
        reveal(inv_shape);
        reveal(inv_order);
        reveal(inv_tree);
        reveal(inv_levels);
    }
    if !found {
        proof {
            assert forall|p: Seq<int>| #[trigger] walk_between(g, p, start as int, end as int) implies p.len()
                > md + 1 by {
                if p.len() <= md + 1 {
                    lemma_reach_bound(g, s.visited@, s.dist@, pos, done as int, md, md + 1, p);
                    let j = pos[end as int];
                    assert(s.order@[j] == end);
                }
            }
        }
        return Vec::new();
    }
    // Follow the recorded parents back from `end` to `start`.
    let mut chain: Vec<usize> = Vec::new();
    let mut cur = end;
    chain.push(cur);
    proof {
        assert(s.order@[pos[end as int]] == end);
    }
    while cur != start
        invariant
            g == *graph,
            n == g.node_total(),
            search_inv(g, start as int, md, s.visited@, s.dist@, s.parent@, s.hop@, s.order@, pos, done as int),
            s.visited@.len() == n && s.dist@.len() == n && s.parent@.len() == n && s.hop@.len() == n,
            s.visited@[start as int] && s.dist@[start as int] == 0,
            forall|v: int|
                0 <= v < n && #[trigger] s.visited@[v] && v != start ==> parent_link(
                    g,
                    s.visited@,
                    s.dist@,
                    s.parent@,
                    s.hop@,
                    v,
                ),
            chain@.len() >= 1,
            chain@[0] == end,
            chain@.last() == cur,
            cur < n,
            s.visited@[cur as int],
            forall|j: int|
                0 <= j < chain@.len() ==> (#[trigger] chain@[j]) < n && s.visited@[chain@[j] as int]
                    && s.dist@[chain@[j] as int] + j == s.dist@[end as int],
            forall|j: int|
                0 <= j < chain@.len() - 1 ==> #[trigger] chain@[j] != start && s.parent@[chain@[j] as int]
                    == chain@[j + 1],
        decreases s.dist@[cur as int],
    {
        proof {
            assert(parent_link(g, s.visited@, s.dist@, s.parent@, s.hop@, cur as int));
        }
        let ghost prev = chain@;
        cur = s.parent[cur];
        chain.push(cur);
        proof {
            assert forall|j: int| 0 <= j < chain@.len() - 1 implies #[trigger] chain@[j] != start
                && s.parent@[chain@[j] as int] == chain@[j + 1] by {
                if j < prev.len() - 1 {
                    assert(chain@[j] == prev[j]);
                    assert(chain@[j + 1] == prev[j + 1]);
                }
            }
        }
    }
    let m = chain.len();
    let ghost p: Seq<int> = Seq::new(m as nat, |i: int| chain@[m - 1 - i] as int);
    let mut res: Vec<(String, String, Option<String>)> = Vec::new();
    let mut i: usize = 0;
    while i < m
        invariant
            g == *graph,
            g.wf(),
            n == g.node_total(),
            m == chain@.len(),
            m >= 1,
            chain@[m - 1] == start,
            p.len() == m,
            forall|j: int| 0 <= j < m ==> #[trigger] p[j] == chain@[m - 1 - j] as int,
            s.visited@.len() == n && s.dist@.len() == n && s.parent@.len() == n && s.hop@.len() == n,
            forall|v: int|
                0 <= v < n && #[trigger] s.visited@[v] && v != start ==> parent_link(
                    g,
                    s.visited@,
                    s.dist@,
                    s.parent@,
                    s.hop@,
                    v,
                ),
            forall|j: int| 0 <= j < m ==> (#[trigger] chain@[j]) < n && s.visited@[chain@[j] as int],
            forall|j: int|
                0 <= j < m - 1 ==> #[trigger] chain@[j] != start && s.parent@[chain@[j] as int] == chain@[j + 1],
            i <= m,
            res@.len() == i,
            forall|j: int| 0 <= j < i ==> #[trigger] entry_ok(g, p, res@, j),
        decreases m - i,
    {
        let node = chain[m - 1 - i];
        let label = if i == 0 {
            None
        } else {
            let u = s.parent[node];
            let k = s.hop[node];
            proof {
                assert(chain@[m - 1 - i] != start);
                assert(parent_link(g, s.visited@, s.dist@, s.parent@, s.hop@, node as int));
            }
            let outs = graph.out_edges(u);
            Some(edge_label(&outs[k].1))
        };
        let id = owned(graph.node(node).id.as_str());
        let title = owned(graph.node(node).title.as_str());
        let ghost before = res@;
        res.push((id, title, label));
        proof {
            assert(p[i as int] == node);
            if i > 0 {
                let u = s.parent@[node as int] as int;
                let k = s.hop@[node as int] as int;
                assert(p[i - 1] == chain@[m - i] as int);
                assert(chain@[(m - 1 - i) + 1] == u);
                assert(g.out(p[i - 1])[k].0 == p[i as int]);
            }
            assert forall|j: int| 0 <= j < i + 1 implies #[trigger] entry_ok(g, p, res@, j) by {
                if j < i {
                    assert(entry_ok(g, p, before, j));
                    assert(res@[j] == before[j]);
                }
            }
        }
        i = i + 1;
    }
    proof {
        assert(describes_walk(g, p, res@));
        assert(is_walk(g, p)) by {
            assert forall|j: int| 0 <= j < p.len() implies 0 <= #[trigger] p[j] < g.node_total() by {
                assert(chain@[m - 1 - j] < n);
            }
            assert forall|j: int| 0 <= j < p.len() - 1 implies #[trigger] steps_to(g, p, j) by {
                assert(entry_ok(g, p, res@, j + 1));
            }
        }
        assert(p[0] == start);
        assert(p.last() == end);
        assert(walk_between(g, p, start as int, end as int));
        assert(s.dist@[end as int] + 0 == s.dist@[end as int]);
        assert(s.dist@[chain@[m - 1] as int] + (m - 1) == s.dist@[end as int]);
        assert(m == s.dist@[end as int] + 1);
        assert(s.order@[done as int] == end);
        // No walk from `start` to `end` is shorter.
        assert forall|q: Seq<int>| #[trigger] walk_between(g, q, start as int, end as int) implies m <= q.len() by {
            if q.len() < m {
                assert forall|v: int| 0 <= v < n && #[trigger] s.visited@[v] && s.dist@[v] < s.dist@[end as int]
                    implies pos[v] < done by {
                    if pos[v] >= done {
                        assert(s.order@[pos[v]] == v);
                        assert(s.dist@[s.order@[done as int] as int] <= s.dist@[s.order@[pos[v]] as int]);
                    }
                }
                lemma_reach_bound(g, s.visited@, s.dist@, pos, done as int, md, s.dist@[end as int] as int, q);
            }
        }
    }
    res
}

// ─── Neighbourhood ──────────────────────────────────────────

/// `t` is `d` edges from `s` and no fewer.
pub open spec fn at_distance(g: PageGraph, s: int, t: int, d: int) -> bool {
    reachable_within(g, s, t, d) && !reachable_within(g, s, t, d - 1)
}

/// The outgoing edges of `u` as rows (source, target, edge label).
pub open spec fn node_rows(g: PageGraph, u: int) -> Seq<(usize, usize, Seq<char>)> {
    g.out(u).map_values(|e: (usize, EdgeType)| (u as usize, e.0, edge_label_text(e.1)))
}

/// The outgoing edges of the listed nodes, node after node.
pub open spec fn edge_rows(g: PageGraph, vs: Seq<(usize, usize)>) -> Seq<(usize, usize, Seq<char>)>
    decreases vs.len(),
{
    if vs.len() == 0 {
        Seq::empty()
    } else {
        edge_rows(g, vs.drop_last()) + node_rows(g, vs.last().0 as int)
    }
}

/// Edge rows with their labels taken as text.
pub open spec fn rows_view(r: Seq<(usize, usize, String)>) -> Seq<(usize, usize, Seq<char>)> {
    r.map_values(|x: (usize, usize, String)| (x.0, x.1, x.2@))
}

/// The neighbourhood of a page: the nodes within a number of hops, each with
/// its distance, in breadth-first order, and the outgoing edges of those nodes.
pub struct Subgraph {
    pub depth: usize,
    pub nodes: Vec<(usize, usize)>,
    pub edges: Vec<(usize, usize, String)>,
}

/// The walk along recorded parents from the start to a reached node.
proof fn lemma_tree_walk(
    g: PageGraph,
    start: int,
    vis: Seq<bool>,
    dist: Seq<usize>,
    par: Seq<usize>,
    hop: Seq<usize>,
    v: int,
) -> (p: Seq<int>)
    requires
        g.wf(),
        vis.len() == g.node_total(),
        dist.len() == g.node_total(),
        0 <= start < g.node_total(),
        vis[start],
        dist[start] == 0,
        forall|w: int|
            0 <= w < g.node_total() && #[trigger] vis[w] && w != start ==> parent_link(g, vis, dist, par, hop, w),
        0 <= v < g.node_total(),
        vis[v],
    ensures
        walk_between(g, p, start, v),
        p.len() == dist[v] + 1,
    decreases dist[v],
{
    if v == start {
        seq![start]
    } else {
        assert(parent_link(g, vis, dist, par, hop, v));
        let u = par[v] as int;
        let q = lemma_tree_walk(g, start, vis, dist, par, hop, u);
        let p = q.push(v);
        assert forall|i: int| 0 <= i < p.len() implies 0 <= #[trigger] p[i] < g.node_total() by {
            if i < q.len() {
                assert(p[i] == q[i]);
            }
        }
        assert forall|i: int| 0 <= i < p.len() - 1 implies #[trigger] steps_to(g, p, i) by {
            if i < q.len() - 1 {
                assert(steps_to(g, q, i));
                assert(p[i] == q[i] && p[i + 1] == q[i + 1]);
            } else {
                assert(p[i] == u && p[i + 1] == v);
                assert(g.out(u)[hop[v] as int].0 == v);
            }
        }
        p
    }
}

/// The neighbourhood of `center` within `depth` hops, at most five: every node
/// within that many edges with its distance, nearer nodes first, and the
/// outgoing edges of each listed node in list order.
pub fn subgraph(graph: &PageGraph, center: usize, depth: usize) -> (res: Subgraph)
    requires
        center < graph.nodes_view().len(),
    ensures
        res.depth == if depth < 5 { depth } else { 5 },
        forall|i: int|
            0 <= i < res.nodes@.len() ==> (#[trigger] res.nodes@[i]).0 < graph.nodes_view().len() && res.nodes@[i].1
                <= res.depth && at_distance(*graph, center as int, res.nodes@[i].0 as int, res.nodes@[i].1 as int),
        forall|i: int, j: int|
            #![trigger res.nodes@[i], res.nodes@[j]]
            0 <= i < j < res.nodes@.len() ==> res.nodes@[i].0 != res.nodes@[j].0 && res.nodes@[i].1
                <= res.nodes@[j].1,
        forall|v: int|
            0 <= v < graph.nodes_view().len() && reachable_within(*graph, center as int, v, res.depth as int) ==> exists|i: int|
                0 <= i < res.nodes@.len() && (#[trigger] res.nodes@[i]).0 == v,
        rows_view(res.edges@) == edge_rows(*graph, res.nodes@),
{
    proof {
        use_type_invariant(graph);
    }
    let ghost g = *graph;
    let ghost n = g.node_total();
    let depth = if depth < 5 { depth } else { 5 };
    let md = depth + 1;
    let (s, done, found, Ghost(pos)) = search(graph, center, md, None);
    proof {
        lemma_inv_facts(g, center as int, md as int, s.visited@, s.dist@, s.parent@, s.hop@, s.order@, pos, done as int);
        reveal(inv_shape);
        reveal(inv_order);
        reveal(inv_tree);
        reveal(inv_levels);
    }
    let ghost ord = s.order@;
    let mut nodes: Vec<(usize, usize)> = Vec::new();
    let mut edges: Vec<(usize, usize, String)> = Vec::new();
    let ghost mut src: Seq<int> = Seq::empty();
    let mut j: usize = 0;
    while j < s.order.len()
        invariant
            g == *graph,
            g.wf(),
            n == g.node_total(),
            ord == s.order@,
            ord.len() <= n,
            s.dist@.len() == n,
            forall|jj: int| 0 <= jj < ord.len() ==> (#[trigger] ord[jj]) < n,
            j <= ord.len(),
            nodes@.len() == src.len(),
            forall|i: int|
                0 <= i < src.len() ==> 0 <= #[trigger] src[i] < j && nodes@[i].0 == ord[src[i]] && nodes@[i].1
                    == s.dist@[ord[src[i]] as int] && nodes@[i].1 <= depth,
            forall|a: int, b: int| 0 <= a < b < src.len() ==> #[trigger] src[a] < #[trigger] src[b],
            forall|jj: int|
                0 <= jj < j && s.dist@[ord[jj] as int] <= depth ==> exists|i: int|
                    0 <= i < src.len() && #[trigger] src[i] == jj,
            rows_view(edges@) == edge_rows(g, nodes@),
        decreases ord.len() - j,
    {
        let u = s.order[j];
        if s.dist[u] <= depth {
            let ghost before = nodes@;
            let ghost old_src = src;
            nodes.push((u, s.dist[u]));
            proof {
                src = src.push(j as int);
                assert forall|i: int|
                    0 <= i < src.len() implies 0 <= #[trigger] src[i] < j + 1 && nodes@[i].0 == ord[src[i]]
                        && nodes@[i].1 == s.dist@[ord[src[i]] as int] && nodes@[i].1 <= depth by {
                    if i < old_src.len() {
                        assert(nodes@[i] == before[i]);
                        assert(src[i] == old_src[i]);
                    }
                }
                assert(nodes@.drop_last() == before);
                assert(node_rows(g, u as int).take(0) =~= Seq::empty());
                assert(rows_view(edges@) == edge_rows(g, nodes@.drop_last()) + node_rows(g, u as int).take(0));
            }
            let outs = graph.out_edges(u);
            let len = outs.len();
            let mut k: usize = 0;
            while k < len
                invariant
                    g == *graph,
                    g.wf(),
                    n == g.node_total(),
                    u < n,
                    outs@ == g.out(u as int),
                    len == g.out(u as int).len(),
                    k <= len,
                    nodes@.len() >= 1,
                    nodes@.last().0 == u,
                    rows_view(edges@) == edge_rows(g, nodes@.drop_last()) + node_rows(g, u as int).take(k as int),
                decreases len - k,
            {
                let t = outs[k].0;
                let label = edge_label(&outs[k].1);
                let ghost prev = edges@;
                edges.push((u, t, label));
                proof {
                    assert(rows_view(edges@) =~= rows_view(prev).push((u, t, label@)));
                    assert(node_rows(g, u as int).take(k as int + 1) =~= node_rows(g, u as int).take(k as int).push(
                        node_rows(g, u as int)[k as int],
                    ));
                }
                k = k + 1;
            }
            proof {
                assert(node_rows(g, u as int).take(len as int) =~= node_rows(g, u as int));
                assert forall|jj: int|
                    0 <= jj < j + 1 && s.dist@[ord[jj] as int] <= depth implies exists|i: int|
                        0 <= i < src.len() && #[trigger] src[i] == jj by {
                    if jj == j {
                        assert(src[src.len() - 1] == jj);
                    } else {
                        let i = choose|i: int| 0 <= i < old_src.len() && #[trigger] old_src[i] == jj;
                        assert(src[i] == old_src[i]);
                    }
                }
            }
        }
        j = j + 1;
    }
    proof {
        let nv = nodes@;
        assert forall|i: int|
            0 <= i < nv.len() implies (#[trigger] nv[i]).0 < n && nv[i].1 <= depth && at_distance(
            g,
            center as int,
            nv[i].0 as int,
            nv[i].1 as int,
        ) by {
            let v = ord[src[i]] as int;
            assert(s.visited@[v]);
            let w = lemma_tree_walk(g, center as int, s.visited@, s.dist@, s.parent@, s.hop@, v);
            assert(walk_between(g, w, center as int, v));
            assert forall|q: Seq<int>| #[trigger] walk_between(g, q, center as int, v) implies q.len() > nv[i].1 by {
                if q.len() <= nv[i].1 {
                    lemma_reach_bound(g, s.visited@, s.dist@, pos, done as int, md as int, md as int + 1, q);
                }
            }
        }
        assert forall|a: int, b: int|
            #![trigger nv[a], nv[b]]
            0 <= a < b < nv.len() implies nv[a].0 != nv[b].0 && nv[a].1 <= nv[b].1 by {
            assert(src[a] < src[b]);
            assert(pos[ord[src[a]] as int] == src[a]);
            assert(pos[ord[src[b]] as int] == src[b]);
            assert(s.dist@[ord[src[a]] as int] <= s.dist@[ord[src[b]] as int]);
        }
    }
    let res = Subgraph { depth, nodes, edges };
    proof {
        assert forall|v: int|
            0 <= v < graph.nodes_view().len() && reachable_within(*graph, center as int, v, res.depth as int) implies exists|i: int|
                0 <= i < res.nodes@.len() && (#[trigger] res.nodes@[i]).0 == v by {
            let q = choose|q: Seq<int>| #[trigger] walk_between(g, q, center as int, v) && q.len() <= depth + 1;
            lemma_reach_bound(g, s.visited@, s.dist@, pos, done as int, md as int, md as int + 1, q);
            let jj = pos[v];
            assert(ord[jj] == v);
            let i = choose|i: int| 0 <= i < src.len() && #[trigger] src[i] == jj;
            assert(res.nodes@[i].0 == v);
        }
    }
    res
}

// ─── Resolving a page ───────────────────────────────────────

/// `a` equals `b` when ASCII letters are compared without case
/// (std `str::eq_ignore_ascii_case`).
pub open spec fn same_ignoring_ascii_case(a: Seq<char>, b: Seq<char>) -> bool {
    a.len() == b.len() && forall|i: int| 0 <= i < a.len() ==> ascii_lower(#[trigger] a[i]) == ascii_lower(b[i])
}

/// Whether `a` equals `b` when ASCII letters are compared without case.
pub fn eq_ignore_ascii_case(a: &str, b: &str) -> (r: bool)
    ensures
        r == same_ignoring_ascii_case(a@, b@),
{
    let x = to_chars(a);
    let y = to_chars(b);
    if x.len() != y.len() {
        return false;
    }
    let mut i: usize = 0;
    while i < x.len()
        invariant
            x@ == a@,
            y@ == b@,
            x@.len() == y@.len(),
            i <= x@.len(),
            forall|j: int| 0 <= j < i ==> ascii_lower(#[trigger] x@[j]) == ascii_lower(y@[j]),
        decreases x.len() - i,
    {
        if ascii_lower_char(x[i]) != ascii_lower_char(y[i]) {
            return false;
        }
        i = i + 1;
    }
    true
}

/// Node `i` answers the query `q` by its title or its id, ignoring ASCII case.
pub open spec fn names_page(g: PageGraph, i: int, q: Seq<char>) -> bool {
    same_ignoring_ascii_case(g.nodes_view()[i].title@, q) || same_ignoring_ascii_case(g.nodes_view()[i].id@, q)
}

/// Resolves a query to a page: the first page whose id is the query, else the
/// first whose title or id equals it ignoring ASCII case, else none.
pub fn resolve_page(graph: &PageGraph, q: &str) -> (res: Option<usize>)
    ensures
        match res {
            Some(i) => i < graph.nodes_view().len() && ((graph.nodes_view()[i as int].id@ == q@ && forall|j: int|
                0 <= j < i ==> graph.nodes_view()[j].id@ != q@) || ((forall|j: int|
                0 <= j < graph.nodes_view().len() ==> graph.nodes_view()[j].id@ != q@) && names_page(*graph, i as int, q@)
                && forall|j: int| 0 <= j < i ==> !names_page(*graph, j, q@))),
            None => forall|j: int| 0 <= j < graph.nodes_view().len() ==> !names_page(*graph, j, q@),
        },
{
    proof {
        use_type_invariant(graph);
    }
    match graph.index_of(q) {
        Some(i) => {
            return Some(i);
        },
        None => {},
    }
    let n = graph.node_count();
    let mut i: usize = 0;
    while i < n
        invariant
            graph.wf(),
            n == graph.nodes_view().len(),
            i <= graph.nodes_view().len(),
            forall|j: int| 0 <= j < graph.nodes_view().len() ==> graph.nodes_view()[j].id@ != q@,
            forall|j: int| 0 <= j < i ==> !names_page(*graph, j, q@),
        decreases n - i,
    {
        if eq_ignore_ascii_case(graph.node(i).title.as_str(), q) || eq_ignore_ascii_case(
            graph.node(i).id.as_str(),
            q,
        ) {
            return Some(i);
        }
        i = i + 1;
    }
    None
}

// ─── Paths and distances ────────────────────────────────────

/// A path answer and a distance agree: when `t` is `d` edges from `s`, the
/// path found within `md` edges has `d` edges if `d <= md`, and there is none
/// if `d > md`. So the distances of a neighbourhood are the lengths of the
/// shortest paths.
pub proof fn lemma_path_length_is_distance(
    g: PageGraph,
    s: int,
    t: int,
    md: int,
    d: int,
    r: Seq<(String, String, Option<String>)>,
)
    requires
        path_answer(g, s, t, md, r),
        at_distance(g, s, t, d),
    ensures
        d <= md ==> r.len() == d + 1,
        d > md ==> r.len() == 0,
{
    let w = choose|p: Seq<int>| #[trigger] walk_between(g, p, s, t) && p.len() <= d + 1;
    if d <= md {
        assert(walk_between(g, w, s, t) && w.len() <= md + 1);
        assert(r.len() > 0);
        let p = choose|p: Seq<int>| walk_between(g, p, s, t) && #[trigger] describes_walk(g, p, r);
        assert(r.len() <= w.len());
        if p.len() <= d {
            assert(walk_between(g, p, s, t) && p.len() <= (d - 1) + 1);
        }
    } else {
        if r.len() > 0 {
            let p = choose|p: Seq<int>| walk_between(g, p, s, t) && #[trigger] describes_walk(g, p, r);
            assert(p.len() == r.len());
            if p.len() <= d {
                assert(walk_between(g, p, s, t) && p.len() <= (d - 1) + 1);
            }
            let q = choose|q: Seq<int>| #[trigger] walk_between(g, q, s, t) && q.len() <= md + 1;
            assert(r.len() <= q.len());
        }
    }
}

/// The graph has a cycle: a walk of at least one edge that ends where it
/// starts.
pub open spec fn has_cycle(g: PageGraph) -> bool {
    exists|p: Seq<int>| #[trigger] is_walk(g, p) && p.len() >= 2 && p[0] == p.last()
}

/// petgraph's `algo::is_cyclic_directed` on the page graph. Claims what its
/// documentation says: true exactly when the directed graph contains a
/// cycle (an edge from a node to itself counts). The search it runs is
/// recursive, and its depth grows with the graph; nothing is claimed of the
/// stack it needs.
#[verifier::external_body]
pub(crate) fn page_graph_is_cyclic(g: &PageGraph) -> (r: bool)
    requires
        g.wf(),
    ensures
        r == has_cycle(*g),
{
    petgraph::algo::is_cyclic_directed(&g.graph)
}

} // verus!

