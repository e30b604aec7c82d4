//! Assembling a context pack around a matched page: the page itself, then
//! its neighbours by decreasing score, each in as much detail as its score
//! calls for, as long as the token budget lasts.
use vstd::prelude::*;
use crate::engine::{edge_priority, EdgeType};
use crate::graph::texts;
use crate::graph::walks::{edge_label, edge_label_text, PageGraph};
use crate::search::{clamp_budget, clamped_budget, match_context, match_context_of, text_tokens, tokens_of};
use crate::text::{find, find_from_exec, owned, push_str, spec_to_lowercase, str_eq, to_chars, to_lowercase};

verus! {

/// One piece of a context pack: the page's id, its score, and its text.
#[derive(Debug)]
pub struct ContextChunk {
    pub id: String,
    pub score: u32,
    pub text: String,
}

/// Plain view of a chunk.
pub open spec fn chunk_view(c: ContextChunk) -> (Seq<char>, u32, Seq<char>) {
    (c.id@, c.score, c.text@)
}

/// Plain views of chunks.
pub open spec fn chunks_view(cs: Seq<ContextChunk>) -> Seq<(Seq<char>, u32, Seq<char>)> {
    cs.map_values(|c: ContextChunk| chunk_view(c))
}

/// Score of the match itself, above any neighbour's.
pub open spec fn match_score() -> u32 {
    999
}

/// How well a title answers the query, both lower-cased: 8 when equal, 4
/// when the title holds the query, else 0.
pub open spec fn relevance(title: Seq<char>, q: Seq<char>) -> nat {
    let t = spec_to_lowercase(title);
    let l = spec_to_lowercase(q);
    if t == l {
        8
    } else if find(t, l) is Some {
        4
    } else {
        0
    }
}

/// Score of a neighbour reached over an edge: the edge's priority times one
/// plus the relevance of its title.
pub open spec fn neighbor_score(e: EdgeType, title: Seq<char>, q: Seq<char>) -> nat {
    (edge_priority(e) as nat) * (1 + relevance(title, q))
}

/// The positions, among the out-edges of node `m` from position `k` on, of
/// the neighbours each page is reached by first: an edge to a page whose id
/// was seen (the match's, or an earlier neighbour's) is skipped.
pub open spec fn fresh_positions(g: PageGraph, m: int, k: int, seen: Seq<Seq<char>>) -> Seq<int>
    decreases g.out(m).len() - k,
{
    if k < 0 || k >= g.out(m).len() {
        Seq::empty()
    } else {
        let id = g.nodes_view()[g.out(m)[k].0 as int].id@;
        if seen.contains(id) {
            fresh_positions(g, m, k + 1, seen)
        } else {
            seq![k] + fresh_positions(g, m, k + 1, seen.push(id))
        }
    }
}

/// Score of the neighbour over the out-edge of `m` at position `k`.
pub open spec fn edge_score(g: PageGraph, m: int, k: int, q: Seq<char>) -> nat {
    neighbor_score(g.out(m)[k].1, g.nodes_view()[g.out(m)[k].0 as int].title@, q)
}

/// The positions whose neighbour has score `s`, in order.
pub open spec fn with_score(g: PageGraph, m: int, ps: Seq<int>, q: Seq<char>, s: nat) -> Seq<int>
    decreases ps.len(),
{
    if ps.len() == 0 {
        Seq::empty()
    } else {
        with_score(g, m, ps.drop_last(), q, s) + if edge_score(g, m, ps.last(), q) == s {
            seq![ps.last()]
        } else {
            Seq::empty()
        }
    }
}

/// The positions by decreasing score from `s` down to 0, ties in order.
pub open spec fn by_score(g: PageGraph, m: int, ps: Seq<int>, q: Seq<char>, s: int) -> Seq<int>
    decreases s + 1,
{
    if s < 0 {
        Seq::empty()
    } else {
        with_score(g, m, ps, q, s as nat) + by_score(g, m, ps, q, s - 1)
    }
}

/// The text of a neighbour: id and title for a score above 5, the id for a
/// score above 2, else one line of id, edge and title.
pub open spec fn neighbor_text(id: Seq<char>, title: Seq<char>, edge: Seq<char>, score: nat) -> Seq<char> {
    if score > 5 {
        "["@ + edge + ": "@ + id + "]\nTitle: "@ + title
    } else if score > 2 {
        "["@ + edge + ": "@ + id + "]"@
    } else {
        "  "@ + id + " --["@ + edge + "]--> "@ + title
    }
}

/// The chunks of the neighbours at the positions, in order, from `used`
/// tokens on: none once the budget is used up; a neighbour whose text does
/// not fit is left out.
pub open spec fn fill(g: PageGraph, m: int, ps: Seq<int>, q: Seq<char>, used: int, budget: int) -> Seq<
    (Seq<char>, u32, Seq<char>),
>
    decreases ps.len(),
{
    if ps.len() == 0 || used >= budget {
        Seq::empty()
    } else {
        let (v, e) = g.out(m)[ps[0]];
        let n = g.nodes_view()[v as int];
        let s = edge_score(g, m, ps[0], q);
        let t = neighbor_text(n.id@, n.title@, edge_label_text(e), s);
        let k = text_tokens(t);
        if used + k <= budget {
            seq![(n.id@, s as u32, t)] + fill(g, m, ps.drop_first(), q, used + k, budget)
        } else {
            fill(g, m, ps.drop_first(), q, used, budget)
        }
    }
}

/// The context pack around node `m` for the query: the match's own chunk
/// where it fits (scored 999), then the neighbours by decreasing score,
/// within the budget clamped to 256..131072 tokens.
pub open spec fn assembled(g: PageGraph, m: int, q: Seq<char>, budget: int) -> Seq<(Seq<char>, u32, Seq<char>)> {
    let b = clamped_budget(budget);
    let meta = g.nodes_view()[m];
    let (mt, mk) = match_context_of(meta.id@, meta.title@, texts(meta.sources@), 0, b);
    let head: Seq<(Seq<char>, u32, Seq<char>)> = if mk > 0 { seq![(meta.id@, match_score(), mt)] } else { Seq::empty() };
    let ps = fresh_positions(g, m, 0, seq![meta.id@]);
    head + fill(g, m, by_score(g, m, ps, q, 90), q, mk as int, b)
}

// ─── Assembling ─────────────────────────────────────────────

/// Positions as integers.
pub open spec fn pos_view(v: Seq<usize>) -> Seq<int> {
    v.map_values(|k: usize| k as int)
}

/// Score of the neighbour over the out-edge of `m` at position `k`.
fn score_at(g: &PageGraph, m: usize, k: usize, q: &str) -> (s: u32)
    requires
        g.wf(),
        m < g.nodes_view().len(),
        k < g.out(m as int).len(),
    ensures
        s == edge_score(*g, m as int, k as int, q@),
        s <= 90,
{
    let outs = g.out_edges(m);
    let (v, e) = &outs[k];
    let t = to_lowercase(g.node(*v).title.as_str());
    let l = to_lowercase(q);
    let rel: u32 = if str_eq(t.as_str(), l.as_str()) {
        8
    } else {
        match find_from_exec(&to_chars(t.as_str()), &to_chars(l.as_str()), 0) {
            Some(_) => 4,
            None => 0,
        }
    };
    let p = e.priority() as u32;
    proof {
        assert(g.out(m as int)[k as int] == (*v, *e));
        assert(edge_priority(*e) <= 10);
    }
    p * (1 + rel)
}

/// Whether `t` is among the texts.
fn seen_text(v: &Vec<String>, t: &str) -> (r: bool)
    ensures
        r == crate::search::strings_view(v@).contains(t@),
{
    let mut i: usize = 0;
    while i < v.len()
        invariant
            i <= v@.len(),
            forall|j: int| 0 <= j < i ==> v@[j]@ != t@,
        decreases v.len() - i,
    {
        if str_eq(v[i].as_str(), t) {
            proof {
                assert(crate::search::strings_view(v@)[i as int] == t@);
            }
            return true;
        }
        i = i + 1;
    }
    proof {
        assert forall|j: int| 0 <= j < crate::search::strings_view(v@).len() implies crate::search::strings_view(v@)[j] != t@ by {
            assert(crate::search::strings_view(v@)[j] == v@[j]@);
        }
    }
    false
}

/// Positions of the out-edges of `m` to pages reached first, in order.
fn fresh_of(g: &PageGraph, m: usize) -> (res: Vec<usize>)
    requires
        g.wf(),
        m < g.nodes_view().len(),
    ensures
        pos_view(res@) == fresh_positions(*g, m as int, 0, seq![g.nodes_view()[m as int].id@]),
        forall|i: int| 0 <= i < res@.len() ==> #[trigger] res@[i] < g.out(m as int).len(),
{
    let ghost full = fresh_positions(*g, m as int, 0, seq![g.nodes_view()[m as int].id@]);
    let mut seen: Vec<String> = Vec::new();
    seen.push(owned(g.node(m).id.as_str()));
    let mut out: Vec<usize> = Vec::new();
    let outs = g.out_edges(m);
    let n = outs.len();
    let mut k: usize = 0;
    proof {
        assert(crate::search::strings_view(seen@) =~= seq![g.nodes_view()[m as int].id@]);
        assert(pos_view(out@) + fresh_positions(*g, m as int, 0, crate::search::strings_view(seen@)) =~= full);
    }
    while k < n
        invariant
            g.wf(),
            m < g.nodes_view().len(),
            outs@ == g.out(m as int),
            n == g.out(m as int).len(),
            k <= n,
            pos_view(out@) + fresh_positions(*g, m as int, k as int, crate::search::strings_view(seen@)) == full,
            forall|i: int| 0 <= i < out@.len() ==> #[trigger] out@[i] < n,
        decreases n - k,
    {
        let v = outs[k].0;
        proof {
            assert(g.out(m as int)[k as int].0 == v);
        }
        let id = g.node(v).id.as_str();
        let ghost sv = crate::search::strings_view(seen@);
        if !seen_text(&seen, id) {
            let ghost before = out@;
            out.push(k);
            seen.push(owned(id));
            proof {
                assert(crate::search::strings_view(seen@) =~= sv.push(id@));
                assert(pos_view(out@) =~= pos_view(before).push(k as int));
                assert(pos_view(before) + fresh_positions(*g, m as int, k as int, sv) == full);
                assert(pos_view(out@) + fresh_positions(*g, m as int, k + 1, crate::search::strings_view(seen@))
                    =~= pos_view(before) + (seq![k as int] + fresh_positions(*g, m as int, k + 1, sv.push(id@))));
            }
        }
        k = k + 1;
    }
    proof {
        assert(fresh_positions(*g, m as int, n as int, crate::search::strings_view(seen@)) =~= Seq::<int>::empty());
        assert(pos_view(out@) =~= full);
    }
    out
}

/// The positions by decreasing score, ties in order.
fn ordered_of(g: &PageGraph, m: usize, ps: &Vec<usize>, q: &str) -> (res: Vec<usize>)
    requires
        g.wf(),
        m < g.nodes_view().len(),
        forall|i: int| 0 <= i < ps@.len() ==> #[trigger] ps@[i] < g.out(m as int).len(),
    ensures
        pos_view(res@) == by_score(*g, m as int, pos_view(ps@), q@, 90),
        forall|i: int| 0 <= i < res@.len() ==> #[trigger] res@[i] < g.out(m as int).len(),
{
    let ghost pv = pos_view(ps@);
    let mut scores: Vec<u32> = Vec::new();
    let mut i: usize = 0;
    while i < ps.len()
        invariant
            g.wf(),
            m < g.nodes_view().len(),
            forall|j: int| 0 <= j < ps@.len() ==> #[trigger] ps@[j] < g.out(m as int).len(),
            i <= ps@.len(),
            scores@.len() == i,
            forall|j: int| 0 <= j < i ==> #[trigger] scores@[j] == edge_score(*g, m as int, ps@[j] as int, q@),
        decreases ps.len() - i,
    {
        let sc = score_at(g, m, ps[i], q);
        scores.push(sc);
        i = i + 1;
    }
    let mut out: Vec<usize> = Vec::new();
    let mut s: u32 = 91;
    proof {
        assert(pos_view(out@) =~= Seq::<int>::empty());
    }
    while s > 0
        invariant
            s <= 91,
            scores@.len() == ps@.len(),
            pv == pos_view(ps@),
            forall|j: int| 0 <= j < ps@.len() ==> #[trigger] ps@[j] < g.out(m as int).len(),
            forall|j: int| 0 <= j < ps@.len() ==> #[trigger] scores@[j] == edge_score(*g, m as int, ps@[j] as int, q@),
            forall|j: int| 0 <= j < out@.len() ==> #[trigger] out@[j] < g.out(m as int).len(),
            pos_view(out@) + by_score(*g, m as int, pv, q@, s - 1) == by_score(*g, m as int, pv, q@, 90),
        decreases s,
    {
        let t = s - 1;
        let ghost base = pos_view(out@);
        let mut j: usize = 0;
        proof {
            assert(pv.take(0) =~= Seq::<int>::empty());
        }
        while j < ps.len()
            invariant
                j <= ps@.len(),
                scores@.len() == ps@.len(),
                pv == pos_view(ps@),
                forall|x: int| 0 <= x < ps@.len() ==> #[trigger] ps@[x] < g.out(m as int).len(),
                forall|x: int| 0 <= x < ps@.len() ==> #[trigger] scores@[x] == edge_score(*g, m as int, ps@[x] as int, q@),
                forall|x: int| 0 <= x < out@.len() ==> #[trigger] out@[x] < g.out(m as int).len(),
                pos_view(out@) == base + with_score(*g, m as int, pv.take(j as int), q@, t as nat),
            decreases ps.len() - j,
        {
            proof {
                assert(pv.take(j + 1).drop_last() =~= pv.take(j as int));
                assert(pv.take(j + 1).last() == ps@[j as int] as int);
            }
            if scores[j] == t {
                let ghost before = out@;
                out.push(ps[j]);
                proof {
                    assert(pos_view(out@) =~= pos_view(before).push(ps@[j as int] as int));
                }
            }
            j = j + 1;
        }
        proof {
            assert(pv.take(ps@.len() as int) =~= pv);
            assert(by_score(*g, m as int, pv, q@, t as int) == with_score(*g, m as int, pv, q@, t as nat) + by_score(*g, m as int, pv, q@, t - 1));
        }
        s = t;
    }
    out
}

/// The context pack around the matched node `m` for the query, within the
/// budget clamped to 256..131072 tokens: the match's own chunk where it fits,
/// then the neighbours by decreasing score (ties in edge order), each as long
/// as the budget lasts.
pub fn assemble_context(g: &PageGraph, m: usize, q: &str, budget: usize) -> (res: Vec<ContextChunk>)
    requires
        m < g.nodes_view().len(),
    ensures
        chunks_view(res@) == assembled(*g, m as int, q@, budget as int),
{
    proof {
        use_type_invariant(g);
    }
    let b = clamp_budget(budget);
    let meta = g.node(m);
    let (mt, mk) = match_context(meta.id.as_str(), meta.title.as_str(), &meta.sources, 0, b);
    let mut out: Vec<ContextChunk> = Vec::new();
    if mk > 0 {
        out.push(ContextChunk { id: owned(meta.id.as_str()), score: 999, text: mt });
    }
    let ps = fresh_of(g, m);
    let order = ordered_of(g, m, &ps, q);
    let ghost ov = pos_view(order@);
    let ghost head = chunks_view(out@);
    proof {
        assert(mk <= b);
    }
    let outs = g.out_edges(m);
    let mut used: usize = mk;
    let mut i: usize = 0;
    proof {
        assert(ov.skip(0) =~= ov);
        assert(chunks_view(out@) =~= head + Seq::<(Seq<char>, u32, Seq<char>)>::empty());
    }
    while i < order.len()
        invariant
            g.wf(),
            m < g.nodes_view().len(),
            outs@ == g.out(m as int),
            ov == pos_view(order@),
            forall|x: int| 0 <= x < order@.len() ==> #[trigger] order@[x] < g.out(m as int).len(),
            i <= order@.len(),
            used <= b,
            b <= 131072,
            chunks_view(out@) + fill(*g, m as int, ov.skip(i as int), q@, used as int, b as int) == head + fill(
                *g,
                m as int,
                ov,
                q@,
                mk as int,
                b as int,
            ),
        decreases order.len() - i,
    {
        proof {
            assert(ov.skip(i as int)[0] == order@[i as int] as int);
            assert(ov.skip(i as int).drop_first() =~= ov.skip(i + 1));
        }
        if used >= b {
            proof {
                assert(fill(*g, m as int, ov.skip(i as int), q@, used as int, b as int) =~= Seq::<(Seq<char>, u32, Seq<char>)>::empty());
                assert(fill(*g, m as int, ov.skip(i + 1), q@, used as int, b as int) =~= Seq::<(Seq<char>, u32, Seq<char>)>::empty());
            }
            i = i + 1;
            continue;
        }
        let k = order[i];
        let sc = score_at(g, m, k, q);
        let (v, e) = &outs[k];
        proof {
            assert(g.out(m as int)[k as int] == (*v, *e));
        }
        let n = g.node(*v);
        let label = edge_label(e);
        let mut text = String::new();
        if sc > 5 {
            push_str(&mut text, "[");
            push_str(&mut text, label.as_str());
            push_str(&mut text, ": ");
            push_str(&mut text, n.id.as_str());
            push_str(&mut text, "]\nTitle: ");
            push_str(&mut text, n.title.as_str());
        } else if sc > 2 {
            push_str(&mut text, "[");
            push_str(&mut text, label.as_str());
            push_str(&mut text, ": ");
            push_str(&mut text, n.id.as_str());
            push_str(&mut text, "]");
        } else {
            push_str(&mut text, "  ");
            push_str(&mut text, n.id.as_str());
            push_str(&mut text, " --[");
            push_str(&mut text, label.as_str());
            push_str(&mut text, "]--> ");
            push_str(&mut text, n.title.as_str());
        }
        proof {
            assert(text@ == neighbor_text(n.id@, n.title@, edge_label_text(*e), sc as nat));
        }
        let tk = tokens_of(text.as_str());
        if tk <= b - used {
            let ghost before = chunks_view(out@);
            out.push(ContextChunk { id: owned(n.id.as_str()), score: sc, text });
            used = used + tk;
            proof {
                assert(chunks_view(out@) =~= before.push((n.id@, sc, text@)));
            }
        }
        i = i + 1;
    }
    proof {
        assert(ov.skip(order@.len() as int) =~= Seq::<int>::empty());
        assert(chunks_view(out@) =~= head + fill(*g, m as int, ov, q@, mk as int, b as int));
    }
    out
}

} // verus!
