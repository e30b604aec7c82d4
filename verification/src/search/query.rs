//! Parameters of the query pipeline, and the decisions it takes that are not
//! a matter of scores: which searches run, with how many results, and which
//! window of the ranked results is returned.
use vstd::prelude::*;
use crate::embed::{looks_like_code, mode_named, SearchMode};
use crate::search::{scope_of, search_scope};
use crate::text::{spec_to_lowercase, str_eq};

verus! {

/// Parameters of a unified search. `kind` is one of `all`, `page`, `task`,
/// `memory`; `mode` one of `auto`, `keyword`, `semantic`, `hybrid`.
#[derive(Clone, Debug)]
pub struct QueryParams {
    pub query: String,
    pub kind: String,
    pub mode: String,
    pub limit: usize,
    pub offset: usize,
    pub recency: bool,
}

/// The searches a unified query runs: over pages, a keyword search and a
/// vector search (each with the number of results asked for, where it
/// runs), whether the two page lists are fused; over memory, a keyword and a
/// vector search.
#[derive(Clone, Copy, Debug)]
pub struct QueryPlan {
    pub pages: bool,
    pub memory: bool,
    pub mode: SearchMode,
    pub page_keyword: Option<usize>,
    pub page_semantic: Option<usize>,
    pub fuse_pages: bool,
    pub memory_keyword: bool,
    pub memory_semantic: bool,
}

/// The mode a query runs in: detected from the query for `auto`, else named.
pub open spec fn query_mode(query: Seq<char>, mode: Seq<char>) -> SearchMode {
    if mode == "auto"@ {
        if looks_like_code(query) { SearchMode::Keyword } else { SearchMode::Hybrid }
    } else {
        mode_named(spec_to_lowercase(mode))
    }
}

/// Error when a semantic page search has no embedding model.
pub open spec fn no_model_error() -> Seq<char> {
    "Semantic search unavailable: no embedding model loaded"@
}

/// Error when a semantic page search has no page vectors.
pub open spec fn no_vectors_error() -> Seq<char> {
    "No embeddings indexed. Run index rebuild first."@
}

/// The plan of a unified query, given whether an embedding model is loaded,
/// whether pages and memory entries have vectors, and whether the memory has
/// a keyword index; or the error of a semantic page search that cannot run.
pub open spec fn query_plan(
    query: Seq<char>,
    kind: Seq<char>,
    mode: Seq<char>,
    limit: usize,
    model: bool,
    page_vectors: bool,
    memory_docs: bool,
    memory_vectors: bool,
) -> Result<QueryPlan, Seq<char>> {
    let (pages, memory) = scope_of(kind);
    let m = query_mode(query, mode);
    if pages && m == SearchMode::Semantic && !model {
        Err(no_model_error())
    } else if pages && m == SearchMode::Semantic && !page_vectors {
        Err(no_vectors_error())
    } else {
        let (pk, ps, fuse) = if !pages {
            (None, None, false)
        } else {
            match m {
                SearchMode::Keyword => (Some(limit), None, false),
                SearchMode::Semantic => (None, Some(limit), false),
                SearchMode::Hybrid => if !model {
                    (Some(limit), None, false)
                } else {
                    (Some((2 * limit) as usize), if page_vectors { Some((2 * limit) as usize) } else { None }, true)
                },
            }
        };
        Ok(QueryPlan {
            pages,
            memory,
            mode: m,
            page_keyword: pk,
            page_semantic: ps,
            fuse_pages: fuse,
            memory_keyword: memory && memory_docs && m != SearchMode::Semantic,
            memory_semantic: memory && m != SearchMode::Keyword && model && memory_vectors,
        })
    }
}

/// The searches a unified query runs, or the error of a semantic page search
/// that has no model or no page vectors.
pub fn plan_query(
    params: &QueryParams,
    model: bool,
    page_vectors: bool,
    memory_docs: bool,
    memory_vectors: bool,
) -> (res: Result<QueryPlan, String>)
    requires
        scope_of(params.kind@).0 && model && query_mode(params.query@, params.mode@) == SearchMode::Hybrid
            ==> params.limit <= usize::MAX / 2,
    ensures
        match query_plan(params.query@, params.kind@, params.mode@, params.limit, model, page_vectors, memory_docs, memory_vectors) {
            Ok(p) => res == Ok::<QueryPlan, String>(p),
            Err(e) => res matches Err(r) && r@ == e,
        },
{
    let (pages, memory) = search_scope(params.kind.as_str());
    let m = if str_eq(params.mode.as_str(), "auto") {
        SearchMode::auto_detect(params.query.as_str())
    } else {
        SearchMode::from_str(params.mode.as_str())
    };
    let semantic = matches!(m, SearchMode::Semantic);
    if pages && semantic && !model {
        return Err(crate::text::owned("Semantic search unavailable: no embedding model loaded"));
    }
    if pages && semantic && !page_vectors {
        return Err(crate::text::owned("No embeddings indexed. Run index rebuild first."));
    }
    let limit = params.limit;
    let (pk, ps, fuse): (Option<usize>, Option<usize>, bool) = if !pages {
        (None, None, false)
    } else {
        match m {
            SearchMode::Keyword => (Some(limit), None, false),
            SearchMode::Semantic => (None, Some(limit), false),
            SearchMode::Hybrid => if !model {
                (Some(limit), None, false)
            } else {
                (Some(2 * limit), if page_vectors { Some(2 * limit) } else { None }, true)
            },
        }
    };
    Ok(QueryPlan {
        pages,
        memory,
        mode: m,
        page_keyword: pk,
        page_semantic: ps,
        fuse_pages: fuse,
        memory_keyword: memory && memory_docs && !semantic,
        memory_semantic: memory && !matches!(m, SearchMode::Keyword) && model && memory_vectors,
    })
}

/// The window of ranked results a query returns: the first `limit`, then
/// from `offset` on, the offset held below the number kept (so at least one
/// result is returned when any is kept).
pub open spec fn result_window<T>(ranked: Seq<T>, limit: usize, offset: usize) -> Seq<T> {
    let kept = if limit < ranked.len() { ranked.take(limit as int) } else { ranked };
    let last = if kept.len() == 0 { 0 } else { kept.len() - 1 };
    let off = if offset < last { offset as int } else { last };
    kept.skip(off)
}

/// The window of ranked results a query returns.
pub fn select_results<T>(ranked: Vec<T>, limit: usize, offset: usize) -> (res: Vec<T>)
    ensures
        res@ == result_window(ranked@, limit, offset),
{
    let mut ranked = ranked;
    let ghost r0 = ranked@;
    ranked.truncate(limit);
    let n = ranked.len();
    let last: usize = if n == 0 { 0 } else { n - 1 };
    let off: usize = if offset < last { offset } else { last };
    let mut out: Vec<T> = Vec::new();
    let mut rest = ranked.split_off(off);
    proof {
        assert(r0.take(limit as int) == r0.take(limit as int));
    }
    std::mem::swap(&mut out, &mut rest);
    out
}

} // verus!
