//! The catalog of tools and the help query over it.
use vstd::prelude::*;
use crate::logs::{contains_text, mentions};
use crate::text::{ends_with, ends_with_exec, owned, spec_to_lowercase, string_of, to_chars, to_lowercase};

verus! {

/// The tools, each with its one-line description, in catalog order.
pub open spec fn catalog() -> Seq<(Seq<char>, Seq<char>)> {
    seq![
        ("wm_initial"@, "Get project state, graph stats, and model status"@),
        ("wm_help"@, "Search tool documentation (optional: q=pattern)"@),
        ("wm_search.query"@, "Search the wiki (keyword/semantic/hybrid)"@),
        ("wm_search.retrieve"@, "Context assembly with token budget"@),
        ("wm_search.resolve"@, "Resolve a query to a page ID"@),
        ("wm_page.get"@, "Get page content by ID"@),
        ("wm_page.create"@, "Create a new wiki page"@),
        ("wm_page.update"@, "Update page frontmatter fields"@),
        ("wm_page.delete"@, "Delete a page and its file"@),
        ("wm_page.list"@, "List all wiki pages"@),
        ("wm_page.link"@, "Add a typed edge between pages"@),
        ("wm_page.unlink"@, "Remove a typed edge between pages"@),
        ("wm_source.add"@, "Add a raw source file to the registry"@),
        ("wm_source.process"@, "Process a source (pending→processing)"@),
        ("wm_source.complete"@, "Complete source processing (processing→done)"@),
        ("wm_source.error"@, "Mark a source as errored"@),
        ("wm_source.list"@, "List sources with optional state filter"@),
        ("wm_source.verify"@, "Verify source staleness by hash"@),
        ("wm_source.discover"@, "Scan configured directories for new sources"@),
        ("wm_source.remove"@, "Remove a source from the registry"@),
        ("wm_source.status"@, "Get detailed source status"@),
        ("wm_graph.neighbors"@, "Get typed edges from a page"@),
        ("wm_graph.stats"@, "Graph statistics (node/edge counts by type)"@),
        ("wm_graph.path"@, "Find shortest path between two pages"@),
        ("wm_graph.subgraph"@, "Get neighborhood around a page node"@),
        ("wm_task.check_ac"@, "Check an acceptance criterion"@),
        ("wm_task.uncheck_ac"@, "Uncheck an acceptance criterion"@),
        ("wm_task.board"@, "Task board grouped by status"@),
        ("wm_time.start"@, "Start time tracking on a task"@),
        ("wm_time.stop"@, "Stop time tracking, record elapsed"@),
        ("wm_time.add"@, "Manually add time to a task"@),
        ("wm_time.report"@, "Time report across all tasks"@),
        ("wm_index.rebuild"@, "Full rebuild (graph + BM25 + embeddings)"@),
        ("wm_index.embed"@, "Build embedding vectors only"@),
        ("wm_index.status"@, "Show index state (sections, vectors, stale)"@),
        ("wm_model.list"@, "List cached and available models"@),
        ("wm_model.status"@, "Show current model state"@),
        ("wm_model.download"@, "Download an embedding model"@),
        ("wm_model.remove"@, "Remove a cached model"@),
        ("wm_lint.check"@, "Check wiki for common issues"@),
        ("wm_lint.fix"@, "Auto-fix common issues"@),
        ("wm_validate.check"@, "Validate wiki health"@),
        ("wm_log.recent"@, "Recent log entries"@),
        ("wm_log.since"@, "Log entries since a marker"@),
        ("wm_log.filter"@, "Filter log entries by text"@),
        ("wm_project.status"@, "Project status information"@),
        ("wm_skill.*"@, "Registered skill workflows"@)
    ]
}

/// A catalog entry as text.
pub open spec fn entry_view(e: (String, String)) -> (Seq<char>, Seq<char>) {
    (e.0@, e.1@)
}

/// Catalog entries as text.
pub open spec fn entries_view(v: Seq<(String, String)>) -> Seq<(Seq<char>, Seq<char>)> {
    v.map_values(|e: (String, String)| entry_view(e))
}

fn add_entry(v: &mut Vec<(String, String)>, name: &str, description: &str)
    ensures
        entries_view(final(v)@) == entries_view(old(v)@).push((name@, description@)),
{
    let ghost before = v@;
    v.push((owned(name), owned(description)));
    proof {
        assert(entries_view(v@) =~= entries_view(before).push((name@, description@)));
    }
}

/// The tool catalog.
#[verifier::rlimit(40)]
pub fn tool_catalog() -> (res: Vec<(String, String)>)
    ensures
        entries_view(res@) == catalog(),
{
    let mut v: Vec<(String, String)> = Vec::new();
    add_entry(&mut v, "wm_initial", "Get project state, graph stats, and model status");
    add_entry(&mut v, "wm_help", "Search tool documentation (optional: q=pattern)");
    add_entry(&mut v, "wm_search.query", "Search the wiki (keyword/semantic/hybrid)");
    add_entry(&mut v, "wm_search.retrieve", "Context assembly with token budget");
    add_entry(&mut v, "wm_search.resolve", "Resolve a query to a page ID");
    add_entry(&mut v, "wm_page.get", "Get page content by ID");
    add_entry(&mut v, "wm_page.create", "Create a new wiki page");
    add_entry(&mut v, "wm_page.update", "Update page frontmatter fields");
    add_entry(&mut v, "wm_page.delete", "Delete a page and its file");
    add_entry(&mut v, "wm_page.list", "List all wiki pages");
    add_entry(&mut v, "wm_page.link", "Add a typed edge between pages");
    add_entry(&mut v, "wm_page.unlink", "Remove a typed edge between pages");
    add_entry(&mut v, "wm_source.add", "Add a raw source file to the registry");
    add_entry(&mut v, "wm_source.process", "Process a source (pending→processing)");
    add_entry(&mut v, "wm_source.complete", "Complete source processing (processing→done)");
    add_entry(&mut v, "wm_source.error", "Mark a source as errored");
    add_entry(&mut v, "wm_source.list", "List sources with optional state filter");
    add_entry(&mut v, "wm_source.verify", "Verify source staleness by hash");
    add_entry(&mut v, "wm_source.discover", "Scan configured directories for new sources");
    add_entry(&mut v, "wm_source.remove", "Remove a source from the registry");
    add_entry(&mut v, "wm_source.status", "Get detailed source status");
    add_entry(&mut v, "wm_graph.neighbors", "Get typed edges from a page");
    add_entry(&mut v, "wm_graph.stats", "Graph statistics (node/edge counts by type)");
    add_entry(&mut v, "wm_graph.path", "Find shortest path between two pages");
    add_entry(&mut v, "wm_graph.subgraph", "Get neighborhood around a page node");
    add_entry(&mut v, "wm_task.check_ac", "Check an acceptance criterion");
    add_entry(&mut v, "wm_task.uncheck_ac", "Uncheck an acceptance criterion");
    add_entry(&mut v, "wm_task.board", "Task board grouped by status");
    add_entry(&mut v, "wm_time.start", "Start time tracking on a task");
    add_entry(&mut v, "wm_time.stop", "Stop time tracking, record elapsed");
    add_entry(&mut v, "wm_time.add", "Manually add time to a task");
    add_entry(&mut v, "wm_time.report", "Time report across all tasks");
    add_entry(&mut v, "wm_index.rebuild", "Full rebuild (graph + BM25 + embeddings)");
    add_entry(&mut v, "wm_index.embed", "Build embedding vectors only");
    add_entry(&mut v, "wm_index.status", "Show index state (sections, vectors, stale)");
    add_entry(&mut v, "wm_model.list", "List cached and available models");
    add_entry(&mut v, "wm_model.status", "Show current model state");
    add_entry(&mut v, "wm_model.download", "Download an embedding model");
    add_entry(&mut v, "wm_model.remove", "Remove a cached model");
    add_entry(&mut v, "wm_lint.check", "Check wiki for common issues");
    add_entry(&mut v, "wm_lint.fix", "Auto-fix common issues");
    add_entry(&mut v, "wm_validate.check", "Validate wiki health");
    add_entry(&mut v, "wm_log.recent", "Recent log entries");
    add_entry(&mut v, "wm_log.since", "Log entries since a marker");
    add_entry(&mut v, "wm_log.filter", "Filter log entries by text");
    add_entry(&mut v, "wm_project.status", "Project status information");
    add_entry(&mut v, "wm_skill.*", "Registered skill workflows");
    proof {
        assert(entries_view(v@) =~= catalog());
    }
    v
}

/// The prefix a wildcard query stands for: the query without a final `.*`,
/// else without a final `*`; none when it ends in neither.
pub open spec fn wildcard_prefix(q: Seq<char>) -> Option<Seq<char>> {
    if ends_with(q, ".*"@) {
        Some(q.take(q.len() - 2))
    } else if ends_with(q, "*"@) {
        Some(q.drop_last())
    } else {
        None
    }
}

/// A tool matches the lower-cased query `ql`: by name against a wildcard's
/// prefix, else by name or description containing the query, ignoring case.
pub open spec fn help_keeps(e: (Seq<char>, Seq<char>), ql: Seq<char>) -> bool {
    match wildcard_prefix(ql) {
        Some(p) => mentions(spec_to_lowercase(e.0), p),
        None => mentions(spec_to_lowercase(e.0), ql) || mentions(spec_to_lowercase(e.1), ql),
    }
}

/// The tools a help query lists: all of them without a query, else those it
/// matches, in catalog order.
pub open spec fn help_results(tools: Seq<(Seq<char>, Seq<char>)>, q: Option<Seq<char>>) -> Seq<(Seq<char>, Seq<char>)> {
    match q {
        Some(q) => tools.filter(|e: (Seq<char>, Seq<char>)| help_keeps(e, spec_to_lowercase(q))),
        None => tools,
    }
}

/// The tools of `tools` that the help query `q` lists.
pub fn help_matches(tools: &Vec<(String, String)>, q: Option<&str>) -> (res: Vec<(String, String)>)
    ensures
        entries_view(res@) == help_results(entries_view(tools@), match q { Some(s) => Some(s@), None => None }),
{
    let ghost all = entries_view(tools@);
    let mut out: Vec<(String, String)> = Vec::new();
    match q {
        None => {
            let mut i: usize = 0;
            while i < tools.len()
                invariant
                    i <= tools@.len(),
                    all == entries_view(tools@),
                    entries_view(out@) == all.take(i as int),
                decreases tools.len() - i,
            {
                let ghost before = out@;
                out.push((owned(tools[i].0.as_str()), owned(tools[i].1.as_str())));
                proof {
                    assert(entries_view(out@) =~= entries_view(before).push(all[i as int]));
                    assert(all.take(i + 1) =~= all.take(i as int).push(all[i as int]));
                }
                i = i + 1;
            }
            proof {
                assert(all.take(tools@.len() as int) =~= all);
            }
            out
        },
        Some(query) => {
            let ql = to_lowercase(query);
            let qv = to_chars(ql.as_str());
            let star2 = to_chars(".*");
            let star1 = to_chars("*");
            proof {
                reveal_strlit(".*");
                reveal_strlit("*");
            }
            let prefix: Option<String> = if ends_with_exec(&qv, &star2) {
                Some(string_of(&qv, 0, qv.len() - 2))
            } else if ends_with_exec(&qv, &star1) {
                Some(string_of(&qv, 0, qv.len() - 1))
            } else {
                None
            };
            proof {
                if !ends_with(qv@, ".*"@) && ends_with(qv@, "*"@) {
                    assert(qv@.subrange(0, qv@.len() - 1) =~= qv@.drop_last());
                }
            }
            let ghost pred = |e: (Seq<char>, Seq<char>)| help_keeps(e, spec_to_lowercase(query@));
            let mut i: usize = 0;
            proof {
                reveal(Seq::filter);
                assert(all.take(0).filter(pred) =~= Seq::<(Seq<char>, Seq<char>)>::empty());
                assert(entries_view(out@) =~= Seq::<(Seq<char>, Seq<char>)>::empty());
            }
            while i < tools.len()
                invariant
                    i <= tools@.len(),
                    all == entries_view(tools@),
                    ql@ == spec_to_lowercase(query@),
                    match prefix {
                        Some(p) => wildcard_prefix(ql@) == Some(p@),
                        None => wildcard_prefix(ql@) is None,
                    },
                    pred == (|e: (Seq<char>, Seq<char>)| help_keeps(e, spec_to_lowercase(query@))),
                    entries_view(out@) == all.take(i as int).filter(pred),
                decreases tools.len() - i,
            {
                let name = to_lowercase(tools[i].0.as_str());
                let keep = match &prefix {
                    Some(p) => contains_text(name.as_str(), p.as_str()),
                    None => {
                        contains_text(name.as_str(), ql.as_str()) || {
                            let desc = to_lowercase(tools[i].1.as_str());
                            contains_text(desc.as_str(), ql.as_str())
                        }
                    },
                };
                proof {
                    reveal(Seq::filter);
                    assert(all[i as int] == entry_view(tools@[i as int]));
                    assert(all.take(i + 1).drop_last() == all.take(i as int));
                    assert(all.take(i + 1).last() == all[i as int]);
                }
                if keep {
                    let ghost before = out@;
                    out.push((owned(tools[i].0.as_str()), owned(tools[i].1.as_str())));
                    proof {
                        assert(entries_view(out@) =~= entries_view(before).push(all[i as int]));
                    }
                }
                i = i + 1;
            }
            proof {
                assert(all.take(tools@.len() as int) =~= all);
            }
            out
        },
    }
}

} // verus!
