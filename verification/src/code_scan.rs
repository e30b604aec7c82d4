//! Line scans of source files for the code tools: text search by regular
//! expression, symbol definitions, and `use` dependencies.
use vstd::prelude::*;
use crate::logs::{contains_text, log_lines, mentions};
use crate::matching::{captures_view, regex_captures, regex_error, spec_regex_captures, spec_regex_error};
use crate::error::{internal_view, ToolError};
use crate::search::strings_view;
use crate::text::{lines_of, owned, str_eq, trim, trim_str};

verus! {

// ─── Regular expressions on a line ──────────────────────────

/// Group `k` of the first match of `pattern` in `text`; none when there is no
/// match, the group did not take part, or the pattern is invalid.
pub open spec fn first_group(pattern: Seq<char>, text: Seq<char>, k: int) -> Option<Seq<char>> {
    match spec_regex_captures(pattern, text) {
        Some(ms) => if ms.len() > 0 && 0 <= k < ms[0].len() {
            ms[0][k]
        } else {
            None
        },
        None => None,
    }
}

/// Group `k` of the first match of `pattern` in `text`.
pub fn first_group_exec(pattern: &str, text: &str, k: usize) -> (r: Option<String>)
    ensures
        r matches Some(s) ==> first_group(pattern@, text@, k as int) == Some(s@),
        r is None ==> first_group(pattern@, text@, k as int) is None,
{
    match regex_captures(pattern, text) {
        Some(ms) => {
            if ms.len() > 0 && k < ms[0].len() {
                let ghost m0 = ms@[0];
                proof {
                    assert(captures_view(ms@)[0] == crate::matching::groups_view(m0@));
                    assert(crate::matching::groups_view(m0@)[k as int] == match m0@[k as int] {
                        Some(s) => Some(s@),
                        None => None,
                    });
                }
                match &ms[0][k] {
                    Some(s) => Some(owned(s.as_str())),
                    None => None,
                }
            } else {
                None
            }
        },
        None => None,
    }
}

/// How many results a scan with limit `limit` collects at most: the limit,
/// and one when the limit is zero.
pub open spec fn scan_cap(limit: int) -> int {
    if limit == 0 {
        1
    } else {
        limit
    }
}

/// The first `cap` items of `s`, or all of them when there are fewer.
pub open spec fn first_n<A>(s: Seq<A>, cap: int) -> Seq<A> {
    if s.len() <= cap {
        s
    } else {
        s.take(cap)
    }
}

// ─── Text search ────────────────────────────────────────────

/// The lines of `ls` where `pattern` matches: line number (from one), line,
/// and the text of the first match.
pub open spec fn matching_lines(pattern: Seq<char>, ls: Seq<Seq<char>>) -> Seq<(int, Seq<char>, Seq<char>)>
    decreases ls.len(),
{
    if ls.len() == 0 {
        Seq::empty()
    } else {
        matching_lines(pattern, ls.drop_last()) + match first_group(pattern, ls.last(), 0) {
            Some(m) => seq![(ls.len() as int, ls.last(), m)],
            None => Seq::empty(),
        }
    }
}

/// The matches of a prefix of the lines begin the matches of all lines.
proof fn lemma_matching_prefix(pattern: Seq<char>, ls: Seq<Seq<char>>, i: int)
    requires
        0 <= i <= ls.len(),
    ensures
        matching_lines(pattern, ls.take(i)).len() <= matching_lines(pattern, ls).len(),
        forall|k: int|
            0 <= k < matching_lines(pattern, ls.take(i)).len() ==> #[trigger] matching_lines(pattern, ls)[k]
                == matching_lines(pattern, ls.take(i))[k],
    decreases ls.len() - i,
{
    if i < ls.len() {
        lemma_matching_prefix(pattern, ls, i + 1);
        assert(ls.take(i + 1).drop_last() =~= ls.take(i));
    } else {
        assert(ls.take(i) =~= ls);
    }
}

/// A match of the code search.
pub open spec fn hit_view(h: (usize, String, String)) -> (int, Seq<char>, Seq<char>) {
    (h.0 as int, h.1@, h.2@)
}

/// Matches of the code search as text.
pub open spec fn hits_view(v: Seq<(usize, String, String)>) -> Seq<(int, Seq<char>, Seq<char>)> {
    v.map_values(|h: (usize, String, String)| hit_view(h))
}

/// Searches the lines of a file for `pattern`: the matching lines in order,
/// each with its number and the text of its first match, stopping once
/// `limit` were found (one when the limit is zero).
pub fn search_lines(content: &str, pattern: &str, limit: usize) -> (res: Vec<(usize, String, String)>)
    ensures
        hits_view(res@) == first_n(matching_lines(pattern@, lines_of(content@)), scan_cap(limit as int)),
{
    let lines = log_lines(content);
    let ghost ls = lines_of(content@);
    let mut out: Vec<(usize, String, String)> = Vec::new();
    let mut i: usize = 0;
    proof {
        assert(ls.take(0) =~= Seq::<Seq<char>>::empty());
        assert(hits_view(out@) =~= matching_lines(pattern@, ls.take(0)));
    }
    while i < lines.len()
        invariant
            i <= lines@.len(),
            strings_view(lines@) == ls,
            ls == lines_of(content@),
            hits_view(out@) == matching_lines(pattern@, ls.take(i as int)),
            out@.len() < scan_cap(limit as int),
        decreases lines.len() - i,
    {
        let line = lines[i].as_str();
        proof {
            assert(ls.take(i + 1).drop_last() =~= ls.take(i as int));
            assert(ls.take(i + 1).last() == line@);
            assert(ls.take(i + 1).len() == i + 1);
        }
        match first_group_exec(pattern, line, 0) {
            Some(m) => {
                let ghost before = out@;
                out.push((i + 1, owned(line), m));
                proof {
                    assert(hits_view(out@) =~= hits_view(before).push((i + 1, line@, m@)));
                    assert(hits_view(out@) =~= matching_lines(pattern@, ls.take(i + 1)));
                }
                if out.len() >= limit {
                    proof {
                        lemma_matching_prefix(pattern@, ls, i + 1);
                        let all = matching_lines(pattern@, ls);
                        let cap = scan_cap(limit as int);
                        let got = hits_view(out@);
                        assert(out@.len() == cap);
                        assert(got.len() == cap);
                        assert forall|k: int| 0 <= k < cap implies all[k] == got[k] by {
                            assert(all[k] == matching_lines(pattern@, ls.take(i + 1))[k]);
                        }
                        if all.len() <= cap {
                            assert(all =~= got);
                            assert(first_n(all, cap) == all);
                        } else {
                            assert(all.take(cap) =~= got);
                            assert(first_n(all, cap) == all.take(cap));
                        }
                    }
                    return out;
                }
            },
            None => {
                proof {
                    assert(matching_lines(pattern@, ls.take(i + 1)) =~= matching_lines(pattern@, ls.take(i as int)));
                }
            },
        }
        i = i + 1;
    }
    proof {
        assert(ls.take(lines@.len() as int) =~= ls);
    }
    out
}

// ─── Symbols ────────────────────────────────────────────────

/// The symbol patterns, each with the kind of symbol it finds, in the order
/// they are tried on a line.
pub open spec fn symbol_patterns() -> Seq<(Seq<char>, Seq<char>)> {
    seq![
        ("pub async fn (\\w+)"@, "function"@),
        ("pub fn (\\w+)"@, "function"@),
        ("pub struct (\\w+)"@, "struct"@),
        ("pub enum (\\w+)"@, "enum"@),
        ("pub unsafe trait (\\w+)"@, "trait"@),
        ("pub trait (\\w+)"@, "trait"@),
        ("impl.* for (\\w+)"@, "impl"@),
        ("impl (\\w+)"@, "impl"@),
        ("pub mod (\\w+)"@, "module"@),
        ("mod (\\w+)"@, "module"@),
        ("pub type (\\w+)"@, "type"@),
        ("pub const (\\w+)"@, "const"@),
        ("pub static (\\w+)"@, "const"@),
        ("pub macro (\\w+)"@, "macro"@),
        ("pub union (\\w+)"@, "union"@),
    ]
}

/// A symbol passes the filters: its name contains the name asked for, and
/// its kind is the kind asked for.
pub open spec fn symbol_passes(name: Seq<char>, kind: Seq<char>, nf: Option<Seq<char>>, kf: Option<Seq<char>>) -> bool {
    (nf matches Some(f) ==> mentions(name, f)) && (kf matches Some(k) ==> kind == k)
}

/// The symbols the patterns `pats` find on line number `no`: name, kind,
/// line number and the trimmed line, pattern after pattern.
pub open spec fn line_symbols(
    line: Seq<char>,
    no: int,
    pats: Seq<(Seq<char>, Seq<char>)>,
    nf: Option<Seq<char>>,
    kf: Option<Seq<char>>,
) -> Seq<(Seq<char>, Seq<char>, int, Seq<char>)>
    decreases pats.len(),
{
    if pats.len() == 0 {
        Seq::empty()
    } else {
        line_symbols(line, no, pats.drop_last(), nf, kf) + match first_group(pats.last().0, line, 1) {
            Some(name) => if symbol_passes(name, pats.last().1, nf, kf) {
                seq![(name, pats.last().1, no, trim(line))]
            } else {
                Seq::empty()
            },
            None => Seq::empty(),
        }
    }
}

/// The symbols found on the lines `ls`, line after line.
pub open spec fn file_symbols(ls: Seq<Seq<char>>, nf: Option<Seq<char>>, kf: Option<Seq<char>>) -> Seq<(Seq<char>, Seq<char>, int, Seq<char>)>
    decreases ls.len(),
{
    if ls.len() == 0 {
        Seq::empty()
    } else {
        file_symbols(ls.drop_last(), nf, kf) + line_symbols(ls.last(), ls.len() as int, symbol_patterns(), nf, kf)
    }
}

/// A found symbol: name, kind, line number, trimmed line.
pub open spec fn symbol_view(s: (String, String, usize, String)) -> (Seq<char>, Seq<char>, int, Seq<char>) {
    (s.0@, s.1@, s.2 as int, s.3@)
}

/// Found symbols as text.
pub open spec fn symbols_view(v: Seq<(String, String, usize, String)>) -> Seq<(Seq<char>, Seq<char>, int, Seq<char>)> {
    v.map_values(|s: (String, String, usize, String)| symbol_view(s))
}

/// Optional text as a view.
pub open spec fn opt_view(o: Option<&str>) -> Option<Seq<char>> {
    match o {
        Some(s) => Some(s@),
        None => None,
    }
}

/// The symbol patterns and their kinds.
fn symbol_table() -> (res: Vec<(&'static str, &'static str)>)
    ensures
        res@.len() == symbol_patterns().len(),
        forall|j: int| 0 <= j < res@.len() ==> (#[trigger] res@[j]).0@ == symbol_patterns()[j].0 && res@[j].1@ == symbol_patterns()[j].1,
{
    let v = vec![
        ("pub async fn (\\w+)", "function"),
        ("pub fn (\\w+)", "function"),
        ("pub struct (\\w+)", "struct"),
        ("pub enum (\\w+)", "enum"),
        ("pub unsafe trait (\\w+)", "trait"),
        ("pub trait (\\w+)", "trait"),
        ("impl.* for (\\w+)", "impl"),
        ("impl (\\w+)", "impl"),
        ("pub mod (\\w+)", "module"),
        ("mod (\\w+)", "module"),
        ("pub type (\\w+)", "type"),
        ("pub const (\\w+)", "const"),
        ("pub static (\\w+)", "const"),
        ("pub macro (\\w+)", "macro"),
        ("pub union (\\w+)", "union"),
    ];
    v
}

/// Finds the symbol definitions on the lines of a Rust file: for each line,
/// each pattern in turn that matches gives the symbol its group names, kept
/// when it passes the name filter (a substring of the name) and the kind
/// filter.
pub fn find_symbols(content: &str, name_filter: Option<&str>, kind_filter: Option<&str>) -> (res: Vec<(String, String, usize, String)>)
    ensures
        symbols_view(res@) == file_symbols(lines_of(content@), opt_view(name_filter), opt_view(kind_filter)),
{
    let table = symbol_table();
    let lines = log_lines(content);
    let ghost ls = lines_of(content@);
    let ghost nf = opt_view(name_filter);
    let ghost kf = opt_view(kind_filter);
    let ghost pats = symbol_patterns();
    let mut out: Vec<(String, String, usize, String)> = Vec::new();
    let mut i: usize = 0;
    proof {
        assert(ls.take(0) =~= Seq::<Seq<char>>::empty());
        assert(symbols_view(out@) =~= file_symbols(ls.take(0), nf, kf));
    }
    while i < lines.len()
        invariant
            i <= lines@.len(),
            strings_view(lines@) == ls,
            nf == opt_view(name_filter),
            kf == opt_view(kind_filter),
            pats == symbol_patterns(),
            table@.len() == pats.len(),
            forall|j: int| 0 <= j < table@.len() ==> (#[trigger] table@[j]).0@ == pats[j].0 && table@[j].1@ == pats[j].1,
            symbols_view(out@) == file_symbols(ls.take(i as int), nf, kf),
        decreases lines.len() - i,
    {
        let line = lines[i].as_str();
        let no = i + 1;
        let trimmed = trim_str(line);
        let ghost base = symbols_view(out@);
        let mut j: usize = 0;
        proof {
            assert(pats.take(0) =~= Seq::<(Seq<char>, Seq<char>)>::empty());
            assert(symbols_view(out@) =~= base + line_symbols(line@, i + 1, pats.take(0), nf, kf));
        }
        while j < table.len()
            invariant
                no == i + 1,
                j <= table@.len(),
                table@.len() == pats.len(),
                forall|q: int| 0 <= q < table@.len() ==> (#[trigger] table@[q]).0@ == pats[q].0 && table@[q].1@ == pats[q].1,
                nf == opt_view(name_filter),
                kf == opt_view(kind_filter),
                trimmed@ == trim(line@),
                symbols_view(out@) == base + line_symbols(line@, i + 1, pats.take(j as int), nf, kf),
            decreases table.len() - j,
        {
            let (pat, kind) = table[j];
            proof {
                assert(pats.take(j + 1).drop_last() =~= pats.take(j as int));
                assert(pats.take(j + 1).last() == (pat@, kind@));
            }
            match first_group_exec(pat, line, 1) {
                Some(name) => {
                    let name_ok = match name_filter {
                        Some(f) => contains_text(name.as_str(), f),
                        None => true,
                    };
                    let kind_ok = match kind_filter {
                        Some(k) => str_eq(kind, k),
                        None => true,
                    };
                    if name_ok && kind_ok {
                        let ghost before = out@;
                        out.push((name, owned(kind), no, owned(trimmed.as_str())));
                        proof {
                            assert(symbols_view(out@) =~= symbols_view(before).push(symbol_view(out@.last())));
                        }
                    }
                },
                None => {},
            }
            proof {
                assert(symbols_view(out@) =~= base + line_symbols(line@, i + 1, pats.take(j + 1), nf, kf));
            }
            j = j + 1;
        }
        proof {
            assert(pats.take(table@.len() as int) =~= pats);
            assert(ls.take(i + 1).drop_last() =~= ls.take(i as int));
            assert(ls.take(i + 1).last() == line@);
            assert(ls.take(i + 1).len() == i + 1);
        }
        i = i + 1;
    }
    proof {
        assert(ls.take(lines@.len() as int) =~= ls);
    }
    out
}

// ─── Dependencies ───────────────────────────────────────────

/// The pattern of a `use` declaration; its group is the used path.
pub open spec fn use_pattern() -> Seq<char> {
    "^\\s*use\\s+(.+);"@
}

/// The `use` dependencies on the lines `ls`: the trimmed used path and the
/// line number, for each line whose used path is not blank.
pub open spec fn use_deps(ls: Seq<Seq<char>>) -> Seq<(Seq<char>, int)>
    decreases ls.len(),
{
    if ls.len() == 0 {
        Seq::empty()
    } else {
        use_deps(ls.drop_last()) + match first_group(use_pattern(), ls.last(), 1) {
            Some(t) => if trim(t).len() > 0 {
                seq![(trim(t), ls.len() as int)]
            } else {
                Seq::empty()
            },
            None => Seq::empty(),
        }
    }
}

/// A dependency as text.
pub open spec fn deps_view(v: Seq<(String, usize)>) -> Seq<(Seq<char>, int)> {
    v.map_values(|d: (String, usize)| (d.0@, d.1 as int))
}

/// The `use` dependencies of a Rust file: each used path, trimmed, with its
/// line number.
pub fn file_deps(content: &str) -> (res: Vec<(String, usize)>)
    ensures
        deps_view(res@) == use_deps(lines_of(content@)),
{
    let lines = log_lines(content);
    let ghost ls = lines_of(content@);
    let pattern = "^\\s*use\\s+(.+);";
    let mut out: Vec<(String, usize)> = Vec::new();
    let mut i: usize = 0;
    proof {
        assert(ls.take(0) =~= Seq::<Seq<char>>::empty());
        assert(deps_view(out@) =~= use_deps(ls.take(0)));
    }
    while i < lines.len()
        invariant
            i <= lines@.len(),
            strings_view(lines@) == ls,
            pattern@ == use_pattern(),
            deps_view(out@) == use_deps(ls.take(i as int)),
        decreases lines.len() - i,
    {
        let line = lines[i].as_str();
        proof {
            assert(ls.take(i + 1).drop_last() =~= ls.take(i as int));
            assert(ls.take(i + 1).last() == line@);
            assert(ls.take(i + 1).len() == i + 1);
        }
        let ghost before = out@;
        match first_group_exec(pattern, line, 1) {
            Some(t) => {
                let target = trim_str(t.as_str());
                if target.as_str().unicode_len() > 0 {
                    out.push((target, i + 1));
                    proof {
                        assert(deps_view(out@) =~= deps_view(before).push((trim(t@), i + 1)));
                    }
                }
            },
            None => {},
        }
        proof {
            assert(deps_view(out@) =~= use_deps(ls.take(i + 1)));
        }
        i = i + 1;
    }
    proof {
        assert(ls.take(lines@.len() as int) =~= ls);
    }
    out
}

/// A search pattern is accepted when it is a valid regular expression;
/// otherwise the search fails with `Invalid regex pattern: ` and the regex
/// crate's error text.
pub fn check_search_pattern(pattern: &str) -> (res: Result<(), ToolError>)
    ensures
        match spec_regex_error(pattern@) {
            None => res is Ok,
            Some(e) => res matches Err(err) && err@ == internal_view("Invalid regex pattern: "@ + e),
        },
{
    match regex_error(pattern) {
        None => Ok(()),
        Some(e) => {
            let mut msg = owned("Invalid regex pattern: ");
            crate::text::push_str(&mut msg, e.as_str());
            Err(ToolError::internal(msg.as_str()))
        },
    }
}

} // verus!
