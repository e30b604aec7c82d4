//! Search: tokenizing, scopes, budgets and context matches.
use vstd::prelude::*;
use crate::text::{
    index_of_char, lemma_index_of_char_unique, str_eq,
    nonempty, owned, ranges_text, ranges_valid, slice_vec, spec_to_lowercase, split_pred,
    split_pred_ranges, string_of, to_chars, to_lowercase,
};

pub mod query;
pub mod context;

pub use query::QueryParams;

verus! {

// ─── Tokenizer ──────────────────────────────────────────────

/// Characters identifiers are made of: `a`..`z`, `0`..`9`, `_` and `-`.
pub open spec fn is_token_char(c: char) -> bool {
    ('a' <= c && c <= 'z') || ('0' <= c && c <= '9') || c == '_' || c == '-'
}

/// Characters that end an identifier.
pub open spec fn not_token() -> spec_fn(char) -> bool {
    |c: char| !is_token_char(c)
}

/// `_` and `-`, which join the parts of an identifier.
pub open spec fn is_joiner(c: char) -> bool {
    c == '_' || c == '-'
}

/// The joiner characters.
pub open spec fn joiner() -> spec_fn(char) -> bool {
    |c: char| is_joiner(c)
}

/// A part long enough to be a token.
pub open spec fn long_part(p: Seq<char>) -> bool {
    p.len() > 1
}

/// The identifiers of a lower-cased text: its maximal runs of identifier characters.
pub open spec fn identifiers(lower: Seq<char>) -> Seq<Seq<char>> {
    split_pred(lower, not_token()).filter(|w: Seq<char>| nonempty(w))
}

/// Tokens of one identifier: the identifier itself when it holds a `_` or `-`,
/// then each of its `_`/`-`-separated parts longer than one character.
pub open spec fn word_tokens(w: Seq<char>) -> Seq<Seq<char>> {
    let whole = if exists|i: int| 0 <= i < w.len() && is_joiner(#[trigger] w[i]) {
        seq![w]
    } else {
        Seq::empty()
    };
    whole + split_pred(w, joiner()).filter(|p: Seq<char>| long_part(p))
}

/// Tokens of a list of identifiers, in order.
pub open spec fn tokens_of_words(ws: Seq<Seq<char>>) -> Seq<Seq<char>>
    decreases ws.len(),
{
    if ws.len() == 0 {
        Seq::empty()
    } else {
        tokens_of_words(ws.drop_last()) + word_tokens(ws.last())
    }
}

/// The tokens of a text: those of the identifiers of its lower-cased form.
pub open spec fn tokens(text: Seq<char>) -> Seq<Seq<char>> {
    tokens_of_words(identifiers(spec_to_lowercase(text)))
}

/// Views of a list of strings.
pub open spec fn strings_view(v: Seq<String>) -> Seq<Seq<char>> {
    v.map_values(|s: String| s@)
}

proof fn lemma_strings_view_append(x: Seq<String>, y: Seq<String>)
    ensures
        strings_view(x + y) == strings_view(x) + strings_view(y),
{
    assert(strings_view(x + y) =~= strings_view(x) + strings_view(y));
}

/// Tokens of one identifier.
fn word_tokens_exec(w: &Vec<char>) -> (res: Vec<String>)
    ensures
        strings_view(res@) == word_tokens(w@),
{
    let mut out: Vec<String> = Vec::new();
    let mut k: usize = 0;
    while k < w.len() && w[k] != '_' && w[k] != '-'
        invariant
            k <= w.len(),
            forall|j: int| 0 <= j < k ==> !is_joiner(w@[j]),
        decreases w.len() - k,
    {
        k = k + 1;
    }
    let has_joiner = k < w.len();
    proof {
        if has_joiner {
            assert(is_joiner(w@[k as int]));
        }
        assert(has_joiner == (exists|i: int| 0 <= i < w@.len() && is_joiner(#[trigger] w@[i])));
    }
    if has_joiner {
        out.push(crate::text::string_of_all(w));
    }
    let ghost whole = strings_view(out@);
    proof {
        assert(whole =~= (if has_joiner { seq![w@] } else { Seq::<Seq<char>>::empty() }));
    }
    let is_joiner_exec = |c: char| -> (r: bool)
        ensures
            r == is_joiner(c),
        { c == '_' || c == '-' };
    let ranges = split_pred_ranges(w, &is_joiner_exec, Ghost(joiner()));
    let ghost parts = split_pred(w@, joiner());
    let ghost pred = |p: Seq<char>| long_part(p);
    let mut i: usize = 0;
    proof {
        reveal(Seq::filter);
        assert(parts.take(0).filter(pred) =~= Seq::<Seq<char>>::empty());
        assert(whole + Seq::<Seq<char>>::empty() == whole);
    }
    while i < ranges.len()
        invariant
            i <= ranges.len(),
            ranges_valid(ranges@, w@.len() as int),
            ranges_text(w@, ranges@) == parts,
            pred == (|p: Seq<char>| long_part(p)),
            strings_view(out@) == whole + parts.take(i as int).filter(pred),
        decreases ranges.len() - i,
    {
        let (lo, hi) = ranges[i];
        let ghost part = w@.subrange(lo as int, hi as int);
        let ghost before = parts.take(i as int).filter(pred);
        proof {
            reveal(Seq::filter);
            assert(ranges@[i as int].0 <= ranges@[i as int].1 && ranges@[i as int].1 <= w@.len());
            assert(parts.take(i + 1).last() == part);
            assert(parts.take(i + 1).drop_last() == parts.take(i as int));
        }
        if hi - lo > 1 {
            let ghost o = out@;
            out.push(string_of(w, lo, hi));
            proof {
                assert(parts.take(i + 1).filter(pred) == before.push(part));
                lemma_strings_view_append(o, seq![out@.last()]);
                assert(out@ == o + seq![out@.last()]);
                assert(strings_view(seq![out@.last()]) =~= seq![part]);
                assert(whole + before.push(part) =~= (whole + before) + seq![part]);
            }
        } else {
            proof {
                assert(parts.take(i + 1).filter(pred) == before);
            }
        }
        i = i + 1;
    }
    proof {
        assert(parts.take(ranges.len() as int) == parts);
    }
    out
}

/// Code-aware tokenizer: the identifiers of the lower-cased text (runs of
/// `a`..`z`, `0`..`9`, `_`, `-`), each kept whole when it holds `_` or `-`, and
/// its `_`/`-`-separated parts longer than one character.
pub fn tokenize(text: &str) -> (res: Vec<String>)
    ensures
        strings_view(res@) == tokens(text@),
{
    let lower = to_lowercase(text);
    let v = to_chars(lower.as_str());
    let not_token_exec = |c: char| -> (r: bool)
        ensures
            r == !is_token_char(c),
        { !(('a' <= c && c <= 'z') || ('0' <= c && c <= '9') || c == '_' || c == '-') };
    let ranges = split_pred_ranges(&v, &not_token_exec, Ghost(not_token()));
    let ghost segs = split_pred(v@, not_token());
    let ghost pred = |w: Seq<char>| nonempty(w);
    let mut out: Vec<String> = Vec::new();
    let mut k: usize = 0;
    proof {
        reveal(Seq::filter);
        assert(segs.take(0).filter(pred) =~= Seq::<Seq<char>>::empty());
        assert(strings_view(out@) =~= Seq::<Seq<char>>::empty());
    }
    while k < ranges.len()
        invariant
            k <= ranges.len(),
            ranges_valid(ranges@, v@.len() as int),
            ranges_text(v@, ranges@) == segs,
            segs == split_pred(v@, not_token()),
            v@ == spec_to_lowercase(text@),
            pred == (|w: Seq<char>| nonempty(w)),
            strings_view(out@) == tokens_of_words(segs.take(k as int).filter(pred)),
        decreases ranges.len() - k,
    {
        let (lo, hi) = ranges[k];
        let ghost seg = v@.subrange(lo as int, hi as int);
        let ghost before = segs.take(k as int).filter(pred);
        proof {
            reveal(Seq::filter);
            assert(ranges@[k as int].0 <= ranges@[k as int].1 && ranges@[k as int].1 <= v@.len());
            assert(segs.take(k + 1).last() == seg);
            assert(segs.take(k + 1).drop_last() == segs.take(k as int));
        }
        if lo < hi {
            let word = slice_vec(&v, lo, hi);
            let mut more = word_tokens_exec(&word);
            let ghost o = out@;
            let ghost m = more@;
            out.append(&mut more);
            proof {
                assert(segs.take(k + 1).filter(pred) == before.push(seg));
                assert(before.push(seg).drop_last() == before);
                lemma_strings_view_append(o, m);
            }
        } else {
            proof {
                assert(segs.take(k + 1).filter(pred) == before);
            }
        }
        k = k + 1;
    }
    proof {
        assert(segs.take(ranges.len() as int) == segs);
    }
    out
}

// ─── Search scope and memory hits ───────────────────────────

/// Which stores a search of the given kind reads: (wiki pages, memory).
/// `all` reads both, `page` and `task` the pages, `memory` the memory.
pub open spec fn scope_of(kind: Seq<char>) -> (bool, bool) {
    (kind == "all"@ || kind == "page"@ || kind == "task"@, kind == "all"@ || kind == "memory"@)
}

/// Which stores a search of the given kind reads: (wiki pages, memory).
pub fn search_scope(kind: &str) -> (res: (bool, bool))
    ensures
        res == scope_of(kind@),
{
    let all = str_eq(kind, "all");
    (all || str_eq(kind, "page") || str_eq(kind, "task"), all || str_eq(kind, "memory"))
}

/// The memory entry named by a memory search hit `kind:id`: the text after
/// the first `:`, refused when there is no `:` or it could leave the memory
/// directory (it holds `..`, `/` or `\`).
pub open spec fn memory_id_of(hit: Seq<char>) -> Option<Seq<char>> {
    let i = index_of_char(hit, ':');
    if i >= hit.len() {
        None
    } else {
        let id = hit.skip(i as int + 1);
        if crate::logs::mentions(id, ".."@) || id.contains('/') || id.contains('\\') {
            None
        } else {
            Some(id)
        }
    }
}

/// The memory entry a memory search hit names, unless it could leave the
/// memory directory.
pub fn memory_entry_id(hit: &str) -> (res: Option<String>)
    ensures
        res matches Some(s) ==> memory_id_of(hit@) == Some(s@),
        res is None ==> memory_id_of(hit@) is None,
{
    let v = to_chars(hit);
    let mut i: usize = 0;
    while i < v.len() && v[i] != ':'
        invariant
            v@ == hit@,
            i <= v@.len(),
            forall|j: int| 0 <= j < i ==> v@[j] != ':',
        decreases v.len() - i,
    {
        i = i + 1;
    }
    proof {
        lemma_index_of_char_unique(hit@, ':', i as int);
    }
    if i >= v.len() {
        return None;
    }
    let id = string_of(&v, i + 1, v.len());
    proof {
        assert(id@ =~= hit@.skip(i + 1));
    }
    if crate::logs::contains_text(id.as_str(), "..") {
        return None;
    }
    let w = to_chars(id.as_str());
    let mut k: usize = 0;
    while k < w.len()
        invariant
            w@ == id@,
            i < hit@.len(),
            index_of_char(hit@, ':') == i,
            id@ == hit@.skip(i as int + 1),
            !crate::logs::mentions(id@, ".."@),
            k <= w@.len(),
            forall|j: int| 0 <= j < k ==> w@[j] != '/' && w@[j] != '\\',
        decreases w.len() - k,
    {
        if w[k] == '/' || w[k] == '\\' {
            proof {
                let c = w@[k as int];
                assert(id@[k as int] == c);
                if c == '/' {
                    assert(id@.contains('/'));
                } else {
                    assert(id@.contains('\\'));
                }
            }
            return None;
        }
        k = k + 1;
    }
    proof {
        assert(!id@.contains('/'));
        assert(!id@.contains('\\'));
    }
    Some(id)
}

// ─── Context for a matched page ─────────────────────────────

/// The context budget a retrieval works with: the asked budget kept between
/// 256 and 131072 tokens.
pub open spec fn clamped_budget(b: int) -> int {
    if b < 256 {
        256
    } else if b > 131072 {
        131072
    } else {
        b
    }
}

/// The context budget a retrieval works with.
pub fn clamp_budget(b: usize) -> (r: usize)
    ensures
        r as int == clamped_budget(b as int),
{
    if b < 256 {
        256
    } else if b > 131072 {
        131072
    } else {
        b
    }
}

/// Tokens a text counts for: a quarter of its UTF-8 length, rounded down.
pub open spec fn text_tokens(t: Seq<char>) -> nat {
    crate::vectors::utf8_encode(t).len() / 4
}

/// The tokens a text counts for.
pub fn tokens_of(t: &str) -> (r: usize)
    ensures
        r == text_tokens(t@),
{
    crate::vectors::str_bytes(t).len() / 4
}

/// The context entry of the page a retrieval matched: the fullest of three
/// texts (marker, title and sources; marker and title; marker alone) whose
/// tokens fit in what is left of the budget after `used`, with its tokens;
/// nothing when none fits.
pub open spec fn match_context_of(id: Seq<char>, title: Seq<char>, sources: Seq<Seq<char>>, used: int, budget: int) -> (Seq<char>, nat) {
    let min = "[MATCH: "@ + id + "]"@;
    let mid = min + "\nTitle: "@ + title;
    let full = mid + "\n"@ + crate::error::join_texts(sources, ", "@);
    if used + text_tokens(full) <= budget {
        (full, text_tokens(full))
    } else if used + text_tokens(mid) <= budget {
        (mid, text_tokens(mid))
    } else if used + text_tokens(min) <= budget {
        (min, text_tokens(min))
    } else {
        (Seq::empty(), 0)
    }
}

/// The context entry of the matched page, given the tokens already used and
/// the budget.
pub fn match_context(id: &str, title: &str, sources: &Vec<String>, used: usize, budget: usize) -> (res: (String, usize))
    ensures
        (res.0@, res.1 as nat) == match_context_of(id@, title@, crate::graph::texts(sources@), used as int, budget as int),
{
    let mut min = owned("[MATCH: ");
    crate::text::push_str(&mut min, id);
    crate::text::push_str(&mut min, "]");
    let mut mid = owned(min.as_str());
    crate::text::push_str(&mut mid, "\nTitle: ");
    crate::text::push_str(&mut mid, title);
    let mut full = owned(mid.as_str());
    crate::text::push_str(&mut full, "\n");
    let joined = crate::graph::join_comma(sources);
    crate::text::push_str(&mut full, joined.as_str());
    let left = if used <= budget { budget - used } else { 0 };
    let fits = used <= budget;
    let tf = tokens_of(full.as_str());
    if fits && tf <= left {
        return (full, tf);
    }
    let tm = tokens_of(mid.as_str());
    if fits && tm <= left {
        return (mid, tm);
    }
    let tn = tokens_of(min.as_str());
    if fits && tn <= left {
        return (min, tn);
    }
    (String::new(), 0)
}

} // verus!
