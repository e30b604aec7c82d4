//! Search modes of the hybrid search.
use vstd::prelude::*;
use crate::engine::SectionDoc;
use crate::parser::{sha256, spec_sha256};
use crate::vectors::{str_bytes, utf8_encode};
use crate::text::{is_uppercase, owned, spec_is_uppercase, spec_to_lowercase, str_eq, to_chars, to_lowercase};

verus! {

/// How a query is matched: by keywords, by embeddings, or both.
#[derive(Clone, Copy, Debug, PartialEq, Eq, Structural)]
pub enum SearchMode {
    Keyword,
    Semantic,
    Hybrid,
}

/// The mode a lower-cased name selects; any other name selects keyword search.
pub open spec fn mode_named(t: Seq<char>) -> SearchMode {
    if t == "semantic"@ {
        SearchMode::Semantic
    } else if t == "hybrid"@ {
        SearchMode::Hybrid
    } else {
        SearchMode::Keyword
    }
}

/// Number of upper-case characters in `s`.
pub open spec fn uppercase_count(s: Seq<char>) -> nat
    decreases s.len(),
{
    if s.len() == 0 {
        0
    } else {
        uppercase_count(s.drop_last()) + if spec_is_uppercase(s.last()) { 1nat } else { 0nat }
    }
}

/// The query looks like code: it holds `_` or `-`, or more than two upper-case characters.
pub open spec fn looks_like_code(q: Seq<char>) -> bool {
    q.contains('_') || q.contains('-') || uppercase_count(q) > 2
}

/// Name of a mode.
pub open spec fn mode_text(m: SearchMode) -> Seq<char> {
    match m {
        SearchMode::Keyword => "keyword"@,
        SearchMode::Semantic => "semantic"@,
        SearchMode::Hybrid => "hybrid"@,
    }
}

impl SearchMode {
    /// The mode named by `s`, ignoring case; keyword search for any other name.
    pub fn from_str(s: &str) -> (res: Self)
        ensures
            res == mode_named(spec_to_lowercase(s@)),
    {
        let l = to_lowercase(s);
        if str_eq(l.as_str(), "semantic") {
            SearchMode::Semantic
        } else if str_eq(l.as_str(), "hybrid") {
            SearchMode::Hybrid
        } else {
            SearchMode::Keyword
        }
    }

    /// Code identifiers search by keyword, natural language searches both ways.
    pub fn auto_detect(query: &str) -> (res: Self)
        ensures
            res == (if looks_like_code(query@) { SearchMode::Keyword } else { SearchMode::Hybrid }),
    {
        let v = to_chars(query);
        let mut has_joiner = false;
        let mut upper: usize = 0;
        let mut i: usize = 0;
        while i < v.len()
            invariant
                i <= v.len(),
                v@ == query@,
                has_joiner == (v@.take(i as int).contains('_') || v@.take(i as int).contains('-')),
                upper == uppercase_count(v@.take(i as int)),
                upper <= i,
            decreases v.len() - i,
        {
            let c = v[i];
            proof {
                let t = v@.take(i + 1);
                assert(t.drop_last() == v@.take(i as int));
                assert(t.last() == c);
                assert(t.contains('_') == (v@.take(i as int).contains('_') || c == '_')) by {
                    if c == '_' {
                        assert(t[i as int] == '_');
                    }
                    if v@.take(i as int).contains('_') {
                        let j = choose|j: int| 0 <= j < i && v@.take(i as int)[j] == '_';
                        assert(t[j] == '_');
                    }
                }
                assert(t.contains('-') == (v@.take(i as int).contains('-') || c == '-')) by {
                    if c == '-' {
                        assert(t[i as int] == '-');
                    }
                    if v@.take(i as int).contains('-') {
                        let j = choose|j: int| 0 <= j < i && v@.take(i as int)[j] == '-';
                        assert(t[j] == '-');
                    }
                }
            }
            if c == '_' || c == '-' {
                has_joiner = true;
            }
            if is_uppercase(c) {
                upper = upper + 1;
            }
            i = i + 1;
        }
        proof {
            assert(v@.take(v.len() as int) == v@);
        }
        if has_joiner || upper > 2 {
            SearchMode::Keyword
        } else {
            SearchMode::Hybrid
        }
    }

    /// Name of the mode: `keyword`, `semantic` or `hybrid`.
    pub fn to_display_string(&self) -> (res: String)
        ensures
            res@ == mode_text(*self),
    {
        match self {
            SearchMode::Keyword => owned("keyword"),
            SearchMode::Semantic => owned("semantic"),
            SearchMode::Hybrid => owned("hybrid"),
        }
    }
}

// ─── Embedding plan ─────────────────────────────────────────

/// The SHA-256 digest of the UTF-8 bytes of a section body.
pub open spec fn body_digest(body: Seq<char>) -> Seq<u8> {
    spec_sha256(utf8_encode(body))
}

/// The stored digests hold `d` for the section `id`.
pub open spec fn stored(old: Seq<(String, Vec<u8>)>, id: Seq<char>, d: Seq<u8>) -> bool {
    exists|j: int| 0 <= j < old.len() && (#[trigger] old[j]).0@ == id && old[j].1@ == d
}

/// The sections among `secs` whose body digest is not the one stored for
/// them, by position, in order.
pub open spec fn changed_sections(secs: Seq<SectionDoc>, old: Seq<(String, Vec<u8>)>) -> Seq<int>
    decreases secs.len(),
{
    if secs.len() == 0 {
        Seq::empty()
    } else {
        changed_sections(secs.drop_last(), old) + if stored(old, secs.last().section_id@, body_digest(secs.last().body@)) {
            Seq::<int>::empty()
        } else {
            seq![secs.len() - 1]
        }
    }
}

fn same_bytes(a: &Vec<u8>, b: &Vec<u8>) -> (r: bool)
    ensures
        r == (a@ == b@),
{
    if a.len() != b.len() {
        return false;
    }
    let mut i: usize = 0;
    while i < a.len()
        invariant
            a@.len() == b@.len(),
            i <= a@.len(),
            forall|j: int| 0 <= j < i ==> a@[j] == b@[j],
        decreases a.len() - i,
    {
        if a[i] != b[i] {
            return false;
        }
        i = i + 1;
    }
    proof {
        assert(a@ =~= b@);
    }
    true
}

fn is_stored(old: &Vec<(String, Vec<u8>)>, id: &str, d: &Vec<u8>) -> (r: bool)
    ensures
        r == stored(old@, id@, d@),
{
    let mut j: usize = 0;
    while j < old.len()
        invariant
            j <= old@.len(),
            forall|q: int| 0 <= q < j ==> !((#[trigger] old@[q]).0@ == id@ && old@[q].1@ == d@),
        decreases old.len() - j,
    {
        if crate::text::str_eq(old[j].0.as_str(), id) && same_bytes(&old[j].1, d) {
            proof {
                assert(old@[j as int].0@ == id@ && old@[j as int].1@ == d@);
            }
            return true;
        }
        j = j + 1;
    }
    false
}

/// Plans an embedding rebuild: the new digest of every section (id and
/// SHA-256 of its body, in section order), and the positions of the
/// sections whose digest differs from the stored one, which are to be
/// embedded again.
pub fn embedding_plan(sections: &Vec<SectionDoc>, old: &Vec<(String, Vec<u8>)>) -> (res: (Vec<(String, Vec<u8>)>, Vec<usize>))
    ensures
        res.0@.len() == sections@.len(),
        forall|i: int|
            0 <= i < sections@.len() ==> (#[trigger] res.0@[i]).0@ == sections@[i].section_id@ && res.0@[i].1@
                == body_digest(sections@[i].body@),
        res.1@.len() == changed_sections(sections@, old@).len(),
        forall|k: int| 0 <= k < res.1@.len() ==> res.1@[k] as int == #[trigger] changed_sections(sections@, old@)[k],
{
    let mut digests: Vec<(String, Vec<u8>)> = Vec::new();
    let mut changed: Vec<usize> = Vec::new();
    let mut i: usize = 0;
    proof {
        assert(sections@.take(0) =~= Seq::<SectionDoc>::empty());
    }
    while i < sections.len()
        invariant
            i <= sections@.len(),
            digests@.len() == i,
            forall|q: int|
                0 <= q < i ==> (#[trigger] digests@[q]).0@ == sections@[q].section_id@ && digests@[q].1@
                    == body_digest(sections@[q].body@),
            changed@.len() == changed_sections(sections@.take(i as int), old@).len(),
            forall|k: int|
                0 <= k < changed@.len() ==> changed@[k] as int == #[trigger] changed_sections(sections@.take(i as int), old@)[k],
        decreases sections.len() - i,
    {
        let sec = &sections[i];
        let d = sha256(str_bytes(sec.body.as_str()));
        let known = is_stored(old, sec.section_id.as_str(), &d);
        proof {
            assert(sections@.take(i + 1).drop_last() =~= sections@.take(i as int));
            assert(sections@.take(i + 1).last() == sections@[i as int]);
            assert(sections@.take(i + 1).len() == i + 1);
        }
        let ghost before = changed@;
        if !known {
            changed.push(i);
        }
        proof {
            let prev = changed_sections(sections@.take(i as int), old@);
            let next = changed_sections(sections@.take(i + 1), old@);
            if known {
                assert(next =~= prev);
            } else {
                assert(next =~= prev.push(i as int));
                assert forall|k: int| 0 <= k < changed@.len() implies changed@[k] as int == #[trigger] next[k] by {
                    if k < before.len() {
                        assert(changed@[k] == before[k]);
                    }
                }
            }
        }
        let ghost dprev = digests@;
        digests.push((crate::text::owned(sec.section_id.as_str()), d));
        proof {
            assert forall|q: int| 0 <= q < i + 1 implies (#[trigger] digests@[q]).0@ == sections@[q].section_id@
                && digests@[q].1@ == body_digest(sections@[q].body@) by {
                if q < i {
                    assert(digests@[q] == dprev[q]);
                }
            }
        }
        i = i + 1;
    }
    proof {
        assert(sections@.take(sections@.len() as int) =~= sections@);
    }
    (digests, changed)
}

/// Consecutive ranges of at most `size` items covering `lo..n`.
pub open spec fn chunk_ranges(lo: int, n: int, size: int) -> Seq<(int, int)>
    decreases n - lo,
{
    if size <= 0 || lo >= n {
        Seq::empty()
    } else if lo + size >= n {
        seq![(lo, n)]
    } else {
        seq![(lo, lo + size)] + chunk_ranges(lo + size, n, size)
    }
}

/// The batches in which `n` items are embedded, `size` at a time: ranges of
/// positions, in order.
pub fn batch_ranges(n: usize, size: usize) -> (res: Vec<(usize, usize)>)
    requires
        size > 0,
    ensures
        res@.map_values(|r: (usize, usize)| (r.0 as int, r.1 as int)) == chunk_ranges(0, n as int, size as int),
{
    let mut out: Vec<(usize, usize)> = Vec::new();
    let mut lo: usize = 0;
    proof {
        assert(out@.map_values(|r: (usize, usize)| (r.0 as int, r.1 as int)) =~= Seq::<(int, int)>::empty());
    }
    while lo < n
        invariant
            size > 0,
            out@.map_values(|r: (usize, usize)| (r.0 as int, r.1 as int)) + chunk_ranges(lo as int, n as int, size as int)
                == chunk_ranges(0, n as int, size as int),
        decreases n - lo,
    {
        let hi = if n - lo > size { lo + size } else { n };
        let ghost before = out@;
        out.push((lo, hi));
        proof {
            assert(out@.map_values(|r: (usize, usize)| (r.0 as int, r.1 as int)) =~= before.map_values(
                |r: (usize, usize)| (r.0 as int, r.1 as int),
            ).push((lo as int, hi as int)));
        }
        if n - lo > size {
            proof {
                let rest = chunk_ranges(lo as int, n as int, size as int);
                assert(rest == seq![(lo as int, hi as int)] + chunk_ranges(lo + size, n as int, size as int));
                assert(before.map_values(|r: (usize, usize)| (r.0 as int, r.1 as int)) + rest =~= out@.map_values(
                    |r: (usize, usize)| (r.0 as int, r.1 as int),
                ) + chunk_ranges(lo + size, n as int, size as int));
            }
            lo = lo + size;
        } else {
            proof {
                let rest = chunk_ranges(lo as int, n as int, size as int);
                assert(rest == seq![(lo as int, n as int)]);
                assert(out@.map_values(|r: (usize, usize)| (r.0 as int, r.1 as int)) + chunk_ranges(n as int, n as int, size as int)
                    =~= chunk_ranges(0, n as int, size as int));
            }
            lo = n;
        }
    }
    proof {
        assert(chunk_ranges(lo as int, n as int, size as int) =~= Seq::<(int, int)>::empty());
    }
    out
}

} // verus!
