//! Small text utilities: unescaping, truncation, slugs and durations.
use vstd::prelude::*;
use crate::text::{
    lemma_strip_leading_suffix, lemma_strip_trailing_prefix,
    all_ascii, char_pred, decimal, strip_leading, strip_trailing, is_alphanumeric, owned, push_char, push_str, replace_all,
    replace_str, spec_is_alphanumeric, spec_to_lowercase, string_of, to_chars, to_lowercase,
    trim_char, trim_char_range, u64_text,
};

verus! {

/// Text with the two-character escapes `\n` and `\t` turned into a newline and a tab.
pub open spec fn unescaped(s: Seq<char>) -> Seq<char> {
    replace_all(replace_all(s, "\\n"@, "\n"@), "\\t"@, "\t"@)
}

/// Unescape `\n` and `\t` in text input fields
pub fn unescape_text(s: &str) -> (res: String)
    ensures
        res@ == unescaped(s@),
{
    proof {
        reveal_strlit("\\n");
        reveal_strlit("\\t");
    }
    let a = replace_str(s, "\\n", "\n");
    replace_str(a.as_str(), "\\t", "\t")
}

/// Result of `truncate_str`: the text itself when it has at most `max`
/// characters, otherwise its first `max - 3` characters (saturating) and "...".
pub open spec fn truncated(s: Seq<char>, max: nat) -> Seq<char> {
    if s.len() <= max {
        s
    } else {
        let keep = if max >= 3 { (max - 3) as nat } else { 0nat };
        s.take(keep as int) + "..."@
    }
}

/// Truncate a string to N chars, appending "..." if truncated
pub fn truncate_str(s: &str, max: usize) -> (res: String)
    ensures
        res@ == truncated(s@, max as nat),
{
    let v = to_chars(s);
    if v.len() <= max {
        return owned(s);
    }
    let keep: usize = if max >= 3 { max - 3 } else { 0 };
    let mut out = string_of(&v, 0, keep);
    push_str(&mut out, "...");
    proof {
        assert(v@.subrange(0, keep as int) == s@.take(keep as int));
    }
    out
}

/// Every character that is neither alphanumeric nor `-` becomes `-`.
pub open spec fn dash_non_slug(s: Seq<char>) -> Seq<char> {
    s.map_values(|c: char| if !spec_is_alphanumeric(c) && c != '-' { '-' } else { c })
}

/// Every run of `-` shortened to a single `-`.
pub open spec fn collapse_dashes(s: Seq<char>) -> Seq<char>
    decreases s.len(),
{
    if s.len() <= 1 {
        s
    } else if s[0] == '-' && s[1] == '-' {
        collapse_dashes(s.drop_first())
    } else {
        seq![s[0]] + collapse_dashes(s.drop_first())
    }
}

/// The slug of a title: lower-cased, every character other than a letter, digit
/// or `-` made a `-`, runs of `-` collapsed, and `-` trimmed from both ends.
pub open spec fn slug_of(title: Seq<char>) -> Seq<char> {
    trim_char(collapse_dashes(dash_non_slug(spec_to_lowercase(title))), '-')
}

/// Convert a title to a filesystem-safe slug
pub fn slugify(title: &str) -> (res: String)
    ensures
        res@ == slug_of(title@),
{
    let lower = to_lowercase(title);
    let v = to_chars(lower.as_str());
    let n = v.len();
    let ghost mapped = dash_non_slug(v@);
    let mut m: Vec<char> = Vec::new();
    let mut i: usize = 0;
    while i < n
        invariant
            n == v.len(),
            i <= n,
            mapped == dash_non_slug(v@),
            m@ == mapped.take(i as int),
        decreases n - i,
    {
        let c = v[i];
        let d = if !is_alphanumeric(c) && c != '-' { '-' } else { c };
        m.push(d);
        proof {
            assert(mapped.take(i + 1) == mapped.take(i as int).push(mapped[i as int]));
        }
        i = i + 1;
    }
    proof {
        assert(mapped.take(n as int) == mapped);
    }
    let mut out: Vec<char> = Vec::new();
    let mut j: usize = 0;
    while j < n
        invariant
            n == m.len(),
            j <= n,
            out@ + collapse_dashes(m@.skip(j as int)) == collapse_dashes(m@),
        decreases n - j,
    {
        let ghost rest = m@.skip(j as int);
        proof {
            assert(rest[0] == m@[j as int]);
            assert(rest.drop_first() == m@.skip(j + 1));
            if j + 1 < n {
                assert(rest[1] == m@[j + 1]);
            }
        }
        if !(m[j] == '-' && j + 1 < n && m[j + 1] == '-') {
            let ghost before = out@;
            out.push(m[j]);
            proof {
                if rest.len() <= 1 {
                    assert(rest.drop_first().len() == 0);
                    assert(collapse_dashes(rest.drop_first()) == rest.drop_first());
                    assert(rest == seq![m@[j as int]] + rest.drop_first());
                }
                assert(before + (seq![m@[j as int]] + collapse_dashes(rest.drop_first())) == out@
                    + collapse_dashes(rest.drop_first()));
            }
        }
        j = j + 1;
    }
    proof {
        assert(m@.skip(n as int).len() == 0);
        assert(out@ + collapse_dashes(m@.skip(n as int)) == out@);
        assert(m@.skip(0) == m@);
    }
    let (a, b) = trim_char_range(&out, 0, out.len(), '-');
    proof {
        assert(out@.subrange(0, out@.len() as int) == out@);
    }
    string_of(&out, a, b)
}

/// "2h30m" for an hour or more, "2m10s" for a minute or more, else "45s".
pub open spec fn duration_text(secs: nat) -> Seq<char> {
    if secs >= 3600 {
        decimal(secs / 3600) + "h"@ + decimal((secs % 3600) / 60) + "m"@
    } else if secs >= 60 {
        decimal(secs / 60) + "m"@ + decimal(secs % 60) + "s"@
    } else {
        decimal(secs) + "s"@
    }
}

/// Format seconds as "2h30m" or "45s"
pub fn format_duration(secs: u64) -> (res: String)
    ensures
        res@ == duration_text(secs as nat),
{
    if secs >= 3600 {
        let mut s = u64_text(secs / 3600);
        push_str(&mut s, "h");
        let m = u64_text((secs % 3600) / 60);
        push_str(&mut s, m.as_str());
        push_str(&mut s, "m");
        s
    } else if secs >= 60 {
        let mut s = u64_text(secs / 60);
        push_str(&mut s, "m");
        let r = u64_text(secs % 60);
        push_str(&mut s, r.as_str());
        push_str(&mut s, "s");
        s
    } else {
        let mut s = u64_text(secs);
        push_str(&mut s, "s");
        s
    }
}

// ─── Slug laws ──────────────────────────────────────────────

/// Only alphanumeric characters and `-`, no `--`, and no `-` at either end.
pub open spec fn clean_slug(s: Seq<char>) -> bool {
    &&& forall|i: int| 0 <= i < s.len() ==> spec_is_alphanumeric(#[trigger] s[i]) || s[i] == '-'
    &&& forall|i: int| 0 <= i < s.len() - 1 ==> !(#[trigger] s[i] == '-' && s[i + 1] == '-')
    &&& s.len() > 0 ==> s[0] != '-' && s.last() != '-'
}

/// Every character is alphanumeric or `-`.
pub open spec fn slug_chars(s: Seq<char>) -> bool {
    forall|i: int| 0 <= i < s.len() ==> spec_is_alphanumeric(#[trigger] s[i]) || s[i] == '-'
}

/// No two `-` in a row.
pub open spec fn no_double_dash(s: Seq<char>) -> bool {
    forall|i: int| 0 <= i < s.len() - 1 ==> !(#[trigger] s[i] == '-' && s[i + 1] == '-')
}

proof fn lemma_collapse_dashes(s: Seq<char>)
    requires
        slug_chars(s),
    ensures
        slug_chars(collapse_dashes(s)),
        no_double_dash(collapse_dashes(s)),
        s.len() > 0 ==> collapse_dashes(s).len() > 0 && collapse_dashes(s)[0] == s[0],
    decreases s.len(),
{
    if s.len() > 1 {
        let t = s.drop_first();
        assert forall|i: int| 0 <= i < t.len() implies spec_is_alphanumeric(#[trigger] t[i]) || t[i] == '-' by {
            assert(t[i] == s[i + 1]);
        }
        lemma_collapse_dashes(t);
        let c = collapse_dashes(t);
        if !(s[0] == '-' && s[1] == '-') {
            let r = seq![s[0]] + c;
            assert(collapse_dashes(s) == r);
            assert forall|i: int| 0 <= i < r.len() implies spec_is_alphanumeric(#[trigger] r[i]) || r[i] == '-' by {
                if i > 0 {
                    assert(r[i] == c[i - 1]);
                }
            }
            assert forall|i: int| 0 <= i < r.len() - 1 implies !(#[trigger] r[i] == '-' && r[i + 1] == '-') by {
                if i > 0 {
                    assert(r[i] == c[i - 1]);
                    assert(r[i + 1] == c[i]);
                } else {
                    assert(r[1] == c[0]);
                    assert(c[0] == t[0]);
                    assert(t[0] == s[1]);
                }
            }
        }
    }
}

/// A slug is filesystem-safe: only alphanumeric characters and `-`, never two
/// `-` in a row, and no `-` at either end.
pub proof fn lemma_slug_is_clean(title: Seq<char>)
    ensures
        clean_slug(slug_of(title)),
{
    let d = dash_non_slug(spec_to_lowercase(title));
    assert(slug_chars(d));
    lemma_collapse_dashes(d);
    let c = collapse_dashes(d);
    let f = char_pred('-');
    lemma_strip_leading_suffix(c, f);
    let l = strip_leading(c, f);
    let k1 = choose|k: int| 0 <= k <= c.len() && l == c.skip(k);
    lemma_strip_trailing_prefix(l, f);
    let r = strip_trailing(l, f);
    let k2 = choose|k: int| 0 <= k <= l.len() && r == l.take(k);
    assert(r == slug_of(title));
    assert forall|i: int| 0 <= i < r.len() implies #[trigger] r[i] == c[k1 + i] by {
        assert(r[i] == l[i]);
        assert(l[i] == c[k1 + i]);
    }
    assert forall|i: int| 0 <= i < r.len() implies spec_is_alphanumeric(#[trigger] r[i]) || r[i] == '-' by {
        assert(r[i] == c[k1 + i]);
    }
    assert forall|i: int| 0 <= i < r.len() - 1 implies !(#[trigger] r[i] == '-' && r[i + 1] == '-') by {
        assert(r[i] == c[k1 + i]);
        assert(r[i + 1] == c[k1 + i + 1]);
    }
    if r.len() > 0 {
        assert(r[0] == l[0]);
        assert(l.len() > 0);
        assert(!f(l[0]));
    }
}

} // verus!
