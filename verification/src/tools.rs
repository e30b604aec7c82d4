//! Helpers of the server's tools: time-spent fields and template placeholders.
use vstd::prelude::*;
use crate::parser::last_index_of;
use crate::search::strings_view;
use crate::code_intel::{chars_within, chars_within_exec, char_width, utf8_width};
use crate::text::{find, lines_of, line_ranges};
use crate::text::{
    find_from, find_from_exec, slice_vec, string_of, string_of_all,
    index_of_char, lemma_find_from_result, matches_at, matches_at_exec, parse_u64, parse_u64_range,
    spec_to_lowercase, to_chars, to_lowercase, trim, trim_range, trim_str,
};

verus! {

// ─── Time spent ─────────────────────────────────────────────

/// The lower-cased, trimmed form of a time-spent field.
pub open spec fn time_text(s: Seq<char>) -> Seq<char> {
    spec_to_lowercase(trim(s))
}

/// Where the minutes part of a time-spent text starts: after its last `h`.
pub open spec fn minutes_start(t: Seq<char>) -> int {
    match last_index_of(t, 'h') {
        Some(p) => p + 1,
        None => 0,
    }
}

/// Minutes of a time-spent text such as `2h 30m`, `45m` or `1h`: the number
/// before the first `h` counts 60 each, the number between the last `h` and the
/// first `m` counts 1 each; a part that is not a number counts nothing.
pub open spec fn time_spent_total(s: Seq<char>) -> int {
    let t = time_text(s);
    let hi = index_of_char(t, 'h');
    let hours: int = if hi < t.len() {
        match parse_u64(trim(t.take(hi as int))) {
            Some(h) => h * 60,
            None => 0,
        }
    } else {
        0
    };
    let mi = index_of_char(t, 'm');
    let mins: int = if mi < t.len() {
        match parse_u64(trim(t.subrange(minutes_start(t), mi as int))) {
            Some(m) => m as int,
            None => 0,
        }
    } else {
        0
    };
    hours + mins
}

/// The text can be read without slicing backwards (no `m` before the last `h`)
/// and its total fits in 64 bits.
pub open spec fn time_spent_readable(s: Seq<char>) -> bool {
    let t = time_text(s);
    &&& (index_of_char(t, 'm') < t.len() ==> minutes_start(t) <= index_of_char(t, 'm'))
    &&& time_spent_total(s) <= u64::MAX
}

fn first_index(v: &Vec<char>, c: char) -> (res: usize)
    ensures
        res == index_of_char(v@, c),
{
    let mut i: usize = 0;
    while i < v.len() && v[i] != c
        invariant
            i <= v.len(),
            forall|j: int| 0 <= j < i ==> v@[j] != c,
        decreases v.len() - i,
    {
        i = i + 1;
    }
    proof {
        crate::text::lemma_index_of_char_unique(v@, c, i as int);
    }
    i
}

/// Reads the number in `v[lo..hi]` after trimming it, if it is one.
fn number_in(v: &Vec<char>, lo: usize, hi: usize) -> (res: Option<u64>)
    requires
        lo <= hi <= v.len(),
    ensures
        res == parse_u64(trim(v@.subrange(lo as int, hi as int))),
{
    let (a, b) = trim_range(v, lo, hi);
    parse_u64_range(v, a, b)
}

/// The parts of a time-spent text: the hours read (if any) and the minutes read (if any).
fn time_parts(s: &str) -> (res: (Option<u64>, Option<u64>, bool))
    ensures
        ({
            let t = time_text(s@);
            let hi = index_of_char(t, 'h');
            let mi = index_of_char(t, 'm');
            &&& res.2 == (mi < t.len() ==> minutes_start(t) <= mi)
            &&& res.0 == (if hi < t.len() { parse_u64(trim(t.take(hi as int))) } else { None })
            &&& (res.2 ==> res.1 == (if mi < t.len() {
                parse_u64(trim(t.subrange(minutes_start(t), mi as int)))
            } else {
                None
            }))
        }),
{
    let trimmed = trim_str(s);
    let lower = to_lowercase(trimmed.as_str());
    let t = to_chars(lower.as_str());
    let hi = first_index(&t, 'h');
    let hours = if hi < t.len() {
        proof {
            assert(t@.subrange(0, hi as int) == t@.take(hi as int));
        }
        number_in(&t, 0, hi)
    } else {
        None
    };
    let mi = first_index(&t, 'm');
    let last_h = crate::parser::last_char_in(&t, 0, t.len(), 'h');
    proof {
        assert(t@.subrange(0, t@.len() as int) == t@);
        crate::parser::lemma_last_index_of_bound(t@, 'h');
    }
    let start = match last_h {
        Some(p) => p + 1,
        None => 0,
    };
    if mi < t.len() {
        if start > mi {
            return (hours, None, false);
        }
        let mins = number_in(&t, start, mi);
        (hours, mins, true)
    } else {
        (hours, None, true)
    }
}

/// Whether `parse_time_spent_to_minutes` can read `s`.
pub fn time_spent_parse_ok(s: &str) -> (res: bool)
    ensures
        res == time_spent_readable(s@),
{
    let (h, m, ok) = time_parts(s);
    if !ok {
        return false;
    }
    let hours: u128 = match h {
        Some(x) => (x as u128) * 60,
        None => 0,
    };
    let mins: u128 = match m {
        Some(x) => x as u128,
        None => 0,
    };
    hours + mins <= u64::MAX as u128
}

/// Total minutes of a time-spent text like `2h 30m`, `45m` or `1h`.
pub fn parse_time_spent_to_minutes(s: &str) -> (res: u64)
    requires
        time_spent_readable(s@),
    ensures
        res == time_spent_total(s@),
{
    let (h, m, _ok) = time_parts(s);
    let mut total: u64 = 0;
    if let Some(hours) = h {
        total = total + hours * 60;
    }
    if let Some(mins) = m {
        total = total + mins;
    }
    total
}

// ─── Template placeholders ──────────────────────────────────

/// Number of non-overlapping `{{` in `s` from index `i`, scanning left to right.
pub open spec fn opens_from(s: Seq<char>, i: int) -> nat
    decreases s.len() - i,
{
    proof {
        reveal_strlit("{{");
    }
    if i < 0 || i >= s.len() {
        0
    } else if matches_at(s, "{{"@, i) {
        1 + opens_from(s, i + 2)
    } else {
        opens_from(s, i + 1)
    }
}

/// Count `{{variable}}` placeholders: the non-overlapping occurrences of `{{`.
pub fn count_variables(content: &str) -> (res: usize)
    ensures
        res == opens_from(content@, 0),
{
    proof {
        reveal_strlit("{{");
    }
    let v = to_chars(content);
    let open = to_chars("{{");
    let mut count: usize = 0;
    let mut i: usize = 0;
    while i < v.len()
        invariant
            i <= v.len() + 1,
            open@ == "{{"@,
            open@.len() == 2,
            count <= i,
            count + opens_from(v@, i as int) == opens_from(v@, 0),
        decreases v.len() + 1 - i,
    {
        if matches_at_exec(&v, &open, i) {
            count = count + 1;
            i = i + 2;
        } else {
            i = i + 1;
        }
    }
    count
}

/// Names of the placeholders of `s` from `pos`: for each `{{`, the trimmed text
/// up to the next `}}`; scanning stops at a `{{` with no `}}` after it.
pub open spec fn placeholder_names(s: Seq<char>, pos: int) -> Seq<Seq<char>>
    decreases s.len() - pos,
{
    proof {
        reveal_strlit("{{");
        reveal_strlit("}}");
    }
    if pos < 0 || pos > s.len() {
        Seq::empty()
    } else {
        match find_from(s, "{{"@, pos) {
            None => Seq::empty(),
            Some(p) => {
                proof {
                    lemma_find_from_result(s, "{{"@, pos);
                }
                match find_from(s, "}}"@, p + 2) {
                    None => Seq::empty(),
                    Some(e) => {
                        proof {
                            lemma_find_from_result(s, "}}"@, p + 2);
                        }
                        seq![trim(s.subrange(p + 2, e))] + placeholder_names(s, e + 2)
                    },
                }
            },
        }
    }
}

/// Lexicographic order of texts by character (the order of `String`).
pub open spec fn text_less(a: Seq<char>, b: Seq<char>) -> bool
    decreases a.len(),
{
    if a.len() == 0 {
        b.len() > 0
    } else if b.len() == 0 {
        false
    } else if a[0] != b[0] {
        a[0] < b[0]
    } else {
        text_less(a.drop_first(), b.drop_first())
    }
}

pub proof fn lemma_text_less_irreflexive(a: Seq<char>)
    ensures
        !text_less(a, a),
    decreases a.len(),
{
    if a.len() > 0 {
        lemma_text_less_irreflexive(a.drop_first());
    }
}

pub proof fn lemma_text_less_transitive(a: Seq<char>, b: Seq<char>, c: Seq<char>)
    requires
        text_less(a, b),
        text_less(b, c),
    ensures
        text_less(a, c),
    decreases a.len(),
{
    if a.len() > 0 && b.len() > 0 && c.len() > 0 && a[0] == b[0] && b[0] == c[0] {
        lemma_text_less_transitive(a.drop_first(), b.drop_first(), c.drop_first());
    }
}

pub proof fn lemma_text_less_total(a: Seq<char>, b: Seq<char>)
    ensures
        a == b || text_less(a, b) || text_less(b, a),
    decreases a.len(),
{
    if a.len() > 0 && b.len() > 0 && a[0] == b[0] {
        lemma_text_less_total(a.drop_first(), b.drop_first());
        if a.drop_first() == b.drop_first() {
            assert(a == seq![a[0]] + a.drop_first());
            assert(b == seq![b[0]] + b.drop_first());
        }
    } else if a.len() == 0 && b.len() == 0 {
        assert(a =~= b);
    }
}

/// Whether `a` comes before `b`.
fn less_exec(a: &Vec<char>, b: &Vec<char>) -> (res: bool)
    ensures
        res == text_less(a@, b@),
{
    let mut i: usize = 0;
    proof {
        assert(a@.skip(0) == a@ && b@.skip(0) == b@);
    }
    while i < a.len() && i < b.len() && a[i] == b[i]
        invariant
            i <= a.len(),
            i <= b.len(),
            text_less(a@, b@) == text_less(a@.skip(i as int), b@.skip(i as int)),
        decreases a.len() - i,
    {
        proof {
            assert(a@.skip(i as int).drop_first() == a@.skip(i + 1));
            assert(b@.skip(i as int).drop_first() == b@.skip(i + 1));
            assert(a@.skip(i as int)[0] == a@[i as int]);
            assert(b@.skip(i as int)[0] == b@[i as int]);
        }
        i = i + 1;
    }
    proof {
        if i < a.len() && i < b.len() {
            assert(a@.skip(i as int)[0] == a@[i as int]);
            assert(b@.skip(i as int)[0] == b@[i as int]);
        }
    }
    if i == a.len() {
        i < b.len()
    } else if i == b.len() {
        false
    } else {
        a[i] < b[i]
    }
}

/// The list is strictly increasing.
pub open spec fn strictly_sorted(v: Seq<Seq<char>>) -> bool {
    forall|i: int, j: int| 0 <= i < j < v.len() ==> text_less(#[trigger] v[i], #[trigger] v[j])
}

/// Unique variable names of the `{{variable}}` placeholders of `content`, in
/// the order of `String`: the non-empty names, each once.
pub fn extract_variables(content: &str) -> (res: Vec<String>)
    ensures
        strictly_sorted(strings_view(res@)),
        forall|x: Seq<char>|
            #[trigger] strings_view(res@).contains(x) <==> (placeholder_names(content@, 0).contains(x)
                && x.len() > 0),
{
    proof {
        reveal_strlit("{{");
        reveal_strlit("}}");
    }
    let v = to_chars(content);
    let open = to_chars("{{");
    let close = to_chars("}}");
    let mut vars: Vec<String> = Vec::new();
    let mut pos: usize = 0;
    let ghost all = placeholder_names(v@, 0);
    let ghost mut seen: Seq<Seq<char>> = Seq::empty();
    proof {
        assert(all == seen + placeholder_names(v@, 0));
    }
    loop
        invariant
            pos <= v.len(),
            v@ == content@,
            open@ == "{{"@,
            close@ == "}}"@,
            open@.len() == 2,
            close@.len() == 2,
            all == placeholder_names(v@, 0),
            all == seen + placeholder_names(v@, pos as int),
            strictly_sorted(strings_view(vars@)),
            forall|x: Seq<char>|
                #[trigger] strings_view(vars@).contains(x) <==> (seen.contains(x) && x.len() > 0),
        ensures
            strictly_sorted(strings_view(vars@)),
            forall|x: Seq<char>|
                #[trigger] strings_view(vars@).contains(x) <==> (all.contains(x) && x.len() > 0),
        decreases v.len() - pos,
    {
        let p = match find_from_exec(&v, &open, pos) {
            None => {
                proof {
                    assert(placeholder_names(v@, pos as int) == Seq::<Seq<char>>::empty());
                    assert(all == seen);
                }
                break;
            },
            Some(p) => p,
        };
        proof {
            lemma_find_from_result(v@, "{{"@, pos as int);
        }
        let e = match find_from_exec(&v, &close, p + 2) {
            None => {
                proof {
                    assert(placeholder_names(v@, pos as int) == Seq::<Seq<char>>::empty());
                    assert(all == seen);
                }
                break;
            },
            Some(e) => e,
        };
        proof {
            lemma_find_from_result(v@, "}}"@, p + 2);
        }
        let (a, b) = trim_range(&v, p + 2, e);
        let name = slice_vec(&v, a, b);
        let ghost nm = name@;
        proof {
            assert(placeholder_names(v@, pos as int) == seq![nm] + placeholder_names(v@, e + 2));
            assert(all == seen.push(nm) + placeholder_names(v@, e + 2));
        }
        if name.len() > 0 {
            insert_sorted(&mut vars, &name);
        }
        proof {
            let vv = strings_view(vars@);
            assert forall|x: Seq<char>| vv.contains(x) <==> (seen.push(nm).contains(x) && x.len() > 0) by {
                if seen.push(nm).contains(x) && x != nm {
                    let w = choose|w: int| 0 <= w < seen.push(nm).len() && seen.push(nm)[w] == x;
                    assert(seen[w] == x);
                }
                if seen.contains(x) {
                    let w = choose|w: int| 0 <= w < seen.len() && seen[w] == x;
                    assert(seen.push(nm)[w] == x);
                }
                assert(seen.push(nm)[seen.len() as int] == nm);
            }
            seen = seen.push(nm);
        }
        pos = e + 2;
    }
    vars
}

/// Inserts the non-empty `name` into a strictly sorted list, unless it is there.
fn insert_sorted(vars: &mut Vec<String>, name: &Vec<char>)
    requires
        strictly_sorted(strings_view(old(vars)@)),
    ensures
        strictly_sorted(strings_view(final(vars)@)),
        forall|x: Seq<char>|
            #[trigger] strings_view(final(vars)@).contains(x) <==> (strings_view(old(vars)@).contains(x) || x == name@),
{
    let ghost old_v = strings_view(vars@);
    let mut k: usize = 0;
    while k < vars.len()
        invariant
            k <= vars.len(),
            strings_view(vars@) == old_v,
            strictly_sorted(old_v),
            forall|j: int| 0 <= j < k ==> text_less(#[trigger] old_v[j], name@),
        ensures
            k <= vars.len(),
            vars@.map_values(|s: String| s@) == old_v,
            forall|j: int| 0 <= j < k ==> text_less(#[trigger] old_v[j], name@),
            k < vars.len() ==> !text_less(old_v[k as int], name@),
        decreases vars.len() - k,
    {
        let cur = to_chars(vars[k].as_str());
        proof {
            assert(old_v[k as int] == vars@[k as int]@);
        }
        if !less_exec(&cur, name) {
            break;
        }
        k = k + 1;
    }
    let ghost kk = k as int;
    if k < vars.len() {
        let cur = to_chars(vars[k].as_str());
        proof {
            assert(old_v[kk] == vars@[kk]@);
        }
        if crate::text::chars_eq(&cur, name) {
            proof {
                assert forall|x: Seq<char>| old_v.contains(x) <==> (old_v.contains(x) || x == name@) by {
                    if x == name@ {
                        assert(old_v[kk] == x);
                    }
                }
            }
            return;
        }
        proof {
            lemma_text_less_total(old_v[kk], name@);
        }
    }
    let ghost before = vars@;
    vars.insert(k, string_of_all(name));
    proof {
        let nv = strings_view(vars@);
        assert(nv.len() == old_v.len() + 1);
        assert forall|j: int| 0 <= j < nv.len() implies #[trigger] nv[j] == (if j < kk { old_v[j] } else if j == kk { name@ } else { old_v[j - 1] }) by {
            if j < kk {
                assert(vars@[j] == before[j]);
            } else if j > kk {
                assert(vars@[j] == before[j - 1]);
            }
        }
        assert forall|i: int, j: int| 0 <= i < j < nv.len() implies text_less(#[trigger] nv[i], #[trigger] nv[j]) by {
            if j < kk {
            } else if j == kk {
            } else if i < kk {
                assert(text_less(old_v[i], name@));
                if kk < old_v.len() {
                    assert(text_less(name@, old_v[kk]));
                    if j - 1 > kk {
                        lemma_text_less_transitive(name@, old_v[kk], old_v[j - 1]);
                    }
                    lemma_text_less_transitive(old_v[i], name@, old_v[j - 1]);
                }
            } else if i == kk {
                if j - 1 > kk {
                    lemma_text_less_transitive(name@, old_v[kk], old_v[j - 1]);
                }
            } else {
            }
        }
        assert forall|x: Seq<char>| nv.contains(x) <==> (old_v.contains(x) || x == name@) by {
            if nv.contains(x) {
                let w = choose|w: int| 0 <= w < nv.len() && nv[w] == x;
                if w < kk {
                    assert(old_v[w] == x);
                } else if w > kk {
                    assert(old_v[w - 1] == x);
                }
            }
            if old_v.contains(x) {
                let w = choose|w: int| 0 <= w < old_v.len() && old_v[w] == x;
                if w < kk {
                    assert(nv[w] == x);
                } else {
                    assert(nv[w + 1] == x);
                }
            }
            if x == name@ {
                assert(nv[kk] == x);
            }
        }
    }
}

// ─── Task descriptions ──────────────────────────────────────

/// UTF-8 length of a text.
pub open spec fn byte_len(s: Seq<char>) -> nat
    decreases s.len(),
{
    if s.len() == 0 {
        0
    } else {
        byte_len(s.drop_last()) + utf8_width(s.last())
    }
}

/// The text of a task page after its frontmatter: what follows the first
/// `\n---` (without one newline right after it), or the whole text.
pub open spec fn after_frontmatter(c: Seq<char>) -> Seq<char> {
    match find(c, "\n---"@) {
        Some(end) => {
            let after = c.skip(end + 4);
            if after.len() > 0 && after[0] == '\n' {
                after.skip(1)
            } else {
                after
            }
        },
        None => c,
    }
}

/// The first line that is not blank.
pub open spec fn first_filled(lines: Seq<Seq<char>>) -> Option<Seq<char>>
    decreases lines.len(),
{
    if lines.len() == 0 {
        None
    } else if trim(lines[0]).len() > 0 {
        Some(lines[0])
    } else {
        first_filled(lines.drop_first())
    }
}

/// The line a task page is described by.
pub open spec fn description_line(content: Seq<char>) -> Option<Seq<char>> {
    first_filled(lines_of(trim(after_frontmatter(content))))
}

/// Description of a task page: its first non-blank body line, trimmed; a line
/// over 200 bytes is cut to its first 197 bytes and `...` appended.
pub open spec fn description_of(content: Seq<char>) -> Seq<char> {
    match description_line(content) {
        None => Seq::empty(),
        Some(l) => {
            let t = trim(l);
            if byte_len(t) > 200 {
                t.take(chars_within(t, 197) as int) + "..."@
            } else {
                t
            }
        },
    }
}

/// A long description line can be cut at byte 197 (a character ends there).
pub open spec fn description_cut_ok(content: Seq<char>) -> bool {
    match description_line(content) {
        None => true,
        Some(l) => {
            let t = trim(l);
            byte_len(t) > 200 ==> byte_len(t.take(chars_within(t, 197) as int)) == 197
        },
    }
}

proof fn lemma_byte_len_prefix(s: Seq<char>, i: int)
    requires
        0 <= i <= s.len(),
    ensures
        byte_len(s.take(i)) <= byte_len(s),
    decreases s.len() - i,
{
    if i < s.len() {
        lemma_byte_len_prefix(s, i + 1);
        assert(s.take(i + 1).drop_last() == s.take(i));
    } else {
        assert(s.take(i) == s);
    }
}

/// UTF-8 length of `v[lo..hi]`, or `cap + 1` when it exceeds `cap`.
fn byte_len_capped(v: &Vec<char>, lo: usize, hi: usize, cap: usize) -> (res: usize)
    requires
        lo <= hi <= v.len(),
        cap < 1000,
    ensures
        byte_len(v@.subrange(lo as int, hi as int)) <= cap ==> res == byte_len(v@.subrange(lo as int, hi as int)),
        byte_len(v@.subrange(lo as int, hi as int)) > cap ==> res == cap + 1,
{
    let ghost s = v@.subrange(lo as int, hi as int);
    let mut acc: usize = 0;
    let mut i = lo;
    proof {
        assert(s.take(0) =~= Seq::<char>::empty());
    }
    while i < hi
        invariant
            lo <= i <= hi <= v.len(),
            cap < 1000,
            s == v@.subrange(lo as int, hi as int),
            acc == byte_len(s.take(i - lo)),
            acc <= cap,
        decreases hi - i,
    {
        proof {
            assert(s.take(i - lo + 1).drop_last() == s.take(i - lo));
            assert(s.take(i - lo + 1).last() == v@[i as int]);
        }
        let w = char_width(v[i]);
        if acc + w > cap {
            proof {
                lemma_byte_len_prefix(s, i - lo + 1);
            }
            return cap + 1;
        }
        acc = acc + w;
        i = i + 1;
    }
    proof {
        assert(s.take(hi - lo) == s);
    }
    acc
}

/// The trimmed description line of a page, if it has one.
fn description_line_exec(content: &str) -> (res: Option<Vec<char>>)
    ensures
        match description_line(content@) {
            Some(l) => res matches Some(t) && t@ == trim(l),
            None => res is None,
        },
{
    proof {
        reveal_strlit("\n---");
    }
    let v = to_chars(content);
    let marker = to_chars("\n---");
    let body = match find_from_exec(&v, &marker, 0) {
        Some(end) => {
            proof {
                lemma_find_from_result(v@, "\n---"@, 0);
                assert("\n---"@.len() == 4);
            }
            let mut start = end + 4;
            if start < v.len() && v[start] == '\n' {
                start = start + 1;
            }
            let b = slice_vec(&v, start, v.len());
            proof {
                let after = v@.skip(end + 4);
                if after.len() > 0 {
                    assert(after[0] == v@[end + 4]);
                }
                if end + 4 < v.len() && v@[end + 4] == '\n' {
                    assert(after.skip(1) == b@);
                } else {
                    assert(after == b@);
                }
            }
            b
        },
        None => {
            proof {
                assert(v@.subrange(0, v@.len() as int) == v@);
            }
            slice_vec(&v, 0, v.len())
        },
    };
    let (a, b) = trim_range(&body, 0, body.len());
    let t = slice_vec(&body, a, b);
    proof {
        assert(body@.subrange(0, body@.len() as int) == body@);
    }
    let ranges = line_ranges(&t);
    let ghost lines = lines_of(t@);
    let mut i: usize = 0;
    proof {
        assert(lines.skip(0) == lines);
    }
    while i < ranges.len()
        invariant
            i <= ranges.len(),
            crate::text::ranges_valid(ranges@, t@.len() as int),
            crate::text::ranges_text(t@, ranges@) == lines,
            lines == lines_of(t@),
            t@ == trim(after_frontmatter(content@)),
            first_filled(lines) == first_filled(lines.skip(i as int)),
        decreases ranges.len() - i,
    {
        let (lo, hi) = ranges[i];
        proof {
            assert(ranges@[i as int].0 <= ranges@[i as int].1 && ranges@[i as int].1 <= t@.len());
            assert(lines[i as int] == t@.subrange(lo as int, hi as int));
            assert(lines.skip(i as int)[0] == lines[i as int]);
            assert(lines.skip(i as int).drop_first() == lines.skip(i + 1));
        }
        let (la, lb) = trim_range(&t, lo, hi);
        if la < lb {
            return Some(slice_vec(&t, la, lb));
        }
        i = i + 1;
    }
    proof {
        assert(lines.skip(ranges.len() as int).len() == 0);
    }
    None
}

/// Whether the description of a page can be cut where the server cuts it.
pub fn description_cut_ok_exec(content: &str) -> (res: bool)
    ensures
        res == description_cut_ok(content@),
{
    match description_line_exec(content) {
        None => true,
        Some(t) => {
            if byte_len_capped(&t, 0, t.len(), 200) <= 200 {
                proof {
                    assert(t@.subrange(0, t@.len() as int) == t@);
                }
                return true;
            }
            proof {
                assert(t@.subrange(0, t@.len() as int) == t@);
            }
            let k = chars_within_exec(&t, 197);
            proof {
                assert(t@.subrange(0, k as int) == t@.take(k as int));
            }
            byte_len_capped(&t, 0, k, 200) == 197
        },
    }
}

/// Description of a task page from its content: its first non-blank body
/// line, trimmed, cut to 197 bytes and `...` when longer than 200 bytes.
pub fn task_description(content: &str) -> (res: String)
    requires
        description_cut_ok(content@),
    ensures
        res@ == description_of(content@),
{
    proof {
        reveal_strlit("...");
    }
    match description_line_exec(content) {
        None => String::new(),
        Some(t) => {
            proof {
                assert(t@.subrange(0, t@.len() as int) == t@);
            }
            if byte_len_capped(&t, 0, t.len(), 200) > 200 {
                let k = chars_within_exec(&t, 197);
                let mut out = string_of(&t, 0, k);
                crate::text::push_str(&mut out, "...");
                proof {
                    assert(t@.subrange(0, k as int) == t@.take(k as int));
                }
                out
            } else {
                string_of_all(&t)
            }
        },
    }
}

// ─── Acceptance criteria ────────────────────────────────────

/// The criterion numbers among `items`: those that read as a `u64`, in order;
/// the others are left out.
pub open spec fn criterion_numbers(items: Seq<Seq<char>>) -> Seq<u64>
    decreases items.len(),
{
    if items.len() == 0 {
        Seq::empty()
    } else {
        criterion_numbers(items.drop_last()) + match parse_u64(items.last()) {
            Some(n) => seq![n],
            None => Seq::empty(),
        }
    }
}

/// The numbers of the acceptance criteria to check or uncheck.
pub fn criteria_indices(items: &Vec<String>) -> (res: Vec<u64>)
    ensures
        res@ == criterion_numbers(strings_view(items@)),
{
    let ghost all = strings_view(items@);
    let mut out: Vec<u64> = Vec::new();
    let mut i: usize = 0;
    proof {
        assert(all.take(0) =~= Seq::<Seq<char>>::empty());
    }
    while i < items.len()
        invariant
            i <= items@.len(),
            all == strings_view(items@),
            out@ == criterion_numbers(all.take(i as int)),
        decreases items.len() - i,
    {
        let v = to_chars(items[i].as_str());
        let parsed = parse_u64_range(&v, 0, v.len());
        proof {
            assert(v@.subrange(0, v@.len() as int) =~= v@);
            assert(all.take(i + 1).drop_last() =~= all.take(i as int));
            assert(all.take(i + 1).last() == v@);
        }
        match parsed {
            Some(n) => {
                out.push(n);
                proof {
                    assert(out@ =~= criterion_numbers(all.take(i as int)) + seq![n]);
                }
            },
            None => {
                proof {
                    assert(criterion_numbers(all.take(i as int)) + Seq::<u64>::empty() =~= criterion_numbers(all.take(i as int)));
                }
            },
        }
        i = i + 1;
    }
    proof {
        assert(all.take(items@.len() as int) =~= all);
    }
    out
}

} // verus!
