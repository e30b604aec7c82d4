//! Reading the activity log: the most recent entries, the entries after a
//! marker, and the entries that mention a text.
use vstd::prelude::*;
use crate::search::strings_view;
use crate::text::{
    find, find_from_exec, line_ranges, lines_of, owned, ranges_text, spec_to_lowercase, string_of,
    to_chars, to_lowercase,
};

verus! {

/// The lines of a text (std `str::lines`) as owned strings.
pub fn log_lines(content: &str) -> (res: Vec<String>)
    ensures
        strings_view(res@) == lines_of(content@),
{
    let v = to_chars(content);
    let rs = line_ranges(&v);
    let mut out: Vec<String> = Vec::new();
    let mut i: usize = 0;
    while i < rs.len()
        invariant
            i <= rs@.len(),
            forall|k: int| 0 <= k < rs@.len() ==> #[trigger] rs@[k].0 <= rs@[k].1 && rs@[k].1 <= v@.len(),
            ranges_text(v@, rs@) == lines_of(content@),
            strings_view(out@) == ranges_text(v@, rs@).take(i as int),
        decreases rs.len() - i,
    {
        let (a, b) = rs[i];
        let line = string_of(&v, a, b);
        let ghost before = out@;
        out.push(line);
        proof {
            assert(strings_view(out@) =~= strings_view(before).push(line@));
            assert(ranges_text(v@, rs@).take(i + 1) =~= ranges_text(v@, rs@).take(i as int).push(
                ranges_text(v@, rs@)[i as int],
            ));
        }
        i = i + 1;
    }
    proof {
        assert(ranges_text(v@, rs@).take(rs@.len() as int) =~= ranges_text(v@, rs@));
    }
    out
}

/// `s` contains `p`.
pub open spec fn mentions(s: Seq<char>, p: Seq<char>) -> bool {
    find(s, p) is Some
}

/// Whether `s` contains `p`.
pub fn contains_text(s: &str, p: &str) -> (r: bool)
    ensures
        r == mentions(s@, p@),
{
    let a = to_chars(s);
    let b = to_chars(p);
    find_from_exec(&a, &b, 0).is_some()
}

/// The last `count` lines of `c`, or all of them when there are fewer.
pub open spec fn recent_lines(c: Seq<char>, count: int) -> Seq<Seq<char>> {
    let ls = lines_of(c);
    if count >= ls.len() {
        ls
    } else {
        ls.skip(ls.len() - count)
    }
}

/// The last `count` lines of the log and the number of lines in it.
pub fn log_recent(content: &str, count: usize) -> (res: (Vec<String>, usize))
    ensures
        strings_view(res.0@) == recent_lines(content@, count as int),
        res.1 == lines_of(content@).len(),
{
    let all = log_lines(content);
    let total = all.len();
    let start = if count >= total { 0 } else { total - count };
    let ghost ls = lines_of(content@);
    let mut out: Vec<String> = Vec::new();
    let mut i = start;
    while i < total
        invariant
            start <= i <= total,
            total == all@.len(),
            strings_view(all@) == ls,
            strings_view(out@) == ls.subrange(start as int, i as int),
        decreases total - i,
    {
        let line = owned(all[i].as_str());
        let ghost before = out@;
        out.push(line);
        proof {
            assert(strings_view(out@) =~= strings_view(before).push(line@));
            assert(ls.subrange(start as int, i + 1) =~= ls.subrange(start as int, i as int).push(ls[i as int]));
        }
        i = i + 1;
    }
    proof {
        assert(ls.subrange(start as int, total as int) =~= recent_lines(content@, count as int));
    }
    (out, total)
}

/// The lines after the first line that mentions `m`; none when no line does.
pub open spec fn lines_after_marker(ls: Seq<Seq<char>>, m: Seq<char>) -> Seq<Seq<char>>
    decreases ls.len(),
{
    if ls.len() == 0 {
        ls
    } else if mentions(ls[0], m) {
        ls.drop_first()
    } else {
        lines_after_marker(ls.drop_first(), m)
    }
}

/// Lines that do not mention the marker can be skipped.
proof fn lemma_after_skip(ls: Seq<Seq<char>>, m: Seq<char>, i: int)
    requires
        0 <= i <= ls.len(),
        forall|j: int| 0 <= j < i ==> !mentions(#[trigger] ls[j], m),
    ensures
        lines_after_marker(ls, m) == lines_after_marker(ls.skip(i), m),
    decreases i,
{
    if i > 0 {
        let rest = ls.drop_first();
        assert forall|j: int| 0 <= j < i - 1 implies !mentions(#[trigger] rest[j], m) by {
            assert(rest[j] == ls[j + 1]);
        }
        lemma_after_skip(rest, m, i - 1);
        assert(rest.skip(i - 1) =~= ls.skip(i));
    } else {
        assert(ls.skip(0) =~= ls);
    }
}

/// The log lines after the first one that mentions `marker`.
pub fn log_since(content: &str, marker: &str) -> (res: Vec<String>)
    ensures
        strings_view(res@) == lines_after_marker(lines_of(content@), marker@),
{
    let all = log_lines(content);
    let ghost ls = lines_of(content@);
    let mut i: usize = 0;
    while i < all.len() && !contains_text(all[i].as_str(), marker)
        invariant
            i <= all@.len(),
            strings_view(all@) == ls,
            forall|j: int| 0 <= j < i ==> !mentions(#[trigger] ls[j], marker@),
        decreases all.len() - i,
    {
        proof {
            assert(ls[i as int] == all@[i as int]@);
        }
        i = i + 1;
    }
    proof {
        lemma_after_skip(ls, marker@, i as int);
    }
    let mut out: Vec<String> = Vec::new();
    if i < all.len() {
        proof {
            assert(ls[i as int] == all@[i as int]@);
            assert(ls.skip(i as int)[0] == ls[i as int]);
            assert(ls.skip(i as int).drop_first() =~= ls.subrange(i + 1, ls.len() as int));
        }
        let mut j = i + 1;
        while j < all.len()
            invariant
                i < j <= all@.len(),
                strings_view(all@) == ls,
                strings_view(out@) == ls.subrange(i + 1, j as int),
            decreases all.len() - j,
        {
            let line = owned(all[j].as_str());
            let ghost before = out@;
            out.push(line);
            proof {
                assert(strings_view(out@) =~= strings_view(before).push(line@));
                assert(ls.subrange(i + 1, j + 1) =~= ls.subrange(i + 1, j as int).push(ls[j as int]));
            }
            j = j + 1;
        }
    } else {
        proof {
            assert(ls.skip(i as int).len() == 0);
            assert(strings_view(out@) =~= ls.skip(i as int));
        }
    }
    out
}

/// The line mentions the text, ignoring case.
pub open spec fn mentions_ignoring_case(line: Seq<char>, text: Seq<char>) -> bool {
    mentions(spec_to_lowercase(line), spec_to_lowercase(text))
}

/// The log lines that mention `text`, ignoring case.
pub fn log_filter(content: &str, text: &str) -> (res: Vec<String>)
    ensures
        strings_view(res@) == lines_of(content@).filter(|l: Seq<char>| mentions_ignoring_case(l, text@)),
{
    let all = log_lines(content);
    let ghost ls = lines_of(content@);
    let ghost pred = |l: Seq<char>| mentions_ignoring_case(l, text@);
    let lowered = to_lowercase(text);
    let mut out: Vec<String> = Vec::new();
    let mut i: usize = 0;
    proof {
        reveal(Seq::filter);
        assert(ls.take(0).filter(pred) =~= Seq::<Seq<char>>::empty());
        assert(strings_view(out@) =~= Seq::<Seq<char>>::empty());
    }
    while i < all.len()
        invariant
            i <= all@.len(),
            strings_view(all@) == ls,
            lowered@ == spec_to_lowercase(text@),
            pred == (|l: Seq<char>| mentions_ignoring_case(l, text@)),
            strings_view(out@) == ls.take(i as int).filter(pred),
        decreases all.len() - i,
    {
        let line = all[i].as_str();
        let low = to_lowercase(line);
        proof {
            reveal(Seq::filter);
            assert(ls[i as int] == line@);
            assert(ls.take(i + 1).drop_last() == ls.take(i as int));
            assert(ls.take(i + 1).last() == line@);
        }
        if contains_text(low.as_str(), lowered.as_str()) {
            let ghost before = out@;
            out.push(owned(line));
            proof {
                assert(strings_view(out@) =~= strings_view(before).push(line@));
            }
        }
        i = i + 1;
    }
    proof {
        assert(ls.take(all@.len() as int) =~= ls);
    }
    out
}

} // verus!
