//! Inline `@doc/`, `@task/`, `@memory/`, `@decision/` and `@template/` references.
use vstd::prelude::*;
use crate::matching::{captures_view, groups_view, regex_captures, spec_regex_captures};
use crate::error::{internal_view, ToolError, ToolErrorView};
use crate::text::{
    ends_with, trim_suffix_repeated, trim_suffix_repeated_str,
    join, line_ranges, lines_of, owned, push_str, ranges_text, ranges_valid, split_char,
    split_ranges, starts_with, starts_with_range, string_of, to_chars, trim_start,
};

verus! {

/// The pattern of an inline reference: `@`, a reference type, `/`, and a target
/// made of letters, digits, `_`, `.`, `/` and `-`, not preceded by a word character.
pub open spec fn reference_pattern() -> Seq<char> {
    "\\B@(doc|task|memory|decision|template)/([A-Za-z0-9_./-]+)"@
}

/// A parsed reference from body text.
#[derive(Debug, Clone)]
pub struct Reference {
    /// Reference type: doc, task, memory, decision, template
    pub ref_type: String,
    /// Path or ID within that type
    pub target: String,
    /// The full matched text (e.g., "@doc/specs/foo")
    pub full_match: String,
}

/// `(type, target)` of the matches whose two groups both took part.
pub open spec fn refs_of_captures(caps: Seq<Seq<Option<Seq<char>>>>) -> Seq<(Seq<char>, Seq<char>)>
    decreases caps.len(),
{
    if caps.len() == 0 {
        Seq::empty()
    } else {
        let c = caps.last();
        let rest = refs_of_captures(caps.drop_last());
        if c.len() > 2 && c[1] is Some && c[2] is Some {
            rest.push((c[1]->0, c[2]->0))
        } else {
            rest
        }
    }
}

/// References found on one line.
pub open spec fn line_refs(line: Seq<char>) -> Seq<(Seq<char>, Seq<char>)> {
    match spec_regex_captures(reference_pattern(), line) {
        Some(caps) => refs_of_captures(caps),
        None => Seq::empty(),
    }
}

/// References of the remaining lines, skipping lines inside ``` code blocks and
/// the fence lines themselves.
pub open spec fn refs_scan(lines: Seq<Seq<char>>, in_code: bool) -> Seq<(Seq<char>, Seq<char>)>
    decreases lines.len(),
{
    if lines.len() == 0 {
        Seq::empty()
    } else if starts_with(trim_start(lines[0]), "```"@) {
        refs_scan(lines.drop_first(), !in_code)
    } else if in_code {
        refs_scan(lines.drop_first(), in_code)
    } else {
        line_refs(lines[0]) + refs_scan(lines.drop_first(), in_code)
    }
}

/// `(type, target)` of every reference in `content`, in order.
pub open spec fn references_of(content: Seq<char>) -> Seq<(Seq<char>, Seq<char>)> {
    refs_scan(lines_of(content), false)
}

/// A reference built from a type and a target.
pub open spec fn reference_ok(r: Reference, t: (Seq<char>, Seq<char>)) -> bool {
    &&& r.ref_type@ == t.0
    &&& r.target@ == t.1
    &&& r.full_match@ == "@"@ + t.0 + "/"@ + t.1
}

fn make_reference(ref_type: &String, target: &String) -> (r: Reference)
    ensures
        reference_ok(r, (ref_type@, target@)),
{
    let mut full = owned("@");
    push_str(&mut full, ref_type.as_str());
    push_str(&mut full, "/");
    push_str(&mut full, target.as_str());
    Reference { ref_type: owned(ref_type.as_str()), target: owned(target.as_str()), full_match: full }
}

/// The references made from the regex captures of one line: one for each
/// match whose type and target groups both took part, in order.
pub fn references_from_captures(caps: &Vec<Vec<Option<String>>>) -> (res: Vec<Reference>)
    ensures
        res@.len() == refs_of_captures(captures_view(caps@)).len(),
        forall|j: int|
            0 <= j < res@.len() ==> reference_ok(#[trigger] res@[j], refs_of_captures(captures_view(caps@))[j]),
{
    let ghost cv = captures_view(caps@);
    let mut out: Vec<Reference> = Vec::new();
    let mut i: usize = 0;
    proof {
        assert(cv.take(0) =~= Seq::<Seq<Option<Seq<char>>>>::empty());
    }
    while i < caps.len()
        invariant
            i <= caps.len(),
            cv == captures_view(caps@),
            out@.len() == refs_of_captures(cv.take(i as int)).len(),
            forall|j: int| 0 <= j < out@.len() ==> reference_ok(#[trigger] out@[j], refs_of_captures(cv.take(i as int))[j]),
        decreases caps.len() - i,
    {
        let g = &caps[i];
        proof {
            assert(cv.take(i + 1).drop_last() == cv.take(i as int));
            assert(cv.take(i + 1).last() == groups_view(g@));
        }
        if g.len() > 2 {
            match (&g[1], &g[2]) {
                (Some(t), Some(target)) => {
                    let r = make_reference(t, target);
                    let ghost old_out = out@;
                    out.push(r);
                    proof {
                        let prev = refs_of_captures(cv.take(i as int));
                        let next = refs_of_captures(cv.take(i + 1));
                        assert(groups_view(g@)[1] == Some(t@));
                        assert(groups_view(g@)[2] == Some(target@));
                        assert(next == prev.push((t@, target@)));
                        assert forall|j: int| 0 <= j < out@.len() implies reference_ok(#[trigger] out@[j], next[j]) by {
                            if j < old_out.len() {
                                assert(out@[j] == old_out[j]);
                            }
                        }
                    }
                },
                _ => {
                    proof {
                        assert(groups_view(g@)[1] == (match g@[1] { Some(s) => Some(s@), None => None }));
                        assert(groups_view(g@)[2] == (match g@[2] { Some(s) => Some(s@), None => None }));
                    }
                },
            }
        }
        i = i + 1;
    }
    proof {
        assert(cv.take(caps.len() as int) == cv);
    }
    out
}

fn push_line_refs(out: &mut Vec<Reference>, line: &str, Ghost(acc): Ghost<Seq<(Seq<char>, Seq<char>)>>)
    requires
        old(out)@.len() == acc.len(),
        forall|j: int| 0 <= j < acc.len() ==> reference_ok(#[trigger] old(out)@[j], acc[j]),
    ensures
        final(out)@.len() == (acc + line_refs(line@)).len(),
        forall|j: int| 0 <= j < final(out)@.len() ==> reference_ok(#[trigger] final(out)@[j], (acc + line_refs(line@))[j]),
{
    let caps = regex_captures("\\B@(doc|task|memory|decision|template)/([A-Za-z0-9_./-]+)", line);
    match caps {
        None => {
            proof {
                assert(acc + line_refs(line@) == acc);
            }
        },
        Some(caps) => {
            let mut rs = references_from_captures(&caps);
            let ghost rv = rs@;
            let ghost refs = refs_of_captures(captures_view(caps@));
            out.append(&mut rs);
            proof {
                assert(line_refs(line@) == refs);
                assert forall|j: int| 0 <= j < out@.len() implies reference_ok(#[trigger] out@[j], (acc + refs)[j]) by {
                    if j < acc.len() {
                        assert(out@[j] == old(out)@[j]);
                    } else {
                        assert(out@[j] == rv[j - acc.len()]);
                        assert((acc + refs)[j] == refs[j - acc.len()]);
                    }
                }
            }
        },
    }
}

/// Extract inline @references from markdown body text.
/// Supports: @doc/path, @task/id, @memory/id, @decision/path, @template/name
/// Skips references inside code blocks (```...```).
pub fn extract_references(content: &str) -> (res: Vec<Reference>)
    ensures
        res@.len() == references_of(content@).len(),
        forall|j: int| 0 <= j < res@.len() ==> reference_ok(#[trigger] res@[j], references_of(content@)[j]),
{
    proof {
        reveal_strlit("```");
    }
    let v = to_chars(content);
    let ranges = line_ranges(&v);
    let fence = to_chars("```");
    let ghost lines = lines_of(v@);
    let ghost total = references_of(content@);
    let mut out: Vec<Reference> = Vec::new();
    let mut in_code = false;
    let ghost mut acc: Seq<(Seq<char>, Seq<char>)> = Seq::empty();
    let mut k: usize = 0;
    proof {
        assert(lines.skip(0) == lines);
    }
    while k < ranges.len()
        invariant
            k <= ranges.len(),
            ranges_valid(ranges@, v@.len() as int),
            ranges_text(v@, ranges@) == lines,
            lines == lines_of(content@),
            v@ == content@,
            fence@ == "```"@,
            total == references_of(content@),
            total == acc + refs_scan(lines.skip(k as int), in_code),
            out@.len() == acc.len(),
            forall|j: int| 0 <= j < acc.len() ==> reference_ok(#[trigger] out@[j], acc[j]),
        decreases ranges.len() - k,
    {
        let (lo, hi) = ranges[k];
        proof {
            assert(ranges@[k as int].0 <= ranges@[k as int].1 && ranges@[k as int].1 <= v@.len());
            assert(lines[k as int] == v@.subrange(lo as int, hi as int));
            assert(lines.skip(k as int)[0] == lines[k as int]);
            assert(lines.skip(k as int).drop_first() == lines.skip(k + 1));
        }
        let mut a = lo;
        while a < hi && crate::text::is_whitespace(v[a])
            invariant
                lo <= a <= hi <= v.len(),
                forall|j: int| lo <= j < a ==> crate::text::spec_is_whitespace(v@[j]),
            decreases hi - a,
        {
            a = a + 1;
        }
        proof {
            crate::text::lemma_strip_leading_skip(v@.subrange(lo as int, hi as int), crate::text::ws_pred(), a - lo);
            assert(v@.subrange(lo as int, hi as int).skip(a - lo) == v@.subrange(a as int, hi as int));
        }
        if starts_with_range(&v, a, hi, &fence) {
            in_code = !in_code;
        } else if !in_code {
            let line = string_of(&v, lo, hi);
            push_line_refs(&mut out, line.as_str(), Ghost(acc));
            proof {
                acc = acc + line_refs(line@);
                assert(acc + refs_scan(lines.skip(k + 1), in_code) == (acc.subrange(0, acc.len() - line_refs(line@).len())) + (line_refs(line@) + refs_scan(lines.skip(k + 1), in_code))) by {
                    assert(acc.subrange(0, acc.len() - line_refs(line@).len()) + line_refs(line@) == acc);
                }
            }
        }
        k = k + 1;
    }
    proof {
        assert(lines.skip(k as int).len() == 0);
        assert(acc + Seq::<(Seq<char>, Seq<char>)>::empty() == acc);
    }
    out
}

/// A path segment kept by `sanitize_ref_target`.
pub open spec fn kept_segment(seg: Seq<char>) -> bool {
    seg != ".."@ && seg != "."@
}

/// A reference target with every `.` and `..` segment removed.
pub open spec fn sanitized(target: Seq<char>) -> Seq<char> {
    join(split_char(target, '/').filter(|seg: Seq<char>| kept_segment(seg)), "/"@)
}

/// Sanitize a reference target to prevent path traversal.
/// Strips ".." and "." path segments.
pub fn sanitize_ref_target(target: &str) -> (res: String)
    ensures
        res@ == sanitized(target@),
{
    proof {
        reveal_strlit(".");
        reveal_strlit("..");
        reveal_strlit("/");
    }
    let v = to_chars(target);
    let ranges = split_ranges(&v, '/');
    let ghost segs = split_char(v@, '/');
    let ghost pred = |seg: Seq<char>| kept_segment(seg);
    let mut out = String::new();
    let mut any = false;
    let mut k: usize = 0;
    proof {
        reveal(Seq::filter);
        assert(segs.take(0).filter(pred) =~= Seq::<Seq<char>>::empty());
    }
    while k < ranges.len()
        invariant
            k <= ranges.len(),
            ranges_valid(ranges@, v@.len() as int),
            ranges_text(v@, ranges@) == segs,
            segs == split_char(target@, '/'),
            pred == (|seg: Seq<char>| kept_segment(seg)),
            out@ == join(segs.take(k as int).filter(pred), "/"@),
            any == (segs.take(k as int).filter(pred).len() > 0),
        decreases ranges.len() - k,
    {
        let (lo, hi) = ranges[k];
        let ghost seg = v@.subrange(lo as int, hi as int);
        proof {
            reveal(Seq::filter);
            reveal_strlit(".");
            reveal_strlit("..");
            reveal_strlit("/");
            assert(ranges@[k as int].0 <= ranges@[k as int].1 && ranges@[k as int].1 <= v@.len());
            assert(segs.take(k + 1).last() == seg);
            assert(segs.take(k + 1).drop_last() == segs.take(k as int));
        }
        let is_dot = hi - lo == 1 && v[lo] == '.';
        let is_dotdot = hi - lo == 2 && v[lo] == '.' && v[lo + 1] == '.';
        proof {
            if is_dot {
                assert(seg =~= "."@);
            }
            if seg == "."@ {
                assert(seg.len() == 1 && seg[0] == v@[lo as int]);
            }
            if is_dotdot {
                assert(seg =~= ".."@);
            }
            if seg == ".."@ {
                assert(seg.len() == 2 && seg[0] == v@[lo as int] && seg[1] == v@[lo + 1]);
            }
        }
        if !is_dot && !is_dotdot {
            let ghost before = segs.take(k as int).filter(pred);
            if any {
                push_str(&mut out, "/");
            }
            any = true;
            let piece = string_of(&v, lo, hi);
            push_str(&mut out, piece.as_str());
            proof {
                let after = before.push(seg);
                assert(segs.take(k + 1).filter(pred) == after);
                if before.len() == 0 {
                    assert(out@ =~= join(after, "/"@));
                } else {
                    assert(after.drop_last() == before);
                }
            }
        }
        k = k + 1;
    }
    proof {
        assert(segs.take(ranges.len() as int) == segs);
    }
    out
}

// ─── Resolution ─────────────────────────────────────────────

/// Where a reference points: a wiki page (tried by each id in turn), a memory
/// entry, or a template (each by its sanitized name).
#[derive(Debug)]
pub enum ReferenceTarget {
    Page(Vec<String>),
    Memory(String),
    Template(String),
}

/// Plain view of a reference target.
pub enum ReferenceTargetView {
    Page(Seq<Seq<char>>),
    Memory(Seq<char>),
    Template(Seq<char>),
}

/// View of a reference target.
pub open spec fn target_view(t: ReferenceTarget) -> ReferenceTargetView {
    match t {
        ReferenceTarget::Page(ids) => ReferenceTargetView::Page(ids@.map_values(|s: String| s@)),
        ReferenceTarget::Memory(n) => ReferenceTargetView::Memory(n@),
        ReferenceTarget::Template(n) => ReferenceTargetView::Template(n@),
    }
}

/// Target of a reference: `doc` and `decision` name a page by its id (trailing
/// `.md` removed) or that id with `.md`; `task` names a page by its id; `memory`
/// and `template` name an entry by the sanitized target; any other type is an
/// error.
pub open spec fn target_of(ref_type: Seq<char>, target: Seq<char>) -> Result<ReferenceTargetView, ToolErrorView> {
    let page = trim_suffix_repeated(target, ".md"@);
    if ref_type == "doc"@ || ref_type == "decision"@ {
        Ok(ReferenceTargetView::Page(seq![page, if ends_with(page, ".md"@) { page } else { page + ".md"@ }]))
    } else if ref_type == "task"@ {
        Ok(ReferenceTargetView::Page(seq![page]))
    } else if ref_type == "memory"@ {
        Ok(ReferenceTargetView::Memory(sanitized(target)))
    } else if ref_type == "template"@ {
        Ok(ReferenceTargetView::Template(sanitized(target)))
    } else {
        Err(internal_view(
            "Unknown reference type: @"@ + ref_type + ". Supported: doc, task, memory, decision, template"@,
        ))
    }
}

/// Every reference type named as supported (doc, task, memory, decision,
/// template) resolves, and a decision reference resolves exactly as a doc
/// reference to the same target.
pub proof fn law_supported_references_resolve(target: Seq<char>)
    ensures
        target_of("doc"@, target) is Ok,
        target_of("task"@, target) is Ok,
        target_of("memory"@, target) is Ok,
        target_of("decision"@, target) is Ok,
        target_of("template"@, target) is Ok,
        target_of("decision"@, target) == target_of("doc"@, target),
{
    reveal_strlit("doc");
    reveal_strlit("task");
    reveal_strlit("memory");
    reveal_strlit("decision");
    reveal_strlit("template");
    assert("task"@.len() != "doc"@.len() && "task"@.len() != "decision"@.len());
    assert("memory"@.len() != "doc"@.len() && "memory"@.len() != "decision"@.len() && "memory"@.len()
        != "task"@.len());
    assert("template"@[0] != "doc"@[0] && "template"@[0] != "decision"@[0] && "template"@.len()
        != "task"@.len() && "template"@.len() != "memory"@.len());
}

/// Where a reference points.
pub fn reference_target(reference: &Reference) -> (res: Result<ReferenceTarget, ToolError>)
    ensures
        match target_of(reference.ref_type@, reference.target@) {
            Ok(t) => res matches Ok(r) && target_view(r) == t,
            Err(e) => res matches Err(er) && er@ == e,
        },
{
    proof {
        reveal_strlit(".md");
    }
    let ty = reference.ref_type.as_str();
    let target = reference.target.as_str();
    let page = trim_suffix_repeated_str(target, ".md");
    let eq = |a: &str, b: &str| -> (r: bool)
        ensures r == (a@ == b@)
    { crate::text::str_eq(a, b) };
    if eq(ty, "doc") || eq(ty, "decision") {
        let pv = to_chars(page.as_str());
        let with_md = if crate::text::ends_with_exec(&pv, &to_chars(".md")) {
            owned(page.as_str())
        } else {
            let mut m = owned(page.as_str());
            push_str(&mut m, ".md");
            m
        };
        let mut ids: Vec<String> = Vec::new();
        ids.push(page);
        ids.push(with_md);
        proof {
            assert(ids@.map_values(|s: String| s@) =~= seq![ids@[0]@, ids@[1]@]);
        }
        Ok(ReferenceTarget::Page(ids))
    } else if eq(ty, "task") {
        let mut ids: Vec<String> = Vec::new();
        ids.push(page);
        proof {
            assert(ids@.map_values(|s: String| s@) =~= seq![ids@[0]@]);
        }
        Ok(ReferenceTarget::Page(ids))
    } else if eq(ty, "memory") {
        Ok(ReferenceTarget::Memory(sanitize_ref_target(target)))
    } else if eq(ty, "template") {
        Ok(ReferenceTarget::Template(sanitize_ref_target(target)))
    } else {
        let mut msg = owned("Unknown reference type: @");
        push_str(&mut msg, ty);
        push_str(&mut msg, ". Supported: doc, task, memory, decision, template");
        Err(ToolError::internal(msg.as_str()))
    }
}

/// A resolved wiki page: `# title`, a blank line, then the file content.
pub fn format_page(title: &str, content: &str) -> (res: String)
    ensures
        res@ == "# "@ + title@ + "\n\n"@ + content@,
{
    let mut s = owned("# ");
    push_str(&mut s, title);
    push_str(&mut s, "\n\n");
    push_str(&mut s, content);
    s
}

/// A resolved memory or template file: its content in a JSON code block.
pub fn format_json_block(content: &str) -> (res: String)
    ensures
        res@ == "```json\n"@ + content@ + "\n```"@,
{
    let mut s = owned("```json\n");
    push_str(&mut s, content);
    push_str(&mut s, "\n```");
    s
}

/// A resolved session memory entry: its title in bold, a blank line, its content.
pub fn format_note(title: &str, content: &str) -> (res: String)
    ensures
        res@ == "**"@ + title@ + "**\n\n"@ + content@,
{
    let mut s = owned("**");
    push_str(&mut s, title);
    push_str(&mut s, "**\n\n");
    push_str(&mut s, content);
    s
}

} // verus!
