//! Markdown page parsing: frontmatter framing, code-fence-aware sections,
//! page/edge/status keywords and page metadata.
use vstd::prelude::*;
use crate::engine::{EdgeType, PageStatus, PageType, SectionDoc, WikiPageMeta};
use crate::status::status_text;
use crate::text::{
    char_pred, ends_with, find, find_from, find_from_exec, index_of_char, line_ranges, lines_of,
    lemma_find_from_shift, owned, push_char, push_str, ranges_text, ranges_valid, replace_char,
    spec_to_lowercase, split_char, split_ranges, starts_with, starts_with_range, str_eq,
    string_of, string_of_all, to_chars, to_lowercase, trim, trim_prefix_repeated,
    trim_prefix_repeated_range, trim_range, matches_at_exec,
};

verus! {

/// A single relation entry from frontmatter
#[derive(Debug, Clone)]
pub struct Relation {
    pub edge_type: String,
    pub target: String,
}

/// Parsed frontmatter
#[derive(Debug, Clone)]
pub struct Frontmatter {
    pub title: Option<String>,
    pub page_type: Option<String>,
    pub tags: Vec<String>,
    pub status: Option<String>,
    pub relates_to: Vec<Relation>,
    pub aliases: Vec<String>,
    pub sources: Vec<String>,
    pub confidence: Option<String>,
    pub superseded_by: Option<String>,
    pub version: Option<String>,
}

// ─── Frontmatter framing ────────────────────────────────────

/// The YAML text and the trimmed body of a page that opens with `---` and has a
/// later line starting with `---`; `None` for any other page.
pub open spec fn frontmatter_parts(content: Seq<char>) -> Option<(Seq<char>, Seq<char>)> {
    let c = trim(content);
    if !starts_with(c, "---"@) {
        None
    } else {
        match find(c.skip(3), "\n---"@) {
            None => None,
            Some(pos) => Some((c.subrange(3, 3 + pos), trim(c.skip(3 + pos + 4)))),
        }
    }
}

/// Split a page into its frontmatter YAML text and its body.
/// Returns `None` when the page does not open with a `---` block.
pub fn split_frontmatter(content: &str) -> (res: Option<(String, String)>)
    ensures
        match frontmatter_parts(content@) {
            None => res is None,
            Some((y, b)) => res matches Some((ry, rb)) && ry@ == y && rb@ == b,
        },
{
    let v = to_chars(content);
    let (a, b) = trim_range(&v, 0, v.len());
    let c = crate::text::slice_vec(&v, a, b);
    proof {
        assert(v@.subrange(0, v@.len() as int) == v@);
        reveal_strlit("---");
        reveal_strlit("\n---");
    }
    let dashes = to_chars("---");
    if !starts_with_range(&c, 0, c.len(), &dashes) {
        proof {
            assert(c@.subrange(0, c@.len() as int) == c@);
        }
        return None;
    }
    proof {
        assert(c@.subrange(0, c@.len() as int) == c@);
    }
    let pat = to_chars("\n---");
    let found = find_from_exec(&c, &pat, 3);
    proof {
        lemma_find_from_shift(c@, pat@, 3, 3);
    }
    match found {
        None => None,
        Some(end) => {
            proof {
                crate::text::lemma_find_from_result(c@, pat@, 3);
            }
            let yaml = string_of(&c, 3, end);
            let (ba, bb) = trim_range(&c, end + 4, c.len());
            let body = string_of(&c, ba, bb);
            proof {
                assert(c@.skip(end + 4) == c@.subrange(end + 4, c@.len() as int));
            }
            Some((yaml, body))
        },
    }
}

/// The YAML text and the body of a document that opens with `---` and has a
/// later line starting with `---`: like a page's, but only leading
/// whitespace is taken from the body.
pub open spec fn doc_parts(content: Seq<char>) -> Option<(Seq<char>, Seq<char>)> {
    let c = trim(content);
    if !starts_with(c, "---"@) {
        None
    } else {
        match find(c.skip(3), "\n---"@) {
            None => None,
            Some(pos) => Some((c.subrange(3, 3 + pos), crate::text::trim_start(c.skip(3 + pos + 4)))),
        }
    }
}

/// Splits a document into its front-matter YAML text and its body; `None`
/// when it does not open with a `---` block (the whole text is then the body).
pub fn split_doc(content: &str) -> (res: Option<(String, String)>)
    ensures
        match doc_parts(content@) {
            None => res is None,
            Some((y, b)) => res matches Some((ry, rb)) && ry@ == y && rb@ == b,
        },
{
    let v = to_chars(content);
    let (a, b) = trim_range(&v, 0, v.len());
    let c = crate::text::slice_vec(&v, a, b);
    proof {
        assert(v@.subrange(0, v@.len() as int) == v@);
        reveal_strlit("---");
        reveal_strlit("\n---");
    }
    let dashes = to_chars("---");
    if !starts_with_range(&c, 0, c.len(), &dashes) {
        proof {
            assert(c@.subrange(0, c@.len() as int) == c@);
        }
        return None;
    }
    proof {
        assert(c@.subrange(0, c@.len() as int) == c@);
    }
    let pat = to_chars("\n---");
    let found = find_from_exec(&c, &pat, 3);
    proof {
        lemma_find_from_shift(c@, pat@, 3, 3);
    }
    match found {
        None => None,
        Some(end) => {
            proof {
                crate::text::lemma_find_from_result(c@, pat@, 3);
            }
            let yaml = string_of(&c, 3, end);
            let ba = crate::text::trim_start_range(&c, end + 4, c.len());
            let body = string_of(&c, ba, c.len());
            proof {
                assert(c@.skip(end + 4) == c@.subrange(end + 4, c@.len() as int));
            }
            Some((yaml, body))
        },
    }
}

// ─── Section splitting ──────────────────────────────────────

/// The section emitted for a header and its accumulated body, if the body is not blank.
pub open spec fn emit_section(header: Seq<char>, body: Seq<char>) -> Seq<(Seq<char>, Seq<char>)> {
    if trim(body).len() > 0 {
        seq![(header, trim(body))]
    } else {
        Seq::empty()
    }
}

/// Sections produced from the remaining `lines`, given the code-fence state, the
/// current header and the body gathered so far.
pub open spec fn sections_scan(
    lines: Seq<Seq<char>>,
    in_fence: bool,
    header: Seq<char>,
    body: Seq<char>,
) -> Seq<(Seq<char>, Seq<char>)>
    decreases lines.len(),
{
    if lines.len() == 0 {
        emit_section(header, body)
    } else {
        let line = lines[0];
        let fence = if starts_with(trim(line), "```"@) { !in_fence } else { in_fence };
        if starts_with(line, "## "@) && !fence {
            emit_section(header, body) + sections_scan(
                lines.drop_first(),
                fence,
                trim_prefix_repeated(line, "## "@),
                Seq::empty(),
            )
        } else {
            sections_scan(lines.drop_first(), fence, header, body + line + "\n"@)
        }
    }
}

/// `(header, body)` pairs of a markdown text split at `## ` lines outside code fences;
/// text before the first header belongs to "Overview"; blank sections are dropped.
pub open spec fn sections_of(raw: Seq<char>) -> Seq<(Seq<char>, Seq<char>)> {
    sections_scan(lines_of(raw), false, "Overview"@, Seq::empty())
}

/// Views of string pairs.
pub open spec fn pairs_view(v: Seq<(String, String)>) -> Seq<(Seq<char>, Seq<char>)> {
    v.map_values(|p: (String, String)| (p.0@, p.1@))
}

fn emit(out: &mut Vec<(String, String)>, header: &Vec<char>, body: &Vec<char>)
    ensures
        pairs_view(final(out)@) == pairs_view(old(out)@) + emit_section(header@, body@),
{
    let (a, b) = trim_range(body, 0, body.len());
    proof {
        assert(body@.subrange(0, body@.len() as int) == body@);
    }
    if a < b {
        let h = string_of_all(header);
        let t = string_of(body, a, b);
        let ghost old_v = out@;
        out.push((h, t));
        proof {
            assert(pairs_view(out@) == pairs_view(old_v).push((header@, body@.subrange(a as int, b as int))));
        }
    } else {
        proof {
            assert(pairs_view(out@) + Seq::<(Seq<char>, Seq<char>)>::empty() == pairs_view(out@));
        }
    }
}

/// Code-fence-aware markdown section splitter
/// Splits on ## level headers, ignoring headers inside code fences
pub fn split_sections(raw: &str) -> (res: Vec<(String, String)>)
    ensures
        pairs_view(res@) == sections_of(raw@),
{
    proof {
        reveal_strlit("```");
        reveal_strlit("## ");
        reveal_strlit("Overview");
        reveal_strlit("\n");
    }
    let v = to_chars(raw);
    let ranges = line_ranges(&v);
    let fence_mark = to_chars("```");
    let header_mark = to_chars("## ");
    let ghost lines = lines_of(v@);
    let mut out: Vec<(String, String)> = Vec::new();
    let mut in_fence = false;
    let mut header = to_chars("Overview");
    let mut body: Vec<char> = Vec::new();
    let mut k: usize = 0;
    proof {
        assert(lines.skip(0) == lines);
        assert(pairs_view(out@) =~= Seq::<(Seq<char>, Seq<char>)>::empty());
    }
    while k < ranges.len()
        invariant
            k <= ranges.len(),
            ranges_valid(ranges@, v@.len() as int),
            ranges_text(v@, ranges@) == lines,
            lines == lines_of(v@),
            fence_mark@ == "```"@,
            header_mark@ == "## "@,
            header_mark@.len() == 3,
            sections_of(raw@) == pairs_view(out@) + sections_scan(lines.skip(k as int), in_fence, header@, body@),
            v@ == raw@,
        decreases ranges.len() - k,
    {
        let (lo, hi) = ranges[k];
        let ghost line = v@.subrange(lo as int, hi as int);
        proof {
            assert(ranges@[k as int].0 <= ranges@[k as int].1 && ranges@[k as int].1 <= v@.len());
            assert(lines[k as int] == line);
            assert(lines.skip(k as int)[0] == line);
            assert(lines.skip(k as int).drop_first() == lines.skip(k + 1));
        }
        let (ta, tb) = trim_range(&v, lo, hi);
        if starts_with_range(&v, ta, tb, &fence_mark) {
            in_fence = !in_fence;
        }
        if starts_with_range(&v, lo, hi, &header_mark) && !in_fence {
            emit(&mut out, &header, &body);
            let start = trim_prefix_repeated_range(&v, lo, hi, &header_mark);
            header = crate::text::slice_vec(&v, start, hi);
            body = Vec::new();
        } else {
            let ghost before = body@;
            let mut j = lo;
            while j < hi
                invariant
                    lo <= j <= hi <= v.len(),
                    body@ == before + v@.subrange(lo as int, j as int),
                decreases hi - j,
            {
                body.push(v[j]);
                proof {
                    assert(v@.subrange(lo as int, j + 1) == v@.subrange(lo as int, j as int).push(v@[j as int]));
                }
                j = j + 1;
            }
            body.push('\n');
            proof {
                reveal_strlit("\n");
                assert(body@ =~= before + line + "\n"@);
            }
        }
        k = k + 1;
    }
    proof {
        assert(lines.skip(k as int).len() == 0);
    }
    emit(&mut out, &header, &body);
    out
}

// ─── Keyword parsing ────────────────────────────────────────

/// Page type named by a lower-cased keyword; unknown keywords mean a concept.
pub open spec fn page_type_of(t: Seq<char>) -> PageType {
    if t == "task"@ {
        PageType::Task
    } else if t == "spec"@ {
        PageType::Spec
    } else if t == "concept"@ {
        PageType::Concept
    } else if t == "pattern"@ {
        PageType::Pattern
    } else if t == "decision"@ {
        PageType::Decision
    } else if t == "howto"@ || t == "guide"@ {
        PageType::Howto
    } else if t == "reference"@ {
        PageType::Reference
    } else {
        PageType::Concept
    }
}

/// The lower-case name of a page type, as front matter writes it.
pub open spec fn page_type_name(t: PageType) -> Seq<char> {
    match t {
        PageType::Task => "task"@,
        PageType::Spec => "spec"@,
        PageType::Concept => "concept"@,
        PageType::Pattern => "pattern"@,
        PageType::Decision => "decision"@,
        PageType::Howto => "howto"@,
        PageType::Reference => "reference"@,
    }
}

/// Reading the lower-case name of a page type gives that type back: every
/// type written into front matter (`type: decision`, ...) is read as itself.
pub proof fn law_page_type_names_read_back(t: PageType)
    ensures
        page_type_of(page_type_name(t)) == t,
        page_type_of("guide"@) == PageType::Howto,
{
    reveal_strlit("task");
    reveal_strlit("spec");
    reveal_strlit("concept");
    reveal_strlit("pattern");
    reveal_strlit("decision");
    reveal_strlit("howto");
    reveal_strlit("guide");
    reveal_strlit("reference");
    assert("guide"@.len() != "task"@.len() && "guide"@.len() != "spec"@.len() && "guide"@.len()
        != "concept"@.len() && "guide"@.len() != "pattern"@.len() && "guide"@.len() != "decision"@.len());
    let k = page_type_name(t);
    match t {
        PageType::Task => {},
        PageType::Spec => {
            assert(k[0] != "task"@[0]);
        },
        PageType::Concept => {
            assert(k.len() != "task"@.len() && k.len() != "spec"@.len());
        },
        PageType::Pattern => {
            assert(k.len() != "task"@.len() && k.len() != "spec"@.len() && k[0] != "concept"@[0]);
        },
        PageType::Decision => {
            assert(k.len() != "task"@.len() && k.len() != "spec"@.len() && k.len() != "concept"@.len()
                && k.len() != "pattern"@.len());
        },
        PageType::Howto => {
            assert(k.len() != "task"@.len() && k.len() != "spec"@.len() && k.len() != "concept"@.len()
                && k.len() != "pattern"@.len() && k.len() != "decision"@.len());
        },
        PageType::Reference => {
            assert(k.len() != "task"@.len() && k.len() != "spec"@.len() && k.len() != "concept"@.len()
                && k.len() != "pattern"@.len() && k.len() != "decision"@.len() && k.len() != "howto"@.len()
                && k.len() != "guide"@.len());
        },
    }
}

/// Infer page type from frontmatter type string
pub fn parse_page_type(s: &str) -> (res: PageType)
    ensures
        res == page_type_of(spec_to_lowercase(s@)),
{
    let l = to_lowercase(s);
    let t = l.as_str();
    if str_eq(t, "task") {
        PageType::Task
    } else if str_eq(t, "spec") {
        PageType::Spec
    } else if str_eq(t, "concept") {
        PageType::Concept
    } else if str_eq(t, "pattern") {
        PageType::Pattern
    } else if str_eq(t, "decision") {
        PageType::Decision
    } else if str_eq(t, "howto") || str_eq(t, "guide") {
        PageType::Howto
    } else if str_eq(t, "reference") {
        PageType::Reference
    } else {
        PageType::Concept
    }
}

/// Page status named by a lower-cased keyword; unknown keywords mean a draft.
pub open spec fn page_status_of(t: Seq<char>) -> PageStatus {
    if t == "todo"@ {
        PageStatus::Todo
    } else if t == "in-progress"@ || t == "wip"@ {
        PageStatus::InProgress
    } else if t == "done"@ || t == "complete"@ {
        PageStatus::Done
    } else if t == "blocked"@ {
        PageStatus::Blocked
    } else if t == "cancelled"@ || t == "canceled"@ {
        PageStatus::Cancelled
    } else if t == "draft"@ {
        PageStatus::Draft
    } else if t == "reviewed"@ || t == "review"@ {
        PageStatus::Reviewed
    } else if t == "superseded"@ {
        PageStatus::Superseded
    } else if t == "approved"@ {
        PageStatus::Approved
    } else {
        PageStatus::Draft
    }
}

/// Parse page status from string
pub fn parse_page_status(s: &str) -> (res: PageStatus)
    ensures
        res == page_status_of(spec_to_lowercase(s@)),
{
    let l = to_lowercase(s);
    let t = l.as_str();
    if str_eq(t, "todo") {
        PageStatus::Todo
    } else if str_eq(t, "in-progress") || str_eq(t, "wip") {
        PageStatus::InProgress
    } else if str_eq(t, "done") || str_eq(t, "complete") {
        PageStatus::Done
    } else if str_eq(t, "blocked") {
        PageStatus::Blocked
    } else if str_eq(t, "cancelled") || str_eq(t, "canceled") {
        PageStatus::Cancelled
    } else if str_eq(t, "draft") {
        PageStatus::Draft
    } else if str_eq(t, "reviewed") || str_eq(t, "review") {
        PageStatus::Reviewed
    } else if str_eq(t, "superseded") {
        PageStatus::Superseded
    } else if str_eq(t, "approved") {
        PageStatus::Approved
    } else {
        PageStatus::Draft
    }
}

/// Built-in edge type named by a lower-cased keyword, if any.
pub open spec fn known_edge_of(t: Seq<char>) -> Option<EdgeType> {
    if t == "extends"@ {
        Some(EdgeType::Extends)
    } else if t == "implements"@ {
        Some(EdgeType::Implements)
    } else if t == "example_of"@ || t == "exampleof"@ {
        Some(EdgeType::ExampleOf)
    } else if t == "part_of"@ || t == "partof"@ {
        Some(EdgeType::PartOf)
    } else if t == "relates_to"@ || t == "relatesto"@ || t == "related"@ {
        Some(EdgeType::RelatesTo)
    } else if t == "supports"@ {
        Some(EdgeType::Supports)
    } else if t == "contradicts"@ {
        Some(EdgeType::Contradicts)
    } else if t == "supersedes"@ {
        Some(EdgeType::Supersedes)
    } else if t == "depends_on"@ || t == "dependson"@ {
        Some(EdgeType::DependsOn)
    } else if t == "required_by"@ || t == "requiredby"@ {
        Some(EdgeType::RequiredBy)
    } else if t == "questions"@ {
        Some(EdgeType::Questions)
    } else if t == "answers"@ {
        Some(EdgeType::Answers)
    } else if t == "references"@ {
        Some(EdgeType::References)
    } else if t == "similar_to"@ || t == "similarto"@ || t == "similar"@ {
        Some(EdgeType::SimilarTo)
    } else if t == "causes"@ {
        Some(EdgeType::Causes)
    } else if t == "mitigates"@ {
        Some(EdgeType::Mitigates)
    } else {
        None
    }
}

/// The edge type a keyword denotes: a built-in one, or a custom edge carrying
/// the lower-cased keyword.
pub open spec fn edge_denoted(e: EdgeType, s: Seq<char>) -> bool {
    let t = spec_to_lowercase(s);
    match known_edge_of(t) {
        Some(k) => e == k,
        None => e matches EdgeType::Custom(c) && c@ == t,
    }
}

/// Parse edge type from string
pub fn parse_edge_type(s: &str) -> (res: Result<EdgeType, String>)
    ensures
        res matches Ok(e) && edge_denoted(e, s@),
{
    let l = to_lowercase(s);
    let t = l.as_str();
    let e = if str_eq(t, "extends") {
        EdgeType::Extends
    } else if str_eq(t, "implements") {
        EdgeType::Implements
    } else if str_eq(t, "example_of") || str_eq(t, "exampleof") {
        EdgeType::ExampleOf
    } else if str_eq(t, "part_of") || str_eq(t, "partof") {
        EdgeType::PartOf
    } else if str_eq(t, "relates_to") || str_eq(t, "relatesto") || str_eq(t, "related") {
        EdgeType::RelatesTo
    } else if str_eq(t, "supports") {
        EdgeType::Supports
    } else if str_eq(t, "contradicts") {
        EdgeType::Contradicts
    } else if str_eq(t, "supersedes") {
        EdgeType::Supersedes
    } else if str_eq(t, "depends_on") || str_eq(t, "dependson") {
        EdgeType::DependsOn
    } else if str_eq(t, "required_by") || str_eq(t, "requiredby") {
        EdgeType::RequiredBy
    } else if str_eq(t, "questions") {
        EdgeType::Questions
    } else if str_eq(t, "answers") {
        EdgeType::Answers
    } else if str_eq(t, "references") {
        EdgeType::References
    } else if str_eq(t, "similar_to") || str_eq(t, "similarto") || str_eq(t, "similar") {
        EdgeType::SimilarTo
    } else if str_eq(t, "causes") {
        EdgeType::Causes
    } else if str_eq(t, "mitigates") {
        EdgeType::Mitigates
    } else {
        EdgeType::Custom(owned(t))
    };
    Ok(e)
}


// ─── Paths ──────────────────────────────────────────────────

/// `s` without the suffix `.md` when it has one.
pub open spec fn strip_md(s: Seq<char>) -> Seq<char> {
    if ends_with(s, ".md"@) {
        s.take(s.len() - 3)
    } else {
        s
    }
}

/// Page ID of a wiki file path: backslashes made slashes, `.md` dropped, slashes made colons
/// ("wiki/concepts/auth.md" → "wiki:concepts:auth").
pub open spec fn page_id_of(path: Seq<char>) -> Seq<char> {
    replace_char(strip_md(replace_char(path, '\\', '/')), '/', ':')
}

/// A path component that names something (not empty, not `.`).
pub open spec fn named_component(c: Seq<char>) -> bool {
    c.len() > 0 && c != "."@
}

/// The last naming component of a list of components.
pub open spec fn last_named(cs: Seq<Seq<char>>) -> Option<Seq<char>>
    decreases cs.len(),
{
    if cs.len() == 0 {
        None
    } else if named_component(cs.last()) {
        Some(cs.last())
    } else {
        last_named(cs.drop_last())
    }
}

/// Final component of a `/`-separated path (std `Path::file_name`), none for `..`.
pub open spec fn file_name_of(p: Seq<char>) -> Option<Seq<char>> {
    match last_named(split_char(p, '/')) {
        Some(n) => if n == ".."@ { None } else { Some(n) },
        None => None,
    }
}

/// Index of the last `c` in `s`.
pub open spec fn last_index_of(s: Seq<char>, c: char) -> Option<int>
    decreases s.len(),
{
    if s.len() == 0 {
        None
    } else if s.last() == c {
        Some(s.len() - 1)
    } else {
        last_index_of(s.drop_last(), c)
    }
}

pub proof fn lemma_last_index_of_bound(s: Seq<char>, c: char)
    ensures
        last_index_of(s, c) matches Some(i) ==> 0 <= i < s.len() && s[i] == c,
    decreases s.len(),
{
    if s.len() > 0 && s.last() != c {
        lemma_last_index_of_bound(s.drop_last(), c);
    }
}

/// File name without its extension (std `Path::file_stem` on a file name): the part
/// before the last `.`, unless that dot is the first character.
pub open spec fn stem_of_name(n: Seq<char>) -> Seq<char> {
    match last_index_of(n, '.') {
        Some(i) => if i > 0 { n.take(i) } else { n },
        None => n,
    }
}

/// Stem of the file a path names.
pub open spec fn file_stem_of(p: Seq<char>) -> Option<Seq<char>> {
    match file_name_of(p) {
        Some(n) => Some(stem_of_name(n)),
        None => None,
    }
}

/// The page ID of a wiki file path.
pub fn page_id(path: &str) -> (res: String)
    ensures
        res@ == page_id_of(path@),
{
    proof {
        reveal_strlit(".md");
    }
    let v = to_chars(path);
    let a = crate::text::replace_char_vec(&v, '\\', '/');
    let md = to_chars(".md");
    let b = if crate::text::ends_with_exec(&a, &md) {
        crate::text::slice_vec(&a, 0, a.len() - 3)
    } else {
        a
    };
    proof {
        if ends_with(a@, ".md"@) {
            assert(a@.subrange(0, a@.len() - 3) == a@.take(a@.len() - 3));
        }
    }
    let c = crate::text::replace_char_vec(&b, '/', ':');
    string_of_all(&c)
}

pub fn last_char_in(v: &Vec<char>, lo: usize, hi: usize, ch: char) -> (res: Option<usize>)
    requires
        lo <= hi <= v.len(),
    ensures
        match last_index_of(v@.subrange(lo as int, hi as int), ch) {
            Some(i) => res == Some((lo + i) as usize),
            None => res is None,
        },
{
    let mut j = hi;
    while j > lo
        invariant
            lo <= j <= hi <= v.len(),
            last_index_of(v@.subrange(lo as int, hi as int), ch) == last_index_of(
                v@.subrange(lo as int, j as int),
                ch,
            ),
        decreases j - lo,
    {
        proof {
            assert(v@.subrange(lo as int, j as int).drop_last() == v@.subrange(lo as int, j - 1));
            assert(v@.subrange(lo as int, j as int).last() == v@[j - 1]);
        }
        if v[j - 1] == ch {
            return Some(j - 1);
        }
        j = j - 1;
    }
    None
}

/// The stem of the file a path names, if it names one.
pub fn file_stem(path: &str) -> (res: Option<String>)
    ensures
        match file_stem_of(path@) {
            Some(s) => res matches Some(r) && r@ == s,
            None => res is None,
        },
{
    proof {
        reveal_strlit(".");
        reveal_strlit("..");
    }
    let v = to_chars(path);
    let ranges = split_ranges(&v, '/');
    let ghost cs = split_char(v@, '/');
    let mut k = ranges.len();
    proof {
        assert(cs.take(k as int) == cs);
    }
    while k > 0
        invariant
            k <= ranges.len(),
            ranges_valid(ranges@, v@.len() as int),
            ranges_text(v@, ranges@) == cs,
            cs == split_char(path@, '/'),
            last_named(cs) == last_named(cs.take(k as int)),
        decreases k,
    {
        let (lo, hi) = ranges[k - 1];
        proof {
            assert(ranges@[k - 1].0 <= ranges@[k - 1].1 && ranges@[k - 1].1 <= v@.len());
            assert(cs.take(k as int).last() == v@.subrange(lo as int, hi as int));
            assert(cs.take(k as int).drop_last() == cs.take(k - 1));
        }
        let named = hi > lo && !(hi - lo == 1 && v[lo] == '.');
        proof {
            reveal_strlit(".");
            reveal_strlit("..");
            let c = v@.subrange(lo as int, hi as int);
            if hi - lo == 1 && v@[lo as int] == '.' {
                assert(c =~= "."@);
            }
            if c == "."@ {
                assert(c.len() == 1 && c[0] == v@[lo as int]);
            }
        }
        if named {
            proof {
                let c = v@.subrange(lo as int, hi as int);
                assert(named_component(c));
                assert(last_named(cs.take(k as int)) == Some(c));
                lemma_last_index_of_bound(c, '.');
            }
            let is_parent = hi - lo == 2 && v[lo] == '.' && v[lo + 1] == '.';
            proof {
                reveal_strlit("..");
                let c = v@.subrange(lo as int, hi as int);
                if is_parent {
                    assert(c =~= ".."@);
                }
                if c == ".."@ {
                    assert(c.len() == 2 && c[0] == v@[lo as int] && c[1] == v@[lo + 1]);
                }
            }
            if is_parent {
                return None;
            }
            let d = last_char_in(&v, lo, hi, '.');
            match d {
                Some(i) => {
                    if i > lo {
                        proof {
                            assert(v@.subrange(lo as int, hi as int).take(i - lo) == v@.subrange(
                                lo as int,
                                i as int,
                            ));
                        }
                        return Some(string_of(&v, lo, i));
                    } else {
                        return Some(string_of(&v, lo, hi));
                    }
                },
                None => {
                    return Some(string_of(&v, lo, hi));
                },
            }
        }
        k = k - 1;
    }
    None
}

// ─── Page metadata and sections ─────────────────────────────

/// Title of a page: the frontmatter title, else the file stem with dashes made
/// spaces, else empty.
pub open spec fn page_title_of(path: Seq<char>, fm_title: Option<Seq<char>>) -> Seq<char> {
    match fm_title {
        Some(t) => t,
        None => match file_stem_of(path) {
            Some(s) => replace_char(s, '-', ' '),
            None => Seq::empty(),
        },
    }
}

/// View of an optional string.
pub open spec fn opt_view(o: Option<String>) -> Option<Seq<char>> {
    match o {
        Some(s) => Some(s@),
        None => None,
    }
}

/// Views of a list of strings.
pub open spec fn strings_view(v: Seq<String>) -> Seq<Seq<char>> {
    v.map_values(|s: String| s@)
}

/// Build WikiPageMeta from a file path and its parsed frontmatter.
/// The ID comes from the path; title, type, status and tags from the frontmatter,
/// with defaults (file stem, concept, draft, no tags) where it is silent.
pub fn parse_wiki_page(file_path: &str, fm: &Option<Frontmatter>) -> (res: WikiPageMeta)
    ensures
        res.id@ == page_id_of(file_path@),
        res.title@ == page_title_of(
            file_path@,
            match fm {
                Some(f) => opt_view(f.title),
                None => None,
            },
        ),
        res.page_type == (match fm {
            Some(f) => match f.page_type {
                Some(t) => page_type_of(spec_to_lowercase(t@)),
                None => PageType::Concept,
            },
            None => PageType::Concept,
        }),
        res.status == (match fm {
            Some(f) => match f.status {
                Some(t) => page_status_of(spec_to_lowercase(t@)),
                None => PageStatus::Draft,
            },
            None => PageStatus::Draft,
        }),
        strings_view(res.tags@) == (match fm {
            Some(f) => strings_view(f.tags@),
            None => Seq::empty(),
        }),
        res.path@ == file_path@,
        res.priority is None,
        res.confidence is None,
        res.assignee is None,
        res.aliases@.len() == 0,
        res.sources@.len() == 0,
        res.superseded_by is None,
        res.version is None,
        res.relates_to@.len() == 0,
        res.created_at@.len() == 0,
        res.updated_at@.len() == 0,
{
    let id = page_id(file_path);
    let title = match fm {
        Some(f) => match &f.title {
            Some(t) => owned(t.as_str()),
            None => stem_title(file_path),
        },
        None => stem_title(file_path),
    };
    let page_type = match fm {
        Some(f) => match &f.page_type {
            Some(t) => parse_page_type(t.as_str()),
            None => PageType::Concept,
        },
        None => PageType::Concept,
    };
    let status = match fm {
        Some(f) => match &f.status {
            Some(t) => parse_page_status(t.as_str()),
            None => PageStatus::Draft,
        },
        None => PageStatus::Draft,
    };
    let tags = match fm {
        Some(f) => crate::text::clone_strings(&f.tags),
        None => Vec::new(),
    };
    proof {
        match fm {
            Some(f) => {
                assert(strings_view(tags@) =~= strings_view(f.tags@));
            },
            None => {
                assert(strings_view(tags@) =~= Seq::<Seq<char>>::empty());
            },
        }
    }
    WikiPageMeta {
        id,
        title,
        page_type,
        tags,
        status,
        priority: None,
        confidence: None,
        assignee: None,
        aliases: Vec::new(),
        superseded_by: None,
        version: None,
        sources: Vec::new(),
        acceptance_criteria: Vec::new(),
        estimate: None,
        functional_requirements: Vec::new(),
        non_functional_requirements: Vec::new(),
        general_goals: Vec::new(),
        stakeholders: Vec::new(),
        decision: None,
        pattern: None,
        prerequisites: Vec::new(),
        difficulty: None,
        source_url: None,
        relates_to: Vec::new(),
        path: owned(file_path),
        created_at: String::new(),
        updated_at: String::new(),
    }
}

fn stem_title(file_path: &str) -> (res: String)
    ensures
        res@ == page_title_of(file_path@, None),
{
    match file_stem(file_path) {
        Some(s) => {
            let v = to_chars(s.as_str());
            let r = crate::text::replace_char_vec(&v, '-', ' ');
            string_of_all(&r)
        },
        None => String::new(),
    }
}

/// Section ID of a header within a page: the page ID, `#`, and the lower-cased
/// header with spaces made dashes.
pub open spec fn section_id_of(page: Seq<char>, header: Seq<char>) -> Seq<char> {
    page + "#"@ + replace_char(spec_to_lowercase(header), ' ', '-')
}

/// The section document a page ID and a `(header, body)` pair make.
pub open spec fn section_doc_ok(d: SectionDoc, page: Seq<char>, sec: (Seq<char>, Seq<char>)) -> bool {
    &&& d.page_id@ == page
    &&& d.header@ == sec.0
    &&& d.body@ == sec.1
    &&& d.section_id@ == section_id_of(page, sec.0)
}

/// Build SectionDocs from the body of a page (the text after its frontmatter).
pub fn parse_sections(file_path: &str, body: &str) -> (res: Vec<SectionDoc>)
    ensures
        res@.len() == sections_of(body@).len(),
        forall|i: int|
            0 <= i < res@.len() ==> section_doc_ok(
                #[trigger] res@[i],
                page_id_of(file_path@),
                sections_of(body@)[i],
            ),
{
    let pid = page_id(file_path);
    let sections = split_sections(body);
    let ghost secs = sections_of(body@);
    let mut out: Vec<SectionDoc> = Vec::new();
    let mut i: usize = 0;
    while i < sections.len()
        invariant
            i <= sections.len(),
            pairs_view(sections@) == secs,
            secs == sections_of(body@),
            pid@ == page_id_of(file_path@),
            out@.len() == i,
            forall|j: int| 0 <= j < i ==> section_doc_ok(#[trigger] out@[j], pid@, secs[j]),
        decreases sections.len() - i,
    {
        let header = &sections[i].0;
        let text = &sections[i].1;
        proof {
            assert(secs[i as int] == (header@, text@));
        }
        let lower = to_lowercase(header.as_str());
        let lv = to_chars(lower.as_str());
        let dashed = crate::text::replace_char_vec(&lv, ' ', '-');
        let mut sid = owned(pid.as_str());
        push_str(&mut sid, "#");
        let d = string_of_all(&dashed);
        push_str(&mut sid, d.as_str());
        let doc = SectionDoc {
            section_id: sid,
            page_id: owned(pid.as_str()),
            header: owned(header.as_str()),
            body: owned(text.as_str()),
        };
        proof {
            assert(section_doc_ok(doc, pid@, secs[i as int]));
        }
        let ghost old_out = out@;
        out.push(doc);
        proof {
            assert forall|j: int| 0 <= j < i + 1 implies section_doc_ok(#[trigger] out@[j], pid@, secs[j]) by {
                if j < i {
                    assert(out@[j] == old_out[j]);
                }
            }
        }
        i = i + 1;
    }
    out
}

/// A status's canonical text reads back as that status (`in-review` reads
/// back as a draft, so that status is left out).
pub proof fn lemma_status_text_reads_back(s: PageStatus)
    requires
        s != PageStatus::InReview,
    ensures
        page_status_of(status_text(s)) == s,
{
    reveal_strlit("todo");
    reveal_strlit("in-progress");
    reveal_strlit("wip");
    reveal_strlit("in-review");
    reveal_strlit("review");
    reveal_strlit("done");
    reveal_strlit("complete");
    reveal_strlit("blocked");
    reveal_strlit("cancelled");
    reveal_strlit("canceled");
    reveal_strlit("draft");
    reveal_strlit("reviewed");
    reveal_strlit("superseded");
    reveal_strlit("approved");
    let t = status_text(s);
    match s {
        PageStatus::Todo => {},
        PageStatus::InProgress => {
            assert(t != "todo"@) by { assert(t.len() != "todo"@.len()); }
        },
        PageStatus::Done => {
            assert(t != "todo"@) by { assert(t[0] != "todo"@[0]); }
            assert(t != "in-progress"@) by { assert(t.len() != "in-progress"@.len()); }
            assert(t != "wip"@) by { assert(t.len() != "wip"@.len()); }
        },
        PageStatus::Blocked => {
            assert(t != "todo"@) by { assert(t.len() != "todo"@.len()); }
            assert(t != "in-progress"@) by { assert(t.len() != "in-progress"@.len()); }
            assert(t != "wip"@) by { assert(t.len() != "wip"@.len()); }
            assert(t != "done"@) by { assert(t.len() != "done"@.len()); }
            assert(t != "complete"@) by { assert(t.len() != "complete"@.len()); }
        },
        PageStatus::Cancelled => {
            assert(t != "todo"@) by { assert(t.len() != "todo"@.len()); }
            assert(t != "in-progress"@) by { assert(t.len() != "in-progress"@.len()); }
            assert(t != "wip"@) by { assert(t.len() != "wip"@.len()); }
            assert(t != "done"@) by { assert(t.len() != "done"@.len()); }
            assert(t != "complete"@) by { assert(t.len() != "complete"@.len()); }
            assert(t != "blocked"@) by { assert(t.len() != "blocked"@.len()); }
        },
        PageStatus::Draft => {
            assert(t != "todo"@) by { assert(t.len() != "todo"@.len()); }
            assert(t != "in-progress"@) by { assert(t.len() != "in-progress"@.len()); }
            assert(t != "wip"@) by { assert(t.len() != "wip"@.len()); }
            assert(t != "done"@) by { assert(t.len() != "done"@.len()); }
            assert(t != "complete"@) by { assert(t.len() != "complete"@.len()); }
            assert(t != "blocked"@) by { assert(t.len() != "blocked"@.len()); }
            assert(t != "cancelled"@) by { assert(t.len() != "cancelled"@.len()); }
            assert(t != "canceled"@) by { assert(t.len() != "canceled"@.len()); }
        },
        PageStatus::Reviewed => {
            assert(t != "todo"@) by { assert(t.len() != "todo"@.len()); }
            assert(t != "in-progress"@) by { assert(t.len() != "in-progress"@.len()); }
            assert(t != "wip"@) by { assert(t.len() != "wip"@.len()); }
            assert(t != "done"@) by { assert(t.len() != "done"@.len()); }
            assert(t != "complete"@) by { assert(t[0] != "complete"@[0]); }
            assert(t != "blocked"@) by { assert(t.len() != "blocked"@.len()); }
            assert(t != "cancelled"@) by { assert(t.len() != "cancelled"@.len()); }
            assert(t != "canceled"@) by { assert(t[0] != "canceled"@[0]); }
            assert(t != "draft"@) by { assert(t.len() != "draft"@.len()); }
        },
        PageStatus::Superseded => {
            assert(t != "todo"@) by { assert(t.len() != "todo"@.len()); }
            assert(t != "in-progress"@) by { assert(t.len() != "in-progress"@.len()); }
            assert(t != "wip"@) by { assert(t.len() != "wip"@.len()); }
            assert(t != "done"@) by { assert(t.len() != "done"@.len()); }
            assert(t != "complete"@) by { assert(t.len() != "complete"@.len()); }
            assert(t != "blocked"@) by { assert(t.len() != "blocked"@.len()); }
            assert(t != "cancelled"@) by { assert(t.len() != "cancelled"@.len()); }
            assert(t != "canceled"@) by { assert(t.len() != "canceled"@.len()); }
            assert(t != "draft"@) by { assert(t.len() != "draft"@.len()); }
            assert(t != "reviewed"@) by { assert(t.len() != "reviewed"@.len()); }
            assert(t != "review"@) by { assert(t.len() != "review"@.len()); }
        },
        PageStatus::Approved => {
            assert(t != "todo"@) by { assert(t.len() != "todo"@.len()); }
            assert(t != "in-progress"@) by { assert(t.len() != "in-progress"@.len()); }
            assert(t != "wip"@) by { assert(t.len() != "wip"@.len()); }
            assert(t != "done"@) by { assert(t.len() != "done"@.len()); }
            assert(t != "complete"@) by { assert(t[0] != "complete"@[0]); }
            assert(t != "blocked"@) by { assert(t.len() != "blocked"@.len()); }
            assert(t != "cancelled"@) by { assert(t.len() != "cancelled"@.len()); }
            assert(t != "canceled"@) by { assert(t[0] != "canceled"@[0]); }
            assert(t != "draft"@) by { assert(t.len() != "draft"@.len()); }
            assert(t != "reviewed"@) by { assert(t[0] != "reviewed"@[0]); }
            assert(t != "review"@) by { assert(t.len() != "review"@.len()); }
            assert(t != "superseded"@) by { assert(t.len() != "superseded"@.len()); }
        },
        PageStatus::InReview => {},
    }
}

// ─── Content hashes ─────────────────────────────────────────

/// SHA-256 digest of some bytes.
pub uninterp spec fn spec_sha256(data: Seq<u8>) -> Seq<u8>;

/// Calls sha2 `Sha256::digest`. Claims the result is the named SHA-256 digest
/// of the bytes, 32 bytes long.
#[verifier::external_body]
pub(crate) fn sha256(data: &[u8]) -> (r: Vec<u8>)
    ensures
        r@ == spec_sha256(data@),
        r@.len() == 32,
{
    <sha2::Sha256 as sha2::Digest>::digest(data).to_vec()
}

/// Lower-case hexadecimal digit of `d < 16`.
pub open spec fn hex_digit(d: u8) -> char {
    if d < 10 {
        ((d + 48) as u8) as char
    } else {
        ((d + 87) as u8) as char
    }
}

/// Lower-case hexadecimal text of some bytes, two digits per byte, high digit first.
pub open spec fn hex_of(data: Seq<u8>) -> Seq<char>
    decreases data.len(),
{
    if data.len() == 0 {
        Seq::empty()
    } else {
        hex_of(data.drop_last()) + seq![hex_digit(data.last() / 16), hex_digit(data.last() % 16)]
    }
}

/// The lower-case hexadecimal digit of `d < 16`.
fn hex_digit_char(d: u8) -> (c: char)
    requires
        d < 16,
    ensures
        c == hex_digit(d),
{
    if d < 10 {
        (d + 48) as char
    } else {
        (d + 87) as char
    }
}

/// Lower-case hexadecimal text of some bytes (as hex `encode` writes it).
fn hex_encode(data: &[u8]) -> (r: String)
    ensures
        r@ == hex_of(data@),
{
    let mut out = String::new();
    let mut i: usize = 0;
    proof {
        assert(data@.take(0) =~= Seq::<u8>::empty());
        assert(out@ =~= hex_of(data@.take(0)));
    }
    while i < data.len()
        invariant
            i <= data@.len(),
            out@ == hex_of(data@.take(i as int)),
        decreases data.len() - i,
    {
        let b = data[i];
        crate::text::push_char(&mut out, hex_digit_char(b / 16));
        crate::text::push_char(&mut out, hex_digit_char(b % 16));
        proof {
            assert(data@.take(i + 1).drop_last() =~= data@.take(i as int));
            assert(data@.take(i + 1).last() == b);
            assert(out@ =~= hex_of(data@.take(i as int)) + seq![hex_digit(b / 16), hex_digit(b % 16)]);
        }
        i = i + 1;
    }
    proof {
        assert(data@.take(data@.len() as int) =~= data@);
    }
    out
}

/// Hex-encoded SHA-256 of some bytes: 64 lower-case hex digits.
pub fn bytes_content_hash(content: &[u8]) -> (res: String)
    ensures
        res@ == hex_of(spec_sha256(content@)),
        res@.len() == 64,
{
    let digest = sha256(content);
    let r = hex_encode(digest.as_slice());
    proof {
        lemma_hex_len(digest@);
    }
    r
}

/// Hex-encoded SHA-256 of the UTF-8 bytes of `content`.
pub fn content_hash(content: &str) -> (res: String)
    ensures
        res@ == hex_of(spec_sha256(crate::vectors::utf8_encode(content@))),
        res@.len() == 64,
{
    let bytes = crate::vectors::str_bytes(content);
    bytes_content_hash(bytes)
}

proof fn lemma_hex_len(data: Seq<u8>)
    ensures
        hex_of(data).len() == 2 * data.len(),
    decreases data.len(),
{
    if data.len() > 0 {
        lemma_hex_len(data.drop_last());
    }
}

} // verus!
