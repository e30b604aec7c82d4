//! Rewriting a page's front matter: the text it is rebuilt from, the closing
//! of a task whose timer was left running, and the merge of an update.
use vstd::prelude::*;
use crate::engine::PageType;
use crate::clock::{parse_rfc3339, seconds_between, spec_rfc3339_instant, whole_seconds_between};
use crate::error::join_texts;
use crate::graph::{join_comma, texts};
use crate::parser::{opt_view, Frontmatter, Relation};
use crate::yaml::{edit_text, edited_text, reader_fn, writer_fn, yaml_io_callable, yaml_io_consistent, EditView, YamlEdit, YamlValue, YamlView};
use crate::text::{
    decimal, find, find_from_exec, lines_of, owned, push_str, starts_with, starts_with_range, string_of,
    to_chars, trim, trim_range, trim_start, trim_start_range, u64_text,
};

verus! {

// ─── Front matter text ──────────────────────────────────────

/// The line `key: value`.
pub open spec fn field_line(key: Seq<char>, value: Seq<char>) -> Seq<char> {
    key + ": "@ + value + "\n"@
}

/// The line `key: value` where there is a value, else nothing.
pub open spec fn opt_field(key: Seq<char>, value: Option<Seq<char>>) -> Seq<char> {
    match value {
        Some(v) => field_line(key, v),
        None => Seq::empty(),
    }
}

/// The line `key: [a, b, ..]` where the list is not empty, else nothing.
pub open spec fn list_field(key: Seq<char>, items: Seq<Seq<char>>) -> Seq<char> {
    if items.len() == 0 {
        Seq::empty()
    } else {
        field_line(key, "["@ + join_texts(items, ", "@) + "]"@)
    }
}

/// The line of one relation inside a `relates_to:` block.
pub open spec fn relation_line(edge: Seq<char>, target: Seq<char>) -> Seq<char> {
    "  - {type: "@ + edge + ", target: "@ + target + "}\n"@
}

/// The lines of the relations, in order.
pub open spec fn relation_lines(rs: Seq<(Seq<char>, Seq<char>)>) -> Seq<char>
    decreases rs.len(),
{
    if rs.len() == 0 {
        Seq::empty()
    } else {
        relation_lines(rs.drop_last()) + relation_line(rs.last().0, rs.last().1)
    }
}

/// The `relates_to:` block of the relations, or nothing when there are none.
pub open spec fn relation_block(rs: Seq<(Seq<char>, Seq<char>)>) -> Seq<char> {
    if rs.len() == 0 {
        Seq::empty()
    } else {
        "relates_to:\n"@ + relation_lines(rs)
    }
}

/// Plain view of relations: (edge type, target) pairs.
pub open spec fn relations_view(rs: Seq<Relation>) -> Seq<(Seq<char>, Seq<char>)> {
    rs.map_values(|r: Relation| (r.edge_type@, r.target@))
}

/// The front matter a page's fields are written back as: title, type, tags,
/// status, confidence, aliases, sources, superseded_by, version, then the
/// relations, each where it is present.
pub open spec fn frontmatter_text(fm: Frontmatter) -> Seq<char> {
    opt_field("title"@, opt_view(fm.title)) + opt_field("type"@, opt_view(fm.page_type))
        + list_field("tags"@, texts(fm.tags@)) + opt_field("status"@, opt_view(fm.status))
        + opt_field("confidence"@, opt_view(fm.confidence)) + list_field("aliases"@, texts(fm.aliases@))
        + list_field("sources"@, texts(fm.sources@)) + opt_field("superseded_by"@, opt_view(fm.superseded_by))
        + opt_field("version"@, opt_view(fm.version)) + relation_block(relations_view(fm.relates_to@))
}

/// Appends `key: value` where there is a value.
fn push_opt_field(out: &mut String, key: &str, value: &Option<String>)
    ensures
        final(out)@ == old(out)@ + opt_field(key@, opt_view(*value)),
{
    match value {
        Some(v) => {
            push_str(out, key);
            push_str(out, ": ");
            push_str(out, v.as_str());
            push_str(out, "\n");
        },
        None => {},
    }
}

/// Appends `key: [a, b, ..]` where the list is not empty.
fn push_list_field(out: &mut String, key: &str, items: &Vec<String>)
    ensures
        final(out)@ == old(out)@ + list_field(key@, texts(items@)),
{
    if items.len() > 0 {
        push_str(out, key);
        push_str(out, ": ");
        push_str(out, "[");
        let joined = join_comma(items);
        push_str(out, joined.as_str());
        push_str(out, "]");
        push_str(out, "\n");
        proof {
            assert(texts(items@).len() == items@.len());
        }
    }
}

/// Appends the `relates_to:` block of the relations, where there are any.
fn push_relations(out: &mut String, rs: &Vec<Relation>)
    ensures
        final(out)@ == old(out)@ + relation_block(relations_view(rs@)),
{
    if rs.len() == 0 {
        return;
    }
    push_str(out, "relates_to:\n");
    let ghost base = out@;
    let ghost rv = relations_view(rs@);
    let mut i: usize = 0;
    proof {
        assert(rv.take(0) =~= Seq::<(Seq<char>, Seq<char>)>::empty());
        assert(out@ =~= base + relation_lines(rv.take(0)));
    }
    while i < rs.len()
        invariant
            i <= rs@.len(),
            rv == relations_view(rs@),
            out@ == base + relation_lines(rv.take(i as int)),
        decreases rs.len() - i,
    {
        push_str(out, "  - {type: ");
        push_str(out, rs[i].edge_type.as_str());
        push_str(out, ", target: ");
        push_str(out, rs[i].target.as_str());
        push_str(out, "}\n");
        proof {
            assert(rv.take(i + 1).drop_last() =~= rv.take(i as int));
            assert(rv.take(i + 1).last() == (rs@[i as int].edge_type@, rs@[i as int].target@));
        }
        i = i + 1;
    }
    proof {
        assert(rv.take(rs@.len() as int) =~= rv);
    }
}

/// The front matter text a page's parsed fields are written back as.
pub fn frontmatter_yaml(fm: &Frontmatter) -> (res: String)
    ensures
        res@ == frontmatter_text(*fm),
{
    let mut out = String::new();
    push_opt_field(&mut out, "title", &fm.title);
    push_opt_field(&mut out, "type", &fm.page_type);
    push_list_field(&mut out, "tags", &fm.tags);
    push_opt_field(&mut out, "status", &fm.status);
    push_opt_field(&mut out, "confidence", &fm.confidence);
    push_list_field(&mut out, "aliases", &fm.aliases);
    push_list_field(&mut out, "sources", &fm.sources);
    push_opt_field(&mut out, "superseded_by", &fm.superseded_by);
    push_opt_field(&mut out, "version", &fm.version);
    push_relations(&mut out, &fm.relates_to);
    proof {
        assert(out@ =~= frontmatter_text(*fm));
    }
    out
}

/// A page's text from its front matter and body.
pub open spec fn page_text(fm: Seq<char>, body: Seq<char>) -> Seq<char> {
    "---\n"@ + fm + "---\n\n"@ + body
}

/// Joins front matter and body into a page's text.
pub fn page_text_of(fm: &str, body: &str) -> (res: String)
    ensures
        res@ == page_text(fm@, body@),
{
    let mut out = owned("---\n");
    push_str(&mut out, fm);
    push_str(&mut out, "---\n\n");
    push_str(&mut out, body);
    out
}

/// The text of a new page: the content alone when the front matter is blank,
/// else the front matter and the content framed as a page.
pub open spec fn created_page(fm: Seq<char>, content: Seq<char>) -> Seq<char> {
    if trim(fm).len() == 0 {
        content
    } else {
        page_text(fm, content)
    }
}

/// The text of a new page from its front matter and content.
pub fn new_page_text(fm: &str, content: &str) -> (res: String)
    ensures
        res@ == created_page(fm@, content@),
{
    let v = to_chars(fm);
    let (a, b) = trim_range(&v, 0, v.len());
    proof {
        assert(v@.subrange(0, v@.len() as int) == v@);
    }
    if a == b {
        owned(content)
    } else {
        page_text_of(fm, content)
    }
}

/// The file of a page, relative to the wiki directory: the id with `:` made
/// `/`, one leading `wiki/` dropped, and `.md` added.
pub open spec fn page_file_of(id: Seq<char>) -> Seq<char> {
    let p = crate::text::replace_char(id, ':', '/');
    (if starts_with(p, "wiki/"@) { p.skip(5) } else { p }) + ".md"@
}

/// The file of a page, relative to the wiki directory.
pub fn page_file(id: &str) -> (res: String)
    ensures
        res@ == page_file_of(id@),
{
    proof {
        reveal_strlit("wiki/");
    }
    let v = to_chars(id);
    let mut w: Vec<char> = Vec::new();
    let mut i: usize = 0;
    while i < v.len()
        invariant
            i <= v@.len(),
            w@ == crate::text::replace_char(v@.take(i as int), ':', '/'),
        decreases v.len() - i,
    {
        let c = v[i];
        w.push(if c == ':' { '/' } else { c });
        proof {
            assert(v@.take(i + 1) == v@.take(i as int).push(c));
            assert(crate::text::replace_char(v@.take(i + 1), ':', '/') =~= crate::text::replace_char(
                v@.take(i as int),
                ':',
                '/',
            ).push(if c == ':' { '/' } else { c }));
        }
        i = i + 1;
    }
    proof {
        assert(v@.take(v@.len() as int) == v@);
    }
    let prefix = to_chars("wiki/");
    let n = w.len();
    let lo: usize = if starts_with_range(&w, 0, n, &prefix) { 5 } else { 0 };
    proof {
        assert(w@.subrange(0, n as int) == w@);
        if lo == 5 {
            assert("wiki/"@.len() == 5);
        }
    }
    let mut out = string_of(&w, lo, n);
    push_str(&mut out, ".md");
    proof {
        assert(w@.subrange(lo as int, n as int) == (if lo == 5 { w@.skip(5) } else { w@ }));
    }
    out
}

// ─── Orphan timers ──────────────────────────────────────────

/// Whole hours and the minutes past them in `secs` seconds.
pub open spec fn hours_minutes(secs: int) -> (int, int) {
    (secs / 3600, (secs / 60) % 60)
}

/// `Hh Mm` for a time spent.
pub open spec fn spent_text(secs: int) -> Seq<char> {
    decimal(hours_minutes(secs).0 as nat) + "h "@ + decimal(hours_minutes(secs).1 as nat) + "m"@
}

/// The time spent on a task whose timer started at `started` (seconds since
/// the epoch) and is found running at `now`, where a day or more has passed;
/// `None` while less than a day has passed.
pub open spec fn orphan_spent(started: int, now: int) -> Option<Seq<char>> {
    if now - started < 24 * 3600 {
        None
    } else {
        Some(spent_text(now - started))
    }
}

/// How long the timer of a task has run, as `Hh Mm`, when it was started a
/// day or more before `now`; `None` otherwise.
pub fn orphan_time_spent(started: i64, now: i64) -> (res: Option<String>)
    ensures
        match orphan_spent(started as int, now as int) {
            Some(t) => res matches Some(r) && r@ == t,
            None => res is None,
        },
{
    let elapsed: i128 = now as i128 - started as i128;
    if elapsed < 24 * 3600 {
        return None;
    }
    let hours: i128 = elapsed / 3600;
    let minutes: i128 = (elapsed / 60) % 60;
    assert(hours <= u64::MAX) by {
        assert(elapsed <= 0x1_0000_0000_0000_0000i128);
    }
    let mut out = u64_text(hours as u64);
    push_str(&mut out, "h ");
    let m = u64_text(minutes as u64);
    push_str(&mut out, m.as_str());
    push_str(&mut out, "m");
    Some(out)
}

/// The front matter of a task closed because its timer ran for a day or
/// more: title, type, tags, confidence, superseded_by, version and the
/// relations where present, then status `done`, the start time and the time
/// spent.
pub open spec fn closed_task_frontmatter(fm: Frontmatter, started: Seq<char>, spent: Seq<char>) -> Seq<char> {
    opt_field("title"@, opt_view(fm.title)) + opt_field("type"@, opt_view(fm.page_type))
        + list_field("tags"@, texts(fm.tags@)) + opt_field("confidence"@, opt_view(fm.confidence))
        + opt_field("superseded_by"@, opt_view(fm.superseded_by)) + opt_field("version"@, opt_view(fm.version))
        + relation_block(relations_view(fm.relates_to@)) + "status: done\n"@ + field_line("time_started"@, started)
        + field_line("time_spent"@, spent)
}

/// The text a page is rewritten to when its timer is recovered: for a task
/// whose timer started at `started_at` (text), `started` seconds since the
/// epoch, a day or more before `now`, the page closed as done with the time
/// spent; `None` for any other page, or while less than a day has passed.
pub open spec fn recovered_page(
    page_type: PageType,
    fm: Frontmatter,
    body: Seq<char>,
    started_at: Seq<char>,
    started: int,
    now: int,
) -> Option<Seq<char>> {
    if page_type != PageType::Task {
        None
    } else {
        match orphan_spent(started, now) {
            None => None,
            Some(spent) => Some(page_text(closed_task_frontmatter(fm, started_at, spent), body)),
        }
    }
}

/// The new text of a page whose task timer was left running for a day or
/// more, closed as done with the time spent; `None` when the page is no task
/// or less than a day has passed.
pub fn recover_orphan_page(
    page_type: PageType,
    fm: &Frontmatter,
    body: &str,
    started_at: &str,
    started: i64,
    now: i64,
) -> (res: Option<String>)
    ensures
        match recovered_page(page_type, *fm, body@, started_at@, started as int, now as int) {
            Some(t) => res matches Some(r) && r@ == t,
            None => res is None,
        },
{
    if !matches!(page_type, PageType::Task) {
        return None;
    }
    let spent = match orphan_time_spent(started, now) {
        Some(s) => s,
        None => return None,
    };
    let mut out = String::new();
    push_opt_field(&mut out, "title", &fm.title);
    push_opt_field(&mut out, "type", &fm.page_type);
    push_list_field(&mut out, "tags", &fm.tags);
    push_opt_field(&mut out, "confidence", &fm.confidence);
    push_opt_field(&mut out, "superseded_by", &fm.superseded_by);
    push_opt_field(&mut out, "version", &fm.version);
    push_relations(&mut out, &fm.relates_to);
    push_str(&mut out, "status: done\n");
    push_str(&mut out, "time_started");
    push_str(&mut out, ": ");
    push_str(&mut out, started_at);
    push_str(&mut out, "\n");
    push_str(&mut out, "time_spent");
    push_str(&mut out, ": ");
    push_str(&mut out, spent.as_str());
    push_str(&mut out, "\n");
    proof {
        assert(out@ =~= closed_task_frontmatter(*fm, started_at@, spent@));
    }
    Some(page_text_of(out.as_str(), body))
}

/// The new text of a task page whose timer, started at `started_at` (RFC
/// 3339 text), was left running for a day or more at `now` (seconds and
/// nanoseconds since the Unix epoch), counted in whole seconds as chrono
/// counts a signed duration; `None` when the page is no task, the start is no
/// RFC 3339 instant, or less than a day has passed.
pub fn recover_orphan_timer(
    page_type: PageType,
    fm: &Frontmatter,
    body: &str,
    started_at: &str,
    now: (i64, u32),
) -> (res: Option<String>)
    ensures
        match spec_rfc3339_instant(started_at@) {
            None => res is None,
            Some(t) => if i64::MIN <= seconds_between(t, now) <= i64::MAX {
                match recovered_page(page_type, *fm, body@, started_at@, 0, seconds_between(t, now)) {
                    Some(p) => res matches Some(r) && r@ == p,
                    None => res is None,
                }
            } else {
                res is None
            },
        },
{
    match parse_rfc3339(started_at) {
        None => None,
        Some(t) => {
            let secs = whole_seconds_between(t, now);
            if secs < i64::MIN as i128 || secs > i64::MAX as i128 {
                None
            } else {
                recover_orphan_page(page_type, fm, body, started_at, 0, secs as i64)
            }
        },
    }
}

// ─── Merging an update ──────────────────────────────────────

/// The fields of an update to a page, as the request gives them: texts that
/// replace fields, lists that replace blocks (an acceptance criterion as its
/// text and checked flag, a relation as its type and target, each where
/// given), new body content, a relation target to drop, and the 1-based
/// numbers of acceptance criteria to check or uncheck.
pub struct PageUpdate {
    pub title: Option<String>,
    pub status: Option<String>,
    pub priority: Option<String>,
    pub assignee: Option<String>,
    pub tags: Option<Vec<String>>,
    pub acceptance_criteria: Option<Vec<(Option<String>, Option<bool>)>>,
    pub content: Option<String>,
    pub relates_to: Option<Vec<(Option<String>, Option<String>)>>,
    pub remove_relates_to: Option<String>,
    pub checked_ac: Option<Vec<usize>>,
    pub unchecked_ac: Option<Vec<usize>>,
}

/// What a YAML reader gives for a text.
pub type YamlReader = spec_fn(Seq<char>) -> Option<YamlView>;

/// What a YAML writer gives for a document.
pub type YamlWriter = spec_fn(YamlView) -> Option<Seq<char>>;

/// The front matter after one string field set, through the YAML reader
/// and writer.
pub open spec fn yaml_set(y: Seq<char>, key: Seq<char>, value: Seq<char>, rd: YamlReader, wr: YamlWriter) -> Seq<char> {
    edited_text(y, EditView::SetText(key, value), rd, wr)
}

/// The front matter after a key removed, through the YAML reader and writer.
pub open spec fn yaml_remove(y: Seq<char>, key: Seq<char>, rd: YamlReader, wr: YamlWriter) -> Seq<char> {
    edited_text(y, EditView::Remove(key), rd, wr)
}

/// The front matter with the acceptance criterion at `pos` (from 0) marked,
/// through the YAML reader and writer.
pub open spec fn yaml_checked(y: Seq<char>, pos: usize, checked: bool, rd: YamlReader, wr: YamlWriter) -> Seq<char> {
    edited_text(y, EditView::Check(pos, checked), rd, wr)
}

/// The front matter with the text field `key` set, where a value is given.
pub open spec fn set_opt(y: Seq<char>, key: Seq<char>, v: Option<String>, rd: YamlReader, wr: YamlWriter) -> Seq<char> {
    match v {
        Some(t) => yaml_set(y, key, t@, rd, wr),
        None => y,
    }
}

/// The line of one acceptance criterion; no text reads as empty, and no
/// flag as unchecked.
pub open spec fn criterion_entry(c: (Option<String>, Option<bool>)) -> Seq<char> {
    let text = match c.0 { Some(t) => t@, None => Seq::empty() };
    let flag = match c.1 { Some(b) => b, None => false };
    "  - {text: \""@ + text + "\", checked: "@ + (if flag { "true"@ } else { "false"@ }) + "}\n"@
}

/// The lines of the acceptance criteria, in order.
pub open spec fn criterion_entries(cs: Seq<(Option<String>, Option<bool>)>) -> Seq<char>
    decreases cs.len(),
{
    if cs.len() == 0 {
        Seq::empty()
    } else {
        criterion_entries(cs.drop_last()) + criterion_entry(cs.last())
    }
}

/// A relation as given, with type `relates_to` and an empty target where
/// they are missing.
pub open spec fn given_relation(r: (Option<String>, Option<String>)) -> (Seq<char>, Seq<char>) {
    (
        match r.0 { Some(t) => t@, None => "relates_to"@ },
        match r.1 { Some(t) => t@, None => Seq::empty() },
    )
}

/// A line of a relation entry, in any block: it starts with `- {` once trimmed.
pub open spec fn is_entry_line(l: Seq<char>) -> bool {
    starts_with(trim(l), "- {"@)
}

/// The entry lines that stay when the entries naming `target` are dropped,
/// each re-indented by two spaces.
pub open spec fn kept_entries(ls: Seq<Seq<char>>, target: Seq<char>) -> Seq<char>
    decreases ls.len(),
{
    if ls.len() == 0 {
        Seq::empty()
    } else {
        kept_entries(ls.drop_last(), target) + (if is_entry_line(ls.last()) && find(ls.last(), target) is None {
            "  "@ + trim_start(ls.last()) + "\n"@
        } else {
            Seq::empty()
        })
    }
}

/// The front matter after the update's field overrides and block
/// replacements, before any relation is dropped.
pub open spec fn replaced_yaml(y0: Seq<char>, u: PageUpdate, rd: YamlReader, wr: YamlWriter) -> Seq<char> {
    let y1 = set_opt(set_opt(set_opt(set_opt(y0, "title"@, u.title, rd, wr), "status"@, u.status, rd, wr), "priority"@, u.priority, rd, wr), "assignee"@, u.assignee, rd, wr);
    let y2 = match u.tags {
        Some(t) => yaml_remove(y1, "tags"@, rd, wr) + list_field("tags"@, texts(t@)),
        None => y1,
    };
    let y3 = match u.acceptance_criteria {
        Some(cs) => yaml_remove(y2, "acceptance_criteria"@, rd, wr) + (if cs@.len() == 0 {
            Seq::empty()
        } else {
            "acceptance_criteria:\n"@ + criterion_entries(cs@)
        }),
        None => y2,
    };
    match u.relates_to {
        Some(rs) => yaml_remove(y3, "relates_to"@, rd, wr) + relation_block(rs@.map_values(|r: (Option<String>, Option<String>)| given_relation(r))),
        None => y3,
    }
}

/// The front matter with the relation entries naming `target` dropped: the
/// `relates_to` key removed and the remaining entry lines, where there are
/// any, written back under a new `relates_to:`.
pub open spec fn drop_relation(y: Seq<char>, target: Seq<char>, rd: YamlReader, wr: YamlWriter) -> Seq<char> {
    let e = kept_entries(lines_of(y), target);
    let base = yaml_remove(y, "relates_to"@, rd, wr);
    if e.len() > 0 {
        base + "relates_to:\n"@ + e
    } else {
        base
    }
}

/// The front matter with the acceptance criteria numbered in `idxs` (from 1;
/// 0 names none) marked `checked`, in order.
pub open spec fn check_all(y: Seq<char>, idxs: Seq<usize>, checked: bool, rd: YamlReader, wr: YamlWriter) -> Seq<char>
    decreases idxs.len(),
{
    if idxs.len() == 0 {
        y
    } else {
        let prev = check_all(y, idxs.drop_last(), checked, rd, wr);
        if idxs.last() > 0 {
            yaml_checked(prev, (idxs.last() - 1) as usize, checked, rd, wr)
        } else {
            prev
        }
    }
}

/// The text of a page after an update: its front matter written back from
/// its fields (nothing where it has none), the update's overrides and block
/// replacements, the dropped relation, the checked and unchecked criteria, in
/// this order, and the update's content as the body where it gives one.
pub open spec fn updated_page(fm: Option<Frontmatter>, body: Seq<char>, u: PageUpdate, rd: YamlReader, wr: YamlWriter) -> Seq<char> {
    let y0 = match fm { Some(f) => frontmatter_text(f), None => Seq::empty() };
    let y3 = replaced_yaml(y0, u, rd, wr);
    let y4 = match u.remove_relates_to { Some(t) => drop_relation(y3, t@, rd, wr), None => y3 };
    let y5 = match u.checked_ac { Some(v) => check_all(y4, v@, true, rd, wr), None => y4 };
    let y6 = match u.unchecked_ac { Some(v) => check_all(y5, v@, false, rd, wr), None => y5 };
    let b = match u.content { Some(c) => c@, None => body };
    page_text(y6, b)
}

/// The front matter with the text field `key` set, where a value is given.
fn set_opt_field<R: Fn(&str) -> Option<YamlValue>, W: Fn(&YamlValue) -> Option<String>>(y: String, key: &str, v: &Option<String>, rd: &R, wr: &W) -> (res: String)
    requires
        yaml_io_callable(*rd, *wr),
    ensures
        yaml_io_consistent(*rd, *wr) ==> res@ == set_opt(y@, key@, *v, reader_fn(*rd), writer_fn(*wr)),
{
    match v {
        Some(t) => edit_text(y.as_str(), &YamlEdit::SetText(owned(key), owned(t.as_str())), rd, wr),
        None => y,
    }
}

/// Appends the lines of the acceptance criteria.
fn push_criteria(out: &mut String, cs: &Vec<(Option<String>, Option<bool>)>)
    ensures
        final(out)@ == old(out)@ + criterion_entries(cs@),
{
    let ghost base = out@;
    let mut i: usize = 0;
    proof {
        assert(cs@.take(0) =~= Seq::<(Option<String>, Option<bool>)>::empty());
        assert(out@ =~= base + criterion_entries(cs@.take(0)));
    }
    while i < cs.len()
        invariant
            i <= cs@.len(),
            out@ == base + criterion_entries(cs@.take(i as int)),
        decreases cs.len() - i,
    {
        push_str(out, "  - {text: \"");
        match &cs[i].0 {
            Some(t) => push_str(out, t.as_str()),
            None => {},
        }
        push_str(out, "\", checked: ");
        let flag = match cs[i].1 {
            Some(b) => b,
            None => false,
        };
        if flag {
            push_str(out, "true");
        } else {
            push_str(out, "false");
        }
        push_str(out, "}\n");
        proof {
            assert(cs@.take(i + 1).drop_last() =~= cs@.take(i as int));
            assert(cs@.take(i + 1).last() == cs@[i as int]);
        }
        i = i + 1;
    }
    proof {
        assert(cs@.take(cs@.len() as int) =~= cs@);
    }
}

/// Appends the `relates_to:` block of the relations as given.
fn push_given_relations(out: &mut String, rs: &Vec<(Option<String>, Option<String>)>)
    ensures
        final(out)@ == old(out)@ + relation_block(rs@.map_values(|r: (Option<String>, Option<String>)| given_relation(r))),
{
    let ghost rv = rs@.map_values(|r: (Option<String>, Option<String>)| given_relation(r));
    if rs.len() == 0 {
        return;
    }
    push_str(out, "relates_to:\n");
    let ghost base = out@;
    let mut i: usize = 0;
    proof {
        assert(rv.take(0) =~= Seq::<(Seq<char>, Seq<char>)>::empty());
        assert(out@ =~= base + relation_lines(rv.take(0)));
    }
    while i < rs.len()
        invariant
            i <= rs@.len(),
            rv == rs@.map_values(|r: (Option<String>, Option<String>)| given_relation(r)),
            out@ == base + relation_lines(rv.take(i as int)),
        decreases rs.len() - i,
    {
        push_str(out, "  - {type: ");
        match &rs[i].0 {
            Some(t) => push_str(out, t.as_str()),
            None => push_str(out, "relates_to"),
        }
        push_str(out, ", target: ");
        match &rs[i].1 {
            Some(t) => push_str(out, t.as_str()),
            None => {},
        }
        push_str(out, "}\n");
        proof {
            assert(rv.take(i + 1).drop_last() =~= rv.take(i as int));
            assert(rv.take(i + 1).last() == given_relation(rs@[i as int]));
        }
        i = i + 1;
    }
    proof {
        assert(rv.take(rs@.len() as int) =~= rv);
    }
}

/// The front matter with the relation entries naming `target` dropped.
fn drop_relation_text<R: Fn(&str) -> Option<YamlValue>, W: Fn(&YamlValue) -> Option<String>>(y: &str, target: &str, rd: &R, wr: &W) -> (res: String)
    requires
        yaml_io_callable(*rd, *wr),
    ensures
        yaml_io_consistent(*rd, *wr) ==> res@ == drop_relation(y@, target@, reader_fn(*rd), writer_fn(*wr)),
{
    let lines = crate::logs::log_lines(y);
    let tv = to_chars(target);
    let dash = to_chars("- {");
    let ghost ls = lines_of(y@);
    let mut kept = String::new();
    let mut any = false;
    let mut i: usize = 0;
    proof {
        assert(ls.take(0) =~= Seq::<Seq<char>>::empty());
    }
    while i < lines.len()
        invariant
            i <= lines@.len(),
            crate::search::strings_view(lines@) == ls,
            ls == lines_of(y@),
            tv@ == target@,
            dash@ == "- {"@,
            kept@ == kept_entries(ls.take(i as int), target@),
            any == (kept@.len() > 0),
        decreases lines.len() - i,
    {
        let lv = to_chars(lines[i].as_str());
        let n = lv.len();
        let (a, b) = trim_range(&lv, 0, n);
        let entry = starts_with_range(&lv, a, b, &dash);
        let hit = match find_from_exec(&lv, &tv, 0) {
            Some(_) => true,
            None => false,
        };
        proof {
            assert(lv@.subrange(0, n as int) == lv@);
            assert(ls[i as int] == lines@[i as int]@);
            assert(ls.take(i + 1).drop_last() =~= ls.take(i as int));
            assert(ls.take(i + 1).last() == lv@);
        }
        if entry && !hit {
            let st = trim_start_range(&lv, 0, n);
            push_str(&mut kept, "  ");
            let rest = string_of(&lv, st, n);
            push_str(&mut kept, rest.as_str());
            push_str(&mut kept, "\n");
            any = true;
            proof {
                reveal_strlit("  ");
            }
        }
        i = i + 1;
    }
    proof {
        assert(ls.take(lines@.len() as int) =~= ls);
    }
    let mut out = edit_text(y, &YamlEdit::Remove(owned("relates_to")), rd, wr);
    if any {
        push_str(&mut out, "relates_to:\n");
        push_str(&mut out, kept.as_str());
    }
    out
}

/// The front matter with the numbered acceptance criteria marked `checked`.
fn check_criteria<R: Fn(&str) -> Option<YamlValue>, W: Fn(&YamlValue) -> Option<String>>(y: String, idxs: &Vec<usize>, checked: bool, rd: &R, wr: &W) -> (res: String)
    requires
        yaml_io_callable(*rd, *wr),
    ensures
        yaml_io_consistent(*rd, *wr) ==> res@ == check_all(y@, idxs@, checked, reader_fn(*rd), writer_fn(*wr)),
{
    let ghost y0 = y@;
    let ghost h = yaml_io_consistent(*rd, *wr);
    let mut cur = y;
    let mut i: usize = 0;
    proof {
        assert(idxs@.take(0) =~= Seq::<usize>::empty());
    }
    while i < idxs.len()
        invariant
            i <= idxs@.len(),
            yaml_io_callable(*rd, *wr),
            h == yaml_io_consistent(*rd, *wr),
            h ==> cur@ == check_all(y0, idxs@.take(i as int), checked, reader_fn(*rd), writer_fn(*wr)),
        decreases idxs.len() - i,
    {
        let k = idxs[i];
        proof {
            assert(idxs@.take(i + 1).drop_last() =~= idxs@.take(i as int));
            assert(idxs@.take(i + 1).last() == k);
        }
        if k > 0 {
            cur = edit_text(cur.as_str(), &YamlEdit::Check(k - 1, checked), rd, wr);
        }
        i = i + 1;
    }
    proof {
        assert(idxs@.take(idxs@.len() as int) =~= idxs@);
    }
    cur
}

/// The text of a page after an update, from its parsed front matter (where
/// it has one) and its body; YAML text is read with `rd` and written with `wr`.
pub fn apply_page_update<R: Fn(&str) -> Option<YamlValue>, W: Fn(&YamlValue) -> Option<String>>(
    fm: &Option<Frontmatter>,
    body: &str,
    u: &PageUpdate,
    rd: &R,
    wr: &W,
) -> (res: String)
    requires
        yaml_io_callable(*rd, *wr),
    ensures
        yaml_io_consistent(*rd, *wr) ==> res@ == updated_page(*fm, body@, *u, reader_fn(*rd), writer_fn(*wr)),
{
    let ghost h = yaml_io_consistent(*rd, *wr);
    let ghost rf = reader_fn(*rd);
    let ghost wf = writer_fn(*wr);
    let y0 = match fm {
        Some(f) => frontmatter_yaml(f),
        None => String::new(),
    };
    let y = set_opt_field(y0, "title", &u.title, rd, wr);
    let y = set_opt_field(y, "status", &u.status, rd, wr);
    let y = set_opt_field(y, "priority", &u.priority, rd, wr);
    let y1 = set_opt_field(y, "assignee", &u.assignee, rd, wr);
    let y2 = match &u.tags {
        Some(t) => {
            let mut r = edit_text(y1.as_str(), &YamlEdit::Remove(owned("tags")), rd, wr);
            push_list_field(&mut r, "tags", t);
            r
        },
        None => y1,
    };
    let y2c = match &u.acceptance_criteria {
        Some(cs) => {
            let mut r = edit_text(y2.as_str(), &YamlEdit::Remove(owned("acceptance_criteria")), rd, wr);
            proof {
                reveal_strlit("acceptance_criteria:\n");
            }
            if cs.len() > 0 {
                push_str(&mut r, "acceptance_criteria:\n");
                push_criteria(&mut r, cs);
            }
            r
        },
        None => y2,
    };
    let y3 = match &u.relates_to {
        Some(rs) => {
            let mut r = edit_text(y2c.as_str(), &YamlEdit::Remove(owned("relates_to")), rd, wr);
            push_given_relations(&mut r, rs);
            r
        },
        None => y2c,
    };
    proof {
        if h {
            let g0 = match fm { Some(f) => frontmatter_text(*f), None => Seq::empty() };
            let g1 = set_opt(
                set_opt(set_opt(set_opt(g0, "title"@, u.title, rf, wf), "status"@, u.status, rf, wf), "priority"@, u.priority, rf, wf),
                "assignee"@,
                u.assignee,
                rf,
                wf,
            );
            assert(y1@ == g1);
            let g2 = match &u.tags {
                Some(t) => yaml_remove(g1, "tags"@, rf, wf) + list_field("tags"@, texts(t@)),
                None => g1,
            };
            assert(y2@ == g2);
            let g3 = match &u.acceptance_criteria {
                Some(cs) => yaml_remove(g2, "acceptance_criteria"@, rf, wf) + (if cs@.len() == 0 {
                    Seq::empty()
                } else {
                    "acceptance_criteria:\n"@ + criterion_entries(cs@)
                }),
                None => g2,
            };
            assert(y2c@ == g3);
            assert(y3@ == replaced_yaml(g0, *u, rf, wf));
        }
    }
    let y4 = match &u.remove_relates_to {
        Some(t) => drop_relation_text(y3.as_str(), t.as_str(), rd, wr),
        None => y3,
    };
    let y5 = match &u.checked_ac {
        Some(v) => check_criteria(y4, v, true, rd, wr),
        None => y4,
    };
    let y6 = match &u.unchecked_ac {
        Some(v) => check_criteria(y5, v, false, rd, wr),
        None => y5,
    };
    match &u.content {
        Some(c) => page_text_of(y6.as_str(), c.as_str()),
        None => page_text_of(y6.as_str(), body),
    }
}

} // verus!
