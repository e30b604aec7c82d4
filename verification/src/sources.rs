//! The life of an ingested source: claiming it for processing, completing
//! it, naming a new one, finding it among the tracked ones, and listing by
//! state.
use vstd::prelude::*;
use crate::engine::{SourceEntry, SourceState};
use crate::error::{internal_view, ToolError};
use crate::search::strings_view;
use crate::parser::{bytes_content_hash, hex_of, spec_sha256};
use crate::text::{clone_strings, owned, push_str, str_eq};

verus! {

/// The message of an internal error about source `id`: `Source `, the id,
/// then `tail`.
pub open spec fn source_message(id: Seq<char>, tail: Seq<char>) -> Seq<char> {
    "Source "@ + id + tail
}

fn source_error(id: &str, tail: &str) -> (e: ToolError)
    ensures
        e@ == internal_view(source_message(id@, tail@)),
{
    let mut msg = owned("Source ");
    push_str(&mut msg, id);
    push_str(&mut msg, tail);
    ToolError::internal(msg.as_str())
}

/// Claims a source for processing. A pending or stale source moves to
/// processing and counts one more try; a source in error moves to processing
/// without counting; both are stamped with `now`. A source being processed is
/// refused: when its last claim is more than 30 minutes old (`elapsed_minutes`,
/// none when unknown) it is first put back to pending. A processed source is
/// refused.
pub fn claim_source(entry: &mut SourceEntry, elapsed_minutes: Option<i64>, now: String) -> (res: Result<(), ToolError>)
    requires
        old(entry).state == SourceState::Pending || old(entry).state == SourceState::Stale ==> old(entry).retry_count
            < usize::MAX,
    ensures
        final(entry).id == old(entry).id,
        final(entry).content_hash == old(entry).content_hash,
        final(entry).page_refs == old(entry).page_refs,
        final(entry).page_count == old(entry).page_count,
        match old(entry).state {
            SourceState::Pending | SourceState::Stale => res is Ok && final(entry).state == SourceState::Processing
                && final(entry).retry_count == old(entry).retry_count + 1 && final(entry).last_processed_at == Some(now),
            SourceState::Error => res is Ok && final(entry).state == SourceState::Processing && final(entry).retry_count
                == old(entry).retry_count && final(entry).last_processed_at == Some(now),
            SourceState::Processing => res matches Err(e) && final(entry).retry_count == old(entry).retry_count
                && final(entry).last_processed_at == old(entry).last_processed_at && match elapsed_minutes {
                Some(m) => if m > 30 {
                    final(entry).state == SourceState::Pending && e@ == internal_view(
                        source_message(old(entry).id@, " is already being processed"@),
                    )
                } else {
                    final(entry).state == SourceState::Processing && e@ == internal_view(
                        source_message(old(entry).id@, " is already being processed by another agent"@),
                    )
                },
                None => final(entry).state == SourceState::Processing && e@ == internal_view(
                    source_message(old(entry).id@, " is already being processed"@),
                ),
            },
            SourceState::Done => res matches Err(e) && *final(entry) == *old(entry) && e@ == internal_view(
                source_message(old(entry).id@, " already processed. Use source.verify to check for staleness."@),
            ),
        },
{
    match entry.state {
        SourceState::Pending | SourceState::Stale => {
            entry.state = SourceState::Processing;
            entry.retry_count = entry.retry_count + 1;
        },
        SourceState::Processing => {
            match elapsed_minutes {
                Some(m) => {
                    if m > 30 {
                        entry.state = SourceState::Pending;
                    } else {
                        return Err(source_error(entry.id.as_str(), " is already being processed by another agent"));
                    }
                },
                None => {},
            }
            return Err(source_error(entry.id.as_str(), " is already being processed"));
        },
        SourceState::Done => {
            return Err(
                source_error(entry.id.as_str(), " already processed. Use source.verify to check for staleness."),
            );
        },
        SourceState::Error => {
            entry.state = SourceState::Processing;
        },
    }
    entry.last_processed_at = Some(now);
    Ok(())
}

/// Completes the processing of a source: only a source being processed can
/// be completed; it becomes processed, with its page references, their
/// number, and the time `now`.
pub fn complete_source(entry: &mut SourceEntry, page_refs: &Vec<String>, now: String) -> (res: Result<(), ToolError>)
    ensures
        old(entry).state == SourceState::Processing <==> res is Ok,
        res is Ok ==> final(entry).state == SourceState::Done && strings_view(final(entry).page_refs@) == strings_view(
            page_refs@,
        ) && final(entry).page_count == page_refs@.len() && final(entry).last_processed_at == Some(now)
            && final(entry).id == old(entry).id && final(entry).content_hash == old(entry).content_hash
            && final(entry).retry_count == old(entry).retry_count,
        res matches Err(e) ==> *final(entry) == *old(entry) && e@ == internal_view(
            source_message(old(entry).id@, " is not in processing state"@),
        ),
{
    if !matches!(entry.state, SourceState::Processing) {
        return Err(source_error(entry.id.as_str(), " is not in processing state"));
    }
    entry.state = SourceState::Done;
    entry.page_refs = clone_strings(page_refs);
    entry.page_count = page_refs.len();
    entry.last_processed_at = Some(now);
    Ok(())
}

// ─── Naming a new source ────────────────────────────────────

/// The id of a source with content hash `hash`: `src_` and the first eight
/// characters of the hash.
pub open spec fn source_id(hash: Seq<char>) -> Seq<char> {
    "src_"@ + hash.take(8)
}

/// The file name a source is stored under: the first eight characters of its
/// hash, `-`, the original file's stem, and its extension with a dot when it
/// has one.
pub open spec fn stored_name(hash: Seq<char>, stem: Seq<char>, ext: Option<Seq<char>>) -> Seq<char> {
    hash.take(8) + "-"@ + stem + match ext {
        Some(e) => "."@ + e,
        None => Seq::empty(),
    }
}

/// The id and the stored file name of a new source, from the hex hash of its
/// content and the stem and extension of its file.
pub fn source_names(hash: &str, stem: &str, ext: Option<&str>) -> (res: (String, String))
    requires
        hash@.len() >= 8,
    ensures
        res.0@ == source_id(hash@),
        res.1@ == stored_name(hash@, stem@, match ext { Some(e) => Some(e@), None => None }),
{
    let chars = crate::text::to_chars(hash);
    let prefix = crate::text::string_of(&chars, 0, 8);
    let mut id = owned("src_");
    push_str(&mut id, prefix.as_str());
    let mut name = owned(prefix.as_str());
    push_str(&mut name, "-");
    push_str(&mut name, stem);
    match ext {
        Some(e) => {
            push_str(&mut name, ".");
            push_str(&mut name, e);
        },
        None => {},
    }
    (id, name)
}

/// A new source entry, pending, with no pages.
pub fn new_source(id: String, original_path: String, stored_path: String, hash: String, now: String) -> (e: SourceEntry)
    ensures
        e.id == id,
        e.original_path == Some(original_path),
        e.stored_path == stored_path,
        e.content_hash == hash,
        e.state == SourceState::Pending,
        e.added_at == now,
        e.last_processed_at is None,
        e.page_refs@.len() == 0,
        e.page_count == 0,
        e.error_message is None,
        e.retry_count == 0,
{
    SourceEntry {
        id,
        original_path: Some(original_path),
        stored_path,
        content_hash: hash,
        state: SourceState::Pending,
        added_at: now,
        last_processed_at: None,
        page_refs: Vec::new(),
        page_count: 0,
        error_message: None,
        retry_count: 0,
    }
}

/// Hex SHA-256 text of a file's bytes.
pub open spec fn bytes_hash(content: Seq<u8>) -> Seq<char> {
    hex_of(spec_sha256(content))
}

/// The stem a source's file is named by: its own, or `source` when it has none.
pub open spec fn stem_or_default(stem: Option<Seq<char>>) -> Seq<char> {
    match stem {
        Some(s) => s,
        None => "source"@,
    }
}

/// The view of an optional text.
pub open spec fn opt_view(o: Option<&str>) -> Option<Seq<char>> {
    match o {
        Some(s) => Some(s@),
        None => None,
    }
}

/// Where the copy of a source named `name` is kept.
pub open spec fn stored_path_of(name: Seq<char>) -> Seq<char> {
    ".wm/sources/"@ + name
}

/// A new source from the bytes of its file, the file's stem and extension
/// (where it has them), the path it was read from and the time: its id, the
/// name its copy is stored under, and its pending registry entry. The hex
/// SHA-256 of the bytes gives both names and the entry's hash.
pub fn intake_source(
    content: &[u8],
    stem: Option<&str>,
    ext: Option<&str>,
    original_path: String,
    now: String,
) -> (res: (String, String, SourceEntry))
    ensures
        res.0@ == source_id(bytes_hash(content@)),
        res.1@ == stored_name(bytes_hash(content@), stem_or_default(opt_view(stem)), opt_view(ext)),
        res.2.id@ == res.0@,
        res.2.original_path == Some(original_path),
        res.2.stored_path@ == stored_path_of(res.1@),
        res.2.content_hash@ == bytes_hash(content@),
        res.2.state == SourceState::Pending,
        res.2.added_at == now,
        res.2.last_processed_at is None,
        res.2.page_refs@.len() == 0,
        res.2.page_count == 0,
        res.2.error_message is None,
        res.2.retry_count == 0,
{
    let hash = bytes_content_hash(content);
    let st = match stem {
        Some(s) => s,
        None => "source",
    };
    proof {
        reveal_strlit("source");
    }
    let (id, name) = source_names(hash.as_str(), st, ext);
    let mut path = owned(".wm/sources/");
    push_str(&mut path, name.as_str());
    let entry = new_source(id.clone(), original_path, path, hash, now);
    (id, name, entry)
}

/// The source came from `path`.
pub open spec fn came_from(e: SourceEntry, path: Seq<char>) -> bool {
    match e.original_path {
        Some(p) => p@ == path,
        None => false,
    }
}

/// Some tracked source has the content hash `hash` or came from `path`.
pub open spec fn is_tracked(entries: Seq<SourceEntry>, hash: Seq<char>, path: Seq<char>) -> bool {
    exists|i: int|
        0 <= i < entries.len() && ((#[trigger] entries[i]).content_hash@ == hash || came_from(entries[i], path))
}

/// Whether a file with content hash `hash` at `path` is tracked already.
pub fn already_tracked(entries: &Vec<SourceEntry>, hash: &str, path: &str) -> (r: bool)
    ensures
        r == is_tracked(entries@, hash@, path@),
{
    let mut i: usize = 0;
    while i < entries.len()
        invariant
            i <= entries@.len(),
            forall|j: int|
                0 <= j < i ==> !((#[trigger] entries@[j]).content_hash@ == hash@ || came_from(entries@[j], path@)),
        decreases entries.len() - i,
    {
        let e = &entries[i];
        let same_path = match &e.original_path {
            Some(p) => str_eq(p.as_str(), path),
            None => false,
        };
        if str_eq(e.content_hash.as_str(), hash) || same_path {
            proof {
                assert(entries@[i as int] == *e);
            }
            return true;
        }
        i = i + 1;
    }
    false
}

// ─── Listing by state ───────────────────────────────────────

/// The lower-cased name of a state.
pub open spec fn state_name(s: SourceState) -> Seq<char> {
    match s {
        SourceState::Pending => "pending"@,
        SourceState::Processing => "processing"@,
        SourceState::Done => "done"@,
        SourceState::Error => "error"@,
        SourceState::Stale => "stale"@,
    }
}

/// The lower-cased name of a state.
pub fn state_text(s: SourceState) -> (r: &'static str)
    ensures
        r@ == state_name(s),
{
    match s {
        SourceState::Pending => "pending",
        SourceState::Processing => "processing",
        SourceState::Done => "done",
        SourceState::Error => "error",
        SourceState::Stale => "stale",
    }
}

/// A source passes the state filter: no filter or an unknown state name lets
/// every source pass; a state name lets the sources in that state pass.
pub open spec fn passes_state(s: SourceState, filter: Option<Seq<char>>) -> bool {
    match filter {
        Some(f) => if f == "pending"@ || f == "processing"@ || f == "done"@ || f == "error"@ || f == "stale"@ {
            state_name(s) == f
        } else {
            true
        },
        None => true,
    }
}

/// Whether a source in state `s` passes the state filter.
pub fn state_passes(s: SourceState, filter: Option<&str>) -> (r: bool)
    ensures
        r == passes_state(s, match filter { Some(f) => Some(f@), None => None }),
{
    match filter {
        Some(f) => {
            if str_eq(f, "pending") || str_eq(f, "processing") || str_eq(f, "done") || str_eq(f, "error") || str_eq(
                f,
                "stale",
            ) {
                str_eq(state_text(s), f)
            } else {
                true
            }
        },
        None => true,
    }
}

// ─── Counting by state ──────────────────────────────────────

/// The states in the order of their names.
pub open spec fn states_by_name() -> Seq<SourceState> {
    seq![SourceState::Done, SourceState::Error, SourceState::Pending, SourceState::Processing, SourceState::Stale]
}

/// How many of the sources are in state `s`.
pub open spec fn count_in_state(es: Seq<SourceEntry>, s: SourceState) -> nat
    decreases es.len(),
{
    if es.len() == 0 {
        0
    } else {
        count_in_state(es.drop_last(), s) + if es.last().state == s { 1nat } else { 0nat }
    }
}

/// (state name, count) for each of the states, in order, that some source is in.
pub open spec fn state_counts(es: Seq<SourceEntry>, ss: Seq<SourceState>) -> Seq<(Seq<char>, nat)>
    decreases ss.len(),
{
    if ss.len() == 0 {
        Seq::empty()
    } else {
        let c = count_in_state(es, ss.last());
        state_counts(es, ss.drop_last()) + if c > 0 { seq![(state_name(ss.last()), c)] } else { Seq::empty() }
    }
}

/// How many of the sources are in state `s`.
fn count_state(es: &Vec<SourceEntry>, s: SourceState) -> (r: usize)
    ensures
        r == count_in_state(es@, s),
{
    let mut n: usize = 0;
    let mut i: usize = 0;
    proof {
        assert(es@.take(0) =~= Seq::<SourceEntry>::empty());
    }
    while i < es.len()
        invariant
            i <= es@.len(),
            n == count_in_state(es@.take(i as int), s),
            n <= i,
        decreases es.len() - i,
    {
        proof {
            assert(es@.take(i + 1).drop_last() =~= es@.take(i as int));
            assert(es@.take(i + 1).last() == es@[i as int]);
        }
        if es[i].state == s {
            n = n + 1;
        }
        i = i + 1;
    }
    proof {
        assert(es@.take(es@.len() as int) =~= es@);
    }
    n
}

/// The number of sources in each state that some source is in, by state
/// name in alphabetical order.
pub fn source_state_counts(es: &Vec<SourceEntry>) -> (res: Vec<(&'static str, usize)>)
    ensures
        res@.map_values(|p: (&'static str, usize)| (p.0@, p.1 as nat)) == state_counts(es@, states_by_name()),
{
    let states = [SourceState::Done, SourceState::Error, SourceState::Pending, SourceState::Processing, SourceState::Stale];
    let ghost ss = states_by_name();
    let mut out: Vec<(&'static str, usize)> = Vec::new();
    let mut i: usize = 0;
    proof {
        assert(states@ =~= ss);
        assert(ss.take(0) =~= Seq::<SourceState>::empty());
        assert(out@.map_values(|p: (&'static str, usize)| (p.0@, p.1 as nat)) =~= Seq::<(Seq<char>, nat)>::empty());
    }
    while i < 5
        invariant
            i <= 5,
            states@ == ss,
            ss == states_by_name(),
            out@.map_values(|p: (&'static str, usize)| (p.0@, p.1 as nat)) == state_counts(es@, ss.take(i as int)),
        decreases 5 - i,
    {
        let s = states[i];
        let c = count_state(es, s);
        proof {
            assert(ss.take(i + 1).drop_last() =~= ss.take(i as int));
            assert(ss.take(i + 1).last() == s);
        }
        if c > 0 {
            let ghost before = out@;
            out.push((state_text(s), c));
            proof {
                assert(out@.map_values(|p: (&'static str, usize)| (p.0@, p.1 as nat)) =~= before.map_values(
                    |p: (&'static str, usize)| (p.0@, p.1 as nat),
                ).push((state_name(s), c as nat)));
            }
        }
        i = i + 1;
    }
    proof {
        assert(ss.take(5) =~= ss);
    }
    out
}

} // verus!
