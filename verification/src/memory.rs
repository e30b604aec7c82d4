//! Session memory: layers and listing.
use vstd::prelude::*;
use crate::engine::MemoryEntry;
use crate::text::{owned, push_str, spec_to_lowercase, str_eq, to_lowercase};
use crate::error::{internal_view, ToolError};
use crate::search::strings_view;

verus! {

/// Whether a layer name refers to session memory.
pub fn is_session(layer: &str) -> (res: bool)
    ensures
        res == (layer@ == "session"@),
{
    str_eq(layer, "session")
}

/// The entry carries `tag` among its tags, compared after lower-casing them.
pub open spec fn has_tag(m: MemoryEntry, tag: Seq<char>) -> bool {
    exists|i: int| 0 <= i < m.tags@.len() && spec_to_lowercase(#[trigger] m.tags@[i]@) == tag
}

/// The entry is listed under the optional tag filter.
pub open spec fn listed(m: MemoryEntry, filter_tag: Option<Seq<char>>) -> bool {
    match filter_tag {
        Some(t) => has_tag(m, t),
        None => true,
    }
}

/// Ids of the first `limit` entries, in order, that the filter lists.
pub open spec fn listed_ids(entries: Seq<MemoryEntry>, filter_tag: Option<Seq<char>>, limit: nat) -> Seq<Seq<char>>
    decreases entries.len(),
{
    if entries.len() == 0 || limit == 0 {
        Seq::empty()
    } else if listed(entries[0], filter_tag) {
        seq![entries[0].id@] + listed_ids(entries.drop_first(), filter_tag, (limit - 1) as nat)
    } else {
        listed_ids(entries.drop_first(), filter_tag, limit)
    }
}

fn tagged(m: &MemoryEntry, tag: &str) -> (res: bool)
    ensures
        res == has_tag(*m, tag@),
{
    let mut i: usize = 0;
    while i < m.tags.len()
        invariant
            i <= m.tags@.len(),
            forall|j: int| 0 <= j < i ==> spec_to_lowercase(#[trigger] m.tags@[j]@) != tag@,
        decreases m.tags.len() - i,
    {
        let l = to_lowercase(m.tags[i].as_str());
        if str_eq(l.as_str(), tag) {
            return true;
        }
        i = i + 1;
    }
    false
}

/// Copy of a memory entry.
fn copy_entry(m: &MemoryEntry) -> (res: MemoryEntry)
    ensures
        res.id@ == m.id@,
        res.title@ == m.title@,
        res.content@ == m.content@,
        strings_view(res.tags@) == strings_view(m.tags@),
        res.created_at@ == m.created_at@,
        res.updated_at@ == m.updated_at@,
{
    let tags = crate::text::clone_strings(&m.tags);
    proof {
        assert(strings_view(tags@) =~= strings_view(m.tags@));
    }
    MemoryEntry {
        id: owned(m.id.as_str()),
        title: owned(m.title.as_str()),
        content: owned(m.content.as_str()),
        tags,
        created_at: owned(m.created_at.as_str()),
        updated_at: owned(m.updated_at.as_str()),
    }
}

/// Session memory entries, optionally only those with a tag (compared after
/// lower-casing the entries' tags), at most `limit` of them, in store order.
pub fn session_entries(store: &Vec<MemoryEntry>, filter_tag: Option<&str>, limit: usize) -> (res: Vec<MemoryEntry>)
    ensures
        res@.map_values(|m: MemoryEntry| m.id@) == listed_ids(
            store@,
            match filter_tag {
                Some(t) => Some(t@),
                None => None,
            },
            limit as nat,
        ),
        forall|k: int|
            0 <= k < res@.len() ==> exists|j: int|
                0 <= j < store@.len() && (#[trigger] res@[k]).id@ == store@[j].id@ && res@[k].title@
                    == store@[j].title@ && res@[k].content@ == store@[j].content@ && strings_view(
                    res@[k].tags@,
                ) == strings_view(store@[j].tags@) && res@[k].created_at@ == store@[j].created_at@
                    && res@[k].updated_at@ == store@[j].updated_at@,
{
    let ghost ft = match filter_tag {
        Some(t) => Some(t@),
        None => None,
    };
    let mut out: Vec<MemoryEntry> = Vec::new();
    let mut i: usize = 0;
    proof {
        assert(store@.skip(0) == store@);
    }
    while i < store.len()
        invariant
            i <= store.len(),
            out@.len() <= limit,
            ft == (match filter_tag {
                Some(t) => Some(t@),
                None => None,
            }),
            listed_ids(store@, ft, limit as nat) == out@.map_values(|m: MemoryEntry| m.id@) + listed_ids(
                store@.skip(i as int),
                ft,
                (limit - out@.len()) as nat,
            ),
            forall|k: int|
                0 <= k < out@.len() ==> exists|j: int|
                    0 <= j < store@.len() && (#[trigger] out@[k]).id@ == store@[j].id@ && out@[k].title@
                        == store@[j].title@ && out@[k].content@ == store@[j].content@ && strings_view(
                        out@[k].tags@,
                    ) == strings_view(store@[j].tags@) && out@[k].created_at@ == store@[j].created_at@
                        && out@[k].updated_at@ == store@[j].updated_at@,
        ensures
            i >= store.len() || out@.len() == limit,
        decreases store.len() - i,
    {
        proof {
            assert(store@.skip(i as int)[0] == store@[i as int]);
            assert(store@.skip(i as int).drop_first() == store@.skip(i + 1));
        }
        if out.len() >= limit {
            break;
        }
        let m = &store[i];
        let keep = match filter_tag {
            Some(tag) => tagged(m, tag),
            None => true,
        };
        if keep {
            let ghost before = out@;
            let c = copy_entry(m);
            out.push(c);
            proof {
                assert(out@.map_values(|m: MemoryEntry| m.id@) == before.map_values(|m: MemoryEntry| m.id@).push(
                    m.id@,
                ));
                let a = before.map_values(|m: MemoryEntry| m.id@);
                let rest = listed_ids(store@.skip(i + 1), ft, (limit - out@.len()) as nat);
                assert(a + (seq![m.id@] + rest) == a.push(m.id@) + rest);
                assert forall|k: int|
                    0 <= k < out@.len() implies exists|j: int|
                        0 <= j < store@.len() && (#[trigger] out@[k]).id@ == store@[j].id@ && out@[k].title@
                            == store@[j].title@ && out@[k].content@ == store@[j].content@ && strings_view(
                            out@[k].tags@,
                        ) == strings_view(store@[j].tags@) && out@[k].created_at@ == store@[j].created_at@
                            && out@[k].updated_at@ == store@[j].updated_at@ by {
                    if k < before.len() {
                        assert(out@[k] == before[k]);
                    } else {
                        assert(out@[k] == c);
                        assert(store@[i as int] == *m);
                    }
                }
            }
        }
        i = i + 1;
    }
    proof {
        if i >= store.len() {
            assert(store@.skip(i as int).len() == 0);
        }
        assert(listed_ids(store@.skip(i as int), ft, (limit - out@.len()) as nat) == Seq::<Seq<char>>::empty());
        assert(out@.map_values(|m: MemoryEntry| m.id@) + Seq::<Seq<char>>::empty() == out@.map_values(
            |m: MemoryEntry| m.id@,
        ));
    }
    out
}

// ─── Layers ─────────────────────────────────────────────────

/// Where memory entries of a layer are kept: the project's memory directory,
/// the user's global one, or the session store in memory.
#[derive(Clone, Copy, Debug, PartialEq, Eq, Structural)]
pub enum MemoryLayer {
    Project,
    Global,
    Session,
}

/// The layer a name selects: empty or `project`, `global`, `session`.
pub open spec fn layer_of(name: Seq<char>) -> Option<MemoryLayer> {
    if name.len() == 0 || name == "project"@ {
        Some(MemoryLayer::Project)
    } else if name == "global"@ {
        Some(MemoryLayer::Global)
    } else if name == "session"@ {
        Some(MemoryLayer::Session)
    } else {
        None
    }
}

/// Selects a memory layer by name; an unknown name is refused with an
/// internal error that lists the valid layers.
pub fn memory_layer(name: &str) -> (res: Result<MemoryLayer, ToolError>)
    ensures
        match res {
            Ok(l) => layer_of(name@) == Some(l),
            Err(e) => layer_of(name@) is None && e@ == internal_view(
                "Unknown memory layer: "@ + name@ + ". Valid layers: project, global, session"@,
            ),
        },
{
    if name.unicode_len() == 0 || str_eq(name, "project") {
        Ok(MemoryLayer::Project)
    } else if str_eq(name, "global") {
        Ok(MemoryLayer::Global)
    } else if str_eq(name, "session") {
        Ok(MemoryLayer::Session)
    } else {
        let mut msg = owned("Unknown memory layer: ");
        push_str(&mut msg, name);
        push_str(&mut msg, ". Valid layers: project, global, session");
        Err(ToolError::internal(msg.as_str()))
    }
}

/// Applies an update to a memory entry: each given field replaces the old
/// one, the others stay, and the entry is stamped with `now`.
pub fn apply_memory_update(
    mem: &mut MemoryEntry,
    title: Option<String>,
    content: Option<String>,
    tags: Option<Vec<String>>,
    now: String,
)
    ensures
        final(mem).id == old(mem).id,
        final(mem).created_at == old(mem).created_at,
        final(mem).title == match title { Some(t) => t, None => old(mem).title },
        final(mem).content == match content { Some(c) => c, None => old(mem).content },
        final(mem).tags == match tags { Some(t) => t, None => old(mem).tags },
        final(mem).updated_at == now,
{
    match title {
        Some(t) => mem.title = t,
        None => {},
    }
    match content {
        Some(c) => mem.content = c,
        None => {},
    }
    match tags {
        Some(t) => mem.tags = t,
        None => {},
    }
    mem.updated_at = now;
}

} // verus!
