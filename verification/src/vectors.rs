//! The `vectors.bin` file format that stores section embeddings.
//!
//! Layout (all integers little-endian):
//! a 24-byte header — magic `WMV\0`, version `1` (u32), dimension (u32),
//! entry count (u64), model-name length (u32) — then the model name padded
//! with zeros to a multiple of 32 bytes, then per entry: id length (u32), the
//! id padded with zeros to a multiple of 8 bytes, a 32-byte content hash and
//! `dimension` vector components. A component is stored as the bit pattern of
//! its `f32` value; this module handles those bit patterns as `u32`.
use vstd::prelude::*;
use vstd::bytes::{
    spec_u32_from_le_bytes, spec_u32_to_le_bytes, spec_u64_from_le_bytes, spec_u64_to_le_bytes,
    u32_from_le_bytes, u32_to_le_bytes, u64_from_le_bytes, u64_to_le_bytes,
};
use crate::text::{decimal, owned, push_str, u64_text};

verus! {

// ─── UTF-8 ──────────────────────────────────────────────────

/// UTF-8 encoding of one character.
pub open spec fn utf8_char(c: char) -> Seq<u8> {
    let n = c as u32;
    if n < 0x80 {
        seq![n as u8]
    } else if n < 0x800 {
        seq![(0xC0 | (n >> 6)) as u8, (0x80 | (n & 0x3F)) as u8]
    } else if n < 0x10000 {
        seq![(0xE0 | (n >> 12)) as u8, (0x80 | ((n >> 6) & 0x3F)) as u8, (0x80 | (n & 0x3F)) as u8]
    } else {
        seq![
            (0xF0 | (n >> 18)) as u8,
            (0x80 | ((n >> 12) & 0x3F)) as u8,
            (0x80 | ((n >> 6) & 0x3F)) as u8,
            (0x80 | (n & 0x3F)) as u8,
        ]
    }
}

/// UTF-8 encoding of a string.
pub open spec fn utf8_encode(s: Seq<char>) -> Seq<u8>
    decreases s.len(),
{
    if s.len() == 0 {
        Seq::empty()
    } else {
        utf8_encode(s.drop_last()) + utf8_char(s.last())
    }
}

/// Text that std `String::from_utf8_lossy` makes of some bytes.
pub uninterp spec fn spec_utf8_lossy(b: Seq<u8>) -> Seq<char>;

/// Calls std `str::as_bytes`. Claims the bytes are the UTF-8 encoding of the
/// string, as std documents a `str` to be.
#[verifier::external_body]
pub(crate) fn str_bytes(s: &str) -> (r: &[u8])
    ensures
        r@ == utf8_encode(s@),
{
    s.as_bytes()
}

/// Calls std `String::from_utf8_lossy`. Claims the result is the named
/// decoding of the bytes and, as its documentation says, that bytes which are
/// the UTF-8 encoding of a string decode to that string.
#[verifier::external_body]
fn utf8_lossy(b: &[u8]) -> (r: String)
    ensures
        r@ == spec_utf8_lossy(b@),
        forall|s: Seq<char>| #[trigger] utf8_encode(s) == b@ ==> r@ == s,
{
    String::from_utf8_lossy(b).into_owned()
}

// ─── Format ─────────────────────────────────────────────────

/// The magic bytes `WMV\0`.
pub open spec fn magic() -> Seq<u8> {
    seq![87u8, 77u8, 86u8, 0u8]
}

/// `n` zero bytes.
pub open spec fn zeros(n: int) -> Seq<u8> {
    Seq::new(n as nat, |i: int| 0u8)
}

/// `n` rounded up to a multiple of 8.
pub open spec fn pad8(n: int) -> int {
    ((n + 7) / 8) * 8
}

/// `n` rounded up to a multiple of 32.
pub open spec fn pad32(n: int) -> int {
    ((n + 31) / 32) * 32
}

/// Little-endian bytes of the components of a vector.
pub open spec fn components_bytes(v: Seq<u32>) -> Seq<u8>
    decreases v.len(),
{
    if v.len() == 0 {
        Seq::empty()
    } else {
        components_bytes(v.drop_last()) + spec_u32_to_le_bytes(v.last())
    }
}

/// Content hash stored for `id`: the first one listed for it, else 32 zeros.
pub open spec fn hash_for(hashes: Seq<(Seq<char>, Seq<u8>)>, id: Seq<char>) -> Seq<u8>
    decreases hashes.len(),
{
    if hashes.len() == 0 {
        zeros(32)
    } else if hashes[0].0 == id {
        hashes[0].1
    } else {
        hash_for(hashes.drop_first(), id)
    }
}

/// Bytes of one entry.
pub open spec fn entry_bytes(id: Seq<char>, hash: Seq<u8>, v: Seq<u32>) -> Seq<u8> {
    let ib = utf8_encode(id);
    spec_u32_to_le_bytes(ib.len() as u32) + ib + zeros(pad8(ib.len() as int) - ib.len()) + hash
        + components_bytes(v)
}

/// Bytes of a list of entries, each with its stored hash.
pub open spec fn entries_bytes(es: Seq<(Seq<char>, Seq<u32>)>, hashes: Seq<(Seq<char>, Seq<u8>)>) -> Seq<u8>
    decreases es.len(),
{
    if es.len() == 0 {
        Seq::empty()
    } else {
        entries_bytes(es.drop_last(), hashes) + entry_bytes(
            es.last().0,
            hash_for(hashes, es.last().0),
            es.last().1,
        )
    }
}

/// Dimension written to the header: that of the first entry, or 0.
pub open spec fn dim_of(es: Seq<(Seq<char>, Seq<u32>)>) -> int {
    if es.len() > 0 {
        es[0].1.len() as int
    } else {
        0
    }
}

/// Header bytes, including the padded model name.
pub open spec fn header_bytes(name: Seq<char>, dim: int, count: int) -> Seq<u8> {
    let nb = utf8_encode(name);
    magic() + spec_u32_to_le_bytes(1) + spec_u32_to_le_bytes(dim as u32) + spec_u64_to_le_bytes(
        count as u64,
    ) + spec_u32_to_le_bytes(nb.len() as u32) + nb + zeros(pad32(nb.len() as int) - nb.len())
}

/// The whole file for a model name, entries and content hashes.
pub open spec fn vectors_file(
    name: Seq<char>,
    es: Seq<(Seq<char>, Seq<u32>)>,
    hashes: Seq<(Seq<char>, Seq<u8>)>,
) -> Seq<u8> {
    header_bytes(name, dim_of(es), es.len() as int) + entries_bytes(es, hashes)
}

/// Views of the entries to write.
pub open spec fn entries_view(es: Seq<(String, Vec<u32>)>) -> Seq<(Seq<char>, Seq<u32>)> {
    es.map_values(|e: (String, Vec<u32>)| (e.0@, e.1@))
}

/// Views of the content hashes.
pub open spec fn hashes_view(hs: Seq<(String, Vec<u8>)>) -> Seq<(Seq<char>, Seq<u8>)> {
    hs.map_values(|h: (String, Vec<u8>)| (h.0@, h.1@))
}

/// Every stored hash is 32 bytes long.
pub open spec fn hashes_wf(hs: Seq<(Seq<char>, Seq<u8>)>) -> bool {
    forall|k: int| 0 <= k < hs.len() ==> (#[trigger] hs[k]).1.len() == 32
}

// ─── Writing ────────────────────────────────────────────────

fn push_all(out: &mut Vec<u8>, bytes: &[u8])
    ensures
        final(out)@ == old(out)@ + bytes@,
{
    let mut i: usize = 0;
    let ghost start = out@;
    while i < bytes.len()
        invariant
            i <= bytes.len(),
            out@ == start + bytes@.take(i as int),
        decreases bytes.len() - i,
    {
        out.push(bytes[i]);
        proof {
            assert(bytes@.take(i + 1) == bytes@.take(i as int).push(bytes@[i as int]));
        }
        i = i + 1;
    }
    proof {
        assert(bytes@.take(bytes.len() as int) == bytes@);
    }
}

fn push_zeros(out: &mut Vec<u8>, n: usize)
    ensures
        final(out)@ == old(out)@ + zeros(n as int),
{
    let mut i: usize = 0;
    let ghost start = out@;
    while i < n
        invariant
            i <= n,
            out@ == start + zeros(i as int),
        decreases n - i,
    {
        out.push(0u8);
        proof {
            assert(zeros(i + 1) == zeros(i as int).push(0u8));
        }
        i = i + 1;
    }
}

/// The content hash stored for `id`.
fn lookup_hash(hashes: &Vec<(String, Vec<u8>)>, id: &str) -> (res: Vec<u8>)
    ensures
        res@ == hash_for(hashes_view(hashes@), id@),
{
    let ghost hv = hashes_view(hashes@);
    let mut i: usize = 0;
    proof {
        assert(hv.skip(0) == hv);
    }
    while i < hashes.len()
        invariant
            i <= hashes.len(),
            hv == hashes_view(hashes@),
            hash_for(hv, id@) == hash_for(hv.skip(i as int), id@),
        decreases hashes.len() - i,
    {
        proof {
            assert(hv.skip(i as int)[0] == hv[i as int]);
            assert(hv.skip(i as int).drop_first() == hv.skip(i + 1));
        }
        if crate::text::str_eq(hashes[i].0.as_str(), id) {
            let mut out: Vec<u8> = Vec::new();
            push_all(&mut out, hashes[i].1.as_slice());
            return out;
        }
        i = i + 1;
    }
    let mut out: Vec<u8> = Vec::new();
    push_zeros(&mut out, 32);
    out
}

/// Reader and writer of `vectors.bin`.
pub struct VectorsBin;

impl VectorsBin {
    /// The file for a model name, its entries (id and component bit patterns)
    /// and their content hashes (32 zero bytes for an id without one). The
    /// dimension in the header is that of the first entry.
    pub fn write(
        model_name: &str,
        entries: &Vec<(String, Vec<u32>)>,
        hashes: &Vec<(String, Vec<u8>)>,
    ) -> (res: Result<Vec<u8>, String>)
        requires
            utf8_encode(model_name@).len() <= u32::MAX,
            entries@.len() > 0 ==> entries@[0].1@.len() <= u32::MAX,
            forall|k: int| 0 <= k < entries@.len() ==> utf8_encode((#[trigger] entries@[k]).0@).len() <= u32::MAX,
        ensures
            res matches Ok(bytes) && bytes@ == vectors_file(
                model_name@,
                entries_view(entries@),
                hashes_view(hashes@),
            ),
    {
        let ghost ev = entries_view(entries@);
        let ghost hv = hashes_view(hashes@);
        let dim: u32 = if entries.len() > 0 { entries[0].1.len() as u32 } else { 0 };
        let count: u64 = entries.len() as u64;
        let name_bytes = str_bytes(model_name);
        let name_len: u32 = name_bytes.len() as u32;
        let mut buf: Vec<u8> = Vec::new();
        buf.push(87u8);
        buf.push(77u8);
        buf.push(86u8);
        buf.push(0u8);
        proof {
            assert(buf@ == magic());
        }
        push_all(&mut buf, u32_to_le_bytes(1).as_slice());
        push_all(&mut buf, u32_to_le_bytes(dim).as_slice());
        push_all(&mut buf, u64_to_le_bytes(count).as_slice());
        push_all(&mut buf, u32_to_le_bytes(name_len).as_slice());
        push_all(&mut buf, name_bytes);
        let name_rem = name_bytes.len() % 32;
        let name_pad: usize = if name_rem == 0 { 0 } else { 32 - name_rem };
        proof {
            assert(name_pad == pad32(name_bytes@.len() as int) - name_bytes@.len());
        }
        push_zeros(&mut buf, name_pad);
        proof {
            assert(dim as int == dim_of(ev));
            assert(buf@ == header_bytes(model_name@, dim_of(ev), ev.len() as int));
            assert(ev.take(0) =~= Seq::<(Seq<char>, Seq<u32>)>::empty());
            assert(buf@ == header_bytes(model_name@, dim_of(ev), ev.len() as int) + entries_bytes(
                ev.take(0),
                hv,
            ));
        }
        let mut k: usize = 0;
        while k < entries.len()
            invariant
                k <= entries.len(),
                ev == entries_view(entries@),
                hv == hashes_view(hashes@),
                forall|j: int| 0 <= j < entries@.len() ==> utf8_encode((#[trigger] entries@[j]).0@).len() <= u32::MAX,
                buf@ == header_bytes(model_name@, dim_of(ev), ev.len() as int) + entries_bytes(
                    ev.take(k as int),
                    hv,
                ),
            decreases entries.len() - k,
        {
            let id = entries[k].0.as_str();
            let id_bytes = str_bytes(id);
            let id_len: u32 = id_bytes.len() as u32;
            let hash = lookup_hash(hashes, id);
            let ghost before = buf@;
            push_all(&mut buf, u32_to_le_bytes(id_len).as_slice());
            push_all(&mut buf, id_bytes);
            let id_rem = id_bytes.len() % 8;
            let id_pad: usize = if id_rem == 0 { 0 } else { 8 - id_rem };
            proof {
                assert(id_pad == pad8(id_bytes@.len() as int) - id_bytes@.len());
            }
            push_zeros(&mut buf, id_pad);
            push_all(&mut buf, hash.as_slice());
            let vector = &entries[k].1;
            let ghost mid = buf@;
            let mut j: usize = 0;
            while j < vector.len()
                invariant
                    j <= vector.len(),
                    buf@ == mid + components_bytes(vector@.take(j as int)),
                decreases vector.len() - j,
            {
                push_all(&mut buf, u32_to_le_bytes(vector[j]).as_slice());
                proof {
                    assert(vector@.take(j + 1).drop_last() == vector@.take(j as int));
                }
                j = j + 1;
            }
            proof {
                assert(vector@.take(vector.len() as int) == vector@);
                assert(ev[k as int] == (entries@[k as int].0@, entries@[k as int].1@));
                assert(ev.take(k + 1).drop_last() == ev.take(k as int));
                assert(ev.take(k + 1).last() == ev[k as int]);
                let eb = entry_bytes(ev[k as int].0, hash_for(hv, ev[k as int].0), ev[k as int].1);
                assert(buf@ == before + eb);
            }
            k = k + 1;
        }
        proof {
            assert(ev.take(entries.len() as int) == ev);
        }
        Ok(buf)
    }
}

// ─── Reading ────────────────────────────────────────────────

/// The little-endian u32 at `at`.
pub open spec fn le32(d: Seq<u8>, at: int) -> u32 {
    spec_u32_from_le_bytes(d.subrange(at, at + 4))
}

/// The little-endian u64 at `at`.
pub open spec fn le64(d: Seq<u8>, at: int) -> u64 {
    spec_u64_from_le_bytes(d.subrange(at, at + 8))
}

/// `dim` components stored from `at`.
pub open spec fn components_at(d: Seq<u8>, at: int, dim: nat) -> Seq<u32> {
    Seq::new(dim, |i: int| le32(d, at + 4 * i))
}

/// A stored entry as bytes: id bytes, hash, components.
pub type RawEntry = (Seq<u8>, Seq<u8>, Seq<u32>);

/// The `n` entries stored from `at`, or the first truncation met.
pub open spec fn read_entries(d: Seq<u8>, at: int, n: nat, dim: nat) -> Result<Seq<(Seq<u8>, Seq<u8>, Seq<u32>)>, Seq<char>>
    decreases n,
{
    if n == 0 {
        Ok(Seq::empty())
    } else if at + 4 > d.len() {
        Err("truncated file: id_len"@)
    } else {
        let idl = le32(d, at) as int;
        let o1 = at + 4;
        if o1 + idl > d.len() {
            Err("truncated file: id"@)
        } else {
            let o2 = o1 + pad8(idl);
            if o2 + 32 > d.len() {
                Err("truncated file: hash"@)
            } else {
                let o3 = o2 + 32;
                if o3 + 4 * dim > d.len() {
                    Err("truncated file: vector"@)
                } else {
                    let e = (d.subrange(o1, o1 + idl), d.subrange(o2, o3), components_at(d, o3, dim));
                    match read_entries(d, o3 + 4 * dim, (n - 1) as nat, dim) {
                        Err(m) => Err(m),
                        Ok(rest) => Ok(seq![e] + rest),
                    }
                }
            }
        }
    }
}

/// A header as stored: magic, version, dimension, count, name length, name bytes.
pub open spec fn read_header(d: Seq<u8>) -> (Seq<u8>, u32, u32, u64, u32, Seq<u8>) {
    (d.subrange(0, 4), le32(d, 4), le32(d, 8), le64(d, 12), le32(d, 20), d.subrange(24, 24 + le32(d, 20)))
}

/// Where the entries start: after the padded model name, at most the end of the data.
pub open spec fn entries_start(d: Seq<u8>) -> int {
    let p = 24 + pad32(le32(d, 20) as int);
    if p < d.len() {
        p
    } else {
        d.len() as int
    }
}

/// Reading of a file at the byte level: the header and the entries, or the
/// message of the first check that fails.
pub open spec fn read_raw(d: Seq<u8>) -> Result<
    ((Seq<u8>, u32, u32, u64, u32, Seq<u8>), Seq<(Seq<u8>, Seq<u8>, Seq<u32>)>),
    Seq<char>,
> {
    if d.len() < 24 {
        Err("file too short"@)
    } else if d.subrange(0, 4) != magic() {
        Err("invalid magic bytes"@)
    } else if le32(d, 4) != 1 {
        Err("unsupported version: "@ + decimal(le32(d, 4) as nat))
    } else if 24 + le32(d, 20) > d.len() {
        Err("truncated file: model_name"@)
    } else {
        match read_entries(d, entries_start(d), le64(d, 12) as nat, le32(d, 8) as nat) {
            Err(m) => Err(m),
            Ok(es) => Ok((read_header(d), es)),
        }
    }
}

/// Header of a `vectors.bin` file.
#[derive(Debug)]
pub struct VectorsHeader {
    pub magic: Vec<u8>,
    pub version: u32,
    pub dim: u32,
    pub count: u64,
    pub model_name_len: u32,
    pub model_name: String,
}

/// One stored entry: section id, content hash and component bit patterns.
#[derive(Debug)]
pub struct VectorEntry {
    pub id: String,
    pub hash: Vec<u8>,
    pub vector: Vec<u32>,
}

/// The header read matches the stored one, its name decoded from its bytes.
pub open spec fn header_matches(h: VectorsHeader, raw: (Seq<u8>, u32, u32, u64, u32, Seq<u8>)) -> bool {
    &&& h.magic@ == raw.0
    &&& h.version == raw.1
    &&& h.dim == raw.2
    &&& h.count == raw.3
    &&& h.model_name_len == raw.4
    &&& h.model_name@ == spec_utf8_lossy(raw.5)
    &&& forall|s: Seq<char>| #[trigger] utf8_encode(s) == raw.5 ==> h.model_name@ == s
}

/// An entry read matches the stored one, its id decoded from its bytes.
pub open spec fn entry_matches(e: VectorEntry, raw: (Seq<u8>, Seq<u8>, Seq<u32>)) -> bool {
    &&& e.id@ == spec_utf8_lossy(raw.0)
    &&& forall|s: Seq<char>| #[trigger] utf8_encode(s) == raw.0 ==> e.id@ == s
    &&& e.hash@ == raw.1
    &&& e.vector@ == raw.2
}

/// Plain view of an entry read: id, hash, components.
pub open spec fn entry_views(es: Seq<VectorEntry>) -> Seq<(Seq<char>, Seq<u8>, Seq<u32>)> {
    es.map_values(|e: VectorEntry| (e.id@, e.hash@, e.vector@))
}

/// The last position of an entry with id `id`.
pub open spec fn find_id(es: Seq<(Seq<char>, Seq<u8>, Seq<u32>)>, id: Seq<char>) -> Option<int>
    decreases es.len(),
{
    if es.len() == 0 {
        None
    } else if es.last().0 == id {
        Some(es.len() - 1)
    } else {
        find_id(es.drop_last(), id)
    }
}

/// Entries keyed by id: one per id, in the order in which ids first occur,
/// each the last entry stored under its id.
pub open spec fn keep_last(es: Seq<(Seq<char>, Seq<u8>, Seq<u32>)>) -> Seq<(Seq<char>, Seq<u8>, Seq<u32>)>
    decreases es.len(),
{
    if es.len() == 0 {
        Seq::empty()
    } else {
        let prev = keep_last(es.drop_last());
        match find_id(prev, es.last().0) {
            Some(p) => prev.update(p, es.last()),
            None => prev.push(es.last()),
        }
    }
}

/// No two of the entries to write share an id.
pub open spec fn distinct_ids(es: Seq<(Seq<char>, Seq<u32>)>) -> bool {
    forall|i: int, j: int| 0 <= i < j < es.len() ==> #[trigger] es[i].0 != #[trigger] es[j].0
}

/// No two of the entries read share an id.
pub open spec fn distinct_entry_ids(es: Seq<(Seq<char>, Seq<u8>, Seq<u32>)>) -> bool {
    forall|i: int, j: int| 0 <= i < j < es.len() ==> #[trigger] es[i].0 != #[trigger] es[j].0
}

/// The entries read match the stored ones, in order.
pub open spec fn entries_match(es: Seq<VectorEntry>, raw: Seq<(Seq<u8>, Seq<u8>, Seq<u32>)>) -> bool {
    es.len() == raw.len() && forall|k: int| 0 <= k < es.len() ==> entry_matches(#[trigger] es[k], raw[k])
}

fn read_u32(d: &[u8], at: usize) -> (x: u32)
    requires
        at + 4 <= d@.len(),
    ensures
        x == le32(d@, at as int),
{
    let mut tmp: Vec<u8> = Vec::new();
    tmp.push(d[at]);
    tmp.push(d[at + 1]);
    tmp.push(d[at + 2]);
    tmp.push(d[at + 3]);
    proof {
        assert(tmp@ == d@.subrange(at as int, at + 4));
    }
    u32_from_le_bytes(tmp.as_slice())
}

fn read_u64(d: &[u8], at: usize) -> (x: u64)
    requires
        at + 8 <= d@.len(),
    ensures
        x == le64(d@, at as int),
{
    let mut tmp: Vec<u8> = Vec::new();
    let mut i: usize = 0;
    let n = d.len();
    while i < 8
        invariant
            i <= 8,
            n == d@.len(),
            at + 8 <= d@.len(),
            tmp@ == d@.subrange(at as int, at + i),
        decreases 8 - i,
    {
        tmp.push(d[at + i]);
        proof {
            assert(d@.subrange(at as int, at + i + 1) == d@.subrange(at as int, at + i).push(d@[at + i]));
        }
        i = i + 1;
    }
    u64_from_le_bytes(tmp.as_slice())
}

fn copy_range(d: &[u8], lo: usize, hi: usize) -> (res: Vec<u8>)
    requires
        lo <= hi <= d@.len(),
    ensures
        res@ == d@.subrange(lo as int, hi as int),
{
    let mut out: Vec<u8> = Vec::new();
    let mut i = lo;
    while i < hi
        invariant
            lo <= i <= hi <= d@.len(),
            out@ == d@.subrange(lo as int, i as int),
        decreases hi - i,
    {
        out.push(d[i]);
        proof {
            assert(d@.subrange(lo as int, i + 1) == d@.subrange(lo as int, i as int).push(d@[i as int]));
        }
        i = i + 1;
    }
    out
}

fn error_text(m: &str) -> (res: String)
    ensures
        res@ == m@,
{
    owned(m)
}

/// Reads one entry at `at`: the entry and the index after it, or the message of
/// the truncation met.
fn read_entry(d: &[u8], at: usize, dim: u32) -> (res: Result<(VectorEntry, usize), String>)
    requires
        at <= d@.len(),
    ensures
        match read_entries(d@, at as int, 1, dim as nat) {
            Err(m) => res matches Err(r) && r@ == m && forall|n: nat| #[trigger] read_entries(d@, at as int, n + 1, dim as nat) == Err::<Seq<(Seq<u8>, Seq<u8>, Seq<u32>)>, Seq<char>>(m),
            Ok(es) => res matches Ok((e, next)) && entry_matches(e, es[0]) && next <= d@.len()
                && next == at + 4 + pad8(le32(d@, at as int) as int) + 32 + 4 * dim
                && forall|n: nat| #[trigger] read_entries(d@, at as int, n + 1, dim as nat) == (match read_entries(d@, next as int, n, dim as nat) {
                    Err(m) => Err(m),
                    Ok(rest) => Ok(seq![es[0]] + rest),
                }),
        },
{
    proof {
        reveal_strlit("truncated file: id_len");
        reveal_strlit("truncated file: id");
        reveal_strlit("truncated file: hash");
        reveal_strlit("truncated file: vector");
    }
    let len = d.len();
    if len - at < 4 {
        return Err(error_text("truncated file: id_len"));
    }
    let id_len = read_u32(d, at) as usize;
    let o1 = at + 4;
    if id_len > len - o1 {
        return Err(error_text("truncated file: id"));
    }
    let id_rem = id_len % 8;
    let id_pad: usize = if id_rem == 0 { 0 } else { 8 - id_rem };
    proof {
        assert(id_len + id_pad == pad8(id_len as int));
    }
    if id_pad > len - o1 - id_len || 32 > len - o1 - id_len - id_pad {
        return Err(error_text("truncated file: hash"));
    }
    let o2 = o1 + id_len + id_pad;
    let o3 = o2 + 32;
    if (dim as u64) * 4 > (len - o3) as u64 {
        return Err(error_text("truncated file: vector"));
    }
    let id_bytes = copy_range(d, o1, o1 + id_len);
    let id = utf8_lossy(id_bytes.as_slice());
    let hash = copy_range(d, o2, o3);
    let mut vector: Vec<u32> = Vec::new();
    let mut off = o3;
    let mut i: u32 = 0;
    while i < dim
        invariant
            i <= dim,
            len == d@.len(),
            o3 + 4 * dim <= d@.len(),
            off == o3 + 4 * i,
            vector@ == components_at(d@, o3 as int, dim as nat).take(i as int),
        decreases dim - i,
    {
        let x = read_u32(d, off);
        vector.push(x);
        proof {
            assert(components_at(d@, o3 as int, dim as nat).take(i + 1) == components_at(
                d@,
                o3 as int,
                dim as nat,
            ).take(i as int).push(x));
        }
        off = off + 4;
        i = i + 1;
    }
    proof {
        assert(components_at(d@, o3 as int, dim as nat).take(dim as int) == components_at(d@, o3 as int, dim as nat));
        let e = (d@.subrange(o1 as int, o1 + id_len), d@.subrange(o2 as int, o3 as int), components_at(d@, o3 as int, dim as nat));
        assert(read_entries(d@, off as int, 0, dim as nat) == Ok::<Seq<(Seq<u8>, Seq<u8>, Seq<u32>)>, Seq<char>>(Seq::empty()));
        assert(seq![e] + Seq::<(Seq<u8>, Seq<u8>, Seq<u32>)>::empty() == seq![e]);
    }
    Ok((VectorEntry { id, hash, vector }, off))
}

fn copy_entry(e: &VectorEntry) -> (r: VectorEntry)
    ensures
        (r.id@, r.hash@, r.vector@) == (e.id@, e.hash@, e.vector@),
{
    let mut vector: Vec<u32> = Vec::new();
    let mut i: usize = 0;
    while i < e.vector.len()
        invariant
            i <= e.vector@.len(),
            vector@ == e.vector@.take(i as int),
        decreases e.vector.len() - i,
    {
        vector.push(e.vector[i]);
        proof {
            assert(e.vector@.take(i + 1) == e.vector@.take(i as int).push(e.vector@[i as int]));
        }
        i = i + 1;
    }
    proof {
        assert(e.vector@.take(e.vector@.len() as int) == e.vector@);
    }
    let hash = copy_range(e.hash.as_slice(), 0, e.hash.len());
    proof {
        assert(e.hash@.subrange(0, e.hash@.len() as int) == e.hash@);
    }
    VectorEntry { id: owned(e.id.as_str()), hash, vector }
}

proof fn lemma_find_id_bound(es: Seq<(Seq<char>, Seq<u8>, Seq<u32>)>, id: Seq<char>)
    ensures
        find_id(es, id) matches Some(p) ==> 0 <= p < es.len() && es[p].0 == id,
        find_id(es, id) is None ==> forall|k: int| 0 <= k < es.len() ==> es[k].0 != id,
    decreases es.len(),
{
    if es.len() > 0 {
        lemma_find_id_bound(es.drop_last(), id);
        assert forall|k: int| 0 <= k < es.len() - 1 implies es.drop_last()[k] == es[k] by {}
    }
}

/// Entries keyed by id: one per id, in the order in which ids first occur,
/// each the last entry stored under its id.
pub fn keep_last_per_id(all: &Vec<VectorEntry>) -> (res: Vec<VectorEntry>)
    ensures
        entry_views(res@) == keep_last(entry_views(all@)),
{
    let ghost av = entry_views(all@);
    let mut out: Vec<VectorEntry> = Vec::new();
    let mut i: usize = 0;
    proof {
        assert(av.take(0) =~= Seq::<(Seq<char>, Seq<u8>, Seq<u32>)>::empty());
        assert(entry_views(out@) =~= Seq::<(Seq<char>, Seq<u8>, Seq<u32>)>::empty());
    }
    while i < all.len()
        invariant
            i <= all@.len(),
            av == entry_views(all@),
            entry_views(out@) == keep_last(av.take(i as int)),
        decreases all.len() - i,
    {
        let e = copy_entry(&all[i]);
        let ghost ov = entry_views(out@);
        proof {
            assert(av.take(i + 1).drop_last() =~= av.take(i as int));
            assert(av.take(i + 1).last() == (e.id@, e.hash@, e.vector@));
            lemma_find_id_bound(ov, e.id@);
        }
        let mut j: usize = out.len();
        let mut found = false;
        proof {
            assert(ov.take(j as int) =~= ov);
        }
        while j > 0 && !found
            invariant
                j <= out@.len(),
                ov == entry_views(out@),
                find_id(ov, e.id@) == find_id(ov.take(j as int), e.id@),
                found ==> j > 0 && ov[j - 1].0 == e.id@,
            decreases j + (if found { 0int } else { 1int }),
        {
            proof {
                assert(ov.take(j as int).drop_last() =~= ov.take(j - 1));
                assert(ov.take(j as int).last() == ov[j - 1]);
            }
            if crate::text::str_eq(out[j - 1].id.as_str(), e.id.as_str()) {
                found = true;
            } else {
                j = j - 1;
            }
        }
        proof {
            if !found {
                assert(ov.take(0) =~= Seq::<(Seq<char>, Seq<u8>, Seq<u32>)>::empty());
            } else {
                assert(ov.take(j as int).last() == ov[j - 1]);
            }
        }
        let ghost ev = (e.id@, e.hash@, e.vector@);
        if found {
            let p = j - 1;
            proof {
                assert(find_id(ov, e.id@) == Some(p as int));
            }
            out.set(p, e);
            proof {
                assert(entry_views(out@) =~= ov.update(p as int, ev));
            }
        } else {
            out.push(e);
            proof {
                assert(entry_views(out@) =~= ov.push(ev));
            }
        }
        i = i + 1;
    }
    proof {
        assert(av.take(all@.len() as int) =~= av);
    }
    out
}

impl VectorsBin {
    /// Reads a file: its header and its entries keyed by id, one per id, the
    /// last one stored under an id winning, or the message of the first check
    /// that fails (`file too short`, `invalid magic bytes`, `unsupported
    /// version: N`, `truncated file: ...`).
    pub fn read(data: &[u8]) -> (res: Result<(VectorsHeader, Vec<VectorEntry>), String>)
        ensures
            match read_raw(data@) {
                Err(m) => res matches Err(r) && r@ == m,
                Ok((h, es)) => res matches Ok((rh, res_es)) && header_matches(rh, h) && distinct_entry_ids(
                    entry_views(res_es@),
                ) && exists|all: Seq<VectorEntry>|
                    entries_match(all, es) && entry_views(res_es@) == keep_last(entry_views(all)),
            },
    {
        match Self::read_records(data) {
            Err(m) => Err(m),
            Ok((h, all)) => {
                let keyed = keep_last_per_id(&all);
                proof {
                    lemma_keep_last_keys(entry_views(all@));
                }
                Ok((h, keyed))
            },
        }
    }

    /// Reads a file: its header and all its entries in file order, or the
    /// message of the first check that fails.
    pub fn read_records(data: &[u8]) -> (res: Result<(VectorsHeader, Vec<VectorEntry>), String>)
        ensures
            match read_raw(data@) {
                Err(m) => res matches Err(r) && r@ == m,
                Ok((h, es)) => res matches Ok((rh, res_es)) && header_matches(rh, h) && entries_match(res_es@, es),
            },
    {
        proof {
            reveal_strlit("file too short");
            reveal_strlit("invalid magic bytes");
            reveal_strlit("unsupported version: ");
            reveal_strlit("truncated file: model_name");
        }
        let len = data.len();
        if len < 24 {
            return Err(error_text("file too short"));
        }
        let magic_bytes = copy_range(data, 0, 4);
        if !(magic_bytes[0] == 87u8 && magic_bytes[1] == 77u8 && magic_bytes[2] == 86u8 && magic_bytes[3] == 0u8) {
            proof {
                if data@.subrange(0, 4) == magic() {
                    assert(magic_bytes@[0] == 87u8 && magic_bytes@[1] == 77u8 && magic_bytes@[2] == 86u8
                        && magic_bytes@[3] == 0u8);
                }
            }
            return Err(error_text("invalid magic bytes"));
        }
        proof {
            assert(magic_bytes@ =~= magic());
        }
        let version = read_u32(data, 4);
        if version != 1 {
            let mut msg = owned("unsupported version: ");
            let v = u64_text(version as u64);
            push_str(&mut msg, v.as_str());
            return Err(msg);
        }
        let dim = read_u32(data, 8);
        let count = read_u64(data, 12);
        let name_len_u32 = read_u32(data, 20);
        let name_len = name_len_u32 as usize;
        if name_len > len - 24 {
            return Err(error_text("truncated file: model_name"));
        }
        let name_bytes = copy_range(data, 24, 24 + name_len);
        let model_name = utf8_lossy(name_bytes.as_slice());
        let name_rem = name_len % 32;
        let name_pad: usize = if name_rem == 0 { 0 } else { 32 - name_rem };
        proof {
            assert(name_len + name_pad == pad32(name_len as int));
        }
        let offset0: usize = if name_pad < len - 24 - name_len { 24 + name_len + name_pad } else { len };
        proof {
            assert(offset0 == entries_start(data@));
        }
        let mut offset = offset0;
        let mut entries: Vec<VectorEntry> = Vec::new();
        let mut i: u64 = 0;
        proof {
            assert(Seq::<(Seq<u8>, Seq<u8>, Seq<u32>)>::empty() + Seq::<(Seq<u8>, Seq<u8>, Seq<u32>)>::empty()
                =~= Seq::<(Seq<u8>, Seq<u8>, Seq<u32>)>::empty());
        }
        let ghost mut done: Seq<(Seq<u8>, Seq<u8>, Seq<u32>)> = Seq::empty();
        proof {
            assert(data@.subrange(0, 4) =~= magic());
        }
        let ghost whole = read_raw(data@);
        proof {
            assert(whole == (match read_entries(data@, offset0 as int, count as nat, dim as nat) {
                Err(m) => Err(m),
                Ok(es) => Ok((read_header(data@), es)),
            }));
        }
        while i < count
            invariant
                i <= count,
                whole == read_raw(data@),
                whole == (match read_entries(data@, offset0 as int, count as nat, dim as nat) {
                    Err(m) => Err(m),
                    Ok(es) => Ok((read_header(data@), es)),
                }),
                offset <= data@.len(),
                entries_match(entries@, done),
                read_entries(data@, offset0 as int, count as nat, dim as nat) == (match read_entries(
                    data@,
                    offset as int,
                    (count - i) as nat,
                    dim as nat,
                ) {
                    Err(m) => Err(m),
                    Ok(rest) => Ok(done + rest),
                }),
            decreases count - i,
        {
            match read_entry(data, offset, dim) {
                Err(m) => {
                    proof {
                        let n = (count - i - 1) as nat;
                        assert(read_entries(data@, offset as int, n + 1, dim as nat) == Err::<Seq<(Seq<u8>, Seq<u8>, Seq<u32>)>, Seq<char>>(m@));
                    }
                    return Err(m);
                },
                Ok((e, next)) => {
                    proof {
                        let one = read_entries(data@, offset as int, 1, dim as nat);
                        let n = (count - i - 1) as nat;
                        assert(read_entries(data@, offset as int, n + 1, dim as nat) == (match read_entries(data@, next as int, n, dim as nat) {
                            Err(m) => Err(m),
                            Ok(rest) => Ok(seq![one->Ok_0[0]] + rest),
                        }));
                        match read_entries(data@, next as int, n, dim as nat) {
                            Ok(rest) => {
                                assert(done + (seq![one->Ok_0[0]] + rest) == done.push(one->Ok_0[0]) + rest);
                            },
                            Err(_) => {},
                        }
                    }
                    let ghost raw_e = read_entries(data@, offset as int, 1, dim as nat)->Ok_0[0];
                    let ghost old_entries = entries@;
                    entries.push(e);
                    proof {
                        done = done.push(raw_e);
                        assert forall|k: int| 0 <= k < entries@.len() implies entry_matches(#[trigger] entries@[k], done[k]) by {
                            if k < old_entries.len() {
                                assert(entries@[k] == old_entries[k]);
                            }
                        }
                    }
                    offset = next;
                },
            }
            i = i + 1;
        }
        proof {
            assert(done + Seq::<(Seq<u8>, Seq<u8>, Seq<u32>)>::empty() == done);
        }
        let header = VectorsHeader { magic: magic_bytes, version, dim, count, model_name_len: name_len_u32, model_name };
        Ok((header, entries))
    }
}

// ─── Round trip ─────────────────────────────────────────────

proof fn lemma_components_bytes(v: Seq<u32>)
    ensures
        components_bytes(v).len() == 4 * v.len(),
        forall|i: int| 0 <= i < v.len() ==> #[trigger] components_bytes(v).subrange(4 * i, 4 * i + 4)
            == spec_u32_to_le_bytes(v[i]),
    decreases v.len(),
{
    vstd::bytes::lemma_auto_spec_u32_to_from_le_bytes();
    vstd::bytes::lemma_auto_spec_u64_to_from_le_bytes();
    if v.len() > 0 {
        let w = v.drop_last();
        lemma_components_bytes(w);
        let a = components_bytes(w);
        let b = spec_u32_to_le_bytes(v.last());
        assert forall|i: int| 0 <= i < v.len() implies #[trigger] components_bytes(v).subrange(4 * i, 4 * i + 4)
            == spec_u32_to_le_bytes(v[i]) by {
            if i < w.len() {
                assert((a + b).subrange(4 * i, 4 * i + 4) == a.subrange(4 * i, 4 * i + 4));
                assert(w[i] == v[i]);
            } else {
                assert((a + b).subrange(4 * i, 4 * i + 4) == b);
            }
        }
    }
}

proof fn lemma_components_read(pre: Seq<u8>, v: Seq<u32>, post: Seq<u8>)
    ensures
        components_at(pre + components_bytes(v) + post, pre.len() as int, v.len()) == v,
{
    lemma_components_bytes(v);
    vstd::bytes::lemma_auto_spec_u32_to_from_le_bytes();
    vstd::bytes::lemma_auto_spec_u64_to_from_le_bytes();
    let d = pre + components_bytes(v) + post;
    let c = components_bytes(v);
    assert forall|i: int| 0 <= i < v.len() implies #[trigger] components_at(d, pre.len() as int, v.len())[i] == v[i] by {
        assert(d.subrange(pre.len() + 4 * i, pre.len() + 4 * i + 4) == c.subrange(4 * i, 4 * i + 4));
    }
    assert(components_at(d, pre.len() as int, v.len()) =~= v);
}

proof fn lemma_entries_bytes_front(es: Seq<(Seq<char>, Seq<u32>)>, hs: Seq<(Seq<char>, Seq<u8>)>)
    requires
        es.len() > 0,
    ensures
        entries_bytes(es, hs) == entry_bytes(es[0].0, hash_for(hs, es[0].0), es[0].1) + entries_bytes(
            es.drop_first(),
            hs,
        ),
    decreases es.len(),
{
    let f = es[0];
    let first = entry_bytes(f.0, hash_for(hs, f.0), f.1);
    let l = es.last();
    let last = entry_bytes(l.0, hash_for(hs, l.0), l.1);
    if es.len() > 1 {
        lemma_entries_bytes_front(es.drop_last(), hs);
        assert(es.drop_last().drop_first() == es.drop_first().drop_last());
        assert(es.drop_first().last() == es.last());
        assert(es.drop_last()[0] == es[0]);
        let mid = entries_bytes(es.drop_first().drop_last(), hs);
        assert(entries_bytes(es.drop_first(), hs) == mid + last);
        assert(entries_bytes(es, hs) == (first + mid) + last);
        assert((first + mid) + last =~= first + (mid + last));
    } else {
        assert(es.drop_first().len() == 0);
        assert(es.drop_last().len() == 0);
        assert(es.drop_last() =~= Seq::<(Seq<char>, Seq<u32>)>::empty());
        assert(entries_bytes(es.drop_last(), hs) == Seq::<u8>::empty());
        assert(entries_bytes(es, hs) == Seq::<u8>::empty() + last);
        assert(entries_bytes(es.drop_first(), hs) == Seq::<u8>::empty());
        assert(Seq::<u8>::empty() + last =~= first + Seq::<u8>::empty());
    }
}

proof fn lemma_hash_for_len(hs: Seq<(Seq<char>, Seq<u8>)>, id: Seq<char>)
    requires
        hashes_wf(hs),
    ensures
        hash_for(hs, id).len() == 32,
    decreases hs.len(),
{
    if hs.len() > 0 && hs[0].0 != id {
        assert forall|k: int| 0 <= k < hs.drop_first().len() implies (#[trigger] hs.drop_first()[k]).1.len() == 32 by {
            assert(hs.drop_first()[k] == hs[k + 1]);
        }
        lemma_hash_for_len(hs.drop_first(), id);
    }
}

/// What reading gives back of a list of entries.
pub open spec fn written_entries(es: Seq<(Seq<char>, Seq<u32>)>, hs: Seq<(Seq<char>, Seq<u8>)>) -> Seq<
    (Seq<u8>, Seq<u8>, Seq<u32>),
> {
    es.map_values(|e: (Seq<char>, Seq<u32>)| (utf8_encode(e.0), hash_for(hs, e.0), e.1))
}

proof fn lemma_read_entries_written(
    pre: Seq<u8>,
    es: Seq<(Seq<char>, Seq<u32>)>,
    hs: Seq<(Seq<char>, Seq<u8>)>,
    dim: nat,
)
    requires
        hashes_wf(hs),
        forall|k: int| 0 <= k < es.len() ==> (#[trigger] es[k]).1.len() == dim && utf8_encode(es[k].0).len() <= u32::MAX,
    ensures
        read_entries(pre + entries_bytes(es, hs), pre.len() as int, es.len(), dim) == Ok::<Seq<(Seq<u8>, Seq<u8>, Seq<u32>)>, Seq<char>>(written_entries(es, hs)),
    decreases es.len(),
{
    vstd::bytes::lemma_auto_spec_u32_to_from_le_bytes();
    vstd::bytes::lemma_auto_spec_u64_to_from_le_bytes();
    if es.len() == 0 {
        assert(written_entries(es, hs) =~= Seq::<(Seq<u8>, Seq<u8>, Seq<u32>)>::empty());
    } else {
        let e = es[0];
        let rest = es.drop_first();
        lemma_entries_bytes_front(es, hs);
        let ib = utf8_encode(e.0);
        let h = hash_for(hs, e.0);
        lemma_hash_for_len(hs, e.0);
        lemma_components_bytes(e.1);
        let eb = entry_bytes(e.0, h, e.1);
        let tail = entries_bytes(rest, hs);
        let d = pre + entries_bytes(es, hs);
        assert(d == (pre + eb) + tail);
        let at = pre.len() as int;
        let idl = ib.len() as int;
        let padding = zeros(pad8(idl) - idl);
        let lenb = spec_u32_to_le_bytes(ib.len() as u32);
        assert(eb == lenb + ib + padding + h + components_bytes(e.1));
        assert(d.subrange(at, at + 4) == lenb);
        assert(le32(d, at) == ib.len());
        let o1 = at + 4;
        assert(d.subrange(o1, o1 + idl) == ib);
        let o2 = o1 + pad8(idl);
        assert(d.subrange(o2, o2 + 32) == h);
        let o3 = o2 + 32;
        assert(e.1.len() == dim);
        lemma_components_read(pre + lenb + ib + padding + h, e.1, tail);
        assert(pre + lenb + ib + padding + h + components_bytes(e.1) + tail == d);
        assert(components_at(d, o3, dim) == e.1);
        assert(o3 + 4 * dim == (pre + eb).len());
        assert forall|k: int| 0 <= k < rest.len() implies (#[trigger] rest[k]).1.len() == dim && utf8_encode(rest[k].0).len() <= u32::MAX by {
            assert(rest[k] == es[k + 1]);
        }
        lemma_read_entries_written(pre + eb, rest, hs, dim);
        assert(written_entries(es, hs) =~= seq![(ib, h, e.1)] + written_entries(rest, hs));
    }
}

/// A file written by `VectorsBin::write` reads back as what was written: the
/// header holds the magic bytes, version 1, the entries' dimension, their
/// count and the model name's length and bytes, and the entries come back in
/// order with their ids' bytes, their stored hashes and their components —
/// when every entry has the dimension of the first.
pub proof fn lemma_write_then_read(
    name: Seq<char>,
    es: Seq<(Seq<char>, Seq<u32>)>,
    hs: Seq<(Seq<char>, Seq<u8>)>,
)
    requires
        utf8_encode(name).len() <= u32::MAX,
        es.len() <= u64::MAX,
        dim_of(es) <= u32::MAX,
        forall|k: int| 0 <= k < es.len() ==> (#[trigger] es[k]).1.len() == dim_of(es) && utf8_encode(es[k].0).len() <= u32::MAX,
        hashes_wf(hs),
    ensures
        read_raw(vectors_file(name, es, hs)) == Ok::<((Seq<u8>, u32, u32, u64, u32, Seq<u8>), Seq<(Seq<u8>, Seq<u8>, Seq<u32>)>), Seq<char>>((
            (magic(), 1u32, dim_of(es) as u32, es.len() as u64, utf8_encode(name).len() as u32, utf8_encode(name)),
            written_entries(es, hs),
        )),
{
    vstd::bytes::lemma_auto_spec_u32_to_from_le_bytes();
    vstd::bytes::lemma_auto_spec_u64_to_from_le_bytes();
    let nb = utf8_encode(name);
    let hb = header_bytes(name, dim_of(es), es.len() as int);
    let eb = entries_bytes(es, hs);
    let d = vectors_file(name, es, hs);
    let v1 = spec_u32_to_le_bytes(1);
    let vd = spec_u32_to_le_bytes(dim_of(es) as u32);
    let vc = spec_u64_to_le_bytes(es.len() as u64);
    let vn = spec_u32_to_le_bytes(nb.len() as u32);
    let pad = zeros(pad32(nb.len() as int) - nb.len());
    assert(hb == magic() + v1 + vd + vc + vn + nb + pad);
    assert(d == hb + eb);
    assert(d.subrange(0, 4) == magic());
    assert(d.subrange(4, 8) == v1);
    assert(d.subrange(8, 12) == vd);
    assert(d.subrange(12, 20) == vc);
    assert(d.subrange(20, 24) == vn);
    assert(d.subrange(24, 24 + nb.len() as int) == nb);
    assert(le32(d, 20) == nb.len());
    assert(hb.len() == 24 + pad32(nb.len() as int));
    assert(entries_start(d) == hb.len());
    lemma_read_entries_written(hb, es, hs, dim_of(es) as nat);
    assert(le32(d, 8) == dim_of(es));
    assert(le64(d, 12) == es.len());
}

proof fn lemma_keep_last_distinct(s: Seq<(Seq<char>, Seq<u8>, Seq<u32>)>)
    requires
        distinct_entry_ids(s),
    ensures
        keep_last(s) == s,
    decreases s.len(),
{
    if s.len() > 0 {
        let p = s.drop_last();
        assert forall|i: int, j: int| 0 <= i < j < p.len() implies #[trigger] p[i].0 != #[trigger] p[j].0 by {
            assert(p[i] == s[i] && p[j] == s[j]);
        }
        lemma_keep_last_distinct(p);
        lemma_find_id_bound(p, s.last().0);
        if find_id(p, s.last().0) is Some {
            let q = find_id(p, s.last().0)->0;
            assert(p[q] == s[q]);
        }
        assert(p.push(s.last()) =~= s);
    }
}

/// Under each id, reading gives back what was written: when the written ids
/// are distinct and the file can be written, the entries read, keyed by id,
/// are the written ones in order, each with its stored hash (or 32 zero
/// bytes) and its components.
pub proof fn lemma_write_then_read_by_id(
    name: Seq<char>,
    es: Seq<(Seq<char>, Seq<u32>)>,
    hs: Seq<(Seq<char>, Seq<u8>)>,
    all: Seq<VectorEntry>,
)
    requires
        utf8_encode(name).len() <= u32::MAX,
        es.len() <= u64::MAX,
        dim_of(es) <= u32::MAX,
        forall|k: int| 0 <= k < es.len() ==> (#[trigger] es[k]).1.len() == dim_of(es) && utf8_encode(es[k].0).len() <= u32::MAX,
        hashes_wf(hs),
        distinct_ids(es),
        entries_match(all, written_entries(es, hs)),
    ensures
        read_raw(vectors_file(name, es, hs)) is Ok,
        keep_last(entry_views(all)) == es.map_values(|e: (Seq<char>, Seq<u32>)| (e.0, hash_for(hs, e.0), e.1)),
{
    lemma_write_then_read(name, es, hs);
    let target = es.map_values(|e: (Seq<char>, Seq<u32>)| (e.0, hash_for(hs, e.0), e.1));
    let w = written_entries(es, hs);
    assert forall|k: int| 0 <= k < all.len() implies entry_views(all)[k] == target[k] by {
        assert(entry_matches(all[k], w[k]));
        assert(w[k].0 == utf8_encode(es[k].0));
        assert(all[k].id@ == es[k].0);
    }
    assert(entry_views(all) =~= target);
    assert forall|i: int, j: int| 0 <= i < j < target.len() implies #[trigger] target[i].0 != #[trigger] target[j].0 by {
        assert(target[i].0 == es[i].0 && target[j].0 == es[j].0);
    }
    lemma_keep_last_distinct(target);
}

/// Entries keyed by id have distinct ids, and keep every id of the entries.
pub proof fn lemma_keep_last_keys(s: Seq<(Seq<char>, Seq<u8>, Seq<u32>)>)
    ensures
        distinct_entry_ids(keep_last(s)),
        forall|k: int| 0 <= k < s.len() ==> find_id(keep_last(s), #[trigger] s[k].0) is Some,
    decreases s.len(),
{
    if s.len() > 0 {
        let p = s.drop_last();
        let x = s.last();
        let prev = keep_last(p);
        lemma_keep_last_keys(p);
        lemma_find_id_bound(prev, x.0);
        let r = keep_last(s);
        match find_id(prev, x.0) {
            Some(q) => {
                assert(r == prev.update(q, x));
                assert forall|i: int, j: int| 0 <= i < j < r.len() implies #[trigger] r[i].0 != #[trigger] r[j].0 by {
                    assert(r[i].0 == prev[i].0 && r[j].0 == prev[j].0);
                }
            },
            None => {
                assert(r == prev.push(x));
                assert forall|i: int, j: int| 0 <= i < j < r.len() implies #[trigger] r[i].0 != #[trigger] r[j].0 by {
                    if j < prev.len() {
                        assert(r[i] == prev[i] && r[j] == prev[j]);
                    } else {
                        assert(r[i] == prev[i]);
                    }
                }
            },
        }
        assert forall|k: int| 0 <= k < s.len() implies find_id(r, #[trigger] s[k].0) is Some by {
            lemma_find_id_bound(r, s[k].0);
            if k < p.len() {
                assert(p[k] == s[k]);
                lemma_find_id_bound(prev, p[k].0);
                let q = find_id(prev, p[k].0)->0;
                assert(r[q].0 == prev[q].0);
            } else {
                assert(s[k] == x);
                let q = if find_id(prev, x.0) is Some { find_id(prev, x.0)->0 } else { prev.len() as int };
                assert(r[q].0 == x.0);
            }
        }
    }
}

} // verus!
