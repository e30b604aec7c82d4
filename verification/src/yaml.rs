//! YAML documents as values: the editing steps applied to front matter (a
//! field set, a key removed, an acceptance criterion checked), and one edit
//! of a YAML text through a reader and a writer of YAML text.
use vstd::prelude::*;
use crate::text::{owned, str_eq};

verus! {

// ─── Values ─────────────────────────────────────────────────

/// A YAML value: null, a boolean, a number (its text), a string, a
/// sequence, a mapping (its entries in order), or a tagged value.
#[derive(Debug)]
pub enum YamlValue {
    Null,
    Bool(bool),
    Number(String),
    String(String),
    Sequence(Vec<YamlValue>),
    Mapping(Vec<(YamlValue, YamlValue)>),
    Tagged(String, Box<YamlValue>),
}

/// Plain view of a YAML value.
pub enum YamlView {
    Null,
    Bool(bool),
    Number(Seq<char>),
    Str(Seq<char>),
    List(Seq<YamlView>),
    Dict(Seq<(YamlView, YamlView)>),
    Tagged(Seq<char>, Box<YamlView>),
}

/// View of a YAML value.
pub open spec fn yv(v: YamlValue) -> YamlView
    decreases v,
{
    match v {
        YamlValue::Null => YamlView::Null,
        YamlValue::Bool(b) => YamlView::Bool(b),
        YamlValue::Number(t) => YamlView::Number(t@),
        YamlValue::String(s) => YamlView::Str(s@),
        YamlValue::Sequence(items) => YamlView::List(yvs(items@)),
        YamlValue::Mapping(es) => YamlView::Dict(yentries(es@)),
        YamlValue::Tagged(t, b) => YamlView::Tagged(t@, Box::new(yv(*b))),
    }
}

/// Views of a sequence of values.
pub open spec fn yvs(s: Seq<YamlValue>) -> Seq<YamlView>
    decreases s,
{
    if s.len() == 0 {
        Seq::empty()
    } else {
        yvs(s.drop_last()).push(yv(s.last()))
    }
}

/// Views of mapping entries.
pub open spec fn yentries(s: Seq<(YamlValue, YamlValue)>) -> Seq<(YamlView, YamlView)>
    decreases s,
{
    if s.len() == 0 {
        Seq::empty()
    } else {
        yentries(s.drop_last()).push((yv(s.last().0), yv(s.last().1)))
    }
}

/// Views of an optional value.
pub open spec fn opt_yv(o: Option<YamlValue>) -> Option<YamlView> {
    match o {
        Some(v) => Some(yv(v)),
        None => None,
    }
}

pub proof fn lemma_yvs_map(s: Seq<YamlValue>)
    ensures
        yvs(s) == s.map_values(|v: YamlValue| yv(v)),
    decreases s.len(),
{
    if s.len() > 0 {
        lemma_yvs_map(s.drop_last());
    }
    assert(yvs(s) =~= s.map_values(|v: YamlValue| yv(v)));
}

pub proof fn lemma_yentries_map(s: Seq<(YamlValue, YamlValue)>)
    ensures
        yentries(s) == s.map_values(|e: (YamlValue, YamlValue)| (yv(e.0), yv(e.1))),
    decreases s.len(),
{
    if s.len() > 0 {
        lemma_yentries_map(s.drop_last());
    }
    assert(yentries(s) =~= s.map_values(|e: (YamlValue, YamlValue)| (yv(e.0), yv(e.1))));
}

// ─── Editing steps ──────────────────────────────────────────

/// The value is null, under any number of tags.
pub open spec fn is_null_view(v: YamlView) -> bool
    decreases v,
{
    match v {
        YamlView::Null => true,
        YamlView::Tagged(_, b) => is_null_view(*b),
        _ => false,
    }
}

/// The document an edit starts from: the parsed value, or an empty mapping
/// when the text did not parse or reads as null.
pub open spec fn front_doc(parsed: Option<YamlView>) -> YamlView {
    match parsed {
        Some(v) => if is_null_view(v) { YamlView::Dict(Seq::empty()) } else { v },
        None => YamlView::Dict(Seq::empty()),
    }
}

/// Position of the entry whose key is the string `k`.
pub open spec fn key_index(es: Seq<(YamlView, YamlView)>, k: Seq<char>) -> Option<int>
    decreases es.len(),
{
    if es.len() == 0 {
        None
    } else {
        match key_index(es.drop_last(), k) {
            Some(i) => Some(i),
            None => if es.last().0 == YamlView::Str(k) { Some(es.len() - 1) } else { None },
        }
    }
}

/// The entries with the string key `k` bound to `v`: the value replaced in
/// place where the key is present, else a new last entry.
pub open spec fn map_set(es: Seq<(YamlView, YamlView)>, k: Seq<char>, v: YamlView) -> Seq<(YamlView, YamlView)> {
    match key_index(es, k) {
        Some(p) => es.update(p, (es[p].0, v)),
        None => es.push((YamlView::Str(k), v)),
    }
}

/// The entries without the string key `k`: its entry is replaced by the last
/// one, which is dropped from the end.
pub open spec fn map_remove(es: Seq<(YamlView, YamlView)>, k: Seq<char>) -> Seq<(YamlView, YamlView)> {
    match key_index(es, k) {
        Some(p) => es.update(p, es.last()).drop_last(),
        None => es,
    }
}

/// An edit of a document: a string field set, a key removed, or the
/// acceptance criterion at a position (from 0) marked checked or not.
pub enum YamlEdit {
    SetText(String, String),
    Remove(String),
    Check(usize, bool),
}

/// Plain view of an edit.
pub enum EditView {
    SetText(Seq<char>, Seq<char>),
    Remove(Seq<char>),
    Check(usize, bool),
}

/// View of an edit.
pub open spec fn edit_view(e: YamlEdit) -> EditView {
    match e {
        YamlEdit::SetText(k, v) => EditView::SetText(k@, v@),
        YamlEdit::Remove(k) => EditView::Remove(k@),
        YamlEdit::Check(p, c) => EditView::Check(p, c),
    }
}

/// The entries with the acceptance criterion at `pos` marked: where
/// `acceptance_criteria` holds a sequence whose item at `pos` is a mapping,
/// that mapping's `checked` set; anything else is left as it is.
pub open spec fn check_entries(es: Seq<(YamlView, YamlView)>, pos: usize, checked: bool) -> Seq<(YamlView, YamlView)> {
    match key_index(es, "acceptance_criteria"@) {
        Some(p) => match es[p].1 {
            YamlView::List(items) => if pos < items.len() {
                match items[pos as int] {
                    YamlView::Dict(ac) => es.update(
                        p,
                        (es[p].0, YamlView::List(items.update(pos as int, YamlView::Dict(map_set(ac, "checked"@, YamlView::Bool(checked)))))),
                    ),
                    _ => es,
                }
            } else {
                es
            },
            _ => es,
        },
        None => es,
    }
}

/// A document after an edit: a mapping edited, anything else unchanged.
pub open spec fn edited_doc(d: YamlView, e: EditView) -> YamlView {
    match d {
        YamlView::Dict(es) => YamlView::Dict(
            match e {
                EditView::SetText(k, v) => map_set(es, k, YamlView::Str(v)),
                EditView::Remove(k) => map_remove(es, k),
                EditView::Check(p, c) => check_entries(es, p, c),
            },
        ),
        _ => d,
    }
}

/// A YAML text after an edit: read with `rd`, edited, and written with
/// `wr`; the text itself where writing fails.
pub open spec fn edited_text(
    y: Seq<char>,
    e: EditView,
    rd: spec_fn(Seq<char>) -> Option<YamlView>,
    wr: spec_fn(YamlView) -> Option<Seq<char>>,
) -> Seq<char> {
    match wr(edited_doc(front_doc(rd(y)), e)) {
        Some(t) => t,
        None => y,
    }
}

// ─── Editing, executable ────────────────────────────────────

/// Whether the value is null under any number of tags.
fn is_null_value(v: &YamlValue) -> (r: bool)
    ensures
        r == is_null_view(yv(*v)),
    decreases v,
{
    match v {
        YamlValue::Null => true,
        YamlValue::Tagged(_, b) => is_null_value(b),
        _ => false,
    }
}

/// The document an edit starts from.
pub fn yaml_front(parsed: Option<YamlValue>) -> (res: YamlValue)
    ensures
        yv(res) == front_doc(opt_yv(parsed)),
{
    let empty: Vec<(YamlValue, YamlValue)> = Vec::new();
    proof {
        assert(yentries(empty@) =~= Seq::<(YamlView, YamlView)>::empty());
    }
    match parsed {
        Some(v) => {
            if is_null_value(&v) {
                YamlValue::Mapping(empty)
            } else {
                v
            }
        },
        None => YamlValue::Mapping(empty),
    }
}

proof fn lemma_key_index(es: Seq<(YamlView, YamlView)>, k: Seq<char>)
    ensures
        key_index(es, k) matches Some(p) ==> 0 <= p < es.len() && es[p].0 == YamlView::Str(k) && forall|j: int|
            0 <= j < p ==> es[j].0 != YamlView::Str(k),
        key_index(es, k) is None ==> forall|j: int| 0 <= j < es.len() ==> es[j].0 != YamlView::Str(k),
    decreases es.len(),
{
    if es.len() > 0 {
        lemma_key_index(es.drop_last(), k);
        assert forall|j: int| 0 <= j < es.len() - 1 implies es.drop_last()[j] == es[j] by {}
    }
}

/// Position of the entry whose key is the string `k`.
pub fn find_key(es: &Vec<(YamlValue, YamlValue)>, k: &str) -> (res: Option<usize>)
    ensures
        res matches Some(p) ==> key_index(yentries(es@), k@) == Some(p as int) && p < es@.len(),
        res is None ==> key_index(yentries(es@), k@) is None,
{
    proof {
        lemma_yentries_map(es@);
        lemma_key_index(yentries(es@), k@);
    }
    let mut i: usize = 0;
    while i < es.len()
        invariant
            i <= es@.len(),
            yentries(es@) == es@.map_values(|e: (YamlValue, YamlValue)| (yv(e.0), yv(e.1))),
            forall|j: int| 0 <= j < i ==> yentries(es@)[j].0 != YamlView::Str(k@),
        decreases es.len() - i,
    {
        let hit = match &es[i].0 {
            YamlValue::String(s) => str_eq(s.as_str(), k),
            _ => false,
        };
        proof {
            assert(yentries(es@)[i as int].0 == yv(es@[i as int].0));
            if hit {
                assert(yentries(es@)[i as int].0 == YamlView::Str(k@));
                lemma_key_index(yentries(es@), k@);
            } else {
                assert(yentries(es@)[i as int].0 != YamlView::Str(k@));
            }
        }
        if hit {
            return Some(i);
        }
        i = i + 1;
    }
    None
}

/// The entries with the string key `k` bound to `v`.
pub fn set_entry(es: Vec<(YamlValue, YamlValue)>, k: &str, v: YamlValue) -> (res: Vec<(YamlValue, YamlValue)>)
    ensures
        yentries(res@) == map_set(yentries(es@), k@, yv(v)),
{
    let mut es = es;
    let ghost old_es = es@;
    proof {
        lemma_yentries_map(old_es);
        lemma_key_index(yentries(old_es), k@);
    }
    match find_key(&es, k) {
        Some(p) => {
            let (k0, _old) = es.remove(p);
            es.insert(p, (k0, v));
            proof {
                lemma_yentries_map(es@);
                assert(es@ =~= old_es.update(p as int, (old_es[p as int].0, v)));
                assert(yentries(es@) =~= yentries(old_es).update(p as int, (yentries(old_es)[p as int].0, yv(v))));
                assert(key_index(yentries(old_es), k@) == Some(p as int));
                assert(yentries(es@) == map_set(yentries(old_es), k@, yv(v)));
            }
        },
        None => {
            es.push((YamlValue::String(owned(k)), v));
            proof {
                lemma_yentries_map(es@);
                assert(yentries(es@) =~= yentries(old_es).push((YamlView::Str(k@), yv(v))));
                assert(yentries(es@) == map_set(yentries(old_es), k@, yv(v)));
            }
        },
    }
    es
}

/// The entries without the string key `k`.
pub fn remove_entry(es: Vec<(YamlValue, YamlValue)>, k: &str) -> (res: Vec<(YamlValue, YamlValue)>)
    ensures
        yentries(res@) == map_remove(yentries(es@), k@),
{
    let mut es = es;
    let ghost old_es = es@;
    proof {
        lemma_yentries_map(old_es);
        lemma_key_index(yentries(old_es), k@);
    }
    match find_key(&es, k) {
        Some(p) => {
            let _gone = es.swap_remove(p);
            proof {
                lemma_yentries_map(es@);
                assert(yentries(es@) =~= yentries(old_es).update(p as int, yentries(old_es).last()).drop_last());
            }
        },
        None => {},
    }
    es
}

/// The entries with the acceptance criterion at `pos` marked.
pub fn check_entry(es: Vec<(YamlValue, YamlValue)>, pos: usize, checked: bool) -> (res: Vec<(YamlValue, YamlValue)>)
    ensures
        yentries(res@) == check_entries(yentries(es@), pos, checked),
{
    proof {
        reveal_strlit("acceptance_criteria");
        reveal_strlit("checked");
    }
    let mut es = es;
    let ghost old_es = es@;
    let ghost ov = yentries(old_es);
    proof {
        lemma_yentries_map(old_es);
        lemma_key_index(ov, "acceptance_criteria"@);
    }
    let p = match find_key(&es, "acceptance_criteria") {
        Some(p) => p,
        None => return es,
    };
    let (k0, val) = es.remove(p);
    let ghost old_val = yv(val);
    proof {
        assert(val == old_es[p as int].1);
        assert(ov[p as int] == (yv(k0), old_val));
    }
    let newval = match val {
        YamlValue::Sequence(items) => {
            let mut items = items;
            let ghost old_items = items@;
            proof {
                lemma_yvs_map(old_items);
            }
            if pos < items.len() {
                let it = items.remove(pos);
                let ghost old_it = yv(it);
                let it2 = match it {
                    YamlValue::Mapping(ac) => YamlValue::Mapping(set_entry(ac, "checked", YamlValue::Bool(checked))),
                    other => other,
                };
                items.insert(pos, it2);
                proof {
                    lemma_yvs_map(items@);
                    assert(items@ =~= old_items.update(pos as int, it2));
                    assert(yvs(items@) =~= yvs(old_items).update(pos as int, yv(it2)));
                    if !(old_it matches YamlView::Dict(_)) {
                        assert(yv(it2) == old_it);
                        assert(yvs(items@) =~= yvs(old_items));
                    }
                }
            }
            YamlValue::Sequence(items)
        },
        other => other,
    };
    es.insert(p, (k0, newval));
    proof {
        lemma_yentries_map(es@);
        assert(es@ =~= old_es.update(p as int, (old_es[p as int].0, newval)));
        assert(yentries(es@) =~= ov.update(p as int, (ov[p as int].0, yv(newval))));
        if yv(newval) == old_val {
            assert(ov.update(p as int, (ov[p as int].0, yv(newval))) =~= ov);
        }
    }
    es
}

/// A document after an edit.
pub fn edit_doc(d: YamlValue, e: &YamlEdit) -> (res: YamlValue)
    ensures
        yv(res) == edited_doc(yv(d), edit_view(*e)),
{
    match d {
        YamlValue::Mapping(es) => YamlValue::Mapping(
            match e {
                YamlEdit::SetText(k, v) => set_entry(es, k.as_str(), YamlValue::String(owned(v.as_str()))),
                YamlEdit::Remove(k) => remove_entry(es, k.as_str()),
                YamlEdit::Check(p, c) => check_entry(es, *p, *c),
            },
        ),
        other => other,
    }
}

// ─── Reading and writing YAML text ──────────────────────────

/// The reader gives equal results for equal texts.
pub open spec fn reader_consistent<R: Fn(&str) -> Option<YamlValue>>(r: R) -> bool {
    forall|a: &str, b: &str, ra: Option<YamlValue>, rb: Option<YamlValue>|
        #![trigger call_ensures(r, (a,), ra), call_ensures(r, (b,), rb)]
        call_ensures(r, (a,), ra) && call_ensures(r, (b,), rb) && a@ == b@ ==> opt_yv(ra) == opt_yv(rb)
}

/// What the reader gives for each text.
pub open spec fn reader_fn<R: Fn(&str) -> Option<YamlValue>>(r: R) -> spec_fn(Seq<char>) -> Option<YamlView> {
    |t: Seq<char>| opt_yv((choose|p: (&str, Option<YamlValue>)| p.0@ == t && call_ensures(r, (p.0,), p.1)).1)
}

/// The writer gives equal texts for equal documents.
pub open spec fn writer_consistent<W: Fn(&YamlValue) -> Option<String>>(w: W) -> bool {
    forall|a: &YamlValue, b: &YamlValue, ra: Option<String>, rb: Option<String>|
        #![trigger call_ensures(w, (a,), ra), call_ensures(w, (b,), rb)]
        call_ensures(w, (a,), ra) && call_ensures(w, (b,), rb) && yv(*a) == yv(*b) ==> opt_text(ra) == opt_text(rb)
}

/// Views of an optional text.
pub open spec fn opt_text(o: Option<String>) -> Option<Seq<char>> {
    match o {
        Some(s) => Some(s@),
        None => None,
    }
}

/// What the writer gives for each document.
pub open spec fn writer_fn<W: Fn(&YamlValue) -> Option<String>>(w: W) -> spec_fn(YamlView) -> Option<Seq<char>> {
    |d: YamlView| opt_text((choose|p: (&YamlValue, Option<String>)| yv(*p.0) == d && call_ensures(w, (p.0,), p.1)).1)
}

/// Reader and writer are functions of what they are given.
pub open spec fn yaml_io_consistent<R: Fn(&str) -> Option<YamlValue>, W: Fn(&YamlValue) -> Option<String>>(
    r: R,
    w: W,
) -> bool {
    reader_consistent(r) && writer_consistent(w)
}

/// Reader and writer accept every argument.
pub open spec fn yaml_io_callable<R: Fn(&str) -> Option<YamlValue>, W: Fn(&YamlValue) -> Option<String>>(
    r: R,
    w: W,
) -> bool {
    (forall|t: &str| call_requires(r, (t,))) && (forall|d: &YamlValue| call_requires(w, (d,)))
}

pub proof fn lemma_reader_fn<R: Fn(&str) -> Option<YamlValue>>(r: R, a: &str, x: Option<YamlValue>)
    requires
        reader_consistent(r),
        call_ensures(r, (a,), x),
    ensures
        reader_fn(r)(a@) == opt_yv(x),
{
    let w = (a, x);
    assert(w.0@ == a@ && call_ensures(r, (w.0,), w.1));
    let p = choose|p: (&str, Option<YamlValue>)| p.0@ == a@ && call_ensures(r, (p.0,), p.1);
    assert(call_ensures(r, (p.0,), p.1) && call_ensures(r, (a,), x));
}

pub proof fn lemma_writer_fn<W: Fn(&YamlValue) -> Option<String>>(w: W, a: &YamlValue, x: Option<String>)
    requires
        writer_consistent(w),
        call_ensures(w, (a,), x),
    ensures
        writer_fn(w)(yv(*a)) == opt_text(x),
{
    let q = (a, x);
    assert(yv(*q.0) == yv(*a) && call_ensures(w, (q.0,), q.1));
    let p = choose|p: (&YamlValue, Option<String>)| yv(*p.0) == yv(*a) && call_ensures(w, (p.0,), p.1);
    assert(call_ensures(w, (p.0,), p.1) && call_ensures(w, (a,), x));
}

/// A YAML text after one edit: read, edited, written; the text itself where
/// writing fails.
pub fn edit_text<R: Fn(&str) -> Option<YamlValue>, W: Fn(&YamlValue) -> Option<String>>(
    y: &str,
    e: &YamlEdit,
    rd: &R,
    wr: &W,
) -> (res: String)
    requires
        yaml_io_callable(*rd, *wr),
    ensures
        yaml_io_consistent(*rd, *wr) ==> res@ == edited_text(y@, edit_view(*e), reader_fn(*rd), writer_fn(*wr)),
{
    let parsed = rd(y);
    proof {
        if yaml_io_consistent(*rd, *wr) {
            lemma_reader_fn(*rd, y, parsed);
        }
    }
    let doc = yaml_front(parsed);
    let edited = edit_doc(doc, e);
    let written = wr(&edited);
    proof {
        if yaml_io_consistent(*rd, *wr) {
            lemma_writer_fn(*wr, &edited, written);
        }
    }
    match written {
        Some(t) => t,
        None => owned(y),
    }
}

} // verus!
