//! JSON values as the template engine and tool results read them.
use vstd::prelude::*;
use crate::text::{owned, push_str};

verus! {

/// A JSON number: its JSON text, and whether its value is non-zero
/// (a number that is not finite counts as non-zero).
#[derive(Debug)]
pub struct JsonNumber {
    pub text: String,
    pub nonzero: bool,
}

/// A JSON value. Arrays and objects carry their compact JSON text alongside
/// their items; object entries keep their keys unique.
#[derive(Debug)]
pub enum JsonValue {
    Null,
    Bool(bool),
    Number(JsonNumber),
    String(String),
    Array(Vec<JsonValue>, String),
    Object(Vec<(String, JsonValue)>, String),
}

/// A JSON object: key/value entries.
#[derive(Debug)]
pub struct JsonMap {
    pub entries: Vec<(String, JsonValue)>,
}

/// Plain view of a JSON value.
pub enum JsonView {
    Null,
    Bool(bool),
    Number(Seq<char>, bool),
    Str(Seq<char>),
    Array(Seq<JsonView>, Seq<char>),
    Object(Seq<(Seq<char>, JsonView)>, Seq<char>),
}

/// View of a JSON value.
pub open spec fn jv(v: JsonValue) -> JsonView
    decreases v,
{
    match v {
        JsonValue::Null => JsonView::Null,
        JsonValue::Bool(b) => JsonView::Bool(b),
        JsonValue::Number(n) => JsonView::Number(n.text@, n.nonzero),
        JsonValue::String(s) => JsonView::Str(s@),
        JsonValue::Array(items, text) => JsonView::Array(jvs(items@), text@),
        JsonValue::Object(entries, text) => JsonView::Object(jentries(entries@), text@),
    }
}

/// Views of a sequence of values.
pub open spec fn jvs(s: Seq<JsonValue>) -> Seq<JsonView>
    decreases s,
{
    if s.len() == 0 {
        Seq::empty()
    } else {
        jvs(s.drop_last()).push(jv(s.last()))
    }
}

/// Views of object entries.
pub open spec fn jentries(s: Seq<(String, JsonValue)>) -> Seq<(Seq<char>, JsonView)>
    decreases s,
{
    if s.len() == 0 {
        Seq::empty()
    } else {
        jentries(s.drop_last()).push((s.last().0@, jv(s.last().1)))
    }
}

/// View of a JSON object.
pub open spec fn map_view(m: &JsonMap) -> Seq<(Seq<char>, JsonView)> {
    jentries(m.entries@)
}

/// Value stored under `key` (the first entry with that key).
pub open spec fn lookup(m: Seq<(Seq<char>, JsonView)>, key: Seq<char>) -> Option<JsonView>
    decreases m.len(),
{
    if m.len() == 0 {
        None
    } else if m[0].0 == key {
        Some(m[0].1)
    } else {
        lookup(m.drop_first(), key)
    }
}

/// `m` with `key` bound to `v`: the first entry with that key replaced, or a new entry appended.
pub open spec fn insert_entry(m: Seq<(Seq<char>, JsonView)>, key: Seq<char>, v: JsonView) -> Seq<
    (Seq<char>, JsonView),
>
    decreases m.len(),
{
    if m.len() == 0 {
        seq![(key, v)]
    } else if m[0].0 == key {
        seq![(key, v)] + m.drop_first()
    } else {
        seq![m[0]] + insert_entry(m.drop_first(), key, v)
    }
}

/// A value counts as true in a condition: non-null, `true`, a non-zero number, a
/// non-empty string or array, or any object.
pub open spec fn truthy(v: JsonView) -> bool {
    match v {
        JsonView::Null => false,
        JsonView::Bool(b) => b,
        JsonView::Number(_, nz) => nz,
        JsonView::Str(s) => s.len() > 0,
        JsonView::Array(items, _) => items.len() > 0,
        JsonView::Object(_, _) => true,
    }
}

/// JSON text of a value that is not a string or null.
pub open spec fn json_text(v: JsonView) -> Seq<char> {
    match v {
        JsonView::Null => "null"@,
        JsonView::Bool(b) => if b { "true"@ } else { "false"@ },
        JsonView::Number(t, _) => t,
        JsonView::Str(s) => s,
        JsonView::Array(_, t) => t,
        JsonView::Object(_, t) => t,
    }
}

/// Text a value contributes to rendered output: a string as is, null as nothing,
/// anything else as its JSON text.
pub open spec fn display_text(v: JsonView) -> Seq<char> {
    match v {
        JsonView::Str(s) => s,
        JsonView::Null => Seq::empty(),
        _ => json_text(v),
    }
}

pub proof fn lemma_jvs_index(s: Seq<JsonValue>, i: int)
    requires
        0 <= i < s.len(),
    ensures
        jvs(s).len() == s.len(),
        jvs(s)[i] == jv(s[i]),
    decreases s.len(),
{
    lemma_jvs_len(s);
    if i < s.len() - 1 {
        lemma_jvs_index(s.drop_last(), i);
    }
}

pub proof fn lemma_jvs_len(s: Seq<JsonValue>)
    ensures
        jvs(s).len() == s.len(),
    decreases s.len(),
{
    if s.len() > 0 {
        lemma_jvs_len(s.drop_last());
    }
}

pub proof fn lemma_jentries_index(s: Seq<(String, JsonValue)>, i: int)
    requires
        0 <= i < s.len(),
    ensures
        jentries(s).len() == s.len(),
        jentries(s)[i] == (s[i].0@, jv(s[i].1)),
    decreases s.len(),
{
    lemma_jentries_len(s);
    if i < s.len() - 1 {
        lemma_jentries_index(s.drop_last(), i);
    }
}

pub proof fn lemma_jentries_len(s: Seq<(String, JsonValue)>)
    ensures
        jentries(s).len() == s.len(),
    decreases s.len(),
{
    if s.len() > 0 {
        lemma_jentries_len(s.drop_last());
    }
}

/// Entries of a sequence are those of its views, index by index.
pub proof fn lemma_jentries_ext(s: Seq<(String, JsonValue)>, t: Seq<(Seq<char>, JsonView)>)
    requires
        s.len() == t.len(),
        forall|i: int| 0 <= i < s.len() ==> t[i] == (s[i].0@, jv(s[i].1)),
    ensures
        jentries(s) == t,
{
    lemma_jentries_len(s);
    assert forall|i: int| 0 <= i < s.len() implies jentries(s)[i] == t[i] by {
        lemma_jentries_index(s, i);
    }
    assert(jentries(s) =~= t);
}

pub proof fn lemma_jvs_ext(s: Seq<JsonValue>, t: Seq<JsonView>)
    requires
        s.len() == t.len(),
        forall|i: int| 0 <= i < s.len() ==> t[i] == jv(s[i]),
    ensures
        jvs(s) == t,
{
    lemma_jvs_len(s);
    assert forall|i: int| 0 <= i < s.len() implies jvs(s)[i] == t[i] by {
        lemma_jvs_index(s, i);
    }
    assert(jvs(s) =~= t);
}

/// A copy of a value.
pub fn clone_value(v: &JsonValue) -> (r: JsonValue)
    ensures
        jv(r) == jv(*v),
    decreases v,
{
    match v {
        JsonValue::Null => JsonValue::Null,
        JsonValue::Bool(b) => JsonValue::Bool(*b),
        JsonValue::Number(n) => JsonValue::Number(JsonNumber { text: owned(n.text.as_str()), nonzero: n.nonzero }),
        JsonValue::String(s) => JsonValue::String(owned(s.as_str())),
        JsonValue::Array(items, text) => {
            let mut out: Vec<JsonValue> = Vec::new();
            let mut i: usize = 0;
            while i < items.len()
                invariant
                    *v == JsonValue::Array(*items, *text),
                    i <= items.len(),
                    out@.len() == i,
                    forall|j: int| 0 <= j < i ==> jv(#[trigger] out@[j]) == jv(items@[j]),
                decreases items.len() - i,
            {
                proof {
                    broadcast use vstd::std_specs::vec::axiom_vec_decreases_to_view;
                    assert(decreases_to!(*v => (*v)->Array_0));
                    assert(decreases_to!(*items => items@));
                    assert(decreases_to!(items@ => items@[i as int]));
                }
                let c = clone_value(&items[i]);
                out.push(c);
                i = i + 1;
            }
            proof {
                assert forall|j: int| 0 <= j < items@.len() implies jvs(items@)[j] == jv(out@[j]) by {
                    lemma_jvs_index(items@, j);
                }
                lemma_jvs_len(items@);
                lemma_jvs_ext(out@, jvs(items@));
            }
            JsonValue::Array(out, owned(text.as_str()))
        },
        JsonValue::Object(entries, text) => {
            let mut out: Vec<(String, JsonValue)> = Vec::new();
            let mut i: usize = 0;
            while i < entries.len()
                invariant
                    *v == JsonValue::Object(*entries, *text),
                    i <= entries.len(),
                    out@.len() == i,
                    forall|j: int|
                        0 <= j < i ==> (#[trigger] out@[j]).0@ == entries@[j].0@ && jv(out@[j].1) == jv(
                            entries@[j].1,
                        ),
                decreases entries.len() - i,
            {
                proof {
                    broadcast use vstd::std_specs::vec::axiom_vec_decreases_to_view;
                    assert(decreases_to!(*v => (*v)->Object_0));
                    assert(decreases_to!(*entries => entries@));
                    assert(decreases_to!(entries@ => entries@[i as int]));
                    assert(decreases_to!(entries@[i as int] => entries@[i as int].1));
                }
                let c = clone_value(&entries[i].1);
                out.push((owned(entries[i].0.as_str()), c));
                i = i + 1;
            }
            proof {
                assert forall|j: int| 0 <= j < entries@.len() implies jentries(entries@)[j] == (
                    out@[j].0@,
                    jv(out@[j].1),
                ) by {
                    lemma_jentries_index(entries@, j);
                }
                lemma_jentries_len(entries@);
                lemma_jentries_ext(out@, jentries(entries@));
            }
            JsonValue::Object(out, owned(text.as_str()))
        },
    }
}

/// The value stored under `key` in object entries (the first entry with that key).
pub fn entries_get<'a>(entries: &'a Vec<(String, JsonValue)>, key: &str) -> (res: Option<&'a JsonValue>)
    ensures
        match lookup(jentries(entries@), key@) {
            Some(v) => res matches Some(r) && jv(*r) == v,
            None => res is None,
        },
{
    let ghost m = jentries(entries@);
    let mut i: usize = 0;
    proof {
        lemma_jentries_len(entries@);
        assert(m.skip(0) == m);
    }
    while i < entries.len()
        invariant
            i <= entries.len(),
            m == jentries(entries@),
            m.len() == entries@.len(),
            lookup(m, key@) == lookup(m.skip(i as int), key@),
        decreases entries.len() - i,
    {
        proof {
            lemma_jentries_index(entries@, i as int);
            let r = m.skip(i as int);
            assert(r[0] == m[i as int]);
            assert(r.drop_first() == m.skip(i + 1));
        }
        if crate::text::str_eq(entries[i].0.as_str(), key) {
            return Some(&entries[i].1);
        }
        i = i + 1;
    }
    None
}

impl JsonMap {
    /// An empty object.
    pub fn new() -> (res: JsonMap)
        ensures
            map_view(&res) == Seq::<(Seq<char>, JsonView)>::empty(),
    {
        JsonMap { entries: Vec::new() }
    }

    /// The value stored under `key`.
    pub fn get(&self, key: &str) -> (res: Option<&JsonValue>)
        ensures
            match lookup(map_view(self), key@) {
                Some(v) => res matches Some(r) && jv(*r) == v,
                None => res is None,
            },
    {
        entries_get(&self.entries, key)
    }

    /// Bind `key` to `value`, replacing an existing binding.
    pub fn insert(&mut self, key: String, value: JsonValue)
        ensures
            map_view(final(self)) == insert_entry(map_view(old(self)), key@, jv(value)),
    {
        let ghost old_view = map_view(self);
        let mut i: usize = 0;
        proof {
            lemma_jentries_len(self.entries@);
            assert(old_view.skip(0) == old_view);
            assert(old_view.take(0) + insert_entry(old_view.skip(0), key@, jv(value)) == insert_entry(old_view, key@, jv(value)));
        }
        while i < self.entries.len()
            invariant
                i <= self.entries.len(),
                self.entries@ == old(self).entries@,
                old_view == map_view(old(self)),
                jentries(self.entries@).len() == self.entries@.len(),
                old_view.take(i as int) + insert_entry(old_view.skip(i as int), key@, jv(value))
                    == insert_entry(old_view, key@, jv(value)),
            decreases self.entries.len() - i,
        {
            proof {
                lemma_jentries_index(self.entries@, i as int);
                let r = old_view.skip(i as int);
                assert(r[0] == old_view[i as int]);
                assert(r.drop_first() == old_view.skip(i + 1));
            }
            if crate::text::str_eq(self.entries[i].0.as_str(), key.as_str()) {
                let ghost before = self.entries@;
                let ghost vv = jv(value);
                let ghost kv = key@;
                self.entries.set(i, (key, value));
                proof {
                    let target = insert_entry(old_view, kv, vv);
                    assert(target == old_view.take(i as int) + (seq![(kv, vv)] + old_view.skip(i + 1)));
                    assert forall|j: int| 0 <= j < self.entries@.len() implies target[j] == (
                        self.entries@[j].0@,
                        jv(self.entries@[j].1),
                    ) by {
                        lemma_jentries_index(before, j);
                    }
                    lemma_jentries_ext(self.entries@, target);
                }
                return;
            }
            proof {
                let r = old_view.skip(i as int);
                assert(old_view.take(i + 1) == old_view.take(i as int).push(r[0]));
                assert(old_view.take(i as int) + insert_entry(r, key@, jv(value)) == old_view.take(
                    i as int,
                ) + (seq![r[0]] + insert_entry(r.drop_first(), key@, jv(value))));
                assert(old_view.take(i as int) + (seq![r[0]] + insert_entry(r.drop_first(), key@, jv(value)))
                    == old_view.take(i + 1) + insert_entry(r.drop_first(), key@, jv(value)));
            }
            i = i + 1;
        }
        let ghost before = self.entries@;
        let ghost vv = jv(value);
        let ghost kv = key@;
        self.entries.push((key, value));
        proof {
            assert(old_view.skip(i as int).len() == 0);
            assert(old_view.take(i as int) == old_view);
            let target = insert_entry(old_view, kv, vv);
            assert(target == old_view.push((kv, vv)));
            assert forall|j: int| 0 <= j < self.entries@.len() implies target[j] == (
                self.entries@[j].0@,
                jv(self.entries@[j].1),
            ) by {
                if j < before.len() {
                    lemma_jentries_index(before, j);
                }
            }
            lemma_jentries_ext(self.entries@, target);
        }
    }

    /// A copy of this object.
    pub fn clone_map(&self) -> (res: JsonMap)
        ensures
            map_view(&res) == map_view(self),
    {
        let mut out: Vec<(String, JsonValue)> = Vec::new();
        let mut i: usize = 0;
        while i < self.entries.len()
            invariant
                i <= self.entries.len(),
                out@.len() == i,
                forall|j: int|
                    0 <= j < i ==> (#[trigger] out@[j]).0@ == self.entries@[j].0@ && jv(out@[j].1) == jv(
                        self.entries@[j].1,
                    ),
            decreases self.entries.len() - i,
        {
            let c = clone_value(&self.entries[i].1);
            out.push((owned(self.entries[i].0.as_str()), c));
            i = i + 1;
        }
        proof {
            assert forall|j: int| 0 <= j < self.entries@.len() implies jentries(self.entries@)[j] == (
                out@[j].0@,
                jv(out@[j].1),
            ) by {
                lemma_jentries_index(self.entries@, j);
            }
            lemma_jentries_len(self.entries@);
            lemma_jentries_ext(out@, jentries(self.entries@));
        }
        JsonMap { entries: out }
    }
}

/// Whether a value counts as true.
pub fn is_truthy(v: &JsonValue) -> (res: bool)
    ensures
        res == truthy(jv(*v)),
        v matches JsonValue::Array(items, _) ==> (res <==> items@.len() > 0),
{
    proof {
        match v {
            JsonValue::Array(items, _) => lemma_jvs_len(items@),
            _ => {},
        }
    }
    match v {
        JsonValue::Null => false,
        JsonValue::Bool(b) => *b,
        JsonValue::Number(n) => n.nonzero,
        JsonValue::String(s) => !s.as_str().is_empty(),
        JsonValue::Array(items, _) => items.len() > 0,
        JsonValue::Object(_, _) => true,
    }
}

/// Text a value contributes to rendered output.
pub fn display(v: &JsonValue) -> (res: String)
    ensures
        res@ == display_text(jv(*v)),
{
    match v {
        JsonValue::Null => String::new(),
        JsonValue::Bool(b) => if *b { owned("true") } else { owned("false") },
        JsonValue::Number(n) => owned(n.text.as_str()),
        JsonValue::String(s) => owned(s.as_str()),
        JsonValue::Array(_, t) => owned(t.as_str()),
        JsonValue::Object(_, t) => owned(t.as_str()),
    }
}

/// After binding `key` to `v`, looking `key` up gives `v`, and every other key
/// gives what it gave before.
pub proof fn lemma_insert_then_lookup(
    m: Seq<(Seq<char>, JsonView)>,
    key: Seq<char>,
    v: JsonView,
    other: Seq<char>,
)
    ensures
        lookup(insert_entry(m, key, v), key) == Some(v),
        other != key ==> lookup(insert_entry(m, key, v), other) == lookup(m, other),
    decreases m.len(),
{
    if m.len() > 0 {
        if m[0].0 != key {
            lemma_insert_then_lookup(m.drop_first(), key, v, other);
            let x = insert_entry(m.drop_first(), key, v);
            let ins = seq![m[0]] + x;
            assert(insert_entry(m, key, v) == ins);
            assert(ins[0] == m[0]);
            assert(ins.drop_first() == x);
            if other != key {
                assert(lookup(ins, other) == lookup(m, other));
            }
        } else {
            let ins = seq![(key, v)] + m.drop_first();
            assert(insert_entry(m, key, v) == ins);
            assert(ins[0] == (key, v));
            assert(ins.drop_first() == m.drop_first());
            if other != key {
                assert(lookup(ins, other) == lookup(ins.drop_first(), other));
                assert(lookup(m, other) == lookup(m.drop_first(), other));
            }
        }
    } else {
        assert(insert_entry(m, key, v) == seq![(key, v)]);
        assert(seq![(key, v)][0] == (key, v));
        assert(seq![(key, v)].drop_first() =~= Seq::<(Seq<char>, JsonView)>::empty());
        if other != key {
            assert(lookup(seq![(key, v)], other) == lookup(seq![(key, v)].drop_first(), other));
        }
    }
}

} // verus!
