//! Documents: their front matter as a mapping, the title and tags read from
//! it, the front matter of a new document, the merge of an update, and the
//! markdown written back.
use vstd::prelude::*;
use crate::search::strings_view;
use crate::text::{owned, push_str};
use crate::yaml::{
    key_index, lemma_yentries_map, map_set, opt_text, opt_yv, set_entry, find_key, writer_consistent, writer_fn,
    yentries, yv, YamlValue, YamlView,
};

verus! {

// ─── Reading front matter ───────────────────────────────────

/// The front matter of a document as read: the entries of the mapping the
/// YAML reads as, or none when it does not parse or is no mapping.
pub open spec fn doc_front_of(parsed: Option<YamlView>) -> Seq<(YamlView, YamlView)> {
    match parsed {
        Some(YamlView::Dict(es)) => es,
        _ => Seq::empty(),
    }
}

/// The front matter of a document as read.
pub fn doc_front(parsed: Option<YamlValue>) -> (res: Vec<(YamlValue, YamlValue)>)
    ensures
        yentries(res@) == doc_front_of(opt_yv(parsed)),
{
    match parsed {
        Some(YamlValue::Mapping(es)) => es,
        _ => {
            let empty: Vec<(YamlValue, YamlValue)> = Vec::new();
            proof {
                assert(yentries(empty@) =~= Seq::<(YamlView, YamlView)>::empty());
            }
            empty
        },
    }
}

/// The value under the string key `k`.
pub open spec fn doc_value(es: Seq<(YamlView, YamlView)>, k: Seq<char>) -> Option<YamlView> {
    match key_index(es, k) {
        Some(p) => Some(es[p].1),
        None => None,
    }
}

/// The string under the key `k`, where the value there is a string.
pub open spec fn doc_text_of(es: Seq<(YamlView, YamlView)>, k: Seq<char>) -> Option<Seq<char>> {
    match doc_value(es, k) {
        Some(YamlView::Str(s)) => Some(s),
        _ => None,
    }
}

/// The string under the key `k`, where the value there is a string.
pub fn doc_text(front: &Vec<(YamlValue, YamlValue)>, k: &str) -> (res: Option<String>)
    ensures
        opt_text(res) == doc_text_of(yentries(front@), k@),
{
    proof {
        lemma_yentries_map(front@);
    }
    match find_key(front, k) {
        Some(p) => {
            proof {
                assert(yentries(front@)[p as int].1 == yv(front@[p as int].1));
            }
            match &front[p].1 {
                YamlValue::String(s) => Some(owned(s.as_str())),
                _ => None,
            }
        },
        None => None,
    }
}

/// The title a document is listed under: its `title` where it is a
/// non-empty string, else the file's stem.
pub open spec fn doc_list_title_of(es: Seq<(YamlView, YamlView)>, stem: Seq<char>) -> Seq<char> {
    match doc_text_of(es, "title"@) {
        Some(t) => if t.len() > 0 { t } else { stem },
        None => stem,
    }
}

/// The title a document is listed under.
pub fn doc_list_title(front: &Vec<(YamlValue, YamlValue)>, stem: &str) -> (res: String)
    ensures
        res@ == doc_list_title_of(yentries(front@), stem@),
{
    proof {
        reveal_strlit("title");
    }
    match doc_text(front, "title") {
        Some(t) => {
            if t.as_str().is_empty() {
                owned(stem)
            } else {
                t
            }
        },
        None => owned(stem),
    }
}

/// The strings among the items, in order.
pub open spec fn strings_of(items: Seq<YamlView>) -> Seq<Seq<char>>
    decreases items.len(),
{
    if items.len() == 0 {
        Seq::empty()
    } else {
        strings_of(items.drop_last()) + match items.last() {
            YamlView::Str(s) => seq![s],
            _ => Seq::empty(),
        }
    }
}

/// The tags of a document: the strings of its `tags` sequence, none where it
/// has no such sequence.
pub open spec fn doc_tags_of(es: Seq<(YamlView, YamlView)>) -> Seq<Seq<char>> {
    match doc_value(es, "tags"@) {
        Some(YamlView::List(items)) => strings_of(items),
        _ => Seq::empty(),
    }
}

/// The tags of a document.
pub fn doc_tags(front: &Vec<(YamlValue, YamlValue)>) -> (res: Vec<String>)
    ensures
        strings_view(res@) == doc_tags_of(yentries(front@)),
{
    proof {
        reveal_strlit("tags");
        lemma_yentries_map(front@);
    }
    let mut out: Vec<String> = Vec::new();
    proof {
        assert(strings_view(out@) =~= Seq::<Seq<char>>::empty());
    }
    let p = match find_key(front, "tags") {
        Some(p) => p,
        None => return out,
    };
    proof {
        assert(yentries(front@)[p as int].1 == yv(front@[p as int].1));
    }
    match &front[p].1 {
        YamlValue::Sequence(items) => {
            let ghost iv = crate::yaml::yvs(items@);
            proof {
                crate::yaml::lemma_yvs_map(items@);
                assert(iv.take(0) =~= Seq::<YamlView>::empty());
            }
            let mut i: usize = 0;
            while i < items.len()
                invariant
                    i <= items@.len(),
                    iv == items@.map_values(|v: YamlValue| yv(v)),
                    strings_view(out@) == strings_of(iv.take(i as int)),
                decreases items.len() - i,
            {
                proof {
                    assert(iv.take(i + 1).drop_last() =~= iv.take(i as int));
                    assert(iv.take(i + 1).last() == yv(items@[i as int]));
                }
                match &items[i] {
                    YamlValue::String(s) => {
                        let ghost before = out@;
                        out.push(owned(s.as_str()));
                        proof {
                            assert(strings_view(out@) =~= strings_view(before).push(s@));
                        }
                    },
                    _ => {},
                }
                i = i + 1;
            }
            proof {
                assert(iv.take(items@.len() as int) =~= iv);
            }
            out
        },
        _ => out,
    }
}

// ─── Writing front matter ───────────────────────────────────

/// A list of tags as a YAML sequence of strings.
pub open spec fn tags_value(tags: Seq<Seq<char>>) -> YamlView {
    YamlView::List(tags.map_values(|t: Seq<char>| YamlView::Str(t)))
}

/// A list of tags as a YAML sequence of strings.
fn tags_yaml(tags: &Vec<String>) -> (res: YamlValue)
    ensures
        yv(res) == tags_value(strings_view(tags@)),
{
    let mut items: Vec<YamlValue> = Vec::new();
    let mut i: usize = 0;
    while i < tags.len()
        invariant
            i <= tags@.len(),
            items@.len() == i,
            forall|j: int| 0 <= j < i ==> yv(#[trigger] items@[j]) == YamlView::Str(tags@[j]@),
        decreases tags.len() - i,
    {
        items.push(YamlValue::String(owned(tags[i].as_str())));
        i = i + 1;
    }
    proof {
        crate::yaml::lemma_yvs_map(items@);
        assert(crate::yaml::yvs(items@) =~= strings_view(tags@).map_values(|t: Seq<char>| YamlView::Str(t)));
    }
    YamlValue::Sequence(items)
}

/// The front matter of a new document: its title, then its tags where there
/// are any.
pub open spec fn new_front(title: Seq<char>, tags: Seq<Seq<char>>) -> Seq<(YamlView, YamlView)> {
    let t = seq![(YamlView::Str("title"@), YamlView::Str(title))];
    if tags.len() == 0 {
        t
    } else {
        t.push((YamlView::Str("tags"@), tags_value(tags)))
    }
}

/// The front matter of a new document.
pub fn front_of(title: &str, tags: &Vec<String>) -> (res: Vec<(YamlValue, YamlValue)>)
    ensures
        yentries(res@) == new_front(title@, strings_view(tags@)),
{
    let mut out: Vec<(YamlValue, YamlValue)> = Vec::new();
    out.push((YamlValue::String(owned("title")), YamlValue::String(owned(title))));
    if tags.len() > 0 {
        let tv = tags_yaml(tags);
        out.push((YamlValue::String(owned("tags")), tv));
    }
    proof {
        lemma_yentries_map(out@);
        assert(yentries(out@) =~= new_front(title@, strings_view(tags@)));
    }
    out
}

/// The front matter after an update: the title set where one is given, then
/// the tags set where they are given.
pub open spec fn doc_updated(es: Seq<(YamlView, YamlView)>, title: Option<Seq<char>>, tags: Option<Seq<Seq<char>>>) -> Seq<
    (YamlView, YamlView),
> {
    let a = match title {
        Some(t) => map_set(es, "title"@, YamlView::Str(t)),
        None => es,
    };
    match tags {
        Some(ts) => map_set(a, "tags"@, tags_value(ts)),
        None => a,
    }
}

/// The front matter after an update.
pub fn doc_update(front: Vec<(YamlValue, YamlValue)>, title: Option<&str>, tags: Option<&Vec<String>>) -> (res: Vec<
    (YamlValue, YamlValue),
>)
    ensures
        yentries(res@) == doc_updated(
            yentries(front@),
            match title { Some(t) => Some(t@), None => None },
            match tags { Some(ts) => Some(strings_view(ts@)), None => None },
        ),
{
    let a = match title {
        Some(t) => set_entry(front, "title", YamlValue::String(owned(t))),
        None => front,
    };
    match tags {
        Some(ts) => {
            let tv = tags_yaml(ts);
            set_entry(a, "tags", tv)
        },
        None => a,
    }
}

/// The writer accepts every document.
pub open spec fn writer_callable<W: Fn(&YamlValue) -> Option<String>>(w: W) -> bool {
    forall|d: &YamlValue| call_requires(w, (d,))
}

/// Markdown of a document: its front matter written as YAML (nothing where
/// writing fails) between `---` lines, a blank line, and the body.
pub open spec fn doc_markdown_of(
    front: Seq<(YamlView, YamlView)>,
    body: Seq<char>,
    wr: spec_fn(YamlView) -> Option<Seq<char>>,
) -> Seq<char> {
    let y = match wr(YamlView::Dict(front)) {
        Some(t) => t,
        None => Seq::empty(),
    };
    "---\n"@ + y + "---\n\n"@ + body
}

/// Markdown of a document from its front matter and body; the front matter
/// is written with `wr`.
pub fn doc_markdown<W: Fn(&YamlValue) -> Option<String>>(front: Vec<(YamlValue, YamlValue)>, body: &str, wr: &W) -> (res: String)
    requires
        writer_callable(*wr),
    ensures
        writer_consistent(*wr) ==> res@ == doc_markdown_of(yentries(front@), body@, writer_fn(*wr)),
{
    let doc = YamlValue::Mapping(front);
    let written = wr(&doc);
    proof {
        if writer_consistent(*wr) {
            crate::yaml::lemma_writer_fn(*wr, &doc, written);
        }
    }
    let mut out = owned("---\n");
    match written {
        Some(t) => push_str(&mut out, t.as_str()),
        None => {},
    }
    push_str(&mut out, "---\n\n");
    push_str(&mut out, body);
    out
}

/// Markdown of a new document from its title, content and tags.
pub fn build_markdown<W: Fn(&YamlValue) -> Option<String>>(title: &str, content: &str, tags: &Vec<String>, wr: &W) -> (res: String)
    requires
        writer_callable(*wr),
    ensures
        writer_consistent(*wr) ==> res@ == doc_markdown_of(new_front(title@, strings_view(tags@)), content@, writer_fn(*wr)),
{
    let front = front_of(title, tags);
    doc_markdown(front, content, wr)
}

} // verus!
