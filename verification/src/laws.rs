//! Laws of the library stated over all inputs: which tokens a text gives,
//! and which values count as true in a template condition.
use vstd::prelude::*;
use crate::search::{identifiers, is_joiner, joiner, long_part, not_token, tokens_of_words, word_tokens};
use crate::text::split_pred;
use crate::json::{truthy, JsonView};

verus! {

// ─── Tokenizing ─────────────────────────────────────────────

/// Every `_`/`-`-separated part of two or more characters of an identifier
/// is one of its tokens.
pub proof fn law_long_parts_are_tokens(w: Seq<char>, p: Seq<char>)
    requires
        split_pred(w, joiner()).contains(p),
        p.len() >= 2,
    ensures
        word_tokens(w).contains(p),
{
    let parts = split_pred(w, joiner());
    let pred = |q: Seq<char>| long_part(q);
    let f = parts.filter(pred);
    parts.filter_lemma(pred);
    let i = choose|i: int| 0 <= i < parts.len() && parts[i] == p;
    assert(pred(parts[i]));
    assert(f.contains(p));
    let k = choose|k: int| 0 <= k < f.len() && f[k] == p;
    let whole = if exists|j: int| 0 <= j < w.len() && is_joiner(#[trigger] w[j]) {
        seq![w]
    } else {
        Seq::empty()
    };
    assert(word_tokens(w) == whole + f);
    assert(word_tokens(w)[whole.len() + k] == p);
}

/// A text with no separator in it splits into itself alone.
proof fn lemma_split_without_separator(s: Seq<char>, f: spec_fn(char) -> bool)
    requires
        forall|i: int| 0 <= i < s.len() ==> !f(#[trigger] s[i]),
    ensures
        split_pred(s, f) == seq![s],
{
    crate::text::lemma_index_of_pred_unique(s, f, s.len() as int);
}

/// A lower-case word of two or more letters and digits has no joiner and no
/// character that ends an identifier.
proof fn lemma_plain_word_splits(w: Seq<char>)
    requires
        forall|i: int| 0 <= i < w.len() ==> ('a' <= #[trigger] w[i] && w[i] <= 'z') || ('0' <= w[i] && w[i] <= '9'),
    ensures
        split_pred(w, joiner()) == seq![w],
        split_pred(w, not_token()) == seq![w],
{
    let j = joiner();
    assert forall|i: int| 0 <= i < w.len() implies !j(#[trigger] w[i]) by {}
    lemma_split_without_separator(w, j);
    let nt = not_token();
    assert forall|i: int| 0 <= i < w.len() implies !nt(#[trigger] w[i]) by {}
    lemma_split_without_separator(w, nt);
}

/// A nonempty text made of identifier characters alone is its one
/// identifier.
proof fn lemma_single_identifier(w: Seq<char>)
    requires
        w.len() > 0,
        split_pred(w, not_token()) == seq![w],
    ensures
        identifiers(w) == seq![w],
{
    reveal(Seq::filter);
    let e = Seq::<Seq<char>>::empty();
    assert(seq![w].drop_last() =~= e);
    assert(identifiers(w) =~= seq![w]);
}

/// Splitting a plain word at joiners keeps the word, which is long enough to
/// be a token.
proof fn lemma_plain_word_tokens(w: Seq<char>)
    requires
        w.len() >= 2,
        split_pred(w, joiner()) == seq![w],
        forall|i: int| 0 <= i < w.len() ==> !is_joiner(#[trigger] w[i]),
    ensures
        word_tokens(w) == seq![w],
{
    reveal(Seq::filter);
    let e = Seq::<Seq<char>>::empty();
    assert(seq![w].drop_last() =~= e);
    assert(word_tokens(w) =~= seq![w]);
}

/// A lower-case word of two or more letters and digits is one token: the
/// word itself, both as an identifier and as the identifiers of a text of
/// its own. So a two-letter word such as `id` or `db` is found by search.
pub proof fn law_plain_word_is_its_own_token(w: Seq<char>)
    requires
        w.len() >= 2,
        forall|i: int| 0 <= i < w.len() ==> ('a' <= #[trigger] w[i] && w[i] <= 'z') || ('0' <= w[i] && w[i] <= '9'),
    ensures
        word_tokens(w) == seq![w],
        identifiers(w) == seq![w],
        tokens_of_words(identifiers(w)) == seq![w],
{
    lemma_plain_word_splits(w);
    assert forall|i: int| 0 <= i < w.len() implies !is_joiner(#[trigger] w[i]) by {}
    lemma_plain_word_tokens(w);
    lemma_single_identifier(w);
    let e = Seq::<Seq<char>>::empty();
    assert(seq![w].drop_last() =~= e);
    assert(tokens_of_words(seq![w]) == tokens_of_words(e) + word_tokens(w));
    assert(tokens_of_words(seq![w]) =~= seq![w]);
}

// ─── Template conditions ────────────────────────────────────

/// An array counts as true in a condition exactly when it has an item; in
/// particular an empty array is false. Likewise a string is true exactly
/// when it is not empty, null is false and an object is true.
pub proof fn law_array_truth(items: Seq<JsonView>, text: Seq<char>)
    ensures
        truthy(JsonView::Array(items, text)) <==> items.len() > 0,
        !truthy(JsonView::Array(Seq::empty(), text)),
        truthy(JsonView::Str(text)) <==> text.len() > 0,
        !truthy(JsonView::Null),
{
}

} // verus!
