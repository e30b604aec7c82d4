//! Regular-expression matching through the `regex` crate.
use vstd::prelude::*;

verus! {

/// For each successive non-overlapping match of `pattern` in `text`, the text of
/// every capture group (group 0 is the whole match; `None` for a group that did
/// not take part); `None` when `pattern` is not a valid regular expression.
pub uninterp spec fn spec_regex_captures(pattern: Seq<char>, text: Seq<char>) -> Option<
    Seq<Seq<Option<Seq<char>>>>,
>;

/// Views of captured groups.
pub open spec fn groups_view(g: Seq<Option<String>>) -> Seq<Option<Seq<char>>> {
    g.map_values(|o: Option<String>| match o {
        Some(s) => Some(s@),
        None => None,
    })
}

/// Views of all matches' captured groups.
pub open spec fn captures_view(c: Seq<Vec<Option<String>>>) -> Seq<Seq<Option<Seq<char>>>> {
    c.map_values(|g: Vec<Option<String>>| groups_view(g@))
}

/// Compiles `pattern` with `regex::Regex::new` and collects `Regex::captures_iter`
/// over `text`. Claims only that the result is the named function of the two
/// strings; what the regex engine matches is not stated.
#[verifier::external_body]
pub(crate) fn regex_captures(pattern: &str, text: &str) -> (res: Option<Vec<Vec<Option<String>>>>)
    ensures
        match spec_regex_captures(pattern@, text@) {
            None => res is None,
            Some(caps) => res matches Some(r) && captures_view(r@) == caps,
        },
{
    match regex::Regex::new(pattern) {
        Ok(re) => Some(
            re.captures_iter(text).map(
                |c| c.iter().map(|m| m.map(|m| m.as_str().to_string())).collect(),
            ).collect(),
        ),
        Err(_) => None,
    }
}

/// The error text of a pattern that is not a valid regular expression;
/// `None` for a valid one.
pub uninterp spec fn spec_regex_error(pattern: Seq<char>) -> Option<Seq<char>>;

/// Calls `regex::Regex::new` and takes its error's `Display` text. Claims the
/// result is the named error text of the pattern, and that there is one
/// exactly when the pattern does not compile, which is when
/// `regex_captures` gives `None`.
#[verifier::external_body]
pub(crate) fn regex_error(pattern: &str) -> (res: Option<String>)
    ensures
        match spec_regex_error(pattern@) {
            None => res is None,
            Some(e) => res matches Some(r) && r@ == e,
        },
        forall|t: Seq<char>| #[trigger] spec_regex_captures(pattern@, t) is None <==> res is Some,
{
    regex::Regex::new(pattern).err().map(|e| e.to_string())
}

} // verus!
