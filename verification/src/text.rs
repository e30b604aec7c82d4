//! Character-sequence primitives shared by the parsers and formatters.
//!
//! Every executable helper here works on characters and is specified by a spec
//! function over `Seq<char>` that states the std behaviour it reproduces.
use vstd::prelude::*;
use vstd::string::StringExecFns;

verus! {

// ─── Specifications ─────────────────────────────────────────

/// `p` occurs in `s` starting at index `i`.
pub open spec fn matches_at(s: Seq<char>, p: Seq<char>, i: int) -> bool {
    0 <= i && i + p.len() <= s.len() && s.subrange(i, i + p.len()) == p
}

/// `s` begins with `p`.
pub open spec fn starts_with(s: Seq<char>, p: Seq<char>) -> bool {
    matches_at(s, p, 0)
}

/// `s` ends with `p`.
pub open spec fn ends_with(s: Seq<char>, p: Seq<char>) -> bool {
    p.len() <= s.len() && s.skip(s.len() - p.len()) == p
}

/// Leftmost occurrence of `p` in `s` at or after `from`.
pub open spec fn find_from(s: Seq<char>, p: Seq<char>, from: int) -> Option<int>
    decreases s.len() + 1 - from,
{
    if from < 0 || from + p.len() > s.len() {
        None
    } else if matches_at(s, p, from) {
        Some(from)
    } else {
        find_from(s, p, from + 1)
    }
}

/// Leftmost occurrence of `p` in `s` (std `str::find`).
pub open spec fn find(s: Seq<char>, p: Seq<char>) -> Option<int> {
    find_from(s, p, 0)
}

/// `s` with every non-overlapping occurrence of `p`, scanning from index `i`,
/// replaced by `r` (std `str::replace` for a non-empty pattern).
pub open spec fn replace_from(s: Seq<char>, p: Seq<char>, r: Seq<char>, i: int) -> Seq<char>
    decreases s.len() - i,
{
    if i < 0 || i >= s.len() {
        Seq::empty()
    } else if p.len() > 0 && matches_at(s, p, i) {
        r + replace_from(s, p, r, i + p.len())
    } else {
        seq![s[i]] + replace_from(s, p, r, i + 1)
    }
}

/// `s` with every non-overlapping occurrence of the non-empty `p` replaced by `r`.
pub open spec fn replace_all(s: Seq<char>, p: Seq<char>, r: Seq<char>) -> Seq<char> {
    replace_from(s, p, r, 0)
}

/// `s` with every character `a` replaced by `b`.
pub open spec fn replace_char(s: Seq<char>, a: char, b: char) -> Seq<char> {
    s.map_values(|c: char| if c == a { b } else { c })
}

/// The Unicode `White_Space` property of a character (std `char::is_whitespace`):
/// tab, line feed, vertical tab, form feed, carriage return, space, next line,
/// no-break space, ogham space mark, the spaces from en quad to hair space,
/// line and paragraph separators, narrow no-break space, medium mathematical
/// space and ideographic space.
pub open spec fn spec_is_whitespace(c: char) -> bool {
    let u = c as u32;
    (0x09 <= u && u <= 0x0d) || u == 0x20 || u == 0x85 || u == 0xa0 || u == 0x1680 || (0x2000 <= u && u
        <= 0x200a) || u == 0x2028 || u == 0x2029 || u == 0x202f || u == 0x205f || u == 0x3000
}

/// Characters that `str::trim` removes.
pub open spec fn ws_pred() -> spec_fn(char) -> bool {
    |c: char| spec_is_whitespace(c)
}

/// The single character `c`.
pub open spec fn char_pred(c: char) -> spec_fn(char) -> bool {
    |x: char| x == c
}

/// `s` without its leading characters satisfying `f`.
pub open spec fn strip_leading(s: Seq<char>, f: spec_fn(char) -> bool) -> Seq<char>
    decreases s.len(),
{
    if s.len() > 0 && f(s[0]) {
        strip_leading(s.drop_first(), f)
    } else {
        s
    }
}

/// `s` without its trailing characters satisfying `f`.
pub open spec fn strip_trailing(s: Seq<char>, f: spec_fn(char) -> bool) -> Seq<char>
    decreases s.len(),
{
    if s.len() > 0 && f(s.last()) {
        strip_trailing(s.drop_last(), f)
    } else {
        s
    }
}

/// `s` without its leading whitespace (std `str::trim_start`).
pub open spec fn trim_start(s: Seq<char>) -> Seq<char> {
    strip_leading(s, ws_pred())
}

/// `s` without its trailing whitespace (std `str::trim_end`).
pub open spec fn trim_end(s: Seq<char>) -> Seq<char> {
    strip_trailing(s, ws_pred())
}

/// `s` without leading and trailing whitespace (std `str::trim`).
pub open spec fn trim(s: Seq<char>) -> Seq<char> {
    trim_end(trim_start(s))
}

/// `s` without any leading or trailing character `c` (std `str::trim_matches` with a char).
pub open spec fn trim_char(s: Seq<char>, c: char) -> Seq<char> {
    strip_trailing(strip_leading(s, char_pred(c)), char_pred(c))
}

/// `s` with the non-empty prefix `p` removed as often as it repeats
/// (std `str::trim_start_matches` with a string pattern).
pub open spec fn trim_prefix_repeated(s: Seq<char>, p: Seq<char>) -> Seq<char>
    decreases s.len(),
{
    if p.len() > 0 && starts_with(s, p) {
        trim_prefix_repeated(s.skip(p.len() as int), p)
    } else {
        s
    }
}

/// `s` with the non-empty suffix `p` removed as often as it repeats
/// (std `str::trim_end_matches` with a string pattern).
pub open spec fn trim_suffix_repeated(s: Seq<char>, p: Seq<char>) -> Seq<char>
    decreases s.len(),
{
    if p.len() > 0 && ends_with(s, p) {
        trim_suffix_repeated(s.take(s.len() - p.len()), p)
    } else {
        s
    }
}

/// Index of the first `c` in `s`, or `s.len()` when there is none.
pub open spec fn index_of_char(s: Seq<char>, c: char) -> nat
    decreases s.len(),
{
    if s.len() == 0 {
        0
    } else if s[0] == c {
        0
    } else {
        1 + index_of_char(s.drop_first(), c)
    }
}

/// A line without the `\r` that preceded its `\n`.
pub open spec fn strip_cr(line: Seq<char>) -> Seq<char> {
    if line.len() > 0 && line.last() == '\r' {
        line.drop_last()
    } else {
        line
    }
}

/// The lines of `s` (std `str::lines`): split at `\n`, a `\r` before the `\n`
/// removed, and no empty last line after a final `\n`.
pub open spec fn lines_of(s: Seq<char>) -> Seq<Seq<char>>
    decreases s.len(),
{
    if s.len() == 0 {
        Seq::empty()
    } else {
        let i = index_of_char(s, '\n');
        proof {
            lemma_index_of_char_bound(s, '\n');
        }
        if i >= s.len() {
            seq![s]
        } else {
            seq![strip_cr(s.take(i as int))] + lines_of(s.skip(i as int + 1))
        }
    }
}

/// Index of the first character of `s` satisfying `f`, or `s.len()` when there is none.
pub open spec fn index_of_pred(s: Seq<char>, f: spec_fn(char) -> bool) -> nat
    decreases s.len(),
{
    if s.len() == 0 {
        0
    } else if f(s[0]) {
        0
    } else {
        1 + index_of_pred(s.drop_first(), f)
    }
}

/// Pieces of `s` between single characters satisfying `f` (std `str::split`
/// with a character predicate).
pub open spec fn split_pred(s: Seq<char>, f: spec_fn(char) -> bool) -> Seq<Seq<char>>
    decreases s.len(),
{
    let i = index_of_pred(s, f);
    proof {
        lemma_index_of_pred_bound(s, f);
    }
    if i >= s.len() {
        seq![s]
    } else {
        seq![s.take(i as int)] + split_pred(s.skip(i as int + 1), f)
    }
}

/// Index of the first whitespace character in `s`, or `s.len()` when there is none.
pub open spec fn index_of_ws(s: Seq<char>) -> nat
    decreases s.len(),
{
    if s.len() == 0 {
        0
    } else if spec_is_whitespace(s[0]) {
        0
    } else {
        1 + index_of_ws(s.drop_first())
    }
}

/// Pieces of `s` between single whitespace characters.
pub open spec fn split_ws(s: Seq<char>) -> Seq<Seq<char>>
    decreases s.len(),
{
    let i = index_of_ws(s);
    proof {
        lemma_index_of_ws_bound(s);
    }
    if i >= s.len() {
        seq![s]
    } else {
        seq![s.take(i as int)] + split_ws(s.skip(i as int + 1))
    }
}

/// The piece is not empty.
pub open spec fn nonempty(w: Seq<char>) -> bool {
    w.len() > 0
}

/// The words of `s`: its maximal runs of non-whitespace characters
/// (std `str::split_whitespace`).
pub open spec fn words(s: Seq<char>) -> Seq<Seq<char>> {
    split_ws(s).filter(|w: Seq<char>| nonempty(w))
}

/// Pieces of `s` between the separators `c` (std `str::split` with a char).
pub open spec fn split_char(s: Seq<char>, c: char) -> Seq<Seq<char>>
    decreases s.len(),
{
    let i = index_of_char(s, c);
    proof {
        lemma_index_of_char_bound(s, c);
    }
    if i >= s.len() {
        seq![s]
    } else {
        seq![s.take(i as int)] + split_char(s.skip(i as int + 1), c)
    }
}

/// The pieces joined with `sep` between consecutive pieces.
pub open spec fn join(pieces: Seq<Seq<char>>, sep: Seq<char>) -> Seq<char>
    decreases pieces.len(),
{
    if pieces.len() == 0 {
        Seq::empty()
    } else if pieces.len() == 1 {
        pieces[0]
    } else {
        join(pieces.drop_last(), sep) + sep + pieces.last()
    }
}

/// ASCII upper-casing of one character (std `char::to_ascii_uppercase`).
pub open spec fn ascii_upper(c: char) -> char {
    if 'a' <= c && c <= 'z' {
        ((c as u32) - 32) as char
    } else {
        c
    }
}

/// ASCII lower-casing of one character (std `char::to_ascii_lowercase`).
pub open spec fn ascii_lower(c: char) -> char {
    if 'A' <= c && c <= 'Z' {
        ((c as u32) + 32) as char
    } else {
        c
    }
}

/// Every character of `s` is ASCII.
pub open spec fn all_ascii(s: Seq<char>) -> bool {
    forall|i: int| 0 <= i < s.len() ==> (s[i] as u32) < 128
}

/// The Unicode lower-case mapping of a string (std `str::to_lowercase`).
pub uninterp spec fn spec_to_lowercase(s: Seq<char>) -> Seq<char>;

/// The Unicode upper-case mapping of a string (std `str::to_uppercase`).
pub uninterp spec fn spec_to_uppercase(s: Seq<char>) -> Seq<char>;

/// Decimal digit character of `d < 10`.
pub open spec fn digit_char(d: nat) -> char {
    ((d + 48) as u32) as char
}

/// Decimal text of a natural number (std `Display` for unsigned integers).
pub open spec fn decimal(n: nat) -> Seq<char>
    decreases n,
{
    if n < 10 {
        seq![digit_char(n)]
    } else {
        decimal(n / 10).push(digit_char(n % 10))
    }
}

/// The character is an ASCII decimal digit.
pub open spec fn is_digit(c: char) -> bool {
    '0' <= c && c <= '9'
}

/// Value of a run of decimal digits.
pub open spec fn digits_value(s: Seq<char>) -> nat
    decreases s.len(),
{
    if s.len() == 0 {
        0
    } else {
        digits_value(s.drop_last()) * 10 + ((s.last() as u32) - 48) as nat
    }
}

/// Result of std `u64::from_str`: an optional `+`, then one or more decimal
/// digits whose value fits in 64 bits.
pub open spec fn parse_u64(s: Seq<char>) -> Option<u64> {
    parse_digits(if s.len() > 0 && s[0] == '+' { s.drop_first() } else { s })
}

/// One or more decimal digits whose value fits in 64 bits, and that value.
pub open spec fn parse_digits(d: Seq<char>) -> Option<u64> {
    if d.len() == 0 || !(forall|i: int| 0 <= i < d.len() ==> is_digit(#[trigger] d[i])) {
        None
    } else if digits_value(d) > u64::MAX {
        None
    } else {
        Some(digits_value(d) as u64)
    }
}

// ─── Lemmas ─────────────────────────────────────────────────

pub proof fn lemma_strip_leading_skip(s: Seq<char>, f: spec_fn(char) -> bool, k: int)
    requires
        0 <= k <= s.len(),
        forall|j: int| 0 <= j < k ==> f(s[j]),
        k < s.len() ==> !f(s[k]),
    ensures
        strip_leading(s, f) == s.skip(k),
    decreases k,
{
    if k > 0 {
        assert forall|j: int| 0 <= j < k - 1 implies f(s.drop_first()[j]) by {
            assert(s.drop_first()[j] == s[j + 1]);
        }
        if k - 1 < s.drop_first().len() {
            assert(s.drop_first()[k - 1] == s[k]);
        }
        lemma_strip_leading_skip(s.drop_first(), f, k - 1);
        assert(s.drop_first().skip(k - 1) == s.skip(k));
    } else {
        assert(s.skip(0) == s);
    }
}

pub proof fn lemma_strip_trailing_take(s: Seq<char>, f: spec_fn(char) -> bool, k: int)
    requires
        0 <= k <= s.len(),
        forall|j: int| k <= j < s.len() ==> f(s[j]),
        k > 0 ==> !f(s[k - 1]),
    ensures
        strip_trailing(s, f) == s.take(k),
    decreases s.len() - k,
{
    if k < s.len() {
        assert forall|j: int| k <= j < s.drop_last().len() implies f(s.drop_last()[j]) by {
            assert(s.drop_last()[j] == s[j]);
        }
        if k > 0 {
            assert(s.drop_last()[k - 1] == s[k - 1]);
        }
        lemma_strip_trailing_take(s.drop_last(), f, k);
        assert(s.drop_last().take(k) == s.take(k));
    } else {
        assert(s.take(k) == s);
    }
}

pub proof fn lemma_index_of_char_bound(s: Seq<char>, c: char)
    ensures
        index_of_char(s, c) <= s.len(),
        index_of_char(s, c) < s.len() ==> s[index_of_char(s, c) as int] == c,
        forall|j: int| 0 <= j < index_of_char(s, c) ==> s[j] != c,
    decreases s.len(),
{
    if s.len() > 0 && s[0] != c {
        lemma_index_of_char_bound(s.drop_first(), c);
        assert forall|j: int| 0 <= j < index_of_char(s, c) implies s[j] != c by {
            if j > 0 {
                assert(s[j] == s.drop_first()[j - 1]);
            }
        }
    }
}

pub proof fn lemma_index_of_pred_bound(s: Seq<char>, f: spec_fn(char) -> bool)
    ensures
        index_of_pred(s, f) <= s.len(),
        index_of_pred(s, f) < s.len() ==> f(s[index_of_pred(s, f) as int]),
    decreases s.len(),
{
    if s.len() > 0 && !f(s[0]) {
        lemma_index_of_pred_bound(s.drop_first(), f);
    }
}

pub proof fn lemma_index_of_pred_unique(s: Seq<char>, f: spec_fn(char) -> bool, k: int)
    requires
        0 <= k <= s.len(),
        k < s.len() ==> f(s[k]),
        forall|j: int| 0 <= j < k ==> !f(s[j]),
    ensures
        index_of_pred(s, f) == k,
    decreases s.len(),
{
    if s.len() > 0 && !f(s[0]) {
        assert(k > 0);
        assert forall|j: int| 0 <= j < k - 1 implies !f(s.drop_first()[j]) by {
            assert(s.drop_first()[j] == s[j + 1]);
        }
        lemma_index_of_pred_unique(s.drop_first(), f, k - 1);
    }
}

pub proof fn lemma_index_of_ws_bound(s: Seq<char>)
    ensures
        index_of_ws(s) <= s.len(),
        index_of_ws(s) < s.len() ==> spec_is_whitespace(s[index_of_ws(s) as int]),
    decreases s.len(),
{
    if s.len() > 0 && !spec_is_whitespace(s[0]) {
        lemma_index_of_ws_bound(s.drop_first());
    }
}

pub proof fn lemma_index_of_ws_unique(s: Seq<char>, k: int)
    requires
        0 <= k <= s.len(),
        k < s.len() ==> spec_is_whitespace(s[k]),
        forall|j: int| 0 <= j < k ==> !spec_is_whitespace(s[j]),
    ensures
        index_of_ws(s) == k,
    decreases s.len(),
{
    if s.len() > 0 && !spec_is_whitespace(s[0]) {
        assert(k > 0);
        assert forall|j: int| 0 <= j < k - 1 implies !spec_is_whitespace(s.drop_first()[j]) by {
            assert(s.drop_first()[j] == s[j + 1]);
        }
        lemma_index_of_ws_unique(s.drop_first(), k - 1);
    }
}

/// `index_of_char` is characterised by its two properties.
pub proof fn lemma_index_of_char_unique(s: Seq<char>, c: char, k: int)
    requires
        0 <= k <= s.len(),
        k < s.len() ==> s[k] == c,
        forall|j: int| 0 <= j < k ==> s[j] != c,
    ensures
        index_of_char(s, c) == k,
    decreases s.len(),
{
    if s.len() > 0 && s[0] != c {
        assert(k > 0);
        assert forall|j: int| 0 <= j < k - 1 implies s.drop_first()[j] != c by {
            assert(s.drop_first()[j] == s[j + 1]);
        }
        lemma_index_of_char_unique(s.drop_first(), c, k - 1);
    }
}

pub proof fn lemma_find_from_skip(s: Seq<char>, p: Seq<char>, from: int, to: int)
    requires
        0 <= from <= to,
        forall|j: int| from <= j < to ==> !matches_at(s, p, j),
    ensures
        find_from(s, p, from) == find_from(s, p, to) || (from + p.len() > s.len() && find_from(
            s,
            p,
            from,
        ) is None && find_from(s, p, to) is None),
    decreases to - from,
{
    if from < to {
        if from + p.len() > s.len() {
            lemma_find_from_none_past(s, p, to);
        } else {
            lemma_find_from_skip(s, p, from + 1, to);
        }
    }
}

pub proof fn lemma_find_from_none_past(s: Seq<char>, p: Seq<char>, from: int)
    requires
        from >= 0,
        from + p.len() > s.len(),
    ensures
        find_from(s, p, from) is None,
{
}

pub proof fn lemma_find_from_result(s: Seq<char>, p: Seq<char>, from: int)
    requires
        from >= 0,
    ensures
        find_from(s, p, from) matches Some(i) ==> from <= i && matches_at(s, p, i) && forall|j: int|
            from <= j < i ==> !matches_at(s, p, j),
        find_from(s, p, from) is None ==> forall|j: int| from <= j ==> !matches_at(s, p, j),
    decreases s.len() + 1 - from,
{
    if from + p.len() <= s.len() && !matches_at(s, p, from) {
        lemma_find_from_result(s, p, from + 1);
    }
}

pub proof fn lemma_find_from_shift(s: Seq<char>, p: Seq<char>, k: int, from: int)
    requires
        0 <= k <= from,
        k <= s.len(),
    ensures
        find_from(s, p, from) == (match find_from(s.skip(k), p, from - k) {
            Some(i) => Some(i + k),
            None => None,
        }),
    decreases s.len() + 1 - from,
{
    let t = s.skip(k);
    if from + p.len() <= s.len() {
        assert(matches_at(s, p, from) == matches_at(t, p, from - k)) by {
            assert(s.subrange(from, from + p.len()) == t.subrange(from - k, from - k + p.len()));
        }
        if !matches_at(s, p, from) {
            lemma_find_from_shift(s, p, k, from + 1);
        }
    }
}

pub proof fn lemma_decimal_len(n: nat)
    ensures
        decimal(n).len() >= 1,
        n < 10 ==> decimal(n).len() == 1,
    decreases n,
{
    if n >= 10 {
        lemma_decimal_len(n / 10);
    }
}

// ─── Trusted std character and case functions ───────────────

/// Whether a character has the Unicode `White_Space` property.
pub(crate) fn is_whitespace(c: char) -> (r: bool)
    ensures
        r == spec_is_whitespace(c),
{
    let u = c as u32;
    (0x09 <= u && u <= 0x0d) || u == 0x20 || u == 0x85 || u == 0xa0 || u == 0x1680 || (0x2000 <= u && u <= 0x200a)
        || u == 0x2028 || u == 0x2029 || u == 0x202f || u == 0x205f || u == 0x3000
}

/// The Unicode alphanumeric property of a character (std `char::is_alphanumeric`).
pub uninterp spec fn spec_is_alphanumeric(c: char) -> bool;

/// Calls std `char::is_alphanumeric`. Claims the result is the named Unicode
/// property (alphabetic or numeric), which for ASCII holds exactly of letters and digits.
#[verifier::external_body]
pub(crate) fn is_alphanumeric(c: char) -> (r: bool)
    ensures
        r == spec_is_alphanumeric(c),
        (c as u32) < 128 ==> (r <==> (('a' <= c && c <= 'z') || ('A' <= c && c <= 'Z') || ('0' <= c
            && c <= '9'))),
{
    c.is_alphanumeric()
}

/// The Unicode `Uppercase` property of a character (std `char::is_uppercase`).
pub uninterp spec fn spec_is_uppercase(c: char) -> bool;

/// Calls std `char::is_uppercase`. Claims the result is the named Unicode
/// `Uppercase` property, which for ASCII holds exactly of `A`..`Z`.
#[verifier::external_body]
pub(crate) fn is_uppercase(c: char) -> (r: bool)
    ensures
        r == spec_is_uppercase(c),
        (c as u32) < 128 ==> (r <==> ('A' <= c && c <= 'Z')),
{
    c.is_uppercase()
}

/// Calls std `str::to_lowercase`. Claims the result is the named Unicode
/// lower-case mapping, which on ASCII text lower-cases `A`..`Z` and keeps every
/// other character.
#[verifier::external_body]
pub(crate) fn to_lowercase(s: &str) -> (r: String)
    ensures
        r@ == spec_to_lowercase(s@),
        all_ascii(s@) ==> r@ == s@.map_values(|c: char| ascii_lower(c)),
{
    s.to_lowercase()
}

/// Calls std `str::to_uppercase`. Claims the result is the named Unicode
/// upper-case mapping, which on ASCII text upper-cases `a`..`z` and keeps every
/// other character.
#[verifier::external_body]
pub(crate) fn to_uppercase(s: &str) -> (r: String)
    ensures
        r@ == spec_to_uppercase(s@),
        all_ascii(s@) ==> r@ == s@.map_values(|c: char| ascii_upper(c)),
{
    s.to_uppercase()
}

/// Appends one character to a string (std `String::push`).
#[verifier::external_body]
pub(crate) fn push_char(s: &mut String, c: char)
    ensures
        final(s)@ == old(s)@.push(c),
{
    s.push(c);
}

// ─── Executable helpers ─────────────────────────────────────

/// Appends a string slice to a string.
pub fn push_str(s: &mut String, t: &str)
    ensures
        final(s)@ == old(s)@ + t@,
{
    s.append(t);
}

/// Copies a string slice into an owned string.
pub fn owned(t: &str) -> (res: String)
    ensures
        res@ == t@,
{
    let mut s = String::new();
    s.append(t);
    s
}

/// Collects the characters of a string slice.
pub fn to_chars(s: &str) -> (res: Vec<char>)
    ensures
        res@ == s@,
{
    let mut out: Vec<char> = Vec::new();
    for c in it: s.chars()
        invariant
            out@ == it.seq().take(it.index() as int),
            it.seq() == s@,
    {
        out.push(c);
    }
    out
}

/// Builds a string from the characters `v[lo..hi]`.
pub fn string_of(v: &Vec<char>, lo: usize, hi: usize) -> (res: String)
    requires
        lo <= hi <= v.len(),
    ensures
        res@ == v@.subrange(lo as int, hi as int),
{
    let mut s = String::new();
    let mut i = lo;
    while i < hi
        invariant
            lo <= i <= hi <= v.len(),
            s@ == v@.subrange(lo as int, i as int),
        decreases hi - i,
    {
        push_char(&mut s, v[i]);
        proof {
            assert(v@.subrange(lo as int, i + 1) == v@.subrange(lo as int, i as int).push(v@[i as int]));
        }
        i = i + 1;
    }
    s
}

/// Builds a string from all characters of `v`.
pub fn string_of_all(v: &Vec<char>) -> (res: String)
    ensures
        res@ == v@,
{
    let r = string_of(v, 0, v.len());
    proof {
        assert(v@.subrange(0, v@.len() as int) == v@);
    }
    r
}

/// Copies `v[lo..hi]` into a new vector.
pub fn slice_vec(v: &Vec<char>, lo: usize, hi: usize) -> (res: Vec<char>)
    requires
        lo <= hi <= v.len(),
    ensures
        res@ == v@.subrange(lo as int, hi as int),
{
    let mut out: Vec<char> = Vec::new();
    let mut i = lo;
    while i < hi
        invariant
            lo <= i <= hi <= v.len(),
            out@ == v@.subrange(lo as int, i as int),
        decreases hi - i,
    {
        out.push(v[i]);
        proof {
            assert(v@.subrange(lo as int, i + 1) == v@.subrange(lo as int, i as int).push(v@[i as int]));
        }
        i = i + 1;
    }
    out
}

/// Characters of a string slice `v[lo..hi]` compared with `p`.
pub fn matches_at_exec(v: &Vec<char>, p: &Vec<char>, i: usize) -> (res: bool)
    ensures
        res == matches_at(v@, p@, i as int),
{
    if i > v.len() || p.len() > v.len() - i {
        return false;
    }
    let mut k: usize = 0;
    while k < p.len()
        invariant
            i + p.len() <= v.len(),
            k <= p.len(),
            forall|j: int| 0 <= j < k ==> v@[i + j] == p@[j],
        decreases p.len() - k,
    {
        if v[i + k] != p[k] {
            proof {
                assert(v@.subrange(i as int, i + p.len())[k as int] != p@[k as int]);
            }
            return false;
        }
        k = k + 1;
    }
    proof {
        assert(v@.subrange(i as int, i + p.len()) =~= p@);
    }
    true
}

/// Leftmost occurrence of `p` in `v` at or after `from`.
pub fn find_from_exec(v: &Vec<char>, p: &Vec<char>, from: usize) -> (res: Option<usize>)
    ensures
        res matches Some(i) ==> find_from(v@, p@, from as int) == Some(i as int),
        res is None ==> find_from(v@, p@, from as int) is None,
{
    let mut i = from;
    while i <= v.len() && p.len() <= v.len() - i
        invariant
            from <= i,
            forall|j: int| from <= j < i ==> !matches_at(v@, p@, j),
        decreases v.len() + 1 - i,
    {
        if matches_at_exec(v, p, i) {
            proof {
                lemma_find_from_skip(v@, p@, from as int, i as int);
            }
            return Some(i);
        }
        proof {
            if p.len() == 0 {
                assert(v@.subrange(i as int, i as int) =~= p@);
            }
        }
        i = i + 1;
    }
    proof {
        lemma_find_from_skip(v@, p@, from as int, i as int);
    }
    None
}

/// Whether `v` begins with `p`.
pub fn starts_with_exec(v: &Vec<char>, p: &Vec<char>) -> (res: bool)
    ensures
        res == starts_with(v@, p@),
{
    matches_at_exec(v, p, 0)
}

/// Whether the characters of `a` equal those of `b`.
pub fn chars_eq(a: &Vec<char>, b: &Vec<char>) -> (res: bool)
    ensures
        res == (a@ == b@),
{
    if a.len() != b.len() {
        return false;
    }
    let r = matches_at_exec(a, b, 0);
    proof {
        if r {
            assert(a@.subrange(0, b@.len() as int) == a@);
        } else {
            if a@ == b@ {
                assert(a@.subrange(0, b@.len() as int) == a@);
            }
        }
    }
    r
}

/// Whether the string `s` equals the string `t`.
pub fn str_eq(s: &str, t: &str) -> (res: bool)
    ensures
        res == (s@ == t@),
{
    let a = to_chars(s);
    let b = to_chars(t);
    chars_eq(&a, &b)
}

/// ASCII lower-casing of one character (std `char::to_ascii_lowercase`).
pub fn ascii_lower_char(c: char) -> (r: char)
    ensures
        r == ascii_lower(c),
{
    if 'A' <= c && c <= 'Z' {
        (((c as u32) + 32) as u8) as char
    } else {
        c
    }
}

/// ASCII upper-casing of one character (std `char::to_ascii_uppercase`).
pub fn ascii_upper_char(c: char) -> (r: char)
    ensures
        r == ascii_upper(c),
{
    if 'a' <= c && c <= 'z' {
        (((c as u32) - 32) as u8) as char
    } else {
        c
    }
}

/// Decimal text of an unsigned integer.
pub fn u64_text(n: u64) -> (res: String)
    ensures
        res@ == decimal(n as nat),
    decreases n,
{
    let d = char_of_digit(n % 10);
    if n < 10 {
        let mut s = String::new();
        push_char(&mut s, d);
        s
    } else {
        let mut s = u64_text(n / 10);
        push_char(&mut s, d);
        s
    }
}

fn char_of_digit(d: u64) -> (c: char)
    requires
        d < 10,
    ensures
        c == digit_char(d as nat),
{
    if d == 0 { '0' }
    else if d == 1 { '1' }
    else if d == 2 { '2' }
    else if d == 3 { '3' }
    else if d == 4 { '4' }
    else if d == 5 { '5' }
    else if d == 6 { '6' }
    else if d == 7 { '7' }
    else if d == 8 { '8' }
    else { '9' }
}


/// Start of `v[lo..hi]` without its leading whitespace.
pub fn trim_start_range(v: &Vec<char>, lo: usize, hi: usize) -> (r: usize)
    requires
        lo <= hi <= v.len(),
    ensures
        lo <= r <= hi,
        v@.subrange(r as int, hi as int) == trim_start(v@.subrange(lo as int, hi as int)),
{
    let ghost sub = v@.subrange(lo as int, hi as int);
    let mut a = lo;
    while a < hi && is_whitespace(v[a])
        invariant
            lo <= a <= hi <= v.len(),
            forall|j: int| lo <= j < a ==> spec_is_whitespace(v@[j]),
        decreases hi - a,
    {
        a = a + 1;
    }
    proof {
        lemma_strip_leading_skip(sub, ws_pred(), a - lo);
        assert(sub.skip(a - lo) == v@.subrange(a as int, hi as int));
    }
    a
}

/// Bounds of the whitespace-trimmed part of `v[lo..hi]`.
pub fn trim_range(v: &Vec<char>, lo: usize, hi: usize) -> (r: (usize, usize))
    requires
        lo <= hi <= v.len(),
    ensures
        lo <= r.0 <= r.1 <= hi,
        v@.subrange(r.0 as int, r.1 as int) == trim(v@.subrange(lo as int, hi as int)),
{
    let ghost sub = v@.subrange(lo as int, hi as int);
    let mut a = lo;
    while a < hi && is_whitespace(v[a])
        invariant
            lo <= a <= hi <= v.len(),
            forall|j: int| lo <= j < a ==> spec_is_whitespace(v@[j]),
        decreases hi - a,
    {
        a = a + 1;
    }
    proof {
        lemma_strip_leading_skip(sub, ws_pred(), a - lo);
        assert(sub.skip(a - lo) == v@.subrange(a as int, hi as int));
    }
    let mut b = hi;
    while b > a && is_whitespace(v[b - 1])
        invariant
            lo <= a <= b <= hi <= v.len(),
            forall|j: int| b <= j < hi ==> spec_is_whitespace(v@[j]),
        decreases b - a,
    {
        b = b - 1;
    }
    proof {
        let mid = v@.subrange(a as int, hi as int);
        lemma_strip_trailing_take(mid, ws_pred(), b - a);
        assert(mid.take(b - a) == v@.subrange(a as int, b as int));
    }
    (a, b)
}

/// Bounds of `v[lo..hi]` without leading and trailing characters `c`.
pub fn trim_char_range(v: &Vec<char>, lo: usize, hi: usize, c: char) -> (r: (usize, usize))
    requires
        lo <= hi <= v.len(),
    ensures
        lo <= r.0 <= r.1 <= hi,
        v@.subrange(r.0 as int, r.1 as int) == trim_char(v@.subrange(lo as int, hi as int), c),
{
    let ghost sub = v@.subrange(lo as int, hi as int);
    let mut a = lo;
    while a < hi && v[a] == c
        invariant
            lo <= a <= hi <= v.len(),
            forall|j: int| lo <= j < a ==> v@[j] == c,
        decreases hi - a,
    {
        a = a + 1;
    }
    proof {
        lemma_strip_leading_skip(sub, char_pred(c), a - lo);
        assert(sub.skip(a - lo) == v@.subrange(a as int, hi as int));
    }
    let mut b = hi;
    while b > a && v[b - 1] == c
        invariant
            lo <= a <= b <= hi <= v.len(),
            forall|j: int| b <= j < hi ==> v@[j] == c,
        decreases b - a,
    {
        b = b - 1;
    }
    proof {
        let mid = v@.subrange(a as int, hi as int);
        lemma_strip_trailing_take(mid, char_pred(c), b - a);
        assert(mid.take(b - a) == v@.subrange(a as int, b as int));
    }
    (a, b)
}

/// Texts of the ranges `rs` of `v`.
pub open spec fn ranges_text(v: Seq<char>, rs: Seq<(usize, usize)>) -> Seq<Seq<char>> {
    rs.map_values(|r: (usize, usize)| v.subrange(r.0 as int, r.1 as int))
}

/// Every range lies within `len` and is well ordered.
pub open spec fn ranges_valid(rs: Seq<(usize, usize)>, len: int) -> bool {
    forall|k: int| 0 <= k < rs.len() ==> #[trigger] rs[k].0 <= rs[k].1 && rs[k].1 <= len
}

/// Ranges of the lines of `v` (std `str::lines`).
#[verifier::spinoff_prover]
pub fn line_ranges(v: &Vec<char>) -> (res: Vec<(usize, usize)>)
    ensures
        ranges_valid(res@, v@.len() as int),
        ranges_text(v@, res@) == lines_of(v@),
{
    let mut out: Vec<(usize, usize)> = Vec::new();
    let mut start: usize = 0;
    let mut i: usize = 0;
    proof {
        assert(v@.skip(0) == v@);
        assert(ranges_text(v@, out@) =~= Seq::<Seq<char>>::empty());
    }
    while i < v.len()
        invariant
            start <= i <= v.len(),
            ranges_valid(out@, v@.len() as int),
            forall|j: int| start <= j < i ==> v@[j] != '\n',
            lines_of(v@) == ranges_text(v@, out@) + lines_of(v@.skip(start as int)),
        decreases v.len() - i,
    {
        if v[i] == '\n' {
            let end = if i > start && v[i - 1] == '\r' { i - 1 } else { i };
            proof {
                let s = v@.skip(start as int);
                assert forall|j: int| 0 <= j < i - start implies s[j] != '\n' by {
                    assert(s[j] == v@[start + j]);
                }
                assert(s[i - start] == v@[i as int]);
                lemma_index_of_char_unique(s, '\n', i - start);
                assert(s.take(i - start) == v@.subrange(start as int, i as int));
                assert(s.skip(i - start + 1) == v@.skip(i + 1));
                assert(strip_cr(s.take(i - start)) == v@.subrange(start as int, end as int));
                let old_out = out@;
                assert(ranges_text(v@, old_out.push((start, end))) == ranges_text(v@, old_out).push(
                    v@.subrange(start as int, end as int),
                ));
            }
            let ghost old_out = out@;
            out.push((start, end));
            proof {
                assert forall|k: int| 0 <= k < out@.len() implies #[trigger] out@[k].0 <= out@[k].1
                    && out@[k].1 <= v@.len() by {
                    if k < old_out.len() {
                        assert(out@[k] == old_out[k]);
                        assert(old_out[k].0 <= old_out[k].1 && old_out[k].1 <= v@.len());
                    } else {
                        assert(out@[k] == (start, end));
                    }
                }
            }
            start = i + 1;
        }
        i = i + 1;
    }
    if start < v.len() {
        proof {
            let s = v@.skip(start as int);
            assert forall|j: int| 0 <= j < s.len() implies s[j] != '\n' by {
                assert(s[j] == v@[start + j]);
            }
            lemma_index_of_char_unique(s, '\n', s.len() as int);
            assert(s == v@.subrange(start as int, v@.len() as int));
            let old_out = out@;
            assert(ranges_text(v@, old_out.push((start, v.len()))) == ranges_text(v@, old_out).push(
                v@.subrange(start as int, v@.len() as int),
            ));
        }
        let ghost old_out = out@;
        out.push((start, v.len()));
        proof {
            assert forall|k: int| 0 <= k < out@.len() implies #[trigger] out@[k].0 <= out@[k].1
                && out@[k].1 <= v@.len() by {
                if k < old_out.len() {
                    assert(out@[k] == old_out[k]);
                    assert(old_out[k].0 <= old_out[k].1 && old_out[k].1 <= v@.len());
                } else {
                    assert(out@[k] == (start, v.len()));
                }
            }
        }
    } else {
        proof {
            assert(v@.skip(start as int).len() == 0);
            assert(ranges_text(v@, out@) + Seq::<Seq<char>>::empty() == ranges_text(v@, out@));
        }
    }
    out
}

/// Ranges of the pieces of `v` between separators `c` (std `str::split` with a char).
pub fn split_ranges(v: &Vec<char>, c: char) -> (res: Vec<(usize, usize)>)
    ensures
        ranges_valid(res@, v@.len() as int),
        ranges_text(v@, res@) == split_char(v@, c),
{
    let mut out: Vec<(usize, usize)> = Vec::new();
    let mut start: usize = 0;
    let mut i: usize = 0;
    proof {
        assert(v@.skip(0) == v@);
        assert(ranges_text(v@, out@) =~= Seq::<Seq<char>>::empty());
    }
    while i < v.len()
        invariant
            start <= i <= v.len(),
            ranges_valid(out@, v@.len() as int),
            forall|j: int| start <= j < i ==> v@[j] != c,
            split_char(v@, c) == ranges_text(v@, out@) + split_char(v@.skip(start as int), c),
        decreases v.len() - i,
    {
        if v[i] == c {
            proof {
                let s = v@.skip(start as int);
                assert forall|j: int| 0 <= j < i - start implies s[j] != c by {
                    assert(s[j] == v@[start + j]);
                }
                assert(s[i - start] == v@[i as int]);
                lemma_index_of_char_unique(s, c, i - start);
                assert(s.take(i - start) == v@.subrange(start as int, i as int));
                assert(s.skip(i - start + 1) == v@.skip(i + 1));
                let old_out = out@;
                assert(ranges_text(v@, old_out.push((start, i))) == ranges_text(v@, old_out).push(
                    v@.subrange(start as int, i as int),
                ));
            }
            let ghost old_out = out@;
            out.push((start, i));
            proof {
                assert forall|k: int| 0 <= k < out@.len() implies #[trigger] out@[k].0 <= out@[k].1
                    && out@[k].1 <= v@.len() by {
                    if k < old_out.len() {
                        assert(out@[k] == old_out[k]);
                    }
                }
            }
            start = i + 1;
        }
        i = i + 1;
    }
    proof {
        let s = v@.skip(start as int);
        assert forall|j: int| 0 <= j < s.len() implies s[j] != c by {
            assert(s[j] == v@[start + j]);
        }
        lemma_index_of_char_unique(s, c, s.len() as int);
        assert(s == v@.subrange(start as int, v@.len() as int));
        let old_out = out@;
        assert(ranges_text(v@, old_out.push((start, v.len()))) == ranges_text(v@, old_out).push(
            v@.subrange(start as int, v@.len() as int),
        ));
    }
    let ghost old_out = out@;
    let n = v.len();
    assert(start <= n);
    out.push((start, n));
    proof {
        assert forall|k: int| 0 <= k < out@.len() implies #[trigger] out@[k].0 <= out@[k].1
            && out@[k].1 <= v@.len() by {
            if k < old_out.len() {
                assert(out@[k] == old_out[k]);
            } else {
                assert(out@[k] == (start, n));
            }
        }
    }
    out
}

/// Ranges of the pieces of `v` between single characters for which `p` holds;
/// `p` computes the predicate `f`.
pub fn split_pred_ranges<P: Fn(char) -> bool>(v: &Vec<char>, p: &P, Ghost(f): Ghost<spec_fn(char) -> bool>) -> (res: Vec<(usize, usize)>)
    requires
        forall|c: char| call_requires(*p, (c,)),
        forall|c: char, r: bool| call_ensures(*p, (c,), r) ==> r == f(c),
    ensures
        ranges_valid(res@, v@.len() as int),
        ranges_text(v@, res@) == split_pred(v@, f),
{
    let mut out: Vec<(usize, usize)> = Vec::new();
    let mut start: usize = 0;
    let mut i: usize = 0;
    proof {
        assert(v@.skip(0) == v@);
        assert(ranges_text(v@, out@) =~= Seq::<Seq<char>>::empty());
    }
    while i < v.len()
        invariant
            start <= i <= v.len(),
            forall|c: char| call_requires(*p, (c,)),
            forall|c: char, r: bool| call_ensures(*p, (c,), r) ==> r == f(c),
            ranges_valid(out@, v@.len() as int),
            forall|j: int| start <= j < i ==> !f(v@[j]),
            split_pred(v@, f) == ranges_text(v@, out@) + split_pred(v@.skip(start as int), f),
        decreases v.len() - i,
    {
        if p(v[i]) {
            proof {
                let s = v@.skip(start as int);
                assert forall|j: int| 0 <= j < i - start implies !f(s[j]) by {
                    assert(s[j] == v@[start + j]);
                }
                assert(s[i - start] == v@[i as int]);
                lemma_index_of_pred_unique(s, f, i - start);
                assert(s.take(i - start) == v@.subrange(start as int, i as int));
                assert(s.skip(i - start + 1) == v@.skip(i + 1));
                let old_out = out@;
                assert(ranges_text(v@, old_out.push((start, i))) == ranges_text(v@, old_out).push(
                    v@.subrange(start as int, i as int),
                ));
            }
            let ghost old_out = out@;
            out.push((start, i));
            proof {
                assert forall|k: int| 0 <= k < out@.len() implies #[trigger] out@[k].0 <= out@[k].1
                    && out@[k].1 <= v@.len() by {
                    if k < old_out.len() {
                        assert(out@[k] == old_out[k]);
                    }
                }
            }
            start = i + 1;
        }
        i = i + 1;
    }
    proof {
        let s = v@.skip(start as int);
        assert forall|j: int| 0 <= j < s.len() implies !f(s[j]) by {
            assert(s[j] == v@[start + j]);
        }
        lemma_index_of_pred_unique(s, f, s.len() as int);
        assert(s == v@.subrange(start as int, v@.len() as int));
        let old_out = out@;
        assert(ranges_text(v@, old_out.push((start, v.len()))) == ranges_text(v@, old_out).push(
            v@.subrange(start as int, v@.len() as int),
        ));
    }
    let ghost old_out = out@;
    let n = v.len();
    assert(start <= n);
    out.push((start, n));
    proof {
        assert forall|k: int| 0 <= k < out@.len() implies #[trigger] out@[k].0 <= out@[k].1
            && out@[k].1 <= v@.len() by {
            if k < old_out.len() {
                assert(out@[k] == old_out[k]);
            } else {
                assert(out@[k] == (start, n));
            }
        }
    }
    out
}

/// Ranges of the pieces of `v` between single whitespace characters.
pub fn split_ws_ranges(v: &Vec<char>) -> (res: Vec<(usize, usize)>)
    ensures
        ranges_valid(res@, v@.len() as int),
        ranges_text(v@, res@) == split_ws(v@),
{
    let mut out: Vec<(usize, usize)> = Vec::new();
    let mut start: usize = 0;
    let mut i: usize = 0;
    proof {
        assert(v@.skip(0) == v@);
        assert(ranges_text(v@, out@) =~= Seq::<Seq<char>>::empty());
    }
    while i < v.len()
        invariant
            start <= i <= v.len(),
            ranges_valid(out@, v@.len() as int),
            forall|j: int| start <= j < i ==> !spec_is_whitespace(v@[j]),
            split_ws(v@) == ranges_text(v@, out@) + split_ws(v@.skip(start as int)),
        decreases v.len() - i,
    {
        if is_whitespace(v[i]) {
            proof {
                let s = v@.skip(start as int);
                assert forall|j: int| 0 <= j < i - start implies !spec_is_whitespace(s[j]) by {
                    assert(s[j] == v@[start + j]);
                }
                assert(s[i - start] == v@[i as int]);
                lemma_index_of_ws_unique(s, i - start);
                assert(s.take(i - start) == v@.subrange(start as int, i as int));
                assert(s.skip(i - start + 1) == v@.skip(i + 1));
                let old_out = out@;
                assert(ranges_text(v@, old_out.push((start, i))) == ranges_text(v@, old_out).push(
                    v@.subrange(start as int, i as int),
                ));
            }
            let ghost old_out = out@;
            out.push((start, i));
            proof {
                assert forall|k: int| 0 <= k < out@.len() implies #[trigger] out@[k].0 <= out@[k].1
                    && out@[k].1 <= v@.len() by {
                    if k < old_out.len() {
                        assert(out@[k] == old_out[k]);
                    }
                }
            }
            start = i + 1;
        }
        i = i + 1;
    }
    proof {
        let s = v@.skip(start as int);
        assert forall|j: int| 0 <= j < s.len() implies !spec_is_whitespace(s[j]) by {
            assert(s[j] == v@[start + j]);
        }
        lemma_index_of_ws_unique(s, s.len() as int);
        assert(s == v@.subrange(start as int, v@.len() as int));
        let old_out = out@;
        assert(ranges_text(v@, old_out.push((start, v.len()))) == ranges_text(v@, old_out).push(
            v@.subrange(start as int, v@.len() as int),
        ));
    }
    let ghost old_out = out@;
    let n = v.len();
    assert(start <= n);
    out.push((start, n));
    proof {
        assert forall|k: int| 0 <= k < out@.len() implies #[trigger] out@[k].0 <= out@[k].1
            && out@[k].1 <= v@.len() by {
            if k < old_out.len() {
                assert(out@[k] == old_out[k]);
            } else {
                assert(out@[k] == (start, n));
            }
        }
    }
    out
}

/// `v` with every non-overlapping occurrence of the non-empty `p` replaced by `r`.
pub fn replace_all_chars(v: &Vec<char>, p: &Vec<char>, r: &Vec<char>) -> (res: Vec<char>)
    requires
        p.len() > 0,
    ensures
        res@ == replace_all(v@, p@, r@),
{
    let mut out: Vec<char> = Vec::new();
    let mut i: usize = 0;
    while i < v.len()
        invariant
            i <= v.len(),
            p@.len() > 0,
            out@ + replace_from(v@, p@, r@, i as int) == replace_all(v@, p@, r@),
        decreases v.len() - i,
    {
        if matches_at_exec(v, p, i) {
            let ghost before = out@;
            let mut k: usize = 0;
            while k < r.len()
                invariant
                    k <= r.len(),
                    out@ == before + r@.take(k as int),
                decreases r.len() - k,
            {
                out.push(r[k]);
                proof {
                    assert(r@.take(k + 1) == r@.take(k as int).push(r@[k as int]));
                }
                k = k + 1;
            }
            proof {
                assert(r@.take(r.len() as int) == r@);
                assert(before + (r@ + replace_from(v@, p@, r@, i + p.len())) == (before + r@)
                    + replace_from(v@, p@, r@, i + p.len()));
            }
            i = i + p.len();
        } else {
            let ghost before = out@;
            out.push(v[i]);
            proof {
                assert(before + (seq![v@[i as int]] + replace_from(v@, p@, r@, i + 1)) == before.push(
                    v@[i as int],
                ) + replace_from(v@, p@, r@, i + 1));
            }
            i = i + 1;
        }
    }
    proof {
        assert(out@ + Seq::<char>::empty() == out@);
    }
    out
}

/// The string `s` with every occurrence of the non-empty `p` replaced by `r`
/// (std `str::replace`).
pub fn replace_str(s: &str, p: &str, r: &str) -> (res: String)
    requires
        p@.len() > 0,
    ensures
        res@ == replace_all(s@, p@, r@),
{
    let v = to_chars(s);
    let pv = to_chars(p);
    let rv = to_chars(r);
    let out = replace_all_chars(&v, &pv, &rv);
    string_of_all(&out)
}

/// The string `s` with leading and trailing whitespace removed.
pub fn trim_str(s: &str) -> (res: String)
    ensures
        res@ == trim(s@),
{
    let v = to_chars(s);
    let (a, b) = trim_range(&v, 0, v.len());
    proof {
        assert(v@.subrange(0, v@.len() as int) == v@);
    }
    string_of(&v, a, b)
}


/// Whether `v[lo..hi]` begins with `p`.
pub fn starts_with_range(v: &Vec<char>, lo: usize, hi: usize, p: &Vec<char>) -> (res: bool)
    requires
        lo <= hi <= v.len(),
    ensures
        res == starts_with(v@.subrange(lo as int, hi as int), p@),
{
    if p.len() > hi - lo {
        return false;
    }
    let r = matches_at_exec(v, p, lo);
    proof {
        let sub = v@.subrange(lo as int, hi as int);
        assert(sub.subrange(0, p@.len() as int) == v@.subrange(lo as int, lo + p@.len()));
    }
    r
}

/// Start of `v[lo..hi]` after removing the non-empty prefix `p` as often as it repeats.
pub fn trim_prefix_repeated_range(v: &Vec<char>, lo: usize, hi: usize, p: &Vec<char>) -> (res: usize)
    requires
        lo <= hi <= v.len(),
        p.len() > 0,
    ensures
        lo <= res <= hi,
        v@.subrange(res as int, hi as int) == trim_prefix_repeated(v@.subrange(lo as int, hi as int), p@),
{
    let mut a = lo;
    while starts_with_range(v, a, hi, p)
        invariant
            lo <= a <= hi <= v.len(),
            p@.len() > 0,
            trim_prefix_repeated(v@.subrange(a as int, hi as int), p@) == trim_prefix_repeated(
                v@.subrange(lo as int, hi as int),
                p@,
            ),
        decreases hi - a,
    {
        proof {
            let sub = v@.subrange(a as int, hi as int);
            assert(sub.skip(p@.len() as int) == v@.subrange(a + p@.len(), hi as int));
        }
        a = a + p.len();
    }
    a
}


/// `v` with every character `a` replaced by `b`.
pub fn replace_char_vec(v: &Vec<char>, a: char, b: char) -> (res: Vec<char>)
    ensures
        res@ == replace_char(v@, a, b),
{
    let mut out: Vec<char> = Vec::new();
    let mut i: usize = 0;
    while i < v.len()
        invariant
            i <= v.len(),
            out@ == replace_char(v@, a, b).take(i as int),
        decreases v.len() - i,
    {
        let c = v[i];
        out.push(if c == a { b } else { c });
        proof {
            assert(replace_char(v@, a, b).take(i + 1) == replace_char(v@, a, b).take(i as int).push(
                replace_char(v@, a, b)[i as int],
            ));
        }
        i = i + 1;
    }
    proof {
        assert(replace_char(v@, a, b).take(v.len() as int) == replace_char(v@, a, b));
    }
    out
}

/// Whether `v` ends with `p`.
pub fn ends_with_exec(v: &Vec<char>, p: &Vec<char>) -> (res: bool)
    ensures
        res == ends_with(v@, p@),
{
    if p.len() > v.len() {
        return false;
    }
    let r = matches_at_exec(v, p, v.len() - p.len());
    proof {
        assert(v@.skip(v@.len() - p@.len()) == v@.subrange(v@.len() - p@.len(), v@.len() as int));
    }
    r
}

/// Copies of a list of strings.
pub fn clone_strings(v: &Vec<String>) -> (res: Vec<String>)
    ensures
        res@.len() == v@.len(),
        forall|i: int| 0 <= i < v@.len() ==> #[trigger] res@[i]@ == v@[i]@,
{
    let mut out: Vec<String> = Vec::new();
    let mut i: usize = 0;
    while i < v.len()
        invariant
            i <= v.len(),
            out@.len() == i,
            forall|j: int| 0 <= j < i ==> #[trigger] out@[j]@ == v@[j]@,
        decreases v.len() - i,
    {
        out.push(owned(v[i].as_str()));
        i = i + 1;
    }
    out
}

/// Copy of an optional string.
pub fn clone_opt_string(o: &Option<String>) -> (res: Option<String>)
    ensures
        match o {
            Some(s) => res matches Some(r) && r@ == s@,
            None => res is None,
        },
{
    match o {
        Some(s) => Some(owned(s.as_str())),
        None => None,
    }
}

/// std `u64::from_str` on the characters `v[lo..hi]`.
pub fn parse_u64_range(v: &Vec<char>, lo: usize, hi: usize) -> (res: Option<u64>)
    requires
        lo <= hi <= v.len(),
    ensures
        res == parse_u64(v@.subrange(lo as int, hi as int)),
{
    let ghost s = v@.subrange(lo as int, hi as int);
    let start = if lo < hi && v[lo] == '+' { lo + 1 } else { lo };
    let ghost d = v@.subrange(start as int, hi as int);
    proof {
        if lo < hi {
            assert(s[0] == v@[lo as int]);
        }
        if lo < hi && v@[lo as int] == '+' {
            assert(s.drop_first() == d);
        } else {
            assert(s == d);
        }
        assert(parse_u64(s) == parse_digits(d));
    }
    if start == hi {
        return None;
    }
    let mut i = start;
    while i < hi
        invariant
            start <= i <= hi <= v.len(),
            d == v@.subrange(start as int, hi as int),
            parse_u64(v@.subrange(lo as int, hi as int)) == parse_digits(d),
            forall|j: int| start <= j < i ==> is_digit(v@[j]),
        decreases hi - i,
    {
        if !('0' <= v[i] && v[i] <= '9') {
            proof {
                assert(!is_digit(d[i - start]));
            }
            return None;
        }
        i = i + 1;
    }
    proof {
        assert forall|j: int| 0 <= j < d.len() implies is_digit(#[trigger] d[j]) by {
            assert(d[j] == v@[start + j]);
        }
    }
    let mut value: u64 = 0;
    let mut k = start;
    proof {
        assert(d.take(0) =~= Seq::<char>::empty());
    }
    while k < hi
        invariant
            start <= k <= hi <= v.len(),
            d == v@.subrange(start as int, hi as int),
            d.len() > 0,
            parse_u64(v@.subrange(lo as int, hi as int)) == parse_digits(d),
            forall|j: int| 0 <= j < d.len() ==> is_digit(#[trigger] d[j]),
            value == digits_value(d.take(k - start)),
        decreases hi - k,
    {
        proof {
            assert(d[k - start] == v@[k as int]);
            assert(is_digit(d[k - start]));
        }
        let digit = ((v[k] as u32) - 48) as u64;
        proof {
            assert(d.take(k - start + 1).drop_last() == d.take(k - start));
            assert(d.take(k - start + 1).last() == v@[k as int]);
        }
        if value > (u64::MAX - digit) / 10 {
            proof {
                lemma_digits_value_grows(d, k - start + 1);
            }
            return None;
        }
        value = value * 10 + digit;
        k = k + 1;
    }
    proof {
        assert(d.take(d.len() as int) == d);
    }
    Some(value)
}

/// The value of a digit run is at least that of each of its prefixes.
pub proof fn lemma_digits_value_grows(d: Seq<char>, k: int)
    requires
        0 <= k <= d.len(),
    ensures
        digits_value(d.take(k)) <= digits_value(d),
    decreases d.len() - k,
{
    if k < d.len() {
        lemma_digits_value_grows(d, k + 1);
        assert(d.take(k + 1).drop_last() == d.take(k));
    } else {
        assert(d.take(k) == d);
    }
}

/// `s` with the non-empty suffix `p` removed as often as it repeats.
pub fn trim_suffix_repeated_str(s: &str, p: &str) -> (res: String)
    requires
        p@.len() > 0,
    ensures
        res@ == trim_suffix_repeated(s@, p@),
{
    let v = to_chars(s);
    let pv = to_chars(p);
    let mut end = v.len();
    proof {
        assert(v@.take(end as int) == v@);
    }
    while end >= pv.len() && matches_at_exec(&v, &pv, end - pv.len())
        invariant
            end <= v.len(),
            pv@ == p@,
            pv@.len() > 0,
            trim_suffix_repeated(v@.take(end as int), pv@) == trim_suffix_repeated(s@, p@),
            v@ == s@,
        decreases end,
    {
        proof {
            let t = v@.take(end as int);
            assert(t.skip(t.len() - pv@.len()) == v@.subrange(end - pv@.len(), end as int));
            assert(t.take(t.len() - pv@.len()) == v@.take(end - pv@.len()));
        }
        end = end - pv.len();
    }
    proof {
        let t = v@.take(end as int);
        if pv@.len() <= t.len() {
            assert(t.skip(t.len() - pv@.len()) == v@.subrange(end - pv@.len(), end as int));
        }
    }
    string_of(&v, 0, end)
}

pub proof fn lemma_strip_leading_suffix(s: Seq<char>, f: spec_fn(char) -> bool)
    ensures
        exists|k: int| 0 <= k <= s.len() && strip_leading(s, f) == s.skip(k),
        strip_leading(s, f).len() > 0 ==> !f(strip_leading(s, f)[0]),
    decreases s.len(),
{
    if s.len() > 0 && f(s[0]) {
        lemma_strip_leading_suffix(s.drop_first(), f);
        let k = choose|k: int| 0 <= k <= s.drop_first().len() && strip_leading(s.drop_first(), f) == s.drop_first().skip(k);
        assert(s.drop_first().skip(k) == s.skip(k + 1));
    } else {
        assert(s.skip(0) == s);
    }
}

pub proof fn lemma_strip_trailing_prefix(s: Seq<char>, f: spec_fn(char) -> bool)
    ensures
        exists|k: int| 0 <= k <= s.len() && strip_trailing(s, f) == s.take(k),
        strip_trailing(s, f).len() > 0 ==> !f(strip_trailing(s, f).last()),
    decreases s.len(),
{
    if s.len() > 0 && f(s.last()) {
        lemma_strip_trailing_prefix(s.drop_last(), f);
        let k = choose|k: int| 0 <= k <= s.drop_last().len() && strip_trailing(s.drop_last(), f) == s.drop_last().take(k);
        assert(s.drop_last().take(k) == s.take(k));
    } else {
        assert(s.take(s.len() as int) == s);
    }
}

/// Trimming trimmed text leaves it unchanged.
pub proof fn lemma_trim_idempotent(s: Seq<char>)
    ensures
        trim(trim(s)) == trim(s),
{
    let u = trim_start(s);
    let t = trim(s);
    lemma_strip_leading_suffix(s, ws_pred());
    lemma_strip_trailing_prefix(u, ws_pred());
    let k = choose|k: int| 0 <= k <= u.len() && strip_trailing(u, ws_pred()) == u.take(k);
    if t.len() > 0 {
        assert(t[0] == u[0]);
    }
    assert(strip_leading(t, ws_pred()) == t);
    assert(strip_trailing(t, ws_pred()) == t);
}

} // verus!
