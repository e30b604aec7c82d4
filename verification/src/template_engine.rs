//! Handlebars-style template rendering.
//!
//! Supported tags: `{{variable}}` (with dot paths), `{{#if x}}..{{else}}..{{/if}}`,
//! `{{#unless x}}..{{/unless}}`, `{{#each list}}..{{/each}}`, the case helpers
//! (`{{pascalCase x}}`, `{{camelCase x}}`, `{{kebabCase x}}`, `{{snakeCase x}}`,
//! `{{upperCase x}}`, `{{lowerCase x}}`, `{{startCase x}}`) and template references
//! `{{@template/name key=val}}`.
use vstd::prelude::*;
use crate::error::{internal_view, ToolError, ToolErrorView};
use crate::json::{
    display, is_truthy, lemma_jentries_index, lemma_jentries_len, lemma_jvs_index, lemma_jvs_len, jvs,
    display_text, truthy, clone_value, entries_get, insert_entry, jentries, jv, lookup, map_view, JsonMap, JsonValue,
    JsonView,
};
use crate::text::{
    find, find_from, find_from_exec, lemma_find_from_result, matches_at, matches_at_exec,
    push_str, slice_vec, starts_with, starts_with_exec, starts_with_range, index_of_char, nonempty, ranges_text, ranges_valid, split_char, split_ranges, split_ws,
    split_ws_ranges, string_of, trim, trim_char, trim_char_range, trim_range, words,
    ascii_lower, ascii_upper, replace_char, spec_is_uppercase, spec_to_lowercase, spec_to_uppercase,
    is_uppercase, owned, ascii_lower_char, ascii_upper_char, push_char, to_chars, to_lowercase, to_uppercase,
};

verus! {

// ─── Case helpers ───────────────────────────────────────────

/// Characters that separate words for the case helpers.
pub open spec fn is_word_sep(c: char) -> bool {
    c == '_' || c == '-' || c == ' '
}

/// Pascal-casing of `s`, where `next_upper` says whether the next word
/// character starts a word.
pub open spec fn pascal_from(s: Seq<char>, next_upper: bool) -> Seq<char>
    decreases s.len(),
{
    if s.len() == 0 {
        Seq::empty()
    } else if is_word_sep(s[0]) {
        pascal_from(s.drop_first(), true)
    } else if next_upper {
        seq![ascii_upper(s[0])] + pascal_from(s.drop_first(), false)
    } else {
        seq![s[0]] + pascal_from(s.drop_first(), false)
    }
}

/// `hello_world` → `HelloWorld`: separators dropped, each word's first
/// character ASCII upper-cased.
pub open spec fn pascal_case(s: Seq<char>) -> Seq<char> {
    pascal_from(s, true)
}

/// Pascal case with its first character ASCII lower-cased.
pub open spec fn camel_case(s: Seq<char>) -> Seq<char> {
    let p = pascal_case(s);
    if p.len() == 0 {
        p
    } else {
        p.update(0, ascii_lower(p[0]))
    }
}

/// Start-casing of `s`: separators become spaces, each word's first character
/// ASCII upper-cased.
pub open spec fn start_from(s: Seq<char>, next_upper: bool) -> Seq<char>
    decreases s.len(),
{
    if s.len() == 0 {
        Seq::empty()
    } else if is_word_sep(s[0]) {
        seq![' '] + start_from(s.drop_first(), true)
    } else if next_upper {
        seq![ascii_upper(s[0])] + start_from(s.drop_first(), false)
    } else {
        seq![s[0]] + start_from(s.drop_first(), false)
    }
}

/// `hello_world` → `Hello World`.
pub open spec fn start_case(s: Seq<char>) -> Seq<char> {
    start_from(s, true)
}

/// Snake-case text for one character; `later` says it is not the first one.
pub open spec fn snake_piece(c: char, later: bool) -> Seq<char> {
    if spec_is_uppercase(c) && later {
        seq!['_', ascii_lower(c)]
    } else if c == '-' || c == ' ' {
        seq!['_']
    } else {
        seq![ascii_lower(c)]
    }
}

/// `helloWorld` → `hello_world`: an upper-case character after the first
/// becomes `_` and its lower case, `-` and space become `_`, and every other
/// character is ASCII lower-cased.
pub open spec fn snake_case(s: Seq<char>) -> Seq<char>
    decreases s.len(),
{
    if s.len() == 0 {
        Seq::empty()
    } else {
        snake_case(s.drop_last()) + snake_piece(s.last(), s.len() > 1)
    }
}

/// Snake case with `_` replaced by `-`.
pub open spec fn kebab_case(s: Seq<char>) -> Seq<char> {
    replace_char(snake_case(s), '_', '-')
}

/// Result of applying the helper named `name` to `value`; an unknown helper
/// passes the value through.
pub open spec fn helper_result(name: Seq<char>, value: Seq<char>) -> Seq<char> {
    if name == "pascalCase"@ || name == "PascalCase"@ {
        pascal_case(value)
    } else if name == "camelCase"@ {
        camel_case(value)
    } else if name == "kebabCase"@ || name == "kebab-case"@ {
        kebab_case(value)
    } else if name == "snakeCase"@ || name == "snake_case"@ {
        snake_case(value)
    } else if name == "upperCase"@ || name == "UPPERCASE"@ {
        spec_to_uppercase(value)
    } else if name == "lowerCase"@ || name == "lowercase"@ {
        spec_to_lowercase(value)
    } else if name == "startCase"@ || name == "Start Case"@ {
        start_case(value)
    } else {
        value
    }
}

/// Pascal case of `s`.
pub fn to_pascal_case(s: &str) -> (res: String)
    ensures
        res@ == pascal_case(s@),
{
    let v = to_chars(s);
    let mut out = String::new();
    let mut next_upper = true;
    let mut i: usize = 0;
    proof {
        assert(v@.skip(0) == v@);
    }
    while i < v.len()
        invariant
            i <= v.len(),
            v@ == s@,
            out@ + pascal_from(v@.skip(i as int), next_upper) == pascal_case(s@),
        decreases v.len() - i,
    {
        let ch = v[i];
        let ghost rest = v@.skip(i as int);
        proof {
            assert(rest[0] == ch);
            assert(rest.drop_first() == v@.skip(i + 1));
        }
        let ghost before = out@;
        if ch == '_' || ch == '-' || ch == ' ' {
            next_upper = true;
        } else if next_upper {
            push_char(&mut out, ascii_upper_char(ch));
            next_upper = false;
            proof {
                assert(before + (seq![ascii_upper(ch)] + pascal_from(v@.skip(i + 1), false)) == out@
                    + pascal_from(v@.skip(i + 1), false));
            }
        } else {
            push_char(&mut out, ch);
            proof {
                assert(before + (seq![ch] + pascal_from(v@.skip(i + 1), false)) == out@ + pascal_from(
                    v@.skip(i + 1),
                    false,
                ));
            }
        }
        i = i + 1;
    }
    proof {
        assert(out@ + Seq::<char>::empty() == out@);
    }
    out
}

/// Camel case of `s`.
pub fn to_camel_case(s: &str) -> (res: String)
    ensures
        res@ == camel_case(s@),
{
    let p = to_pascal_case(s);
    let v = to_chars(p.as_str());
    let mut out = String::new();
    let mut i: usize = 0;
    while i < v.len()
        invariant
            i <= v.len(),
            v@ == pascal_case(s@),
            out@ == camel_case(s@).take(i as int),
        decreases v.len() - i,
    {
        let c = if i == 0 { ascii_lower_char(v[i]) } else { v[i] };
        push_char(&mut out, c);
        proof {
            assert(camel_case(s@).take(i + 1) == camel_case(s@).take(i as int).push(c));
        }
        i = i + 1;
    }
    proof {
        assert(camel_case(s@).take(v.len() as int) == camel_case(s@));
    }
    out
}

/// Start case of `s`.
pub fn to_start_case(s: &str) -> (res: String)
    ensures
        res@ == start_case(s@),
{
    let v = to_chars(s);
    let mut out = String::new();
    let mut next_upper = true;
    let mut i: usize = 0;
    proof {
        assert(v@.skip(0) == v@);
    }
    while i < v.len()
        invariant
            i <= v.len(),
            v@ == s@,
            out@ + start_from(v@.skip(i as int), next_upper) == start_case(s@),
        decreases v.len() - i,
    {
        let ch = v[i];
        let ghost rest = v@.skip(i as int);
        proof {
            assert(rest[0] == ch);
            assert(rest.drop_first() == v@.skip(i + 1));
        }
        let ghost before = out@;
        let ghost nu = next_upper;
        if ch == '_' || ch == '-' || ch == ' ' {
            push_char(&mut out, ' ');
            next_upper = true;
        } else if next_upper {
            push_char(&mut out, ascii_upper_char(ch));
            next_upper = false;
        } else {
            push_char(&mut out, ch);
        }
        proof {
            let tail = start_from(v@.skip(i + 1), next_upper);
            assert(out@.len() == before.len() + 1);
            assert(before + (seq![out@.last()] + tail) == out@ + tail);
        }
        i = i + 1;
    }
    proof {
        assert(out@ + Seq::<char>::empty() == out@);
    }
    out
}

/// Snake case of `s`.
pub fn to_snake_case(s: &str) -> (res: String)
    ensures
        res@ == snake_case(s@),
{
    let v = to_chars(s);
    let mut out = String::new();
    let mut i: usize = 0;
    proof {
        assert(v@.take(0) =~= Seq::<char>::empty());
    }
    while i < v.len()
        invariant
            i <= v.len(),
            v@ == s@,
            out@ == snake_case(v@.take(i as int)),
        decreases v.len() - i,
    {
        let ch = v[i];
        let up = is_uppercase(ch);
        if up && i > 0 {
            push_char(&mut out, '_');
            push_char(&mut out, ascii_lower_char(ch));
        } else if ch == '-' || ch == ' ' {
            push_char(&mut out, '_');
        } else {
            push_char(&mut out, ascii_lower_char(ch));
        }
        proof {
            let t = v@.take(i + 1);
            assert(t.drop_last() == v@.take(i as int));
            assert(t.last() == ch);
            assert(out@ == snake_case(v@.take(i as int)) + snake_piece(ch, i + 1 > 1));
        }
        i = i + 1;
    }
    proof {
        assert(v@.take(v.len() as int) == v@);
    }
    out
}

/// Kebab case of `s`.
pub fn to_kebab_case(s: &str) -> (res: String)
    ensures
        res@ == kebab_case(s@),
{
    let snake = to_snake_case(s);
    let v = to_chars(snake.as_str());
    let r = crate::text::replace_char_vec(&v, '_', '-');
    crate::text::string_of_all(&r)
}

/// Applies the case helper named `name` to `value`.
pub fn apply_helper(name: &str, value: &str) -> (res: String)
    ensures
        res@ == helper_result(name@, value@),
{
    proof {
        reveal_strlit("pascalCase");
        reveal_strlit("PascalCase");
        reveal_strlit("camelCase");
        reveal_strlit("kebabCase");
        reveal_strlit("kebab-case");
        reveal_strlit("snakeCase");
        reveal_strlit("snake_case");
        reveal_strlit("upperCase");
        reveal_strlit("UPPERCASE");
        reveal_strlit("lowerCase");
        reveal_strlit("lowercase");
        reveal_strlit("startCase");
        reveal_strlit("Start Case");
    }
    let eq = |a: &str, b: &str| -> (r: bool)
        ensures r == (a@ == b@)
    { crate::text::str_eq(a, b) };
    if eq(name, "pascalCase") || eq(name, "PascalCase") {
        to_pascal_case(value)
    } else if eq(name, "camelCase") {
        to_camel_case(value)
    } else if eq(name, "kebabCase") || eq(name, "kebab-case") {
        to_kebab_case(value)
    } else if eq(name, "snakeCase") || eq(name, "snake_case") {
        to_snake_case(value)
    } else if eq(name, "upperCase") || eq(name, "UPPERCASE") {
        to_uppercase(value)
    } else if eq(name, "lowerCase") || eq(name, "lowercase") {
        to_lowercase(value)
    } else if eq(name, "startCase") || eq(name, "Start Case") {
        to_start_case(value)
    } else {
        owned(value)
    }
}

// ─── Variables ──────────────────────────────────────────────

/// View of an optional borrowed value.
pub open spec fn opt_view(cur: Option<&JsonValue>) -> Option<JsonView> {
    match cur {
        Some(v) => Some(jv(*v)),
        None => None,
    }
}

/// Follows the remaining dot-path `parts` from `cur`: each part looks up a key
/// of an object; anything else, or a missing key, gives null.
pub open spec fn walk_path(cur: Option<JsonView>, parts: Seq<Seq<char>>) -> JsonView
    decreases parts.len(),
{
    if parts.len() == 0 {
        match cur {
            Some(v) => v,
            None => JsonView::Null,
        }
    } else {
        match cur {
            Some(JsonView::Object(es, _)) => walk_path(lookup(es, parts[0]), parts.drop_first()),
            _ => JsonView::Null,
        }
    }
}

/// Value of the dot-separated variable `name` in the context `ctx` (null when absent).
pub open spec fn resolve_path(ctx: Seq<(Seq<char>, JsonView)>, name: Seq<char>) -> JsonView {
    let parts = split_char(name, '.');
    walk_path(lookup(ctx, parts[0]), parts.drop_first())
}

/// Resolves a variable name in the context; `a.b` looks up `b` in the object `a`.
pub fn resolve_variable(name: &str, variables: &JsonMap) -> (res: JsonValue)
    ensures
        jv(res) == resolve_path(map_view(variables), name@),
{
    let v = to_chars(name);
    let rs = split_ranges(&v, '.');
    let ghost parts = split_char(v@, '.');
    proof {
        assert(parts.len() >= 1);
        assert(ranges_text(v@, rs@).len() == rs@.len());
        assert(rs@[0].0 <= rs@[0].1 && rs@[0].1 <= v@.len());
        assert(ranges_text(v@, rs@)[0] == v@.subrange(rs@[0].0 as int, rs@[0].1 as int));
    }
    let first = string_of(&v, rs[0].0, rs[0].1);
    let mut cur: Option<&JsonValue> = variables.get(first.as_str());
    let mut i: usize = 1;
    proof {
        assert(parts.skip(1) == parts.drop_first());
    }
    while i < rs.len()
        invariant
            1 <= i <= rs.len(),
            v@ == name@,
            parts == split_char(v@, '.'),
            ranges_valid(rs@, v@.len() as int),
            ranges_text(v@, rs@) == parts,
            walk_path(opt_view(cur), parts.skip(i as int)) == resolve_path(map_view(variables), name@),
        decreases rs.len() - i,
    {
        proof {
            assert(rs@[i as int].0 <= rs@[i as int].1 && rs@[i as int].1 <= v@.len());
            assert(ranges_text(v@, rs@)[i as int] == v@.subrange(rs@[i as int].0 as int, rs@[i as int].1 as int));
            assert(parts.skip(i as int)[0] == parts[i as int]);
            assert(parts.skip(i as int).drop_first() == parts.skip(i + 1));
        }
        match cur {
            Some(JsonValue::Object(entries, _)) => {
                let key = string_of(&v, rs[i].0, rs[i].1);
                cur = entries_get(entries, key.as_str());
            },
            _ => {
                return JsonValue::Null;
            },
        }
        i = i + 1;
    }
    proof {
        assert(parts.skip(rs.len() as int).len() == 0);
    }
    match cur {
        Some(x) => clone_value(x),
        None => JsonValue::Null,
    }
}

// ─── Template references ────────────────────────────────────

/// Arguments after adding one `key=value` word: the value, with surrounding
/// double quotes removed, bound as a string; a word without `=` adds nothing.
pub open spec fn arg_pair(acc: Seq<(Seq<char>, JsonView)>, pair: Seq<char>) -> Seq<(Seq<char>, JsonView)> {
    let k = index_of_char(pair, '=');
    if k < pair.len() {
        insert_entry(acc, pair.take(k as int), JsonView::Str(trim_char(pair.skip(k as int + 1), '"')))
    } else {
        acc
    }
}

/// Arguments bound by a sequence of words, left to right.
pub open spec fn args_of(pairs: Seq<Seq<char>>) -> Seq<(Seq<char>, JsonView)>
    decreases pairs.len(),
{
    if pairs.len() == 0 {
        Seq::empty()
    } else {
        arg_pair(args_of(pairs.drop_last()), pairs.last())
    }
}

/// Name and arguments of `name key=val key2="val2"`: the name is the trimmed
/// text before the first space, the arguments come from the words after it.
pub open spec fn template_ref(input: Seq<char>) -> (Seq<char>, Seq<(Seq<char>, JsonView)>) {
    let t = trim(input);
    let k = index_of_char(t, ' ');
    (trim(t.take(k as int)), if k < t.len() { args_of(words(t.skip(k as int + 1))) } else { Seq::empty() })
}

/// Parses a template reference `name key=val key2=val2`.
pub fn parse_template_ref(input: &str) -> (res: (String, JsonMap))
    ensures
        res.0@ == template_ref(input@).0,
        map_view(&res.1) == template_ref(input@).1,
{
    let raw = to_chars(input);
    let (a, b) = trim_range(&raw, 0, raw.len());
    proof {
        assert(raw@.subrange(0, raw@.len() as int) == raw@);
    }
    let t = crate::text::slice_vec(&raw, a, b);
    let ghost tv = trim(input@);
    let mut k: usize = 0;
    while k < t.len() && t[k] != ' '
        invariant
            k <= t.len(),
            t@ == tv,
            forall|j: int| 0 <= j < k ==> t@[j] != ' ',
        decreases t.len() - k,
    {
        k = k + 1;
    }
    proof {
        crate::text::lemma_index_of_char_unique(tv, ' ', k as int);
        assert(t@.subrange(0, k as int) == tv.take(k as int));
    }
    let (na, nb) = trim_range(&t, 0, k);
    let name = string_of(&t, na, nb);
    let mut args = JsonMap::new();
    if k < t.len() {
        let rest = crate::text::slice_vec(&t, k + 1, t.len());
        proof {
            assert(rest@ == tv.skip(k + 1));
        }
        let ranges = split_ws_ranges(&rest);
        let ghost segs = split_ws(rest@);
        let ghost pred = |w: Seq<char>| nonempty(w);
        let mut i: usize = 0;
        proof {
            reveal(Seq::filter);
            assert(segs.take(0).filter(pred) =~= Seq::<Seq<char>>::empty());
        }
        while i < ranges.len()
            invariant
                i <= ranges.len(),
                ranges_valid(ranges@, rest@.len() as int),
                ranges_text(rest@, ranges@) == segs,
                segs == split_ws(rest@),
                pred == (|w: Seq<char>| nonempty(w)),
                map_view(&args) == args_of(segs.take(i as int).filter(pred)),
            decreases ranges.len() - i,
        {
            let (lo, hi) = ranges[i];
            let ghost seg = rest@.subrange(lo as int, hi as int);
            let ghost before = segs.take(i as int).filter(pred);
            proof {
                reveal(Seq::filter);
                assert(ranges@[i as int].0 <= ranges@[i as int].1 && ranges@[i as int].1 <= rest@.len());
                assert(segs.take(i + 1).last() == seg);
                assert(segs.take(i + 1).drop_last() == segs.take(i as int));
            }
            if lo < hi {
                proof {
                    assert(segs.take(i + 1).filter(pred) == before.push(seg));
                    assert(before.push(seg).drop_last() == before);
                }
                let mut e = lo;
                while e < hi && rest[e] != '='
                    invariant
                        lo <= e <= hi <= rest.len(),
                        forall|j: int| lo <= j < e ==> rest@[j] != '=',
                    decreases hi - e,
                {
                    e = e + 1;
                }
                proof {
                    assert forall|j: int| 0 <= j < e - lo implies seg[j] != '=' by {
                        assert(seg[j] == rest@[lo + j]);
                    }
                    if e < hi {
                        assert(seg[e - lo] == rest@[e as int]);
                    }
                    crate::text::lemma_index_of_char_unique(seg, '=', e - lo);
                }
                if e < hi {
                    let key = string_of(&rest, lo, e);
                    let (va, vb) = trim_char_range(&rest, e + 1, hi, '"');
                    let val = string_of(&rest, va, vb);
                    proof {
                        assert(key@ == seg.take(e - lo));
                        assert(rest@.subrange(e + 1, hi as int) == seg.skip(e - lo + 1));
                    }
                    args.insert(key, JsonValue::String(val));
                }
            } else {
                proof {
                    assert(segs.take(i + 1).filter(pred) == before);
                }
            }
            i = i + 1;
        }
        proof {
            assert(segs.take(ranges.len() as int) == segs);
        }
    }
    (name, args)
}

// ─── Rendering: specification ───────────────────────────────

/// The view of a rendering: output text and referenced template names.
pub open spec fn emit(o: Seq<char>) -> Result<(Seq<char>, Seq<Seq<char>>), ToolErrorView> {
    Ok((o, Seq::empty()))
}

/// Sequential composition of two renderings: the first error, or both
/// outputs and both reference lists concatenated.
pub open spec fn then(
    a: Result<(Seq<char>, Seq<Seq<char>>), ToolErrorView>,
    b: Result<(Seq<char>, Seq<Seq<char>>), ToolErrorView>,
) -> Result<(Seq<char>, Seq<Seq<char>>), ToolErrorView> {
    match a {
        Err(e) => Err(e),
        Ok((o1, r1)) => match b {
            Err(e) => Err(e),
            Ok((o2, r2)) => Ok((o1 + o2, r1 + r2)),
        },
    }
}

/// Error for nesting deeper than ten levels.
pub open spec fn depth_error() -> ToolErrorView {
    internal_view("Template recursion depth exceeded (max 10)"@)
}

/// Error for a block `name` without its closing tag.
pub open spec fn unclosed_error(name: Seq<char>) -> ToolErrorView {
    internal_view("Unclosed block '"@ + name + "' — missing {/"@ + name + "}"@)
}

/// Error for a closing tag with no opening tag.
pub open spec fn closing_error(tag: Seq<char>) -> ToolErrorView {
    internal_view("Unexpected closing tag '"@ + tag + "' with no matching opening tag"@)
}

/// Scan of `t` from `pos` for the tag `{{/name}}` that closes a block, with
/// `depth` blocks of the same name open: the index where the closing tag
/// starts and the index just after it. Nested `{{#name..}}` tags open more
/// blocks; a `{{` with no `}}` after it is skipped.
pub open spec fn extract_scan(t: Seq<char>, name: Seq<char>, pos: int, depth: nat) -> Result<(int, int), ToolErrorView>
    decreases t.len() - pos,
{
    proof {
        reveal_strlit("{{");
        reveal_strlit("}}");
    }
    if pos < 0 || pos >= t.len() {
        Err(unclosed_error(name))
    } else if matches_at(t, "{{"@, pos) {
        match find_from(t, "}}"@, pos + 2) {
            None => extract_scan(t, name, pos + 2, depth),
            Some(te) => {
                proof {
                    lemma_find_from_result(t, "}}"@, pos + 2);
                }
                let inner = trim(t.subrange(pos + 2, te));
                if starts_with(inner, "/"@) && inner.skip(1) == name {
                    if depth <= 1 {
                        Ok((pos, te + 2))
                    } else {
                        extract_scan(t, name, te + 2, (depth - 1) as nat)
                    }
                } else if starts_with(inner, "#"@ + name) {
                    extract_scan(t, name, te + 2, depth + 1)
                } else {
                    extract_scan(t, name, te + 2, depth)
                }
            },
        }
    } else {
        extract_scan(t, name, pos + 1, depth)
    }
}

/// Scan of the body `t` of an `{{#if}}` block from `pos`, with `depth`
/// nested `if` blocks open, for the `{{else}}` tag that belongs to the block
/// itself: an `{{else}}` inside a nested `{{#if}}..{{/if}}` is skipped.
pub open spec fn else_scan(t: Seq<char>, pos: int, depth: nat) -> Option<int>
    decreases t.len() - pos,
{
    proof {
        reveal_strlit("{{");
        reveal_strlit("}}");
    }
    if pos < 0 || pos >= t.len() {
        None
    } else if matches_at(t, "{{"@, pos) {
        match find_from(t, "}}"@, pos + 2) {
            None => None,
            Some(te) => {
                proof {
                    lemma_find_from_result(t, "}}"@, pos + 2);
                }
                let inner = trim(t.subrange(pos + 2, te));
                if depth == 0 && t.subrange(pos + 2, te) == "else"@ {
                    Some(pos)
                } else if starts_with(inner, "/"@) && inner.skip(1) == "if"@ {
                    else_scan(t, te + 2, if depth == 0 { 0 } else { (depth - 1) as nat })
                } else if starts_with(inner, "#if"@) {
                    else_scan(t, te + 2, depth + 1)
                } else {
                    else_scan(t, te + 2, depth)
                }
            },
        }
    } else {
        else_scan(t, pos + 1, depth)
    }
}

/// Index of the `{{else}}` of an `{{#if}}` block whose body is `t`.
pub open spec fn else_of(t: Seq<char>) -> Option<int> {
    else_scan(t, 0, 0)
}

/// Where the body of the block opened by `tag` ends and where rendering
/// resumes, for a tag that ends at `from`; tags that open no block have an
/// empty body.
pub open spec fn block_of(t: Seq<char>, tag: Seq<char>, from: int) -> Result<(int, int), ToolErrorView> {
    if starts_with(tag, "#if "@) {
        extract_scan(t, "if"@, from, 1)
    } else if starts_with(tag, "#unless "@) {
        extract_scan(t, "unless"@, from, 1)
    } else if starts_with(tag, "#each "@) {
        extract_scan(t, "each"@, from, 1)
    } else {
        Ok((from, from))
    }
}

pub proof fn lemma_extract_bounds(t: Seq<char>, name: Seq<char>, pos: int, depth: nat)
    requires
        0 <= pos,
    ensures
        extract_scan(t, name, pos, depth) matches Ok((be, nx)) ==> pos <= be && be < nx && nx <= t.len(),
    decreases t.len() - pos,
{
    reveal_strlit("{{");
    reveal_strlit("}}");
    if pos < t.len() {
        if matches_at(t, "{{"@, pos) {
            lemma_find_from_result(t, "}}"@, pos + 2);
            match find_from(t, "}}"@, pos + 2) {
                None => lemma_extract_bounds(t, name, pos + 2, depth),
                Some(te) => {
                    lemma_extract_bounds(t, name, te + 2, (depth - 1) as nat);
                    lemma_extract_bounds(t, name, te + 2, depth + 1);
                    lemma_extract_bounds(t, name, te + 2, depth);
                },
            }
        } else {
            lemma_extract_bounds(t, name, pos + 1, depth);
        }
    }
}

pub proof fn lemma_block_bounds(t: Seq<char>, tag: Seq<char>, from: int)
    requires
        0 <= from <= t.len(),
    ensures
        block_of(t, tag, from) matches Ok((be, nx)) ==> from <= be && be <= nx && nx <= t.len(),
{
    lemma_extract_bounds(t, "if"@, from, 1);
    lemma_extract_bounds(t, "unless"@, from, 1);
    lemma_extract_bounds(t, "each"@, from, 1);
}

/// Truth of the condition of `{{#if}}` or `{{#unless}}`: the literals `true`,
/// `false`, `null`, `nil` and `undefined`; a number literal, whose truth `nl`
/// gives; otherwise the truth of the variable.
pub open spec fn cond_value(
    expr: Seq<char>,
    ctx: Seq<(Seq<char>, JsonView)>,
    nl: spec_fn(Seq<char>) -> Option<bool>,
) -> bool {
    let e = trim(expr);
    if e == "true"@ {
        true
    } else if e == "false"@ {
        false
    } else if e == "null"@ || e == "nil"@ || e == "undefined"@ {
        false
    } else {
        match nl(e) {
            Some(b) => b,
            None => truthy(resolve_path(ctx, e)),
        }
    }
}

/// `ctx` with the entries `es` bound in order.
pub open spec fn insert_all(ctx: Seq<(Seq<char>, JsonView)>, es: Seq<(Seq<char>, JsonView)>) -> Seq<
    (Seq<char>, JsonView),
>
    decreases es.len(),
{
    if es.len() == 0 {
        ctx
    } else {
        insert_entry(insert_all(ctx, es.drop_last()), es.last().0, es.last().1)
    }
}

/// Context of one `{{#each}}` item: `this` bound to the item and, for an
/// object, each of its entries bound as well.
pub open spec fn item_ctx(ctx: Seq<(Seq<char>, JsonView)>, item: JsonView) -> Seq<(Seq<char>, JsonView)> {
    let c = insert_entry(ctx, "this"@, item);
    match item {
        JsonView::Object(es, _) => insert_all(c, es),
        _ => c,
    }
}

/// Rendering of `t` in the context `ctx` at nesting `depth`. `rt` gives the
/// content of a referenced template (or its error) and `nl` the truth of a
/// condition that reads as a number.
pub open spec fn render_spec(
    t: Seq<char>,
    ctx: Seq<(Seq<char>, JsonView)>,
    rt: spec_fn(Seq<char>) -> Result<Seq<char>, ToolErrorView>,
    nl: spec_fn(Seq<char>) -> Option<bool>,
    depth: nat,
) -> Result<(Seq<char>, Seq<Seq<char>>), ToolErrorView>
    decreases 11 - depth, 4int, 0int,
{
    if depth > 10 {
        Err(depth_error())
    } else {
        render_from(t, 0, ctx, rt, nl, depth)
    }
}

/// Rendering of `t` from index `pos`: text up to the next `{{` is copied, the
/// tag up to the next `}}` is rendered (with the body of its block, if it
/// opens one), and rendering goes on after it. A `{{` with no `}}` after it is
/// copied with the rest of the text.
pub open spec fn render_from(
    t: Seq<char>,
    pos: int,
    ctx: Seq<(Seq<char>, JsonView)>,
    rt: spec_fn(Seq<char>) -> Result<Seq<char>, ToolErrorView>,
    nl: spec_fn(Seq<char>) -> Option<bool>,
    depth: nat,
) -> Result<(Seq<char>, Seq<Seq<char>>), ToolErrorView>
    decreases 11 - depth, 3int, t.len() - pos,
{
    proof {
        reveal_strlit("{{");
        reveal_strlit("}}");
    }
    if depth > 10 {
        Err(depth_error())
    } else if pos < 0 || pos >= t.len() {
        emit(Seq::empty())
    } else {
        match find_from(t, "{{"@, pos) {
            None => emit(t.skip(pos)),
            Some(p) => {
                proof {
                    lemma_find_from_result(t, "{{"@, pos);
                }
                match find_from(t, "}}"@, p + 2) {
                    None => emit(t.subrange(pos, p) + "{{"@ + t.skip(p + 2)),
                    Some(e) => {
                        proof {
                            lemma_find_from_result(t, "}}"@, p + 2);
                        }
                        let tag = trim(t.subrange(p + 2, e));
                        match block_of(t, tag, e + 2) {
                            Err(err) => Err(err),
                            Ok((be, nx)) => {
                                proof {
                                    lemma_block_bounds(t, tag, e + 2);
                                }
                                then(
                                    emit(t.subrange(pos, p)),
                                    then(
                                        tag_output(tag, t.subrange(e + 2, be), ctx, rt, nl, depth),
                                        render_from(t, nx, ctx, rt, nl, depth),
                                    ),
                                )
                            },
                        }
                    },
                }
            },
        }
    }
}

/// Output of one tag, given the body of the block it opens.
pub open spec fn tag_output(
    tag: Seq<char>,
    block: Seq<char>,
    ctx: Seq<(Seq<char>, JsonView)>,
    rt: spec_fn(Seq<char>) -> Result<Seq<char>, ToolErrorView>,
    nl: spec_fn(Seq<char>) -> Option<bool>,
    depth: nat,
) -> Result<(Seq<char>, Seq<Seq<char>>), ToolErrorView>
    decreases 11 - depth, 2int, 0int,
{
    if depth > 10 {
        Err(depth_error())
    } else if tag.len() == 0 {
        emit("{{}}"@)
    } else if starts_with(tag, "#if "@) {
        if cond_value(trim(tag.skip(4)), ctx, nl) {
            match else_of(block) {
                Some(k) => render_spec(block.take(k), ctx, rt, nl, depth + 1),
                None => render_spec(block, ctx, rt, nl, depth + 1),
            }
        } else {
            match else_of(block) {
                Some(k) => render_spec(block.skip(k + 8), ctx, rt, nl, depth + 1),
                None => emit(Seq::empty()),
            }
        }
    } else if starts_with(tag, "#unless "@) {
        if !cond_value(trim(tag.skip(8)), ctx, nl) {
            render_spec(block, ctx, rt, nl, depth + 1)
        } else {
            emit(Seq::empty())
        }
    } else if starts_with(tag, "#each "@) {
        let items = resolve_path(ctx, trim(tag.skip(6)));
        match items {
            JsonView::Array(arr, _) => each_output(arr, block, ctx, rt, nl, depth),
            _ => render_spec(block, insert_entry(ctx, "this"@, items), rt, nl, depth + 1),
        }
    } else if starts_with(tag, "/"@) {
        Err(closing_error(tag))
    } else if starts_with(tag, "@template/"@) {
        let r = template_ref(tag.skip(10));
        match rt(r.0) {
            Err(e) => Err(e),
            Ok(content) => then(Ok((Seq::empty(), seq![r.0])), render_spec(content, r.1, rt, nl, depth + 1)),
        }
    } else if index_of_char(tag, ' ') < tag.len() {
        let k = index_of_char(tag, ' ');
        emit(helper_result(trim(tag.take(k as int)), display_text(resolve_path(ctx, trim(tag.skip(k as int + 1))))))
    } else {
        emit(display_text(resolve_path(ctx, tag)))
    }
}

/// Rendering of a block once per item, in order.
pub open spec fn each_output(
    items: Seq<JsonView>,
    block: Seq<char>,
    ctx: Seq<(Seq<char>, JsonView)>,
    rt: spec_fn(Seq<char>) -> Result<Seq<char>, ToolErrorView>,
    nl: spec_fn(Seq<char>) -> Option<bool>,
    depth: nat,
) -> Result<(Seq<char>, Seq<Seq<char>>), ToolErrorView>
    decreases 11 - depth, 1int, items.len() as int,
{
    if depth > 10 {
        Err(depth_error())
    } else if items.len() == 0 {
        emit(Seq::empty())
    } else {
        then(
            render_spec(block, item_ctx(ctx, items[0]), rt, nl, depth + 1),
            each_output(items.drop_first(), block, ctx, rt, nl, depth),
        )
    }
}

// ─── Rendering: callbacks ───────────────────────────────────

/// View of a template lookup result.
pub open spec fn result_view(r: Result<String, ToolError>) -> Result<Seq<char>, ToolErrorView> {
    match r {
        Ok(s) => Ok(s@),
        Err(e) => Err(e@),
    }
}

/// The template resolver gives equal results for equal names.
pub open spec fn resolver_consistent<F: Fn(&str) -> Result<String, ToolError>>(f: F) -> bool {
    forall|a: &str, b: &str, ra: Result<String, ToolError>, rb: Result<String, ToolError>|
        #![trigger call_ensures(f, (a,), ra), call_ensures(f, (b,), rb)]
        call_ensures(f, (a,), ra) && call_ensures(f, (b,), rb) && a@ == b@ ==> result_view(ra)
            == result_view(rb)
}

/// What the template resolver gives for each name.
pub open spec fn resolver_fn<F: Fn(&str) -> Result<String, ToolError>>(f: F) -> spec_fn(Seq<char>) -> Result<
    Seq<char>,
    ToolErrorView,
> {
    |n: Seq<char>|
        result_view(
            (choose|p: (&str, Result<String, ToolError>)| p.0@ == n && call_ensures(f, (p.0,), p.1)).1,
        )
}

/// The number-literal reader gives equal results for equal texts.
pub open spec fn literal_consistent<G: Fn(&str) -> Option<bool>>(g: G) -> bool {
    forall|a: &str, b: &str, ra: Option<bool>, rb: Option<bool>|
        #![trigger call_ensures(g, (a,), ra), call_ensures(g, (b,), rb)]
        call_ensures(g, (a,), ra) && call_ensures(g, (b,), rb) && a@ == b@ ==> ra == rb
}

/// What the number-literal reader gives for each text.
pub open spec fn literal_fn<G: Fn(&str) -> Option<bool>>(g: G) -> spec_fn(Seq<char>) -> Option<bool> {
    |n: Seq<char>| (choose|p: (&str, Option<bool>)| p.0@ == n && call_ensures(g, (p.0,), p.1)).1
}

/// Both callbacks are functions of their argument's text.
pub open spec fn callbacks_consistent<F: Fn(&str) -> Result<String, ToolError>, G: Fn(&str) -> Option<bool>>(
    f: F,
    g: G,
) -> bool {
    resolver_consistent(f) && literal_consistent(g)
}

/// Both callbacks accept every argument.
pub open spec fn callbacks_callable<F: Fn(&str) -> Result<String, ToolError>, G: Fn(&str) -> Option<bool>>(
    f: F,
    g: G,
) -> bool {
    (forall|n: &str| call_requires(f, (n,))) && (forall|n: &str| call_requires(g, (n,)))
}

proof fn lemma_resolver_fn<F: Fn(&str) -> Result<String, ToolError>>(
    f: F,
    a: &str,
    r: Result<String, ToolError>,
)
    requires
        resolver_consistent(f),
        call_ensures(f, (a,), r),
    ensures
        resolver_fn(f)(a@) == result_view(r),
{
    let w = (a, r);
    assert(w.0@ == a@ && call_ensures(f, (w.0,), w.1));
    let p = choose|p: (&str, Result<String, ToolError>)| p.0@ == a@ && call_ensures(f, (p.0,), p.1);
    assert(call_ensures(f, (p.0,), p.1) && call_ensures(f, (a,), r));
}

proof fn lemma_literal_fn<G: Fn(&str) -> Option<bool>>(g: G, a: &str, r: Option<bool>)
    requires
        literal_consistent(g),
        call_ensures(g, (a,), r),
    ensures
        literal_fn(g)(a@) == r,
{
    let w = (a, r);
    assert(w.0@ == a@ && call_ensures(g, (w.0,), w.1));
    let p = choose|p: (&str, Option<bool>)| p.0@ == a@ && call_ensures(g, (p.0,), p.1);
    assert(call_ensures(g, (p.0,), p.1) && call_ensures(g, (a,), r));
}

// ─── Rendering: blocks ──────────────────────────────────────

/// Whether `v[lo..hi]` equals `p`.
fn range_eq(v: &Vec<char>, lo: usize, hi: usize, p: &Vec<char>) -> (res: bool)
    requires
        lo <= hi <= v.len(),
    ensures
        res == (v@.subrange(lo as int, hi as int) == p@),
{
    if hi - lo != p.len() {
        return false;
    }
    matches_at_exec(v, p, lo)
}

/// Finds the end of the block `name` whose body starts at `from`: the index
/// of its closing tag and the index after it.
fn extract_block(v: &Vec<char>, name: &str, from: usize) -> (res: Result<(usize, usize), ToolError>)
    requires
        from <= v.len(),
    ensures
        match extract_scan(v@, name@, from as int, 1) {
            Ok((be, nx)) => res matches Ok(r) && r.0 == be && r.1 == nx,
            Err(e) => res matches Err(er) && er@ == e,
        },
{
    proof {
        reveal_strlit("{{");
        reveal_strlit("}}");
        reveal_strlit("/");
        reveal_strlit("#");
    }
    let open = to_chars("{{");
    let close = to_chars("}}");
    let nv = to_chars(name);
    let mut hash_name = to_chars("#");
    let mut k: usize = 0;
    while k < nv.len()
        invariant
            k <= nv.len(),
            hash_name@ == "#"@ + nv@.take(k as int),
        decreases nv.len() - k,
    {
        hash_name.push(nv[k]);
        proof {
            assert(nv@.take(k + 1) == nv@.take(k as int).push(nv@[k as int]));
        }
        k = k + 1;
    }
    proof {
        assert(nv@.take(nv.len() as int) == nv@);
    }
    let mut pos = from;
    let mut depth: usize = 1;
    while pos < v.len()
        invariant
            from <= pos <= v.len(),
            1 <= depth <= pos + 1,
            open@ == "{{"@,
            close@ == "}}"@,
            open@.len() == 2,
            close@.len() == 2,
            nv@ == name@,
            hash_name@ == "#"@ + name@,
            extract_scan(v@, name@, pos as int, depth as nat) == extract_scan(v@, name@, from as int, 1),
        decreases v.len() - pos,
    {
        if matches_at_exec(v, &open, pos) {
            match find_from_exec(v, &close, pos + 2) {
                None => {
                    pos = pos + 2;
                },
                Some(te) => {
                    proof {
                        lemma_find_from_result(v@, "}}"@, pos + 2);
                    }
                    let (a, b) = trim_range(v, pos + 2, te);
                    let slash = a < b && v[a] == '/';
                    let closes = slash && range_eq(v, a + 1, b, &nv);
                    proof {
                        let inner = v@.subrange(a as int, b as int);
                        assert(starts_with(inner, "/"@) == slash) by {
                            reveal_strlit("/");
                            assert("/"@.len() == 1 && "/"@[0] == '/');
                            if a < b {
                                assert(inner.subrange(0, 1)[0] == v@[a as int]);
                                if slash {
                                    assert(inner.subrange(0, 1) =~= "/"@);
                                }
                            }
                        }
                        if slash {
                            assert(inner.skip(1) == v@.subrange(a + 1, b as int));
                        }
                    }
                    if closes {
                        if depth <= 1 {
                            return Ok((pos, te + 2));
                        }
                        depth = depth - 1;
                    } else if starts_with_range(v, a, b, &hash_name) {
                        depth = depth + 1;
                    }
                    pos = te + 2;
                },
            }
        } else {
            pos = pos + 1;
        }
    }
    let mut msg = owned("Unclosed block '");
    push_str(&mut msg, name);
    push_str(&mut msg, "' — missing {/");
    push_str(&mut msg, name);
    push_str(&mut msg, "}");
    Err(ToolError::internal(msg.as_str()))
}

/// Index of the `{{else}}` that belongs to an `{{#if}}` block with body `v`.
fn else_position(v: &Vec<char>) -> (res: Option<usize>)
    ensures
        res is None ==> else_of(v@) is None,
        res matches Some(k) ==> else_of(v@) == Some(k as int) && k + 8 <= v.len() && v@.subrange(
            k as int,
            k + 8,
        ) == "{{else}}"@,
{
    proof {
        reveal_strlit("{{");
        reveal_strlit("}}");
        reveal_strlit("/");
        reveal_strlit("#if");
        reveal_strlit("if");
        reveal_strlit("else");
        reveal_strlit("{{else}}");
    }
    let open = to_chars("{{");
    let close = to_chars("}}");
    let else_word = to_chars("else");
    let if_word = to_chars("if");
    let hash_if = to_chars("#if");
    let mut pos: usize = 0;
    let mut depth: usize = 0;
    while pos < v.len()
        invariant
            pos <= v.len(),
            depth <= pos,
            open@ == "{{"@,
            close@ == "}}"@,
            else_word@ == "else"@,
            if_word@ == "if"@,
            hash_if@ == "#if"@,
            "{{"@.len() == 2,
            "}}"@.len() == 2,
            else_scan(v@, pos as int, depth as nat) == else_of(v@),
        decreases v.len() - pos,
    {
        if matches_at_exec(v, &open, pos) {
            match find_from_exec(v, &close, pos + 2) {
                None => {
                    return None;
                },
                Some(te) => {
                    proof {
                        lemma_find_from_result(v@, "}}"@, pos + 2);
                    }
                    if depth == 0 && range_eq(v, pos + 2, te, &else_word) {
                        proof {
                            reveal_strlit("else");
                            reveal_strlit("{{else}}");
                            reveal_strlit("{{");
                            reveal_strlit("}}");
                            assert(te == pos + 6);
                            assert(v@.subrange(pos as int, pos + 8) =~= v@.subrange(pos as int, pos + 2)
                                + v@.subrange(pos + 2, te as int) + v@.subrange(te as int, te + 2));
                            assert("{{else}}"@ =~= "{{"@ + "else"@ + "}}"@);
                        }
                        return Some(pos);
                    }
                    let (a, b) = trim_range(v, pos + 2, te);
                    let slash = a < b && v[a] == '/';
                    let closes = slash && range_eq(v, a + 1, b, &if_word);
                    proof {
                        let inner = v@.subrange(a as int, b as int);
                        assert(starts_with(inner, "/"@) == slash) by {
                            reveal_strlit("/");
                            assert("/"@.len() == 1 && "/"@[0] == '/');
                            if a < b {
                                assert(inner.subrange(0, 1)[0] == v@[a as int]);
                                if slash {
                                    assert(inner.subrange(0, 1) =~= "/"@);
                                }
                            }
                        }
                        if slash {
                            assert(inner.skip(1) == v@.subrange(a + 1, b as int));
                        }
                    }
                    if closes {
                        if depth > 0 {
                            depth = depth - 1;
                        }
                    } else if starts_with_range(v, a, b, &hash_if) {
                        depth = depth + 1;
                    }
                    pos = te + 2;
                },
            }
        } else {
            pos = pos + 1;
        }
    }
    None
}

/// Body end and resume index for the tag `tag` that ends at `from`.
fn block_bounds(v: &Vec<char>, tag: &Vec<char>, from: usize) -> (res: Result<(usize, usize), ToolError>)
    requires
        from <= v.len(),
    ensures
        match block_of(v@, tag@, from as int) {
            Ok((be, nx)) => res matches Ok(r) && r.0 == be && r.1 == nx,
            Err(e) => res matches Err(er) && er@ == e,
        },
{
    proof {
        reveal_strlit("#if ");
        reveal_strlit("#unless ");
        reveal_strlit("#each ");
    }
    if starts_with_exec(tag, &to_chars("#if ")) {
        extract_block(v, "if", from)
    } else if starts_with_exec(tag, &to_chars("#unless ")) {
        extract_block(v, "unless", from)
    } else if starts_with_exec(tag, &to_chars("#each ")) {
        extract_block(v, "each", from)
    } else {
        Ok((from, from))
    }
}

// ─── Rendering ──────────────────────────────────────────────

/// Result of template rendering.
#[derive(Debug)]
pub struct RenderResult {
    pub output: String,
    pub referenced_templates: Vec<String>,
}

/// Views of a list of template names.
pub open spec fn refs_view(v: Seq<String>) -> Seq<Seq<char>> {
    v.map_values(|s: String| s@)
}

/// View of a partial rendering.
pub open spec fn pair_view(r: Result<(String, Vec<String>), ToolError>) -> Result<
    (Seq<char>, Seq<Seq<char>>),
    ToolErrorView,
> {
    match r {
        Ok((o, rs)) => Ok((o@, refs_view(rs@))),
        Err(e) => Err(e@),
    }
}

/// View of a rendering result.
pub open spec fn render_view(r: Result<RenderResult, ToolError>) -> Result<
    (Seq<char>, Seq<Seq<char>>),
    ToolErrorView,
> {
    match r {
        Ok(rr) => Ok((rr.output@, refs_view(rr.referenced_templates@))),
        Err(e) => Err(e@),
    }
}

proof fn lemma_then_assoc(
    o: Seq<char>,
    r: Seq<Seq<char>>,
    a: Seq<char>,
    b: Seq<Seq<char>>,
    x: Result<(Seq<char>, Seq<Seq<char>>), ToolErrorView>,
)
    ensures
        then(Ok((o, r)), then(Ok((a, b)), x)) == then(Ok((o + a, r + b)), x),
{
    match x {
        Ok((c, d)) => {
            assert(o + (a + c) =~= (o + a) + c);
            assert(r + (b + d) =~= (r + b) + d);
        },
        Err(_) => {},
    }
}

proof fn lemma_refs_empty()
    ensures
        refs_view(Seq::<String>::empty()) == Seq::<Seq<char>>::empty(),
{
    assert(refs_view(Seq::<String>::empty()) =~= Seq::<Seq<char>>::empty());
}

proof fn lemma_refs_append(x: Seq<String>, y: Seq<String>)
    ensures
        refs_view(x + y) == refs_view(x) + refs_view(y),
{
    assert(refs_view(x + y) =~= refs_view(x) + refs_view(y));
}

fn pair_of(r: Result<RenderResult, ToolError>) -> (res: Result<(String, Vec<String>), ToolError>)
    ensures
        pair_view(res) == render_view(r),
{
    match r {
        Ok(rr) => Ok((rr.output, rr.referenced_templates)),
        Err(e) => Err(e),
    }
}

/// Truth of a condition expression.
fn condition_holds<G: Fn(&str) -> Option<bool>>(expr: &Vec<char>, variables: &JsonMap, g: &G) -> (res: bool)
    requires
        forall|n: &str| call_requires(*g, (n,)),
    ensures
        literal_consistent(*g) ==> res == cond_value(expr@, map_view(variables), literal_fn(*g)),
{
    proof {
        reveal_strlit("true");
        reveal_strlit("false");
        reveal_strlit("null");
        reveal_strlit("nil");
        reveal_strlit("undefined");
    }
    let (a, b) = trim_range(expr, 0, expr.len());
    proof {
        assert(expr@.subrange(0, expr@.len() as int) == expr@);
    }
    let e = string_of(expr, a, b);
    let eq = |x: &str, y: &str| -> (r: bool)
        ensures r == (x@ == y@)
    { crate::text::str_eq(x, y) };
    if eq(e.as_str(), "true") {
        true
    } else if eq(e.as_str(), "false") {
        false
    } else if eq(e.as_str(), "null") || eq(e.as_str(), "nil") || eq(e.as_str(), "undefined") {
        false
    } else {
        let es = e.as_str();
        let r = g(es);
        proof {
            if literal_consistent(*g) {
                lemma_literal_fn(*g, es, r);
            }
        }
        match r {
            Some(b) => b,
            None => {
                let v = resolve_variable(e.as_str(), variables);
                is_truthy(&v)
            },
        }
    }
}

/// Context for one item of `{{#each}}`.
fn item_context(variables: &JsonMap, item: &JsonValue) -> (res: JsonMap)
    ensures
        map_view(&res) == item_ctx(map_view(variables), jv(*item)),
{
    proof {
        reveal_strlit("this");
    }
    let mut ctx = variables.clone_map();
    ctx.insert(owned("this"), clone_value(item));
    match item {
        JsonValue::Object(entries, _) => {
            let ghost c = map_view(&ctx);
            let ghost es = jentries(entries@);
            proof {
                lemma_jentries_len(entries@);
                assert(es.take(0) =~= Seq::<(Seq<char>, JsonView)>::empty());
            }
            let mut i: usize = 0;
            while i < entries.len()
                invariant
                    i <= entries.len(),
                    es == jentries(entries@),
                    es.len() == entries@.len(),
                    map_view(&ctx) == insert_all(c, es.take(i as int)),
                decreases entries.len() - i,
            {
                proof {
                    lemma_jentries_index(entries@, i as int);
                    assert(es.take(i + 1).drop_last() == es.take(i as int));
                    assert(es.take(i + 1).last() == es[i as int]);
                }
                ctx.insert(owned(entries[i].0.as_str()), clone_value(&entries[i].1));
                i = i + 1;
            }
            proof {
                assert(es.take(entries.len() as int) == es);
            }
        },
        _ => {},
    }
    ctx
}

/// Renders `block` once per item of `items`.
fn render_each<F: Fn(&str) -> Result<String, ToolError>, G: Fn(&str) -> Option<bool>>(
    items: &Vec<JsonValue>,
    block: &str,
    variables: &JsonMap,
    f: &F,
    g: &G,
    depth: usize,
) -> (res: Result<(String, Vec<String>), ToolError>)
    requires
        depth <= 10,
        callbacks_callable(*f, *g),
    ensures
        callbacks_consistent(*f, *g) ==> pair_view(res) == each_output(
            jvs(items@),
            block@,
            map_view(variables),
            resolver_fn(*f),
            literal_fn(*g),
            depth as nat,
        ),
    decreases 11 - depth, 0int,
{
    let ghost all = jvs(items@);
    let ghost ctx = map_view(variables);
    let ghost rt = resolver_fn(*f);
    let ghost nl = literal_fn(*g);
    let ghost h = callbacks_consistent(*f, *g);
    let mut out = String::new();
    let mut refs: Vec<String> = Vec::new();
    let mut i: usize = 0;
    proof {
        lemma_jvs_len(items@);
        assert(all.skip(0) == all);
        assert(out@ == Seq::<char>::empty());
        assert(refs_view(refs@) =~= Seq::<Seq<char>>::empty());
        if h {
            let x = each_output(all, block@, ctx, rt, nl, depth as nat);
            match x {
                Ok((c, d)) => {
                    assert(Seq::<char>::empty() + c =~= c);
                    assert(Seq::<Seq<char>>::empty() + d =~= d);
                },
                Err(_) => {},
            }
        }
    }
    while i < items.len()
        invariant
            i <= items.len(),
            depth <= 10,
            callbacks_callable(*f, *g),
            all == jvs(items@),
            all.len() == items@.len(),
            ctx == map_view(variables),
            rt == resolver_fn(*f),
            nl == literal_fn(*g),
            h == callbacks_consistent(*f, *g),
            h ==> each_output(all, block@, ctx, rt, nl, depth as nat) == then(
                Ok((out@, refs_view(refs@))),
                each_output(all.skip(i as int), block@, ctx, rt, nl, depth as nat),
            ),
        decreases items.len() - i,
    {
        let item_vars = item_context(variables, &items[i]);
        let r = render(block, &item_vars, f, g, depth + 1);
        proof {
            lemma_jvs_index(items@, i as int);
            assert(all.skip(i as int)[0] == all[i as int]);
            assert(all.skip(i as int).drop_first() == all.skip(i + 1));
        }
        match r {
            Err(e) => {
                return Err(e);
            },
            Ok(rr) => {
                let ghost o0 = out@;
                let ghost r0 = refs@;
                let RenderResult { output, referenced_templates } = rr;
                let mut more = referenced_templates;
                let ghost mv = more@;
                push_str(&mut out, output.as_str());
                refs.append(&mut more);
                proof {
                    lemma_refs_append(r0, mv);
                    if h {
                        let rest = each_output(all.skip(i + 1), block@, ctx, rt, nl, depth as nat);
                        assert(map_view(&item_vars) == item_ctx(ctx, all.skip(i as int)[0]));
                        assert(each_output(all.skip(i as int), block@, ctx, rt, nl, depth as nat) == then(
                            Ok((output@, refs_view(mv))),
                            rest,
                        ));
                        lemma_then_assoc(o0, refs_view(r0), output@, refs_view(mv), rest);
                    }
                }
            },
        }
        i = i + 1;
    }
    proof {
        if h {
            assert(all.skip(items.len() as int).len() == 0);
            assert(out@ + Seq::<char>::empty() =~= out@);
            assert(refs_view(refs@) + Seq::<Seq<char>>::empty() =~= refs_view(refs@));
        }
    }
    Ok((out, refs))
}

/// Renders a template with the given variables. `resolve_template` gives the
/// content of a referenced template; `numeric_truth` reads a condition as a
/// number literal, giving its truth (`None` when it is no number).
pub fn render<F: Fn(&str) -> Result<String, ToolError>, G: Fn(&str) -> Option<bool>>(
    template: &str,
    variables: &JsonMap,
    resolve_template: &F,
    numeric_truth: &G,
    depth: usize,
) -> (res: Result<RenderResult, ToolError>)
    requires
        callbacks_callable(*resolve_template, *numeric_truth),
    ensures
        callbacks_consistent(*resolve_template, *numeric_truth) ==> render_view(res) == render_spec(
            template@,
            map_view(variables),
            resolver_fn(*resolve_template),
            literal_fn(*numeric_truth),
            depth as nat,
        ),
    decreases 11 - depth, 3int,
{
    if depth > 10 {
        return Err(ToolError::internal("Template recursion depth exceeded (max 10)"));
    }
    proof {
        reveal_strlit("{{");
        reveal_strlit("}}");
    }
    let ghost ctx = map_view(variables);
    let ghost rt = resolver_fn(*resolve_template);
    let ghost nl = literal_fn(*numeric_truth);
    let ghost h = callbacks_consistent(*resolve_template, *numeric_truth);
    let v = to_chars(template);
    let open = to_chars("{{");
    let close = to_chars("}}");
    let mut out = String::new();
    let mut refs: Vec<String> = Vec::new();
    let mut pos: usize = 0;
    proof {
        assert(refs_view(refs@) =~= Seq::<Seq<char>>::empty());
        if h {
            let x = render_from(v@, 0, ctx, rt, nl, depth as nat);
            match x {
                Ok((c, d)) => {
                    assert(Seq::<char>::empty() + c =~= c);
                    assert(Seq::<Seq<char>>::empty() + d =~= d);
                },
                Err(_) => {},
            }
        }
    }
    while pos < v.len()
        invariant
            pos <= v.len(),
            v@ == template@,
            depth <= 10,
            open@ == "{{"@,
            close@ == "}}"@,
            open@.len() == 2,
            close@.len() == 2,
            callbacks_callable(*resolve_template, *numeric_truth),
            ctx == map_view(variables),
            rt == resolver_fn(*resolve_template),
            nl == literal_fn(*numeric_truth),
            h == callbacks_consistent(*resolve_template, *numeric_truth),
            h ==> render_from(v@, 0, ctx, rt, nl, depth as nat) == then(
                Ok((out@, refs_view(refs@))),
                render_from(v@, pos as int, ctx, rt, nl, depth as nat),
            ),
        decreases v.len() - pos,
    {
        let ghost o0 = out@;
        let ghost r0 = refs@;
        match find_from_exec(&v, &open, pos) {
            None => {
                let rest = string_of(&v, pos, v.len());
                push_str(&mut out, rest.as_str());
                proof {
                    assert(v@.subrange(pos as int, v@.len() as int) == v@.skip(pos as int));
                    if h {
                        lemma_then_assoc(o0, refs_view(r0), rest@, Seq::empty(), emit(Seq::empty()));
                        assert(refs_view(r0) + Seq::<Seq<char>>::empty() =~= refs_view(r0));
                        assert(rest@ + Seq::<char>::empty() =~= rest@);
                    }
                }
                pos = v.len();
            },
            Some(p) => {
                proof {
                    lemma_find_from_result(v@, "{{"@, pos as int);
                }
                let before = string_of(&v, pos, p);
                match find_from_exec(&v, &close, p + 2) {
                    None => {
                        push_str(&mut out, before.as_str());
                        push_str(&mut out, "{{");
                        let rest = string_of(&v, p + 2, v.len());
                        push_str(&mut out, rest.as_str());
                        proof {
                            assert(v@.subrange(p + 2, v@.len() as int) == v@.skip(p + 2));
                            if h {
                                let piece = before@ + "{{"@ + rest@;
                                assert(out@ == o0 + piece);
                                lemma_then_assoc(o0, refs_view(r0), piece, Seq::empty(), emit(Seq::empty()));
                                assert(refs_view(r0) + Seq::<Seq<char>>::empty() =~= refs_view(r0));
                                assert(piece + Seq::<char>::empty() =~= piece);
                            }
                        }
                        pos = v.len();
                    },
                    Some(e) => {
                        proof {
                            lemma_find_from_result(v@, "}}"@, p + 2);
                        }
                        let (a, b) = trim_range(&v, p + 2, e);
                        let tag = slice_vec(&v, a, b);
                        match block_bounds(&v, &tag, e + 2) {
                            Err(err) => {
                                return Err(err);
                            },
                            Ok((be, nx)) => {
                                proof {
                                    lemma_block_bounds(v@, tag@, e + 2);
                                }
                                let block = slice_vec(&v, e + 2, be);
                                match render_tag(&tag, &block, variables, resolve_template, numeric_truth, depth) {
                                    Err(err) => {
                                        return Err(err);
                                    },
                                    Ok((o, more)) => {
                                        let mut more = more;
                                        push_str(&mut out, before.as_str());
                                        push_str(&mut out, o.as_str());
                                        let ghost mv = more@;
                                        refs.append(&mut more);
                                        proof {
                                            lemma_refs_append(r0, mv);
                                            if h {
                                                let rest = render_from(v@, nx as int, ctx, rt, nl, depth as nat);
                                                lemma_then_assoc(before@, Seq::empty(), o@, refs_view(mv), rest);
                                                assert(Seq::<Seq<char>>::empty() + refs_view(mv) =~= refs_view(mv));
                                                lemma_then_assoc(o0, refs_view(r0), before@ + o@, refs_view(mv), rest);
                                                assert(o0 + (before@ + o@) =~= out@);
                                            }
                                        }
                                        pos = nx;
                                    },
                                }
                            },
                        }
                    },
                }
            },
        }
    }
    proof {
        if h {
            assert(out@ + Seq::<char>::empty() =~= out@);
            assert(refs_view(refs@) + Seq::<Seq<char>>::empty() =~= refs_view(refs@));
        }
    }
    Ok(RenderResult { output: out, referenced_templates: refs })
}

/// Renders `{{#if cond}}` with its body.
fn render_if<F: Fn(&str) -> Result<String, ToolError>, G: Fn(&str) -> Option<bool>>(
    cond: &Vec<char>,
    block: &Vec<char>,
    variables: &JsonMap,
    f: &F,
    g: &G,
    depth: usize,
) -> (res: Result<(String, Vec<String>), ToolError>)
    requires
        depth <= 10,
        callbacks_callable(*f, *g),
    ensures
        callbacks_consistent(*f, *g) ==> pair_view(res) == (if cond_value(
            cond@,
            map_view(variables),
            literal_fn(*g),
        ) {
            match else_of(block@) {
                Some(k) => render_spec(
                    block@.take(k),
                    map_view(variables),
                    resolver_fn(*f),
                    literal_fn(*g),
                    (depth + 1) as nat,
                ),
                None => render_spec(
                    block@,
                    map_view(variables),
                    resolver_fn(*f),
                    literal_fn(*g),
                    (depth + 1) as nat,
                ),
            }
        } else {
            match else_of(block@) {
                Some(k) => render_spec(
                    block@.skip(k + 8),
                    map_view(variables),
                    resolver_fn(*f),
                    literal_fn(*g),
                    (depth + 1) as nat,
                ),
                None => emit(Seq::empty()),
            }
        }),
    decreases 11 - depth, 1int,
{
    let holds = condition_holds(cond, variables, g);
    let pos = else_position(block);
    if holds {
        match pos {
            Some(k) => {
                let head = string_of(block, 0, k);
                proof {
                    assert(block@.subrange(0, k as int) == block@.take(k as int));
                }
                pair_of(render(head.as_str(), variables, f, g, depth + 1))
            },
            None => {
                let bs = crate::text::string_of_all(block);
                pair_of(render(bs.as_str(), variables, f, g, depth + 1))
            },
        }
    } else {
        match pos {
            Some(k) => {
                let eb = string_of(block, k + 8, block.len());
                proof {
                    assert(block@.subrange(k + 8, block@.len() as int) == block@.skip(k + 8));
                }
                pair_of(render(eb.as_str(), variables, f, g, depth + 1))
            },
            None => {
                proof {
                    lemma_refs_empty();
                }
                Ok((String::new(), Vec::new()))
            },
        }
    }
}

/// Renders `{{#unless cond}}` with its body.
fn render_unless<F: Fn(&str) -> Result<String, ToolError>, G: Fn(&str) -> Option<bool>>(
    cond: &Vec<char>,
    block: &Vec<char>,
    variables: &JsonMap,
    f: &F,
    g: &G,
    depth: usize,
) -> (res: Result<(String, Vec<String>), ToolError>)
    requires
        depth <= 10,
        callbacks_callable(*f, *g),
    ensures
        callbacks_consistent(*f, *g) ==> pair_view(res) == (if !cond_value(
            cond@,
            map_view(variables),
            literal_fn(*g),
        ) {
            render_spec(block@, map_view(variables), resolver_fn(*f), literal_fn(*g), (depth + 1) as nat)
        } else {
            emit(Seq::empty())
        }),
    decreases 11 - depth, 1int,
{
    let holds = condition_holds(cond, variables, g);
    if !holds {
        let bs = crate::text::string_of_all(block);
        pair_of(render(bs.as_str(), variables, f, g, depth + 1))
    } else {
        proof {
            lemma_refs_empty();
        }
        Ok((String::new(), Vec::new()))
    }
}

/// Renders `{{#each name}}` with its body.
fn render_each_tag<F: Fn(&str) -> Result<String, ToolError>, G: Fn(&str) -> Option<bool>>(
    name: &Vec<char>,
    block: &Vec<char>,
    variables: &JsonMap,
    f: &F,
    g: &G,
    depth: usize,
) -> (res: Result<(String, Vec<String>), ToolError>)
    requires
        depth <= 10,
        callbacks_callable(*f, *g),
    ensures
        callbacks_consistent(*f, *g) ==> pair_view(res) == (match resolve_path(map_view(variables), name@) {
            JsonView::Array(arr, _) => each_output(
                arr,
                block@,
                map_view(variables),
                resolver_fn(*f),
                literal_fn(*g),
                depth as nat,
            ),
            other => render_spec(
                block@,
                insert_entry(map_view(variables), "this"@, other),
                resolver_fn(*f),
                literal_fn(*g),
                (depth + 1) as nat,
            ),
        }),
    decreases 11 - depth, 1int,
{
    proof {
        reveal_strlit("this");
    }
    let ns = crate::text::string_of_all(name);
    let bs = crate::text::string_of_all(block);
    let items = resolve_variable(ns.as_str(), variables);
    match items {
        JsonValue::Array(arr, _) => render_each(&arr, bs.as_str(), variables, f, g, depth),
        other => {
            let mut ctx = variables.clone_map();
            ctx.insert(owned("this"), other);
            pair_of(render(bs.as_str(), &ctx, f, g, depth + 1))
        },
    }
}

/// Renders `{{@template/reference}}`.
fn render_template_tag<F: Fn(&str) -> Result<String, ToolError>, G: Fn(&str) -> Option<bool>>(
    reference: &Vec<char>,
    f: &F,
    g: &G,
    depth: usize,
) -> (res: Result<(String, Vec<String>), ToolError>)
    requires
        depth <= 10,
        callbacks_callable(*f, *g),
    ensures
        callbacks_consistent(*f, *g) ==> pair_view(res) == (match resolver_fn(*f)(template_ref(reference@).0) {
            Err(e) => Err(e),
            Ok(content) => then(
                Ok((Seq::empty(), seq![template_ref(reference@).0])),
                render_spec(content, template_ref(reference@).1, resolver_fn(*f), literal_fn(*g), (depth + 1) as nat),
            ),
        }),
    decreases 11 - depth, 1int,
{
    let rs = crate::text::string_of_all(reference);
    let (name, args) = parse_template_ref(rs.as_str());
    let ns = name.as_str();
    let found = f(ns);
    proof {
        if resolver_consistent(*f) {
            lemma_resolver_fn(*f, ns, found);
        }
    }
    match found {
        Err(e) => Err(e),
        Ok(content) => match render(content.as_str(), &args, f, g, depth + 1) {
            Err(e) => Err(e),
            Ok(rr) => {
                let mut refs: Vec<String> = Vec::new();
                refs.push(name);
                let ghost r0 = refs@;
                let RenderResult { output, referenced_templates } = rr;
                let mut more = referenced_templates;
                let ghost mv = more@;
                refs.append(&mut more);
                proof {
                    lemma_refs_append(r0, mv);
                    assert(refs_view(r0) =~= seq![template_ref(reference@).0]);
                    assert(Seq::<char>::empty() + output@ =~= output@);
                }
                Ok((output, refs))
            },
        },
    }
}

/// Renders one tag with the body of the block it opens.
fn render_tag<F: Fn(&str) -> Result<String, ToolError>, G: Fn(&str) -> Option<bool>>(
    tag: &Vec<char>,
    block: &Vec<char>,
    variables: &JsonMap,
    f: &F,
    g: &G,
    depth: usize,
) -> (res: Result<(String, Vec<String>), ToolError>)
    requires
        depth <= 10,
        callbacks_callable(*f, *g),
    ensures
        callbacks_consistent(*f, *g) ==> pair_view(res) == tag_output(
            tag@,
            block@,
            map_view(variables),
            resolver_fn(*f),
            literal_fn(*g),
            depth as nat,
        ),
    decreases 11 - depth, 2int,
{
    proof {
        reveal_strlit("{{}}");
        reveal_strlit("#if ");
        reveal_strlit("#unless ");
        reveal_strlit("#each ");
        reveal_strlit("/");
        reveal_strlit("@template/");
        lemma_refs_empty();
    }
    if tag.len() == 0 {
        return Ok((owned("{{}}"), Vec::new()));
    }
    if starts_with_exec(tag, &to_chars("#if ")) {
        let inner = slice_vec(tag, 4, tag.len());
        let (a, b) = trim_range(&inner, 0, inner.len());
        let cond = slice_vec(&inner, a, b);
        proof {
            assert(inner@ == tag@.skip(4));
            assert(inner@.subrange(0, inner@.len() as int) == inner@);
        }
        return render_if(&cond, block, variables, f, g, depth);
    }
    if starts_with_exec(tag, &to_chars("#unless ")) {
        let inner = slice_vec(tag, 8, tag.len());
        let (a, b) = trim_range(&inner, 0, inner.len());
        let cond = slice_vec(&inner, a, b);
        proof {
            assert(inner@ == tag@.skip(8));
            assert(inner@.subrange(0, inner@.len() as int) == inner@);
        }
        return render_unless(&cond, block, variables, f, g, depth);
    }
    if starts_with_exec(tag, &to_chars("#each ")) {
        let inner = slice_vec(tag, 6, tag.len());
        let (a, b) = trim_range(&inner, 0, inner.len());
        let name = slice_vec(&inner, a, b);
        proof {
            assert(inner@ == tag@.skip(6));
            assert(inner@.subrange(0, inner@.len() as int) == inner@);
        }
        return render_each_tag(&name, block, variables, f, g, depth);
    }
    if tag[0] == '/' {
        proof {
            assert(tag@.subrange(0, 1) =~= "/"@);
        }
        let ts = crate::text::string_of_all(tag);
        let mut msg = owned("Unexpected closing tag '");
        push_str(&mut msg, ts.as_str());
        push_str(&mut msg, "' with no matching opening tag");
        return Err(ToolError::internal(msg.as_str()));
    }
    proof {
        assert(!starts_with(tag@, "/"@)) by {
            assert(tag@.subrange(0, 1)[0] == tag@[0]);
        }
    }
    if starts_with_exec(tag, &to_chars("@template/")) {
        let reference = slice_vec(tag, 10, tag.len());
        proof {
            assert(reference@ == tag@.skip(10));
        }
        return render_template_tag(&reference, f, g, depth);
    }
    let mut k: usize = 0;
    while k < tag.len() && tag[k] != ' '
        invariant
            k <= tag.len(),
            forall|j: int| 0 <= j < k ==> tag@[j] != ' ',
        decreases tag.len() - k,
    {
        k = k + 1;
    }
    proof {
        crate::text::lemma_index_of_char_unique(tag@, ' ', k as int);
    }
    if k < tag.len() {
        let (ha, hb) = trim_range(tag, 0, k);
        let helper = string_of(tag, ha, hb);
        let (va, vb) = trim_range(tag, k + 1, tag.len());
        let arg = string_of(tag, va, vb);
        proof {
            assert(tag@.subrange(0, k as int) == tag@.take(k as int));
            assert(tag@.subrange(k + 1, tag@.len() as int) == tag@.skip(k + 1));
        }
        let value = resolve_variable(arg.as_str(), variables);
        let text = display(&value);
        Ok((apply_helper(helper.as_str(), text.as_str()), Vec::new()))
    } else {
        let ts = crate::text::string_of_all(tag);
        let value = resolve_variable(ts.as_str(), variables);
        Ok((display(&value), Vec::new()))
    }
}

/// A template with no `{{` renders as itself and references no template, at
/// any depth up to the limit.
pub proof fn lemma_plain_text_renders_unchanged(
    t: Seq<char>,
    ctx: Seq<(Seq<char>, JsonView)>,
    rt: spec_fn(Seq<char>) -> Result<Seq<char>, ToolErrorView>,
    nl: spec_fn(Seq<char>) -> Option<bool>,
    depth: nat,
)
    requires
        find(t, "{{"@) is None,
        depth <= 10,
    ensures
        render_spec(t, ctx, rt, nl, depth) == Ok::<(Seq<char>, Seq<Seq<char>>), ToolErrorView>((t, Seq::empty())),
{
    if t.len() > 0 {
        assert(t.skip(0) == t);
    } else {
        assert(t == Seq::<char>::empty());
    }
}

/// Rendering deeper than ten levels fails with the depth error.
pub proof fn lemma_depth_limit(
    t: Seq<char>,
    ctx: Seq<(Seq<char>, JsonView)>,
    rt: spec_fn(Seq<char>) -> Result<Seq<char>, ToolErrorView>,
    nl: spec_fn(Seq<char>) -> Option<bool>,
    depth: nat,
)
    requires
        depth > 10,
    ensures
        render_spec(t, ctx, rt, nl, depth) == Err::<(Seq<char>, Seq<Seq<char>>), ToolErrorView>(depth_error()),
{
}

} // verus!
