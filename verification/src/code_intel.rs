//! Code intelligence: language detection and symbol/dependency extraction with tree-sitter.
use vstd::prelude::*;
use streaming_iterator::StreamingIterator;
use crate::parser::{last_char_in, last_index_of, lemma_last_index_of_bound};
use crate::text::{
    ends_with, index_of_char, lemma_index_of_char_unique, lines_of, owned, starts_with,
    str_eq, string_of, to_chars, trim, trim_range,
};

verus! {

// ─── Types ─────────────────────────────────────────────────────

/// A named definition found in source code.
#[derive(Debug, Clone)]
pub struct CodeIntelSymbol {
    pub name: String,
    pub kind: String,
    pub file: String,
    pub line: usize,
    pub column: usize,
    pub snippet: String,
    pub language: String,
}

/// An import/use dependency found in source code.
#[derive(Debug, Clone)]
pub struct CodeIntelDep {
    pub target: String,
    pub line: usize,
    pub kind: String,
}

/// A language with a tree-sitter grammar.
#[derive(Debug, Clone, Copy, PartialEq, Eq, Structural)]
pub enum SupportedLanguage {
    Rust,
    TypeScript,
    Tsx,
    Python,
    Go,
    Html,
    Svelte,
}

/// Language of a file extension.
pub open spec fn language_of_ext(ext: Seq<char>) -> Option<SupportedLanguage> {
    if ext == "rs"@ {
        Some(SupportedLanguage::Rust)
    } else if ext == "ts"@ {
        Some(SupportedLanguage::TypeScript)
    } else if ext == "tsx"@ {
        Some(SupportedLanguage::Tsx)
    } else if ext == "py"@ {
        Some(SupportedLanguage::Python)
    } else if ext == "go"@ {
        Some(SupportedLanguage::Go)
    } else if ext == "html"@ || ext == "htm"@ {
        Some(SupportedLanguage::Html)
    } else if ext == "svelte"@ {
        Some(SupportedLanguage::Svelte)
    } else {
        None
    }
}

/// Name of a language.
pub open spec fn language_name(l: SupportedLanguage) -> Seq<char> {
    match l {
        SupportedLanguage::Rust => "rust"@,
        SupportedLanguage::TypeScript => "typescript"@,
        SupportedLanguage::Tsx => "tsx"@,
        SupportedLanguage::Python => "python"@,
        SupportedLanguage::Go => "go"@,
        SupportedLanguage::Html => "html"@,
        SupportedLanguage::Svelte => "svelte"@,
    }
}

impl SupportedLanguage {
    /// Language of a file extension.
    pub fn from_ext(ext: &str) -> (res: Option<Self>)
        ensures
            res == language_of_ext(ext@),
    {
        if str_eq(ext, "rs") {
            Some(SupportedLanguage::Rust)
        } else if str_eq(ext, "ts") {
            Some(SupportedLanguage::TypeScript)
        } else if str_eq(ext, "tsx") {
            Some(SupportedLanguage::Tsx)
        } else if str_eq(ext, "py") {
            Some(SupportedLanguage::Python)
        } else if str_eq(ext, "go") {
            Some(SupportedLanguage::Go)
        } else if str_eq(ext, "html") || str_eq(ext, "htm") {
            Some(SupportedLanguage::Html)
        } else if str_eq(ext, "svelte") {
            Some(SupportedLanguage::Svelte)
        } else {
            None
        }
    }

    /// Name of this language.
    pub fn name(&self) -> (res: &'static str)
        ensures
            res@ == language_name(*self),
    {
        match self {
            SupportedLanguage::Rust => "rust",
            SupportedLanguage::TypeScript => "typescript",
            SupportedLanguage::Tsx => "tsx",
            SupportedLanguage::Python => "python",
            SupportedLanguage::Go => "go",
            SupportedLanguage::Html => "html",
            SupportedLanguage::Svelte => "svelte",
        }
    }
}

// ─── Tree-sitter ────────────────────────────────────────────────

/// A tree-sitter grammar.
#[verifier::external_type_specification]
#[verifier::external_body]
pub struct ExLanguage(tree_sitter::Language);

/// A compiled tree-sitter query.
#[verifier::external_type_specification]
#[verifier::external_body]
pub struct ExQuery(tree_sitter::Query);

/// A tree-sitter syntax tree.
#[verifier::external_type_specification]
#[verifier::external_body]
pub struct ExTree(tree_sitter::Tree);

/// One capture of a tree-sitter query match, with its capture index, the text of
/// the captured node, its 0-based start row and column, and its byte range.
#[derive(Debug, Clone)]
pub struct TsCapture {
    pub index: u32,
    pub text: String,
    pub row: usize,
    pub column: usize,
    pub start_byte: usize,
    pub end_byte: usize,
}

/// Plain view of a capture.
pub struct CaptureView {
    pub index: u32,
    pub text: Seq<char>,
    pub row: usize,
    pub column: usize,
    pub start_byte: usize,
    pub end_byte: usize,
}

/// View of a capture.
pub open spec fn capture_view(c: TsCapture) -> CaptureView {
    CaptureView {
        index: c.index,
        text: c.text@,
        row: c.row,
        column: c.column,
        start_byte: c.start_byte,
        end_byte: c.end_byte,
    }
}

/// Views of captures.
pub open spec fn captures_view(v: Seq<TsCapture>) -> Seq<CaptureView> {
    v.map_values(|c: TsCapture| capture_view(c))
}

/// For a language, a source text, a query and a capture name: the index of that
/// capture name in the query and every capture of every match of the query over
/// the parsed source, in match order; `None` when the source does not parse, the
/// query does not compile, or the query has no such capture name.
pub uninterp spec fn spec_query_source(
    lang: SupportedLanguage,
    source: Seq<char>,
    query: Seq<char>,
    capture: Seq<char>,
) -> Option<(u32, Seq<CaptureView>)>;

/// Returns the tree-sitter grammar of a language from the grammar crates
/// (`tree_sitter_rust::LANGUAGE`, ...). Nothing is claimed of the grammar value.
#[verifier::external_body]
pub(crate) fn load_language(lang: SupportedLanguage) -> tree_sitter::Language {
    match lang {
        SupportedLanguage::Rust => tree_sitter_rust::LANGUAGE.into(),
        SupportedLanguage::TypeScript => tree_sitter_typescript::LANGUAGE_TYPESCRIPT.into(),
        SupportedLanguage::Tsx => tree_sitter_typescript::LANGUAGE_TSX.into(),
        SupportedLanguage::Python => tree_sitter_python::LANGUAGE.into(),
        SupportedLanguage::Go => tree_sitter_go::LANGUAGE.into(),
        SupportedLanguage::Html => tree_sitter_html::LANGUAGE.into(),
        SupportedLanguage::Svelte => tree_sitter_svelte_ng::LANGUAGE.into(),
    }
}

/// Parses `source` with tree-sitter (`Parser::set_language`, `Parser::parse`),
/// compiles `query` (`Query::new`), looks up the capture name
/// (`Query::capture_index_for_name`) and collects the captures of every
/// `QueryCursor::matches` match. Claims only that the result is the named
/// function of the language, source, query and capture name.
#[verifier::external_body]
fn query_source(lang: SupportedLanguage, source: &str, query: &str, capture: &str) -> (res: Option<(u32, Vec<TsCapture>)>)
    ensures
        match spec_query_source(lang, source@, query@, capture@) {
            None => res is None,
            Some((i, caps)) => res matches Some((ri, rc)) && ri == i && captures_view(rc@) == caps,
        },
{
    let language = load_language(lang);
    let mut parser = tree_sitter::Parser::new();
    parser.set_language(&language).ok()?;
    let tree = parser.parse(source, None)?;
    let q = tree_sitter::Query::new(&language, query).ok()?;
    let index = q.capture_index_for_name(capture)?;
    Some((index, collect_captures(&q, &tree, source)))
}

/// Runs `QueryCursor::matches` and converts each capture (`Node::utf8_text`,
/// `Node::range`). Nothing is claimed of the result.
#[verifier::external_body]
fn collect_captures(q: &tree_sitter::Query, tree: &tree_sitter::Tree, source: &str) -> Vec<TsCapture> {
    let mut cursor = tree_sitter::QueryCursor::new();
    let mut matches = cursor.matches(q, tree.root_node(), source.as_bytes());
    let mut out = Vec::new();
    while let Some(m) = matches.next() {
        for c in m.captures() {
            let r = c.node.range();
            let text = c.node.utf8_text(source.as_bytes()).unwrap_or("").to_string();
            out.push(TsCapture { index: c.index, text, row: r.start_point.row, column: r.start_point.column, start_byte: r.start_byte, end_byte: r.end_byte });
        }
    }
    out
}

// ─── Engine ─────────────────────────────────────────────────────

/// The extension table, sorted by extension.
pub open spec fn extension_table() -> Seq<(Seq<char>, SupportedLanguage)> {
    seq![
        ("go"@, SupportedLanguage::Go),
        ("htm"@, SupportedLanguage::Html),
        ("html"@, SupportedLanguage::Html),
        ("py"@, SupportedLanguage::Python),
        ("rs"@, SupportedLanguage::Rust),
        ("svelte"@, SupportedLanguage::Svelte),
        ("ts"@, SupportedLanguage::TypeScript),
        ("tsx"@, SupportedLanguage::Tsx),
    ]
}

/// Extensions of the table, in table order.
pub open spec fn table_extensions() -> Seq<Seq<char>> {
    extension_table().map_values(|e: (Seq<char>, SupportedLanguage)| e.0)
}

/// Registry of the languages code intelligence supports, keyed by file extension.
pub struct CodeIntelEngine {
    languages: Vec<(&'static str, SupportedLanguage)>,
}

impl CodeIntelEngine {
    /// The registered `(extension, language)` pairs.
    pub closed spec fn table(&self) -> Seq<(Seq<char>, SupportedLanguage)> {
        self.languages@.map_values(|e: (&'static str, SupportedLanguage)| (e.0@, e.1))
    }

    #[verifier::type_invariant]
    closed spec fn wf(&self) -> bool {
        self.table() == extension_table()
    }

    /// The shared engine (a fresh registry; it holds only the constant extension table).
    pub fn global() -> (res: CodeIntelEngine)
        ensures
            res.table() == extension_table(),
    {
        CodeIntelEngine::new()
    }

    /// An engine registering every supported extension.
    pub fn new() -> (res: CodeIntelEngine)
        ensures
            res.table() == extension_table(),
    {
        let languages = vec![
            ("go", SupportedLanguage::Go),
            ("htm", SupportedLanguage::Html),
            ("html", SupportedLanguage::Html),
            ("py", SupportedLanguage::Python),
            ("rs", SupportedLanguage::Rust),
            ("svelte", SupportedLanguage::Svelte),
            ("ts", SupportedLanguage::TypeScript),
            ("tsx", SupportedLanguage::Tsx),
        ];
        proof {
            assert(languages@.map_values(|e: (&'static str, SupportedLanguage)| (e.0@, e.1))
                =~= extension_table());
        }
        CodeIntelEngine { languages }
    }

    /// All registered extensions, sorted.
    pub fn supported_extensions(&self) -> (res: Vec<&'static str>)
        ensures
            res@.map_values(|s: &'static str| s@) == table_extensions(),
    {
        proof {
            use_type_invariant(self);
        }
        let mut out: Vec<&'static str> = Vec::new();
        let mut i: usize = 0;
        while i < self.languages.len()
            invariant
                i <= self.languages.len(),
                self.table() == extension_table(),
                out@.map_values(|s: &'static str| s@) == table_extensions().take(i as int),
            decreases self.languages.len() - i,
        {
            out.push(self.languages[i].0);
            proof {
                assert(self.table()[i as int].0 == self.languages@[i as int].0@);
                assert(table_extensions().take(i + 1) == table_extensions().take(i as int).push(
                    table_extensions()[i as int],
                ));
                assert(out@.map_values(|s: &'static str| s@) =~= table_extensions().take(i + 1));
            }
            i = i + 1;
        }
        proof {
            assert(table_extensions().take(i as int) == table_extensions());
        }
        out
    }

    /// Whether an extension is registered.
    pub fn is_supported(&self, ext: &str) -> (res: bool)
        ensures
            res == table_extensions().contains(ext@),
    {
        proof {
            use_type_invariant(self);
        }
        let mut i: usize = 0;
        while i < self.languages.len()
            invariant
                i <= self.languages.len(),
                self.table() == extension_table(),
                forall|j: int| 0 <= j < i ==> table_extensions()[j] != ext@,
            decreases self.languages.len() - i,
        {
            let found = str_eq(self.languages[i].0, ext);
            proof {
                assert(table_extensions()[i as int] == self.languages@[i as int].0@);
            }
            if found {
                proof {
                    assert(table_extensions()[i as int] == ext@);
                }
                return true;
            }
            i = i + 1;
        }
        false
    }

    /// Name of the language of an extension.
    pub fn infer_language_from_ext(&self, ext: &str) -> (res: Option<&'static str>)
        ensures
            match language_of_ext(ext@) {
                Some(l) => res matches Some(n) && n@ == language_name(l),
                None => res is None,
            },
    {
        infer_language_from_ext(ext)
    }
}

/// Name of the language of a file extension.
pub fn infer_language_from_ext(ext: &str) -> (res: Option<&'static str>)
    ensures
        match language_of_ext(ext@) {
            Some(l) => res matches Some(n) && n@ == language_name(l),
            None => res is None,
        },
{
    match SupportedLanguage::from_ext(ext) {
        Some(l) => Some(l.name()),
        None => None,
    }
}

// ─── Snippets ───────────────────────────────────────────────────

/// Bytes of the UTF-8 encoding of a character.
pub open spec fn utf8_width(c: char) -> nat {
    if (c as u32) < 0x80 {
        1
    } else if (c as u32) < 0x800 {
        2
    } else if (c as u32) < 0x10000 {
        3
    } else {
        4
    }
}

/// Number of leading characters of `s` whose UTF-8 encoding fits in `bytes` bytes.
pub open spec fn chars_within(s: Seq<char>, bytes: nat) -> nat
    decreases s.len(),
{
    if s.len() == 0 {
        0
    } else if utf8_width(s[0]) <= bytes {
        1 + chars_within(s.drop_first(), (bytes - utf8_width(s[0])) as nat)
    } else {
        0
    }
}

/// The line of `s` that holds the byte offset `offset`.
pub open spec fn line_at(s: Seq<char>, offset: nat) -> Seq<char> {
    let k = chars_within(s, offset);
    let start = match last_index_of(s.take(k as int), '\n') {
        Some(i) => i + 1,
        None => 0,
    };
    let ls = lines_of(s.skip(start));
    if ls.len() > 0 {
        ls[0]
    } else {
        Seq::empty()
    }
}

proof fn lemma_chars_within_bound(s: Seq<char>, bytes: nat)
    ensures
        chars_within(s, bytes) <= s.len(),
    decreases s.len(),
{
    if s.len() > 0 && utf8_width(s[0]) <= bytes {
        lemma_chars_within_bound(s.drop_first(), (bytes - utf8_width(s[0])) as nat);
    }
}

pub(crate) fn char_width(c: char) -> (w: usize)
    ensures
        w == utf8_width(c),
{
    let u = c as u32;
    if u < 0x80 {
        1
    } else if u < 0x800 {
        2
    } else if u < 0x10000 {
        3
    } else {
        4
    }
}

pub(crate) fn chars_within_exec(source: &Vec<char>, offset: usize) -> (k: usize)
    ensures
        k == chars_within(source@, offset as nat),
        k <= source.len(),
{
    let mut k: usize = 0;
    let mut left: usize = offset;
    proof {
        assert(source@.skip(0) == source@);
    }
    while k < source.len() && char_width(source[k]) <= left
        invariant
            k <= source.len(),
            left <= offset,
            chars_within(source@, offset as nat) == k + chars_within(source@.skip(k as int), left as nat),
        decreases source.len() - k,
    {
        proof {
            let r = source@.skip(k as int);
            assert(r[0] == source@[k as int]);
            assert(r.drop_first() == source@.skip(k + 1));
        }
        left = left - char_width(source[k]);
        k = k + 1;
    }
    proof {
        let r = source@.skip(k as int);
        if k < source.len() {
            assert(r[0] == source@[k as int]);
        }
        assert(chars_within(r, left as nat) == 0);
    }
    k
}

fn line_start_before(source: &Vec<char>, k: usize) -> (start: usize)
    requires
        k <= source.len(),
    ensures
        start == (match last_index_of(source@.take(k as int), '\n') {
            Some(i) => i + 1,
            None => 0,
        }),
        start <= k,
{
    proof {
        assert(source@.take(k as int) == source@.subrange(0, k as int));
        lemma_last_index_of_bound(source@.subrange(0, k as int), '\n');
    }
    match last_char_in(source, 0, k, '\n') {
        Some(i) => i + 1,
        None => 0,
    }
}

/// The line of `source` that holds a byte offset.
pub fn get_line_at_offset(source: &Vec<char>, offset: usize) -> (res: String)
    ensures
        res@ == line_at(source@, offset as nat),
{
    let k = chars_within_exec(source, offset);
    let start = line_start_before(source, k);
    let mut j = start;
    while j < source.len() && source[j] != '\n'
        invariant
            start <= j <= source.len(),
            forall|x: int| start <= x < j ==> source@[x] != '\n',
        decreases source.len() - j,
    {
        j = j + 1;
    }
    let ghost rest = source@.skip(start as int);
    proof {
        assert forall|x: int| 0 <= x < j - start implies rest[x] != '\n' by {
            assert(rest[x] == source@[start + x]);
        }
        if j < source.len() {
            assert(rest[j - start] == source@[j as int]);
        }
        lemma_index_of_char_unique(rest, '\n', j - start);
    }
    if start >= source.len() {
        proof {
            assert(rest.len() == 0);
        }
        return String::new();
    }
    if j < source.len() {
        let end = if j > start && source[j - 1] == '\r' { j - 1 } else { j };
        proof {
            assert(rest.take(j - start) == source@.subrange(start as int, j as int));
        }
        string_of(source, start, end)
    } else {
        proof {
            assert(rest == source@.subrange(start as int, source@.len() as int));
        }
        string_of(source, start, source.len())
    }
}

// ─── Symbol queries per language ────────────────────────────────

/// `(query, kind)` pairs used to find the symbols of a language.
pub open spec fn symbol_queries(l: SupportedLanguage) -> Seq<(Seq<char>, Seq<char>)> {
    match l {
        SupportedLanguage::Rust => seq![
            ("(function_item name: (identifier) @name)"@, "function"@),
            ("(function_signature name: (identifier) @name)"@, "function"@),
            ("(struct_item name: (type_identifier) @name)"@, "struct"@),
            ("(enum_item name: (type_identifier) @name)"@, "enum"@),
            ("(union_item name: (type_identifier) @name)"@, "union"@),
            ("(trait_item name: (type_identifier) @name)"@, "trait"@),
            ("(type_item name: (type_identifier) @name)"@, "type"@),
            ("(const_item name: (identifier) @name)"@, "const"@),
            ("(static_item name: (identifier) @name)"@, "const"@),
            ("(macro_definition name: (identifier) @name)"@, "macro"@),
            ("(mod_item name: (identifier) @name)"@, "module"@),
            ("(impl_item trait: [(type_identifier) (qualified_type)]? @name)"@, "impl"@),
        ],
        SupportedLanguage::TypeScript | SupportedLanguage::Tsx => seq![
            ("(function_declaration name: (identifier) @name)"@, "function"@),
            ("(method_definition name: (property_identifier) @name)"@, "method"@),
            ("(class_declaration name: (type_identifier) @name)"@, "class"@),
            ("(interface_declaration name: (type_identifier) @name)"@, "interface"@),
            ("(type_alias_declaration name: (type_identifier) @name)"@, "type"@),
            ("(enum_declaration name: (identifier) @name)"@, "enum"@),
            ("(abstract_method_signature name: (property_identifier) @name)"@, "method"@),
            ("(variable_declarator name: (identifier) @name)"@, "variable"@),
        ],
        SupportedLanguage::Python => seq![
            ("(function_definition name: (identifier) @name)"@, "function"@),
            ("(class_definition name: (identifier) @name)"@, "class"@),
            ("(decorated_definition (function_definition name: (identifier) @name))"@, "function"@),
            ("(decorated_definition (class_definition name: (identifier) @name))"@, "class"@),
        ],
        SupportedLanguage::Go => seq![
            ("(function_declaration name: (identifier) @name)"@, "function"@),
            ("(method_declaration name: (field_identifier) @name)"@, "method"@),
            ("(type_declaration (type_spec name: (type_identifier) @name))"@, "type"@),
        ],
        SupportedLanguage::Html | SupportedLanguage::Svelte => seq![
            ("(element (start_tag (tag_name) @name))"@, "element"@),
            ("(self_closing_tag (tag_name) @name)"@, "element"@),
        ],
    }
}

fn symbol_query_list(l: SupportedLanguage) -> (res: Vec<(&'static str, &'static str)>)
    ensures
        res@.map_values(|q: (&'static str, &'static str)| (q.0@, q.1@)) == symbol_queries(l),
{
    let v = match l {
        SupportedLanguage::Rust => vec![
            ("(function_item name: (identifier) @name)", "function"),
            ("(function_signature name: (identifier) @name)", "function"),
            ("(struct_item name: (type_identifier) @name)", "struct"),
            ("(enum_item name: (type_identifier) @name)", "enum"),
            ("(union_item name: (type_identifier) @name)", "union"),
            ("(trait_item name: (type_identifier) @name)", "trait"),
            ("(type_item name: (type_identifier) @name)", "type"),
            ("(const_item name: (identifier) @name)", "const"),
            ("(static_item name: (identifier) @name)", "const"),
            ("(macro_definition name: (identifier) @name)", "macro"),
            ("(mod_item name: (identifier) @name)", "module"),
            ("(impl_item trait: [(type_identifier) (qualified_type)]? @name)", "impl"),
        ],
        SupportedLanguage::TypeScript | SupportedLanguage::Tsx => vec![
            ("(function_declaration name: (identifier) @name)", "function"),
            ("(method_definition name: (property_identifier) @name)", "method"),
            ("(class_declaration name: (type_identifier) @name)", "class"),
            ("(interface_declaration name: (type_identifier) @name)", "interface"),
            ("(type_alias_declaration name: (type_identifier) @name)", "type"),
            ("(enum_declaration name: (identifier) @name)", "enum"),
            ("(abstract_method_signature name: (property_identifier) @name)", "method"),
            ("(variable_declarator name: (identifier) @name)", "variable"),
        ],
        SupportedLanguage::Python => vec![
            ("(function_definition name: (identifier) @name)", "function"),
            ("(class_definition name: (identifier) @name)", "class"),
            ("(decorated_definition (function_definition name: (identifier) @name))", "function"),
            ("(decorated_definition (class_definition name: (identifier) @name))", "class"),
        ],
        SupportedLanguage::Go => vec![
            ("(function_declaration name: (identifier) @name)", "function"),
            ("(method_declaration name: (field_identifier) @name)", "method"),
            ("(type_declaration (type_spec name: (type_identifier) @name))", "type"),
        ],
        SupportedLanguage::Html | SupportedLanguage::Svelte => vec![
            ("(element (start_tag (tag_name) @name))", "element"),
            ("(self_closing_tag (tag_name) @name)", "element"),
        ],
    };
    proof {
        assert(v@.map_values(|q: (&'static str, &'static str)| (q.0@, q.1@)) =~= symbol_queries(l));
    }
    v
}

/// Plain view of a symbol.
pub struct SymbolView {
    pub name: Seq<char>,
    pub kind: Seq<char>,
    pub file: Seq<char>,
    pub line: usize,
    pub column: usize,
    pub snippet: Seq<char>,
    pub language: Seq<char>,
}

/// View of a symbol.
pub open spec fn symbol_view(s: CodeIntelSymbol) -> SymbolView {
    SymbolView {
        name: s.name@,
        kind: s.kind@,
        file: s.file@,
        line: s.line,
        column: s.column,
        snippet: s.snippet@,
        language: s.language@,
    }
}

/// 1-based line of a 0-based row.
pub open spec fn line_of_row(row: usize) -> usize {
    if row < usize::MAX { (row + 1) as usize } else { row }
}

/// The symbols made from captures: those with the name capture index and a
/// non-empty text, each with its line, column and trimmed source line.
pub open spec fn capture_symbols(
    caps: Seq<CaptureView>,
    name_index: u32,
    source: Seq<char>,
    file: Seq<char>,
    language: Seq<char>,
    kind: Seq<char>,
) -> Seq<SymbolView>
    decreases caps.len(),
{
    if caps.len() == 0 {
        Seq::empty()
    } else {
        let rest = capture_symbols(caps.drop_last(), name_index, source, file, language, kind);
        let c = caps.last();
        if c.index == name_index && c.text.len() > 0 {
            rest.push(
                SymbolView {
                    name: c.text,
                    kind: kind,
                    file: file,
                    line: line_of_row(c.row),
                    column: c.column,
                    snippet: trim(line_at(source, c.start_byte as nat)),
                    language: language,
                },
            )
        } else {
            rest
        }
    }
}

/// Symbols one query finds.
pub open spec fn query_symbols(
    lang: SupportedLanguage,
    source: Seq<char>,
    file: Seq<char>,
    language: Seq<char>,
    q: (Seq<char>, Seq<char>),
) -> Seq<SymbolView> {
    match spec_query_source(lang, source, q.0, "name"@) {
        None => Seq::empty(),
        Some((idx, caps)) => capture_symbols(caps, idx, source, file, language, q.1),
    }
}

/// Symbols of all queries of a list, in order.
pub open spec fn queries_symbols(
    lang: SupportedLanguage,
    source: Seq<char>,
    file: Seq<char>,
    language: Seq<char>,
    qs: Seq<(Seq<char>, Seq<char>)>,
) -> Seq<SymbolView>
    decreases qs.len(),
{
    if qs.len() == 0 {
        Seq::empty()
    } else {
        queries_symbols(lang, source, file, language, qs.drop_last()) + query_symbols(
            lang,
            source,
            file,
            language,
            qs.last(),
        )
    }
}

/// Symbols of a source file with a given extension.
pub open spec fn symbols_of(source: Seq<char>, file: Seq<char>, ext: Seq<char>) -> Seq<SymbolView> {
    match language_of_ext(ext) {
        None => Seq::empty(),
        Some(l) => queries_symbols(l, source, file, language_name(l), symbol_queries(l)),
    }
}

/// The symbols made from the captures of a query over a source: one for each
/// capture with the name index and a non-empty text.
pub fn symbols_from_captures(
    caps: &Vec<TsCapture>,
    name_index: u32,
    chars: &Vec<char>,
    file: &str,
    language: &str,
    kind: &str,
) -> (res: Vec<CodeIntelSymbol>)
    ensures
        res@.map_values(|s: CodeIntelSymbol| symbol_view(s)) == capture_symbols(
            captures_view(caps@),
            name_index,
            chars@,
            file@,
            language@,
            kind@,
        ),
{
    let ghost cv = captures_view(caps@);
    let mut out: Vec<CodeIntelSymbol> = Vec::new();
    let mut i: usize = 0;
    proof {
        assert(cv.take(0) =~= Seq::<CaptureView>::empty());
        assert(out@.map_values(|s: CodeIntelSymbol| symbol_view(s)) =~= Seq::<SymbolView>::empty());
    }
    while i < caps.len()
        invariant
            i <= caps.len(),
            cv == captures_view(caps@),
            out@.map_values(|s: CodeIntelSymbol| symbol_view(s)) == capture_symbols(
                cv.take(i as int),
                name_index,
                chars@,
                file@,
                language@,
                kind@,
            ),
        decreases caps.len() - i,
    {
        let c = &caps[i];
        proof {
            assert(cv.take(i + 1).drop_last() == cv.take(i as int));
            assert(cv.take(i + 1).last() == capture_view(*c));
        }
        if c.index == name_index && !c.text.as_str().is_empty() {
            let line = get_line_at_offset(chars, c.start_byte);
            let lv = to_chars(line.as_str());
            let (a, b) = trim_range(&lv, 0, lv.len());
            proof {
                assert(lv@.subrange(0, lv@.len() as int) == lv@);
            }
            let snippet = string_of(&lv, a, b);
            let line_no = if c.row < usize::MAX { c.row + 1 } else { c.row };
            let sym = CodeIntelSymbol {
                name: owned(c.text.as_str()),
                kind: owned(kind),
                file: owned(file),
                line: line_no,
                column: c.column,
                snippet,
                language: owned(language),
            };
            let ghost before = out@;
            out.push(sym);
            proof {
                assert(out@.map_values(|s: CodeIntelSymbol| symbol_view(s)) =~= before.map_values(
                    |s: CodeIntelSymbol| symbol_view(s),
                ).push(symbol_view(sym)));
            }
        }
        i = i + 1;
    }
    proof {
        assert(cv.take(caps.len() as int) == cv);
    }
    out
}

fn push_query_symbols(
    out: &mut Vec<CodeIntelSymbol>,
    lang: SupportedLanguage,
    source: &str,
    chars: &Vec<char>,
    file: &str,
    language: &str,
    query: &str,
    kind: &str,
)
    requires
        chars@ == source@,
    ensures
        final(out)@.map_values(|s: CodeIntelSymbol| symbol_view(s)) == old(out)@.map_values(
            |s: CodeIntelSymbol| symbol_view(s),
        ) + query_symbols(lang, source@, file@, language@, (query@, kind@)),
{
    proof {
        reveal_strlit("name");
    }
    let found = query_source(lang, source, query, "name");
    match found {
        None => {
            proof {
                assert(old(out)@.map_values(|s: CodeIntelSymbol| symbol_view(s)) + Seq::<SymbolView>::empty()
                    =~= old(out)@.map_values(|s: CodeIntelSymbol| symbol_view(s)));
            }
        },
        Some((idx, caps)) => {
            let mut syms = symbols_from_captures(&caps, idx, chars, file, language, kind);
            let ghost sv = syms@;
            out.append(&mut syms);
            proof {
                assert(out@.map_values(|s: CodeIntelSymbol| symbol_view(s)) =~= old(out)@.map_values(
                    |s: CodeIntelSymbol| symbol_view(s),
                ) + sv.map_values(|s: CodeIntelSymbol| symbol_view(s)));
            }
        },
    }
}

/// A symbol as extraction gives it: the file and language asked for, a
/// non-empty name, a 1-based line, and a trimmed snippet.
pub open spec fn symbol_well_formed(s: SymbolView, file: Seq<char>, language: Seq<char>) -> bool {
    &&& s.file == file
    &&& s.language == language
    &&& s.name.len() > 0
    &&& s.line >= 1
    &&& s.snippet == trim(s.snippet)
}

proof fn lemma_capture_symbols_well_formed(
    caps: Seq<CaptureView>,
    idx: u32,
    source: Seq<char>,
    file: Seq<char>,
    language: Seq<char>,
    kind: Seq<char>,
)
    ensures
        forall|k: int|
            0 <= k < capture_symbols(caps, idx, source, file, language, kind).len() ==> symbol_well_formed(
                #[trigger] capture_symbols(caps, idx, source, file, language, kind)[k],
                file,
                language,
            ),
    decreases caps.len(),
{
    if caps.len() > 0 {
        lemma_capture_symbols_well_formed(caps.drop_last(), idx, source, file, language, kind);
        let c = caps.last();
        crate::text::lemma_trim_idempotent(line_at(source, c.start_byte as nat));
        let rest = capture_symbols(caps.drop_last(), idx, source, file, language, kind);
        let all = capture_symbols(caps, idx, source, file, language, kind);
        assert forall|k: int| 0 <= k < all.len() implies symbol_well_formed(#[trigger] all[k], file, language) by {
            if k < rest.len() {
                assert(all[k] == rest[k]);
            }
        }
    }
}

proof fn lemma_queries_symbols_well_formed(
    lang: SupportedLanguage,
    source: Seq<char>,
    file: Seq<char>,
    language: Seq<char>,
    qs: Seq<(Seq<char>, Seq<char>)>,
)
    ensures
        forall|k: int|
            0 <= k < queries_symbols(lang, source, file, language, qs).len() ==> symbol_well_formed(
                #[trigger] queries_symbols(lang, source, file, language, qs)[k],
                file,
                language,
            ),
    decreases qs.len(),
{
    if qs.len() > 0 {
        lemma_queries_symbols_well_formed(lang, source, file, language, qs.drop_last());
        let q = qs.last();
        match spec_query_source(lang, source, q.0, "name"@) {
            None => {},
            Some((idx, caps)) => lemma_capture_symbols_well_formed(caps, idx, source, file, language, q.1),
        }
        let a = queries_symbols(lang, source, file, language, qs.drop_last());
        let b = query_symbols(lang, source, file, language, q);
        assert forall|k: int| 0 <= k < (a + b).len() implies symbol_well_formed(#[trigger] (a + b)[k], file, language) by {
            if k >= a.len() {
                assert((a + b)[k] == b[k - a.len()]);
            }
        }
    }
}

/// Every symbol found in a source file carries the file's name and the
/// language of its extension, a non-empty name, a 1-based line and a trimmed
/// snippet; a file whose extension names no supported language has none.
pub proof fn lemma_symbols_well_formed(source: Seq<char>, file: Seq<char>, ext: Seq<char>)
    ensures
        language_of_ext(ext) is None ==> symbols_of(source, file, ext).len() == 0,
        forall|k: int|
            0 <= k < symbols_of(source, file, ext).len() ==> language_of_ext(ext) is Some && symbol_well_formed(
                #[trigger] symbols_of(source, file, ext)[k],
                file,
                language_name(language_of_ext(ext)->0),
            ),
{
    match language_of_ext(ext) {
        None => {},
        Some(l) => lemma_queries_symbols_well_formed(l, source, file, language_name(l), symbol_queries(l)),
    }
}

/// Symbols (functions, types, elements, ...) defined in a source file with the given extension.
pub fn extract_symbols(source: &str, file: &str, ext: &str) -> (res: Vec<CodeIntelSymbol>)
    ensures
        res@.map_values(|s: CodeIntelSymbol| symbol_view(s)) == symbols_of(source@, file@, ext@),
{
    let lang = match SupportedLanguage::from_ext(ext) {
        Some(l) => l,
        None => {
            let out: Vec<CodeIntelSymbol> = Vec::new();
            proof {
                assert(out@.map_values(|s: CodeIntelSymbol| symbol_view(s)) =~= Seq::<SymbolView>::empty());
            }
            return out;
        },
    };
    let language = lang.name();
    let queries = symbol_query_list(lang);
    let ghost qs = symbol_queries(lang);
    let chars = to_chars(source);
    let mut out: Vec<CodeIntelSymbol> = Vec::new();
    let mut i: usize = 0;
    proof {
        assert(out@.map_values(|s: CodeIntelSymbol| symbol_view(s)) =~= Seq::<SymbolView>::empty());
        assert(qs.take(0) =~= Seq::<(Seq<char>, Seq<char>)>::empty());
    }
    while i < queries.len()
        invariant
            i <= queries.len(),
            queries@.map_values(|q: (&'static str, &'static str)| (q.0@, q.1@)) == qs,
            chars@ == source@,
            out@.map_values(|s: CodeIntelSymbol| symbol_view(s)) == queries_symbols(
                lang,
                source@,
                file@,
                language@,
                qs.take(i as int),
            ),
        decreases queries.len() - i,
    {
        let (q, k) = queries[i];
        proof {
            assert(qs[i as int] == (q@, k@));
            assert(qs.take(i + 1).drop_last() == qs.take(i as int));
            assert(qs.take(i + 1).last() == (q@, k@));
        }
        push_query_symbols(&mut out, lang, source, &chars, file, language, q, k);
        i = i + 1;
    }
    proof {
        assert(qs.take(queries.len() as int) == qs);
    }
    out
}


// ─── Dependencies ───────────────────────────────────────────────

/// Query that captures the import targets of a language, if it has imports.
pub open spec fn dep_query(l: SupportedLanguage) -> Option<Seq<char>> {
    match l {
        SupportedLanguage::Rust => Some("(use_declaration) @target"@),
        SupportedLanguage::TypeScript | SupportedLanguage::Tsx => Some(
            "[\n                (import_statement (string (string_fragment) @target))\n            ]"@,
        ),
        SupportedLanguage::Python => Some(
            "[\n            (import_statement name: (dotted_name) @target)\n            (import_from_statement module_name: (dotted_name) @target)\n        ]"@,
        ),
        SupportedLanguage::Go => Some("(import_spec path: (interpreted_string_literal) @target)"@),
        SupportedLanguage::Html | SupportedLanguage::Svelte => None,
    }
}

/// Kind of the dependencies of a language.
pub open spec fn dep_kind(l: SupportedLanguage) -> Seq<char> {
    match l {
        SupportedLanguage::Rust => "use"@,
        SupportedLanguage::TypeScript | SupportedLanguage::Tsx | SupportedLanguage::Python
        | SupportedLanguage::Go => "import"@,
        SupportedLanguage::Html | SupportedLanguage::Svelte => ""@,
    }
}

/// A captured target with Rust's `use ` prefix and `;` suffix removed.
pub open spec fn clean_target(l: SupportedLanguage, t: Seq<char>) -> Seq<char> {
    if l == SupportedLanguage::Rust {
        let a = if starts_with(t, "use "@) { t.skip(4) } else { t };
        if ends_with(a, ";"@) { a.drop_last() } else { a }
    } else {
        t
    }
}

/// Plain view of a dependency.
pub struct DepView {
    pub target: Seq<char>,
    pub line: usize,
    pub kind: Seq<char>,
}

/// View of a dependency.
pub open spec fn dep_view(d: CodeIntelDep) -> DepView {
    DepView { target: d.target@, line: d.line, kind: d.kind@ }
}

/// Dependencies made from captures with the target capture index and a non-empty cleaned text.
pub open spec fn capture_deps(caps: Seq<CaptureView>, idx: u32, l: SupportedLanguage) -> Seq<DepView>
    decreases caps.len(),
{
    if caps.len() == 0 {
        Seq::empty()
    } else {
        let rest = capture_deps(caps.drop_last(), idx, l);
        let c = caps.last();
        let t = clean_target(l, c.text);
        if c.index == idx && t.len() > 0 {
            rest.push(DepView { target: t, line: line_of_row(c.row), kind: dep_kind(l) })
        } else {
            rest
        }
    }
}

/// Dependencies of a source file with a given extension.
pub open spec fn deps_of(source: Seq<char>, ext: Seq<char>) -> Seq<DepView> {
    match language_of_ext(ext) {
        None => Seq::empty(),
        Some(l) => match dep_query(l) {
            None => Seq::empty(),
            Some(q) => match spec_query_source(l, source, q, "target"@) {
                None => Seq::empty(),
                Some((idx, caps)) => capture_deps(caps, idx, l),
            },
        },
    }
}

fn dep_query_text(l: SupportedLanguage) -> (res: Option<&'static str>)
    ensures
        match dep_query(l) {
            Some(q) => res matches Some(r) && r@ == q,
            None => res is None,
        },
{
    match l {
        SupportedLanguage::Rust => Some("(use_declaration) @target"),
        SupportedLanguage::TypeScript | SupportedLanguage::Tsx => Some(
            "[\n                (import_statement (string (string_fragment) @target))\n            ]",
        ),
        SupportedLanguage::Python => Some(
            "[\n            (import_statement name: (dotted_name) @target)\n            (import_from_statement module_name: (dotted_name) @target)\n        ]",
        ),
        SupportedLanguage::Go => Some("(import_spec path: (interpreted_string_literal) @target)"),
        SupportedLanguage::Html | SupportedLanguage::Svelte => None,
    }
}

fn dep_kind_text(l: SupportedLanguage) -> (res: &'static str)
    ensures
        res@ == dep_kind(l),
{
    match l {
        SupportedLanguage::Rust => "use",
        SupportedLanguage::TypeScript | SupportedLanguage::Tsx | SupportedLanguage::Python
        | SupportedLanguage::Go => "import",
        SupportedLanguage::Html | SupportedLanguage::Svelte => "",
    }
}

fn clean_target_exec(l: SupportedLanguage, t: &String) -> (res: String)
    ensures
        res@ == clean_target(l, t@),
{
    if l != SupportedLanguage::Rust {
        return owned(t.as_str());
    }
    proof {
        reveal_strlit("use ");
        reveal_strlit(";");
    }
    let v = to_chars(t.as_str());
    let prefix = to_chars("use ");
    let a: usize = if crate::text::starts_with_exec(&v, &prefix) { 4 } else { 0 };
    let mut b = v.len();
    if b > a && v[b - 1] == ';' {
        b = b - 1;
    }
    proof {
        let x = if starts_with(v@, "use "@) { v@.skip(4) } else { v@ };
        assert(x == v@.subrange(a as int, v@.len() as int));
        if ends_with(x, ";"@) {
            assert(x.skip(x.len() - 1)[0] == x.last());
            assert(x.len() > 0);
            assert(x.drop_last() == v@.subrange(a as int, v@.len() - 1));
        }
        if v@.len() > a && v@[v@.len() - 1] == ';' {
            assert(x.skip(x.len() - 1) =~= ";"@);
        }
    }
    string_of(&v, a, b)
}

/// The dependencies made from the captures of a language's import query: one
/// for each capture with the target index whose cleaned text is not empty.
pub fn deps_from_captures(caps: &Vec<TsCapture>, idx: u32, lang: SupportedLanguage) -> (res: Vec<CodeIntelDep>)
    ensures
        res@.map_values(|d: CodeIntelDep| dep_view(d)) == capture_deps(captures_view(caps@), idx, lang),
{
    let mut out: Vec<CodeIntelDep> = Vec::new();
    let kind = dep_kind_text(lang);
    let ghost cv = captures_view(caps@);
    let mut i: usize = 0;
    proof {
        assert(cv.take(0) =~= Seq::<CaptureView>::empty());
        assert(out@.map_values(|d: CodeIntelDep| dep_view(d)) =~= Seq::<DepView>::empty());
    }
    while i < caps.len()
        invariant
            i <= caps.len(),
            cv == captures_view(caps@),
            kind@ == dep_kind(lang),
            out@.map_values(|d: CodeIntelDep| dep_view(d)) == capture_deps(cv.take(i as int), idx, lang),
        decreases caps.len() - i,
    {
        let c = &caps[i];
        proof {
            assert(cv.take(i + 1).drop_last() == cv.take(i as int));
            assert(cv.take(i + 1).last() == capture_view(*c));
        }
        let target = clean_target_exec(lang, &c.text);
        if c.index == idx && !target.as_str().is_empty() {
            let line_no = if c.row < usize::MAX { c.row + 1 } else { c.row };
            let dep = CodeIntelDep { target, line: line_no, kind: owned(kind) };
            let ghost before = out@;
            out.push(dep);
            proof {
                assert(out@.map_values(|d: CodeIntelDep| dep_view(d)) =~= before.map_values(
                    |d: CodeIntelDep| dep_view(d),
                ).push(dep_view(dep)));
            }
        }
        i = i + 1;
    }
    proof {
        assert(cv.take(caps.len() as int) == cv);
    }
    out
}

/// Imports and `use` declarations of a source file with the given extension.
pub fn extract_deps(source: &str, ext: &str) -> (res: Vec<CodeIntelDep>)
    ensures
        res@.map_values(|d: CodeIntelDep| dep_view(d)) == deps_of(source@, ext@),
{
    proof {
        reveal_strlit("target");
    }
    let out: Vec<CodeIntelDep> = Vec::new();
    proof {
        assert(out@.map_values(|d: CodeIntelDep| dep_view(d)) =~= Seq::<DepView>::empty());
    }
    let lang = match SupportedLanguage::from_ext(ext) {
        Some(l) => l,
        None => return out,
    };
    let query = match dep_query_text(lang) {
        Some(q) => q,
        None => return out,
    };
    let (idx, caps) = match query_source(lang, source, query, "target") {
        Some(r) => r,
        None => return out,
    };
    deps_from_captures(&caps, idx, lang)
}

} // verus!
