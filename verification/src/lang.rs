//! Per-language configuration: file extensions, the syntax node types that
//! make blocks, doc-comment style and how imports are read.
use vstd::prelude::*;

use crate::models::eq_lit;
use crate::text::{chars_eq, chars_of, trim_exec, trim};

verus! {

// ── DocStyle ──

/// How a language writes documentation comments.
#[derive(Debug, Clone, Copy, PartialEq, Eq, Structural)]
pub enum DocStyle {
    Docstring,
    LineComment,
    RustDoc,
    BlockComment,
    Generic,
}

// ── Import extraction config ──

/// A syntax node type that holds an import, and how to read it.
#[derive(Debug, Clone, Copy)]
pub struct ImportNodeConfig {
    pub node_type: &'static str,
    pub extractor: ImportExtractor,
}

/// How an import is read from its syntax node.
#[derive(Debug, Clone, Copy)]
pub enum ImportExtractor {
    Field(&'static str),
    StringField(&'static str),
    GoImport,
    JavaImport,
    CInclude,
    RubyRequire,
    BashSource,
}

// ── LangConfig ──

/// Everything the indexer knows of one language.
#[derive(Debug, Clone, Copy)]
pub struct LangConfig {
    pub language: &'static str,
    pub extensions: &'static [&'static str],
    pub function_nodes: &'static [&'static str],
    pub class_nodes: &'static [&'static str],
    pub doc_style: DocStyle,
    pub import_nodes: &'static [ImportNodeConfig],
}

// ── Language definitions ──

/// The supported languages, in lookup order.
pub open spec fn lang_table() -> Seq<LangConfig> {
    seq![
        LangConfig {
            language: "go",
            extensions: &["go"],
            function_nodes: &["function_declaration", "method_declaration"],
            class_nodes: &["type_declaration"],
            doc_style: DocStyle::LineComment,
            import_nodes: &[ImportNodeConfig {
                node_type: "import_declaration",
                extractor: ImportExtractor::GoImport,
            }],
        },
        LangConfig {
            language: "rust",
            extensions: &["rs"],
            function_nodes: &["function_item"],
            class_nodes: &["impl_item", "struct_item", "enum_item", "trait_item"],
            doc_style: DocStyle::RustDoc,
            import_nodes: &[ImportNodeConfig {
                node_type: "use_declaration",
                extractor: ImportExtractor::Field("argument"),
            }],
        },
        LangConfig {
            language: "python",
            extensions: &["py"],
            function_nodes: &["function_definition"],
            class_nodes: &["class_definition"],
            doc_style: DocStyle::Docstring,
            import_nodes: &[
                ImportNodeConfig {
                    node_type: "import_statement",
                    extractor: ImportExtractor::Field("name"),
                },
                ImportNodeConfig {
                    node_type: "import_from_statement",
                    extractor: ImportExtractor::Field("module_name"),
                },
            ],
        },
        LangConfig {
            language: "typescript",
            extensions: &["ts"],
            function_nodes: &[
                "function_declaration",
                "method_definition",
                "arrow_function",
            ],
            class_nodes: &["class_declaration", "interface_declaration"],
            doc_style: DocStyle::BlockComment,
            import_nodes: &[ImportNodeConfig {
                node_type: "import_statement",
                extractor: ImportExtractor::StringField("source"),
            }],
        },
        LangConfig {
            language: "tsx",
            extensions: &["tsx"],
            function_nodes: &[
                "function_declaration",
                "method_definition",
                "arrow_function",
            ],
            class_nodes: &["class_declaration", "interface_declaration"],
            doc_style: DocStyle::BlockComment,
            import_nodes: &[ImportNodeConfig {
                node_type: "import_statement",
                extractor: ImportExtractor::StringField("source"),
            }],
        },
        LangConfig {
            language: "javascript",
            extensions: &["js", "mjs", "cjs"],
            function_nodes: &[
                "function_declaration",
                "method_definition",
                "arrow_function",
            ],
            class_nodes: &["class_declaration"],
            doc_style: DocStyle::BlockComment,
            import_nodes: &[ImportNodeConfig {
                node_type: "import_statement",
                extractor: ImportExtractor::StringField("source"),
            }],
        },
        LangConfig {
            language: "jsx",
            extensions: &["jsx"],
            function_nodes: &[
                "function_declaration",
                "method_definition",
                "arrow_function",
            ],
            class_nodes: &["class_declaration"],
            doc_style: DocStyle::BlockComment,
            import_nodes: &[ImportNodeConfig {
                node_type: "import_statement",
                extractor: ImportExtractor::StringField("source"),
            }],
        },
        LangConfig {
            language: "java",
            extensions: &["java"],
            function_nodes: &["method_declaration"],
            class_nodes: &["class_declaration", "interface_declaration"],
            doc_style: DocStyle::BlockComment,
            import_nodes: &[ImportNodeConfig {
                node_type: "import_declaration",
                extractor: ImportExtractor::JavaImport,
            }],
        },
        LangConfig {
            language: "kotlin",
            extensions: &["kt", "kts"],
            function_nodes: &["function_declaration"],
            class_nodes: &["class_declaration", "object_declaration"],
            doc_style: DocStyle::BlockComment,
            import_nodes: &[],
        },
        LangConfig {
            language: "c",
            extensions: &["c", "h"],
            function_nodes: &["function_definition"],
            class_nodes: &["struct_specifier"],
            doc_style: DocStyle::BlockComment,
            import_nodes: &[ImportNodeConfig {
                node_type: "preproc_include",
                extractor: ImportExtractor::CInclude,
            }],
        },
        LangConfig {
            language: "cpp",
            extensions: &["cpp", "cc", "cxx", "hpp", "hxx"],
            function_nodes: &["function_definition"],
            class_nodes: &["class_specifier", "namespace_definition"],
            doc_style: DocStyle::BlockComment,
            import_nodes: &[ImportNodeConfig {
                node_type: "preproc_include",
                extractor: ImportExtractor::CInclude,
            }],
        },
        LangConfig {
            language: "csharp",
            extensions: &["cs"],
            function_nodes: &["method_declaration"],
            class_nodes: &["class_declaration", "interface_declaration"],
            doc_style: DocStyle::BlockComment,
            import_nodes: &[],
        },
        LangConfig {
            language: "swift",
            extensions: &["swift"],
            function_nodes: &["function_declaration"],
            class_nodes: &["class_declaration", "protocol_declaration"],
            doc_style: DocStyle::BlockComment,
            import_nodes: &[],
        },
        LangConfig {
            language: "scala",
            extensions: &["scala", "sc"],
            function_nodes: &["function_definition"],
            class_nodes: &["class_definition", "object_definition", "trait_definition"],
            doc_style: DocStyle::BlockComment,
            import_nodes: &[],
        },
        LangConfig {
            language: "ruby",
            extensions: &["rb"],
            function_nodes: &["method"],
            class_nodes: &["class", "module"],
            doc_style: DocStyle::Generic,
            import_nodes: &[ImportNodeConfig {
                node_type: "call",
                extractor: ImportExtractor::RubyRequire,
            }],
        },
        LangConfig {
            language: "php",
            extensions: &["php"],
            function_nodes: &["function_definition", "method_declaration"],
            class_nodes: &["class_declaration"],
            doc_style: DocStyle::BlockComment,
            import_nodes: &[],
        },
        LangConfig {
            language: "bash",
            extensions: &["sh", "bash"],
            function_nodes: &["function_definition"],
            class_nodes: &[],
            doc_style: DocStyle::Generic,
            import_nodes: &[ImportNodeConfig {
                node_type: "command",
                extractor: ImportExtractor::BashSource,
            }],
        },
        LangConfig {
            language: "hcl",
            extensions: &["tf", "hcl"],
            function_nodes: &[],
            class_nodes: &["block"],
            doc_style: DocStyle::Generic,
            import_nodes: &[],
        },
    ]
}

/// The supported languages, in lookup order.
pub fn lang_configs() -> (r: Vec<LangConfig>)
    ensures
        r@ == lang_table(),
{
    let r = vec![
        LangConfig {
            language: "go",
            extensions: &["go"],
            function_nodes: &["function_declaration", "method_declaration"],
            class_nodes: &["type_declaration"],
            doc_style: DocStyle::LineComment,
            import_nodes: &[ImportNodeConfig {
                node_type: "import_declaration",
                extractor: ImportExtractor::GoImport,
            }],
        },
        LangConfig {
            language: "rust",
            extensions: &["rs"],
            function_nodes: &["function_item"],
            class_nodes: &["impl_item", "struct_item", "enum_item", "trait_item"],
            doc_style: DocStyle::RustDoc,
            import_nodes: &[ImportNodeConfig {
                node_type: "use_declaration",
                extractor: ImportExtractor::Field("argument"),
            }],
        },
        LangConfig {
            language: "python",
            extensions: &["py"],
            function_nodes: &["function_definition"],
            class_nodes: &["class_definition"],
            doc_style: DocStyle::Docstring,
            import_nodes: &[
                ImportNodeConfig {
                    node_type: "import_statement",
                    extractor: ImportExtractor::Field("name"),
                },
                ImportNodeConfig {
                    node_type: "import_from_statement",
                    extractor: ImportExtractor::Field("module_name"),
                },
            ],
        },
        LangConfig {
            language: "typescript",
            extensions: &["ts"],
            function_nodes: &[
                "function_declaration",
                "method_definition",
                "arrow_function",
            ],
            class_nodes: &["class_declaration", "interface_declaration"],
            doc_style: DocStyle::BlockComment,
            import_nodes: &[ImportNodeConfig {
                node_type: "import_statement",
                extractor: ImportExtractor::StringField("source"),
            }],
        },
        LangConfig {
            language: "tsx",
            extensions: &["tsx"],
            function_nodes: &[
                "function_declaration",
                "method_definition",
                "arrow_function",
            ],
            class_nodes: &["class_declaration", "interface_declaration"],
            doc_style: DocStyle::BlockComment,
            import_nodes: &[ImportNodeConfig {
                node_type: "import_statement",
                extractor: ImportExtractor::StringField("source"),
            }],
        },
        LangConfig {
            language: "javascript",
            extensions: &["js", "mjs", "cjs"],
            function_nodes: &[
                "function_declaration",
                "method_definition",
                "arrow_function",
            ],
            class_nodes: &["class_declaration"],
            doc_style: DocStyle::BlockComment,
            import_nodes: &[ImportNodeConfig {
                node_type: "import_statement",
                extractor: ImportExtractor::StringField("source"),
            }],
        },
        LangConfig {
            language: "jsx",
            extensions: &["jsx"],
            function_nodes: &[
                "function_declaration",
                "method_definition",
                "arrow_function",
            ],
            class_nodes: &["class_declaration"],
            doc_style: DocStyle::BlockComment,
            import_nodes: &[ImportNodeConfig {
                node_type: "import_statement",
                extractor: ImportExtractor::StringField("source"),
            }],
        },
        LangConfig {
            language: "java",
            extensions: &["java"],
            function_nodes: &["method_declaration"],
            class_nodes: &["class_declaration", "interface_declaration"],
            doc_style: DocStyle::BlockComment,
            import_nodes: &[ImportNodeConfig {
                node_type: "import_declaration",
                extractor: ImportExtractor::JavaImport,
            }],
        },
        LangConfig {
            language: "kotlin",
            extensions: &["kt", "kts"],
            function_nodes: &["function_declaration"],
            class_nodes: &["class_declaration", "object_declaration"],
            doc_style: DocStyle::BlockComment,
            import_nodes: &[],
        },
        LangConfig {
            language: "c",
            extensions: &["c", "h"],
            function_nodes: &["function_definition"],
            class_nodes: &["struct_specifier"],
            doc_style: DocStyle::BlockComment,
            import_nodes: &[ImportNodeConfig {
                node_type: "preproc_include",
                extractor: ImportExtractor::CInclude,
            }],
        },
        LangConfig {
            language: "cpp",
            extensions: &["cpp", "cc", "cxx", "hpp", "hxx"],
            function_nodes: &["function_definition"],
            class_nodes: &["class_specifier", "namespace_definition"],
            doc_style: DocStyle::BlockComment,
            import_nodes: &[ImportNodeConfig {
                node_type: "preproc_include",
                extractor: ImportExtractor::CInclude,
            }],
        },
        LangConfig {
            language: "csharp",
            extensions: &["cs"],
            function_nodes: &["method_declaration"],
            class_nodes: &["class_declaration", "interface_declaration"],
            doc_style: DocStyle::BlockComment,
            import_nodes: &[],
        },
        LangConfig {
            language: "swift",
            extensions: &["swift"],
            function_nodes: &["function_declaration"],
            class_nodes: &["class_declaration", "protocol_declaration"],
            doc_style: DocStyle::BlockComment,
            import_nodes: &[],
        },
        LangConfig {
            language: "scala",
            extensions: &["scala", "sc"],
            function_nodes: &["function_definition"],
            class_nodes: &["class_definition", "object_definition", "trait_definition"],
            doc_style: DocStyle::BlockComment,
            import_nodes: &[],
        },
        LangConfig {
            language: "ruby",
            extensions: &["rb"],
            function_nodes: &["method"],
            class_nodes: &["class", "module"],
            doc_style: DocStyle::Generic,
            import_nodes: &[ImportNodeConfig {
                node_type: "call",
                extractor: ImportExtractor::RubyRequire,
            }],
        },
        LangConfig {
            language: "php",
            extensions: &["php"],
            function_nodes: &["function_definition", "method_declaration"],
            class_nodes: &["class_declaration"],
            doc_style: DocStyle::BlockComment,
            import_nodes: &[],
        },
        LangConfig {
            language: "bash",
            extensions: &["sh", "bash"],
            function_nodes: &["function_definition"],
            class_nodes: &[],
            doc_style: DocStyle::Generic,
            import_nodes: &[ImportNodeConfig {
                node_type: "command",
                extractor: ImportExtractor::BashSource,
            }],
        },
        LangConfig {
            language: "hcl",
            extensions: &["tf", "hcl"],
            function_nodes: &[],
            class_nodes: &["block"],
            doc_style: DocStyle::Generic,
            import_nodes: &[],
        },
    ];
    assert(r@ =~= lang_table());
    r
}

// ── Lookup functions ──

/// `c` is the configuration of a language that uses extension `ext`.
pub open spec fn has_extension(c: LangConfig, ext: Seq<char>) -> bool {
    exists|j: int| 0 <= j < c.extensions@.len() && (#[trigger] c.extensions@[j])@ == ext
}

/// The first configuration from index `i` on that uses extension `ext`.
pub open spec fn config_from(t: Seq<LangConfig>, ext: Seq<char>, i: int) -> Option<LangConfig>
    decreases t.len() - i,
{
    if i < 0 || i >= t.len() {
        None
    } else if has_extension(t[i], ext) {
        Some(t[i])
    } else {
        config_from(t, ext, i + 1)
    }
}

/// The configuration of the language that uses extension `ext`, exactly as
/// written (no case folding).
pub open spec fn config_for(ext: Seq<char>) -> Option<LangConfig> {
    config_from(lang_table(), ext, 0)
}

/// What std's `str::to_lowercase` gives for `s`: the Unicode lowercase
/// mapping of each character.
pub uninterp spec fn lowercase(s: Seq<char>) -> Seq<char>;

/// Every character of `s` is ASCII.
pub open spec fn all_ascii(s: Seq<char>) -> bool {
    forall|i: int| 0 <= i < s.len() ==> (#[trigger] s[i] as int) < 128
}

/// `s` with each ASCII capital `A`..`Z` turned into its small letter and
/// every other character kept.
pub open spec fn ascii_lower(s: Seq<char>) -> Seq<char> {
    Seq::new(s.len(), |i: int| if 'A' <= s[i] && s[i] <= 'Z' { ((s[i] as int) + 32) as char } else { s[i] })
}

/// Lowercases a string (std's `str::to_lowercase`).
/// Trusted: the result is named `lowercase` of the argument's characters;
/// std documents it as the Unicode lowercase mapping, which depends on the
/// characters alone, and on ASCII text that mapping turns `A`..`Z` into
/// `a`..`z` and keeps every other character.
#[verifier::external_body]
pub(crate) fn to_lowercase(s: &str) -> (r: String)
    ensures
        r@ == lowercase(s@),
        all_ascii(s@) ==> r@ == ascii_lower(s@),
{
    s.to_lowercase()
}

/// Whether configuration `c` uses extension `ext` exactly as written.
fn has_extension_exec(c: &LangConfig, ext: &[char]) -> (r: bool)
    ensures
        r == has_extension(*c, ext@),
{
    let mut j: usize = 0;
    while j < c.extensions.len()
        invariant
            j <= c.extensions@.len(),
            forall|k: int| 0 <= k < j ==> (#[trigger] c.extensions@[k])@ != ext@,
        decreases c.extensions@.len() - j,
    {
        let e = chars_of(c.extensions[j]);
        if chars_eq(e.as_slice(), ext) {
            return true;
        }
        j = j + 1;
    }
    false
}

/// The configuration of the language that uses extension `ext` exactly as written.
pub fn config_for_exact(ext: &[char]) -> (r: Option<LangConfig>)
    ensures
        r == config_for(ext@),
{
    let t = lang_configs();
    let mut i: usize = 0;
    while i < t.len()
        invariant
            t@ == lang_table(),
            i <= t.len(),
            config_for(ext@) == config_from(t@, ext@, i as int),
        decreases t.len() - i,
    {
        if has_extension_exec(&t[i], ext) {
            return Some(t[i]);
        }
        i = i + 1;
    }
    None
}

/// Get LangConfig by file extension (without dot), compared after lowercasing.
pub fn config_for_extension(ext: &str) -> (r: Option<LangConfig>)
    ensures
        r == config_for(lowercase(ext@)),
{
    let lower = to_lowercase(ext);
    let cs = chars_of(lower.as_str());
    config_for_exact(cs.as_slice())
}

/// All extensions of the supported languages, language by language.
pub open spec fn all_extensions_spec() -> Seq<&'static str> {
    lang_table().map_values(|c: LangConfig| c.extensions@).flatten()
}

/// All supported extensions.
pub fn all_extensions() -> (r: Vec<&'static str>)
    ensures
        r@ == all_extensions_spec(),
{
    let t = lang_configs();
    let mut r: Vec<&'static str> = Vec::new();
    let mut i: usize = 0;
    while i < t.len()
        invariant
            t@ == lang_table(),
            i <= t.len(),
            r@ == t@.take(i as int).map_values(|c: LangConfig| c.extensions@).flatten(),
        decreases t.len() - i,
    {
        let exts = t[i].extensions;
        let mut j: usize = 0;
        let ghost before = r@;
        while j < exts.len()
            invariant
                j <= exts@.len(),
                r@ == before + exts@.take(j as int),
            decreases exts@.len() - j,
        {
            r.push(exts[j]);
            j = j + 1;
            assert(r@ =~= before + exts@.take(j as int));
        }
        proof {
            assert(exts@.take(j as int) =~= exts@);
            let m = |c: LangConfig| c.extensions@;
            assert(t@.take(i + 1).map_values(m) =~= t@.take(i as int).map_values(m).push(exts@));
            t@.take(i as int).map_values(m).lemma_flatten_push(exts@);
        }
        i = i + 1;
    }
    assert(t@.take(i as int) =~= t@);
    r
}

/// Check if an extension is supported.
pub fn is_supported_extension(ext: &str) -> (r: bool)
    ensures
        r == config_for(lowercase(ext@)) is Some,
{
    config_for_extension(ext).is_some()
}

// ── Grammars ──

/// The tree-sitter grammars the indexer can parse with.
#[derive(Debug, Clone, Copy, PartialEq, Eq, Structural)]
pub enum Grammar {
    Go,
    Rust,
    Python,
    TypeScript,
    Tsx,
    JavaScript,
    Java,
    C,
    Cpp,
    Ruby,
    Bash,
}

/// The grammar for a lower-cased extension, if there is one.
pub open spec fn grammar_spec(ext: Seq<char>) -> Option<Grammar> {
    if ext == "go"@ {
        Some(Grammar::Go)
    } else if ext == "rs"@ {
        Some(Grammar::Rust)
    } else if ext == "py"@ {
        Some(Grammar::Python)
    } else if ext == "ts"@ {
        Some(Grammar::TypeScript)
    } else if ext == "tsx"@ {
        Some(Grammar::Tsx)
    } else if ext == "js"@ || ext == "mjs"@ || ext == "cjs"@ || ext == "jsx"@ {
        Some(Grammar::JavaScript)
    } else if ext == "java"@ {
        Some(Grammar::Java)
    } else if ext == "c"@ || ext == "h"@ {
        Some(Grammar::C)
    } else if ext == "cpp"@ || ext == "cc"@ || ext == "cxx"@ || ext == "hpp"@ || ext == "hxx"@ {
        Some(Grammar::Cpp)
    } else if ext == "rb"@ {
        Some(Grammar::Ruby)
    } else if ext == "sh"@ || ext == "bash"@ {
        Some(Grammar::Bash)
    } else {
        None
    }
}

/// The grammar for an extension, ignoring case; none for languages the
/// indexer keeps but cannot parse.
pub fn grammar_for_extension(ext: &str) -> (r: Option<Grammar>)
    ensures
        r == grammar_spec(lowercase(ext@)),
{
    let lower = to_lowercase(ext);
    let c = chars_of(lower.as_str());
    let e = c.as_slice();
    if eq_lit(e, "go") {
        Some(Grammar::Go)
    } else if eq_lit(e, "rs") {
        Some(Grammar::Rust)
    } else if eq_lit(e, "py") {
        Some(Grammar::Python)
    } else if eq_lit(e, "ts") {
        Some(Grammar::TypeScript)
    } else if eq_lit(e, "tsx") {
        Some(Grammar::Tsx)
    } else if eq_lit(e, "js") || eq_lit(e, "mjs") || eq_lit(e, "cjs") || eq_lit(e, "jsx") {
        Some(Grammar::JavaScript)
    } else if eq_lit(e, "java") {
        Some(Grammar::Java)
    } else if eq_lit(e, "c") || eq_lit(e, "h") {
        Some(Grammar::C)
    } else if eq_lit(e, "cpp") || eq_lit(e, "cc") || eq_lit(e, "cxx") || eq_lit(e, "hpp") || eq_lit(e, "hxx") {
        Some(Grammar::Cpp)
    } else if eq_lit(e, "rb") {
        Some(Grammar::Ruby)
    } else if eq_lit(e, "sh") || eq_lit(e, "bash") {
        Some(Grammar::Bash)
    } else {
        None
    }
}

/// The Go grammar (`tree_sitter_go::LANGUAGE`).
#[verifier::external_body]
fn go_language() -> (r: tree_sitter::Language) {
    tree_sitter_go::LANGUAGE.into()
}

/// The Rust grammar (`tree_sitter_rust::LANGUAGE`).
#[verifier::external_body]
fn rust_language() -> (r: tree_sitter::Language) {
    tree_sitter_rust::LANGUAGE.into()
}

/// The Python grammar (`tree_sitter_python::LANGUAGE`).
#[verifier::external_body]
fn python_language() -> (r: tree_sitter::Language) {
    tree_sitter_python::LANGUAGE.into()
}

/// The TypeScript grammar (`tree_sitter_typescript::LANGUAGE_TYPESCRIPT`).
#[verifier::external_body]
fn typescript_language() -> (r: tree_sitter::Language) {
    tree_sitter_typescript::LANGUAGE_TYPESCRIPT.into()
}

/// The TSX grammar (`tree_sitter_typescript::LANGUAGE_TSX`).
#[verifier::external_body]
fn tsx_language() -> (r: tree_sitter::Language) {
    tree_sitter_typescript::LANGUAGE_TSX.into()
}

/// The JavaScript grammar (`tree_sitter_javascript::LANGUAGE`).
#[verifier::external_body]
fn javascript_language() -> (r: tree_sitter::Language) {
    tree_sitter_javascript::LANGUAGE.into()
}

/// The Java grammar (`tree_sitter_java::LANGUAGE`).
#[verifier::external_body]
fn java_language() -> (r: tree_sitter::Language) {
    tree_sitter_java::LANGUAGE.into()
}

/// The C grammar (`tree_sitter_c::LANGUAGE`).
#[verifier::external_body]
fn c_language() -> (r: tree_sitter::Language) {
    tree_sitter_c::LANGUAGE.into()
}

/// The C++ grammar (`tree_sitter_cpp::LANGUAGE`).
#[verifier::external_body]
fn cpp_language() -> (r: tree_sitter::Language) {
    tree_sitter_cpp::LANGUAGE.into()
}

/// The Ruby grammar (`tree_sitter_ruby::LANGUAGE`).
#[verifier::external_body]
fn ruby_language() -> (r: tree_sitter::Language) {
    tree_sitter_ruby::LANGUAGE.into()
}

/// The Bash grammar (`tree_sitter_bash::LANGUAGE`).
#[verifier::external_body]
fn bash_language() -> (r: tree_sitter::Language) {
    tree_sitter_bash::LANGUAGE.into()
}

/// The tree-sitter grammar of a grammar.
pub fn grammar_language(g: Grammar) -> tree_sitter::Language {
    match g {
        Grammar::Go => go_language(),
        Grammar::Rust => rust_language(),
        Grammar::Python => python_language(),
        Grammar::TypeScript => typescript_language(),
        Grammar::Tsx => tsx_language(),
        Grammar::JavaScript => javascript_language(),
        Grammar::Java => java_language(),
        Grammar::C => c_language(),
        Grammar::Cpp => cpp_language(),
        Grammar::Ruby => ruby_language(),
        Grammar::Bash => bash_language(),
    }
}

/// The tree-sitter grammar for an extension, ignoring case; some exactly
/// when `grammar_for_extension` finds one.
pub fn ts_language_for_extension(ext: &str) -> (r: Option<tree_sitter::Language>)
    ensures
        r is Some <==> grammar_spec(lowercase(ext@)) is Some,
{
    match grammar_for_extension(ext) {
        Some(g) => Some(grammar_language(g)),
        None => None,
    }
}

} // verus!
