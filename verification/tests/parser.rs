use codeai::commands::index::assign_symbol_ids;
use codeai::commands::outline::{outline_kind, outline_selection};
use codeai::lang::{config_for_extension, grammar_for_extension, ts_language_for_extension};
use codeai::parser::{
    extract_blocks, extract_imports, extract_preview, map_node_kind, normalize_relative_path, resolve_import,
    truncate_utf8, ExtractedBlock,
};
use codeai::store::BlockRow;

#[test]
fn truncate_utf8_keeps_char_boundary() {
    let text = format!("{}═suffix", "a".repeat(199));
    let truncated = truncate_utf8(&text, 200);
    assert_eq!(truncated, "a".repeat(199));
}

#[test]
fn truncate_utf8_includes_char_on_boundary() {
    let text = format!("{}═suffix", "a".repeat(199));
    let truncated = truncate_utf8(&text, 202);
    assert_eq!(truncated, format!("{}═", "a".repeat(199)));
}

#[test]
fn truncate_utf8_short_text_and_zero_budget() {
    assert_eq!(truncate_utf8("abc", 10), "abc");
    assert_eq!(truncate_utf8("═abc", 0), "");
    assert_eq!(truncate_utf8("═abc", 2), "");
    assert_eq!(truncate_utf8("═abc", 3), "═");
}

fn blocks_for(ext: &str, source: &str) -> Vec<ExtractedBlock> {
    let config = config_for_extension(ext).unwrap();
    let grammar = grammar_for_extension(ext).unwrap();
    extract_blocks(source.as_bytes(), "x", config.language, grammar, config.function_nodes, config.class_nodes).unwrap()
}

const GO_SOURCE: &str = r#"package payment

// ValidatePayment checks if a payment request is valid.
// It returns an error if validation fails.
func ValidatePayment(amount int, currency string) error {
    if amount <= 0 {
        return fmt.Errorf("payment validation failed: invalid amount %d", amount)
    }
    if currency == "" {
        return fmt.Errorf("payment validation failed: missing currency")
    }
    return nil
}

// ProcessPayment executes the payment after validation.
func ProcessPayment(id string, amount int) error {
    err := ValidatePayment(amount, "USD")
    if err != nil {
        return err
    }
    return nil
}
"#;

#[test]
fn go_blocks_have_names_docs_and_strings() {
    let blocks = blocks_for("go", GO_SOURCE);
    let names: Vec<&str> = blocks.iter().map(|b| b.name.as_str()).collect();
    assert_eq!(names, vec!["ValidatePayment", "ProcessPayment"]);
    let v = &blocks[0];
    assert_eq!(v.kind, "function");
    assert_eq!((v.start_line, v.start_col, v.end_line), (4, 0, 12));
    assert_eq!(v.signature.as_deref(), Some("func ValidatePayment(amount int, currency string) error"));
    assert_eq!(
        v.doc.as_deref(),
        Some("// ValidatePayment checks if a payment request is valid.\n// It returns an error if validation fails.")
    );
    assert!(v.strings.iter().any(|s| s.contains("payment validation failed: invalid amount")));
    assert!(v.preview.starts_with("func ValidatePayment("));
    assert_eq!(v.preview.lines().count(), 9);
}

#[test]
fn python_class_and_methods() {
    let source = "def parse_config(path: str) -> dict:\n    \"\"\"Parse a configuration file.\"\"\"\n    return {}\n\nclass ConfigManager:\n    def __init__(self, config_path: str):\n        self.config = parse_config(config_path)\n\n    def get(self, key: str, default=None):\n        return self.config.get(key, default)\n";
    let blocks = blocks_for("py", source);
    let kinds_names: Vec<(&str, &str)> = blocks.iter().map(|b| (b.kind.as_str(), b.name.as_str())).collect();
    assert!(kinds_names.contains(&("function", "parse_config")));
    assert!(kinds_names.contains(&("class", "ConfigManager")));
    assert!(kinds_names.contains(&("function", "__init__")));
    assert!(kinds_names.contains(&("function", "get")));
}

#[test]
fn js_arrow_function_takes_bound_name() {
    let source = "function formatCurrency(amount, currency) {\n    return `${currency} ${amount}`;\n}\n\nconst parseDate = (dateStr) => {\n    return new Date(dateStr);\n};\n";
    let blocks = blocks_for("js", source);
    let names: Vec<&str> = blocks.iter().map(|b| b.name.as_str()).collect();
    assert!(names.contains(&"formatCurrency"));
    assert!(names.contains(&"parseDate"));
}

#[test]
fn rust_blocks_include_impl_methods() {
    let source = "/// Compute the gcd.\npub fn gcd(a: u64, b: u64) -> u64 {\n    if b == 0 { a } else { gcd(b, a % b) }\n}\n\nstruct Calculator {\n    history: Vec<u64>,\n}\n\nimpl Calculator {\n    fn new() -> Self {\n        Self { history: Vec::new() }\n    }\n}\n";
    let blocks = blocks_for("rs", source);
    let names: Vec<&str> = blocks.iter().map(|b| b.name.as_str()).collect();
    assert!(names.contains(&"gcd"));
    assert!(names.contains(&"Calculator"));
    assert!(names.contains(&"new"));
    let gcd = blocks.iter().find(|b| b.name == "gcd").unwrap();
    assert_eq!(gcd.doc.as_deref(), Some("/// Compute the gcd.\n"));
    assert_eq!(gcd.signature.as_deref(), Some("pub fn gcd(a: u64, b: u64) -> u64"));
}

#[test]
fn go_imports_are_read_from_specs() {
    let config = config_for_extension("go").unwrap();
    let language = grammar_for_extension("go").unwrap();
    let source = "package main\n\nimport (\n    \"fmt\"\n    \"example.com/app/util\"\n)\n\nimport \"os\"\n";
    let imports = extract_imports(source.as_bytes(), language, config.import_nodes).unwrap();
    let raws: Vec<(&str, &str)> = imports.iter().map(|i| (i.raw_import.as_str(), i.kind.as_str())).collect();
    assert_eq!(raws, vec![("fmt", "module"), ("example.com/app/util", "module"), ("os", "module")]);
}

#[test]
fn python_and_js_imports() {
    let py = config_for_extension("py").unwrap();
    let imports = extract_imports(
        b"import os\nfrom utils.helpers import parse_config\n",
        grammar_for_extension("py").unwrap(),
        py.import_nodes,
    )
    .unwrap();
    let raws: Vec<&str> = imports.iter().map(|i| i.raw_import.as_str()).collect();
    assert_eq!(raws, vec!["os", "utils.helpers"]);

    let js = config_for_extension("js").unwrap();
    let imports = extract_imports(
        b"import { a } from './lib/a';\nimport b from \"b\";\n",
        grammar_for_extension("js").unwrap(),
        js.import_nodes,
    )
    .unwrap();
    let raws: Vec<&str> = imports.iter().map(|i| i.raw_import.as_str()).collect();
    assert_eq!(raws, vec!["./lib/a", "b"]);
}

#[test]
fn node_kinds_map_to_block_kinds() {
    assert_eq!(map_node_kind("function_item"), "function");
    assert_eq!(map_node_kind("method_definition"), "method");
    assert_eq!(map_node_kind("type_declaration"), "class");
    assert_eq!(map_node_kind("namespace_definition"), "module");
    assert_eq!(map_node_kind("lexical_declaration"), "lexical_declaration");
}

#[test]
fn previews_are_bounded() {
    let lines: Vec<String> = (0..40).map(|i| format!("line {i}")).collect();
    let refs: Vec<&str> = lines.iter().map(|s| s.as_str()).collect();
    let p = extract_preview(5, 39, &refs);
    assert_eq!(p.lines().count(), 20);
    assert!(p.starts_with("line 5\n"));
    assert_eq!(extract_preview(2, 3, &refs), "line 2\nline 3");
    assert_eq!(extract_preview(50, 60, &refs), "");
}

#[test]
fn relative_paths_normalize() {
    assert_eq!(normalize_relative_path("src/app", "./util"), "src/app/util");
    assert_eq!(normalize_relative_path("src/app", "../lib/x"), "src/lib/x");
    assert_eq!(normalize_relative_path("src", "../../x"), "x");
    assert_eq!(normalize_relative_path("", "./x"), "x");
}

fn paths(v: &[&str]) -> Vec<String> {
    v.iter().map(|s| s.to_string()).collect()
}

#[test]
fn imports_resolve_by_language() {
    let all = paths(&[
        "src/commands/mod.rs",
        "src/models.rs",
        "pkg/util/strings.go",
        "utils/helpers.py",
        "web/lib/a.ts",
        "web/lib/b/index.js",
        "src/main/java/com/x/Y.java",
        "inc/defs.h",
        "lib/tool.rb",
        "scripts/env.sh",
    ]);
    assert_eq!(resolve_import("crate::models::Block", "src/lib.rs", "rust", &all), Some("src/models.rs".to_string()));
    assert_eq!(resolve_import("crate::commands::{a, b}", "src/lib.rs", "rust", &all), Some("src/commands/mod.rs".to_string()));
    assert_eq!(resolve_import("std::fmt", "src/lib.rs", "rust", &all), None);
    assert_eq!(resolve_import("example.com/m/pkg/util", "main.go", "go", &all), Some("pkg/util/strings.go".to_string()));
    assert_eq!(resolve_import("utils.helpers", "main.py", "python", &all), Some("utils/helpers.py".to_string()));
    assert_eq!(resolve_import("./lib/a", "web/main.ts", "typescript", &all), Some("web/lib/a.ts".to_string()));
    assert_eq!(resolve_import("./lib/b", "web/main.ts", "javascript", &all), Some("web/lib/b/index.js".to_string()));
    assert_eq!(resolve_import("react", "web/main.ts", "typescript", &all), None);
    assert_eq!(resolve_import("com.x.Y", "A.java", "java", &all), Some("src/main/java/com/x/Y.java".to_string()));
    assert_eq!(resolve_import("defs.h", "inc/main.c", "c", &all), Some("inc/defs.h".to_string()));
    assert_eq!(resolve_import("inc/defs.h", "main.c", "cpp", &all), Some("inc/defs.h".to_string()));
    assert_eq!(resolve_import("./tool", "lib/main.rb", "ruby", &all), Some("lib/tool.rb".to_string()));
    assert_eq!(resolve_import("./env", "scripts/run.sh", "bash", &all), Some("scripts/env.sh".to_string()));
    assert_eq!(resolve_import("x", "a.kt", "kotlin", &all), None);
}

fn imports_for(ext: &str, source: &str) -> Vec<(String, String)> {
    let config = config_for_extension(ext).unwrap();
    let language = grammar_for_extension(ext).unwrap();
    extract_imports(source.as_bytes(), language, config.import_nodes)
        .unwrap()
        .into_iter()
        .map(|i| (i.raw_import, i.kind))
        .collect()
}

fn pair(a: &str, b: &str) -> (String, String) {
    (a.to_string(), b.to_string())
}

#[test]
fn imports_of_each_extractor() {
    assert_eq!(imports_for("rs", "use crate::models::Block;\nuse std::fmt;\n"), vec![pair("crate::models::Block", "module"), pair("std::fmt", "module")]);
    assert_eq!(imports_for("java", "import static java.util.List;\nimport com.x.Y;\nclass A {}\n"), vec![pair("static java.util.List", "module"), pair("com.x.Y", "module")]);
    assert_eq!(imports_for("c", "#include \"defs.h\"\n#include <stdio.h>\nint main() { return 0; }\n"), vec![pair("defs.h", "include"), pair("stdio.h", "include")]);
    assert_eq!(imports_for("rb", "require 'json'\nrequire_relative \"lib/tool\"\nputs 'x'\n"), vec![pair("json", "require"), pair("lib/tool", "require")]);
    assert_eq!(imports_for("sh", "source ./env.sh\n. \"lib.sh\"\necho hi\n"), vec![pair("./env.sh", "source"), pair("lib.sh", "source")]);
}

#[test]
fn every_grammar_parses() {
    let cases = [
        ("ts", "function greet(name: string): string { return name; }\n", "greet"),
        ("tsx", "function App() { return <div/>; }\n", "App"),
        ("java", "class Greeter { void hello() {} }\n", "hello"),
        ("c", "int add(int a, int b) { return a + b; }\n", "<anon>"),
        ("cpp", "class Box { };\n", "Box"),
        ("rb", "def greet\n  puts 'hi'\nend\n", "greet"),
        ("sh", "greet() {\n  echo hi\n}\n", "greet"),
    ];
    for (ext, source, name) in cases {
        let blocks = blocks_for(ext, source);
        assert!(blocks.iter().any(|b| b.name == name), "{ext}: {:?}", blocks.iter().map(|b| b.name.clone()).collect::<Vec<_>>());
    }
}

const PROJECT_GO: &str = r#"package payment

// ValidatePayment checks if a payment request is valid.
// It returns an error if validation fails.
func ValidatePayment(amount int, currency string) error {
    if amount <= 0 {
        return fmt.Errorf("payment validation failed: invalid amount %d", amount)
    }
    if currency == "" {
        return fmt.Errorf("payment validation failed: missing currency")
    }
    return nil
}

// ProcessPayment executes the payment after validation.
func ProcessPayment(id string, amount int) error {
    err := ValidatePayment(amount, "USD")
    if err != nil {
        return err
    }
    return nil
}
"#;

const PROJECT_PY: &str = r#"def parse_config(path: str) -> dict:
    """Parse a configuration file and return a dictionary."""
    with open(path) as f:
        return json.load(f)

def validate_email(email: str) -> bool:
    """Check if an email address is valid."""
    return "@" in email and "." in email

class ConfigManager:
    """Manages application configuration."""
    def __init__(self, config_path: str):
        self.config = parse_config(config_path)

    def get(self, key: str, default=None):
        return self.config.get(key, default)
"#;

const PROJECT_RS: &str = r#"/// Compute the greatest common divisor.
pub fn gcd(mut a: u64, mut b: u64) -> u64 {
    while b != 0 {
        let t = b;
        b = a % b;
        a = t;
    }
    a
}

/// Compute the least common multiple.
pub fn lcm(a: u64, b: u64) -> u64 {
    a / gcd(a, b) * b
}

struct Calculator {
    history: Vec<f64>,
}

impl Calculator {
    fn new() -> Self {
        Self { history: Vec::new() }
    }

    fn add(&mut self, val: f64) {
        self.history.push(val);
    }
}
"#;

const PROJECT_JS: &str = r#"/**
 * Format a currency amount with symbol.
 */
function formatCurrency(amount, currency) {
    return `${currency} ${amount.toFixed(2)}`;
}

const parseDate = (dateStr) => {
    return new Date(dateStr);
};

class Formatter {
    constructor(locale) {
        this.locale = locale;
    }

    format(value) {
        return value.toLocaleString(this.locale);
    }
}

module.exports = { formatCurrency, parseDate, Formatter };
"#;

fn block_names(blocks: &[ExtractedBlock]) -> Vec<&str> {
    blocks.iter().map(|b| b.name.as_str()).collect()
}

#[test]
fn test_multilang_index() {
    for (ext, source, expected_name) in [
        ("go", PROJECT_GO, "ValidatePayment"),
        ("py", PROJECT_PY, "parse_config"),
        ("rs", PROJECT_RS, "gcd"),
        ("js", PROJECT_JS, "formatCurrency"),
    ] {
        let blocks = blocks_for(ext, source);
        let names = block_names(&blocks);
        assert!(names.contains(&expected_name), "{ext} should contain {expected_name}, got: {names:?}");
    }
}

#[test]
fn test_js_arrow_function_name() {
    let blocks = blocks_for("js", PROJECT_JS);
    let names = block_names(&blocks);
    assert!(
        names.contains(&"parseDate"),
        "arrow function assigned to const should have name 'parseDate', got: {names:?}"
    );
}

#[test]
fn test_python_class_and_methods() {
    let blocks = blocks_for("py", PROJECT_PY);
    let kinds_names: Vec<(&str, &str)> = blocks.iter().map(|b| (b.kind.as_str(), b.name.as_str())).collect();
    assert!(
        kinds_names.iter().any(|(k, n)| *k == "class" && *n == "ConfigManager"),
        "should find class ConfigManager: {kinds_names:?}"
    );
    assert!(
        kinds_names.iter().any(|(k, n)| *k == "function" && *n == "parse_config"),
        "should find function parse_config: {kinds_names:?}"
    );
}

#[test]
fn test_outline_kind_filter() {
    let path = "utils/helpers.py";
    let blocks = blocks_for("py", PROJECT_PY);
    let ids = assign_symbol_ids(path, &blocks);
    let rows: Vec<BlockRow> = blocks
        .iter()
        .zip(ids)
        .map(|(b, symbol_id)| BlockRow {
            symbol_id,
            path: path.to_string(),
            language: "python".to_string(),
            kind: b.kind.clone(),
            name: b.name.clone(),
            start_line: b.start_line,
            start_col: b.start_col,
            end_line: b.end_line,
            end_col: b.end_col,
            signature: b.signature.clone(),
            doc: b.doc.clone(),
            preview: b.preview.clone(),
        })
        .collect();
    let kind = outline_kind("class").unwrap();
    let items = outline_selection(&rows, Some(&kind), 100);
    assert!(!items.is_empty());
    for i in items {
        assert_eq!(rows[i].kind, "class", "kind filter should only return classes");
    }
}

#[test]
fn test_outline_lists_blocks() {
    let blocks = blocks_for("go", PROJECT_GO);
    let names = block_names(&blocks);
    assert!(names.contains(&"ValidatePayment"), "should contain ValidatePayment: {names:?}");
    assert!(names.contains(&"ProcessPayment"), "should contain ProcessPayment: {names:?}");
}

#[test]
fn test_index_creates_blocks() {
    let files = [("go", PROJECT_GO), ("py", PROJECT_PY), ("rs", PROJECT_RS), ("js", PROJECT_JS)];
    let indexed_files = files.len();
    let indexed_blocks: usize = files.iter().map(|(ext, source)| blocks_for(ext, source).len()).sum();
    assert!(indexed_files >= 4, "should index at least 4 files, got {indexed_files}");
    assert!(indexed_blocks >= 10, "should find at least 10 blocks, got {indexed_blocks}");
}

#[test]
fn grammars_exist_for_supported_extensions() {
    for ext in ["go", "RS", "py", "ts", "tsx", "js", "java", "c", "cpp", "rb", "sh"] {
        assert!(ts_language_for_extension(ext).is_some(), "{ext}");
    }
    assert!(ts_language_for_extension("txt").is_none());
}
