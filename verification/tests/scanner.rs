use codeai::lang::{all_extensions, config_for_extension, grammar_for_extension, is_supported_extension, Grammar};
use codeai::scanner::{normalize_path, Scanner, DEFAULT_MAX_FILE_SIZE};
use std::path::PathBuf;

fn s(x: &str) -> String {
    x.to_string()
}

#[test]
fn scanner_builders() {
    let sc = Scanner::new(PathBuf::from("/proj"))
        .no_gitignore(true)
        .no_default_ignores(false)
        .lang_filter(s("rust"))
        .ignore_file(PathBuf::from("/proj/.ignore"))
        .max_file_size(10);
    assert!(sc.no_gitignore);
    assert!(!sc.no_default_ignores);
    assert_eq!(sc.lang_filter.as_deref(), Some("rust"));
    assert_eq!(sc.ignore_file, Some(PathBuf::from("/proj/.ignore")));
    assert_eq!(sc.max_file_size, 10);
    assert!(sc.admits_size(10));
    assert!(!sc.admits_size(11));
    assert_eq!(Scanner::new(PathBuf::from(".")).max_file_size, DEFAULT_MAX_FILE_SIZE);
}

#[test]
fn allowed_extensions_follow_the_filter() {
    let all = Scanner::new(PathBuf::from(".")).allowed_extensions();
    assert_eq!(all, all_extensions());
    let rust = Scanner::new(PathBuf::from(".")).lang_filter(s("rust")).allowed_extensions();
    assert_eq!(rust, vec!["rs"]);
    let by_ext = Scanner::new(PathBuf::from(".")).lang_filter(s("JS")).allowed_extensions();
    assert_eq!(by_ext, config_for_extension("js").unwrap().extensions.to_vec());
    let none = Scanner::new(PathBuf::from(".")).lang_filter(s("cobol")).allowed_extensions();
    assert!(none.is_empty());
}

#[test]
fn entries_are_accepted_or_passed_over() {
    let sc = Scanner::new(PathBuf::from("/p"));
    let allowed = sc.allowed_extensions();
    let comps = |v: &[&str]| v.iter().map(|x| s(x)).collect::<Vec<_>>();
    assert_eq!(sc.accepted_extension(&comps(&["a.RS", "src", "p"]), "a.RS", Some("RS"), &allowed), Some(s("rs")));
    assert_eq!(sc.accepted_extension(&comps(&["a.rs", "target", "p"]), "a.rs", Some("rs"), &allowed), None);
    assert_eq!(sc.accepted_extension(&comps(&["x.min.js", "p"]), "x.min.js", Some("js"), &allowed), None);
    assert_eq!(sc.accepted_extension(&comps(&["Makefile", "p"]), "Makefile", None, &allowed), None);
    assert_eq!(sc.accepted_extension(&comps(&["a.txt", "p"]), "a.txt", Some("txt"), &allowed), None);
    let open = Scanner::new(PathBuf::from("/p")).no_default_ignores(true);
    assert_eq!(open.accepted_extension(&comps(&["a.rs", "target", "p"]), "a.rs", Some("rs"), &allowed), Some(s("rs")));
    assert_eq!(open.accepted_extension(&comps(&["x.min.js", "p"]), "x.min.js", Some("js"), &allowed), Some(s("js")));
}

#[test]
fn paths_normalize_against_root() {
    assert_eq!(normalize_path("/p/src/a.rs", "/p"), "src/a.rs");
    assert_eq!(normalize_path("/q/b.rs", "/p"), "/q/b.rs");
    assert_eq!(normalize_path("/p/a\\b.rs", "/p"), "a/b.rs");
    assert_eq!(normalize_path("/r/src/a.rs", "/r"), "src/a.rs");
    assert_eq!(normalize_path("/other/x.rs", "/r"), "/other/x.rs");
    assert_eq!(normalize_path("/pq/a.rs", "/p"), "/pq/a.rs");
}

#[test]
fn language_configs() {
    assert_eq!(config_for_extension("RS").unwrap().language, "rust");
    assert!(config_for_extension("txt").is_none());
    assert!(is_supported_extension("Py"));
    assert!(!is_supported_extension("md"));
    assert!(all_extensions().contains(&"kt"));
    assert_eq!(grammar_for_extension("HPP"), Some(Grammar::Cpp));
    assert_eq!(grammar_for_extension("mjs"), Some(Grammar::JavaScript));
    assert_eq!(grammar_for_extension("kt"), None);
}

#[test]
fn only_directories_below_root_are_ignored() {
    let sc = Scanner::new(PathBuf::from("/home/u/vendor/proj"));
    let allowed = sc.allowed_extensions();
    assert_eq!(sc.accepted_rel_path("src/a.rs", Some("rs"), &allowed), Some(s("rs")));
    assert_eq!(sc.accepted_rel_path("vendor/a.rs", Some("rs"), &allowed), None);
    assert_eq!(sc.accepted_rel_path("src/node_modules/x/a.js", Some("js"), &allowed), None);
    assert_eq!(sc.accepted_rel_path("x.min.js", Some("js"), &allowed), None);
}
