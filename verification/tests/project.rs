use codeai::commands::project::{
    bfs_reachable, build_graph, classify_files, detect_entrypoints, is_entrypoint_filename, Entrypoint, PathMap,
};
use codeai::store::ImportRow;

fn s(x: &str) -> String {
    x.to_string()
}

fn map_of(entries: &[(&str, &[&str])]) -> PathMap {
    let mut m = PathMap::new();
    for (k, vs) in entries {
        m.insert(s(k), vs.iter().map(|v| s(v)).collect());
    }
    m
}

#[test]
fn test_detect_entrypoints_merge_and_sort() {
    let all_paths = vec![
        "a/main.rs".to_string(),
        "b/lib.rs".to_string(),
        "c/index.ts".to_string(),
        "d/worker.rs".to_string(),
        "e/shared.rs".to_string(),
    ];
    let adj = map_of(&[
        ("a/main.rs", &["e/shared.rs"]),
        ("b/lib.rs", &[]),
        ("c/index.ts", &[]),
        ("d/worker.rs", &["e/shared.rs"]),
        ("e/shared.rs", &[]),
    ]);
    let rev = map_of(&[
        ("a/main.rs", &[]),
        ("b/lib.rs", &[]),
        ("c/index.ts", &[]),
        ("d/worker.rs", &[]),
        ("e/shared.rs", &["a/main.rs", "d/worker.rs"]),
    ]);
    let eps = detect_entrypoints(&all_paths, &adj, &rev);
    let got: Vec<(String, &'static str)> = eps.into_iter().map(|e| (e.path, e.confidence)).collect();
    assert_eq!(
        got,
        vec![
            ("a/main.rs".to_string(), "both"),
            ("c/index.ts".to_string(), "filename"),
            ("d/worker.rs".to_string(), "graph"),
        ]
    );
}

#[test]
fn test_bfs_reachable_cycle_terminates() {
    let adj = map_of(&[("a", &["b"]), ("b", &["c"]), ("c", &["a"])]);
    let reach = bfs_reachable(&adj, "a");
    assert_eq!(reach.len(), 3);
    assert!(reach.contains(&s("a")));
    assert!(reach.contains(&s("b")));
    assert!(reach.contains(&s("c")));
}

#[test]
fn test_classify_shared_and_orphan() {
    let all_paths = vec![
        "entry/a.rs".to_string(),
        "entry/b.rs".to_string(),
        "x.rs".to_string(),
        "y.rs".to_string(),
        "z.rs".to_string(),
    ];
    let entrypoints = vec![
        Entrypoint { path: "entry/a.rs".to_string(), confidence: "filename" },
        Entrypoint { path: "entry/b.rs".to_string(), confidence: "filename" },
    ];
    let reach_by_entry = map_of(&[
        ("entry/a.rs", &["entry/a.rs", "x.rs", "y.rs"]),
        ("entry/b.rs", &["entry/b.rs", "y.rs"]),
    ]);
    let (entry_files, shared, orphan) = classify_files(&all_paths, &entrypoints, &reach_by_entry);
    assert_eq!(shared, vec!["y.rs".to_string()]);
    assert_eq!(orphan, vec!["z.rs".to_string()]);
    assert_eq!(entry_files.get("entry/a.rs").unwrap(), &vec!["entry/a.rs".to_string(), "x.rs".to_string()]);
    assert_eq!(entry_files.get("entry/b.rs").unwrap(), &vec!["entry/b.rs".to_string()]);
}

#[test]
fn bfs_reachable_from_unknown_start_is_start_only() {
    let adj = map_of(&[("a", &["b"])]);
    assert_eq!(bfs_reachable(&adj, "zzz"), vec![s("zzz")]);
}

#[test]
fn bfs_reachable_lists_each_file_once() {
    let adj = map_of(&[("a", &["b", "c"]), ("b", &["c"]), ("c", &["b"])]);
    let reach = bfs_reachable(&adj, "a");
    assert_eq!(reach.len(), 3);
    assert_eq!(reach[0], "a");
}

#[test]
fn entrypoint_file_names() {
    assert!(is_entrypoint_filename("cmd/tool/main.go"));
    assert!(is_entrypoint_filename("src/index.ts"));
    assert!(!is_entrypoint_filename("src/library.rs"));
}

#[test]
fn build_graph_keeps_known_edges_sorted() {
    let all_paths = vec![s("a.rs"), s("b.rs"), s("c.rs")];
    let imports = vec![
        ImportRow { path: s("a.rs"), raw_import: s("crate::c"), resolved_path: Some(s("c.rs")), kind: s("module") },
        ImportRow { path: s("a.rs"), raw_import: s("crate::b"), resolved_path: Some(s("b.rs")), kind: s("module") },
        ImportRow { path: s("a.rs"), raw_import: s("std"), resolved_path: None, kind: s("module") },
        ImportRow { path: s("b.rs"), raw_import: s("crate::gone"), resolved_path: Some(s("gone.rs")), kind: s("module") },
    ];
    let (adj, rev) = build_graph(&all_paths, &imports);
    assert_eq!(adj.get("a.rs").unwrap(), &vec![s("b.rs"), s("c.rs")]);
    assert_eq!(adj.get("b.rs").unwrap(), &Vec::<String>::new());
    assert_eq!(rev.get("c.rs").unwrap(), &vec![s("a.rs")]);
    assert_eq!(rev.get("a.rs").unwrap(), &Vec::<String>::new());
}
