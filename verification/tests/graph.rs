use codeai::commands::graph::{build_graph, edge_page, edges_by_source, internal_edge_count, render_tree};
use codeai::store::ImportRow;

fn s(x: &str) -> String {
    x.to_string()
}

fn row(path: &str, raw: &str, resolved: Option<&str>) -> ImportRow {
    ImportRow { path: s(path), raw_import: s(raw), resolved_path: resolved.map(s), kind: s("module") }
}

fn rows() -> Vec<ImportRow> {
    vec![
        row("a.rs", "crate::b", Some("b.rs")),
        row("a.rs", "serde", None),
        row("b.rs", "crate::c", Some("c.rs")),
        row("c.rs", "crate::a", Some("a.rs")),
        row("a.rs", "crate::c", Some("c.rs")),
    ]
}

#[test]
fn walk_finds_edges_cycles_and_externals() {
    let g = build_graph(&rows(), "a.rs", 5, true);
    let edges: Vec<(String, Option<String>, String)> =
        g.edges.iter().map(|e| (e.from.clone(), e.to.clone(), e.kind.clone())).collect();
    assert_eq!(
        edges,
        vec![
            (s("a.rs"), Some(s("b.rs")), s("module")),
            (s("a.rs"), None, s("external")),
            (s("a.rs"), Some(s("c.rs")), s("module")),
            (s("b.rs"), Some(s("c.rs")), s("cycle")),
            (s("c.rs"), Some(s("a.rs")), s("cycle")),
        ]
    );
    assert_eq!(g.file_count, 3);
    assert_eq!(g.cycle_count, 2);
    assert_eq!(g.external_count, 1);
    assert_eq!(g.max_depth, 1);
}

#[test]
fn walk_respects_depth_and_external_flag() {
    let g = build_graph(&rows(), "a.rs", 1, false);
    assert_eq!(g.edges.len(), 2);
    assert_eq!(g.external_count, 1);
    assert_eq!(g.max_depth, 0);
    assert_eq!(g.file_count, 3);
    assert_eq!(internal_edge_count(&g.edges), 2);
}

#[test]
fn edges_group_by_source() {
    let g = build_graph(&rows(), "a.rs", 5, true);
    let m = edges_by_source(&g.edges);
    let kids = m.get("a.rs");
    assert_eq!(kids.len(), 3);
    assert_eq!(kids[1].target, None);
    assert_eq!(kids[1].raw_import, "serde");
    assert!(m.get("zzz").is_empty());
}

#[test]
fn tree_rendering() {
    let g = build_graph(&rows(), "a.rs", 5, true);
    let out = render_tree(&g, 5, 50, 0);
    let expected = "a.rs\n├── b.rs\n│   └── c.rs (cycle)\n├── [ext] serde\n└── c.rs\n    └── a.rs (cycle)\n\n3 files, 4 edges, 2 cycles (--limit 50 --offset 0)\n";
    assert_eq!(out, expected);
    let paged = render_tree(&g, 5, 1, 1);
    assert_eq!(paged, "a.rs\n├── [ext] serde\n\n3 files, 4 edges, 2 cycles (--limit 1 --offset 1)\n");
}

#[test]
fn edge_pages() {
    assert_eq!(edge_page(10, 2, 3), (2, 5, true));
    assert_eq!(edge_page(10, 8, 5), (8, 10, false));
    assert_eq!(edge_page(3, 5, 5), (3, 3, false));
}
