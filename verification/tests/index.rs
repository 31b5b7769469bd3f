use codeai::commands::index::{
    assign_symbol_ids, block_rows, content_hash, git_sync_plan, import_rows, index_mode, normalize_rel_path, plan_sync,
    select_files, GitSyncPlan,
};
use codeai::parser::{ExtractedBlock, ExtractedImport};
use codeai::scanner::ScanResult;
use std::path::PathBuf;

fn s(x: &str) -> String {
    x.to_string()
}

fn sorted(mut v: Vec<String>) -> Vec<String> {
    v.sort();
    v
}

fn block(kind: &str, name: &str) -> ExtractedBlock {
    ExtractedBlock {
        kind: s(kind),
        name: s(name),
        start_line: 0,
        start_col: 0,
        end_line: 0,
        end_col: 0,
        signature: None,
        doc: None,
        preview: String::new(),
        strings: Vec::new(),
    }
}

#[test]
fn rel_paths_normalize() {
    assert_eq!(normalize_rel_path("./src\\main.rs"), "src/main.rs");
    assert_eq!(normalize_rel_path("././a"), "a");
    assert_eq!(normalize_rel_path("../a"), "../a");
}

#[test]
fn symbol_ids_number_namesakes() {
    let blocks = vec![
        block("function", "new"),
        block("method", "new"),
        block("function", "new"),
        block("class", "A"),
    ];
    let ids = assign_symbol_ids("src/a.rs", &blocks);
    assert_eq!(
        ids,
        vec![
            s("src/a.rs#function#new#0"),
            s("src/a.rs#method#new"),
            s("src/a.rs#function#new#1"),
            s("src/a.rs#class#A"),
        ]
    );
}

#[test]
fn symbol_ids_use_function_for_unknown_kinds() {
    let ids = assign_symbol_ids("x.go", &[block("lexical_declaration", "f")]);
    assert_eq!(ids, vec![s("x.go#function#f")]);
}

#[test]
fn symbol_ids_ignore_positions() {
    let mut moved = block("function", "main");
    moved.start_line = 40;
    moved.end_line = 80;
    assert_eq!(assign_symbol_ids("m.rs", &[moved]), assign_symbol_ids("m.rs", &[block("function", "main")]));
}

#[test]
fn content_hash_is_sixteen_hex_digits() {
    assert_eq!(content_hash(b""), "2d06800538d394c2");
    let h = content_hash(b"fn main() {}\n");
    assert_eq!(h.len(), 16);
    assert!(h.chars().all(|c| c.is_ascii_hexdigit() && !c.is_ascii_uppercase()));
    assert_ne!(h, content_hash(b"fn main() { }\n"));
}

#[test]
fn git_plan_without_repo_forces_scan() {
    let p = git_sync_plan(false, Some("abc"), Some("abc"), None, None);
    assert!(p.force_scan && !p.use_git);
    assert!(p.index_paths.is_empty() && p.delete_paths.is_empty());
    let p = git_sync_plan(true, None, Some("abc"), None, None);
    assert!(p.force_scan && !p.use_git);
}

#[test]
fn git_plan_reads_status_lines() {
    let status = " M src/a.rs\nD  old.rs\nR  from.rs -> to.rs\n?? ./new\\file.rs\nA\n   \n";
    let p = git_sync_plan(true, Some("h2"), Some("h2"), Some(status), None);
    assert!(p.use_git && !p.force_scan);
    assert_eq!(sorted(p.index_paths.clone()), vec![s("new/file.rs"), s("src/a.rs"), s("to.rs")]);
    assert_eq!(sorted(p.delete_paths.clone()), vec![s("from.rs"), s("old.rs")]);
    assert_eq!(sorted(p.changed_paths()), vec![s("from.rs"), s("new/file.rs"), s("old.rs"), s("src/a.rs"), s("to.rs")]);
}

#[test]
fn git_plan_reads_diff_since_last_head() {
    let diff = "M\tsrc/a.rs\nD\tgone.rs\nR100\tx.rs\ty.rs\nA\tsrc/a.rs\n\n";
    let p = git_sync_plan(true, Some("h2"), Some("h1"), Some(""), Some(diff));
    assert!(p.use_git && !p.force_scan);
    assert_eq!(sorted(p.index_paths.clone()), vec![s("src/a.rs"), s("y.rs")]);
    assert_eq!(sorted(p.delete_paths.clone()), vec![s("gone.rs"), s("x.rs")]);
    let failed = git_sync_plan(true, Some("h2"), Some("h1"), Some(""), None);
    assert!(failed.force_scan && !failed.use_git);
    let first = git_sync_plan(true, Some("h2"), None, Some(" M a.rs\n"), None);
    assert!(first.force_scan && !first.use_git);
    assert_eq!(first.index_paths, vec![s("a.rs")]);
}

#[test]
fn index_modes() {
    let m = index_mode(false, false, 0, 5, false, true, false);
    assert!(m.backfill_imports && !m.git_mode && m.full_compare);
    let m = index_mode(false, false, 3, 5, false, true, false);
    assert!(!m.backfill_imports && m.git_mode && !m.full_compare);
    let m = index_mode(false, true, 3, 5, false, true, false);
    assert!(!m.git_mode && !m.full_compare);
    let m = index_mode(true, true, 0, 5, false, true, false);
    assert!(!m.backfill_imports && !m.git_mode && m.full_compare);
}

fn scan(rel: &str) -> ScanResult {
    ScanResult { path: PathBuf::from(rel), rel_path: s(rel), extension: s("rs"), size: 1, mtime: 2 }
}

#[test]
fn files_are_selected_by_git_and_prefix() {
    let files = vec![scan("src/a.rs"), scan("src/b.rs"), scan("tests/c.rs")];
    let changed = vec![s("src/b.rs"), s("tests/c.rs")];
    let r = select_files(files.clone(), Some(&changed), None);
    assert_eq!(r.iter().map(|f| f.rel_path.as_str()).collect::<Vec<_>>(), vec!["src/b.rs", "tests/c.rs"]);
    let r = select_files(files.clone(), None, Some(".\\src"));
    assert_eq!(r.iter().map(|f| f.rel_path.as_str()).collect::<Vec<_>>(), vec!["src/a.rs", "src/b.rs"]);
    let r = select_files(files, Some(&changed), Some("src/"));
    assert_eq!(r.iter().map(|f| f.rel_path.as_str()).collect::<Vec<_>>(), vec!["src/b.rs"]);
}

#[test]
fn sync_plans_by_mode() {
    let plan = GitSyncPlan { use_git: true, force_scan: false, index_paths: vec![s("a")], delete_paths: vec![s("b"), s("zz")] };
    let existing = vec![s("a"), s("b"), s("c")];
    let scanned = vec![s("a"), s("d")];
    let git = index_mode(false, false, 1, 1, false, true, false);
    let (del, idx) = plan_sync(git, &plan, &existing, &scanned);
    assert_eq!(sorted(del), vec![s("b")]);
    assert_eq!(sorted(idx), vec![s("a")]);
    let full = index_mode(true, false, 1, 1, false, true, false);
    let (del, idx) = plan_sync(full, &plan, &existing, &scanned);
    assert_eq!(sorted(del), vec![s("b"), s("c")]);
    assert_eq!(sorted(idx), vec![s("a"), s("d")]);
    let backfill = index_mode(false, false, 0, 1, false, true, false);
    let (_, idx) = plan_sync(backfill, &plan, &existing, &scanned);
    assert_eq!(sorted(idx), vec![s("a"), s("b"), s("c"), s("d")]);
}

#[test]
fn import_rows_resolve_against_paths() {
    let imports = vec![
        ExtractedImport { raw_import: s("crate::models"), kind: s("module") },
        ExtractedImport { raw_import: s("serde"), kind: s("module") },
    ];
    let rows = import_rows("src/lib.rs", "rust", &imports, &[s("src/models.rs")]);
    assert_eq!(rows.len(), 2);
    assert_eq!(rows[0].path, "src/lib.rs");
    assert_eq!(rows[0].resolved_path.as_deref(), Some("src/models.rs"));
    assert_eq!(rows[1].raw_import, "serde");
    assert_eq!(rows[1].resolved_path, None);
}

#[test]
fn block_rows_carry_ids_and_fields() {
    let mut first = block("function", "pay");
    first.start_line = 3;
    first.end_line = 9;
    first.signature = Some(s("fn pay()"));
    first.doc = Some(s("/// Pays."));
    first.preview = s("fn pay() {");
    let blocks = vec![first, block("function", "pay")];
    let rows = block_rows("src/a.rs", "rust", &blocks);
    assert_eq!(rows.len(), 2);
    assert_eq!(rows[0].symbol_id, "src/a.rs#function#pay#0");
    assert_eq!(rows[1].symbol_id, "src/a.rs#function#pay#1");
    assert_eq!((rows[0].path.as_str(), rows[0].language.as_str()), ("src/a.rs", "rust"));
    assert_eq!((rows[0].start_line, rows[0].end_line), (3, 9));
    assert_eq!(rows[0].signature.as_deref(), Some("fn pay()"));
    assert_eq!(rows[0].doc.as_deref(), Some("/// Pays."));
    assert_eq!(rows[0].preview, "fn pay() {");
    assert_eq!(rows[1].signature, None);
}

#[test]
fn quiet_run_after_index_touches_nothing() {
    let plan = git_sync_plan(true, Some("abc"), Some("abc"), Some(""), None);
    assert!(plan.use_git && !plan.force_scan);
    let mode = index_mode(false, false, 3, 10, false, plan.use_git, plan.force_scan);
    assert!(mode.git_mode && !mode.backfill_imports);
    let existing = vec![s("a.rs"), s("b.rs")];
    let (to_delete, to_index) = plan_sync(mode, &plan, &existing, &[]);
    assert!(to_delete.is_empty() && to_index.is_empty());
    let scan_mode = index_mode(false, false, 3, 10, false, false, true);
    let (to_delete, _) = plan_sync(scan_mode, &plan, &existing, &existing);
    assert!(to_delete.is_empty());
}
