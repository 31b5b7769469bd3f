use codeai::autoreindex::{plan_freshness, stale_file, Freshness};
use codeai::commands::edit::{parse_range, splice_lines, unescape_content};
use codeai::commands::outline::{outline_kind, outline_selection};
use codeai::commands::search::{base64_decode, cursor_is_stale, matched_fields, parse_cursor_generation, preview_head};
use codeai::commands::{validate_fmt, validate_lang_filter, validate_nonzero};
use codeai::store::BlockRow;
use std::path::PathBuf;

fn s(x: &str) -> String {
    x.to_string()
}

#[test]
fn option_validation() {
    assert_eq!(validate_nonzero("limit", 3), Ok(()));
    assert_eq!(validate_nonzero("max-bytes", 0), Err(s("invalid max-bytes: expected > 0")));
    assert_eq!(validate_fmt("tree", &["tree", "thin"]), Ok(()));
    assert_eq!(validate_fmt("json", &["tree", "thin"]), Err(s("unsupported fmt 'json': expected tree|thin")));
    assert!(validate_lang_filter(" Rust "));
    assert!(validate_lang_filter("py"));
    assert!(validate_lang_filter("TSX"));
    assert!(!validate_lang_filter("cobol"));
    assert!(!validate_lang_filter("   "));
}

#[test]
fn edit_ranges_read() {
    assert_eq!(parse_range("L10-L15"), Ok((10, 15)));
    assert_eq!(parse_range(" 3-3 "), Ok((3, 3)));
    assert_eq!(parse_range("l2-l4"), Ok((2, 4)));
    assert_eq!(parse_range("10"), Err(s("Invalid range format: '10'. Expected: L10-L15 or 10-15")));
    assert_eq!(parse_range("a-2"), Err(s("Invalid start line: 'a'")));
    assert_eq!(parse_range("2-b"), Err(s("Invalid end line: 'b'")));
    assert_eq!(parse_range("0-2"), Err(s("Line numbers are 1-based, got: 0-2")));
    assert_eq!(parse_range("5-2"), Err(s("Start line (5) must be <= end line (2)")));
}

#[test]
fn content_escapes() {
    assert_eq!(unescape_content("a\\nb\\tc"), "a\nb\tc");
    assert_eq!(unescape_content("plain"), "plain");
}

#[test]
fn splicing_replaces_lines() {
    let original = "one\ntwo\nthree\nfour\n";
    assert_eq!(splice_lines(original, 2, 3, "TWO"), Ok(s("one\nTWO\nfour\n")));
    assert_eq!(splice_lines(original, 4, 9, "end\n"), Ok(s("one\ntwo\nthree\nend\n")));
    assert_eq!(splice_lines("a\nb", 1, 1, "x"), Ok(s("x\nb")));
    assert_eq!(splice_lines("a\nb", 3, 3, "x"), Err(s("Start line 3 exceeds file length (2)")));
}

#[test]
fn outline_kinds_and_selection() {
    assert_eq!(outline_kind("func"), Ok(s("function")));
    assert_eq!(outline_kind("widget"), Err(s("invalid kind 'widget'")));
    let mk = |kind: &str| BlockRow {
        symbol_id: s("id"),
        path: s("p"),
        language: s("rust"),
        kind: s(kind),
        name: s("n"),
        start_line: 0,
        start_col: 0,
        end_line: 0,
        end_col: 0,
        signature: None,
        doc: None,
        preview: String::new(),
    };
    let blocks = vec![mk("function"), mk("class"), mk("function"), mk("function")];
    assert_eq!(outline_selection(&blocks, Some("function"), 2), vec![0, 2]);
    assert_eq!(outline_selection(&blocks, None, 10), vec![0, 1, 2, 3]);
    assert_eq!(outline_selection(&blocks, Some("enum"), 10), Vec::<usize>::new());
}

#[test]
fn base64_and_cursors() {
    assert_eq!(base64_decode("aGVsbG8"), Some(b"hello".to_vec()));
    assert_eq!(base64_decode("aGVsbG8="), Some(b"hello".to_vec()));
    assert_eq!(base64_decode("a$"), None);
    assert_eq!(base64_decode(""), Some(Vec::new()));
    // {"g":5,"o":0}
    assert_eq!(parse_cursor_generation("eyJnIjo1LCJvIjowfQ"), Some(5));
    // {"o":0}
    assert_eq!(parse_cursor_generation("eyJvIjowfQ=="), None);
    assert_eq!(parse_cursor_generation("!!"), None);
    assert!(cursor_is_stale("eyJnIjo1LCJvIjowfQ", 6));
    assert!(!cursor_is_stale("eyJnIjo1LCJvIjowfQ", 5));
    assert!(!cursor_is_stale("!!", 6));
}

#[test]
fn matched_fields_ignore_case() {
    assert_eq!(matched_fields("Parse", "parse_config", "", "", "", ""), vec![s("name")]);
    assert_eq!(
        matched_fields("conf", "x", "CONFIG doc", "", "src/conf.rs", "fn conf()"),
        vec![s("doc"), s("path"), s("sig")]
    );
    assert_eq!(matched_fields("zzz", "a", "b", "c", "d", "e"), vec![s("preview")]);
}

#[test]
fn preview_heads() {
    assert_eq!(preview_head("a\nb\nc\nd"), "a\nb\nc");
    assert_eq!(preview_head("a"), "a");
    assert_eq!(preview_head(""), "");
}

#[test]
fn freshness_of_indexed_files() {
    let plan = plan_freshness(&[None, Some((5, 10)), Some((6, 10)), Some((1, 1))], &[Some((1, 1)), Some((5, 10)), Some((5, 10)), None]);
    assert_eq!(plan, vec![Freshness::Deleted, Freshness::Unchanged, Freshness::Changed, Freshness::Changed]);
    let f = stale_file(PathBuf::from("/r/src/a.RS"), "src/a.RS", 3, 4);
    assert_eq!(f.extension, "RS");
    assert_eq!(f.rel_path, "src/a.RS");
    let g = stale_file(PathBuf::from("/r/Makefile"), "Makefile", 3, 4);
    assert_eq!(g.extension, "");
}
