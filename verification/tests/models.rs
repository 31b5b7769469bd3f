use codeai::models::{build_symbol_id, parse_symbol_id, BlockKind, Range};

#[test]
fn test_range_display_parse() {
    let r = Range { start_line: 10, start_col: 0, end_line: 50, end_col: 1 };
    assert_eq!(r.to_string(), "10:0-50:1");
    assert_eq!(Range::from_str("10:0-50:1").unwrap(), r);
}

#[test]
fn test_block_kind_roundtrip() {
    for kind in &[
        BlockKind::Function,
        BlockKind::Method,
        BlockKind::Class,
        BlockKind::Struct,
        BlockKind::Interface,
        BlockKind::Trait,
    ] {
        let s = kind.to_string();
        assert_eq!(&BlockKind::from_str(&s).unwrap(), kind);
    }
}

#[test]
fn test_symbol_id_build_parse() {
    let id = build_symbol_id("src/main.rs", &BlockKind::Function, "main", None);
    assert_eq!(id, "src/main.rs#function#main");
    let parsed = parse_symbol_id(&id).unwrap();
    assert_eq!(parsed, ("src/main.rs".into(), "function".into(), "main".into(), None));

    let id2 = build_symbol_id("lib.rs", &BlockKind::Method, "new", Some(1));
    assert_eq!(id2, "lib.rs#method#new#1");
    let parsed2 = parse_symbol_id(&id2).unwrap();
    assert_eq!(parsed2, ("lib.rs".into(), "method".into(), "new".into(), Some(1)));
}

#[test]
fn range_parse_errors() {
    assert_eq!(Range::from_str("10:0").unwrap_err(), "missing '-'");
    assert_eq!(Range::from_str("10-50:1").unwrap_err(), "missing ':' in start");
    assert_eq!(Range::from_str("10:0-50").unwrap_err(), "missing ':' in end");
    assert!(Range::from_str("x:0-50:1").is_err());
    assert!(Range::from_str("4294967296:0-1:1").is_err());
}

#[test]
fn range_text_of_large_values() {
    let r = Range { start_line: 4294967295, start_col: 7, end_line: 0, end_col: 12 };
    assert_eq!(r.to_string(), "4294967295:7-0:12");
    assert_eq!(Range::from_str(&r.to_string()).unwrap(), r);
}

#[test]
fn block_kind_names_and_aliases() {
    assert_eq!(BlockKind::from_str("func").unwrap(), BlockKind::Function);
    assert_eq!(BlockKind::Namespace.to_string(), "namespace");
    assert_eq!(BlockKind::Protocol.as_str(), "protocol");
    assert_eq!(BlockKind::from_str("lambda").unwrap_err(), "unknown block kind: lambda");
    assert_eq!(BlockKind::from_str_loose("lambda"), BlockKind::Function);
    assert_eq!(BlockKind::from_str_loose("enum"), BlockKind::Enum);
}

#[test]
fn symbol_id_parse_edge_cases() {
    assert_eq!(parse_symbol_id("no-hashes"), None);
    assert_eq!(parse_symbol_id("a#b"), None);
    assert_eq!(
        parse_symbol_id("p#kind#name#notanumber"),
        Some(("p".to_string(), "kind".to_string(), "name#notanumber".to_string(), None))
    );
    assert_eq!(
        parse_symbol_id("p#k#n#3#extra"),
        Some(("p".to_string(), "k".to_string(), "n#3#extra".to_string(), None))
    );
    assert_eq!(
        parse_symbol_id("a.rs#function#weird#name"),
        Some(("a.rs".to_string(), "function".to_string(), "weird#name".to_string(), None))
    );
}
