//! The rows that the index database keeps.
use vstd::prelude::*;

verus! {

/// What the index keeps of one file.
#[derive(Debug, Clone)]
pub struct FileMeta {
    pub path: String,
    pub mtime: u64,
    pub size: u64,
    pub content_hash: String,
    pub language: Option<String>,
    pub parse_error: bool,
}

/// What the index keeps of one block.
#[derive(Debug, Clone)]
pub struct BlockRow {
    pub symbol_id: String,
    pub path: String,
    pub language: String,
    pub kind: String,
    pub name: String,
    pub start_line: u32,
    pub start_col: u32,
    pub end_line: u32,
    pub end_col: u32,
    pub signature: Option<String>,
    pub doc: Option<String>,
    pub preview: String,
}

/// What the index keeps of one import: the importing file, the import as
/// written, the file it resolves to if any, and its kind.
#[derive(Debug, Clone)]
pub struct ImportRow {
    pub path: String,
    pub raw_import: String,
    pub resolved_path: Option<String>,
    pub kind: String,
}

} // verus!
