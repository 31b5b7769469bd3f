//! What the indexer reads out of source text: blocks, their previews and
//! kinds, and where imports lead.
use vstd::prelude::*;
use vstd::string::StringSliceAdditionalSpecFns;
use vstd::utf8::{
    decode_utf8, encode_utf8, encode_utf8_decode_utf8, encode_utf8_valid_utf8, is_char_boundary,
    is_char_boundary_start_end_of_seq,
};

use crate::models::{eq_lit, lit_chars, lit_string};
use crate::commands::str_views;
use crate::lang::{Grammar, ImportExtractor, ImportNodeConfig};
use crate::syntax::{
    field_child, lossy_text, lossy_text_of, node_sane, node_text, parse_grammar, parsed_nodes, syntax_tree,
    tree_model, SyntaxNode, SyntaxTree,
};
use crate::text::{
    chars_of, contains_string_slice, ends_with_exec, extend_chars, opt_view, parts_range,
    replace_char_exec, find, find_exec, lemma_find_from, lines, lines_exec, str_eq, trim, trim_exec,
    trim_end_matches, trim_end_matches_exec, trim_set, trim_set_exec, join, join_exec, matches_at, rsplit_once, rsplit_once_exec, slice_vec,
    ends_with, replace, split, split_exec, starts_with, starts_with_exec, string_of,
    strip_prefix, trim_start_matches,
    trim_start_matches_exec,
};

verus! {

/// Lines of a block shown in its preview.
pub const PREVIEW_LINES: usize = 20;

/// String literals kept per block.
pub const MAX_STRINGS: usize = 20;

/// Bytes kept of each string literal.
pub const MAX_STRING_LEN: usize = 200;

/// The greatest character boundary of `bytes` at or below `m`.
pub open spec fn floor_boundary(bytes: Seq<u8>, m: int) -> int
    decreases m,
{
    if m <= 0 {
        0
    } else if is_char_boundary(bytes, m) {
        m
    } else {
        floor_boundary(bytes, m - 1)
    }
}

/// The length in bytes that `truncate_utf8` keeps of `bytes`.
pub open spec fn truncated_len(bytes: Seq<u8>, max_bytes: int) -> int {
    if bytes.len() <= max_bytes {
        bytes.len() as int
    } else {
        floor_boundary(bytes, max_bytes)
    }
}

/// `text` cut to at most `max_bytes` bytes, at the last character boundary
/// that fits.
pub fn truncate_utf8(text: &str, max_bytes: usize) -> (r: &str)
    ensures
        r.spec_bytes() == text.spec_bytes().take(truncated_len(text.spec_bytes(), max_bytes as int)),
{
    proof {
        encode_utf8_valid_utf8(text@);
        is_char_boundary_start_end_of_seq(text.spec_bytes());
    }
    let n = text.as_bytes().len();
    assert(n == text.spec_bytes().len());
    if n <= max_bytes {
        assert(text.spec_bytes().take(text.spec_bytes().len() as int) =~= text.spec_bytes());
        return text;
    }
    let mut end = max_bytes;
    while end > 0 && !text.is_char_boundary(end)
        invariant
            end <= max_bytes,
            floor_boundary(text.spec_bytes(), max_bytes as int) == floor_boundary(
                text.spec_bytes(),
                end as int,
            ),
        decreases end,
    {
        end = end - 1;
    }
    assert(is_char_boundary(text.spec_bytes(), end as int));
    assert(floor_boundary(text.spec_bytes(), end as int) == end);
    let (head, _) = text.split_at(end);
    assert(text.spec_bytes().subrange(0, end as int) =~= text.spec_bytes().take(end as int));
    head
}

/// What `truncate_utf8` keeps is at most `max_bytes` long, no longer than
/// the text, and ends on a character boundary.
pub proof fn lemma_truncate_on_boundary(text: Seq<char>, max_bytes: int)
    requires
        0 <= max_bytes,
    ensures
        truncated_len(encode_utf8(text), max_bytes) <= max_bytes,
        0 <= truncated_len(encode_utf8(text), max_bytes) <= encode_utf8(text).len(),
        is_char_boundary(encode_utf8(text), truncated_len(encode_utf8(text), max_bytes)),
{
    let b = encode_utf8(text);
    encode_utf8_valid_utf8(text);
    is_char_boundary_start_end_of_seq(b);
    if b.len() > max_bytes {
        lemma_floor_boundary(b, max_bytes);
    }
}

/// The floor boundary lies at or below `m`, within the bytes, on a boundary.
proof fn lemma_floor_boundary(bytes: Seq<u8>, m: int)
    requires
        0 <= m <= bytes.len(),
        is_char_boundary(bytes, 0),
    ensures
        0 <= floor_boundary(bytes, m) <= m,
        is_char_boundary(bytes, floor_boundary(bytes, m)),
    decreases m,
{
    if m > 0 && !is_char_boundary(bytes, m) {
        lemma_floor_boundary(bytes, m - 1);
    }
}

// ── ExtractedBlock ──

/// A block as read from a syntax tree, before it gets its symbol id.
#[derive(Debug, Clone)]
pub struct ExtractedBlock {
    pub kind: String,
    pub name: String,
    pub start_line: u32,
    pub start_col: u32,
    pub end_line: u32,
    pub end_col: u32,
    pub signature: Option<String>,
    pub doc: Option<String>,
    pub preview: String,
    pub strings: Vec<String>,
}

// ── Node kind → BlockKind mapping ──

/// The block kind name for a syntax node type; an unknown type names itself.
pub open spec fn node_kind_name(k: Seq<char>) -> Seq<char> {
    if k == "function_declaration"@ || k == "function_definition"@ || k == "function_item"@ {
        "function"@
    } else if k == "method_declaration"@ || k == "method_definition"@ || k == "method"@ {
        "method"@
    } else if k == "arrow_function"@ {
        "function"@
    } else if k == "class_declaration"@ || k == "class_definition"@ || k == "class_specifier"@ || k == "class"@ {
        "class"@
    } else if k == "struct_item"@ || k == "struct_specifier"@ {
        "struct"@
    } else if k == "interface_declaration"@ {
        "interface"@
    } else if k == "trait_item"@ || k == "trait_definition"@ {
        "trait"@
    } else if k == "enum_item"@ {
        "enum"@
    } else if k == "impl_item"@ {
        "impl"@
    } else if k == "module"@ || k == "namespace_definition"@ {
        "module"@
    } else if k == "object_declaration"@ || k == "object_definition"@ {
        "object"@
    } else if k == "protocol_declaration"@ {
        "protocol"@
    } else if k == "type_declaration"@ {
        "class"@
    } else if k == "block"@ {
        "block"@
    } else {
        k
    }
}

/// The block kind name for a syntax node type.
pub fn map_node_kind<'a>(node_kind: &'a str) -> (r: &'a str)
    ensures
        r@ == node_kind_name(node_kind@),
{
    let cv = chars_of(node_kind);
    let c = cv.as_slice();
    if eq_lit(c, "function_declaration") || eq_lit(c, "function_definition") || eq_lit(c, "function_item") {
        "function"
    } else if eq_lit(c, "method_declaration") || eq_lit(c, "method_definition") || eq_lit(c, "method") {
        "method"
    } else if eq_lit(c, "arrow_function") {
        "function"
    } else if eq_lit(c, "class_declaration") || eq_lit(c, "class_definition") || eq_lit(c, "class_specifier") || eq_lit(c, "class") {
        "class"
    } else if eq_lit(c, "struct_item") || eq_lit(c, "struct_specifier") {
        "struct"
    } else if eq_lit(c, "interface_declaration") {
        "interface"
    } else if eq_lit(c, "trait_item") || eq_lit(c, "trait_definition") {
        "trait"
    } else if eq_lit(c, "enum_item") {
        "enum"
    } else if eq_lit(c, "impl_item") {
        "impl"
    } else if eq_lit(c, "module") || eq_lit(c, "namespace_definition") {
        "module"
    } else if eq_lit(c, "object_declaration") || eq_lit(c, "object_definition") {
        "object"
    } else if eq_lit(c, "protocol_declaration") {
        "protocol"
    } else if eq_lit(c, "type_declaration") {
        "class"
    } else if eq_lit(c, "block") {
        "block"
    } else {
        node_kind
    }
}

// ── Preview extraction ──

/// The views of a list of lines.
pub open spec fn line_views(lines: Seq<&str>) -> Seq<Seq<char>> {
    lines.map_values(|l: &str| l@)
}

/// The preview of a block from `start_line` to `end_line`: at most
/// `PREVIEW_LINES` of its lines, joined with newlines; empty when the block
/// starts past the end.
pub open spec fn preview_text(start_line: int, end_line: int, lines: Seq<Seq<char>>) -> Seq<char> {
    let end = vstd::math::min(
        vstd::math::min(start_line + PREVIEW_LINES, end_line + 1),
        lines.len() as int,
    );
    if start_line >= lines.len() {
        seq![]
    } else {
        join(lines.subrange(start_line, end), seq!['\n'])
    }
}

/// The preview of a block from `start_line` to `end_line`.
pub fn extract_preview(start_line: usize, end_line: usize, lines: &[&str]) -> (r: String)
    requires
        start_line + PREVIEW_LINES <= usize::MAX,
        end_line < usize::MAX,
        start_line < lines@.len() ==> start_line <= end_line + 1,
    ensures
        r@ == preview_text(start_line as int, end_line as int, line_views(lines@)),
{
    let a = start_line + PREVIEW_LINES;
    let b = end_line + 1;
    let m = if a < b {
        a
    } else {
        b
    };
    let end = if m < lines.len() {
        m
    } else {
        lines.len()
    };
    if start_line >= lines.len() {
        return String::new();
    }
    let mut parts: Vec<Vec<char>> = Vec::new();
    let mut i = start_line;
    assert(parts.deep_view() =~= line_views(lines@).subrange(start_line as int, i as int));
    while i < end
        invariant
            start_line <= i <= end <= lines@.len(),
            parts.deep_view() == line_views(lines@).subrange(start_line as int, i as int),
        decreases end - i,
    {
        let ghost old_parts = parts.deep_view();
        let l = chars_of(lines[i]);
        assert(l@ == line_views(lines@)[i as int]);
        assert(l.deep_view() =~= l@);
        parts.push(l);
        assert(parts.deep_view() =~= old_parts.push(line_views(lines@)[i as int]));
        assert(line_views(lines@).subrange(start_line as int, i + 1) =~= line_views(lines@).subrange(start_line as int, i as int).push(line_views(lines@)[i as int]));
        i = i + 1;
    }
    let nl = vec!['\n'];
    assert(nl@ =~= seq!['\n']);
    let joined = join_exec(&parts, nl.as_slice());
    string_of(joined.as_slice())
}

// ── Import extraction results ──

/// An import as written in a file, and its kind (`module`, `include`,
/// `require` or `source`).
#[derive(Debug, Clone)]
pub struct ExtractedImport {
    pub raw_import: String,
    pub kind: String,
}

// ── Import path resolution ──

/// The first of `cands` that is one of `paths`.
pub open spec fn first_present(cands: Seq<Seq<char>>, paths: Seq<Seq<char>>) -> Option<Seq<char>>
    decreases cands.len(),
{
    if cands.len() == 0 {
        None
    } else if paths.contains(cands[0]) {
        Some(cands[0])
    } else {
        first_present(cands.drop_first(), paths)
    }
}

/// The first of `cands` that is one of `all_paths`.
pub fn first_present_exec(cands: &Vec<Vec<char>>, all_paths: &[String]) -> (r: Option<String>)
    ensures
        match r {
            Some(p) => first_present(cands.deep_view(), all_paths.deep_view()) == Some(p@),
            None => first_present(cands.deep_view(), all_paths.deep_view()) is None,
        },
{
    let mut i: usize = 0;
    let ghost cv = cands.deep_view();
    assert(cv.skip(0) =~= cv);
    while i < cands.len()
        invariant
            cv == cands.deep_view(),
            i <= cv.len(),
            first_present(cv, all_paths.deep_view()) == first_present(cv.skip(i as int), all_paths.deep_view()),
        decreases cv.len() - i,
    {
        let c = string_of(cands[i].as_slice());
        assert(cands@[i as int].deep_view() =~= cands@[i as int]@);
        assert(cv.skip(i as int)[0] == c@);
        assert(cv.skip(i as int).drop_first() =~= cv.skip(i + 1));
        if contains_string_slice(all_paths, c.as_str()) {
            return Some(c);
        }
        i = i + 1;
    }
    None
}

/// The directory part of a path: all before its last `/`, or nothing.
pub open spec fn dir_of(path: Seq<char>) -> Seq<char> {
    match rsplit_once(path, '/') {
        Some((d, _)) => d,
        None => seq![],
    }
}

/// The directory part of a path.
pub fn dir_of_exec(path: &[char]) -> (r: Vec<char>)
    ensures
        r@ == dir_of(path@),
{
    match rsplit_once_exec(path, '/') {
        Some((d, _)) => d,
        None => Vec::new(),
    }
}

/// `../` pieces at the front of `rem`, each removing the last of `parts`.
pub open spec fn pop_parents(parts: Seq<Seq<char>>, rem: Seq<char>) -> (Seq<Seq<char>>, Seq<char>)
    decreases rem.len(),
{
    if starts_with(rem, seq!['.', '.', '/']) {
        pop_parents(
            if parts.len() > 0 {
                parts.drop_last()
            } else {
                parts
            },
            rem.skip(3),
        )
    } else {
        (parts, rem)
    }
}

/// `rel` read from directory `base_dir`: leading `./` dropped, and each
/// leading `../` climbing one directory.
pub open spec fn normalize_relative(base_dir: Seq<char>, rel0: Seq<char>) -> Seq<char> {
    let rel = trim_start_matches(rel0, seq!['.', '/']);
    if !starts_with(rel, seq!['.', '.', '/']) {
        if base_dir.len() == 0 {
            rel
        } else {
            base_dir + seq!['/'] + rel
        }
    } else {
        let parts = if base_dir.len() == 0 {
            seq![]
        } else {
            split(base_dir, seq!['/'])
        };
        let (ps, remaining) = pop_parents(parts, rel);
        if ps.len() == 0 {
            remaining
        } else {
            join(ps, seq!['/']) + seq!['/'] + remaining
        }
    }
}

/// `rel` read from directory `base_dir`.
pub fn normalize_relative_chars(base_dir: &[char], rel0: &[char]) -> (r: Vec<char>)
    ensures
        r@ == normalize_relative(base_dir@, rel0@),
{
    let dot_slash = vec!['.', '/'];
    let up = vec!['.', '.', '/'];
    let slash = vec!['/'];
    assert(dot_slash@ =~= seq!['.', '/']);
    assert(up@ =~= seq!['.', '.', '/']);
    assert(slash@ =~= seq!['/']);
    let rel = trim_start_matches_exec(rel0, dot_slash.as_slice());
    if !starts_with_exec(rel.as_slice(), up.as_slice()) {
        if base_dir.len() == 0 {
            return rel;
        }
        let mut r = slice_vec(base_dir, 0, base_dir.len());
        r.push('/');
        extend_chars(&mut r, rel.as_slice());
        assert(r@ =~= base_dir@ + seq!['/'] + rel@);
        return r;
    }
    let mut parts: Vec<Vec<char>> = if base_dir.len() == 0 {
        Vec::new()
    } else {
        split_exec(base_dir, slash.as_slice())
    };
    assert(parts.deep_view() =~= (if base_dir@.len() == 0 {
        Seq::<Seq<char>>::empty()
    } else {
        split(base_dir@, seq!['/'])
    }));
    let mut pos: usize = 0;
    let n: usize = rel.len();
    assert(rel@.skip(0) =~= rel@);
    while matches_at(rel.as_slice(), up.as_slice(), pos)
        invariant
            up@ == seq!['.', '.', '/'],
            n == rel@.len(),
            pos <= rel@.len(),
            pop_parents(parts.deep_view(), rel@.skip(pos as int)) == pop_parents(
                if base_dir@.len() == 0 {
                    seq![]
                } else {
                    split(base_dir@, seq!['/'])
                },
                rel@,
            ),
        decreases rel@.len() - pos,
    {
        let ghost t = rel@.skip(pos as int);
        assert(t.subrange(0, 3) =~= rel@.subrange(pos as int, pos + 3));
        assert(t.skip(3) =~= rel@.skip(pos + 3));
        let ghost old_parts = parts.deep_view();
        if parts.len() > 0 {
            parts.pop();
            assert(parts.deep_view() =~= old_parts.drop_last());
        }
        assert(pos + 3 <= n);
        pos = pos + 3;
    }
    proof {
        let t = rel@.skip(pos as int);
        if starts_with(t, seq!['.', '.', '/']) {
            assert(t.subrange(0, 3) =~= rel@.subrange(pos as int, pos + 3));
        }
    }
    let remaining = slice_vec(rel.as_slice(), pos, rel.len());
    assert(remaining@ =~= rel@.skip(pos as int));
    if parts.len() == 0 {
        return remaining;
    }
    let mut r = join_exec(&parts, slash.as_slice());
    r.push('/');
    extend_chars(&mut r, remaining.as_slice());
    r
}

/// `rel` read from directory `base_dir`.
pub fn normalize_relative_path(base_dir: &str, rel: &str) -> (r: String)
    ensures
        r@ == normalize_relative(base_dir@, rel@),
{
    let b = chars_of(base_dir);
    let rl = chars_of(rel);
    let v = normalize_relative_chars(b.as_slice(), rl.as_slice());
    string_of(v.as_slice())
}

// ── Resolving an import to a project file ──

/// `s` followed by each of `exts`.
pub open spec fn with_suffixes(s: Seq<char>, exts: Seq<Seq<char>>) -> Seq<Seq<char>>
    decreases exts.len(),
{
    if exts.len() == 0 {
        seq![]
    } else {
        seq![s + exts[0]] + with_suffixes(s, exts.drop_first())
    }
}

/// `s` followed by each of `exts`.
fn with_suffixes_exec(s: &[char], exts: &[&str]) -> (r: Vec<Vec<char>>)
    ensures
        r.deep_view() == with_suffixes(s@, exts@.map_values(|e: &str| e@)),
{
    let ghost ev = exts@.map_values(|e: &str| e@);
    let mut r: Vec<Vec<char>> = Vec::new();
    let mut i: usize = exts.len();
    assert(ev.skip(i as int) =~= Seq::<Seq<char>>::empty());
    while i > 0
        invariant
            i <= exts@.len(),
            ev == exts@.map_values(|e: &str| e@),
            r.deep_view() == with_suffixes(s@, ev.skip(i as int)),
        decreases i,
    {
        i = i - 1;
        let mut c = slice_vec(s, 0, s.len());
        let e = chars_of(exts[i]);
        extend_chars(&mut c, e.as_slice());
        let ghost old_r = r.deep_view();
        assert(ev.skip(i as int).drop_first() =~= ev.skip(i + 1));
        assert(ev.skip(i as int)[0] == exts@[i as int]@);
        assert(c.deep_view() =~= c@);
        let ghost cv = c@;
        let ghost old_v = r@;
        r.insert(0, c);
        let ghost want = seq![s@ + ev.skip(i as int)[0]] + old_r;
        assert(r.deep_view().len() == want.len());
        assert forall|j: int| 0 <= j < want.len() implies r.deep_view()[j] == want[j] by {
            if j == 0 {
                assert(r@[0] == c);
                assert(r@[0].deep_view() =~= cv);
            } else {
                assert(r@[j] == old_v[j - 1]);
            }
        }
        assert(r.deep_view() =~= want);
    }
    assert(ev.skip(0) =~= ev);
    r
}

/// A list of two strings.
fn pair_of(a: Vec<char>, b: Vec<char>) -> (r: Vec<Vec<char>>)
    ensures
        r.deep_view() == seq![a@, b@],
{
    assert(a.deep_view() =~= a@);
    assert(b.deep_view() =~= b@);
    let mut r: Vec<Vec<char>> = Vec::new();
    r.push(a);
    r.push(b);
    assert(r.deep_view() =~= seq![a@, b@]);
    r
}

/// `a` followed by `b`.
fn concat(a: &[char], b: &[char]) -> (r: Vec<char>)
    ensures
        r@ == a@ + b@,
{
    let mut r = slice_vec(a, 0, a.len());
    extend_chars(&mut r, b);
    r
}

/// The module part of a `crate::` path: what stands before any `::{` and
/// then before any `::*`.
pub open spec fn rust_module_path(path: Seq<char>) -> Seq<char> {
    split(split(path, "::{"@)[0], "::*"@)[0]
}

/// Files a Rust module path may live in, from the longest prefix of its
/// segments down to the first alone: `src/a/b.rs`, then `src/a/b/mod.rs`.
pub open spec fn rust_candidates(segs: Seq<Seq<char>>, end: nat) -> Seq<Seq<char>>
    decreases end,
{
    if end == 0 {
        seq![]
    } else {
        let base = "src/"@ + join(segs.take(end as int), "/"@);
        seq![base + ".rs"@, base + "/mod.rs"@] + rust_candidates(segs, (end - 1) as nat)
    }
}

/// Where a Rust `use` leads: only `crate::` paths resolve.
pub open spec fn resolve_rust(raw: Seq<char>, paths: Seq<Seq<char>>) -> Option<Seq<char>> {
    match strip_prefix(raw, "crate::"@) {
        Some(rest) => {
            let segs = split(rust_module_path(rest), "::"@);
            first_present(rust_candidates(segs, segs.len()), paths)
        },
        None => None,
    }
}

/// The first of `paths` under `dir` (by prefix) that is a Go file.
pub open spec fn first_go_file(paths: Seq<Seq<char>>, dir: Seq<char>) -> Option<Seq<char>>
    decreases paths.len(),
{
    if paths.len() == 0 {
        None
    } else if starts_with(paths[0], dir) && ends_with(paths[0], ".go"@) {
        Some(paths[0])
    } else {
        first_go_file(paths.drop_first(), dir)
    }
}

/// A Go file for the trailing segments of `segs` from `start` on, trying
/// the longest first.
pub open spec fn resolve_go_from(segs: Seq<Seq<char>>, start: nat, paths: Seq<Seq<char>>) -> Option<Seq<char>>
    decreases segs.len() - start,
{
    if start >= segs.len() {
        None
    } else {
        match first_go_file(paths, join(segs.skip(start as int), "/"@)) {
            Some(p) => Some(p),
            None => resolve_go_from(segs, start + 1, paths),
        }
    }
}

/// Where a Go import leads.
pub open spec fn resolve_go(raw: Seq<char>, paths: Seq<Seq<char>>) -> Option<Seq<char>> {
    resolve_go_from(split(raw, "/"@), 0, paths)
}

/// Where a Python import leads: `a.b` is `a/b.py` or `a/b/__init__.py`.
pub open spec fn resolve_python(raw: Seq<char>, paths: Seq<Seq<char>>) -> Option<Seq<char>> {
    let p = replace(raw, "."@, "/"@);
    first_present(seq![p + ".py"@, p + "/__init__.py"@], paths)
}

/// The suffixes tried for a JavaScript or TypeScript import.
pub open spec fn js_suffixes() -> Seq<Seq<char>> {
    seq![""@, ".ts"@, ".tsx"@, ".js"@, ".jsx"@, "/index.ts"@, "/index.tsx"@, "/index.js"@, "/index.jsx"@]
}

/// Where a JavaScript or TypeScript import leads: only relative ones
/// resolve, against the importing file's directory.
pub open spec fn resolve_js(raw: Seq<char>, source: Seq<char>, paths: Seq<Seq<char>>) -> Option<Seq<char>> {
    if !starts_with(raw, "."@) {
        None
    } else {
        first_present(with_suffixes(normalize_relative(dir_of(source), raw), js_suffixes()), paths)
    }
}

/// Where a Java import leads: `a.B` is `a/B.java`, at the root or under
/// `src/main/java/`.
pub open spec fn resolve_java(raw: Seq<char>, paths: Seq<Seq<char>>) -> Option<Seq<char>> {
    let p = replace(raw, "."@, "/"@);
    first_present(seq![p + ".java"@, "src/main/java/"@ + p + ".java"@], paths)
}

/// Where a C include leads: beside the including file, then from the root.
pub open spec fn resolve_c(raw: Seq<char>, source: Seq<char>, paths: Seq<Seq<char>>) -> Option<Seq<char>> {
    let dir = dir_of(source);
    let beside = if dir.len() == 0 {
        raw
    } else {
        dir + "/"@ + raw
    };
    first_present(seq![beside, raw], paths)
}

/// The extensions tried after `.`: the path itself first.
pub open spec fn dotted(exts: Seq<Seq<char>>) -> Seq<Seq<char>>
    decreases exts.len(),
{
    if exts.len() == 0 {
        seq![]
    } else {
        seq!["."@ + exts[0]] + dotted(exts.drop_first())
    }
}

/// Where a relative import leads (Ruby, shell): the path itself, then with
/// each extension.
pub open spec fn resolve_relative(
    raw: Seq<char>,
    source: Seq<char>,
    exts: Seq<Seq<char>>,
    paths: Seq<Seq<char>>,
) -> Option<Seq<char>> {
    let r = normalize_relative(dir_of(source), raw);
    first_present(seq![r] + with_suffixes(r, dotted(exts)), paths)
}

/// Where an import leads, by the importing file's language.
pub open spec fn resolve(raw: Seq<char>, source: Seq<char>, language: Seq<char>, paths: Seq<Seq<char>>) -> Option<Seq<char>> {
    if language == "rust"@ {
        resolve_rust(raw, paths)
    } else if language == "go"@ {
        resolve_go(raw, paths)
    } else if language == "python"@ {
        resolve_python(raw, paths)
    } else if language == "typescript"@ || language == "tsx"@ || language == "javascript"@
        || language == "jsx"@ {
        resolve_js(raw, source, paths)
    } else if language == "java"@ {
        resolve_java(raw, paths)
    } else if language == "c"@ || language == "cpp"@ {
        resolve_c(raw, source, paths)
    } else if language == "ruby"@ {
        resolve_relative(raw, source, seq!["rb"@], paths)
    } else if language == "bash"@ {
        resolve_relative(raw, source, seq!["sh"@, "bash"@], paths)
    } else {
        None
    }
}

/// Where a Rust `use` leads (`crate::` paths only), among `all_paths`.
pub fn resolve_rust_import(raw: &str, all_paths: &[String]) -> (r: Option<String>)
    ensures
        opt_view(r) == resolve_rust(raw@, all_paths.deep_view()),
{
    proof {
        reveal_strlit("::{");
        reveal_strlit("::*");
        reveal_strlit("::");
    }
    let rc = chars_of(raw);
    let pre = lit_chars("crate::");
    if !starts_with_exec(rc.as_slice(), pre.as_slice()) {
        return None;
    }
    let rest = slice_vec(rc.as_slice(), pre.len(), rc.len());
    assert(rest@ =~= rc@.skip(pre@.len() as int));
    let brace = lit_chars("::{");
    let star = lit_chars("::*");
    let sep = lit_chars("::");
    let a = split_exec(rest.as_slice(), brace.as_slice());
    assert(a.deep_view().len() >= 1);
    assert(a@[0].deep_view() =~= a@[0]@);
    let b = split_exec(a[0].as_slice(), star.as_slice());
    assert(b.deep_view().len() >= 1);
    assert(b@[0].deep_view() =~= b@[0]@);
    let segs = split_exec(b[0].as_slice(), sep.as_slice());
    let ghost sv = segs.deep_view();
    let ghost n = sv.len();
    let src = lit_chars("src/");
    let slash = lit_chars("/");
    let rs = lit_chars(".rs");
    let modrs = lit_chars("/mod.rs");
    let mut cands: Vec<Vec<char>> = Vec::new();
    let mut end: usize = segs.len();
    assert(cands.deep_view() + rust_candidates(sv, end as nat) =~= rust_candidates(sv, n));
    while end > 0
        invariant
            end <= sv.len(),
            sv == segs.deep_view(),
            n == sv.len(),
            src@ == "src/"@,
            slash@ == "/"@,
            rs@ == ".rs"@,
            modrs@ == "/mod.rs"@,
            cands.deep_view() + rust_candidates(sv, end as nat) == rust_candidates(sv, n),
        decreases end,
    {
        let prefix = parts_range(&segs, 0, end);
        assert(prefix.deep_view() =~= sv.take(end as int));
        let joined = join_exec(&prefix, slash.as_slice());
        let base = concat(src.as_slice(), joined.as_slice());
        let f = concat(base.as_slice(), rs.as_slice());
        let m = concat(base.as_slice(), modrs.as_slice());
        assert(f.deep_view() =~= f@);
        assert(m.deep_view() =~= m@);
        let ghost old_c = cands.deep_view();
        let ghost fv = f@;
        let ghost mv = m@;
        cands.push(f);
        cands.push(m);
        assert(cands.deep_view() =~= old_c + seq![fv, mv]);
        assert(rust_candidates(sv, end as nat) == seq![fv, mv] + rust_candidates(sv, (end - 1) as nat));
        assert(cands.deep_view() + rust_candidates(sv, (end - 1) as nat) =~= old_c + rust_candidates(sv, end as nat));
        end = end - 1;
    }
    assert(cands.deep_view() =~= rust_candidates(sv, n));
    first_present_exec(&cands, all_paths)
}

/// The first of `all_paths` under `dir` (by prefix) that is a Go file.
fn first_go_file_exec(all_paths: &[String], dir: &[char]) -> (r: Option<String>)
    ensures
        opt_view(r) == first_go_file(all_paths.deep_view(), dir@),
{
    let go = lit_chars(".go");
    let ghost pv = all_paths.deep_view();
    let mut i: usize = 0;
    assert(pv.skip(0) =~= pv);
    while i < all_paths.len()
        invariant
            pv == all_paths.deep_view(),
            i <= pv.len(),
            go@ == ".go"@,
            first_go_file(pv, dir@) == first_go_file(pv.skip(i as int), dir@),
        decreases pv.len() - i,
    {
        let p = chars_of(all_paths[i].as_str());
        assert(pv.skip(i as int)[0] == p@);
        assert(pv.skip(i as int).drop_first() =~= pv.skip(i + 1));
        if starts_with_exec(p.as_slice(), dir) && ends_with_exec(p.as_slice(), go.as_slice()) {
            return Some(all_paths[i].clone());
        }
        i = i + 1;
    }
    None
}

/// Where a Go import leads: the first Go file under the longest trailing
/// run of its segments that names a directory of the project.
pub fn resolve_go_import(raw: &str, all_paths: &[String]) -> (r: Option<String>)
    ensures
        opt_view(r) == resolve_go(raw@, all_paths.deep_view()),
{
    proof {
        reveal_strlit("/");
    }
    let rc = chars_of(raw);
    let slash = lit_chars("/");
    let segs = split_exec(rc.as_slice(), slash.as_slice());
    let ghost sv = segs.deep_view();
    let mut start: usize = 0;
    while start < segs.len()
        invariant
            sv == segs.deep_view(),
            start <= sv.len(),
            slash@ == "/"@,
            resolve_go(raw@, all_paths.deep_view()) == resolve_go_from(sv, start as nat, all_paths.deep_view()),
        decreases sv.len() - start,
    {
        let tail = parts_range(&segs, start, segs.len());
        assert(tail.deep_view() =~= sv.skip(start as int));
        let cand = join_exec(&tail, slash.as_slice());
        let found = first_go_file_exec(all_paths, cand.as_slice());
        if found.is_some() {
            return found;
        }
        start = start + 1;
    }
    None
}

/// Where a Python import leads: `a.b` is `a/b.py` or `a/b/__init__.py`.
pub fn resolve_python_import(raw: &str, all_paths: &[String]) -> (r: Option<String>)
    ensures
        opt_view(r) == resolve_python(raw@, all_paths.deep_view()),
{
    let rc = chars_of(raw);
    let p = replace_char_exec(rc.as_slice(), '.', '/');
    assert(seq!['.'] =~= "."@) by { reveal_strlit("."); }
    assert(seq!['/'] =~= "/"@) by { reveal_strlit("/"); }
    let py = lit_chars(".py");
    let init = lit_chars("/__init__.py");
    let cands = pair_of(concat(p.as_slice(), py.as_slice()), concat(p.as_slice(), init.as_slice()));
    first_present_exec(&cands, all_paths)
}

/// Where a JavaScript or TypeScript import leads: relative imports only,
/// against the importing file's directory, trying the usual suffixes.
pub fn resolve_js_import(raw: &str, source_path: &str, all_paths: &[String]) -> (r: Option<String>)
    ensures
        opt_view(r) == resolve_js(raw@, source_path@, all_paths.deep_view()),
{
    let rc = chars_of(raw);
    let dot = lit_chars(".");
    if !starts_with_exec(rc.as_slice(), dot.as_slice()) {
        return None;
    }
    let sc = chars_of(source_path);
    let dir = dir_of_exec(sc.as_slice());
    let resolved = normalize_relative_chars(dir.as_slice(), rc.as_slice());
    let exts: [&str; 9] = ["", ".ts", ".tsx", ".js", ".jsx", "/index.ts", "/index.tsx", "/index.js", "/index.jsx"];
    assert(exts@.map_values(|e: &str| e@) =~= js_suffixes());
    let cands = with_suffixes_exec(resolved.as_slice(), exts.as_slice());
    first_present_exec(&cands, all_paths)
}

/// Where a Java import leads: `a.B` is `a/B.java`, at the root or under
/// `src/main/java/`.
pub fn resolve_java_import_path(raw: &str, all_paths: &[String]) -> (r: Option<String>)
    ensures
        opt_view(r) == resolve_java(raw@, all_paths.deep_view()),
{
    let rc = chars_of(raw);
    let p = replace_char_exec(rc.as_slice(), '.', '/');
    assert(seq!['.'] =~= "."@) by { reveal_strlit("."); }
    assert(seq!['/'] =~= "/"@) by { reveal_strlit("/"); }
    let java = lit_chars(".java");
    let root = lit_chars("src/main/java/");
    let under = concat(root.as_slice(), p.as_slice());
    let cands = pair_of(concat(p.as_slice(), java.as_slice()), concat(under.as_slice(), java.as_slice()));
    first_present_exec(&cands, all_paths)
}

/// Where a C include leads: beside the including file, then from the root.
pub fn resolve_c_import(raw: &str, source_path: &str, all_paths: &[String]) -> (r: Option<String>)
    ensures
        opt_view(r) == resolve_c(raw@, source_path@, all_paths.deep_view()),
{
    let rc = chars_of(raw);
    let sc = chars_of(source_path);
    let dir = dir_of_exec(sc.as_slice());
    let beside = if dir.len() == 0 {
        let b = slice_vec(rc.as_slice(), 0, rc.len());
        assert(b@ =~= rc@);
        b
    } else {
        let slash = lit_chars("/");
        let d = concat(dir.as_slice(), slash.as_slice());
        concat(d.as_slice(), rc.as_slice())
    };
    let cands = pair_of(beside, rc);
    first_present_exec(&cands, all_paths)
}

/// Where a relative import leads: the path itself, then with each of
/// `extensions` after a dot.
pub fn resolve_relative_import(raw: &str, source_path: &str, extensions: &[&str], all_paths: &[String]) -> (r: Option<String>)
    ensures
        opt_view(r) == resolve_relative(raw@, source_path@, extensions@.map_values(|e: &str| e@), all_paths.deep_view()),
{
    let rc = chars_of(raw);
    let sc = chars_of(source_path);
    let dir = dir_of_exec(sc.as_slice());
    let resolved = normalize_relative_chars(dir.as_slice(), rc.as_slice());
    let ghost ev = extensions@.map_values(|e: &str| e@);
    let dot = lit_chars(".");
    let mut dexts: Vec<Vec<char>> = Vec::new();
    let mut i: usize = extensions.len();
    assert(ev.skip(i as int) =~= Seq::<Seq<char>>::empty());
    while i > 0
        invariant
            i <= extensions@.len(),
            ev == extensions@.map_values(|e: &str| e@),
            dot@ == "."@,
            dexts.deep_view() == dotted(ev.skip(i as int)),
        decreases i,
    {
        i = i - 1;
        let e = chars_of(extensions[i]);
        let d = concat(dot.as_slice(), e.as_slice());
        assert(ev.skip(i as int).drop_first() =~= ev.skip(i + 1));
        assert(ev.skip(i as int)[0] == e@);
        assert(d.deep_view() =~= d@);
        let ghost dv = d@;
        let ghost old_v = dexts@;
        let ghost old_r = dexts.deep_view();
        dexts.insert(0, d);
        let ghost want = seq!["."@ + ev.skip(i as int)[0]] + old_r;
        assert(dexts.deep_view().len() == want.len());
        assert forall|j: int| 0 <= j < want.len() implies dexts.deep_view()[j] == want[j] by {
            if j == 0 {
                assert(dexts@[0].deep_view() =~= dv);
            } else {
                assert(dexts@[j] == old_v[j - 1]);
            }
        }
        assert(dexts.deep_view() =~= want);
    }
    assert(ev.skip(0) =~= ev);
    let ghost dv = dexts.deep_view();
    let mut cands: Vec<Vec<char>> = Vec::new();
    let first = slice_vec(resolved.as_slice(), 0, resolved.len());
    assert(first.deep_view() =~= resolved@);
    cands.push(first);
    assert(cands.deep_view() =~= seq![resolved@]);
    assert(dv.take(0) =~= Seq::<Seq<char>>::empty());
    assert(with_suffixes(resolved@, Seq::<Seq<char>>::empty()) =~= Seq::<Seq<char>>::empty());
    let mut k: usize = 0;
    while k < dexts.len()
        invariant
            k <= dv.len(),
            dv == dexts.deep_view(),
            cands.deep_view() == seq![resolved@] + with_suffixes(resolved@, dv.take(k as int)),
        decreases dv.len() - k,
    {
        let c = concat(resolved.as_slice(), dexts[k].as_slice());
        assert(dexts@[k as int].deep_view() =~= dexts@[k as int]@);
        assert(c.deep_view() =~= c@);
        let ghost old_c = cands.deep_view();
        cands.push(c);
        proof {
            lemma_with_suffixes_push(resolved@, dv.take(k as int), dv[k as int]);
            assert(dv.take(k + 1) =~= dv.take(k as int).push(dv[k as int]));
        }
        assert(cands.deep_view() =~= old_c.push(resolved@ + dv[k as int]));
        k = k + 1;
    }
    assert(dv.take(k as int) =~= dv);
    first_present_exec(&cands, all_paths)
}

/// Adding a suffix adds one candidate at the end.
proof fn lemma_with_suffixes_push(s: Seq<char>, exts: Seq<Seq<char>>, e: Seq<char>)
    ensures
        with_suffixes(s, exts.push(e)) == with_suffixes(s, exts).push(s + e),
    decreases exts.len(),
{
    if exts.len() == 0 {
        assert(exts.push(e) =~= seq![e]);
        assert(seq![e].drop_first() =~= Seq::<Seq<char>>::empty());
        assert(with_suffixes(s, Seq::<Seq<char>>::empty()) =~= Seq::<Seq<char>>::empty());
        assert(with_suffixes(s, seq![e]) =~= seq![s + e]);
        assert(with_suffixes(s, exts) =~= Seq::<Seq<char>>::empty());
    } else {
        lemma_with_suffixes_push(s, exts.drop_first(), e);
        assert(exts.push(e).drop_first() =~= exts.drop_first().push(e));
        assert(with_suffixes(s, exts.push(e)) =~= with_suffixes(s, exts).push(s + e));
    }
}

/// A candidate found among `paths` is one of them.
proof fn lemma_first_present_in(cands: Seq<Seq<char>>, paths: Seq<Seq<char>>)
    ensures
        first_present(cands, paths) matches Some(p) ==> paths.contains(p),
    decreases cands.len(),
{
    if cands.len() > 0 && !paths.contains(cands[0]) {
        lemma_first_present_in(cands.drop_first(), paths);
    }
}

/// A Python import resolves to its module file, else to its package:
/// with `p` the import's dotted path read with `/`, `p.py` when it is a
/// project file, and otherwise `p/__init__.py` when that is one, so
/// `import utils` of a package `utils/` leads to `utils/__init__.py`.
pub proof fn lemma_python_package_import(raw: Seq<char>, source: Seq<char>, paths: Seq<Seq<char>>)
    ensures
        ({
            let p = replace(raw, "."@, "/"@);
            &&& paths.contains(p + ".py"@) ==> resolve(raw, source, "python"@, paths) == Some(p + ".py"@)
            &&& (!paths.contains(p + ".py"@) && paths.contains(p + "/__init__.py"@)) ==> resolve(raw, source, "python"@, paths)
                == Some(p + "/__init__.py"@)
            &&& (!paths.contains(p + ".py"@) && !paths.contains(p + "/__init__.py"@)) ==> resolve(raw, source, "python"@, paths)
                is None
        }),
{
    reveal_strlit("python");
    reveal_strlit("rust");
    reveal_strlit("go");
    assert("python"@ != "rust"@) by {
        assert("python"@.len() != "rust"@.len());
    }
    assert("python"@ != "go"@) by {
        assert("python"@.len() != "go"@.len());
    }
    let p = replace(raw, "."@, "/"@);
    let cands = seq![p + ".py"@, p + "/__init__.py"@];
    assert(cands.drop_first() =~= seq![p + "/__init__.py"@]);
    assert(cands.drop_first().drop_first() =~= Seq::<Seq<char>>::empty());
    reveal_with_fuel(first_present, 3);
}

/// A Go file found among `paths` is one of them, and a Go file.
proof fn lemma_go_in(segs: Seq<Seq<char>>, start: nat, paths: Seq<Seq<char>>)
    ensures
        resolve_go_from(segs, start, paths) matches Some(p) ==> paths.contains(p),
    decreases segs.len() - start,
{
    if start < segs.len() {
        lemma_first_go_in(paths, join(segs.skip(start as int), "/"@));
        lemma_go_in(segs, start + 1, paths);
    }
}

/// The first Go file found among `paths` is one of them.
proof fn lemma_first_go_in(paths: Seq<Seq<char>>, dir: Seq<char>)
    ensures
        first_go_file(paths, dir) matches Some(p) ==> paths.contains(p),
    decreases paths.len(),
{
    if paths.len() > 0 && !(starts_with(paths[0], dir) && ends_with(paths[0], ".go"@)) {
        lemma_first_go_in(paths.drop_first(), dir);
        if first_go_file(paths.drop_first(), dir) is Some {
            let p = first_go_file(paths.drop_first(), dir).unwrap();
            let j = choose|j: int| 0 <= j < paths.drop_first().len() && paths.drop_first()[j] == p;
            assert(paths[j + 1] == p);
        }
    } else if paths.len() > 0 {
        assert(paths[0] == paths[0]);
    }
}

/// An import resolves only to a file of the project: whatever `resolve`
/// gives is one of `paths`.
pub proof fn lemma_resolve_in_paths(raw: Seq<char>, source: Seq<char>, language: Seq<char>, paths: Seq<Seq<char>>)
    ensures
        resolve(raw, source, language, paths) matches Some(p) ==> paths.contains(p),
{
    match strip_prefix(raw, "crate::"@) {
        Some(rest) => {
            let segs = split(rust_module_path(rest), "::"@);
            lemma_first_present_in(rust_candidates(segs, segs.len()), paths);
        },
        None => {},
    }
    lemma_go_in(split(raw, "/"@), 0, paths);
    let p = replace(raw, "."@, "/"@);
    lemma_first_present_in(seq![p + ".py"@, p + "/__init__.py"@], paths);
    lemma_first_present_in(with_suffixes(normalize_relative(dir_of(source), raw), js_suffixes()), paths);
    lemma_first_present_in(seq![p + ".java"@, "src/main/java/"@ + p + ".java"@], paths);
    let dir = dir_of(source);
    let beside = if dir.len() == 0 {
        raw
    } else {
        dir + "/"@ + raw
    };
    lemma_first_present_in(seq![beside, raw], paths);
    let r = normalize_relative(dir_of(source), raw);
    lemma_first_present_in(seq![r] + with_suffixes(r, dotted(seq!["rb"@])), paths);
    lemma_first_present_in(seq![r] + with_suffixes(r, dotted(seq!["sh"@, "bash"@])), paths);
}

/// Where an import written in a file of `language` leads, among
/// `all_paths`; `None` for imports outside the project.
pub fn resolve_import(raw_import: &str, source_path: &str, language: &str, all_paths: &[String]) -> (r: Option<String>)
    ensures
        opt_view(r) == resolve(raw_import@, source_path@, language@, all_paths.deep_view()),
{
    let l = chars_of(language);
    let ls = l.as_slice();
    if eq_lit(ls, "rust") {
        resolve_rust_import(raw_import, all_paths)
    } else if eq_lit(ls, "go") {
        resolve_go_import(raw_import, all_paths)
    } else if eq_lit(ls, "python") {
        resolve_python_import(raw_import, all_paths)
    } else if eq_lit(ls, "typescript") || eq_lit(ls, "tsx") || eq_lit(ls, "javascript") || eq_lit(ls, "jsx") {
        resolve_js_import(raw_import, source_path, all_paths)
    } else if eq_lit(ls, "java") {
        resolve_java_import_path(raw_import, all_paths)
    } else if eq_lit(ls, "c") || eq_lit(ls, "cpp") {
        resolve_c_import(raw_import, source_path, all_paths)
    } else if eq_lit(ls, "ruby") {
        let exts: [&str; 1] = ["rb"];
        assert(exts@.map_values(|e: &str| e@) =~= seq!["rb"@]);
        resolve_relative_import(raw_import, source_path, exts.as_slice(), all_paths)
    } else if eq_lit(ls, "bash") {
        let exts: [&str; 2] = ["sh", "bash"];
        assert(exts@.map_values(|e: &str| e@) =~= seq!["sh"@, "bash"@]);
        resolve_relative_import(raw_import, source_path, exts.as_slice(), all_paths)
    } else {
        None
    }
}

// ── Blocks of a syntax tree ──

/// A block as plain values.
pub struct BlockSpec {
    pub kind: Seq<char>,
    pub name: Seq<char>,
    pub start_line: u32,
    pub start_col: u32,
    pub end_line: u32,
    pub end_col: u32,
    pub signature: Option<Seq<char>>,
    pub doc: Option<Seq<char>>,
    pub preview: Seq<char>,
    pub strings: Seq<Seq<char>>,
}

impl ExtractedBlock {
    /// This block as plain values.
    pub open spec fn view_block(&self) -> BlockSpec {
        BlockSpec {
            kind: self.kind@,
            name: self.name@,
            start_line: self.start_line,
            start_col: self.start_col,
            end_line: self.end_line,
            end_col: self.end_col,
            signature: opt_view(self.signature),
            doc: opt_view(self.doc),
            preview: self.preview@,
            strings: self.strings.deep_view(),
        }
    }
}

/// The blocks of a list as plain values.
pub open spec fn blocks_view(v: Seq<ExtractedBlock>) -> Seq<BlockSpec> {
    v.map_values(|b: ExtractedBlock| b.view_block())
}

/// The field naming what a function value is bound to, by the kind of its
/// parent.
pub open spec fn binding_field(parent_kind: Seq<char>) -> Option<Seq<char>> {
    if parent_kind == "variable_declarator"@ || parent_kind == "public_field_definition"@ {
        Some("name"@)
    } else if parent_kind == "pair"@ {
        Some("key"@)
    } else if parent_kind == "assignment_expression"@ {
        Some("left"@)
    } else {
        None
    }
}

/// The name of node `i` as a block: the text of its `name` field when not
/// empty; for a function value, the text of what its parent binds it to;
/// else `<anon>`.
pub open spec fn name_spec(nodes: Seq<SyntaxNode>, src: Seq<u8>, i: int) -> Seq<char> {
    let direct = match field_child(nodes, i, "name"@) {
        Some(c) => match node_text(nodes, src, c) {
            Some(s) => if s.len() > 0 {
                Some(s)
            } else {
                None
            },
            None => None,
        },
        None => None,
    };
    match direct {
        Some(s) => s,
        None => if nodes[i].kind@ == "arrow_function"@ || nodes[i].kind@ == "function"@ {
            match nodes[i].parent {
                Some(p) => if p < nodes.len() {
                    match binding_field(nodes[p as int].kind@) {
                        Some(f) => match field_child(nodes, p as int, f) {
                            Some(c) => match node_text(nodes, src, c) {
                                Some(s) => s,
                                None => "<anon>"@,
                            },
                            None => "<anon>"@,
                        },
                        None => "<anon>"@,
                    }
                } else {
                    "<anon>"@
                },
                None => "<anon>"@,
            }
        } else {
            "<anon>"@
        },
    }
}

/// A function value without a name of its own takes the name it is bound
/// to: for an `arrow_function` or `function` node whose `name` field gives
/// no text, the block's name is the text of its parent's `left` field under
/// an `assignment_expression` (`exports.handler = async () => ..` is named
/// `exports.handler`), of its `name` field under a `variable_declarator`
/// or `public_field_definition`, and of its `key` field under a `pair`.
pub proof fn lemma_bound_function_name(nodes: Seq<SyntaxNode>, src: Seq<u8>, lines: Seq<Seq<char>>, i: int, p: usize, c: int, t: Seq<char>)
    requires
        0 <= i < nodes.len(),
        p < nodes.len(),
        nodes[i].kind@ == "arrow_function"@ || nodes[i].kind@ == "function"@,
        nodes[i].parent == Some(p),
        match field_child(nodes, i, "name"@) {
            Some(n) => match node_text(nodes, src, n) {
                Some(s) => s.len() == 0,
                None => true,
            },
            None => true,
        },
        node_text(nodes, src, c) == Some(t),
    ensures
        (nodes[p as int].kind@ == "assignment_expression"@ && field_child(nodes, p as int, "left"@) == Some(c)) ==> block_spec(nodes, src, lines, i).name == t,
        ((nodes[p as int].kind@ == "variable_declarator"@ || nodes[p as int].kind@ == "public_field_definition"@)
            && field_child(nodes, p as int, "name"@) == Some(c)) ==> block_spec(nodes, src, lines, i).name == t,
        (nodes[p as int].kind@ == "pair"@ && field_child(nodes, p as int, "key"@) == Some(c)) ==> block_spec(nodes, src, lines, i).name == t,
{
    reveal_strlit("assignment_expression");
    reveal_strlit("variable_declarator");
    reveal_strlit("public_field_definition");
    reveal_strlit("pair");
    assert("assignment_expression"@ != "variable_declarator"@) by {
        assert("assignment_expression"@.len() != "variable_declarator"@.len());
    }
    assert("assignment_expression"@ != "public_field_definition"@) by {
        assert("assignment_expression"@.len() != "public_field_definition"@.len());
    }
    assert("assignment_expression"@ != "pair"@) by {
        assert("assignment_expression"@.len() != "pair"@.len());
    }
    assert("pair"@ != "variable_declarator"@) by {
        assert("pair"@.len() != "variable_declarator"@.len());
    }
    assert("pair"@ != "public_field_definition"@) by {
        assert("pair"@.len() != "public_field_definition"@.len());
    }
}

/// A block with a name of its own is called by it: when node `i` has a
/// `name` field whose text is not empty, the block's name is that text,
/// whatever the node's kind or parent.
pub proof fn lemma_own_name(nodes: Seq<SyntaxNode>, src: Seq<u8>, lines: Seq<Seq<char>>, i: int, c: int, t: Seq<char>)
    requires
        0 <= i < nodes.len(),
        field_child(nodes, i, "name"@) == Some(c),
        node_text(nodes, src, c) == Some(t),
        t.len() > 0,
    ensures
        block_spec(nodes, src, lines, i).name == t,
{
}

/// The name of node `i` as a block (see `name_spec`).
pub fn extract_name(t: &SyntaxTree, src: &[u8], i: usize) -> (r: String)
    requires
        i < t.nodes@.len(),
    ensures
        r@ == name_spec(t.nodes@, src@, i as int),
{
    match t.field_child(i, "name") {
        Some(c) => match t.text(src, c) {
            Some(s) => {
                if chars_of(s.as_str()).len() > 0 {
                    return s;
                }
            },
            None => {},
        },
        None => {},
    }
    let kind = t.nodes[i].kind.as_str();
    if str_eq(kind, "arrow_function") || str_eq(kind, "function") {
        match t.nodes[i].parent {
            Some(p) => {
                if p < t.nodes.len() {
                    let pk = t.nodes[p].kind.as_str();
                    let f = if str_eq(pk, "variable_declarator") || str_eq(pk, "public_field_definition") {
                        Some("name")
                    } else if str_eq(pk, "pair") {
                        Some("key")
                    } else if str_eq(pk, "assignment_expression") {
                        Some("left")
                    } else {
                        None
                    };
                    match f {
                        Some(field) => match t.field_child(p, field) {
                            Some(c) => match t.text(src, c) {
                                Some(s) => {
                                    return s;
                                },
                                None => {},
                            },
                            None => {},
                        },
                        None => {},
                    }
                }
            },
            None => {},
        }
    }
    lit_string("<anon>")
}

/// The signature of a block with text `text`: its first line up to any
/// `{`, trimmed; none when that is empty.
pub open spec fn signature_of(text: Seq<char>) -> Option<Seq<char>> {
    let ls = lines(text);
    let first = if ls.len() > 0 {
        ls[0]
    } else {
        text
    };
    let sig = match find(first, seq!['{']) {
        Some(p) => trim(first.take(p)),
        None => trim(first),
    };
    if sig.len() == 0 {
        None
    } else {
        Some(sig)
    }
}

/// The signature of node `i`, when its text can be read.
pub open spec fn signature_spec(nodes: Seq<SyntaxNode>, src: Seq<u8>, i: int) -> Option<Seq<char>> {
    match node_text(nodes, src, i) {
        Some(t) => signature_of(t),
        None => None,
    }
}

/// The signature of node `i` (see `signature_spec`).
pub fn extract_signature(t: &SyntaxTree, src: &[u8], i: usize) -> (r: Option<String>)
    requires
        i < t.nodes@.len(),
    ensures
        opt_view(r) == signature_spec(t.nodes@, src@, i as int),
{
    let text = match t.text(src, i) {
        Some(x) => x,
        None => {
            return None;
        },
    };
    let c = chars_of(text.as_str());
    let ls = lines_exec(c.as_slice());
    let first = if ls.len() > 0 {
        assert(ls@[0].deep_view() =~= ls@[0]@);
        slice_vec(ls[0].as_slice(), 0, ls[0].len())
    } else {
        slice_vec(c.as_slice(), 0, c.len())
    };
    assert(first@ =~= (if lines(text@).len() > 0 {
        lines(text@)[0]
    } else {
        text@
    }));
    let brace = vec!['{'];
    assert(brace@ =~= seq!['{']);
    let sig = match find_exec(first.as_slice(), brace.as_slice()) {
        Some(p) => {
            proof {
                lemma_find_from(first@, seq!['{'], 0);
            }
            let head = slice_vec(first.as_slice(), 0, p);
            assert(head@ =~= first@.take(p as int));
            trim_exec(head.as_slice())
        },
        None => trim_exec(first.as_slice()),
    };
    if sig.len() == 0 {
        None
    } else {
        Some(string_of(sig.as_slice()))
    }
}

/// The comments right before the first `k` siblings' end: walking back
/// from sibling `k - 1` while siblings are comments, nearest first (a
/// comment whose text cannot be read adds nothing but does not stop the
/// walk).
pub open spec fn comment_run(nodes: Seq<SyntaxNode>, src: Seq<u8>, sibs: Seq<usize>, k: int) -> Seq<Seq<char>>
    decreases k,
{
    if k <= 0 || k > sibs.len() {
        seq![]
    } else {
        let s = sibs[k - 1] as int;
        if s < nodes.len() && find(nodes[s].kind@, "comment"@) is Some {
            (match node_text(nodes, src, s) {
                Some(x) => seq![x],
                None => seq![],
            }) + comment_run(nodes, src, sibs, k - 1)
        } else {
            seq![]
        }
    }
}

/// The doc comment of node `i`: the comments right before it among its
/// siblings, in source order, joined by `\n`; none when there are none.
pub open spec fn doc_spec(nodes: Seq<SyntaxNode>, src: Seq<u8>, i: int) -> Option<Seq<char>> {
    match nodes[i].parent {
        Some(p) => if p < nodes.len() {
            match nodes[p as int].children@.index_of_first(i as usize) {
                Some(q) => {
                    let cs = comment_run(nodes, src, nodes[p as int].children@, q);
                    if cs.len() == 0 {
                        None
                    } else {
                        Some(join(cs.reverse(), seq!['\n']))
                    }
                },
                None => None,
            }
        } else {
            None
        },
        None => None,
    }
}

/// The doc comment of node `i` (see `doc_spec`).
pub fn extract_doc(t: &SyntaxTree, src: &[u8], i: usize) -> (r: Option<String>)
    requires
        i < t.nodes@.len(),
    ensures
        opt_view(r) == doc_spec(t.nodes@, src@, i as int),
{
    let p = match t.nodes[i].parent {
        Some(p) => p,
        None => {
            return None;
        },
    };
    if p >= t.nodes.len() {
        return None;
    }
    let sibs = &t.nodes[p].children;
    let ghost sv = sibs@;
    proof {
        sv.index_of_first_ensures(i);
    }
    let mut q: usize = 0;
    while q < sibs.len()
        invariant
            q <= sv.len(),
            sv == sibs@,
            forall|j: int| 0 <= j < q ==> sv[j] != i,
        ensures
            q <= sv.len(),
            forall|j: int| 0 <= j < q ==> sv[j] != i,
            q < sv.len() ==> sv[q as int] == i,
        decreases sv.len() - q,
    {
        if sibs[q] == i {
            break;
        }
        q = q + 1;
    }
    if q == sibs.len() {
        proof {
            if sv.index_of_first(i) is Some {
                let j = sv.index_of_first(i).unwrap();
                assert(sv[j] == i);
            }
        }
        return None;
    }
    assert(sv.index_of_first(i) == Some(q as int)) by {
        sv.index_of_first_ensures(i);
    }
    let mut comments: Vec<String> = Vec::new();
    let mut k: usize = q;
    let ghost mut acc: Seq<Seq<char>> = seq![];
    while k > 0
        invariant
            k <= q < sv.len(),
            sv == sibs@,
            comment_run(t.nodes@, src@, sv, q as int) == comments.deep_view() + comment_run(t.nodes@, src@, sv, k as int),
        decreases k,
    {
        let s = sibs[k - 1];
        if s < t.nodes.len() && find_exec(chars_of(t.nodes[s].kind.as_str()).as_slice(), lit_chars("comment").as_slice()).is_some() {
            let ghost before = comments.deep_view();
            match t.text(src, s) {
                Some(x) => {
                    let ghost xv = x@;
                    comments.push(x);
                    assert(comments.deep_view() =~= before.push(xv));
                    assert(before + comment_run(t.nodes@, src@, sv, k as int) =~= comments.deep_view() + comment_run(t.nodes@, src@, sv, k - 1));
                },
                None => {
                    assert(before + comment_run(t.nodes@, src@, sv, k as int) =~= comments.deep_view() + comment_run(t.nodes@, src@, sv, k - 1));
                },
            }
            k = k - 1;
        } else {
            assert(comment_run(t.nodes@, src@, sv, k as int) =~= Seq::<Seq<char>>::empty());
            assert(comments.deep_view() + Seq::<Seq<char>>::empty() =~= comments.deep_view());
            assert(comment_run(t.nodes@, src@, sv, q as int) =~= comments.deep_view() + comment_run(t.nodes@, src@, sv, 0));
            k = 0;
        }
    }
    assert(comments.deep_view() + comment_run(t.nodes@, src@, sv, 0) =~= comments.deep_view());
    if comments.len() == 0 {
        return None;
    }
    let ghost cv = comments.deep_view();
    let mut ordered: Vec<Vec<char>> = Vec::new();
    let mut j: usize = comments.len();
    while j > 0
        invariant
            j <= cv.len(),
            cv == comments.deep_view(),
            ordered.deep_view() == cv.reverse().take((cv.len() - j) as int),
        decreases j,
    {
        j = j - 1;
        let x = chars_of(comments[j].as_str());
        assert(x.deep_view() =~= x@);
        let ghost before = ordered.deep_view();
        let ghost xv = x@;
        ordered.push(x);
        assert(ordered.deep_view() =~= before.push(xv));
        assert(cv.reverse().take((cv.len() - j) as int) =~= cv.reverse().take((cv.len() - j - 1) as int).push(cv[j as int]));
    }
    assert(cv.reverse().take(cv.len() as int) =~= cv.reverse());
    let nl = vec!['\n'];
    assert(nl@ =~= seq!['\n']);
    let joined = join_exec(&ordered, nl.as_slice());
    Some(string_of(joined.as_slice()))
}

/// Whether a node kind is a string literal.
pub open spec fn is_string_kind(k: Seq<char>) -> bool {
    k == "string_literal"@ || k == "interpreted_string_literal"@ || k == "string"@ || k == "template_string"@
        || k == "string_content"@ || k == "raw_string_literal"@
}

/// `s` cut to at most `MAX_STRING_LEN` bytes at a character boundary.
pub open spec fn truncated_text(s: Seq<char>) -> Seq<char> {
    decode_utf8(encode_utf8(s).take(truncated_len(encode_utf8(s), MAX_STRING_LEN as int)))
}

/// The string literals found from node `i` on, added to `acc`: nothing
/// more once `acc` holds `MAX_STRINGS`; a string literal adds its text cut
/// to `MAX_STRING_LEN` bytes (and is not looked into); any other node is
/// looked into, child by child.
pub open spec fn strings_from(nodes: Seq<SyntaxNode>, src: Seq<u8>, i: int, acc: Seq<Seq<char>>) -> Seq<Seq<char>>
    decreases nodes.len() - i, nodes[i].children@.len() + 1,
{
    if i < 0 || i >= nodes.len() || acc.len() >= MAX_STRINGS {
        acc
    } else if is_string_kind(nodes[i].kind@) {
        match node_text(nodes, src, i) {
            Some(s) => acc.push(truncated_text(s)),
            None => acc,
        }
    } else {
        strings_from_kids(nodes, src, i, 0, acc)
    }
}

/// The string literals found under the children `k..` of node `i`.
pub open spec fn strings_from_kids(nodes: Seq<SyntaxNode>, src: Seq<u8>, i: int, k: int, acc: Seq<Seq<char>>) -> Seq<Seq<char>>
    decreases nodes.len() - i, nodes[i].children@.len() - k,
{
    if i < 0 || i >= nodes.len() || k < 0 || k >= nodes[i].children@.len() {
        acc
    } else {
        let c = nodes[i].children@[k] as int;
        let next = if i < c < nodes.len() {
            strings_from(nodes, src, c, acc)
        } else {
            acc
        };
        strings_from_kids(nodes, src, i, k + 1, next)
    }
}

/// Adds the string literals found from node `i` on to `strings` (see
/// `strings_from`).
fn collect_string_nodes(t: &SyntaxTree, src: &[u8], i: usize, strings: &mut Vec<String>)
    requires
        i < t.nodes@.len(),
        old(strings)@.len() <= MAX_STRINGS,
    ensures
        final(strings).deep_view() == strings_from(t.nodes@, src@, i as int, old(strings).deep_view()),
        final(strings)@.len() <= MAX_STRINGS,
    decreases t.nodes@.len() - i,
{
    if strings.len() >= MAX_STRINGS {
        return;
    }
    if is_string_node_kind(t.nodes[i].kind.as_str()) {
        match t.text(src, i) {
            Some(text) => {
                let cut = truncate_utf8(text.as_str(), MAX_STRING_LEN);
                proof {
                    encode_utf8_decode_utf8(cut@);
                }
                let ghost before = strings.deep_view();
                let piece = lit_string(cut);
                strings.push(piece);
                assert(strings.deep_view() =~= before.push(truncated_text(text@)));
            },
            None => {},
        }
        return;
    }
    let kids = &t.nodes[i].children;
    let mut k: usize = 0;
    while k < kids.len()
        invariant
            i < t.nodes@.len(),
            kids@ == t.nodes@[i as int].children@,
            k <= kids@.len(),
            strings@.len() <= MAX_STRINGS,
            strings_from(t.nodes@, src@, i as int, old(strings).deep_view())
                == strings_from_kids(t.nodes@, src@, i as int, k as int, strings.deep_view()),
        decreases kids@.len() - k,
    {
        let c = kids[k];
        if i < c && c < t.nodes.len() {
            collect_string_nodes(t, src, c, strings);
        }
        k = k + 1;
    }
}

/// Whether a node kind is a string literal.
fn is_string_node_kind(k: &str) -> (r: bool)
    ensures
        r == is_string_kind(k@),
{
    str_eq(k, "string_literal") || str_eq(k, "interpreted_string_literal") || str_eq(k, "string") || str_eq(k, "template_string")
        || str_eq(k, "string_content") || str_eq(k, "raw_string_literal")
}

/// The string literals of node `i`.
pub fn extract_strings(t: &SyntaxTree, src: &[u8], i: usize) -> (r: Vec<String>)
    requires
        i < t.nodes@.len(),
    ensures
        r.deep_view() == strings_from(t.nodes@, src@, i as int, seq![]),
{
    let mut strings: Vec<String> = Vec::new();
    assert(strings.deep_view() =~= Seq::<Seq<char>>::empty());
    collect_string_nodes(t, src, i, &mut strings);
    strings
}

/// Node `i` read as a block: its kind mapped to a block kind, its name,
/// where it starts and ends, its signature, doc comment, preview (from
/// `lines`) and string literals.
pub open spec fn block_spec(nodes: Seq<SyntaxNode>, src: Seq<u8>, lines: Seq<Seq<char>>, i: int) -> BlockSpec {
    let n = nodes[i];
    BlockSpec {
        kind: node_kind_name(n.kind@),
        name: name_spec(nodes, src, i),
        start_line: n.start_row as u32,
        start_col: n.start_col as u32,
        end_line: n.end_row as u32,
        end_col: n.end_col as u32,
        signature: signature_spec(nodes, src, i),
        doc: doc_spec(nodes, src, i),
        preview: preview_text(n.start_row as int, n.end_row as int, lines),
        strings: strings_from(nodes, src, i, seq![]),
    }
}

/// Node `i` read as a block (see `block_spec`).
pub fn extract_one_block(t: &SyntaxTree, src: &[u8], lines: &[&str], i: usize) -> (r: ExtractedBlock)
    requires
        t.wf(),
        i < t.nodes@.len(),
    ensures
        r.view_block() == block_spec(t.nodes@, src@, line_views(lines@), i as int),
{
    let n = &t.nodes[i];
    assert(node_sane(t.nodes@[i as int]));
    let kind = map_node_kind(n.kind.as_str());
    ExtractedBlock {
        kind: lit_string(kind),
        name: extract_name(t, src, i),
        start_line: n.start_row as u32,
        start_col: n.start_col as u32,
        end_line: n.end_row as u32,
        end_col: n.end_col as u32,
        signature: extract_signature(t, src, i),
        doc: extract_doc(t, src, i),
        preview: extract_preview(n.start_row, n.end_row, lines),
        strings: extract_strings(t, src, i),
    }
}

/// The blocks found under node `i` at `depth`: nothing below depth 2;
/// else, child by child, a child of a target kind is a block (and, when of
/// a class kind, is looked into one level deeper for methods), and any
/// other child is looked into one level deeper.
pub open spec fn blocks_from(
    nodes: Seq<SyntaxNode>,
    src: Seq<u8>,
    lines: Seq<Seq<char>>,
    i: int,
    depth: int,
    targets: Seq<Seq<char>>,
    classes: Seq<Seq<char>>,
) -> Seq<BlockSpec>
    decreases nodes.len() - i, nodes[i].children@.len() + 1,
{
    if depth > 2 || i < 0 || i >= nodes.len() {
        seq![]
    } else {
        blocks_from_kids(nodes, src, lines, i, 0, depth, targets, classes)
    }
}

/// The blocks found under the children `k..` of node `i` at `depth`.
pub open spec fn blocks_from_kids(
    nodes: Seq<SyntaxNode>,
    src: Seq<u8>,
    lines: Seq<Seq<char>>,
    i: int,
    k: int,
    depth: int,
    targets: Seq<Seq<char>>,
    classes: Seq<Seq<char>>,
) -> Seq<BlockSpec>
    decreases nodes.len() - i, nodes[i].children@.len() - k,
{
    if i < 0 || i >= nodes.len() || k < 0 || k >= nodes[i].children@.len() {
        seq![]
    } else {
        let c = nodes[i].children@[k] as int;
        let here = if i < c < nodes.len() {
            let kind = nodes[c].kind@;
            if targets.contains(kind) {
                seq![block_spec(nodes, src, lines, c)] + if classes.contains(kind) {
                    blocks_from(nodes, src, lines, c, depth + 1, targets, classes)
                } else {
                    seq![]
                }
            } else {
                blocks_from(nodes, src, lines, c, depth + 1, targets, classes)
            }
        } else {
            seq![]
        };
        here + blocks_from_kids(nodes, src, lines, i, k + 1, depth, targets, classes)
    }
}

/// Whether `k` is one of `kinds`.
fn kind_in(kinds: &[&str], k: &str) -> (r: bool)
    ensures
        r == kinds@.map_values(|s: &str| s@).contains(k@),
{
    let ghost kv = kinds@.map_values(|s: &str| s@);
    let mut j: usize = 0;
    while j < kinds.len()
        invariant
            j <= kinds@.len(),
            kv == kinds@.map_values(|s: &str| s@),
            forall|q: int| 0 <= q < j ==> kv[q] != k@,
        decreases kinds@.len() - j,
    {
        if str_eq(kinds[j], k) {
            assert(kv[j as int] == k@);
            return true;
        }
        j = j + 1;
    }
    false
}

/// Adds the blocks found under node `i` at `depth` to `blocks` (see
/// `blocks_from`).
fn collect_blocks(
    t: &SyntaxTree,
    src: &[u8],
    lines: &[&str],
    i: usize,
    depth: usize,
    targets: &[&str],
    classes: &[&str],
    blocks: &mut Vec<ExtractedBlock>,
)
    requires
        t.wf(),
        i < t.nodes@.len(),
        depth <= 3,
    ensures
        blocks_view(final(blocks)@) == blocks_view(old(blocks)@) + blocks_from(
            t.nodes@,
            src@,
            line_views(lines@),
            i as int,
            depth as int,
            targets@.map_values(|s: &str| s@),
            classes@.map_values(|s: &str| s@),
        ),
    decreases t.nodes@.len() - i,
{
    let ghost tv = targets@.map_values(|s: &str| s@);
    let ghost cv = classes@.map_values(|s: &str| s@);
    let ghost lv = line_views(lines@);
    if depth > 2 {
        assert(blocks_view(blocks@) =~= blocks_view(old(blocks)@) + Seq::<BlockSpec>::empty());
        return;
    }
    let kids = &t.nodes[i].children;
    let mut k: usize = 0;
    assert(blocks_view(blocks@) =~= blocks_view(old(blocks)@) + Seq::<BlockSpec>::empty());
    while k < kids.len()
        invariant
            t.wf(),
            i < t.nodes@.len(),
            depth <= 2,
            kids@ == t.nodes@[i as int].children@,
            k <= kids@.len(),
            tv == targets@.map_values(|s: &str| s@),
            cv == classes@.map_values(|s: &str| s@),
            lv == line_views(lines@),
            blocks_view(blocks@) + blocks_from_kids(t.nodes@, src@, lv, i as int, k as int, depth as int, tv, cv)
                == blocks_view(old(blocks)@) + blocks_from(t.nodes@, src@, lv, i as int, depth as int, tv, cv),
        decreases kids@.len() - k,
    {
        let c = kids[k];
        let ghost before = blocks_view(blocks@);
        if i < c && c < t.nodes.len() {
            let kind = t.nodes[c].kind.as_str();
            if kind_in(targets, kind) {
                let b = extract_one_block(t, src, lines, c);
                let ghost bv = b.view_block();
                blocks.push(b);
                assert(blocks_view(blocks@) =~= before.push(bv));
                if kind_in(classes, kind) {
                    collect_blocks(t, src, lines, c, depth + 1, targets, classes, blocks);
                }
            } else {
                collect_blocks(t, src, lines, c, depth + 1, targets, classes, blocks);
            }
        }
        assert(blocks_view(blocks@) + blocks_from_kids(t.nodes@, src@, lv, i as int, k + 1, depth as int, tv, cv)
            =~= before + blocks_from_kids(t.nodes@, src@, lv, i as int, k as int, depth as int, tv, cv));
        k = k + 1;
    }
    assert(blocks_view(blocks@) + blocks_from_kids(t.nodes@, src@, lv, i as int, k as int, depth as int, tv, cv) =~= blocks_view(blocks@));
}

/// The blocks of a syntax tree: those found under its root at depth 0,
/// with `lines` the lines of the source text.
pub fn blocks_of_tree(t: &SyntaxTree, src: &[u8], lines: &[&str], targets: &[&str], classes: &[&str]) -> (r: Vec<ExtractedBlock>)
    requires
        t.wf(),
    ensures
        blocks_view(r@) == blocks_from(
            t.nodes@,
            src@,
            line_views(lines@),
            0,
            0,
            targets@.map_values(|s: &str| s@),
            classes@.map_values(|s: &str| s@),
        ),
{
    let mut blocks: Vec<ExtractedBlock> = Vec::new();
    collect_blocks(t, src, lines, 0, 0, targets, classes, &mut blocks);
    assert(blocks_view(Seq::<ExtractedBlock>::empty()) =~= Seq::<BlockSpec>::empty());
    assert(Seq::<BlockSpec>::empty() + blocks_from(
        t.nodes@,
        src@,
        line_views(lines@),
        0,
        0,
        targets@.map_values(|s: &str| s@),
        classes@.map_values(|s: &str| s@),
    ) =~= blocks_from(
        t.nodes@,
        src@,
        line_views(lines@),
        0,
        0,
        targets@.map_values(|s: &str| s@),
        classes@.map_values(|s: &str| s@),
    ));
    blocks
}

// ── Imports of a syntax tree ──

/// An import as plain values: as written, and its kind.
pub type ImportView = (Seq<char>, Seq<char>);

/// The imports of a list as plain values.
pub open spec fn imports_view(v: Seq<ExtractedImport>) -> Seq<ImportView> {
    v.map_values(|e: ExtractedImport| (e.raw_import@, e.kind@))
}

/// How the first of `configs` for node kind `kind` reads its imports.
pub open spec fn extractor_for(configs: Seq<ImportNodeConfig>, kind: Seq<char>) -> Option<ImportExtractor>
    decreases configs.len(),
{
    if configs.len() == 0 {
        None
    } else if configs[0].node_type@ == kind {
        Some(configs[0].extractor)
    } else {
        extractor_for(configs.drop_first(), kind)
    }
}

/// One import of `kind` when `raw` is not empty.
pub open spec fn one_import(raw: Seq<char>, kind: Seq<char>) -> Seq<ImportView> {
    if raw.len() > 0 {
        seq![(raw, kind)]
    } else {
        seq![]
    }
}

/// The text of the child of node `i` under field `f`.
pub open spec fn field_text(nodes: Seq<SyntaxNode>, src: Seq<u8>, i: int, f: Seq<char>) -> Option<Seq<char>> {
    match field_child(nodes, i, f) {
        Some(c) => node_text(nodes, src, c),
        None => None,
    }
}

/// The quote characters stripped from string imports.
pub open spec fn quotes() -> Seq<char> {
    seq!['\'', '"']
}

/// A Java import statement reduced to its name: trimmed, leading `import`
/// and then `static` dropped, trimmed, trailing `;` dropped, trimmed.
pub open spec fn java_import_text(s: Seq<char>) -> Seq<char> {
    trim(trim_end_matches(trim(trim_start_matches(trim_start_matches(trim(s), "import"@), "static"@)), seq![';']))
}

/// The imports under a Go import spec (or list of them) at node `i`.
pub open spec fn go_specs(nodes: Seq<SyntaxNode>, src: Seq<u8>, i: int) -> Seq<ImportView>
    decreases nodes.len() - i, nodes[i].children@.len() + 1,
{
    if i < 0 || i >= nodes.len() {
        seq![]
    } else if nodes[i].kind@ == "import_spec"@ {
        match field_text(nodes, src, i, "path"@) {
            Some(t) => one_import(trim_set(t, seq!['"']), "module"@),
            None => seq![],
        }
    } else {
        go_specs_kids(nodes, src, i, 0)
    }
}

/// The imports under the children `k..` of node `i`, read as Go specs.
pub open spec fn go_specs_kids(nodes: Seq<SyntaxNode>, src: Seq<u8>, i: int, k: int) -> Seq<ImportView>
    decreases nodes.len() - i, nodes[i].children@.len() - k,
{
    if i < 0 || i >= nodes.len() || k < 0 || k >= nodes[i].children@.len() {
        seq![]
    } else {
        let c = nodes[i].children@[k] as int;
        (if i < c < nodes.len() {
            go_specs(nodes, src, c)
        } else {
            seq![]
        }) + go_specs_kids(nodes, src, i, k + 1)
    }
}

/// The imports of a Go import declaration at node `i`, from its children
/// `k..` that are specs or spec lists.
pub open spec fn go_decl_kids(nodes: Seq<SyntaxNode>, src: Seq<u8>, i: int, k: int) -> Seq<ImportView>
    decreases nodes[i].children@.len() - k,
{
    if i < 0 || i >= nodes.len() || k < 0 || k >= nodes[i].children@.len() {
        seq![]
    } else {
        let c = nodes[i].children@[k] as int;
        (if 0 <= c < nodes.len() && (nodes[c].kind@ == "import_spec"@ || nodes[c].kind@ == "import_spec_list"@) {
            go_specs(nodes, src, c)
        } else {
            seq![]
        }) + go_decl_kids(nodes, src, i, k + 1)
    }
}

/// The files a Ruby `require` names: the string children `k..` of its
/// argument list `a`, unquoted.
pub open spec fn ruby_args(nodes: Seq<SyntaxNode>, src: Seq<u8>, a: int, k: int) -> Seq<ImportView>
    decreases nodes[a].children@.len() - k,
{
    if a < 0 || a >= nodes.len() || k < 0 || k >= nodes[a].children@.len() {
        seq![]
    } else {
        let c = nodes[a].children@[k] as int;
        (if 0 <= c < nodes.len() && find(nodes[c].kind@, "string"@) is Some {
            match node_text(nodes, src, c) {
                Some(t) => one_import(trim_set(t, quotes()), "require"@),
                None => seq![],
            }
        } else {
            seq![]
        }) + ruby_args(nodes, src, a, k + 1)
    }
}

/// The files a shell `source` names: its word or string children `k..`
/// other than the command name `name`, unquoted.
pub open spec fn bash_args(nodes: Seq<SyntaxNode>, src: Seq<u8>, i: int, k: int, name: int) -> Seq<ImportView>
    decreases nodes[i].children@.len() - k,
{
    if i < 0 || i >= nodes.len() || k < 0 || k >= nodes[i].children@.len() {
        seq![]
    } else {
        let c = nodes[i].children@[k] as int;
        (if 0 <= c < nodes.len() && (nodes[c].kind@ == "word"@ || nodes[c].kind@ == "string"@) && c != name {
            match node_text(nodes, src, c) {
                Some(t) => one_import(trim_set(t, quotes()), "source"@),
                None => seq![],
            }
        } else {
            seq![]
        }) + bash_args(nodes, src, i, k + 1, name)
    }
}

/// The imports that extractor `e` reads from node `i`.
pub open spec fn extract_with(nodes: Seq<SyntaxNode>, src: Seq<u8>, i: int, e: ImportExtractor) -> Seq<ImportView> {
    match e {
        ImportExtractor::Field(f) => match field_text(nodes, src, i, f@) {
            Some(t) => one_import(trim(t), "module"@),
            None => seq![],
        },
        ImportExtractor::StringField(f) => match field_text(nodes, src, i, f@) {
            Some(t) => one_import(trim_set(t, quotes()), "module"@),
            None => seq![],
        },
        ImportExtractor::GoImport => go_decl_kids(nodes, src, i, 0),
        ImportExtractor::JavaImport => match node_text(nodes, src, i) {
            Some(t) => one_import(java_import_text(t), "module"@),
            None => seq![],
        },
        ImportExtractor::CInclude => match field_text(nodes, src, i, "path"@) {
            Some(t) => one_import(trim_set(t, seq!['"', '<', '>']), "include"@),
            None => seq![],
        },
        ImportExtractor::RubyRequire => match field_text(nodes, src, i, "method"@) {
            Some(m) => if m == "require"@ || m == "require_relative"@ {
                match field_child(nodes, i, "arguments"@) {
                    Some(a) => ruby_args(nodes, src, a, 0),
                    None => seq![],
                }
            } else {
                seq![]
            },
            None => seq![],
        },
        ImportExtractor::BashSource => match field_child(nodes, i, "name"@) {
            Some(n) => match node_text(nodes, src, n) {
                Some(m) => if m == "source"@ || m == "."@ {
                    bash_args(nodes, src, i, 0, n)
                } else {
                    seq![]
                },
                None => seq![],
            },
            None => seq![],
        },
    }
}

/// The imports found from node `i` on: a node of a kind that a config
/// names is read by its extractor (and not looked into); any other node is
/// looked into, child by child.
pub open spec fn imports_from(nodes: Seq<SyntaxNode>, src: Seq<u8>, i: int, configs: Seq<ImportNodeConfig>) -> Seq<ImportView>
    decreases nodes.len() - i, nodes[i].children@.len() + 1,
{
    if i < 0 || i >= nodes.len() {
        seq![]
    } else {
        match extractor_for(configs, nodes[i].kind@) {
            Some(e) => extract_with(nodes, src, i, e),
            None => imports_from_kids(nodes, src, i, 0, configs),
        }
    }
}

/// The imports found under the children `k..` of node `i`.
pub open spec fn imports_from_kids(nodes: Seq<SyntaxNode>, src: Seq<u8>, i: int, k: int, configs: Seq<ImportNodeConfig>) -> Seq<ImportView>
    decreases nodes.len() - i, nodes[i].children@.len() - k,
{
    if i < 0 || i >= nodes.len() || k < 0 || k >= nodes[i].children@.len() {
        seq![]
    } else {
        let c = nodes[i].children@[k] as int;
        (if i < c < nodes.len() {
            imports_from(nodes, src, c, configs)
        } else {
            seq![]
        }) + imports_from_kids(nodes, src, i, k + 1, configs)
    }
}

/// Adds an import of `kind` when `raw` is not empty.
fn push_import(imports: &mut Vec<ExtractedImport>, raw: &[char], kind: &str)
    ensures
        imports_view(final(imports)@) == imports_view(old(imports)@) + one_import(raw@, kind@),
{
    let ghost before = imports_view(imports@);
    if raw.len() > 0 {
        imports.push(ExtractedImport { raw_import: string_of(raw), kind: lit_string(kind) });
        assert(imports_view(imports@) =~= before + seq![(raw@, kind@)]);
    } else {
        assert(imports_view(imports@) =~= before + Seq::<ImportView>::empty());
    }
}

/// The text of the child of node `i` under field `f`.
fn field_text_exec(t: &SyntaxTree, src: &[u8], i: usize, f: &str) -> (r: Option<Vec<char>>)
    requires
        i < t.nodes@.len(),
    ensures
        match r {
            Some(v) => field_text(t.nodes@, src@, i as int, f@) == Some(v@),
            None => field_text(t.nodes@, src@, i as int, f@) is None,
        },
{
    match t.field_child(i, f) {
        Some(c) => match t.text(src, c) {
            Some(s) => Some(chars_of(s.as_str())),
            None => None,
        },
        None => None,
    }
}

/// Adds the imports under a Go import spec (or list) at node `i`.
fn go_import_specs(t: &SyntaxTree, src: &[u8], i: usize, imports: &mut Vec<ExtractedImport>)
    requires
        i < t.nodes@.len(),
    ensures
        imports_view(final(imports)@) == imports_view(old(imports)@) + go_specs(t.nodes@, src@, i as int),
    decreases t.nodes@.len() - i,
{
    if str_eq(t.nodes[i].kind.as_str(), "import_spec") {
        match field_text_exec(t, src, i, "path") {
            Some(text) => {
                let q = vec!['"'];
                assert(q@ =~= seq!['"']);
                let raw = trim_set_exec(text.as_slice(), q.as_slice());
                push_import(imports, raw.as_slice(), "module");
            },
            None => {
                assert(imports_view(imports@) =~= imports_view(old(imports)@) + Seq::<ImportView>::empty());
            },
        }
        return;
    }
    let kids = &t.nodes[i].children;
    let mut k: usize = 0;
    assert(imports_view(imports@) =~= imports_view(old(imports)@) + Seq::<ImportView>::empty());
    while k < kids.len()
        invariant
            i < t.nodes@.len(),
            kids@ == t.nodes@[i as int].children@,
            k <= kids@.len(),
            t.nodes@[i as int].kind@ != "import_spec"@,
            imports_view(imports@) + go_specs_kids(t.nodes@, src@, i as int, k as int)
                == imports_view(old(imports)@) + go_specs(t.nodes@, src@, i as int),
        decreases kids@.len() - k,
    {
        let c = kids[k];
        let ghost before = imports_view(imports@);
        if i < c && c < t.nodes.len() {
            go_import_specs(t, src, c, imports);
        }
        assert(imports_view(imports@) + go_specs_kids(t.nodes@, src@, i as int, k + 1)
            =~= before + go_specs_kids(t.nodes@, src@, i as int, k as int));
        k = k + 1;
    }
    assert(imports_view(imports@) + go_specs_kids(t.nodes@, src@, i as int, k as int) =~= imports_view(imports@));
}

/// Adds the imports read from node `i` by extractor `e` (see `extract_with`).
fn extract_import(t: &SyntaxTree, src: &[u8], i: usize, e: ImportExtractor, imports: &mut Vec<ExtractedImport>)
    requires
        i < t.nodes@.len(),
    ensures
        imports_view(final(imports)@) == imports_view(old(imports)@) + extract_with(t.nodes@, src@, i as int, e),
{
    let ghost start = imports_view(imports@);
    let q = vec!['\'', '"'];
    assert(q@ =~= quotes());
    match e {
        ImportExtractor::Field(f) => {
            match field_text_exec(t, src, i, f) {
                Some(text) => {
                    let raw = trim_exec(text.as_slice());
                    push_import(imports, raw.as_slice(), "module");
                },
                None => {
                    assert(imports_view(imports@) =~= start + Seq::<ImportView>::empty());
                },
            }
        },
        ImportExtractor::StringField(f) => {
            match field_text_exec(t, src, i, f) {
                Some(text) => {
                    let raw = trim_set_exec(text.as_slice(), q.as_slice());
                    push_import(imports, raw.as_slice(), "module");
                },
                None => {
                    assert(imports_view(imports@) =~= start + Seq::<ImportView>::empty());
                },
            }
        },
        ImportExtractor::GoImport => {
            let kids = &t.nodes[i].children;
            let mut k: usize = 0;
            assert(imports_view(imports@) =~= start + Seq::<ImportView>::empty());
            while k < kids.len()
                invariant
                    i < t.nodes@.len(),
                    kids@ == t.nodes@[i as int].children@,
                    k <= kids@.len(),
                    imports_view(imports@) + go_decl_kids(t.nodes@, src@, i as int, k as int)
                        == start + go_decl_kids(t.nodes@, src@, i as int, 0),
                decreases kids@.len() - k,
            {
                let c = kids[k];
                let ghost before = imports_view(imports@);
                if c < t.nodes.len() && (str_eq(t.nodes[c].kind.as_str(), "import_spec") || str_eq(t.nodes[c].kind.as_str(), "import_spec_list")) {
                    go_import_specs(t, src, c, imports);
                }
                assert(imports_view(imports@) + go_decl_kids(t.nodes@, src@, i as int, k + 1)
                    =~= before + go_decl_kids(t.nodes@, src@, i as int, k as int));
                k = k + 1;
            }
            assert(imports_view(imports@) + go_decl_kids(t.nodes@, src@, i as int, k as int) =~= imports_view(imports@));
        },
        ImportExtractor::JavaImport => {
            match t.text(src, i) {
                Some(text) => {
                    let c = chars_of(text.as_str());
                    let a = trim_exec(c.as_slice());
                    let b = trim_start_matches_exec(a.as_slice(), lit_chars("import").as_slice());
                    let d = trim_start_matches_exec(b.as_slice(), lit_chars("static").as_slice());
                    let e2 = trim_exec(d.as_slice());
                    let semi = vec![';'];
                    assert(semi@ =~= seq![';']);
                    let f2 = trim_end_matches_exec(e2.as_slice(), semi.as_slice());
                    let raw = trim_exec(f2.as_slice());
                    push_import(imports, raw.as_slice(), "module");
                },
                None => {
                    assert(imports_view(imports@) =~= start + Seq::<ImportView>::empty());
                },
            }
        },
        ImportExtractor::CInclude => {
            match field_text_exec(t, src, i, "path") {
                Some(text) => {
                    let set = vec!['"', '<', '>'];
                    assert(set@ =~= seq!['"', '<', '>']);
                    let raw = trim_set_exec(text.as_slice(), set.as_slice());
                    push_import(imports, raw.as_slice(), "include");
                },
                None => {
                    assert(imports_view(imports@) =~= start + Seq::<ImportView>::empty());
                },
            }
        },
        ImportExtractor::RubyRequire => {
            let m = field_text_exec(t, src, i, "method");
            let wanted = match &m {
                Some(mv) => eq_lit(mv.as_slice(), "require") || eq_lit(mv.as_slice(), "require_relative"),
                None => false,
            };
            let args = if wanted {
                t.field_child(i, "arguments")
            } else {
                None
            };
            match args {
                Some(a) => {
                    let kids = &t.nodes[a].children;
                    let mut k: usize = 0;
                    assert(imports_view(imports@) =~= start + Seq::<ImportView>::empty());
                    while k < kids.len()
                        invariant
                            a < t.nodes@.len(),
                            kids@ == t.nodes@[a as int].children@,
                            k <= kids@.len(),
                            q@ == quotes(),
                            imports_view(imports@) + ruby_args(t.nodes@, src@, a as int, k as int)
                                == start + ruby_args(t.nodes@, src@, a as int, 0),
                        decreases kids@.len() - k,
                    {
                        let c = kids[k];
                        let ghost before = imports_view(imports@);
                        if c < t.nodes.len() && find_exec(chars_of(t.nodes[c].kind.as_str()).as_slice(), lit_chars("string").as_slice()).is_some() {
                            match t.text(src, c) {
                                Some(text) => {
                                    let raw = trim_set_exec(chars_of(text.as_str()).as_slice(), q.as_slice());
                                    push_import(imports, raw.as_slice(), "require");
                                },
                                None => {
                                    assert(imports_view(imports@) =~= before + Seq::<ImportView>::empty());
                                },
                            }
                        } else {
                            assert(imports_view(imports@) =~= before + Seq::<ImportView>::empty());
                        }
                        assert(imports_view(imports@) + ruby_args(t.nodes@, src@, a as int, k + 1)
                            =~= before + ruby_args(t.nodes@, src@, a as int, k as int));
                        k = k + 1;
                    }
                    assert(imports_view(imports@) + ruby_args(t.nodes@, src@, a as int, k as int) =~= imports_view(imports@));
                },
                None => {
                    assert(imports_view(imports@) =~= start + Seq::<ImportView>::empty());
                },
            }
        },
        ImportExtractor::BashSource => {
            let name = t.field_child(i, "name");
            let which = match name {
                Some(n) => match t.text(src, n) {
                    Some(text) => {
                        if str_eq(text.as_str(), "source") || str_eq(text.as_str(), ".") {
                            Some(n)
                        } else {
                            None
                        }
                    },
                    None => None,
                },
                None => None,
            };
            match which {
                Some(n) => {
                    let kids = &t.nodes[i].children;
                    let mut k: usize = 0;
                    assert(imports_view(imports@) =~= start + Seq::<ImportView>::empty());
                    while k < kids.len()
                        invariant
                            i < t.nodes@.len(),
                            kids@ == t.nodes@[i as int].children@,
                            k <= kids@.len(),
                            q@ == quotes(),
                            imports_view(imports@) + bash_args(t.nodes@, src@, i as int, k as int, n as int)
                                == start + bash_args(t.nodes@, src@, i as int, 0, n as int),
                        decreases kids@.len() - k,
                    {
                        let c = kids[k];
                        let ghost before = imports_view(imports@);
                        if c < t.nodes.len() && (str_eq(t.nodes[c].kind.as_str(), "word") || str_eq(t.nodes[c].kind.as_str(), "string")) && c != n {
                            match t.text(src, c) {
                                Some(text) => {
                                    let raw = trim_set_exec(chars_of(text.as_str()).as_slice(), q.as_slice());
                                    push_import(imports, raw.as_slice(), "source");
                                },
                                None => {
                                    assert(imports_view(imports@) =~= before + Seq::<ImportView>::empty());
                                },
                            }
                        } else {
                            assert(imports_view(imports@) =~= before + Seq::<ImportView>::empty());
                        }
                        assert(imports_view(imports@) + bash_args(t.nodes@, src@, i as int, k + 1, n as int)
                            =~= before + bash_args(t.nodes@, src@, i as int, k as int, n as int));
                        k = k + 1;
                    }
                    assert(imports_view(imports@) + bash_args(t.nodes@, src@, i as int, k as int, n as int) =~= imports_view(imports@));
                },
                None => {
                    assert(imports_view(imports@) =~= start + Seq::<ImportView>::empty());
                },
            }
        },
    }
}

/// How the first config for node kind `kind` reads its imports.
fn extractor_for_exec(configs: &[ImportNodeConfig], kind: &str) -> (r: Option<ImportExtractor>)
    ensures
        r == extractor_for(configs@, kind@),
{
    let mut j: usize = 0;
    assert(configs@.skip(0) =~= configs@);
    while j < configs.len()
        invariant
            j <= configs@.len(),
            extractor_for(configs@, kind@) == extractor_for(configs@.skip(j as int), kind@),
        decreases configs@.len() - j,
    {
        assert(configs@.skip(j as int)[0] == configs@[j as int]);
        assert(configs@.skip(j as int).drop_first() =~= configs@.skip(j + 1));
        if str_eq(configs[j].node_type, kind) {
            return Some(configs[j].extractor);
        }
        j = j + 1;
    }
    None
}

/// Adds the imports found from node `i` on (see `imports_from`).
fn collect_imports(t: &SyntaxTree, src: &[u8], i: usize, configs: &[ImportNodeConfig], imports: &mut Vec<ExtractedImport>)
    requires
        i < t.nodes@.len(),
    ensures
        imports_view(final(imports)@) == imports_view(old(imports)@) + imports_from(t.nodes@, src@, i as int, configs@),
    decreases t.nodes@.len() - i,
{
    match extractor_for_exec(configs, t.nodes[i].kind.as_str()) {
        Some(e) => {
            extract_import(t, src, i, e, imports);
            return;
        },
        None => {},
    }
    let kids = &t.nodes[i].children;
    let mut k: usize = 0;
    assert(imports_view(imports@) =~= imports_view(old(imports)@) + Seq::<ImportView>::empty());
    while k < kids.len()
        invariant
            i < t.nodes@.len(),
            kids@ == t.nodes@[i as int].children@,
            k <= kids@.len(),
            extractor_for(configs@, t.nodes@[i as int].kind@) is None,
            imports_view(imports@) + imports_from_kids(t.nodes@, src@, i as int, k as int, configs@)
                == imports_view(old(imports)@) + imports_from(t.nodes@, src@, i as int, configs@),
        decreases kids@.len() - k,
    {
        let c = kids[k];
        let ghost before = imports_view(imports@);
        if i < c && c < t.nodes.len() {
            collect_imports(t, src, c, configs, imports);
        }
        assert(imports_view(imports@) + imports_from_kids(t.nodes@, src@, i as int, k + 1, configs@)
            =~= before + imports_from_kids(t.nodes@, src@, i as int, k as int, configs@));
        k = k + 1;
    }
    assert(imports_view(imports@) + imports_from_kids(t.nodes@, src@, i as int, k as int, configs@) =~= imports_view(imports@));
}

/// The imports of a syntax tree: those found from its root on.
pub fn imports_of_tree(t: &SyntaxTree, src: &[u8], configs: &[ImportNodeConfig]) -> (r: Vec<ExtractedImport>)
    requires
        t.wf(),
    ensures
        imports_view(r@) == imports_from(t.nodes@, src@, 0, configs@),
{
    let mut imports: Vec<ExtractedImport> = Vec::new();
    collect_imports(t, src, 0, configs, &mut imports);
    assert(imports_view(Seq::<ExtractedImport>::empty()) + imports_from(t.nodes@, src@, 0, configs@)
        =~= imports_from(t.nodes@, src@, 0, configs@));
    imports
}

// ── Parsing a file ──

/// The lines of the source text, each as a string.
fn source_lines(source: &[u8]) -> (r: Vec<String>)
    ensures
        r.deep_view() == lines(lossy_text_of(source@)),
{
    let text = lossy_text(source);
    let c = chars_of(text.as_str());
    let ls = lines_exec(c.as_slice());
    let mut r: Vec<String> = Vec::new();
    let mut i: usize = 0;
    while i < ls.len()
        invariant
            i <= ls@.len(),
            ls.deep_view() == lines(lossy_text_of(source@)),
            r.deep_view() == ls.deep_view().take(i as int),
        decreases ls@.len() - i,
    {
        assert(ls@[i as int].deep_view() =~= ls@[i as int]@);
        let s = string_of(ls[i].as_slice());
        let ghost before = r.deep_view();
        let ghost sv = s@;
        r.push(s);
        assert(r.deep_view() =~= before.push(sv));
        assert(ls.deep_view().take(i + 1) =~= ls.deep_view().take(i as int).push(ls.deep_view()[i as int]));
        i = i + 1;
    }
    assert(ls.deep_view().take(i as int) =~= ls.deep_view());
    r
}

/// Borrowed views of a list of strings.
fn str_refs(v: &Vec<String>) -> (r: Vec<&str>)
    ensures
        line_views(r@) == v.deep_view(),
{
    let mut r: Vec<&str> = Vec::new();
    let mut i: usize = 0;
    while i < v.len()
        invariant
            i <= v@.len(),
            r@.len() == i,
            line_views(r@) == v.deep_view().take(i as int),
        decreases v@.len() - i,
    {
        let ghost before = r@;
        let x = v[i].as_str();
        r.push(x);
        assert(v.deep_view()[i as int] == v@[i as int]@);
        assert(x@ == v@[i as int]@);
        assert(r@ == before.push(x));
        assert(line_views(r@) =~= v.deep_view().take(i + 1));
        i = i + 1;
    }
    assert(v.deep_view().take(i as int) =~= v.deep_view());
    r
}

/// Parses `source` with grammar `g` into a syntax tree: the tree of the
/// nodes tree-sitter builds (see `tree_model`).
fn parse_tree(source: &[u8], g: Grammar) -> (r: SyntaxTree)
    ensures
        r.wf(),
        tree_model(r.nodes@, parsed_nodes(g, source@)),
{
    let tree = parse_grammar(g, source);
    syntax_tree(&tree)
}

/// The blocks of a source file: the syntax tree that tree-sitter builds
/// for it with `grammar` (see `parse_tree`) read by `blocks_from` from the
/// root, with the file's lines for previews, nodes of `function_nodes` and
/// `class_nodes` as targets and `class_nodes` looked into for methods.
/// Every grammar parses every source, so this always succeeds.
pub fn extract_blocks(
    source: &[u8],
    rel_path: &str,
    language: &str,
    grammar: Grammar,
    function_nodes: &[&str],
    class_nodes: &[&str],
) -> (r: Result<Vec<ExtractedBlock>, String>)
    ensures
        r matches Ok(v) && exists|t: SyntaxTree|
            t.wf() && tree_model(t.nodes@, parsed_nodes(grammar, source@)) && blocks_view(v@) == #[trigger] blocks_from(
                t.nodes@,
                source@,
                lines(lossy_text_of(source@)),
                0,
                0,
                str_views(function_nodes@) + str_views(class_nodes@),
                str_views(class_nodes@),
            ),
{
    let t = parse_tree(source, grammar);
    let owned = source_lines(source);
    let lines_ref = str_refs(&owned);
    let mut targets: Vec<&str> = Vec::new();
    let mut i: usize = 0;
    while i < function_nodes.len()
        invariant
            i <= function_nodes@.len(),
            targets@ == function_nodes@.take(i as int),
        decreases function_nodes@.len() - i,
    {
        targets.push(function_nodes[i]);
        assert(function_nodes@.take(i + 1) =~= function_nodes@.take(i as int).push(function_nodes@[i as int]));
        i = i + 1;
    }
    let mut j: usize = 0;
    while j < class_nodes.len()
        invariant
            j <= class_nodes@.len(),
            i == function_nodes@.len(),
            targets@ == function_nodes@.take(i as int) + class_nodes@.take(j as int),
        decreases class_nodes@.len() - j,
    {
        targets.push(class_nodes[j]);
        assert(class_nodes@.take(j + 1) =~= class_nodes@.take(j as int).push(class_nodes@[j as int]));
        j = j + 1;
    }
    assert(targets@ =~= function_nodes@ + class_nodes@);
    assert(targets@.map_values(|s: &str| s@) =~= str_views(function_nodes@) + str_views(class_nodes@));
    assert(class_nodes@.map_values(|s: &str| s@) == str_views(class_nodes@));
    let blocks = blocks_of_tree(&t, source, lines_ref.as_slice(), targets.as_slice(), class_nodes);
    Ok(blocks)
}

/// The imports of a source file: none when its language lists no import
/// nodes (nothing is parsed then); else the syntax tree that tree-sitter
/// builds for it with `grammar` (see `parse_tree`) read by `imports_from`
/// from the root. This always succeeds.
pub fn extract_imports(
    source: &[u8],
    grammar: Grammar,
    import_nodes: &[ImportNodeConfig],
) -> (r: Result<Vec<ExtractedImport>, String>)
    ensures
        import_nodes@.len() == 0 ==> (r matches Ok(v) && v@.len() == 0),
        import_nodes@.len() > 0 ==> (r matches Ok(v) && exists|t: SyntaxTree|
            t.wf() && tree_model(t.nodes@, parsed_nodes(grammar, source@)) && imports_view(v@) == #[trigger] imports_from(
                t.nodes@,
                source@,
                0,
                import_nodes@,
            )),
{
    if import_nodes.len() == 0 {
        return Ok(Vec::new());
    }
    let t = parse_tree(source, grammar);
    Ok(imports_of_tree(&t, source, import_nodes))
}

} // verus!
