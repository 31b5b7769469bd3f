//! Ranges, block kinds and symbol ids: the library's addressing scheme.
use vstd::prelude::*;

use crate::num::{
    decimal, lemma_decimal_digits, lemma_parse_decimal, parse_unsigned, parse_unsigned_exec,
    push_decimal, IntErrorKind,
};
use crate::text::{
    chars_eq, chars_of, extend_chars, lemma_find_char_after, lemma_find_char_none, split_once,
    split_once_exec, splitn, splitn_exec, string_of,
};

verus! {

// ── Error codes ──
pub const ERR_SYMBOL_NOT_FOUND: &'static str = "SYMBOL_NOT_FOUND";

pub const ERR_SYMBOL_AMBIGUOUS: &'static str = "SYMBOL_AMBIGUOUS";

pub const ERR_FILE_NOT_FOUND: &'static str = "FILE_NOT_FOUND";

pub const ERR_RANGE_OUT_OF_BOUNDS: &'static str = "RANGE_OUT_OF_BOUNDS";

pub const ERR_PARSE_ERROR: &'static str = "PARSE_ERROR";

pub const ERR_INDEX_EMPTY: &'static str = "INDEX_EMPTY";

pub const ERR_INDEX_BUSY: &'static str = "INDEX_BUSY";

pub const ERR_BUDGET_EXCEEDED: &'static str = "BUDGET_EXCEEDED";

pub const ERR_CURSOR_STALE: &'static str = "CURSOR_STALE";

pub const ERR_UNSUPPORTED_LANGUAGE: &'static str = "UNSUPPORTED_LANGUAGE";

pub const ERR_ENCODING_ERROR: &'static str = "ENCODING_ERROR";

pub const ERR_PERMISSION_DENIED: &'static str = "PERMISSION_DENIED";

/// A literal's characters, as a vector.
pub fn lit_chars(s: &str) -> (r: Vec<char>)
    ensures
        r@ == s@,
{
    chars_of(s)
}

/// An owned copy of a literal.
pub fn lit_string(s: &str) -> (r: String)
    ensures
        r@ == s@,
{
    s.to_owned()
}

/// Whether the characters `s` spell the literal `lit`.
pub fn eq_lit(s: &[char], lit: &str) -> (r: bool)
    ensures
        r == (s@ == lit@),
{
    let l = chars_of(lit);
    chars_eq(s, l.as_slice())
}

// ── Range ──

/// A span of source text: 0-based lines and byte columns.
#[derive(Debug, Clone, PartialEq, Eq, Structural)]
pub struct Range {
    pub start_line: u32,
    pub start_col: u32,
    pub end_line: u32,
    pub end_col: u32,
}

/// The text of a range: `start_line:start_col-end_line:end_col`.
pub open spec fn range_text(r: Range) -> Seq<char> {
    decimal(r.start_line as nat) + seq![':'] + decimal(r.start_col as nat) + seq!['-'] + decimal(
        r.end_line as nat,
    ) + seq![':'] + decimal(r.end_col as nat)
}

/// The message std gives for a refused integer (`ParseIntError`'s display).
pub open spec fn int_error_text(k: IntErrorKind) -> Seq<char> {
    match k {
        IntErrorKind::Empty => "cannot parse integer from empty string"@,
        IntErrorKind::InvalidDigit => "invalid digit found in string"@,
        IntErrorKind::PosOverflow => "number too large to fit in target type"@,
    }
}

/// `s` read as a `u32`, as std's `str::parse::<u32>` reads it.
pub open spec fn parse_u32_text(s: Seq<char>) -> Result<u32, Seq<char>> {
    match parse_unsigned(s, u32::MAX as nat) {
        Ok(v) => Ok(v as u32),
        Err(k) => Err(int_error_text(k)),
    }
}

/// What reading `s` as a range gives: the range, or the message of the
/// first refusal.
pub open spec fn parse_range_text(s: Seq<char>) -> Result<Range, Seq<char>> {
    match split_once(s, '-') {
        None => Err("missing '-'"@),
        Some((start, end)) => match split_once(start, ':') {
            None => Err("missing ':' in start"@),
            Some((sl, sc)) => match split_once(end, ':') {
                None => Err("missing ':' in end"@),
                Some((el, ec)) => match parse_u32_text(sl) {
                    Err(m) => Err(m),
                    Ok(a) => match parse_u32_text(sc) {
                        Err(m) => Err(m),
                        Ok(b) => match parse_u32_text(el) {
                            Err(m) => Err(m),
                            Ok(c) => match parse_u32_text(ec) {
                                Err(m) => Err(m),
                                Ok(d) => Ok(
                                    Range { start_line: a, start_col: b, end_line: c, end_col: d },
                                ),
                            },
                        },
                    },
                },
            },
        },
    }
}

/// The message of a refused integer.
pub fn int_error_string(k: IntErrorKind) -> (r: String)
    ensures
        r@ == int_error_text(k),
{
    match k {
        IntErrorKind::Empty => lit_string("cannot parse integer from empty string"),
        IntErrorKind::InvalidDigit => lit_string("invalid digit found in string"),
        IntErrorKind::PosOverflow => lit_string("number too large to fit in target type"),
    }
}

/// Reads `s` as a `u32`.
pub fn parse_u32_exec(s: &[char]) -> (r: Result<u32, String>)
    ensures
        match r {
            Ok(v) => parse_u32_text(s@) == Ok::<u32, Seq<char>>(v),
            Err(m) => parse_u32_text(s@) == Err::<u32, Seq<char>>(m@),
        },
{
    match parse_unsigned_exec(s, u32::MAX as u64) {
        Ok(v) => Ok(v as u32),
        Err(k) => Err(int_error_string(k)),
    }
}

impl Range {
    /// The range as text: `start_line:start_col-end_line:end_col`.
    pub fn to_string(&self) -> (r: String)
        ensures
            r@ == range_text(*self),
    {
        let mut v: Vec<char> = Vec::new();
        push_decimal(&mut v, self.start_line as u64);
        v.push(':');
        push_decimal(&mut v, self.start_col as u64);
        v.push('-');
        push_decimal(&mut v, self.end_line as u64);
        v.push(':');
        push_decimal(&mut v, self.end_col as u64);
        assert(v@ =~= range_text(*self));
        string_of(v.as_slice())
    }

    /// Reads a range written as `start_line:start_col-end_line:end_col`.
    pub fn from_str(s: &str) -> (r: Result<Range, String>)
        ensures
            match r {
                Ok(v) => parse_range_text(s@) == Ok::<Range, Seq<char>>(v),
                Err(m) => parse_range_text(s@) == Err::<Range, Seq<char>>(m@),
            },
    {
        let cs = chars_of(s);
        let (start, end) = match split_once_exec(cs.as_slice(), '-') {
            Some(p) => p,
            None => {
                return Err(lit_string("missing '-'"));
            },
        };
        let (sl, sc) = match split_once_exec(start.as_slice(), ':') {
            Some(p) => p,
            None => {
                return Err(lit_string("missing ':' in start"));
            },
        };
        let (el, ec) = match split_once_exec(end.as_slice(), ':') {
            Some(p) => p,
            None => {
                return Err(lit_string("missing ':' in end"));
            },
        };
        let a = parse_u32_exec(sl.as_slice())?;
        let b = parse_u32_exec(sc.as_slice())?;
        let c = parse_u32_exec(el.as_slice())?;
        let d = parse_u32_exec(ec.as_slice())?;
        Ok(Range { start_line: a, start_col: b, end_line: c, end_col: d })
    }
}

/// A numeral holds none of `-`, `:` or `#`.
pub proof fn lemma_decimal_plain(n: nat)
    ensures
        !decimal(n).contains('-'),
        !decimal(n).contains(':'),
        !decimal(n).contains('#'),
        decimal(n).len() >= 1,
{
    lemma_decimal_digits(n);
}

/// Reading back the text of a range gives the range.
pub proof fn lemma_range_text_roundtrip(r: Range)
    ensures
        parse_range_text(range_text(r)) == Ok::<Range, Seq<char>>(r),
{
    let a = decimal(r.start_line as nat);
    let b = decimal(r.start_col as nat);
    let c = decimal(r.end_line as nat);
    let d = decimal(r.end_col as nat);
    lemma_decimal_plain(r.start_line as nat);
    lemma_decimal_plain(r.start_col as nat);
    lemma_decimal_plain(r.end_line as nat);
    lemma_decimal_plain(r.end_col as nat);
    let x = a + seq![':'] + b;
    let y = c + seq![':'] + d;
    assert(range_text(r) =~= x + seq!['-'] + y);
    assert(!x.contains('-')) by {
        assert forall|i: int| 0 <= i < x.len() implies x[i] != '-' by {
            if i < a.len() {
                assert(x[i] == a[i]);
            } else if i > a.len() {
                assert(x[i] == b[i - a.len() - 1]);
            }
        }
    }
    lemma_find_char_after(x, '-', y);
    lemma_find_char_after(a, ':', b);
    lemma_find_char_after(c, ':', d);
    lemma_parse_decimal(r.start_line as nat, u32::MAX as nat);
    lemma_parse_decimal(r.start_col as nat, u32::MAX as nat);
    lemma_parse_decimal(r.end_line as nat, u32::MAX as nat);
    lemma_parse_decimal(r.end_col as nat, u32::MAX as nat);
}


// ── BlockKind ──

/// The kind of a code block.
#[derive(Debug, Clone, Copy, PartialEq, Eq, Structural)]
pub enum BlockKind {
    Function,
    Method,
    Class,
    Struct,
    Interface,
    Trait,
    Enum,
    Impl,
    Module,
    Namespace,
    Block,
    Object,
    Protocol,
}

/// The name of a kind, as ids and outlines show it.
pub open spec fn kind_name(k: BlockKind) -> Seq<char> {
    match k {
        BlockKind::Function => "function"@,
        BlockKind::Method => "method"@,
        BlockKind::Class => "class"@,
        BlockKind::Struct => "struct"@,
        BlockKind::Interface => "interface"@,
        BlockKind::Trait => "trait"@,
        BlockKind::Enum => "enum"@,
        BlockKind::Impl => "impl"@,
        BlockKind::Module => "module"@,
        BlockKind::Namespace => "namespace"@,
        BlockKind::Block => "block"@,
        BlockKind::Object => "object"@,
        BlockKind::Protocol => "protocol"@,
    }
}

/// The kind that a name denotes; `func` is also accepted for functions.
pub open spec fn kind_from_name(s: Seq<char>) -> Option<BlockKind> {
    if s == "function"@ || s == "func"@ {
        Some(BlockKind::Function)
    } else if s == "method"@ {
        Some(BlockKind::Method)
    } else if s == "class"@ {
        Some(BlockKind::Class)
    } else if s == "struct"@ {
        Some(BlockKind::Struct)
    } else if s == "interface"@ {
        Some(BlockKind::Interface)
    } else if s == "trait"@ {
        Some(BlockKind::Trait)
    } else if s == "enum"@ {
        Some(BlockKind::Enum)
    } else if s == "impl"@ {
        Some(BlockKind::Impl)
    } else if s == "module"@ {
        Some(BlockKind::Module)
    } else if s == "namespace"@ {
        Some(BlockKind::Namespace)
    } else if s == "block"@ {
        Some(BlockKind::Block)
    } else if s == "object"@ {
        Some(BlockKind::Object)
    } else if s == "protocol"@ {
        Some(BlockKind::Protocol)
    } else {
        None
    }
}

/// The message for a name that denotes no kind.
pub open spec fn unknown_kind_text(s: Seq<char>) -> Seq<char> {
    "unknown block kind: "@ + s
}

impl BlockKind {
    /// The kind's name.
    pub fn as_str(&self) -> (r: &'static str)
        ensures
            r@ == kind_name(*self),
    {
        match self {
            BlockKind::Function => "function",
            BlockKind::Method => "method",
            BlockKind::Class => "class",
            BlockKind::Struct => "struct",
            BlockKind::Interface => "interface",
            BlockKind::Trait => "trait",
            BlockKind::Enum => "enum",
            BlockKind::Impl => "impl",
            BlockKind::Module => "module",
            BlockKind::Namespace => "namespace",
            BlockKind::Block => "block",
            BlockKind::Object => "object",
            BlockKind::Protocol => "protocol",
        }
    }

    /// The kind's name, owned.
    pub fn to_string(&self) -> (r: String)
        ensures
            r@ == kind_name(*self),
    {
        self.as_str().to_owned()
    }

    /// The kind that `s` names, or the message `unknown block kind: s`.
    pub fn from_str(s: &str) -> (r: Result<BlockKind, String>)
        ensures
            match r {
                Ok(k) => kind_from_name(s@) == Some(k),
                Err(m) => kind_from_name(s@) is None && m@ == unknown_kind_text(s@),
            },
    {
        let cs = chars_of(s);
        if eq_lit(cs.as_slice(), "function") || eq_lit(cs.as_slice(), "func") {
            Ok(BlockKind::Function)
        } else if eq_lit(cs.as_slice(), "method") {
            Ok(BlockKind::Method)
        } else if eq_lit(cs.as_slice(), "class") {
            Ok(BlockKind::Class)
        } else if eq_lit(cs.as_slice(), "struct") {
            Ok(BlockKind::Struct)
        } else if eq_lit(cs.as_slice(), "interface") {
            Ok(BlockKind::Interface)
        } else if eq_lit(cs.as_slice(), "trait") {
            Ok(BlockKind::Trait)
        } else if eq_lit(cs.as_slice(), "enum") {
            Ok(BlockKind::Enum)
        } else if eq_lit(cs.as_slice(), "impl") {
            Ok(BlockKind::Impl)
        } else if eq_lit(cs.as_slice(), "module") {
            Ok(BlockKind::Module)
        } else if eq_lit(cs.as_slice(), "namespace") {
            Ok(BlockKind::Namespace)
        } else if eq_lit(cs.as_slice(), "block") {
            Ok(BlockKind::Block)
        } else if eq_lit(cs.as_slice(), "object") {
            Ok(BlockKind::Object)
        } else if eq_lit(cs.as_slice(), "protocol") {
            Ok(BlockKind::Protocol)
        } else {
            let mut m = lit_chars("unknown block kind: ");
            extend_chars(&mut m, cs.as_slice());
            Err(string_of(m.as_slice()))
        }
    }

    /// The kind that `s` names, and `Function` when it names none.
    pub fn from_str_loose(s: &str) -> (r: BlockKind)
        ensures
            r == (match kind_from_name(s@) {
                Some(k) => k,
                None => BlockKind::Function,
            }),
    {
        match BlockKind::from_str(s) {
            Ok(k) => k,
            Err(_) => BlockKind::Function,
        }
    }
}

/// Reading back the name of a kind gives the kind, and no name holds `#`.
pub proof fn lemma_kind_name_roundtrip(k: BlockKind)
    ensures
        kind_from_name(kind_name(k)) == Some(k),
        !kind_name(k).contains('#'),
{
    reveal_strlit("function");
    reveal_strlit("method");
    reveal_strlit("class");
    reveal_strlit("struct");
    reveal_strlit("interface");
    reveal_strlit("trait");
    reveal_strlit("enum");
    reveal_strlit("impl");
    reveal_strlit("module");
    reveal_strlit("namespace");
    reveal_strlit("block");
    reveal_strlit("object");
    reveal_strlit("protocol");
    reveal_strlit("func");
    assert("function"@.len() == 8 && "function"@[0] == 'f');
    assert("method"@.len() == 6 && "method"@[0] == 'm');
    assert("class"@.len() == 5 && "class"@[0] == 'c');
    assert("struct"@.len() == 6 && "struct"@[0] == 's');
    assert("interface"@.len() == 9 && "interface"@[0] == 'i');
    assert("trait"@.len() == 5 && "trait"@[0] == 't');
    assert("enum"@.len() == 4 && "enum"@[0] == 'e');
    assert("impl"@.len() == 4 && "impl"@[0] == 'i');
    assert("module"@.len() == 6 && "module"@[0] == 'm');
    assert("namespace"@.len() == 9 && "namespace"@[0] == 'n');
    assert("block"@.len() == 5 && "block"@[0] == 'b');
    assert("object"@.len() == 6 && "object"@[0] == 'o');
    assert("protocol"@.len() == 8 && "protocol"@[0] == 'p');
    assert("func"@.len() == 4 && "func"@[0] == 'f');
    assert("method"@[1] == 'e' && "module"@[1] == 'o');
    match k {
        BlockKind::Function => {
            assert(kind_from_name(kind_name(k)) == Some(k));
        },
        BlockKind::Method => {
            assert(kind_from_name(kind_name(k)) == Some(k));
        },
        BlockKind::Class => {
            assert(kind_from_name(kind_name(k)) == Some(k));
        },
        BlockKind::Struct => {
            assert(kind_from_name(kind_name(k)) == Some(k));
        },
        BlockKind::Interface => {
            assert(kind_from_name(kind_name(k)) == Some(k));
        },
        BlockKind::Trait => {
            assert(kind_from_name(kind_name(k)) == Some(k));
        },
        BlockKind::Enum => {
            assert(kind_from_name(kind_name(k)) == Some(k));
        },
        BlockKind::Impl => {
            assert(kind_from_name(kind_name(k)) == Some(k));
        },
        BlockKind::Module => {
            assert(kind_from_name(kind_name(k)) == Some(k));
        },
        BlockKind::Namespace => {
            assert(kind_from_name(kind_name(k)) == Some(k));
        },
        BlockKind::Block => {
            assert(kind_from_name(kind_name(k)) == Some(k));
        },
        BlockKind::Object => {
            assert(kind_from_name(kind_name(k)) == Some(k));
        },
        BlockKind::Protocol => {
            assert(kind_from_name(kind_name(k)) == Some(k));
        },
    }
    assert(!kind_name(k).contains('#'));
}

// ── Symbol ids ──

/// The text of a symbol id: `path#kind#name`, with `#occurrence` after it
/// when an occurrence is given.
pub open spec fn symbol_id_text(path: Seq<char>, kind: BlockKind, name: Seq<char>, occurrence: Option<u32>) -> Seq<char> {
    let base = path + seq!['#'] + kind_name(kind) + seq!['#'] + name;
    match occurrence {
        Some(i) => base + seq!['#'] + decimal(i as nat),
        None => base,
    }
}

/// What reading `id` as a symbol id gives: its path, kind text, name and
/// occurrence, from the first four `#`-separated pieces (the fourth holds
/// the rest); a fourth piece that is no `u32` is part of the name, which
/// then runs on to the end with its `#`.
pub open spec fn parse_symbol_id_text(id: Seq<char>) -> Option<(Seq<char>, Seq<char>, Seq<char>, Option<u32>)> {
    let parts = splitn(id, 4, seq!['#']);
    if parts.len() == 3 {
        Some((parts[0], parts[1], parts[2], None))
    } else if parts.len() == 4 {
        match parse_unsigned(parts[3], u32::MAX as nat) {
            Ok(v) => Some((parts[0], parts[1], parts[2], Some(v as u32))),
            Err(_) => Some((parts[0], parts[1], parts[2] + seq!['#'] + parts[3], None)),
        }
    } else {
        None
    }
}

/// Builds a symbol id: `path#kind#name` or `path#kind#name#N`.
pub fn build_symbol_id(path: &str, kind: &BlockKind, name: &str, occurrence: Option<u32>) -> (r: String)
    ensures
        r@ == symbol_id_text(path@, *kind, name@, occurrence),
{
    let mut v = chars_of(path);
    v.push('#');
    let k = chars_of(kind.as_str());
    extend_chars(&mut v, k.as_slice());
    v.push('#');
    let n = chars_of(name);
    extend_chars(&mut v, n.as_slice());
    match occurrence {
        Some(i) => {
            v.push('#');
            push_decimal(&mut v, i as u64);
        },
        None => {},
    }
    assert(v@ =~= symbol_id_text(path@, *kind, name@, occurrence));
    string_of(v.as_slice())
}

/// Parses a symbol id back into (path, kind text, name, occurrence).
pub fn parse_symbol_id(id: &str) -> (r: Option<(String, String, String, Option<u32>)>)
    ensures
        match r {
            Some((p, k, n, o)) => parse_symbol_id_text(id@) == Some((p@, k@, n@, o)),
            None => parse_symbol_id_text(id@) is None,
        },
{
    let cs = chars_of(id);
    let hash = vec!['#'];
    assert(hash@ =~= seq!['#']);
    let parts = splitn_exec(cs.as_slice(), 4, hash.as_slice());
    let ghost pv = parts.deep_view();
    if parts.len() == 3 {
        assert(parts[0]@ == pv[0] && parts[1]@ == pv[1] && parts[2]@ == pv[2]);
        Some((string_of(parts[0].as_slice()), string_of(parts[1].as_slice()), string_of(parts[2].as_slice()), None))
    } else if parts.len() == 4 {
        assert(parts[0]@ == pv[0] && parts[1]@ == pv[1] && parts[2]@ == pv[2] && parts[3]@ == pv[3]);
        match parse_unsigned_exec(parts[3].as_slice(), u32::MAX as u64) {
            Ok(v) => Some((
                string_of(parts[0].as_slice()),
                string_of(parts[1].as_slice()),
                string_of(parts[2].as_slice()),
                Some(v as u32),
            )),
            Err(_) => {
                let mut name = parts[2].clone();
                name.push('#');
                extend_chars(&mut name, parts[3].as_slice());
                assert(name@ =~= pv[2] + seq!['#'] + pv[3]);
                Some((string_of(parts[0].as_slice()), string_of(parts[1].as_slice()), string_of(name.as_slice()), None))
            },
        }
    } else {
        None
    }
}

/// Splitting `x#y` where `x` holds no `#`.
proof fn lemma_splitn_hash(x: Seq<char>, y: Seq<char>, n: nat)
    requires
        !x.contains('#'),
        n >= 2,
    ensures
        splitn(x + seq!['#'] + y, n, seq!['#']) == seq![x] + splitn(y, (n - 1) as nat, seq!['#']),
{
    lemma_find_char_after(x, '#', y);
    let s = x + seq!['#'] + y;
    assert(s.take(x.len() as int) =~= x);
    assert(s.skip(x.len() as int + 1) =~= y);
}

/// A piece with no `#` is split into itself.
proof fn lemma_splitn_plain(x: Seq<char>, n: nat)
    requires
        !x.contains('#'),
        n >= 1,
    ensures
        splitn(x, n, seq!['#']) == seq![x],
{
    lemma_find_char_none(x, '#');
}

/// Reading back a built symbol id gives its path, kind name, name and
/// occurrence, when neither path nor name holds `#`.
pub proof fn lemma_symbol_id_roundtrip(path: Seq<char>, kind: BlockKind, name: Seq<char>, occurrence: Option<u32>)
    requires
        !path.contains('#'),
        !name.contains('#'),
    ensures
        parse_symbol_id_text(symbol_id_text(path, kind, name, occurrence)) == Some(
            (path, kind_name(kind), name, occurrence),
        ),
{
    lemma_kind_name_roundtrip(kind);
    let k = kind_name(kind);
    let h = seq!['#'];
    match occurrence {
        Some(i) => {
            let d = decimal(i as nat);
            lemma_decimal_plain(i as nat);
            lemma_parse_decimal(i as nat, u32::MAX as nat);
            assert(symbol_id_text(path, kind, name, occurrence) =~= path + h + (k + h + (name + h + d)));
            lemma_splitn_hash(path, k + h + (name + h + d), 4);
            lemma_splitn_hash(k, name + h + d, 3);
            lemma_splitn_hash(name, d, 2);
            lemma_splitn_plain(d, 1);
            assert(splitn(symbol_id_text(path, kind, name, occurrence), 4, h) =~= seq![path, k, name, d]);
        },
        None => {
            assert(symbol_id_text(path, kind, name, occurrence) =~= path + h + (k + h + name));
            lemma_splitn_hash(path, k + h + name, 4);
            lemma_splitn_hash(k, name, 3);
            lemma_splitn_plain(name, 2);
            assert(splitn(symbol_id_text(path, kind, name, occurrence), 4, h) =~= seq![path, k, name]);
        },
    }
}

// ── Block ──

/// A code block as the index keeps it.
#[derive(Debug, Clone)]
pub struct Block {
    pub symbol_id: String,
    pub language: String,
    pub kind: BlockKind,
    pub name: String,
    pub path: String,
    pub range: Range,
    pub signature: Option<String>,
    pub doc: Option<String>,
    pub preview: String,
    pub strings: Vec<String>,
}

// ── Output meta ──

/// The meta tuple of a response: command, byte budget, bytes used,
/// whether output was truncated, and the cursor of the next page.
#[derive(Debug, Clone)]
pub struct Meta {
    pub cmd: String,
    pub max_bytes: u64,
    pub byte_count: u64,
    pub truncated: bool,
    pub next_cursor: Option<String>,
}

} // verus!
