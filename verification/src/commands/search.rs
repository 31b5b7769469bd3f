//! Searching: what a page cursor says, which fields of a hit matched the
//! query, and the short preview shown with it.
use vstd::prelude::*;
use vstd::string::StringSliceAdditionalSpecFns;

use crate::lang::{lowercase, to_lowercase};
use crate::models::lit_string;
use crate::text::{chars_of, find, find_exec, join, join_exec, lines, lines_exec, parts_range, string_of};

verus! {

/// What `search` is asked for.
pub struct SearchOpts {
    pub root: std::path::PathBuf,
    pub query: String,
    pub limit: usize,
    pub path_filter: Option<String>,
    pub lang_filter: Option<String>,
    pub max_bytes: u64,
    pub cursor: Option<String>,
    pub fmt: String,
}

// ── Cursors ──

/// The value of a base64 digit (`A`-`Z`, `a`-`z`, `0`-`9`, `+`, `/`).
pub open spec fn b64_value(b: u8) -> Option<nat> {
    if 65 <= b <= 90 {
        Some((b - 65) as nat)
    } else if 97 <= b <= 122 {
        Some((b - 71) as nat)
    } else if 48 <= b <= 57 {
        Some((b + 4) as nat)
    } else if b == 43 {
        Some(62)
    } else if b == 47 {
        Some(63)
    } else {
        None
    }
}

/// Two to the power `k`.
pub open spec fn p2(k: nat) -> nat
    decreases k,
{
    if k == 0 {
        1
    } else {
        2 * p2((k - 1) as nat)
    }
}

/// Decoding `bytes[i..]` with `bits` pending bits of value `buf` and `out`
/// decoded so far: each digit adds six bits, each full byte is emitted,
/// decoding stops at `=`, and a byte that is no digit spoils the whole.
pub open spec fn b64_from(bytes: Seq<u8>, i: int, buf: nat, bits: nat, out: Seq<u8>) -> Option<Seq<u8>>
    decreases bytes.len() - i,
{
    if i < 0 || i >= bytes.len() || bytes[i] == 61 {
        Some(out)
    } else {
        match b64_value(bytes[i]) {
            None => None,
            Some(v) => {
                let b = buf * 64 + v;
                if bits + 6 >= 8 {
                    let k = (bits + 6 - 8) as nat;
                    b64_from(bytes, i + 1, b % p2(k), k, out.push((b / p2(k)) as u8))
                } else {
                    b64_from(bytes, i + 1, b, bits + 6, out)
                }
            },
        }
    }
}

/// The bytes that base64 text decodes to (no padding needed); `None` when
/// a character before any `=` is no base64 digit.
pub open spec fn b64_decode_spec(bytes: Seq<u8>) -> Option<Seq<u8>> {
    b64_from(bytes, 0, 0, 0, seq![])
}

/// The value of a base64 digit.
fn b64_value_exec(b: u8) -> (r: Option<u32>)
    ensures
        match r {
            Some(v) => b64_value(b) == Some(v as nat),
            None => b64_value(b) is None,
        },
{
    if 65 <= b && b <= 90 {
        Some((b - 65) as u32)
    } else if 97 <= b && b <= 122 {
        Some((b - 71) as u32)
    } else if 48 <= b && b <= 57 {
        Some((b + 4) as u32)
    } else if b == 43 {
        Some(62)
    } else if b == 47 {
        Some(63)
    } else {
        None
    }
}

/// Decodes base64 text (no padding needed): see `b64_decode_spec`.
pub fn base64_decode(input: &str) -> (r: Option<Vec<u8>>)
    ensures
        match r {
            Some(v) => b64_decode_spec(input.spec_bytes()) == Some(v@),
            None => b64_decode_spec(input.spec_bytes()) is None,
        },
{
    let bytes = input.as_bytes();
    let ghost bv = input.spec_bytes();
    let mut out: Vec<u8> = Vec::new();
    let mut buf: u32 = 0;
    let mut bits: u32 = 0;
    let mut i: usize = 0;
    assert(p2(0) == 1);
    assert(p2(2) == 4) by {
        reveal_with_fuel(p2, 3);
    }
    assert(p2(4) == 16) by {
        reveal_with_fuel(p2, 5);
    }
    assert(p2(6) == 64) by {
        reveal_with_fuel(p2, 7);
    }
    while i < bytes.len()
        invariant
            bv == bytes@,
            bv == input.spec_bytes(),
            i <= bv.len(),
            bits == 0 || bits == 2 || bits == 4 || bits == 6,
            buf < p2(bits as nat),
            p2(0) == 1 && p2(2) == 4 && p2(4) == 16 && p2(6) == 64,
            b64_decode_spec(bv) == b64_from(bv, i as int, buf as nat, bits as nat, out@),
        decreases bv.len() - i,
    {
        let b = bytes[i];
        assert(bv[i as int] == b);
        if b == 61 {
            assert(b64_from(bv, i as int, buf as nat, bits as nat, out@) == Some(out@));
            return Some(out);
        }
        let v = match b64_value_exec(b) {
            Some(v) => v,
            None => {
                assert(b64_from(bv, i as int, buf as nat, bits as nat, out@) is None);
                return None;
            },
        };
        let nb = buf * 64 + v;
        if bits + 6 >= 8 {
            let k = bits + 6 - 8;
            let pk: u32 = if k == 0 {
                1
            } else if k == 2 {
                4
            } else {
                16
            };
            assert(pk == p2(k as nat));
            assert(nb < 256 * pk) by (nonlinear_arith)
                requires
                    nb == buf * 64 + v,
                    v < 64,
                    buf < p2(bits as nat),
                    bits + 6 == k + 8,
                    (k == 0 && pk == 1 && p2(bits as nat) == 4) || (k == 2 && pk == 4 && p2(bits as nat) == 16) || (k == 4 && pk == 16 && p2(bits as nat) == 64),
            ;
            assert(nb / pk < 256) by (nonlinear_arith)
                requires
                    nb < 256 * pk,
                    pk > 0,
            ;
            out.push((nb / pk) as u8);
            buf = nb % pk;
            bits = k;
        } else {
            buf = nb;
            bits = bits + 6;
        }
        i = i + 1;
    }
    Some(out)
}

/// What `serde_json` reads as the unsigned integer under `"g"` in the
/// JSON object `bytes`; `None` when the bytes are no JSON, no object with
/// such a field, or the field is no unsigned integer.
pub uninterp spec fn json_generation_of(bytes: Seq<u8>) -> Option<u64>;

/// Reads the generation field `g` of a JSON object
/// (`serde_json::from_slice`, then `Value::get` and `Value::as_u64`), a
/// function of the bytes alone.
#[verifier::external_body]
fn json_generation(bytes: &[u8]) -> (r: Option<u64>)
    ensures
        r == json_generation_of(bytes@),
{
    let value: serde_json::Value = serde_json::from_slice(bytes).ok()?;
    value.get("g")?.as_u64()
}

/// The index generation a page cursor was made for: the cursor is base64
/// of a JSON object whose `g` field holds it.
pub fn parse_cursor_generation(cursor: &str) -> (r: Option<u64>)
    ensures
        r == (match b64_decode_spec(cursor.spec_bytes()) {
            Some(d) => json_generation_of(d),
            None => None,
        }),
{
    match base64_decode(cursor) {
        Some(d) => json_generation(d.as_slice()),
        None => None,
    }
}

/// Whether a page cursor is stale: it names an index generation other
/// than `generation`. A cursor that does not read is not stale.
pub fn cursor_is_stale(cursor: &str, generation: u64) -> (r: bool)
    ensures
        r == (match b64_decode_spec(cursor.spec_bytes()) {
            Some(d) => json_generation_of(d) matches Some(g) && g != generation,
            None => false,
        }),
{
    match parse_cursor_generation(cursor) {
        Some(g) => g != generation,
        None => false,
    }
}

// ── Hits ──

/// A labelled piece of a hit's match list: the label when `cond` holds.
pub open spec fn label_if(cond: bool, label: Seq<char>) -> Seq<Seq<char>> {
    if cond {
        seq![label]
    } else {
        seq![]
    }
}

/// A piece holds `x` exactly when its condition holds and `x` is its label.
proof fn lemma_label_if_contains(cond: bool, label: Seq<char>, x: Seq<char>)
    ensures
        label_if(cond, label).contains(x) <==> (cond && x == label),
{
    if cond && x == label {
        assert(label_if(cond, label)[0] == x);
    }
}

/// Five pieces joined hold `x` exactly when one of them does.
proof fn lemma_five_contains(a: Seq<Seq<char>>, b: Seq<Seq<char>>, c: Seq<Seq<char>>, d: Seq<Seq<char>>, e: Seq<Seq<char>>, x: Seq<char>)
    ensures
        (a + b + c + d + e).contains(x) <==> (a.contains(x) || b.contains(x) || c.contains(x) || d.contains(x) || e.contains(x)),
{
    vstd::seq_lib::lemma_seq_concat_contains_all_elements(a, b, x);
    vstd::seq_lib::lemma_seq_concat_contains_all_elements(a + b, c, x);
    vstd::seq_lib::lemma_seq_concat_contains_all_elements(a + b + c, d, x);
    vstd::seq_lib::lemma_seq_concat_contains_all_elements(a + b + c + d, e, x);
}

/// Why a hit matched, field by field: the list names `name`, `doc`,
/// `str`, `path` or `sig` exactly when that field (name, doc comment,
/// string literals, path, signature), lower-cased, holds the lower-cased
/// query, and `preview` exactly when none of them does; so a hit found
/// through its string literals reports `str`, and never `preview`.
pub proof fn lemma_matched_fields_report(
    query: Seq<char>,
    name: Seq<char>,
    doc: Seq<char>,
    strings: Seq<char>,
    path: Seq<char>,
    signature: Seq<char>,
)
    ensures
        ({
            let r = matched_fields_spec(query, name, doc, strings, path, signature);
            let q = lowercase(query);
            let hn = find(lowercase(name), q) is Some;
            let hd = find(lowercase(doc), q) is Some;
            let hs = find(lowercase(strings), q) is Some;
            let hp = find(lowercase(path), q) is Some;
            let hg = find(lowercase(signature), q) is Some;
            &&& r.contains("name"@) <==> hn
            &&& r.contains("doc"@) <==> hd
            &&& r.contains("str"@) <==> hs
            &&& r.contains("path"@) <==> hp
            &&& r.contains("sig"@) <==> hg
            &&& r.contains("preview"@) <==> !(hn || hd || hs || hp || hg)
        }),
{
    reveal_strlit("name");
    reveal_strlit("doc");
    reveal_strlit("str");
    reveal_strlit("path");
    reveal_strlit("sig");
    reveal_strlit("preview");
    let labels = seq!["name"@, "doc"@, "str"@, "path"@, "sig"@, "preview"@];
    assert forall|i: int, j: int| 0 <= i < 6 && 0 <= j < 6 && i != j implies labels[i] != labels[j] by {
        assert(labels[i].len() != labels[j].len() || labels[i][0] != labels[j][0] || labels[i][1] != labels[j][1]);
    }
    let q = lowercase(query);
    let hn = find(lowercase(name), q) is Some;
    let hd = find(lowercase(doc), q) is Some;
    let hs = find(lowercase(strings), q) is Some;
    let hp = find(lowercase(path), q) is Some;
    let hg = find(lowercase(signature), q) is Some;
    let a = label_if(hn, "name"@);
    let b = label_if(hd, "doc"@);
    let c = label_if(hs, "str"@);
    let d = label_if(hp, "path"@);
    let e = label_if(hg, "sig"@);
    let m = a + b + c + d + e;
    assert(matched_fields_spec(query, name, doc, strings, path, signature) == if m.len() == 0 {
        seq!["preview"@]
    } else {
        m
    });
    assert forall|k: int| 0 <= k < 6 implies (#[trigger] m.contains(labels[k])) <==> (a.contains(labels[k]) || b.contains(labels[k])
        || c.contains(labels[k]) || d.contains(labels[k]) || e.contains(labels[k])) by {
        lemma_five_contains(a, b, c, d, e, labels[k]);
    }
    assert forall|k: int| 0 <= k < 6 implies {
        &&& (#[trigger] labels[k]) == labels[k]
        &&& a.contains(labels[k]) <==> (hn && labels[k] == "name"@)
        &&& b.contains(labels[k]) <==> (hd && labels[k] == "doc"@)
        &&& c.contains(labels[k]) <==> (hs && labels[k] == "str"@)
        &&& d.contains(labels[k]) <==> (hp && labels[k] == "path"@)
        &&& e.contains(labels[k]) <==> (hg && labels[k] == "sig"@)
    } by {
        lemma_label_if_contains(hn, "name"@, labels[k]);
        lemma_label_if_contains(hd, "doc"@, labels[k]);
        lemma_label_if_contains(hs, "str"@, labels[k]);
        lemma_label_if_contains(hp, "path"@, labels[k]);
        lemma_label_if_contains(hg, "sig"@, labels[k]);
    }
    assert(m.len() == a.len() + b.len() + c.len() + d.len() + e.len());
    assert(m.len() == 0 <==> !(hn || hd || hs || hp || hg));
    assert(seq!["preview"@].contains("preview"@)) by {
        assert(seq!["preview"@][0] == "preview"@);
    }
    assert forall|k: int| 0 <= k < 5 implies !(#[trigger] seq!["preview"@].contains(labels[k])) by {
        if seq!["preview"@].contains(labels[k]) {
            let j = choose|j: int| 0 <= j < 1 && seq!["preview"@][j] == labels[k];
            assert(labels[k] == labels[5]);
        }
    }
    assert(labels[0] == "name"@ && labels[1] == "doc"@ && labels[2] == "str"@ && labels[3] == "path"@ && labels[4] == "sig"@ && labels[5] == "preview"@);
}

/// Whether `hay` holds `needle`, both lower-cased.
pub open spec fn holds_lower(hay: Seq<char>, needle: Seq<char>) -> bool {
    find(lowercase(hay), lowercase(needle)) is Some
}

/// The fields of a hit that hold the query, ignoring case, in the order
/// name, doc, strings, path, signature; `preview` when none does.
pub open spec fn matched_fields_spec(
    query: Seq<char>,
    name: Seq<char>,
    doc: Seq<char>,
    strings: Seq<char>,
    path: Seq<char>,
    signature: Seq<char>,
) -> Seq<Seq<char>> {
    let m = (if holds_lower(name, query) { seq!["name"@] } else { seq![] })
        + (if holds_lower(doc, query) { seq!["doc"@] } else { seq![] })
        + (if holds_lower(strings, query) { seq!["str"@] } else { seq![] })
        + (if holds_lower(path, query) { seq!["path"@] } else { seq![] })
        + (if holds_lower(signature, query) { seq!["sig"@] } else { seq![] });
    if m.len() == 0 {
        seq!["preview"@]
    } else {
        m
    }
}

/// Whether `hay` holds `needle`, both lower-cased.
fn holds_lower_exec(hay: &str, needle: &str) -> (r: bool)
    ensures
        r == holds_lower(hay@, needle@),
{
    let h = to_lowercase(hay);
    let n = to_lowercase(needle);
    let hc = chars_of(h.as_str());
    let nc = chars_of(n.as_str());
    find_exec(hc.as_slice(), nc.as_slice()).is_some()
}

/// The fields of a hit that hold the query (see `matched_fields_spec`).
pub fn matched_fields(query: &str, name: &str, doc: &str, strings: &str, path: &str, signature: &str) -> (r: Vec<String>)
    ensures
        r.deep_view() == matched_fields_spec(query@, name@, doc@, strings@, path@, signature@),
{
    let mut r: Vec<String> = Vec::new();
    let ghost mut want: Seq<Seq<char>> = seq![];
    if holds_lower_exec(name, query) {
        r.push(lit_string("name"));
    }
    proof {
        want = if holds_lower(name@, query@) { seq!["name"@] } else { seq![] };
    }
    assert(r.deep_view() =~= want);
    if holds_lower_exec(doc, query) {
        r.push(lit_string("doc"));
    }
    proof {
        want = want + if holds_lower(doc@, query@) { seq!["doc"@] } else { seq![] };
    }
    assert(r.deep_view() =~= want);
    if holds_lower_exec(strings, query) {
        r.push(lit_string("str"));
    }
    proof {
        want = want + if holds_lower(strings@, query@) { seq!["str"@] } else { seq![] };
    }
    assert(r.deep_view() =~= want);
    if holds_lower_exec(path, query) {
        r.push(lit_string("path"));
    }
    proof {
        want = want + if holds_lower(path@, query@) { seq!["path"@] } else { seq![] };
    }
    assert(r.deep_view() =~= want);
    if holds_lower_exec(signature, query) {
        r.push(lit_string("sig"));
    }
    proof {
        want = want + if holds_lower(signature@, query@) { seq!["sig"@] } else { seq![] };
    }
    assert(r.deep_view() =~= want);
    if r.len() == 0 {
        r.push(lit_string("preview"));
        assert(r.deep_view() =~= seq!["preview"@]);
    }
    r
}

/// The first three lines of a preview, joined by `\n`.
pub open spec fn preview_head_text(preview: Seq<char>) -> Seq<char> {
    let ls = lines(preview);
    join(ls.take(if ls.len() < 3 { ls.len() as int } else { 3 }), seq!['\n'])
}

/// The first three lines of a preview, as a hit shows them.
pub fn preview_head(preview: &str) -> (r: String)
    ensures
        r@ == preview_head_text(preview@),
{
    let c = chars_of(preview);
    let ls = lines_exec(c.as_slice());
    let n = if ls.len() < 3 {
        ls.len()
    } else {
        3
    };
    let head = parts_range(&ls, 0, n);
    assert(head.deep_view() =~= ls.deep_view().take(n as int));
    let nl = vec!['\n'];
    assert(nl@ =~= seq!['\n']);
    let j = join_exec(&head, nl.as_slice());
    string_of(j.as_slice())
}

} // verus!
