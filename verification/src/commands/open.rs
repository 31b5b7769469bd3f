//! Reading blocks back: which lines a block covers, how a range argument
//! reads, and which blocks of a batch fit the byte budget.
use vstd::prelude::*;
use vstd::string::StringSliceAdditionalSpecFns;
use vstd::utf8::encode_utf8;

use crate::models::{lit_chars, parse_symbol_id, parse_symbol_id_text};
use crate::store::BlockRow;
use crate::num::{is_digit, is_digit_exec, lemma_parse_unsigned_bound, parse_unsigned, parse_unsigned_exec};
use crate::text::{
    chars_of, extend_chars, join, join_exec, lines, lines_exec, parts_range, rsplit_once, rsplit_once_exec,
    split, split_exec, string_of,
};

verus! {

/// What `open` is asked for.
pub struct OpenOpts {
    pub root: std::path::PathBuf,
    pub symbol: Option<String>,
    pub symbols: Option<Vec<String>>,
    pub range: Option<String>,
    pub preview_lines: usize,
    pub max_bytes: u64,
    pub fmt: String,
}

// ── Lines of a file ──

/// The lines `start..end` of `content` (`end` cut to the number of lines),
/// at most `max_lines` of them, joined by `\n`; nothing when `start` is
/// past the last line.
pub open spec fn excerpt_text(content: Seq<char>, start: int, end: int, max_lines: int) -> Option<Seq<char>> {
    let ls = lines(content);
    if start >= ls.len() {
        None
    } else {
        let stop = if end < ls.len() {
            end
        } else {
            ls.len() as int
        };
        Some(join(ls.subrange(start, stop).take(if max_lines < stop - start { max_lines } else { stop - start }), seq!['\n']))
    }
}

/// The lines `start..end` of `content`, at most `max_lines` of them, joined
/// by `\n`; `None` when `start` is past the last line. A range within the
/// file that ends before it starts is no range.
pub fn line_excerpt(content: &str, start: usize, end: usize, max_lines: usize) -> (r: Option<String>)
    requires
        start < lines(content@).len() ==> start <= end,
    ensures
        match r {
            Some(s) => excerpt_text(content@, start as int, end as int, max_lines as int) == Some(s@),
            None => excerpt_text(content@, start as int, end as int, max_lines as int) is None,
        },
{
    let c = chars_of(content);
    let ls = lines_exec(c.as_slice());
    let n = ls.len();
    if start >= n {
        return None;
    }
    let stop = if end < n {
        end
    } else {
        n
    };
    let count = if max_lines < stop - start {
        max_lines
    } else {
        stop - start
    };
    let part = parts_range(&ls, start, start + count);
    assert(part.deep_view() =~= ls.deep_view().subrange(start as int, stop as int).take(count as int));
    let nl = vec!['\n'];
    assert(nl@ =~= seq!['\n']);
    let j = join_exec(&part, nl.as_slice());
    Some(string_of(j.as_slice()))
}

// ── Range arguments ──

/// The line number in a `L:C` part: its `L` read as a `usize`, or `default`.
pub open spec fn line_of(part: Seq<char>, default: nat) -> nat {
    match parse_unsigned(split(part, seq![':'])[0], usize::MAX as nat) {
        Ok(v) => v,
        Err(_) => default,
    }
}

/// Whether `s` is a non-empty run of ASCII digits.
pub open spec fn is_digits(s: Seq<char>) -> bool {
    s.len() > 0 && forall|i: int| 0 <= i < s.len() ==> is_digit(#[trigger] s[i])
}

/// Whether `p` holds a character that cannot stand in a range (a digit,
/// `:` or `-`): what makes it a path.
pub open spec fn has_path_char(p: Seq<char>) -> bool {
    !(forall|i: int| 0 <= i < p.len() ==> #[trigger] is_digit(p[i]) || p[i] == ':' || p[i] == '-')
}

/// The start of a range argument, all that comes before its last `-`: the
/// path and the start line. In the form `path:L:C` (both last fields
/// digits) the path is all before those two fields; else the form is
/// `path:L`, the path all before the last `:`. The path holds a character
/// that cannot stand in a range.
pub open spec fn range_start(from: Seq<char>) -> Option<(Seq<char>, Seq<char>)> {
    match rsplit_once(from, ':') {
        Some((head, col)) => {
            let two = match rsplit_once(head, ':') {
                Some((path, line)) => if has_path_char(path) && is_digits(line) && is_digits(col) {
                    Some((path, line))
                } else {
                    None
                },
                None => None,
            };
            match two {
                Some(pl) => Some(pl),
                None => if has_path_char(head) {
                    Some((head, col))
                } else {
                    None
                },
            }
        },
        None => None,
    }
}

/// How `path:L:C-L:C` (or `path:L-L`) reads: the end `L:C` or `L` follows
/// the last `-`, the path and start line come before it (see
/// `range_start`). An unreadable start line is `0`, an unreadable end line
/// the start. Anything else does not read.
pub open spec fn parse_range_arg_spec(s: Seq<char>) -> Option<(Seq<char>, nat, nat)> {
    match rsplit_once(s, '-') {
        Some((from, to)) => match range_start(from) {
            Some((path, line)) => {
                let start = line_of(line, 0);
                Some((path, start, line_of(to, start)))
            },
            None => None,
        },
        None => None,
    }
}

/// The message for a range argument that does not read.
pub open spec fn bad_range_text(s: Seq<char>) -> Seq<char> {
    "Cannot parse range: "@ + s
}

/// The line number in a `L:C` part, or `default`.
fn line_of_exec(part: &[char], default: usize) -> (r: usize)
    ensures
        r == line_of(part@, default as nat),
{
    let colon = vec![':'];
    assert(colon@ =~= seq![':']);
    let pieces = split_exec(part, colon.as_slice());
    assert(pieces.deep_view().len() >= 1);
    assert(pieces@[0].deep_view() =~= pieces@[0]@);
    let res = parse_unsigned_exec(pieces[0].as_slice(), usize::MAX as u64);
    proof {
        lemma_parse_unsigned_bound(pieces@[0]@, usize::MAX as nat);
    }
    match res {
        Ok(v) => v as usize,
        Err(_) => default,
    }
}

/// Reads `path:L:C-L:C` into the path and the start and end lines (see
/// `parse_range_arg_spec`).
pub fn parse_range_arg(s: &str) -> (r: Result<(String, (usize, usize)), String>)
    ensures
        match r {
            Ok((p, (a, b))) => parse_range_arg_spec(s@) == Some((p@, a as nat, b as nat)),
            Err(m) => parse_range_arg_spec(s@) is None && m@ == bad_range_text(s@),
        },
{
    let c = chars_of(s);
    if let Some((from, to)) = rsplit_once_exec(c.as_slice(), '-') {
        if let Some((path, line)) = range_start_exec(from.as_slice()) {
            let start = line_of_exec(line.as_slice(), 0);
            let end = line_of_exec(to.as_slice(), start);
            return Ok((string_of(path.as_slice()), (start, end)));
        }
    }
    let mut m = lit_chars("Cannot parse range: ");
    extend_chars(&mut m, c.as_slice());
    Err(string_of(m.as_slice()))
}

/// Whether `s` is a non-empty run of ASCII digits.
fn is_digits_exec(s: &[char]) -> (r: bool)
    ensures
        r == is_digits(s@),
{
    if s.len() == 0 {
        return false;
    }
    let mut i: usize = 0;
    while i < s.len()
        invariant
            i <= s@.len(),
            forall|j: int| 0 <= j < i ==> is_digit(#[trigger] s@[j]),
        decreases s@.len() - i,
    {
        if !is_digit_exec(s[i]) {
            return false;
        }
        i = i + 1;
    }
    true
}

/// Whether `p` holds a character that cannot stand in a range.
fn has_path_char_exec(p: &[char]) -> (r: bool)
    ensures
        r == has_path_char(p@),
{
    let mut i: usize = 0;
    while i < p.len()
        invariant
            i <= p@.len(),
            forall|j: int| 0 <= j < i ==> #[trigger] is_digit(p@[j]) || p@[j] == ':' || p@[j] == '-',
        decreases p@.len() - i,
    {
        let c = p[i];
        if !(is_digit_exec(c) || c == ':' || c == '-') {
            assert(!(is_digit(p@[i as int]) || p@[i as int] == ':' || p@[i as int] == '-'));
            return true;
        }
        i = i + 1;
    }
    false
}

/// The path and start line of a range argument's start (see `range_start`).
fn range_start_exec(from: &[char]) -> (r: Option<(Vec<char>, Vec<char>)>)
    ensures
        match r {
            Some((p, l)) => range_start(from@) == Some((p@, l@)),
            None => range_start(from@) is None,
        },
{
    match rsplit_once_exec(from, ':') {
        Some((head, col)) => {
            if let Some((path, line)) = rsplit_once_exec(head.as_slice(), ':') {
                if has_path_char_exec(path.as_slice()) && is_digits_exec(line.as_slice()) && is_digits_exec(col.as_slice()) {
                    return Some((path, line));
                }
            }
            if has_path_char_exec(head.as_slice()) {
                Some((head, col))
            } else {
                None
            }
        },
        None => None,
    }
}

// ── Symbol ids the index no longer holds ──

/// What `open` answers for a symbol id that the index does not hold.
#[derive(Debug)]
pub enum StaleOutcome {
    /// No block fits: the error message, and what the recovery searches for.
    NotFound { message: String, query: String },
    /// Exactly one block fits: the candidate at `index`, opened instead,
    /// and the mapping from the id asked for to that block's id.
    Resolved { index: usize, from: String, to: String },
    /// Several blocks fit: the error message, and their symbol ids, in
    /// order, for the recovery to open.
    Ambiguous { message: String, ids: Vec<String> },
}

/// Decides the answer for a symbol id that the index does not hold, given
/// the blocks found under the path, kind and name that the id reads as
/// (none where it does not read). An id that does not read is not found,
/// and its recovery searches for the id itself; else no candidate means not
/// found, with a search for the name; one candidate is opened, the answer
/// mapping the old id to its id; several are ambiguous, with an open of all
/// their ids.
pub fn stale_symbol_outcome(symbol_id: &str, candidates: &[BlockRow]) -> (r: StaleOutcome)
    ensures
        match parse_symbol_id_text(symbol_id@) {
            None => (r matches StaleOutcome::NotFound { message, query }
                && message@ == "symbol_id '"@ + symbol_id@ + "' not found and cannot be parsed"@
                && query@ == symbol_id@),
            Some((_, _, name, _)) => if candidates@.len() == 0 {
                (r matches StaleOutcome::NotFound { message, query }
                    && message@ == "symbol_id '"@ + symbol_id@ + "' not found in current index"@
                    && query@ == name)
            } else if candidates@.len() == 1 {
                (r matches StaleOutcome::Resolved { index, from, to }
                    && index == 0
                    && from@ == symbol_id@
                    && to@ == candidates@[0].symbol_id@)
            } else {
                (r matches StaleOutcome::Ambiguous { message, ids }
                    && message@ == "Multiple candidates for '"@ + symbol_id@ + "'"@
                    && ids@.len() == candidates@.len()
                    && forall|i: int| 0 <= i < ids@.len() ==> #[trigger] ids@[i]@ == candidates@[i].symbol_id@)
            },
        },
{
    let id = chars_of(symbol_id);
    match parse_symbol_id(symbol_id) {
        None => {
            let mut m = lit_chars("symbol_id '");
            extend_chars(&mut m, id.as_slice());
            let tail = lit_chars("' not found and cannot be parsed");
            extend_chars(&mut m, tail.as_slice());
            StaleOutcome::NotFound { message: string_of(m.as_slice()), query: string_of(id.as_slice()) }
        },
        Some((_, _, name, _)) => {
            if candidates.len() == 0 {
                let mut m = lit_chars("symbol_id '");
                extend_chars(&mut m, id.as_slice());
                let tail = lit_chars("' not found in current index");
                extend_chars(&mut m, tail.as_slice());
                StaleOutcome::NotFound { message: string_of(m.as_slice()), query: name }
            } else if candidates.len() == 1 {
                StaleOutcome::Resolved { index: 0, from: string_of(id.as_slice()), to: candidates[0].symbol_id.clone() }
            } else {
                let mut m = lit_chars("Multiple candidates for '");
                extend_chars(&mut m, id.as_slice());
                m.push('\'');
                assert(m@ =~= "Multiple candidates for '"@ + symbol_id@ + "'"@) by {
                    reveal_strlit("'");
                }
                let mut ids: Vec<String> = Vec::new();
                let mut i: usize = 0;
                while i < candidates.len()
                    invariant
                        i <= candidates@.len(),
                        ids@.len() == i,
                        forall|j: int| 0 <= j < i ==> #[trigger] ids@[j]@ == candidates@[j].symbol_id@,
                    decreases candidates@.len() - i,
                {
                    ids.push(candidates[i].symbol_id.clone());
                    i = i + 1;
                }
                StaleOutcome::Ambiguous { message: string_of(m.as_slice()), ids }
            }
        },
    }
}

// ── Batches under a byte budget ──

/// The bytes taken after the first `n` excerpts of a batch: each readable
/// one is taken when it still fits within `max` bytes, in order.
pub open spec fn batch_total(lens: Seq<Option<nat>>, max: nat, n: int) -> nat
    decreases n,
{
    if n <= 0 {
        0
    } else {
        let t = batch_total(lens, max, n - 1);
        match lens[n - 1] {
            Some(l) => if t + l > max {
                t
            } else {
                t + l
            },
            None => t,
        }
    }
}

/// Whether excerpt `i` of a batch is taken.
pub open spec fn batch_takes(lens: Seq<Option<nat>>, max: nat, i: int) -> bool {
    match lens[i] {
        Some(l) => batch_total(lens, max, i) + l <= max,
        None => false,
    }
}

/// What a batch gives back: the excerpts it shows, those it leaves for
/// later (unreadable, or past the budget), both as indices in order, and
/// the bytes it shows.
#[derive(Debug, Clone)]
pub struct BatchPlan {
    pub included: Vec<usize>,
    pub remaining: Vec<usize>,
    pub byte_count: u64,
}

/// Which excerpts of a batch fit `max_bytes` (`lens[i]` the UTF-8 length of
/// excerpt `i`, `None` when it could not be read), taken greedily in order.
pub fn plan_batch(lens: &[Option<u64>], max_bytes: u64) -> (r: BatchPlan)
    ensures
        ({
            let lv = lens@.map_values(|l: Option<u64>| match l {
                Some(x) => Some(x as nat),
                None => None::<nat>,
            });
            &&& r.byte_count == batch_total(lv, max_bytes as nat, lv.len() as int)
            &&& r.byte_count <= max_bytes
            &&& forall|k: int| 0 <= k < r.included@.len() ==> (#[trigger] r.included@[k]) < lv.len()
            &&& forall|k: int| 0 <= k < r.remaining@.len() ==> (#[trigger] r.remaining@[k]) < lv.len()
            &&& forall|i: int| 0 <= i < lv.len() ==> (batch_takes(lv, max_bytes as nat, i) <==> r.included@.contains(i as usize))
            &&& forall|i: int| 0 <= i < lv.len() ==> (!batch_takes(lv, max_bytes as nat, i) <==> r.remaining@.contains(i as usize))
            &&& forall|a: int, b: int| 0 <= a < b < r.included@.len() ==> r.included@[a] < r.included@[b]
            &&& forall|a: int, b: int| 0 <= a < b < r.remaining@.len() ==> r.remaining@[a] < r.remaining@[b]
        }),
{
    let ghost lv = lens@.map_values(|l: Option<u64>| match l {
        Some(x) => Some(x as nat),
        None => None::<nat>,
    });
    let ghost max = max_bytes as nat;
    let mut included: Vec<usize> = Vec::new();
    let mut remaining: Vec<usize> = Vec::new();
    let mut total: u64 = 0;
    let mut i: usize = 0;
    while i < lens.len()
        invariant
            i <= lens@.len(),
            lv.len() == lens@.len(),
            forall|q: int| 0 <= q < lens@.len() ==> #[trigger] lv[q] == (match lens@[q] {
                Some(x) => Some(x as nat),
                None => None::<nat>,
            }),
            max == max_bytes as nat,
            total == batch_total(lv, max, i as int),
            total <= max_bytes,
            forall|k: int| 0 <= k < included@.len() ==> (#[trigger] included@[k]) < i,
            forall|k: int| 0 <= k < remaining@.len() ==> (#[trigger] remaining@[k]) < i,
            forall|q: int| 0 <= q < i ==> (batch_takes(lv, max, q) <==> included@.contains(q as usize)),
            forall|q: int| 0 <= q < i ==> (!batch_takes(lv, max, q) <==> remaining@.contains(q as usize)),
            forall|a: int, b: int| 0 <= a < b < included@.len() ==> included@[a] < included@[b],
            forall|a: int, b: int| 0 <= a < b < remaining@.len() ==> remaining@[a] < remaining@[b],
        decreases lens@.len() - i,
    {
        let ghost li = lv[i as int];
        let ghost oi = included@;
        let ghost orm = remaining@;
        match lens[i] {
            Some(l) => {
                if (total as u128) + (l as u128) > (max_bytes as u128) {
                    remaining.push(i);
                    assert(!batch_takes(lv, max, i as int));
                } else {
                    total = total + l;
                    included.push(i);
                    assert(batch_takes(lv, max, i as int));
                }
            },
            None => {
                remaining.push(i);
            },
        }
        assert forall|q: int| 0 <= q <= i implies (batch_takes(lv, max, q) <==> included@.contains(q as usize)) by {
            if q < i {
                if included@.contains(q as usize) && !oi.contains(q as usize) {
                    let k = choose|k: int| 0 <= k < included@.len() && included@[k] == q as usize;
                    assert(k == oi.len());
                }
                if oi.contains(q as usize) {
                    let k = choose|k: int| 0 <= k < oi.len() && oi[k] == q as usize;
                    assert(included@[k] == q as usize);
                }
            } else {
                if included@.contains(q as usize) && !batch_takes(lv, max, q) {
                    let k = choose|k: int| 0 <= k < included@.len() && included@[k] == q as usize;
                    assert(k < oi.len() ==> oi[k] < i);
                }
                if batch_takes(lv, max, q) {
                    assert(included@[oi.len() as int] == i);
                }
            }
        }
        assert forall|q: int| 0 <= q <= i implies (!batch_takes(lv, max, q) <==> remaining@.contains(q as usize)) by {
            if q < i {
                if remaining@.contains(q as usize) && !orm.contains(q as usize) {
                    let k = choose|k: int| 0 <= k < remaining@.len() && remaining@[k] == q as usize;
                    assert(k == orm.len());
                }
                if orm.contains(q as usize) {
                    let k = choose|k: int| 0 <= k < orm.len() && orm[k] == q as usize;
                    assert(remaining@[k] == q as usize);
                }
            } else {
                if remaining@.contains(q as usize) && batch_takes(lv, max, q) {
                    let k = choose|k: int| 0 <= k < remaining@.len() && remaining@[k] == q as usize;
                    assert(k < orm.len() ==> orm[k] < i);
                }
                if !batch_takes(lv, max, q) {
                    assert(remaining@[orm.len() as int] == i);
                }
            }
        }
        i = i + 1;
    }
    BatchPlan { included, remaining, byte_count: total }
}

/// The UTF-8 length of each excerpt of a batch, `None` where it is missing.
pub fn excerpt_byte_lens(excerpts: &[Option<String>]) -> (r: Vec<Option<u64>>)
    ensures
        r@.len() == excerpts@.len(),
        forall|i: int| 0 <= i < excerpts@.len() ==> (#[trigger] r@[i]) == (match excerpts@[i] {
            Some(s) => Some(encode_utf8(s@).len() as u64),
            None => None::<u64>,
        }),
{
    let mut r: Vec<Option<u64>> = Vec::new();
    let mut i: usize = 0;
    while i < excerpts.len()
        invariant
            i <= excerpts@.len(),
            r@.len() == i,
            forall|q: int| 0 <= q < i ==> (#[trigger] r@[q]) == (match excerpts@[q] {
                Some(s) => Some(encode_utf8(s@).len() as u64),
                None => None::<u64>,
            }),
        decreases excerpts@.len() - i,
    {
        match &excerpts[i] {
            Some(s) => {
                let t = s.as_str();
                let n = t.as_bytes().len();
                assert(n == t.spec_bytes().len());
                r.push(Some(n as u64));
            },
            None => {
                r.push(None);
            },
        }
        i = i + 1;
    }
    r
}

} // verus!
