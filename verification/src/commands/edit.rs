//! Replacing a range of lines in a file, and the escapes that content
//! written on the command line may use.
use vstd::prelude::*;

use crate::models::lit_chars;
use crate::num::{
    decimal, lemma_parse_unsigned_bound, parse_unsigned, parse_unsigned_exec, push_decimal, IntErrorKind,
};
use crate::text::{
    chars_of, ends_with, ends_with_exec, extend_chars, lines, lines_exec, replace, replace_exec,
    split, split_exec, string_of, trim, trim_exec, trim_start_matches, trim_start_matches_exec,
};

verus! {

/// What `edit` is asked for.
pub struct EditOpts {
    pub file: String,
    pub range: String,
    pub content: Option<String>,
    pub content_file: Option<String>,
    pub dry_run: bool,
}

/// What `write` is asked for.
pub struct WriteOpts {
    pub file: String,
    pub content: Option<String>,
    pub content_file: Option<String>,
    pub dry_run: bool,
}

// ── Line ranges ──

/// A line number as written in a range: leading `L`s, then leading `l`s,
/// dropped, the rest read as a `usize`.
pub open spec fn range_line(s: Seq<char>) -> Result<nat, IntErrorKind> {
    parse_unsigned(trim_start_matches(trim_start_matches(s, seq!['L']), seq!['l']), usize::MAX as nat)
}

/// How `L10-L15` (or `10-15`) reads: first and last line, 1-based and
/// inclusive, or the message refusing it.
pub open spec fn parse_range_spec(range: Seq<char>) -> Result<(nat, nat), Seq<char>> {
    let r = trim(range);
    let parts = split(r, seq!['-']);
    if parts.len() != 2 {
        Err("Invalid range format: '"@ + r + "'. Expected: L10-L15 or 10-15"@)
    } else {
        match range_line(parts[0]) {
            Err(_) => Err("Invalid start line: '"@ + parts[0] + "'"@),
            Ok(start) => match range_line(parts[1]) {
                Err(_) => Err("Invalid end line: '"@ + parts[1] + "'"@),
                Ok(end) => if start == 0 || end == 0 {
                    Err("Line numbers are 1-based, got: "@ + decimal(start) + "-"@ + decimal(end))
                } else if start > end {
                    Err("Start line ("@ + decimal(start) + ") must be <= end line ("@ + decimal(end) + ")"@)
                } else {
                    Ok((start, end))
                },
            },
        }
    }
}

/// A line number as written in a range.
fn range_line_exec(s: &[char]) -> (r: Result<usize, IntErrorKind>)
    ensures
        match r {
            Ok(v) => range_line(s@) == Ok::<nat, IntErrorKind>(v as nat),
            Err(e) => range_line(s@) == Err::<nat, IntErrorKind>(e),
        },
{
    let upper = vec!['L'];
    let lower = vec!['l'];
    assert(upper@ =~= seq!['L']);
    assert(lower@ =~= seq!['l']);
    let a = trim_start_matches_exec(s, upper.as_slice());
    let b = trim_start_matches_exec(a.as_slice(), lower.as_slice());
    let r = parse_unsigned_exec(b.as_slice(), usize::MAX as u64);
    proof {
        lemma_parse_unsigned_bound(b@, usize::MAX as nat);
    }
    match r {
        Ok(v) => Ok(v as usize),
        Err(e) => Err(e),
    }
}

/// Reads a line range `L10-L15` or `10-15` (1-based, inclusive).
pub fn parse_range(range: &str) -> (r: Result<(usize, usize), String>)
    ensures
        match r {
            Ok((a, b)) => parse_range_spec(range@) == Ok::<(nat, nat), Seq<char>>((a as nat, b as nat)),
            Err(m) => parse_range_spec(range@) == Err::<(nat, nat), Seq<char>>(m@),
        },
{
    let c = chars_of(range);
    let t = trim_exec(c.as_slice());
    let dash = vec!['-'];
    assert(dash@ =~= seq!['-']);
    let parts = split_exec(t.as_slice(), dash.as_slice());
    if parts.len() != 2 {
        let mut m = lit_chars("Invalid range format: '");
        extend_chars(&mut m, t.as_slice());
        extend_chars(&mut m, lit_chars("'. Expected: L10-L15 or 10-15").as_slice());
        return Err(string_of(m.as_slice()));
    }
    assert(parts@[0].deep_view() =~= parts@[0]@);
    assert(parts@[1].deep_view() =~= parts@[1]@);
    let start = match range_line_exec(parts[0].as_slice()) {
        Ok(v) => v,
        Err(_) => {
            let mut m = lit_chars("Invalid start line: '");
            extend_chars(&mut m, parts[0].as_slice());
            extend_chars(&mut m, lit_chars("'").as_slice());
            return Err(string_of(m.as_slice()));
        },
    };
    let end = match range_line_exec(parts[1].as_slice()) {
        Ok(v) => v,
        Err(_) => {
            let mut m = lit_chars("Invalid end line: '");
            extend_chars(&mut m, parts[1].as_slice());
            extend_chars(&mut m, lit_chars("'").as_slice());
            return Err(string_of(m.as_slice()));
        },
    };
    if start == 0 || end == 0 {
        let mut m = lit_chars("Line numbers are 1-based, got: ");
        push_decimal(&mut m, start as u64);
        extend_chars(&mut m, lit_chars("-").as_slice());
        push_decimal(&mut m, end as u64);
        return Err(string_of(m.as_slice()));
    }
    if start > end {
        let mut m = lit_chars("Start line (");
        push_decimal(&mut m, start as u64);
        extend_chars(&mut m, lit_chars(") must be <= end line (").as_slice());
        push_decimal(&mut m, end as u64);
        extend_chars(&mut m, lit_chars(")").as_slice());
        return Err(string_of(m.as_slice()));
    }
    Ok((start, end))
}

// ── Content ──

/// Content as written on the command line: `\n` read as a newline, then
/// `\t` as a tab.
pub open spec fn unescape_text(s: Seq<char>) -> Seq<char> {
    replace(replace(s, seq!['\\', 'n'], seq!['\n']), seq!['\\', 't'], seq!['\t'])
}

/// Reads the escapes `\n` and `\t` in content given on the command line.
pub fn unescape_content(s: &str) -> (r: String)
    ensures
        r@ == unescape_text(s@),
{
    let c = chars_of(s);
    let bn = vec!['\\', 'n'];
    let nl = vec!['\n'];
    let bt = vec!['\\', 't'];
    let tab = vec!['\t'];
    assert(bn@ =~= seq!['\\', 'n']);
    assert(nl@ =~= seq!['\n']);
    assert(bt@ =~= seq!['\\', 't']);
    assert(tab@ =~= seq!['\t']);
    let a = replace_exec(c.as_slice(), bn.as_slice(), nl.as_slice());
    let b = replace_exec(a.as_slice(), bt.as_slice(), tab.as_slice());
    string_of(b.as_slice())
}

/// The lines in order, each followed by `\n`.
pub open spec fn with_newlines(ls: Seq<Seq<char>>) -> Seq<char>
    decreases ls.len(),
{
    if ls.len() == 0 {
        seq![]
    } else {
        with_newlines(ls.drop_last()) + ls.last() + seq!['\n']
    }
}

/// The file after an edit: the lines before `start`, the new content (with
/// a final newline added if it has none), the lines after `end`, each line
/// ended by a newline; then a final newline dropped when the original had
/// none. `end` is cut to the number of lines.
pub open spec fn splice_text(original: Seq<char>, start: nat, end: nat, content: Seq<char>) -> Seq<char> {
    let ls = lines(original);
    let stop = if end < ls.len() {
        end as int
    } else {
        ls.len() as int
    };
    let body = with_newlines(ls.take(start - 1)) + content + (if ends_with(content, seq!['\n']) {
        seq![]
    } else {
        seq!['\n']
    }) + with_newlines(ls.skip(stop));
    if !ends_with(original, seq!['\n']) && ends_with(body, seq!['\n']) {
        body.drop_last()
    } else {
        body
    }
}

/// Lines `i..j` of `ls`, each followed by `\n`, added to `out`.
fn push_lines(out: &mut Vec<char>, ls: &Vec<Vec<char>>, i: usize, j: usize)
    requires
        i <= j <= ls@.len(),
    ensures
        final(out)@ == old(out)@ + with_newlines(ls.deep_view().subrange(i as int, j as int)),
{
    let ghost lv = ls.deep_view();
    let mut k: usize = i;
    assert(lv.subrange(i as int, i as int) =~= Seq::<Seq<char>>::empty());
    while k < j
        invariant
            i <= k <= j <= ls@.len(),
            lv == ls.deep_view(),
            out@ == old(out)@ + with_newlines(lv.subrange(i as int, k as int)),
        decreases j - k,
    {
        assert(ls@[k as int].deep_view() =~= ls@[k as int]@);
        extend_chars(out, ls[k].as_slice());
        out.push('\n');
        assert(lv.subrange(i as int, k + 1).drop_last() =~= lv.subrange(i as int, k as int));
        assert(lv.subrange(i as int, k + 1).last() == lv[k as int]);
        k = k + 1;
    }
}

/// The file `original` with lines `start..=end` (1-based) replaced by
/// `content` (see `splice_text`). A start past the last line is refused,
/// with the message saying so.
pub fn splice_lines(original: &str, start: usize, end: usize, content: &str) -> (r: Result<String, String>)
    requires
        1 <= start <= end,
    ensures
        match r {
            Ok(s) => start <= lines(original@).len() && s@ == splice_text(original@, start as nat, end as nat, content@),
            Err(m) => start > lines(original@).len() && m@ == "Start line "@ + decimal(start as nat) + " exceeds file length ("@ + decimal(lines(original@).len()) + ")"@,
        },
{
    let oc = chars_of(original);
    let ls = lines_exec(oc.as_slice());
    let total = ls.len();
    if start > total {
        let mut m = lit_chars("Start line ");
        push_decimal(&mut m, start as u64);
        extend_chars(&mut m, lit_chars(" exceeds file length (").as_slice());
        push_decimal(&mut m, total as u64);
        extend_chars(&mut m, lit_chars(")").as_slice());
        return Err(string_of(m.as_slice()));
    }
    let stop = if end < total {
        end
    } else {
        total
    };
    let ghost lv = ls.deep_view();
    let mut out: Vec<char> = Vec::new();
    push_lines(&mut out, &ls, 0, start - 1);
    assert(lv.subrange(0, start - 1) =~= lv.take(start - 1));
    let cc = chars_of(content);
    extend_chars(&mut out, cc.as_slice());
    let nl = vec!['\n'];
    assert(nl@ =~= seq!['\n']);
    if !ends_with_exec(cc.as_slice(), nl.as_slice()) {
        out.push('\n');
    }
    push_lines(&mut out, &ls, stop, total);
    assert(lv.subrange(stop as int, total as int) =~= lv.skip(stop as int));
    let ghost body = out@;
    assert(body =~= with_newlines(lv.take(start - 1)) + content@ + (if ends_with(content@, seq!['\n']) {
        seq![]
    } else {
        seq!['\n']
    }) + with_newlines(lv.skip(stop as int)));
    if !ends_with_exec(oc.as_slice(), nl.as_slice()) && ends_with_exec(out.as_slice(), nl.as_slice()) {
        out.pop();
        assert(out@ =~= body.drop_last());
    }
    Ok(string_of(out.as_slice()))
}

} // verus!
