//! Character-sequence operations used throughout the library, each stated
//! over `Seq<char>` and implemented over `[char]`.
use vstd::prelude::*;

verus! {

/// Appends one character to a `String` (std's `String::push`).
/// Trusted: the documentation of `String::push` says that the character is
/// appended to the end of the string.
#[verifier::external_body]
pub(crate) fn push_char(s: &mut String, c: char)
    ensures
        final(s)@ == old(s)@.push(c),
{
    s.push(c);
}

/// Appends the characters of `t` to `s`.
pub fn push_text(s: &mut String, t: &str)
    ensures
        final(s)@ == old(s)@ + t@,
{
    let c = chars_of(t);
    let mut i: usize = 0;
    while i < c.len()
        invariant
            i <= c@.len(),
            c@ == t@,
            s@ == old(s)@ + t@.take(i as int),
        decreases c@.len() - i,
    {
        push_char(s, c[i]);
        assert(t@.take(i + 1) =~= t@.take(i as int).push(t@[i as int]));
        i = i + 1;
    }
    assert(t@.take(i as int) =~= t@);
}

/// The characters of `s`, in order.
pub fn chars_of(s: &str) -> (r: Vec<char>)
    ensures
        r@ == s@,
{
    let mut r: Vec<char> = Vec::new();
    for c in it: s.chars()
        invariant
            r@ == it.seq().take(it.index() as int),
            it.seq() == s@,
    {
        r.push(c);
    }
    r
}

/// A `String` holding exactly the characters of `v`.
pub fn string_of(v: &[char]) -> (r: String)
    ensures
        r@ == v@,
{
    let mut r = String::new();
    let mut i: usize = 0;
    while i < v.len()
        invariant
            i <= v.len(),
            r@ == v@.take(i as int),
        decreases v.len() - i,
    {
        push_char(&mut r, v[i]);
        i = i + 1;
        assert(v@.take(i as int) =~= v@.take((i - 1) as int).push(v@[(i - 1) as int]));
    }
    assert(v@.take(i as int) =~= v@);
    r
}

/// The characters of an optional string.
pub open spec fn opt_view(o: Option<String>) -> Option<Seq<char>> {
    match o {
        Some(s) => Some(s@),
        None => None,
    }
}

/// Converts an optional index to an optional mathematical integer.
pub open spec fn opt_int(r: Option<usize>) -> Option<int> {
    match r {
        Some(k) => Some(k as int),
        None => None,
    }
}

// ── Searching ──

/// `p` occurs in `s` starting at index `i`.
pub open spec fn occurs_at(s: Seq<char>, p: Seq<char>, i: int) -> bool {
    0 <= i && i + p.len() <= s.len() && s.subrange(i, i + p.len()) =~= p
}

/// The first index at or after `i` where `p` occurs in `s`.
pub open spec fn find_from(s: Seq<char>, p: Seq<char>, i: int) -> Option<int>
    decreases s.len() - i,
{
    if i < 0 || i + p.len() > s.len() {
        None
    } else if occurs_at(s, p, i) {
        Some(i)
    } else {
        find_from(s, p, i + 1)
    }
}

/// The first index where `p` occurs in `s` (`str::find`).
pub open spec fn find(s: Seq<char>, p: Seq<char>) -> Option<int> {
    find_from(s, p, 0)
}

/// The first occurrence found by `find_from` is the least one at or after `i`.
pub proof fn lemma_find_from(s: Seq<char>, p: Seq<char>, i: int)
    requires
        0 <= i,
    ensures
        match find_from(s, p, i) {
            Some(k) => i <= k && occurs_at(s, p, k) && forall|j: int|
                i <= j < k ==> !#[trigger] occurs_at(s, p, j),
            None => forall|j: int| i <= j ==> !#[trigger] occurs_at(s, p, j),
        },
    decreases s.len() - i,
{
    if i + p.len() > s.len() {
    } else if occurs_at(s, p, i) {
    } else {
        lemma_find_from(s, p, i + 1);
    }
}

/// A least occurrence determines the result of `find_from`.
pub proof fn lemma_find_from_at(s: Seq<char>, p: Seq<char>, i: int, k: int)
    requires
        0 <= i <= k,
        occurs_at(s, p, k),
        forall|j: int| i <= j < k ==> !#[trigger] occurs_at(s, p, j),
    ensures
        find_from(s, p, i) == Some(k),
{
    lemma_find_from(s, p, i);
}

/// With no occurrence at or after `i`, `find_from` finds nothing.
pub proof fn lemma_find_from_none(s: Seq<char>, p: Seq<char>, i: int)
    requires
        0 <= i,
        forall|j: int| i <= j ==> !#[trigger] occurs_at(s, p, j),
    ensures
        find_from(s, p, i) is None,
{
    lemma_find_from(s, p, i);
}

/// Whether `p` occurs in `s` at index `i`.
pub fn matches_at(s: &[char], p: &[char], i: usize) -> (r: bool)
    ensures
        r == occurs_at(s@, p@, i as int),
{
    if i > s.len() || p.len() > s.len() - i {
        return false;
    }
    let mut k: usize = 0;
    while k < p.len()
        invariant
            i + p.len() <= s.len(),
            k <= p.len(),
            forall|j: int| 0 <= j < k ==> s@[i + j] == p@[j],
        decreases p.len() - k,
    {
        if s[i + k] != p[k] {
            assert(s@.subrange(i as int, i + p.len())[k as int] != p@[k as int]);
            return false;
        }
        k = k + 1;
    }
    assert(s@.subrange(i as int, i + p.len()) =~= p@);
    true
}

/// The first index at or after `from` where `p` occurs in `s`.
pub fn find_from_exec(s: &[char], p: &[char], from: usize) -> (r: Option<usize>)
    ensures
        opt_int(r) == find_from(s@, p@, from as int),
{
    let mut i = from;
    while i <= s.len() && p.len() <= s.len() - i
        invariant
            from <= i,
            forall|j: int| from <= j < i ==> !#[trigger] occurs_at(s@, p@, j),
        decreases s.len() + 1 - i,
    {
        if matches_at(s, p, i) {
            proof {
                lemma_find_from_at(s@, p@, from as int, i as int);
            }
            return Some(i);
        }
        i = i + 1;
    }
    proof {
        assert forall|j: int| from <= j implies !#[trigger] occurs_at(s@, p@, j) by {
            if j >= i {
                assert(j + p@.len() > s@.len());
            }
        }
        lemma_find_from_none(s@, p@, from as int);
    }
    None
}

/// The first index where `p` occurs in `s`.
pub fn find_exec(s: &[char], p: &[char]) -> (r: Option<usize>)
    ensures
        opt_int(r) == find(s@, p@),
{
    find_from_exec(s, p, 0)
}

/// `s` begins with `p`.
pub open spec fn starts_with(s: Seq<char>, p: Seq<char>) -> bool {
    occurs_at(s, p, 0)
}

/// `s` ends with `p`.
pub open spec fn ends_with(s: Seq<char>, p: Seq<char>) -> bool {
    occurs_at(s, p, s.len() - p.len())
}

/// Whether `s` begins with `p`.
pub fn starts_with_exec(s: &[char], p: &[char]) -> (r: bool)
    ensures
        r == starts_with(s@, p@),
{
    matches_at(s, p, 0)
}

/// Whether `s` ends with `p`.
pub fn ends_with_exec(s: &[char], p: &[char]) -> (r: bool)
    ensures
        r == ends_with(s@, p@),
{
    if p.len() > s.len() {
        false
    } else {
        matches_at(s, p, s.len() - p.len())
    }
}

/// Whether `s` and `t` hold the same characters.
pub fn chars_eq(s: &[char], t: &[char]) -> (r: bool)
    ensures
        r == (s@ == t@),
{
    if s.len() != t.len() {
        return false;
    }
    let r = matches_at(s, t, 0);
    proof {
        if r {
            assert(s@.subrange(0, t@.len() as int) =~= s@);
        }
    }
    r
}

/// The characters of `s` from index `i` to index `j`.
pub fn slice_vec(s: &[char], i: usize, j: usize) -> (r: Vec<char>)
    requires
        i <= j <= s.len(),
    ensures
        r@ == s@.subrange(i as int, j as int),
{
    let mut r: Vec<char> = Vec::new();
    let mut k = i;
    while k < j
        invariant
            i <= k <= j <= s.len(),
            r@ == s@.subrange(i as int, k as int),
        decreases j - k,
    {
        r.push(s[k]);
        k = k + 1;
        assert(r@ =~= s@.subrange(i as int, k as int));
    }
    r
}


/// Finding in a suffix of `s` is finding in `s` from that point on.
pub proof fn lemma_find_skip(s: Seq<char>, p: Seq<char>, pos: int)
    requires
        0 <= pos <= s.len(),
    ensures
        find(s.skip(pos), p) == (match find_from(s, p, pos) {
            Some(k) => Some(k - pos),
            None => None,
        }),
{
    let t = s.skip(pos);
    assert forall|j: int| 0 <= j implies #[trigger] occurs_at(t, p, j) == occurs_at(
        s,
        p,
        j + pos,
    ) by {
        if j + p.len() <= t.len() {
            assert(t.subrange(j, j + p.len()) =~= s.subrange(j + pos, j + pos + p.len()));
        }
    }
    lemma_find_from(s, p, pos);
    lemma_find_from(t, p, 0);
    match find_from(s, p, pos) {
        Some(k) => {
            assert(occurs_at(t, p, k - pos));
            assert forall|j: int| 0 <= j < k - pos implies !#[trigger] occurs_at(t, p, j) by {
                assert(!occurs_at(s, p, j + pos));
            }
            lemma_find_from_at(t, p, 0, k - pos);
        },
        None => {
            assert forall|j: int| 0 <= j implies !#[trigger] occurs_at(t, p, j) by {
                assert(!occurs_at(s, p, j + pos));
            }
            lemma_find_from_none(t, p, 0);
        },
    }
}

// ── Splitting and joining ──

/// The pieces of `s` between the occurrences of `p` (`str::split`).
pub open spec fn split(s: Seq<char>, p: Seq<char>) -> Seq<Seq<char>>
    decreases s.len(),
{
    if p.len() == 0 {
        seq![s]
    } else {
        match find(s, p) {
            Some(i) => {
                proof {
                    lemma_find_from(s, p, 0);
                }
                seq![s.take(i)] + split(s.skip(i + p.len()), p)
            },
            None => seq![s],
        }
    }
}

/// At most `n` pieces of `s` split at `p`; the last piece holds the rest
/// (`str::splitn`).
pub open spec fn splitn(s: Seq<char>, n: nat, p: Seq<char>) -> Seq<Seq<char>>
    decreases n,
{
    if n == 0 {
        seq![]
    } else if n == 1 || p.len() == 0 {
        seq![s]
    } else {
        match find(s, p) {
            Some(i) => seq![s.take(i)] + splitn(s.skip(i + p.len()), (n - 1) as nat, p),
            None => seq![s],
        }
    }
}

/// The pieces joined, with `sep` between neighbours (`[T]::join`).
pub open spec fn join(parts: Seq<Seq<char>>, sep: Seq<char>) -> Seq<char>
    decreases parts.len(),
{
    if parts.len() == 0 {
        seq![]
    } else if parts.len() == 1 {
        parts[0]
    } else {
        join(parts.drop_last(), sep) + sep + parts.last()
    }
}

/// Every occurrence of `p` in `s`, left to right, replaced by `r`
/// (`str::replace`, for a non-empty pattern).
pub open spec fn replace(s: Seq<char>, p: Seq<char>, r: Seq<char>) -> Seq<char> {
    join(split(s, p), r)
}

/// Splits `s` at every occurrence of `p`.
pub fn split_exec(s: &[char], p: &[char]) -> (r: Vec<Vec<char>>)
    requires
        p@.len() > 0,
    ensures
        r.deep_view() == split(s@, p@),
{
    let mut r: Vec<Vec<char>> = Vec::new();
    let mut pos: usize = 0;
    assert(s@.skip(0) =~= s@);
    assert(r.deep_view() =~= Seq::<Seq<char>>::empty());
    loop
        invariant
            p@.len() > 0,
            pos <= s.len(),
            r.deep_view() + split(s@.skip(pos as int), p@) == split(s@, p@),
        decreases s.len() - pos,
    {
        proof {
            lemma_find_skip(s@, p@, pos as int);
            lemma_find_from(s@, p@, pos as int);
        }
        let ghost rest = s@.skip(pos as int);
        match find_from_exec(s, p, pos) {
            Some(k) => {
                let piece = slice_vec(s, pos, k);
                let ghost old_r = r.deep_view();
                r.push(piece);
                proof {
                    assert(rest.take(k - pos) =~= s@.subrange(pos as int, k as int));
                    assert(rest.skip(k - pos + p@.len()) =~= s@.skip(k + p@.len()));
                    assert(piece.deep_view() =~= piece@);
                    assert(r.deep_view() =~= old_r.push(piece@));
                    assert(split(rest, p@) == seq![rest.take(k - pos)] + split(
                        rest.skip(k - pos + p@.len()),
                        p@,
                    ));
                    assert(old_r.push(piece@) + split(s@.skip(k + p@.len()), p@) =~= old_r + (
                    seq![piece@] + split(s@.skip(k + p@.len()), p@)));
                }
                pos = k + p.len();
            },
            None => {
                let piece = slice_vec(s, pos, s.len());
                let ghost old_r = r.deep_view();
                r.push(piece);
                proof {
                    assert(rest =~= s@.subrange(pos as int, s@.len() as int));
                    assert(piece.deep_view() =~= piece@);
                    assert(r.deep_view() =~= old_r.push(piece@));
                    assert(old_r + seq![rest] =~= old_r.push(piece@));
                }
                return r;
            },
        }
    }
}

/// Splits `s` at the first `n - 1` occurrences of `p`.
pub fn splitn_exec(s: &[char], n: usize, p: &[char]) -> (r: Vec<Vec<char>>)
    requires
        p@.len() > 0,
    ensures
        r.deep_view() == splitn(s@, n as nat, p@),
{
    let mut r: Vec<Vec<char>> = Vec::new();
    if n == 0 {
        assert(r.deep_view() =~= splitn(s@, n as nat, p@));
        return r;
    }
    let mut pos: usize = 0;
    let mut left: usize = n;
    assert(s@.skip(0) =~= s@);
    assert(r.deep_view() =~= Seq::<Seq<char>>::empty());
    loop
        invariant
            p@.len() > 0,
            pos <= s.len(),
            left >= 1,
            r.deep_view() + splitn(s@.skip(pos as int), left as nat, p@) == splitn(
                s@,
                n as nat,
                p@,
            ),
        decreases left,
    {
        proof {
            lemma_find_skip(s@, p@, pos as int);
            lemma_find_from(s@, p@, pos as int);
        }
        let ghost rest = s@.skip(pos as int);
        let found = if left == 1 {
            None
        } else {
            find_from_exec(s, p, pos)
        };
        match found {
            Some(k) => {
                let piece = slice_vec(s, pos, k);
                let ghost old_r = r.deep_view();
                r.push(piece);
                proof {
                    assert(rest.take(k - pos) =~= s@.subrange(pos as int, k as int));
                    assert(rest.skip(k - pos + p@.len()) =~= s@.skip(k + p@.len()));
                    assert(piece.deep_view() =~= piece@);
                    assert(r.deep_view() =~= old_r.push(piece@));
                    assert(old_r.push(piece@) + splitn(
                        s@.skip(k + p@.len()),
                        (left - 1) as nat,
                        p@,
                    ) =~= old_r + (seq![piece@] + splitn(
                        s@.skip(k + p@.len()),
                        (left - 1) as nat,
                        p@,
                    )));
                }
                pos = k + p.len();
                left = left - 1;
            },
            None => {
                let piece = slice_vec(s, pos, s.len());
                let ghost old_r = r.deep_view();
                r.push(piece);
                proof {
                    assert(rest =~= s@.subrange(pos as int, s@.len() as int));
                    assert(piece.deep_view() =~= piece@);
                    assert(r.deep_view() =~= old_r.push(piece@));
                    assert(old_r + seq![rest] =~= old_r.push(piece@));
                }
                return r;
            },
        }
    }
}

/// Appends all of `t` to `v`.
pub fn extend_chars(v: &mut Vec<char>, t: &[char])
    ensures
        final(v)@ == old(v)@ + t@,
{
    let mut i: usize = 0;
    while i < t.len()
        invariant
            i <= t.len(),
            v@ == old(v)@ + t@.take(i as int),
        decreases t.len() - i,
    {
        v.push(t[i]);
        i = i + 1;
        assert(v@ =~= old(v)@ + t@.take(i as int));
    }
    assert(t@.take(i as int) =~= t@);
}

/// The pieces joined with `sep` between neighbours.
pub fn join_exec(parts: &Vec<Vec<char>>, sep: &[char]) -> (r: Vec<char>)
    ensures
        r@ == join(parts.deep_view(), sep@),
{
    let mut r: Vec<char> = Vec::new();
    let mut i: usize = 0;
    while i < parts.len()
        invariant
            i <= parts.len(),
            r@ == join(parts.deep_view().take(i as int), sep@),
        decreases parts.len() - i,
    {
        let ghost pv = parts.deep_view();
        proof {
            assert(pv.take(i + 1).drop_last() =~= pv.take(i as int));
            assert(pv.take(i + 1).last() == pv[i as int]);
        }
        if i > 0 {
            extend_chars(&mut r, sep);
        } else {
            assert(pv.take(1) =~= seq![pv[0]]);
        }
        extend_chars(&mut r, parts[i].as_slice());
        i = i + 1;
    }
    assert(parts.deep_view().take(i as int) =~= parts.deep_view());
    r
}

/// Every occurrence of `p` in `s` replaced by `rep`.
pub fn replace_exec(s: &[char], p: &[char], rep: &[char]) -> (r: Vec<char>)
    requires
        p@.len() > 0,
    ensures
        r@ == replace(s@, p@, rep@),
{
    let parts = split_exec(s, p);
    join_exec(&parts, rep)
}


// ── Lines ──

/// `s` without one trailing carriage return.
pub open spec fn strip_cr(s: Seq<char>) -> Seq<char> {
    if s.len() > 0 && s.last() == '\r' {
        s.drop_last()
    } else {
        s
    }
}

/// The lines of `s` (`str::lines`): pieces ended by `\n` or `\r\n`; the
/// final line ending is optional, and an empty `s` has no lines.
pub open spec fn lines(s: Seq<char>) -> Seq<Seq<char>>
    decreases s.len(),
{
    if s.len() == 0 {
        seq![]
    } else {
        match find(s, seq!['\n']) {
            Some(i) => {
                proof {
                    lemma_find_from(s, seq!['\n'], 0);
                }
                seq![strip_cr(s.take(i))] + lines(s.skip(i + 1))
            },
            None => seq![s],
        }
    }
}

/// The lines of `s`.
pub fn lines_exec(s: &[char]) -> (r: Vec<Vec<char>>)
    ensures
        r.deep_view() == lines(s@),
{
    let nl = vec!['\n'];
    let mut r: Vec<Vec<char>> = Vec::new();
    let mut pos: usize = 0;
    assert(s@.skip(0) =~= s@);
    assert(r.deep_view() =~= Seq::<Seq<char>>::empty());
    while pos < s.len()
        invariant
            nl@ == seq!['\n'],
            pos <= s.len(),
            r.deep_view() + lines(s@.skip(pos as int)) == lines(s@),
        decreases s.len() - pos,
    {
        proof {
            lemma_find_skip(s@, nl@, pos as int);
            lemma_find_from(s@, nl@, pos as int);
        }
        let ghost rest = s@.skip(pos as int);
        let ghost old_r = r.deep_view();
        match find_from_exec(s, nl.as_slice(), pos) {
            Some(k) => {
                let end = if k > pos && s[k - 1] == '\r' {
                    k - 1
                } else {
                    k
                };
                let piece = slice_vec(s, pos, end);
                r.push(piece);
                proof {
                    assert(rest.take(k - pos) =~= s@.subrange(pos as int, k as int));
                    assert(strip_cr(rest.take(k - pos)) =~= s@.subrange(pos as int, end as int));
                    assert(rest.skip(k - pos + 1) =~= s@.skip(k + 1));
                    assert(piece.deep_view() =~= piece@);
                    assert(r.deep_view() =~= old_r.push(piece@));
                    assert(old_r.push(piece@) + lines(s@.skip(k + 1)) =~= old_r + (seq![piece@]
                        + lines(s@.skip(k + 1))));
                }
                pos = k + 1;
            },
            None => {
                let piece = slice_vec(s, pos, s.len());
                r.push(piece);
                proof {
                    assert(rest =~= s@.subrange(pos as int, s@.len() as int));
                    assert(piece.deep_view() =~= piece@);
                    assert(r.deep_view() =~= old_r.push(piece@));
                    assert(old_r + seq![rest] =~= old_r.push(piece@));
                }
                return r;
            },
        }
    }
    assert(s@.skip(pos as int) =~= Seq::<char>::empty());
    assert(r.deep_view() + Seq::<Seq<char>>::empty() =~= r.deep_view());
    r
}

// ── Trimming ──

/// A character with the Unicode `White_Space` property (`char::is_whitespace`).
pub open spec fn is_whitespace(c: char) -> bool {
    let u = c as u32;
    (9 <= u <= 13) || u == 32 || u == 0x85 || u == 0xa0 || u == 0x1680 || (0x2000 <= u
        <= 0x200a) || u == 0x2028 || u == 0x2029 || u == 0x202f || u == 0x205f || u == 0x3000
}

/// Whether `c` has the Unicode `White_Space` property.
pub fn is_whitespace_exec(c: char) -> (r: bool)
    ensures
        r == is_whitespace(c),
{
    let u = c as u32;
    (9 <= u && u <= 13) || u == 32 || u == 0x85 || u == 0xa0 || u == 0x1680 || (0x2000 <= u && u
        <= 0x200a) || u == 0x2028 || u == 0x2029 || u == 0x202f || u == 0x205f || u == 0x3000
}

/// The characters that a trim removes: whitespace when `ws`, else those of `set`.
pub open spec fn trimmed_char(ws: bool, set: Seq<char>, c: char) -> bool {
    if ws {
        is_whitespace(c)
    } else {
        set.contains(c)
    }
}

/// `s` without its leading trimmed characters.
pub open spec fn trim_start_by(s: Seq<char>, ws: bool, set: Seq<char>) -> Seq<char>
    decreases s.len(),
{
    if s.len() > 0 && trimmed_char(ws, set, s[0]) {
        trim_start_by(s.drop_first(), ws, set)
    } else {
        s
    }
}

/// `s` without its trailing trimmed characters.
pub open spec fn trim_end_by(s: Seq<char>, ws: bool, set: Seq<char>) -> Seq<char>
    decreases s.len(),
{
    if s.len() > 0 && trimmed_char(ws, set, s.last()) {
        trim_end_by(s.drop_last(), ws, set)
    } else {
        s
    }
}

/// `s` without leading and trailing whitespace (`str::trim`).
pub open spec fn trim(s: Seq<char>) -> Seq<char> {
    trim_end_by(trim_start_by(s, true, seq![]), true, seq![])
}

/// `s` without leading and trailing characters of `set` (`str::trim_matches`
/// with a character predicate).
pub open spec fn trim_set(s: Seq<char>, set: Seq<char>) -> Seq<char> {
    trim_end_by(trim_start_by(s, false, set), false, set)
}

/// Whether `c` is one of `set`.
pub fn contains_char(set: &[char], c: char) -> (r: bool)
    ensures
        r == set@.contains(c),
{
    let mut i: usize = 0;
    while i < set.len()
        invariant
            i <= set.len(),
            forall|j: int| 0 <= j < i ==> set@[j] != c,
        decreases set.len() - i,
    {
        if set[i] == c {
            return true;
        }
        i = i + 1;
    }
    false
}

fn trimmed_char_exec(ws: bool, set: &[char], c: char) -> (r: bool)
    ensures
        r == trimmed_char(ws, set@, c),
{
    if ws {
        is_whitespace_exec(c)
    } else {
        contains_char(set, c)
    }
}

/// Leading and trailing trimmed characters removed from `s`.
pub fn trim_by_exec(s: &[char], ws: bool, set: &[char]) -> (r: Vec<char>)
    ensures
        r@ == trim_end_by(trim_start_by(s@, ws, set@), ws, set@),
{
    let mut i: usize = 0;
    assert(s@.subrange(0, s@.len() as int) =~= s@);
    while i < s.len() && trimmed_char_exec(ws, set, s[i])
        invariant
            i <= s.len(),
            trim_start_by(s@, ws, set@) == trim_start_by(
                s@.subrange(i as int, s@.len() as int),
                ws,
                set@,
            ),
        decreases s.len() - i,
    {
        assert(s@.subrange(i as int, s@.len() as int).drop_first() =~= s@.subrange(
            i + 1,
            s@.len() as int,
        ));
        i = i + 1;
    }
    let mut j: usize = s.len();
    assert(s@.subrange(i as int, j as int) == trim_start_by(s@, ws, set@));
    while j > i && trimmed_char_exec(ws, set, s[j - 1])
        invariant
            i <= j <= s.len(),
            trim_end_by(trim_start_by(s@, ws, set@), ws, set@) == trim_end_by(
                s@.subrange(i as int, j as int),
                ws,
                set@,
            ),
        decreases j,
    {
        assert(s@.subrange(i as int, j as int).drop_last() =~= s@.subrange(
            i as int,
            j - 1,
        ));
        j = j - 1;
    }
    slice_vec(s, i, j)
}

/// `s` without leading and trailing whitespace.
pub fn trim_exec(s: &[char]) -> (r: Vec<char>)
    ensures
        r@ == trim(s@),
{
    let empty: Vec<char> = Vec::new();
    proof {
        assert(empty@ =~= seq![]);
    }
    trim_by_exec(s, true, empty.as_slice())
}

/// `s` without leading and trailing characters of `set`.
pub fn trim_set_exec(s: &[char], set: &[char]) -> (r: Vec<char>)
    ensures
        r@ == trim_set(s@, set@),
{
    trim_by_exec(s, false, set)
}

/// `s` with every leading copy of `p` removed (`str::trim_start_matches`).
pub open spec fn trim_start_matches(s: Seq<char>, p: Seq<char>) -> Seq<char>
    decreases s.len(),
{
    if p.len() > 0 && starts_with(s, p) {
        trim_start_matches(s.skip(p.len() as int), p)
    } else {
        s
    }
}

/// `s` with every trailing copy of `p` removed (`str::trim_end_matches`).
pub open spec fn trim_end_matches(s: Seq<char>, p: Seq<char>) -> Seq<char>
    decreases s.len(),
{
    if p.len() > 0 && ends_with(s, p) {
        trim_end_matches(s.take(s.len() - p.len()), p)
    } else {
        s
    }
}

/// `s` without its prefix `p`, if it has it (`str::strip_prefix`).
pub open spec fn strip_prefix(s: Seq<char>, p: Seq<char>) -> Option<Seq<char>> {
    if starts_with(s, p) {
        Some(s.skip(p.len() as int))
    } else {
        None
    }
}

/// Every leading copy of `p` removed from `s`.
pub fn trim_start_matches_exec(s: &[char], p: &[char]) -> (r: Vec<char>)
    ensures
        r@ == trim_start_matches(s@, p@),
{
    if p.len() == 0 {
        return slice_vec(s, 0, s.len());
    }
    let mut i: usize = 0;
    assert(s@.skip(0) =~= s@);
    while matches_at(s, p, i)
        invariant
            i <= s.len(),
            p@.len() > 0,
            trim_start_matches(s@, p@) == trim_start_matches(s@.skip(i as int), p@),
        decreases s.len() - i,
    {
        proof {
            let t = s@.skip(i as int);
            assert(t.subrange(0, p@.len() as int) =~= s@.subrange(i as int, i + p@.len()));
            assert(t.skip(p@.len() as int) =~= s@.skip(i + p@.len()));
        }
        i = i + p.len();
    }
    proof {
        let t = s@.skip(i as int);
        if starts_with(t, p@) {
            assert(t.subrange(0, p@.len() as int) =~= s@.subrange(i as int, i + p@.len()));
        }
    }
    slice_vec(s, i, s.len())
}

/// Every trailing copy of `p` removed from `s`.
pub fn trim_end_matches_exec(s: &[char], p: &[char]) -> (r: Vec<char>)
    ensures
        r@ == trim_end_matches(s@, p@),
{
    if p.len() == 0 {
        return slice_vec(s, 0, s.len());
    }
    let mut j: usize = s.len();
    assert(s@.take(s@.len() as int) =~= s@);
    while j >= p.len() && matches_at(s, p, j - p.len())
        invariant
            j <= s.len(),
            p@.len() > 0,
            trim_end_matches(s@, p@) == trim_end_matches(s@.take(j as int), p@),
        decreases j,
    {
        proof {
            let t = s@.take(j as int);
            assert(t.subrange(t.len() - p@.len(), t.len() as int) =~= s@.subrange(
                j - p@.len(),
                j as int,
            ));
            assert(t.take(t.len() - p@.len()) =~= s@.take(j - p@.len()));
        }
        j = j - p.len();
    }
    proof {
        let t = s@.take(j as int);
        if ends_with(t, p@) {
            assert(t.subrange(t.len() - p@.len(), t.len() as int) =~= s@.subrange(
                j - p@.len(),
                j as int,
            ));
        }
    }
    slice_vec(s, 0, j)
}


/// The pieces before and after the first `c` in `s` (`str::split_once`).
pub open spec fn split_once(s: Seq<char>, c: char) -> Option<(Seq<char>, Seq<char>)> {
    match find(s, seq![c]) {
        Some(i) => Some((s.take(i), s.skip(i + 1))),
        None => None,
    }
}

/// The pieces before and after the last `c` in `s` (`str::rsplit_once`).
pub open spec fn rsplit_once(s: Seq<char>, c: char) -> Option<(Seq<char>, Seq<char>)> {
    match s.index_of_last(c) {
        Some(i) => Some((s.take(i), s.skip(i + 1))),
        None => None,
    }
}

/// `c` occurs in `s` at `i` exactly when `s[i] == c`.
pub proof fn lemma_occurs_char(s: Seq<char>, c: char, i: int)
    ensures
        occurs_at(s, seq![c], i) <==> (0 <= i < s.len() && s[i] == c),
{
    if 0 <= i < s.len() && s[i] == c {
        assert(s.subrange(i, i + 1) =~= seq![c]);
    }
    if occurs_at(s, seq![c], i) {
        assert(s.subrange(i, i + 1)[0] == s[i]);
    }
}

/// In `x + [c] + y` where `x` has no `c`, the first `c` is right after `x`.
pub proof fn lemma_find_char_after(x: Seq<char>, c: char, y: Seq<char>)
    requires
        !x.contains(c),
    ensures
        find(x + seq![c] + y, seq![c]) == Some(x.len() as int),
        split_once(x + seq![c] + y, c) == Some((x, y)),
{
    let s = x + seq![c] + y;
    lemma_occurs_char(s, c, x.len() as int);
    assert forall|j: int| 0 <= j < x.len() implies !#[trigger] occurs_at(s, seq![c], j) by {
        lemma_occurs_char(s, c, j);
        assert(s[j] == x[j]);
    }
    lemma_find_from_at(s, seq![c], 0, x.len() as int);
    assert(s.take(x.len() as int) =~= x);
    assert(s.skip(x.len() as int + 1) =~= y);
}

/// Without `c` in `s`, there is no `c` to find.
pub proof fn lemma_find_char_none(s: Seq<char>, c: char)
    requires
        !s.contains(c),
    ensures
        find(s, seq![c]) is None,
        split_once(s, c) is None,
{
    assert forall|j: int| 0 <= j implies !#[trigger] occurs_at(s, seq![c], j) by {
        lemma_occurs_char(s, c, j);
    }
    lemma_find_from_none(s, seq![c], 0);
}

/// The first `c` in `s`.
pub fn find_char_exec(s: &[char], c: char) -> (r: Option<usize>)
    ensures
        opt_int(r) == find(s@, seq![c]),
        r matches Some(i) ==> i < s@.len() && s@[i as int] == c && forall|j: int|
            0 <= j < i ==> s@[j] != c,
        r is None ==> !s@.contains(c),
{
    let p = vec![c];
    assert(p@ =~= seq![c]);
    let r = find_exec(s, p.as_slice());
    proof {
        lemma_find_from(s@, seq![c], 0);
        match r {
            Some(i) => {
                lemma_occurs_char(s@, c, i as int);
                assert forall|j: int| 0 <= j < i implies s@[j] != c by {
                    lemma_occurs_char(s@, c, j);
                }
            },
            None => {
                assert forall|j: int| 0 <= j < s@.len() implies s@[j] != c by {
                    lemma_occurs_char(s@, c, j);
                }
            },
        }
    }
    r
}

/// The pieces before and after the first `c` in `s`.
pub fn split_once_exec(s: &[char], c: char) -> (r: Option<(Vec<char>, Vec<char>)>)
    ensures
        match r {
            Some((a, b)) => split_once(s@, c) == Some((a@, b@)),
            None => split_once(s@, c) is None,
        },
{
    proof {
        lemma_find_from(s@, seq![c], 0);
    }
    match find_char_exec(s, c) {
        Some(i) => {
            let n = s.len();
            assert(i < n);
            let a = slice_vec(s, 0, i);
            let b = slice_vec(s, i + 1, s.len());
            assert(a@ =~= s@.take(i as int));
            assert(b@ =~= s@.skip(i + 1));
            Some((a, b))
        },
        None => None,
    }
}

/// The last `c` in `s`.
pub fn rfind_char_exec(s: &[char], c: char) -> (r: Option<usize>)
    ensures
        opt_int(r) == s@.index_of_last(c),
{
    let mut j: usize = s.len();
    while j > 0
        invariant
            j <= s.len(),
            forall|k: int| j <= k < s.len() ==> s@[k] != c,
        decreases j,
    {
        if s[j - 1] == c {
            proof {
                s@.index_of_last_ensures(c);
            }
            return Some(j - 1);
        }
        j = j - 1;
    }
    proof {
        s@.index_of_last_ensures(c);
    }
    None
}

/// The pieces before and after the last `c` in `s`.
pub fn rsplit_once_exec(s: &[char], c: char) -> (r: Option<(Vec<char>, Vec<char>)>)
    ensures
        match r {
            Some((a, b)) => rsplit_once(s@, c) == Some((a@, b@)),
            None => rsplit_once(s@, c) is None,
        },
{
    proof {
        s@.index_of_last_ensures(c);
    }
    match rfind_char_exec(s, c) {
        Some(i) => {
            let n = s.len();
            assert(i < n);
            let a = slice_vec(s, 0, i);
            let b = slice_vec(s, i + 1, s.len());
            assert(a@ =~= s@.take(i as int));
            assert(b@ =~= s@.skip(i + 1));
            Some((a, b))
        },
        None => None,
    }
}

/// Every `from` in `s` replaced by `to`.
pub fn replace_char_exec(s: &[char], from: char, to: char) -> (r: Vec<char>)
    ensures
        r@ == replace(s@, seq![from], seq![to]),
{
    let p = vec![from];
    let q = vec![to];
    assert(p@ =~= seq![from]);
    assert(q@ =~= seq![to]);
    replace_exec(s, p.as_slice(), q.as_slice())
}


/// Whether two strings hold the same characters.
pub fn str_eq(a: &str, b: &str) -> (r: bool)
    ensures
        r == (a@ == b@),
{
    let x = chars_of(a);
    let y = chars_of(b);
    chars_eq(x.as_slice(), y.as_slice())
}

/// No piece of `s` split at `c` holds `c`.
pub proof fn lemma_split_no_char(s: Seq<char>, c: char)
    ensures
        forall|k: int| 0 <= k < split(s, seq![c]).len() ==> !(#[trigger] split(s, seq![c])[k]).contains(c),
    decreases s.len(),
{
    lemma_find_from(s, seq![c], 0);
    match find(s, seq![c]) {
        Some(i) => {
            lemma_split_no_char(s.skip(i + 1), c);
            assert forall|j: int| 0 <= j < i implies s.take(i)[j] != c by {
                lemma_occurs_char(s, c, j);
            }
            let parts = split(s, seq![c]);
            assert(parts == seq![s.take(i)] + split(s.skip(i + 1), seq![c]));
            assert forall|k: int| 0 <= k < parts.len() implies !(#[trigger] parts[k]).contains(c) by {
                if k == 0 {
                    if s.take(i).contains(c) {
                        let j = choose|j: int| 0 <= j < s.take(i).len() && s.take(i)[j] == c;
                        assert(false);
                    }
                } else {
                    assert(parts[k] == split(s.skip(i + 1), seq![c])[k - 1]);
                }
            }
        },
        None => {
            assert forall|j: int| 0 <= j < s.len() implies s[j] != c by {
                lemma_occurs_char(s, c, j);
            }
            if s.contains(c) {
                let j = choose|j: int| 0 <= j < s.len() && s[j] == c;
                assert(false);
            }
        },
    }
}

/// Pieces without `c`, joined by a separator without `c`, hold no `c`.
pub proof fn lemma_join_no_char(parts: Seq<Seq<char>>, sep: Seq<char>, c: char)
    requires
        forall|k: int| 0 <= k < parts.len() ==> !(#[trigger] parts[k]).contains(c),
        !sep.contains(c),
    ensures
        !join(parts, sep).contains(c),
    decreases parts.len(),
{
    if parts.len() > 1 {
        lemma_join_no_char(parts.drop_last(), sep, c);
        let a = join(parts.drop_last(), sep);
        let b = parts.last();
        assert(!b.contains(c)) by {
            assert(b == parts[parts.len() - 1]);
        }
        let j = a + sep + b;
        if j.contains(c) {
            let q = choose|q: int| 0 <= q < j.len() && j[q] == c;
            if q < a.len() {
                assert(a[q] == c);
            } else if q < a.len() + sep.len() {
                assert(sep[q - a.len()] == c);
            } else {
                assert(b[q - a.len() - sep.len()] == c);
            }
        }
    } else if parts.len() == 1 {
        assert(!parts[0].contains(c));
    }
}

/// After every `c` is replaced by another character, no `c` is left.
pub proof fn lemma_replace_removes(s: Seq<char>, c: char, d: char)
    requires
        c != d,
    ensures
        !replace(s, seq![c], seq![d]).contains(c),
{
    lemma_split_no_char(s, c);
    if seq![d].contains(c) {
        let q = choose|q: int| 0 <= q < 1 && seq![d][q] == c;
        assert(false);
    }
    lemma_join_no_char(split(s, seq![c]), seq![d], c);
}

// ── Lists of strings ──

/// A sequence without repeats, all of whose members occur in `u`, is no
/// longer than `u`.
pub proof fn lemma_nodup_subset_len(a: Seq<Seq<char>>, u: Seq<Seq<char>>)
    requires
        a.no_duplicates(),
        forall|t: Seq<char>| a.contains(t) ==> u.contains(t),
    ensures
        a.len() <= u.len(),
{
    a.unique_seq_to_set();
    u.lemma_cardinality_of_set();
    vstd::seq_lib::seq_to_set_is_finite(u);
    assert(a.to_set().subset_of(u.to_set()));
    vstd::set_lib::lemma_len_subset(a.to_set(), u.to_set());
}

/// The pieces `lo..hi` of `v`, copied.
pub fn parts_range(v: &Vec<Vec<char>>, lo: usize, hi: usize) -> (r: Vec<Vec<char>>)
    requires
        lo <= hi <= v@.len(),
    ensures
        r.deep_view() == v.deep_view().subrange(lo as int, hi as int),
{
    let mut r: Vec<Vec<char>> = Vec::new();
    let mut i: usize = lo;
    while i < hi
        invariant
            lo <= i <= hi <= v@.len(),
            r.deep_view() == v.deep_view().subrange(lo as int, i as int),
        decreases hi - i,
    {
        let c = slice_vec(v[i].as_slice(), 0, v[i].len());
        assert(c@ =~= v@[i as int]@);
        assert(v@[i as int].deep_view() =~= v@[i as int]@);
        assert(c.deep_view() =~= c@);
        let ghost old_r = r.deep_view();
        r.push(c);
        assert(r.deep_view() =~= old_r.push(c@));
        assert(v.deep_view().subrange(lo as int, i + 1) =~= v.deep_view().subrange(lo as int, i as int).push(v.deep_view()[i as int]));
        i = i + 1;
    }
    r
}

/// Whether `x` is one of `v`.
pub fn contains_string(v: &Vec<String>, x: &str) -> (r: bool)
    ensures
        r == v.deep_view().contains(x@),
{
    let mut i: usize = 0;
    while i < v.len()
        invariant
            i <= v@.len(),
            forall|j: int| 0 <= j < i ==> v.deep_view()[j] != x@,
        decreases v@.len() - i,
    {
        if str_eq(v[i].as_str(), x) {
            assert(v.deep_view()[i as int] == x@);
            return true;
        }
        i = i + 1;
    }
    false
}

/// A copy of a list of strings.
pub fn clone_strings(v: &Vec<String>) -> (r: Vec<String>)
    ensures
        r.deep_view() == v.deep_view(),
{
    let mut r: Vec<String> = Vec::new();
    let mut i: usize = 0;
    while i < v.len()
        invariant
            i <= v@.len(),
            r.deep_view() == v.deep_view().take(i as int),
        decreases v@.len() - i,
    {
        let c = v[i].clone();
        assert(c@ == v@[i as int]@);
        let ghost old_r = r.deep_view();
        r.push(c);
        assert(r.deep_view() =~= old_r.push(c@));
        assert(v.deep_view().take(i + 1) =~= v.deep_view().take(i as int).push(v@[i as int]@));
        i = i + 1;
    }
    assert(v.deep_view().take(i as int) =~= v.deep_view());
    r
}

/// Whether `x` is one of `v`.
pub fn contains_string_slice(v: &[String], x: &str) -> (r: bool)
    ensures
        r == v.deep_view().contains(x@),
{
    let mut i: usize = 0;
    while i < v.len()
        invariant
            i <= v@.len(),
            forall|j: int| 0 <= j < i ==> v.deep_view()[j] != x@,
        decreases v@.len() - i,
    {
        if str_eq(v[i].as_str(), x) {
            assert(v.deep_view()[i as int] == x@);
            return true;
        }
        i = i + 1;
    }
    false
}

} // verus!
