//! The order of strings: lexicographic by character, which is std's order
//! on `String` (UTF-8 bytes order as code points do).
use vstd::prelude::*;

use crate::text::chars_of;

verus! {

broadcast use vstd::utf8::char_u32_cast;

/// `a` comes before `b`.
pub open spec fn lex_lt(a: Seq<char>, b: Seq<char>) -> bool
    decreases a.len(),
{
    if a.len() == 0 {
        b.len() > 0
    } else if b.len() == 0 {
        false
    } else if a[0] != b[0] {
        (a[0] as u32) < (b[0] as u32)
    } else {
        lex_lt(a.drop_first(), b.drop_first())
    }
}

/// Characters with the same code are the same character.
pub proof fn lemma_char_code_injective(a: char, b: char)
    requires
        a as u32 == b as u32,
    ensures
        a == b,
{
    vstd::utf8::char_u32_cast(a, a as u32);
    vstd::utf8::char_u32_cast(b, b as u32);
}

/// Nothing comes before itself.
pub proof fn lemma_lex_irrefl(a: Seq<char>)
    ensures
        !lex_lt(a, a),
    decreases a.len(),
{
    if a.len() > 0 {
        lemma_lex_irrefl(a.drop_first());
    }
}

/// The order is transitive.
pub proof fn lemma_lex_trans(a: Seq<char>, b: Seq<char>, c: Seq<char>)
    requires
        lex_lt(a, b),
        lex_lt(b, c),
    ensures
        lex_lt(a, c),
    decreases a.len(),
{
    if a.len() > 0 && b.len() > 0 && c.len() > 0 && a[0] == b[0] && b[0] == c[0] {
        lemma_lex_trans(a.drop_first(), b.drop_first(), c.drop_first());
    }
}

/// Of two different strings, one comes first.
pub proof fn lemma_lex_total(a: Seq<char>, b: Seq<char>)
    ensures
        a =~= b || lex_lt(a, b) || lex_lt(b, a),
    decreases a.len(),
{
    if a.len() > 0 && b.len() > 0 {
        if a[0] == b[0] {
            lemma_lex_total(a.drop_first(), b.drop_first());
            if a.drop_first() =~= b.drop_first() {
                assert(a =~= seq![a[0]] + a.drop_first());
                assert(b =~= seq![b[0]] + b.drop_first());
            }
        } else if (a[0] as u32) == (b[0] as u32) {
            lemma_char_code_injective(a[0], b[0]);
        }
    }
}

/// The order is asymmetric.
pub proof fn lemma_lex_asym(a: Seq<char>, b: Seq<char>)
    requires
        lex_lt(a, b),
    ensures
        !lex_lt(b, a),
{
    if lex_lt(b, a) {
        lemma_lex_trans(a, b, a);
        lemma_lex_irrefl(a);
    }
}

/// Compares `a` and `b`: negative, zero or positive as `a` comes before,
/// equals or comes after `b`.
pub fn lex_compare(a: &[char], b: &[char]) -> (r: i8)
    ensures
        r < 0 <==> lex_lt(a@, b@),
        r == 0 <==> a@ == b@,
        r > 0 <==> lex_lt(b@, a@),
{
    let mut i: usize = 0;
    proof {
        assert(a@.skip(0) =~= a@);
        assert(b@.skip(0) =~= b@);
    }
    while i < a.len() && i < b.len()
        invariant
            i <= a.len(),
            i <= b.len(),
            a@.take(i as int) =~= b@.take(i as int),
            lex_lt(a@, b@) == lex_lt(a@.skip(i as int), b@.skip(i as int)),
            lex_lt(b@, a@) == lex_lt(b@.skip(i as int), a@.skip(i as int)),
        decreases a.len() - i,
    {
        let x = a[i];
        let y = b[i];
        let ghost sa = a@.skip(i as int);
        let ghost sb = b@.skip(i as int);
        assert(sa[0] == x && sb[0] == y);
        if x != y {
            proof {
                if (x as u32) == (y as u32) {
                    lemma_char_code_injective(x, y);
                }
            }
            if (x as u32) < (y as u32) {
                return -1;
            } else {
                return 1;
            }
        }
        assert(sa.drop_first() =~= a@.skip(i + 1));
        assert(sb.drop_first() =~= b@.skip(i + 1));
        assert(a@.take(i + 1) =~= a@.take(i as int).push(x));
        assert(b@.take(i + 1) =~= b@.take(i as int).push(y));
        i = i + 1;
    }
    if a.len() < b.len() {
        assert(a@.skip(i as int).len() == 0);
        proof {
            lemma_lex_asym(a@, b@);
        }
        -1
    } else if b.len() < a.len() {
        assert(b@.skip(i as int).len() == 0);
        proof {
            lemma_lex_asym(b@, a@);
        }
        1
    } else {
        assert(a@ =~= a@.take(i as int));
        assert(b@ =~= b@.take(i as int));
        proof {
            lemma_lex_irrefl(a@);
        }
        0
    }
}

/// Compares two strings as `lex_compare` does.
pub fn string_compare(a: &str, b: &str) -> (r: i8)
    ensures
        r < 0 <==> lex_lt(a@, b@),
        r == 0 <==> a@ == b@,
        r > 0 <==> lex_lt(b@, a@),
{
    let x = chars_of(a);
    let y = chars_of(b);
    lex_compare(x.as_slice(), y.as_slice())
}

/// Each string comes strictly before the next: sorted, without repeats.
pub open spec fn strictly_sorted(v: Seq<Seq<char>>) -> bool {
    forall|i: int, j: int| 0 <= i < j < v.len() ==> lex_lt(#[trigger] v[i], #[trigger] v[j])
}

/// `v` lists the set `s` in order, each member once.
pub open spec fn lists_sorted(v: Seq<Seq<char>>, s: Set<Seq<char>>) -> bool {
    strictly_sorted(v) && forall|x: Seq<char>| v.contains(x) <==> #[trigger] s.contains(x)
}

/// Adds `x` to a strictly sorted list of strings, keeping it strictly sorted.
pub fn insert_sorted(v: &mut Vec<String>, x: String)
    requires
        strictly_sorted(old(v).deep_view()),
    ensures
        strictly_sorted(final(v).deep_view()),
        forall|y: Seq<char>| #[trigger] final(v).deep_view().contains(y) <==> (old(
            v,
        ).deep_view().contains(y) || y == x@),
{
    let ghost ov = v.deep_view();
    let mut i: usize = 0;
    while i < v.len()
        invariant
            v.deep_view() == ov,
            ov == old(v).deep_view(),
            strictly_sorted(ov),
            i <= v.len(),
            forall|j: int| 0 <= j < i ==> lex_lt(#[trigger] ov[j], x@),
        ensures
            v.deep_view() == ov,
            i <= v.len(),
            forall|j: int| 0 <= j < i ==> lex_lt(#[trigger] ov[j], x@),
            i < v.len() ==> lex_lt(x@, ov[i as int]),
        decreases v.len() - i,
    {
        let c = string_compare(v[i].as_str(), x.as_str());
        assert(ov[i as int] == v@[i as int]@);
        if c == 0 {
            assert(ov.contains(x@));
            assert(v.deep_view() == old(v).deep_view());
            assert(strictly_sorted(v.deep_view()));
            return;
        }
        if c > 0 {
            break;
        }
        i = i + 1;
    }
    let ghost pos = i as int;
    assert(forall|j: int| pos <= j < ov.len() ==> lex_lt(x@, #[trigger] ov[j])) by {
        assert forall|j: int| pos <= j < ov.len() implies lex_lt(x@, #[trigger] ov[j]) by {
            if pos < ov.len() {
                assert(lex_lt(x@, ov[pos]));
                if j > pos {
                    lemma_lex_trans(x@, ov[pos], ov[j]);
                }
            }
        }
    }
    v.insert(i, x);
    let ghost nv = v.deep_view();
    assert(nv =~= ov.insert(pos, x@));
    assert forall|a: int, b: int| 0 <= a < b < nv.len() implies lex_lt(
        #[trigger] nv[a],
        #[trigger] nv[b],
    ) by {
        if b < pos {
        } else if b == pos {
        } else if a < pos {
            assert(nv[b] == ov[b - 1]);
            assert(lex_lt(ov[a], x@));
            lemma_lex_trans(ov[a], x@, ov[b - 1]);
        } else if a == pos {
        } else {
            assert(nv[a] == ov[a - 1] && nv[b] == ov[b - 1]);
        }
    }
    assert forall|y: Seq<char>| #[trigger] nv.contains(y) <==> (ov.contains(y) || y == x@) by {
        if nv.contains(y) {
            let k = choose|k: int| 0 <= k < nv.len() && nv[k] == y;
            if k < pos {
                assert(ov[k] == y);
            } else if k > pos {
                assert(ov[k - 1] == y);
            }
        }
        if ov.contains(y) {
            let k = choose|k: int| 0 <= k < ov.len() && ov[k] == y;
            if k < pos {
                assert(nv[k] == y);
            } else {
                assert(nv[k + 1] == y);
            }
        }
        if y == x@ {
            assert(nv[pos] == y);
        }
    }
}


/// Each string comes no later than the next: sorted, repeats allowed.
pub open spec fn sorted_le(v: Seq<Seq<char>>) -> bool {
    forall|i: int, j: int| 0 <= i < j < v.len() ==> !lex_lt(#[trigger] v[j], #[trigger] v[i])
}

/// Inserting at a position adds the element to the multiset.
proof fn lemma_insert_multiset(s: Seq<Seq<char>>, pos: int, x: Seq<char>)
    requires
        0 <= pos <= s.len(),
    ensures
        s.insert(pos, x).to_multiset() =~= s.to_multiset().insert(x),
{
    broadcast use vstd::multiset::group_multiset_axioms;

    let a = s.take(pos);
    let b = s.skip(pos);
    assert(s.insert(pos, x) =~= a.push(x) + b);
    assert(s =~= a + b);
    vstd::seq_lib::lemma_multiset_commutative(a.push(x), b);
    vstd::seq_lib::lemma_multiset_commutative(a, b);
    vstd::seq_lib::to_multiset_build(a, x);
}

/// The strings of `v`, sorted; equal strings keep their order (std's
/// stable `sort`).
pub fn sort_strings(v: Vec<String>) -> (r: Vec<String>)
    ensures
        sorted_le(r.deep_view()),
        r.deep_view().to_multiset() == v.deep_view().to_multiset(),
{
    let mut r: Vec<String> = Vec::new();
    let mut i: usize = 0;
    assert(v.deep_view().take(0).to_multiset() =~= r.deep_view().to_multiset()) by {
        assert(v.deep_view().take(0) =~= r.deep_view());
    }
    while i < v.len()
        invariant
            i <= v@.len(),
            sorted_le(r.deep_view()),
            r.deep_view().to_multiset() == v.deep_view().take(i as int).to_multiset(),
        decreases v@.len() - i,
    {
        let x = v[i].clone();
        assert(x@ == v.deep_view()[i as int]);
        let ghost rv = r.deep_view();
        let mut pos: usize = 0;
        while pos < r.len()
            invariant
                rv == r.deep_view(),
                sorted_le(rv),
                pos <= rv.len(),
                forall|j: int| 0 <= j < pos ==> !lex_lt(x@, #[trigger] rv[j]),
            ensures
                pos <= rv.len(),
                forall|j: int| 0 <= j < pos ==> !lex_lt(x@, #[trigger] rv[j]),
                pos < rv.len() ==> lex_lt(x@, rv[pos as int]),
            decreases rv.len() - pos,
        {
            let c = string_compare(x.as_str(), r[pos].as_str());
            assert(rv[pos as int] == r@[pos as int]@);
            if c < 0 {
                break;
            }
            pos = pos + 1;
        }
        proof {
            assert forall|j: int| pos <= j < rv.len() implies !lex_lt(#[trigger] rv[j], x@) by {
                if lex_lt(rv[j], x@) {
                    assert(lex_lt(x@, rv[pos as int]));
                    if j > pos {
                        assert(!lex_lt(rv[j], rv[pos as int]));
                        lemma_lex_trans(rv[j], x@, rv[pos as int]);
                    } else {
                        lemma_lex_asym(x@, rv[j]);
                    }
                }
            }
        }
        r.insert(pos, x);
        proof {
            let nv = r.deep_view();
            assert(nv =~= rv.insert(pos as int, x@));
            assert forall|a: int, b: int| 0 <= a < b < nv.len() implies !lex_lt(
                #[trigger] nv[b],
                #[trigger] nv[a],
            ) by {
                if b < pos {
                } else if b == pos {
                    assert(nv[a] == rv[a]);
                } else if a < pos {
                    assert(nv[a] == rv[a] && nv[b] == rv[b - 1]);
                    if lex_lt(rv[b - 1], rv[a]) {
                    }
                } else if a == pos {
                    assert(nv[b] == rv[b - 1]);
                } else {
                    assert(nv[a] == rv[a - 1] && nv[b] == rv[b - 1]);
                }
            }
            lemma_insert_multiset(rv, pos as int, x@);
            assert(v.deep_view().take(i + 1) =~= v.deep_view().take(i as int).push(x@));
            vstd::seq_lib::to_multiset_build(v.deep_view().take(i as int), x@);
        }
        i = i + 1;
    }
    assert(v.deep_view().take(i as int) =~= v.deep_view());
    r
}

} // verus!
