//! The outline of a file: its blocks, perhaps of one kind, up to a limit.
use vstd::prelude::*;

use crate::models::{kind_from_name, kind_name, lit_chars, BlockKind};
use crate::store::BlockRow;
use crate::text::{chars_of, extend_chars, str_eq, string_of};

verus! {

/// What `outline` is asked for.
pub struct OutlineOpts {
    pub root: std::path::PathBuf,
    pub path: String,
    pub kind_filter: Option<String>,
    pub limit: usize,
    pub max_bytes: u64,
    pub cursor: Option<String>,
    pub fmt: String,
}

/// The kind filter an outline uses for `kind`: the name of the kind it
/// denotes, or the message refusing it.
pub open spec fn outline_kind_spec(kind: Seq<char>) -> Result<Seq<char>, Seq<char>> {
    match kind_from_name(kind) {
        Some(k) => Ok(kind_name(k)),
        None => Err("invalid kind '"@ + kind + "'"@),
    }
}

/// The kind filter an outline uses for `kind` (see `outline_kind_spec`).
pub fn outline_kind(kind: &str) -> (r: Result<String, String>)
    ensures
        match r {
            Ok(s) => outline_kind_spec(kind@) == Ok::<Seq<char>, Seq<char>>(s@),
            Err(m) => outline_kind_spec(kind@) == Err::<Seq<char>, Seq<char>>(m@),
        },
{
    match BlockKind::from_str(kind) {
        Ok(k) => Ok(k.to_string()),
        Err(_) => {
            let mut m = lit_chars("invalid kind '");
            extend_chars(&mut m, chars_of(kind).as_slice());
            extend_chars(&mut m, lit_chars("'").as_slice());
            Err(string_of(m.as_slice()))
        },
    }
}

/// The indices, in order, of the first `n` blocks whose kind passes the
/// filter (every kind passes no filter).
pub open spec fn kind_matches(blocks: Seq<BlockRow>, filter: Option<Seq<char>>, n: int) -> Seq<int>
    decreases n,
{
    if n <= 0 {
        seq![]
    } else {
        let before = kind_matches(blocks, filter, n - 1);
        if filter is None || blocks[n - 1].kind@ == filter.unwrap() {
            before.push(n - 1)
        } else {
            before
        }
    }
}

/// The blocks an outline lists: those whose kind passes the filter, in
/// order, at most `limit` of them, as indices into `blocks`.
pub fn outline_selection(blocks: &[BlockRow], kind_filter: Option<&str>, limit: usize) -> (r: Vec<usize>)
    ensures
        ({
            let f = match kind_filter {
                Some(k) => Some(k@),
                None => None,
            };
            let all = kind_matches(blocks@, f, blocks@.len() as int);
            r@.map_values(|i: usize| i as int) == all.take(if limit < all.len() { limit as int } else { all.len() as int })
        }),
{
    let ghost f = match kind_filter {
        Some(k) => Some(k@),
        None => None,
    };
    let mut r: Vec<usize> = Vec::new();
    let mut i: usize = 0;
    while i < blocks.len()
        invariant
            i <= blocks@.len(),
            f == (match kind_filter {
                Some(k) => Some(k@),
                None => None,
            }),
            r@.len() <= limit,
            r@.map_values(|q: usize| q as int) == kind_matches(blocks@, f, i as int).take(
                if limit < kind_matches(blocks@, f, i as int).len() { limit as int } else { kind_matches(blocks@, f, i as int).len() as int },
            ),
        decreases blocks@.len() - i,
    {
        let keep = match kind_filter {
            Some(k) => str_eq(blocks[i].kind.as_str(), k),
            None => true,
        };
        let ghost before = kind_matches(blocks@, f, i as int);
        let ghost after = kind_matches(blocks@, f, i + 1);
        let ghost or = r@;
        if keep && r.len() < limit {
            r.push(i);
            assert(after == before.push(i as int));
            assert(r@.map_values(|q: usize| q as int) =~= or.map_values(|q: usize| q as int).push(i as int));
            assert(after.take(before.len() as int + 1) =~= before.push(i as int));
            assert(before.take(before.len() as int) =~= before);
        } else if keep {
            assert(after == before.push(i as int));
            assert(or.map_values(|q: usize| q as int).len() == or.len());
            assert(before.len() >= limit);
            assert(after.take(limit as int) =~= before.take(limit as int));
        }
        i = i + 1;
    }
    r
}

} // verus!
