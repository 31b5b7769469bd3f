//! Keeping the index fresh before a query: which indexed files changed on
//! disk and which are gone.
use vstd::prelude::*;

use crate::models::lit_string;
use crate::scanner::ScanResult;

verus! {

/// What became of one indexed file: gone from disk, unchanged (same
/// modification time and size as stored), or changed.
#[derive(Debug, Clone, Copy, PartialEq, Eq, Structural)]
pub enum Freshness {
    Deleted,
    Unchanged,
    Changed,
}

/// What became of a file whose current `(mtime, size)` is `on_disk` (none
/// when it cannot be read) and whose stored ones are `stored` (none when
/// the index keeps no row for it).
pub open spec fn freshness_of(on_disk: Option<(u64, u64)>, stored: Option<(u64, u64)>) -> Freshness {
    match on_disk {
        None => Freshness::Deleted,
        Some(d) => match stored {
            Some(s) => if s == d {
                Freshness::Unchanged
            } else {
                Freshness::Changed
            },
            None => Freshness::Changed,
        },
    }
}

/// What became of each indexed file (see `freshness_of`).
pub fn plan_freshness(on_disk: &[Option<(u64, u64)>], stored: &[Option<(u64, u64)>]) -> (r: Vec<Freshness>)
    requires
        on_disk@.len() == stored@.len(),
    ensures
        r@.len() == on_disk@.len(),
        forall|i: int| 0 <= i < on_disk@.len() ==> #[trigger] r@[i] == freshness_of(on_disk@[i], stored@[i]),
{
    let mut r: Vec<Freshness> = Vec::new();
    let mut i: usize = 0;
    while i < on_disk.len()
        invariant
            i <= on_disk@.len(),
            on_disk@.len() == stored@.len(),
            r@.len() == i,
            forall|q: int| 0 <= q < i ==> #[trigger] r@[q] == freshness_of(on_disk@[q], stored@[q]),
        decreases on_disk@.len() - i,
    {
        let f = match on_disk[i] {
            None => Freshness::Deleted,
            Some((dm, ds)) => match stored[i] {
                Some((sm, ss)) => if sm == dm && ss == ds {
                    Freshness::Unchanged
                } else {
                    Freshness::Changed
                },
                None => Freshness::Changed,
            },
        };
        r.push(f);
        i = i + 1;
    }
    r
}

/// What `std::path::Path::extension` gives for the path `p`, as text (empty
/// when there is none).
pub uninterp spec fn path_extension_of(p: Seq<char>) -> Seq<char>;

/// The extension of a relative path (`Path::extension`, empty when it has
/// none or it is not Unicode), a function of the text alone.
#[verifier::external_body]
fn path_extension(rel_path: &str) -> (r: String)
    ensures
        r@ == path_extension_of(rel_path@),
{
    std::path::Path::new(rel_path).extension().and_then(|e| e.to_str()).unwrap_or("").to_string()
}

/// The scan result that re-indexes a changed file: its path on disk, its
/// indexed path, the extension of that path as it stands, its size and
/// modification time.
pub fn stale_file(path: std::path::PathBuf, rel_path: &str, size: u64, mtime: u64) -> (r: ScanResult)
    ensures
        r.path == path,
        r.rel_path@ == rel_path@,
        r.extension@ == path_extension_of(rel_path@),
        r.size == size,
        r.mtime == mtime,
{
    ScanResult { path, rel_path: lit_string(rel_path), extension: path_extension(rel_path), size, mtime }
}

} // verus!
