//! Indexing: which files to read again, what git reports as changed, and
//! the ids that the blocks of a file get.
use vstd::prelude::*;

use crate::models::{
    build_symbol_id, eq_lit, kind_from_name, kind_name, lemma_symbol_id_roundtrip, lit_chars,
    lit_string, symbol_id_text, BlockKind,
};
use crate::parser::{resolve, resolve_import, ExtractedBlock, ExtractedImport};
use crate::scanner::ScanResult;
use crate::store::{BlockRow, FileMeta, ImportRow};
use crate::text::{
    strip_cr, is_whitespace, lemma_find_char_after, chars_eq, chars_of, contains_string, contains_string_slice, extend_chars, find, opt_view,
    starts_with, starts_with_exec, find_exec, lemma_find_from, lines, lines_exec, replace, replace_char_exec, slice_vec, split,
    split_exec, str_eq, string_of, trim, trim_exec, trim_start_matches, trim_start_matches_exec,
};

verus! {

/// What `index` is asked for.
pub struct IndexOpts {
    pub root: std::path::PathBuf,
    pub full: bool,
    pub path_filter: Option<String>,
    pub lang_filter: Option<String>,
    pub no_gitignore: bool,
    pub no_default_ignores: bool,
    pub ignore_file: Option<std::path::PathBuf>,
    pub max_bytes: u64,
    pub fmt: String,
}

// ── Paths ──

/// A path as the index keys it: `\` read as `/`, leading `./` dropped.
pub open spec fn rel_path_text(p: Seq<char>) -> Seq<char> {
    trim_start_matches(replace(p, seq!['\\'], seq!['/']), seq!['.', '/'])
}

/// A path as the index keys it: `\` read as `/`, leading `./` dropped.
pub fn normalize_rel_path(path: &str) -> (r: String)
    ensures
        r@ == rel_path_text(path@),
{
    let c = chars_of(path);
    let a = replace_char_exec(c.as_slice(), '\\', '/');
    let dot_slash = vec!['.', '/'];
    assert(dot_slash@ =~= seq!['.', '/']);
    let b = trim_start_matches_exec(a.as_slice(), dot_slash.as_slice());
    string_of(b.as_slice())
}

// ── Sets of paths kept as lists ──

/// Adds `x` to `v` unless it is there already.
pub fn insert_path(v: &mut Vec<String>, x: String)
    requires
        old(v).deep_view().no_duplicates(),
    ensures
        final(v).deep_view().no_duplicates(),
        final(v).deep_view().to_set() == old(v).deep_view().to_set().insert(x@),
        old(v).deep_view().contains(x@) ==> final(v).deep_view() == old(v).deep_view(),
        !old(v).deep_view().contains(x@) ==> final(v).deep_view() == old(v).deep_view().push(x@),
{
    let ghost ov = v.deep_view();
    let mut i: usize = 0;
    while i < v.len()
        invariant
            i <= v@.len(),
            ov == v.deep_view(),
            ov.no_duplicates(),
            forall|j: int| 0 <= j < i ==> ov[j] != x@,
        decreases v@.len() - i,
    {
        if str_eq(v[i].as_str(), x.as_str()) {
            assert(ov[i as int] == x@);
            assert(ov.to_set().insert(x@) =~= ov.to_set());
            return;
        }
        i = i + 1;
    }
    let ghost xv = x@;
    v.push(x);
    assert(v.deep_view() =~= ov.push(xv));
    proof {
        lemma_to_set_push(ov, xv);
        let nv = ov.push(xv);
        assert forall|a: int, b: int| 0 <= a < b < nv.len() implies nv[a] != nv[b] by {
            if b == ov.len() {
                assert(ov[a] != xv);
            }
        }
    }
}

// ── What git reports ──

/// The paths that git reports as changed since the last index, and whether
/// git can be relied on or the whole tree must be scanned.
#[derive(Debug, Clone)]
pub struct GitSyncPlan {
    pub use_git: bool,
    pub force_scan: bool,
    pub index_paths: Vec<String>,
    pub delete_paths: Vec<String>,
}

impl GitSyncPlan {
    /// Each list names each path once.
    pub open spec fn wf(&self) -> bool {
        self.index_paths.deep_view().no_duplicates() && self.delete_paths.deep_view().no_duplicates()
    }

    /// The paths to index again.
    pub open spec fn index_set(&self) -> Set<Seq<char>> {
        self.index_paths.deep_view().to_set()
    }

    /// The paths to drop.
    pub open spec fn delete_set(&self) -> Set<Seq<char>> {
        self.delete_paths.deep_view().to_set()
    }

    /// Every path that git reports, to index or to drop, each once.
    pub fn changed_paths(&self) -> (r: Vec<String>)
        requires
            self.wf(),
        ensures
            r.deep_view().no_duplicates(),
            r.deep_view().to_set() == self.index_set().union(self.delete_set()),
    {
        let mut r: Vec<String> = Vec::new();
        let mut i: usize = 0;
        while i < self.index_paths.len()
            invariant
                i <= self.index_paths@.len(),
                r.deep_view().no_duplicates(),
                r.deep_view().to_set() == self.index_paths.deep_view().take(i as int).to_set(),
            decreases self.index_paths@.len() - i,
        {
            let ghost before = self.index_paths.deep_view().take(i as int);
            insert_path(&mut r, self.index_paths[i].clone());
            assert(self.index_paths.deep_view().take(i + 1) =~= before.push(self.index_paths.deep_view()[i as int]));
            proof { lemma_to_set_push(before, self.index_paths.deep_view()[i as int]); }
            i = i + 1;
        }
        assert(self.index_paths.deep_view().take(i as int) =~= self.index_paths.deep_view());
        let mut k: usize = 0;
        while k < self.delete_paths.len()
            invariant
                k <= self.delete_paths@.len(),
                r.deep_view().no_duplicates(),
                r.deep_view().to_set() == self.index_set().union(self.delete_paths.deep_view().take(k as int).to_set()),
            decreases self.delete_paths@.len() - k,
        {
            let ghost before = self.delete_paths.deep_view().take(k as int);
            insert_path(&mut r, self.delete_paths[k].clone());
            assert(self.delete_paths.deep_view().take(k + 1) =~= before.push(self.delete_paths.deep_view()[k as int]));
            proof { lemma_to_set_push(before, self.delete_paths.deep_view()[k as int]); }
            assert(r.deep_view().to_set() =~= self.index_set().union(self.delete_paths.deep_view().take(k + 1).to_set()));
            k = k + 1;
        }
        assert(self.delete_paths.deep_view().take(k as int) =~= self.delete_paths.deep_view());
        r
    }
}

/// The set of a list grown by one is the old set with that one added.
pub proof fn lemma_to_set_push(s: Seq<Seq<char>>, x: Seq<char>)
    ensures
        s.push(x).to_set() == s.to_set().insert(x),
{
    assert forall|y: Seq<char>| #[trigger] s.push(x).to_set().contains(y) <==> s.to_set().insert(x).contains(y) by {
        if s.push(x).contains(y) {
            let j = choose|j: int| 0 <= j < s.push(x).len() && s.push(x)[j] == y;
            if j < s.len() {
                assert(s[j] == y);
            }
        }
        if s.contains(y) {
            let j = choose|j: int| 0 <= j < s.len() && s[j] == y;
            assert(s.push(x)[j] == y);
        }
        if y == x {
            assert(s.push(x)[s.len() as int] == x);
        }
    }
    assert(s.push(x).to_set() =~= s.to_set().insert(x));
}

/// The first three characters of every line are ASCII, as in the short
/// status format of git (`XY path`).
pub open spec fn status_well_formed(text: Seq<char>) -> bool {
    forall|i: int, j: int|
        0 <= i < lines(text).len() && 0 <= j < 3 && j < lines(text)[i].len() ==> (#[trigger] lines(text)[i][j] as u32) < 128
}

/// What one line of `git status --porcelain` asks for: paths to index
/// again, and paths to drop. A rename drops its old path and indexes its
/// new one; a deletion drops; anything else indexes.
pub open spec fn status_line_effect(line: Seq<char>) -> (Set<Seq<char>>, Set<Seq<char>>) {
    if line.len() < 3 {
        (Set::empty(), Set::empty())
    } else {
        let code = line.take(2);
        let rest = trim(line.skip(3));
        if rest.len() == 0 {
            (Set::empty(), Set::empty())
        } else if code.contains('R') {
            match find(rest, " -> "@) {
                Some(i) => (
                    set![rel_path_text(rest.skip(i + 4))],
                    set![rel_path_text(rest.take(i))],
                ),
                None => (Set::empty(), Set::empty()),
            }
        } else if code.contains('D') {
            (Set::empty(), set![rel_path_text(rest)])
        } else {
            (set![rel_path_text(rest)], Set::empty())
        }
    }
}

/// A file deleted in the index or in the working tree is dropped, not read
/// again: a `git status --porcelain` line `XY path` with `D` in either
/// column (and no rename) makes the plan, with HEAD where the index left
/// it, delete the path and index nothing; `' D p'` (removed, not staged)
/// deletes `p` just as `'D  p'` does.
pub proof fn lemma_status_deletion(x: char, y: char, p: Seq<char>, head: Seq<char>)
    requires
        x == 'D' || y == 'D',
        x != 'R' && y != 'R',
        x != '\n' && y != '\n',
        p.len() > 0,
        !is_whitespace(p[0]),
        !is_whitespace(p.last()),
        !p.contains('\n'),
    ensures
        ({
            let g = git_sync_spec(true, Some(head), Some(head), Some(seq![x, y, ' '] + p + seq!['\n']), None);
            &&& g.3 == set![rel_path_text(p)]
            &&& g.2 == Set::<Seq<char>>::empty()
            &&& g.3.contains(rel_path_text(p))
            &&& !g.2.contains(rel_path_text(p))
        }),
{
    let line = seq![x, y, ' '] + p;
    let text = line + seq!['\n'];
    assert(!line.contains('\n')) by {
        assert forall|i: int| 0 <= i < line.len() implies line[i] != '\n' by {
            if i >= 3 {
                assert(line[i] == p[i - 3]);
            }
        }
    }
    lemma_find_char_after(line, '\n', Seq::<char>::empty());
    assert(line + seq!['\n'] + Seq::<char>::empty() =~= text);
    assert(text.take(line.len() as int) =~= line);
    assert(text.skip(line.len() as int + 1) =~= Seq::<char>::empty());
    assert(line.last() == p.last());
    assert(strip_cr(line) == line);
    assert(lines(Seq::<char>::empty()) =~= Seq::<Seq<char>>::empty());
    assert(lines(text) =~= seq![strip_cr(text.take(line.len() as int))] + lines(text.skip(line.len() as int + 1)));
    assert(lines(text) =~= seq![line]);
    assert(seq![line].drop_last() =~= Seq::<Seq<char>>::empty());
    let code = line.take(2);
    assert(code =~= seq![x, y]);
    assert(line.skip(3) =~= p);
    assert(trim(p) == p);
    assert(!code.contains('R')) by {
        assert forall|i: int| 0 <= i < code.len() implies code[i] != 'R' by {}
    }
    assert(code.contains('D')) by {
        if x == 'D' {
            assert(code[0] == 'D');
        } else {
            assert(code[1] == 'D');
        }
    }
    let e = status_line_effect(line);
    assert(e == (Set::<Seq<char>>::empty(), set![rel_path_text(p)]));
    assert(lines_effect(Seq::<Seq<char>>::empty(), false) == (Set::<Seq<char>>::empty(), Set::<Seq<char>>::empty()));
    let le = lines_effect(seq![line], false);
    assert(seq![line].last() == line);
    assert(le.0 =~= Set::<Seq<char>>::empty());
    assert(le.1 =~= set![rel_path_text(p)]);
}

/// A file changed in any other way is read again, not dropped: a
/// `git status --porcelain` line `XY path` with neither `D` nor `R` in its
/// columns (modified, added, untracked) makes the plan, with HEAD where the
/// index left it, index the path and delete nothing.
pub proof fn lemma_status_change(x: char, y: char, p: Seq<char>, head: Seq<char>)
    requires
        x != 'D' && y != 'D',
        x != 'R' && y != 'R',
        x != '\n' && y != '\n',
        p.len() > 0,
        !is_whitespace(p[0]),
        !is_whitespace(p.last()),
        !p.contains('\n'),
    ensures
        ({
            let g = git_sync_spec(true, Some(head), Some(head), Some(seq![x, y, ' '] + p + seq!['\n']), None);
            &&& g.2 == set![rel_path_text(p)]
            &&& g.3 == Set::<Seq<char>>::empty()
        }),
{
    let line = seq![x, y, ' '] + p;
    let text = line + seq!['\n'];
    assert(!line.contains('\n')) by {
        assert forall|i: int| 0 <= i < line.len() implies line[i] != '\n' by {
            if i >= 3 {
                assert(line[i] == p[i - 3]);
            }
        }
    }
    lemma_find_char_after(line, '\n', Seq::<char>::empty());
    assert(line + seq!['\n'] + Seq::<char>::empty() =~= text);
    assert(text.take(line.len() as int) =~= line);
    assert(text.skip(line.len() as int + 1) =~= Seq::<char>::empty());
    assert(line.last() == p.last());
    assert(strip_cr(line) == line);
    assert(lines(Seq::<char>::empty()) =~= Seq::<Seq<char>>::empty());
    assert(lines(text) =~= seq![strip_cr(text.take(line.len() as int))] + lines(text.skip(line.len() as int + 1)));
    assert(lines(text) =~= seq![line]);
    assert(seq![line].drop_last() =~= Seq::<Seq<char>>::empty());
    let code = line.take(2);
    assert(code =~= seq![x, y]);
    assert(line.skip(3) =~= p);
    assert(trim(p) == p);
    assert(!code.contains('R')) by {
        assert forall|i: int| 0 <= i < code.len() implies code[i] != 'R' by {}
    }
    assert(!code.contains('D')) by {
        assert forall|i: int| 0 <= i < code.len() implies code[i] != 'D' by {}
    }
    let e = status_line_effect(line);
    assert(e == (set![rel_path_text(p)], Set::<Seq<char>>::empty()));
    assert(lines_effect(Seq::<Seq<char>>::empty(), false) == (Set::<Seq<char>>::empty(), Set::<Seq<char>>::empty()));
    let le = lines_effect(seq![line], false);
    assert(seq![line].last() == line);
    assert(le.0 =~= set![rel_path_text(p)]);
    assert(le.1 =~= Set::<Seq<char>>::empty());
}

/// What one line of `git diff --name-status` asks for.
pub open spec fn diff_line_effect(line: Seq<char>) -> (Set<Seq<char>>, Set<Seq<char>>) {
    let parts = split(line, seq!['\t']);
    let code = parts[0];
    let c = if code.len() > 0 {
        code[0]
    } else {
        'M'
    };
    if c == 'D' {
        if parts.len() >= 2 {
            (Set::empty(), set![rel_path_text(parts[1])])
        } else {
            (Set::empty(), Set::empty())
        }
    } else if c == 'R' {
        if parts.len() >= 3 {
            (set![rel_path_text(parts[2])], set![rel_path_text(parts[1])])
        } else {
            (Set::empty(), Set::empty())
        }
    } else if parts.len() >= 2 {
        (set![rel_path_text(parts[1])], Set::empty())
    } else {
        (Set::empty(), Set::empty())
    }
}

/// What a run of lines asks for, read as status lines (`diff == false`) or
/// as diff lines.
pub open spec fn lines_effect(ls: Seq<Seq<char>>, diff: bool) -> (Set<Seq<char>>, Set<Seq<char>>)
    decreases ls.len(),
{
    if ls.len() == 0 {
        (Set::empty(), Set::empty())
    } else {
        let before = lines_effect(ls.drop_last(), diff);
        let e = if diff {
            diff_line_effect(ls.last())
        } else {
            status_line_effect(ls.last())
        };
        (before.0.union(e.0), before.1.union(e.1))
    }
}

/// The plan that git's answers give: `has_git_dir` whether the root holds
/// `.git`, `current_head` the commit checked out, `last_head` the commit
/// last indexed, `status` the short status and `diff` the name-status diff
/// from `last_head` to `current_head` (each `None` where git failed).
pub open spec fn git_sync_spec(
    has_git_dir: bool,
    current_head: Option<Seq<char>>,
    last_head: Option<Seq<char>>,
    status: Option<Seq<char>>,
    diff: Option<Seq<char>>,
) -> (bool, bool, Set<Seq<char>>, Set<Seq<char>>) {
    if !has_git_dir || current_head is None {
        (false, true, Set::empty(), Set::empty())
    } else {
        let st = match status {
            Some(t) => lines_effect(lines(t), false),
            None => (Set::empty(), Set::empty()),
        };
        match last_head {
            Some(last) => if last != current_head.unwrap() {
                match diff {
                    Some(d) => {
                        let df = lines_effect(lines(d), true);
                        (true, false, st.0.union(df.0), st.1.union(df.1))
                    },
                    None => (false, true, st.0, st.1),
                }
            } else {
                (true, false, st.0, st.1)
            },
            None => (false, true, st.0, st.1),
        }
    }
}

/// Adds what one line asks for to `plan`.
fn apply_line(plan: &mut GitSyncPlan, line: &[char], diff: bool)
    requires
        old(plan).wf(),
        !diff ==> forall|j: int| 0 <= j < 3 && j < line@.len() ==> (line@[j] as u32) < 128,
    ensures
        final(plan).wf(),
        final(plan).use_git == old(plan).use_git,
        final(plan).force_scan == old(plan).force_scan,
        ({
            let e = if diff {
                diff_line_effect(line@)
            } else {
                status_line_effect(line@)
            };
            &&& final(plan).index_set() == old(plan).index_set().union(e.0)
            &&& final(plan).delete_set() == old(plan).delete_set().union(e.1)
        }),
{
    proof {
        reveal_strlit(" -> ");
    }
    let ghost e = if diff {
        diff_line_effect(line@)
    } else {
        status_line_effect(line@)
    };
    let ghost oi = plan.index_set();
    let ghost od = plan.delete_set();
    if diff {
        let tab = vec!['\t'];
        assert(tab@ =~= seq!['\t']);
        let parts = split_exec(line, tab.as_slice());
        assert(parts.deep_view().len() >= 1);
        let n = parts.len();
        assert(parts@[0].deep_view() =~= parts@[0]@);
        let c = if parts[0].len() > 0 {
            parts[0][0]
        } else {
            'M'
        };
        if c == 'D' {
            if n >= 2 {
                assert(parts@[1].deep_view() =~= parts@[1]@);
                let p = normalize_rel_path(string_of(parts[1].as_slice()).as_str());
                insert_path(&mut plan.delete_paths, p);
            }
        } else if c == 'R' {
            if n >= 3 {
                assert(parts@[1].deep_view() =~= parts@[1]@);
                assert(parts@[2].deep_view() =~= parts@[2]@);
                let p = normalize_rel_path(string_of(parts[1].as_slice()).as_str());
                insert_path(&mut plan.delete_paths, p);
                let q = normalize_rel_path(string_of(parts[2].as_slice()).as_str());
                insert_path(&mut plan.index_paths, q);
            }
        } else if n >= 2 {
            assert(parts@[1].deep_view() =~= parts@[1]@);
            let p = normalize_rel_path(string_of(parts[1].as_slice()).as_str());
            insert_path(&mut plan.index_paths, p);
        }
        assert(plan.index_set() =~= oi.union(e.0));
        assert(plan.delete_set() =~= od.union(e.1));
        return;
    }
    if line.len() < 3 {
        assert(plan.index_set() =~= oi.union(e.0));
        assert(plan.delete_set() =~= od.union(e.1));
        return;
    }
    let code = slice_vec(line, 0, 2);
    assert(code@ =~= line@.take(2));
    let tail = slice_vec(line, 3, line.len());
    assert(tail@ =~= line@.skip(3));
    let rest = trim_exec(tail.as_slice());
    if rest.len() == 0 {
        assert(plan.index_set() =~= oi.union(e.0));
        assert(plan.delete_set() =~= od.union(e.1));
        return;
    }
    let has_r = code[0] == 'R' || code[1] == 'R';
    let has_d = code[0] == 'D' || code[1] == 'D';
    assert(has_r == code@.contains('R')) by {
        if code@.contains('R') {
            let j = choose|j: int| 0 <= j < code@.len() && code@[j] == 'R';
            assert(j == 0 || j == 1);
        }
        if code[0] == 'R' {
            assert(code@[0] == 'R');
        }
        if code[1] == 'R' {
            assert(code@[1] == 'R');
        }
    }
    assert(has_d == code@.contains('D')) by {
        if code@.contains('D') {
            let j = choose|j: int| 0 <= j < code@.len() && code@[j] == 'D';
            assert(j == 0 || j == 1);
        }
        if code[0] == 'D' {
            assert(code@[0] == 'D');
        }
        if code[1] == 'D' {
            assert(code@[1] == 'D');
        }
    }
    if has_r {
        let arrow = lit_chars(" -> ");
        match find_exec(rest.as_slice(), arrow.as_slice()) {
            Some(i) => {
                proof {
                    lemma_find_from(rest@, arrow@, 0);
                }
                let old_p = slice_vec(rest.as_slice(), 0, i);
                assert(old_p@ =~= rest@.take(i as int));
                let new_p = slice_vec(rest.as_slice(), i + 4, rest.len());
                assert(new_p@ =~= rest@.skip(i + 4));
                let a = normalize_rel_path(string_of(old_p.as_slice()).as_str());
                insert_path(&mut plan.delete_paths, a);
                let b = normalize_rel_path(string_of(new_p.as_slice()).as_str());
                insert_path(&mut plan.index_paths, b);
            },
            None => {},
        }
    } else if has_d {
        let a = normalize_rel_path(string_of(rest.as_slice()).as_str());
        insert_path(&mut plan.delete_paths, a);
    } else {
        let a = normalize_rel_path(string_of(rest.as_slice()).as_str());
        insert_path(&mut plan.index_paths, a);
    }
    assert(plan.index_set() =~= oi.union(e.0));
    assert(plan.delete_set() =~= od.union(e.1));
}

/// Adds what each line of `text` asks for to `plan`.
fn apply_lines(plan: &mut GitSyncPlan, text: &str, diff: bool)
    requires
        old(plan).wf(),
        !diff ==> status_well_formed(text@),
    ensures
        final(plan).wf(),
        final(plan).use_git == old(plan).use_git,
        final(plan).force_scan == old(plan).force_scan,
        final(plan).index_set() == old(plan).index_set().union(lines_effect(lines(text@), diff).0),
        final(plan).delete_set() == old(plan).delete_set().union(lines_effect(lines(text@), diff).1),
{
    let c = chars_of(text);
    let ls = lines_exec(c.as_slice());
    let ghost lv = ls.deep_view();
    let ghost oi = plan.index_set();
    let ghost od = plan.delete_set();
    let ghost ou = plan.use_git;
    let ghost of = plan.force_scan;
    let mut i: usize = 0;
    assert(lv.take(0) =~= Seq::<Seq<char>>::empty());
    assert(oi.union(Set::empty()) =~= oi);
    assert(od.union(Set::empty()) =~= od);
    while i < ls.len()
        invariant
            i <= lv.len(),
            lv == ls.deep_view(),
            lv == lines(text@),
            !diff ==> status_well_formed(text@),
            plan.wf(),
            plan.use_git == ou,
            plan.force_scan == of,
            plan.index_set() == oi.union(lines_effect(lv.take(i as int), diff).0),
            plan.delete_set() == od.union(lines_effect(lv.take(i as int), diff).1),
        decreases lv.len() - i,
    {
        assert(ls@[i as int].deep_view() =~= ls@[i as int]@);
        assert(lv[i as int] == ls@[i as int]@);
        proof {
            if !diff {
                assert forall|j: int| 0 <= j < 3 && j < ls@[i as int]@.len() implies (ls@[i as int]@[j] as u32) < 128 by {
                    assert(lines(text@)[i as int][j] == ls@[i as int]@[j]);
                }
            }
        }
        apply_line(plan, ls[i].as_slice(), diff);
        assert(lv.take(i + 1).drop_last() =~= lv.take(i as int));
        assert(lv.take(i + 1).last() == lv[i as int]);
        i = i + 1;
        assert(plan.index_set() =~= oi.union(lines_effect(lv.take(i as int), diff).0));
        assert(plan.delete_set() =~= od.union(lines_effect(lv.take(i as int), diff).1));
    }
    assert(lv.take(i as int) =~= lv);
}

/// The plan that git's answers give (see `git_sync_spec`). Git's output
/// comes from the caller; a status whose lines do not start with three
/// ASCII characters is not git's.
pub fn git_sync_plan(
    has_git_dir: bool,
    current_head: Option<&str>,
    last_head: Option<&str>,
    status: Option<&str>,
    diff: Option<&str>,
) -> (r: GitSyncPlan)
    requires
        match status {
            Some(t) => status_well_formed(t@),
            None => true,
        },
    ensures
        r.wf(),
        ({
            let cur = match current_head {
                Some(h) => Some(h@),
                None => None,
            };
            let last = match last_head {
                Some(h) => Some(h@),
                None => None,
            };
            let st = match status {
                Some(t) => Some(t@),
                None => None,
            };
            let df = match diff {
                Some(t) => Some(t@),
                None => None,
            };
            git_sync_spec(has_git_dir, cur, last, st, df) == (r.use_git, r.force_scan, r.index_set(), r.delete_set())
        }),
{
    let mut plan = GitSyncPlan { use_git: false, force_scan: false, index_paths: Vec::new(), delete_paths: Vec::new() };
    assert(plan.index_set() =~= Set::<Seq<char>>::empty());
    assert(plan.delete_set() =~= Set::<Seq<char>>::empty());
    if !has_git_dir {
        plan.force_scan = true;
        return plan;
    }
    let head = match current_head {
        Some(h) => h,
        None => {
            plan.force_scan = true;
            return plan;
        },
    };
    match status {
        Some(t) => apply_lines(&mut plan, t, false),
        None => {},
    }
    let ghost si = plan.index_set();
    let ghost sd = plan.delete_set();
    match last_head {
        Some(last) => {
            if !str_eq(last, head) {
                match diff {
                    Some(d) => {
                        plan.use_git = true;
                        apply_lines(&mut plan, d, true);
                    },
                    None => {
                        plan.force_scan = true;
                    },
                }
            } else {
                plan.use_git = true;
            }
        },
        None => {
            plan.force_scan = true;
        },
    }
    assert(Set::<Seq<char>>::empty().union(si) =~= si);
    assert(Set::<Seq<char>>::empty().union(sd) =~= sd);
    plan
}

// ── Symbol ids of the blocks of a file ──

/// The key under which blocks of a file count as namesakes: `kind#name`.
pub open spec fn block_key(kind: Seq<char>, name: Seq<char>) -> Seq<char> {
    kind + seq!['#'] + name
}

/// The keys of a list of blocks.
pub open spec fn block_keys(blocks: Seq<ExtractedBlock>) -> Seq<Seq<char>> {
    blocks.map_values(|b: ExtractedBlock| block_key(b.kind@, b.name@))
}

/// How many of the first `n` keys equal `k`.
pub open spec fn count_key(keys: Seq<Seq<char>>, k: Seq<char>, n: int) -> nat
    decreases n,
{
    if n <= 0 {
        0
    } else {
        count_key(keys, k, n - 1) + if keys[n - 1] == k {
            1nat
        } else {
            0nat
        }
    }
}

/// The occurrence number of block `i`: how many namesakes come before it,
/// given only when it has namesakes at all.
pub open spec fn occurrence_of(keys: Seq<Seq<char>>, i: int) -> Option<u32> {
    if count_key(keys, keys[i], keys.len() as int) > 1 {
        Some(count_key(keys, keys[i], i) as u32)
    } else {
        None
    }
}

/// The kind a block's kind text stands for, `Function` when it names none.
pub open spec fn loose_kind(s: Seq<char>) -> BlockKind {
    match kind_from_name(s) {
        Some(k) => k,
        None => BlockKind::Function,
    }
}

/// The symbol id of block `i` of the file at `path`.
pub open spec fn block_symbol_id(path: Seq<char>, blocks: Seq<ExtractedBlock>, i: int) -> Seq<char> {
    symbol_id_text(path, loose_kind(blocks[i].kind@), blocks[i].name@, occurrence_of(block_keys(blocks), i))
}

/// How many of the first `n` keys equal `k`.
fn count_key_exec(keys: &Vec<Vec<char>>, k: &[char], n: usize) -> (r: u32)
    requires
        n <= keys@.len() <= u32::MAX,
    ensures
        r == count_key(keys.deep_view(), k@, n as int),
{
    let mut c: u32 = 0;
    let mut j: usize = 0;
    while j < n
        invariant
            j <= n <= keys@.len() <= u32::MAX,
            c == count_key(keys.deep_view(), k@, j as int),
            c <= j,
        decreases n - j,
    {
        assert(keys@[j as int].deep_view() =~= keys@[j as int]@);
        if chars_eq(keys[j].as_slice(), k) {
            c = c + 1;
        }
        j = j + 1;
    }
    c
}

/// The symbol ids of the blocks of the file at `path`, in block order:
/// `path#kind#name`, with `#N` added where several blocks share kind and
/// name, `N` counting those before it.
pub fn assign_symbol_ids(path: &str, blocks: &[ExtractedBlock]) -> (r: Vec<String>)
    requires
        blocks@.len() <= u32::MAX,
    ensures
        r@.len() == blocks@.len(),
        forall|i: int| 0 <= i < blocks@.len() ==> #[trigger] r@[i]@ == block_symbol_id(path@, blocks@, i),
{
    let ghost bv = blocks@;
    let mut keys: Vec<Vec<char>> = Vec::new();
    let mut i: usize = 0;
    while i < blocks.len()
        invariant
            i <= bv.len(),
            bv == blocks@,
            keys.deep_view() == block_keys(bv).take(i as int),
        decreases bv.len() - i,
    {
        let mut k = chars_of(blocks[i].kind.as_str());
        k.push('#');
        let nm = chars_of(blocks[i].name.as_str());
        extend_chars(&mut k, nm.as_slice());
        assert(k@ =~= block_key(bv[i as int].kind@, bv[i as int].name@));
        assert(k.deep_view() =~= k@);
        let ghost old_k = keys.deep_view();
        let ghost kv = k@;
        keys.push(k);
        assert(keys.deep_view() =~= old_k.push(kv));
        assert(block_keys(bv).take(i + 1) =~= block_keys(bv).take(i as int).push(block_keys(bv)[i as int]));
        i = i + 1;
    }
    assert(block_keys(bv).take(i as int) =~= block_keys(bv));
    let ghost kv = keys.deep_view();
    assert(keys@.len() == kv.len());
    let mut r: Vec<String> = Vec::new();
    let mut j: usize = 0;
    while j < blocks.len()
        invariant
            j <= bv.len() <= u32::MAX,
            bv == blocks@,
            kv == keys.deep_view(),
            kv == block_keys(bv),
            keys@.len() == bv.len(),
            r@.len() == j,
            forall|q: int| 0 <= q < j ==> #[trigger] r@[q]@ == block_symbol_id(path@, bv, q),
        decreases bv.len() - j,
    {
        assert(keys@[j as int].deep_view() =~= keys@[j as int]@);
        let total = count_key_exec(&keys, keys[j].as_slice(), keys.len());
        let occurrence = if total > 1 {
            Some(count_key_exec(&keys, keys[j].as_slice(), j))
        } else {
            None
        };
        let kind = BlockKind::from_str_loose(blocks[j].kind.as_str());
        let id = build_symbol_id(path, &kind, blocks[j].name.as_str(), occurrence);
        r.push(id);
        j = j + 1;
    }
    r
}

/// A copy of an optional text.
fn copy_opt(o: &Option<String>) -> (r: Option<String>)
    ensures
        opt_view(r) == opt_view(*o),
{
    match o {
        Some(t) => Some(t.clone()),
        None => None,
    }
}

/// The rows the index keeps for the blocks of the file at `path`, written
/// in `language`: each block in order, under its symbol id (see
/// `assign_symbol_ids`), with its kind, name, position, signature, doc
/// and preview.
pub fn block_rows(path: &str, language: &str, blocks: &[ExtractedBlock]) -> (r: Vec<BlockRow>)
    requires
        blocks@.len() <= u32::MAX,
    ensures
        r@.len() == blocks@.len(),
        forall|i: int|
            0 <= i < blocks@.len() ==> {
                let row = #[trigger] r@[i];
                let b = blocks@[i];
                &&& row.symbol_id@ == block_symbol_id(path@, blocks@, i)
                &&& row.path@ == path@
                &&& row.language@ == language@
                &&& row.kind@ == b.kind@
                &&& row.name@ == b.name@
                &&& row.start_line == b.start_line
                &&& row.start_col == b.start_col
                &&& row.end_line == b.end_line
                &&& row.end_col == b.end_col
                &&& opt_view(row.signature) == opt_view(b.signature)
                &&& opt_view(row.doc) == opt_view(b.doc)
                &&& row.preview@ == b.preview@
            },
{
    let ids = assign_symbol_ids(path, blocks);
    let mut r: Vec<BlockRow> = Vec::new();
    let mut i: usize = 0;
    while i < blocks.len()
        invariant
            i <= blocks@.len(),
            ids@.len() == blocks@.len(),
            forall|q: int| 0 <= q < blocks@.len() ==> #[trigger] ids@[q]@ == block_symbol_id(path@, blocks@, q),
            r@.len() == i,
            forall|q: int|
                0 <= q < i ==> {
                    let row = #[trigger] r@[q];
                    let b = blocks@[q];
                    &&& row.symbol_id@ == block_symbol_id(path@, blocks@, q)
                    &&& row.path@ == path@
                    &&& row.language@ == language@
                    &&& row.kind@ == b.kind@
                    &&& row.name@ == b.name@
                    &&& row.start_line == b.start_line
                    &&& row.start_col == b.start_col
                    &&& row.end_line == b.end_line
                    &&& row.end_col == b.end_col
                    &&& opt_view(row.signature) == opt_view(b.signature)
                    &&& opt_view(row.doc) == opt_view(b.doc)
                    &&& row.preview@ == b.preview@
                },
        decreases blocks@.len() - i,
    {
        let b = &blocks[i];
        let row = BlockRow {
            symbol_id: ids[i].clone(),
            path: lit_string(path),
            language: lit_string(language),
            kind: b.kind.clone(),
            name: b.name.clone(),
            start_line: b.start_line,
            start_col: b.start_col,
            end_line: b.end_line,
            end_col: b.end_col,
            signature: copy_opt(&b.signature),
            doc: copy_opt(&b.doc),
            preview: b.preview.clone(),
        };
        r.push(row);
        i = i + 1;
    }
    r
}

/// Among the first `j` keys, one equal to `k` at `i < j` counts beyond those
/// before `i`.
pub proof fn lemma_count_key_grows(keys: Seq<Seq<char>>, k: Seq<char>, i: int, j: int)
    requires
        0 <= i < j <= keys.len(),
        keys[i] == k,
    ensures
        count_key(keys, k, j) >= count_key(keys, k, i) + 1,
    decreases j - i,
{
    if j == i + 1 {
    } else {
        lemma_count_key_grows(keys, k, i, j - 1);
    }
}

/// The count among the first `n` keys is at most `n`.
pub proof fn lemma_count_key_bound(keys: Seq<Seq<char>>, k: Seq<char>, n: int)
    requires
        0 <= n,
    ensures
        count_key(keys, k, n) <= n,
    decreases n,
{
    if n > 0 {
        lemma_count_key_bound(keys, k, n - 1);
    }
}

/// Symbol ids do not depend on where blocks stand: two lists of blocks with
/// the same kinds and names, in order, get the same ids.
pub proof fn lemma_symbol_ids_ignore_position(path: Seq<char>, a: Seq<ExtractedBlock>, b: Seq<ExtractedBlock>, i: int)
    requires
        a.len() == b.len(),
        forall|q: int| 0 <= q < a.len() ==> (#[trigger] a[q]).kind@ == b[q].kind@ && a[q].name@ == b[q].name@,
        0 <= i < a.len(),
    ensures
        block_symbol_id(path, a, i) == block_symbol_id(path, b, i),
{
    assert(block_keys(a) =~= block_keys(b)) by {
        assert forall|q: int| 0 <= q < a.len() implies block_keys(a)[q] == block_keys(b)[q] by {
            assert(a[q].kind@ == b[q].kind@);
        }
    }
}

/// Within a file, no two blocks get the same symbol id, provided the path
/// and the names hold no `#` and each kind is written as its own name.
pub proof fn lemma_symbol_ids_distinct(path: Seq<char>, blocks: Seq<ExtractedBlock>, i: int, j: int)
    requires
        blocks.len() <= u32::MAX,
        !path.contains('#'),
        forall|q: int| 0 <= q < blocks.len() ==> !(#[trigger] blocks[q]).name@.contains('#'),
        forall|q: int|
            0 <= q < blocks.len() ==> kind_name(loose_kind((#[trigger] blocks[q]).kind@)) == blocks[q].kind@,
        0 <= i < j < blocks.len(),
    ensures
        block_symbol_id(path, blocks, i) != block_symbol_id(path, blocks, j),
{
    let keys = block_keys(blocks);
    let bi = blocks[i];
    let bj = blocks[j];
    let oi = occurrence_of(keys, i);
    let oj = occurrence_of(keys, j);
    lemma_symbol_id_roundtrip(path, loose_kind(bi.kind@), bi.name@, oi);
    lemma_symbol_id_roundtrip(path, loose_kind(bj.kind@), bj.name@, oj);
    if block_symbol_id(path, blocks, i) == block_symbol_id(path, blocks, j) {
        assert(bi.kind@ == bj.kind@);
        assert(bi.name@ == bj.name@);
        assert(keys[i] == keys[j]);
        let k = keys[i];
        lemma_count_key_grows(keys, k, i, j);
        lemma_count_key_grows(keys, k, j, keys.len() as int);
        lemma_count_key_bound(keys, k, i);
        lemma_count_key_bound(keys, k, j);
        assert(count_key(keys, k, keys.len() as int) > 1);
        assert(oi == Some(count_key(keys, k, i) as u32));
        assert(oj == Some(count_key(keys, k, j) as u32));
        assert(false);
    }
}

// ── Content hashes ──

/// What `xxhash_rust::xxh3::xxh3_64` gives for `data`.
pub uninterp spec fn xxh3_64_of(data: Seq<u8>) -> u64;

/// The XXH3 64-bit hash of `data` (`xxhash_rust::xxh3::xxh3_64`), a
/// function of the bytes alone.
#[verifier::external_body]
fn xxh3_64(data: &[u8]) -> (r: u64)
    ensures
        r == xxh3_64_of(data@),
{
    xxhash_rust::xxh3::xxh3_64(data)
}

/// The lower-case hexadecimal digits.
pub open spec fn hex_digit(d: nat) -> char {
    seq!['0', '1', '2', '3', '4', '5', '6', '7', '8', '9', 'a', 'b', 'c', 'd', 'e', 'f'][d as int]
}

/// The last `k` hexadecimal digits of `n`, most significant first.
pub open spec fn hex_text(n: nat, k: nat) -> Seq<char>
    decreases k,
{
    if k == 0 {
        seq![]
    } else {
        hex_text(n / 16, (k - 1) as nat).push(hex_digit(n % 16))
    }
}

/// The last `k` hexadecimal digits of `n`.
fn hex_digits(n: u64, k: usize) -> (r: Vec<char>)
    ensures
        r@ == hex_text(n as nat, k as nat),
    decreases k,
{
    if k == 0 {
        return Vec::new();
    }
    let table: [char; 16] = ['0', '1', '2', '3', '4', '5', '6', '7', '8', '9', 'a', 'b', 'c', 'd', 'e', 'f'];
    let mut v = hex_digits(n / 16, k - 1);
    let d: usize = (n % 16) as usize;
    assert(table@ =~= seq!['0', '1', '2', '3', '4', '5', '6', '7', '8', '9', 'a', 'b', 'c', 'd', 'e', 'f']);
    v.push(table[d]);
    v
}

/// The content hash the index keeps: the XXH3 hash of the bytes as 16
/// lower-case hexadecimal digits.
pub open spec fn content_hash_text(data: Seq<u8>) -> Seq<char> {
    hex_text(xxh3_64_of(data) as nat, 16)
}

/// The content hash of a file's bytes, as the index keeps it.
pub fn content_hash(data: &[u8]) -> (r: String)
    ensures
        r@ == content_hash_text(data@),
{
    let h = xxh3_64(data);
    let v = hex_digits(h, 16);
    string_of(v.as_slice())
}

// ── How a run goes ──

/// How an index run goes: whether imports are filled in for every file
/// (an index built before imports were kept), whether git's report decides
/// what to read, and whether the scan is compared with the whole index.
#[derive(Debug, Clone, Copy)]
pub struct IndexMode {
    pub backfill_imports: bool,
    pub git_mode: bool,
    pub full_compare: bool,
}

/// How a run goes (see `index_mode`): imports are filled in when a plain
/// run finds blocks but no imports and has not done so before; git decides
/// what to read on a plain run without that, when git can be used and no
/// scan is forced; otherwise a run with no filter compares the stored files
/// with the scanned ones.
pub open spec fn mode_spec(
    full: bool,
    filtered: bool,
    import_count: u64,
    block_count: u64,
    backfill_done: bool,
    use_git: bool,
    force_scan: bool,
) -> IndexMode {
    let backfill_imports = !full && !filtered && import_count == 0 && block_count > 0 && !backfill_done;
    let git_mode = !full && !filtered && !backfill_imports && use_git && !force_scan;
    IndexMode { backfill_imports, git_mode, full_compare: full || (!filtered && !git_mode) }
}

/// How a run goes: `full` asks for a full index, `filtered` whether a path
/// or language filter is given; the counts and `backfill_done` come from the
/// index, `use_git` and `force_scan` from the git plan.
pub fn index_mode(
    full: bool,
    filtered: bool,
    import_count: u64,
    block_count: u64,
    backfill_done: bool,
    use_git: bool,
    force_scan: bool,
) -> (r: IndexMode)
    ensures
        r == mode_spec(full, filtered, import_count, block_count, backfill_done, use_git, force_scan),
{
    let backfill_imports = !full && !filtered && import_count == 0 && block_count > 0 && !backfill_done;
    let git_mode = !full && !filtered && !backfill_imports && use_git && !force_scan;
    IndexMode { backfill_imports, git_mode, full_compare: full || (!filtered && !git_mode) }
}

/// Whether a scanned file is kept: in git mode only those git reports,
/// and with a path filter only those under it.
pub open spec fn keep_file(f: ScanResult, changed: Option<Seq<Seq<char>>>, prefix: Option<Seq<char>>) -> bool {
    &&& match changed {
        Some(c) => c.contains(f.rel_path@),
        None => true,
    }
    &&& match prefix {
        Some(p) => starts_with(f.rel_path@, rel_path_text(p)),
        None => true,
    }
}

/// The scanned files that a run reads: in git mode (`changed` given) those
/// that git reports, and with a path filter those whose path starts with the
/// filter (read as the index keys paths); order kept.
pub fn select_files(files: Vec<ScanResult>, changed: Option<&Vec<String>>, path_filter: Option<&str>) -> (r: Vec<ScanResult>)
    ensures
        ({
            let c = match changed {
                Some(v) => Some(v.deep_view()),
                None => None,
            };
            let p = match path_filter {
                Some(s) => Some(s@),
                None => None,
            };
            r@ == files@.filter(|f: ScanResult| keep_file(f, c, p))
        }),
{
    let ghost c = match changed {
        Some(v) => Some(v.deep_view()),
        None => None,
    };
    let ghost p = match path_filter {
        Some(s) => Some(s@),
        None => None,
    };
    let ghost pred = |f: ScanResult| keep_file(f, c, p);
    let prefix: Option<Vec<char>> = match path_filter {
        Some(s) => {
            let n = normalize_rel_path(s);
            Some(chars_of(n.as_str()))
        },
        None => None,
    };
    let mut r: Vec<ScanResult> = Vec::new();
    let mut i: usize = 0;
    let ghost fv = files@;
    assert(fv.take(0) =~= Seq::<ScanResult>::empty());
    proof {
        reveal(Seq::filter);
    }
    while i < files.len()
        invariant
            i <= fv.len(),
            fv == files@,
            pred == (|f: ScanResult| keep_file(f, c, p)),
            c == (match changed {
                Some(v) => Some(v.deep_view()),
                None => None,
            }),
            match prefix {
                Some(v) => p is Some && v@ == rel_path_text(p.unwrap()),
                None => p is None,
            },
            r@ == fv.take(i as int).filter(pred),
        decreases fv.len() - i,
    {
        let f = &files[i];
        let in_changed = match changed {
            Some(v) => contains_string(v, f.rel_path.as_str()),
            None => true,
        };
        let under = match &prefix {
            Some(pv) => {
                let rc = chars_of(f.rel_path.as_str());
                starts_with_exec(rc.as_slice(), pv.as_slice())
            },
            None => true,
        };
        assert(fv.take(i + 1).drop_last() =~= fv.take(i as int));
        assert(fv.take(i + 1).last() == fv[i as int]);
        let ghost old_r = r@;
        proof {
            reveal(Seq::filter);
        }
        if in_changed && under {
            let g = files[i].copy();
            r.push(g);
            assert(pred(fv[i as int]));
            assert(fv.take(i + 1).filter(pred) == fv.take(i as int).filter(pred).push(fv[i as int]));
            assert(r@ == old_r.push(fv[i as int]));
        } else {
            assert(!pred(fv[i as int]));
            assert(fv.take(i + 1).filter(pred) == fv.take(i as int).filter(pred));
        }
        i = i + 1;
    }
    assert(fv.take(i as int) =~= fv);
    r
}

/// Adds each of `xs` to `v` unless it is there already.
pub fn insert_paths(v: &mut Vec<String>, xs: &[String])
    requires
        old(v).deep_view().no_duplicates(),
    ensures
        final(v).deep_view().no_duplicates(),
        final(v).deep_view().to_set() == old(v).deep_view().to_set().union(xs.deep_view().to_set()),
{
    let ghost ov = v.deep_view().to_set();
    let ghost xv = xs.deep_view();
    let mut i: usize = 0;
    assert(xv.take(0).to_set() =~= Set::<Seq<char>>::empty());
    assert(ov.union(Set::empty()) =~= ov);
    while i < xs.len()
        invariant
            i <= xv.len(),
            xv == xs.deep_view(),
            v.deep_view().no_duplicates(),
            v.deep_view().to_set() == ov.union(xv.take(i as int).to_set()),
        decreases xv.len() - i,
    {
        insert_path(v, xs[i].clone());
        proof {
            lemma_to_set_push(xv.take(i as int), xv[i as int]);
            assert(xv.take(i + 1) =~= xv.take(i as int).push(xv[i as int]));
        }
        assert(v.deep_view().to_set() =~= ov.union(xv.take(i + 1).to_set()));
        i = i + 1;
    }
    assert(xv.take(i as int) =~= xv);
}

/// The paths a run deletes: in git mode those git reports gone that the
/// index holds; when comparing, those the index holds that the scan no
/// longer finds; else none.
pub open spec fn sync_deletes(mode: IndexMode, git_deleted: Set<Seq<char>>, existing: Set<Seq<char>>, scanned: Set<Seq<char>>) -> Set<Seq<char>> {
    if mode.git_mode {
        git_deleted.intersect(existing)
    } else if mode.full_compare {
        existing.difference(scanned)
    } else {
        Set::empty()
    }
}

/// The paths a run indexes: in git mode those git reports changed, else
/// those scanned; and all the index holds while imports are filled in.
pub open spec fn sync_indexes(mode: IndexMode, git_changed: Set<Seq<char>>, existing: Set<Seq<char>>, scanned: Set<Seq<char>>) -> Set<Seq<char>> {
    (if mode.git_mode {
        git_changed
    } else {
        scanned
    }).union(if mode.backfill_imports {
        existing
    } else {
        Set::empty()
    })
}

/// A run after an indexed run with nothing changed since indexes and
/// deletes nothing: in a git repository whose HEAD is the one last indexed
/// and whose status lists no change, with no import fill-in pending, a
/// plain run goes by git, which reports nothing, so no file is read again
/// and none is deleted, and the blocks stored stay as they are.
pub proof fn lemma_quiet_git_run(
    head: Seq<char>,
    import_count: u64,
    block_count: u64,
    backfill_done: bool,
    existing: Set<Seq<char>>,
    scanned: Set<Seq<char>>,
)
    requires
        import_count > 0 || block_count == 0 || backfill_done,
    ensures
        ({
            let g = git_sync_spec(true, Some(head), Some(head), Some(Seq::<char>::empty()), None);
            let mode = mode_spec(false, false, import_count, block_count, backfill_done, g.0, g.1);
            &&& g == (true, false, Set::<Seq<char>>::empty(), Set::<Seq<char>>::empty())
            &&& mode.git_mode
            &&& sync_deletes(mode, g.3, existing, scanned) == Set::<Seq<char>>::empty()
            &&& sync_indexes(mode, g.2, existing, scanned) == Set::<Seq<char>>::empty()
        }),
{
    let g = git_sync_spec(true, Some(head), Some(head), Some(Seq::<char>::empty()), None);
    assert(lines(Seq::<char>::empty()) =~= Seq::<Seq<char>>::empty());
    assert(lines_effect(Seq::<Seq<char>>::empty(), false) == (Set::<Seq<char>>::empty(), Set::<Seq<char>>::empty()));
    let mode = mode_spec(false, false, import_count, block_count, backfill_done, g.0, g.1);
    assert(sync_deletes(mode, g.3, existing, scanned) =~= Set::<Seq<char>>::empty());
    assert(sync_indexes(mode, g.2, existing, scanned) =~= Set::<Seq<char>>::empty());
}

/// Whether the index may skip a scanned file without reading it (see
/// `stat_unchanged`).
pub open spec fn stat_same(existing: Option<FileMeta>, mtime: u64, size: u64, backfill_imports: bool) -> bool {
    !backfill_imports && (existing matches Some(e) && e.mtime == mtime && e.size == size)
}

/// A run without git after an indexed run with nothing changed since
/// re-reads nothing and deletes nothing: with no import fill-in pending it
/// compares the stored files with the scanned ones, deletes none when the
/// scan still finds each stored file, and skips every scanned file whose
/// stored size and modification time are those the scan sees.
pub proof fn lemma_quiet_scan_run(
    import_count: u64,
    block_count: u64,
    backfill_done: bool,
    existing: Set<Seq<char>>,
    scanned: Set<Seq<char>>,
    stored: Option<FileMeta>,
    mtime: u64,
    size: u64,
)
    requires
        import_count > 0 || block_count == 0 || backfill_done,
        existing.subset_of(scanned),
        stored matches Some(e) && e.mtime == mtime && e.size == size,
    ensures
        ({
            let mode = mode_spec(false, false, import_count, block_count, backfill_done, false, true);
            &&& mode.full_compare && !mode.backfill_imports
            &&& sync_deletes(mode, Set::empty(), existing, scanned) == Set::<Seq<char>>::empty()
            &&& stat_same(stored, mtime, size, mode.backfill_imports)
        }),
{
    let mode = mode_spec(false, false, import_count, block_count, backfill_done, false, true);
    assert(sync_deletes(mode, Set::empty(), existing, scanned) =~= Set::<Seq<char>>::empty());
}

/// The paths a run drops and the paths it reads again: in git mode what git
/// reports (dropping only indexed paths), when comparing the whole index
/// every indexed path the scan did not find, and otherwise nothing; it reads
/// the scanned paths (git's in git mode), and every indexed path as well
/// when imports are filled in.
pub fn plan_sync(mode: IndexMode, plan: &GitSyncPlan, existing: &[String], scanned: &[String]) -> (r: (Vec<String>, Vec<String>))
    requires
        plan.wf(),
    ensures
        r.0.deep_view().no_duplicates(),
        r.1.deep_view().no_duplicates(),
        r.0.deep_view().to_set() == sync_deletes(mode, plan.delete_set(), existing.deep_view().to_set(), scanned.deep_view().to_set()),
        r.1.deep_view().to_set() == sync_indexes(mode, plan.index_set(), existing.deep_view().to_set(), scanned.deep_view().to_set()),
{
    let ghost ev = existing.deep_view();
    let ghost sv = scanned.deep_view();
    let mut to_delete: Vec<String> = Vec::new();
    let mut to_index: Vec<String> = Vec::new();
    assert(to_index.deep_view().to_set() =~= Set::<Seq<char>>::empty());
    if mode.git_mode {
        let mut i: usize = 0;
        let ghost dv = plan.delete_paths.deep_view();
        assert(to_delete.deep_view().to_set() =~= Set::<Seq<char>>::empty());
        while i < plan.delete_paths.len()
            invariant
                i <= dv.len(),
                dv == plan.delete_paths.deep_view(),
                ev == existing.deep_view(),
                to_delete.deep_view().no_duplicates(),
                to_delete.deep_view().to_set() == dv.take(i as int).to_set().intersect(ev.to_set()),
            decreases dv.len() - i,
        {
            let ghost before = to_delete.deep_view().to_set();
            proof {
                lemma_to_set_push(dv.take(i as int), dv[i as int]);
                assert(dv.take(i + 1) =~= dv.take(i as int).push(dv[i as int]));
            }
            if contains_string_slice(existing, plan.delete_paths[i].as_str()) {
                insert_path(&mut to_delete, plan.delete_paths[i].clone());
                assert(to_delete.deep_view().to_set() =~= dv.take(i + 1).to_set().intersect(ev.to_set()));
            } else {
                assert(to_delete.deep_view().to_set() =~= dv.take(i + 1).to_set().intersect(ev.to_set()));
            }
            i = i + 1;
        }
        assert(dv.take(i as int) =~= dv);
        insert_paths(&mut to_index, plan.index_paths.as_slice());
    } else {
        if mode.full_compare {
            let mut i: usize = 0;
            assert(to_delete.deep_view().to_set() =~= Set::<Seq<char>>::empty());
            while i < existing.len()
                invariant
                    i <= ev.len(),
                    ev == existing.deep_view(),
                    sv == scanned.deep_view(),
                    to_delete.deep_view().no_duplicates(),
                    to_delete.deep_view().to_set() == ev.take(i as int).to_set().difference(sv.to_set()),
                decreases ev.len() - i,
            {
                proof {
                    lemma_to_set_push(ev.take(i as int), ev[i as int]);
                    assert(ev.take(i + 1) =~= ev.take(i as int).push(ev[i as int]));
                }
                if !contains_string_slice(scanned, existing[i].as_str()) {
                    insert_path(&mut to_delete, existing[i].clone());
                }
                assert(to_delete.deep_view().to_set() =~= ev.take(i + 1).to_set().difference(sv.to_set()));
                i = i + 1;
            }
            assert(ev.take(i as int) =~= ev);
        } else {
            assert(to_delete.deep_view().to_set() =~= Set::<Seq<char>>::empty());
        }
        insert_paths(&mut to_index, scanned);
    }
    let ghost mid = to_index.deep_view().to_set();
    if mode.backfill_imports {
        insert_paths(&mut to_index, existing);
    } else {
        assert(mid.union(Set::empty()) =~= mid);
    }
    assert(Set::<Seq<char>>::empty().union(plan.index_set()) =~= plan.index_set());
    assert(Set::<Seq<char>>::empty().union(sv.to_set()) =~= sv.to_set());
    (to_delete, to_index)
}

// ── Imports of a file ──

/// The import rows of the file at `path` written in `language`: each
/// import as written, its kind, and the file among `all_paths` it resolves to.
pub fn import_rows(path: &str, language: &str, imports: &[ExtractedImport], all_paths: &[String]) -> (r: Vec<ImportRow>)
    ensures
        r@.len() == imports@.len(),
        forall|i: int|
            0 <= i < imports@.len() ==> {
                &&& (#[trigger] r@[i]).path@ == path@
                &&& r@[i].raw_import@ == imports@[i].raw_import@
                &&& r@[i].kind@ == imports@[i].kind@
                &&& opt_view(r@[i].resolved_path) == resolve(imports@[i].raw_import@, path@, language@, all_paths.deep_view())
            },
{
    let mut r: Vec<ImportRow> = Vec::new();
    let mut i: usize = 0;
    while i < imports.len()
        invariant
            i <= imports@.len(),
            r@.len() == i,
            forall|q: int|
                0 <= q < i ==> {
                    &&& (#[trigger] r@[q]).path@ == path@
                    &&& r@[q].raw_import@ == imports@[q].raw_import@
                    &&& r@[q].kind@ == imports@[q].kind@
                    &&& opt_view(r@[q].resolved_path) == resolve(imports@[q].raw_import@, path@, language@, all_paths.deep_view())
                },
        decreases imports@.len() - i,
    {
        let resolved = resolve_import(imports[i].raw_import.as_str(), path, language, all_paths);
        r.push(ImportRow {
            path: lit_string(path),
            raw_import: imports[i].raw_import.clone(),
            resolved_path: resolved,
            kind: imports[i].kind.clone(),
        });
        i = i + 1;
    }
    r
}

// ── One file of a run ──

/// Whether a file can be passed over without reading it: the index keeps
/// it with the same modification time and size (never while imports are
/// filled in for every file).
pub fn stat_unchanged(existing: Option<&FileMeta>, mtime: u64, size: u64, backfill_imports: bool) -> (r: bool)
    ensures
        r == stat_same(
            match existing {
                Some(e) => Some(*e),
                None => None,
            },
            mtime,
            size,
            backfill_imports,
        ),
{
    if backfill_imports {
        return false;
    }
    match existing {
        Some(e) => e.mtime == mtime && e.size == size,
        None => false,
    }
}

/// Whether a file read again is unchanged after all: the index keeps it
/// with the same content hash (never while imports are filled in).
pub fn hash_unchanged(existing: Option<&FileMeta>, hash: &str, backfill_imports: bool) -> (r: bool)
    ensures
        r == (!backfill_imports && (existing matches Some(e) && e.content_hash@ == hash@)),
{
    if backfill_imports {
        return false;
    }
    match existing {
        Some(e) => str_eq(e.content_hash.as_str(), hash),
        None => false,
    }
}

} // verus!
