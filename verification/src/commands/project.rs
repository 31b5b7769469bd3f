//! The project map: which files import which, where the program starts,
//! and which files each start reaches.
use vstd::prelude::*;

use crate::models::eq_lit;
use crate::order::{insert_sorted, lists_sorted, sort_strings, sorted_le, strictly_sorted};
use crate::store::ImportRow;
use crate::text::{
    lemma_find_char_none, split, join, chars_of, clone_strings, contains_string, contains_string_slice, lemma_nodup_subset_len, replace, replace_char_exec,
    opt_view, rsplit_once, rsplit_once_exec, starts_with, starts_with_exec, str_eq,
};

verus! {

/// What `project` is asked for.
pub struct ProjectOpts {
    pub root: std::path::PathBuf,
    pub path_filter: Option<String>,
    pub max_bytes: u64,
    pub fmt: String,
}

// ── Maps keyed by path ──

/// A map from paths to lists of paths (the import graph, or what each
/// entry point reaches). A key looked up finds its first entry.
#[derive(Debug, Clone)]
pub struct PathMap {
    pub keys: Vec<String>,
    pub values: Vec<Vec<String>>,
}

impl PathMap {
    /// Keys and values pair up.
    pub open spec fn wf(&self) -> bool {
        self.keys@.len() == self.values@.len()
    }

    /// The index of the first entry for `k`.
    pub open spec fn key_index(&self, k: Seq<char>) -> Option<int> {
        self.keys.deep_view().index_of_first(k)
    }

    /// The list stored for `k`, if any.
    pub open spec fn lookup(&self, k: Seq<char>) -> Option<Seq<Seq<char>>> {
        match self.key_index(k) {
            Some(i) => Some(self.values@[i].deep_view()),
            None => None,
        }
    }

    /// The list stored for `k`, empty if there is none.
    pub open spec fn succs(&self, k: Seq<char>) -> Seq<Seq<char>> {
        match self.lookup(k) {
            Some(v) => v,
            None => seq![],
        }
    }

    /// An empty map.
    pub fn new() -> (r: PathMap)
        ensures
            r.wf(),
            r.keys@.len() == 0,
    {
        PathMap { keys: Vec::new(), values: Vec::new() }
    }

    /// The index of the first entry for `k`.
    pub fn find_key(&self, k: &str) -> (r: Option<usize>)
        requires
            self.wf(),
        ensures
            opt_index(r) == self.key_index(k@),
            r matches Some(i) ==> i < self.keys@.len(),
    {
        let mut i: usize = 0;
        while i < self.keys.len()
            invariant
                i <= self.keys@.len(),
                forall|j: int| 0 <= j < i ==> self.keys@[j]@ != k@,
            decreases self.keys@.len() - i,
        {
            if str_eq(self.keys[i].as_str(), k) {
                proof {
                    let kv = self.keys.deep_view();
                    kv.index_of_first_ensures(k@);
                    assert(kv[i as int] == k@);
                    assert(forall|j: int| 0 <= j < i ==> kv[j] != k@);
                }
                return Some(i);
            }
            i = i + 1;
        }
        proof {
            let kv = self.keys.deep_view();
            kv.index_of_first_ensures(k@);
            assert(forall|j: int| 0 <= j < kv.len() ==> kv[j] != k@);
        }
        None
    }

    /// The list stored for `k`, if any.
    pub fn get(&self, k: &str) -> (r: Option<&Vec<String>>)
        requires
            self.wf(),
        ensures
            match r {
                Some(v) => self.lookup(k@) == Some(v.deep_view()),
                None => self.lookup(k@) is None,
            },
    {
        match self.find_key(k) {
            Some(i) => Some(&self.values[i]),
            None => None,
        }
    }

    /// Adds an entry for `k` with the list `v`; a key already present keeps
    /// its first entry.
    pub fn insert(&mut self, k: String, v: Vec<String>)
        requires
            old(self).wf(),
        ensures
            final(self).wf(),
            final(self).keys@ == old(self).keys@.push(k),
            final(self).values@ == old(self).values@.push(v),
    {
        self.keys.push(k);
        self.values.push(v);
    }
}

/// An optional index as an optional integer.
pub open spec fn opt_index(r: Option<usize>) -> Option<int> {
    match r {
        Some(k) => Some(k as int),
        None => None,
    }
}


impl PathMap {
    /// All values of the entries from index `i` on, one list after another.
    pub open spec fn values_from(&self, i: int) -> Seq<Seq<char>>
        decreases self.values@.len() - i,
    {
        if i < 0 || i >= self.values@.len() {
            seq![]
        } else {
            self.values@[i].deep_view() + self.values_from(i + 1)
        }
    }
}

/// A value stored in the map is among all its values.
proof fn lemma_in_values_from(m: PathMap, i: int, k: int, j: int)
    requires
        0 <= k <= i < m.values@.len(),
        0 <= j < m.values@[i].deep_view().len(),
    ensures
        m.values_from(k).contains(m.values@[i].deep_view()[j]),
    decreases i - k,
{
    let x = m.values@[i].deep_view()[j];
    if k == i {
        assert(m.values_from(k)[j] == x);
    } else {
        lemma_in_values_from(m, i, k + 1, j);
        let rest = m.values_from(k + 1);
        let idx = choose|p: int| 0 <= p < rest.len() && rest[p] == x;
        let head = m.values@[k].deep_view();
        assert(m.values_from(k)[head.len() + idx] == x);
    }
}

// ── Reachability ──

/// `w` is a walk along the lists of `m`: each path is listed for the one before.
pub open spec fn is_walk(m: PathMap, w: Seq<Seq<char>>) -> bool {
    w.len() >= 1 && forall|i: int| 0 <= i < w.len() - 1 ==> #[trigger] m.succs(w[i]).contains(w[i + 1])
}

/// `t` is reached from `s` along the lists of `m`.
pub open spec fn reachable(m: PathMap, s: Seq<char>, t: Seq<char>) -> bool {
    exists|w: Seq<Seq<char>>| #[trigger] is_walk(m, w) && w[0] == s && w.last() == t
}

/// A set that holds the start of a walk and everything listed for its
/// members holds every path of the walk.
proof fn lemma_closed_holds_walk(m: PathMap, set: Seq<Seq<char>>, w: Seq<Seq<char>>, i: int)
    requires
        is_walk(m, w),
        0 <= i < w.len(),
        set.contains(w[0]),
        forall|u: Seq<char>, v: Seq<char>|
            set.contains(u) && #[trigger] m.succs(u).contains(v) ==> set.contains(v),
    ensures
        set.contains(w[i]),
    decreases i,
{
    if i > 0 {
        lemma_closed_holds_walk(m, set, w, i - 1);
        let k = i - 1;
        assert(m.succs(w[k]).contains(w[k + 1]));
    }
}

/// A walk to `u`, extended by a path listed for `u`, is a walk.
proof fn lemma_extend_walk(m: PathMap, w: Seq<Seq<char>>, x: Seq<char>)
    requires
        is_walk(m, w),
        m.succs(w.last()).contains(x),
    ensures
        is_walk(m, w.push(x)),
        w.push(x)[0] == w[0],
        w.push(x).last() == x,
{
    let w2 = w.push(x);
    assert forall|i: int| 0 <= i < w2.len() - 1 implies #[trigger] m.succs(w2[i]).contains(
        w2[i + 1],
    ) by {
        if i < w.len() - 1 {
            assert(w2[i] == w[i] && w2[i + 1] == w[i + 1]);
        } else {
            assert(w2[i] == w.last());
        }
    }
}


/// Every path reachable from `start` along the lists of `adj`, `start`
/// first, each once (breadth-first).
pub fn bfs_reachable(adj: &PathMap, start: &str) -> (r: Vec<String>)
    requires
        adj.wf(),
    ensures
        r.deep_view().no_duplicates(),
        forall|t: Seq<char>| #[trigger] r.deep_view().contains(t) <==> reachable(*adj, start@, t),
{
    let ghost u = seq![start@] + adj.values_from(0);
    let mut order: Vec<String> = Vec::new();
    order.push(start.to_owned());
    let mut head: usize = 0;
    proof {
        assert(order.deep_view() =~= seq![start@]);
        assert(is_walk(*adj, seq![start@]));
        assert(u[0] == start@);
        assert forall|t: Seq<char>| order.deep_view().contains(t) implies reachable(
            *adj,
            start@,
            t,
        ) && u.contains(t) by {
            assert(order.deep_view()[0] == t);
            assert(is_walk(*adj, seq![start@]) && seq![start@][0] == start@ && seq![start@].last()
                == t);
        }
    }
    while head < order.len()
        invariant
            adj.wf(),
            u == seq![start@] + adj.values_from(0),
            head <= order@.len(),
            order@.len() <= u.len(),
            order.deep_view().no_duplicates(),
            order.deep_view().contains(start@),
            forall|i: int, v: Seq<char>|
                0 <= i < head && #[trigger] adj.succs(order.deep_view()[i]).contains(v)
                    ==> order.deep_view().contains(v),
            forall|t: Seq<char>| #[trigger]
                order.deep_view().contains(t) ==> reachable(*adj, start@, t) && u.contains(t),
        decreases u.len() - head,
    {
        let ghost before = order.deep_view();
        let ghost node = before[head as int];
        match adj.find_key(order[head].as_str()) {
            Some(ki) => {
                let nexts = &adj.values[ki];
                assert(before[head as int] == node);
                assert(order.deep_view().contains(node));
                assert(reachable(*adj, start@, node));
                let ghost w = choose|w: Seq<Seq<char>>|
                    #[trigger] is_walk(*adj, w) && w[0] == start@ && w.last() == node;
                assert(order@[head as int]@ == node);
                assert(adj.succs(node) == nexts.deep_view());
                let mut j: usize = 0;
                while j < nexts.len()
                    invariant
                        adj.wf(),
                        u == seq![start@] + adj.values_from(0),
                        ki < adj.values@.len(),
                        nexts == adj.values@[ki as int],
                        adj.succs(node) == nexts.deep_view(),
                        is_walk(*adj, w) && w[0] == start@ && w.last() == node,
                        head < before.len(),
                        before[head as int] == node,
                        j <= nexts@.len(),
                        order@.len() <= u.len(),
                        order.deep_view().len() >= before.len(),
                        order.deep_view().take(before.len() as int) == before,
                        order.deep_view().no_duplicates(),
                        forall|k: int| 0 <= k < j ==> order.deep_view().contains(
                            #[trigger] nexts.deep_view()[k],
                        ),
                        forall|t: Seq<char>| #[trigger]
                            order.deep_view().contains(t) ==> reachable(*adj, start@, t)
                                && u.contains(t),
                    decreases nexts@.len() - j,
                {
                    let ghost ov = order.deep_view();
                    let ghost x = nexts.deep_view()[j as int];
                    assert(nexts@[j as int]@ == x);
                    if !contains_string(&order, nexts[j].as_str()) {
                        order.push(nexts[j].clone());
                        proof {
                            let nv = order.deep_view();
                            assert(nv =~= ov.push(x));
                            assert(adj.succs(node).contains(x)) by {
                                assert(adj.succs(node)[j as int] == x);
                            }
                            lemma_extend_walk(*adj, w, x);
                            lemma_in_values_from(*adj, ki as int, 0, j as int);
                            assert(u.contains(x)) by {
                                let p = choose|p: int|
                                    0 <= p < adj.values_from(0).len() && adj.values_from(0)[p]
                                        == x;
                                assert(u[p + 1] == x);
                            }
                            assert forall|t: Seq<char>| #[trigger]
                                nv.contains(t) implies reachable(*adj, start@, t) && u.contains(
                                t,
                            ) by {
                                if t == x {
                                    assert(is_walk(*adj, w.push(x)));
                                    assert(w.push(x)[0] == start@ && w.push(x).last() == t);
                                } else {
                                    let q = choose|q: int| 0 <= q < nv.len() && nv[q] == t;
                                    assert(q < ov.len());
                                    assert(ov[q] == t);
                                    assert(ov.contains(t));
                                }
                            }
                            assert forall|k: int| 0 <= k < j + 1 implies nv.contains(
                                #[trigger] nexts.deep_view()[k],
                            ) by {
                                if k == j {
                                    assert(nv[ov.len() as int] == x);
                                } else {
                                    let q = choose|q: int|
                                        0 <= q < ov.len() && ov[q] == nexts.deep_view()[k];
                                    assert(nv[q] == ov[q]);
                                }
                            }
                            assert(nv.take(before.len() as int) =~= ov.take(before.len() as int));
                            lemma_nodup_subset_len(nv, u);
                        }
                    }
                    j = j + 1;
                }
                proof {
                    let nv = order.deep_view();
                    assert forall|i: int, v: Seq<char>|
                        0 <= i < head + 1 && #[trigger] adj.succs(nv[i]).contains(v)
                            implies nv.contains(v) by {
                        assert(nv[i] == before[i]);
                        if i < head {
                            let q = choose|q: int| 0 <= q < before.len() && before[q] == v;
                            assert(nv[q] == v);
                        } else {
                            let q = choose|q: int|
                                0 <= q < nexts.deep_view().len() && nexts.deep_view()[q] == v;
                            assert(nv.contains(nexts.deep_view()[q]));
                        }
                    }
                    assert(nv[0] == before[0]);
                    let p0 = choose|p: int| 0 <= p < before.len() && before[p] == start@;
                    assert(nv[p0] == start@);
                }
            },
            None => {
                proof {
                    assert(adj.succs(node) =~= seq![]);
                }
            },
        }
        head = head + 1;
    }
    proof {
        let ov = order.deep_view();
        assert forall|t: Seq<char>| #[trigger] ov.contains(t) <==> reachable(*adj, start@, t) by {
            if reachable(*adj, start@, t) {
                let w = choose|w: Seq<Seq<char>>|
                    #[trigger] is_walk(*adj, w) && w[0] == start@ && w.last() == t;
                assert forall|x: Seq<char>, v: Seq<char>|
                    ov.contains(x) && #[trigger] adj.succs(x).contains(v) implies ov.contains(
                    v,
                ) by {
                    let i = choose|i: int| 0 <= i < ov.len() && ov[i] == x;
                    assert(adj.succs(ov[i]).contains(v));
                }
                lemma_closed_holds_walk(*adj, ov, w, w.len() - 1);
            }
        }
    }
    order
}


// ── Import graph ──

/// One of the first `n` imports leads from `from` to `to`, and both are
/// among `paths`.
pub open spec fn import_edge_upto(
    paths: Seq<Seq<char>>,
    imps: Seq<ImportRow>,
    n: int,
    from: Seq<char>,
    to: Seq<char>,
) -> bool {
    paths.contains(from) && paths.contains(to) && exists|k: int|
        0 <= k < n && k < imps.len() && (#[trigger] imps[k]).path@ == from
            && imps[k].resolved_path.deep_view() == Some(to)
}

/// An import leads from `from` to `to`, and both are among `paths`.
pub open spec fn import_edge(paths: Seq<Seq<char>>, imps: Seq<ImportRow>, from: Seq<char>, to: Seq<char>) -> bool {
    import_edge_upto(paths, imps, imps.len() as int, from, to)
}

/// The files that `from` imports by one of the first `n` imports.
pub open spec fn targets_upto(paths: Seq<Seq<char>>, imps: Seq<ImportRow>, n: int, from: Seq<char>) -> Set<Seq<char>> {
    Set::new(|t: Seq<char>| import_edge_upto(paths, imps, n, from, t))
}

/// The files that import `to` by one of the first `n` imports.
pub open spec fn sources_upto(paths: Seq<Seq<char>>, imps: Seq<ImportRow>, n: int, to: Seq<char>) -> Set<Seq<char>> {
    Set::new(|f: Seq<char>| import_edge_upto(paths, imps, n, f, to))
}

/// The files that `from` imports.
pub open spec fn import_targets(paths: Seq<Seq<char>>, imps: Seq<ImportRow>, from: Seq<char>) -> Set<Seq<char>> {
    targets_upto(paths, imps, imps.len() as int, from)
}

/// The files that import `to`.
pub open spec fn import_sources(paths: Seq<Seq<char>>, imps: Seq<ImportRow>, to: Seq<char>) -> Set<Seq<char>> {
    sources_upto(paths, imps, imps.len() as int, to)
}

/// `m` has one entry for each of `paths`, and nothing else.
pub open spec fn keyed_by(m: PathMap, paths: Seq<Seq<char>>) -> bool {
    &&& m.wf()
    &&& m.keys.deep_view().no_duplicates()
    &&& forall|k: Seq<char>| #[trigger] m.keys.deep_view().contains(k) <==> paths.contains(k)
}

/// The import graph of `all_paths`, and its reverse: each path maps to the
/// files it imports (resp. that import it), sorted and without repeats;
/// imports from or to files outside `all_paths` are left out.
pub fn build_graph(all_paths: &[String], all_imports: &[ImportRow]) -> (r: (PathMap, PathMap))
    ensures
        keyed_by(r.0, all_paths.deep_view()),
        keyed_by(r.1, all_paths.deep_view()),
        forall|i: int|
            0 <= i < r.0.keys@.len() ==> lists_sorted(
                #[trigger] r.0.values@[i].deep_view(),
                import_targets(all_paths.deep_view(), all_imports@, r.0.keys@[i]@),
            ),
        forall|i: int|
            0 <= i < r.1.keys@.len() ==> lists_sorted(
                #[trigger] r.1.values@[i].deep_view(),
                import_sources(all_paths.deep_view(), all_imports@, r.1.keys@[i]@),
            ),
{
    let ghost pv = all_paths.deep_view();
    let ghost iv = all_imports@;
    let mut keys: Vec<String> = Vec::new();
    let mut p: usize = 0;
    while p < all_paths.len()
        invariant
            pv == all_paths.deep_view(),
            p <= all_paths@.len(),
            keys.deep_view().no_duplicates(),
            forall|k: Seq<char>| #[trigger] keys.deep_view().contains(k) <==> pv.take(p as int).contains(k),
        decreases all_paths@.len() - p,
    {
        let ghost kv = keys.deep_view();
        let x = all_paths[p].as_str();
        assert(pv[p as int] == x@);
        assert(pv.take(p + 1) =~= pv.take(p as int).push(x@));
        if !contains_string(&keys, x) {
            keys.push(x.to_owned());
            proof {
                let nk = keys.deep_view();
                assert(nk =~= kv.push(x@));
                assert forall|k: Seq<char>| #[trigger] nk.contains(k) <==> pv.take(p + 1).contains(k) by {
                    if nk.contains(k) {
                        let q = choose|q: int| 0 <= q < nk.len() && nk[q] == k;
                        if q < kv.len() {
                            assert(kv[q] == k);
                            assert(kv.contains(k));
                        }
                    }
                    if kv.contains(k) {
                        let q = choose|q: int| 0 <= q < kv.len() && kv[q] == k;
                        assert(nk[q] == k);
                    }
                    if k == x@ {
                        assert(nk[kv.len() as int] == k);
                    }
                    let t1 = pv.take(p + 1);
                    if t1.contains(k) {
                        let q = choose|q: int| 0 <= q < t1.len() && t1[q] == k;
                        if q < p {
                            assert(pv.take(p as int)[q] == k);
                            assert(pv.take(p as int).contains(k));
                        }
                    }
                    if pv.take(p as int).contains(k) {
                        let q = choose|q: int| 0 <= q < p && pv.take(p as int)[q] == k;
                        assert(t1[q] == k);
                    }
                    if k == x@ {
                        assert(t1[p as int] == k);
                    }
                }
            }
        } else {
            proof {
                assert forall|k: Seq<char>| #[trigger] kv.contains(k) <==> pv.take(p + 1).contains(k) by {
                    let t1 = pv.take(p + 1);
                    if t1.contains(k) {
                        let q = choose|q: int| 0 <= q < t1.len() && t1[q] == k;
                        if q < p {
                            assert(pv.take(p as int)[q] == k);
                            assert(pv.take(p as int).contains(k));
                        }
                    }
                    if pv.take(p as int).contains(k) {
                        let q = choose|q: int| 0 <= q < p && pv.take(p as int)[q] == k;
                        assert(t1[q] == k);
                    }
                }
            }
        }
        p = p + 1;
    }
    assert(pv.take(p as int) =~= pv);
    let ghost kd = keys.deep_view();
    let mut adj = PathMap { keys: clone_strings(&keys), values: Vec::new() };
    let mut rev = PathMap { keys: keys, values: Vec::new() };
    assert(adj.keys.deep_view() == rev.keys.deep_view());
    let mut q: usize = 0;
    while q < rev.keys.len()
        invariant
            kd == rev.keys.deep_view(),
            kd.no_duplicates(),
            forall|k: Seq<char>| #[trigger] kd.contains(k) <==> pv.contains(k),
            q <= rev.keys@.len(),
            adj.keys.deep_view() == rev.keys.deep_view(),
            adj.values@.len() == q,
            rev.values@.len() == q,
            forall|i: int| 0 <= i < q ==> (#[trigger] adj.values@[i]).deep_view().len() == 0,
            forall|i: int| 0 <= i < q ==> (#[trigger] rev.values@[i]).deep_view().len() == 0,
        decreases rev.keys@.len() - q,
    {
        adj.values.push(Vec::new());
        rev.values.push(Vec::new());
        q = q + 1;
    }
    let mut k: usize = 0;
    while k < all_imports.len()
        invariant
            pv == all_paths.deep_view(),
            iv == all_imports@,
            k <= iv.len(),
            keyed_by(adj, pv),
            keyed_by(rev, pv),
            adj.keys.deep_view() == rev.keys.deep_view(),
            forall|i: int|
                0 <= i < adj.keys@.len() ==> lists_sorted(
                    #[trigger] adj.values@[i].deep_view(),
                    targets_upto(pv, iv, k as int, adj.keys@[i]@),
                ),
            forall|i: int|
                0 <= i < rev.keys@.len() ==> lists_sorted(
                    #[trigger] rev.values@[i].deep_view(),
                    sources_upto(pv, iv, k as int, rev.keys@[i]@),
                ),
        decreases iv.len() - k,
    {
        let imp = &all_imports[k];
        match &imp.resolved_path {
            Some(to) => {
                let from = imp.path.as_str();
                if contains_string_slice(all_paths, from) && contains_string_slice(all_paths, to.as_str()) {
                    let ai = adj.find_key(from);
                    let ri = rev.find_key(to.as_str());
                    proof {
                        adj.keys.deep_view().index_of_first_ensures(from@);
                        rev.keys.deep_view().index_of_first_ensures(to@);
                    }
                    match (ai, ri) {
                        (Some(ai), Some(ri)) => {
                            let ghost old_adj = adj;
                            let ghost old_rev = rev;
                            let ghost sa = targets_upto(pv, iv, k as int, from@);
                            let ghost sr = sources_upto(pv, iv, k as int, to@);
                            proof {
                                assert(adj.keys.deep_view()[ai as int] == adj.keys@[ai as int]@);
                                assert(rev.keys.deep_view()[ri as int] == rev.keys@[ri as int]@);
                                assert(lists_sorted(adj.values@[ai as int].deep_view(), sa));
                                assert(lists_sorted(rev.values@[ri as int].deep_view(), sr));
                            }
                            insert_sorted(&mut adj.values[ai], to.clone());
                            insert_sorted(&mut rev.values[ri], imp.path.clone());
                            proof {
                                lemma_edge_step(pv, iv, k as int, from@, to@);
                                assert(adj.keys == old_adj.keys);
                                assert(rev.keys == old_rev.keys);
                                assert forall|i: int|
                                    0 <= i < adj.keys@.len() implies lists_sorted(
                                    #[trigger] adj.values@[i].deep_view(),
                                    targets_upto(pv, iv, k + 1, adj.keys@[i]@),
                                ) by {
                                    let key = adj.keys@[i]@;
                                    assert(adj.keys.deep_view()[i] == key);
                                    let s1 = targets_upto(pv, iv, k + 1, key);
                                    if i != ai {
                                        assert(adj.values@[i] == old_adj.values@[i]);
                                        assert(key != from@);
                                        let s0 = targets_upto(pv, iv, k as int, key);
                                        assert(lists_sorted(old_adj.values@[i].deep_view(), s0));
                                        assert(s1 =~= s0);
                                    } else {
                                        assert(s1 =~= sa.insert(to@));
                                        let nl = adj.values@[i].deep_view();
                                        assert forall|y: Seq<char>| nl.contains(y) <==> #[trigger] s1.contains(y) by {
                                            assert(nl.contains(y) <==> (old_adj.values@[i].deep_view().contains(y) || y == to@));
                                        }
                                    }
                                }
                                assert forall|i: int|
                                    0 <= i < rev.keys@.len() implies lists_sorted(
                                    #[trigger] rev.values@[i].deep_view(),
                                    sources_upto(pv, iv, k + 1, rev.keys@[i]@),
                                ) by {
                                    let key = rev.keys@[i]@;
                                    assert(rev.keys.deep_view()[i] == key);
                                    let s1 = sources_upto(pv, iv, k + 1, key);
                                    if i != ri {
                                        assert(rev.values@[i] == old_rev.values@[i]);
                                        assert(key != to@);
                                        let s0 = sources_upto(pv, iv, k as int, key);
                                        assert(lists_sorted(old_rev.values@[i].deep_view(), s0));
                                        assert(s1 =~= s0);
                                    } else {
                                        assert(s1 =~= sr.insert(from@));
                                        let nl = rev.values@[i].deep_view();
                                        assert forall|y: Seq<char>| nl.contains(y) <==> #[trigger] s1.contains(y) by {
                                            assert(nl.contains(y) <==> (old_rev.values@[i].deep_view().contains(y) || y == from@));
                                        }
                                    }
                                }
                            }
                        },
                        _ => {
                            proof {
                                assert(false);
                            }
                        },
                    }

                } else {
                    proof {
                        assert(iv[k as int].resolved_path.deep_view() == Some(to@));
                        assert(iv[k as int].path@ == from@);
                        lemma_edge_skip(pv, iv, k as int);
                        lemma_skip_keeps(adj, rev, pv, iv, k as int);
                    }
                }
            },
            None => {
                proof {
                    lemma_edge_skip(pv, iv, k as int);
                    lemma_skip_keeps(adj, rev, pv, iv, k as int);
                }
            },
        }
        k = k + 1;
    }
    (adj, rev)
}

/// With the edges unchanged by import `k`, the sorted lists stay exact.
proof fn lemma_skip_keeps(adj: PathMap, rev: PathMap, pv: Seq<Seq<char>>, iv: Seq<ImportRow>, k: int)
    requires
        forall|key: Seq<char>| #[trigger] targets_upto(pv, iv, k + 1, key) == targets_upto(pv, iv, k, key),
        forall|key: Seq<char>| #[trigger] sources_upto(pv, iv, k + 1, key) == sources_upto(pv, iv, k, key),
        forall|i: int|
            0 <= i < adj.keys@.len() ==> lists_sorted(
                #[trigger] adj.values@[i].deep_view(),
                targets_upto(pv, iv, k, adj.keys@[i]@),
            ),
        forall|i: int|
            0 <= i < rev.keys@.len() ==> lists_sorted(
                #[trigger] rev.values@[i].deep_view(),
                sources_upto(pv, iv, k, rev.keys@[i]@),
            ),
    ensures
        forall|i: int|
            0 <= i < adj.keys@.len() ==> lists_sorted(
                #[trigger] adj.values@[i].deep_view(),
                targets_upto(pv, iv, k + 1, adj.keys@[i]@),
            ),
        forall|i: int|
            0 <= i < rev.keys@.len() ==> lists_sorted(
                #[trigger] rev.values@[i].deep_view(),
                sources_upto(pv, iv, k + 1, rev.keys@[i]@),
            ),
{
    assert forall|i: int| 0 <= i < adj.keys@.len() implies lists_sorted(
        #[trigger] adj.values@[i].deep_view(),
        targets_upto(pv, iv, k + 1, adj.keys@[i]@),
    ) by {
        let key = adj.keys@[i]@;
        assert(targets_upto(pv, iv, k + 1, key) == targets_upto(pv, iv, k, key));
        assert(lists_sorted(adj.values@[i].deep_view(), targets_upto(pv, iv, k, key)));
    }
    assert forall|i: int| 0 <= i < rev.keys@.len() implies lists_sorted(
        #[trigger] rev.values@[i].deep_view(),
        sources_upto(pv, iv, k + 1, rev.keys@[i]@),
    ) by {
        let key = rev.keys@[i]@;
        assert(sources_upto(pv, iv, k + 1, key) == sources_upto(pv, iv, k, key));
        assert(lists_sorted(rev.values@[i].deep_view(), sources_upto(pv, iv, k, key)));
    }
}

/// An import that adds no edge leaves the edges unchanged.
proof fn lemma_edge_skip(paths: Seq<Seq<char>>, imps: Seq<ImportRow>, k: int)
    requires
        0 <= k < imps.len(),
        !(paths.contains(imps[k].path@) && (imps[k].resolved_path.deep_view() matches Some(to)
            && paths.contains(to))),
    ensures
        forall|f: Seq<char>, t: Seq<char>|
            #[trigger] import_edge_upto(paths, imps, k + 1, f, t) == import_edge_upto(
                paths,
                imps,
                k,
                f,
                t,
            ),
        forall|key: Seq<char>| #[trigger] targets_upto(paths, imps, k + 1, key) == targets_upto(paths, imps, k, key),
        forall|key: Seq<char>| #[trigger] sources_upto(paths, imps, k + 1, key) == sources_upto(paths, imps, k, key),
{
    assert forall|f: Seq<char>, t: Seq<char>|
        #[trigger] import_edge_upto(paths, imps, k + 1, f, t) implies import_edge_upto(
        paths,
        imps,
        k,
        f,
        t,
    ) by {
        let j = choose|j: int|
            0 <= j < k + 1 && j < imps.len() && (#[trigger] imps[j]).path@ == f
                && imps[j].resolved_path.deep_view() == Some(t);
        assert(j != k);
    }
    assert forall|key: Seq<char>| #[trigger] targets_upto(paths, imps, k + 1, key) == targets_upto(paths, imps, k, key) by {
        assert(targets_upto(paths, imps, k + 1, key) =~= targets_upto(paths, imps, k, key));
    }
    assert forall|key: Seq<char>| #[trigger] sources_upto(paths, imps, k + 1, key) == sources_upto(paths, imps, k, key) by {
        assert(sources_upto(paths, imps, k + 1, key) =~= sources_upto(paths, imps, k, key));
    }
}

/// An import from `from` to `to`, both among the paths, adds that edge.
proof fn lemma_edge_step(paths: Seq<Seq<char>>, imps: Seq<ImportRow>, k: int, from: Seq<char>, to: Seq<char>)
    requires
        0 <= k < imps.len(),
        imps[k].path@ == from,
        imps[k].resolved_path.deep_view() == Some(to),
        paths.contains(from),
        paths.contains(to),
    ensures
        forall|f: Seq<char>, t: Seq<char>|
            #[trigger] import_edge_upto(paths, imps, k + 1, f, t) == (import_edge_upto(
                paths,
                imps,
                k,
                f,
                t,
            ) || (f == from && t == to)),
{
    assert forall|f: Seq<char>, t: Seq<char>|
        #[trigger] import_edge_upto(paths, imps, k + 1, f, t) implies (import_edge_upto(
        paths,
        imps,
        k,
        f,
        t,
    ) || (f == from && t == to)) by {
        let j = choose|j: int|
            0 <= j < k + 1 && j < imps.len() && (#[trigger] imps[j]).path@ == f
                && imps[j].resolved_path.deep_view() == Some(t);
        if j < k {
        }
    }
    assert(imps[k].path@ == from);
}


// ── Entry points ──

/// The file names that mark an entry point.
pub open spec fn entry_basenames() -> Seq<Seq<char>> {
    seq![
        "main.rs"@,
        "main.go"@,
        "main.py"@,
        "__main__.py"@,
        "index.ts"@,
        "index.js"@,
        "app.py"@,
        "server.js"@,
    ]
}

/// The last `/`-separated piece of `s`.
pub open spec fn basename(s: Seq<char>) -> Seq<char> {
    match rsplit_once(s, '/') {
        Some((_, b)) => b,
        None => s,
    }
}

/// The file name of `path` (with `\` read as `/`) marks an entry point.
pub open spec fn is_entry_name(path: Seq<char>) -> bool {
    entry_basenames().contains(basename(replace(path, seq!['\\'], seq!['/'])))
}

/// A path with no `\` reads the same once `\` is read as `/`.
proof fn lemma_replace_plain(s: Seq<char>)
    requires
        !s.contains('\\'),
    ensures
        replace(s, seq!['\\'], seq!['/']) == s,
{
    lemma_find_char_none(s, '\\');
    assert(split(s, seq!['\\']) =~= seq![s]);
}

/// The last piece of `dir/b`, where `b` holds no `/`, is `b`; and a name
/// with no `/` is its own last piece.
proof fn lemma_basename_last(dir: Seq<char>, b: Seq<char>)
    requires
        !b.contains('/'),
    ensures
        basename(dir + "/"@ + b) == b,
        basename(b) == b,
{
    reveal_strlit("/");
    let s = dir + "/"@ + b;
    let k = dir.len() as int;
    assert(s[k] == '/');
    s.index_of_last_ensures('/');
    b.index_of_last_ensures('/');
    assert(s.contains('/'));
    let i = s.index_of_last('/').unwrap();
    if i > k {
        assert(b[i - k - 1] == s[i]);
        assert(b.contains('/'));
    }
    assert(i == k);
    assert(s.skip(k + 1) =~= b);
}

/// Entry points are known by their file name: a path (with `/` separators)
/// whose last piece is `main.rs`, `main.go`, `main.py`, `__main__.py`,
/// `index.ts`, `index.js`, `app.py` or `server.js` names an entry point,
/// in any directory or none, and a path whose last piece is none of these
/// does not.
pub proof fn lemma_entry_names(dir: Seq<char>, b: Seq<char>)
    requires
        !dir.contains('\\'),
        !b.contains('/'),
        !b.contains('\\'),
    ensures
        ({
            let names = seq![
                "main.rs"@,
                "main.go"@,
                "main.py"@,
                "__main__.py"@,
                "index.ts"@,
                "index.js"@,
                "app.py"@,
                "server.js"@,
            ];
            &&& is_entry_name(dir + "/"@ + b) <==> names.contains(b)
            &&& is_entry_name(b) <==> names.contains(b)
        }),
{
    reveal_strlit("/");
    let s = dir + "/"@ + b;
    assert(!s.contains('\\')) by {
        assert forall|j: int| 0 <= j < s.len() implies s[j] != '\\' by {
            if j < dir.len() {
                assert(s[j] == dir[j]);
            } else if j > dir.len() {
                assert(s[j] == b[j - dir.len() - 1]);
            }
        }
    }
    lemma_replace_plain(s);
    lemma_replace_plain(b);
    lemma_basename_last(dir, b);
    let names = seq![
        "main.rs"@,
        "main.go"@,
        "main.py"@,
        "__main__.py"@,
        "index.ts"@,
        "index.js"@,
        "app.py"@,
        "server.js"@,
    ];
    assert(names =~= entry_basenames());
}

/// A file named as an entry point is one whatever the import graph says:
/// with no imports at all (no edge in or out), `dir/server.js` and the
/// other entry-point names are found by their name alone (`filename`),
/// and with outgoing imports and none coming in by both (`both`).
pub proof fn lemma_entry_name_detected(adj: PathMap, rev: PathMap, dir: Seq<char>, b: Seq<char>)
    requires
        !dir.contains('\\'),
        !b.contains('/'),
        !b.contains('\\'),
        seq![
            "main.rs"@,
            "main.go"@,
            "main.py"@,
            "__main__.py"@,
            "index.ts"@,
            "index.js"@,
            "app.py"@,
            "server.js"@,
        ].contains(b),
    ensures
        ({
            let p = dir + "/"@ + b;
            &&& entry_confidence(adj, rev, p) is Some
            &&& (adj.succs(p).len() == 0 ==> entry_confidence(adj, rev, p) == Some("filename"@))
            &&& (rev.succs(p).len() == 0 && adj.succs(p).len() > 0 ==> entry_confidence(adj, rev, p) == Some("both"@))
        }),
{
    lemma_entry_names(dir, b);
    let names = seq![
        "main.rs"@,
        "main.go"@,
        "main.py"@,
        "__main__.py"@,
        "index.ts"@,
        "index.js"@,
        "app.py"@,
        "server.js"@,
    ];
    assert(names =~= entry_basenames());
}

/// Whether the file name of `path` marks an entry point.
pub fn is_entrypoint_filename(path: &str) -> (r: bool)
    ensures
        r == is_entry_name(path@),
{
    let cs = chars_of(path);
    let normalized = replace_char_exec(cs.as_slice(), '\\', '/');
    let base = match rsplit_once_exec(normalized.as_slice(), '/') {
        Some((_, b)) => b,
        None => normalized,
    };
    let b = base.as_slice();
    let r = eq_lit(b, "main.rs") || eq_lit(b, "main.go") || eq_lit(b, "main.py") || eq_lit(
        b,
        "__main__.py",
    ) || eq_lit(b, "index.ts") || eq_lit(b, "index.js") || eq_lit(b, "app.py") || eq_lit(
        b,
        "server.js",
    );
    proof {
        let e = entry_basenames();
        if r {
            if b@ == "main.rs"@ {
                assert(e[0] == b@);
            } else if b@ == "main.go"@ {
                assert(e[1] == b@);
            } else if b@ == "main.py"@ {
                assert(e[2] == b@);
            } else if b@ == "__main__.py"@ {
                assert(e[3] == b@);
            } else if b@ == "index.ts"@ {
                assert(e[4] == b@);
            } else if b@ == "index.js"@ {
                assert(e[5] == b@);
            } else if b@ == "app.py"@ {
                assert(e[6] == b@);
            } else {
                assert(e[7] == b@);
            }
        } else {
            assert forall|i: int| 0 <= i < e.len() implies e[i] != b@ by {}
        }
    }
    r
}

/// A detected entry point and why: `both`, `filename` or `graph`.
#[derive(Debug, Clone)]
pub struct Entrypoint {
    pub path: String,
    pub confidence: &'static str,
}

/// Why `p` is an entry point, if it is one: its file name marks one, or
/// nothing imports it while it imports something, or both.
pub open spec fn entry_confidence(adj: PathMap, rev: PathMap, p: Seq<char>) -> Option<Seq<char>> {
    let f = is_entry_name(p);
    let g = rev.succs(p).len() == 0 && adj.succs(p).len() > 0;
    if f && g {
        Some("both"@)
    } else if f {
        Some("filename"@)
    } else if g {
        Some("graph"@)
    } else {
        None
    }
}

/// The number of paths listed for `k`.
pub fn list_len(m: &PathMap, k: &str) -> (r: usize)
    requires
        m.wf(),
    ensures
        r == m.succs(k@).len(),
{
    match m.find_key(k) {
        Some(i) => m.values[i].len(),
        None => 0,
    }
}

/// Why `p` is an entry point, if it is one.
pub fn entry_confidence_exec(adj: &PathMap, rev: &PathMap, p: &str) -> (r: Option<&'static str>)
    requires
        adj.wf(),
        rev.wf(),
    ensures
        match r {
            Some(c) => entry_confidence(*adj, *rev, p@) == Some(c@),
            None => entry_confidence(*adj, *rev, p@) is None,
        },
{
    let f = is_entrypoint_filename(p);
    let g = list_len(rev, p) == 0 && list_len(adj, p) > 0;
    if f && g {
        Some("both")
    } else if f {
        Some("filename")
    } else if g {
        Some("graph")
    } else {
        None
    }
}

/// The paths of a list of entry points.
pub open spec fn entry_paths(eps: Seq<Entrypoint>) -> Seq<Seq<char>> {
    eps.map_values(|e: Entrypoint| e.path@)
}

/// The entry points among `all_paths`, sorted by path, each once.
pub fn detect_entrypoints(all_paths: &[String], adj: &PathMap, rev: &PathMap) -> (r: Vec<Entrypoint>)
    requires
        adj.wf(),
        rev.wf(),
    ensures
        strictly_sorted(entry_paths(r@)),
        forall|p: Seq<char>|
            #[trigger] entry_paths(r@).contains(p) <==> (all_paths.deep_view().contains(p)
                && entry_confidence(*adj, *rev, p) is Some),
        forall|i: int|
            0 <= i < r@.len() ==> entry_confidence(*adj, *rev, (#[trigger] r@[i]).path@) == Some(
                r@[i].confidence@,
            ),
{
    let ghost pv = all_paths.deep_view();
    let mut sorted: Vec<String> = Vec::new();
    let mut n: usize = 0;
    while n < all_paths.len()
        invariant
            adj.wf(),
            rev.wf(),
            pv == all_paths.deep_view(),
            n <= pv.len(),
            strictly_sorted(sorted.deep_view()),
            forall|p: Seq<char>|
                #[trigger] sorted.deep_view().contains(p) <==> (pv.take(n as int).contains(p)
                    && entry_confidence(*adj, *rev, p) is Some),
        decreases pv.len() - n,
    {
        let x = all_paths[n].as_str();
        assert(pv[n as int] == x@);
        let ghost before = sorted.deep_view();
        if entry_confidence_exec(adj, rev, x).is_some() {
            insert_sorted(&mut sorted, x.to_owned());
        }
        proof {
            let t1 = pv.take(n + 1);
            assert(t1 =~= pv.take(n as int).push(x@));
            assert forall|p: Seq<char>|
                #[trigger] sorted.deep_view().contains(p) <==> (t1.contains(p)
                    && entry_confidence(*adj, *rev, p) is Some) by {
                if t1.contains(p) {
                    let q = choose|q: int| 0 <= q < t1.len() && t1[q] == p;
                    if q < n {
                        assert(pv.take(n as int)[q] == p);
                    }
                }
                if pv.take(n as int).contains(p) {
                    let q = choose|q: int| 0 <= q < n && pv.take(n as int)[q] == p;
                    assert(t1[q] == p);
                }
                if p == x@ {
                    assert(t1[n as int] == p);
                }
            }
        }
        n = n + 1;
    }
    assert(pv.take(n as int) =~= pv);
    let mut r: Vec<Entrypoint> = Vec::new();
    let mut i: usize = 0;
    while i < sorted.len()
        invariant
            adj.wf(),
            rev.wf(),
            i <= sorted@.len(),
            entry_paths(r@) == sorted.deep_view().take(i as int),
            forall|p: Seq<char>|
                #[trigger] sorted.deep_view().contains(p) ==> entry_confidence(*adj, *rev, p) is Some,
            forall|j: int|
                0 <= j < r@.len() ==> entry_confidence(*adj, *rev, (#[trigger] r@[j]).path@)
                    == Some(r@[j].confidence@),
        decreases sorted@.len() - i,
    {
        let path = sorted[i].clone();
        assert(path@ == sorted.deep_view()[i as int]);
        assert(sorted.deep_view().contains(path@));
        match entry_confidence_exec(adj, rev, path.as_str()) {
            Some(c) => {
                let ghost old_r = r@;
                let ghost pv_i = path@;
                assert(entry_paths(old_r).len() == i);
                assert(old_r.len() == i);
                r.push(Entrypoint { path, confidence: c });
                assert(r@[i as int].path@ == pv_i);
                assert(entry_paths(r@) =~= entry_paths(old_r).push(pv_i));
                assert(sorted.deep_view().take(i + 1) =~= sorted.deep_view().take(i as int).push(pv_i));
            },
            None => {
                assert(false);
            },
        }
        i = i + 1;
    }
    assert(sorted.deep_view().take(i as int) =~= sorted.deep_view());
    r
}


// ── Ownership of files by entry points ──

/// Entry point `e` reaches `p` according to `reach`.
pub open spec fn reaches(reach: PathMap, e: Seq<char>, p: Seq<char>) -> bool {
    match reach.lookup(e) {
        Some(s) => s.contains(p),
        None => false,
    }
}

/// The entry points of `eps` that reach `p`, in order, repeats kept.
pub open spec fn owners(eps: Seq<Seq<char>>, reach: PathMap, p: Seq<char>) -> Seq<Seq<char>>
    decreases eps.len(),
{
    if eps.len() == 0 {
        seq![]
    } else if reaches(reach, eps.last(), p) {
        owners(eps.drop_last(), reach, p).push(eps.last())
    } else {
        owners(eps.drop_last(), reach, p)
    }
}

/// Which paths a selection keeps: none of the entry points reaches them
/// (`Orphan`), two or more do (`Shared`), or exactly the one given does.
pub enum Ownership {
    Orphan,
    Shared,
    Owned(Seq<char>),
}

/// `p` is of ownership `o`.
pub open spec fn has_ownership(eps: Seq<Seq<char>>, reach: PathMap, p: Seq<char>, o: Ownership) -> bool {
    let ow = owners(eps, reach, p);
    match o {
        Ownership::Orphan => ow.len() == 0,
        Ownership::Shared => ow.len() >= 2,
        Ownership::Owned(e) => ow.len() == 1 && ow[0] == e,
    }
}

/// The paths of `paths` of ownership `o`, in order, repeats kept.
pub open spec fn select_paths(paths: Seq<Seq<char>>, eps: Seq<Seq<char>>, reach: PathMap, o: Ownership) -> Seq<Seq<char>>
    decreases paths.len(),
{
    if paths.len() == 0 {
        seq![]
    } else if has_ownership(eps, reach, paths.last(), o) {
        select_paths(paths.drop_last(), eps, reach, o).push(paths.last())
    } else {
        select_paths(paths.drop_last(), eps, reach, o)
    }
}

/// `v` holds the strings of `src`, sorted, repeats kept.
pub open spec fn sorted_perm(v: Seq<Seq<char>>, src: Seq<Seq<char>>) -> bool {
    sorted_le(v) && v.to_multiset() == src.to_multiset()
}

/// Whether entry point `e` reaches `p`.
pub fn reaches_exec(reach: &PathMap, e: &str, p: &str) -> (r: bool)
    requires
        reach.wf(),
    ensures
        r == reaches(*reach, e@, p@),
{
    match reach.find_key(e) {
        Some(i) => contains_string(&reach.values[i], p),
        None => false,
    }
}

/// The paths of `v`, each once, in order of first appearance.
pub fn distinct_strings(v: &[String]) -> (r: Vec<String>)
    ensures
        r.deep_view().no_duplicates(),
        forall|k: Seq<char>| #[trigger] r.deep_view().contains(k) <==> v.deep_view().contains(k),
{
    let ghost pv = v.deep_view();
    let mut keys: Vec<String> = Vec::new();
    let mut p: usize = 0;
    while p < v.len()
        invariant
            pv == v.deep_view(),
            p <= pv.len(),
            keys.deep_view().no_duplicates(),
            forall|k: Seq<char>| #[trigger] keys.deep_view().contains(k) <==> pv.take(p as int).contains(k),
        decreases pv.len() - p,
    {
        let ghost kv = keys.deep_view();
        let x = v[p].as_str();
        assert(pv[p as int] == x@);
        let t1 = Ghost(pv.take(p + 1));
        assert(t1@ =~= pv.take(p as int).push(x@));
        let pushed = !contains_string(&keys, x);
        if pushed {
            keys.push(x.to_owned());
            assert(keys.deep_view() =~= kv.push(x@));
        }
        proof {
            let nk = keys.deep_view();
            assert forall|k: Seq<char>| #[trigger] nk.contains(k) <==> t1@.contains(k) by {
                if nk.contains(k) {
                    let q = choose|q: int| 0 <= q < nk.len() && nk[q] == k;
                    if q < kv.len() {
                        assert(kv[q] == k);
                        assert(kv.contains(k));
                    }
                }
                if kv.contains(k) {
                    let q = choose|q: int| 0 <= q < kv.len() && kv[q] == k;
                    assert(nk[q] == k);
                }
                if k == x@ && pushed {
                    assert(nk[kv.len() as int] == k);
                }
                if t1@.contains(k) {
                    let q = choose|q: int| 0 <= q < t1@.len() && t1@[q] == k;
                    if q < p {
                        assert(pv.take(p as int)[q] == k);
                        assert(pv.take(p as int).contains(k));
                    }
                }
                if pv.take(p as int).contains(k) {
                    let q = choose|q: int| 0 <= q < p && pv.take(p as int)[q] == k;
                    assert(t1@[q] == k);
                }
                if k == x@ {
                    assert(t1@[p as int] == k);
                }
            }
        }
        p = p + 1;
    }
    assert(pv.take(p as int) =~= pv);
    keys
}

/// Sorts each file into the entry point that alone reaches it, or into
/// the shared files (reached by two or more) or the orphans (by none).
/// Each list is sorted, repeats kept.
pub fn classify_files(all_paths: &[String], entrypoints: &[Entrypoint], reach_by_entry: &PathMap) -> (r: (PathMap, Vec<String>, Vec<String>))
    requires
        reach_by_entry.wf(),
    ensures
        keyed_by(r.0, entry_paths(entrypoints@)),
        forall|i: int|
            0 <= i < r.0.keys@.len() ==> sorted_perm(
                #[trigger] r.0.values@[i].deep_view(),
                select_paths(
                    all_paths.deep_view(),
                    entry_paths(entrypoints@),
                    *reach_by_entry,
                    Ownership::Owned(r.0.keys@[i]@),
                ),
            ),
        sorted_perm(
            r.1.deep_view(),
            select_paths(all_paths.deep_view(), entry_paths(entrypoints@), *reach_by_entry, Ownership::Shared),
        ),
        sorted_perm(
            r.2.deep_view(),
            select_paths(all_paths.deep_view(), entry_paths(entrypoints@), *reach_by_entry, Ownership::Orphan),
        ),
{
    let ghost pv = all_paths.deep_view();
    let ghost epv = entry_paths(entrypoints@);
    let ghost reach = *reach_by_entry;
    let mut ep_paths: Vec<String> = Vec::new();
    let mut e: usize = 0;
    while e < entrypoints.len()
        invariant
            e <= entrypoints@.len(),
            epv == entry_paths(entrypoints@),
            ep_paths.deep_view() == epv.take(e as int),
        decreases entrypoints@.len() - e,
    {
        let x = entrypoints[e].path.clone();
        let ghost old_v = ep_paths.deep_view();
        ep_paths.push(x);
        assert(ep_paths.deep_view() =~= old_v.push(epv[e as int]));
        assert(epv.take(e + 1) =~= epv.take(e as int).push(epv[e as int]));
        e = e + 1;
    }
    assert(epv.take(e as int) =~= epv);
    let keys = distinct_strings(ep_paths.as_slice());
    let mut values: Vec<Vec<String>> = Vec::new();
    let mut q: usize = 0;
    while q < keys.len()
        invariant
            q <= keys@.len(),
            values@.len() == q,
            forall|i: int| 0 <= i < q ==> (#[trigger] values@[i]).deep_view().len() == 0,
        decreases keys@.len() - q,
    {
        values.push(Vec::new());
        q = q + 1;
    }
    let mut shared: Vec<String> = Vec::new();
    let mut orphan: Vec<String> = Vec::new();
    let mut n: usize = 0;
    proof {
        assert forall|i: int| 0 <= i < keys@.len() implies (#[trigger] values@[i]).deep_view()
            == select_paths(pv.take(0), epv, reach, Ownership::Owned(keys@[i]@)) by {
            assert(values@[i].deep_view() =~= Seq::<Seq<char>>::empty());
        }
        assert(shared.deep_view() =~= select_paths(pv.take(0), epv, reach, Ownership::Shared));
        assert(orphan.deep_view() =~= select_paths(pv.take(0), epv, reach, Ownership::Orphan));
    }
    while n < all_paths.len()
        invariant
            reach_by_entry.wf(),
            reach == *reach_by_entry,
            pv == all_paths.deep_view(),
            epv == entry_paths(entrypoints@),
            ep_paths.deep_view() == epv,
            n <= pv.len(),
            keys@.len() == values@.len(),
            keys.deep_view().no_duplicates(),
            forall|k: Seq<char>| #[trigger] keys.deep_view().contains(k) <==> epv.contains(k),
            forall|i: int|
                0 <= i < keys@.len() ==> (#[trigger] values@[i]).deep_view() == select_paths(
                    pv.take(n as int),
                    epv,
                    reach,
                    Ownership::Owned(keys@[i]@),
                ),
            shared.deep_view() == select_paths(pv.take(n as int), epv, reach, Ownership::Shared),
            orphan.deep_view() == select_paths(pv.take(n as int), epv, reach, Ownership::Orphan),
        decreases pv.len() - n,
    {
        let path = all_paths[n].as_str();
        assert(pv[n as int] == path@);
        let mut own: Vec<String> = Vec::new();
        let mut j: usize = 0;
        while j < ep_paths.len()
            invariant
                reach_by_entry.wf(),
                reach == *reach_by_entry,
                ep_paths.deep_view() == epv,
                j <= epv.len(),
                own.deep_view() == owners(epv.take(j as int), reach, path@),
            decreases epv.len() - j,
        {
            let ghost before = own.deep_view();
            let ep = ep_paths[j].as_str();
            assert(epv[j as int] == ep@);
            assert(epv.take(j + 1).drop_last() =~= epv.take(j as int));
            assert(epv.take(j + 1).last() == ep@);
            if reaches_exec(reach_by_entry, ep, path) {
                own.push(ep.to_owned());
                assert(own.deep_view() =~= before.push(ep@));
            }
            j = j + 1;
        }
        assert(epv.take(j as int) =~= epv);
        let ghost ow = owners(epv, reach, path@);
        let ghost t1 = pv.take(n + 1);
        assert(t1.drop_last() =~= pv.take(n as int));
        assert(t1.last() == path@);
        let ghost old_values = values;
        if own.len() == 0 {
            let ghost old_o = orphan.deep_view();
            orphan.push(path.to_owned());
            assert(orphan.deep_view() =~= old_o.push(path@));
        } else if own.len() == 1 {
            let owner = own[0].as_str();
            assert(own.deep_view()[0] == owner@);
            assert(epv.contains(owner@)) by {
                lemma_owners_from(epv, reach, path@, 0);
            }
            match find_key_vec(&keys, owner) {
                Some(ki) => {
                    let ghost old_list = values@[ki as int].deep_view();
                    values[ki].push(path.to_owned());
                    assert(values@[ki as int].deep_view() =~= old_list.push(path@));
                    proof {
                        assert(keys.deep_view()[ki as int] == keys@[ki as int]@);
                        assert forall|i: int| 0 <= i < keys@.len() && i != ki implies keys@[i]@ != owner@ by {
                            assert(keys.deep_view()[i] == keys@[i]@);
                        }
                    }
                },
                None => {
                    assert(false);
                },
            }
        } else {
            let ghost old_s = shared.deep_view();
            shared.push(path.to_owned());
            assert(shared.deep_view() =~= old_s.push(path@));
        }
        proof {
            assert forall|i: int| 0 <= i < keys@.len() implies (#[trigger] values@[i]).deep_view()
                == select_paths(t1, epv, reach, Ownership::Owned(keys@[i]@)) by {
                if !(own@.len() == 1 && keys@[i]@ == own.deep_view()[0]) {
                    assert(values@[i] == old_values@[i]);
                }
            }
        }
        n = n + 1;
    }
    assert(pv.take(n as int) =~= pv);
    let mut sorted_values: Vec<Vec<String>> = Vec::new();
    let mut i: usize = 0;
    while i < values.len()
        invariant
            i <= values@.len(),
            sorted_values@.len() == i,
            forall|k: int|
                0 <= k < i ==> sorted_perm(
                    #[trigger] sorted_values@[k].deep_view(),
                    values@[k].deep_view(),
                ),
        decreases values@.len() - i,
    {
        let v = clone_strings(&values[i]);
        let sv = sort_strings(v);
        sorted_values.push(sv);
        i = i + 1;
    }
    let entry_files = PathMap { keys, values: sorted_values };
    (entry_files, sort_strings(shared), sort_strings(orphan))
}

/// The index of the first occurrence of `k` in `v`.
pub fn find_key_vec(v: &Vec<String>, k: &str) -> (r: Option<usize>)
    ensures
        match r {
            Some(i) => i < v@.len() && v.deep_view()[i as int] == k@ && forall|j: int|
                0 <= j < i ==> v.deep_view()[j] != k@,
            None => !v.deep_view().contains(k@),
        },
{
    let mut i: usize = 0;
    while i < v.len()
        invariant
            i <= v@.len(),
            forall|j: int| 0 <= j < i ==> v.deep_view()[j] != k@,
        decreases v@.len() - i,
    {
        if str_eq(v[i].as_str(), k) {
            assert(v.deep_view()[i as int] == k@);
            return Some(i);
        }
        i = i + 1;
    }
    None
}

/// Every owner of `p` is one of the entry points.
proof fn lemma_owners_from(eps: Seq<Seq<char>>, reach: PathMap, p: Seq<char>, k: int)
    requires
        0 <= k < owners(eps, reach, p).len(),
    ensures
        eps.contains(owners(eps, reach, p)[k]),
    decreases eps.len(),
{
    if eps.len() > 0 {
        let rest = owners(eps.drop_last(), reach, p);
        if k < rest.len() {
            lemma_owners_from(eps.drop_last(), reach, p, k);
            let q = choose|q: int| 0 <= q < eps.drop_last().len() && eps.drop_last()[q] == rest[k];
            assert(eps[q] == rest[k]);
        } else {
            assert(eps[eps.len() - 1] == eps.last());
        }
    }
}

// ── A part of the project ──

/// Whether an import stays within the part under `prefix`: it is made
/// there, and leads there or outside the project.
pub open spec fn import_under(r: ImportRow, prefix: Seq<char>) -> bool {
    starts_with(r.path@, prefix) && match opt_view(r.resolved_path) {
        Some(t) => starts_with(t, prefix),
        None => true,
    }
}

/// The paths under `prefix`, in order.
pub fn paths_under(paths: &[String], prefix: &str) -> (r: Vec<String>)
    ensures
        r.deep_view() == paths.deep_view().filter(|p: Seq<char>| starts_with(p, prefix@)),
{
    let ghost pv = paths.deep_view();
    let ghost pred = |p: Seq<char>| starts_with(p, prefix@);
    let pc = chars_of(prefix);
    let mut r: Vec<String> = Vec::new();
    let mut i: usize = 0;
    proof {
        reveal(Seq::filter);
        assert(pv.take(0) =~= Seq::<Seq<char>>::empty());
    }
    while i < paths.len()
        invariant
            i <= pv.len(),
            pv == paths.deep_view(),
            pc@ == prefix@,
            pred == (|p: Seq<char>| starts_with(p, prefix@)),
            r.deep_view() == pv.take(i as int).filter(pred),
        decreases pv.len() - i,
    {
        proof {
            reveal(Seq::filter);
        }
        assert(pv.take(i + 1).drop_last() =~= pv.take(i as int));
        assert(pv.take(i + 1).last() == pv[i as int]);
        let c = chars_of(paths[i].as_str());
        let ghost before = r.deep_view();
        if starts_with_exec(c.as_slice(), pc.as_slice()) {
            let x = paths[i].clone();
            r.push(x);
            assert(r.deep_view() =~= before.push(pv[i as int]));
        }
        i = i + 1;
    }
    assert(pv.take(i as int) =~= pv);
    r
}

/// The imports that stay within the part under `prefix`, in order, as
/// indices into `imports`.
pub fn imports_under(imports: &[ImportRow], prefix: &str) -> (r: Vec<usize>)
    ensures
        forall|k: int| 0 <= k < r@.len() ==> (#[trigger] r@[k]) < imports@.len(),
        forall|a: int, b: int| 0 <= a < b < r@.len() ==> r@[a] < r@[b],
        forall|i: int| 0 <= i < imports@.len() ==> (import_under(imports@[i], prefix@) <==> r@.contains(i as usize)),
{
    let pc = chars_of(prefix);
    let mut r: Vec<usize> = Vec::new();
    let mut i: usize = 0;
    while i < imports.len()
        invariant
            i <= imports@.len(),
            pc@ == prefix@,
            forall|k: int| 0 <= k < r@.len() ==> (#[trigger] r@[k]) < i,
            forall|a: int, b: int| 0 <= a < b < r@.len() ==> r@[a] < r@[b],
            forall|q: int| 0 <= q < i ==> (import_under(imports@[q], prefix@) <==> r@.contains(q as usize)),
        decreases imports@.len() - i,
    {
        let from = chars_of(imports[i].path.as_str());
        let keep = starts_with_exec(from.as_slice(), pc.as_slice()) && match &imports[i].resolved_path {
            Some(t) => starts_with_exec(chars_of(t.as_str()).as_slice(), pc.as_slice()),
            None => true,
        };
        let ghost or = r@;
        if keep {
            r.push(i);
        }
        assert forall|q: int| 0 <= q <= i implies (import_under(imports@[q], prefix@) <==> r@.contains(q as usize)) by {
            if q < i {
                if r@.contains(q as usize) {
                    let k = choose|k: int| 0 <= k < r@.len() && r@[k] == q as usize;
                    if k < or.len() {
                        assert(or[k] == q as usize);
                    }
                }
                if or.contains(q as usize) {
                    let k = choose|k: int| 0 <= k < or.len() && or[k] == q as usize;
                    assert(r@[k] == q as usize);
                }
            } else {
                if keep {
                    assert(r@[or.len() as int] == i);
                } else if r@.contains(q as usize) {
                    let k = choose|k: int| 0 <= k < r@.len() && r@[k] == q as usize;
                    assert(or[k] < i);
                }
            }
        }
        i = i + 1;
    }
    r
}

} // verus!
