//! The import graph of one file: a breadth-first walk over the stored
//! imports, and its rendering as a tree.
use vstd::prelude::*;

use crate::models::{lit_chars, lit_string};
use crate::num::{decimal, push_decimal};
use crate::store::ImportRow;
use crate::text::{
    contains_string, extend_chars, lemma_nodup_subset_len, opt_view, push_text, str_eq, string_of,
};
use crate::commands::index::{insert_path, lemma_to_set_push};

verus! {

/// What `graph` is asked for.
pub struct GraphOpts {
    pub root: std::path::PathBuf,
    pub path: String,
    pub depth: usize,
    pub limit: usize,
    pub offset: usize,
    pub external: bool,
    pub max_bytes: u64,
    pub fmt: String,
}

/// An edge of the graph: the importing file, the file imported (none for an
/// import from outside the project), the import as written, and its kind
/// (`cycle` for an edge back to a file already visited, `external` for one
/// leaving the project).
#[derive(Debug, Clone)]
pub struct Edge {
    pub from: String,
    pub to: Option<String>,
    pub raw_import: String,
    pub kind: String,
}

/// An edge as plain text.
pub type EdgeView = (Seq<char>, Option<Seq<char>>, Seq<char>, Seq<char>);

impl Edge {
    /// This edge as plain text.
    pub open spec fn view_edge(&self) -> EdgeView {
        (self.from@, opt_view(self.to), self.raw_import@, self.kind@)
    }
}

/// The edges of a list as plain text.
pub open spec fn edges_view(edges: Seq<Edge>) -> Seq<EdgeView> {
    edges.map_values(|e: Edge| e.view_edge())
}

/// Where a walk stands: the files still to visit with their depth, the
/// files entered into the queue, the files seen, the edges so far, how many
/// edges closed a cycle or left the project, and the deepest level visited.
pub struct GraphState {
    pub queue: Seq<(Seq<char>, int)>,
    pub visited: Set<Seq<char>>,
    pub files: Set<Seq<char>>,
    pub edges: Seq<EdgeView>,
    pub cycles: int,
    pub externals: int,
    pub depth: int,
}

/// The walk before its first step: only `entry`, at depth 0.
pub open spec fn graph_init(entry: Seq<char>) -> GraphState {
    GraphState {
        queue: seq![(entry, 0)],
        visited: set![entry],
        files: set![entry],
        edges: seq![],
        cycles: 0,
        externals: 0,
        depth: 0,
    }
}

/// What one stored import row does while `path` (at `depth`) is visited:
/// rows of other files do nothing; an import of a file already entered is a
/// cycle edge; an import of another project file is an edge to it, and the
/// file is entered when the walk may go one level deeper; an import from
/// outside the project is counted, and kept as an edge when asked for.
pub open spec fn visit_row(
    st: GraphState,
    path: Seq<char>,
    depth: int,
    max_depth: int,
    external: bool,
    row: ImportRow,
) -> GraphState {
    if row.path@ != path {
        st
    } else {
        match opt_view(row.resolved_path) {
            Some(t) => if st.visited.contains(t) {
                GraphState {
                    cycles: st.cycles + 1,
                    edges: st.edges.push((path, Some(t), row.raw_import@, "cycle"@)),
                    ..st
                }
            } else if depth + 1 < max_depth {
                GraphState {
                    edges: st.edges.push((path, Some(t), row.raw_import@, row.kind@)),
                    files: st.files.insert(t),
                    visited: st.visited.insert(t),
                    queue: st.queue.push((t, depth + 1)),
                    ..st
                }
            } else {
                GraphState {
                    edges: st.edges.push((path, Some(t), row.raw_import@, row.kind@)),
                    files: st.files.insert(t),
                    ..st
                }
            },
            None => if external {
                GraphState {
                    externals: st.externals + 1,
                    edges: st.edges.push((path, None, row.raw_import@, "external"@)),
                    ..st
                }
            } else {
                GraphState { externals: st.externals + 1, ..st }
            },
        }
    }
}

/// The first `n` rows visited for `path`, in order.
pub open spec fn visit_rows(
    st: GraphState,
    path: Seq<char>,
    depth: int,
    max_depth: int,
    external: bool,
    rows: Seq<ImportRow>,
    n: int,
) -> GraphState
    decreases n,
{
    if n <= 0 {
        st
    } else {
        visit_row(visit_rows(st, path, depth, max_depth, external, rows, n - 1), path, depth, max_depth, external, rows[n - 1])
    }
}

/// One step of the walk: the first queued file is visited, its imports in
/// the order they are stored. With nothing queued the walk stands still.
pub open spec fn graph_step(st: GraphState, rows: Seq<ImportRow>, max_depth: int, external: bool) -> GraphState {
    if st.queue.len() == 0 {
        st
    } else {
        let (p, d) = st.queue[0];
        let st1 = GraphState {
            queue: st.queue.drop_first(),
            depth: if d > st.depth {
                d
            } else {
                st.depth
            },
            ..st
        };
        visit_rows(st1, p, d, max_depth, external, rows, rows.len() as int)
    }
}

/// The walk after `n` steps.
pub open spec fn graph_run(st: GraphState, rows: Seq<ImportRow>, max_depth: int, external: bool, n: nat) -> GraphState
    decreases n,
{
    if n == 0 {
        st
    } else {
        graph_step(graph_run(st, rows, max_depth, external, (n - 1) as nat), rows, max_depth, external)
    }
}

/// The outcome of a walk: where it started, its edges in the order found,
/// how many files it saw, how many edges closed a cycle or left the
/// project, and the deepest level it visited.
#[derive(Debug, Clone)]
pub struct GraphResult {
    pub entry: String,
    pub edges: Vec<Edge>,
    pub file_count: usize,
    pub cycle_count: u64,
    pub external_count: u64,
    pub max_depth: usize,
}

/// The files a walk may enter: the entry and every resolved import.
pub open spec fn walk_universe(entry: Seq<char>, rows: Seq<ImportRow>) -> Seq<Seq<char>> {
    seq![entry] + rows.map_values(|r: ImportRow| match opt_view(r.resolved_path) {
        Some(t) => t,
        None => entry,
    })
}

/// The walk's state as kept while it runs.
struct Walk {
    queue: Vec<(String, usize)>,
    head: usize,
    visited: Vec<String>,
    files: Vec<String>,
    edges: Vec<Edge>,
    cycles: u64,
    externals: u64,
    depth: usize,
}

impl Walk {
    /// The walk's state as plain values.
    spec fn state(&self) -> GraphState {
        GraphState {
            queue: self.queue@.skip(self.head as int).map_values(|q: (String, usize)| (q.0@, q.1 as int)),
            visited: self.visited.deep_view().to_set(),
            files: self.files.deep_view().to_set(),
            edges: edges_view(self.edges@),
            cycles: self.cycles as int,
            externals: self.externals as int,
            depth: self.depth as int,
        }
    }

    /// What holds of the walk throughout.
    spec fn inv(&self, entry: Seq<char>, rows: Seq<ImportRow>, max_depth: usize) -> bool {
        &&& self.head <= self.queue@.len()
        &&& self.visited.deep_view().no_duplicates()
        &&& self.files.deep_view().no_duplicates()
        &&& self.queue@.len() == self.visited@.len()
        &&& forall|t: Seq<char>| self.visited.deep_view().contains(t) ==> walk_universe(entry, rows).contains(t)
        &&& forall|k: int| 0 <= k < self.queue@.len() ==> (#[trigger] self.queue@[k]).1 == 0 || self.queue@[k].1 < max_depth
        &&& self.depth <= max_depth || self.depth == 0
    }
}

/// Visits the stored import `row` while the walk is at `path` and `depth`.
fn visit_row_exec(w: &mut Walk, path: &str, depth: usize, max_depth: usize, external: bool, row: &ImportRow, Ghost(entry): Ghost<Seq<char>>, Ghost(rows): Ghost<Seq<ImportRow>>)
    requires
        old(w).inv(entry, rows, max_depth),
        depth == 0 || depth < max_depth,
        rows.contains(*row),
        old(w).cycles + old(w).externals < u64::MAX,
    ensures
        final(w).inv(entry, rows, max_depth),
        final(w).state() == visit_row(old(w).state(), path@, depth as int, max_depth as int, external, *row),
        final(w).head == old(w).head,
        final(w).visited@.len() >= old(w).visited@.len(),
        final(w).cycles + final(w).externals <= old(w).cycles + old(w).externals + 1,
{
    let ghost st = w.state();
    if !str_eq(row.path.as_str(), path) {
        return;
    }
    match &row.resolved_path {
        Some(t) => {
            let ghost tv = t@;
            if contains_string(&w.visited, t.as_str()) {
                w.cycles = w.cycles + 1;
                let ghost oe = w.edges@;
                w.edges.push(Edge { from: lit_string(path), to: Some(t.clone()), raw_import: row.raw_import.clone(), kind: lit_string("cycle") });
                assert(edges_view(w.edges@) =~= edges_view(oe).push((path@, Some(tv), row.raw_import@, "cycle"@)));
            } else {
                let ghost oe = w.edges@;
                w.edges.push(Edge { from: lit_string(path), to: Some(t.clone()), raw_import: row.raw_import.clone(), kind: row.kind.clone() });
                assert(edges_view(w.edges@) =~= edges_view(oe).push((path@, Some(tv), row.raw_import@, row.kind@)));
                insert_path(&mut w.files, t.clone());
                if depth + 1 < max_depth {
                    let ghost ov = w.visited.deep_view();
                    let ghost oq = w.queue@;
                    proof {
                        let k = choose|k: int| 0 <= k < rows.len() && rows[k] == *row;
                        assert(walk_universe(entry, rows)[k + 1] == tv);
                    }
                    insert_path(&mut w.visited, t.clone());
                    w.queue.push((t.clone(), depth + 1));
                    assert(w.queue@.skip(w.head as int).map_values(|q: (String, usize)| (q.0@, q.1 as int))
                        =~= oq.skip(w.head as int).map_values(|q: (String, usize)| (q.0@, q.1 as int)).push((tv, depth + 1)));
                    assert forall|x: Seq<char>| w.visited.deep_view().contains(x) implies walk_universe(entry, rows).contains(x) by {
                        if x != tv {
                            assert(ov.contains(x));
                        }
                    }
                }
            }
        },
        None => {
            w.externals = w.externals + 1;
            if external {
                let ghost oe = w.edges@;
                w.edges.push(Edge { from: lit_string(path), to: None, raw_import: row.raw_import.clone(), kind: lit_string("external") });
                assert(edges_view(w.edges@) =~= edges_view(oe).push((path@, None, row.raw_import@, "external"@)));
            }
        },
    }
}

/// A bound on the counters of a walk.
proof fn lemma_count_bound(head: int, n: int, i: int)
    requires
        0 <= head <= n,
        0 <= i < n,
        n < 0x1_0000_0000,
    ensures
        head * n + i + 1 < 0xffff_ffff_ffff_ffff,
        head * n + i + 1 <= head * n + n,
        (head + 1) * n == head * n + n,
{
    assert(head * n <= n * n) by (nonlinear_arith)
        requires
            0 <= head <= n,
    ;
    assert(n * n <= 0xffff_ffff * 0xffff_ffff) by (nonlinear_arith)
        requires
            0 <= n <= 0xffff_ffff,
    ;
    assert((head + 1) * n == head * n + n) by (nonlinear_arith);
}

/// The import graph from `entry`: a breadth-first walk over the stored
/// import rows `rows` (each file's in stored order), entering files down to
/// `max_depth` levels and keeping imports from outside the project as edges
/// when `include_external`. The result is the walk run until nothing is
/// queued (see `graph_step`).
pub fn build_graph(rows: &[ImportRow], entry: &str, max_depth: usize, include_external: bool) -> (r: GraphResult)
    requires
        rows@.len() < 0x1_0000_0000,
    ensures
        r.entry@ == entry@,
        exists|n: nat| {
            let st = #[trigger] graph_run(graph_init(entry@), rows@, max_depth as int, include_external, n);
            &&& st.queue.len() == 0
            &&& edges_view(r.edges@) == st.edges
            &&& r.file_count == st.files.len()
            &&& r.cycle_count == st.cycles
            &&& r.external_count == st.externals
            &&& r.max_depth == st.depth
        },
{
    let ghost rv = rows@;
    let ghost md = max_depth as int;
    let ghost n = rv.len();
    let mut queue: Vec<(String, usize)> = Vec::new();
    queue.push((lit_string(entry), 0));
    let mut visited: Vec<String> = Vec::new();
    visited.push(lit_string(entry));
    let mut files: Vec<String> = Vec::new();
    files.push(lit_string(entry));
    let mut w = Walk { queue, head: 0, visited, files, edges: Vec::new(), cycles: 0, externals: 0, depth: 0 };
    assert(w.visited.deep_view() =~= seq![entry@]);
    assert(w.files.deep_view() =~= seq![entry@]);
    assert(w.state().queue =~= seq![(entry@, 0int)]);
    assert(seq![entry@][0] == entry@);
    assert(seq![entry@].to_set() =~= set![entry@]);
    assert(w.state().visited =~= set![entry@]);
    assert(w.state().files =~= set![entry@]);
    assert(w.state().edges =~= Seq::<EdgeView>::empty());
    assert(walk_universe(entry@, rv)[0] == entry@);
    let ghost mut steps: nat = 0;
    while w.head < w.queue.len()
        invariant
            rv == rows@,
            n == rv.len(),
            n < 0x1_0000_0000,
            md == max_depth as int,
            w.inv(entry@, rv, max_depth),
            w.state() == graph_run(graph_init(entry@), rv, md, include_external, steps),
            w.cycles + w.externals <= w.head * n,
        decreases n + 1 - w.visited@.len(), w.queue@.len() - w.head,
    {
        proof {
            lemma_nodup_subset_len(w.visited.deep_view(), walk_universe(entry@, rv));
            assert(walk_universe(entry@, rv).len() == n + 1);
        }
        let ghost st0 = w.state();
        let ghost vlen0 = w.visited@.len();
        let ghost head0 = w.head as int;
        let p = w.queue[w.head].0.clone();
        let d = w.queue[w.head].1;
        assert(w.queue@[w.head as int].1 == 0 || w.queue@[w.head as int].1 < max_depth);
        w.head = w.head + 1;
        if d > w.depth {
            w.depth = d;
        }
        assert(st0.queue[0] == (p@, d as int));
        assert(w.state().queue =~= st0.queue.drop_first());
        let ghost st1 = w.state();
        assert(w.visited.deep_view().len() == w.visited@.len());
        assert(head0 <= n);
        let mut i: usize = 0;
        while i < rows.len()
            invariant
                rv == rows@,
                n == rv.len(),
                n < 0x1_0000_0000,
                md == max_depth as int,
                i <= n,
                d == 0 || d < max_depth,
                w.inv(entry@, rv, max_depth),
                w.head == head0 + 1,
                0 <= head0 <= n,
                w.state() == visit_rows(st1, p@, d as int, md, include_external, rv, i as int),
                w.cycles + w.externals <= head0 * n + i,
                w.visited@.len() >= vlen0,
            decreases n - i,
        {
            proof {
                lemma_nodup_subset_len(w.visited.deep_view(), walk_universe(entry@, rv));
                lemma_count_bound(head0, n as int, i as int);
                assert(rv[i as int] == rows@[i as int]);
                assert(rv.contains(rows@[i as int]));
            }
            visit_row_exec(&mut w, p.as_str(), d, max_depth, include_external, &rows[i], Ghost(entry@), Ghost(rv));
            i = i + 1;
        }
        proof {
            if n > 0 {
                lemma_count_bound(head0, n as int, 0);
            } else {
                assert(w.head * n == 0) by (nonlinear_arith)
                    requires
                        n == 0,
                ;
                assert(head0 * n == 0) by (nonlinear_arith)
                    requires
                        n == 0,
                ;
            }
            lemma_nodup_subset_len(w.visited.deep_view(), walk_universe(entry@, rv));
            assert(walk_universe(entry@, rv).len() == n + 1);
            steps = steps + 1;
        }
    }
    proof {
        w.files.deep_view().unique_seq_to_set();
    }
    GraphResult {
        entry: lit_string(entry),
        edges: w.edges,
        file_count: w.files.len(),
        cycle_count: w.cycles,
        external_count: w.externals,
        max_depth: w.depth,
    }
}

// ── The graph as a tree ──

/// An edge seen from the file it starts at: the file imported (none for an
/// import from outside the project), the import as written, and its kind.
#[derive(Debug, Clone)]
pub struct TreeChild {
    pub target: Option<String>,
    pub raw_import: String,
    pub kind: String,
}

/// A child as plain text.
pub type ChildView = (Option<Seq<char>>, Seq<char>, Seq<char>);

impl TreeChild {
    /// This child as plain text.
    pub open spec fn view_child(&self) -> ChildView {
        (opt_view(self.target), self.raw_import@, self.kind@)
    }
}

/// The children of a list as plain text.
pub open spec fn children_view(c: Seq<TreeChild>) -> Seq<ChildView> {
    c.map_values(|t: TreeChild| t.view_child())
}

/// The edges from `path`, in order, seen from `path`.
pub open spec fn kids_of(edges: Seq<EdgeView>, path: Seq<char>) -> Seq<ChildView>
    decreases edges.len(),
{
    if edges.len() == 0 {
        seq![]
    } else {
        let e = edges.last();
        let before = kids_of(edges.drop_last(), path);
        if e.0 == path {
            before.push((e.1, e.2, e.3))
        } else {
            before
        }
    }
}

/// The children listed for `path` in a list of keys and lists.
pub open spec fn lookup_kids(keys: Seq<Seq<char>>, lists: Seq<Vec<TreeChild>>, path: Seq<char>) -> Seq<ChildView> {
    match keys.index_of_first(path) {
        Some(k) => children_view(lists[k]@),
        None => seq![],
    }
}

/// The edges grouped by the file they start at.
pub struct ChildMap {
    pub keys: Vec<String>,
    pub lists: Vec<Vec<TreeChild>>,
}

impl ChildMap {
    /// Each file is a key once, with one list.
    pub open spec fn wf(&self) -> bool {
        &&& self.keys@.len() == self.lists@.len()
        &&& self.keys.deep_view().no_duplicates()
    }

    /// The children listed for `path`; none when it is no key.
    pub open spec fn kids(&self, path: Seq<char>) -> Seq<ChildView> {
        lookup_kids(self.keys.deep_view(), self.lists@, path)
    }

    /// The children listed for `path`.
    pub fn get(&self, path: &str) -> (r: Vec<TreeChild>)
        requires
            self.wf(),
        ensures
            children_view(r@) == self.kids(path@),
    {
        let ghost kv = self.keys.deep_view();
        proof {
            kv.index_of_first_ensures(path@);
        }
        let mut k: usize = 0;
        while k < self.keys.len()
            invariant
                k <= kv.len(),
                kv == self.keys.deep_view(),
                self.keys@.len() == self.lists@.len(),
                forall|j: int| 0 <= j < k ==> kv[j] != path@,
            decreases kv.len() - k,
        {
            if str_eq(self.keys[k].as_str(), path) {
                proof {
                    assert(kv[k as int] == path@);
                    assert(kv.index_of_first(path@) == Some(k as int)) by {
                        kv.index_of_first_ensures(path@);
                    }
                }
                return copy_children(&self.lists[k]);
            }
            k = k + 1;
        }
        proof {
            kv.index_of_first_ensures(path@);
            if kv.index_of_first(path@) is Some {
                let j = kv.index_of_first(path@).unwrap();
                assert(kv[j] == path@);
            }
        }
        Vec::new()
    }
}

/// A copy of one child.
fn copy_child(c: &TreeChild) -> (r: TreeChild)
    ensures
        r.view_child() == c.view_child(),
{
    TreeChild {
        target: match &c.target {
            Some(t) => Some(t.clone()),
            None => None,
        },
        raw_import: c.raw_import.clone(),
        kind: c.kind.clone(),
    }
}

/// A copy of a list of children.
fn copy_children(v: &Vec<TreeChild>) -> (r: Vec<TreeChild>)
    ensures
        children_view(r@) == children_view(v@),
{
    let mut r: Vec<TreeChild> = Vec::new();
    let mut i: usize = 0;
    while i < v.len()
        invariant
            i <= v@.len(),
            r@.len() == i,
            children_view(r@) == children_view(v@.take(i as int)),
        decreases v@.len() - i,
    {
        let c = copy_child(&v[i]);
        let ghost or = r@;
        r.push(c);
        assert forall|j: int| 0 <= j < i + 1 implies #[trigger] children_view(r@)[j] == children_view(v@.take(i + 1))[j] by {
            if j < i {
                assert(r@[j] == or[j]);
                assert(children_view(or)[j] == children_view(v@.take(i as int))[j]);
            }
        }
        assert(children_view(r@) =~= children_view(v@.take(i + 1)));
        i = i + 1;
    }
    assert(v@.take(i as int) =~= v@);
    r
}

/// The edges grouped by the file they start at, each group in edge order.
pub fn edges_by_source(edges: &[Edge]) -> (r: ChildMap)
    ensures
        r.wf(),
        forall|path: Seq<char>| #[trigger] r.kids(path) == kids_of(edges_view(edges@), path),
{
    let ghost ev = edges_view(edges@);
    let mut m = ChildMap { keys: Vec::new(), lists: Vec::new() };
    let mut i: usize = 0;
    assert forall|path: Seq<char>| #[trigger] m.kids(path) == kids_of(ev.take(0), path) by {
        assert(ev.take(0) =~= Seq::<EdgeView>::empty());
        assert(m.keys.deep_view() =~= Seq::<Seq<char>>::empty());
        m.keys.deep_view().index_of_first_ensures(path);
    }
    while i < edges.len()
        invariant
            i <= edges@.len(),
            ev == edges_view(edges@),
            m.wf(),
            forall|path: Seq<char>| #[trigger] m.kids(path) == kids_of(ev.take(i as int), path),
        decreases edges@.len() - i,
    {
        let e = &edges[i];
        let child = TreeChild {
            target: match &e.to {
                Some(t) => Some(t.clone()),
                None => None,
            },
            raw_import: e.raw_import.clone(),
            kind: e.kind.clone(),
        };
        let ghost cv = child.view_child();
        let ghost from = e.from@;
        assert(ev[i as int] == e.view_edge());
        assert(ev.take(i + 1).drop_last() =~= ev.take(i as int));
        assert(ev.take(i + 1).last() == ev[i as int]);
        let ghost om = m.kids(from);
        let ghost okeys = m.keys.deep_view();
        let ghost olists = m.lists@;
        assert forall|p: Seq<char>| #[trigger] lookup_kids(okeys, olists, p) == kids_of(ev.take(i as int), p) by {
            assert(m.kids(p) == kids_of(ev.take(i as int), p));
        }
        proof {
            okeys.index_of_first_ensures(from);
        }
        let mut k: usize = 0;
        while k < m.keys.len()
            invariant
                k <= okeys.len(),
                okeys == m.keys.deep_view(),
                from == e.from@,
                m.keys@.len() == m.lists@.len(),
                forall|j: int| 0 <= j < k ==> okeys[j] != from,
            ensures
                k <= okeys.len(),
                forall|j: int| 0 <= j < k ==> okeys[j] != from,
                k < okeys.len() ==> okeys[k as int] == from,
            decreases okeys.len() - k,
        {
            assert(okeys[k as int] == m.keys@[k as int]@);
            if str_eq(m.keys[k].as_str(), e.from.as_str()) {
                break;
            }
            k = k + 1;
        }
        if k < m.keys.len() {
            assert(okeys[k as int] == from);
            assert(okeys.index_of_first(from) == Some(k as int)) by {
                okeys.index_of_first_ensures(from);
            }
            let mut list = copy_children(&m.lists[k]);
            let ghost cl = list@;
            list.push(child);
            let ghost nl = list@;
            assert(children_view(nl) =~= children_view(cl).push(cv));
            m.lists.set(k, list);
            assert(m.keys.deep_view() == okeys);
            assert(kids_of(ev.take(i + 1), from) == kids_of(ev.take(i as int), from).push(cv));
            assert(om == children_view(olists[k as int]@));
            assert(m.lists@ == olists.update(k as int, list));
            assert forall|path: Seq<char>| #[trigger] m.kids(path) == kids_of(ev.take(i + 1), path) by {
                okeys.index_of_first_ensures(path);
                assert(lookup_kids(okeys, olists, path) == kids_of(ev.take(i as int), path));
                if path == from {
                    assert(m.lists@[k as int]@ == nl);
                } else {
                    if okeys.index_of_first(path) is Some {
                        let j = okeys.index_of_first(path).unwrap();
                        assert(j != k);
                        assert(m.lists@[j] == olists[j]);
                    }
                }
            }
        } else {
            proof {
                okeys.index_of_first_ensures(from);
                if okeys.contains(from) {
                    let j = choose|j: int| 0 <= j < okeys.len() && okeys[j] == from;
                    assert(false);
                }
            }
            let mut list: Vec<TreeChild> = Vec::new();
            list.push(child);
            let ghost nl = list@;
            m.keys.push(e.from.clone());
            m.lists.push(list);
            let ghost nkeys = m.keys.deep_view();
            assert(nkeys =~= okeys.push(from));
            assert(children_view(nl) =~= seq![cv]);
            assert forall|a: int, b: int| 0 <= a < b < nkeys.len() implies nkeys[a] != nkeys[b] by {
                if b == okeys.len() {
                    assert(okeys[a] != from);
                }
            }
            assert forall|path: Seq<char>| #[trigger] m.kids(path) == kids_of(ev.take(i + 1), path) by {
                okeys.index_of_first_ensures(path);
                nkeys.index_of_first_ensures(path);
                assert(lookup_kids(okeys, olists, path) == kids_of(ev.take(i as int), path));
                if path == from {
                    assert(nkeys[okeys.len() as int] == from);
                    assert(nkeys.index_of_first(path) == Some(okeys.len() as int));
                    assert(om =~= Seq::<ChildView>::empty());
                } else {
                    match okeys.index_of_first(path) {
                        Some(j) => {
                            assert(nkeys[j] == path);
                            assert(nkeys.index_of_first(path) == Some(j));
                            assert(m.lists@[j] == olists[j]);
                        },
                        None => {
                            if nkeys.index_of_first(path) is Some {
                                let j = nkeys.index_of_first(path).unwrap();
                                if j < okeys.len() {
                                    assert(okeys[j] == path);
                                }
                            }
                        },
                    }
                }
            }
        }
        i = i + 1;
    }
    assert(ev.take(i as int) =~= ev);
    m
}

/// What rendering has produced so far: the text, the files rendered, and
/// how many children have been counted for paging.
pub struct RenderState {
    pub out: Seq<char>,
    pub visited: Set<Seq<char>>,
    pub count: int,
}

/// Rendering the node `path` of the tree (its own line only at the root),
/// then its children unless it stands at `max_depth`.
pub open spec fn render_node(
    kids_fn: spec_fn(Seq<char>) -> Seq<ChildView>,
    path: Seq<char>,
    prefix: Seq<char>,
    is_root: bool,
    st: RenderState,
    depth: int,
    max_depth: int,
    limit: int,
    offset: int,
) -> RenderState
    decreases max_depth - depth, kids_fn(path).len() + 1,
{
    let st1 = RenderState {
        out: if is_root {
            st.out + path + "\n"@
        } else {
            st.out
        },
        visited: st.visited.insert(path),
        count: st.count,
    };
    if depth >= max_depth {
        st1
    } else {
        render_kids(kids_fn, kids_fn(path), 0, prefix, st1, depth, max_depth, limit, offset)
    }
}

/// Rendering the children `kids[i..]` of a node at `depth`: each child
/// counts once; those counted before `offset` print nothing, and once
/// `offset + limit` are counted the rest is left out. A child prints as
/// `prefix`, a connector (`└── ` for the last, `├── ` otherwise) and its
/// target, marked `(cycle)` where it closes a cycle or was rendered before
/// (and then not expanded), or as `[ext]` and the import for one outside
/// the project.
pub open spec fn render_kids(
    kids_fn: spec_fn(Seq<char>) -> Seq<ChildView>,
    kids: Seq<ChildView>,
    i: int,
    prefix: Seq<char>,
    st: RenderState,
    depth: int,
    max_depth: int,
    limit: int,
    offset: int,
) -> RenderState
    decreases max_depth - depth, kids.len() - i,
{
    if depth >= max_depth || i < 0 || i >= kids.len() || st.count >= offset + limit {
        st
    } else {
        let target = kids[i].0;
        let raw = kids[i].1;
        let kind = kids[i].2;
        let is_last = i == kids.len() - 1;
        let connector = if is_last {
            "└── "@
        } else {
            "├── "@
        };
        let child_prefix = if is_last {
            "    "@
        } else {
            "│   "@
        };
        let st2 = if st.count >= offset {
            match target {
                Some(t) => if kind == "cycle"@ || st.visited.contains(t) {
                    RenderState { out: st.out + prefix + connector + t + " (cycle)\n"@, ..st }
                } else {
                    render_node(
                        kids_fn,
                        t,
                        prefix + child_prefix,
                        false,
                        RenderState { out: st.out + prefix + connector + t + "\n"@, ..st },
                        depth + 1,
                        max_depth,
                        limit,
                        offset,
                    )
                },
                None => RenderState { out: st.out + prefix + connector + "[ext] "@ + raw + "\n"@, ..st },
            }
        } else {
            st
        };
        render_kids(kids_fn, kids, i + 1, prefix, RenderState { count: st2.count + 1, ..st2 }, depth, max_depth, limit, offset)
    }
}

/// Renders the node `path` of the import tree into `output` (see
/// `render_node`): `visited` collects the files rendered, `node_count` the
/// children counted for paging.
pub fn render_tree_node(
    path: &str,
    prefix: &str,
    is_root: bool,
    children: &ChildMap,
    visited: &mut Vec<String>,
    output: &mut String,
    node_count: &mut usize,
    depth: usize,
    max_depth: usize,
    limit: usize,
    offset: usize,
)
    requires
        children.wf(),
        old(visited).deep_view().no_duplicates(),
        offset + limit + max_depth <= usize::MAX,
        *old(node_count) <= offset + limit,
    ensures
        final(visited).deep_view().no_duplicates(),
        ({
            let r = render_node(
                |p: Seq<char>| children.kids(p),
                path@,
                prefix@,
                is_root,
                RenderState { out: old(output)@, visited: old(visited).deep_view().to_set(), count: *old(node_count) as int },
                depth as int,
                max_depth as int,
                limit as int,
                offset as int,
            );
            &&& final(output)@ == r.out
            &&& final(visited).deep_view().to_set() == r.visited
            &&& *final(node_count) == r.count
        }),
        depth < max_depth ==> *final(node_count) <= offset + limit + max_depth - depth,
        depth >= max_depth ==> *final(node_count) == *old(node_count),
    decreases max_depth - depth,
{
    let ghost kf = |p: Seq<char>| children.kids(p);
    if is_root {
        push_text(output, path);
        push_text(output, "\n");
    }
    insert_path(visited, lit_string(path));
    if depth >= max_depth {
        return;
    }
    let kids = children.get(path);
    let ghost kv = children_view(kids@);
    let ghost st1 = RenderState { out: output@, visited: visited.deep_view().to_set(), count: *node_count as int };
    let ghost whole = render_node(
        kf,
        path@,
        prefix@,
        is_root,
        RenderState { out: old(output)@, visited: old(visited).deep_view().to_set(), count: *old(node_count) as int },
        depth as int,
        max_depth as int,
        limit as int,
        offset as int,
    );
    assert(whole == render_kids(kf, kv, 0, prefix@, st1, depth as int, max_depth as int, limit as int, offset as int));
    let mut i: usize = 0;
    while i < kids.len()
        invariant
            i <= kids@.len(),
            kv == children_view(kids@),
            kv == children.kids(path@),
            kf == (|p: Seq<char>| children.kids(p)),
            children.wf(),
            depth < max_depth,
            offset + limit + max_depth <= usize::MAX,
            visited.deep_view().no_duplicates(),
            *node_count <= offset + limit + max_depth - depth,
            whole == render_kids(kf, kv, 0, prefix@, st1, depth as int, max_depth as int, limit as int, offset as int),
            whole == render_node(
                kf,
                path@,
                prefix@,
                is_root,
                RenderState { out: old(output)@, visited: old(visited).deep_view().to_set(), count: *old(node_count) as int },
                depth as int,
                max_depth as int,
                limit as int,
                offset as int,
            ),
            render_kids(kf, kv, i as int, prefix@, RenderState { out: output@, visited: visited.deep_view().to_set(), count: *node_count as int }, depth as int, max_depth as int, limit as int, offset as int)
                == render_kids(kf, kv, 0, prefix@, st1, depth as int, max_depth as int, limit as int, offset as int),
        decreases kids@.len() - i,
    {
        if *node_count >= offset + limit {
            return;
        }
        let is_last = i == kids.len() - 1;
        let connector = if is_last {
            "└── "
        } else {
            "├── "
        };
        let child_prefix = if is_last {
            "    "
        } else {
            "│   "
        };
        assert(kv[i as int] == kids@[i as int].view_child());
        if *node_count >= offset {
            match &kids[i].target {
                Some(target) => {
                    if str_eq(kids[i].kind.as_str(), "cycle") || contains_string(visited, target.as_str()) {
                        push_text(output, prefix);
                        push_text(output, connector);
                        push_text(output, target.as_str());
                        push_text(output, " (cycle)\n");
                    } else {
                        push_text(output, prefix);
                        push_text(output, connector);
                        push_text(output, target.as_str());
                        push_text(output, "\n");
                        let mut next_prefix = lit_string(prefix);
                        push_text(&mut next_prefix, child_prefix);
                        render_tree_node(
                            target.as_str(),
                            next_prefix.as_str(),
                            false,
                            children,
                            visited,
                            output,
                            node_count,
                            depth + 1,
                            max_depth,
                            limit,
                            offset,
                        );
                    }
                },
                None => {
                    push_text(output, prefix);
                    push_text(output, connector);
                    push_text(output, "[ext] ");
                    push_text(output, kids[i].raw_import.as_str());
                    push_text(output, "\n");
                },
            }
        }
        *node_count = *node_count + 1;
        i = i + 1;
    }
}

/// How many edges stay inside the project.
pub open spec fn internal_count(edges: Seq<EdgeView>) -> nat
    decreases edges.len(),
{
    if edges.len() == 0 {
        0
    } else {
        internal_count(edges.drop_last()) + if edges.last().1 is Some {
            1nat
        } else {
            0nat
        }
    }
}

/// How many edges stay inside the project.
pub fn internal_edge_count(edges: &[Edge]) -> (r: usize)
    ensures
        r == internal_count(edges_view(edges@)),
{
    let ghost ev = edges_view(edges@);
    let mut c: usize = 0;
    let mut i: usize = 0;
    while i < edges.len()
        invariant
            i <= edges@.len(),
            ev == edges_view(edges@),
            c == internal_count(ev.take(i as int)),
            c <= i,
        decreases edges@.len() - i,
    {
        assert(ev.take(i + 1).drop_last() =~= ev.take(i as int));
        assert(ev[i as int] == edges@[i as int].view_edge());
        if edges[i].to.is_some() {
            c = c + 1;
        }
        i = i + 1;
    }
    assert(ev.take(i as int) =~= ev);
    c
}

/// The closing line of a rendered tree.
pub open spec fn tree_summary(files: nat, edges: nat, cycles: nat, limit: nat, offset: nat) -> Seq<char> {
    "\n"@ + decimal(files) + " files, "@ + decimal(edges) + " edges, "@ + decimal(cycles) + " cycles (--limit "@
        + decimal(limit) + " --offset "@ + decimal(offset) + ")\n"@
}

/// The graph rendered as a tree from its entry, children paged by `offset`
/// and `limit` and expanded down to `depth` levels, then a line counting
/// files, edges inside the project and cycles.
pub fn render_tree(graph: &GraphResult, depth: usize, limit: usize, offset: usize) -> (r: String)
    requires
        offset + limit + depth <= usize::MAX,
    ensures
        ({
            r@ == render_node(
                |p: Seq<char>| kids_of(edges_view(graph.edges@), p),
                graph.entry@,
                seq![],
                true,
                RenderState { out: seq![], visited: Set::empty(), count: 0 },
                0,
                depth as int,
                limit as int,
                offset as int,
            ).out + tree_summary(
                graph.file_count as nat,
                internal_count(edges_view(graph.edges@)),
                graph.cycle_count as nat,
                limit as nat,
                offset as nat,
            )
        }),
{
    let children = edges_by_source(graph.edges.as_slice());
    let mut output = String::new();
    let mut visited: Vec<String> = Vec::new();
    let mut node_count: usize = 0;
    assert(visited.deep_view().to_set() =~= Set::<Seq<char>>::empty());
    proof {
        reveal_strlit("");
        assert(""@ =~= Seq::<char>::empty());
        assert((|p: Seq<char>| children.kids(p)) =~= (|p: Seq<char>| kids_of(edges_view(graph.edges@), p)));
    }
    render_tree_node(graph.entry.as_str(), "", true, &children, &mut visited, &mut output, &mut node_count, 0, depth, limit, offset);
    let ghost rendered = output@;
    let internal = internal_edge_count(graph.edges.as_slice());
    let mut tail: Vec<char> = Vec::new();
    tail.push('\n');
    push_decimal(&mut tail, graph.file_count as u64);
    extend_chars(&mut tail, lit_chars(" files, ").as_slice());
    push_decimal(&mut tail, internal as u64);
    extend_chars(&mut tail, lit_chars(" edges, ").as_slice());
    push_decimal(&mut tail, graph.cycle_count);
    extend_chars(&mut tail, lit_chars(" cycles (--limit ").as_slice());
    push_decimal(&mut tail, limit as u64);
    extend_chars(&mut tail, lit_chars(" --offset ").as_slice());
    push_decimal(&mut tail, offset as u64);
    extend_chars(&mut tail, lit_chars(")\n").as_slice());
    proof {
        reveal_strlit("\n");
    }
    assert(tail@ =~= tree_summary(graph.file_count as nat, internal as nat, graph.cycle_count as nat, limit as nat, offset as nat));
    push_text(&mut output, string_of(tail.as_slice()).as_str());
    assert(output@ == rendered + tail@);
    output
}

/// The page of `n` edges that `offset` and `limit` select, as the range of
/// their indices, and whether edges remain after it.
pub fn edge_page(n: usize, offset: usize, limit: usize) -> (r: (usize, usize, bool))
    requires
        offset + limit <= usize::MAX,
    ensures
        r.0 == (if offset < n {
            offset
        } else {
            n
        }),
        r.1 == (if offset + limit < n {
            offset + limit
        } else {
            n as int
        }),
        r.2 == (offset + limit < n),
{
    let start = if offset < n {
        offset
    } else {
        n
    };
    let end = if offset + limit < n {
        offset + limit
    } else {
        n
    };
    (start, end, offset + limit < n)
}

} // verus!
