//! Syntax trees as plain values: what the indexer reads of a tree-sitter
//! parse, copied node by node into a tree of its own.
use vstd::prelude::*;
use vstd::utf8::{decode_utf8, valid_utf8};

use crate::lang::Grammar;
use crate::models::lit_string;
use crate::text::{opt_view, str_eq};

verus! {

/// A tree-sitter grammar.
#[verifier::external_type_specification]
#[verifier::external_body]
pub struct ExLanguage(tree_sitter::Language);

/// A tree-sitter parse tree.
#[verifier::external_type_specification]
#[verifier::external_body]
pub struct ExTree(tree_sitter::Tree);


/// One node of a syntax tree: its kind, the field under which it hangs
/// from its parent, its parent and children (indices into the tree), its
/// byte range in the source, and its start and end as row and column.
#[derive(Debug, Clone)]
pub struct SyntaxNode {
    pub kind: String,
    pub field: Option<String>,
    pub parent: Option<usize>,
    pub children: Vec<usize>,
    pub start_byte: usize,
    pub end_byte: usize,
    pub start_row: usize,
    pub start_col: usize,
    pub end_row: usize,
    pub end_col: usize,
}

/// A syntax tree, its nodes in pre-order; the root comes first.
#[derive(Debug, Clone)]
pub struct SyntaxTree {
    pub nodes: Vec<SyntaxNode>,
}

/// A node's ranges are in order, its columns fit in 32 bits, and its rows
/// stay below `0xffff_0000`.
pub open spec fn node_sane(n: SyntaxNode) -> bool {
    &&& n.start_byte <= n.end_byte
    &&& n.start_row <= n.end_row
    &&& n.end_row < 0xffff_0000
    &&& n.start_col <= u32::MAX
    &&& n.end_col <= u32::MAX
}

impl SyntaxTree {
    /// Each child comes after its parent and names it as its parent, and
    /// every node is sane.
    pub open spec fn wf(&self) -> bool {
        &&& self.nodes@.len() >= 1
        &&& forall|i: int| 0 <= i < self.nodes@.len() ==> node_sane(#[trigger] self.nodes@[i])
        &&& forall|i: int, k: int|
            0 <= i < self.nodes@.len() && 0 <= k < self.nodes@[i].children@.len() ==> {
                let c = #[trigger] self.nodes@[i].children@[k];
                &&& i < c < self.nodes@.len()
                &&& self.nodes@[c as int].parent == Some(i as usize)
            }
    }
}

// ── What tree-sitter gives ──

/// One node of a tree-sitter parse as plain values: its kind, the field
/// under which it hangs from its parent, its parent's index (nodes counted
/// in pre-order, the root first), its byte range, and its start and end as
/// row and column.
pub struct NodeRec {
    pub kind: Seq<char>,
    pub field: Option<Seq<char>>,
    pub parent: Option<nat>,
    pub start_byte: nat,
    pub end_byte: nat,
    pub start_row: nat,
    pub start_col: nat,
    pub end_row: nat,
    pub end_col: nat,
}

/// The nodes of a tree-sitter tree, in pre-order (the order of
/// `TreeCursor::goto_descendant`), the root first.
pub uninterp spec fn tree_nodes(t: tree_sitter::Tree) -> Seq<NodeRec>;

/// The nodes of the tree that tree-sitter builds for `source` with grammar
/// `g`, in pre-order: a function of the grammar and the bytes alone.
pub uninterp spec fn parsed_nodes(g: Grammar, source: Seq<u8>) -> Seq<NodeRec>;

/// One node as read from a tree, in plain values.
pub struct NodeData {
    pub kind: &'static str,
    pub field: Option<&'static str>,
    pub parent: Option<usize>,
    pub start_byte: usize,
    pub end_byte: usize,
    pub start_row: usize,
    pub start_col: usize,
    pub end_row: usize,
    pub end_col: usize,
}

impl NodeData {
    /// The node these values describe.
    pub open spec fn rec(&self) -> NodeRec {
        NodeRec {
            kind: self.kind@,
            field: match self.field {
                Some(f) => Some(f@),
                None => None,
            },
            parent: match self.parent {
                Some(p) => Some(p as nat),
                None => None,
            },
            start_byte: self.start_byte as nat,
            end_byte: self.end_byte as nat,
            start_row: self.start_row as nat,
            start_col: self.start_col as nat,
            end_row: self.end_row as nat,
            end_col: self.end_col as nat,
        }
    }
}

/// How many nodes a tree has (`Node::descendant_count` of its root, which
/// counts the root itself). Trusted: the length of `tree_nodes`.
#[verifier::external_body]
fn node_count(tree: &tree_sitter::Tree) -> (r: usize)
    ensures
        r == tree_nodes(*tree).len(),
        r >= 1,
{
    tree.root_node().descendant_count()
}

/// Node `i` of a tree in pre-order, read through a `TreeCursor`
/// (`goto_descendant`, then the node's kind, field, byte range and
/// positions, and the descendant index of its parent). Trusted: the values
/// are `tree_nodes` at `i`; and, as tree-sitter's source shows, only the
/// root has no parent, a parent comes before its children in pre-order, a
/// node's end is never before its start (`ts_node_end_byte`,
/// `ts_node_end_point` add the node's size to its start), and rows and
/// columns are 32-bit (`TSPoint`).
#[verifier::external_body]
fn node_at(tree: &tree_sitter::Tree, i: usize) -> (r: NodeData)
    requires
        i < tree_nodes(*tree).len(),
    ensures
        r.rec() == tree_nodes(*tree)[i as int],
        r.parent is None <==> i == 0,
        r.parent matches Some(p) ==> p < i,
        r.start_byte <= r.end_byte,
        r.start_row <= r.end_row,
        r.end_row <= u32::MAX,
        r.start_col <= u32::MAX,
        r.end_col <= u32::MAX,
{
    let mut c = tree.walk();
    c.goto_descendant(i);
    let n = c.node();
    let field = c.field_name();
    let moved = c.goto_parent();
    let (start, end) = (n.start_position(), n.end_position());
    NodeData {
        kind: n.kind(), field, parent: moved.then_some(c.descendant_index()),
        start_byte: n.start_byte(), end_byte: n.end_byte(),
        start_row: start.row, start_col: start.column, end_row: end.row, end_col: end.column,
    }
}

/// Parses `source` with the Go grammar (`tree_sitter_go::LANGUAGE`) on a new
/// `tree_sitter::Parser`. Trusted: the tree is what `parsed_nodes` names for
/// this grammar and these bytes; a tree always comes back, as the grammar's
/// ABI (14) is one this tree-sitter accepts (13 to 14) and a parser with no
/// timeout and no cancellation flag fails only without a language.
#[verifier::external_body]
fn parse_go(source: &[u8]) -> (r: Option<tree_sitter::Tree>)
    ensures
        r is Some,
        tree_nodes(r.unwrap()) == parsed_nodes(Grammar::Go, source@),
{
    let mut parser = tree_sitter::Parser::new();
    parser.set_language(&tree_sitter_go::LANGUAGE.into()).ok()?;
    parser.parse(source, None)
}

/// Parses `source` with the Rust grammar (`tree_sitter_rust::LANGUAGE`) on a new
/// `tree_sitter::Parser`. Trusted: the tree is what `parsed_nodes` names for
/// this grammar and these bytes; a tree always comes back, as the grammar's
/// ABI (14) is one this tree-sitter accepts (13 to 14) and a parser with no
/// timeout and no cancellation flag fails only without a language.
#[verifier::external_body]
fn parse_rust(source: &[u8]) -> (r: Option<tree_sitter::Tree>)
    ensures
        r is Some,
        tree_nodes(r.unwrap()) == parsed_nodes(Grammar::Rust, source@),
{
    let mut parser = tree_sitter::Parser::new();
    parser.set_language(&tree_sitter_rust::LANGUAGE.into()).ok()?;
    parser.parse(source, None)
}

/// Parses `source` with the Python grammar (`tree_sitter_python::LANGUAGE`) on a new
/// `tree_sitter::Parser`. Trusted: the tree is what `parsed_nodes` names for
/// this grammar and these bytes; a tree always comes back, as the grammar's
/// ABI (14) is one this tree-sitter accepts (13 to 14) and a parser with no
/// timeout and no cancellation flag fails only without a language.
#[verifier::external_body]
fn parse_python(source: &[u8]) -> (r: Option<tree_sitter::Tree>)
    ensures
        r is Some,
        tree_nodes(r.unwrap()) == parsed_nodes(Grammar::Python, source@),
{
    let mut parser = tree_sitter::Parser::new();
    parser.set_language(&tree_sitter_python::LANGUAGE.into()).ok()?;
    parser.parse(source, None)
}

/// Parses `source` with the TypeScript grammar (`tree_sitter_typescript::LANGUAGE_TYPESCRIPT`) on a new
/// `tree_sitter::Parser`. Trusted: the tree is what `parsed_nodes` names for
/// this grammar and these bytes; a tree always comes back, as the grammar's
/// ABI (14) is one this tree-sitter accepts (13 to 14) and a parser with no
/// timeout and no cancellation flag fails only without a language.
#[verifier::external_body]
fn parse_typescript(source: &[u8]) -> (r: Option<tree_sitter::Tree>)
    ensures
        r is Some,
        tree_nodes(r.unwrap()) == parsed_nodes(Grammar::TypeScript, source@),
{
    let mut parser = tree_sitter::Parser::new();
    parser.set_language(&tree_sitter_typescript::LANGUAGE_TYPESCRIPT.into()).ok()?;
    parser.parse(source, None)
}

/// Parses `source` with the TSX grammar (`tree_sitter_typescript::LANGUAGE_TSX`) on a new
/// `tree_sitter::Parser`. Trusted: the tree is what `parsed_nodes` names for
/// this grammar and these bytes; a tree always comes back, as the grammar's
/// ABI (14) is one this tree-sitter accepts (13 to 14) and a parser with no
/// timeout and no cancellation flag fails only without a language.
#[verifier::external_body]
fn parse_tsx(source: &[u8]) -> (r: Option<tree_sitter::Tree>)
    ensures
        r is Some,
        tree_nodes(r.unwrap()) == parsed_nodes(Grammar::Tsx, source@),
{
    let mut parser = tree_sitter::Parser::new();
    parser.set_language(&tree_sitter_typescript::LANGUAGE_TSX.into()).ok()?;
    parser.parse(source, None)
}

/// Parses `source` with the JavaScript grammar (`tree_sitter_javascript::LANGUAGE`) on a new
/// `tree_sitter::Parser`. Trusted: the tree is what `parsed_nodes` names for
/// this grammar and these bytes; a tree always comes back, as the grammar's
/// ABI (14) is one this tree-sitter accepts (13 to 14) and a parser with no
/// timeout and no cancellation flag fails only without a language.
#[verifier::external_body]
fn parse_javascript(source: &[u8]) -> (r: Option<tree_sitter::Tree>)
    ensures
        r is Some,
        tree_nodes(r.unwrap()) == parsed_nodes(Grammar::JavaScript, source@),
{
    let mut parser = tree_sitter::Parser::new();
    parser.set_language(&tree_sitter_javascript::LANGUAGE.into()).ok()?;
    parser.parse(source, None)
}

/// Parses `source` with the Java grammar (`tree_sitter_java::LANGUAGE`) on a new
/// `tree_sitter::Parser`. Trusted: the tree is what `parsed_nodes` names for
/// this grammar and these bytes; a tree always comes back, as the grammar's
/// ABI (14) is one this tree-sitter accepts (13 to 14) and a parser with no
/// timeout and no cancellation flag fails only without a language.
#[verifier::external_body]
fn parse_java(source: &[u8]) -> (r: Option<tree_sitter::Tree>)
    ensures
        r is Some,
        tree_nodes(r.unwrap()) == parsed_nodes(Grammar::Java, source@),
{
    let mut parser = tree_sitter::Parser::new();
    parser.set_language(&tree_sitter_java::LANGUAGE.into()).ok()?;
    parser.parse(source, None)
}

/// Parses `source` with the C grammar (`tree_sitter_c::LANGUAGE`) on a new
/// `tree_sitter::Parser`. Trusted: the tree is what `parsed_nodes` names for
/// this grammar and these bytes; a tree always comes back, as the grammar's
/// ABI (14) is one this tree-sitter accepts (13 to 14) and a parser with no
/// timeout and no cancellation flag fails only without a language.
#[verifier::external_body]
fn parse_c(source: &[u8]) -> (r: Option<tree_sitter::Tree>)
    ensures
        r is Some,
        tree_nodes(r.unwrap()) == parsed_nodes(Grammar::C, source@),
{
    let mut parser = tree_sitter::Parser::new();
    parser.set_language(&tree_sitter_c::LANGUAGE.into()).ok()?;
    parser.parse(source, None)
}

/// Parses `source` with the C++ grammar (`tree_sitter_cpp::LANGUAGE`) on a new
/// `tree_sitter::Parser`. Trusted: the tree is what `parsed_nodes` names for
/// this grammar and these bytes; a tree always comes back, as the grammar's
/// ABI (14) is one this tree-sitter accepts (13 to 14) and a parser with no
/// timeout and no cancellation flag fails only without a language.
#[verifier::external_body]
fn parse_cpp(source: &[u8]) -> (r: Option<tree_sitter::Tree>)
    ensures
        r is Some,
        tree_nodes(r.unwrap()) == parsed_nodes(Grammar::Cpp, source@),
{
    let mut parser = tree_sitter::Parser::new();
    parser.set_language(&tree_sitter_cpp::LANGUAGE.into()).ok()?;
    parser.parse(source, None)
}

/// Parses `source` with the Ruby grammar (`tree_sitter_ruby::LANGUAGE`) on a new
/// `tree_sitter::Parser`. Trusted: the tree is what `parsed_nodes` names for
/// this grammar and these bytes; a tree always comes back, as the grammar's
/// ABI (14) is one this tree-sitter accepts (13 to 14) and a parser with no
/// timeout and no cancellation flag fails only without a language.
#[verifier::external_body]
fn parse_ruby(source: &[u8]) -> (r: Option<tree_sitter::Tree>)
    ensures
        r is Some,
        tree_nodes(r.unwrap()) == parsed_nodes(Grammar::Ruby, source@),
{
    let mut parser = tree_sitter::Parser::new();
    parser.set_language(&tree_sitter_ruby::LANGUAGE.into()).ok()?;
    parser.parse(source, None)
}

/// Parses `source` with the Bash grammar (`tree_sitter_bash::LANGUAGE`) on a new
/// `tree_sitter::Parser`. Trusted: the tree is what `parsed_nodes` names for
/// this grammar and these bytes; a tree always comes back, as the grammar's
/// ABI (14) is one this tree-sitter accepts (13 to 14) and a parser with no
/// timeout and no cancellation flag fails only without a language.
#[verifier::external_body]
fn parse_bash(source: &[u8]) -> (r: Option<tree_sitter::Tree>)
    ensures
        r is Some,
        tree_nodes(r.unwrap()) == parsed_nodes(Grammar::Bash, source@),
{
    let mut parser = tree_sitter::Parser::new();
    parser.set_language(&tree_sitter_bash::LANGUAGE.into()).ok()?;
    parser.parse(source, None)
}

/// The tree tree-sitter builds for `source` with grammar `g`.
pub fn parse_grammar(g: Grammar, source: &[u8]) -> (r: tree_sitter::Tree)
    ensures
        tree_nodes(r) == parsed_nodes(g, source@),
{
    let parsed = match g {
        Grammar::Go => parse_go(source),
        Grammar::Rust => parse_rust(source),
        Grammar::Python => parse_python(source),
        Grammar::TypeScript => parse_typescript(source),
        Grammar::Tsx => parse_tsx(source),
        Grammar::JavaScript => parse_javascript(source),
        Grammar::Java => parse_java(source),
        Grammar::C => parse_c(source),
        Grammar::Cpp => parse_cpp(source),
        Grammar::Ruby => parse_ruby(source),
        Grammar::Bash => parse_bash(source),
    };
    parsed.unwrap()
}

/// A row as a syntax tree holds it: rows past `0xfffe_ffff` (a source of
/// over four billion lines) are held there.
pub open spec fn held_row(row: nat) -> nat {
    if row > 0xfffe_ffff {
        0xfffe_ffff
    } else {
        row
    }
}

/// The children of node `p` among the first `upto` nodes: those whose
/// parent is `p`, in order.
pub open spec fn children_of(recs: Seq<NodeRec>, p: int, upto: int) -> Seq<usize>
    decreases upto,
{
    if upto <= 0 {
        seq![]
    } else {
        let prev = children_of(recs, p, upto - 1);
        if recs[upto - 1].parent == Some(p as nat) {
            prev.push((upto - 1) as usize)
        } else {
            prev
        }
    }
}

/// Node `n` of a syntax tree holds what `rec` says, rows held (see
/// `held_row`), with children `kids`.
pub open spec fn node_matches(n: SyntaxNode, rec: NodeRec, kids: Seq<usize>) -> bool {
    &&& n.kind@ == rec.kind
    &&& opt_view(n.field) == rec.field
    &&& match n.parent {
        Some(p) => rec.parent == Some(p as nat),
        None => rec.parent is None,
    }
    &&& n.start_byte == rec.start_byte
    &&& n.end_byte == rec.end_byte
    &&& n.start_row == held_row(rec.start_row)
    &&& n.start_col == rec.start_col
    &&& n.end_row == held_row(rec.end_row)
    &&& n.end_col == rec.end_col
    &&& n.children@ == kids
}

/// `nodes` is the syntax tree of the nodes `recs`: node for node, each with
/// its children in order.
pub open spec fn tree_model(nodes: Seq<SyntaxNode>, recs: Seq<NodeRec>) -> bool {
    &&& nodes.len() == recs.len()
    &&& forall|i: int| 0 <= i < nodes.len() ==> node_matches(#[trigger] nodes[i], recs[i], children_of(recs, i, recs.len() as int))
}

/// The parse tree as a syntax tree of plain values: every node of
/// `tree_nodes`, in pre-order, each with its children in order.
pub fn syntax_tree(tree: &tree_sitter::Tree) -> (r: SyntaxTree)
    ensures
        r.wf(),
        tree_model(r.nodes@, tree_nodes(*tree)),
{
    let ghost recs = tree_nodes(*tree);
    let n = node_count(tree);
    let mut nodes: Vec<SyntaxNode> = Vec::new();
    let mut i: usize = 0;
    while i < n
        invariant
            n == recs.len(),
            recs == tree_nodes(*tree),
            i <= n,
            nodes@.len() == i,
            forall|j: int| 0 <= j < i ==> match (#[trigger] recs[j]).parent {
                Some(p) => p < j,
                None => j == 0,
            },
            forall|j: int| 0 <= j < i ==> node_matches(#[trigger] nodes@[j], recs[j], children_of(recs, j, i as int)),
            forall|j: int| 0 <= j < i ==> node_sane(#[trigger] nodes@[j]),
        decreases n - i,
    {
        let d = node_at(tree, i);
        let er: usize = if d.end_row > 0xfffe_ffff {
            0xfffe_ffff
        } else {
            d.end_row
        };
        let sr: usize = if d.start_row > 0xfffe_ffff {
            0xfffe_ffff
        } else {
            d.start_row
        };
        let ghost before = nodes@;
        nodes.push(SyntaxNode {
            kind: lit_string(d.kind),
            field: match d.field {
                Some(f) => Some(lit_string(f)),
                None => None,
            },
            parent: d.parent,
            children: Vec::new(),
            start_byte: d.start_byte,
            end_byte: d.end_byte,
            start_row: sr,
            start_col: d.start_col,
            end_row: er,
            end_col: d.end_col,
        });
        assert(children_of(recs, i as int, i + 1) =~= seq![]) by {
            assert(children_of(recs, i as int, i as int) =~= seq![]) by {
                lemma_children_before(recs, i as int, i as int);
            }
        }
        match d.parent {
            Some(par) => {
                let mut entry = nodes[par].clone_shallow();
                entry.children.push(i);
                nodes.set(par, entry);
            },
            None => {},
        }
        assert forall|j: int| 0 <= j < i + 1 implies node_matches(#[trigger] nodes@[j], recs[j], children_of(recs, j, i + 1)) by {
            if j < i {
                assert(before[j] == before[j]);
            }
        }
        i = i + 1;
    }
    proof {
        assert forall|p: int, k: int|
            0 <= p < nodes@.len() && 0 <= k < nodes@[p].children@.len() implies {
                let c = #[trigger] nodes@[p].children@[k];
                &&& p < c < nodes@.len()
                &&& nodes@[c as int].parent == Some(p as usize)
            } by {
            assert(node_matches(nodes@[p], recs[p], children_of(recs, p, n as int)));
            lemma_children_of(recs, p, n as int, k);
            let c = nodes@[p].children@[k];
            assert(node_matches(nodes@[c as int], recs[c as int], children_of(recs, c as int, n as int)));
        }
    }
    SyntaxTree { nodes }
}

/// Each child of `p` among the first `upto` nodes lies below `upto`, after
/// `p` when parents come first, and names `p` as its parent.
proof fn lemma_children_of(recs: Seq<NodeRec>, p: int, upto: int, k: int)
    requires
        0 <= upto <= recs.len(),
        upto <= usize::MAX,
        0 <= k < children_of(recs, p, upto).len(),
        forall|j: int| 0 <= j < upto ==> match (#[trigger] recs[j]).parent {
            Some(q) => q < j,
            None => j == 0,
        },
    ensures
        ({
            let c = children_of(recs, p, upto)[k];
            &&& p < c < upto
            &&& recs[c as int].parent == Some(p as nat)
        }),
    decreases upto,
{
    if upto > 0 {
        let prev = children_of(recs, p, upto - 1);
        if k < prev.len() {
            lemma_children_of(recs, p, upto - 1, k);
        }
    }
}

/// A node has no children among the nodes before it when parents come
/// first.
proof fn lemma_children_before(recs: Seq<NodeRec>, p: int, upto: int)
    requires
        0 <= upto <= p + 1,
        upto <= recs.len(),
        forall|j: int| 0 <= j < upto ==> match (#[trigger] recs[j]).parent {
            Some(q) => q < j,
            None => j == 0,
        },
    ensures
        children_of(recs, p, upto) == Seq::<usize>::empty(),
    decreases upto,
{
    if upto > 0 {
        lemma_children_before(recs, p, upto - 1);
    }
}

impl SyntaxNode {
    /// A copy of this node.
    pub fn clone_shallow(&self) -> (r: SyntaxNode)
        ensures
            r.kind@ == self.kind@,
            opt_view(r.field) == opt_view(self.field),
            r.parent == self.parent,
            r.children@ == self.children@,
            r.start_byte == self.start_byte,
            r.end_byte == self.end_byte,
            r.start_row == self.start_row,
            r.start_col == self.start_col,
            r.end_row == self.end_row,
            r.end_col == self.end_col,
    {
        let mut children: Vec<usize> = Vec::new();
        let mut i: usize = 0;
        while i < self.children.len()
            invariant
                i <= self.children@.len(),
                children@ == self.children@.take(i as int),
            decreases self.children@.len() - i,
        {
            children.push(self.children[i]);
            assert(self.children@.take(i + 1) =~= self.children@.take(i as int).push(self.children@[i as int]));
            i = i + 1;
        }
        assert(self.children@.take(i as int) =~= self.children@);
        SyntaxNode {
            kind: self.kind.clone(),
            field: match &self.field {
                Some(f) => Some(f.clone()),
                None => None,
            },
            parent: self.parent,
            children,
            start_byte: self.start_byte,
            end_byte: self.end_byte,
            start_row: self.start_row,
            start_col: self.start_col,
            end_row: self.end_row,
            end_col: self.end_col,
        }
    }
}


/// What `String::from_utf8_lossy` gives for `bytes`: their text, each
/// invalid sequence replaced by U+FFFD.
pub uninterp spec fn lossy_text_of(bytes: Seq<u8>) -> Seq<char>;

/// The text of `bytes`, each invalid UTF-8 sequence replaced
/// (`String::from_utf8_lossy`), a function of the bytes alone; std
/// documents that valid UTF-8 comes back as the text it encodes.
#[verifier::external_body]
pub fn lossy_text(bytes: &[u8]) -> (r: String)
    ensures
        r@ == lossy_text_of(bytes@),
        valid_utf8(bytes@) ==> r@ == decode_utf8(bytes@),
{
    String::from_utf8_lossy(bytes).into_owned()
}

/// The text of `bytes` when they are UTF-8 (`std::str::from_utf8`): std
/// documents that it succeeds exactly on valid UTF-8, giving the characters
/// the bytes encode.
#[verifier::external_body]
pub fn utf8_text(bytes: &[u8]) -> (r: Option<String>)
    ensures
        r is Some <==> valid_utf8(bytes@),
        r matches Some(s) ==> s@ == decode_utf8(bytes@),
{
    match std::str::from_utf8(bytes) {
        Ok(s) => Some(s.to_string()),
        Err(_) => None,
    }
}

// ── Reading a tree ──

/// The text of node `i`: its bytes of `src`, when they lie within it and
/// are UTF-8.
pub open spec fn node_text(nodes: Seq<SyntaxNode>, src: Seq<u8>, i: int) -> Option<Seq<char>> {
    let n = nodes[i];
    if n.start_byte <= n.end_byte && n.end_byte <= src.len() && valid_utf8(src.subrange(n.start_byte as int, n.end_byte as int)) {
        Some(decode_utf8(src.subrange(n.start_byte as int, n.end_byte as int)))
    } else {
        None
    }
}

/// The first of `kids` that hangs under the field `f`.
pub open spec fn field_child_in(nodes: Seq<SyntaxNode>, kids: Seq<usize>, f: Seq<char>) -> Option<int>
    decreases kids.len(),
{
    if kids.len() == 0 {
        None
    } else if 0 <= kids[0] < nodes.len() && opt_view(nodes[kids[0] as int].field) == Some(f) {
        Some(kids[0] as int)
    } else {
        field_child_in(nodes, kids.drop_first(), f)
    }
}

/// The first child of node `i` under the field `f` (`Node::child_by_field_name`).
pub open spec fn field_child(nodes: Seq<SyntaxNode>, i: int, f: Seq<char>) -> Option<int> {
    field_child_in(nodes, nodes[i].children@, f)
}

impl SyntaxTree {
    /// The text of node `i` (see `node_text`).
    pub fn text(&self, src: &[u8], i: usize) -> (r: Option<String>)
        requires
            i < self.nodes@.len(),
        ensures
            opt_view(r) == node_text(self.nodes@, src@, i as int),
    {
        let n = &self.nodes[i];
        if n.start_byte <= n.end_byte && n.end_byte <= src.len() {
            let mut b: Vec<u8> = Vec::new();
            let mut k: usize = n.start_byte;
            while k < n.end_byte
                invariant
                    n.start_byte <= k <= n.end_byte <= src@.len(),
                    b@ == src@.subrange(n.start_byte as int, k as int),
                decreases n.end_byte - k,
            {
                b.push(src[k]);
                assert(src@.subrange(n.start_byte as int, k + 1) =~= src@.subrange(n.start_byte as int, k as int).push(src@[k as int]));
                k = k + 1;
            }
            utf8_text(b.as_slice())
        } else {
            None
        }
    }

    /// The first child of node `i` under the field `f`.
    pub fn field_child(&self, i: usize, f: &str) -> (r: Option<usize>)
        requires
            i < self.nodes@.len(),
        ensures
            match r {
                Some(c) => field_child(self.nodes@, i as int, f@) == Some(c as int) && c < self.nodes@.len(),
                None => field_child(self.nodes@, i as int, f@) is None,
            },
    {
        let kids = &self.nodes[i].children;
        let ghost kv = kids@;
        let mut k: usize = 0;
        assert(kv.skip(0) =~= kv);
        while k < kids.len()
            invariant
                k <= kv.len(),
                kv == kids@,
                kv == self.nodes@[i as int].children@,
                field_child(self.nodes@, i as int, f@) == field_child_in(self.nodes@, kv.skip(k as int), f@),
            decreases kv.len() - k,
        {
            let c = kids[k];
            assert(kv.skip(k as int)[0] == c);
            assert(kv.skip(k as int).drop_first() =~= kv.skip(k + 1));
            if c < self.nodes.len() {
                let hit = match &self.nodes[c].field {
                    Some(name) => str_eq(name.as_str(), f),
                    None => false,
                };
                if hit {
                    return Some(c);
                }
            }
            k = k + 1;
        }
        None
    }
}

} // verus!
