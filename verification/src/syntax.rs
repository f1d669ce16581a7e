//! Syntax trees of Crystal source code.
//!
//! Source text is parsed by tree-sitter. The tree that comes out is read once into a [`SyntaxNode`],
//! which holds as plain values what the rest of the library looks at. A node inside a tree is
//! named by its path: the child indices that lead to it from the root.

use vstd::prelude::*;
use vstd::utf8::encode_utf8;

use crate::text::{copy, opt_str, opt_text, same, texts};

verus! {

/// A place in a text: the row and the byte column, both counted from zero.
#[derive(Debug, Clone, Copy, PartialEq, Eq, Structural)]
pub struct Point {
    pub row: usize,
    pub column: usize,
}

/// A node of a syntax tree with everything below it.
#[derive(Debug)]
pub struct SyntaxNode {
    /// The kind of the node in the grammar.
    pub kind: String,
    /// The fields of the parent for which this node is the child.
    pub fields: Vec<String>,
    /// Whether the node stands for a named rule of the grammar.
    pub named: bool,
    /// Whether the node stands for text that could not be parsed.
    pub error: bool,
    /// Whether the node was put in by the parser to recover from an error.
    pub missing: bool,
    pub start_byte: usize,
    pub end_byte: usize,
    pub start: Point,
    pub end: Point,
    /// The text that the node spans, where that is valid UTF-8.
    pub text: Option<String>,
    pub children: Vec<SyntaxNode>,
}

/// The model of a [`SyntaxNode`].
#[verifier::ext_equal]
pub struct SynTree {
    pub kind: Seq<char>,
    pub fields: Set<Seq<char>>,
    pub named: bool,
    pub error: bool,
    pub missing: bool,
    pub start_byte: usize,
    pub end_byte: usize,
    pub start: Point,
    pub end: Point,
    pub text: Option<Seq<char>>,
    pub children: Seq<SynTree>,
}

impl SyntaxNode {
    /// The tree that this node stands for.
    pub open spec fn model(self) -> SynTree
        decreases self,
    {
        SynTree {
            kind: self.kind@,
            fields: texts(self.fields@).to_set(),
            named: self.named,
            error: self.error,
            missing: self.missing,
            start_byte: self.start_byte,
            end_byte: self.end_byte,
            start: self.start,
            end: self.end,
            text: opt_text(self.text),
            children: Seq::new(
                self.children@.len(),
                |i: int|
                    if 0 <= i < self.children@.len() {
                        self.children@[i].model()
                    } else {
                        arbitrary()
                    },
            ),
        }
    }
}

impl View for SyntaxNode {
    type V = SynTree;

    open spec fn view(&self) -> SynTree {
        self.model()
    }
}

/// What a node's model says of its own fields and of its children.
pub proof fn lemma_model(n: SyntaxNode)
    ensures
        n@.kind == n.kind@,
        n@.fields == texts(n.fields@).to_set(),
        n@.named == n.named,
        n@.error == n.error,
        n@.missing == n.missing,
        n@.start_byte == n.start_byte,
        n@.end_byte == n.end_byte,
        n@.start == n.start,
        n@.end == n.end,
        n@.text == opt_text(n.text),
        n@.children.len() == n.children@.len(),
        forall|i: int| 0 <= i < n.children@.len() ==> #[trigger] n@.children[i] == n.children@[i]@,
        n@.children =~= n.children@.map_values(|c: SyntaxNode| c@),
{
    reveal_with_fuel(SyntaxNode::model, 2);
}

// ---------------------------------------------------------------------------
// Walking a tree
// ---------------------------------------------------------------------------

/// The node of `t` at the end of `path`.
pub open spec fn subtree(t: SynTree, path: Seq<usize>) -> SynTree
    decreases path.len(),
{
    if path.len() == 0 {
        t
    } else {
        subtree(t, path.drop_last()).children[path.last() as int]
    }
}

/// Whether `path` leads to a node of `t`.
pub open spec fn valid_path(t: SynTree, path: Seq<usize>) -> bool
    decreases path.len(),
{
    path.len() == 0 || (valid_path(t, path.drop_last()) && path.last() < subtree(
        t,
        path.drop_last(),
    ).children.len())
}

/// Every start of a valid path is valid.
pub proof fn lemma_valid_prefix(t: SynTree, path: Seq<usize>, n: int)
    requires
        valid_path(t, path),
        0 <= n <= path.len(),
    ensures
        valid_path(t, path.take(n)),
        n < path.len() ==> path[n] < subtree(t, path.take(n)).children.len(),
    decreases path.len(),
{
    if n == path.len() {
        assert(path.take(n) =~= path);
    } else {
        lemma_valid_prefix(t, path.drop_last(), n);
        assert(path.drop_last().take(n) =~= path.take(n));
        if n == path.len() - 1 {
            assert(path.drop_last() =~= path.take(n));
        }
    }
}

/// One more step along a path.
pub proof fn lemma_step(t: SynTree, path: Seq<usize>, i: usize)
    ensures
        subtree(t, path.push(i)) == subtree(t, path).children[i as int],
        valid_path(t, path) && i < subtree(t, path).children.len() ==> valid_path(t, path.push(i)),
{
    assert(path.push(i).drop_last() =~= path);
}

/// The node at the end of the first `n` steps of `path`.
pub fn node_at<'a>(root: &'a SyntaxNode, path: &Vec<usize>, n: usize) -> (r: &'a SyntaxNode)
    requires
        valid_path(root@, path@),
        n <= path@.len(),
    ensures
        r@ == subtree(root@, path@.take(n as int)),
{
    let mut node = root;
    let mut k: usize = 0;
    assert(path@.take(0) =~= Seq::empty());
    while k < n
        invariant
            k <= n <= path@.len(),
            valid_path(root@, path@),
            node@ == subtree(root@, path@.take(k as int)),
        decreases n - k,
    {
        proof {
            lemma_valid_prefix(root@, path@, k as int);
            lemma_model(*node);
            lemma_step(root@, path@.take(k as int), path@[k as int]);
            assert(path@.take(k + 1) =~= path@.take(k as int).push(path@[k as int]));
        }
        node = &node.children[path[k]];
        k = k + 1;
    }
    node
}

/// The first child of `t` from `i` on that fills the field `name`.
pub open spec fn field_from(t: SynTree, name: Seq<char>, i: int) -> Option<int>
    decreases t.children.len() - i,
{
    if i < 0 || i >= t.children.len() {
        None
    } else if t.children[i].fields.contains(name) {
        Some(i)
    } else {
        field_from(t, name, i + 1)
    }
}

/// Which child of `t` fills the field `name`: the first that does.
pub open spec fn field_index(t: SynTree, name: Seq<char>) -> Option<int> {
    field_from(t, name, 0)
}

/// The child of `t` that fills the field `name`.
pub open spec fn field_of(t: SynTree, name: Seq<char>) -> Option<SynTree> {
    match field_index(t, name) {
        Some(i) => Some(t.children[i]),
        None => None,
    }
}

/// The tree of an optional node.
pub open spec fn opt_tree(n: Option<&SyntaxNode>) -> Option<SynTree> {
    match n {
        Some(n) => Some(n@),
        None => None,
    }
}

/// Whether `name` is one of `names`.
fn is_listed(names: &Vec<String>, name: &str) -> (r: bool)
    ensures
        r == texts(names@).to_set().contains(name@),
{
    let ghost all = texts(names@);
    let mut i: usize = 0;
    while i < names.len()
        invariant
            i <= names@.len(),
            all == texts(names@),
            forall|k: int| 0 <= k < i ==> #[trigger] all[k] != name@,
        decreases names@.len() - i,
    {
        assert(all[i as int] == names@[i as int]@);
        if same(&names[i], name) {
            assert(all.contains(name@));
            return true;
        }
        i = i + 1;
    }
    false
}

/// Finds which child fills the field `name`.
pub fn find_field(n: &SyntaxNode, name: &str) -> (r: Option<usize>)
    ensures
        match r {
            Some(i) => field_index(n@, name@) == Some(i as int) && i < n.children@.len(),
            None => field_index(n@, name@) is None,
        },
{
    proof {
        lemma_model(*n);
    }
    let mut i: usize = 0;
    while i < n.children.len()
        invariant
            i <= n.children@.len(),
            n@.children.len() == n.children@.len(),
            field_index(n@, name@) == field_from(n@, name@, i as int),
        decreases n.children@.len() - i,
    {
        proof {
            lemma_model(*n);
            lemma_model(n.children@[i as int]);
        }
        if is_listed(&n.children[i].fields, name) {
            return Some(i);
        }
        i = i + 1;
    }
    None
}

/// Finds the child that fills the field `name`.
pub fn child_by_field<'a>(n: &'a SyntaxNode, name: &str) -> (r: Option<&'a SyntaxNode>)
    ensures
        opt_tree(r) == field_of(n@, name@),
        r matches Some(c) ==> decreases_to!(n@ => c@),
{
    proof {
        lemma_model(*n);
    }
    match find_field(n, name) {
        Some(i) => {
            assert(decreases_to!(n@ => n@.children[i as int]));
            Some(&n.children[i])
        },
        None => None,
    }
}

/// The first named child of `t` from `i` on.
pub open spec fn named_from(t: SynTree, i: int) -> Option<SynTree>
    decreases t.children.len() - i,
{
    if i < 0 || i >= t.children.len() {
        None
    } else if t.children[i].named {
        Some(t.children[i])
    } else {
        named_from(t, i + 1)
    }
}

/// The first named child of `t`.
pub open spec fn first_named(t: SynTree) -> Option<SynTree> {
    named_from(t, 0)
}

/// Finds the first named child.
pub fn first_named_child(n: &SyntaxNode) -> (r: Option<&SyntaxNode>)
    ensures
        opt_tree(r) == first_named(n@),
{
    proof {
        lemma_model(*n);
    }
    let mut i: usize = 0;
    while i < n.children.len()
        invariant
            i <= n.children@.len(),
            n@.children.len() == n.children@.len(),
            first_named(n@) == named_from(n@, i as int),
        decreases n.children@.len() - i,
    {
        proof {
            lemma_model(*n);
            lemma_model(n.children@[i as int]);
        }
        if n.children[i].named {
            return Some(&n.children[i]);
        }
        i = i + 1;
    }
    None
}

/// Whether the node is of the kind `kind`.
pub fn is_kind(n: &SyntaxNode, kind: &str) -> (r: bool)
    ensures
        r == (n@.kind == kind@),
{
    proof {
        lemma_model(*n);
    }
    same(&n.kind, kind)
}

/// The text that a node spans.
pub fn text_of(n: &SyntaxNode) -> (r: Option<&str>)
    ensures
        opt_str(r) == n@.text,
{
    proof {
        lemma_model(*n);
    }
    match &n.text {
        Some(t) => Some(t.as_str()),
        None => None,
    }
}

/// The text of the child of `t` that fills the field `name`.
pub open spec fn field_text(t: SynTree, name: Seq<char>) -> Option<Seq<char>> {
    match field_of(t, name) {
        Some(c) => c.text,
        None => None,
    }
}

/// The text of the child that fills the field `name`.
pub fn text_of_field<'a>(n: &'a SyntaxNode, name: &str) -> (r: Option<&'a str>)
    ensures
        opt_str(r) == field_text(n@, name@),
{
    match child_by_field(n, name) {
        Some(c) => text_of(c),
        None => None,
    }
}

/// The last named child among the first `n` children of `t`.
pub open spec fn last_named_before(t: SynTree, n: int) -> Option<SynTree>
    decreases n,
{
    if n <= 0 || n > t.children.len() {
        None
    } else if t.children[n - 1].named {
        Some(t.children[n - 1])
    } else {
        last_named_before(t, n - 1)
    }
}

/// The last named child of `t`.
pub open spec fn last_named(t: SynTree) -> Option<SynTree> {
    last_named_before(t, t.children.len() as int)
}

/// Finds the last named child.
pub fn last_named_child(n: &SyntaxNode) -> (r: Option<&SyntaxNode>)
    ensures
        opt_tree(r) == last_named(n@),
{
    proof {
        lemma_model(*n);
    }
    let mut i: usize = n.children.len();
    while i > 0
        invariant
            i <= n.children@.len(),
            n@.children.len() == n.children@.len(),
            last_named(n@) == last_named_before(n@, i as int),
        decreases i,
    {
        proof {
            lemma_model(*n);
            lemma_model(n.children@[i - 1]);
        }
        if n.children[i - 1].named {
            return Some(&n.children[i - 1]);
        }
        i = i - 1;
    }
    None
}

/// The nodes of `t`, each before the nodes below it.
pub open spec fn preorder(t: SynTree) -> Seq<SynTree>
    decreases t, t.children.len() + 1,
{
    seq![t] + preorder_below(t, t.children.len() as int)
}

/// The nodes at and below the first `n` children of `t`.
pub open spec fn preorder_below(t: SynTree, n: int) -> Seq<SynTree>
    decreases t, n,
{
    if n <= 0 || n > t.children.len() {
        Seq::empty()
    } else {
        preorder_below(t, n - 1) + preorder(t.children[n - 1])
    }
}

// ---------------------------------------------------------------------------
// Trees as tree-sitter holds them
// ---------------------------------------------------------------------------

#[verifier::external_type_specification]
#[verifier::external_body]
pub struct TreeHandle(tree_sitter::Tree);

#[verifier::external_type_specification]
#[verifier::external_body]
pub struct NodeHandle<'tree>(tree_sitter::Node<'tree>);

#[verifier::external_type_specification]
#[verifier::external_body]
pub struct QueryHandle(tree_sitter::Query);

/// The fields that the library asks for.
pub open spec fn asked_field(name: Seq<char>) -> bool {
    asked_fields().contains(name)
}

/// The names of the fields that the library asks for.
pub open spec fn asked_fields() -> Seq<Seq<char>> {
    seq![
        "arguments"@,
        "body"@,
        "lhs"@,
        "method"@,
        "name"@,
        "params"@,
        "receiver"@,
        "rhs"@,
        "superclass"@,
        "type"@,
        "var"@,
    ]
}

/// Lists the names of the fields that the library asks for.
fn list_asked_fields() -> (r: Vec<&'static str>)
    ensures
        r@.len() == asked_fields().len(),
        forall|k: int| 0 <= k < r@.len() ==> (#[trigger] r@[k])@ == asked_fields()[k],
{
    vec![
        "arguments",
        "body",
        "lhs",
        "method",
        "name",
        "params",
        "receiver",
        "rhs",
        "superclass",
        "type",
        "var",
    ]
}

/// The tree that `tree_sitter::Parser::parse` builds for a source text with the Crystal grammar;
/// `None` where it gives none. Each node has the text that it spans, and those of the fields that
/// the library asks for on which its parent gives it as the child.
pub uninterp spec fn crystal_tree(source: Seq<char>) -> Option<SynTree>;

/// The source text that a tree was parsed from.
pub uninterp spec fn tree_source(t: tree_sitter::Tree) -> Seq<char>;

/// The source text of the tree that a node belongs to.
pub uninterp spec fn node_source(n: tree_sitter::Node<'_>) -> Seq<char>;

/// The tree that a node belongs to.
pub uninterp spec fn node_owner(n: tree_sitter::Node<'_>) -> tree_sitter::Tree;

/// The path that leads to a node from the root of its tree.
pub uninterp spec fn node_path(n: tree_sitter::Node<'_>) -> Seq<usize>;

/// Whether `n` is a node of the tree of its source text.
pub open spec fn node_ok(n: tree_sitter::Node<'_>) -> bool {
    crystal_tree(node_source(n)) is Some && valid_path(
        crystal_tree(node_source(n))->0,
        node_path(n),
    )
}

/// The tree below a node.
pub open spec fn node_tree(n: tree_sitter::Node<'_>) -> SynTree {
    subtree(crystal_tree(node_source(n))->0, node_path(n))
}

/// The number of bytes up to which a text can be parsed.
pub const MAX_SOURCE_BYTES: usize = 0xffff_ffff;

/// Calls `tree_sitter::Parser::parse` on a fresh parser for `tree_sitter_crystal::LANGUAGE`, without
/// an earlier tree. What tree comes out, if any, depends on the text alone. Positions are held in
/// 32 bits, so a longer text is left out.
#[verifier::external_body]
fn parse_tree(source: &str) -> (r: Option<tree_sitter::Tree>)
    requires
        encode_utf8(source@).len() <= MAX_SOURCE_BYTES,
    ensures
        r is Some <==> crystal_tree(source@) is Some,
        r matches Some(t) ==> tree_source(t) == source@,
{
    let mut parser = tree_sitter::Parser::new();
    parser.set_language(&tree_sitter_crystal::LANGUAGE.into()).expect("Crystal grammar");
    parser.parse(source, None)
}

/// Calls `tree_sitter::Tree::root_node`, which gives the node of the tree at the end of the empty
/// path. It has no parent, so it fills no field.
#[verifier::external_body]
fn root_node(t: &tree_sitter::Tree) -> (r: tree_sitter::Node<'_>)
    requires
        crystal_tree(tree_source(*t)) is Some,
    ensures
        node_owner(r) == *t,
        node_source(r) == tree_source(*t),
        node_path(r) == Seq::<usize>::empty(),
        node_ok(r),
        node_tree(r).fields == Set::<Seq<char>>::empty(),
{
    t.root_node()
}

/// Calls `tree_sitter::Node::child_count`, which counts the children.
#[verifier::external_body]
fn child_count(n: &tree_sitter::Node<'_>) -> (r: usize)
    requires
        node_ok(*n),
    ensures
        r == node_tree(*n).children.len(),
        r <= u32::MAX,
{
    n.child_count() as usize
}

/// Calls `tree_sitter::Node::child`, which gives the child at an index below their number, a node of
/// the same tree. Of its fields only those that the library asks for are spoken of.
#[verifier::external_body]
fn child<'tree>(n: &tree_sitter::Node<'tree>, i: usize) -> (r: tree_sitter::Node<'tree>)
    requires
        node_ok(*n),
        i < node_tree(*n).children.len() <= u32::MAX,
    ensures
        node_owner(r) == node_owner(*n),
        node_source(r) == node_source(*n),
        node_path(r) == node_path(*n).push(i),
        forall|name: Seq<char>| node_tree(r).fields.contains(name) ==> asked_field(name),
{
    n.child(i as u32).unwrap()
}

/// Calls `tree_sitter::Node::child_by_field_name` with a field that the library asks for. The child
/// that it gives, a node of the same tree, is the one that has the field; where it gives none, no
/// child has it.
#[verifier::external_body]
fn child_by_field_name<'tree>(n: &tree_sitter::Node<'tree>, name: &str) -> (r: Option<
    tree_sitter::Node<'tree>,
>)
    requires
        node_ok(*n),
        asked_field(name@),
    ensures
        r matches Some(c) ==> node_ok(c) && node_owner(c) == node_owner(*n) && node_source(c)
            == node_source(*n),
        forall|i: usize|
            i < node_tree(*n).children.len() ==> ((
            #[trigger] node_tree(*n).children[i as int]).fields.contains(name@) <==> (r matches Some(
                c,
            ) && node_path(c) == node_path(*n).push(i))),
{
    n.child_by_field_name(name)
}

/// Calls `tree_sitter::Node::kind`, which names the kind of the node.
#[verifier::external_body]
fn node_kind(n: &tree_sitter::Node<'_>) -> (r: String)
    requires
        node_ok(*n),
    ensures
        r@ == node_tree(*n).kind,
{
    n.kind().to_owned()
}

/// Calls `tree_sitter::Node::is_named`.
#[verifier::external_body]
fn is_named(n: &tree_sitter::Node<'_>) -> (r: bool)
    requires
        node_ok(*n),
    ensures
        r == node_tree(*n).named,
{
    n.is_named()
}

/// Calls `tree_sitter::Node::is_error`.
#[verifier::external_body]
fn is_error(n: &tree_sitter::Node<'_>) -> (r: bool)
    requires
        node_ok(*n),
    ensures
        r == node_tree(*n).error,
{
    n.is_error()
}

/// Calls `tree_sitter::Node::is_missing`.
#[verifier::external_body]
fn is_missing(n: &tree_sitter::Node<'_>) -> (r: bool)
    requires
        node_ok(*n),
    ensures
        r == node_tree(*n).missing,
{
    n.is_missing()
}

/// Calls `tree_sitter::Node::start_byte`.
#[verifier::external_body]
fn start_byte(n: &tree_sitter::Node<'_>) -> (r: usize)
    requires
        node_ok(*n),
    ensures
        r == node_tree(*n).start_byte,
{
    n.start_byte()
}

/// Calls `tree_sitter::Node::end_byte`.
#[verifier::external_body]
fn end_byte(n: &tree_sitter::Node<'_>) -> (r: usize)
    requires
        node_ok(*n),
    ensures
        r == node_tree(*n).end_byte,
{
    n.end_byte()
}

/// Calls `tree_sitter::Node::start_position`.
#[verifier::external_body]
fn start_position(n: &tree_sitter::Node<'_>) -> (r: Point)
    requires
        node_ok(*n),
    ensures
        r == node_tree(*n).start,
{
    let p = n.start_position();
    Point { row: p.row, column: p.column }
}

/// Calls `tree_sitter::Node::end_position`.
#[verifier::external_body]
fn end_position(n: &tree_sitter::Node<'_>) -> (r: Point)
    requires
        node_ok(*n),
    ensures
        r == node_tree(*n).end,
{
    let p = n.end_position();
    Point { row: p.row, column: p.column }
}

/// Calls `tree_sitter::Node::utf8_text` with the source text of the node's own tree, which gives
/// the text between the node's first and last byte, or an error where that is not valid UTF-8.
#[verifier::external_body]
fn utf8_text(n: &tree_sitter::Node<'_>, source: &str) -> (r: Option<String>)
    requires
        node_ok(*n),
        node_source(*n) == source@,
    ensures
        opt_text(r) == node_tree(*n).text,
{
    n.utf8_text(source.as_bytes()).ok().map(|t| t.to_owned())
}

/// Calls `tree_sitter::Node`'s `==`, which tells the nodes of one tree apart.
#[verifier::external_body]
fn same_node(a: &tree_sitter::Node<'_>, b: &tree_sitter::Node<'_>) -> (r: bool)
    requires
        node_ok(*a),
        node_ok(*b),
        node_owner(*a) == node_owner(*b),
        node_source(*a) == node_source(*b),
    ensures
        r == (node_path(*a) == node_path(*b)),
{
    a == b
}

/// The path to the node that `tree_sitter::Node::descendant_for_point_range` gives on the root of
/// a source text's tree, for the range that starts and ends at one place.
pub uninterp spec fn path_at(source: Seq<char>, row: u32, column: u32) -> Option<Seq<usize>>;

/// Calls `tree_sitter::Node::descendant_for_point_range` on a root node, for the range that starts
/// and ends at one place. Which node of the tree it gives depends on the text and the place alone.
#[verifier::external_body]
fn descendant_for_point<'tree>(root: &tree_sitter::Node<'tree>, row: u32, column: u32) -> (r: Option<
    tree_sitter::Node<'tree>,
>)
    requires
        node_ok(*root),
        node_path(*root).len() == 0,
    ensures
        r is Some <==> path_at(node_source(*root), row, column) is Some,
        r matches Some(n) ==> node_owner(n) == node_owner(*root) && node_source(n) == node_source(
            *root,
        ) && node_ok(n) && path_at(node_source(*root), row, column) == Some(node_path(n)),
{
    let point = tree_sitter::Point { row: row as usize, column: column as usize };
    root.descendant_for_point_range(point, point)
}

/// Whether `tree_sitter::Query::new` accepts the text `s` as a query for the Crystal grammar.
pub uninterp spec fn accepted_query(s: Seq<char>) -> bool;

/// The text that a query was made from.
pub uninterp spec fn query_text(q: tree_sitter::Query) -> Seq<char>;

/// Calls `tree_sitter::Query::new` for `tree_sitter_crystal::LANGUAGE`. Whether it succeeds depends
/// on the text alone.
#[verifier::external_body]
pub(crate) fn new_query(s: &str) -> (r: Option<tree_sitter::Query>)
    ensures
        r is Some <==> accepted_query(s@),
        r matches Some(q) ==> query_text(q) == s@,
{
    tree_sitter::Query::new(&tree_sitter_crystal::LANGUAGE.into(), s).ok()
}

/// The matches of a query in a source text, in the order in which they are found. A match is the
/// sequence of its captures, and a capture is its name and the path to its node.
pub uninterp spec fn query_matches(query: Seq<char>, source: Seq<char>) -> Seq<
    Seq<(Seq<char>, Seq<usize>)>,
>;

/// The captures of a match that is still held in tree-sitter's nodes.
pub open spec fn held_captures(m: Seq<(String, tree_sitter::Node<'_>)>) -> Seq<
    (Seq<char>, Seq<usize>),
> {
    Seq::new(m.len(), |i: int| (m[i].0@, node_path(m[i].1)))
}

/// Calls `tree_sitter::QueryCursor::matches` on a root node with the text of its tree. The matches
/// depend on the query and the text alone, and their captures are nodes of the tree.
#[verifier::external_body]
fn run_query<'tree>(
    query: &tree_sitter::Query,
    root: &tree_sitter::Node<'tree>,
    source: &str,
) -> (r: Vec<Vec<(String, tree_sitter::Node<'tree>)>>)
    requires
        node_ok(*root),
        node_path(*root).len() == 0,
        node_source(*root) == source@,
    ensures
        query_matches(query_text(*query), source@) == Seq::new(
            r@.len(),
            |i: int| held_captures(r@[i]@),
        ),
        forall|i: int, j: int|
            0 <= i < r@.len() && 0 <= j < r@[i]@.len() ==> node_ok((#[trigger] r@[i]@[j]).1)
                && node_source(r@[i]@[j].1) == source@ && node_owner(r@[i]@[j].1) == node_owner(
                *root,
            ),
{
    let mut cursor = tree_sitter::QueryCursor::new();
    let names = query.capture_names();
    let found = cursor.matches(query, *root, source.as_bytes());
    tree_sitter::StreamingIterator::map_deref(found, |m| {
        m.captures().iter().map(|c| (names[c.index as usize].to_owned(), c.node)).collect()
    }).collect()
}

// ---------------------------------------------------------------------------
// Reading trees
// ---------------------------------------------------------------------------

/// The fields among the first `k` that the library asks for which the child of `t` at `i` has.
spec fn fields_before(t: SynTree, i: int, k: int) -> Set<Seq<char>> {
    t.children[i].fields.filter(|name: Seq<char>| asked_fields().take(k).contains(name))
}

/// Finds the fields which the child `c` of `n` at `i` has; `found` holds for each field that the
/// library asks for the child that has it.
fn fields_of_child(
    n: &tree_sitter::Node<'_>,
    c: &tree_sitter::Node<'_>,
    i: usize,
    names: &Vec<&'static str>,
    found: &Vec<Option<tree_sitter::Node<'_>>>,
) -> (r: Vec<String>)
    requires
        node_ok(*n),
        node_ok(*c),
        i < node_tree(*n).children.len(),
        node_path(*c) == node_path(*n).push(i),
        names@.len() == asked_fields().len(),
        found@.len() == names@.len(),
        forall|k: int| 0 <= k < names@.len() ==> (#[trigger] names@[k])@ == asked_fields()[k],
        forall|k: int|
            0 <= k < found@.len() ==> ((#[trigger] found@[k]) matches Some(f) ==> node_ok(f)
                && node_owner(f) == node_owner(*c) && node_source(f) == node_source(*c)),
        forall|k: int|
            0 <= k < found@.len() ==> (node_tree(*n).children[i as int].fields.contains(
                asked_fields()[k],
            ) <==> ((#[trigger] found@[k]) matches Some(f) && node_path(f) == node_path(*c))),
        forall|name: Seq<char>|
            node_tree(*n).children[i as int].fields.contains(name) ==> asked_field(name),
    ensures
        texts(r@).to_set() == node_tree(*n).children[i as int].fields,
{
    let ghost t = node_tree(*n);
    let ghost all = asked_fields();
    let mut out: Vec<String> = Vec::new();
    let mut k: usize = 0;
    assert(texts(out@).to_set() =~= fields_before(t, i as int, 0));
    while k < names.len()
        invariant
            k <= names@.len(),
            t == node_tree(*n),
            i < t.children.len(),
            all == asked_fields(),
            node_ok(*c),
            names@.len() == all.len(),
            found@.len() == names@.len(),
            forall|k: int| 0 <= k < names@.len() ==> (#[trigger] names@[k])@ == all[k],
            forall|k: int|
                0 <= k < found@.len() ==> ((#[trigger] found@[k]) matches Some(f) ==> node_ok(f)
                    && node_owner(f) == node_owner(*c) && node_source(f) == node_source(*c)),
            forall|k: int|
                0 <= k < found@.len() ==> (t.children[i as int].fields.contains(all[k]) <==> ((
                #[trigger] found@[k]) matches Some(f) && node_path(f) == node_path(*c))),
            texts(out@).to_set() == fields_before(t, i as int, k as int),
        decreases names@.len() - k,
    {
        let ghost before = texts(out@);
        let ghost shorter = all.take(k as int);
        let ghost longer = all.take(k + 1);
        let has = match &found[k] {
            Some(f) => same_node(f, c),
            None => false,
        };
        assert(has == t.children[i as int].fields.contains(all[k as int])) by {
            assert(found@[k as int] == found@[k as int]);
        }
        assert(longer =~= shorter.push(all[k as int]));
        assert forall|x: Seq<char>| #[trigger]
            longer.contains(x) <==> shorter.contains(x) || x == all[k as int] by {
            if shorter.contains(x) {
                let m = choose|m: int| 0 <= m < shorter.len() && shorter[m] == x;
                assert(longer[m] == x);
            }
            if x == all[k as int] {
                assert(longer[k as int] == x);
            }
        }
        if has {
            out.push(copy(names[k]));
            assert(texts(out@) =~= before.push(all[k as int]));
            assert forall|x: Seq<char>| #[trigger]
                texts(out@).to_set().contains(x) <==> before.to_set().contains(x) || x
                    == all[k as int] by {
                if before.contains(x) {
                    let m = choose|m: int| 0 <= m < before.len() && before[m] == x;
                    assert(texts(out@)[m] == x);
                }
                if x == all[k as int] {
                    assert(texts(out@)[before.len() as int] == x);
                }
            }
        }
        assert(texts(out@).to_set() =~= fields_before(t, i as int, k + 1));
        k = k + 1;
    }
    assert(all.take(k as int) =~= all);
    assert forall|name: Seq<char>| #[trigger]
        t.children[i as int].fields.contains(name) implies all.contains(name) by {
        assert(asked_field(name));
    }
    assert(fields_before(t, i as int, k as int) =~= t.children[i as int].fields);
    out
}

/// Reads a node and everything below it; `fields` are those that it has in its parent.
fn read(n: &tree_sitter::Node<'_>, source: &str, fields: Vec<String>) -> (r: SyntaxNode)
    requires
        node_ok(*n),
        node_source(*n) == source@,
        texts(fields@).to_set() == node_tree(*n).fields,
    ensures
        r@ == node_tree(*n),
    decreases node_tree(*n),
{
    let names = list_asked_fields();
    let mut found: Vec<Option<tree_sitter::Node<'_>>> = Vec::new();
    let mut k: usize = 0;
    while k < names.len()
        invariant
            k <= names@.len(),
            node_ok(*n),
            found@.len() == k,
            names@.len() == asked_fields().len(),
            forall|m: int| 0 <= m < names@.len() ==> (#[trigger] names@[m])@ == asked_fields()[m],
            forall|m: int|
                0 <= m < k ==> ((#[trigger] found@[m]) matches Some(f) ==> node_ok(f) && node_owner(
                    f,
                ) == node_owner(*n) && node_source(f) == node_source(*n)),
            forall|m: int, i: usize|
                0 <= m < k && i < node_tree(*n).children.len() ==> ((
                #[trigger] node_tree(*n).children[i as int]).fields.contains(asked_fields()[m])
                    <==> ((#[trigger] found@[m]) matches Some(f) && node_path(f) == node_path(
                    *n,
                ).push(i))),
        decreases names@.len() - k,
    {
        assert(names@[k as int]@ == asked_fields()[k as int]);
        assert(asked_field(names@[k as int]@));
        found.push(child_by_field_name(n, names[k]));
        k = k + 1;
    }
    let count = child_count(n);
    let mut children: Vec<SyntaxNode> = Vec::new();
    let mut i: usize = 0;
    while i < count
        invariant
            i <= count,
            count == node_tree(*n).children.len(),
            count <= u32::MAX,
            node_ok(*n),
            node_source(*n) == source@,
            names@.len() == asked_fields().len(),
            found@.len() == names@.len(),
            forall|m: int| 0 <= m < names@.len() ==> (#[trigger] names@[m])@ == asked_fields()[m],
            forall|m: int|
                0 <= m < found@.len() ==> ((#[trigger] found@[m]) matches Some(f) ==> node_ok(f)
                    && node_owner(f) == node_owner(*n) && node_source(f) == node_source(*n)),
            forall|m: int, i: usize|
                0 <= m < found@.len() && i < node_tree(*n).children.len() ==> ((
                #[trigger] node_tree(*n).children[i as int]).fields.contains(asked_fields()[m])
                    <==> ((#[trigger] found@[m]) matches Some(f) && node_path(f) == node_path(
                    *n,
                ).push(i))),
            children@.len() == i,
            forall|k: int|
                0 <= k < i ==> (#[trigger] children@[k])@ == node_tree(*n).children[k],
        decreases count - i,
    {
        let c = child(n, i);
        proof {
            lemma_step(crystal_tree(source@)->0, node_path(*n), i);
            assert(node_tree(c) == node_tree(*n).children[i as int]);
            assert(decreases_to!(node_tree(*n) => node_tree(*n).children[i as int]));
            assert forall|m: int| 0 <= m < found@.len() implies (node_tree(
                *n,
            ).children[i as int].fields.contains(asked_fields()[m]) <==> ((
            #[trigger] found@[m]) matches Some(f) && node_path(f) == node_path(c))) by {
                assert(i < node_tree(*n).children.len());
            }
        }
        let f = fields_of_child(n, &c, i, &names, &found);
        children.push(read(&c, source, f));
        i = i + 1;
    }
    let r = SyntaxNode {
        kind: node_kind(n),
        fields,
        named: is_named(n),
        error: is_error(n),
        missing: is_missing(n),
        start_byte: start_byte(n),
        end_byte: end_byte(n),
        start: start_position(n),
        end: end_position(n),
        text: utf8_text(n, source),
        children,
    };
    proof {
        lemma_model(r);
        assert(r@.children =~= node_tree(*n).children);
    }
    r
}

/// Reads the root of a tree and everything below it.
fn read_root(root: &tree_sitter::Node<'_>, source: &str) -> (r: SyntaxNode)
    requires
        node_ok(*root),
        node_source(*root) == source@,
        node_tree(*root).fields == Set::<Seq<char>>::empty(),
    ensures
        r@ == node_tree(*root),
{
    let none: Vec<String> = Vec::new();
    assert(texts(none@).to_set() =~= Set::empty());
    read(root, source, none)
}

/// Finds the path from `n` down to `target`.
fn path_down(n: &tree_sitter::Node<'_>, target: &tree_sitter::Node<'_>) -> (r: Option<Vec<usize>>)
    requires
        node_ok(*n),
        node_ok(*target),
        node_owner(*n) == node_owner(*target),
        node_source(*n) == node_source(*target),
    ensures
        r is Some <==> node_path(*n).is_prefix_of(node_path(*target)),
        r matches Some(p) ==> node_path(*target) == node_path(*n) + p@,
    decreases node_tree(*n),
{
    let ghost tree = crystal_tree(node_source(*n))->0;
    let ghost here = node_path(*n);
    let ghost there = node_path(*target);
    if same_node(n, target) {
        assert(there.take(here.len() as int) =~= there);
        let p: Vec<usize> = Vec::new();
        assert(here + p@ =~= here);
        return Some(p);
    }
    let count = child_count(n);
    let mut i: usize = 0;
    while i < count
        invariant
            i <= count,
            count == node_tree(*n).children.len(),
            count <= u32::MAX,
            node_ok(*n),
            node_ok(*target),
            node_owner(*n) == node_owner(*target),
            node_source(*n) == node_source(*target),
            tree == crystal_tree(node_source(*n))->0,
            here == node_path(*n),
            there == node_path(*target),
            forall|k: usize| k < i ==> !#[trigger] here.push(k).is_prefix_of(there),
        decreases count - i,
    {
        let c = child(n, i);
        proof {
            lemma_step(tree, here, i);
            assert(node_tree(c) == node_tree(*n).children[i as int]);
            assert(decreases_to!(node_tree(*n) => node_tree(*n).children[i as int]));
        }
        if let Some(below) = path_down(&c, target) {
            let mut p: Vec<usize> = vec![i];
            let mut k: usize = 0;
            while k < below.len()
                invariant
                    k <= below@.len(),
                    p@ == seq![i] + below@.take(k as int),
                decreases below@.len() - k,
            {
                p.push(below[k]);
                k = k + 1;
                assert(below@.take(k as int) =~= below@.take(k - 1).push(below@[k - 1]));
                assert(seq![i] + below@.take(k as int) =~= (seq![i] + below@.take(k - 1)).push(
                    below@[k - 1],
                ));
            }
            assert(below@.take(k as int) =~= below@);
            assert(here.push(i) + below@ =~= here + p@);
            assert(here.is_prefix_of(there)) by {
                assert((here + p@).take(here.len() as int) =~= here);
            }
            return Some(p);
        }
        i = i + 1;
    }
    proof {
        if here.is_prefix_of(there) {
            if there.len() == here.len() {
                assert(there.take(here.len() as int) =~= there);
            } else {
                let k = there[here.len() as int];
                lemma_valid_prefix(tree, there, here.len() as int);
                assert(there.take(here.len() as int) =~= here);
                assert(there.take(here.len() as int + 1) =~= here.push(k));
                assert(here.push(k).is_prefix_of(there));
            }
        }
    }
    None
}

/// Finds the path from the root to a node.
fn path_from_root(root: &tree_sitter::Node<'_>, target: &tree_sitter::Node<'_>) -> (r: Vec<usize>)
    requires
        node_ok(*root),
        node_path(*root).len() == 0,
        node_ok(*target),
        node_owner(*root) == node_owner(*target),
        node_source(*root) == node_source(*target),
    ensures
        r@ == node_path(*target),
{
    assert(node_path(*target).take(0) =~= node_path(*root));
    assert(node_path(*root).is_prefix_of(node_path(*target)));
    let r = path_down(root, target).unwrap();
    assert(node_path(*root) + r@ =~= r@);
    r
}

/// The tree of a source text that is short enough to be parsed.
pub open spec fn parsed(source: Seq<char>) -> Option<SynTree> {
    if encode_utf8(source).len() <= MAX_SOURCE_BYTES {
        crystal_tree(source)
    } else {
        None
    }
}

/// The path to the node at a place of a source text, where the text can be parsed.
pub open spec fn located(source: Seq<char>, row: u32, column: u32) -> Option<Seq<usize>> {
    if parsed(source) is Some {
        path_at(source, row, column)
    } else {
        None
    }
}

/// Parses a source text; `None` where the parser gives no tree or the text is longer than
/// [`MAX_SOURCE_BYTES`].
pub fn parse(source: &str) -> (r: Option<SyntaxNode>)
    ensures
        match r {
            Some(t) => parsed(source@) == Some(t@),
            None => parsed(source@) is None,
        },
{
    if source.as_bytes().len() > MAX_SOURCE_BYTES {
        return None;
    }
    match parse_tree(source) {
        Some(tree) => Some(read_root(&root_node(&tree), source)),
        None => None,
    }
}

/// Parses a source text and finds the node at a place in it.
pub fn parse_at(source: &str, row: u32, column: u32) -> (r: Option<(SyntaxNode, Vec<usize>)>)
    ensures
        match r {
            Some((t, path)) => parsed(source@) == Some(t@) && located(source@, row, column) == Some(
                path@,
            ) && valid_path(t@, path@),
            None => located(source@, row, column) is None,
        },
{
    if source.as_bytes().len() > MAX_SOURCE_BYTES {
        return None;
    }
    match parse_tree(source) {
        Some(tree) => {
            let root = root_node(&tree);
            match descendant_for_point(&root, row, column) {
                Some(n) => Some((read_root(&root, source), path_from_root(&root, &n))),
                None => None,
            }
        },
        None => None,
    }
}

/// A node that a query captured.
#[derive(Debug)]
pub struct Capture {
    /// The name of the capture.
    pub name: String,
    /// The path to the node.
    pub path: Vec<usize>,
}

impl View for Capture {
    type V = (Seq<char>, Seq<usize>);

    open spec fn view(&self) -> (Seq<char>, Seq<usize>) {
        (self.name@, self.path@)
    }
}

/// The captures of one match.
pub open spec fn capture_views(m: Seq<Capture>) -> Seq<(Seq<char>, Seq<usize>)> {
    Seq::new(m.len(), |i: int| m[i]@)
}

/// The captures of several matches.
pub open spec fn match_views(ms: Seq<Vec<Capture>>) -> Seq<Seq<(Seq<char>, Seq<usize>)>> {
    Seq::new(ms.len(), |i: int| capture_views(ms[i]@))
}

/// Whether every captured node is one of `t`.
pub open spec fn captures_within(
    t: SynTree,
    ms: Seq<Seq<(Seq<char>, Seq<usize>)>>,
) -> bool {
    forall|i: int, j: int|
        0 <= i < ms.len() && 0 <= j < ms[i].len() ==> valid_path(t, (#[trigger] ms[i][j]).1)
}

/// Turns the captures of one match into names and paths.
fn read_match(
    root: &tree_sitter::Node<'_>,
    held: &Vec<(String, tree_sitter::Node<'_>)>,
) -> (r: Vec<Capture>)
    requires
        node_ok(*root),
        node_path(*root).len() == 0,
        forall|j: int|
            0 <= j < held@.len() ==> node_ok((#[trigger] held@[j]).1) && node_source(held@[j].1)
                == node_source(*root) && node_owner(held@[j].1) == node_owner(*root),
    ensures
        capture_views(r@) == held_captures(held@),
{
    let mut out: Vec<Capture> = Vec::new();
    let mut j: usize = 0;
    while j < held.len()
        invariant
            j <= held@.len(),
            node_ok(*root),
            node_path(*root).len() == 0,
            forall|j: int|
                0 <= j < held@.len() ==> node_ok((#[trigger] held@[j]).1) && node_source(
                    held@[j].1,
                ) == node_source(*root) && node_owner(held@[j].1) == node_owner(*root),
            out@.len() == j,
            forall|k: int|
                0 <= k < j ==> (#[trigger] out@[k])@ == (held@[k].0@, node_path(held@[k].1)),
        decreases held@.len() - j,
    {
        assert(node_ok(held@[j as int].1));
        let path = path_from_root(root, &held[j].1);
        out.push(Capture { name: copy(&held[j].0), path });
        j = j + 1;
    }
    assert(capture_views(out@) =~= held_captures(held@));
    out
}

/// Parses a source text and runs a query over it.
pub fn parse_and_match(source: &str, query: &tree_sitter::Query) -> (r: Option<
    (SyntaxNode, Vec<Vec<Capture>>),
>)
    ensures
        match r {
            Some((t, ms)) => parsed(source@) == Some(t@) && match_views(ms@) == query_matches(
                query_text(*query),
                source@,
            ) && captures_within(t@, match_views(ms@)),
            None => parsed(source@) is None,
        },
{
    if source.as_bytes().len() > MAX_SOURCE_BYTES {
        return None;
    }
    match parse_tree(source) {
        Some(tree) => {
            let root = root_node(&tree);
            let t = read_root(&root, source);
            let held = run_query(query, &root, source);
            let ghost all = held@;
            let mut out: Vec<Vec<Capture>> = Vec::new();
            let mut i: usize = 0;
            while i < held.len()
                invariant
                    held@ == all,
                    i <= all.len(),
                    node_ok(root),
                    node_path(root).len() == 0,
                    node_source(root) == source@,
                    forall|i: int, j: int|
                        0 <= i < all.len() && 0 <= j < all[i]@.len() ==> node_ok(
                            (#[trigger] all[i]@[j]).1,
                        ) && node_source(all[i]@[j].1) == source@ && node_owner(all[i]@[j].1)
                            == node_owner(root),
                    out@.len() == i,
                    forall|k: int|
                        0 <= k < i ==> capture_views((#[trigger] out@[k])@) == held_captures(
                            all[k]@,
                        ),
                decreases all.len() - i,
            {
                let m = read_match(&root, &held[i]);
                out.push(m);
                i = i + 1;
            }
            proof {
                assert(match_views(out@) =~= Seq::new(all.len(), |i: int| held_captures(all[i]@)));
                let ms = match_views(out@);
                assert forall|i: int, j: int| 0 <= i < ms.len() && 0 <= j < ms[i].len() implies valid_path(
                    t@,
                    (#[trigger] ms[i][j]).1,
                ) by {
                    assert(ms[i] == held_captures(all[i]@));
                    assert(node_ok(all[i]@[j].1));
                }
            }
            Some((t, out))
        },
        None => None,
    }
}

} // verus!
