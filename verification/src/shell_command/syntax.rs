//! The syntax trees of shell scripts.

use vstd::prelude::*;
use vstd::slice::*;
use vstd::utf8::*;

use crate::text;

verus! {

/// A node of a syntax tree: its kind, whether the grammar names it, whether the
/// script is wrong in it, the bytes that it takes up, and the nodes in it.
pub struct ShellNode {
    pub kind: String,
    pub named: bool,
    pub has_error: bool,
    pub start: usize,
    pub end: usize,
    pub children: Vec<ShellNode>,
}

/// What a node of a syntax tree is.
#[verifier::ext_equal]
pub struct SyntaxView {
    pub kind: Seq<char>,
    pub named: bool,
    pub has_error: bool,
    pub start: int,
    pub end: int,
    pub children: Seq<SyntaxView>,
}

/// What a node of a syntax tree is.
pub open spec fn shape(n: ShellNode) -> SyntaxView
    decreases n,
{
    SyntaxView {
        kind: n.kind@,
        named: n.named,
        has_error: n.has_error,
        start: n.start as int,
        end: n.end as int,
        children: shapes(n.children@),
    }
}

/// What the nodes are.
pub open spec fn shapes(nodes: Seq<ShellNode>) -> Seq<SyntaxView>
    decreases nodes,
{
    if nodes.len() == 0 {
        Seq::empty()
    } else {
        shapes(nodes.drop_last()).push(shape(nodes.last()))
    }
}

impl View for ShellNode {
    type V = SyntaxView;

    open spec fn view(&self) -> SyntaxView {
        shape(*self)
    }
}

/// The nodes are viewed one by one.
pub proof fn lemma_shapes(nodes: Seq<ShellNode>)
    ensures
        shapes(nodes).len() == nodes.len(),
        forall|i: int| 0 <= i < nodes.len() ==> #[trigger] shapes(nodes)[i] == shape(nodes[i]),
    decreases nodes.len(),
{
    if nodes.len() > 0 {
        lemma_shapes(nodes.drop_last());
        assert forall|i: int| 0 <= i < nodes.len() implies #[trigger] shapes(nodes)[i] == shape(nodes[i]) by {
            if i < nodes.len() - 1 {
                assert(nodes.drop_last()[i] == nodes[i]);
            }
        }
    }
}

// ---------------------------------------------------------------------
// The parser
// ---------------------------------------------------------------------

/// A syntax tree of `tree_sitter`.
#[verifier::external_type_specification]
#[verifier::external_body]
pub struct ExTree(tree_sitter::Tree);

/// A node of a syntax tree of `tree_sitter`.
#[verifier::external_type_specification]
#[verifier::external_body]
pub struct ExNode<'a>(tree_sitter::Node<'a>);

/// The syntax tree of a script, where there is one.
pub uninterp spec fn bash_tree(src: Seq<char>) -> Option<SyntaxView>;

/// What the root of a tree is.
pub uninterp spec fn tree_shape(t: tree_sitter::Tree) -> SyntaxView;

/// What a node is.
pub uninterp spec fn node_shape(n: tree_sitter::Node<'_>) -> SyntaxView;

/// What the root is, where there is a tree.
pub open spec fn opt_tree(t: Option<tree_sitter::Tree>) -> Option<SyntaxView> {
    match t {
        Some(t) => Some(tree_shape(t)),
        None => None,
    }
}

/// What the node is, where there is one.
pub open spec fn opt_node(n: Option<tree_sitter::Node<'_>>) -> Option<SyntaxView> {
    match n {
        Some(n) => Some(node_shape(n)),
        None => None,
    }
}

/// `tree_sitter::Parser::parse` with the grammar of `tree_sitter_bash` and
/// nothing parsed before: the tree is a function of the script, named
/// `bash_tree`.
#[verifier::external_body]
fn parse_bash(src: &str) -> (r: Option<tree_sitter::Tree>)
    ensures
        opt_tree(r) == bash_tree(src@),
{
    let mut parser = tree_sitter::Parser::new();
    parser.set_language(&tree_sitter_bash::LANGUAGE.into()).ok()?;
    parser.parse(src, None)
}

/// `tree_sitter::Tree::root_node` gives the root that `tree_shape` speaks of.
#[verifier::external_body]
fn root_of<'a>(t: &'a tree_sitter::Tree) -> (r: tree_sitter::Node<'a>)
    ensures
        node_shape(r) == tree_shape(*t),
{
    t.root_node()
}

/// `tree_sitter::Node::kind` gives the kind that `node_shape` speaks of.
#[verifier::external_body]
fn node_kind(n: &tree_sitter::Node<'_>) -> (r: &'static str)
    ensures
        r@ == node_shape(*n).kind,
{
    n.kind()
}

/// `tree_sitter::Node::is_named` says whether the grammar names the node, as
/// `node_shape` does.
#[verifier::external_body]
fn node_is_named(n: &tree_sitter::Node<'_>) -> (r: bool)
    ensures
        r == node_shape(*n).named,
{
    n.is_named()
}

/// `tree_sitter::Node::has_error` says whether the script is wrong in the node,
/// as `node_shape` does.
#[verifier::external_body]
fn node_has_error(n: &tree_sitter::Node<'_>) -> (r: bool)
    ensures
        r == node_shape(*n).has_error,
{
    n.has_error()
}

/// `tree_sitter::Node::start_byte` gives the byte that the node starts at, as
/// `node_shape` does.
#[verifier::external_body]
fn node_start(n: &tree_sitter::Node<'_>) -> (r: usize)
    ensures
        r == node_shape(*n).start,
{
    n.start_byte()
}

/// `tree_sitter::Node::end_byte` gives the byte that the node ends before, as
/// `node_shape` does.
#[verifier::external_body]
fn node_end(n: &tree_sitter::Node<'_>) -> (r: usize)
    ensures
        r == node_shape(*n).end,
{
    n.end_byte()
}

/// `tree_sitter::Node::child_count` counts the children that `node_shape`
/// speaks of.
#[verifier::external_body]
fn node_child_count(n: &tree_sitter::Node<'_>) -> (r: usize)
    ensures
        r == node_shape(*n).children.len(),
{
    n.child_count()
}

/// `tree_sitter::Node::child` gives the child at the place, which is among
/// those that `node_shape` speaks of.
#[verifier::external_body]
fn node_child<'a>(n: &tree_sitter::Node<'a>, i: usize) -> (r: Option<tree_sitter::Node<'a>>)
    requires
        i < node_shape(*n).children.len(),
    ensures
        opt_node(r) == Some(node_shape(*n).children[i as int]),
{
    n.child(i)
}

/// The library's own form of a node.
fn to_shell_node(n: &tree_sitter::Node<'_>) -> (r: ShellNode)
    ensures
        r@ == node_shape(*n),
    decreases node_shape(*n),
{
    let ghost all = node_shape(*n).children;
    let count: usize = node_child_count(n);
    let mut children: Vec<ShellNode> = Vec::new();
    let mut i: usize = 0;
    assert(all.take(0) =~= shapes(children@));
    while i < count
        invariant
            i <= count,
            count == all.len(),
            all == node_shape(*n).children,
            children@.len() == i,
            shapes(children@) == all.take(i as int),
        decreases count - i,
    {
        if let Some(child) = node_child(n, i) {
            proof {
                assert(decreases_to!(node_shape(*n) => node_shape(*n).children));
                assert(decreases_to!(all => all[i as int]));
            }
            let converted = to_shell_node(&child);
            let ghost held = children@;
            children.push(converted);
            proof {
                assert(children@.drop_last() =~= held);
                assert(shapes(children@) =~= all.take(i + 1));
            }
        }
        i = i + 1;
    }
    assert(all.take(all.len() as int) =~= all);
    ShellNode {
        kind: node_kind(n).to_string(),
        named: node_is_named(n),
        has_error: node_has_error(n),
        start: node_start(n),
        end: node_end(n),
        children,
    }
}

/// The syntax tree of a script, where there is one.
pub fn try_parse_shell(src: &str) -> (r: Option<ShellNode>)
    ensures
        match r {
            Some(root) => bash_tree(src@) == Some(root@),
            None => bash_tree(src@) is None,
        },
{
    match parse_bash(src) {
        Some(tree) => {
            let root = root_of(&tree);
            Some(to_shell_node(&root))
        },
        None => None,
    }
}

// ---------------------------------------------------------------------
// Texts
// ---------------------------------------------------------------------

/// The part of a script that the bytes write, where they write any.
pub open spec fn span_text(src: Seq<char>, start: int, end: int) -> Option<Seq<char>> {
    let bytes = encode_utf8(src);
    if 0 <= start <= end <= bytes.len() && valid_utf8(bytes.subrange(start, end)) {
        Some(decode_utf8(bytes.subrange(start, end)))
    } else {
        None
    }
}

/// The part of a script that a node stands for.
pub open spec fn text_of(n: SyntaxView, src: Seq<char>) -> Option<Seq<char>> {
    span_text(src, n.start, n.end)
}

/// What a node stands for is, byte by byte, what the script holds from where the
/// node starts to where it ends.
pub proof fn law_text_is_the_bytes_of_the_span(n: SyntaxView, src: Seq<char>)
    ensures
        text_of(n, src) matches Some(s) ==> 0 <= n.start <= n.end <= encode_utf8(src).len() && encode_utf8(s)
            == encode_utf8(src).subrange(n.start, n.end),
        text_of(n, src) is None ==> !(0 <= n.start <= n.end <= encode_utf8(src).len()) || !valid_utf8(
            encode_utf8(src).subrange(n.start, n.end),
        ),
{
    if text_of(n, src) is Some {
        decode_utf8_encode_utf8(encode_utf8(src).subrange(n.start, n.end));
    }
}

/// The part of a script that a node stands for.
pub fn node_text(n: &ShellNode, src: &str) -> (r: Option<String>)
    ensures
        text::opt_view(r) == text_of(n@, src@),
{
    let bytes = src.as_bytes();
    if n.start <= n.end && n.end <= bytes.len() {
        match text::from_utf8(slice_to_vec(slice_subrange(bytes, n.start, n.end))) {
            Ok(s) => Some(s),
            Err(_) => None,
        }
    } else {
        None
    }
}

} // verus!
