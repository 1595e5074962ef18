use crate::error::ScanError;
use crate::syntax::{Span, SyntaxNode, SyntaxShape, SyntaxTree};
use vstd::prelude::*;

verus! {

/// `tree_sitter::Tree`, opaque: what a parse returns.
#[verifier::external_type_specification]
#[verifier::external_body]
pub struct ExTree(tree_sitter::Tree);

/// `tree_sitter::Node`, opaque: a node of a tree that is alive.
#[verifier::external_type_specification]
#[verifier::external_body]
pub struct ExNode<'tree>(tree_sitter::Node<'tree>);

/// The tree that the parser gives for a text under the Clojure grammar, or
/// `None` where it gives none.
pub uninterp spec fn clojure_syntax(text: Seq<u8>) -> Option<SyntaxShape>;

/// The tree that a parser's result holds, from its root down.
pub uninterp spec fn tree_shape(tree: tree_sitter::Tree) -> SyntaxShape;

/// The subtree that a parser's node stands for.
pub uninterp spec fn node_shape(node: tree_sitter::Node) -> SyntaxShape;

/// Runs `tree_sitter::Parser::parse` on `text`, with a parser made by
/// `Parser::new` and given the Clojure grammar by `Parser::set_language`.
///
/// Trusted: the result depends on the text alone, so it has a name; `None`
/// comes where the grammar is refused or the parser returns no tree.
#[verifier::external_body]
fn parse_clojure(text: &[u8]) -> (parsed: Option<tree_sitter::Tree>)
    ensures
        match parsed {
            Some(tree) => clojure_syntax(text@) == Some(tree_shape(tree)),
            None => clojure_syntax(text@).is_none(),
        },
{
    let mut parser = tree_sitter::Parser::new();
    parser.set_language(&tree_sitter_clojure::LANGUAGE.into()).ok()?;
    parser.parse(text, None)
}

/// Calls `tree_sitter::Tree::root_node`.
///
/// Trusted: the root stands for the whole tree.
#[verifier::external_body]
fn root_of<'a>(tree: &'a tree_sitter::Tree) -> (root: tree_sitter::Node<'a>)
    ensures
        node_shape(root) == tree_shape(*tree),
{
    tree.root_node()
}

/// Calls `tree_sitter::Node::kind` and copies the name's bytes.
///
/// Trusted: the bytes are the kind of the node's shape.
#[verifier::external_body]
fn kind_of(node: &tree_sitter::Node) -> (kind: Vec<u8>)
    ensures
        kind@ == node_shape(*node).kind,
{
    node.kind().as_bytes().to_vec()
}

/// Calls `tree_sitter::Node::byte_range`.
///
/// Trusted: the two offsets are the start and the end of the node's shape.
#[verifier::external_body]
fn range_of_node(node: &tree_sitter::Node) -> (span: Span)
    ensures
        span.start == node_shape(*node).start,
        span.end == node_shape(*node).end,
{
    let range = node.byte_range();
    Span { start: range.start, end: range.end }
}

/// Calls `tree_sitter::Node::child_count`.
///
/// Trusted: it is the number of children of the node's shape.
#[verifier::external_body]
fn child_count(node: &tree_sitter::Node) -> (count: usize)
    ensures
        count == node_shape(*node).children.len(),
{
    node.child_count()
}

/// Calls `tree_sitter::Node::child`.
///
/// Trusted: below the child count the call gives a node, and that node
/// stands for the child of that index in the node's shape.
#[verifier::external_body]
fn child_at<'a>(node: &tree_sitter::Node<'a>, index: usize) -> (child: Option<
    tree_sitter::Node<'a>,
>)
    ensures
        index < node_shape(*node).children.len() ==> child.is_some() && node_shape(child.unwrap())
            == node_shape(*node).children[index as int],
{
    node.child(index)
}

/// Copies the subtree below a parser's node into a tree of the library.
fn lower(node: &tree_sitter::Node) -> (copy: SyntaxNode)
    ensures
        copy@ == node_shape(*node),
    decreases node_shape(*node),
{
    let kind = kind_of(node);
    let span = range_of_node(node);
    let count = child_count(node);
    let mut children: Vec<SyntaxNode> = Vec::new();
    let mut i: usize = 0;
    while i < count
        invariant
            i <= count,
            count == node_shape(*node).children.len(),
            children.len() == i,
            forall|j: int| 0 <= j < i ==> (#[trigger] children[j])@ == node_shape(*node).children[j],
        decreases count - i,
    {
        match child_at(node, i) {
            Some(child) => {
                children.push(lower(&child));
            },
            None => {
                // Below the child count there is a child.
                assert(false);
            },
        }
        i += 1;
    }
    let copy = SyntaxNode { kind, start: span.start, end: span.end, children };
    assert(copy@.children =~= node_shape(*node).children);
    copy
}

/// What parsing makes of a text, given the parser's result for it: a tree
/// over the text where the parser gave one whose ranges lie inside the text.
pub open spec fn parse_outcome(parsed: Option<SyntaxShape>, text: Seq<u8>) -> Option<SyntaxShape> {
    match parsed {
        Some(shape) => if shape.fits(text.len()) {
            Some(shape)
        } else {
            None
        },
        None => None,
    }
}

/// Parses `text` as Clojure source.
pub fn parse_source(text: Vec<u8>) -> (parsed: Result<SyntaxTree, ScanError>)
    ensures
        match parse_outcome(clojure_syntax(text@), text@) {
            Some(shape) => parsed.is_ok() && parsed.unwrap().shape() == shape
                && parsed.unwrap().source() == text@,
            None => parsed == Err::<SyntaxTree, ScanError>(ScanError::Parse),
        },
{
    let root = match parse_clojure(text.as_slice()) {
        Some(tree) => lower(&root_of(&tree)),
        None => {
            return Err(ScanError::Parse);
        },
    };
    match SyntaxTree::new(root, text) {
        Some(tree) => Ok(tree),
        None => Err(ScanError::Parse),
    }
}

} // verus!
