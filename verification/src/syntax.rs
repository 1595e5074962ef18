use crate::bytes::{range_of, range_within};
use vstd::prelude::*;

verus! {

/// A half-open range of byte offsets into a source text.
#[derive(Clone, Copy, Debug, PartialEq, Eq, Structural)]
pub struct Span {
    pub start: usize,
    pub end: usize,
}

/// The mathematical value of a syntax node: its kind tag, the byte range of
/// the text it covers, and its children in source order.
pub struct SyntaxShape {
    pub kind: Seq<u8>,
    pub start: usize,
    pub end: usize,
    pub children: Seq<SyntaxShape>,
}

/// A node of a parsed source text, owning its children.
///
/// The previous and next sibling of a node are its neighbours in the
/// `children` of its parent; the root has neither.
#[derive(Debug, PartialEq, Eq)]
pub struct SyntaxNode {
    pub kind: Vec<u8>,
    pub start: usize,
    pub end: usize,
    pub children: Vec<SyntaxNode>,
}

/// The value of a node: its own fields and the values of its children.
pub open spec fn shape_of(node: SyntaxNode) -> SyntaxShape
    decreases node,
{
    SyntaxShape {
        kind: node.kind@,
        start: node.start,
        end: node.end,
        children: Seq::new(
            node.children.len() as nat,
            |i: int|
                if 0 <= i < node.children.len() {
                    shape_of(node.children[i])
                } else {
                    arbitrary()
                },
        ),
    }
}

impl View for SyntaxNode {
    type V = SyntaxShape;

    open spec fn view(&self) -> SyntaxShape {
        shape_of(*self)
    }
}

impl SyntaxShape {
    /// The byte range of the node.
    pub open spec fn span(self) -> Span {
        Span { start: self.start, end: self.end }
    }

    /// Whether the node's own range lies inside a text of `len` bytes.
    pub open spec fn span_within(self, len: nat) -> bool {
        range_within(self.start, self.end, len)
    }

    /// Whether the range of every node of the subtree lies inside a text of
    /// `len` bytes.
    pub open spec fn fits(self, len: nat) -> bool
        decreases self,
    {
        &&& self.span_within(len)
        &&& forall|i: int| 0 <= i < self.children.len() ==> (#[trigger] self.children[i]).fits(len)
    }

    /// The text that the node covers; empty where its range is not a range
    /// of `text`.
    pub open spec fn text_in(self, text: Seq<u8>) -> Seq<u8> {
        range_of(text, self.start, self.end)
    }
}

impl SyntaxNode {
    /// Tests whether every range of the subtree lies inside a text of `len`
    /// bytes.
    pub fn fits(&self, len: usize) -> (ok: bool)
        ensures
            ok == self@.fits(len as nat),
        decreases self,
    {
        if !(self.start <= self.end && self.end <= len) {
            return false;
        }
        let mut i: usize = 0;
        while i < self.children.len()
            invariant
                i <= self.children.len(),
                self@.span_within(len as nat),
                forall|j: int| 0 <= j < i ==> (#[trigger] self@.children[j]).fits(len as nat),
            decreases self.children.len() - i,
        {
            if !self.children[i].fits(len) {
                assert(self@.children[i as int] == self.children[i as int]@);
                return false;
            }
            assert(self@.children[i as int] == self.children[i as int]@);
            i += 1;
        }
        true
    }
}

/// A parsed source text: the root node together with the text that the
/// ranges of its nodes refer to. Every range of the tree lies inside the text.
#[derive(Debug)]
pub struct SyntaxTree {
    root: SyntaxNode,
    text: Vec<u8>,
}

impl SyntaxTree {
    #[verifier::type_invariant]
    spec fn ranges_fit(self) -> bool {
        self.root@.fits(self.text@.len())
    }

    /// The value of the root node.
    pub closed spec fn shape(self) -> SyntaxShape {
        self.root@
    }

    /// The text that the tree was parsed from.
    pub closed spec fn source(self) -> Seq<u8> {
        self.text@
    }

    /// Joins a root node and its text; `None` where a range of the tree
    /// reaches outside the text.
    pub fn new(root: SyntaxNode, text: Vec<u8>) -> (tree: Option<SyntaxTree>)
        ensures
            tree.is_some() == root@.fits(text@.len()),
            tree.is_some() ==> tree.unwrap().shape() == root@ && tree.unwrap().source() == text@,
    {
        if root.fits(text.len()) {
            Some(SyntaxTree { root, text })
        } else {
            None
        }
    }

    /// The root node.
    pub fn root(&self) -> (node: &SyntaxNode)
        ensures
            node@ == self.shape(),
            node@.fits(self.source().len()),
    {
        proof {
            use_type_invariant(self);
        }
        &self.root
    }

    /// The text.
    pub fn text(&self) -> (bytes: &[u8])
        ensures
            bytes@ == self.source(),
    {
        self.text.as_slice()
    }
}

} // verus!
