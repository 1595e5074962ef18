use crate::bytes::{copy_range, range_equals, range_of, views};
use crate::error::ScanError;
use crate::syntax::{Span, SyntaxNode, SyntaxShape, SyntaxTree};
use vstd::prelude::*;
use vstd::string::StringSliceAdditionalSpecFns;

verus! {

/// One call of the keyword: where the keyword stands and, where a node
/// follows it, where that node stands.
#[derive(Clone, Copy, Debug, PartialEq, Eq)]
pub struct CallSite {
    pub keyword: Span,
    pub argument: Option<Span>,
}

/// The keyword whose calls mark a reification.
pub open spec fn reify_keyword() -> Seq<u8> {
    "reify".spec_bytes()
}

/// The token that opens a compound expression.
pub open spec fn open_paren() -> Seq<u8> {
    "(".spec_bytes()
}

/// The kind of a parenthesised compound expression.
pub open spec fn list_kind() -> Seq<u8> {
    "list_lit".spec_bytes()
}

/// The kind of the node that holds a whole source text.
pub open spec fn source_kind() -> Seq<u8> {
    "source".spec_bytes()
}

/// Whether the matcher descends into the children of a node of this kind.
pub open spec fn is_compound(kind: Seq<u8>) -> bool {
    kind == list_kind() || kind == source_kind()
}

/// Whether child `i` is the keyword and stands directly behind the opening
/// parenthesis.
pub open spec fn is_call_head(
    siblings: Seq<SyntaxShape>,
    i: int,
    text: Seq<u8>,
    keyword: Seq<u8>,
) -> bool {
    &&& 0 < i < siblings.len()
    &&& siblings[i].text_in(text) == keyword
    &&& siblings[i - 1].text_in(text) == open_paren()
}

/// The call whose keyword is child `i`: its argument is the next child, if
/// there is one.
pub open spec fn site_at(siblings: Seq<SyntaxShape>, i: int) -> CallSite {
    CallSite {
        keyword: siblings[i].span(),
        argument: if i + 1 < siblings.len() {
            Some(siblings[i + 1].span())
        } else {
            None
        },
    }
}

/// What child `i` itself contributes: its call if it is a call head.
pub open spec fn head_sites(
    siblings: Seq<SyntaxShape>,
    i: int,
    text: Seq<u8>,
    keyword: Seq<u8>,
) -> Seq<CallSite> {
    if is_call_head(siblings, i, text, keyword) {
        seq![site_at(siblings, i)]
    } else {
        Seq::empty()
    }
}

/// The calls found below `node`, in the order of a walk that looks at each
/// child before descending into it. Only compound nodes are descended into.
pub open spec fn sites_in(node: SyntaxShape, text: Seq<u8>, keyword: Seq<u8>) -> Seq<CallSite>
    decreases node, 0nat,
{
    if is_compound(node.kind) {
        sites_among(node.children, node.children.len(), text, keyword)
    } else {
        Seq::empty()
    }
}

/// The calls found at and below the first `upto` of `siblings`.
pub open spec fn sites_among(
    siblings: Seq<SyntaxShape>,
    upto: nat,
    text: Seq<u8>,
    keyword: Seq<u8>,
) -> Seq<CallSite>
    decreases siblings, upto,
{
    if upto == 0 || upto > siblings.len() {
        Seq::empty()
    } else {
        sites_among(siblings, (upto - 1) as nat, text, keyword) + head_sites(
            siblings,
            upto - 1,
            text,
            keyword,
        ) + sites_in(siblings[upto - 1], text, keyword)
    }
}

/// Whether both ends of the keyword and of the argument lie inside a text
/// of `len` bytes.
pub open spec fn site_within(site: CallSite, len: nat) -> bool {
    &&& site.keyword.start <= site.keyword.end <= len
    &&& match site.argument {
        Some(span) => span.start <= span.end <= len,
        None => true,
    }
}

/// The values of a sequence of nodes.
pub open spec fn shapes(nodes: Seq<SyntaxNode>) -> Seq<SyntaxShape> {
    Seq::new(nodes.len(), |i: int| nodes[i]@)
}

/// Tests whether a node's kind is one the matcher descends into.
pub fn descends_into(kind: &[u8]) -> (yes: bool)
    ensures
        yes == is_compound(kind@),
{
    let list = "list_lit".as_bytes();
    let source = "source".as_bytes();
    assert(range_of(kind@, 0, kind.len()) =~= kind@);
    range_equals(kind, 0, kind.len(), list) || range_equals(kind, 0, kind.len(), source)
}

/// Tests whether child `i` of `siblings` is a call head.
pub fn call_head(siblings: &Vec<SyntaxNode>, i: usize, text: &[u8], keyword: &[u8]) -> (yes: bool)
    requires
        i < siblings.len(),
    ensures
        yes == is_call_head(shapes(siblings@), i as int, text@, keyword@),
{
    if i == 0 {
        return false;
    }
    let here = &siblings[i];
    let before = &siblings[i - 1];
    range_equals(text, here.start, here.end, keyword) && range_equals(
        text,
        before.start,
        before.end,
        "(".as_bytes(),
    )
}

/// The call whose keyword is child `i` of `siblings`.
pub fn site_of(siblings: &Vec<SyntaxNode>, i: usize) -> (site: CallSite)
    requires
        i < siblings.len(),
    ensures
        site == site_at(shapes(siblings@), i as int),
{
    let here = &siblings[i];
    let argument = if i + 1 < siblings.len() {
        let next = &siblings[i + 1];
        Some(Span { start: next.start, end: next.end })
    } else {
        None
    };
    CallSite { keyword: Span { start: here.start, end: here.end }, argument }
}

/// Appends to `out` the calls found below `node`.
pub fn collect_sites(node: &SyntaxNode, text: &[u8], keyword: &[u8], out: &mut Vec<CallSite>)
    ensures
        final(out)@ == old(out)@ + sites_in(node@, text@, keyword@),
    decreases node,
{
    if !descends_into(node.kind.as_slice()) {
        assert(out@ =~= old(out)@ + sites_in(node@, text@, keyword@));
        return;
    }
    let ghost siblings = node@.children;
    assert(siblings =~= shapes(node.children@));
    let mut i: usize = 0;
    while i < node.children.len()
        invariant
            i <= node.children.len(),
            siblings == node@.children,
            siblings == shapes(node.children@),
            out@ == old(out)@ + sites_among(siblings, i as nat, text@, keyword@),
        decreases node.children.len() - i,
    {
        let ghost before = out@;
        if call_head(&node.children, i, text, keyword) {
            out.push(site_of(&node.children, i));
        }
        assert(out@ =~= before + head_sites(siblings, i as int, text@, keyword@));
        collect_sites(&node.children[i], text, keyword, out);
        assert(out@ =~= old(out)@ + sites_among(siblings, (i + 1) as nat, text@, keyword@));
        i += 1;
    }
}

/// The lines that `sites` give: for each call that has an argument, in
/// order, the text of the argument.
pub open spec fn lines_of(sites: Seq<CallSite>, text: Seq<u8>) -> Seq<Seq<u8>>
    decreases sites.len(),
{
    if sites.len() == 0 {
        Seq::empty()
    } else {
        lines_of(sites.drop_last(), text) + match sites.last().argument {
            Some(span) => seq![range_of(text, span.start, span.end)],
            None => Seq::empty(),
        }
    }
}

/// Where the keyword of the first call without an argument starts.
pub open spec fn first_dangling(sites: Seq<CallSite>) -> Option<usize>
    decreases sites.len(),
{
    if sites.len() == 0 {
        None
    } else if sites.first().argument is None {
        Some(sites.first().keyword.start)
    } else {
        first_dangling(sites.drop_first())
    }
}

/// Copies out the text of the argument of each call that has one.
pub fn emitted_lines(sites: &Vec<CallSite>, text: &[u8]) -> (lines: Vec<Vec<u8>>)
    ensures
        views(lines@) == lines_of(sites@, text@),
{
    let mut lines: Vec<Vec<u8>> = Vec::new();
    let mut i: usize = 0;
    assert(views(lines@) =~= lines_of(sites@.take(0), text@));
    while i < sites.len()
        invariant
            i <= sites.len(),
            views(lines@) == lines_of(sites@.take(i as int), text@),
        decreases sites.len() - i,
    {
        let ghost before = views(lines@);
        assert(sites@.take(i + 1).drop_last() =~= sites@.take(i as int));
        match sites[i].argument {
            Some(span) => {
                let line = copy_range(text, span.start, span.end);
                lines.push(line);
                assert(views(lines@) =~= before + seq![range_of(text@, span.start, span.end)]);
            },
            None => {
                assert(views(lines@) =~= before + Seq::<Seq<u8>>::empty());
            },
        }
        i += 1;
    }
    assert(sites@.take(sites.len() as int) =~= sites@);
    lines
}

/// Finds the first call without an argument.
pub fn find_dangling(sites: &Vec<CallSite>) -> (found: Option<usize>)
    ensures
        found == first_dangling(sites@),
{
    let mut i: usize = 0;
    assert(sites@.skip(0) =~= sites@);
    while i < sites.len()
        invariant
            i <= sites.len(),
            first_dangling(sites@) == first_dangling(sites@.skip(i as int)),
        decreases sites.len() - i,
    {
        assert(sites@.skip(i as int).drop_first() =~= sites@.skip(i + 1));
        if sites[i].argument.is_none() {
            return Some(sites[i].keyword.start);
        }
        i += 1;
    }
    None
}

proof fn lemma_sites_among_within(
    siblings: Seq<SyntaxShape>,
    upto: nat,
    text: Seq<u8>,
    keyword: Seq<u8>,
)
    requires
        upto <= siblings.len(),
        forall|i: int| 0 <= i < siblings.len() ==> (#[trigger] siblings[i]).fits(text.len()),
    ensures
        forall|k: int|
            0 <= k < sites_among(siblings, upto, text, keyword).len() ==> site_within(
                #[trigger] sites_among(siblings, upto, text, keyword)[k],
                text.len(),
            ),
    decreases siblings, upto,
{
    if upto > 0 {
        let last = upto - 1;
        let earlier = sites_among(siblings, last as nat, text, keyword);
        let head = head_sites(siblings, last, text, keyword);
        let below = sites_in(siblings[last], text, keyword);
        let all = sites_among(siblings, upto, text, keyword);
        lemma_sites_among_within(siblings, last as nat, text, keyword);
        lemma_sites_within(siblings[last], text, keyword);
        assert(siblings[last].fits(text.len()));
        if last + 1 < siblings.len() {
            assert(siblings[last + 1].fits(text.len()));
        }
        assert(all == earlier + head + below);
        assert forall|k: int| 0 <= k < all.len() implies site_within(#[trigger] all[k], text.len()) by {
            if k < earlier.len() {
                assert(all[k] == earlier[k]);
            } else if k < earlier.len() + head.len() {
                assert(all[k] == site_at(siblings, last));
            } else {
                assert(all[k] == below[k - earlier.len() - head.len()]);
            }
        }
    }
}

/// Every call found in a tree that fits its text lies inside the text: the
/// keyword does, and so does the argument.
pub proof fn lemma_sites_within(node: SyntaxShape, text: Seq<u8>, keyword: Seq<u8>)
    requires
        node.fits(text.len()),
    ensures
        forall|k: int|
            0 <= k < sites_in(node, text, keyword).len() ==> site_within(
                #[trigger] sites_in(node, text, keyword)[k],
                text.len(),
            ),
    decreases node, 0nat,
{
    if is_compound(node.kind) {
        assert forall|i: int| 0 <= i < node.children.len() implies (#[trigger] node.children[i]).fits(
            text.len(),
        ) by {}
        lemma_sites_among_within(node.children, node.children.len(), text, keyword);
        assert(sites_in(node, text, keyword) == sites_among(
            node.children,
            node.children.len(),
            text,
            keyword,
        ));
    } else {
        assert(sites_in(node, text, keyword).len() == 0);
    }
}

impl SyntaxTree {
    /// The calls of `keyword` in the tree.
    pub open spec fn sites(self, keyword: Seq<u8>) -> Seq<CallSite> {
        sites_in(self.shape(), self.source(), keyword)
    }

    /// Walks the tree and lists every call of `keyword`.
    pub fn call_sites(&self, keyword: &[u8]) -> (sites: Vec<CallSite>)
        ensures
            sites@ == self.sites(keyword@),
            forall|k: int|
                0 <= k < sites@.len() ==> site_within(#[trigger] sites@[k], self.source().len()),
    {
        let mut sites: Vec<CallSite> = Vec::new();
        let root = self.root();
        collect_sites(root, self.text(), keyword, &mut sites);
        assert(sites@ =~= self.sites(keyword@));
        proof {
            lemma_sites_within(self.shape(), self.source(), keyword@);
        }
        sites
    }
}

/// The argument of every `reify` call in the tree, one line for each call.
/// A call without an argument is an error, and then nothing is emitted.
pub fn reify_usages(tree: &SyntaxTree) -> (found: Result<Vec<Vec<u8>>, ScanError>)
    ensures
        match first_dangling(tree.sites(reify_keyword())) {
            Some(at) => found == Err::<Vec<Vec<u8>>, ScanError>(
                ScanError::MissingSibling { keyword_at: at },
            ),
            None => found.is_ok() && views(found.unwrap()@) == lines_of(
                tree.sites(reify_keyword()),
                tree.source(),
            ),
        },
{
    let sites = tree.call_sites("reify".as_bytes());
    match find_dangling(&sites) {
        Some(at) => Err(ScanError::MissingSibling { keyword_at: at }),
        None => Ok(emitted_lines(&sites, tree.text())),
    }
}

} // verus!
