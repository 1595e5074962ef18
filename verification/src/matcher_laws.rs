use crate::bytes::range_of;
use crate::matcher::{
    first_dangling, head_sites, is_call_head, is_compound, lines_of, site_at, sites_among,
    sites_in, CallSite,
};
use crate::syntax::SyntaxShape;
use vstd::prelude::*;

verus! {

/// Whether `path`, the child indices to follow from `root` down, ends at a
/// call head that the matcher reaches: every node above the head is compound.
pub open spec fn call_head_at(
    root: SyntaxShape,
    path: Seq<int>,
    text: Seq<u8>,
    keyword: Seq<u8>,
) -> bool
    decreases path.len(),
{
    if path.len() == 0 || !is_compound(root.kind) || !(0 <= path[0] < root.children.len()) {
        false
    } else if path.len() == 1 {
        is_call_head(root.children, path[0], text, keyword)
    } else {
        call_head_at(root.children[path[0]], path.skip(1), text, keyword)
    }
}

/// The call whose keyword is the node at the end of `path`.
pub open spec fn site_on(root: SyntaxShape, path: Seq<int>) -> CallSite
    decreases path.len(),
{
    if path.len() <= 1 {
        site_at(root.children, path[0])
    } else {
        site_on(root.children[path[0]], path.skip(1))
    }
}

proof fn lemma_among_silent(siblings: Seq<SyntaxShape>, upto: nat, text: Seq<u8>, keyword: Seq<u8>)
    requires
        upto <= siblings.len(),
        forall|k: int|
            0 <= k < upto ==> !is_call_head(siblings, k, text, keyword) && sites_in(
                #[trigger] siblings[k],
                text,
                keyword,
            ).len() == 0,
    ensures
        sites_among(siblings, upto, text, keyword) =~= Seq::empty(),
    decreases upto,
{
    if upto > 0 {
        lemma_among_silent(siblings, (upto - 1) as nat, text, keyword);
        assert(sites_in(siblings[upto - 1], text, keyword).len() == 0);
    }
}

/// A tree without a call head gives no call: where no path ends at a call
/// head, the matcher finds nothing and emits no line.
pub proof fn lemma_no_call_head_no_site(root: SyntaxShape, text: Seq<u8>, keyword: Seq<u8>)
    requires
        forall|path: Seq<int>| !call_head_at(root, path, text, keyword),
    ensures
        sites_in(root, text, keyword) == Seq::<CallSite>::empty(),
        lines_of(sites_in(root, text, keyword), text) == Seq::<Seq<u8>>::empty(),
        first_dangling(sites_in(root, text, keyword)) is None,
    decreases root,
{
    if is_compound(root.kind) {
        let siblings = root.children;
        assert forall|k: int| 0 <= k < siblings.len() implies !is_call_head(
            siblings,
            k,
            text,
            keyword,
        ) && sites_in(#[trigger] siblings[k], text, keyword).len() == 0 by {
            assert(!call_head_at(root, seq![k], text, keyword));
            assert forall|below: Seq<int>| !call_head_at(siblings[k], below, text, keyword) by {
                if below.len() > 0 {
                    let path = seq![k] + below;
                    assert(path.skip(1) =~= below);
                    assert(!call_head_at(root, path, text, keyword));
                }
            }
            lemma_no_call_head_no_site(siblings[k], text, keyword);
        }
        lemma_among_silent(siblings, siblings.len(), text, keyword);
    }
    assert(sites_in(root, text, keyword) =~= Seq::empty());
}

proof fn lemma_among_single(
    siblings: Seq<SyntaxShape>,
    upto: nat,
    at: int,
    site: CallSite,
    text: Seq<u8>,
    keyword: Seq<u8>,
)
    requires
        0 <= at < upto <= siblings.len(),
        forall|k: int|
            0 <= k < upto && k != at ==> !is_call_head(siblings, k, text, keyword) && sites_in(
                #[trigger] siblings[k],
                text,
                keyword,
            ).len() == 0,
        head_sites(siblings, at, text, keyword) + sites_in(siblings[at], text, keyword) == seq![
            site,
        ],
    ensures
        sites_among(siblings, upto, text, keyword) =~= seq![site],
    decreases upto,
{
    if upto - 1 == at {
        lemma_among_silent(siblings, at as nat, text, keyword);
        assert(sites_among(siblings, upto, text, keyword) =~= head_sites(
            siblings,
            at,
            text,
            keyword,
        ) + sites_in(siblings[at], text, keyword));
    } else {
        lemma_among_single(siblings, (upto - 1) as nat, at, site, text, keyword);
        assert(sites_in(siblings[upto - 1], text, keyword).len() == 0);
    }
}

/// A tree with exactly one call head gives exactly that call: where `path`
/// ends at a call head and no other path does, the matcher finds the one
/// call there and nothing else, at whatever depth the call stands.
pub proof fn lemma_single_call_head(
    root: SyntaxShape,
    path: Seq<int>,
    text: Seq<u8>,
    keyword: Seq<u8>,
)
    requires
        call_head_at(root, path, text, keyword),
        forall|other: Seq<int>| other != path ==> !call_head_at(root, other, text, keyword),
    ensures
        sites_in(root, text, keyword) == seq![site_on(root, path)],
    decreases root,
{
    let siblings = root.children;
    let at = path[0];
    let site = site_on(root, path);
    assert forall|k: int| 0 <= k < siblings.len() && k != at implies !is_call_head(
        siblings,
        k,
        text,
        keyword,
    ) && sites_in(#[trigger] siblings[k], text, keyword).len() == 0 by {
        assert(seq![k][0] != path[0]);
        assert(!call_head_at(root, seq![k], text, keyword));
        assert forall|below: Seq<int>| !call_head_at(siblings[k], below, text, keyword) by {
            if below.len() > 0 {
                let longer = seq![k] + below;
                assert(longer[0] != path[0]);
                assert(longer.skip(1) =~= below);
                assert(!call_head_at(root, longer, text, keyword));
            }
        }
        lemma_no_call_head_no_site(siblings[k], text, keyword);
    }
    if path.len() == 1 {
        assert forall|below: Seq<int>| !call_head_at(siblings[at], below, text, keyword) by {
            if below.len() > 0 {
                let longer = seq![at] + below;
                assert(longer.len() != path.len());
                assert(longer.skip(1) =~= below);
                assert(!call_head_at(root, longer, text, keyword));
            }
        }
        lemma_no_call_head_no_site(siblings[at], text, keyword);
        assert(head_sites(siblings, at, text, keyword) + sites_in(siblings[at], text, keyword)
            =~= seq![site]);
    } else {
        let rest = path.skip(1);
        assert(seq![at].len() != path.len());
        assert(!call_head_at(root, seq![at], text, keyword));
        assert forall|below: Seq<int>| below != rest implies !call_head_at(
            siblings[at],
            below,
            text,
            keyword,
        ) by {
            if below.len() > 0 {
                let longer = seq![at] + below;
                assert(longer.skip(1) =~= below);
                if longer == path {
                    assert(below =~= rest);
                }
                assert(!call_head_at(root, longer, text, keyword));
            }
        }
        lemma_single_call_head(siblings[at], rest, text, keyword);
        assert(head_sites(siblings, at, text, keyword) + sites_in(siblings[at], text, keyword)
            =~= seq![site]);
    }
    lemma_among_single(siblings, siblings.len(), at, site, text, keyword);
}

/// The one call `(keyword X ...)` of a tree emits the text of `X` and no
/// other line: where the only call head has a node behind it, the lines are
/// the text of that node alone.
pub proof fn lemma_single_call_emits_argument(
    root: SyntaxShape,
    path: Seq<int>,
    text: Seq<u8>,
    keyword: Seq<u8>,
)
    requires
        call_head_at(root, path, text, keyword),
        forall|other: Seq<int>| other != path ==> !call_head_at(root, other, text, keyword),
        site_on(root, path).argument is Some,
    ensures
        first_dangling(sites_in(root, text, keyword)) is None,
        lines_of(sites_in(root, text, keyword), text) == seq![
            range_of(
                text,
                site_on(root, path).argument.unwrap().start,
                site_on(root, path).argument.unwrap().end,
            ),
        ],
{
    lemma_single_call_head(root, path, text, keyword);
    let sites = sites_in(root, text, keyword);
    assert(sites.drop_last() =~= Seq::empty());
    assert(sites.drop_first() =~= Seq::empty());
    assert(lines_of(sites.drop_last(), text) =~= Seq::empty());
    assert(first_dangling(sites.drop_first()) is None);
    let span = site_on(root, path).argument.unwrap();
    assert(lines_of(sites, text) =~= seq![range_of(text, span.start, span.end)]);
}

proof fn lemma_among_origin(
    root: SyntaxShape,
    upto: nat,
    k: int,
    text: Seq<u8>,
    keyword: Seq<u8>,
)
    requires
        is_compound(root.kind),
        upto <= root.children.len(),
        0 <= k < sites_among(root.children, upto, text, keyword).len(),
    ensures
        exists|path: Seq<int>|
            call_head_at(root, path, text, keyword) && sites_among(
                root.children,
                upto,
                text,
                keyword,
            )[k] == site_on(root, path),
    decreases root, upto,
{
    let siblings = root.children;
    let last = upto - 1;
    let earlier = sites_among(siblings, last as nat, text, keyword);
    let head = head_sites(siblings, last, text, keyword);
    let below = sites_in(siblings[last], text, keyword);
    assert(sites_among(siblings, upto, text, keyword) == earlier + head + below);
    if k < earlier.len() {
        lemma_among_origin(root, last as nat, k, text, keyword);
        let path = choose|path: Seq<int>|
            call_head_at(root, path, text, keyword) && earlier[k] == site_on(root, path);
        assert(call_head_at(root, path, text, keyword) && sites_among(
            siblings,
            upto,
            text,
            keyword,
        )[k] == site_on(root, path));
    } else if k < earlier.len() + head.len() {
        let path = seq![last];
        assert(call_head_at(root, path, text, keyword) && sites_among(
            siblings,
            upto,
            text,
            keyword,
        )[k] == site_on(root, path));
    } else {
        let inner = k - earlier.len() - head.len();
        lemma_site_origin(siblings[last], inner, text, keyword);
        let rest = choose|rest: Seq<int>|
            call_head_at(siblings[last], rest, text, keyword) && below[inner] == site_on(
                siblings[last],
                rest,
            );
        let path = seq![last] + rest;
        assert(path.skip(1) =~= rest);
        assert(call_head_at(root, path, text, keyword) && sites_among(
            siblings,
            upto,
            text,
            keyword,
        )[k] == site_on(root, path));
    }
}

/// Only a call head gives a call: each call that the matcher finds is the
/// call of a path that ends at a keyword standing directly behind the
/// opening parenthesis. A keyword with anything else before it, or with
/// nothing before it, is the origin of no call.
pub proof fn lemma_site_origin(root: SyntaxShape, k: int, text: Seq<u8>, keyword: Seq<u8>)
    requires
        0 <= k < sites_in(root, text, keyword).len(),
    ensures
        exists|path: Seq<int>|
            call_head_at(root, path, text, keyword) && sites_in(root, text, keyword)[k]
                == site_on(root, path),
    decreases root, root.children.len() + 1,
{
    lemma_among_origin(root, root.children.len(), k, text, keyword);
}

} // verus!
