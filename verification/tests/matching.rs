use reify_scan::error::ScanError;
use reify_scan::matcher::{
    call_head, collect_sites, descends_into, emitted_lines, find_dangling, reify_usages, site_of,
    CallSite,
};
use reify_scan::syntax::{Span, SyntaxNode, SyntaxTree};

fn leaf(kind: &str, start: usize, end: usize) -> SyntaxNode {
    SyntaxNode { kind: kind.as_bytes().to_vec(), start, end, children: Vec::new() }
}

fn node(kind: &str, start: usize, end: usize, children: Vec<SyntaxNode>) -> SyntaxNode {
    SyntaxNode { kind: kind.as_bytes().to_vec(), start, end, children }
}

fn source(text: &str, children: Vec<SyntaxNode>) -> SyntaxTree {
    SyntaxTree::new(node("source", 0, text.len(), children), text.as_bytes().to_vec()).unwrap()
}

fn lines(of: &[&str]) -> Vec<Vec<u8>> {
    of.iter().map(|line| line.as_bytes().to_vec()).collect()
}

#[test]
fn call_in_a_list_emits_the_next_node() {
    let text = "(reify Foo)";
    let list = node(
        "list_lit",
        0,
        11,
        vec![leaf("(", 0, 1), leaf("sym_lit", 1, 6), leaf("sym_lit", 7, 10), leaf(")", 10, 11)],
    );
    let tree = source(text, vec![list]);
    assert_eq!(reify_usages(&tree), Ok(lines(&["Foo"])));
    assert_eq!(
        tree.call_sites(b"reify"),
        vec![CallSite {
            keyword: Span { start: 1, end: 6 },
            argument: Some(Span { start: 7, end: 10 }),
        }]
    );
}

#[test]
fn argument_of_any_kind_is_emitted_whole() {
    let text = "(reify (a b))";
    let inner = node(
        "list_lit",
        7,
        12,
        vec![leaf("(", 7, 8), leaf("sym_lit", 8, 9), leaf("sym_lit", 10, 11), leaf(")", 11, 12)],
    );
    let list = node(
        "list_lit",
        0,
        13,
        vec![leaf("(", 0, 1), leaf("sym_lit", 1, 6), inner, leaf(")", 12, 13)],
    );
    assert_eq!(reify_usages(&source(text, vec![list])), Ok(lines(&["(a b)"])));
}

#[test]
fn keyword_behind_another_symbol_is_no_call() {
    let text = "(foo reify Bar)";
    let list = node(
        "list_lit",
        0,
        15,
        vec![
            leaf("(", 0, 1),
            leaf("sym_lit", 1, 4),
            leaf("sym_lit", 5, 10),
            leaf("sym_lit", 11, 14),
            leaf(")", 14, 15),
        ],
    );
    let tree = source(text, vec![list]);
    assert_eq!(reify_usages(&tree), Ok(lines(&[])));
    assert!(tree.call_sites(b"reify").is_empty());
    assert_eq!(tree.call_sites(b"foo").len(), 1);
}

#[test]
fn keyword_as_first_child_is_no_call() {
    let text = "reify Bar";
    let tree = source(text, vec![leaf("sym_lit", 0, 5), leaf("sym_lit", 6, 9)]);
    assert_eq!(reify_usages(&tree), Ok(lines(&[])));
}

#[test]
fn root_that_reads_as_the_keyword_is_no_call() {
    let tree = source("reify", Vec::new());
    assert_eq!(reify_usages(&tree), Ok(lines(&[])));
}

#[test]
fn only_compound_nodes_are_descended_into() {
    let text = "[(reify Foo)]";
    let list = node(
        "list_lit",
        1,
        12,
        vec![leaf("(", 1, 2), leaf("sym_lit", 2, 7), leaf("sym_lit", 8, 11), leaf(")", 11, 12)],
    );
    let vector = node("vec_lit", 0, 13, vec![leaf("[", 0, 1), list, leaf("]", 12, 13)]);
    assert_eq!(reify_usages(&source(text, vec![vector])), Ok(lines(&[])));
    assert!(descends_into(b"list_lit"));
    assert!(descends_into(b"source"));
    assert!(!descends_into(b"vec_lit"));
    assert!(!descends_into(b""));
}

#[test]
fn head_is_emitted_before_what_lies_below_it() {
    let text = "(reify A (reify B))";
    let inner = node(
        "list_lit",
        9,
        18,
        vec![leaf("(", 9, 10), leaf("sym_lit", 10, 15), leaf("sym_lit", 16, 17), leaf(")", 17, 18)],
    );
    let outer = node(
        "list_lit",
        0,
        19,
        vec![leaf("(", 0, 1), leaf("sym_lit", 1, 6), leaf("sym_lit", 7, 8), inner, leaf(")", 18, 19)],
    );
    assert_eq!(reify_usages(&source(text, vec![outer])), Ok(lines(&["A", "B"])));
}

#[test]
fn call_without_argument_is_reported() {
    let text = "(reify";
    let list = node("list_lit", 0, 6, vec![leaf("(", 0, 1), leaf("sym_lit", 1, 6)]);
    let tree = source(text, vec![list]);
    assert_eq!(reify_usages(&tree), Err(ScanError::MissingSibling { keyword_at: 1 }));
    let sites = tree.call_sites(b"reify");
    assert_eq!(sites, vec![CallSite { keyword: Span { start: 1, end: 6 }, argument: None }]);
    assert_eq!(find_dangling(&sites), Some(1));
    assert_eq!(emitted_lines(&sites, text.as_bytes()), lines(&[]));
}

#[test]
fn call_without_argument_hides_the_other_calls() {
    let text = "(reify A) (reify";
    let first = node(
        "list_lit",
        0,
        9,
        vec![leaf("(", 0, 1), leaf("sym_lit", 1, 6), leaf("sym_lit", 7, 8), leaf(")", 8, 9)],
    );
    let second = node("list_lit", 10, 16, vec![leaf("(", 10, 11), leaf("sym_lit", 11, 16)]);
    let tree = source(text, vec![first, second]);
    assert_eq!(reify_usages(&tree), Err(ScanError::MissingSibling { keyword_at: 11 }));
    let sites = tree.call_sites(b"reify");
    assert_eq!(emitted_lines(&sites, tree.text()), lines(&["A"]));
}

#[test]
fn tree_must_fit_its_text() {
    let text = b"(a)".to_vec();
    assert!(SyntaxTree::new(leaf("source", 0, 3), text.clone()).is_some());
    assert!(SyntaxTree::new(leaf("source", 0, 4), text.clone()).is_none());
    assert!(SyntaxTree::new(leaf("source", 2, 1), text.clone()).is_none());
    let deep = node("source", 0, 3, vec![node("list_lit", 0, 3, vec![leaf("sym_lit", 1, 9)])]);
    assert!(!deep.fits(3));
    assert!(deep.fits(9));
    assert!(SyntaxTree::new(deep, text).is_none());
}

#[test]
fn tree_gives_back_root_and_text() {
    let tree = source("(a)", vec![leaf("list_lit", 0, 3)]);
    assert_eq!(tree.text(), b"(a)");
    assert_eq!(tree.root().children.len(), 1);
    assert_eq!(tree.root().kind, b"source");
}

#[test]
fn call_head_needs_the_parenthesis_directly_before() {
    let text = b"( reify x (reify y";
    let siblings = vec![
        leaf("(", 0, 1),
        leaf("ws", 1, 2),
        leaf("sym_lit", 2, 7),
        leaf("sym_lit", 8, 9),
        leaf("(", 10, 11),
        leaf("sym_lit", 11, 16),
        leaf("sym_lit", 17, 18),
    ];
    assert!(!call_head(&siblings, 0, text, b"reify"));
    assert!(!call_head(&siblings, 2, text, b"reify"));
    assert!(call_head(&siblings, 5, text, b"reify"));
    assert!(!call_head(&siblings, 6, text, b"reify"));
    assert_eq!(
        site_of(&siblings, 5),
        CallSite {
            keyword: Span { start: 11, end: 16 },
            argument: Some(Span { start: 17, end: 18 }),
        }
    );
    assert_eq!(site_of(&siblings, 6).argument, None);
}

#[test]
fn collected_sites_follow_what_is_there() {
    let text = b"(reify A)";
    let list = node(
        "list_lit",
        0,
        9,
        vec![leaf("(", 0, 1), leaf("sym_lit", 1, 6), leaf("sym_lit", 7, 8), leaf(")", 8, 9)],
    );
    let before = CallSite { keyword: Span { start: 0, end: 0 }, argument: None };
    let mut out = vec![before];
    collect_sites(&node("source", 0, 9, vec![list]), text, b"reify", &mut out);
    assert_eq!(out.len(), 2);
    assert_eq!(out[0], before);
    assert_eq!(out[1].argument, Some(Span { start: 7, end: 8 }));
}

#[test]
fn range_outside_the_text_reads_as_empty() {
    let sites = vec![CallSite {
        keyword: Span { start: 0, end: 1 },
        argument: Some(Span { start: 2, end: 40 }),
    }];
    assert_eq!(emitted_lines(&sites, b"abc"), lines(&[""]));
}
