use reify_scan::grammar::parse_source;
use reify_scan::scan::{ScanReport, UnitOutcome};
use reify_scan::error::{FailurePolicy, ScanError};

fn lines(of: &[&str]) -> Vec<Vec<u8>> {
    of.iter().map(|line| line.as_bytes().to_vec()).collect()
}

#[test]
fn parsed_tree_has_the_shape_of_the_text() {
    let tree = parse_source(b"(reify Foo)".to_vec()).unwrap();
    assert_eq!(tree.text(), b"(reify Foo)");
    let root = tree.root();
    assert_eq!(root.kind, b"source");
    assert_eq!((root.start, root.end), (0, 11));
    assert_eq!(root.children.len(), 1);
    let list = &root.children[0];
    assert_eq!(list.kind, b"list_lit");
    assert_eq!((list.start, list.end), (0, 11));
    let kinds: Vec<&[u8]> = list.children.iter().map(|child| child.kind.as_slice()).collect();
    assert_eq!(kinds, vec![&b"("[..], &b"sym_lit"[..], &b"sym_lit"[..], &b")"[..]]);
    let ranges: Vec<(usize, usize)> =
        list.children.iter().map(|child| (child.start, child.end)).collect();
    assert_eq!(ranges, vec![(0, 1), (1, 6), (7, 10), (10, 11)]);
    assert!(root.fits(11));
}

#[test]
fn parsed_children_come_in_source_order() {
    let tree = parse_source(b"(a) (b) (c)".to_vec()).unwrap();
    let starts: Vec<usize> = tree.root().children.iter().map(|child| child.start).collect();
    assert_eq!(starts, vec![0, 4, 8]);
}

#[test]
fn broken_text_still_gives_a_tree() {
    let tree = parse_source(b"(reify Foo".to_vec()).unwrap();
    assert_eq!(tree.root().kind, b"source");
    assert!(tree.root().fits(10));
}

#[test]
fn new_report_is_empty() {
    let report = ScanReport::new();
    assert_eq!(report, ScanReport { processed: 0, failed: 0, lines: Vec::new() });
}

#[test]
fn report_counts_a_unit_once_it_was_read() {
    let mut report = ScanReport::new();
    let policy = FailurePolicy::ContinueOnError;
    assert_eq!(report.absorb(UnitOutcome::Scanned(lines(&["A", "B"])), policy), Ok(()));
    assert_eq!(report.absorb(UnitOutcome::Ignored, policy), Ok(()));
    assert_eq!(report.absorb(UnitOutcome::Rejected(ScanError::Parse), policy), Ok(()));
    let unread = UnitOutcome::Unread(ScanError::ArchiveMemberRead { index: 3 });
    assert_eq!(report.absorb(unread, policy), Ok(()));
    assert_eq!(report.absorb(UnitOutcome::Scanned(lines(&["C"])), policy), Ok(()));
    assert_eq!(report, ScanReport { processed: 3, failed: 2, lines: lines(&["A", "B", "C"]) });
}

#[test]
fn report_is_unchanged_by_the_failure_that_ends_the_scan() {
    let mut report = ScanReport::new();
    let policy = FailurePolicy::AbortOnFirstError;
    assert_eq!(report.absorb(UnitOutcome::Scanned(lines(&["A"])), policy), Ok(()));
    let rejected = UnitOutcome::Rejected(ScanError::MissingSibling { keyword_at: 5 });
    assert_eq!(report.absorb(rejected, policy), Err(ScanError::MissingSibling { keyword_at: 5 }));
    assert_eq!(report, ScanReport { processed: 1, failed: 0, lines: lines(&["A"]) });
    let fatal = UnitOutcome::Unread(ScanError::ArchiveOpen);
    assert_eq!(
        report.absorb(fatal, FailurePolicy::ContinueOnError),
        Err(ScanError::ArchiveOpen)
    );
}
