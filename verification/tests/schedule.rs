use reify_scan::bytes::{copy_range, ends_with, range_equals};
use reify_scan::error::{react, FailurePolicy, Reaction, ScanError};
use reify_scan::schedule::{
    classify_entry, glob_pattern, push_decimal, summary_line, UnitKind,
};

#[test]
fn entries_are_classified_by_suffix() {
    assert_eq!(classify_entry("src/app/core.clj", true), UnitKind::Source);
    assert_eq!(classify_entry("lib/clojure-1.10.jar", true), UnitKind::Archive);
    assert_eq!(classify_entry("README.md", true), UnitKind::Other);
    assert_eq!(classify_entry("Makefile", true), UnitKind::Other);
    assert_eq!(classify_entry("core.cljs", true), UnitKind::Other);
    assert_eq!(classify_entry("clj", true), UnitKind::Other);
    assert_eq!(classify_entry("", true), UnitKind::Other);
}

#[test]
fn only_files_are_units() {
    assert_eq!(classify_entry("src/odd.clj", false), UnitKind::Other);
    assert_eq!(classify_entry("lib/odd.jar", false), UnitKind::Other);
}

#[test]
fn directory_stands_for_all_below_it() {
    assert_eq!(glob_pattern("src", true), "src/**");
    assert_eq!(glob_pattern("src/", true), "src//**");
    assert_eq!(glob_pattern("src/*.clj", false), "src/*.clj");
    assert_eq!(glob_pattern("", false), "");
}

#[test]
fn summary_has_the_fixed_form() {
    assert_eq!(summary_line(3, 0, 12), b"Processed 3 files in 12ms.".to_vec());
    assert_eq!(summary_line(0, 0, 0), b"Processed 0 files in 0ms.".to_vec());
    assert_eq!(summary_line(1204, 0, 98765), b"Processed 1204 files in 98765ms.".to_vec());
}

#[test]
fn summary_names_failures_where_there_are_any() {
    assert_eq!(summary_line(10, 2, 7), b"Processed 10 files in 7ms, 2 failed.".to_vec());
}

#[test]
fn decimal_digits_are_appended() {
    let mut out = b"n=".to_vec();
    push_decimal(&mut out, 0);
    push_decimal(&mut out, 9);
    push_decimal(&mut out, 10);
    push_decimal(&mut out, u128::MAX);
    assert_eq!(out, b"n=0910340282366920938463463374607431768211455".to_vec());
}

#[test]
fn fatal_errors_end_every_scan() {
    for policy in [FailurePolicy::AbortOnFirstError, FailurePolicy::ContinueOnError] {
        assert_eq!(react(policy, ScanError::PathResolution), Reaction::Abort);
        assert_eq!(react(policy, ScanError::GlobExpansion), Reaction::Abort);
        assert_eq!(react(policy, ScanError::ArchiveOpen), Reaction::Abort);
    }
    assert!(ScanError::PathResolution.is_fatal());
    assert!(ScanError::GlobExpansion.is_fatal());
    assert!(ScanError::ArchiveOpen.is_fatal());
}

#[test]
fn unit_errors_follow_the_policy() {
    let errors = [
        ScanError::ArchiveMemberRead { index: 4 },
        ScanError::Parse,
        ScanError::MissingSibling { keyword_at: 9 },
    ];
    for error in errors {
        assert!(!error.is_fatal());
        assert_eq!(react(FailurePolicy::AbortOnFirstError, error), Reaction::Abort);
        assert_eq!(react(FailurePolicy::ContinueOnError, error), Reaction::SkipUnit);
    }
}

#[test]
fn ranges_are_compared_and_copied() {
    let text = b"(reify Foo)";
    assert!(range_equals(text, 1, 6, b"reify"));
    assert!(!range_equals(text, 1, 5, b"reify"));
    assert!(!range_equals(text, 2, 7, b"reify"));
    assert!(range_equals(text, 3, 3, b""));
    assert!(range_equals(text, 5, 2, b""));
    assert!(!range_equals(text, 7, 12, b"Foo))"));
    assert_eq!(copy_range(text, 7, 10), b"Foo".to_vec());
    assert_eq!(copy_range(text, 0, 11), text.to_vec());
    assert_eq!(copy_range(text, 4, 4), Vec::<u8>::new());
    assert_eq!(copy_range(text, 4, 12), Vec::<u8>::new());
}

#[test]
fn suffix_is_found() {
    assert!(ends_with(b"core.clj", b".clj"));
    assert!(ends_with(b".clj", b".clj"));
    assert!(ends_with(b"x", b""));
    assert!(!ends_with(b"core.cljs", b".clj"));
    assert!(!ends_with(b"clj", b".clj"));
}
