use crate::bytes::{ends_with, has_suffix};
use vstd::prelude::*;
use vstd::string::{StringExecFns, StringSliceAdditionalSpecFns};

verus! {

/// What the scan does with one entry of the file system.
#[derive(Clone, Copy, Debug, PartialEq, Eq, Structural)]
pub enum UnitKind {
    /// A loose source file: read it and scan it.
    Source,
    /// An archive: open it and scan its source members.
    Archive,
    /// Anything else: leave it alone.
    Other,
}

/// The kind of an entry: only a file is a unit, and its name decides which.
pub open spec fn entry_kind(path: Seq<u8>, is_file: bool) -> UnitKind {
    if !is_file {
        UnitKind::Other
    } else if has_suffix(path, ".clj".spec_bytes()) {
        UnitKind::Source
    } else if has_suffix(path, ".jar".spec_bytes()) {
        UnitKind::Archive
    } else {
        UnitKind::Other
    }
}

/// Classifies an entry by its path and by whether it is a file.
pub fn classify_entry(path: &str, is_file: bool) -> (kind: UnitKind)
    ensures
        kind == entry_kind(path.spec_bytes(), is_file),
{
    if !is_file {
        UnitKind::Other
    } else if ends_with(path.as_bytes(), ".clj".as_bytes()) {
        UnitKind::Source
    } else if ends_with(path.as_bytes(), ".jar".as_bytes()) {
        UnitKind::Archive
    } else {
        UnitKind::Other
    }
}

/// The pattern that an argument stands for: a directory stands for
/// everything below it, anything else for itself.
pub open spec fn pattern_of(arg: Seq<char>, is_dir: bool) -> Seq<char> {
    if is_dir {
        arg + "/**"@
    } else {
        arg
    }
}

/// Builds the pattern to expand for an argument.
pub fn glob_pattern(arg: &str, is_dir: bool) -> (pattern: String)
    ensures
        pattern@ == pattern_of(arg@, is_dir),
{
    let pattern = arg.to_owned();
    if is_dir {
        pattern.concat("/**")
    } else {
        pattern
    }
}

/// The decimal digits of `n`, most significant first.
pub open spec fn decimal(n: nat) -> Seq<u8>
    decreases n,
{
    if n < 10 {
        seq![(48 + n) as u8]
    } else {
        decimal(n / 10).push((48 + n % 10) as u8)
    }
}

/// Appends the decimal digits of `n` to `out`.
pub fn push_decimal(out: &mut Vec<u8>, n: u128)
    ensures
        final(out)@ == old(out)@ + decimal(n as nat),
    decreases n,
{
    if n >= 10 {
        push_decimal(out, n / 10);
    }
    let digit: u8 = (n % 10) as u8;
    out.push(48 + digit);
    assert(out@ =~= old(out)@ + decimal(n as nat));
}

/// The closing line of a run: `Processed <N> files in <M>ms.`, and where
/// units failed `Processed <N> files in <M>ms, <F> failed.`
pub open spec fn summary_text(processed: nat, failed: nat, millis: nat) -> Seq<u8> {
    let head = "Processed ".spec_bytes() + decimal(processed) + " files in ".spec_bytes()
        + decimal(millis);
    if failed == 0 {
        head + "ms.".spec_bytes()
    } else {
        head + "ms, ".spec_bytes() + decimal(failed) + " failed.".spec_bytes()
    }
}

/// Writes the closing line of a run.
pub fn summary_line(processed: usize, failed: usize, millis: u128) -> (line: Vec<u8>)
    ensures
        line@ == summary_text(processed as nat, failed as nat, millis as nat),
{
    let mut line: Vec<u8> = Vec::new();
    line.extend_from_slice("Processed ".as_bytes());
    push_decimal(&mut line, processed as u128);
    line.extend_from_slice(" files in ".as_bytes());
    push_decimal(&mut line, millis);
    if failed == 0 {
        line.extend_from_slice("ms.".as_bytes());
    } else {
        line.extend_from_slice("ms, ".as_bytes());
        push_decimal(&mut line, failed as u128);
        line.extend_from_slice(" failed.".as_bytes());
    }
    assert(line@ =~= summary_text(processed as nat, failed as nat, millis as nat));
    line
}

} // verus!
