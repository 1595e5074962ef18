use vstd::prelude::*;

verus! {

/// Why a scan, or one unit of it, failed.
#[derive(Clone, Copy, Debug, PartialEq, Eq, Structural)]
pub enum ScanError {
    /// An argument names nothing in the file system.
    PathResolution,
    /// An argument is not a well-formed pattern.
    GlobExpansion,
    /// An archive cannot be read as one.
    ArchiveOpen,
    /// The member at `index` of an archive cannot be decoded.
    ArchiveMemberRead { index: usize },
    /// The parser gave no tree for a text.
    Parse,
    /// The keyword at byte `keyword_at` heads a call that has no argument.
    MissingSibling { keyword_at: usize },
}

/// What a scan does when one unit fails.
#[derive(Clone, Copy, Debug, PartialEq, Eq, Structural)]
pub enum FailurePolicy {
    /// The first failure ends the scan.
    AbortOnFirstError,
    /// A failed unit is counted and skipped where the scan can go on.
    ContinueOnError,
}

/// What to do about one failure.
#[derive(Clone, Copy, Debug, PartialEq, Eq, Structural)]
pub enum Reaction {
    /// End the scan with the error.
    Abort,
    /// Count the unit as failed and go on with the next.
    SkipUnit,
}

impl ScanError {
    /// Whether no scan can go on after this error: there is no unit to skip
    /// when a path or an archive cannot be had at all.
    pub open spec fn fatal(self) -> bool {
        self is PathResolution || self is GlobExpansion || self is ArchiveOpen
    }

    /// Tests whether the error ends a scan under every policy.
    pub fn is_fatal(&self) -> (yes: bool)
        ensures
            yes == self.fatal(),
    {
        match self {
            ScanError::PathResolution => true,
            ScanError::GlobExpansion => true,
            ScanError::ArchiveOpen => true,
            ScanError::ArchiveMemberRead { .. } => false,
            ScanError::Parse => false,
            ScanError::MissingSibling { .. } => false,
        }
    }
}

/// The reaction that `policy` asks for on `error`.
pub open spec fn reaction_to(policy: FailurePolicy, error: ScanError) -> Reaction {
    if policy == FailurePolicy::AbortOnFirstError || error.fatal() {
        Reaction::Abort
    } else {
        Reaction::SkipUnit
    }
}

/// Decides what a scan under `policy` does about `error`.
pub fn react(policy: FailurePolicy, error: ScanError) -> (reaction: Reaction)
    ensures
        reaction == reaction_to(policy, error),
{
    match policy {
        FailurePolicy::AbortOnFirstError => Reaction::Abort,
        FailurePolicy::ContinueOnError => if error.is_fatal() {
            Reaction::Abort
        } else {
            Reaction::SkipUnit
        },
    }
}

} // verus!
