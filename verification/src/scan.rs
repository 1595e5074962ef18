use crate::archive::{
    archive_entries, content_at, entries_of, is_source_member, member_at, member_count,
    open_archive, wants_member, EntryShape,
};
use crate::bytes::views;
use crate::error::{react, reaction_to, FailurePolicy, Reaction, ScanError};
use crate::grammar::{clojure_syntax, parse_outcome, parse_source};
use crate::matcher::{first_dangling, lines_of, reify_keyword, reify_usages, sites_in};
use crate::syntax::SyntaxShape;
use vstd::prelude::*;

verus! {

/// What scanning one text gives, given the parser's result for it: the
/// emitted lines, or the error that rejects the unit.
pub open spec fn unit_outcome(parsed: Option<SyntaxShape>, text: Seq<u8>) -> Result<
    Seq<Seq<u8>>,
    ScanError,
> {
    match parse_outcome(parsed, text) {
        None => Err(ScanError::Parse),
        Some(shape) => {
            let sites = sites_in(shape, text, reify_keyword());
            match first_dangling(sites) {
                Some(at) => Err(ScanError::MissingSibling { keyword_at: at }),
                None => Ok(lines_of(sites, text)),
            }
        },
    }
}

/// Scans one source text: parses it and emits the argument of every `reify`
/// call in it.
pub fn scan_source(text: Vec<u8>) -> (scanned: Result<Vec<Vec<u8>>, ScanError>)
    ensures
        match unit_outcome(clojure_syntax(text@), text@) {
            Ok(lines) => scanned.is_ok() && views(scanned.unwrap()@) == lines,
            Err(error) => scanned == Err::<Vec<Vec<u8>>, ScanError>(error),
        },
{
    match parse_source(text) {
        Ok(tree) => reify_usages(&tree),
        Err(error) => Err(error),
    }
}

/// How one entry of an archive fared.
#[derive(Debug, PartialEq, Eq)]
pub enum UnitOutcome {
    /// The entry is no unit: a directory, or no source file.
    Ignored,
    /// The entry or its content could not be had; nothing was read.
    Unread(ScanError),
    /// The unit was read and scanned, and emitted these lines.
    Scanned(Vec<Vec<u8>>),
    /// The unit was read and then rejected.
    Rejected(ScanError),
}

/// The value of a [`UnitOutcome`].
pub enum OutcomeShape {
    Ignored,
    Unread(ScanError),
    Scanned(Seq<Seq<u8>>),
    Rejected(ScanError),
}

impl View for UnitOutcome {
    type V = OutcomeShape;

    open spec fn view(&self) -> OutcomeShape {
        match *self {
            UnitOutcome::Ignored => OutcomeShape::Ignored,
            UnitOutcome::Unread(error) => OutcomeShape::Unread(error),
            UnitOutcome::Scanned(lines) => OutcomeShape::Scanned(views(lines@)),
            UnitOutcome::Rejected(error) => OutcomeShape::Rejected(error),
        }
    }
}

/// The counts and lines of a scan so far.
#[derive(Debug, PartialEq, Eq)]
pub struct ScanReport {
    /// Units whose content was read.
    pub processed: usize,
    /// Units that failed and were skipped.
    pub failed: usize,
    /// The emitted lines, unit after unit.
    pub lines: Vec<Vec<u8>>,
}

/// The value of a [`ScanReport`].
pub struct Tally {
    pub processed: nat,
    pub failed: nat,
    pub lines: Seq<Seq<u8>>,
}

impl View for ScanReport {
    type V = Tally;

    open spec fn view(&self) -> Tally {
        Tally {
            processed: self.processed as nat,
            failed: self.failed as nat,
            lines: views(self.lines@),
        }
    }
}

impl Tally {
    /// The tally of a scan that has seen nothing.
    pub open spec fn empty() -> Tally {
        Tally { processed: 0, failed: 0, lines: Seq::empty() }
    }

    /// The tally after one more outcome: a unit counts as processed once its
    /// content was read, whatever the scan of it gave. A failure ends the
    /// scan where `policy` says so; else the unit counts as failed.
    pub open spec fn absorb(self, outcome: OutcomeShape, policy: FailurePolicy) -> Result<
        Tally,
        ScanError,
    > {
        match outcome {
            OutcomeShape::Ignored => Ok(self),
            OutcomeShape::Scanned(lines) => Ok(
                Tally {
                    processed: self.processed + 1,
                    failed: self.failed,
                    lines: self.lines + lines,
                },
            ),
            OutcomeShape::Unread(error) => if reaction_to(policy, error) == Reaction::Abort {
                Err(error)
            } else {
                Ok(
                    Tally {
                        processed: self.processed,
                        failed: self.failed + 1,
                        lines: self.lines,
                    },
                )
            },
            OutcomeShape::Rejected(error) => if reaction_to(policy, error) == Reaction::Abort {
                Err(error)
            } else {
                Ok(
                    Tally {
                        processed: self.processed + 1,
                        failed: self.failed + 1,
                        lines: self.lines,
                    },
                )
            },
        }
    }
}

impl ScanReport {
    /// A report of nothing.
    pub fn new() -> (report: ScanReport)
        ensures
            report@ == Tally::empty(),
    {
        let report = ScanReport { processed: 0, failed: 0, lines: Vec::new() };
        assert(report@.lines =~= Seq::empty());
        report
    }

    /// Takes one outcome into the report, or ends the scan with its error.
    pub fn absorb(&mut self, outcome: UnitOutcome, policy: FailurePolicy) -> (done: Result<
        (),
        ScanError,
    >)
        requires
            old(self).processed < usize::MAX,
            old(self).failed < usize::MAX,
        ensures
            match old(self)@.absorb(outcome@, policy) {
                Ok(tally) => done.is_ok() && final(self)@ == tally,
                Err(error) => done == Err::<(), ScanError>(error) && *final(self) == *old(self),
            },
    {
        match outcome {
            UnitOutcome::Ignored => Ok(()),
            UnitOutcome::Scanned(lines) => {
                let mut lines = lines;
                let ghost added = views(lines@);
                self.processed += 1;
                self.lines.append(&mut lines);
                assert(views(self.lines@) =~= views(old(self).lines@) + added);
                Ok(())
            },
            UnitOutcome::Unread(error) => match react(policy, error) {
                Reaction::Abort => Err(error),
                Reaction::SkipUnit => {
                    self.failed += 1;
                    Ok(())
                },
            },
            UnitOutcome::Rejected(error) => match react(policy, error) {
                Reaction::Abort => Err(error),
                Reaction::SkipUnit => {
                    self.processed += 1;
                    self.failed += 1;
                    Ok(())
                },
            },
        }
    }
}

/// How the entry at `index` of an archive fares: a member that is no source
/// file is ignored before its content is looked at.
pub open spec fn entry_outcome(entry: EntryShape, index: usize) -> OutcomeShape {
    match entry.member {
        None => OutcomeShape::Unread(ScanError::ArchiveMemberRead { index }),
        Some(member) => if !is_source_member(member) {
            OutcomeShape::Ignored
        } else {
            match entry.content {
                None => OutcomeShape::Unread(ScanError::ArchiveMemberRead { index }),
                Some(text) => match unit_outcome(clojure_syntax(text), text) {
                    Ok(lines) => OutcomeShape::Scanned(lines),
                    Err(error) => OutcomeShape::Rejected(error),
                },
            }
        },
    }
}

/// The tally after the first `upto` of `outcomes`, taken in order, or the
/// error that ended the scan among them.
pub open spec fn run_tally(outcomes: Seq<OutcomeShape>, upto: nat, policy: FailurePolicy) -> Result<
    Tally,
    ScanError,
>
    decreases upto,
{
    if upto == 0 || upto > outcomes.len() {
        Ok(Tally::empty())
    } else {
        match run_tally(outcomes, (upto - 1) as nat, policy) {
            Ok(tally) => tally.absorb(outcomes[upto - 1], policy),
            Err(error) => Err(error),
        }
    }
}

/// How each entry of an archive fares, by index.
pub open spec fn entry_outcomes(entries: Seq<EntryShape>) -> Seq<OutcomeShape> {
    Seq::new(entries.len(), |index: int| entry_outcome(entries[index], index as usize))
}

/// What scanning an archive gives, given its entries as the decoder found
/// them: no entries at all is the one failure that no policy survives.
pub open spec fn archive_outcome(entries: Option<Seq<EntryShape>>, policy: FailurePolicy) -> Result<
    Tally,
    ScanError,
> {
    match entries {
        None => Err(ScanError::ArchiveOpen),
        Some(entries) => run_tally(entry_outcomes(entries), entries.len(), policy),
    }
}

/// Looks at the member at `index` and, where it is a source file, reads and
/// scans it.
fn scan_member(archive: &mut zip::ZipArchive<std::io::Cursor<Vec<u8>>>, index: usize) -> (outcome:
    UnitOutcome)
    requires
        index < entries_of(*old(archive)).len(),
    ensures
        entries_of(*final(archive)) == entries_of(*old(archive)),
        outcome@ == entry_outcome(entries_of(*old(archive))[index as int], index),
{
    let member = match member_at(&*archive, index) {
        Ok(member) => member,
        Err(_) => {
            return UnitOutcome::Unread(ScanError::ArchiveMemberRead { index });
        },
    };
    if !wants_member(&member) {
        return UnitOutcome::Ignored;
    }
    let text = match content_at(archive, index) {
        Ok(text) => text,
        Err(_) => {
            return UnitOutcome::Unread(ScanError::ArchiveMemberRead { index });
        },
    };
    match scan_source(text) {
        Ok(lines) => UnitOutcome::Scanned(lines),
        Err(error) => UnitOutcome::Rejected(error),
    }
}

/// Scans every source file of the archive that `bytes` encode, member after
/// member, and reports how many were read, how many failed, and the lines
/// they emitted.
pub fn scan_archive(bytes: Vec<u8>, policy: FailurePolicy) -> (scanned: Result<
    ScanReport,
    ScanError,
>)
    ensures
        match archive_outcome(archive_entries(bytes@), policy) {
            Ok(tally) => scanned.is_ok() && scanned.unwrap()@ == tally,
            Err(error) => scanned.is_err() && scanned.unwrap_err() == error,
        },
{
    let mut archive = match open_archive(bytes) {
        Ok(archive) => archive,
        Err(_) => {
            return Err(ScanError::ArchiveOpen);
        },
    };
    let ghost entries = entries_of(archive);
    let ghost outcomes = entry_outcomes(entries);
    let count = member_count(&archive);
    let mut report = ScanReport::new();
    let mut index: usize = 0;
    while index < count
        invariant
            index <= count,
            count == entries.len(),
            archive_entries(bytes@) == Some(entries),
            entries_of(archive) == entries,
            report.processed <= index,
            report.failed <= index,
            outcomes == entry_outcomes(entries),
            run_tally(outcomes, index as nat, policy) == Ok::<Tally, ScanError>(report@),
        decreases count - index,
    {
        let outcome = scan_member(&mut archive, index);
        let ghost before = report@;
        assert(run_tally(outcomes, (index + 1) as nat, policy) == before.absorb(
            outcome@,
            policy,
        ));
        match report.absorb(outcome, policy) {
            Ok(()) => {},
            Err(error) => {
                proof {
                    lemma_failure_stays(outcomes, (index + 1) as nat, count as nat, policy);
                }
                return Err(error);
            },
        }
        index += 1;
    }
    Ok(report)
}

/// Once the scan of a prefix has failed, the scan of every longer prefix
/// fails with the same error.
pub proof fn lemma_failure_stays(
    outcomes: Seq<OutcomeShape>,
    failed_at: nat,
    upto: nat,
    policy: FailurePolicy,
)
    requires
        failed_at <= upto <= outcomes.len(),
        run_tally(outcomes, failed_at, policy).is_err(),
    ensures
        run_tally(outcomes, upto, policy) == run_tally(outcomes, failed_at, policy),
    decreases upto - failed_at,
{
    if failed_at < upto {
        lemma_failure_stays(outcomes, failed_at, (upto - 1) as nat, policy);
    }
}

} // verus!
