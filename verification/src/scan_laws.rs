use crate::archive::{is_source_member, EntryShape};
use crate::error::{reaction_to, FailurePolicy, Reaction};
use crate::scan::{archive_outcome, entry_outcomes, run_tally, OutcomeShape};
use vstd::multiset::{lemma_multiset_empty_len, Multiset};
use vstd::prelude::*;
use vstd::seq_lib::{
    lemma_multiset_commutative, to_multiset_contains, to_multiset_len, to_multiset_remove,
};

verus! {

/// Whether the content of the unit was read, whatever its scan gave.
pub open spec fn was_read(outcome: OutcomeShape) -> bool {
    outcome is Scanned || outcome is Rejected
}

/// How many of the first `upto` units were read.
pub open spec fn units_read(outcomes: Seq<OutcomeShape>, upto: nat) -> nat
    decreases upto,
{
    if upto == 0 || upto > outcomes.len() {
        0
    } else {
        units_read(outcomes, (upto - 1) as nat) + if was_read(outcomes[upto - 1]) {
            1nat
        } else {
            0nat
        }
    }
}

/// The progress count is the number of units read: a scan that came through
/// has counted each unit whose content was read exactly once, and nothing
/// else, however many lines the units emitted.
pub proof fn lemma_processed_counts_units_read(
    outcomes: Seq<OutcomeShape>,
    upto: nat,
    policy: FailurePolicy,
)
    requires
        upto <= outcomes.len(),
        run_tally(outcomes, upto, policy) is Ok,
    ensures
        run_tally(outcomes, upto, policy).unwrap().processed == units_read(outcomes, upto),
    decreases upto,
{
    if upto > 0 {
        lemma_processed_counts_units_read(outcomes, (upto - 1) as nat, policy);
    }
}

/// Whether the entry is a source file, no directory, whose content the
/// archive gives.
pub open spec fn is_readable_source(entry: EntryShape) -> bool {
    &&& entry.member is Some
    &&& is_source_member(entry.member.unwrap())
    &&& entry.content is Some
}

/// How many of the first `upto` entries are readable source members.
pub open spec fn readable_sources(entries: Seq<EntryShape>, upto: nat) -> nat
    decreases upto,
{
    if upto == 0 || upto > entries.len() {
        0
    } else {
        readable_sources(entries, (upto - 1) as nat) + if is_readable_source(entries[upto - 1]) {
            1nat
        } else {
            0nat
        }
    }
}

proof fn lemma_read_entries_are_readable_sources(entries: Seq<EntryShape>, upto: nat)
    requires
        upto <= entries.len(),
    ensures
        units_read(entry_outcomes(entries), upto) == readable_sources(entries, upto),
    decreases upto,
{
    if upto > 0 {
        lemma_read_entries_are_readable_sources(entries, (upto - 1) as nat);
    }
}

/// The progress count of an archive is the number of its readable source
/// members: a scan that came through has counted each member that is a
/// source file, is no directory and has content that the archive gives, and
/// no other entry, whatever the members emitted.
pub proof fn lemma_archive_counts_readable_sources(entries: Seq<EntryShape>, policy: FailurePolicy)
    requires
        archive_outcome(Some(entries), policy) is Ok,
    ensures
        archive_outcome(Some(entries), policy).unwrap().processed == readable_sources(
            entries,
            entries.len(),
        ),
{
    lemma_processed_counts_units_read(entry_outcomes(entries), entries.len(), policy);
    lemma_read_entries_are_readable_sources(entries, entries.len());
}

/// Under the policy that ends a scan at the first failure, a scan that came
/// through has no failed unit.
pub proof fn lemma_abort_policy_counts_no_failure(outcomes: Seq<OutcomeShape>, upto: nat)
    requires
        upto <= outcomes.len(),
        run_tally(outcomes, upto, FailurePolicy::AbortOnFirstError) is Ok,
    ensures
        run_tally(outcomes, upto, FailurePolicy::AbortOnFirstError).unwrap().failed == 0,
    decreases upto,
{
    if upto > 0 {
        lemma_abort_policy_counts_no_failure(outcomes, (upto - 1) as nat);
    }
}

/// What one outcome adds to the totals of a run.
struct UnitTotals {
    processed: nat,
    failed: nat,
    aborting: nat,
    lines: Multiset<Seq<u8>>,
}

spec fn contribution(outcome: OutcomeShape, policy: FailurePolicy) -> UnitTotals {
    let nothing = UnitTotals { processed: 0, failed: 0, aborting: 0, lines: Multiset::empty() };
    match outcome {
        OutcomeShape::Ignored => nothing,
        OutcomeShape::Scanned(lines) => UnitTotals {
            processed: 1,
            lines: lines.to_multiset(),
            ..nothing
        },
        OutcomeShape::Unread(error) => if reaction_to(policy, error) == Reaction::Abort {
            UnitTotals { aborting: 1, ..nothing }
        } else {
            UnitTotals { failed: 1, ..nothing }
        },
        OutcomeShape::Rejected(error) => if reaction_to(policy, error) == Reaction::Abort {
            UnitTotals { aborting: 1, ..nothing }
        } else {
            UnitTotals { processed: 1, failed: 1, ..nothing }
        },
    }
}

spec fn plus(left: UnitTotals, right: UnitTotals) -> UnitTotals {
    UnitTotals {
        processed: left.processed + right.processed,
        failed: left.failed + right.failed,
        aborting: left.aborting + right.aborting,
        lines: left.lines.add(right.lines),
    }
}

spec fn totals(outcomes: Seq<OutcomeShape>, policy: FailurePolicy) -> UnitTotals
    decreases outcomes.len(),
{
    if outcomes.len() == 0 {
        UnitTotals { processed: 0, failed: 0, aborting: 0, lines: Multiset::empty() }
    } else {
        plus(totals(outcomes.drop_last(), policy), contribution(outcomes.last(), policy))
    }
}

spec fn same_totals(left: UnitTotals, right: UnitTotals) -> bool {
    &&& left.processed == right.processed
    &&& left.failed == right.failed
    &&& left.aborting == right.aborting
    &&& left.lines =~= right.lines
}

proof fn lemma_totals_remove(outcomes: Seq<OutcomeShape>, at: int, policy: FailurePolicy)
    requires
        0 <= at < outcomes.len(),
    ensures
        same_totals(
            totals(outcomes, policy),
            plus(totals(outcomes.remove(at), policy), contribution(outcomes[at], policy)),
        ),
    decreases outcomes.len(),
{
    if at == outcomes.len() - 1 {
        assert(outcomes.remove(at) =~= outcomes.drop_last());
    } else {
        lemma_totals_remove(outcomes.drop_last(), at, policy);
        assert(outcomes.remove(at).drop_last() =~= outcomes.drop_last().remove(at));
        assert(outcomes.remove(at).last() == outcomes.last());
    }
}

proof fn lemma_totals_rearranged(
    first: Seq<OutcomeShape>,
    second: Seq<OutcomeShape>,
    policy: FailurePolicy,
)
    requires
        first.to_multiset() == second.to_multiset(),
    ensures
        same_totals(totals(first, policy), totals(second, policy)),
    decreases first.len(),
{
    to_multiset_len(first);
    to_multiset_len(second);
    if first.len() > 0 {
        let last = first.last();
        let at_first = first.len() - 1;
        to_multiset_contains(first, last);
        to_multiset_contains(second, last);
        assert(first[at_first] == last);
        assert(first.contains(last));
        let at = choose|at: int| 0 <= at < second.len() && second[at] == last;
        to_multiset_remove(first, at_first);
        to_multiset_remove(second, at);
        assert(first.remove(at_first) =~= first.drop_last());
        lemma_totals_rearranged(first.drop_last(), second.remove(at), policy);
        lemma_totals_remove(second, at, policy);
    }
}

proof fn lemma_run_gives_totals(outcomes: Seq<OutcomeShape>, upto: nat, policy: FailurePolicy)
    requires
        upto <= outcomes.len(),
    ensures
        run_tally(outcomes, upto, policy) is Ok <==> totals(
            outcomes.take(upto as int),
            policy,
        ).aborting == 0,
        run_tally(outcomes, upto, policy) is Ok ==> {
            let tally = run_tally(outcomes, upto, policy).unwrap();
            let sums = totals(outcomes.take(upto as int), policy);
            &&& tally.processed == sums.processed
            &&& tally.failed == sums.failed
            &&& tally.lines.to_multiset() =~= sums.lines
        },
    decreases upto,
{
    if upto == 0 {
        let nothing = Seq::<Seq<u8>>::empty();
        to_multiset_len(nothing);
        lemma_multiset_empty_len(nothing.to_multiset());
    } else {
        let shorter = (upto - 1) as nat;
        lemma_run_gives_totals(outcomes, shorter, policy);
        assert(outcomes.take(upto as int).drop_last() =~= outcomes.take(shorter as int));
        assert(outcomes.take(upto as int).last() == outcomes[upto - 1]);
        if let Ok(before) = run_tally(outcomes, shorter, policy) {
            if let OutcomeShape::Scanned(lines) = outcomes[upto - 1] {
                lemma_multiset_commutative(before.lines, lines);
            }
        }
    }
}

/// The order of the units is immaterial: two runs over the same units, taken
/// in any two orders, both come through or both fail; where they come
/// through they count alike and emit the same lines, each as often in one
/// run as in the other.
pub proof fn lemma_unit_order_is_immaterial(
    first: Seq<OutcomeShape>,
    second: Seq<OutcomeShape>,
    policy: FailurePolicy,
)
    requires
        first.to_multiset() == second.to_multiset(),
    ensures
        run_tally(first, first.len(), policy) is Ok <==> run_tally(
            second,
            second.len(),
            policy,
        ) is Ok,
        run_tally(first, first.len(), policy) is Ok ==> {
            let one = run_tally(first, first.len(), policy).unwrap();
            let other = run_tally(second, second.len(), policy).unwrap();
            &&& one.processed == other.processed
            &&& one.failed == other.failed
            &&& one.lines.to_multiset() == other.lines.to_multiset()
        },
{
    lemma_run_gives_totals(first, first.len(), policy);
    lemma_run_gives_totals(second, second.len(), policy);
    assert(first.take(first.len() as int) =~= first);
    assert(second.take(second.len() as int) =~= second);
    lemma_totals_rearranged(first, second, policy);
}

} // verus!
