//! The stability report: what two runs of sync in a row did.

use vstd::prelude::*;
use crate::model::SourceRunReport;

verus! {

/// The options of the command `harness`.
#[derive(Clone, Debug)]
pub struct HarnessOptions {
    pub config_dir: String,
    pub state_path: String,
    pub out_dir: String,
}

/// What two runs of sync in a row did: the number of sources and the totals
/// of the first run, the totals of the second, and the events and calendar
/// files that there are in the end.
#[derive(Clone, Debug, PartialEq, Eq)]
pub struct HarnessReport {
    pub first_run_sources: usize,
    pub first_run_inserted: usize,
    pub first_run_updated: usize,
    pub first_run_cancelled: usize,
    pub second_run_inserted: usize,
    pub second_run_updated: usize,
    pub second_run_cancelled: usize,
    pub total_events: usize,
    pub ics_files: usize,
}

/// A count of a report.
#[derive(Clone, Copy, Debug, PartialEq, Eq, Structural)]
pub enum Count {
    Inserted,
    Updated,
    Cancelled,
}

/// The count of a report.
pub open spec fn count_of(report: SourceRunReport, which: Count) -> nat {
    match which {
        Count::Inserted => report.inserted as nat,
        Count::Updated => report.updated as nat,
        Count::Cancelled => report.cancelled as nat,
    }
}

/// The sum of a count over the reports of a run.
pub open spec fn total(reports: Seq<SourceRunReport>, which: Count) -> nat
    decreases reports.len(),
{
    if reports.len() == 0 {
        0
    } else {
        total(reports.drop_last(), which) + count_of(reports.last(), which)
    }
}

/// A total never gets smaller when reports are added.
pub proof fn lemma_total_grows(reports: Seq<SourceRunReport>, which: Count, upto: int)
    requires
        0 <= upto <= reports.len(),
    ensures
        total(reports.take(upto), which) <= total(reports, which),
    decreases reports.len() - upto,
{
    if upto < reports.len() {
        assert(reports.take(upto + 1).drop_last() =~= reports.take(upto));
        lemma_total_grows(reports, which, upto + 1);
    } else {
        assert(reports.take(upto) =~= reports);
    }
}

/// Adds up a count over the reports of a run; none where the sum is more
/// than can be counted.
pub fn sum_counts(reports: &Vec<SourceRunReport>, which: Count) -> (r: Option<usize>)
    ensures
        match r {
            Some(n) => n == total(reports@, which),
            None => total(reports@, which) > usize::MAX,
        },
{
    let mut sum: usize = 0;
    let mut i: usize = 0;
    assert(reports@.take(0) =~= Seq::<SourceRunReport>::empty());
    while i < reports.len()
        invariant
            i <= reports.len(),
            sum == total(reports@.take(i as int), which),
        decreases reports.len() - i,
    {
        let count = match which {
            Count::Inserted => reports[i].inserted,
            Count::Updated => reports[i].updated,
            Count::Cancelled => reports[i].cancelled,
        };
        proof {
            assert(reports@.take(i + 1).drop_last() =~= reports@.take(i as int));
            assert(reports@.take(i + 1).last() == reports@[i as int]);
            lemma_total_grows(reports@, which, i + 1);
        }
        match sum.checked_add(count) {
            Some(s) => {
                sum = s;
            },
            None => {
                return None;
            },
        }
        i += 1;
    }
    assert(reports@.take(i as int) =~= reports@);
    Some(sum)
}

/// Whether every total of the two runs can be counted.
pub open spec fn countable(first: Seq<SourceRunReport>, second: Seq<SourceRunReport>) -> bool {
    &&& total(first, Count::Inserted) <= usize::MAX
    &&& total(first, Count::Updated) <= usize::MAX
    &&& total(first, Count::Cancelled) <= usize::MAX
    &&& total(second, Count::Inserted) <= usize::MAX
    &&& total(second, Count::Updated) <= usize::MAX
    &&& total(second, Count::Cancelled) <= usize::MAX
}

/// Makes the stability report from the reports of two runs in a row, the
/// number of events in the state after them, and the number of calendar
/// files in the output directory. There is none where a total is more than
/// can be counted.
pub fn harness_report(
    first: &Vec<SourceRunReport>,
    second: &Vec<SourceRunReport>,
    total_events: usize,
    ics_files: usize,
) -> (r: Option<HarnessReport>)
    ensures
        r is Some <==> countable(first@, second@),
        match r {
            Some(report) => {
                &&& report.first_run_sources == first.len()
                &&& report.first_run_inserted == total(first@, Count::Inserted)
                &&& report.first_run_updated == total(first@, Count::Updated)
                &&& report.first_run_cancelled == total(first@, Count::Cancelled)
                &&& report.second_run_inserted == total(second@, Count::Inserted)
                &&& report.second_run_updated == total(second@, Count::Updated)
                &&& report.second_run_cancelled == total(second@, Count::Cancelled)
                &&& report.total_events == total_events
                &&& report.ics_files == ics_files
            },
            None => true,
        },
{
    let first_run_inserted = match sum_counts(first, Count::Inserted) {
        Some(n) => n,
        None => {
            return None;
        },
    };
    let first_run_updated = match sum_counts(first, Count::Updated) {
        Some(n) => n,
        None => {
            return None;
        },
    };
    let first_run_cancelled = match sum_counts(first, Count::Cancelled) {
        Some(n) => n,
        None => {
            return None;
        },
    };
    let second_run_inserted = match sum_counts(second, Count::Inserted) {
        Some(n) => n,
        None => {
            return None;
        },
    };
    let second_run_updated = match sum_counts(second, Count::Updated) {
        Some(n) => n,
        None => {
            return None;
        },
    };
    let second_run_cancelled = match sum_counts(second, Count::Cancelled) {
        Some(n) => n,
        None => {
            return None;
        },
    };
    Some(
        HarnessReport {
            first_run_sources: first.len(),
            first_run_inserted,
            first_run_updated,
            first_run_cancelled,
            second_run_inserted,
            second_run_updated,
            second_run_cancelled,
            total_events,
            ics_files,
        },
    )
}

} // verus!
