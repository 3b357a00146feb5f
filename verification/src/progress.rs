//! Counting how the jobs of a run ended.

use vstd::prelude::*;
use crate::fetch::DownloadOutcome;

verus! {

/// How many jobs succeeded, failed and were skipped.
pub struct Counts {
    pub success: nat,
    pub error: nat,
    pub skip: nat,
}

/// `counts` with one more job, which ended as `outcome` says.
pub open spec fn counted(counts: Counts, outcome: DownloadOutcome) -> Counts {
    match outcome {
        DownloadOutcome::Success => Counts { success: counts.success + 1, ..counts },
        DownloadOutcome::Skipped => Counts { skip: counts.skip + 1, ..counts },
        DownloadOutcome::Failed(_) => Counts { error: counts.error + 1, ..counts },
    }
}

/// The counts of a list of outcomes.
pub open spec fn tally(outcomes: Seq<DownloadOutcome>) -> Counts
    decreases outcomes.len(),
{
    if outcomes.len() == 0 {
        Counts { success: 0, error: 0, skip: 0 }
    } else {
        counted(tally(outcomes.drop_last()), outcomes.last())
    }
}

/// Every job is counted once: the three counts add up to the number of
/// outcomes.
pub proof fn lemma_tally_total(outcomes: Seq<DownloadOutcome>)
    ensures
        tally(outcomes).success + tally(outcomes).error + tally(outcomes).skip == outcomes.len(),
    decreases outcomes.len(),
{
    if outcomes.len() > 0 {
        lemma_tally_total(outcomes.drop_last());
    }
}

/// Counting never takes anything back: with more outcomes, no count is
/// smaller.
pub proof fn lemma_tally_grows(outcomes: Seq<DownloadOutcome>, more: Seq<DownloadOutcome>)
    ensures
        tally(outcomes).success <= tally(outcomes + more).success,
        tally(outcomes).error <= tally(outcomes + more).error,
        tally(outcomes).skip <= tally(outcomes + more).skip,
    decreases more.len(),
{
    if more.len() == 0 {
        assert(outcomes + more =~= outcomes);
    } else {
        lemma_tally_grows(outcomes, more.drop_last());
        assert((outcomes + more).drop_last() =~= outcomes + more.drop_last());
    }
}

/// A snapshot of a run: the counts so far, and whether the run has ended.
#[derive(Debug, Clone, Copy, PartialEq, Eq, Structural)]
pub struct SnapdownStatus {
    pub finished: bool,
    pub error_count: usize,
    pub success_count: usize,
    pub skip_count: usize,
}

impl SnapdownStatus {
    /// The counts of the snapshot.
    pub open spec fn counts(&self) -> Counts {
        Counts {
            success: self.success_count as nat,
            error: self.error_count as nat,
            skip: self.skip_count as nat,
        }
    }

    /// Whether the count that `outcome` adds to can still grow.
    pub open spec fn has_room_for(&self, outcome: DownloadOutcome) -> bool {
        match outcome {
            DownloadOutcome::Success => self.success_count < usize::MAX,
            DownloadOutcome::Skipped => self.skip_count < usize::MAX,
            DownloadOutcome::Failed(_) => self.error_count < usize::MAX,
        }
    }

    /// The status of a run in which no job has ended yet.
    pub fn new() -> (status: SnapdownStatus)
        ensures
            !status.finished,
            status.counts() == tally(Seq::empty()),
    {
        SnapdownStatus { finished: false, error_count: 0, success_count: 0, skip_count: 0 }
    }

    /// Whether `record` may be called with `outcome`.
    pub fn can_record(&self, outcome: DownloadOutcome) -> (room: bool)
        ensures
            room == self.has_room_for(outcome),
    {
        match outcome {
            DownloadOutcome::Success => self.success_count < usize::MAX,
            DownloadOutcome::Skipped => self.skip_count < usize::MAX,
            DownloadOutcome::Failed(_) => self.error_count < usize::MAX,
        }
    }

    /// Counts one more job, which ended as `outcome` says: one count grows
    /// by one, the others stay.
    pub fn record(&mut self, outcome: DownloadOutcome)
        requires
            old(self).has_room_for(outcome),
        ensures
            final(self).counts() == counted(old(self).counts(), outcome),
            final(self).finished == old(self).finished,
    {
        match outcome {
            DownloadOutcome::Success => {
                self.success_count += 1;
            },
            DownloadOutcome::Skipped => {
                self.skip_count += 1;
            },
            DownloadOutcome::Failed(_) => {
                self.error_count += 1;
            },
        }
    }

    /// Marks the run as ended. The counts stay as they are.
    pub fn finish(&mut self)
        ensures
            final(self).finished,
            final(self).counts() == old(self).counts(),
    {
        self.finished = true;
    }
}

/// The status after the jobs of a run have ended as `outcomes` says, in
/// that order, and the run is marked as ended.
pub fn summarize(outcomes: &Vec<DownloadOutcome>) -> (status: SnapdownStatus)
    ensures
        status.finished,
        status.counts() == tally(outcomes@),
{
    let mut status = SnapdownStatus::new();
    let mut done: usize = 0;
    while done < outcomes.len()
        invariant
            done <= outcomes.len(),
            !status.finished,
            status.counts() == tally(outcomes@.take(done as int)),
        decreases outcomes.len() - done,
    {
        proof {
            lemma_tally_total(outcomes@.take(done as int));
            assert(outcomes@.take(done + 1).drop_last() =~= outcomes@.take(done as int));
        }
        status.record(outcomes[done]);
        done += 1;
    }
    assert(outcomes@.take(done as int) =~= outcomes@);
    status.finish();
    status
}

} // verus!
