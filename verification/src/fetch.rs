//! The decisions of a download: which step a job takes next, how it ends,
//! and how the ends are counted.
//!
//! Nothing here touches the network or the disk. The caller carries out the
//! step that a job asks for and reports how it went; the job then names the
//! next step, or its outcome.

use vstd::prelude::*;
use crate::progress::{lemma_tally_total, tally};
use crate::record::record_fields;
use crate::resolver::{file_name, well_shaped};

verus! {

/// Why a download failed.
#[derive(Debug, Clone, Copy, PartialEq, Eq, Structural)]
pub enum FailReason {
    /// The record has fewer than four or more than five fields.
    Malformed,
    /// The fetch of the URL failed.
    Fetch,
    /// The destination file could not be created.
    Create,
    /// The body could not be written to the destination file.
    Write,
}

/// How a job ended.
#[derive(Debug, Clone, Copy, PartialEq, Eq, Structural)]
pub enum DownloadOutcome {
    /// The file was fetched and written.
    Success,
    /// The destination was there already; nothing was fetched.
    Skipped,
    /// The job failed, for the reason given.
    Failed(FailReason),
}

/// What a job asks its caller to do next.
#[derive(Debug, Clone, Copy, PartialEq, Eq, Structural)]
pub enum JobStep {
    /// Look whether the destination file is there. The answer is `true`
    /// where it is not, so that the job may go on.
    CheckDestination,
    /// Fetch the URL. The answer is whether a response came.
    Fetch,
    /// Create the destination file. The answer is whether that worked.
    CreateFile,
    /// Write the body of the response to the file. The answer is whether
    /// that worked.
    WriteBody,
    /// Nothing: the job has ended.
    Finished(DownloadOutcome),
}

/// The first step of the job for a record with these fields. A record of
/// the wrong shape ends at once, as malformed.
pub open spec fn first(fields: Seq<Seq<char>>) -> JobStep {
    if well_shaped(fields) {
        JobStep::CheckDestination
    } else {
        JobStep::Finished(DownloadOutcome::Failed(FailReason::Malformed))
    }
}

/// The step after `step`, where `ok` is the answer to `step`.
pub open spec fn next(step: JobStep, ok: bool) -> JobStep {
    match step {
        JobStep::CheckDestination => if ok {
            JobStep::Fetch
        } else {
            JobStep::Finished(DownloadOutcome::Skipped)
        },
        JobStep::Fetch => if ok {
            JobStep::CreateFile
        } else {
            JobStep::Finished(DownloadOutcome::Failed(FailReason::Fetch))
        },
        JobStep::CreateFile => if ok {
            JobStep::WriteBody
        } else {
            JobStep::Finished(DownloadOutcome::Failed(FailReason::Create))
        },
        JobStep::WriteBody => if ok {
            JobStep::Finished(DownloadOutcome::Success)
        } else {
            JobStep::Finished(DownloadOutcome::Failed(FailReason::Write))
        },
        JobStep::Finished(outcome) => JobStep::Finished(outcome),
    }
}

/// The first step of the job for `record`.
pub fn first_step(record: &csv::StringRecord) -> (step: JobStep)
    ensures
        step == first(record_fields(*record)),
{
    let row_len = record.len();
    if row_len < 4 || row_len > 5 {
        JobStep::Finished(DownloadOutcome::Failed(FailReason::Malformed))
    } else {
        JobStep::CheckDestination
    }
}

/// The step after `step`, where `ok` tells how `step` went.
pub fn next_step(step: JobStep, ok: bool) -> (following: JobStep)
    ensures
        following == next(step, ok),
{
    match step {
        JobStep::CheckDestination => if ok {
            JobStep::Fetch
        } else {
            JobStep::Finished(DownloadOutcome::Skipped)
        },
        JobStep::Fetch => if ok {
            JobStep::CreateFile
        } else {
            JobStep::Finished(DownloadOutcome::Failed(FailReason::Fetch))
        },
        JobStep::CreateFile => if ok {
            JobStep::WriteBody
        } else {
            JobStep::Finished(DownloadOutcome::Failed(FailReason::Create))
        },
        JobStep::WriteBody => if ok {
            JobStep::Finished(DownloadOutcome::Success)
        } else {
            JobStep::Finished(DownloadOutcome::Failed(FailReason::Write))
        },
        JobStep::Finished(outcome) => JobStep::Finished(outcome),
    }
}

/// How the network and the disk answer one job: whether the fetch brings a
/// response, whether the file can be created, whether the body can be
/// written.
pub struct Replies {
    pub fetched: bool,
    pub created: bool,
    pub written: bool,
}

/// The answer to `step`, for a job whose destination is there or not as
/// `exists` says.
pub open spec fn answer(step: JobStep, exists: bool, replies: Replies) -> bool {
    match step {
        JobStep::CheckDestination => !exists,
        JobStep::Fetch => replies.fetched,
        JobStep::CreateFile => replies.created,
        JobStep::WriteBody => replies.written,
        JobStep::Finished(_) => true,
    }
}

/// The number of steps that can still follow `step`.
pub open spec fn steps_left(step: JobStep) -> nat {
    match step {
        JobStep::CheckDestination => 4,
        JobStep::Fetch => 3,
        JobStep::CreateFile => 2,
        JobStep::WriteBody => 1,
        JobStep::Finished(_) => 0,
    }
}

/// The outcome that a job at `step` comes to.
pub open spec fn settle(step: JobStep, exists: bool, replies: Replies) -> DownloadOutcome
    decreases steps_left(step),
{
    match step {
        JobStep::Finished(outcome) => outcome,
        _ => settle(next(step, answer(step, exists, replies)), exists, replies),
    }
}

/// Whether a job at `step` is at `through` now or comes to it later.
pub open spec fn passes(step: JobStep, exists: bool, replies: Replies, through: JobStep) -> bool
    decreases steps_left(step),
{
    step == through || match step {
        JobStep::Finished(_) => false,
        _ => passes(next(step, answer(step, exists, replies)), exists, replies, through),
    }
}

/// The outcome of the job for a record with these fields, run while the
/// destination directory holds `files`.
pub open spec fn job_outcome(
    fields: Seq<Seq<char>>,
    files: Set<Seq<char>>,
    replies: Replies,
) -> DownloadOutcome {
    settle(first(fields), files.contains(file_name(fields)), replies)
}

/// Whether the job for a record with these fields asks for a fetch.
pub open spec fn job_fetches(
    fields: Seq<Seq<char>>,
    files: Set<Seq<char>>,
    replies: Replies,
) -> bool {
    passes(first(fields), files.contains(file_name(fields)), replies, JobStep::Fetch)
}

/// The files in the destination directory after the job: the job's own
/// file is new where the job came to write to it. No job removes a file.
pub open spec fn files_after(
    fields: Seq<Seq<char>>,
    files: Set<Seq<char>>,
    replies: Replies,
) -> Set<Seq<char>> {
    if passes(first(fields), files.contains(file_name(fields)), replies, JobStep::WriteBody) {
        files.insert(file_name(fields))
    } else {
        files
    }
}

/// A record with fewer than four or more than five fields is malformed,
/// and its job never asks for a fetch, whatever the directory holds and
/// however the network would answer.
pub proof fn lemma_malformed_never_fetches(
    fields: Seq<Seq<char>>,
    files: Set<Seq<char>>,
    replies: Replies,
)
    requires
        !well_shaped(fields),
    ensures
        job_outcome(fields, files, replies) == DownloadOutcome::Failed(FailReason::Malformed),
        !job_fetches(fields, files, replies),
        files_after(fields, files, replies) == files,
{
    reveal_with_fuel(settle, 2);
    reveal_with_fuel(passes, 2);
}

/// A job whose destination is there already is skipped: it asks for no
/// fetch and leaves the directory as it is.
pub proof fn lemma_existing_is_skipped(
    fields: Seq<Seq<char>>,
    files: Set<Seq<char>>,
    replies: Replies,
)
    requires
        well_shaped(fields),
        files.contains(file_name(fields)),
    ensures
        job_outcome(fields, files, replies) == DownloadOutcome::Skipped,
        !job_fetches(fields, files, replies),
        files_after(fields, files, replies) == files,
{
    reveal_with_fuel(settle, 3);
    reveal_with_fuel(passes, 3);
}

/// The outcome of a job, case by case: malformed for a record of the wrong
/// shape; skipped where the destination is there; else the first step that
/// fails gives the reason, and a job without a failing step succeeds.
pub proof fn lemma_job_outcome(fields: Seq<Seq<char>>, files: Set<Seq<char>>, replies: Replies)
    ensures
        job_outcome(fields, files, replies) == if !well_shaped(fields) {
            DownloadOutcome::Failed(FailReason::Malformed)
        } else if files.contains(file_name(fields)) {
            DownloadOutcome::Skipped
        } else if !replies.fetched {
            DownloadOutcome::Failed(FailReason::Fetch)
        } else if !replies.created {
            DownloadOutcome::Failed(FailReason::Create)
        } else if !replies.written {
            DownloadOutcome::Failed(FailReason::Write)
        } else {
            DownloadOutcome::Success
        },
        job_fetches(fields, files, replies) <==> well_shaped(fields) && !files.contains(
            file_name(fields),
        ),
        files_after(fields, files, replies) == if well_shaped(fields) && replies.fetched
            && replies.created {
            files.insert(file_name(fields))
        } else {
            files
        },
{
    reveal_with_fuel(settle, 6);
    reveal_with_fuel(passes, 6);
    if well_shaped(fields) && files.contains(file_name(fields)) {
        assert(files.insert(file_name(fields)) =~= files);
    }
}

/// A job that succeeded, or was skipped, is skipped when it is run again,
/// so long as no file was removed in between: it is not fetched a second
/// time.
pub proof fn lemma_second_run_skips(
    fields: Seq<Seq<char>>,
    files: Set<Seq<char>>,
    replies: Replies,
    later_files: Set<Seq<char>>,
    later_replies: Replies,
)
    requires
        job_outcome(fields, files, replies) == DownloadOutcome::Success || job_outcome(
            fields,
            files,
            replies,
        ) == DownloadOutcome::Skipped,
        files_after(fields, files, replies).subset_of(later_files),
    ensures
        job_outcome(fields, later_files, later_replies) == DownloadOutcome::Skipped,
        !job_fetches(fields, later_files, later_replies),
{
    lemma_job_outcome(fields, files, replies);
    lemma_job_outcome(fields, later_files, later_replies);
    assert(files_after(fields, files, replies).contains(file_name(fields)));
}

/// The files in the destination directory before job `k` of a run that
/// starts with `files` and takes the records one after the other.
pub open spec fn files_before(
    records: Seq<Seq<Seq<char>>>,
    files: Set<Seq<char>>,
    replies: Seq<Replies>,
    k: nat,
) -> Set<Seq<char>>
    decreases k,
{
    if k == 0 {
        files
    } else {
        files_after(
            records[k - 1],
            files_before(records, files, replies, (k - 1) as nat),
            replies[k - 1],
        )
    }
}

/// The outcomes of a run over `records`, one for each record.
pub open spec fn run_outcomes(
    records: Seq<Seq<Seq<char>>>,
    files: Set<Seq<char>>,
    replies: Seq<Replies>,
) -> Seq<DownloadOutcome> {
    Seq::new(
        records.len(),
        |k: int| job_outcome(records[k], files_before(records, files, replies, k as nat), replies[k]),
    )
}

/// The files in the destination directory after the run.
pub open spec fn run_files(
    records: Seq<Seq<Seq<char>>>,
    files: Set<Seq<char>>,
    replies: Seq<Replies>,
) -> Set<Seq<char>> {
    files_before(records, files, replies, records.len())
}

/// A run removes no file: what is in the directory before one job is there
/// before every later one.
pub proof fn lemma_files_grow(
    records: Seq<Seq<Seq<char>>>,
    files: Set<Seq<char>>,
    replies: Seq<Replies>,
    earlier: nat,
    later: nat,
)
    requires
        earlier <= later,
    ensures
        files_before(records, files, replies, earlier).subset_of(
            files_before(records, files, replies, later),
        ),
    decreases later - earlier,
{
    if earlier < later {
        lemma_files_grow(records, files, replies, earlier, (later - 1) as nat);
    }
}

/// Running the same records a second time on the directory that the first
/// run left: every job that succeeded or was skipped in the first run is
/// skipped in the second, whatever the network would answer, and is not
/// fetched again.
pub proof fn lemma_rerun_skips(
    records: Seq<Seq<Seq<char>>>,
    files: Set<Seq<char>>,
    first_replies: Seq<Replies>,
    second_replies: Seq<Replies>,
    k: int,
)
    requires
        0 <= k < records.len(),
        run_outcomes(records, files, first_replies)[k] == DownloadOutcome::Success
            || run_outcomes(records, files, first_replies)[k] == DownloadOutcome::Skipped,
    ensures
        run_outcomes(records, run_files(records, files, first_replies), second_replies)[k]
            == DownloadOutcome::Skipped,
        !job_fetches(
            records[k],
            files_before(
                records,
                run_files(records, files, first_replies),
                second_replies,
                k as nat,
            ),
            second_replies[k],
        ),
{
    let left = run_files(records, files, first_replies);
    let seen_first = files_before(records, files, first_replies, k as nat);
    let seen_second = files_before(records, left, second_replies, k as nat);
    assert(files_before(records, files, first_replies, (k + 1) as nat) == files_after(
        records[k],
        seen_first,
        first_replies[k],
    ));
    lemma_files_grow(records, files, first_replies, (k + 1) as nat, records.len());
    lemma_files_grow(records, left, second_replies, 0, k as nat);
    lemma_second_run_skips(records[k], seen_first, first_replies[k], seen_second, second_replies[k]);
}

/// The second run skips at least as many jobs as the first run fetched or
/// skipped, and whatever it fetches or fails on had failed in the first.
pub proof fn lemma_rerun_counts(
    records: Seq<Seq<Seq<char>>>,
    files: Set<Seq<char>>,
    first_replies: Seq<Replies>,
    second_replies: Seq<Replies>,
)
    ensures
        ({
            let first_run = tally(run_outcomes(records, files, first_replies));
            let second_run = tally(
                run_outcomes(records, run_files(records, files, first_replies), second_replies),
            );
            &&& second_run.skip >= first_run.success + first_run.skip
            &&& second_run.success + second_run.error <= first_run.error
        }),
{
    let first_run = run_outcomes(records, files, first_replies);
    let second_run = run_outcomes(
        records,
        run_files(records, files, first_replies),
        second_replies,
    );
    assert forall|k: int|
        0 <= k < records.len() && (first_run[k] == DownloadOutcome::Success || first_run[k]
            == DownloadOutcome::Skipped) implies second_run[k] == DownloadOutcome::Skipped by {
        lemma_rerun_skips(records, files, first_replies, second_replies, k);
    }
    lemma_skips_dominate(first_run, second_run, records.len());
    assert(first_run.take(records.len() as int) =~= first_run);
    assert(second_run.take(records.len() as int) =~= second_run);
    lemma_tally_total(first_run);
    lemma_tally_total(second_run);
}

/// Where each job that ended well in one list of outcomes is skipped in
/// another, the other list has at least as many skips as the first has
/// jobs that ended well, over every prefix.
proof fn lemma_skips_dominate(
    first_run: Seq<DownloadOutcome>,
    second_run: Seq<DownloadOutcome>,
    upto: nat,
)
    requires
        upto <= first_run.len() == second_run.len(),
        forall|k: int|
            0 <= k < first_run.len() && (first_run[k] == DownloadOutcome::Success || first_run[k]
                == DownloadOutcome::Skipped) ==> second_run[k] == DownloadOutcome::Skipped,
    ensures
        tally(second_run.take(upto as int)).skip >= tally(first_run.take(upto as int)).success
            + tally(first_run.take(upto as int)).skip,
    decreases upto,
{
    if upto > 0 {
        lemma_skips_dominate(first_run, second_run, (upto - 1) as nat);
        assert(first_run.take(upto as int).drop_last() =~= first_run.take(upto - 1));
        assert(second_run.take(upto as int).drop_last() =~= second_run.take(upto - 1));
    }
}

} // verus!
