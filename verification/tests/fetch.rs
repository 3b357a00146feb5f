use csv::StringRecord;
use snapdown::fetch::{first_step, next_step, DownloadOutcome, FailReason, JobStep};
use snapdown::progress::{summarize, SnapdownStatus};
use snapdown::resolver::resolve;

/// Runs one job against a directory held as a list of names, with the
/// network and the disk answering as told, and counts the fetches.
fn run_job(
    record: &StringRecord,
    files: &mut Vec<String>,
    fetched: bool,
    created: bool,
    written: bool,
    fetches: &mut usize,
) -> DownloadOutcome {
    let mut step = first_step(record);
    loop {
        let ok = match step {
            JobStep::CheckDestination => {
                let job = resolve(record).unwrap();
                !files.contains(&job.file_name)
            }
            JobStep::Fetch => {
                *fetches += 1;
                fetched
            }
            JobStep::CreateFile => {
                if created {
                    files.push(resolve(record).unwrap().file_name);
                }
                created
            }
            JobStep::WriteBody => written,
            JobStep::Finished(outcome) => return outcome,
        };
        step = next_step(step, ok);
    }
}

fn sample(i: usize) -> StringRecord {
    StringRecord::from(vec![
        format!("2026-01-13 01:55:{:02} UTC", i),
        "Image".to_string(),
        "Latitude, Longitude: 40.25548, -111.645325".to_string(),
        format!("https://example.invalid/{}", i),
    ])
}

#[test]
fn a_record_with_three_or_six_fields_is_malformed() {
    let malformed = JobStep::Finished(DownloadOutcome::Failed(FailReason::Malformed));
    assert_eq!(first_step(&StringRecord::from(vec!["a", "b", "c"])), malformed);
    assert_eq!(first_step(&StringRecord::from(vec!["a", "b", "c", "d", "e", "f"])), malformed);
    assert_eq!(first_step(&StringRecord::new()), malformed);
}

#[test]
fn a_malformed_record_never_reaches_the_network() {
    let mut files = Vec::new();
    let mut fetches = 0;
    for fields in [vec!["a", "b", "c"], vec!["a", "b", "c", "d", "e", "f"]] {
        let outcome =
            run_job(&StringRecord::from(fields), &mut files, true, true, true, &mut fetches);
        assert_eq!(outcome, DownloadOutcome::Failed(FailReason::Malformed));
    }
    assert_eq!(fetches, 0);
    assert!(files.is_empty());
}

#[test]
fn a_record_with_four_or_five_fields_starts_with_the_destination() {
    assert_eq!(first_step(&StringRecord::from(vec!["a", "b", "c", "d"])), JobStep::CheckDestination);
    assert_eq!(
        first_step(&StringRecord::from(vec!["a", "b", "c", "d", "e"])),
        JobStep::CheckDestination
    );
}

#[test]
fn the_steps_follow_one_another() {
    assert_eq!(next_step(JobStep::CheckDestination, true), JobStep::Fetch);
    assert_eq!(next_step(JobStep::Fetch, true), JobStep::CreateFile);
    assert_eq!(next_step(JobStep::CreateFile, true), JobStep::WriteBody);
    assert_eq!(
        next_step(JobStep::WriteBody, true),
        JobStep::Finished(DownloadOutcome::Success)
    );
}

#[test]
fn each_step_that_fails_ends_the_job_with_its_reason() {
    assert_eq!(
        next_step(JobStep::CheckDestination, false),
        JobStep::Finished(DownloadOutcome::Skipped)
    );
    assert_eq!(
        next_step(JobStep::Fetch, false),
        JobStep::Finished(DownloadOutcome::Failed(FailReason::Fetch))
    );
    assert_eq!(
        next_step(JobStep::CreateFile, false),
        JobStep::Finished(DownloadOutcome::Failed(FailReason::Create))
    );
    assert_eq!(
        next_step(JobStep::WriteBody, false),
        JobStep::Finished(DownloadOutcome::Failed(FailReason::Write))
    );
}

#[test]
fn a_finished_job_stays_finished() {
    for outcome in [
        DownloadOutcome::Success,
        DownloadOutcome::Skipped,
        DownloadOutcome::Failed(FailReason::Fetch),
    ] {
        assert_eq!(next_step(JobStep::Finished(outcome), true), JobStep::Finished(outcome));
        assert_eq!(next_step(JobStep::Finished(outcome), false), JobStep::Finished(outcome));
    }
}

#[test]
fn a_failed_fetch_makes_no_file() {
    let mut files = Vec::new();
    let mut fetches = 0;
    let outcome = run_job(&sample(0), &mut files, false, true, true, &mut fetches);
    assert_eq!(outcome, DownloadOutcome::Failed(FailReason::Fetch));
    assert_eq!(fetches, 1);
    assert!(files.is_empty());
}

#[test]
fn a_failed_write_leaves_the_file() {
    let mut files = Vec::new();
    let mut fetches = 0;
    let outcome = run_job(&sample(0), &mut files, true, true, false, &mut fetches);
    assert_eq!(outcome, DownloadOutcome::Failed(FailReason::Write));
    assert_eq!(files.len(), 1);
}

#[test]
fn a_second_run_skips_what_the_first_run_fetched() {
    let mut records: Vec<StringRecord> = (0..5).map(sample).collect();
    records.push(StringRecord::from(vec!["a", "b", "c"]));
    let mut files = Vec::new();

    let mut fetches = 0;
    let mut first_run = Vec::new();
    for (i, record) in records.iter().enumerate() {
        // The fetch of the third record fails in the first run.
        first_run.push(run_job(record, &mut files, i != 2, true, true, &mut fetches));
    }
    let first_status = summarize(&first_run);
    assert_eq!(
        first_status,
        SnapdownStatus { finished: true, error_count: 2, success_count: 4, skip_count: 0 }
    );
    assert_eq!(fetches, 5);

    let mut fetches = 0;
    let mut second_run = Vec::new();
    for record in records.iter() {
        second_run.push(run_job(record, &mut files, true, true, true, &mut fetches));
    }
    let second_status = summarize(&second_run);
    assert_eq!(
        second_status,
        SnapdownStatus { finished: true, error_count: 1, success_count: 1, skip_count: 4 }
    );
    for i in 0..records.len() {
        if first_run[i] == DownloadOutcome::Success {
            assert_eq!(second_run[i], DownloadOutcome::Skipped);
        }
    }
    // Only the record whose fetch had failed is fetched again.
    assert_eq!(fetches, 1);
}

#[test]
fn two_records_with_one_name_are_fetched_once() {
    let records = vec![sample(1), sample(1)];
    let mut files = Vec::new();
    let mut fetches = 0;
    let outcomes: Vec<DownloadOutcome> = records
        .iter()
        .map(|record| run_job(record, &mut files, true, true, true, &mut fetches))
        .collect();
    assert_eq!(outcomes, vec![DownloadOutcome::Success, DownloadOutcome::Skipped]);
    assert_eq!(fetches, 1);
}
