//! Tests of the transfer engine's progress accounting and of the
//! bounded-concurrency scheduler.

use fastdl::errors::DownloadError;
use fastdl::scheduler::{Outcome, Scheduler, TaskOutcome};
use fastdl::transfer::{ProgressSink, Transfer};

struct RecordingSink {
    totals: Vec<u64>,
    positions: Vec<u64>,
    finished: u32,
    failed: u32,
}

impl RecordingSink {
    fn new() -> RecordingSink {
        RecordingSink { totals: Vec::new(), positions: Vec::new(), finished: 0, failed: 0 }
    }
}

impl ProgressSink for RecordingSink {
    fn set_total(&mut self, total: u64) {
        self.totals.push(total);
    }

    fn advance(&mut self, position: u64) {
        self.positions.push(position);
    }

    fn finish(&mut self) {
        self.finished += 1;
    }

    fn fail(&mut self) {
        self.failed += 1;
    }
}

#[test]
fn transfer_chunks_sum_to_content_length() {
    let mut sink = RecordingSink::new();
    let mut t = Transfer::begin(10, &mut sink);
    t.on_chunk(3, &mut sink);
    t.on_chunk(5, &mut sink);
    t.on_chunk(2, &mut sink);
    let written = t.complete(&mut sink);
    assert_eq!(written, 10);
    assert_eq!(sink.totals, vec![10]);
    assert_eq!(sink.positions, vec![3, 8, 10]);
    assert_eq!(sink.finished, 1);
    assert_eq!(sink.failed, 0);
}

#[test]
fn transfer_unknown_total_still_accumulates() {
    let mut sink = RecordingSink::new();
    let mut t = Transfer::begin(0, &mut sink);
    t.on_chunk(4, &mut sink);
    t.on_chunk(4, &mut sink);
    let written = t.complete(&mut sink);
    assert_eq!(written, 8);
    assert_eq!(sink.totals, vec![0]);
    assert_eq!(sink.positions, vec![4, 8]);
}

#[test]
fn transfer_abort_reports_failure() {
    let mut sink = RecordingSink::new();
    let mut t = Transfer::begin(5, &mut sink);
    t.on_chunk(2, &mut sink);
    let written = t.abort(&mut sink);
    assert_eq!(written, 2);
    assert_eq!(sink.finished, 0);
    assert_eq!(sink.failed, 1);
}

fn urls3() -> Vec<Vec<u8>> {
    vec![
        b"https://pages.example/one".to_vec(),
        b"https://pages.example/two".to_vec(),
        b"https://pages.example/three".to_vec(),
    ]
}

#[test]
fn scheduler_three_tasks_limit_one_run_one_at_a_time() {
    let mut s = Scheduler::new(urls3(), 1);

    // Task 0: full pipeline, succeeds.
    assert!(s.can_start(0));
    s.start_task(0);
    // The single slot is held: no other task may start.
    assert!(!s.can_start(1));
    assert!(!s.can_start(2));
    assert_eq!(s.next_startable(), None);
    s.finish_extraction(0, Ok(b"https://fuckingfast.co/dl/one".to_vec()));
    assert!(!s.can_start(1));
    let link = s.begin_download(0);
    assert_eq!(link, b"https://fuckingfast.co/dl/one".to_vec());
    assert!(!s.can_start(1));
    s.finish_download(0, Ok(()));

    // Task 1: extraction fails; the failure stays its own.
    assert_eq!(s.next_startable(), Some(1));
    s.start_task(1);
    assert!(!s.can_start(2));
    s.finish_extraction(1, Err(DownloadError::NoLinkFound));

    // Task 2: transfer fails mid-stream.
    assert!(s.can_start(2));
    s.start_task(2);
    s.finish_extraction(2, Ok(b"https://fuckingfast.co/dl/three".to_vec()));
    let _ = s.begin_download(2);
    s.finish_download(2, Err(DownloadError::ChunkReadError));

    // Every submitted URL yields exactly one outcome.
    assert!(s.all_done());
    let outcomes: Vec<TaskOutcome> = s.outcomes();
    assert_eq!(outcomes.len(), 3);
    assert_eq!(outcomes[0].url, b"https://pages.example/one".to_vec());
    assert!(matches!(outcomes[0].outcome, Outcome::Completed));
    assert_eq!(outcomes[1].url, b"https://pages.example/two".to_vec());
    assert!(matches!(
        outcomes[1].outcome,
        Outcome::Failed { error: DownloadError::NoLinkFound }
    ));
    assert_eq!(outcomes[2].url, b"https://pages.example/three".to_vec());
    assert!(matches!(
        outcomes[2].outcome,
        Outcome::Failed { error: DownloadError::ChunkReadError }
    ));
}

#[test]
fn scheduler_limit_two_gates_the_third_task() {
    let mut s = Scheduler::new(urls3(), 2);
    s.start_task(0);
    assert!(s.can_start(1));
    s.start_task(1);
    // Both slots held.
    assert!(!s.can_start(2));
    assert_eq!(s.next_startable(), None);
    // A failed pipeline frees its slot.
    s.finish_extraction(0, Err(DownloadError::FetchError));
    assert!(s.can_start(2));
    assert_eq!(s.next_startable(), Some(2));
}

#[test]
fn scheduler_not_done_while_a_task_waits() {
    let mut s = Scheduler::new(urls3(), 4);
    assert!(!s.all_done());
    s.start_task(0);
    s.finish_extraction(0, Err(DownloadError::MissingFilename));
    assert!(!s.all_done());
}

#[test]
fn scheduler_all_tasks_succeed_under_a_wide_limit() {
    let mut s = Scheduler::new(urls3(), 8);
    for i in 0..3 {
        assert!(s.can_start(i));
        s.start_task(i);
    }
    for i in 0..3 {
        s.finish_extraction(i, Ok(b"https://fuckingfast.co/dl/f".to_vec()));
        let _ = s.begin_download(i);
        s.finish_download(i, Ok(()));
    }
    assert!(s.all_done());
    let outcomes = s.outcomes();
    assert_eq!(outcomes.len(), 3);
    assert!(outcomes.iter().all(|o| matches!(o.outcome, Outcome::Completed)));
}
