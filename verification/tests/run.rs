use zimrs::config::Config;
use zimrs::db::CheckpointState;
use zimrs::run::{count_up, plan_window, Action, Event, Phase, Run, ScanWindow};

fn checkpoint(last: u32) -> Option<CheckpointState> {
    Some(CheckpointState {
        last_processed_index: last,
        ingested_pages: 5,
        extracted_definitions: 6,
        extracted_relations: 7,
    })
}

#[test]
fn window_without_checkpoint() {
    let mut config = Config::default();
    let window = plan_window(&config.selection, &config.checkpoint, 100, None);
    assert_eq!(window, ScanWindow { start: 0, end: 100, resumed: false });
    config.selection.start_index = 40;
    config.selection.max_entries = Some(25);
    let window = plan_window(&config.selection, &config.checkpoint, 100, None);
    assert_eq!(window, ScanWindow { start: 40, end: 65, resumed: false });
    config.selection.max_entries = Some(u32::MAX);
    let window = plan_window(&config.selection, &config.checkpoint, 100, None);
    assert_eq!(window, ScanWindow { start: 40, end: 100, resumed: false });
    config.selection.start_index = 400;
    let window = plan_window(&config.selection, &config.checkpoint, 100, None);
    assert_eq!(window, ScanWindow { start: 100, end: 100, resumed: false });
}

#[test]
fn resumed_run_starts_right_after_the_checkpoint() {
    let config = Config::default();
    for last in [0u32, 1, 41, 98] {
        let window = plan_window(&config.selection, &config.checkpoint, 100, checkpoint(last));
        assert_eq!(window, ScanWindow { start: last + 1, end: 100, resumed: true });
    }
    let window = plan_window(&config.selection, &config.checkpoint, 100, checkpoint(99));
    assert_eq!(window, ScanWindow { start: 100, end: 100, resumed: true });
    let window = plan_window(&config.selection, &config.checkpoint, 100, checkpoint(u32::MAX));
    assert_eq!(window, ScanWindow { start: 100, end: 100, resumed: true });
}

#[test]
fn resume_keeps_the_count_of_entries_after_the_configured_start() {
    let mut config = Config::default();
    config.selection.start_index = 10;
    let window = plan_window(&config.selection, &config.checkpoint, 100, checkpoint(49));
    // 90 entries follow the configured start; the window is cut at the end
    assert_eq!(window, ScanWindow { start: 50, end: 100, resumed: true });
    config.selection.max_entries = Some(20);
    let window = plan_window(&config.selection, &config.checkpoint, 100, checkpoint(49));
    assert_eq!(window, ScanWindow { start: 50, end: 70, resumed: true });
}

#[test]
fn checkpoint_is_ignored_when_not_resuming_or_behind_the_start() {
    let mut config = Config::default();
    config.selection.start_index = 60;
    let window = plan_window(&config.selection, &config.checkpoint, 100, checkpoint(41));
    assert_eq!(window, ScanWindow { start: 60, end: 100, resumed: false });
    let window = plan_window(&config.selection, &config.checkpoint, 100, checkpoint(59));
    assert_eq!(window, ScanWindow { start: 60, end: 100, resumed: false });
    config.selection.start_index = 0;
    config.checkpoint.resume = false;
    let window = plan_window(&config.selection, &config.checkpoint, 100, checkpoint(41));
    assert_eq!(window, ScanWindow { start: 0, end: 100, resumed: false });
    config.checkpoint.resume = true;
    config.checkpoint.enabled = false;
    let window = plan_window(&config.selection, &config.checkpoint, 100, checkpoint(41));
    assert_eq!(window, ScanWindow { start: 0, end: 100, resumed: false });
}

#[test]
fn counters_hold_at_the_greatest_number() {
    assert_eq!(count_up(1, 2), 3);
    assert_eq!(count_up(u64::MAX, 1), u64::MAX);
    assert_eq!(count_up(u64::MAX - 1, 5), u64::MAX);
    assert_eq!(count_up(0, u64::MAX), u64::MAX);
}

#[test]
fn a_run_goes_through_its_phases() {
    let mut config = Config::default();
    config.workers.extraction_threads = 4;
    config.workers.queue_capacity = 8;
    config.sqlite.batch_size = 2;
    config.checkpoint.every_n_entries = 2;
    config.logging.progress_interval = 3;
    let mut run = Run::new();
    assert_eq!(run.phase, Phase::Init);
    assert_eq!(run.step(Event::NextEntry, &config), Action::Rejected);

    let opened = Event::Opened { now_ms: 1_000, total_articles: 3, checkpoint: None };
    assert_eq!(
        run.step(opened, &config),
        Action::StartWorkers { threads: 4, queue_capacity: 32 }
    );
    assert_eq!(run.phase, Phase::Scanning);
    assert_eq!((run.next_index, run.end_index), (0, 3));
    assert_eq!(run.metrics.started_unix_ms, 1_000);
    assert!(!run.metrics.resumed_from_checkpoint);
    assert_eq!(run.step(opened, &config), Action::Rejected);

    // entry 0: filtered
    assert_eq!(run.step(Event::NextEntry, &config), Action::Scan(0));
    assert_eq!(run.step(Event::EntryFiltered, &config), Action::Continue);
    assert_eq!(
        run.step(Event::EntryDone, &config),
        Action::WrapUp { checkpoint: None, progress: false }
    );
    // entry 1: dispatched, and a page comes back
    assert_eq!(run.step(Event::NextEntry, &config), Action::Scan(1));
    assert_eq!(run.step(Event::JobDispatched, &config), Action::Continue);
    assert_eq!(run.inflight_jobs, 1);
    assert_eq!(run.step(Event::ResultReceived, &config), Action::Continue);
    assert_eq!(run.inflight_jobs, 0);
    assert_eq!(
        run.step(Event::PagePersisted { definitions: 3, relations: 2 }, &config),
        Action::Continue
    );
    let saved = CheckpointState {
        last_processed_index: 1,
        ingested_pages: 1,
        extracted_definitions: 3,
        extracted_relations: 2,
    };
    assert_eq!(
        run.step(Event::EntryDone, &config),
        Action::WrapUp { checkpoint: Some(saved), progress: false }
    );
    assert_eq!(run.metrics.checkpoint_updates, 1);
    // entry 2: unreadable, then a second page fills the batch
    assert_eq!(run.step(Event::NextEntry, &config), Action::Scan(2));
    assert_eq!(run.step(Event::EntryUnreadable, &config), Action::Continue);
    assert_eq!(run.step(Event::JobDispatched, &config), Action::Continue);
    assert_eq!(
        run.step(Event::EntryDone, &config),
        Action::WrapUp { checkpoint: None, progress: true }
    );
    // the window is exhausted
    assert_eq!(run.step(Event::NextEntry, &config), Action::StopWorkers);
    assert_eq!(run.phase, Phase::Draining);
    assert_eq!(run.step(Event::NextEntry, &config), Action::Rejected);
    assert_eq!(run.step(Event::EntryFiltered, &config), Action::Rejected);
    assert_eq!(run.step(Event::Drain, &config), Action::AwaitResult);
    assert_eq!(run.step(Event::ResultReceived, &config), Action::Continue);
    assert_eq!(
        run.step(Event::PagePersisted { definitions: 1, relations: 0 }, &config),
        Action::CommitBatch
    );
    assert_eq!(run.step(Event::Drain, &config), Action::JoinWorkers);
    assert_eq!(run.phase, Phase::Finalizing);
    assert_eq!(run.step(Event::Drain, &config), Action::Rejected);
    let last = CheckpointState {
        last_processed_index: 2,
        ingested_pages: 2,
        extracted_definitions: 4,
        extracted_relations: 2,
    };
    assert_eq!(
        run.step(Event::Finished { now_ms: 5_000 }, &config),
        Action::Finalize { checkpoint: Some(last), reindex: true, empty_run: false }
    );
    assert_eq!(run.phase, Phase::Done);
    assert_eq!(run.step(Event::Finished { now_ms: 6_000 }, &config), Action::Rejected);
    let metrics = run.metrics;
    assert_eq!(metrics.elapsed_ms(), 4_000);
    assert_eq!(metrics.scanned_entries, 3);
    assert_eq!(metrics.filtered_entries, 1);
    assert_eq!(metrics.ingested_pages, 2);
    assert_eq!(metrics.extracted_definitions, 4);
    assert_eq!(metrics.extracted_relations, 2);
    assert_eq!(metrics.extraction_errors, 1);
    assert_eq!(metrics.checkpoint_updates, 2);
}

#[test]
fn a_resumed_run_scans_from_after_the_checkpoint() {
    let config = Config::default();
    let mut run = Run::new();
    let opened = Event::Opened { now_ms: 1, total_articles: 10, checkpoint: checkpoint(6) };
    assert_eq!(run.step(opened, &config), Action::StartWorkers { threads: config.workers.extraction_threads, queue_capacity: 2_048 });
    assert!(run.metrics.resumed_from_checkpoint);
    assert_eq!(run.metrics.checkpoint_start_index, Some(7));
    assert_eq!(run.checkpoint_last_idx, Some(6));
    assert_eq!(run.step(Event::NextEntry, &config), Action::Scan(7));
    assert_eq!(run.step(Event::NextEntry, &config), Action::Scan(8));
    assert_eq!(run.step(Event::NextEntry, &config), Action::Scan(9));
    assert_eq!(run.step(Event::NextEntry, &config), Action::StopWorkers);
}

#[test]
fn an_empty_run_is_flagged_and_closed_results_end_the_drain() {
    let mut config = Config::default();
    config.checkpoint.enabled = false;
    config.reindex.auto_incremental = false;
    config.workers.extraction_threads = 0;
    let mut run = Run::new();
    let opened = Event::Opened { now_ms: 1, total_articles: 0, checkpoint: checkpoint(6) };
    assert_eq!(run.step(opened, &config), Action::StartWorkers { threads: 1, queue_capacity: 2_048 });
    assert_eq!(run.step(Event::NextEntry, &config), Action::StopWorkers);
    assert_eq!(run.step(Event::ResultsClosed, &config), Action::JoinWorkers);
    assert_eq!(
        run.step(Event::Finished { now_ms: 2 }, &config),
        Action::Finalize { checkpoint: None, reindex: false, empty_run: true }
    );
    assert_eq!(run.metrics.checkpoint_updates, 0);
}

#[test]
fn a_checkpoint_means_scanned_not_stored() {
    let mut config = Config::default();
    config.workers.extraction_threads = 2;
    config.checkpoint.every_n_entries = 1;
    let mut run = Run::new();
    run.step(Event::Opened { now_ms: 0, total_articles: 2, checkpoint: None }, &config);
    assert_eq!(run.step(Event::NextEntry, &config), Action::Scan(0));
    assert_eq!(run.step(Event::JobDispatched, &config), Action::Continue);
    // the page of entry 0 is still with a worker, and the checkpoint is
    // handed out all the same: it counts no page and names entry 0
    let saved = CheckpointState {
        last_processed_index: 0,
        ingested_pages: 0,
        extracted_definitions: 0,
        extracted_relations: 0,
    };
    assert_eq!(run.inflight_jobs, 1);
    assert_eq!(
        run.step(Event::EntryDone, &config),
        Action::WrapUp { checkpoint: Some(saved), progress: false }
    );
    // a driver that waits for the result first gets a checkpoint that
    // counts the page
    assert_eq!(run.step(Event::NextEntry, &config), Action::Scan(1));
    assert_eq!(run.step(Event::ResultReceived, &config), Action::Continue);
    run.step(Event::PagePersisted { definitions: 2, relations: 0 }, &config);
    assert_eq!(run.inflight_jobs, 0);
    let saved = CheckpointState {
        last_processed_index: 1,
        ingested_pages: 1,
        extracted_definitions: 2,
        extracted_relations: 0,
    };
    assert_eq!(
        run.step(Event::EntryDone, &config),
        Action::WrapUp { checkpoint: Some(saved), progress: false }
    );
}

#[test]
fn a_run_that_scans_nothing_claims_no_entry() {
    let mut config = Config::default();
    config.selection.max_entries = Some(0);
    let mut run = Run::new();
    assert_eq!(run.checkpoint_now(), None);
    run.step(Event::Opened { now_ms: 0, total_articles: 5, checkpoint: None }, &config);
    assert_eq!((run.next_index, run.end_index), (0, 0));
    assert_eq!(run.checkpoint_last_idx, None);
    assert_eq!(run.step(Event::NextEntry, &config), Action::StopWorkers);
    assert_eq!(run.step(Event::Drain, &config), Action::JoinWorkers);
    assert_eq!(
        run.step(Event::Finished { now_ms: 1 }, &config),
        Action::Finalize { checkpoint: None, reindex: true, empty_run: true }
    );
    assert_eq!(run.metrics.checkpoint_updates, 0);
    assert_eq!(run.metrics.scanned_entries, 0);
}

#[test]
fn a_configured_start_claims_no_entry_before_it() {
    let mut config = Config::default();
    config.selection.start_index = 3;
    config.checkpoint.every_n_entries = 1;
    let mut run = Run::new();
    run.step(Event::Opened { now_ms: 0, total_articles: 5, checkpoint: None }, &config);
    assert_eq!(run.checkpoint_last_idx, None);
    assert_eq!(run.step(Event::NextEntry, &config), Action::Scan(3));
    assert_eq!(run.checkpoint_last_idx, Some(3));
    match run.step(Event::EntryDone, &config) {
        Action::WrapUp { checkpoint: Some(saved), .. } => assert_eq!(saved.last_processed_index, 3),
        other => panic!("no checkpoint after a scanned entry: {other:?}"),
    }
}

#[test]
fn a_resumed_run_that_scans_nothing_keeps_the_stored_checkpoint() {
    let config = Config::default();
    let mut run = Run::new();
    run.step(Event::Opened { now_ms: 0, total_articles: 7, checkpoint: checkpoint(6) }, &config);
    assert_eq!((run.next_index, run.end_index), (7, 7));
    assert_eq!(run.checkpoint_last_idx, Some(6));
    run.step(Event::NextEntry, &config);
    run.step(Event::Drain, &config);
    match run.step(Event::Finished { now_ms: 1 }, &config) {
        Action::Finalize { checkpoint: Some(saved), .. } => {
            assert_eq!(saved.last_processed_index, 6)
        }
        other => panic!("the stored checkpoint is kept: {other:?}"),
    }
}

#[test]
fn a_page_that_could_not_be_written_is_undone() {
    let config = Config::default();
    let mut run = Run::new();
    run.step(Event::Opened { now_ms: 0, total_articles: 2, checkpoint: None }, &config);
    run.step(Event::NextEntry, &config);
    assert_eq!(run.step(Event::PersistFailed, &config), Action::RollbackPage);
    assert_eq!(run.metrics.extraction_errors, 1);
    assert_eq!(run.metrics.ingested_pages, 0);
    assert_eq!(run.phase, Phase::Scanning);
}

#[test]
fn a_checkpoint_before_the_configured_start_is_not_resumed() {
    let mut config = Config::default();
    config.selection.start_index = 10;
    // the archive is smaller than the configured start and the checkpoint
    let window = plan_window(&config.selection, &config.checkpoint, 5, checkpoint(7));
    assert_eq!(window, ScanWindow { start: 5, end: 5, resumed: false });
    let window = plan_window(&config.selection, &config.checkpoint, 5, checkpoint(9));
    assert_eq!(window, ScanWindow { start: 5, end: 5, resumed: false });
    // the entry after the checkpoint comes after the configured start
    let window = plan_window(&config.selection, &config.checkpoint, 5, checkpoint(10));
    assert_eq!(window, ScanWindow { start: 5, end: 5, resumed: true });
    let window = plan_window(&config.selection, &config.checkpoint, 50, checkpoint(10));
    assert_eq!(window, ScanWindow { start: 11, end: 50, resumed: true });
    let window = plan_window(&config.selection, &config.checkpoint, 50, checkpoint(9));
    assert_eq!(window, ScanWindow { start: 10, end: 50, resumed: false });

    let mut run = Run::new();
    run.step(Event::Opened { now_ms: 0, total_articles: 5, checkpoint: checkpoint(7) }, &config);
    assert!(!run.metrics.resumed_from_checkpoint);
    assert_eq!(run.metrics.checkpoint_start_index, None);
    assert_eq!(run.checkpoint_last_idx, None);
    assert_eq!(run.step(Event::NextEntry, &config), Action::StopWorkers);
}
