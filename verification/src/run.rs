//! The course of an ingestion run as a state machine. The machine decides;
//! whoever drives it reads the archive, writes the store and talks to the
//! workers, and tells the machine what came of it.

use crate::config::{CheckpointConfig, Config, SelectionConfig};
use crate::db::CheckpointState;
use crate::pipeline::RunMetrics;
use vstd::prelude::*;

verus! {

/// The entries that a run scans: those from `start` up to, not including,
/// `end`.
#[derive(Debug, Clone, Copy, PartialEq, Eq, Structural)]
pub struct ScanWindow {
    pub start: u32,
    pub end: u32,
    /// Whether the run takes up where a checkpoint left off.
    pub resumed: bool,
}

/// `a + 1`, held at the greatest number.
pub open spec fn next_after(a: u32) -> u32 {
    if a < u32::MAX {
        (a + 1) as u32
    } else {
        a
    }
}

/// The lesser of two numbers.
pub open spec fn lesser(a: int, b: int) -> int {
    if a < b {
        a
    } else {
        b
    }
}

/// Where a run starts when it does not resume: at the configured index,
/// or at the end of the archive if that comes first.
pub open spec fn configured_start(selection: &SelectionConfig, total: u32) -> u32 {
    lesser(selection.start_index as int, total as int) as u32
}

/// Whether a run takes up where the checkpoint left off: resuming is on,
/// there is a checkpoint, and the entry after it comes after the
/// configured start index.
pub open spec fn resumes(
    selection: &SelectionConfig,
    checkpoint_config: &CheckpointConfig,
    checkpoint: Option<CheckpointState>,
) -> bool {
    checkpoint_config.enabled && checkpoint_config.resume && match checkpoint {
        Some(saved) => next_after(saved.last_processed_index) > selection.start_index,
        None => false,
    }
}

/// The entries that a run scans. It starts at the configured index, or
/// right after the checkpoint where it resumes, and never past the end of
/// the archive; it takes the configured number of entries, or as many as
/// follow the configured start, and never more than the archive has.
pub open spec fn scan_window(
    selection: &SelectionConfig,
    checkpoint_config: &CheckpointConfig,
    total: u32,
    checkpoint: Option<CheckpointState>,
) -> ScanWindow {
    let configured = configured_start(selection, total);
    let count = match selection.max_entries {
        Some(count) => count as int,
        None => total - configured,
    };
    let resumed = resumes(selection, checkpoint_config, checkpoint);
    let start = if resumed {
        lesser(next_after(checkpoint->0.last_processed_index) as int, total as int)
    } else {
        configured as int
    };
    ScanWindow { start: start as u32, end: lesser(start + count, total as int) as u32, resumed }
}

/// The entries that a run scans.
pub fn plan_window(
    selection: &SelectionConfig,
    checkpoint_config: &CheckpointConfig,
    total: u32,
    checkpoint: Option<CheckpointState>,
) -> (window: ScanWindow)
    ensures
        window == scan_window(selection, checkpoint_config, total, checkpoint),
        window.start <= window.end <= total,
{
    let configured: u32 = if selection.start_index < total {
        selection.start_index
    } else {
        total
    };
    let count: u32 = match selection.max_entries {
        Some(count) => count,
        None => total - configured,
    };
    let mut start: u32 = configured;
    let mut resumed = false;
    if checkpoint_config.enabled && checkpoint_config.resume {
        match checkpoint {
            Some(saved) => {
                let after: u32 = if saved.last_processed_index < u32::MAX {
                    saved.last_processed_index + 1
                } else {
                    saved.last_processed_index
                };
                if after > selection.start_index {
                    start = if after < total {
                        after
                    } else {
                        total
                    };
                    resumed = true;
                }
            },
            None => {},
        }
    }
    let reach: u64 = start as u64 + count as u64;
    let end: u32 = if reach < total as u64 {
        reach as u32
    } else {
        total
    };
    ScanWindow { start, end, resumed }
}

/// With a checkpoint and resuming on, a run starts at the later of the
/// configured start and the entry after the checkpoint, held back only by
/// the end of the archive: where it scans anything, the first entry it
/// scans comes after the checkpoint's. It counts as resumed exactly where
/// the entry after the checkpoint comes after the configured start.
pub proof fn lemma_resume_starts_after_checkpoint(
    selection: &SelectionConfig,
    checkpoint_config: &CheckpointConfig,
    total: u32,
    saved: CheckpointState,
)
    requires
        checkpoint_config.enabled,
        checkpoint_config.resume,
    ensures
        ({
            let window = scan_window(selection, checkpoint_config, total, Some(saved));
            &&& window.start <= window.end <= total
            &&& window.start < window.end ==> window.start > saved.last_processed_index
            &&& window.start >= lesser(saved.last_processed_index + 1, total as int)
            &&& saved.last_processed_index + 1 > selection.start_index && saved.last_processed_index
                + 1 <= total ==> window.resumed && window.start == saved.last_processed_index + 1
            &&& saved.last_processed_index + 1 <= selection.start_index ==> !window.resumed
                && window.start == lesser(selection.start_index as int, total as int)
            &&& window.start == lesser(
                if selection.start_index > saved.last_processed_index + 1 {
                    selection.start_index as int
                } else {
                    saved.last_processed_index + 1
                },
                total as int,
            )
        }),
{
}

/// The phases of a run, in their order.
#[derive(Debug, Clone, Copy, PartialEq, Eq, Structural)]
pub enum Phase {
    Init,
    Scanning,
    Draining,
    Finalizing,
    Done,
}

/// The place of a phase in the order of phases.
pub open spec fn phase_rank(phase: Phase) -> nat {
    match phase {
        Phase::Init => 0,
        Phase::Scanning => 1,
        Phase::Draining => 2,
        Phase::Finalizing => 3,
        Phase::Done => 4,
    }
}

/// What the driver of a run tells the machine.
#[derive(Debug, Clone, Copy, PartialEq, Eq, Structural)]
pub enum Event {
    /// The archive and the store are open: the time, the number of entries
    /// of the archive, and the checkpoint found in the store.
    Opened { now_ms: u128, total_articles: u32, checkpoint: Option<CheckpointState> },
    /// The driver is ready for the next entry.
    NextEntry,
    /// The entry could not be decoded.
    EntryUnreadable,
    /// The entry was left out.
    EntryFiltered,
    /// The entry has no content and is no marker.
    TargetMissing,
    /// The content of the entry could not be read.
    PayloadUnreadable,
    /// The HTML of the entry was handed to the workers.
    JobDispatched,
    /// A worker handed back a result.
    ResultReceived,
    /// A worker reported that it could not extract.
    ExtractionFailed,
    /// A page was written, with this many definitions and relations.
    PagePersisted { definitions: u64, relations: u64 },
    /// A page could not be written.
    PersistFailed,
    /// Nothing more is to be done for the entry.
    EntryDone,
    /// The driver is ready to wait for the workers.
    Drain,
    /// The workers hand back no more results.
    ResultsClosed,
    /// The workers have ended and the last batch is committed: the time.
    Finished { now_ms: u128 },
}

/// What the machine tells the driver to do next.
#[derive(Debug, Clone, Copy, PartialEq, Eq, Structural)]
pub enum Action {
    /// Start this many workers behind queues of this capacity; with one
    /// thread, start none and extract in place.
    StartWorkers { threads: usize, queue_capacity: usize },
    /// Read the entry at this index.
    Scan(u32),
    /// The window is exhausted: tell each worker to stop.
    StopWorkers,
    /// Go on.
    Continue,
    /// Undo what was written of the page that could not be written, so
    /// that what the store held for its URL is as it was; then go on.
    RollbackPage,
    /// Commit the open transaction and open a new one.
    CommitBatch,
    /// Save this checkpoint, if any, between two transactions, and report
    /// progress if asked to.
    WrapUp { checkpoint: Option<CheckpointState>, progress: bool },
    /// Wait for one result of the workers.
    AwaitResult,
    /// Wait for the workers to end, then commit.
    JoinWorkers,
    /// Save this checkpoint, if any; record the run; bring the search
    /// index up to date if asked to; warn if no page was ingested.
    Finalize { checkpoint: Option<CheckpointState>, reindex: bool, empty_run: bool },
    /// The event has no place in this phase; nothing changed.
    Rejected,
}

/// A run: its phase, its place in the window, the jobs that are with the
/// workers, and what it has counted.
#[derive(Debug, Clone)]
pub struct Run {
    pub phase: Phase,
    pub next_index: u32,
    pub end_index: u32,
    /// The last entry that was scanned, by this run or by the run whose
    /// checkpoint it resumed; none before any was.
    pub checkpoint_last_idx: Option<u32>,
    pub inflight_jobs: u64,
    pub metrics: RunMetrics,
}

/// `count + by`, held at the greatest number.
pub open spec fn counted(count: u64, by: u64) -> u64 {
    if count + by <= u64::MAX {
        (count + by) as u64
    } else {
        u64::MAX
    }
}

/// `count + by`, held at the greatest number.
pub fn count_up(count: u64, by: u64) -> (r: u64)
    ensures
        r == counted(count, by),
{
    if by <= u64::MAX - count {
        count + by
    } else {
        u64::MAX
    }
}

/// The number of threads that extract: the configured number, one at
/// least.
pub open spec fn thread_count(config: &Config) -> usize {
    if config.workers.extraction_threads < 1 {
        1
    } else {
        config.workers.extraction_threads
    }
}

/// The capacity of the queues between the run and its workers: the
/// configured capacity, 32 at least.
pub open spec fn queue_size(config: &Config) -> usize {
    if config.workers.queue_capacity < 32 {
        32
    } else {
        config.workers.queue_capacity
    }
}

/// The number of pages written in one transaction: the configured
/// number, one at least.
pub open spec fn batch_size(config: &Config) -> u64 {
    if config.sqlite.batch_size < 1 {
        1
    } else {
        config.sqlite.batch_size as u64
    }
}

/// The number of entries between two reports of progress: the configured
/// number, one at least.
pub open spec fn progress_interval(config: &Config) -> u64 {
    if config.logging.progress_interval < 1 {
        1
    } else {
        config.logging.progress_interval
    }
}

/// Whether a checkpoint is due after `scanned` entries.
pub open spec fn checkpoint_due(scanned: u64, config: &Config) -> bool {
    config.checkpoint.enabled && config.checkpoint.every_n_entries > 0 && scanned
        % config.checkpoint.every_n_entries == 0
}

/// The checkpoint of a run at this moment; none before an entry was
/// scanned or a checkpoint resumed. A checkpoint says how far the
/// run has scanned, not that every page up to there is stored: the pages
/// of entries that are still with the workers are not. A driver that wants
/// every checkpoint to stand for stored pages waits for those results
/// before it ends the entry.
pub open spec fn snapshot(run: Run) -> Option<CheckpointState> {
    match run.checkpoint_last_idx {
        Some(last) => Some(
            CheckpointState {
                last_processed_index: last,
                ingested_pages: run.metrics.ingested_pages,
                extracted_definitions: run.metrics.extracted_definitions,
                extracted_relations: run.metrics.extracted_relations,
            },
        ),
        None => None,
    }
}

/// The run with one more error counted.
pub open spec fn with_error(run: Run) -> Run {
    Run {
        metrics: RunMetrics {
            extraction_errors: counted(run.metrics.extraction_errors, 1),
            ..run.metrics
        },
        ..run
    }
}

/// The run after it was opened.
pub open spec fn opened_run(
    run: Run,
    now_ms: u128,
    total: u32,
    checkpoint: Option<CheckpointState>,
    config: &Config,
) -> Run {
    let window = scan_window(&config.selection, &config.checkpoint, total, checkpoint);
    Run {
        phase: Phase::Scanning,
        next_index: window.start,
        end_index: window.end,
        checkpoint_last_idx: if window.resumed {
            match checkpoint {
                Some(saved) => Some(saved.last_processed_index),
                None => None,
            }
        } else {
            None
        },
        inflight_jobs: 0,
        metrics: RunMetrics {
            started_unix_ms: now_ms,
            resumed_from_checkpoint: window.resumed,
            checkpoint_start_index: if window.resumed {
                Some(window.start)
            } else {
                None
            },
            ..run.metrics
        },
    }
}

/// The run after one more entry was taken up.
pub open spec fn advanced(run: Run) -> Run {
    Run {
        next_index: (run.next_index + 1) as u32,
        checkpoint_last_idx: Some(run.next_index),
        metrics: RunMetrics {
            scanned_entries: counted(run.metrics.scanned_entries, 1),
            ..run.metrics
        },
        ..run
    }
}

/// The run after a page was written.
pub open spec fn with_page(run: Run, definitions: u64, relations: u64) -> Run {
    Run {
        metrics: RunMetrics {
            ingested_pages: counted(run.metrics.ingested_pages, 1),
            extracted_definitions: counted(run.metrics.extracted_definitions, definitions),
            extracted_relations: counted(run.metrics.extracted_relations, relations),
            ..run.metrics
        },
        ..run
    }
}

/// The run after it handed out the given checkpoint, if any.
pub open spec fn with_checkpoint(run: Run, handed_out: Option<CheckpointState>) -> Run {
    if handed_out is Some {
        Run {
            metrics: RunMetrics {
                checkpoint_updates: counted(run.metrics.checkpoint_updates, 1),
                ..run.metrics
            },
            ..run
        }
    } else {
        run
    }
}

/// The checkpoint that is due after an entry, if one is.
pub open spec fn due_checkpoint(run: Run, config: &Config) -> Option<CheckpointState> {
    if checkpoint_due(run.metrics.scanned_entries, config) {
        snapshot(run)
    } else {
        None
    }
}

/// The checkpoint that is saved at the end of a run, if one is.
pub open spec fn final_checkpoint(run: Run, config: &Config) -> Option<CheckpointState> {
    if config.checkpoint.enabled {
        snapshot(run)
    } else {
        None
    }
}

/// What an event makes of a run while it scans or drains: errors,
/// filtered entries, jobs with the workers and pages written are counted;
/// a page that fills a batch asks for a commit, and a page that could not
/// be written for its writes to be undone.
pub open spec fn counting_step(run: Run, event: Event, config: &Config) -> Option<(Run, Action)> {
    match event {
        Event::EntryUnreadable | Event::TargetMissing | Event::PayloadUnreadable
        | Event::ExtractionFailed => Some((with_error(run), Action::Continue)),
        Event::PersistFailed => Some((with_error(run), Action::RollbackPage)),
        Event::EntryFiltered => Some(
            (
                Run {
                    metrics: RunMetrics {
                        filtered_entries: counted(run.metrics.filtered_entries, 1),
                        ..run.metrics
                    },
                    ..run
                },
                Action::Continue,
            ),
        ),
        Event::JobDispatched => Some(
            (Run { inflight_jobs: counted(run.inflight_jobs, 1), ..run }, Action::Continue),
        ),
        Event::ResultReceived => Some(
            (
                Run {
                    inflight_jobs: if run.inflight_jobs > 0 {
                        (run.inflight_jobs - 1) as u64
                    } else {
                        0
                    },
                    ..run
                },
                Action::Continue,
            ),
        ),
        Event::PagePersisted { definitions, relations } => Some(
            (
                with_page(run, definitions, relations),
                if with_page(run, definitions, relations).metrics.ingested_pages % batch_size(
                    config,
                ) == 0 {
                    Action::CommitBatch
                } else {
                    Action::Continue
                },
            ),
        ),
        _ => None,
    }
}

/// What an event makes of a run: the run after it, and what the driver is
/// to do next. An event that has no place in the phase of the run changes
/// nothing and is rejected.
pub open spec fn step_of(run: Run, event: Event, config: &Config) -> (Run, Action) {
    match run.phase {
        Phase::Init => match event {
            Event::Opened { now_ms, total_articles, checkpoint } => (
                opened_run(run, now_ms, total_articles, checkpoint, config),
                Action::StartWorkers {
                    threads: thread_count(config),
                    queue_capacity: queue_size(config),
                },
            ),
            _ => (run, Action::Rejected),
        },
        Phase::Scanning => match event {
            Event::NextEntry => if run.next_index < run.end_index {
                (advanced(run), Action::Scan(run.next_index))
            } else {
                (Run { phase: Phase::Draining, ..run }, Action::StopWorkers)
            },
            Event::EntryDone => (
                with_checkpoint(run, due_checkpoint(run, config)),
                Action::WrapUp {
                    checkpoint: due_checkpoint(run, config),
                    progress: run.metrics.scanned_entries % progress_interval(config) == 0,
                },
            ),
            _ => match counting_step(run, event, config) {
                Some(next) => next,
                None => (run, Action::Rejected),
            },
        },
        Phase::Draining => match event {
            Event::Drain => if run.inflight_jobs > 0 {
                (run, Action::AwaitResult)
            } else {
                (Run { phase: Phase::Finalizing, ..run }, Action::JoinWorkers)
            },
            Event::ResultsClosed => (Run { phase: Phase::Finalizing, ..run }, Action::JoinWorkers),
            Event::ResultReceived | Event::ExtractionFailed | Event::PersistFailed
            | Event::PagePersisted { .. } => match counting_step(run, event, config) {
                Some(next) => next,
                None => (run, Action::Rejected),
            },
            _ => (run, Action::Rejected),
        },
        Phase::Finalizing => match event {
            Event::Finished { now_ms } => (
                Run {
                    phase: Phase::Done,
                    metrics: RunMetrics {
                        finished_unix_ms: now_ms,
                        ..with_checkpoint(run, final_checkpoint(run, config)).metrics
                    },
                    ..run
                },
                Action::Finalize {
                    checkpoint: final_checkpoint(run, config),
                    reindex: config.reindex.auto_incremental,
                    empty_run: run.metrics.ingested_pages == 0,
                },
            ),
            _ => (run, Action::Rejected),
        },
        Phase::Done => (run, Action::Rejected),
    }
}

impl Run {
    /// A run that has not been opened yet.
    pub fn new() -> (run: Run)
        ensures
            run.phase == Phase::Init,
            run.next_index == 0,
            run.end_index == 0,
            run.checkpoint_last_idx is None,
            run.inflight_jobs == 0,
            run.metrics == RunMetrics::default_value(),
    {
        Run {
            phase: Phase::Init,
            next_index: 0,
            end_index: 0,
            checkpoint_last_idx: None,
            inflight_jobs: 0,
            metrics: RunMetrics::default(),
        }
    }

    /// The checkpoint of the run at this moment; none before an entry was
    /// scanned or a checkpoint resumed.
    pub fn checkpoint_now(&self) -> (state: Option<CheckpointState>)
        ensures
            state == snapshot(*self),
    {
        match self.checkpoint_last_idx {
            Some(last) => Some(
                CheckpointState {
                    last_processed_index: last,
                    ingested_pages: self.metrics.ingested_pages,
                    extracted_definitions: self.metrics.extracted_definitions,
                    extracted_relations: self.metrics.extracted_relations,
                },
            ),
            None => None,
        }
    }

    fn count(&mut self, event: Event, config: &Config) -> (action: Action)
        requires
            counting_step(*old(self), event, config) is Some,
        ensures
            Some((*final(self), action)) == counting_step(*old(self), event, config),
    {
        match event {
            Event::EntryFiltered => {
                self.metrics.filtered_entries = count_up(self.metrics.filtered_entries, 1);
                Action::Continue
            },
            Event::JobDispatched => {
                self.inflight_jobs = count_up(self.inflight_jobs, 1);
                Action::Continue
            },
            Event::ResultReceived => {
                if self.inflight_jobs > 0 {
                    self.inflight_jobs = self.inflight_jobs - 1;
                }
                Action::Continue
            },
            Event::PagePersisted { definitions, relations } => {
                self.metrics.ingested_pages = count_up(self.metrics.ingested_pages, 1);
                self.metrics.extracted_definitions = count_up(
                    self.metrics.extracted_definitions,
                    definitions,
                );
                self.metrics.extracted_relations = count_up(
                    self.metrics.extracted_relations,
                    relations,
                );
                let batch: u64 = if config.sqlite.batch_size < 1 {
                    1
                } else {
                    config.sqlite.batch_size as u64
                };
                if self.metrics.ingested_pages % batch == 0 {
                    Action::CommitBatch
                } else {
                    Action::Continue
                }
            },
            Event::PersistFailed => {
                self.metrics.extraction_errors = count_up(self.metrics.extraction_errors, 1);
                Action::RollbackPage
            },
            _ => {
                self.metrics.extraction_errors = count_up(self.metrics.extraction_errors, 1);
                Action::Continue
            },
        }
    }

    /// Takes one event: the run moves on, and the driver is told what to
    /// do next.
    pub fn step(&mut self, event: Event, config: &Config) -> (action: Action)
        ensures
            (*final(self), action) == step_of(*old(self), event, config),
    {
        match self.phase {
            Phase::Init => match event {
                Event::Opened { now_ms, total_articles, checkpoint } => {
                    let window = plan_window(
                        &config.selection,
                        &config.checkpoint,
                        total_articles,
                        checkpoint,
                    );
                    self.phase = Phase::Scanning;
                    self.next_index = window.start;
                    self.end_index = window.end;
                    self.checkpoint_last_idx = if window.resumed {
                        match checkpoint {
                            Some(saved) => Some(saved.last_processed_index),
                            None => None,
                        }
                    } else {
                        None
                    };
                    self.inflight_jobs = 0;
                    self.metrics.started_unix_ms = now_ms;
                    self.metrics.resumed_from_checkpoint = window.resumed;
                    self.metrics.checkpoint_start_index = if window.resumed {
                        Some(window.start)
                    } else {
                        None
                    };
                    Action::StartWorkers {
                        threads: if config.workers.extraction_threads < 1 {
                            1
                        } else {
                            config.workers.extraction_threads
                        },
                        queue_capacity: if config.workers.queue_capacity < 32 {
                            32
                        } else {
                            config.workers.queue_capacity
                        },
                    }
                },
                _ => Action::Rejected,
            },
            Phase::Scanning => match event {
                Event::NextEntry => {
                    if self.next_index < self.end_index {
                        let index = self.next_index;
                        self.next_index = index + 1;
                        self.checkpoint_last_idx = Some(index);
                        self.metrics.scanned_entries = count_up(self.metrics.scanned_entries, 1);
                        Action::Scan(index)
                    } else {
                        self.phase = Phase::Draining;
                        Action::StopWorkers
                    }
                },
                Event::EntryDone => {
                    let scanned = self.metrics.scanned_entries;
                    let interval: u64 = if config.logging.progress_interval < 1 {
                        1
                    } else {
                        config.logging.progress_interval
                    };
                    let progress = scanned % interval == 0;
                    let due = config.checkpoint.enabled && config.checkpoint.every_n_entries > 0
                        && scanned % config.checkpoint.every_n_entries == 0;
                    let checkpoint = if due {
                        self.checkpoint_now()
                    } else {
                        None
                    };
                    if checkpoint.is_some() {
                        self.metrics.checkpoint_updates = count_up(
                            self.metrics.checkpoint_updates,
                            1,
                        );
                    }
                    Action::WrapUp { checkpoint, progress }
                },
                Event::EntryUnreadable | Event::TargetMissing | Event::PayloadUnreadable
                | Event::ExtractionFailed | Event::PersistFailed | Event::EntryFiltered
                | Event::JobDispatched | Event::ResultReceived | Event::PagePersisted { .. } => {
                    self.count(event, config)
                },
                _ => Action::Rejected,
            },
            Phase::Draining => match event {
                Event::Drain => {
                    if self.inflight_jobs > 0 {
                        Action::AwaitResult
                    } else {
                        self.phase = Phase::Finalizing;
                        Action::JoinWorkers
                    }
                },
                Event::ResultsClosed => {
                    self.phase = Phase::Finalizing;
                    Action::JoinWorkers
                },
                Event::ResultReceived | Event::ExtractionFailed | Event::PersistFailed
                | Event::PagePersisted { .. } => self.count(event, config),
                _ => Action::Rejected,
            },
            Phase::Finalizing => match event {
                Event::Finished { now_ms } => {
                    let checkpoint = if config.checkpoint.enabled {
                        self.checkpoint_now()
                    } else {
                        None
                    };
                    let empty_run = self.metrics.ingested_pages == 0;
                    self.phase = Phase::Done;
                    self.metrics.finished_unix_ms = now_ms;
                    if checkpoint.is_some() {
                        self.metrics.checkpoint_updates = count_up(
                            self.metrics.checkpoint_updates,
                            1,
                        );
                    }
                    Action::Finalize {
                        checkpoint,
                        reindex: config.reindex.auto_incremental,
                        empty_run,
                    }
                },
                _ => Action::Rejected,
            },
            Phase::Done => Action::Rejected,
        }
    }
}

/// A run never goes back to an earlier phase, and an event that is
/// rejected changes nothing.
pub proof fn lemma_phases_in_order(run: Run, event: Event, config: &Config)
    ensures
        phase_rank(step_of(run, event, config).0.phase) >= phase_rank(run.phase),
        phase_rank(step_of(run, event, config).0.phase) <= phase_rank(run.phase) + 1,
        step_of(run, event, config).1 == Action::Rejected ==> step_of(run, event, config).0 == run,
{
}

/// While it scans, a run hands out the entries of its window one by one,
/// in their order, and none outside it.
pub proof fn lemma_scan_in_order(run: Run, config: &Config)
    requires
        run.phase == Phase::Scanning,
        run.next_index <= run.end_index,
    ensures
        ({
            let (next, action) = step_of(run, Event::NextEntry, config);
            &&& next.next_index <= next.end_index
            &&& next.end_index == run.end_index
            &&& run.next_index < run.end_index ==> action == Action::Scan(run.next_index)
                && next.next_index == run.next_index + 1 && next.checkpoint_last_idx
                == Some(run.next_index) && next.phase == Phase::Scanning
            &&& run.next_index == run.end_index ==> action == Action::StopWorkers && next.phase
                == Phase::Draining
        }),
{
}


/// A run that has scanned no entry and resumed no checkpoint hands out no
/// checkpoint: no entry is claimed that was not scanned.
pub proof fn lemma_no_checkpoint_before_a_scan(run: Run, event: Event, config: &Config)
    requires
        run.checkpoint_last_idx is None,
    ensures
        match step_of(run, event, config).1 {
            Action::WrapUp { checkpoint, .. } => checkpoint is None,
            Action::Finalize { checkpoint, .. } => checkpoint is None,
            _ => true,
        },
        step_of(run, event, config).0.checkpoint_last_idx is Some ==> (event == Event::NextEntry
            && step_of(run, event, config).1 == Action::Scan(run.next_index)) || (
        event is Opened && step_of(run, event, config).0.metrics.resumed_from_checkpoint),
{
}

} // verus!
