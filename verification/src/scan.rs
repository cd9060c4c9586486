//! The traversal scheduler: the decisions of a progressive search, one turn
//! at a time. The caller runs the probes and the clock; the scheduler drains
//! the work queue, classifies what it peeks against the directory cache,
//! says which directories to probe, folds the outcomes of the probes back
//! into the cache, and saves its buffers at checkpoints.

use crate::cache::Cache;
use crate::cache::CacheError;
use crate::cache::DirectoryState;
use crate::cache::DirectoryStatus;
use crate::clock::is_session_id_shaped;
use crate::clock::random_session_id;
use crate::clock::unix_timestamp;
use crate::model::CacheState;
use crate::model::DirRow;
use crate::model::WorkRow;
use crate::model::has_session;
use crate::model::resume_target;
use crate::probe::OutcomeView;
use crate::probe::ProbeOutcome;
use crate::seqs::distinct;
use crate::seqs::lemma_filter_ends;
use crate::seqs::lemma_filter_step;
use crate::seqs::with_new;
use crate::stats::SearchStats;
use crate::stats::wrapping_add;
use crate::stats::wrapping_sum;
use crate::tables::dir_rows;
use crate::tables::work_rows;
use crate::text::add_new_texts;
use crate::text::holds_texts;
use crate::text::push_if_new;
use crate::text::text_set;
use crate::text::copy_opt_text;
use crate::text::copy_texts;
use crate::text::distinct_texts;
use crate::text::same_text;
use crate::text::texts;
use vstd::prelude::*;

verus! {

/// How many work items one turn peeks.
pub const WORK_BATCH_SIZE: usize = 50;

/// How many probes may run at once.
pub const TASK_BATCH_SIZE: usize = 100;

/// How long the buffers wait between two checkpoints, in milliseconds.
pub const FLUSH_INTERVAL_MS: u64 = 5000;

/// How long one probe may take, in seconds.
pub const PROBE_TIMEOUT_SECS: u64 = 30;

/// How long the driver sleeps when the queue is empty and probes still run,
/// in milliseconds.
pub const IDLE_SLEEP_MS: u64 = 100;

/// After how many idle turns in a row the probes that still run are reported.
pub const STUCK_REPORT_TURNS: usize = 10;

/// The subdirectories that one probe discovered, for its session.
#[derive(Debug)]
pub struct DiscoveredSubdirs {
    pub session_id: String,
    pub subdirs: Vec<String>,
}

/// The view of discovered subdirectories.
pub struct SubdirsView {
    pub session_id: Seq<char>,
    pub subdirs: Seq<Seq<char>>,
}

impl View for DiscoveredSubdirs {
    type V = SubdirsView;

    open spec fn view(&self) -> SubdirsView {
        SubdirsView { session_id: self.session_id@, subdirs: texts(self.subdirs@) }
    }
}

/// The views of the entries, in their order.
pub open spec fn subdirs_views(entries: Seq<DiscoveredSubdirs>) -> Seq<SubdirsView> {
    Seq::new(entries.len(), |i: int| entries[i]@)
}

/// What the scheduler holds between two turns.
#[verifier::ext_equal]
pub struct SearchView {
    pub session_id: Seq<char>,
    pub recursive: bool,
    pub dry_run: bool,
    pub stats: SearchStats,
    /// The matches found so far, those of a resumed session first.
    pub found_files: Seq<Seq<char>>,
    /// The states of probed directories that wait for the next checkpoint.
    pub completed_dirs: Seq<DirRow>,
    /// The directories that are being probed.
    pub processing: Seq<Seq<char>>,
    /// The subdirectories that probes discovered and that wait to be queued.
    pub discovered: Seq<SubdirsView>,
    /// The probes that were started and not yet reaped.
    pub spawned: usize,
    /// Of those, the probes that have reported.
    pub finished: usize,
    /// When the buffers were last saved, on the driver's clock.
    pub last_flush_ms: u64,
    /// Whether the last peek found the queue empty.
    pub peek_was_empty: bool,
    /// How many turns in a row found the queue empty with probes running.
    pub idle_turns: usize,
    /// How many directories were handed out for probing.
    pub total_processed: usize,
}

/// What a turn asks of the driver.
#[derive(Debug)]
pub enum NextBatch {
    /// The search was cancelled: abort the probes and interrupt the search.
    Cancelled,
    /// The queue is empty and no probe runs: finish the search.
    Finished,
    /// Probe these directories, then take a checkpoint.
    Probe(Vec<String>),
}

/// The view of a batch.
pub enum BatchView {
    Cancelled,
    Finished,
    Probe(Seq<Seq<char>>),
}

impl View for NextBatch {
    type V = BatchView;

    open spec fn view(&self) -> BatchView {
        match self {
            NextBatch::Cancelled => BatchView::Cancelled,
            NextBatch::Finished => BatchView::Finished,
            NextBatch::Probe(paths) => BatchView::Probe(texts(paths@)),
        }
    }
}

/// What a checkpoint asks of the driver.
#[derive(Debug, Clone, Copy, PartialEq, Eq, Structural)]
pub struct Checkpoint {
    /// The buffers were saved: flush the store's write-ahead log.
    pub flush_pending: bool,
    /// The queue was empty and probes still run: sleep before the next turn.
    pub sleep: bool,
    /// The search has been idle for this many seconds: report the probes
    /// that still run.
    pub stuck_seconds: Option<usize>,
}

/// What a search hands back when it ends.
#[derive(Debug)]
pub struct SearchResult {
    pub found: Vec<String>,
    pub stats: SearchStats,
}

// ---------------------------------------------------------------------------
// The turns, as functions on the scheduler's and the cache's state
// ---------------------------------------------------------------------------

/// A scheduler and a cache after a turn.
pub struct Turn {
    pub search: SearchView,
    pub cache: CacheState,
}

/// What classifying peeked items gives: the counters, the paths accepted for
/// probing, and the ids of all peeked items.
pub struct Sorted {
    pub stats: SearchStats,
    pub accepted: Seq<Seq<char>>,
    pub ids: Seq<i64>,
}

/// Classify one item: a fresh directory is skipped, an incomplete one is
/// resumed, any other is new. Its id is collected whatever it is.
pub open spec fn classify_item(cache: CacheState, now: i64, so_far: Sorted, item: WorkRow) -> Sorted {
    let ids = match item.id {
        Some(id) => so_far.ids.push(id),
        None => so_far.ids,
    };
    match cache.status_of(item.path, now) {
        DirectoryStatus::Fresh => Sorted { stats: so_far.stats.plus_skipped(1), ids, ..so_far },
        DirectoryStatus::Incomplete => Sorted {
            stats: so_far.stats.plus_resumed(),
            accepted: so_far.accepted.push(item.path),
            ids,
        },
        _ => Sorted { stats: so_far.stats.plus_new(), accepted: so_far.accepted.push(item.path), ids },
    }
}

/// Classify the peeked items in order.
pub open spec fn classify(cache: CacheState, now: i64, stats: SearchStats, items: Seq<WorkRow>) -> Sorted
    decreases items.len(),
{
    if items.len() == 0 {
        Sorted { stats, accepted: Seq::empty(), ids: Seq::empty() }
    } else {
        classify_item(cache, now, classify(cache, now, stats, items.drop_last()), items.last())
    }
}

/// What enlisting accepted paths gives: the paths being probed, and the
/// paths to probe now.
pub struct Enlisted {
    pub processing: Seq<Seq<char>>,
    pub kept: Seq<Seq<char>>,
}

/// Enlist the accepted paths in order: a path that is being probed already is
/// passed over.
pub open spec fn enlist(processing: Seq<Seq<char>>, accepted: Seq<Seq<char>>) -> Enlisted
    decreases accepted.len(),
{
    if accepted.len() == 0 {
        Enlisted { processing, kept: Seq::empty() }
    } else {
        let before = enlist(processing, accepted.drop_last());
        let path = accepted.last();
        if before.processing.contains(path) {
            before
        } else {
            Enlisted { processing: before.processing.push(path), kept: before.kept.push(path) }
        }
    }
}

/// A scheduler, a cache and the batch after `next_batch`.
pub struct Planned {
    pub search: SearchView,
    pub cache: CacheState,
    pub batch: BatchView,
}

/// One turn up to the probes: unless cancelled, peek a batch; with nothing
/// peeked and nothing running the search is finished; else classify what was
/// peeked, remove all of it from the queue, enlist what was accepted, and,
/// unless this is a dry run, enter the enlisted directories in the cache.
pub open spec fn planned(s: SearchView, c: CacheState, cancelled: bool, now: i64) -> Planned {
    if cancelled {
        Planned { search: s, cache: c, batch: BatchView::Cancelled }
    } else {
        let items = c.peek_work_batch(s.session_id, WORK_BATCH_SIZE as nat);
        if items.len() == 0 && s.spawned == 0 {
            Planned {
                search: SearchView { peek_was_empty: true, ..s },
                cache: c,
                batch: BatchView::Finished,
            }
        } else {
            let sorted = classify(c, now, s.stats, items);
            let removed = if sorted.ids.len() > 0 {
                c.remove_work_items(sorted.ids)
            } else {
                c
            };
            let enlisted = enlist(s.processing, sorted.accepted);
            Planned {
                search: SearchView {
                    stats: sorted.stats,
                    processing: enlisted.processing,
                    peek_was_empty: items.len() == 0,
                    total_processed: wrapping_sum(s.total_processed, enlisted.kept.len() as usize),
                    ..s
                },
                cache: if s.dry_run {
                    removed
                } else {
                    removed.mark_searching_batch(enlisted.kept, now)
                },
                batch: BatchView::Probe(enlisted.kept),
            }
        }
    }
}

/// Paths other than `path`.
pub open spec fn other_than(path: Seq<char>) -> spec_fn(Seq<char>) -> bool {
    |p: Seq<char>| p != path
}

/// The scheduler after a probe has reported: its state and its
/// subdirectories join the buffers; so do its matches, each unless the
/// search holds it already, and each that joins is counted; and its
/// directory is no longer being probed. A report that no running probe can
/// have made is passed over.
pub open spec fn reported(s: SearchView, outcome: OutcomeView) -> SearchView {
    if s.finished >= s.spawned {
        s
    } else {
        let found = with_new(s.found_files, outcome.matches);
        SearchView {
            found_files: found,
            stats: (if outcome.failed {
                s.stats.plus_error()
            } else {
                s.stats
            }).plus_found((found.len() - s.found_files.len()) as usize),
            discovered: if outcome.subdirs.len() > 0 {
                s.discovered.push(
                    SubdirsView { session_id: outcome.session_id, subdirs: outcome.subdirs },
                )
            } else {
                s.discovered
            },
            completed_dirs: s.completed_dirs.push(outcome.state),
            processing: s.processing.filter(other_than(outcome.state.path)),
            finished: (s.finished + 1) as usize,
            ..s
        }
    }
}

/// The scheduler after a probe has ended without a report: its directory is
/// no longer being probed, and nothing else is known of it.
pub open spec fn dropped(s: SearchView, path: Seq<char>) -> SearchView {
    if s.finished >= s.spawned {
        s
    } else {
        SearchView {
            processing: s.processing.filter(other_than(path)),
            finished: (s.finished + 1) as usize,
            ..s
        }
    }
}

/// The scheduler after a probe has run out of time: one more error, and its
/// directory is no longer being probed. No state is recorded, so the
/// directory stays incomplete in the cache.
pub open spec fn timed_out(s: SearchView, path: Seq<char>) -> SearchView {
    if s.finished >= s.spawned {
        s
    } else {
        SearchView {
            stats: s.stats.plus_error(),
            processing: s.processing.filter(other_than(path)),
            finished: (s.finished + 1) as usize,
            ..s
        }
    }
}

/// The rows with no match marked as deleted.
pub open spec fn without_deletions(rows: Seq<DirRow>) -> Seq<DirRow> {
    Seq::new(rows.len(), |i: int| DirRow { ds_store_deleted: false, ..rows[i] })
}

/// The buffered states as a checkpoint stores them: in a dry run, with no
/// match marked as deleted.
pub open spec fn states_to_store(s: SearchView) -> Seq<DirRow> {
    if s.dry_run {
        without_deletions(s.completed_dirs)
    } else {
        s.completed_dirs
    }
}

/// Whether a checkpoint is due on the driver's clock.
pub open spec fn flush_due(s: SearchView, clock_ms: u64) -> bool {
    clock_ms > s.last_flush_ms && clock_ms - s.last_flush_ms > FLUSH_INTERVAL_MS
}

/// The cache after the discovered subdirectories are queued, batch by batch,
/// up to the first batch that finds no id.
pub open spec fn enqueue_discovered(c: CacheState, entries: Seq<SubdirsView>, now: i64) -> CacheState
    decreases entries.len(),
{
    if entries.len() == 0 {
        c
    } else {
        let first = entries.first();
        if c.enqueue_all_fails(first.session_id, first.subdirs, 0, now) {
            c
        } else {
            enqueue_discovered(
                c.enqueue_all(first.session_id, first.subdirs, 0, now),
                entries.drop_first(),
                now,
            )
        }
    }
}

/// Whether a batch of discovered subdirectories finds no id.
pub open spec fn discovered_fails(c: CacheState, entries: Seq<SubdirsView>, now: i64) -> bool
    decreases entries.len(),
{
    if entries.len() == 0 {
        false
    } else {
        let first = entries.first();
        c.enqueue_all_fails(first.session_id, first.subdirs, 0, now) || discovered_fails(
            c.enqueue_all(first.session_id, first.subdirs, 0, now),
            entries.drop_first(),
            now,
        )
    }
}

/// The buffers saved: the states go to the directory cache, the matches to
/// the found-file log.
pub open spec fn flushed(s: SearchView, c: CacheState, now: i64, clock_ms: u64) -> Turn {
    Turn {
        search: SearchView { completed_dirs: Seq::empty(), last_flush_ms: clock_ms, ..s },
        cache: c.mark_completed_batch(states_to_store(s)).save_found_files(
            s.session_id,
            s.found_files,
            now,
        ),
    }
}

/// The probes that have reported are reaped. With the queue found empty and
/// probes still running the turn was idle.
pub open spec fn reaped(s: SearchView) -> SearchView {
    let running = if s.finished <= s.spawned {
        (s.spawned - s.finished) as usize
    } else {
        0usize
    };
    SearchView {
        spawned: running,
        finished: 0,
        idle_turns: if s.peek_was_empty && running > 0 {
            wrapping_sum(s.idle_turns, 1)
        } else {
            0
        },
        ..s
    }
}

/// What a checkpoint tells the driver.
pub open spec fn checkpoint_of(before: SearchView, after: SearchView, clock_ms: u64) -> Checkpoint {
    Checkpoint {
        flush_pending: flush_due(before, clock_ms),
        sleep: after.peek_was_empty && after.spawned > 0,
        stuck_seconds: if after.peek_was_empty && after.spawned > 0 && after.idle_turns
            % STUCK_REPORT_TURNS == 0 {
            Some(after.idle_turns / STUCK_REPORT_TURNS)
        } else {
            None
        },
    }
}

/// Whether the end of a turn fails: the queue has no id left for a
/// subdirectory that was discovered.
pub open spec fn settle_fails(s: SearchView, c: CacheState, now: i64, clock_ms: u64) -> bool {
    discovered_fails(
        if flush_due(s, clock_ms) {
            flushed(s, c, now, clock_ms).cache
        } else {
            c
        },
        s.discovered,
        now,
    )
}

/// The end of a turn: where a checkpoint is due the buffers are saved; the
/// discovered subdirectories are queued; the probes that reported are reaped.
/// Where the queue has no id left the turn ends before the reaping.
pub open spec fn settled(s: SearchView, c: CacheState, now: i64, clock_ms: u64) -> Turn {
    let saved = if flush_due(s, clock_ms) {
        flushed(s, c, now, clock_ms)
    } else {
        Turn { search: s, cache: c }
    };
    let drained = SearchView { discovered: Seq::empty(), ..saved.search };
    Turn {
        search: if settle_fails(s, c, now, clock_ms) {
            drained
        } else {
            reaped(drained)
        },
        cache: enqueue_discovered(saved.cache, s.discovered, now),
    }
}

/// Whether the end of a search that ran dry fails: the queue has no id left
/// for a subdirectory that was discovered last.
pub open spec fn finish_fails(s: SearchView, c: CacheState, now: i64) -> bool {
    discovered_fails(c.mark_completed_batch(states_to_store(s)), s.discovered, now)
}

/// The end of a search that ran dry: the buffered states are stored, what
/// was discovered last is queued, and the session is completed.
pub open spec fn finished(s: SearchView, c: CacheState, now: i64) -> CacheState {
    let stored = c.mark_completed_batch(states_to_store(s));
    if finish_fails(s, c, now) {
        enqueue_discovered(stored, s.discovered, now)
    } else {
        enqueue_discovered(stored, s.discovered, now).complete_session(now)
    }
}

/// The end of a search that was cancelled: the buffered states are stored
/// and the matches logged; the session is completed where no work is left,
/// and interrupted where some is.
pub open spec fn interrupted(s: SearchView, c: CacheState, now: i64) -> CacheState {
    let saved = c.mark_completed_batch(states_to_store(s)).save_found_files(
        s.session_id,
        s.found_files,
        now,
    );
    if saved.work_count(s.session_id) == 0 {
        saved.complete_session(now)
    } else {
        saved.interrupt_session()
    }
}

impl SearchView {
    /// A scheduler at the start of a search.
    pub open spec fn fresh(
        session_id: Seq<char>,
        recursive: bool,
        dry_run: bool,
        stats: SearchStats,
        found_files: Seq<Seq<char>>,
        clock_ms: u64,
    ) -> SearchView {
        SearchView {
            session_id,
            recursive,
            dry_run,
            stats,
            found_files,
            completed_dirs: Seq::empty(),
            processing: Seq::empty(),
            discovered: Seq::empty(),
            spawned: 0,
            finished: 0,
            last_flush_ms: clock_ms,
            peek_was_empty: false,
            idle_turns: 0,
            total_processed: 0,
        }
    }

    /// No more probes have reported than were started; between a checkpoint
    /// and the next report no discovered subdirectory waits; no directory is
    /// probed twice at once; and no match is held twice.
    pub open spec fn wf(self) -> bool {
        &&& self.finished <= self.spawned
        &&& self.finished == 0 ==> self.discovered.len() == 0
        &&& self.processing.no_duplicates()
        &&& self.found_files.no_duplicates()
    }
}

/// The start of a search at `now`. An interrupted session of this root and
/// these options that is worth resuming is resumed: its logged matches are
/// loaded and counted, and where it has no work left, the directories
/// searched in its time are credited as skipped. Else a session is started
/// under `new_id`, with the root queued.
pub open spec fn started(
    c: CacheState,
    root: Seq<char>,
    recursive: bool,
    dry_run: bool,
    new_id: Seq<char>,
    now: i64,
    clock_ms: u64,
) -> Turn {
    let resumed = c.resume_session(root, recursive, dry_run);
    if c.resumes(root, recursive, dry_run) {
        let id = c.sessions[resume_target(c.sessions, root, recursive, dry_run)].session_id;
        let found = resumed.load_found_files(id);
        let loaded = SearchStats::zero().plus_found(found.len() as usize);
        Turn {
            search: SearchView::fresh(
                id,
                recursive,
                dry_run,
                if resumed.work_count(id) == 0 {
                    loaded.plus_skipped(resumed.session_searched_count(id, now) as usize)
                } else {
                    loaded
                },
                found,
                clock_ms,
            ),
            cache: resumed,
        }
    } else {
        Turn {
            search: SearchView::fresh(
                new_id,
                recursive,
                dry_run,
                SearchStats::zero(),
                Seq::empty(),
                clock_ms,
            ),
            cache: resumed.start_session(new_id, root, recursive, dry_run, now),
        }
    }
}

/// Whether a search that starts a new session under `new_id` fails to: the
/// identifier is taken, or the queue has no id for the root.
pub open spec fn start_fails(
    c: CacheState,
    root: Seq<char>,
    recursive: bool,
    dry_run: bool,
    new_id: Seq<char>,
    now: i64,
) -> bool {
    let resumed = c.resume_session(root, recursive, dry_run);
    !c.resumes(root, recursive, dry_run) && (has_session(
        resumed.cleanup_stale_sessions(now).sessions,
        new_id,
    ) || resumed.register_session(new_id, root, recursive, dry_run, now).enqueue_fails(
        new_id,
        root,
    ))
}


// ---------------------------------------------------------------------------
// The scheduler
// ---------------------------------------------------------------------------

/// The scheduler of one progressive search.
pub struct ProgressiveSearch {
    session_id: String,
    recursive: bool,
    dry_run: bool,
    stats: SearchStats,
    found_files: Vec<String>,
    completed_dirs: Vec<DirectoryState>,
    processing_dirs: Vec<String>,
    subdirs_queue: Vec<DiscoveredSubdirs>,
    spawned: usize,
    finished: usize,
    last_flush_ms: u64,
    work_items_empty: bool,
    empty_queue_loop_count: usize,
    total_processed: usize,
}

impl View for ProgressiveSearch {
    type V = SearchView;

    closed spec fn view(&self) -> SearchView {
        SearchView {
            session_id: self.session_id@,
            recursive: self.recursive,
            dry_run: self.dry_run,
            stats: self.stats,
            found_files: texts(self.found_files@),
            completed_dirs: dir_rows(self.completed_dirs@),
            processing: texts(self.processing_dirs@),
            discovered: subdirs_views(self.subdirs_queue@),
            spawned: self.spawned,
            finished: self.finished,
            last_flush_ms: self.last_flush_ms,
            peek_was_empty: self.work_items_empty,
            idle_turns: self.empty_queue_loop_count,
            total_processed: self.total_processed,
        }
    }
}

/// The states with no match marked as deleted.
pub fn dry_run_states(states: &Vec<DirectoryState>) -> (cleared: Vec<DirectoryState>)
    ensures
        dir_rows(cleared@) == without_deletions(dir_rows(states@)),
{
    let mut cleared: Vec<DirectoryState> = Vec::new();
    let mut i: usize = 0;
    while i < states.len()
        invariant
            i <= states.len(),
            cleared.len() == i,
            forall|j: int|
                0 <= j < i ==> cleared[j]@ == (DirRow { ds_store_deleted: false, ..states[j]@ }),
        decreases states.len() - i,
    {
        let state = &states[i];
        cleared.push(
            DirectoryState {
                path: state.path.clone(),
                last_searched_at: state.last_searched_at,
                search_completed: state.search_completed,
                ds_store_found: state.ds_store_found,
                ds_store_deleted: false,
                error_message: copy_opt_text(&state.error_message),
            },
        );
        i += 1;
    }
    assert(dir_rows(cleared@) =~= without_deletions(dir_rows(states@)));
    cleared
}

/// The paths without `path`.
pub fn paths_without(paths: &Vec<String>, path: &str) -> (kept: Vec<String>)
    ensures
        texts(kept@) == texts(paths@).filter(other_than(path@)),
{
    let ghost all = texts(paths@);
    let ghost pred = other_than(path@);
    let mut kept: Vec<String> = Vec::new();
    let mut i: usize = 0;
    proof {
        lemma_filter_ends(all, pred);
        assert(texts(kept@) =~= Seq::<Seq<char>>::empty());
    }
    while i < paths.len()
        invariant
            i <= paths.len(),
            all == texts(paths@),
            pred == other_than(path@),
            texts(kept@) == all.take(i as int).filter(pred),
        decreases paths.len() - i,
    {
        proof {
            lemma_filter_step(all, i as int, pred);
        }
        if !same_text(paths[i].as_str(), path) {
            let ghost before = kept@;
            kept.push(paths[i].clone());
            assert(texts(kept@) =~= texts(before).push(paths[i as int]@));
        }
        i += 1;
    }
    proof {
        lemma_filter_ends(all, pred);
    }
    kept
}

impl ProgressiveSearch {
    /// Start a search of `root_path` at `now`: resume the interrupted session
    /// of this root and these options where one is worth resuming, else start
    /// a session under `new_id`.
    pub fn start_with(
        cache: &mut Cache,
        root_path: &str,
        recursive: bool,
        dry_run: bool,
        new_id: &str,
        now: i64,
        clock_ms: u64,
    ) -> (search: Result<ProgressiveSearch, CacheError>)
        ensures
            final(cache)@ == started(
                old(cache)@,
                root_path@,
                recursive,
                dry_run,
                new_id@,
                now,
                clock_ms,
            ).cache,
            final(cache).wf(),
            search is Err <==> start_fails(old(cache)@, root_path@, recursive, dry_run, new_id@, now),
            search matches Err(e) ==> e == CacheError::DuplicateSession || e
                == CacheError::WorkQueueFull,
            search matches Ok(s) ==> s@ == started(
                old(cache)@,
                root_path@,
                recursive,
                dry_run,
                new_id@,
                now,
                clock_ms,
            ).search,
    {
        let mut stats = SearchStats::new();
        let (session_id, found_files) = match cache.resume_session(root_path, recursive, dry_run) {
            Some(id) => {
                let previously_found = cache.load_found_files(id.as_str());
                stats.add_found(previously_found.len());
                if cache.get_work_count(id.as_str()) == 0 {
                    let searched = cache.get_session_searched_count_at(id.as_str(), now);
                    stats.add_skipped(searched);
                }
                (id, previously_found)
            },
            None => {
                match cache.start_session_with(new_id, root_path, recursive, dry_run, now) {
                    Ok(id) => (id, Vec::new()),
                    Err(e) => {
                        return Err(e);
                    },
                }
            },
        };
        let search = ProgressiveSearch {
            session_id,
            recursive,
            dry_run,
            stats,
            found_files,
            completed_dirs: Vec::new(),
            processing_dirs: Vec::new(),
            subdirs_queue: Vec::new(),
            spawned: 0,
            finished: 0,
            last_flush_ms: clock_ms,
            work_items_empty: false,
            empty_queue_loop_count: 0,
            total_processed: 0,
        };
        assert(search@ =~= started(
            old(cache)@,
            root_path@,
            recursive,
            dry_run,
            new_id@,
            now,
            clock_ms,
        ).search);
        Ok(search)
    }

    /// Start a search of `root_path` now; a new session gets a fresh random
    /// identifier.
    pub fn start(cache: &mut Cache, root_path: &str, recursive: bool, dry_run: bool, clock_ms: u64) -> (search:
        Result<ProgressiveSearch, CacheError>)
        ensures
            final(cache).wf(),
            exists|new_id: Seq<char>, now: i64|
                {
                    &&& is_session_id_shaped(new_id)
                    &&& final(cache)@ == started(
                        old(cache)@,
                        root_path@,
                        recursive,
                        dry_run,
                        new_id,
                        now,
                        clock_ms,
                    ).cache
                    &&& search is Err <==> start_fails(
                        old(cache)@,
                        root_path@,
                        recursive,
                        dry_run,
                        new_id,
                        now,
                    )
                    &&& search matches Ok(s) ==> s@ == started(
                        old(cache)@,
                        root_path@,
                        recursive,
                        dry_run,
                        new_id,
                        now,
                        clock_ms,
                    ).search
                },
            search matches Err(e) ==> e == CacheError::DuplicateSession || e
                == CacheError::WorkQueueFull,
    {
        let new_id = random_session_id();
        let now = unix_timestamp();
        Self::start_with(cache, root_path, recursive, dry_run, new_id.as_str(), now, clock_ms)
    }

    /// The session that the search works for.
    pub fn session_id(&self) -> (id: &str)
        ensures
            id@ == self@.session_id,
    {
        self.session_id.as_str()
    }

    /// The counters so far.
    pub fn stats(&self) -> (stats: SearchStats)
        ensures
            stats == self@.stats,
    {
        self.stats
    }

    /// The matches found so far.
    pub fn found_files(&self) -> (found: Vec<String>)
        ensures
            texts(found@) == self@.found_files,
    {
        copy_texts(&self.found_files)
    }

    /// The directories that are being probed.
    pub fn processing_snapshot(&self) -> (paths: Vec<String>)
        ensures
            texts(paths@) == self@.processing,
    {
        copy_texts(&self.processing_dirs)
    }

    /// How many probes run: started and not yet reported.
    pub fn running(&self) -> (count: usize)
        ensures
            count == if self@.finished <= self@.spawned {
                self@.spawned - self@.finished
            } else {
                0
            },
    {
        if self.finished <= self.spawned {
            self.spawned - self.finished
        } else {
            0
        }
    }

    /// Whether as many probes run as may run at once: then the driver waits
    /// for one to report before it starts another.
    pub fn at_task_cap(&self) -> (at_cap: bool)
        ensures
            at_cap == (self@.finished <= self@.spawned && self@.spawned - self@.finished
                >= TASK_BATCH_SIZE),
    {
        self.running() >= TASK_BATCH_SIZE
    }

    /// The driver has started a probe.
    pub fn task_spawned(&mut self)
        ensures
            final(self)@ == (SearchView {
                spawned: if old(self)@.spawned < usize::MAX {
                    (old(self)@.spawned + 1) as usize
                } else {
                    old(self)@.spawned
                },
                ..old(self)@
            }),
    {
        if self.spawned < usize::MAX {
            self.spawned += 1;
        }
    }

    /// One turn at `now`, up to the probes.
    pub fn next_batch_at(&mut self, cache: &mut Cache, cancelled: bool, now: i64) -> (batch: NextBatch)
        ensures
            final(self)@ == planned(old(self)@, old(cache)@, cancelled, now).search,
            final(cache)@ == planned(old(self)@, old(cache)@, cancelled, now).cache,
            batch@ == planned(old(self)@, old(cache)@, cancelled, now).batch,
            final(cache).wf(),
    {
        let ghost s0 = self@;
        let ghost c0 = cache@;
        if cancelled {
            proof {
                use_type_invariant(&*cache);
            }
            return NextBatch::Cancelled;
        }
        let items = cache.peek_work_batch(self.session_id.as_str(), WORK_BATCH_SIZE);
        if items.len() == 0 && self.spawned == 0 {
            self.work_items_empty = true;
            proof {
                use_type_invariant(&*cache);
                assert(self@ =~= (SearchView { peek_was_empty: true, ..s0 }));
            }
            return NextBatch::Finished;
        }
        let ghost rows = work_rows(items@);
        let mut accepted: Vec<String> = Vec::new();
        let mut ids: Vec<i64> = Vec::new();
        let mut i: usize = 0;
        proof {
            assert(rows.take(0) =~= Seq::<WorkRow>::empty());
            assert(texts(accepted@) =~= Seq::<Seq<char>>::empty());
        }
        while i < items.len()
            invariant
                i <= items.len(),
                rows == work_rows(items@),
                cache@ == c0,
                self@ == (SearchView { stats: self.stats, ..s0 }),
                classify(c0, now, s0.stats, rows.take(i as int)) == (Sorted {
                    stats: self.stats,
                    accepted: texts(accepted@),
                    ids: ids@,
                }),
            decreases items.len() - i,
        {
            let item = &items[i];
            let ghost before = accepted@;
            match item.id {
                Some(id) => {
                    ids.push(id);
                },
                None => {},
            }
            match cache.directory_status_at(item.path.as_str(), now) {
                DirectoryStatus::Fresh => {
                    self.stats.increment_skipped();
                },
                DirectoryStatus::Incomplete => {
                    self.stats.increment_resumed();
                    accepted.push(item.path.clone());
                    assert(texts(accepted@) =~= texts(before).push(rows[i as int].path));
                },
                _ => {
                    self.stats.increment_new();
                    accepted.push(item.path.clone());
                    assert(texts(accepted@) =~= texts(before).push(rows[i as int].path));
                },
            }
            proof {
                assert(rows.take(i + 1).drop_last() =~= rows.take(i as int));
                assert(rows.take(i + 1).last() == rows[i as int]);
                assert(self@ =~= (SearchView { stats: self.stats, ..s0 }));
            }
            i += 1;
        }
        assert(rows.take(items.len() as int) =~= rows);
        if ids.len() > 0 {
            cache.remove_work_items(&ids);
        }
        let ghost sorted = classify(c0, now, s0.stats, rows);
        let ghost removed = cache@;
        let mut kept: Vec<String> = Vec::new();
        let mut probing = text_set(&self.processing_dirs);
        let mut k: usize = 0;
        proof {
            assert(sorted.accepted.take(0) =~= Seq::<Seq<char>>::empty());
            assert(texts(kept@) =~= Seq::<Seq<char>>::empty());
        }
        while k < accepted.len()
            invariant
                k <= accepted.len(),
                sorted.accepted == texts(accepted@),
                cache@ == removed,
                holds_texts(probing@, texts(self.processing_dirs@)),
                self@ == (SearchView {
                    stats: sorted.stats,
                    processing: texts(self.processing_dirs@),
                    ..s0
                }),
                enlist(s0.processing, sorted.accepted.take(k as int)) == (Enlisted {
                    processing: texts(self.processing_dirs@),
                    kept: texts(kept@),
                }),
            decreases accepted.len() - k,
        {
            let path = &accepted[k];
            if push_if_new(&mut self.processing_dirs, &mut probing, path.as_str()) {
                let ghost kept_before = kept@;
                kept.push(path.clone());
                assert(texts(kept@) =~= texts(kept_before).push(path@));
            }
            proof {
                assert(sorted.accepted.take(k + 1).drop_last() =~= sorted.accepted.take(k as int));
                assert(sorted.accepted.take(k + 1).last() == accepted[k as int]@);
                assert(self@ =~= (SearchView {
                    stats: sorted.stats,
                    processing: texts(self.processing_dirs@),
                    ..s0
                }));
            }
            k += 1;
        }
        assert(sorted.accepted.take(accepted.len() as int) =~= sorted.accepted);
        if !self.dry_run {
            cache.mark_searching_batch_at(&kept, now);
        }
        self.total_processed = wrapping_add(self.total_processed, kept.len());
        self.work_items_empty = items.len() == 0;
        proof {
            use_type_invariant(&*cache);
            assert(texts(kept@).len() == kept.len());
            assert(self@ =~= planned(s0, c0, cancelled, now).search);
        }
        NextBatch::Probe(kept)
    }

    /// One turn now, up to the probes.
    pub fn next_batch(&mut self, cache: &mut Cache, cancelled: bool) -> (batch: NextBatch)
        ensures
            exists|now: i64|
                {
                    &&& final(self)@ == planned(old(self)@, old(cache)@, cancelled, now).search
                    &&& final(cache)@ == planned(old(self)@, old(cache)@, cancelled, now).cache
                    &&& batch@ == planned(old(self)@, old(cache)@, cancelled, now).batch
                },
            final(cache).wf(),
    {
        let now = unix_timestamp();
        self.next_batch_at(cache, cancelled, now)
    }

    /// A probe has reported. Whether the report was taken: it is not where
    /// every probe that was started has reported already.
    pub fn probe_finished(&mut self, outcome: ProbeOutcome) -> (taken: bool)
        ensures
            final(self)@ == reported(old(self)@, outcome@),
            taken == (old(self)@.finished < old(self)@.spawned),
    {
        if self.finished >= self.spawned {
            return false;
        }
        let ghost s0 = self@;
        if outcome.failed {
            self.stats.increment_errors();
        }
        let found = add_new_texts(&mut self.found_files, &outcome.matches);
        self.stats.add_found(found);
        proof {
            assert(texts(self.found_files@).len() == self.found_files.len());
            assert(s0.found_files.len() == old(self).found_files.len());
        }
        self.processing_dirs = paths_without(&self.processing_dirs, outcome.state.path.as_str());
        if outcome.subdirs.len() > 0 {
            let ghost before = self.subdirs_queue@;
            let entry = DiscoveredSubdirs { session_id: outcome.session_id, subdirs: outcome.subdirs };
            self.subdirs_queue.push(entry);
            assert(subdirs_views(self.subdirs_queue@) =~= subdirs_views(before).push(entry@));
        }
        let ghost states = self.completed_dirs@;
        self.completed_dirs.push(outcome.state);
        assert(dir_rows(self.completed_dirs@) =~= dir_rows(states).push(outcome@.state));
        self.finished += 1;
        proof {
            assert(texts(outcome.subdirs@).len() == outcome.subdirs.len());
            assert(self@ =~= reported(s0, outcome@));
        }
        true
    }

    /// A probe of `path` has ended without a report. Whether that was taken.
    pub fn probe_dropped(&mut self, path: &str) -> (taken: bool)
        ensures
            final(self)@ == dropped(old(self)@, path@),
            taken == (old(self)@.finished < old(self)@.spawned),
    {
        if self.finished >= self.spawned {
            return false;
        }
        let ghost s0 = self@;
        self.processing_dirs = paths_without(&self.processing_dirs, path);
        self.finished += 1;
        assert(self@ =~= dropped(s0, path@));
        true
    }

    /// A probe of `path` has run out of time. Whether the report was taken.
    pub fn probe_timed_out(&mut self, path: &str) -> (taken: bool)
        ensures
            final(self)@ == timed_out(old(self)@, path@),
            taken == (old(self)@.finished < old(self)@.spawned),
    {
        if self.finished >= self.spawned {
            return false;
        }
        let ghost s0 = self@;
        self.stats.increment_errors();
        self.processing_dirs = paths_without(&self.processing_dirs, path);
        self.finished += 1;
        assert(self@ =~= timed_out(s0, path@));
        true
    }

    /// Store the buffered states in the directory cache and empty the buffer.
    fn store_completed(&mut self, cache: &mut Cache)
        ensures
            final(self)@ == (SearchView { completed_dirs: Seq::empty(), ..old(self)@ }),
            final(cache)@ == old(cache)@.mark_completed_batch(states_to_store(old(self)@)),
            final(cache).wf(),
    {
        let mut states: Vec<DirectoryState> = Vec::new();
        core::mem::swap(&mut self.completed_dirs, &mut states);
        if self.dry_run {
            let cleared = dry_run_states(&states);
            cache.mark_completed_batch(&cleared);
        } else {
            cache.mark_completed_batch(&states);
        }
        assert(self@ =~= (SearchView { completed_dirs: Seq::empty(), ..old(self)@ }));
    }

    /// Queue the discovered subdirectories and empty their buffer.
    fn enqueue_subdirs(&mut self, cache: &mut Cache, now: i64) -> (queued: Result<(), CacheError>)
        ensures
            final(self)@ == (SearchView { discovered: Seq::empty(), ..old(self)@ }),
            final(cache)@ == enqueue_discovered(old(cache)@, old(self)@.discovered, now),
            queued is Err <==> discovered_fails(old(cache)@, old(self)@.discovered, now),
            queued matches Err(e) ==> e == CacheError::WorkQueueFull,
            final(cache).wf(),
    {
        let ghost c0 = cache@;
        let ghost all = self@.discovered;
        let mut entries: Vec<DiscoveredSubdirs> = Vec::new();
        core::mem::swap(&mut self.subdirs_queue, &mut entries);
        assert(self@ =~= (SearchView { discovered: Seq::empty(), ..old(self)@ }));
        let mut i: usize = 0;
        proof {
            use_type_invariant(&*cache);
            assert(all.skip(0) =~= all);
        }
        while i < entries.len()
            invariant
                i <= entries.len(),
                all == subdirs_views(entries@),
                all == old(self)@.discovered,
                c0 == old(cache)@,
                self@ == (SearchView { discovered: Seq::empty(), ..old(self)@ }),
                cache.wf(),
                enqueue_discovered(c0, all, now) == enqueue_discovered(cache@, all.skip(i as int), now),
                discovered_fails(c0, all, now) == discovered_fails(cache@, all.skip(i as int), now),
            decreases entries.len() - i,
        {
            let ghost before = cache@;
            let ghost rest = all.skip(i as int);
            proof {
                assert(rest.first() == entries[i as int]@);
                assert(rest.drop_first() =~= all.skip(i + 1));
            }
            match cache.enqueue_work_batch_at(
                entries[i].session_id.as_str(),
                &entries[i].subdirs,
                0,
                now,
            ) {
                Ok(()) => {},
                Err(e) => {
                    proof {
                        assert(enqueue_discovered(before, rest, now) == before);
                        assert(discovered_fails(before, rest, now));
                    }
                    return Err(e);
                },
            }
            i += 1;
        }
        proof {
            assert(all.skip(entries.len() as int) =~= Seq::<SubdirsView>::empty());
        }
        Ok(())
    }

    /// The end of a turn at `now`, with `clock_ms` the driver's clock.
    pub fn checkpoint_at(&mut self, cache: &mut Cache, now: i64, clock_ms: u64) -> (done: Result<
        Checkpoint,
        CacheError,
    >)
        ensures
            final(self)@ == settled(old(self)@, old(cache)@, now, clock_ms).search,
            final(cache)@ == settled(old(self)@, old(cache)@, now, clock_ms).cache,
            final(cache).wf(),
            done is Err <==> settle_fails(old(self)@, old(cache)@, now, clock_ms),
            done matches Err(e) ==> e == CacheError::WorkQueueFull,
            done matches Ok(checkpoint) ==> checkpoint == checkpoint_of(
                old(self)@,
                final(self)@,
                clock_ms,
            ),
    {
        let ghost s0 = self@;
        let due = clock_ms > self.last_flush_ms && clock_ms - self.last_flush_ms > FLUSH_INTERVAL_MS;
        if due {
            self.store_completed(cache);
            cache.save_found_files_at(self.session_id.as_str(), &self.found_files, now);
            self.last_flush_ms = clock_ms;
            assert(self@ =~= flushed(s0, old(cache)@, now, clock_ms).search);
        }
        match self.enqueue_subdirs(cache, now) {
            Ok(()) => {},
            Err(e) => {
                return Err(e);
            },
        }
        let ghost drained = self@;
        let running = self.running();
        self.spawned = running;
        self.finished = 0;
        let idle = self.work_items_empty && running > 0;
        if idle {
            self.empty_queue_loop_count = wrapping_add(self.empty_queue_loop_count, 1);
        } else {
            self.empty_queue_loop_count = 0;
        }
        assert(self@ =~= reaped(drained));
        let stuck_seconds = if idle && self.empty_queue_loop_count % STUCK_REPORT_TURNS == 0 {
            Some(self.empty_queue_loop_count / STUCK_REPORT_TURNS)
        } else {
            None
        };
        Ok(Checkpoint { flush_pending: due, sleep: idle, stuck_seconds })
    }

    /// The end of a turn now.
    pub fn checkpoint(&mut self, cache: &mut Cache, clock_ms: u64) -> (done: Result<
        Checkpoint,
        CacheError,
    >)
        ensures
            exists|now: i64|
                {
                    &&& final(self)@ == settled(old(self)@, old(cache)@, now, clock_ms).search
                    &&& final(cache)@ == settled(old(self)@, old(cache)@, now, clock_ms).cache
                    &&& done is Err <==> settle_fails(old(self)@, old(cache)@, now, clock_ms)
                },
            final(cache).wf(),
            done matches Err(e) ==> e == CacheError::WorkQueueFull,
            done matches Ok(checkpoint) ==> checkpoint == checkpoint_of(
                old(self)@,
                final(self)@,
                clock_ms,
            ),
    {
        let now = unix_timestamp();
        self.checkpoint_at(cache, now, clock_ms)
    }

    /// End, at `now`, a search that ran dry: what the buffers hold is stored
    /// and queued, and the session is completed. The matches, each once, and
    /// the counters are handed back.
    pub fn finish_at(self, cache: &mut Cache, now: i64) -> (result: Result<SearchResult, CacheError>)
        ensures
            final(cache)@ == finished(self@, old(cache)@, now),
            final(cache).wf(),
            result is Err <==> finish_fails(self@, old(cache)@, now),
            result matches Err(e) ==> e == CacheError::WorkQueueFull,
            result matches Ok(r) ==> texts(r.found@) == distinct(self@.found_files) && texts(
                r.found@,
            ).no_duplicates() && r.stats == self@.stats,
    {
        let mut search = self;
        search.store_completed(cache);
        match search.enqueue_subdirs(cache, now) {
            Ok(()) => {},
            Err(e) => {
                return Err(e);
            },
        }
        cache.complete_session_at(now);
        Ok(SearchResult { found: distinct_texts(&search.found_files), stats: search.stats })
    }

    /// End now a search that ran dry.
    pub fn finish(self, cache: &mut Cache) -> (result: Result<SearchResult, CacheError>)
        ensures
            exists|now: i64|
                final(cache)@ == finished(self@, old(cache)@, now) && (result is Err <==> finish_fails(
                    self@,
                    old(cache)@,
                    now,
                )),
            final(cache).wf(),
            result matches Err(e) ==> e == CacheError::WorkQueueFull,
            result matches Ok(r) ==> texts(r.found@) == distinct(self@.found_files) && texts(
                r.found@,
            ).no_duplicates() && r.stats == self@.stats,
    {
        let now = unix_timestamp();
        self.finish_at(cache, now)
    }

    /// End, at `now`, a search that was cancelled: what the buffers hold is
    /// stored, the matches are logged, and the session is completed where no
    /// work is left and interrupted where some is. The matches, each once,
    /// and the counters so far are handed back.
    pub fn interrupt_at(self, cache: &mut Cache, now: i64) -> (result: SearchResult)
        ensures
            final(cache)@ == interrupted(self@, old(cache)@, now),
            final(cache).wf(),
            texts(result.found@) == distinct(self@.found_files),
            texts(result.found@).no_duplicates(),
            result.stats == self@.stats,
    {
        let mut search = self;
        search.store_completed(cache);
        cache.save_found_files_at(search.session_id.as_str(), &search.found_files, now);
        if cache.get_work_count(search.session_id.as_str()) == 0 {
            cache.complete_session_at(now);
        } else {
            cache.interrupt_session();
        }
        SearchResult { found: distinct_texts(&search.found_files), stats: search.stats }
    }

    /// End now a search that was cancelled.
    pub fn interrupt(self, cache: &mut Cache) -> (result: SearchResult)
        ensures
            exists|now: i64| final(cache)@ == interrupted(self@, old(cache)@, now),
            final(cache).wf(),
            texts(result.found@) == distinct(self@.found_files),
            texts(result.found@).no_duplicates(),
            result.stats == self@.stats,
    {
        let now = unix_timestamp();
        self.interrupt_at(cache, now)
    }
}

} // verus!
