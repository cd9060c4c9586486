//! The mathematical model of the store: four tables of rows, the hot set, and
//! the transitions that the cache's operations perform on them.

use crate::cache::DirectoryStatus;
use crate::cache::SearchSessionStatus;
use vstd::prelude::*;

verus! {

/// One row of the directory cache, keyed by `path`.
pub struct DirRow {
    pub path: Seq<char>,
    pub last_searched_at: i64,
    pub search_completed: bool,
    pub ds_store_found: bool,
    pub ds_store_deleted: bool,
    pub error_message: Option<Seq<char>>,
}

/// One row of the work queue, unique by `(path, session_id)`.
pub struct WorkRow {
    pub id: Option<i64>,
    pub path: Seq<char>,
    pub discovered_at: i64,
    pub priority: i32,
    pub session_id: Seq<char>,
}

/// One row of the session registry, keyed by `session_id`.
pub struct SessionRow {
    pub session_id: Seq<char>,
    pub root_path: Seq<char>,
    pub started_at: i64,
    pub completed_at: Option<i64>,
    pub is_recursive: bool,
    pub is_dry_run: bool,
    pub status: SearchSessionStatus,
}

/// One row of the found-file log, unique by `(session_id, file_path)`.
pub struct FoundRow {
    pub session_id: Seq<char>,
    pub file_path: Seq<char>,
    pub discovered_at: i64,
}

// ---------------------------------------------------------------------------
// Time windows
// ---------------------------------------------------------------------------

/// `v` brought into the range of `i64`.
pub open spec fn clamp_i64(v: int) -> i64 {
    if v < i64::MIN {
        i64::MIN
    } else if v > i64::MAX {
        i64::MAX
    } else {
        v as i64
    }
}

/// The length of `window_hours` hours in units of `1/unit` hours, clamped.
pub open spec fn window_span(window_hours: u64, unit: int) -> int {
    if window_hours * unit > i64::MAX {
        i64::MAX as int
    } else {
        window_hours * unit
    }
}

/// Rows searched after this instant are fresh at `now`.
pub open spec fn freshness_cutoff(now: i64, window_hours: u64) -> i64 {
    clamp_i64(now - window_span(window_hours, 3600))
}

/// Rows searched before this instant are swept at `now`: twice the window.
pub open spec fn sweep_cutoff(now: i64, window_hours: u64) -> i64 {
    clamp_i64(now - window_span(window_hours, 7200))
}

// ---------------------------------------------------------------------------
// Directory cache
// ---------------------------------------------------------------------------

/// No two rows have one path.
pub open spec fn unique_dirs(rows: Seq<DirRow>) -> bool {
    forall|i: int, j: int| 0 <= i < j < rows.len() ==> rows[i].path != rows[j].path
}

/// The table has a row of `path`.
pub open spec fn has_dir(rows: Seq<DirRow>, path: Seq<char>) -> bool {
    exists|i: int| 0 <= i < rows.len() && (#[trigger] rows[i]).path == path
}

/// Where the row of `path` stands, in a table that has one.
pub open spec fn dir_index(rows: Seq<DirRow>, path: Seq<char>) -> int {
    choose|i: int| 0 <= i < rows.len() && (#[trigger] rows[i]).path == path
}

/// The row of `path`, if the table has one.
pub open spec fn get_dir(rows: Seq<DirRow>, path: Seq<char>) -> Option<DirRow> {
    if has_dir(rows, path) {
        Some(rows[dir_index(rows, path)])
    } else {
        None
    }
}

/// Insert `row`, or replace the row that has its path.
pub open spec fn put_dir(rows: Seq<DirRow>, row: DirRow) -> Seq<DirRow> {
    if has_dir(rows, row.path) {
        rows.update(dir_index(rows, row.path), row)
    } else {
        rows.push(row)
    }
}

/// What a row says of its directory, given the freshness cutoff.
pub open spec fn row_status(row: Option<DirRow>, cutoff: i64) -> DirectoryStatus {
    match row {
        None => DirectoryStatus::NotCached,
        Some(r) => if !r.search_completed {
            DirectoryStatus::Incomplete
        } else if r.last_searched_at <= cutoff {
            DirectoryStatus::Stale
        } else {
            DirectoryStatus::Fresh
        },
    }
}

/// The row that entering `path` at `now` leaves: incomplete, other columns kept.
pub open spec fn searching_row(prev: Option<DirRow>, path: Seq<char>, now: i64) -> DirRow {
    match prev {
        Some(r) => DirRow { last_searched_at: now, search_completed: false, ..r },
        None => DirRow {
            path,
            last_searched_at: now,
            search_completed: false,
            ds_store_found: false,
            ds_store_deleted: false,
            error_message: None,
        },
    }
}

/// The row that completing `path` at `now` leaves. A match counts as deleted
/// only where it was found.
pub open spec fn completed_row(path: Seq<char>, found: bool, deleted: bool, now: i64) -> DirRow {
    DirRow {
        path,
        last_searched_at: now,
        search_completed: true,
        ds_store_found: found,
        ds_store_deleted: deleted && found,
        error_message: None,
    }
}

/// The row that an error on `path` at `now` leaves: completed, match columns kept.
pub open spec fn error_row(prev: Option<DirRow>, path: Seq<char>, message: Seq<char>, now: i64)
    -> DirRow {
    match prev {
        Some(r) => DirRow {
            last_searched_at: now,
            search_completed: true,
            error_message: Some(message),
            ..r
        },
        None => DirRow {
            path,
            last_searched_at: now,
            search_completed: true,
            ds_store_found: false,
            ds_store_deleted: false,
            error_message: Some(message),
        },
    }
}

/// A row is consistent when a deleted match was also found.
pub open spec fn row_consistent(row: DirRow) -> bool {
    row.ds_store_deleted ==> row.ds_store_found
}

/// Every row is consistent.
pub open spec fn rows_consistent(rows: Seq<DirRow>) -> bool {
    forall|i: int| 0 <= i < rows.len() ==> row_consistent(#[trigger] rows[i])
}

/// The search of the row completed, and the row was fresh at the moment of
/// that search. With a window of zero hours no row is.
pub open spec fn fresh_when_searched(row: DirRow, window_hours: u64) -> bool {
    row.search_completed && row.last_searched_at > freshness_cutoff(
        row.last_searched_at,
        window_hours,
    )
}

/// The table has a row of `path` whose search completed.
pub open spec fn has_completed_dir(rows: Seq<DirRow>, path: Seq<char>) -> bool {
    exists|i: int|
        0 <= i < rows.len() && (#[trigger] rows[i]).path == path && rows[i].search_completed
}

/// Every path of the hot set has a row whose search completed.
pub open spec fn hot_rows_completed(hot: Set<Seq<char>>, rows: Seq<DirRow>) -> bool {
    forall|p: Seq<char>| hot.contains(p) ==> has_completed_dir(rows, p)
}

/// The table has a row of `path` that was last searched before `cutoff`.
pub open spec fn has_swept_dir(rows: Seq<DirRow>, cutoff: i64, path: Seq<char>) -> bool {
    exists|i: int|
        0 <= i < rows.len() && (#[trigger] rows[i]).path == path && rows[i].last_searched_at
            < cutoff
}

/// The hot set without the paths of the rows that a sweep at `cutoff` removes.
pub open spec fn swept_hot(hot: Set<Seq<char>>, rows: Seq<DirRow>, cutoff: i64) -> Set<Seq<char>> {
    Set::new(|p: Seq<char>| hot.contains(p) && !has_swept_dir(rows, cutoff, p))
}

/// The row with `ds_store_deleted` cleared where no match was found.
pub open spec fn repaired_row(row: DirRow) -> DirRow {
    if row.ds_store_deleted && !row.ds_store_found {
        DirRow { ds_store_deleted: false, ..row }
    } else {
        row
    }
}

/// The rows, each repaired.
pub open spec fn repaired_rows(rows: Seq<DirRow>) -> Seq<DirRow> {
    Seq::new(rows.len(), |i: int| repaired_row(rows[i]))
}

/// Rows whose search completed.
pub open spec fn is_completed() -> spec_fn(DirRow) -> bool {
    |r: DirRow| r.search_completed
}

/// Rows whose search did not complete.
pub open spec fn is_incomplete() -> spec_fn(DirRow) -> bool {
    |r: DirRow| !r.search_completed
}

/// Rows with a match found.
pub open spec fn has_match() -> spec_fn(DirRow) -> bool {
    |r: DirRow| r.ds_store_found
}

/// Rows whose match was deleted.
pub open spec fn has_deleted_match() -> spec_fn(DirRow) -> bool {
    |r: DirRow| r.ds_store_deleted
}

/// Rows that carry an error message.
pub open spec fn has_error() -> spec_fn(DirRow) -> bool {
    |r: DirRow| r.error_message is Some
}

/// Rows last searched at `cutoff` or later.
pub open spec fn searched_since(cutoff: i64) -> spec_fn(DirRow) -> bool {
    |r: DirRow| r.last_searched_at >= cutoff
}

/// Rows whose search completed between `start` and `end`, both included.
pub open spec fn completed_between(start: i64, end: i64) -> spec_fn(DirRow) -> bool {
    |r: DirRow| start <= r.last_searched_at <= end && r.search_completed
}

/// The file that a match in directory `path` names.
pub open spec fn sentinel_in(dir: Seq<char>) -> Seq<char> {
    dir + "/.DS_Store"@
}

/// Rows whose match is known and not yet deleted, at or below `root`.
pub open spec fn undeleted_under(root: Seq<char>, recursive: bool) -> spec_fn(DirRow) -> bool {
    |r: DirRow|
        r.ds_store_found && !r.ds_store_deleted && r.search_completed && if recursive {
            root.is_prefix_of(r.path)
        } else {
            r.path == root
        }
}

/// The paths of the rows, in their order.
pub open spec fn dir_paths(rows: Seq<DirRow>) -> Seq<Seq<char>> {
    Seq::new(rows.len(), |i: int| rows[i].path)
}

/// The files that matches in the rows' directories name, in the rows' order.
pub open spec fn sentinel_paths(rows: Seq<DirRow>) -> Seq<Seq<char>> {
    Seq::new(rows.len(), |i: int| sentinel_in(rows[i].path))
}

// ---------------------------------------------------------------------------
// Work queue
// ---------------------------------------------------------------------------

/// The id of a row; 0 for a row without one.
pub open spec fn work_id(w: WorkRow) -> int {
    match w.id {
        Some(id) => id as int,
        None => 0,
    }
}

/// `a` drains before `b`: higher priority first, then lower id.
pub open spec fn drains_before(a: WorkRow, b: WorkRow) -> bool {
    a.priority > b.priority || (a.priority == b.priority && work_id(a) < work_id(b))
}

/// The queue stands in the order it drains in.
pub open spec fn drain_ordered(q: Seq<WorkRow>) -> bool {
    forall|i: int, j: int| 0 <= i < j < q.len() ==> drains_before(q[i], q[j])
}

/// No two rows have one path and session.
pub open spec fn unique_work(q: Seq<WorkRow>) -> bool {
    forall|i: int, j: int|
        0 <= i < j < q.len() ==> !(q[i].path == q[j].path && q[i].session_id == q[j].session_id)
}

/// No two rows have one id.
pub open spec fn unique_ids(q: Seq<WorkRow>) -> bool {
    forall|i: int, j: int| 0 <= i < j < q.len() ==> work_id(q[i]) != work_id(q[j])
}

/// Every row has an id that the queue has given out.
pub open spec fn ids_issued(q: Seq<WorkRow>, last_work_id: i64) -> bool {
    forall|i: int| 0 <= i < q.len() ==> (#[trigger] q[i]).id is Some && 1 <= work_id(q[i]) <= last_work_id
}

/// The queue holds `path` for `session`.
pub open spec fn is_queued(q: Seq<WorkRow>, path: Seq<char>, session: Seq<char>) -> bool {
    exists|i: int| 0 <= i < q.len() && (#[trigger] q[i]).path == path && q[i].session_id == session
}

/// Where a new row of `priority` goes: behind the rows of at least that priority.
pub open spec fn queue_slot(q: Seq<WorkRow>, priority: i32) -> int
    decreases q.len(),
{
    if q.len() > 0 && q[0].priority >= priority {
        1 + queue_slot(q.skip(1), priority)
    } else {
        0
    }
}

/// Rows of `session`.
pub open spec fn in_session(session: Seq<char>) -> spec_fn(WorkRow) -> bool {
    |w: WorkRow| w.session_id == session
}

/// Rows of other sessions than `session`.
pub open spec fn not_in_session(session: Seq<char>) -> spec_fn(WorkRow) -> bool {
    |w: WorkRow| w.session_id != session
}

/// Rows whose id is not among `ids`.
pub open spec fn not_listed(ids: Seq<i64>) -> spec_fn(WorkRow) -> bool {
    |w: WorkRow| !(w.id is Some && ids.contains(w.id->0))
}

// ---------------------------------------------------------------------------
// Sessions
// ---------------------------------------------------------------------------

/// No two rows have one identifier.
pub open spec fn unique_sessions(rows: Seq<SessionRow>) -> bool {
    forall|i: int, j: int| 0 <= i < j < rows.len() ==> rows[i].session_id != rows[j].session_id
}

/// The table has a row of session `id`.
pub open spec fn has_session(rows: Seq<SessionRow>, id: Seq<char>) -> bool {
    exists|i: int| 0 <= i < rows.len() && (#[trigger] rows[i]).session_id == id
}

/// Where the row of session `id` stands, in a table that has one.
pub open spec fn session_index(rows: Seq<SessionRow>, id: Seq<char>) -> int {
    choose|i: int| 0 <= i < rows.len() && (#[trigger] rows[i]).session_id == id
}

/// The row of session `id`, if the table has one.
pub open spec fn get_session(rows: Seq<SessionRow>, id: Seq<char>) -> Option<SessionRow> {
    if has_session(rows, id) {
        Some(rows[session_index(rows, id)])
    } else {
        None
    }
}

/// A session that never completed and started before `cutoff`.
pub open spec fn is_stale(row: SessionRow, cutoff: i64) -> bool {
    row.started_at < cutoff && row.status != SearchSessionStatus::Completed
}

/// `id` is the identifier of a stale session.
pub open spec fn is_stale_id(rows: Seq<SessionRow>, cutoff: i64, id: Seq<char>) -> bool {
    exists|i: int|
        0 <= i < rows.len() && (#[trigger] rows[i]).session_id == id && is_stale(rows[i], cutoff)
}

/// Sessions that are not stale.
pub open spec fn not_stale(cutoff: i64) -> spec_fn(SessionRow) -> bool {
    |s: SessionRow| !is_stale(s, cutoff)
}

/// Work of sessions that are not stale.
pub open spec fn work_of_live_session(rows: Seq<SessionRow>, cutoff: i64) -> spec_fn(WorkRow) -> bool {
    |w: WorkRow| !is_stale_id(rows, cutoff, w.session_id)
}

/// Matches of sessions that are not stale.
pub open spec fn found_of_live_session(rows: Seq<SessionRow>, cutoff: i64) -> spec_fn(FoundRow) -> bool {
    |f: FoundRow| !is_stale_id(rows, cutoff, f.session_id)
}

/// Sessions other than `id`.
pub open spec fn other_session(id: Seq<char>) -> spec_fn(SessionRow) -> bool {
    |s: SessionRow| s.session_id != id
}

/// An interrupted session of the given root and options.
pub open spec fn resumable(row: SessionRow, root: Seq<char>, recursive: bool, dry_run: bool) -> bool {
    row.root_path == root && row.status == SearchSessionStatus::Interrupted && row.is_recursive
        == recursive && row.is_dry_run == dry_run
}

/// Row `i` is the resumable session that started last; of several that started
/// together, the one that stands first.
pub open spec fn is_resume_target(
    rows: Seq<SessionRow>,
    root: Seq<char>,
    recursive: bool,
    dry_run: bool,
    i: int,
) -> bool {
    &&& 0 <= i < rows.len()
    &&& resumable(rows[i], root, recursive, dry_run)
    &&& forall|k: int|
        0 <= k < rows.len() && resumable(#[trigger] rows[k], root, recursive, dry_run) ==> {
            ||| rows[k].started_at < rows[i].started_at
            ||| (rows[k].started_at == rows[i].started_at && i <= k)
        }
}

/// There is a session to resume.
pub open spec fn has_resume_target(
    rows: Seq<SessionRow>,
    root: Seq<char>,
    recursive: bool,
    dry_run: bool,
) -> bool {
    exists|i: int| is_resume_target(rows, root, recursive, dry_run, i)
}

/// Where the session to resume stands, in a table that has one.
pub open spec fn resume_target(
    rows: Seq<SessionRow>,
    root: Seq<char>,
    recursive: bool,
    dry_run: bool,
) -> int {
    choose|i: int| is_resume_target(rows, root, recursive, dry_run, i)
}

// ---------------------------------------------------------------------------
// Found-file log
// ---------------------------------------------------------------------------

/// No two rows have one session and path.
pub open spec fn unique_found(rows: Seq<FoundRow>) -> bool {
    forall|i: int, j: int|
        0 <= i < j < rows.len() ==> !(rows[i].session_id == rows[j].session_id && rows[i].file_path
            == rows[j].file_path)
}

/// The log holds `path` for `session`.
pub open spec fn is_logged(rows: Seq<FoundRow>, session: Seq<char>, path: Seq<char>) -> bool {
    exists|i: int|
        0 <= i < rows.len() && (#[trigger] rows[i]).session_id == session && rows[i].file_path
            == path
}

/// Matches of `session`.
pub open spec fn found_in_session(session: Seq<char>) -> spec_fn(FoundRow) -> bool {
    |f: FoundRow| f.session_id == session
}

/// Matches of other sessions than `session`.
pub open spec fn found_not_in_session(session: Seq<char>) -> spec_fn(FoundRow) -> bool {
    |f: FoundRow| f.session_id != session
}

/// The paths of the logged matches, in their order.
pub open spec fn found_paths(rows: Seq<FoundRow>) -> Seq<Seq<char>> {
    Seq::new(rows.len(), |i: int| rows[i].file_path)
}

// ---------------------------------------------------------------------------
// The whole store
// ---------------------------------------------------------------------------

/// The state of a cache: its four tables as sequences of rows in table order,
/// and what it keeps in memory beside them.
#[verifier::ext_equal]
pub struct CacheState {
    pub directories: Seq<DirRow>,
    pub work_queue: Seq<WorkRow>,
    /// The highest id that the work queue ever gave out.
    pub last_work_id: i64,
    pub sessions: Seq<SessionRow>,
    pub found_files: Seq<FoundRow>,
    /// The skip oracle: paths whose search completed, held in memory to be
    /// skipped without a look at the tables.
    pub hot: Set<Seq<char>>,
    pub window_hours: u64,
    pub force_refresh: bool,
    pub current_session: Option<SessionRow>,
}

impl CacheState {
    /// What holds of every cache: the key constraints of its tables; in every
    /// row a deleted match was found; and every path of the hot set has a
    /// row whose search completed.
    pub open spec fn inv(self) -> bool {
        &&& self.keys_hold()
        &&& rows_consistent(self.directories)
        &&& hot_rows_completed(self.hot, self.directories)
    }

    /// The key constraints of the four tables and the order of the queue.
    pub open spec fn keys_hold(self) -> bool {
        &&& unique_dirs(self.directories)
        &&& unique_work(self.work_queue)
        &&& unique_ids(self.work_queue)
        &&& drain_ordered(self.work_queue)
        &&& ids_issued(self.work_queue, self.last_work_id)
        &&& 0 <= self.last_work_id
        &&& unique_sessions(self.sessions)
        &&& unique_found(self.found_files)
    }

    /// An empty store.
    pub open spec fn empty(window_hours: u64, force_refresh: bool) -> CacheState {
        CacheState {
            directories: Seq::empty(),
            work_queue: Seq::empty(),
            last_work_id: 0,
            sessions: Seq::empty(),
            found_files: Seq::empty(),
            hot: Set::empty(),
            window_hours,
            force_refresh,
            current_session: None,
        }
    }

    // ----- directory cache -----

    /// What the cache knows of `path` at `now`: nothing where refresh is
    /// forced, else what the row of the path says.
    pub open spec fn status_of(self, path: Seq<char>, now: i64) -> DirectoryStatus {
        if self.force_refresh {
            DirectoryStatus::NotCached
        } else {
            row_status(get_dir(self.directories, path), freshness_cutoff(now, self.window_hours))
        }
    }

    /// Whether `path` is skipped without a look at the tables: it is in the
    /// hot set, and refresh is not forced.
    pub open spec fn skips(self, path: Seq<char>) -> bool {
        !self.force_refresh && self.hot.contains(path)
    }

    /// Enter `path` at `now`: its row becomes incomplete and leaves the hot set.
    pub open spec fn mark_searching(self, path: Seq<char>, now: i64) -> CacheState {
        CacheState {
            directories: put_dir(
                self.directories,
                searching_row(get_dir(self.directories, path), path, now),
            ),
            hot: self.hot.remove(path),
            ..self
        }
    }

    /// Complete `path` at `now`: its row is replaced. The path joins the hot
    /// set where the row is fresh at `now`, and leaves it where not.
    pub open spec fn mark_completed(self, path: Seq<char>, found: bool, deleted: bool, now: i64)
        -> CacheState {
        let row = completed_row(path, found, deleted, now);
        CacheState {
            directories: put_dir(self.directories, row),
            hot: if fresh_when_searched(row, self.window_hours) {
                self.hot.insert(path)
            } else {
                self.hot.remove(path)
            },
            ..self
        }
    }

    /// Record an error on `path` at `now`; the hot set is left alone.
    pub open spec fn mark_error(self, path: Seq<char>, message: Seq<char>, now: i64) -> CacheState {
        CacheState {
            directories: put_dir(
                self.directories,
                error_row(get_dir(self.directories, path), path, message, now),
            ),
            ..self
        }
    }

    /// Enter each of `paths` at `now`, in order.
    pub open spec fn mark_searching_batch(self, paths: Seq<Seq<char>>, now: i64) -> CacheState
        decreases paths.len(),
    {
        if paths.len() == 0 {
            self
        } else {
            self.mark_searching_batch(paths.drop_last(), now).mark_searching(paths.last(), now)
        }
    }

    /// Store `row`, with its match counted as deleted only where it was
    /// found. The path of a completed row that was fresh when it was searched
    /// joins the hot set; the path of any other leaves it.
    pub open spec fn record_state(self, row: DirRow) -> CacheState {
        CacheState {
            directories: put_dir(self.directories, repaired_row(row)),
            hot: if fresh_when_searched(row, self.window_hours) {
                self.hot.insert(row.path)
            } else {
                self.hot.remove(row.path)
            },
            ..self
        }
    }

    /// Store each of `rows`, in order.
    pub open spec fn mark_completed_batch(self, rows: Seq<DirRow>) -> CacheState
        decreases rows.len(),
    {
        if rows.len() == 0 {
            self
        } else {
            self.mark_completed_batch(rows.drop_last()).record_state(rows.last())
        }
    }

    /// The rows whose search did not complete removed.
    pub open spec fn clear_incomplete(self) -> CacheState {
        CacheState { directories: self.directories.filter(is_completed()), ..self }
    }

    /// The rows last searched before the sweep cutoff removed, and their
    /// paths taken from the hot set.
    pub open spec fn cleanup_old_entries(self, now: i64) -> CacheState {
        let cutoff = sweep_cutoff(now, self.window_hours);
        CacheState {
            directories: self.directories.filter(searched_since(cutoff)),
            hot: swept_hot(self.hot, self.directories, cutoff),
            ..self
        }
    }

    /// Every row repaired.
    pub open spec fn repair(self) -> CacheState {
        CacheState { directories: repaired_rows(self.directories), ..self }
    }

    /// Every table and the hot set emptied; the id counter of the queue stays.
    pub open spec fn clear_all(self) -> CacheState {
        CacheState {
            directories: Seq::empty(),
            work_queue: Seq::empty(),
            sessions: Seq::empty(),
            found_files: Seq::empty(),
            hot: Set::empty(),
            current_session: None,
            ..self
        }
    }

    /// How many directories completed their search within the time of
    /// `session`: from its start to its completion, or to `now`.
    pub open spec fn session_searched_count(self, session: Seq<char>, now: i64) -> nat {
        match get_session(self.sessions, session) {
            None => 0,
            Some(row) => {
                let end = match row.completed_at {
                    Some(at) => at,
                    None => now,
                };
                self.directories.filter(completed_between(row.started_at, end)).len()
            },
        }
    }

    // ----- work queue -----

    /// No id is left for a row that `enqueue_work` would have to insert.
    pub open spec fn enqueue_fails(self, session: Seq<char>, path: Seq<char>) -> bool {
        !is_queued(self.work_queue, path, session) && self.last_work_id >= i64::MAX
    }

    /// Queue `path` for `session` behind the rows of at least its priority,
    /// unless it is queued already or no id is left.
    pub open spec fn enqueue_work(self, session: Seq<char>, path: Seq<char>, priority: i32, now: i64)
        -> CacheState {
        if is_queued(self.work_queue, path, session) || self.last_work_id >= i64::MAX {
            self
        } else {
            let id = (self.last_work_id + 1) as i64;
            CacheState {
                work_queue: self.work_queue.insert(
                    queue_slot(self.work_queue, priority),
                    WorkRow { id: Some(id), path, discovered_at: now, priority, session_id: session },
                ),
                last_work_id: id,
                ..self
            }
        }
    }

    /// Queue each of `paths`, in order.
    pub open spec fn enqueue_all(
        self,
        session: Seq<char>,
        paths: Seq<Seq<char>>,
        priority: i32,
        now: i64,
    ) -> CacheState
        decreases paths.len(),
    {
        if paths.len() == 0 {
            self
        } else {
            self.enqueue_all(session, paths.drop_last(), priority, now).enqueue_work(
                session,
                paths.last(),
                priority,
                now,
            )
        }
    }

    /// One of `paths`, as its turn comes, finds no id.
    pub open spec fn enqueue_all_fails(
        self,
        session: Seq<char>,
        paths: Seq<Seq<char>>,
        priority: i32,
        now: i64,
    ) -> bool
        decreases paths.len(),
    {
        if paths.len() == 0 {
            false
        } else {
            self.enqueue_all_fails(session, paths.drop_last(), priority, now) || self.enqueue_all(
                session,
                paths.drop_last(),
                priority,
                now,
            ).enqueue_fails(session, paths.last())
        }
    }

    /// All of `paths` enqueued, or nothing where one of them finds no id.
    pub open spec fn enqueue_work_batch(
        self,
        session: Seq<char>,
        paths: Seq<Seq<char>>,
        priority: i32,
        now: i64,
    ) -> CacheState {
        if self.enqueue_all_fails(session, paths, priority, now) {
            self
        } else {
            self.enqueue_all(session, paths, priority, now)
        }
    }

    /// The rows of `session`, in drain order.
    pub open spec fn session_work(self, session: Seq<char>) -> Seq<WorkRow> {
        self.work_queue.filter(in_session(session))
    }

    /// The first `batch_size` rows of `session`, in drain order.
    pub open spec fn peek_work_batch(self, session: Seq<char>, batch_size: nat) -> Seq<WorkRow> {
        let items = self.session_work(session);
        if batch_size < items.len() {
            items.take(batch_size as int)
        } else {
            items
        }
    }

    /// The rows whose id is among `ids` removed.
    pub open spec fn remove_work_items(self, ids: Seq<i64>) -> CacheState {
        CacheState { work_queue: self.work_queue.filter(not_listed(ids)), ..self }
    }

    /// How many rows wait for `session`.
    pub open spec fn work_count(self, session: Seq<char>) -> nat {
        self.session_work(session).len()
    }

    // ----- found-file log -----

    /// Log `path` for `session`, unless it is logged already.
    pub open spec fn log_found(self, session: Seq<char>, path: Seq<char>, now: i64) -> CacheState {
        if is_logged(self.found_files, session, path) {
            self
        } else {
            CacheState {
                found_files: self.found_files.push(
                    FoundRow { session_id: session, file_path: path, discovered_at: now },
                ),
                ..self
            }
        }
    }

    /// Log each of `paths` for `session`, in order.
    pub open spec fn save_found_files(self, session: Seq<char>, paths: Seq<Seq<char>>, now: i64)
        -> CacheState
        decreases paths.len(),
    {
        if paths.len() == 0 {
            self
        } else {
            self.save_found_files(session, paths.drop_last(), now).log_found(
                session,
                paths.last(),
                now,
            )
        }
    }

    /// The matches logged for `session`, in the order they were logged.
    pub open spec fn load_found_files(self, session: Seq<char>) -> Seq<Seq<char>> {
        found_paths(self.found_files.filter(found_in_session(session)))
    }

    /// How many matches are logged for `session`.
    pub open spec fn found_count(self, session: Seq<char>) -> nat {
        self.found_files.filter(found_in_session(session)).len()
    }

    // ----- sessions -----

    /// Session `id` and everything that hangs on it removed.
    pub open spec fn cleanup_session(self, id: Seq<char>) -> CacheState {
        CacheState {
            work_queue: self.work_queue.filter(not_in_session(id)),
            found_files: self.found_files.filter(found_not_in_session(id)),
            sessions: self.sessions.filter(other_session(id)),
            ..self
        }
    }

    /// Every stale session and everything that hangs on one removed.
    pub open spec fn cleanup_stale_sessions(self, now: i64) -> CacheState {
        let cutoff = freshness_cutoff(now, self.window_hours);
        CacheState {
            work_queue: self.work_queue.filter(work_of_live_session(self.sessions, cutoff)),
            found_files: self.found_files.filter(found_of_live_session(self.sessions, cutoff)),
            sessions: self.sessions.filter(not_stale(cutoff)),
            ..self
        }
    }

    /// The row of a session that starts or goes on: active, not completed.
    pub open spec fn new_session_row(
        id: Seq<char>,
        root: Seq<char>,
        recursive: bool,
        dry_run: bool,
        started_at: i64,
    ) -> SessionRow {
        SessionRow {
            session_id: id,
            root_path: root,
            started_at,
            completed_at: None,
            is_recursive: recursive,
            is_dry_run: dry_run,
            status: SearchSessionStatus::Active,
        }
    }

    /// The store after stale sessions are gone and session `id` is registered
    /// as the current one, before its root is enqueued.
    pub open spec fn register_session(
        self,
        id: Seq<char>,
        root: Seq<char>,
        recursive: bool,
        dry_run: bool,
        now: i64,
    ) -> CacheState {
        let swept = self.cleanup_stale_sessions(now);
        if has_session(swept.sessions, id) {
            swept
        } else {
            let row = Self::new_session_row(id, root, recursive, dry_run, now);
            CacheState { sessions: swept.sessions.push(row), current_session: Some(row), ..swept }
        }
    }

    /// Stale sessions removed, session `id` registered, and its root queued.
    /// Where the identifier is taken only the stale sessions are removed.
    pub open spec fn start_session(
        self,
        id: Seq<char>,
        root: Seq<char>,
        recursive: bool,
        dry_run: bool,
        now: i64,
    ) -> CacheState {
        let swept = self.cleanup_stale_sessions(now);
        if has_session(swept.sessions, id) {
            swept
        } else {
            self.register_session(id, root, recursive, dry_run, now).enqueue_work(id, root, 0, now)
        }
    }

    /// The session rows with the columns of row `id` replaced by `row`'s.
    pub open spec fn set_session(rows: Seq<SessionRow>, id: Seq<char>, row: SessionRow) -> Seq<
        SessionRow,
    > {
        if has_session(rows, id) {
            rows.update(session_index(rows, id), row)
        } else {
            rows
        }
    }

    /// The current session completed at `now`, with its queued work removed.
    pub open spec fn complete_session(self, now: i64) -> CacheState {
        match self.current_session {
            None => self,
            Some(current) => {
                let id = current.session_id;
                let sessions = match get_session(self.sessions, id) {
                    Some(row) => Self::set_session(
                        self.sessions,
                        id,
                        SessionRow {
                            completed_at: Some(now),
                            status: SearchSessionStatus::Completed,
                            ..row
                        },
                    ),
                    None => self.sessions,
                };
                CacheState {
                    sessions,
                    work_queue: self.work_queue.filter(not_in_session(id)),
                    current_session: None,
                    ..self
                }
            },
        }
    }

    /// The current session marked as interrupted.
    pub open spec fn interrupt_session(self) -> CacheState {
        match self.current_session {
            None => self,
            Some(current) => {
                let id = current.session_id;
                match get_session(self.sessions, id) {
                    Some(row) => CacheState {
                        sessions: Self::set_session(
                            self.sessions,
                            id,
                            SessionRow { status: SearchSessionStatus::Interrupted, ..row },
                        ),
                        ..self
                    },
                    None => self,
                }
            },
        }
    }

    /// The current session marked as failed.
    pub open spec fn fail_session(self) -> CacheState {
        match self.current_session {
            None => self,
            Some(current) => {
                let id = current.session_id;
                match get_session(self.sessions, id) {
                    Some(row) => CacheState {
                        sessions: Self::set_session(
                            self.sessions,
                            id,
                            SessionRow { status: SearchSessionStatus::Failed, ..row },
                        ),
                        ..self
                    },
                    None => self,
                }
            },
        }
    }

    /// Whether `resume_session` finds a session that is worth resuming.
    pub open spec fn resumes(self, root: Seq<char>, recursive: bool, dry_run: bool) -> bool {
        has_resume_target(self.sessions, root, recursive, dry_run) && {
            let row = self.sessions[resume_target(self.sessions, root, recursive, dry_run)];
            self.work_count(row.session_id) > 0 || self.found_count(row.session_id) > 0
        }
    }

    /// The session to resume made active and current where it has work or
    /// matches, and removed where it has neither.
    pub open spec fn resume_session(self, root: Seq<char>, recursive: bool, dry_run: bool)
        -> CacheState {
        if !has_resume_target(self.sessions, root, recursive, dry_run) {
            self
        } else {
            let i = resume_target(self.sessions, root, recursive, dry_run);
            let row = self.sessions[i];
            if self.work_count(row.session_id) > 0 || self.found_count(row.session_id) > 0 {
                CacheState {
                    sessions: self.sessions.update(
                        i,
                        SessionRow { status: SearchSessionStatus::Active, ..row },
                    ),
                    current_session: Some(
                        Self::new_session_row(
                            row.session_id,
                            root,
                            recursive,
                            dry_run,
                            row.started_at,
                        ),
                    ),
                    ..self
                }
            } else {
                self.cleanup_session(row.session_id)
            }
        }
    }
}


// ---------------------------------------------------------------------------
// Opening a store
// ---------------------------------------------------------------------------

/// One row of the legacy table of searched directories.
pub struct LegacyRow {
    pub path: Seq<char>,
    pub last_searched_at: i64,
}

/// What was read from disk when a store is opened.
pub struct SnapshotView {
    /// The rows of the legacy table, where that table exists.
    pub legacy_dirs: Option<Seq<LegacyRow>>,
    pub directories: Seq<DirRow>,
    pub work_queue: Seq<WorkRow>,
    pub last_work_id: i64,
    pub sessions: Seq<SessionRow>,
    pub found_files: Seq<FoundRow>,
    /// What the engine's integrity check answered; `ok` when it found no fault.
    pub integrity_report: Seq<char>,
}

/// A legacy row carried forward: a completed search without a match.
pub open spec fn migrated_row(row: LegacyRow) -> DirRow {
    DirRow {
        path: row.path,
        last_searched_at: row.last_searched_at,
        search_completed: true,
        ds_store_found: false,
        ds_store_deleted: false,
        error_message: None,
    }
}

/// The legacy rows carried forward, in their order.
pub open spec fn migrated_rows(legacy: Seq<LegacyRow>) -> Seq<DirRow> {
    Seq::new(legacy.len(), |i: int| migrated_row(legacy[i]))
}

/// A legacy row has the path of a directory row or of a legacy row before it.
pub open spec fn migration_conflict(dirs: Seq<DirRow>, legacy: Seq<LegacyRow>) -> bool {
    exists|j: int|
        0 <= j < legacy.len() && (has_dir(dirs, (#[trigger] legacy[j]).path) || has_dir(
            migrated_rows(legacy.take(j)),
            legacy[j].path,
        ))
}

/// The paths of the rows that are completed and were searched after `cutoff`.
pub open spec fn fresh_paths(rows: Seq<DirRow>, cutoff: i64) -> Set<Seq<char>> {
    Set::new(
        |p: Seq<char>|
            exists|i: int|
                0 <= i < rows.len() && (#[trigger] rows[i]).path == p && rows[i].search_completed
                    && rows[i].last_searched_at > cutoff,
    )
}

impl SnapshotView {
    /// The snapshot holds the legacy table.
    pub open spec fn needs_migration(self) -> bool {
        self.legacy_dirs is Some
    }

    /// The legacy table holds a row that cannot be carried forward.
    pub open spec fn migration_fails(self) -> bool {
        self.legacy_dirs matches Some(legacy) && migration_conflict(self.directories, legacy)
    }

    /// The snapshot after the legacy rows are carried forward and their table
    /// is dropped.
    pub open spec fn migrate(self) -> SnapshotView {
        match self.legacy_dirs {
            Some(legacy) => SnapshotView {
                legacy_dirs: None,
                directories: self.directories + migrated_rows(legacy),
                ..self
            },
            None => self,
        }
    }

    /// The tables of the snapshot as a store, with an empty hot set.
    pub open spec fn tables(self, window_hours: u64, force_refresh: bool) -> CacheState {
        CacheState {
            directories: self.directories,
            work_queue: self.work_queue,
            last_work_id: self.last_work_id,
            sessions: self.sessions,
            found_files: self.found_files,
            hot: Set::empty(),
            window_hours,
            force_refresh,
            current_session: None,
        }
    }

    /// The snapshot passes the integrity check: the engine answered `ok` and
    /// the key constraints hold of the tables.
    pub open spec fn sound(self) -> bool {
        self.integrity_report == "ok"@ && self.tables(0, false).keys_hold()
    }

    /// The store that opening the snapshot at `now` gives, where migration
    /// does not fail: over a sound snapshot its tables, repaired, with the
    /// fresh rows in the hot set unless refresh is forced; else an empty store.
    pub open spec fn open(self, window_hours: u64, force_refresh: bool, now: i64) -> CacheState {
        let migrated = self.migrate();
        if migrated.sound() {
            CacheState {
                hot: if force_refresh {
                    Set::empty()
                } else {
                    fresh_paths(migrated.directories, freshness_cutoff(now, window_hours))
                },
                ..migrated.tables(window_hours, force_refresh).repair()
            }
        } else {
            CacheState {
                last_work_id: if migrated.last_work_id >= 0 {
                    migrated.last_work_id
                } else {
                    0
                },
                ..CacheState::empty(window_hours, force_refresh)
            }
        }
    }
}

/// `sorted` lists the rows of `rows` that satisfy `pred`, latest search first.
pub open spec fn lists_latest_first(sorted: Seq<DirRow>, rows: Seq<DirRow>, pred: spec_fn(DirRow) -> bool)
    -> bool {
    &&& sorted.to_multiset() == rows.filter(pred).to_multiset()
    &&& forall|i: int, j: int|
        0 <= i < j < sorted.len() ==> sorted[i].last_searched_at >= sorted[j].last_searched_at
}

} // verus!
