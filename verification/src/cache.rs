//! The cache: directory states with freshness windowing, sessions, the work
//! queue and the found-file log, over the tables of [`crate::model`].

use crate::clock::is_session_id_shaped;
use crate::clock::random_session_id;
use crate::clock::unix_timestamp;
use crate::model::CacheState;
use crate::model::DirRow;
use crate::model::FoundRow;
use crate::model::SessionRow;
use crate::model::WorkRow;
use crate::model::completed_between;
use crate::model::dir_paths;
use crate::model::fresh_paths;
use crate::model::freshness_cutoff;
use crate::model::has_deleted_match;
use crate::model::has_dir;
use crate::model::has_error;
use crate::model::has_match;
use crate::model::has_resume_target;
use crate::model::has_session;
use crate::model::is_completed;
use crate::model::is_incomplete;
use crate::model::is_resume_target;
use crate::model::lists_latest_first;
use crate::model::migrated_rows;
use crate::model::put_dir;
use crate::model::repaired_row;
use crate::model::resumable;
use crate::model::resume_target;
use crate::model::row_consistent;
use crate::model::sentinel_paths;
use crate::model::sweep_cutoff;
use crate::model::undeleted_under;
use crate::seqs::lemma_filter_ends;
use crate::seqs::lemma_filter_step;
use crate::snapshot::StoreSnapshot;
use crate::snapshot::legacy_rows;
use crate::tables::completed_dirs;
use crate::tables::copy_dirs;
use crate::tables::copy_found;
use crate::tables::copy_sessions;
use crate::tables::copy_work;
use crate::tables::count_work;
use crate::tables::dir_rows;
use crate::tables::dirs_searched_since;
use crate::tables::dirs_unique;
use crate::tables::find_dir;
use crate::tables::find_session;
use crate::tables::found_of_live_sessions;
use crate::tables::found_of_session;
use crate::tables::found_rows;
use crate::tables::found_unique;
use crate::tables::found_without_session;
use crate::tables::fresh_dirs;
use crate::tables::has_dir_in;
use crate::tables::incomplete_latest_first;
use crate::tables::is_logged_in;
use crate::tables::is_queued_in;
use crate::tables::lemma_cleanup_inv;
use crate::tables::lemma_clear_incomplete_inv;
use crate::tables::lemma_consistent_rows_need_no_repair;
use crate::tables::lemma_enqueue_inv;
use crate::tables::lemma_filter_found;
use crate::tables::lemma_filter_sessions;
use crate::tables::lemma_filter_work;
use crate::tables::lemma_put_dir_hot;
use crate::tables::lemma_repaired_rows;
use crate::tables::live_sessions;
use crate::tables::paths_of;
use crate::tables::put_dir_row;
use crate::tables::repair_dirs;
use crate::tables::session_rows;
use crate::tables::sessions_unique;
use crate::tables::sessions_without;
use crate::tables::slot_for;
use crate::tables::stale_session_ids;
use crate::tables::sweep_hot_set;
use crate::tables::work_of_live_sessions;
use crate::tables::work_of_session;
use crate::tables::work_rows;
use crate::tables::work_sound;
use crate::tables::work_without_ids;
use crate::tables::work_without_session;
use crate::text::copy_opt_text;
use crate::text::has_prefix;
use crate::text::join_text;
use crate::text::opt_text;
use crate::text::same_text;
use crate::text::texts;
use vstd::hash_set::StringHashSet;
use vstd::prelude::*;

verus! {

/// The state of a directory in the cache.
#[derive(Debug)]
pub struct DirectoryState {
    pub path: String,
    pub last_searched_at: i64,
    pub search_completed: bool,
    pub ds_store_found: bool,
    pub ds_store_deleted: bool,
    pub error_message: Option<String>,
}

impl View for DirectoryState {
    type V = DirRow;

    open spec fn view(&self) -> DirRow {
        DirRow {
            path: self.path@,
            last_searched_at: self.last_searched_at,
            search_completed: self.search_completed,
            ds_store_found: self.ds_store_found,
            ds_store_deleted: self.ds_store_deleted,
            error_message: opt_text(self.error_message),
        }
    }
}

impl Clone for DirectoryState {
    fn clone(&self) -> (copy: Self)
        ensures
            copy@ == self@,
    {
        DirectoryState {
            path: self.path.clone(),
            last_searched_at: self.last_searched_at,
            search_completed: self.search_completed,
            ds_store_found: self.ds_store_found,
            ds_store_deleted: self.ds_store_deleted,
            error_message: copy_opt_text(&self.error_message),
        }
    }
}

/// What the cache knows of a directory.
#[derive(Debug, Clone, Copy, PartialEq, Eq, Structural)]
pub enum DirectoryStatus {
    /// The directory has never been searched.
    NotCached,
    /// A search of the directory was started but not completed.
    Incomplete,
    /// The directory was searched, but longer ago than the window allows.
    Stale,
    /// The directory was searched within the window.
    Fresh,
}

/// A directory that waits in the work queue.
#[derive(Debug)]
pub struct WorkItem {
    pub id: Option<i64>,
    pub path: String,
    pub discovered_at: i64,
    pub priority: i32,
    pub session_id: String,
}

impl View for WorkItem {
    type V = WorkRow;

    open spec fn view(&self) -> WorkRow {
        WorkRow {
            id: self.id,
            path: self.path@,
            discovered_at: self.discovered_at,
            priority: self.priority,
            session_id: self.session_id@,
        }
    }
}

impl Clone for WorkItem {
    fn clone(&self) -> (copy: Self)
        ensures
            copy@ == self@,
    {
        WorkItem {
            id: self.id,
            path: self.path.clone(),
            discovered_at: self.discovered_at,
            priority: self.priority,
            session_id: self.session_id.clone(),
        }
    }
}

/// The life of a scan session.
#[derive(Debug, Clone, Copy, PartialEq, Eq, Structural)]
pub enum SearchSessionStatus {
    Active,
    Completed,
    Interrupted,
    Failed,
}

/// One scan invocation.
#[derive(Debug)]
pub struct SearchSession {
    pub session_id: String,
    pub root_path: String,
    pub started_at: i64,
    pub completed_at: Option<i64>,
    pub is_recursive: bool,
    pub is_dry_run: bool,
    pub status: SearchSessionStatus,
}

impl View for SearchSession {
    type V = SessionRow;

    open spec fn view(&self) -> SessionRow {
        SessionRow {
            session_id: self.session_id@,
            root_path: self.root_path@,
            started_at: self.started_at,
            completed_at: self.completed_at,
            is_recursive: self.is_recursive,
            is_dry_run: self.is_dry_run,
            status: self.status,
        }
    }
}

impl Clone for SearchSession {
    fn clone(&self) -> (copy: Self)
        ensures
            copy@ == self@,
    {
        SearchSession {
            session_id: self.session_id.clone(),
            root_path: self.root_path.clone(),
            started_at: self.started_at,
            completed_at: self.completed_at,
            is_recursive: self.is_recursive,
            is_dry_run: self.is_dry_run,
            status: self.status,
        }
    }
}

/// A match that a session has logged.
#[derive(Debug)]
pub struct FoundFile {
    pub session_id: String,
    pub file_path: String,
    pub discovered_at: i64,
}

impl View for FoundFile {
    type V = FoundRow;

    open spec fn view(&self) -> FoundRow {
        FoundRow {
            session_id: self.session_id@,
            file_path: self.file_path@,
            discovered_at: self.discovered_at,
        }
    }
}

impl Clone for FoundFile {
    fn clone(&self) -> (copy: Self)
        ensures
            copy@ == self@,
    {
        FoundFile {
            session_id: self.session_id.clone(),
            file_path: self.file_path.clone(),
            discovered_at: self.discovered_at,
        }
    }
}

impl SearchSessionStatus {
    /// The word that stands for the status in the session table.
    pub open spec fn spec_str(self) -> Seq<char> {
        match self {
            SearchSessionStatus::Active => "active"@,
            SearchSessionStatus::Completed => "completed"@,
            SearchSessionStatus::Interrupted => "interrupted"@,
            SearchSessionStatus::Failed => "failed"@,
        }
    }

    /// The status that a word of the session table stands for; an unknown word
    /// reads as `Failed`.
    pub open spec fn spec_parse(s: Seq<char>) -> SearchSessionStatus {
        if s == "active"@ {
            SearchSessionStatus::Active
        } else if s == "completed"@ {
            SearchSessionStatus::Completed
        } else if s == "interrupted"@ {
            SearchSessionStatus::Interrupted
        } else {
            SearchSessionStatus::Failed
        }
    }

    /// The word that stands for the status in the session table.
    #[must_use]
    pub fn as_str(&self) -> (word: &'static str)
        ensures
            word@ == self.spec_str(),
    {
        match self {
            SearchSessionStatus::Active => "active",
            SearchSessionStatus::Completed => "completed",
            SearchSessionStatus::Interrupted => "interrupted",
            SearchSessionStatus::Failed => "failed",
        }
    }

    /// The status that a word of the session table stands for; an unknown word
    /// reads as `Failed`.
    #[must_use]
    pub fn parse(s: &str) -> (status: Self)
        ensures
            status == Self::spec_parse(s@),
    {
        if same_text(s, "active") {
            SearchSessionStatus::Active
        } else if same_text(s, "completed") {
            SearchSessionStatus::Completed
        } else if same_text(s, "interrupted") {
            SearchSessionStatus::Interrupted
        } else {
            SearchSessionStatus::Failed
        }
    }

    /// Reading back the word of a status gives the status.
    pub proof fn lemma_parse_as_str(self)
        ensures
            Self::spec_parse(self.spec_str()) == self,
    {
        reveal_strlit("active");
        reveal_strlit("completed");
        reveal_strlit("interrupted");
        reveal_strlit("failed");
        assert("active"@.len() == 6);
        assert("completed"@.len() == 9);
        assert("interrupted"@.len() == 11);
        assert("failed"@[0] == 'f');
        assert("active"@[0] == 'a');
    }
}

/// Why an operation of the cache did not go through.
#[derive(Debug, Clone, Copy, PartialEq, Eq, Structural)]
pub enum CacheError {
    /// The engine's integrity check did not answer `ok`.
    IntegrityCheckFailed,
    /// A row of the legacy table has the path of another row.
    MigrationConflict,
    /// A session with the new identifier exists already.
    DuplicateSession,
    /// The work queue has given out its last id.
    WorkQueueFull,
}

impl CacheError {
    /// The error in words.
    pub open spec fn spec_message(self) -> Seq<char> {
        match self {
            CacheError::IntegrityCheckFailed => "Database integrity check failed"@,
            CacheError::MigrationConflict => "Legacy cache rows conflict with the directory cache"@,
            CacheError::DuplicateSession => "A session with this identifier exists already"@,
            CacheError::WorkQueueFull => "The work queue has no identifier left"@,
        }
    }

    /// The error in words.
    pub fn message(&self) -> (text: &'static str)
        ensures
            text@ == self.spec_message(),
    {
        match self {
            CacheError::IntegrityCheckFailed => "Database integrity check failed",
            CacheError::MigrationConflict => "Legacy cache rows conflict with the directory cache",
            CacheError::DuplicateSession => "A session with this identifier exists already",
            CacheError::WorkQueueFull => "The work queue has no identifier left",
        }
    }
}

/// Counts over the directory cache.
#[derive(Debug, Clone, Copy)]
pub struct CacheStats {
    pub total_entries: u64,
    pub completed_searches: u64,
    pub incomplete_searches: u64,
    pub directories_with_ds_store: u64,
    pub ds_stores_deleted: u64,
    pub errors: u64,
}

/// The moment after which a search counts as fresh at `now`: `now` less the
/// window, clamped to the range of the timestamps.
pub fn freshness_cutoff_at(now: i64, window_hours: u64) -> (cutoff: i64)
    ensures
        cutoff == freshness_cutoff(now, window_hours),
{
    let span: i64 = if window_hours > 2562047788015215u64 {
        i64::MAX
    } else {
        (window_hours as i64) * 3600
    };
    if now < i64::MIN + span {
        i64::MIN
    } else {
        now - span
    }
}

/// The moment before which a row is swept at `now`: `now` less twice the
/// window, clamped to the range of the timestamps.
pub fn sweep_cutoff_at(now: i64, window_hours: u64) -> (cutoff: i64)
    ensures
        cutoff == sweep_cutoff(now, window_hours),
{
    let span: i64 = if window_hours > 1281023894007607u64 {
        i64::MAX
    } else {
        (window_hours as i64) * 7200
    };
    if now < i64::MIN + span {
        i64::MIN
    } else {
        now - span
    }
}

/// What storing a row does to the hot set.
enum HotChange {
    /// The path of the row joins the hot set.
    Join,
    /// The path of the row leaves the hot set.
    Leave,
    /// The hot set stays as it is.
    Keep,
}

/// The cache itself. Its tables are held in memory in table order; what it
/// holds is spoken of through its view, a [`CacheState`].
pub struct Cache {
    directories: Vec<DirectoryState>,
    work_queue: Vec<WorkItem>,
    last_work_id: i64,
    sessions: Vec<SearchSession>,
    found_files: Vec<FoundFile>,
    fresh_complete_dirs: StringHashSet,
    window_hours: u64,
    force_refresh: bool,
    current_session: Option<SearchSession>,
}

/// The view of an optional session.
pub open spec fn opt_session(session: Option<SearchSession>) -> Option<SessionRow> {
    match session {
        Some(s) => Some(s@),
        None => None,
    }
}

impl View for Cache {
    type V = CacheState;

    closed spec fn view(&self) -> CacheState {
        CacheState {
            directories: dir_rows(self.directories@),
            work_queue: work_rows(self.work_queue@),
            last_work_id: self.last_work_id,
            sessions: session_rows(self.sessions@),
            found_files: found_rows(self.found_files@),
            hot: self.fresh_complete_dirs@,
            window_hours: self.window_hours,
            force_refresh: self.force_refresh,
            current_session: opt_session(self.current_session),
        }
    }
}

impl Cache {
    /// The key constraints hold of the cache's tables.
    pub open spec fn wf(&self) -> bool {
        self@.inv()
    }

    /// Every cache is well formed.
    #[verifier::type_invariant]
    pub open spec fn tables_sound(&self) -> bool {
        self.wf()
    }

    /// A cache over empty tables.
    pub fn empty(window_hours: u64, force: bool) -> (cache: Cache)
        ensures
            cache@ == CacheState::empty(window_hours, force),
            cache.wf(),
    {
        let cache = Cache {
            directories: Vec::new(),
            work_queue: Vec::new(),
            last_work_id: 0,
            sessions: Vec::new(),
            found_files: Vec::new(),
            fresh_complete_dirs: StringHashSet::new(),
            window_hours,
            force_refresh: force,
            current_session: None,
        };
        assert(cache@ =~= CacheState::empty(window_hours, force));
        cache
    }

    fn take_directories(&mut self) -> (rows: Vec<DirectoryState>)
        requires
            old(self)@.hot =~= Set::<Seq<char>>::empty(),
        ensures
            dir_rows(rows@) == old(self)@.directories,
            rows@ == old(self).directories@,
            final(self)@ == (CacheState { directories: Seq::empty(), ..old(self)@ }),
    {
        proof {
            use_type_invariant(&*self);
        }
        let mut rows: Vec<DirectoryState> = Vec::new();
        assert(dir_rows(rows@) =~= Seq::<DirRow>::empty());
        core::mem::swap(&mut self.directories, &mut rows);
        assert(self@ =~= (CacheState { directories: Seq::empty(), ..old(self)@ }));
        rows
    }

    /// Store `row`, and let its path join the hot set, leave it, or stay as
    /// it is.
    fn put_row(&mut self, row: DirectoryState, change: HotChange)
        requires
            row_consistent(row@),
            !(change is Leave) ==> row.search_completed,
        ensures
            final(self)@ == (CacheState {
                directories: put_dir(old(self)@.directories, row@),
                hot: match change {
                    HotChange::Join => old(self)@.hot.insert(row.path@),
                    HotChange::Leave => old(self)@.hot.remove(row.path@),
                    HotChange::Keep => old(self)@.hot,
                },
                ..old(self)@
            }),
            final(self).wf(),
    {
        proof {
            use_type_invariant(&*self);
            lemma_put_dir_hot(self@.directories, row@, self@.hot);
        }
        let path = row.path.clone();
        let mut hot = self.take_hot_set();
        let mut rows = self.take_directories();
        put_dir_row(&mut rows, row);
        self.directories = rows;
        match change {
            HotChange::Join => {
                hot.insert(path);
            },
            HotChange::Leave => {
                hot.remove(path.as_str());
            },
            HotChange::Keep => {},
        }
        self.fresh_complete_dirs = hot;
        proof {
            use_type_invariant(&*self);
        }
        assert(self@ =~= (CacheState {
            directories: put_dir(old(self)@.directories, row@),
            hot: match change {
                HotChange::Join => old(self)@.hot.insert(row.path@),
                HotChange::Leave => old(self)@.hot.remove(row.path@),
                HotChange::Keep => old(self)@.hot,
            },
            ..old(self)@
        }));
    }

    fn take_work_queue(&mut self) -> (rows: Vec<WorkItem>)
        ensures
            work_rows(rows@) == old(self)@.work_queue,
            rows@ == old(self).work_queue@,
            final(self)@ == (CacheState { work_queue: Seq::empty(), ..old(self)@ }),
    {
        proof {
            use_type_invariant(&*self);
        }
        let mut rows: Vec<WorkItem> = Vec::new();
        assert(work_rows(rows@) =~= Seq::<WorkRow>::empty());
        core::mem::swap(&mut self.work_queue, &mut rows);
        assert(self@ =~= (CacheState { work_queue: Seq::empty(), ..old(self)@ }));
        rows
    }

    fn take_sessions(&mut self) -> (rows: Vec<SearchSession>)
        ensures
            session_rows(rows@) == old(self)@.sessions,
            rows@ == old(self).sessions@,
            final(self)@ == (CacheState { sessions: Seq::empty(), ..old(self)@ }),
    {
        proof {
            use_type_invariant(&*self);
        }
        let mut rows: Vec<SearchSession> = Vec::new();
        assert(session_rows(rows@) =~= Seq::<SessionRow>::empty());
        core::mem::swap(&mut self.sessions, &mut rows);
        assert(self@ =~= (CacheState { sessions: Seq::empty(), ..old(self)@ }));
        rows
    }

    fn take_found_files(&mut self) -> (rows: Vec<FoundFile>)
        ensures
            found_rows(rows@) == old(self)@.found_files,
            rows@ == old(self).found_files@,
            final(self)@ == (CacheState { found_files: Seq::empty(), ..old(self)@ }),
    {
        proof {
            use_type_invariant(&*self);
        }
        let mut rows: Vec<FoundFile> = Vec::new();
        assert(found_rows(rows@) =~= Seq::<FoundRow>::empty());
        core::mem::swap(&mut self.found_files, &mut rows);
        assert(self@ =~= (CacheState { found_files: Seq::empty(), ..old(self)@ }));
        rows
    }

    fn take_hot_set(&mut self) -> (hot: StringHashSet)
        ensures
            hot@ == old(self)@.hot,
            final(self)@ == (CacheState { hot: Set::empty(), ..old(self)@ }),
    {
        proof {
            use_type_invariant(&*self);
        }
        let mut hot = StringHashSet::new();
        core::mem::swap(&mut self.fresh_complete_dirs, &mut hot);
        assert(self@ =~= (CacheState { hot: Set::empty(), ..old(self)@ }));
        hot
    }

    /// Whether the snapshot holds the legacy table, whose rows are to be
    /// carried forward.
    pub fn needs_migration(snapshot: &StoreSnapshot) -> (needed: bool)
        ensures
            needed == snapshot@.needs_migration(),
    {
        snapshot.legacy_dirs.is_some()
    }

    /// Carry the rows of the legacy table forward, as completed searches
    /// without a match, and drop that table. All or nothing: where a legacy
    /// row has the path of a row that stands already, the snapshot is left
    /// as it was.
    pub fn migrate_schema(snapshot: &mut StoreSnapshot) -> (migrated: Result<(), CacheError>)
        ensures
            migrated is Err <==> old(snapshot)@.migration_fails(),
            migrated matches Err(e) ==> e == CacheError::MigrationConflict && final(snapshot)@ == old(
                snapshot,
            )@,
            migrated is Ok ==> final(snapshot)@ == old(snapshot)@.migrate(),
    {
        let mut added: Vec<DirectoryState> = Vec::new();
        match &snapshot.legacy_dirs {
            None => {
                return Ok(());
            },
            Some(legacy) => {
                let ghost rows = legacy_rows(legacy@);
                let ghost dirs = dir_rows(snapshot.directories@);
                let mut j: usize = 0;
                assert(dir_rows(added@) =~= migrated_rows(rows.take(0)));
                while j < legacy.len()
                    invariant
                        j <= legacy.len(),
                        rows == legacy_rows(legacy@),
                        dirs == dir_rows(snapshot.directories@),
                        *snapshot == *old(snapshot),
                        snapshot@.legacy_dirs == Some(rows),
                        dir_rows(added@) == migrated_rows(rows.take(j as int)),
                        forall|k: int|
                            0 <= k < j ==> !(has_dir(dirs, (#[trigger] rows[k]).path) || has_dir(
                                migrated_rows(rows.take(k)),
                                rows[k].path,
                            )),
                    decreases legacy.len() - j,
                {
                    let path = legacy[j].path.as_str();
                    if has_dir_in(&snapshot.directories, path) || has_dir_in(&added, path) {
                        assert(has_dir(dirs, rows[j as int].path) || has_dir(
                            migrated_rows(rows.take(j as int)),
                            rows[j as int].path,
                        ));
                        return Err(CacheError::MigrationConflict);
                    }
                    let ghost before = added@;
                    added.push(
                        DirectoryState {
                            path: legacy[j].path.clone(),
                            last_searched_at: legacy[j].last_searched_at,
                            search_completed: true,
                            ds_store_found: false,
                            ds_store_deleted: false,
                            error_message: None,
                        },
                    );
                    proof {
                        let front = migrated_rows(rows.take(j as int));
                        let next = migrated_rows(rows.take(j + 1));
                        assert(dir_rows(before) == front);
                        assert(dir_rows(before).len() == j);
                        assert(added@ == before.push(added@[j as int]));
                        assert(rows[j as int] == legacy@[j as int]@);
                        assert(next.len() == j + 1);
                        assert forall|k: int| 0 <= k < j + 1 implies dir_rows(added@)[k]
                            == next[k] by {
                            if k < j {
                                assert(added@[k] == before[k]);
                                assert(dir_rows(before)[k] == front[k]);
                                assert(rows.take(j as int)[k] == rows.take(j + 1)[k]);
                            } else {
                                assert(rows.take(j + 1)[k] == rows[j as int]);
                                assert(added@[k]@ == crate::model::migrated_row(rows[j as int]));
                            }
                        }
                        assert(dir_rows(added@) =~= next);
                    }
                    j += 1;
                }
                assert(rows.take(legacy.len() as int) =~= rows);
            },
        }
        let ghost carried = dir_rows(added@);
        snapshot.directories.append(&mut added);
        snapshot.legacy_dirs = None;
        assert(dir_rows(snapshot.directories@) =~= dir_rows(old(snapshot).directories@) + carried);
        Ok(())
    }

    /// The hot set of a store at `now`: the paths of the rows that are
    /// completed and were searched within the window.
    pub fn load_fresh_complete_dirs(rows: &Vec<DirectoryState>, window_hours: u64, now: i64) -> (hot:
        StringHashSet)
        ensures
            hot@ == fresh_paths(dir_rows(rows@), freshness_cutoff(now, window_hours)),
    {
        let cutoff = freshness_cutoff_at(now, window_hours);
        fresh_dirs(rows, cutoff)
    }

    /// Open a cache over `snapshot` at `now`. Legacy rows are carried forward
    /// first; where that fails, so does the opening. Over a snapshot that
    /// passes the integrity check the cache holds its tables, repaired, and,
    /// unless `force` is set, the fresh rows in its hot set. Over any other
    /// snapshot it starts empty.
    pub fn new_at(snapshot: StoreSnapshot, window_hours: u64, force: bool, now: i64) -> (opened: Result<
        Cache,
        CacheError,
    >)
        ensures
            opened is Err <==> snapshot@.migration_fails(),
            opened matches Err(e) ==> e == CacheError::MigrationConflict,
            opened matches Ok(cache) ==> cache@ == snapshot@.open(window_hours, force, now)
                && cache.wf(),
    {
        let mut snapshot = snapshot;
        if Self::needs_migration(&snapshot) {
            match Self::migrate_schema(&mut snapshot) {
                Ok(()) => {},
                Err(e) => {
                    return Err(e);
                },
            }
        }
        let hot = if force {
            StringHashSet::new()
        } else {
            Self::load_fresh_complete_dirs(&snapshot.directories, window_hours, now)
        };
        let tables_sound = snapshot.last_work_id >= 0 && dirs_unique(&snapshot.directories)
            && work_sound(&snapshot.work_queue, snapshot.last_work_id) && sessions_unique(
            &snapshot.sessions,
        ) && found_unique(&snapshot.found_files);
        proof {
            lemma_repaired_rows(dir_rows(snapshot.directories@));
        }
        if !tables_sound {
            let cache = Cache {
                directories: Vec::new(),
                work_queue: Vec::new(),
                last_work_id: if snapshot.last_work_id >= 0 {
                    snapshot.last_work_id
                } else {
                    0
                },
                sessions: Vec::new(),
                found_files: Vec::new(),
                fresh_complete_dirs: StringHashSet::new(),
                window_hours,
                force_refresh: force,
                current_session: None,
            };
            assert(cache@ =~= snapshot@.open(window_hours, force, now));
            return Ok(cache);
        }
        let report = snapshot.integrity_report;
        let mut directories = snapshot.directories;
        let ghost loaded = dir_rows(directories@);
        repair_dirs(&mut directories);
        proof {
            let cutoff = freshness_cutoff(now, window_hours);
            assert forall|p: Seq<char>| fresh_paths(loaded, cutoff).contains(
                p,
            ) implies crate::model::has_completed_dir(dir_rows(directories@), p) by {
                let i = choose|i: int|
                    0 <= i < loaded.len() && (#[trigger] loaded[i]).path == p
                        && loaded[i].search_completed && loaded[i].last_searched_at > cutoff;
                assert(dir_rows(directories@)[i].path == p && dir_rows(
                    directories@,
                )[i].search_completed);
            }
        }
        let mut cache = Cache {
            directories,
            work_queue: snapshot.work_queue,
            last_work_id: snapshot.last_work_id,
            sessions: snapshot.sessions,
            found_files: snapshot.found_files,
            fresh_complete_dirs: hot,
            window_hours,
            force_refresh: force,
            current_session: None,
        };
        match cache.validate_integrity(report.as_str()) {
            Ok(()) => {},
            Err(_) => {
                cache.clear_all();
            },
        }
        assert(cache@ =~= snapshot@.migrate().open(window_hours, force, now));
        Ok(cache)
    }

    /// Open a cache over `snapshot` now.
    pub fn new(snapshot: StoreSnapshot, window_hours: u64, force: bool) -> (opened: Result<
        Cache,
        CacheError,
    >)
        ensures
            opened is Err <==> snapshot@.migration_fails(),
            opened matches Err(e) ==> e == CacheError::MigrationConflict,
            opened matches Ok(cache) ==> cache.wf() && exists|now: i64|
                cache@ == snapshot@.open(window_hours, force, now),
    {
        let now = unix_timestamp();
        Self::new_at(snapshot, window_hours, force, now)
    }

    /// The tables of the cache as they are to stand on disk.
    pub fn snapshot(&self) -> (snapshot: StoreSnapshot)
        ensures
            snapshot@.legacy_dirs is None,
            snapshot@.directories == self@.directories,
            snapshot@.work_queue == self@.work_queue,
            snapshot@.last_work_id == self@.last_work_id,
            snapshot@.sessions == self@.sessions,
            snapshot@.found_files == self@.found_files,
            snapshot@.integrity_report == "ok"@,
            snapshot@.sound(),
    {
        proof {
            use_type_invariant(self);
        }
        StoreSnapshot {
            legacy_dirs: None,
            directories: copy_dirs(&self.directories),
            work_queue: copy_work(&self.work_queue),
            last_work_id: self.last_work_id,
            sessions: copy_sessions(&self.sessions),
            found_files: copy_found(&self.found_files),
            integrity_report: "ok".to_owned(),
        }
    }

    /// The directories whose search did not complete, latest search first.
    pub fn get_incomplete_searches(&self) -> (paths: Vec<String>)
        ensures
            exists|sorted: Seq<DirRow>|
                lists_latest_first(sorted, self@.directories, is_incomplete()) && texts(paths@)
                    == dir_paths(sorted),
    {
        let sorted = incomplete_latest_first(&self.directories);
        let paths = paths_of(&sorted);
        assert(lists_latest_first(dir_rows(sorted@), self@.directories, is_incomplete()) && texts(
            paths@,
        ) == dir_paths(dir_rows(sorted@)));
        paths
    }

    /// Whether `path` is skipped without a look at the tables: it is in the
    /// hot set, and refresh is not forced.
    #[must_use]
    pub fn should_skip(&self, path: &str) -> (skip: bool)
        ensures
            skip == self@.skips(path@),
    {
        !self.force_refresh && self.fresh_complete_dirs.contains(path)
    }

    /// What the cache knows of `path` at `now`.
    pub fn directory_status_at(&self, path: &str, now: i64) -> (status: DirectoryStatus)
        ensures
            status == self@.status_of(path@, now),
    {
        proof {
            use_type_invariant(&*self);
        }
        if self.force_refresh {
            return DirectoryStatus::NotCached;
        }
        let cutoff = freshness_cutoff_at(now, self.window_hours);
        match find_dir(&self.directories, path) {
            None => DirectoryStatus::NotCached,
            Some(i) => {
                let row = &self.directories[i];
                if !row.search_completed {
                    DirectoryStatus::Incomplete
                } else if row.last_searched_at <= cutoff {
                    DirectoryStatus::Stale
                } else {
                    DirectoryStatus::Fresh
                }
            },
        }
    }

    /// What the cache knows of `path` now. In force-refresh mode every
    /// directory is `NotCached`.
    pub fn get_directory_status(&self, path: &str) -> (status: DirectoryStatus)
        ensures
            exists|now: i64| status == self@.status_of(path@, now),
            self@.force_refresh ==> status == DirectoryStatus::NotCached,
    {
        proof {
            use_type_invariant(&*self);
        }
        let now = unix_timestamp();
        self.directory_status_at(path, now)
    }

    /// Whether `path` is to be searched at `now`: unless it is fresh.
    pub fn should_search_at(&self, path: &str, now: i64) -> (search: bool)
        ensures
            search == (self@.status_of(path@, now) != DirectoryStatus::Fresh),
    {
        proof {
            use_type_invariant(&*self);
        }
        match self.directory_status_at(path, now) {
            DirectoryStatus::Fresh => false,
            _ => true,
        }
    }

    /// Whether `path` is to be searched now.
    pub fn should_search(&self, path: &str) -> (search: bool)
        ensures
            exists|now: i64| search == (self@.status_of(path@, now) != DirectoryStatus::Fresh),
            self@.force_refresh ==> search,
    {
        proof {
            use_type_invariant(&*self);
        }
        let now = unix_timestamp();
        self.should_search_at(path, now)
    }

    /// Enter `path` at `now`: its row becomes incomplete and leaves the hot set.
    pub fn mark_searching_at(&mut self, path: &str, now: i64)
        ensures
            final(self)@ == old(self)@.mark_searching(path@, now),
            final(self).wf(),
    {
        proof {
            use_type_invariant(&*self);
        }
        let row = match find_dir(&self.directories, path) {
            Some(i) => {
                let prev = &self.directories[i];
                DirectoryState {
                    path: prev.path.clone(),
                    last_searched_at: now,
                    search_completed: false,
                    ds_store_found: prev.ds_store_found,
                    ds_store_deleted: prev.ds_store_deleted,
                    error_message: copy_opt_text(&prev.error_message),
                }
            },
            None => DirectoryState {
                path: path.to_owned(),
                last_searched_at: now,
                search_completed: false,
                ds_store_found: false,
                ds_store_deleted: false,
                error_message: None,
            },
        };
        self.put_row(row, HotChange::Leave);
        assert(self@ =~= old(self)@.mark_searching(path@, now));
    }

    /// Enter `path` now.
    pub fn mark_searching(&mut self, path: &str)
        ensures
            exists|now: i64| final(self)@ == old(self)@.mark_searching(path@, now),
            final(self).wf(),
    {
        proof {
            use_type_invariant(&*self);
        }
        let now = unix_timestamp();
        self.mark_searching_at(path, now);
    }

    /// Complete `path` at `now` with what was found there. The match counts
    /// as deleted only where it was found. The path joins the hot set where
    /// the row is fresh at `now`, which it is unless the window is empty.
    pub fn mark_completed_at(&mut self, path: &str, ds_store_found: bool, ds_store_deleted: bool, now: i64)
        ensures
            final(self)@ == old(self)@.mark_completed(path@, ds_store_found, ds_store_deleted, now),
            final(self).wf(),
    {
        proof {
            use_type_invariant(&*self);
        }
        let row = DirectoryState {
            path: path.to_owned(),
            last_searched_at: now,
            search_completed: true,
            ds_store_found,
            ds_store_deleted: ds_store_deleted && ds_store_found,
            error_message: None,
        };
        if now > freshness_cutoff_at(now, self.window_hours) {
            self.put_row(row, HotChange::Join);
        } else {
            self.put_row(row, HotChange::Leave);
        }
        assert(self@ =~= old(self)@.mark_completed(path@, ds_store_found, ds_store_deleted, now));
    }

    /// Complete `path` now.
    pub fn mark_completed(&mut self, path: &str, ds_store_found: bool, ds_store_deleted: bool)
        ensures
            exists|now: i64|
                final(self)@ == old(self)@.mark_completed(
                    path@,
                    ds_store_found,
                    ds_store_deleted,
                    now,
                ),
            final(self).wf(),
    {
        proof {
            use_type_invariant(&*self);
        }
        let now = unix_timestamp();
        self.mark_completed_at(path, ds_store_found, ds_store_deleted, now);
    }

    /// Complete `path` now with no match found.
    pub fn mark_searched(&mut self, path: &str)
        ensures
            exists|now: i64| final(self)@ == old(self)@.mark_completed(path@, false, false, now),
            final(self).wf(),
    {
        proof {
            use_type_invariant(&*self);
        }
        self.mark_completed(path, false, false);
    }

    /// Record an error on `path` at `now`: the row is completed and carries the
    /// message; the hot set is left alone.
    pub fn mark_error_at(&mut self, path: &str, error: &str, now: i64)
        ensures
            final(self)@ == old(self)@.mark_error(path@, error@, now),
            final(self).wf(),
    {
        proof {
            use_type_invariant(&*self);
        }
        let row = match find_dir(&self.directories, path) {
            Some(i) => {
                let prev = &self.directories[i];
                DirectoryState {
                    path: prev.path.clone(),
                    last_searched_at: now,
                    search_completed: true,
                    ds_store_found: prev.ds_store_found,
                    ds_store_deleted: prev.ds_store_deleted,
                    error_message: Some(error.to_owned()),
                }
            },
            None => DirectoryState {
                path: path.to_owned(),
                last_searched_at: now,
                search_completed: true,
                ds_store_found: false,
                ds_store_deleted: false,
                error_message: Some(error.to_owned()),
            },
        };
        self.put_row(row, HotChange::Keep);
        assert(self@ =~= old(self)@.mark_error(path@, error@, now));
    }

    /// Record an error on `path` now.
    pub fn mark_error(&mut self, path: &str, error: &str)
        ensures
            exists|now: i64| final(self)@ == old(self)@.mark_error(path@, error@, now),
            final(self).wf(),
    {
        proof {
            use_type_invariant(&*self);
        }
        let now = unix_timestamp();
        self.mark_error_at(path, error, now);
    }

    /// Enter each of `paths` at `now`, in order.
    pub fn mark_searching_batch_at(&mut self, paths: &Vec<String>, now: i64)
        ensures
            final(self)@ == old(self)@.mark_searching_batch(texts(paths@), now),
            final(self).wf(),
    {
        proof {
            use_type_invariant(&*self);
        }
        let ghost start = self@;
        let ghost all = texts(paths@);
        let mut i: usize = 0;
        assert(all.take(0) =~= Seq::<Seq<char>>::empty());
        while i < paths.len()
            invariant
                i <= paths.len(),
                all == texts(paths@),
                self.wf(),
                self@ == start.mark_searching_batch(all.take(i as int), now),
            decreases paths.len() - i,
        {
            self.mark_searching_at(paths[i].as_str(), now);
            proof {
                assert(all.take(i + 1).drop_last() =~= all.take(i as int));
                assert(all.take(i + 1).last() == paths[i as int]@);
            }
            i += 1;
        }
        assert(all.take(paths.len() as int) =~= all);
    }

    /// Enter each of `paths` now, in order.
    pub fn mark_searching_batch(&mut self, paths: &Vec<String>)
        ensures
            exists|now: i64| final(self)@ == old(self)@.mark_searching_batch(texts(paths@), now),
            final(self).wf(),
    {
        proof {
            use_type_invariant(&*self);
        }
        let now = unix_timestamp();
        self.mark_searching_batch_at(paths, now);
    }

    /// Store each of `states`, in order, with its match counted as deleted
    /// only where it was found. The path of a completed state that was fresh
    /// when it was searched joins the hot set; the path of any other leaves
    /// it.
    pub fn mark_completed_batch(&mut self, states: &Vec<DirectoryState>)
        ensures
            final(self)@ == old(self)@.mark_completed_batch(dir_rows(states@)),
            final(self).wf(),
    {
        proof {
            use_type_invariant(&*self);
        }
        let ghost start = self@;
        let ghost all = dir_rows(states@);
        let mut i: usize = 0;
        assert(all.take(0) =~= Seq::<DirRow>::empty());
        while i < states.len()
            invariant
                i <= states.len(),
                all == dir_rows(states@),
                self.wf(),
                self@ == start.mark_completed_batch(all.take(i as int)),
            decreases states.len() - i,
        {
            let ghost before = self@;
            let given = &states[i];
            let state = DirectoryState {
                path: given.path.clone(),
                last_searched_at: given.last_searched_at,
                search_completed: given.search_completed,
                ds_store_found: given.ds_store_found,
                ds_store_deleted: given.ds_store_deleted && given.ds_store_found,
                error_message: copy_opt_text(&given.error_message),
            };
            assert(state@ == repaired_row(given@));
            if state.search_completed && state.last_searched_at > freshness_cutoff_at(
                state.last_searched_at,
                self.window_hours,
            ) {
                self.put_row(state, HotChange::Join);
            } else {
                self.put_row(state, HotChange::Leave);
            }
            proof {
                assert(all.take(i + 1).drop_last() =~= all.take(i as int));
                assert(all.take(i + 1).last() == states[i as int]@);
                assert(self@ =~= before.record_state(states[i as int]@));
            }
            i += 1;
        }
        assert(all.take(states.len() as int) =~= all);
    }

    /// Counts over the directory cache.
    pub fn get_cache_stats(&self) -> (stats: CacheStats)
        ensures
            stats.total_entries == self@.directories.len(),
            stats.completed_searches == self@.directories.filter(is_completed()).len(),
            stats.incomplete_searches == self@.directories.len() - self@.directories.filter(
                is_completed(),
            ).len(),
            stats.directories_with_ds_store == self@.directories.filter(has_match()).len(),
            stats.ds_stores_deleted == self@.directories.filter(has_deleted_match()).len(),
            stats.errors == self@.directories.filter(has_error()).len(),
    {
        let ghost rows = dir_rows(self.directories@);
        let mut completed: u64 = 0;
        let mut with_ds_store: u64 = 0;
        let mut deleted: u64 = 0;
        let mut errors: u64 = 0;
        let mut i: usize = 0;
        proof {
            lemma_filter_ends(rows, is_completed());
            lemma_filter_ends(rows, has_match());
            lemma_filter_ends(rows, has_deleted_match());
            lemma_filter_ends(rows, has_error());
        }
        while i < self.directories.len()
            invariant
                i <= self.directories.len(),
                rows == dir_rows(self.directories@),
                completed <= i,
                with_ds_store <= i,
                deleted <= i,
                errors <= i,
                completed == rows.take(i as int).filter(is_completed()).len(),
                with_ds_store == rows.take(i as int).filter(has_match()).len(),
                deleted == rows.take(i as int).filter(has_deleted_match()).len(),
                errors == rows.take(i as int).filter(has_error()).len(),
            decreases self.directories.len() - i,
        {
            proof {
                lemma_filter_step(rows, i as int, is_completed());
                lemma_filter_step(rows, i as int, has_match());
                lemma_filter_step(rows, i as int, has_deleted_match());
                lemma_filter_step(rows, i as int, has_error());
            }
            let row = &self.directories[i];
            if row.search_completed {
                completed += 1;
            }
            if row.ds_store_found {
                with_ds_store += 1;
            }
            if row.ds_store_deleted {
                deleted += 1;
            }
            if row.error_message.is_some() {
                errors += 1;
            }
            i += 1;
        }
        let total = self.directories.len() as u64;
        CacheStats {
            total_entries: total,
            completed_searches: completed,
            incomplete_searches: total - completed,
            directories_with_ds_store: with_ds_store,
            ds_stores_deleted: deleted,
            errors,
        }
    }

    /// Remove the rows whose search did not complete; the number removed.
    pub fn clear_incomplete(&mut self) -> (removed: u64)
        ensures
            final(self)@ == old(self)@.clear_incomplete(),
            removed == old(self)@.directories.len() - final(self)@.directories.len(),
            final(self).wf(),
    {
        proof {
            use_type_invariant(&*self);
        }
        let before = self.directories.len();
        let kept = completed_dirs(&self.directories);
        proof {
            lemma_clear_incomplete_inv(self@);
            dir_rows(self.directories@).lemma_filter_len(is_completed());
        }
        self.directories = kept;
        assert(self@ =~= old(self)@.clear_incomplete());
        (before - self.directories.len()) as u64
    }

    /// Sweep at `now`: remove the rows last searched before twice the window,
    /// and take their paths from the hot set.
    pub fn cleanup_old_entries_at(&mut self, now: i64)
        ensures
            final(self)@ == old(self)@.cleanup_old_entries(now),
            final(self).wf(),
    {
        proof {
            use_type_invariant(&*self);
        }
        let cutoff = sweep_cutoff_at(now, self.window_hours);
        let kept = dirs_searched_since(&self.directories, cutoff);
        let mut hot = self.take_hot_set();
        sweep_hot_set(&mut hot, &self.directories, cutoff);
        proof {
            lemma_cleanup_inv(old(self)@, now);
        }
        self.directories = kept;
        self.fresh_complete_dirs = hot;
        assert(self@ =~= old(self)@.cleanup_old_entries(now));
    }

    /// Sweep now.
    pub fn cleanup_old_entries(&mut self)
        ensures
            exists|now: i64| final(self)@ == old(self)@.cleanup_old_entries(now),
            final(self).wf(),
    {
        proof {
            use_type_invariant(&*self);
        }
        let now = unix_timestamp();
        self.cleanup_old_entries_at(now);
    }

    /// Validate the store against `report`, the answer of the engine to its
    /// integrity pragma: unless it is `ok` the validation fails. The rows of a
    /// cache need no repair: a deleted match without a found one is repaired
    /// when the store is opened, and none is stored after.
    pub fn validate_integrity(&self, report: &str) -> (checked: Result<(), CacheError>)
        ensures
            checked is Err <==> report@ != "ok"@,
            checked matches Err(e) ==> e == CacheError::IntegrityCheckFailed,
            self@.repair() == self@,
    {
        proof {
            use_type_invariant(self);
            lemma_consistent_rows_need_no_repair(self@.directories);
            assert(self@.repair() =~= self@);
        }
        if !same_text(report, "ok") {
            return Err(CacheError::IntegrityCheckFailed);
        }
        Ok(())
    }

    /// Empty every table and the hot set, and forget the current session.
    pub fn clear_all(&mut self)
        ensures
            final(self)@ == old(self)@.clear_all(),
            final(self).wf(),
    {
        proof {
            use_type_invariant(&*self);
        }
        self.fresh_complete_dirs = StringHashSet::new();
        self.directories = Vec::new();
        self.work_queue = Vec::new();
        self.found_files = Vec::new();
        self.sessions = Vec::new();
        self.current_session = None;
        assert(self@ =~= old(self)@.clear_all());
    }

    /// How many directories completed their search within the time of
    /// `session_id`: from its start to its completion, or to `now` where it
    /// has not completed. Zero for a session that is not registered.
    pub fn get_session_searched_count_at(&self, session_id: &str, now: i64) -> (count: usize)
        ensures
            count == self@.session_searched_count(session_id@, now),
    {
        proof {
            use_type_invariant(&*self);
        }
        match find_session(&self.sessions, session_id) {
            None => 0,
            Some(k) => {
                let started_at = self.sessions[k].started_at;
                let end_time = match self.sessions[k].completed_at {
                    Some(at) => at,
                    None => now,
                };
                let ghost rows = dir_rows(self.directories@);
                let ghost pred = completed_between(started_at, end_time);
                let mut count: usize = 0;
                let mut i: usize = 0;
                proof {
                    lemma_filter_ends(rows, pred);
                }
                while i < self.directories.len()
                    invariant
                        i <= self.directories.len(),
                        rows == dir_rows(self.directories@),
                        pred == completed_between(started_at, end_time),
                        count <= i,
                        count == rows.take(i as int).filter(pred).len(),
                    decreases self.directories.len() - i,
                {
                    proof {
                        lemma_filter_step(rows, i as int, pred);
                    }
                    let row = &self.directories[i];
                    if started_at <= row.last_searched_at && row.last_searched_at <= end_time
                        && row.search_completed {
                        count += 1;
                    }
                    i += 1;
                }
                count
            },
        }
    }

    /// How many directories completed their search within the time of
    /// `session_id`, up to now.
    pub fn get_session_searched_count(&self, session_id: &str) -> (count: usize)
        ensures
            exists|now: i64| count == self@.session_searched_count(session_id@, now),
    {
        proof {
            use_type_invariant(&*self);
        }
        let now = unix_timestamp();
        self.get_session_searched_count_at(session_id, now)
    }

    /// The matches that are known and not yet deleted: one file for each
    /// completed row with a found, undeleted match whose path is `root_path`
    /// or, where `recursive`, begins with it; in table order.
    pub fn get_undeleted_ds_store_files(&self, root_path: &str, recursive: bool) -> (files: Vec<String>)
        ensures
            texts(files@) == sentinel_paths(
                self@.directories.filter(undeleted_under(root_path@, recursive)),
            ),
    {
        let ghost rows = dir_rows(self.directories@);
        let ghost pred = undeleted_under(root_path@, recursive);
        let mut files: Vec<String> = Vec::new();
        let mut i: usize = 0;
        proof {
            lemma_filter_ends(rows, pred);
            assert(texts(files@) =~= sentinel_paths(Seq::<DirRow>::empty()));
        }
        while i < self.directories.len()
            invariant
                i <= self.directories.len(),
                rows == dir_rows(self.directories@),
                pred == undeleted_under(root_path@, recursive),
                texts(files@) == sentinel_paths(rows.take(i as int).filter(pred)),
            decreases self.directories.len() - i,
        {
            proof {
                lemma_filter_step(rows, i as int, pred);
            }
            let row = &self.directories[i];
            if row.ds_store_found && !row.ds_store_deleted && row.search_completed {
                let under = if recursive {
                    has_prefix(row.path.as_str(), root_path)
                } else {
                    same_text(row.path.as_str(), root_path)
                };
                if under {
                    let ghost before = files@;
                    let ghost kept = rows.take(i as int).filter(pred);
                    files.push(join_text(row.path.as_str(), "/.DS_Store"));
                    assert(texts(files@) =~= texts(before).push(
                        crate::model::sentinel_in(rows[i as int].path),
                    ));
                    assert(sentinel_paths(kept.push(rows[i as int])) =~= sentinel_paths(kept).push(
                        crate::model::sentinel_in(rows[i as int].path),
                    ));
                }
            }
            i += 1;
        }
        files
    }

    // ----- work queue -----

    /// Queue `path` for `session_id` at `now`, unless the session has it
    /// queued already. Fails where a row is needed and no id is left.
    pub fn enqueue_work_at(&mut self, session_id: &str, path: &str, priority: i32, now: i64) -> (queued:
        Result<(), CacheError>)
        ensures
            final(self)@ == old(self)@.enqueue_work(session_id@, path@, priority, now),
            queued is Err <==> old(self)@.enqueue_fails(session_id@, path@),
            queued matches Err(e) ==> e == CacheError::WorkQueueFull,
            final(self).wf(),
    {
        proof {
            use_type_invariant(&*self);
        }
        proof {
            lemma_enqueue_inv(self@, session_id@, path@, priority, now);
        }
        if is_queued_in(&self.work_queue, path, session_id) {
            return Ok(());
        }
        if self.last_work_id >= i64::MAX {
            return Err(CacheError::WorkQueueFull);
        }
        let id = self.last_work_id + 1;
        let slot = slot_for(&self.work_queue, priority);
        let item = WorkItem {
            id: Some(id),
            path: path.to_owned(),
            discovered_at: now,
            priority,
            session_id: session_id.to_owned(),
        };
        self.last_work_id = id;
        let mut queue = self.take_work_queue();
        queue.insert(slot, item);
        assert(work_rows(queue@) =~= work_rows(old(self).work_queue@).insert(slot as int, item@));
        self.work_queue = queue;
        assert(self@ =~= old(self)@.enqueue_work(session_id@, path@, priority, now));
        Ok(())
    }

    /// Queue `path` for `session_id` now.
    pub fn enqueue_work(&mut self, session_id: &str, path: &str, priority: i32) -> (queued: Result<
        (),
        CacheError,
    >)
        ensures
            exists|now: i64|
                final(self)@ == old(self)@.enqueue_work(session_id@, path@, priority, now),
            queued is Err <==> old(self)@.enqueue_fails(session_id@, path@),
            queued matches Err(e) ==> e == CacheError::WorkQueueFull,
            final(self).wf(),
    {
        proof {
            use_type_invariant(&*self);
        }
        let now = unix_timestamp();
        self.enqueue_work_at(session_id, path, priority, now)
    }

    /// Queue each of `paths` for `session_id` at `now`, in order, all or none.
    pub fn enqueue_work_batch_at(
        &mut self,
        session_id: &str,
        paths: &Vec<String>,
        priority: i32,
        now: i64,
    ) -> (queued: Result<(), CacheError>)
        ensures
            final(self)@ == old(self)@.enqueue_work_batch(session_id@, texts(paths@), priority, now),
            queued is Err <==> old(self)@.enqueue_all_fails(
                session_id@,
                texts(paths@),
                priority,
                now,
            ),
            queued matches Err(e) ==> e == CacheError::WorkQueueFull,
            final(self).wf(),
    {
        proof {
            use_type_invariant(&*self);
        }
        let ghost start = self@;
        let ghost all = texts(paths@);
        let saved_queue = copy_work(&self.work_queue);
        let saved_last = self.last_work_id;
        let mut i: usize = 0;
        assert(all.take(0) =~= Seq::<Seq<char>>::empty());
        while i < paths.len()
            invariant
                i <= paths.len(),
                all == texts(paths@),
                start == old(self)@,
                start.inv(),
                self.wf(),
                work_rows(saved_queue@) == start.work_queue,
                saved_last == start.last_work_id,
                self@ == start.enqueue_all(session_id@, all.take(i as int), priority, now),
                !start.enqueue_all_fails(session_id@, all.take(i as int), priority, now),
            decreases paths.len() - i,
        {
            proof {
                assert(all.take(i + 1).drop_last() =~= all.take(i as int));
                assert(all.take(i + 1).last() == paths[i as int]@);
            }
            match self.enqueue_work_at(session_id, paths[i].as_str(), priority, now) {
                Ok(()) => {},
                Err(e) => {
                    proof {
                        assert(start.enqueue_all_fails(session_id@, all.take(i + 1), priority, now));
                        lemma_enqueue_all_fails_grows(
                            start,
                            session_id@,
                            all,
                            i + 1,
                            priority,
                            now,
                        );
                    }
                    proof {
                        lemma_enqueue_all_frame(
                            start,
                            session_id@,
                            all.take(i as int),
                            priority,
                            now,
                        );
                    }
                    self.work_queue = saved_queue;
                    self.last_work_id = saved_last;
                    assert(self@ =~= start);
                    return Err(e);
                },
            }
            i += 1;
        }
        assert(all.take(paths.len() as int) =~= all);
        Ok(())
    }

    /// Queue each of `paths` for `session_id` now, all or none.
    pub fn enqueue_work_batch(&mut self, session_id: &str, paths: &Vec<String>, priority: i32) -> (queued:
        Result<(), CacheError>)
        ensures
            exists|now: i64|
                final(self)@ == old(self)@.enqueue_work_batch(
                    session_id@,
                    texts(paths@),
                    priority,
                    now,
                ) && (queued is Err <==> old(self)@.enqueue_all_fails(
                    session_id@,
                    texts(paths@),
                    priority,
                    now,
                )),
            queued matches Err(e) ==> e == CacheError::WorkQueueFull,
            final(self).wf(),
    {
        proof {
            use_type_invariant(&*self);
        }
        let now = unix_timestamp();
        self.enqueue_work_batch_at(session_id, paths, priority, now)
    }

    /// The next rows of `session_id`, at most `batch_size`: higher priority
    /// first, and within a priority in the order the rows came. The queue
    /// keeps them.
    pub fn peek_work_batch(&self, session_id: &str, batch_size: usize) -> (items: Vec<WorkItem>)
        ensures
            work_rows(items@) == self@.peek_work_batch(session_id@, batch_size as nat),
    {
        work_of_session(&self.work_queue, session_id, batch_size)
    }

    /// Remove the rows whose id is among `item_ids`.
    pub fn remove_work_items(&mut self, item_ids: &Vec<i64>)
        ensures
            final(self)@ == old(self)@.remove_work_items(item_ids@),
            final(self).wf(),
    {
        proof {
            use_type_invariant(&*self);
        }
        let kept = work_without_ids(&self.work_queue, item_ids);
        proof {
            lemma_filter_work(
                work_rows(self.work_queue@),
                self.last_work_id,
                crate::model::not_listed(item_ids@),
            );
        }
        self.work_queue = kept;
        assert(self@ =~= old(self)@.remove_work_items(item_ids@));
    }

    /// How many rows wait for `session_id`.
    pub fn get_work_count(&self, session_id: &str) -> (count: usize)
        ensures
            count == self@.work_count(session_id@),
    {
        count_work(&self.work_queue, session_id)
    }

    // ----- found-file log -----

    /// Log each of `files` for `session_id` at `now`, in order; a file that
    /// the session has logged already is passed over.
    pub fn save_found_files_at(&mut self, session_id: &str, files: &Vec<String>, now: i64)
        ensures
            final(self)@ == old(self)@.save_found_files(session_id@, texts(files@), now),
            final(self).wf(),
    {
        proof {
            use_type_invariant(&*self);
        }
        let ghost start = self@;
        let ghost all = texts(files@);
        let mut i: usize = 0;
        assert(all.take(0) =~= Seq::<Seq<char>>::empty());
        while i < files.len()
            invariant
                i <= files.len(),
                all == texts(files@),
                self.wf(),
                self@ == start.save_found_files(session_id@, all.take(i as int), now),
            decreases files.len() - i,
        {
            let ghost before = self@;
            if !is_logged_in(&self.found_files, session_id, files[i].as_str()) {
                let row = FoundFile {
                    session_id: session_id.to_owned(),
                    file_path: files[i].clone(),
                    discovered_at: now,
                };
                let ghost rows = self.found_files@;
                let mut log = self.take_found_files();
                log.push(row);
                assert(found_rows(log@) =~= found_rows(rows).push(row@));
                assert forall|a: int, b: int| 0 <= a < b < log.len() implies !(found_rows(
                    log@,
                )[a].session_id == found_rows(log@)[b].session_id && found_rows(log@)[a].file_path
                    == found_rows(log@)[b].file_path) by {
                    if b == rows.len() {
                        assert(!(found_rows(rows)[a].session_id == session_id@ && found_rows(
                            rows,
                        )[a].file_path == files[i as int]@));
                    }
                }
                self.found_files = log;
            }
            proof {
                assert(all.take(i + 1).drop_last() =~= all.take(i as int));
                assert(all.take(i + 1).last() == files[i as int]@);
                assert(self@ =~= before.log_found(session_id@, files[i as int]@, now));
            }
            i += 1;
        }
        assert(all.take(files.len() as int) =~= all);
    }

    /// Log each of `files` for `session_id` now.
    pub fn save_found_files(&mut self, session_id: &str, files: &Vec<String>)
        ensures
            exists|now: i64|
                final(self)@ == old(self)@.save_found_files(session_id@, texts(files@), now),
            final(self).wf(),
    {
        proof {
            use_type_invariant(&*self);
        }
        let now = unix_timestamp();
        self.save_found_files_at(session_id, files, now);
    }

    /// The matches that `session_id` has logged, in the order they were logged.
    pub fn load_found_files(&self, session_id: &str) -> (files: Vec<String>)
        ensures
            texts(files@) == self@.load_found_files(session_id@),
            files.len() == self@.found_count(session_id@),
    {
        found_of_session(&self.found_files, session_id)
    }

    // ----- sessions -----

    /// The session that the cache works for, if any.
    pub fn get_current_session(&self) -> (session: Option<&SearchSession>)
        ensures
            match session {
                Some(s) => self@.current_session == Some(s@),
                None => self@.current_session is None,
            },
    {
        match &self.current_session {
            Some(s) => Some(s),
            None => None,
        }
    }

    /// Remove session `session_id`, its queued work and its logged matches.
    pub fn cleanup_session(&mut self, session_id: &str)
        ensures
            final(self)@ == old(self)@.cleanup_session(session_id@),
            final(self).wf(),
    {
        proof {
            use_type_invariant(&*self);
        }
        let queue = work_without_session(&self.work_queue, session_id);
        let found = found_without_session(&self.found_files, session_id);
        let sessions = sessions_without(&self.sessions, session_id);
        proof {
            lemma_filter_work(
                work_rows(self.work_queue@),
                self.last_work_id,
                crate::model::not_in_session(session_id@),
            );
            lemma_filter_found(
                found_rows(self.found_files@),
                crate::model::found_not_in_session(session_id@),
            );
            lemma_filter_sessions(
                session_rows(self.sessions@),
                crate::model::other_session(session_id@),
            );
        }
        self.work_queue = queue;
        self.found_files = found;
        self.sessions = sessions;
        assert(self@ =~= old(self)@.cleanup_session(session_id@));
    }

    /// Remove, at `now`, every session that never completed and started before
    /// the freshness window, with its queued work and its logged matches.
    pub fn cleanup_stale_sessions_at(&mut self, now: i64)
        ensures
            final(self)@ == old(self)@.cleanup_stale_sessions(now),
            final(self).wf(),
    {
        proof {
            use_type_invariant(&*self);
        }
        let cutoff = freshness_cutoff_at(now, self.window_hours);
        let ghost rows = session_rows(self.sessions@);
        let stale = stale_session_ids(&self.sessions, cutoff);
        let queue = work_of_live_sessions(&self.work_queue, &stale, Ghost(rows), Ghost(cutoff));
        let found = found_of_live_sessions(&self.found_files, &stale, Ghost(rows), Ghost(cutoff));
        let sessions = live_sessions(&self.sessions, cutoff);
        proof {
            lemma_filter_work(
                work_rows(self.work_queue@),
                self.last_work_id,
                crate::model::work_of_live_session(rows, cutoff),
            );
            lemma_filter_found(
                found_rows(self.found_files@),
                crate::model::found_of_live_session(rows, cutoff),
            );
            lemma_filter_sessions(rows, crate::model::not_stale(cutoff));
        }
        self.work_queue = queue;
        self.found_files = found;
        self.sessions = sessions;
        assert(self@ =~= old(self)@.cleanup_stale_sessions(now));
    }

    /// Start session `session_id` at `now`: stale sessions are removed, the
    /// session is registered as active and becomes the current one, and its
    /// root is queued at priority 0.
    pub fn start_session_with(
        &mut self,
        session_id: &str,
        root_path: &str,
        is_recursive: bool,
        is_dry_run: bool,
        now: i64,
    ) -> (started: Result<String, CacheError>)
        ensures
            final(self)@ == old(self)@.start_session(
                session_id@,
                root_path@,
                is_recursive,
                is_dry_run,
                now,
            ),
            match started {
                Ok(id) => id@ == session_id@ && !has_session(
                    old(self)@.cleanup_stale_sessions(now).sessions,
                    session_id@,
                ) && !old(self)@.register_session(
                    session_id@,
                    root_path@,
                    is_recursive,
                    is_dry_run,
                    now,
                ).enqueue_fails(session_id@, root_path@),
                Err(CacheError::DuplicateSession) => has_session(
                    old(self)@.cleanup_stale_sessions(now).sessions,
                    session_id@,
                ),
                Err(CacheError::WorkQueueFull) => !has_session(
                    old(self)@.cleanup_stale_sessions(now).sessions,
                    session_id@,
                ) && old(self)@.register_session(
                    session_id@,
                    root_path@,
                    is_recursive,
                    is_dry_run,
                    now,
                ).enqueue_fails(session_id@, root_path@),
                Err(_) => false,
            },
            final(self).wf(),
    {
        proof {
            use_type_invariant(&*self);
        }
        self.cleanup_stale_sessions_at(now);
        if find_session(&self.sessions, session_id).is_some() {
            return Err(CacheError::DuplicateSession);
        }
        let row = SearchSession {
            session_id: session_id.to_owned(),
            root_path: root_path.to_owned(),
            started_at: now,
            completed_at: None,
            is_recursive,
            is_dry_run,
            status: SearchSessionStatus::Active,
        };
        let current = row.clone();
        let ghost rows = self.sessions@;
        let mut sessions = self.take_sessions();
        sessions.push(row);
        proof {
            assert(session_rows(sessions@) =~= session_rows(rows).push(row@));
            assert forall|a: int, b: int| 0 <= a < b < sessions.len() implies session_rows(
                sessions@,
            )[a].session_id != session_rows(sessions@)[b].session_id by {
                if b == rows.len() {
                    assert(session_rows(rows)[a].session_id != session_id@);
                }
            }
        }
        self.sessions = sessions;
        self.current_session = Some(current);
        assert(self@ =~= old(self)@.register_session(
            session_id@,
            root_path@,
            is_recursive,
            is_dry_run,
            now,
        ));
        match self.enqueue_work_at(session_id, root_path, 0, now) {
            Ok(()) => Ok(session_id.to_owned()),
            Err(e) => Err(e),
        }
    }

    /// Start a session now under a fresh random identifier.
    pub fn start_session(&mut self, root_path: &str, is_recursive: bool, is_dry_run: bool) -> (started:
        Result<String, CacheError>)
        ensures
            exists|id: Seq<char>, now: i64|
                {
                    &&& is_session_id_shaped(id)
                    &&& final(self)@ == old(self)@.start_session(
                        id,
                        root_path@,
                        is_recursive,
                        is_dry_run,
                        now,
                    )
                    &&& started matches Ok(s) ==> s@ == id
                    &&& started is Ok <==> !has_session(
                        old(self)@.cleanup_stale_sessions(now).sessions,
                        id,
                    ) && !old(self)@.register_session(
                        id,
                        root_path@,
                        is_recursive,
                        is_dry_run,
                        now,
                    ).enqueue_fails(id, root_path@)
                    &&& started matches Err(e) ==> (e == CacheError::DuplicateSession <==> has_session(
                        old(self)@.cleanup_stale_sessions(now).sessions,
                        id,
                    ))
                },
            started matches Err(e) ==> e == CacheError::DuplicateSession || e
                == CacheError::WorkQueueFull,
            final(self).wf(),
    {
        proof {
            use_type_invariant(&*self);
        }
        let session_id = random_session_id();
        let now = unix_timestamp();
        self.start_session_with(session_id.as_str(), root_path, is_recursive, is_dry_run, now)
    }

    /// Complete the current session at `now`: its row gets the completion time
    /// and the status `Completed`, its queued work is removed, and the cache
    /// has no current session any more.
    pub fn complete_session_at(&mut self, now: i64)
        ensures
            final(self)@ == old(self)@.complete_session(now),
            final(self).wf(),
    {
        proof {
            use_type_invariant(&*self);
        }
        let id = match &self.current_session {
            Some(current) => current.session_id.clone(),
            None => {
                return ;
            },
        };
        match find_session(&self.sessions, id.as_str()) {
            Some(i) => {
                let row = &self.sessions[i];
                let done = SearchSession {
                    session_id: row.session_id.clone(),
                    root_path: row.root_path.clone(),
                    started_at: row.started_at,
                    completed_at: Some(now),
                    is_recursive: row.is_recursive,
                    is_dry_run: row.is_dry_run,
                    status: SearchSessionStatus::Completed,
                };
                let mut sessions = self.take_sessions();
                sessions.set(i, done);
                proof {
                    let rows = session_rows(old(self).sessions@);
                    assert(session_rows(sessions@) =~= rows.update(i as int, done@));
                    assert forall|a: int, b: int| 0 <= a < b < rows.len() implies session_rows(
                        sessions@,
                    )[a].session_id != session_rows(sessions@)[b].session_id by {
                        assert(rows[a].session_id != rows[b].session_id);
                    }
                }
                self.sessions = sessions;
            },
            None => {},
        }
        let queue = work_without_session(&self.work_queue, id.as_str());
        proof {
            lemma_filter_work(
                work_rows(self.work_queue@),
                self.last_work_id,
                crate::model::not_in_session(id@),
            );
        }
        self.work_queue = queue;
        self.current_session = None;
        assert(self@ =~= old(self)@.complete_session(now));
    }

    /// Complete the current session now.
    pub fn complete_session(&mut self)
        ensures
            exists|now: i64| final(self)@ == old(self)@.complete_session(now),
            final(self).wf(),
    {
        proof {
            use_type_invariant(&*self);
        }
        let now = unix_timestamp();
        self.complete_session_at(now);
    }

    /// Mark the current session as interrupted. Its queued work and its
    /// logged matches stay.
    pub fn interrupt_session(&mut self)
        ensures
            final(self)@ == old(self)@.interrupt_session(),
            final(self).wf(),
    {
        proof {
            use_type_invariant(&*self);
        }
        let id = match &self.current_session {
            Some(current) => current.session_id.clone(),
            None => {
                return ;
            },
        };
        match find_session(&self.sessions, id.as_str()) {
            Some(i) => {
                let row = &self.sessions[i];
                let stopped = SearchSession {
                    session_id: row.session_id.clone(),
                    root_path: row.root_path.clone(),
                    started_at: row.started_at,
                    completed_at: row.completed_at,
                    is_recursive: row.is_recursive,
                    is_dry_run: row.is_dry_run,
                    status: SearchSessionStatus::Interrupted,
                };
                let mut sessions = self.take_sessions();
                sessions.set(i, stopped);
                proof {
                    let rows = session_rows(old(self).sessions@);
                    assert(session_rows(sessions@) =~= rows.update(i as int, stopped@));
                    assert forall|a: int, b: int| 0 <= a < b < rows.len() implies session_rows(
                        sessions@,
                    )[a].session_id != session_rows(sessions@)[b].session_id by {
                        assert(rows[a].session_id != rows[b].session_id);
                    }
                }
                self.sessions = sessions;
            },
            None => {},
        }
        assert(self@ =~= old(self)@.interrupt_session());
    }

    /// Mark the current session as failed, after an error that the search
    /// cannot recover from. Its queued work and its logged matches stay.
    pub fn fail_session(&mut self)
        ensures
            final(self)@ == old(self)@.fail_session(),
            final(self).wf(),
    {
        proof {
            use_type_invariant(&*self);
        }
        let id = match &self.current_session {
            Some(current) => current.session_id.clone(),
            None => {
                return ;
            },
        };
        match find_session(&self.sessions, id.as_str()) {
            Some(i) => {
                let row = &self.sessions[i];
                let stopped = SearchSession {
                    session_id: row.session_id.clone(),
                    root_path: row.root_path.clone(),
                    started_at: row.started_at,
                    completed_at: row.completed_at,
                    is_recursive: row.is_recursive,
                    is_dry_run: row.is_dry_run,
                    status: SearchSessionStatus::Failed,
                };
                let mut sessions = self.take_sessions();
                sessions.set(i, stopped);
                proof {
                    let rows = session_rows(old(self).sessions@);
                    assert(session_rows(sessions@) =~= rows.update(i as int, stopped@));
                    assert forall|a: int, b: int| 0 <= a < b < rows.len() implies session_rows(
                        sessions@,
                    )[a].session_id != session_rows(sessions@)[b].session_id by {
                        assert(rows[a].session_id != rows[b].session_id);
                    }
                }
                self.sessions = sessions;
            },
            None => {},
        }
        assert(self@ =~= old(self)@.fail_session());
    }

    /// Resume the interrupted session of `root_path` and these options that
    /// started last. Where it has work queued or matches logged it becomes
    /// active and current, and its identifier is returned. Where it has
    /// neither it is removed, and there is nothing to resume.
    pub fn resume_session(&mut self, root_path: &str, is_recursive: bool, is_dry_run: bool) -> (resumed:
        Option<String>)
        ensures
            final(self)@ == old(self)@.resume_session(root_path@, is_recursive, is_dry_run),
            resumed is Some <==> old(self)@.resumes(root_path@, is_recursive, is_dry_run),
            resumed matches Some(id) ==> id@ == old(self)@.sessions[resume_target(
                old(self)@.sessions,
                root_path@,
                is_recursive,
                is_dry_run,
            )].session_id,
            final(self).wf(),
    {
        proof {
            use_type_invariant(&*self);
        }
        let ghost rows = session_rows(self.sessions@);
        let mut best: Option<usize> = None;
        let mut i: usize = 0;
        while i < self.sessions.len()
            invariant
                i <= self.sessions.len(),
                rows == session_rows(self.sessions@),
                match best {
                    Some(b) => b < i && is_resume_target(
                        rows.take(i as int),
                        root_path@,
                        is_recursive,
                        is_dry_run,
                        b as int,
                    ),
                    None => forall|k: int|
                        0 <= k < i ==> !resumable(
                            #[trigger] rows[k],
                            root_path@,
                            is_recursive,
                            is_dry_run,
                        ),
                },
            decreases self.sessions.len() - i,
        {
            let row = &self.sessions[i];
            let interrupted = match row.status {
                SearchSessionStatus::Interrupted => true,
                _ => false,
            };
            let candidate = interrupted && row.is_recursive == is_recursive && row.is_dry_run
                == is_dry_run && same_text(row.root_path.as_str(), root_path);
            let ghost front = rows.take(i as int);
            let ghost next = rows.take(i + 1);
            proof {
                assert(forall|k: int| 0 <= k < i ==> next[k] == front[k]);
                assert(next[i as int] == rows[i as int]);
                assert(candidate == resumable(rows[i as int], root_path@, is_recursive, is_dry_run));
            }
            if candidate {
                let better = match best {
                    Some(b) => row.started_at > self.sessions[b].started_at,
                    None => true,
                };
                if better {
                    best = Some(i);
                }
            }
            proof {
                match best {
                    Some(b) => {
                        assert(next[b as int] == rows[b as int]);
                        assert forall|k: int|
                            0 <= k < next.len() && resumable(
                                #[trigger] next[k],
                                root_path@,
                                is_recursive,
                                is_dry_run,
                            ) implies next[k].started_at < next[b as int].started_at || (
                        next[k].started_at == next[b as int].started_at && b <= k) by {
                            if k < i {
                                assert(resumable(front[k], root_path@, is_recursive, is_dry_run));
                            }
                        }
                    },
                    None => {},
                }
            }
            i += 1;
        }
        assert(rows.take(self.sessions.len() as int) =~= rows);
        match best {
            None => {
                proof {
                    if has_resume_target(rows, root_path@, is_recursive, is_dry_run) {
                        let t = resume_target(rows, root_path@, is_recursive, is_dry_run);
                        assert(resumable(rows[t], root_path@, is_recursive, is_dry_run));
                    }
                }
                None
            },
            Some(b) => {
                proof {
                    assert(is_resume_target(rows, root_path@, is_recursive, is_dry_run, b as int));
                    let t = resume_target(rows, root_path@, is_recursive, is_dry_run);
                    assert(is_resume_target(rows, root_path@, is_recursive, is_dry_run, t));
                    assert(resumable(rows[t], root_path@, is_recursive, is_dry_run));
                    assert(resumable(rows[b as int], root_path@, is_recursive, is_dry_run));
                    assert(t == b);
                }
                let id = self.sessions[b].session_id.clone();
                let started_at = self.sessions[b].started_at;
                let work = count_work(&self.work_queue, id.as_str());
                let found = found_of_session(&self.found_files, id.as_str());
                if work > 0 || found.len() > 0 {
                    let row = &self.sessions[b];
                    let active = SearchSession {
                        session_id: row.session_id.clone(),
                        root_path: row.root_path.clone(),
                        started_at: row.started_at,
                        completed_at: row.completed_at,
                        is_recursive: row.is_recursive,
                        is_dry_run: row.is_dry_run,
                        status: SearchSessionStatus::Active,
                    };
                    let mut sessions = self.take_sessions();
                    sessions.set(b, active);
                    proof {
                        assert(session_rows(sessions@) =~= rows.update(b as int, active@));
                        assert forall|x: int, y: int| 0 <= x < y < rows.len() implies session_rows(
                            sessions@,
                        )[x].session_id != session_rows(sessions@)[y].session_id by {
                            assert(rows[x].session_id != rows[y].session_id);
                        }
                    }
                    self.sessions = sessions;
                    self.current_session = Some(
                        SearchSession {
                            session_id: id.clone(),
                            root_path: root_path.to_owned(),
                            started_at,
                            completed_at: None,
                            is_recursive,
                            is_dry_run,
                            status: SearchSessionStatus::Active,
                        },
                    );
                    proof {
                        assert(self@ =~= old(self)@.resume_session(
                            root_path@,
                            is_recursive,
                            is_dry_run,
                        ));
                    }
                    Some(id)
                } else {
                    self.cleanup_session(id.as_str());
                    None
                }
            },
        }
    }
}

/// Once a prefix of the paths finds no id, so does the whole batch.
pub proof fn lemma_enqueue_all_fails_grows(
    s: CacheState,
    session: Seq<char>,
    paths: Seq<Seq<char>>,
    k: int,
    priority: i32,
    now: i64,
)
    requires
        0 <= k <= paths.len(),
        s.enqueue_all_fails(session, paths.take(k), priority, now),
    ensures
        s.enqueue_all_fails(session, paths, priority, now),
    decreases paths.len() - k,
{
    if k < paths.len() {
        assert(paths.take(k + 1).drop_last() =~= paths.take(k));
        lemma_enqueue_all_fails_grows(s, session, paths, k + 1, priority, now);
    } else {
        assert(paths.take(k) =~= paths);
    }
}


/// Enqueueing touches the work queue and its id counter, and nothing else.
pub proof fn lemma_enqueue_all_frame(
    s: CacheState,
    session: Seq<char>,
    paths: Seq<Seq<char>>,
    priority: i32,
    now: i64,
)
    ensures
        s.enqueue_all(session, paths, priority, now) == (CacheState {
            work_queue: s.enqueue_all(session, paths, priority, now).work_queue,
            last_work_id: s.enqueue_all(session, paths, priority, now).last_work_id,
            ..s
        }),
        s.last_work_id <= s.enqueue_all(session, paths, priority, now).last_work_id,
    decreases paths.len(),
{
    if paths.len() > 0 {
        lemma_enqueue_all_frame(s, session, paths.drop_last(), priority, now);
    }
}

} // verus!
