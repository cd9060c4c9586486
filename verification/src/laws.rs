//! What holds of the store and of the scheduler, whatever they are given.

use crate::cache::DirectoryStatus;
use crate::model::CacheState;
use crate::model::DirRow;
use crate::model::SessionRow;
use crate::model::SnapshotView;
use crate::model::WorkRow;
use crate::model::completed_row;
use crate::model::dir_index;
use crate::model::error_row;
use crate::model::fresh_paths;
use crate::model::freshness_cutoff;
use crate::model::get_dir;
use crate::model::has_dir;
use crate::model::has_resume_target;
use crate::model::is_completed;
use crate::model::is_queued;
use crate::model::is_resume_target;
use crate::model::other_session;
use crate::model::queue_slot;
use crate::model::repaired_rows;
use crate::model::resumable;
use crate::model::resume_target;
use crate::model::row_consistent;
use crate::model::row_status;
use crate::model::searched_since;
use crate::model::searching_row;
use crate::model::sweep_cutoff;
use crate::model::unique_dirs;
use crate::probe::AccessView;
use crate::probe::EntryKind;
use crate::probe::EntryView;
use crate::probe::ListingView;
use crate::probe::ObservationView;
use crate::probe::entry_paths;
use crate::probe::is_match_entry;
use crate::probe::is_subdir_entry;
use crate::probe::listing_outcome;
use crate::probe::probe_outcome;
use crate::scan::BatchView;
use crate::scan::SearchView;
use crate::scan::WORK_BATCH_SIZE;
use crate::scan::classify;
use crate::scan::planned;
use crate::scan::reported;
use crate::scan::settled;
use crate::scan::timed_out;
use crate::seqs::lemma_filter_all;
use crate::seqs::lemma_filter_sources;
use crate::stats::SearchStats;
use crate::tables::lemma_dir_at;
use crate::tables::lemma_enqueue_inv;
use crate::tables::lemma_filter_dirs;
use crate::tables::lemma_put_dir;
use crate::tables::lemma_queue_slot;
use vstd::prelude::*;

verus! {

// ---------------------------------------------------------------------------
// What holds of every store
// ---------------------------------------------------------------------------

/// In every row of a sound store a deleted match was found.
pub proof fn law_deleted_matches_were_found(s: CacheState, i: int)
    requires
        s.inv(),
        0 <= i < s.directories.len(),
    ensures
        s.directories[i].ds_store_deleted ==> s.directories[i].ds_store_found,
{
    assert(row_consistent(s.directories[i]));
}

/// Every path of the hot set of a sound store has a row, and the search of
/// that row completed.
pub proof fn law_hot_paths_have_completed_rows(s: CacheState, path: Seq<char>)
    requires
        s.inv(),
        s.hot.contains(path),
    ensures
        get_dir(s.directories, path) matches Some(row) && row.search_completed,
{
    assert(crate::model::has_completed_dir(s.directories, path));
    let i = choose|i: int|
        0 <= i < s.directories.len() && (#[trigger] s.directories[i]).path == path
            && s.directories[i].search_completed;
    lemma_dir_at(s.directories, i);
}

/// Entering a directory, completing it, recording an error on it and storing
/// a state of it keep the store sound, whatever is handed in.
pub proof fn law_marks_keep_store_sound(
    s: CacheState,
    path: Seq<char>,
    found: bool,
    deleted: bool,
    message: Seq<char>,
    row: DirRow,
    now: i64,
)
    requires
        s.inv(),
    ensures
        s.mark_searching(path, now).inv(),
        s.mark_completed(path, found, deleted, now).inv(),
        s.mark_error(path, message, now).inv(),
        s.record_state(row).inv(),
{
    let prev = get_dir(s.directories, path);
    if has_dir(s.directories, path) {
        assert(row_consistent(s.directories[dir_index(s.directories, path)]));
    }
    let searching = searching_row(prev, path, now);
    let completed = completed_row(path, found, deleted, now);
    let failed = error_row(prev, path, message, now);
    let stored = crate::model::repaired_row(row);
    lemma_put_dir(s.directories, searching);
    lemma_put_dir(s.directories, completed);
    lemma_put_dir(s.directories, failed);
    lemma_put_dir(s.directories, stored);
    crate::tables::lemma_put_dir_hot(s.directories, searching, s.hot);
    crate::tables::lemma_put_dir_hot(s.directories, completed, s.hot);
    crate::tables::lemma_put_dir_hot(s.directories, failed, s.hot);
    crate::tables::lemma_put_dir_hot(s.directories, stored, s.hot);
}

/// Entering a batch of directories keeps the store sound.
pub proof fn law_searching_batch_keeps_store_sound(s: CacheState, paths: Seq<Seq<char>>, now: i64)
    requires
        s.inv(),
    ensures
        s.mark_searching_batch(paths, now).inv(),
    decreases paths.len(),
{
    if paths.len() > 0 {
        law_searching_batch_keeps_store_sound(s, paths.drop_last(), now);
        let before = s.mark_searching_batch(paths.drop_last(), now);
        law_marks_keep_store_sound(
            before,
            paths.last(),
            false,
            false,
            Seq::empty(),
            completed_row(paths.last(), false, false, now),
            now,
        );
    }
}

/// Storing a batch of states keeps the store sound, whatever the states
/// claim: in particular no row is left with a deleted match that was not
/// found, and no path is left in the hot set without a completed row.
pub proof fn law_batch_keeps_store_sound(s: CacheState, rows: Seq<DirRow>)
    requires
        s.inv(),
    ensures
        s.mark_completed_batch(rows).inv(),
    decreases rows.len(),
{
    if rows.len() > 0 {
        law_batch_keeps_store_sound(s, rows.drop_last());
        let before = s.mark_completed_batch(rows.drop_last());
        law_marks_keep_store_sound(before, rows.last().path, false, false, Seq::empty(), rows.last(), 0);
    }
}

/// Removing rows keeps the store sound: a sweep takes the paths of the rows
/// it removes from the hot set.
pub proof fn law_sweeps_keep_store_sound(s: CacheState, now: i64)
    requires
        s.inv(),
    ensures
        s.clear_incomplete().inv(),
        s.cleanup_old_entries(now).inv(),
        s.clear_all().inv(),
{
    crate::tables::lemma_clear_incomplete_inv(s);
    crate::tables::lemma_cleanup_inv(s, now);
}

/// A store that was just opened is sound, whatever the snapshot held: rows
/// that claimed a deleted match without a found one are repaired.
pub proof fn law_opened_store_is_sound(
    snapshot: SnapshotView,
    window_hours: u64,
    force_refresh: bool,
    now: i64,
)
    ensures
        snapshot.open(window_hours, force_refresh, now).inv(),
{
    let migrated = snapshot.migrate();
    let opened = snapshot.open(window_hours, force_refresh, now);
    if migrated.sound() {
        let rows = migrated.directories;
        let cutoff = freshness_cutoff(now, window_hours);
        crate::tables::lemma_repaired_rows(rows);
        assert(opened.directories == repaired_rows(rows));
        assert forall|p: Seq<char>| opened.hot.contains(p) implies crate::model::has_completed_dir(
            opened.directories,
            p,
        ) by {
            assert(fresh_paths(rows, cutoff).contains(p));
            let i = choose|i: int|
                0 <= i < rows.len() && (#[trigger] rows[i]).path == p && rows[i].search_completed
                    && rows[i].last_searched_at > cutoff;
            assert(opened.directories[i].path == p && opened.directories[i].search_completed);
        }
    }
}

// ---------------------------------------------------------------------------
// The hot set holds fresh, completed rows
// ---------------------------------------------------------------------------

/// Every path of the hot set has a row that is fresh at `now`.
pub open spec fn hot_is_fresh(s: CacheState, now: i64) -> bool {
    forall|p: Seq<char>|
        s.hot.contains(p) ==> row_status(
            get_dir(s.directories, p),
            freshness_cutoff(now, s.window_hours),
        ) == DirectoryStatus::Fresh
}

/// The hot set of a store that was just opened holds fresh rows.
pub proof fn law_opened_hot_set_is_fresh(
    snapshot: SnapshotView,
    window_hours: u64,
    force_refresh: bool,
    now: i64,
)
    ensures
        hot_is_fresh(snapshot.open(window_hours, force_refresh, now), now),
{
    let migrated = snapshot.migrate();
    let opened = snapshot.open(window_hours, force_refresh, now);
    if migrated.sound() && !force_refresh {
        let rows = migrated.directories;
        let fixed = repaired_rows(rows);
        let cutoff = freshness_cutoff(now, window_hours);
        assert(opened.directories == fixed);
        assert forall|i: int, j: int| 0 <= i < j < fixed.len() implies fixed[i].path
            != fixed[j].path by {
            assert(rows[i].path != rows[j].path);
        }
        assert forall|p: Seq<char>| opened.hot.contains(p) implies row_status(
            get_dir(opened.directories, p),
            cutoff,
        ) == DirectoryStatus::Fresh by {
            assert(fresh_paths(rows, cutoff).contains(p));
            let i = choose|i: int|
                0 <= i < rows.len() && (#[trigger] rows[i]).path == p && rows[i].search_completed
                    && rows[i].last_searched_at > cutoff;
            assert(fixed[i].path == p);
            lemma_dir_at(fixed, i);
        }
    }
}

/// Entering a directory keeps the hot set fresh.
pub proof fn law_mark_searching_keeps_hot_set_fresh(
    s: CacheState,
    path: Seq<char>,
    at: i64,
    now: i64,
)
    requires
        s.inv(),
        hot_is_fresh(s, now),
    ensures
        hot_is_fresh(s.mark_searching(path, at), now),
{
    lemma_put_dir(s.directories, searching_row(get_dir(s.directories, path), path, at));
}

/// Completing a directory keeps the hot set fresh, unless it is completed at
/// an instant that is not fresh at `now` any more.
pub proof fn law_mark_completed_keeps_hot_set_fresh(
    s: CacheState,
    path: Seq<char>,
    found: bool,
    deleted: bool,
    at: i64,
    now: i64,
)
    requires
        s.inv(),
        hot_is_fresh(s, now),
        at > freshness_cutoff(at, s.window_hours) ==> at > freshness_cutoff(now, s.window_hours),
    ensures
        hot_is_fresh(s.mark_completed(path, found, deleted, at), now),
{
    lemma_put_dir(s.directories, completed_row(path, found, deleted, at));
}

/// Completing a directory at `now` keeps the hot set fresh at `now`, whatever
/// the window is.
pub proof fn law_mark_completed_now_keeps_hot_set_fresh(
    s: CacheState,
    path: Seq<char>,
    found: bool,
    deleted: bool,
    now: i64,
)
    requires
        s.inv(),
        hot_is_fresh(s, now),
    ensures
        hot_is_fresh(s.mark_completed(path, found, deleted, now), now),
{
    law_mark_completed_keeps_hot_set_fresh(s, path, found, deleted, now, now);
}

/// Recording an error keeps the hot set fresh, unless it is recorded on a
/// path of the hot set at an instant that is not fresh at `now`.
pub proof fn law_mark_error_keeps_hot_set_fresh(
    s: CacheState,
    path: Seq<char>,
    message: Seq<char>,
    at: i64,
    now: i64,
)
    requires
        s.inv(),
        hot_is_fresh(s, now),
        s.hot.contains(path) ==> at > freshness_cutoff(now, s.window_hours),
    ensures
        hot_is_fresh(s.mark_error(path, message, at), now),
{
    lemma_put_dir(s.directories, error_row(get_dir(s.directories, path), path, message, at));
}

/// Storing a state keeps the hot set fresh, unless the state was fresh when
/// it was searched and is not fresh at `now` any more.
pub proof fn law_record_state_keeps_hot_set_fresh(s: CacheState, row: DirRow, now: i64)
    requires
        s.inv(),
        hot_is_fresh(s, now),
        crate::model::fresh_when_searched(row, s.window_hours) ==> row.last_searched_at
            > freshness_cutoff(now, s.window_hours),
    ensures
        hot_is_fresh(s.record_state(row), now),
{
    lemma_put_dir(s.directories, crate::model::repaired_row(row));
}

/// Every state of the batch that was fresh when it was searched is fresh at
/// `now`.
pub open spec fn batch_suits_hot_set(rows: Seq<DirRow>, window_hours: u64, now: i64) -> bool {
    forall|i: int|
        0 <= i < rows.len() && crate::model::fresh_when_searched(#[trigger] rows[i], window_hours)
            ==> rows[i].last_searched_at > freshness_cutoff(now, window_hours)
}

/// Storing a batch of states keeps the hot set fresh, unless a state of the
/// batch was fresh when it was searched and is not fresh at `now` any more.
pub proof fn law_batch_keeps_hot_set_fresh(s: CacheState, rows: Seq<DirRow>, now: i64)
    requires
        s.inv(),
        hot_is_fresh(s, now),
        batch_suits_hot_set(rows, s.window_hours, now),
    ensures
        s.mark_completed_batch(rows).window_hours == s.window_hours,
        hot_is_fresh(s.mark_completed_batch(rows), now),
    decreases rows.len(),
{
    if rows.len() > 0 {
        assert forall|i: int|
            0 <= i < rows.drop_last().len() && crate::model::fresh_when_searched(
                #[trigger] rows.drop_last()[i],
                s.window_hours,
            ) implies rows.drop_last()[i].last_searched_at > freshness_cutoff(
            now,
            s.window_hours,
        ) by {
            assert(rows.drop_last()[i] == rows[i]);
        }
        law_batch_keeps_hot_set_fresh(s, rows.drop_last(), now);
        law_batch_keeps_store_sound(s, rows.drop_last());
        let before = s.mark_completed_batch(rows.drop_last());
        assert(rows[rows.len() - 1] == rows.last());
        law_record_state_keeps_hot_set_fresh(before, rows.last(), now);
    }
}

/// The row of `path` stays where it is when a filter keeps it.
pub proof fn lemma_filter_keeps_row(rows: Seq<DirRow>, pred: spec_fn(DirRow) -> bool, path: Seq<char>)
    requires
        unique_dirs(rows),
        get_dir(rows, path) matches Some(row) && pred(row),
    ensures
        get_dir(rows.filter(pred), path) == get_dir(rows, path),
{
    let i = dir_index(rows, path);
    let src = lemma_filter_sources(rows, pred);
    lemma_filter_dirs(rows, pred);
    assert(pred(rows[i]));
    let k = choose|k: int| 0 <= k < src.len() && #[trigger] src[k] == i;
    assert(rows.filter(pred)[k] == rows[i]);
    lemma_dir_at(rows.filter(pred), k);
}

/// Removing the incomplete rows keeps the hot set fresh.
pub proof fn law_clear_incomplete_keeps_hot_set_fresh(s: CacheState, now: i64)
    requires
        s.inv(),
        hot_is_fresh(s, now),
    ensures
        hot_is_fresh(s.clear_incomplete(), now),
{
    assert forall|p: Seq<char>| s.hot.contains(p) implies row_status(
        get_dir(s.clear_incomplete().directories, p),
        freshness_cutoff(now, s.window_hours),
    ) == DirectoryStatus::Fresh by {
        lemma_filter_keeps_row(s.directories, is_completed(), p);
    }
}

/// A sweep keeps the hot set fresh, whenever it is made: the paths of the
/// rows that it removes leave the hot set.
pub proof fn law_cleanup_keeps_hot_set_fresh(s: CacheState, at: i64, now: i64)
    requires
        s.inv(),
        hot_is_fresh(s, now),
    ensures
        hot_is_fresh(s.cleanup_old_entries(at), now),
{
    let cutoff = sweep_cutoff(at, s.window_hours);
    assert forall|p: Seq<char>| s.cleanup_old_entries(at).hot.contains(p) implies row_status(
        get_dir(s.cleanup_old_entries(at).directories, p),
        freshness_cutoff(now, s.window_hours),
    ) == DirectoryStatus::Fresh by {
        assert(s.hot.contains(p) && !crate::model::has_swept_dir(s.directories, cutoff, p));
        assert(has_dir(s.directories, p));
        let i = dir_index(s.directories, p);
        assert(s.directories[i].path == p);
        assert(searched_since(cutoff)(s.directories[i]));
        lemma_filter_keeps_row(s.directories, searched_since(cutoff), p);
    }
}

/// Where the hot set is fresh, the skip oracle answers true only for a path
/// whose status is `Fresh`.
pub proof fn law_skipped_paths_are_fresh(s: CacheState, path: Seq<char>, now: i64)
    requires
        hot_is_fresh(s, now),
        s.skips(path),
    ensures
        s.status_of(path, now) == DirectoryStatus::Fresh,
{
}

/// With refresh forced the skip oracle answers true for no path.
pub proof fn law_force_refresh_skips_nothing(s: CacheState, path: Seq<char>)
    requires
        s.force_refresh,
    ensures
        !s.skips(path),
{
}

// ---------------------------------------------------------------------------
// Sessions
// ---------------------------------------------------------------------------

/// No three sessions of the given root and options are interrupted.
pub open spec fn at_most_two_resumable(
    rows: Seq<SessionRow>,
    root: Seq<char>,
    recursive: bool,
    dry_run: bool,
) -> bool {
    forall|a: int, b: int, c: int|
        0 <= a < b < c < rows.len() ==> !(resumable(#[trigger] rows[a], root, recursive, dry_run)
            && resumable(#[trigger] rows[b], root, recursive, dry_run) && resumable(
            #[trigger] rows[c],
            root,
            recursive,
            dry_run,
        ))
}

/// No two sessions of the given root and options are interrupted.
pub open spec fn at_most_one_resumable(
    rows: Seq<SessionRow>,
    root: Seq<char>,
    recursive: bool,
    dry_run: bool,
) -> bool {
    forall|a: int, b: int|
        0 <= a < b < rows.len() ==> !(resumable(#[trigger] rows[a], root, recursive, dry_run)
            && resumable(#[trigger] rows[b], root, recursive, dry_run))
}

/// A resume takes one interrupted session of its root and options away: it
/// becomes active or is removed. So after a resume at most one is left,
/// unless there were three or more.
pub proof fn law_resume_leaves_at_most_one(
    s: CacheState,
    root: Seq<char>,
    recursive: bool,
    dry_run: bool,
)
    requires
        s.inv(),
        at_most_two_resumable(s.sessions, root, recursive, dry_run),
    ensures
        at_most_one_resumable(s.resume_session(root, recursive, dry_run).sessions, root, recursive, dry_run),
{
    let rows = s.sessions;
    let after = s.resume_session(root, recursive, dry_run).sessions;
    if has_resume_target(rows, root, recursive, dry_run) {
        let t = resume_target(rows, root, recursive, dry_run);
        assert(is_resume_target(rows, root, recursive, dry_run, t));
        let id = rows[t].session_id;
        if s.work_count(id) > 0 || s.found_count(id) > 0 {
            assert forall|a: int, b: int| 0 <= a < b < after.len() implies !(resumable(
                #[trigger] after[a],
                root,
                recursive,
                dry_run,
            ) && resumable(#[trigger] after[b], root, recursive, dry_run)) by {
                if resumable(after[a], root, recursive, dry_run) && resumable(
                    after[b],
                    root,
                    recursive,
                    dry_run,
                ) {
                    assert(a != t && b != t);
                    assert(after[a] == rows[a] && after[b] == rows[b]);
                    lemma_three_resumable(rows, root, recursive, dry_run, a, b, t);
                }
            }
        } else {
            let src = lemma_filter_sources(rows, other_session(id));
            assert(after == rows.filter(other_session(id)));
            assert forall|a: int, b: int| 0 <= a < b < after.len() implies !(resumable(
                #[trigger] after[a],
                root,
                recursive,
                dry_run,
            ) && resumable(#[trigger] after[b], root, recursive, dry_run)) by {
                if resumable(after[a], root, recursive, dry_run) && resumable(
                    after[b],
                    root,
                    recursive,
                    dry_run,
                ) {
                    assert(src[a] < src[b]);
                    assert(rows[src[a]] == after[a] && rows[src[b]] == after[b]);
                    assert(rows[src[a]].session_id != id && rows[src[b]].session_id != id);
                    lemma_three_resumable(rows, root, recursive, dry_run, src[a], src[b], t);
                }
            }
        }
    } else {
        assert forall|a: int, b: int| 0 <= a < b < rows.len() implies !(resumable(
            #[trigger] rows[a],
            root,
            recursive,
            dry_run,
        ) && resumable(#[trigger] rows[b], root, recursive, dry_run)) by {
            if resumable(rows[a], root, recursive, dry_run) {
                lemma_resumable_gives_target(rows, root, recursive, dry_run, a, rows.len() as int);
                assert(rows.take(rows.len() as int) =~= rows);
            }
        }
    }
}

/// Three resumable rows at three places are more than two.
pub proof fn lemma_three_resumable(
    rows: Seq<SessionRow>,
    root: Seq<char>,
    recursive: bool,
    dry_run: bool,
    x: int,
    y: int,
    z: int,
)
    requires
        0 <= x < rows.len(),
        0 <= y < rows.len(),
        0 <= z < rows.len(),
        x != y && y != z && x != z,
        resumable(rows[x], root, recursive, dry_run),
        resumable(rows[y], root, recursive, dry_run),
        resumable(rows[z], root, recursive, dry_run),
    ensures
        !at_most_two_resumable(rows, root, recursive, dry_run),
{
    let lo = if x < y && x < z {
        x
    } else if y < z {
        y
    } else {
        z
    };
    let hi = if x > y && x > z {
        x
    } else if y > z {
        y
    } else {
        z
    };
    let mid = x + y + z - lo - hi;
    assert(lo < mid < hi);
    assert(resumable(rows[lo], root, recursive, dry_run) && resumable(
        rows[mid],
        root,
        recursive,
        dry_run,
    ) && resumable(rows[hi], root, recursive, dry_run));
}

/// Where a row among the first `n` is resumable, a resume has a target.
pub proof fn lemma_resumable_gives_target(
    rows: Seq<SessionRow>,
    root: Seq<char>,
    recursive: bool,
    dry_run: bool,
    a: int,
    n: int,
)
    requires
        0 <= a < n <= rows.len(),
        resumable(rows[a], root, recursive, dry_run),
    ensures
        has_resume_target(rows.take(n), root, recursive, dry_run),
    decreases n,
{
    let front = rows.take(n);
    if n - 1 > a {
        lemma_resumable_gives_target(rows, root, recursive, dry_run, a, n - 1);
        let before = rows.take(n - 1);
        let t = resume_target(before, root, recursive, dry_run);
        assert(is_resume_target(before, root, recursive, dry_run, t));
        assert(forall|k: int| 0 <= k < n - 1 ==> front[k] == before[k]);
        let last = front[n - 1];
        if resumable(last, root, recursive, dry_run) && last.started_at > front[t].started_at {
            assert(is_resume_target(front, root, recursive, dry_run, n - 1));
        } else {
            assert(is_resume_target(front, root, recursive, dry_run, t));
        }
    } else {
        // `a` is the last of the first `n`: the latest of the resumable rows
        // before it, or `a` itself, is the target.
        if a > 0 && exists|k: int| 0 <= k < a && resumable(#[trigger] rows[k], root, recursive, dry_run) {
            let k = choose|k: int| 0 <= k < a && resumable(#[trigger] rows[k], root, recursive, dry_run);
            lemma_resumable_gives_target(rows, root, recursive, dry_run, k, a);
            let before = rows.take(a);
            let t = resume_target(before, root, recursive, dry_run);
            assert(is_resume_target(before, root, recursive, dry_run, t));
            assert(forall|j: int| 0 <= j < a ==> front[j] == before[j]);
            if front[a].started_at > front[t].started_at {
                assert(is_resume_target(front, root, recursive, dry_run, a));
            } else {
                assert(is_resume_target(front, root, recursive, dry_run, t));
            }
        } else {
            assert(is_resume_target(front, root, recursive, dry_run, a));
        }
    }
}

// ---------------------------------------------------------------------------
// The work queue
// ---------------------------------------------------------------------------

/// No two rows of the work queue of a sound store have one path and session.
pub proof fn law_queue_rows_are_unique(s: CacheState, i: int, j: int)
    requires
        s.inv(),
        0 <= i < s.work_queue.len(),
        0 <= j < s.work_queue.len(),
        s.work_queue[i].path == s.work_queue[j].path,
        s.work_queue[i].session_id == s.work_queue[j].session_id,
    ensures
        i == j,
{
    if i < j {
        assert(!(s.work_queue[i].path == s.work_queue[j].path && s.work_queue[i].session_id
            == s.work_queue[j].session_id));
    }
    if j < i {
        assert(!(s.work_queue[j].path == s.work_queue[i].path && s.work_queue[j].session_id
            == s.work_queue[i].session_id));
    }
}

/// Enqueueing keeps the store sound: in particular no path is queued twice
/// for one session.
pub proof fn law_enqueue_keeps_store_sound(
    s: CacheState,
    session: Seq<char>,
    path: Seq<char>,
    priority: i32,
    now: i64,
)
    requires
        s.inv(),
    ensures
        s.enqueue_work(session, path, priority, now).inv(),
{
    lemma_enqueue_inv(s, session, path, priority, now);
}

/// Enqueueing a path twice is enqueueing it once: where the first call finds
/// an id, the queue then holds the path for the session, and the second call
/// changes nothing, whatever its priority and time.
pub proof fn law_enqueue_twice_is_once(
    s: CacheState,
    session: Seq<char>,
    path: Seq<char>,
    priority: i32,
    now: i64,
    priority2: i32,
    now2: i64,
)
    requires
        s.inv(),
        !s.enqueue_fails(session, path),
    ensures
        is_queued(s.enqueue_work(session, path, priority, now).work_queue, path, session),
        s.enqueue_work(session, path, priority, now).enqueue_work(session, path, priority2, now2)
            == s.enqueue_work(session, path, priority, now),
        s.enqueue_work(session, path, priority, now).work_count(session) == if is_queued(
            s.work_queue,
            path,
            session,
        ) {
            s.work_count(session)
        } else {
            s.work_count(session) + 1
        },
{
    let once = s.enqueue_work(session, path, priority, now);
    if !is_queued(s.work_queue, path, session) {
        lemma_queue_slot(s.work_queue, priority);
        let k = queue_slot(s.work_queue, priority);
        assert(once.work_queue[k].path == path && once.work_queue[k].session_id == session);
        lemma_insert_filter_len(s.work_queue, k, once.work_queue[k], crate::model::in_session(session));
    }
}

/// Inserting an element that a filter keeps makes what it keeps one longer.
pub proof fn lemma_insert_filter_len<T>(s: Seq<T>, k: int, x: T, pred: spec_fn(T) -> bool)
    requires
        0 <= k <= s.len(),
    ensures
        s.insert(k, x).filter(pred).len() == s.filter(pred).len() + if pred(x) {
            1int
        } else {
            0int
        },
{
    let front = s.take(k);
    let back = s.skip(k);
    assert(s =~= front + back);
    assert(s.insert(k, x) =~= front.push(x) + back);
    Seq::filter_distributes_over_add(front, back, pred);
    Seq::filter_distributes_over_add(front.push(x), back, pred);
    Seq::lemma_filter_push(front, x, pred);
}

// ---------------------------------------------------------------------------
// The directory cache
// ---------------------------------------------------------------------------

/// Completing a directory twice with the same arguments is completing it once.
pub proof fn law_mark_completed_twice_is_once(
    s: CacheState,
    path: Seq<char>,
    found: bool,
    deleted: bool,
    now: i64,
)
    requires
        s.inv(),
    ensures
        s.mark_completed(path, found, deleted, now).mark_completed(path, found, deleted, now)
            == s.mark_completed(path, found, deleted, now),
        get_dir(s.mark_completed(path, found, deleted, now).directories, path) == Some(
            completed_row(path, found, deleted, now),
        ),
{
    lemma_put_dir(s.directories, completed_row(path, found, deleted, now));
    let once = s.mark_completed(path, found, deleted, now);
    let twice = once.mark_completed(path, found, deleted, now);
    assert(twice.hot =~= once.hot);
}

/// With refresh forced every directory is `NotCached`, whatever the tables
/// and the hot set hold.
pub proof fn law_force_refresh_sees_nothing(s: CacheState, path: Seq<char>, now: i64)
    requires
        s.force_refresh,
    ensures
        s.status_of(path, now) == DirectoryStatus::NotCached,
{
}

// ---------------------------------------------------------------------------
// The scheduler
// ---------------------------------------------------------------------------

/// All of the peeked items are fresh at `now`.
pub open spec fn all_fresh(c: CacheState, items: Seq<WorkRow>, now: i64) -> bool {
    forall|k: int|
        0 <= k < items.len() ==> c.status_of((#[trigger] items[k]).path, now)
            == DirectoryStatus::Fresh
}

/// Every peeked item is counted once: as new, as resumed or as skipped. The
/// new and the resumed ones are those accepted for probing.
pub proof fn law_peeked_items_are_counted_once(
    c: CacheState,
    now: i64,
    stats: SearchStats,
    items: Seq<WorkRow>,
)
    requires
        stats.classified() + items.len() <= usize::MAX,
    ensures
        classify(c, now, stats, items).stats.classified() == stats.classified() + items.len(),
        classify(c, now, stats, items).accepted.len() == (classify(
            c,
            now,
            stats,
            items,
        ).stats.new_searches - stats.new_searches) + (classify(
            c,
            now,
            stats,
            items,
        ).stats.resumed_searches - stats.resumed_searches),
        classify(c, now, stats, items).stats.new_searches >= stats.new_searches,
        classify(c, now, stats, items).stats.resumed_searches >= stats.resumed_searches,
        classify(c, now, stats, items).stats.skipped_cached >= stats.skipped_cached,
        classify(c, now, stats, items).stats.found == stats.found,
        classify(c, now, stats, items).stats.errors == stats.errors,
    decreases items.len(),
{
    if items.len() > 0 {
        law_peeked_items_are_counted_once(c, now, stats, items.drop_last());
    }
}

/// Every peeked item that has an id leaves the queue, probed or skipped.
pub proof fn law_peeked_ids_are_collected(c: CacheState, now: i64, stats: SearchStats, items: Seq<WorkRow>)
    requires
        forall|k: int| 0 <= k < items.len() ==> (#[trigger] items[k]).id is Some,
    ensures
        classify(c, now, stats, items).ids.len() == items.len(),
        forall|k: int|
            0 <= k < items.len() ==> classify(c, now, stats, items).ids[k] == (#[trigger] items[k]).id->0,
    decreases items.len(),
{
    if items.len() > 0 {
        assert forall|k: int| 0 <= k < items.drop_last().len() implies (
        #[trigger] items.drop_last()[k]).id is Some by {
            assert(items.drop_last()[k] == items[k]);
        }
        law_peeked_ids_are_collected(c, now, stats, items.drop_last());
        assert forall|k: int| 0 <= k < items.len() implies classify(c, now, stats, items).ids[k] == (
        #[trigger] items[k]).id->0 by {
            if k < items.len() - 1 {
                assert(items.drop_last()[k] == items[k]);
            }
        }
    }
}

/// Where every peeked item is fresh nothing is probed: none is new, none is
/// resumed, and each is skipped.
pub proof fn law_fresh_items_are_skipped(c: CacheState, now: i64, stats: SearchStats, items: Seq<WorkRow>)
    requires
        all_fresh(c, items, now),
        stats.skipped_cached + items.len() <= usize::MAX,
    ensures
        classify(c, now, stats, items).accepted.len() == 0,
        classify(c, now, stats, items).stats == (SearchStats {
            skipped_cached: (stats.skipped_cached + items.len()) as usize,
            ..stats
        }),
    decreases items.len(),
{
    if items.len() > 0 {
        assert forall|k: int| 0 <= k < items.drop_last().len() implies c.status_of(
            (#[trigger] items.drop_last()[k]).path,
            now,
        ) == DirectoryStatus::Fresh by {
            assert(items.drop_last()[k] == items[k]);
        }
        law_fresh_items_are_skipped(c, now, stats, items.drop_last());
        assert(c.status_of(items[items.len() - 1].path, now) == DirectoryStatus::Fresh);
    }
}

/// With refresh forced every peeked item is new.
pub proof fn law_forced_items_are_new(c: CacheState, now: i64, stats: SearchStats, items: Seq<WorkRow>)
    requires
        c.force_refresh,
        stats.new_searches + items.len() <= usize::MAX,
    ensures
        classify(c, now, stats, items).stats == (SearchStats {
            new_searches: (stats.new_searches + items.len()) as usize,
            ..stats
        }),
        classify(c, now, stats, items).accepted.len() == items.len(),
    decreases items.len(),
{
    if items.len() > 0 {
        law_forced_items_are_new(c, now, stats, items.drop_last());
    }
}

/// A turn keeps the scheduler well formed.
pub proof fn law_turns_keep_scheduler_well_formed(
    s: SearchView,
    c: CacheState,
    cancelled: bool,
    now: i64,
    clock_ms: u64,
)
    requires
        s.wf(),
    ensures
        planned(s, c, cancelled, now).search.wf(),
        settled(s, c, now, clock_ms).search.wf(),
{
    lemma_enlist_no_duplicates(
        s.processing,
        classify(c, now, s.stats, c.peek_work_batch(s.session_id, WORK_BATCH_SIZE as nat)).accepted,
    );
}

/// Taking paths up for probing keeps the probed paths without duplicates.
pub proof fn lemma_enlist_no_duplicates(processing: Seq<Seq<char>>, accepted: Seq<Seq<char>>)
    requires
        processing.no_duplicates(),
    ensures
        crate::scan::enlist(processing, accepted).processing.no_duplicates(),
    decreases accepted.len(),
{
    if accepted.len() > 0 {
        lemma_enlist_no_duplicates(processing, accepted.drop_last());
    }
}

/// A report keeps the scheduler well formed.
pub proof fn law_reports_keep_scheduler_well_formed(
    s: SearchView,
    outcome: crate::probe::OutcomeView,
    path: Seq<char>,
)
    requires
        s.wf(),
    ensures
        reported(s, outcome).wf(),
        timed_out(s, path).wf(),
        crate::scan::dropped(s, path).wf(),
{
    crate::seqs::lemma_with_new(s.found_files, outcome.matches);
    crate::seqs::lemma_filter_pairs(
        s.processing,
        crate::scan::other_than(outcome.state.path),
        |a: Seq<char>, b: Seq<char>| a != b,
    );
    crate::seqs::lemma_filter_pairs(
        s.processing,
        crate::scan::other_than(path),
        |a: Seq<char>, b: Seq<char>| a != b,
    );
}

/// The paths that a session has logged are all different.
pub proof fn lemma_logged_paths_are_distinct(c: CacheState, session: Seq<char>)
    requires
        crate::model::unique_found(c.found_files),
    ensures
        c.load_found_files(session).no_duplicates(),
{
    let mine = crate::model::found_in_session(session);
    let kept = c.found_files.filter(mine);
    crate::tables::lemma_filter_found(c.found_files, mine);
    lemma_filter_all(c.found_files, mine, |f: crate::model::FoundRow| true);
    let paths = c.load_found_files(session);
    assert forall|i: int, j: int| 0 <= i < paths.len() && 0 <= j < paths.len() && i != j implies paths[i]
        != paths[j] by {
        assert(mine(kept[i]) && mine(kept[j]));
        if i < j {
            assert(!(kept[i].session_id == kept[j].session_id && kept[i].file_path
                == kept[j].file_path));
        } else {
            assert(!(kept[j].session_id == kept[i].session_id && kept[j].file_path
                == kept[i].file_path));
        }
    }
}

/// A search starts well formed: the matches that a resumed session has
/// logged are all different.
pub proof fn law_search_starts_well_formed(
    c: CacheState,
    root: Seq<char>,
    recursive: bool,
    dry_run: bool,
    new_id: Seq<char>,
    now: i64,
    clock_ms: u64,
)
    requires
        c.inv(),
    ensures
        crate::scan::started(c, root, recursive, dry_run, new_id, now, clock_ms).search.wf(),
{
    if c.resumes(root, recursive, dry_run) {
        let resumed = c.resume_session(root, recursive, dry_run);
        let id = c.sessions[resume_target(c.sessions, root, recursive, dry_run)].session_id;
        assert(resumed.found_files == c.found_files);
        lemma_logged_paths_are_distinct(resumed, id);
    }
}

/// The matches that a search hands back are all different, and for a well
/// formed search they are the matches it holds, in their order.
pub proof fn law_matches_are_handed_back_once(s: SearchView)
    ensures
        crate::seqs::distinct(s.found_files).no_duplicates(),
        forall|x: Seq<char>|
            #![trigger crate::seqs::distinct(s.found_files).contains(x)]
            crate::seqs::distinct(s.found_files).contains(x) <==> s.found_files.contains(x),
        s.wf() ==> crate::seqs::distinct(s.found_files) == s.found_files,
{
    crate::seqs::lemma_with_new(Seq::<Seq<char>>::empty(), s.found_files);
    if s.wf() {
        crate::seqs::lemma_distinct_keeps_distinct(s.found_files);
    }
}

/// A search is finished only when nothing is left to do: the session has no
/// work queued, no probe runs, and no discovered subdirectory waits.
pub proof fn law_finished_leaves_nothing(s: SearchView, c: CacheState, now: i64)
    requires
        s.wf(),
        planned(s, c, false, now).batch == BatchView::Finished,
    ensures
        c.work_count(s.session_id) == 0,
        s.spawned == 0,
        s.discovered.len() == 0,
        planned(s, c, false, now).cache == c,
{
    let items = c.session_work(s.session_id);
    if items.len() > 0 {
        assert(c.peek_work_batch(s.session_id, WORK_BATCH_SIZE as nat).len() > 0);
    }
}

// ---------------------------------------------------------------------------
// The prober
// ---------------------------------------------------------------------------

/// Where the reading of a directory goes through, its state is completed and
/// has a match exactly where an entry is one; where it fails, the state is
/// not completed, so that the directory is tried again. No probe marks a
/// match as deleted.
pub proof fn law_probe_states(
    session: Seq<char>,
    dir: Seq<char>,
    now: i64,
    recursive: bool,
    seen: ObservationView,
)
    ensures
        probe_outcome(session, dir, now, recursive, seen).state.path == dir,
        probe_outcome(session, dir, now, recursive, seen).state.last_searched_at == now,
        !probe_outcome(session, dir, now, recursive, seen).state.ds_store_deleted,
        row_consistent(probe_outcome(session, dir, now, recursive, seen).state),
        probe_outcome(session, dir, now, recursive, seen).state.search_completed == !(
        !seen.is_system_path && seen.access == AccessView::Directory && !seen.is_symlink
            && seen.listing.error is Some),
        !recursive ==> probe_outcome(session, dir, now, recursive, seen).subdirs.len() == 0,
{
    if !recursive {
        let kept = seen.listing.entries.filter(is_subdir_entry(recursive));
        if kept.len() > 0 {
            seen.listing.entries.lemma_filter_pred(is_subdir_entry(recursive), 0);
        }
    }
}

/// An empty directory: completed, no match, nothing to queue.
pub proof fn law_empty_directory(session: Seq<char>, dir: Seq<char>, now: i64, recursive: bool)
    ensures
        listing_outcome(
            session,
            dir,
            now,
            recursive,
            ListingView { entries: Seq::empty(), error: None },
        ) == (crate::probe::OutcomeView {
            session_id: session,
            state: DirRow {
                path: dir,
                last_searched_at: now,
                search_completed: true,
                ds_store_found: false,
                ds_store_deleted: false,
                error_message: None,
            },
            subdirs: Seq::empty(),
            matches: Seq::empty(),
            failed: false,
        }),
{
    reveal(Seq::filter);
    let entries = Seq::<EntryView>::empty();
    assert(entry_paths(entries.filter(is_match_entry())) =~= Seq::<Seq<char>>::empty());
    assert(entry_paths(entries.filter(is_subdir_entry(recursive))) =~= Seq::<Seq<char>>::empty());
}

/// A directory that holds the sentinel file and nothing else: completed,
/// with the match recorded.
pub proof fn law_sentinel_only_directory(
    session: Seq<char>,
    dir: Seq<char>,
    now: i64,
    recursive: bool,
    entry: EntryView,
)
    requires
        entry.kind == Some(EntryKind::File),
        entry.file_name == Some(".DS_Store"@),
    ensures
        listing_outcome(
            session,
            dir,
            now,
            recursive,
            ListingView { entries: seq![entry], error: None },
        ) == (crate::probe::OutcomeView {
            session_id: session,
            state: DirRow {
                path: dir,
                last_searched_at: now,
                search_completed: true,
                ds_store_found: true,
                ds_store_deleted: false,
                error_message: None,
            },
            subdirs: Seq::empty(),
            matches: seq![entry.path],
            failed: false,
        }),
{
    let entries = seq![entry];
    assert(entries =~= Seq::<EntryView>::empty().push(entry));
    reveal(Seq::filter);
    Seq::lemma_filter_push(Seq::<EntryView>::empty(), entry, is_match_entry());
    Seq::lemma_filter_push(Seq::<EntryView>::empty(), entry, is_subdir_entry(recursive));
    assert(Seq::<EntryView>::empty().filter(is_match_entry()) =~= Seq::<EntryView>::empty());
    assert(Seq::<EntryView>::empty().filter(is_subdir_entry(recursive)) =~= Seq::<EntryView>::empty());
    assert(entry_paths(entries.filter(is_match_entry())) =~= seq![entry.path]);
    assert(entry_paths(entries.filter(is_subdir_entry(recursive))) =~= Seq::<Seq<char>>::empty());
}

/// A directory that is itself a symbolic link is not read: its state is
/// completed with the reason, and nothing below it is queued.
pub proof fn law_symlink_is_not_followed(
    session: Seq<char>,
    dir: Seq<char>,
    now: i64,
    recursive: bool,
    seen: ObservationView,
)
    requires
        !seen.is_system_path,
        seen.access == AccessView::Directory,
        seen.is_symlink,
    ensures
        probe_outcome(session, dir, now, recursive, seen).state.error_message == Some(
            "Skipped symlink"@,
        ),
        probe_outcome(session, dir, now, recursive, seen).state.search_completed,
        probe_outcome(session, dir, now, recursive, seen).subdirs.len() == 0,
        probe_outcome(session, dir, now, recursive, seen).matches.len() == 0,
{
}

/// An entry that is a symbolic link, or of which that is not known, is never
/// queued as a subdirectory.
pub proof fn law_linked_entries_are_not_queued(entry: EntryView, recursive: bool)
    requires
        entry.is_symlink != Some(false),
    ensures
        !is_subdir_entry(recursive)(entry),
{
}


// ---------------------------------------------------------------------------
// What the turns leave alone
// ---------------------------------------------------------------------------

/// Entering directories touches the directory cache and the hot set, and
/// nothing else.
pub proof fn lemma_mark_searching_batch_frame(s: CacheState, paths: Seq<Seq<char>>, now: i64)
    ensures
        s.mark_searching_batch(paths, now) == (CacheState {
            directories: s.mark_searching_batch(paths, now).directories,
            hot: s.mark_searching_batch(paths, now).hot,
            ..s
        }),
    decreases paths.len(),
{
    if paths.len() > 0 {
        lemma_mark_searching_batch_frame(s, paths.drop_last(), now);
    }
}

/// Storing states touches the directory cache and the hot set, and nothing
/// else.
pub proof fn lemma_mark_completed_batch_frame(s: CacheState, rows: Seq<DirRow>)
    ensures
        s.mark_completed_batch(rows) == (CacheState {
            directories: s.mark_completed_batch(rows).directories,
            hot: s.mark_completed_batch(rows).hot,
            ..s
        }),
    decreases rows.len(),
{
    if rows.len() > 0 {
        lemma_mark_completed_batch_frame(s, rows.drop_last());
    }
}

/// Logging matches touches the found-file log, and nothing else.
pub proof fn lemma_save_found_files_frame(s: CacheState, session: Seq<char>, paths: Seq<Seq<char>>, now: i64)
    ensures
        s.save_found_files(session, paths, now) == (CacheState {
            found_files: s.save_found_files(session, paths, now).found_files,
            ..s
        }),
    decreases paths.len(),
{
    if paths.len() > 0 {
        lemma_save_found_files_frame(s, session, paths.drop_last(), now);
    }
}

/// Queueing what was discovered touches the work queue and its id counter,
/// and nothing else.
pub proof fn lemma_enqueue_discovered_frame(c: CacheState, entries: Seq<crate::scan::SubdirsView>, now: i64)
    ensures
        crate::scan::enqueue_discovered(c, entries, now) == (CacheState {
            work_queue: crate::scan::enqueue_discovered(c, entries, now).work_queue,
            last_work_id: crate::scan::enqueue_discovered(c, entries, now).last_work_id,
            ..c
        }),
    decreases entries.len(),
{
    if entries.len() > 0 {
        let first = entries.first();
        crate::cache::lemma_enqueue_all_frame(c, first.session_id, first.subdirs, 0, now);
        if !c.enqueue_all_fails(first.session_id, first.subdirs, 0, now) {
            lemma_enqueue_discovered_frame(
                c.enqueue_all(first.session_id, first.subdirs, 0, now),
                entries.drop_first(),
                now,
            );
        }
    }
}

/// The turns of a search leave the sessions alone: between its start and its
/// end no session is registered, removed or changed.
pub proof fn law_turns_leave_sessions_alone(
    s: SearchView,
    c: CacheState,
    cancelled: bool,
    now: i64,
    clock_ms: u64,
)
    ensures
        planned(s, c, cancelled, now).cache.sessions == c.sessions,
        planned(s, c, cancelled, now).cache.current_session == c.current_session,
        settled(s, c, now, clock_ms).cache.sessions == c.sessions,
        settled(s, c, now, clock_ms).cache.current_session == c.current_session,
{
    let items = c.peek_work_batch(s.session_id, WORK_BATCH_SIZE as nat);
    let sorted = classify(c, now, s.stats, items);
    let removed = if sorted.ids.len() > 0 {
        c.remove_work_items(sorted.ids)
    } else {
        c
    };
    lemma_mark_searching_batch_frame(
        removed,
        crate::scan::enlist(s.processing, sorted.accepted).kept,
        now,
    );
    let stored = c.mark_completed_batch(crate::scan::states_to_store(s));
    lemma_mark_completed_batch_frame(c, crate::scan::states_to_store(s));
    lemma_save_found_files_frame(stored, s.session_id, s.found_files, now);
    lemma_enqueue_discovered_frame(
        crate::scan::flushed(s, c, now, clock_ms).cache,
        s.discovered,
        now,
    );
    lemma_enqueue_discovered_frame(c, s.discovered, now);
}

// ---------------------------------------------------------------------------
// Forward progress
// ---------------------------------------------------------------------------

/// Filtering twice does not depend on the order of the two filters.
pub proof fn lemma_filter_commutes<T>(s: Seq<T>, p: spec_fn(T) -> bool, q: spec_fn(T) -> bool)
    ensures
        s.filter(p).filter(q) == s.filter(q).filter(p),
    decreases s.len(),
{
    reveal(Seq::filter);
    if s.len() > 0 {
        let front = s.drop_last();
        let last = s.last();
        lemma_filter_commutes(front, p, q);
        assert(s =~= front.push(last));
        Seq::lemma_filter_push(front, last, p);
        Seq::lemma_filter_push(front, last, q);
        Seq::lemma_filter_push(front.filter(p), last, q);
        Seq::lemma_filter_push(front.filter(q), last, p);
    }
}

/// A filter that every element passes keeps the sequence as it is.
pub proof fn lemma_filter_keeps_all<T>(s: Seq<T>, pred: spec_fn(T) -> bool)
    requires
        forall|i: int| #![trigger s[i]] 0 <= i < s.len() ==> pred(s[i]),
    ensures
        s.filter(pred) == s,
    decreases s.len(),
{
    reveal(Seq::filter);
    if s.len() > 0 {
        let front = s.drop_last();
        assert forall|i: int| #![trigger front[i]] 0 <= i < front.len() implies pred(front[i]) by {
            assert(front[i] == s[i]);
        }
        lemma_filter_keeps_all(front, pred);
        assert(pred(s[s.len() - 1]));
        assert(s =~= front.push(s.last()));
    }
}

/// A filter that no element passes keeps nothing.
pub proof fn lemma_filter_keeps_none<T>(s: Seq<T>, pred: spec_fn(T) -> bool)
    requires
        forall|i: int| #![trigger s[i]] 0 <= i < s.len() ==> !pred(s[i]),
    ensures
        s.filter(pred) == Seq::<T>::empty(),
    decreases s.len(),
{
    reveal(Seq::filter);
    if s.len() > 0 {
        let front = s.drop_last();
        assert forall|i: int| #![trigger front[i]] 0 <= i < front.len() implies !pred(front[i]) by {
            assert(front[i] == s[i]);
        }
        lemma_filter_keeps_none(front, pred);
        assert(!pred(s[s.len() - 1]));
    }
}

/// Every item that a turn peeks leaves the queue in that turn, probed or
/// skipped: the work of the session is what it was without the peeked
/// items, so each turn that peeks something brings the queue closer to
/// empty.
pub proof fn law_peeked_items_leave_the_queue(s: SearchView, c: CacheState, now: i64)
    requires
        c.inv(),
        planned(s, c, false, now).batch is Probe,
    ensures
        planned(s, c, false, now).cache.session_work(s.session_id) == c.session_work(
            s.session_id,
        ).skip(c.peek_work_batch(s.session_id, WORK_BATCH_SIZE as nat).len() as int),
        planned(s, c, false, now).cache.work_count(s.session_id) == c.work_count(s.session_id)
            - c.peek_work_batch(s.session_id, WORK_BATCH_SIZE as nat).len(),
{
    let session = s.session_id;
    let q = c.work_queue;
    let mine = crate::model::in_session(session);
    let all = c.session_work(session);
    let items = c.peek_work_batch(session, WORK_BATCH_SIZE as nat);
    let n = items.len() as int;
    let sorted = classify(c, now, s.stats, items);
    let removed = if sorted.ids.len() > 0 {
        c.remove_work_items(sorted.ids)
    } else {
        c
    };
    lemma_mark_searching_batch_frame(
        removed,
        crate::scan::enlist(s.processing, sorted.accepted).kept,
        now,
    );
    assert(planned(s, c, false, now).cache.work_queue == removed.work_queue);
    crate::tables::lemma_filter_work(q, c.last_work_id, mine);
    assert(items =~= all.take(n));
    assert forall|k: int| 0 <= k < items.len() implies (#[trigger] items[k]).id is Some by {
        assert(items[k] == all[k]);
    }
    law_peeked_ids_are_collected(c, now, s.stats, items);
    let ids = sorted.ids;
    let unlisted = crate::model::not_listed(ids);
    if n == 0 {
        assert(all.skip(0) =~= all);
    } else {
        lemma_filter_commutes(q, unlisted, mine);
        let front = all.take(n);
        let back = all.skip(n);
        assert(all =~= front + back);
        Seq::filter_distributes_over_add(front, back, unlisted);
        assert forall|k: int| #![trigger front[k]] 0 <= k < front.len() implies !unlisted(front[k]) by {
            assert(front[k] == items[k]);
            assert(ids[k] == items[k].id->0);
            assert(ids.contains(items[k].id->0));
        }
        lemma_filter_keeps_none(front, unlisted);
        assert forall|k: int| #![trigger back[k]] 0 <= k < back.len() implies unlisted(back[k]) by {
            assert(back[k] == all[k + n]);
            if ids.contains(back[k].id->0) {
                let j = choose|j: int| 0 <= j < ids.len() && ids[j] == back[k].id->0;
                assert(ids[j] == items[j].id->0);
                assert(items[j] == all[j]);
                assert(all[j].id is Some && all[k + n].id is Some);
                assert(crate::model::work_id(all[j]) != crate::model::work_id(all[k + n]));
            }
        }
        lemma_filter_keeps_all(back, unlisted);
        assert(front.filter(unlisted) + back.filter(unlisted) =~= back);
    }
}

/// A turn counts what it takes from the queue, and nothing else: the
/// directories classified so far and the work that waits for the session
/// together stay what they were. So over any number of turns, in one run or
/// in a run that is cancelled and resumed, every directory that is queued
/// for the session and leaves the queue is counted once, as new, as resumed
/// or as skipped.
pub proof fn law_turn_counts_what_leaves_the_queue(s: SearchView, c: CacheState, now: i64)
    requires
        c.inv(),
        planned(s, c, false, now).batch is Probe,
        s.stats.classified() + c.work_count(s.session_id) <= usize::MAX,
    ensures
        planned(s, c, false, now).search.stats.classified() + planned(
            s,
            c,
            false,
            now,
        ).cache.work_count(s.session_id) == s.stats.classified() + c.work_count(s.session_id),
{
    let items = c.peek_work_batch(s.session_id, WORK_BATCH_SIZE as nat);
    c.work_queue.lemma_filter_len(crate::model::in_session(s.session_id));
    law_peeked_items_leave_the_queue(s, c, now);
    law_peeked_items_are_counted_once(c, now, s.stats, items);
}

/// Reports and the ends of turns classify nothing, and a search starts with
/// nothing classified, unless it resumes a session that has no work left:
/// then the directories searched in the time of that session are credited
/// as skipped.
pub proof fn law_only_turns_classify(
    s: SearchView,
    c: CacheState,
    outcome: crate::probe::OutcomeView,
    path: Seq<char>,
    root: Seq<char>,
    recursive: bool,
    dry_run: bool,
    new_id: Seq<char>,
    now: i64,
    clock_ms: u64,
)
    ensures
        reported(s, outcome).stats.classified() == s.stats.classified(),
        timed_out(s, path).stats.classified() == s.stats.classified(),
        crate::scan::dropped(s, path).stats.classified() == s.stats.classified(),
        settled(s, c, now, clock_ms).search.stats == s.stats,
        ({
            let begun = crate::scan::started(c, root, recursive, dry_run, new_id, now, clock_ms);
            begun.cache.work_count(begun.search.session_id) > 0 || !c.resumes(
                root,
                recursive,
                dry_run,
            ) ==> begun.search.stats.classified() == 0
        }),
{
}

// ---------------------------------------------------------------------------
// One interrupted session for a root and its options
// ---------------------------------------------------------------------------

/// No session of the given root and options is interrupted.
pub open spec fn none_resumable(rows: Seq<SessionRow>, root: Seq<char>, recursive: bool, dry_run: bool) -> bool {
    forall|i: int| 0 <= i < rows.len() ==> !resumable(#[trigger] rows[i], root, recursive, dry_run)
}

/// When a search has started, no session of its root and options is
/// interrupted any more, if at most one was before: that one is resumed or
/// removed.
pub proof fn law_start_leaves_none_interrupted(
    c: CacheState,
    root: Seq<char>,
    recursive: bool,
    dry_run: bool,
    new_id: Seq<char>,
    now: i64,
    clock_ms: u64,
)
    requires
        c.inv(),
        at_most_one_resumable(c.sessions, root, recursive, dry_run),
    ensures
        none_resumable(
            crate::scan::started(c, root, recursive, dry_run, new_id, now, clock_ms).cache.sessions,
            root,
            recursive,
            dry_run,
        ),
{
    let rows = c.sessions;
    let resumed = c.resume_session(root, recursive, dry_run);
    // after the resume none is left
    if has_resume_target(rows, root, recursive, dry_run) {
        let t = resume_target(rows, root, recursive, dry_run);
        assert(is_resume_target(rows, root, recursive, dry_run, t));
        assert forall|k: int| 0 <= k < rows.len() && k != t implies !resumable(
            #[trigger] rows[k],
            root,
            recursive,
            dry_run,
        ) by {
            if k < t {
                assert(!(resumable(rows[k], root, recursive, dry_run) && resumable(
                    rows[t],
                    root,
                    recursive,
                    dry_run,
                )));
            } else {
                assert(!(resumable(rows[t], root, recursive, dry_run) && resumable(
                    rows[k],
                    root,
                    recursive,
                    dry_run,
                )));
            }
        }
        let id = rows[t].session_id;
        if !(c.work_count(id) > 0 || c.found_count(id) > 0) {
            let src = lemma_filter_sources(rows, other_session(id));
            assert forall|i: int| 0 <= i < resumed.sessions.len() implies !resumable(
                #[trigger] resumed.sessions[i],
                root,
                recursive,
                dry_run,
            ) by {
                assert(rows[src[i]] == resumed.sessions[i]);
                assert(src[i] != t);
            }
        }
    } else {
        assert forall|i: int| 0 <= i < rows.len() implies !resumable(
            #[trigger] rows[i],
            root,
            recursive,
            dry_run,
        ) by {
            if resumable(rows[i], root, recursive, dry_run) {
                lemma_resumable_gives_target(rows, root, recursive, dry_run, i, rows.len() as int);
                assert(rows.take(rows.len() as int) =~= rows);
            }
        }
    }
    assert(none_resumable(resumed.sessions, root, recursive, dry_run));
    if !c.resumes(root, recursive, dry_run) {
        let cutoff = freshness_cutoff(now, resumed.window_hours);
        lemma_filter_all(
            resumed.sessions,
            crate::model::not_stale(cutoff),
            |r: SessionRow| !resumable(r, root, recursive, dry_run),
        );
        let swept = resumed.cleanup_stale_sessions(now);
        assert(none_resumable(swept.sessions, root, recursive, dry_run));
        let begun = resumed.start_session(new_id, root, recursive, dry_run, now);
        assert(begun.sessions == swept.sessions || begun.sessions == swept.sessions.push(
            CacheState::new_session_row(new_id, root, recursive, dry_run, now),
        ));
    }
}

/// When a search ends by cancellation, at most one session of its root and
/// options is interrupted, if none was when it ended: the session of the
/// search itself, where work is left for it.
pub proof fn law_interrupt_leaves_at_most_one(
    s: SearchView,
    c: CacheState,
    root: Seq<char>,
    recursive: bool,
    dry_run: bool,
    now: i64,
)
    requires
        none_resumable(c.sessions, root, recursive, dry_run),
    ensures
        at_most_one_resumable(
            crate::scan::interrupted(s, c, now).sessions,
            root,
            recursive,
            dry_run,
        ),
{
    let stored = c.mark_completed_batch(crate::scan::states_to_store(s));
    lemma_mark_completed_batch_frame(c, crate::scan::states_to_store(s));
    let saved = stored.save_found_files(s.session_id, s.found_files, now);
    lemma_save_found_files_frame(stored, s.session_id, s.found_files, now);
    assert(saved.sessions == c.sessions);
    let after = crate::scan::interrupted(s, c, now).sessions;
    assert(after.len() == c.sessions.len());
    assert forall|a: int, b: int| 0 <= a < b < after.len() implies !(resumable(
        #[trigger] after[a],
        root,
        recursive,
        dry_run,
    ) && resumable(#[trigger] after[b], root, recursive, dry_run)) by {
        assert(!resumable(c.sessions[a], root, recursive, dry_run));
        assert(!resumable(c.sessions[b], root, recursive, dry_run));
        assert(after[a] == c.sessions[a] || after[b] == c.sessions[b]);
    }
}

} // verus!
