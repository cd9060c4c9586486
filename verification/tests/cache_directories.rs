use dds::cache::freshness_cutoff_at;
use dds::cache::sweep_cutoff_at;
use dds::cache::Cache;
use dds::cache::CacheError;
use dds::cache::DirectoryState;
use dds::cache::DirectoryStatus;
use dds::cache::SearchSessionStatus;
use dds::snapshot::StoreSnapshot;

const HOUR: i64 = 3600;
const WEEK: u64 = 168;
const NOW: i64 = 1_700_000_000;

fn state(path: &str, at: i64, completed: bool, found: bool, deleted: bool) -> DirectoryState {
    DirectoryState {
        path: path.to_string(),
        last_searched_at: at,
        search_completed: completed,
        ds_store_found: found,
        ds_store_deleted: deleted,
        error_message: None,
    }
}

fn row_of(cache: &Cache, path: &str) -> Option<DirectoryState> {
    cache.snapshot().directories.into_iter().find(|row| row.path == path)
}

#[test]
fn status_words_round_trip() {
    assert_eq!(SearchSessionStatus::Active.as_str(), "active");
    assert_eq!(SearchSessionStatus::Completed.as_str(), "completed");
    assert_eq!(SearchSessionStatus::Interrupted.as_str(), "interrupted");
    assert_eq!(SearchSessionStatus::Failed.as_str(), "failed");
    assert_eq!(SearchSessionStatus::parse("active"), SearchSessionStatus::Active);
    assert_eq!(SearchSessionStatus::parse("completed"), SearchSessionStatus::Completed);
    assert_eq!(SearchSessionStatus::parse("interrupted"), SearchSessionStatus::Interrupted);
    assert_eq!(SearchSessionStatus::parse("failed"), SearchSessionStatus::Failed);
    assert_eq!(SearchSessionStatus::parse("anything else"), SearchSessionStatus::Failed);
    assert_eq!(SearchSessionStatus::parse(""), SearchSessionStatus::Failed);
    assert_eq!(SearchSessionStatus::parse("Active"), SearchSessionStatus::Failed);
}

#[test]
fn cutoffs_are_now_less_the_window() {
    assert_eq!(freshness_cutoff_at(1_000_000, 168), 1_000_000 - 604_800);
    assert_eq!(sweep_cutoff_at(1_000_000, 168), 1_000_000 - 1_209_600);
    assert_eq!(freshness_cutoff_at(NOW, 0), NOW);
    assert_eq!(sweep_cutoff_at(NOW, 0), NOW);
    assert_eq!(freshness_cutoff_at(NOW, 1), NOW - 3600);
    assert_eq!(sweep_cutoff_at(NOW, 1), NOW - 7200);
}

#[test]
fn cutoffs_are_clamped() {
    assert_eq!(freshness_cutoff_at(i64::MIN + 5, 1), i64::MIN);
    assert_eq!(sweep_cutoff_at(i64::MIN + 5, 1), i64::MIN);
    assert_eq!(freshness_cutoff_at(0, u64::MAX), -i64::MAX);
    assert_eq!(sweep_cutoff_at(0, u64::MAX), -i64::MAX);
    assert_eq!(freshness_cutoff_at(-2, u64::MAX), i64::MIN);
    // the largest windows whose length in seconds still fits
    assert_eq!(freshness_cutoff_at(i64::MAX, 2_562_047_788_015_215), i64::MAX - 2_562_047_788_015_215 * 3600);
    assert_eq!(freshness_cutoff_at(i64::MAX, 2_562_047_788_015_216), 0);
    assert_eq!(sweep_cutoff_at(i64::MAX, 1_281_023_894_007_607), i64::MAX - 1_281_023_894_007_607 * 7200);
    assert_eq!(sweep_cutoff_at(i64::MAX, 1_281_023_894_007_608), 0);
}

#[test]
fn unknown_directory_is_not_cached() {
    let cache = Cache::empty(WEEK, false);
    assert_eq!(cache.directory_status_at("/t", NOW), DirectoryStatus::NotCached);
    assert!(cache.should_search_at("/t", NOW));
    assert!(!cache.should_skip("/t"));
}

#[test]
fn entered_directory_is_incomplete() {
    let mut cache = Cache::empty(WEEK, false);
    cache.mark_searching_at("/t", NOW);
    assert_eq!(cache.directory_status_at("/t", NOW), DirectoryStatus::Incomplete);
    assert!(cache.should_search_at("/t", NOW));
    let row = row_of(&cache, "/t").unwrap();
    assert_eq!(row.last_searched_at, NOW);
    assert!(!row.search_completed);
    assert!(!row.ds_store_found);
    assert!(!row.ds_store_deleted);
    assert_eq!(row.error_message, None);
}

#[test]
fn completed_directory_is_fresh_and_hot() {
    let mut cache = Cache::empty(WEEK, false);
    cache.mark_completed_at("/t", true, false, NOW);
    assert!(cache.should_skip("/t"));
    assert_eq!(cache.directory_status_at("/t", NOW), DirectoryStatus::Fresh);
    assert!(!cache.should_search_at("/t", NOW));
    let row = row_of(&cache, "/t").unwrap();
    assert!(row.search_completed);
    assert!(row.ds_store_found);
    assert!(!row.ds_store_deleted);
}

#[test]
fn freshness_ends_exactly_at_the_window() {
    // a row that is not in the hot set is judged by its timestamp alone
    let mut snapshot = StoreSnapshot::empty();
    snapshot.directories.push(state("/t", NOW, true, false, false));
    let cache = Cache::new_at(snapshot, 1, true, NOW).unwrap();
    assert!(!cache.should_skip("/t"));
    // force refresh hides everything; open a second cache without it, late enough
    let mut snapshot = StoreSnapshot::empty();
    snapshot.directories.push(state("/t", NOW, true, false, false));
    let cache = Cache::new_at(snapshot, 1, false, NOW + 2 * HOUR).unwrap();
    assert!(!cache.should_skip("/t"));
    assert_eq!(cache.directory_status_at("/t", NOW + HOUR - 1), DirectoryStatus::Fresh);
    assert_eq!(cache.directory_status_at("/t", NOW + HOUR), DirectoryStatus::Stale);
    assert_eq!(cache.directory_status_at("/t", NOW + HOUR + 1), DirectoryStatus::Stale);
    assert!(cache.should_search_at("/t", NOW + HOUR));
    assert!(!cache.should_search_at("/t", NOW + HOUR - 1));
}

#[test]
fn entering_a_fresh_directory_takes_it_from_the_hot_set() {
    let mut cache = Cache::empty(WEEK, false);
    cache.mark_completed_at("/t", true, false, NOW);
    cache.mark_searching_at("/t", NOW + 1);
    assert!(!cache.should_skip("/t"));
    assert_eq!(cache.directory_status_at("/t", NOW + 1), DirectoryStatus::Incomplete);
    // the match columns of the row are kept
    let row = row_of(&cache, "/t").unwrap();
    assert!(row.ds_store_found);
    assert_eq!(row.last_searched_at, NOW + 1);
    assert_eq!(cache.snapshot().directories.len(), 1);
}

#[test]
fn error_completes_without_the_hot_set() {
    let mut cache = Cache::empty(WEEK, false);
    cache.mark_error_at("/t", "Permission denied", NOW);
    assert!(!cache.should_skip("/t"));
    let row = row_of(&cache, "/t").unwrap();
    assert!(row.search_completed);
    assert_eq!(row.error_message, Some("Permission denied".to_string()));
    assert_eq!(cache.directory_status_at("/t", NOW), DirectoryStatus::Fresh);
    // completing the directory later clears the message
    cache.mark_completed_at("/t", false, false, NOW + 5);
    assert_eq!(row_of(&cache, "/t").unwrap().error_message, None);
}

#[test]
fn error_keeps_what_was_found() {
    let mut cache = Cache::empty(WEEK, false);
    cache.mark_completed_at("/t", true, true, NOW);
    cache.mark_error_at("/t", "gone", NOW + 1);
    let row = row_of(&cache, "/t").unwrap();
    assert!(row.ds_store_found);
    assert!(row.ds_store_deleted);
    assert_eq!(row.last_searched_at, NOW + 1);
}

#[test]
fn mark_completed_twice_is_once() {
    let mut once = Cache::empty(WEEK, false);
    once.mark_searching_at("/a", NOW - 5);
    once.mark_completed_at("/t", true, false, NOW);
    let mut twice = Cache::empty(WEEK, false);
    twice.mark_searching_at("/a", NOW - 5);
    twice.mark_completed_at("/t", true, false, NOW);
    twice.mark_completed_at("/t", true, false, NOW);
    let a = once.snapshot();
    let b = twice.snapshot();
    assert_eq!(a.directories.len(), 2);
    assert_eq!(b.directories.len(), 2);
    for (x, y) in a.directories.iter().zip(b.directories.iter()) {
        assert_eq!(x.path, y.path);
        assert_eq!(x.last_searched_at, y.last_searched_at);
        assert_eq!(x.search_completed, y.search_completed);
        assert_eq!(x.ds_store_found, y.ds_store_found);
        assert_eq!(x.ds_store_deleted, y.ds_store_deleted);
        assert_eq!(x.error_message, y.error_message);
    }
    assert_eq!(once.should_skip("/t"), twice.should_skip("/t"));
}

#[test]
fn force_refresh_classifies_everything_as_not_cached() {
    let mut snapshot = StoreSnapshot::empty();
    snapshot.directories.push(state("/fresh", NOW, true, true, false));
    snapshot.directories.push(state("/stale", 0, true, false, false));
    snapshot.directories.push(state("/incomplete", NOW, false, false, false));
    let mut cache = Cache::new_at(snapshot, WEEK, true, NOW).unwrap();
    for path in ["/fresh", "/stale", "/incomplete", "/unknown"] {
        assert_eq!(cache.directory_status_at(path, NOW), DirectoryStatus::NotCached);
        assert_eq!(cache.get_directory_status(path), DirectoryStatus::NotCached);
        assert!(cache.should_search_at(path, NOW));
        assert!(cache.should_search(path));
        assert!(!cache.should_skip(path));
    }
    // even a directory completed in this very run stays not cached, and is not skipped
    cache.mark_completed_at("/fresh", true, false, NOW);
    assert_eq!(cache.directory_status_at("/fresh", NOW), DirectoryStatus::NotCached);
    assert!(!cache.should_skip("/fresh"));
}

#[test]
fn batch_stores_states_as_they_are() {
    let mut cache = Cache::empty(WEEK, false);
    cache.mark_completed_at("/a", false, false, NOW);
    let mut with_error = state("/c", NOW + 2, false, false, false);
    with_error.error_message = Some("Failed to read directory: boom".to_string());
    let states = vec![state("/a", NOW + 1, true, true, false), state("/b", NOW + 1, true, false, false), with_error];
    cache.mark_completed_batch(&states);
    let snapshot = cache.snapshot();
    assert_eq!(snapshot.directories.len(), 3);
    assert_eq!(snapshot.directories[0].path, "/a");
    assert!(snapshot.directories[0].ds_store_found);
    assert_eq!(snapshot.directories[0].last_searched_at, NOW + 1);
    assert_eq!(snapshot.directories[1].path, "/b");
    assert_eq!(snapshot.directories[2].path, "/c");
    assert_eq!(snapshot.directories[2].error_message, Some("Failed to read directory: boom".to_string()));
    assert!(cache.should_skip("/a"));
    assert!(cache.should_skip("/b"));
    assert!(!cache.should_skip("/c"));
    assert_eq!(cache.directory_status_at("/c", NOW + 2), DirectoryStatus::Incomplete);
    // an empty batch changes nothing
    cache.mark_completed_batch(&Vec::new());
    assert_eq!(cache.snapshot().directories.len(), 3);
}

#[test]
fn later_state_of_a_batch_wins() {
    let mut cache = Cache::empty(WEEK, false);
    let states = vec![state("/a", NOW, true, true, false), state("/a", NOW + 9, true, false, false)];
    cache.mark_completed_batch(&states);
    let snapshot = cache.snapshot();
    assert_eq!(snapshot.directories.len(), 1);
    assert_eq!(snapshot.directories[0].last_searched_at, NOW + 9);
    assert!(!snapshot.directories[0].ds_store_found);
}

#[test]
fn searching_batch_enters_each_path() {
    let mut cache = Cache::empty(WEEK, false);
    cache.mark_completed_at("/a", true, false, NOW);
    cache.mark_searching_batch_at(&vec!["/a".to_string(), "/b".to_string()], NOW + 1);
    assert_eq!(cache.directory_status_at("/a", NOW + 1), DirectoryStatus::Incomplete);
    assert_eq!(cache.directory_status_at("/b", NOW + 1), DirectoryStatus::Incomplete);
    assert!(!cache.should_skip("/a"));
    cache.mark_searching_batch_at(&Vec::new(), NOW + 2);
    assert_eq!(cache.snapshot().directories.len(), 2);
}

#[test]
fn stats_count_the_rows() {
    let mut cache = Cache::empty(WEEK, false);
    let empty = cache.get_cache_stats();
    assert_eq!(empty.total_entries, 0);
    assert_eq!(empty.completed_searches, 0);
    assert_eq!(empty.incomplete_searches, 0);
    cache.mark_completed_at("/a", true, true, NOW);
    cache.mark_completed_at("/b", true, false, NOW);
    cache.mark_completed_at("/c", false, false, NOW);
    cache.mark_searching_at("/d", NOW);
    cache.mark_error_at("/e", "nope", NOW);
    let stats = cache.get_cache_stats();
    assert_eq!(stats.total_entries, 5);
    assert_eq!(stats.completed_searches, 4);
    assert_eq!(stats.incomplete_searches, 1);
    assert_eq!(stats.directories_with_ds_store, 2);
    assert_eq!(stats.ds_stores_deleted, 1);
    assert_eq!(stats.errors, 1);
}

#[test]
fn clear_incomplete_removes_and_counts() {
    let mut cache = Cache::empty(WEEK, false);
    cache.mark_searching_at("/a", NOW);
    cache.mark_completed_at("/b", false, false, NOW);
    cache.mark_searching_at("/c", NOW);
    assert_eq!(cache.clear_incomplete(), 2);
    let snapshot = cache.snapshot();
    assert_eq!(snapshot.directories.len(), 1);
    assert_eq!(snapshot.directories[0].path, "/b");
    assert_eq!(cache.clear_incomplete(), 0);
    assert!(cache.should_skip("/b"));
}

#[test]
fn incomplete_searches_come_latest_first() {
    let mut cache = Cache::empty(WEEK, false);
    cache.mark_searching_at("/old", NOW - 100);
    cache.mark_completed_at("/done", false, false, NOW);
    cache.mark_searching_at("/new", NOW);
    cache.mark_searching_at("/mid", NOW - 50);
    assert_eq!(cache.get_incomplete_searches(), vec!["/new".to_string(), "/mid".to_string(), "/old".to_string()]);
    assert_eq!(Cache::empty(WEEK, false).get_incomplete_searches(), Vec::<String>::new());
}

#[test]
fn sweep_removes_rows_older_than_twice_the_window() {
    let mut cache = Cache::empty(1, false);
    cache.mark_completed_at("/ancient", false, false, NOW - 2 * HOUR - 1);
    cache.mark_completed_at("/edge", false, false, NOW - 2 * HOUR);
    cache.mark_completed_at("/stale", false, false, NOW - HOUR - 1);
    cache.mark_searching_at("/old_incomplete", NOW - 3 * HOUR);
    cache.cleanup_old_entries_at(NOW);
    let paths: Vec<String> = cache.snapshot().directories.into_iter().map(|row| row.path).collect();
    assert_eq!(paths, vec!["/edge".to_string(), "/stale".to_string()]);
}

#[test]
fn rows_of_an_opened_cache_need_no_repair() {
    let mut snapshot = StoreSnapshot::empty();
    snapshot.directories.push(state("/bad", NOW, true, false, true));
    snapshot.directories.push(state("/good", NOW, true, true, true));
    let cache = Cache::new_at(snapshot, WEEK, false, NOW).unwrap();
    assert_eq!(cache.validate_integrity("ok"), Ok(()));
    let bad = row_of(&cache, "/bad").unwrap();
    assert!(!bad.ds_store_deleted);
    assert!(!bad.ds_store_found);
    let good = row_of(&cache, "/good").unwrap();
    assert!(good.ds_store_deleted);
    assert!(good.ds_store_found);
    for row in cache.snapshot().directories {
        assert!(!row.ds_store_deleted || row.ds_store_found);
    }
}

#[test]
fn a_match_counts_as_deleted_only_where_it_was_found() {
    let mut cache = Cache::empty(WEEK, false);
    cache.mark_completed_at("/claimed", false, true, NOW);
    cache.mark_completed_at("/deleted", true, true, NOW);
    cache.mark_completed_batch(&vec![state("/batch", NOW, true, false, true), state("/open", NOW, false, false, true)]);
    for path in ["/claimed", "/batch", "/open"] {
        let row = row_of(&cache, path).unwrap();
        assert!(!row.ds_store_found);
        assert!(!row.ds_store_deleted);
    }
    let deleted = row_of(&cache, "/deleted").unwrap();
    assert!(deleted.ds_store_found);
    assert!(deleted.ds_store_deleted);
    assert_eq!(cache.get_cache_stats().ds_stores_deleted, 1);
}

#[test]
fn integrity_check_fails_on_a_bad_report() {
    let mut cache = Cache::empty(WEEK, false);
    cache.mark_completed_at("/t", true, false, NOW);
    assert_eq!(cache.validate_integrity("ok"), Ok(()));
    assert_eq!(cache.validate_integrity("*** in database main ***"), Err(CacheError::IntegrityCheckFailed));
    assert_eq!(cache.validate_integrity(""), Err(CacheError::IntegrityCheckFailed));
    assert_eq!(cache.validate_integrity("OK"), Err(CacheError::IntegrityCheckFailed));
    assert_eq!(cache.snapshot().directories.len(), 1);
    assert_eq!(CacheError::IntegrityCheckFailed.message(), "Database integrity check failed");
}

#[test]
fn rows_stay_consistent_through_the_operations() {
    let mut cache = Cache::empty(1, false);
    cache.mark_completed_at("/a", true, true, NOW);
    cache.mark_completed_at("/b", true, false, NOW);
    cache.mark_searching_at("/a", NOW + 1);
    cache.mark_error_at("/b", "x", NOW + 2);
    cache.mark_completed_batch(&vec![state("/c", NOW, true, true, true), state("/d", NOW, false, false, false)]);
    cache.mark_completed_at("/e", false, true, NOW);
    cache.mark_completed_batch(&vec![state("/f", NOW, true, false, true)]);
    for row in cache.snapshot().directories {
        assert!(!row.ds_store_deleted || row.ds_store_found);
    }
    cache.clear_incomplete();
    cache.cleanup_old_entries_at(NOW + 10);
    for row in cache.snapshot().directories {
        assert!(!row.ds_store_deleted || row.ds_store_found);
    }
}

#[test]
fn hot_set_holds_only_fresh_completed_rows() {
    let mut snapshot = StoreSnapshot::empty();
    snapshot.directories.push(state("/fresh", NOW - 10, true, false, false));
    snapshot.directories.push(state("/stale", NOW - 2 * HOUR, true, false, false));
    snapshot.directories.push(state("/edge", NOW - HOUR, true, false, false));
    snapshot.directories.push(state("/incomplete", NOW - 10, false, false, false));
    let mut cache = Cache::new_at(snapshot, 1, false, NOW).unwrap();
    assert!(cache.should_skip("/fresh"));
    assert!(!cache.should_skip("/stale"));
    assert!(!cache.should_skip("/edge"));
    assert!(!cache.should_skip("/incomplete"));
    cache.mark_completed_at("/new", false, false, NOW);
    cache.mark_searching_at("/fresh", NOW);
    cache.mark_error_at("/err", "x", NOW);
    for row in cache.snapshot().directories {
        if cache.should_skip(&row.path) {
            assert!(row.search_completed);
            assert!(row.last_searched_at > NOW - HOUR);
            assert_eq!(cache.directory_status_at(&row.path, NOW), DirectoryStatus::Fresh);
        }
    }
    assert!(cache.should_skip("/new"));
    assert!(!cache.should_skip("/fresh"));
    assert!(!cache.should_skip("/err"));
}

#[test]
fn the_status_is_read_from_the_row() {
    let mut cache = Cache::empty(1, false);
    cache.mark_completed_at("/t", false, false, 0);
    // the path is in the hot set, and its row is long stale
    assert!(cache.should_skip("/t"));
    assert_eq!(cache.directory_status_at("/t", 1_000_000), DirectoryStatus::Stale);
    assert_eq!(cache.directory_status_at("/t", 3599), DirectoryStatus::Fresh);
    assert_eq!(cache.directory_status_at("/t", 3600), DirectoryStatus::Stale);
    // a sweep removes the row, and with it the path from the hot set
    cache.cleanup_old_entries_at(1_000_000);
    assert!(cache.snapshot().directories.is_empty());
    assert!(!cache.should_skip("/t"));
    assert_eq!(cache.directory_status_at("/t", 1_000_000), DirectoryStatus::NotCached);
}

#[test]
fn a_state_that_is_not_completed_leaves_the_hot_set() {
    let mut cache = Cache::empty(WEEK, false);
    cache.mark_completed_at("/t", true, false, NOW);
    cache.mark_completed_at("/u", true, false, NOW);
    assert!(cache.should_skip("/t"));
    cache.mark_completed_batch(&vec![state("/t", NOW + 1, false, false, false)]);
    assert!(!cache.should_skip("/t"));
    assert!(cache.should_skip("/u"));
    assert_eq!(cache.directory_status_at("/t", NOW + 1), DirectoryStatus::Incomplete);
    // every path of the hot set has a completed row
    cache.clear_incomplete();
    cache.cleanup_old_entries_at(NOW);
    for path in ["/t", "/u", "/v"] {
        if cache.should_skip(path) {
            assert!(row_of(&cache, path).unwrap().search_completed);
        }
    }
}

#[test]
fn a_window_of_zero_keeps_nothing_fresh() {
    let mut cache = Cache::empty(0, false);
    cache.mark_completed_at("/t", false, false, NOW);
    cache.mark_completed_batch(&vec![state("/u", NOW, true, false, false)]);
    for path in ["/t", "/u"] {
        assert!(!cache.should_skip(path));
        assert_eq!(cache.directory_status_at(path, NOW), DirectoryStatus::Stale);
        assert!(row_of(&cache, path).unwrap().search_completed);
    }
    let reopened = Cache::new_at(cache.snapshot(), 0, false, NOW).unwrap();
    assert!(!reopened.should_skip("/t"));
    assert_eq!(reopened.directory_status_at("/t", NOW), DirectoryStatus::Stale);
}

#[test]
fn what_is_skipped_is_fresh_at_the_moment_it_was_completed() {
    for window in [0, 1, 168, u64::MAX] {
        let mut cache = Cache::empty(window, false);
        for (i, at) in [i64::MIN, -5, 0, NOW, i64::MAX].into_iter().enumerate() {
            let path = format!("/d{}", i);
            cache.mark_completed_at(&path, false, false, at);
            if cache.should_skip(&path) {
                assert_eq!(cache.directory_status_at(&path, at), DirectoryStatus::Fresh);
            }
            assert_eq!(cache.should_skip(&path), cache.directory_status_at(&path, at) == DirectoryStatus::Fresh);
        }
    }
}

#[test]
fn clear_all_empties_everything() {
    let mut cache = Cache::empty(WEEK, false);
    cache.mark_completed_at("/a", true, false, NOW);
    cache.start_session_with("s1", "/a", true, false, NOW).unwrap();
    cache.save_found_files_at("s1", &vec!["/a/.DS_Store".to_string()], NOW);
    cache.clear_all();
    let snapshot = cache.snapshot();
    assert!(snapshot.directories.is_empty());
    assert!(snapshot.work_queue.is_empty());
    assert!(snapshot.sessions.is_empty());
    assert!(snapshot.found_files.is_empty());
    assert!(!cache.should_skip("/a"));
    assert!(cache.get_current_session().is_none());
    // the queue does not give an id out twice
    assert_eq!(snapshot.last_work_id, 1);
}

#[test]
fn undeleted_matches_are_remembered() {
    let mut cache = Cache::empty(WEEK, false);
    cache.mark_completed_at("/t", true, false, NOW);
    cache.mark_completed_at("/t/a", true, true, NOW);
    cache.mark_completed_at("/t/b", true, false, NOW);
    cache.mark_completed_at("/t/c", false, false, NOW);
    cache.mark_completed_at("/u", true, false, NOW);
    cache.mark_completed_batch(&vec![state("/t/d", NOW, false, true, false)]);
    assert_eq!(
        cache.get_undeleted_ds_store_files("/t", true),
        vec!["/t/.DS_Store".to_string(), "/t/b/.DS_Store".to_string()]
    );
    assert_eq!(cache.get_undeleted_ds_store_files("/t", false), vec!["/t/.DS_Store".to_string()]);
    assert_eq!(cache.get_undeleted_ds_store_files("/t/b", false), vec!["/t/b/.DS_Store".to_string()]);
    assert_eq!(cache.get_undeleted_ds_store_files("/nowhere", true), Vec::<String>::new());
    assert_eq!(cache.get_undeleted_ds_store_files("/t/b/deeper", true), Vec::<String>::new());
}

#[test]
fn the_clock_gives_a_time_of_today() {
    let mut cache = Cache::empty(WEEK, false);
    cache.mark_completed("/t", false, false);
    cache.mark_searched("/u");
    cache.mark_error("/v", "x");
    cache.mark_searching("/w");
    cache.mark_searching_batch(&vec!["/x".to_string()]);
    for row in cache.snapshot().directories {
        // after 2023, and not in the far future
        assert!(row.last_searched_at > 1_690_000_000);
        assert!(row.last_searched_at < 4_000_000_000);
    }
    assert_eq!(cache.get_directory_status("/t"), DirectoryStatus::Fresh);
    assert_eq!(cache.get_directory_status("/u"), DirectoryStatus::Fresh);
    assert_eq!(cache.get_directory_status("/w"), DirectoryStatus::Incomplete);
    assert!(!cache.should_search("/t"));
    assert!(cache.should_search("/w"));
    cache.cleanup_old_entries();
    assert_eq!(cache.snapshot().directories.len(), 5);
}
