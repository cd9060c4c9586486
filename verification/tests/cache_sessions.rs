use dds::cache::Cache;
use dds::cache::CacheError;
use dds::cache::SearchSession;
use dds::cache::SearchSessionStatus;
use dds::snapshot::StoreSnapshot;

const HOUR: i64 = 3600;
const WEEK: u64 = 168;
const NOW: i64 = 1_700_000_000;

fn session(id: &str, root: &str, started_at: i64, recursive: bool, dry: bool, status: SearchSessionStatus) -> SearchSession {
    SearchSession {
        session_id: id.to_string(),
        root_path: root.to_string(),
        started_at,
        completed_at: None,
        is_recursive: recursive,
        is_dry_run: dry,
        status,
    }
}

fn status_of(cache: &Cache, id: &str) -> Option<SearchSessionStatus> {
    cache.snapshot().sessions.into_iter().find(|s| s.session_id == id).map(|s| s.status)
}

fn interrupted_count(cache: &Cache, root: &str, recursive: bool, dry: bool) -> usize {
    cache
        .snapshot()
        .sessions
        .iter()
        .filter(|s| {
            s.root_path == root
                && s.is_recursive == recursive
                && s.is_dry_run == dry
                && s.status == SearchSessionStatus::Interrupted
        })
        .count()
}

#[test]
fn start_registers_an_active_session_and_queues_the_root() {
    let mut cache = Cache::empty(WEEK, false);
    assert_eq!(cache.start_session_with("s1", "/t", true, false, NOW), Ok("s1".to_string()));
    let snapshot = cache.snapshot();
    assert_eq!(snapshot.sessions.len(), 1);
    let row = &snapshot.sessions[0];
    assert_eq!(row.session_id, "s1");
    assert_eq!(row.root_path, "/t");
    assert_eq!(row.started_at, NOW);
    assert_eq!(row.completed_at, None);
    assert!(row.is_recursive);
    assert!(!row.is_dry_run);
    assert_eq!(row.status, SearchSessionStatus::Active);
    let current = cache.get_current_session().unwrap();
    assert_eq!(current.session_id, "s1");
    assert_eq!(current.status, SearchSessionStatus::Active);
    let items = cache.peek_work_batch("s1", 10);
    assert_eq!(items.len(), 1);
    assert_eq!(items[0].path, "/t");
    assert_eq!(items[0].priority, 0);
    assert_eq!(items[0].discovered_at, NOW);
}

#[test]
fn start_refuses_a_taken_identifier() {
    let mut cache = Cache::empty(WEEK, false);
    cache.start_session_with("s1", "/t", true, false, NOW).unwrap();
    assert_eq!(cache.start_session_with("s1", "/u", false, false, NOW), Err(CacheError::DuplicateSession));
    assert_eq!(cache.snapshot().sessions.len(), 1);
    assert_eq!(cache.get_work_count("s1"), 1);
    assert_eq!(cache.get_current_session().unwrap().root_path, "/t");
    assert_eq!(CacheError::DuplicateSession.message(), "A session with this identifier exists already");
}

#[test]
fn start_fails_where_the_queue_has_no_id_for_the_root() {
    let mut snapshot = StoreSnapshot::empty();
    snapshot.last_work_id = i64::MAX;
    let mut cache = Cache::new_at(snapshot, WEEK, false, NOW).unwrap();
    assert_eq!(cache.start_session_with("s1", "/t", true, false, NOW), Err(CacheError::WorkQueueFull));
    // the session stands, without work
    assert_eq!(status_of(&cache, "s1"), Some(SearchSessionStatus::Active));
    assert_eq!(cache.get_work_count("s1"), 0);
}

#[test]
fn start_with_a_random_identifier() {
    let mut cache = Cache::empty(WEEK, false);
    let first = cache.start_session("/t", true, false).unwrap();
    let second = cache.start_session("/t", true, false).unwrap();
    assert_ne!(first, second);
    for id in [&first, &second] {
        assert_eq!(id.len(), 36);
        assert_eq!(id.matches('-').count(), 4);
        let chars: Vec<char> = id.chars().collect();
        for at in [8, 13, 18, 23] {
            assert_eq!(chars[at], '-');
        }
        assert_eq!(chars[14], '4');
        assert!(chars.iter().all(|c| *c == '-' || c.is_ascii_hexdigit()));
        assert_eq!(cache.get_work_count(id), 1);
    }
    assert_eq!(cache.get_current_session().unwrap().session_id, second);
    assert!(cache.get_current_session().unwrap().started_at > 1_690_000_000);
}

#[test]
fn complete_sets_the_time_and_clears_the_queue() {
    let mut cache = Cache::empty(WEEK, false);
    cache.start_session_with("s1", "/t", true, false, NOW).unwrap();
    cache.enqueue_work_at("s1", "/t/a", 0, NOW).unwrap();
    cache.enqueue_work_at("other", "/x", 0, NOW).unwrap();
    cache.save_found_files_at("s1", &vec!["/t/.DS_Store".to_string()], NOW);
    cache.complete_session_at(NOW + 5);
    let snapshot = cache.snapshot();
    assert_eq!(snapshot.sessions[0].status, SearchSessionStatus::Completed);
    assert_eq!(snapshot.sessions[0].completed_at, Some(NOW + 5));
    assert_eq!(cache.get_work_count("s1"), 0);
    assert_eq!(cache.get_work_count("other"), 1);
    assert!(cache.get_current_session().is_none());
    // the matches stay logged
    assert_eq!(cache.load_found_files("s1"), vec!["/t/.DS_Store".to_string()]);
    // without a current session nothing happens
    cache.complete_session_at(NOW + 9);
    assert_eq!(cache.snapshot().sessions[0].completed_at, Some(NOW + 5));
    cache.complete_session();
    assert_eq!(cache.get_work_count("other"), 1);
}

#[test]
fn interrupt_keeps_queue_and_matches() {
    let mut cache = Cache::empty(WEEK, false);
    cache.start_session_with("s1", "/t", true, false, NOW).unwrap();
    cache.save_found_files_at("s1", &vec!["/t/.DS_Store".to_string()], NOW);
    cache.interrupt_session();
    assert_eq!(status_of(&cache, "s1"), Some(SearchSessionStatus::Interrupted));
    assert_eq!(cache.get_work_count("s1"), 1);
    assert_eq!(cache.load_found_files("s1").len(), 1);
    assert_eq!(cache.snapshot().sessions[0].completed_at, None);
}

#[test]
fn fail_marks_the_session_failed() {
    let mut cache = Cache::empty(WEEK, false);
    cache.start_session_with("s1", "/t", true, false, NOW).unwrap();
    cache.fail_session();
    assert_eq!(status_of(&cache, "s1"), Some(SearchSessionStatus::Failed));
    assert_eq!(cache.get_work_count("s1"), 1);
    assert_eq!(cache.resume_session("/t", true, false), None);
}

#[test]
fn resume_takes_an_interrupted_session_with_work() {
    let mut cache = Cache::empty(WEEK, false);
    cache.start_session_with("s1", "/t", true, false, NOW).unwrap();
    cache.interrupt_session();
    assert_eq!(cache.resume_session("/t", true, false), Some("s1".to_string()));
    assert_eq!(status_of(&cache, "s1"), Some(SearchSessionStatus::Active));
    let current = cache.get_current_session().unwrap();
    assert_eq!(current.session_id, "s1");
    assert_eq!(current.root_path, "/t");
    assert_eq!(current.started_at, NOW);
    assert_eq!(current.completed_at, None);
    assert_eq!(current.status, SearchSessionStatus::Active);
    assert_eq!(interrupted_count(&cache, "/t", true, false), 0);
    // now that it is active there is nothing to resume
    assert_eq!(cache.resume_session("/t", true, false), None);
}

#[test]
fn resume_takes_a_session_with_matches_and_no_work() {
    let mut snapshot = StoreSnapshot::empty();
    snapshot.sessions.push(session("s1", "/t", NOW, true, true, SearchSessionStatus::Interrupted));
    let mut cache = Cache::new_at(snapshot, WEEK, false, NOW).unwrap();
    cache.save_found_files_at("s1", &vec!["/t/.DS_Store".to_string()], NOW);
    assert_eq!(cache.resume_session("/t", true, true), Some("s1".to_string()));
    assert_eq!(status_of(&cache, "s1"), Some(SearchSessionStatus::Active));
}

#[test]
fn resume_removes_a_session_with_nothing_left() {
    let mut snapshot = StoreSnapshot::empty();
    snapshot.sessions.push(session("s1", "/t", NOW, true, false, SearchSessionStatus::Interrupted));
    snapshot.sessions.push(session("s2", "/u", NOW, true, false, SearchSessionStatus::Interrupted));
    let mut cache = Cache::new_at(snapshot, WEEK, false, NOW).unwrap();
    cache.enqueue_work_at("s2", "/u", 0, NOW).unwrap();
    assert_eq!(cache.resume_session("/t", true, false), None);
    assert_eq!(status_of(&cache, "s1"), None);
    assert_eq!(status_of(&cache, "s2"), Some(SearchSessionStatus::Interrupted));
    assert_eq!(cache.get_work_count("s2"), 1);
    assert!(cache.get_current_session().is_none());
}

#[test]
fn resume_needs_the_same_root_and_options() {
    let mut cache = Cache::empty(WEEK, false);
    cache.start_session_with("s1", "/t", true, false, NOW).unwrap();
    cache.interrupt_session();
    assert_eq!(cache.resume_session("/t", false, false), None);
    assert_eq!(cache.resume_session("/t", true, true), None);
    assert_eq!(cache.resume_session("/t/", true, false), None);
    assert_eq!(cache.resume_session("/u", true, false), None);
    assert_eq!(status_of(&cache, "s1"), Some(SearchSessionStatus::Interrupted));
    assert_eq!(cache.resume_session("/t", true, false), Some("s1".to_string()));
}

#[test]
fn resume_does_not_take_active_completed_or_failed_sessions() {
    let mut snapshot = StoreSnapshot::empty();
    snapshot.sessions.push(session("a", "/t", NOW, true, false, SearchSessionStatus::Active));
    snapshot.sessions.push(session("c", "/t", NOW, true, false, SearchSessionStatus::Completed));
    snapshot.sessions.push(session("f", "/t", NOW, true, false, SearchSessionStatus::Failed));
    let mut cache = Cache::new_at(snapshot, WEEK, false, NOW).unwrap();
    for id in ["a", "c", "f"] {
        cache.enqueue_work_at(id, "/t", 0, NOW).unwrap();
    }
    assert_eq!(cache.resume_session("/t", true, false), None);
    assert_eq!(cache.snapshot().sessions.len(), 3);
}

#[test]
fn resume_takes_the_session_that_started_last() {
    let mut snapshot = StoreSnapshot::empty();
    snapshot.sessions.push(session("old", "/t", NOW - 50, true, false, SearchSessionStatus::Interrupted));
    snapshot.sessions.push(session("new", "/t", NOW - 10, true, false, SearchSessionStatus::Interrupted));
    snapshot.sessions.push(session("mid", "/t", NOW - 30, true, false, SearchSessionStatus::Interrupted));
    let mut cache = Cache::new_at(snapshot, WEEK, false, NOW).unwrap();
    for id in ["old", "new", "mid"] {
        cache.enqueue_work_at(id, "/t", 0, NOW).unwrap();
    }
    assert_eq!(interrupted_count(&cache, "/t", true, false), 3);
    assert_eq!(cache.resume_session("/t", true, false), Some("new".to_string()));
    // with three interrupted sessions before, two are left
    assert_eq!(interrupted_count(&cache, "/t", true, false), 2);
    cache.interrupt_session();
    assert_eq!(cache.resume_session("/t", true, false), Some("new".to_string()));
}

#[test]
fn resume_leaves_at_most_one_interrupted_session() {
    // two interrupted sessions for one root and options, and one of another root
    let mut snapshot = StoreSnapshot::empty();
    snapshot.sessions.push(session("s1", "/t", NOW - 50, true, false, SearchSessionStatus::Interrupted));
    snapshot.sessions.push(session("s2", "/t", NOW - 10, true, false, SearchSessionStatus::Interrupted));
    snapshot.sessions.push(session("s3", "/u", NOW - 10, true, false, SearchSessionStatus::Interrupted));
    let mut cache = Cache::new_at(snapshot, WEEK, false, NOW).unwrap();
    cache.enqueue_work_at("s1", "/t", 0, NOW).unwrap();
    cache.enqueue_work_at("s2", "/t", 0, NOW).unwrap();
    assert_eq!(cache.resume_session("/t", true, false), Some("s2".to_string()));
    assert!(interrupted_count(&cache, "/t", true, false) <= 1);
    assert_eq!(interrupted_count(&cache, "/u", true, false), 1);
    // the run that resumes and is interrupted again leaves the count as it is
    cache.interrupt_session();
    assert_eq!(interrupted_count(&cache, "/t", true, false), 2);
    assert_eq!(cache.resume_session("/t", true, false), Some("s2".to_string()));
    assert!(interrupted_count(&cache, "/t", true, false) <= 1);
}

#[test]
fn resume_of_equally_late_sessions_takes_the_first() {
    let mut snapshot = StoreSnapshot::empty();
    snapshot.sessions.push(session("first", "/t", NOW, true, false, SearchSessionStatus::Interrupted));
    snapshot.sessions.push(session("second", "/t", NOW, true, false, SearchSessionStatus::Interrupted));
    let mut cache = Cache::new_at(snapshot, WEEK, false, NOW).unwrap();
    cache.enqueue_work_at("first", "/t", 0, NOW).unwrap();
    cache.enqueue_work_at("second", "/t", 0, NOW).unwrap();
    assert_eq!(cache.resume_session("/t", true, false), Some("first".to_string()));
}

#[test]
fn stale_sessions_are_removed_with_what_hangs_on_them() {
    let mut snapshot = StoreSnapshot::empty();
    snapshot.sessions.push(session("stale_active", "/a", NOW - HOUR - 1, true, false, SearchSessionStatus::Active));
    snapshot.sessions.push(session("stale_stopped", "/b", NOW - 2 * HOUR, true, false, SearchSessionStatus::Interrupted));
    snapshot.sessions.push(session("stale_failed", "/c", NOW - 2 * HOUR, true, false, SearchSessionStatus::Failed));
    snapshot.sessions.push(session("old_done", "/d", NOW - 2 * HOUR, true, false, SearchSessionStatus::Completed));
    snapshot.sessions.push(session("edge", "/e", NOW - HOUR, true, false, SearchSessionStatus::Active));
    snapshot.sessions.push(session("young", "/f", NOW - 5, true, false, SearchSessionStatus::Interrupted));
    let mut cache = Cache::new_at(snapshot, 1, false, NOW).unwrap();
    for id in ["stale_active", "stale_stopped", "old_done", "young"] {
        cache.enqueue_work_at(id, "/x", 0, NOW).unwrap();
        cache.save_found_files_at(id, &vec!["/x/.DS_Store".to_string()], NOW);
    }
    cache.cleanup_stale_sessions_at(NOW);
    let ids: Vec<String> = cache.snapshot().sessions.into_iter().map(|s| s.session_id).collect();
    assert_eq!(ids, vec!["old_done".to_string(), "edge".to_string(), "young".to_string()]);
    assert_eq!(cache.get_work_count("stale_active"), 0);
    assert_eq!(cache.get_work_count("stale_stopped"), 0);
    assert_eq!(cache.get_work_count("old_done"), 1);
    assert_eq!(cache.get_work_count("young"), 1);
    assert!(cache.load_found_files("stale_active").is_empty());
    assert!(cache.load_found_files("stale_stopped").is_empty());
    assert_eq!(cache.load_found_files("old_done").len(), 1);
    assert_eq!(cache.load_found_files("young").len(), 1);
}

#[test]
fn start_sweeps_stale_sessions_first() {
    let mut snapshot = StoreSnapshot::empty();
    snapshot.sessions.push(session("crashed", "/t", NOW - 2 * HOUR, true, false, SearchSessionStatus::Active));
    let mut cache = Cache::new_at(snapshot, 1, false, NOW).unwrap();
    cache.enqueue_work_at("crashed", "/t/a", 0, NOW - 2 * HOUR).unwrap();
    cache.start_session_with("fresh", "/t", true, false, NOW).unwrap();
    assert_eq!(status_of(&cache, "crashed"), None);
    assert_eq!(cache.get_work_count("crashed"), 0);
    assert_eq!(status_of(&cache, "fresh"), Some(SearchSessionStatus::Active));
    // a stale session frees its identifier
    let mut snapshot = StoreSnapshot::empty();
    snapshot.sessions.push(session("again", "/t", NOW - 2 * HOUR, true, false, SearchSessionStatus::Active));
    let mut cache = Cache::new_at(snapshot, 1, false, NOW).unwrap();
    assert_eq!(cache.start_session_with("again", "/t", true, false, NOW), Ok("again".to_string()));
    assert_eq!(cache.snapshot().sessions[0].started_at, NOW);
}

#[test]
fn cleanup_session_removes_one_session() {
    let mut cache = Cache::empty(WEEK, false);
    cache.start_session_with("s1", "/t", true, false, NOW).unwrap();
    cache.start_session_with("s2", "/u", true, false, NOW).unwrap();
    cache.save_found_files_at("s1", &vec!["/t/.DS_Store".to_string()], NOW);
    cache.save_found_files_at("s2", &vec!["/u/.DS_Store".to_string()], NOW);
    cache.cleanup_session("s1");
    assert_eq!(status_of(&cache, "s1"), None);
    assert_eq!(cache.get_work_count("s1"), 0);
    assert!(cache.load_found_files("s1").is_empty());
    assert_eq!(status_of(&cache, "s2"), Some(SearchSessionStatus::Active));
    assert_eq!(cache.get_work_count("s2"), 1);
    assert_eq!(cache.load_found_files("s2").len(), 1);
    cache.cleanup_session("unknown");
    assert_eq!(cache.snapshot().sessions.len(), 1);
}

#[test]
fn found_files_are_logged_once_in_order() {
    let mut cache = Cache::empty(WEEK, false);
    let files = vec!["/t/b/.DS_Store".to_string(), "/t/a/.DS_Store".to_string(), "/t/b/.DS_Store".to_string()];
    cache.save_found_files_at("s1", &files, NOW);
    cache.save_found_files_at("s1", &vec!["/t/a/.DS_Store".to_string(), "/t/c/.DS_Store".to_string()], NOW - 500);
    cache.save_found_files_at("s2", &vec!["/t/a/.DS_Store".to_string()], NOW);
    cache.save_found_files_at("s1", &Vec::new(), NOW);
    assert_eq!(
        cache.load_found_files("s1"),
        vec!["/t/b/.DS_Store".to_string(), "/t/a/.DS_Store".to_string(), "/t/c/.DS_Store".to_string()]
    );
    assert_eq!(cache.load_found_files("s2"), vec!["/t/a/.DS_Store".to_string()]);
    assert!(cache.load_found_files("s3").is_empty());
    let rows = cache.snapshot().found_files;
    assert_eq!(rows.len(), 4);
    for i in 0..rows.len() {
        for j in 0..i {
            assert!(!(rows[i].session_id == rows[j].session_id && rows[i].file_path == rows[j].file_path));
        }
    }
    cache.save_found_files("s3", &vec!["/z/.DS_Store".to_string()]);
    assert!(cache.snapshot().found_files[4].discovered_at > 1_690_000_000);
}

#[test]
fn searched_count_covers_the_time_of_the_session() {
    let mut cache = Cache::empty(WEEK, false);
    cache.mark_completed_at("/before", false, false, NOW - 1);
    cache.start_session_with("s1", "/t", true, false, NOW).unwrap();
    cache.mark_completed_at("/t", false, false, NOW);
    cache.mark_completed_at("/t/a", true, false, NOW + 5);
    cache.mark_searching_at("/t/b", NOW + 6);
    cache.mark_completed_at("/t/c", false, false, NOW + 10);
    cache.mark_completed_at("/after", false, false, NOW + 11);
    // an open session is counted up to the given moment
    assert_eq!(cache.get_session_searched_count_at("s1", NOW + 10), 3);
    assert_eq!(cache.get_session_searched_count_at("s1", NOW + 5), 2);
    assert_eq!(cache.get_session_searched_count_at("s1", NOW + 100), 4);
    assert_eq!(cache.get_session_searched_count_at("s1", NOW - 1), 0);
    // a completed session up to its completion
    cache.complete_session_at(NOW + 10);
    assert_eq!(cache.get_session_searched_count_at("s1", NOW + 100), 3);
    assert_eq!(cache.get_session_searched_count("s1"), 3);
    assert_eq!(cache.get_session_searched_count_at("unknown", NOW), 0);
}
