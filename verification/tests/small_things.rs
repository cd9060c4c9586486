use dds::cli::exit_code;
use dds::cli::Cli;
use dds::cli::Operation;
use dds::config::Config;
use dds::config::DEFAULT_CACHE_WINDOW_HOURS;
use dds::stats::wrapping_add;
use dds::sweep::merge_cached_hits;
use dds::sweep::parents_to_mark;
use dds::sweep::record_deletions;
use dds::sweep::record_deletions_at;
use dds::sweep::remembered_hits;
use dds::sweep::states_of_deleted;
use dds::sweep::summarize;
use dds::sweep::Deletion;
use dds::sweep::DeletionResult;
use dds::text::contains_text;
use dds::text::has_prefix;
use dds::text::join_text;
use dds::text::same_text;
use dds::cache::Cache;
use dds::SearchStats;
use dds::Verbosity;

const NOW: i64 = 1_700_000_000;

fn strings(items: &[&str]) -> Vec<String> {
    items.iter().map(|s| s.to_string()).collect()
}

fn cli() -> Cli {
    Cli {
        verbose: false,
        quiet: false,
        recursive: false,
        dry: false,
        force: false,
        cache_hours: None,
        cache_status: false,
        cache_clear_incomplete: false,
        cache_stats: false,
        dir: ".".to_string(),
    }
}

fn deletion(parent: Option<&str>, result: DeletionResult) -> Deletion {
    Deletion { parent: parent.map(|p| p.to_string()), result }
}

#[test]
fn verbosity_from_the_two_flags() {
    assert_eq!(Verbosity::new_from_bools(false, false), Verbosity::Normal);
    assert_eq!(Verbosity::new_from_bools(true, false), Verbosity::Verbose);
    assert_eq!(Verbosity::new_from_bools(false, true), Verbosity::Quiet);
    assert_eq!(Verbosity::new_from_bools(true, true), Verbosity::Normal);
    assert_eq!(Verbosity::default(), Verbosity::Normal);
}

#[test]
fn verbosity_levels_exclude_each_other() {
    for level in [Verbosity::Quiet, Verbosity::Normal, Verbosity::Verbose] {
        let answers = [level.is_quiet(), level.is_normal(), level.is_verbose()];
        assert_eq!(answers.iter().filter(|yes| **yes).count(), 1);
        assert_eq!(level.is_not_quiet(), !level.is_quiet());
    }
    assert!(Verbosity::Quiet.is_quiet());
    assert!(Verbosity::Normal.is_normal());
    assert!(Verbosity::Verbose.is_verbose());
    assert!(!Verbosity::Verbose.is_quiet());
    assert!(Verbosity::Verbose.is_not_quiet());
    assert!(!Verbosity::Quiet.is_not_quiet());
}

#[test]
fn counters_count() {
    let mut stats = SearchStats::new();
    assert_eq!(stats, SearchStats { new_searches: 0, resumed_searches: 0, skipped_cached: 0, found: 0, errors: 0 });
    stats.increment_new();
    stats.increment_new();
    stats.increment_resumed();
    stats.increment_skipped();
    stats.add_skipped(4);
    stats.increment_found();
    stats.add_found(6);
    stats.increment_errors();
    assert_eq!(stats.get_new(), 2);
    assert_eq!(stats.get_resumed(), 1);
    assert_eq!(stats.get_skipped(), 5);
    assert_eq!(stats.get_found(), 7);
    assert_eq!(stats.get_errors(), 1);
    assert_eq!(stats.get_total_searched(), 3);
}

#[test]
fn counters_wrap_around() {
    let mut stats = SearchStats { new_searches: usize::MAX, resumed_searches: 2, skipped_cached: usize::MAX - 1, found: usize::MAX, errors: usize::MAX };
    assert_eq!(stats.get_total_searched(), 1);
    stats.increment_new();
    stats.add_skipped(3);
    stats.add_found(usize::MAX);
    stats.increment_errors();
    assert_eq!(stats.get_new(), 0);
    assert_eq!(stats.get_skipped(), 1);
    assert_eq!(stats.get_found(), usize::MAX - 1);
    assert_eq!(stats.get_errors(), 0);
    assert_eq!(wrapping_add(usize::MAX, usize::MAX), usize::MAX - 1);
    assert_eq!(wrapping_add(usize::MAX, 0), usize::MAX);
    assert_eq!(wrapping_add(0, usize::MAX), usize::MAX);
    assert_eq!(wrapping_add(usize::MAX, 1), 0);
    assert_eq!(wrapping_add(3, 4), 7);
}

#[test]
fn default_configuration() {
    let config = Config::with_home("/Users/me");
    assert_eq!(config.database_path, "/Users/me/.dds/cache.sqlite");
    assert_eq!(config.cache_window_hours, 168);
    assert_eq!(DEFAULT_CACHE_WINDOW_HOURS, 168);
    assert_eq!(config.window_hours(None), 168);
    assert_eq!(config.window_hours(Some(0)), 0);
    assert_eq!(config.window_hours(Some(24)), 24);
}

#[test]
fn cache_commands_exclude_each_other_and_a_search() {
    assert!(cli().is_consistent());
    assert_eq!(cli().operation(), Operation::Search);
    let mut status = cli();
    status.cache_status = true;
    status.verbose = true;
    status.cache_hours = Some(3);
    assert!(status.is_consistent());
    assert_eq!(status.operation(), Operation::CacheStatus);
    let mut clear = cli();
    clear.cache_clear_incomplete = true;
    assert!(clear.is_consistent());
    assert_eq!(clear.operation(), Operation::CacheClearIncomplete);
    let mut stats = cli();
    stats.cache_stats = true;
    assert!(stats.is_consistent());
    assert_eq!(stats.operation(), Operation::CacheStats);

    let mut two = cli();
    two.cache_status = true;
    two.cache_stats = true;
    assert!(!two.is_consistent());
    assert_eq!(two.operation(), Operation::CacheStatus);
    let mut other_two = cli();
    other_two.cache_clear_incomplete = true;
    other_two.cache_stats = true;
    assert!(!other_two.is_consistent());
    assert_eq!(other_two.operation(), Operation::CacheClearIncomplete);
    for change in 0..4 {
        let mut mixed = cli();
        mixed.cache_stats = true;
        match change {
            0 => mixed.recursive = true,
            1 => mixed.dry = true,
            2 => mixed.force = true,
            _ => mixed.dir = "/t".to_string(),
        }
        assert!(!mixed.is_consistent());
    }
    let mut search = cli();
    search.recursive = true;
    search.dry = true;
    search.force = true;
    search.dir = "/t".to_string();
    assert!(search.is_consistent());
    assert_eq!(search.operation(), Operation::Search);
}

#[test]
fn exit_codes() {
    assert_eq!(exit_code(false, false), 0);
    assert_eq!(exit_code(false, true), 1);
    assert_eq!(exit_code(true, false), 130);
    assert_eq!(exit_code(true, true), 130);
}

#[test]
fn text_helpers() {
    assert!(same_text("", ""));
    assert!(same_text("/t", "/t"));
    assert!(!same_text("/t", "/T"));
    assert!(!same_text("/t", "/t/"));
    assert!(has_prefix("/t/a", "/t"));
    assert!(has_prefix("/t", "/t"));
    assert!(has_prefix("/t", ""));
    assert!(has_prefix("/tée/a", "/té"));
    assert!(!has_prefix("/t", "/t/a"));
    assert!(!has_prefix("/u/a", "/t"));
    assert!(!has_prefix("", "/"));
    assert_eq!(join_text("/t", "/.DS_Store"), "/t/.DS_Store");
    assert_eq!(join_text("", ""), "");
    assert!(contains_text(&strings(&["/a", "/b"]), "/b"));
    assert!(!contains_text(&strings(&["/a", "/b"]), "/c"));
    assert!(!contains_text(&Vec::new(), ""));
}

#[test]
fn remembered_hits_are_added_once() {
    let hits = strings(&["/t/a/.DS_Store", "/t/b/.DS_Store"]);
    let cached = strings(&["/t/b/.DS_Store", "/t/c/.DS_Store", "/t/a/.DS_Store", "/t/d/.DS_Store"]);
    assert_eq!(
        merge_cached_hits(hits, &cached),
        strings(&["/t/a/.DS_Store", "/t/b/.DS_Store", "/t/c/.DS_Store", "/t/d/.DS_Store"])
    );
    assert_eq!(merge_cached_hits(Vec::new(), &strings(&["/x"])), strings(&["/x"]));
    assert_eq!(merge_cached_hits(strings(&["/x"]), &Vec::new()), strings(&["/x"]));
    assert_eq!(merge_cached_hits(Vec::new(), &Vec::new()), Vec::<String>::new());
}

#[test]
fn a_dry_run_remembers_nothing() {
    let mut cache = Cache::empty(168, false);
    cache.mark_completed_at("/t", true, false, NOW);
    assert_eq!(remembered_hits(&cache, "/t", true, false), strings(&["/t/.DS_Store"]));
    assert_eq!(remembered_hits(&cache, "/t", true, true), Vec::<String>::new());
}

#[test]
fn summary_of_a_run() {
    let stats = SearchStats { new_searches: 4, resumed_searches: 2, skipped_cached: 7, found: 3, errors: 1 };
    let summary = summarize(&stats, 5);
    assert_eq!(summary.new_searches, 4);
    assert_eq!(summary.resumed_searches, 2);
    assert_eq!(summary.skipped_cached, 7);
    assert_eq!(summary.errors, 1);
    assert_eq!(summary.num_hits, 5);
    assert_eq!(summary.searched_dirs, 6);
}

#[test]
fn parents_of_deleted_and_missing_matches() {
    let deletions = vec![
        deletion(Some("/t/a"), DeletionResult::Deleted),
        deletion(Some("/t/b"), DeletionResult::Failed),
        deletion(Some("/t/c"), DeletionResult::Missing),
        deletion(Some("/t/a"), DeletionResult::Missing),
        deletion(None, DeletionResult::Deleted),
        deletion(Some("/t/b"), DeletionResult::Deleted),
    ];
    let parents = parents_to_mark(&deletions);
    assert_eq!(parents, strings(&["/t/a", "/t/c", "/t/b"]));
    let states = states_of_deleted(&parents, NOW);
    assert_eq!(states.len(), 3);
    for (state, parent) in states.iter().zip(parents.iter()) {
        assert_eq!(&state.path, parent);
        assert_eq!(state.last_searched_at, NOW);
        assert!(state.search_completed);
        assert!(state.ds_store_found);
        assert!(state.ds_store_deleted);
        assert_eq!(state.error_message, None);
    }
    assert!(parents_to_mark(&Vec::new()).is_empty());
}

#[test]
fn deletions_are_recorded_and_old_rows_swept() {
    let mut cache = Cache::empty(1, false);
    cache.mark_completed_at("/t/a", true, false, NOW - 10);
    cache.mark_completed_at("/ancient", false, false, NOW - 3 * 3600);
    let deletions = vec![deletion(Some("/t/a"), DeletionResult::Deleted), deletion(Some("/t/b"), DeletionResult::Failed)];
    record_deletions_at(&mut cache, &deletions, false, 2, NOW);
    let rows = cache.snapshot().directories;
    assert_eq!(rows.len(), 1);
    assert_eq!(rows[0].path, "/t/a");
    assert!(rows[0].ds_store_found);
    assert!(rows[0].ds_store_deleted);
    assert_eq!(rows[0].last_searched_at, NOW);
    assert!(cache.get_undeleted_ds_store_files("/t", true).is_empty());
}

#[test]
fn a_run_without_matches_sweeps_nothing() {
    let mut cache = Cache::empty(1, false);
    cache.mark_completed_at("/ancient", false, false, NOW - 3 * 3600);
    record_deletions_at(&mut cache, &Vec::new(), false, 0, NOW);
    assert_eq!(cache.snapshot().directories.len(), 1);
    // a dry run records no deletion
    let deletions = vec![deletion(Some("/t/a"), DeletionResult::Deleted)];
    record_deletions_at(&mut cache, &deletions, true, 0, NOW);
    assert_eq!(cache.snapshot().directories.len(), 1);
    record_deletions(&mut cache, &deletions, false, 0);
    assert_eq!(cache.snapshot().directories.len(), 2);
    assert!(cache.snapshot().directories[1].last_searched_at > 1_690_000_000);
}
