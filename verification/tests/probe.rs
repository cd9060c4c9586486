use dds::probe::check_access;
use dds::probe::check_symlink;
use dds::probe::check_system_path;
use dds::probe::probe_directory_at;
use dds::probe::process_directory_with_persistent_queue;
use dds::probe::read_listing;
use dds::probe::DirAccess;
use dds::probe::DirEntryInfo;
use dds::probe::DirListing;
use dds::probe::DirObservation;
use dds::probe::EntryKind;
use dds::probe::ProbeOutcome;
use dds::system_path::is_system_path;
use dds::system_path::system_path_patterns;
use dds::system_path::SystemPathFilter;

const NOW: i64 = 1_700_000_000;

fn entry(path: &str, kind: Option<EntryKind>, is_symlink: Option<bool>) -> DirEntryInfo {
    DirEntryInfo {
        path: path.to_string(),
        file_name: path.rsplit('/').next().map(|name| name.to_string()),
        kind,
        is_symlink,
        is_system_path: false,
    }
}

fn file(path: &str) -> DirEntryInfo {
    entry(path, Some(EntryKind::File), None)
}

fn dir(path: &str) -> DirEntryInfo {
    entry(path, Some(EntryKind::Directory), Some(false))
}

fn listing(entries: Vec<DirEntryInfo>) -> DirListing {
    DirListing { entries, error: None }
}

fn seen(entries: Vec<DirEntryInfo>) -> DirObservation {
    DirObservation { is_system_path: false, access: DirAccess::Directory, is_symlink: false, listing: listing(entries) }
}

fn assert_skipped(outcome: &ProbeOutcome, dir: &str, reason: &str, failed: bool) {
    assert_eq!(outcome.session_id, "s1");
    assert_eq!(outcome.state.path, dir);
    assert_eq!(outcome.state.last_searched_at, NOW);
    assert!(outcome.state.search_completed);
    assert!(!outcome.state.ds_store_found);
    assert!(!outcome.state.ds_store_deleted);
    assert_eq!(outcome.state.error_message, Some(reason.to_string()));
    assert!(outcome.subdirs.is_empty());
    assert!(outcome.matches.is_empty());
    assert_eq!(outcome.failed, failed);
}

#[test]
fn empty_directory_is_completed_without_a_match() {
    let outcome = probe_directory_at("s1", "/t", NOW, true, &seen(Vec::new()));
    assert_eq!(outcome.session_id, "s1");
    assert_eq!(outcome.state.path, "/t");
    assert_eq!(outcome.state.last_searched_at, NOW);
    assert!(outcome.state.search_completed);
    assert!(!outcome.state.ds_store_found);
    assert!(!outcome.state.ds_store_deleted);
    assert_eq!(outcome.state.error_message, None);
    assert!(outcome.subdirs.is_empty());
    assert!(outcome.matches.is_empty());
    assert!(!outcome.failed);
}

#[test]
fn directory_with_only_the_sentinel_records_the_match() {
    let outcome = probe_directory_at("s1", "/t", NOW, true, &seen(vec![file("/t/.DS_Store")]));
    assert!(outcome.state.search_completed);
    assert!(outcome.state.ds_store_found);
    assert!(!outcome.state.ds_store_deleted);
    assert_eq!(outcome.state.error_message, None);
    assert_eq!(outcome.matches, vec!["/t/.DS_Store".to_string()]);
    assert!(outcome.subdirs.is_empty());
    assert!(!outcome.failed);
}

#[test]
fn symlinked_directory_is_skipped() {
    let mut observed = seen(vec![file("/t/x/.DS_Store"), dir("/t/x/a")]);
    observed.is_symlink = true;
    let outcome = probe_directory_at("s1", "/t/x", NOW, true, &observed);
    assert_skipped(&outcome, "/t/x", "Skipped symlink", false);
    assert_skipped(&check_symlink("s1", "/t/x", NOW, true).unwrap(), "/t/x", "Skipped symlink", false);
    assert!(check_symlink("s1", "/t/x", NOW, false).is_none());
}

#[test]
fn system_path_is_skipped_first() {
    let mut observed = seen(vec![file("/Volumes/x/.DS_Store")]);
    observed.is_system_path = true;
    observed.access = DirAccess::Failed("denied".to_string());
    observed.is_symlink = true;
    let outcome = probe_directory_at("s1", "/Volumes/x", NOW, true, &observed);
    assert_skipped(&outcome, "/Volumes/x", "Skipped system/problematic directory", false);
    assert!(check_system_path("s1", "/t", NOW, false).is_none());
    assert_skipped(
        &check_system_path("s1", "/t", NOW, true).unwrap(),
        "/t",
        "Skipped system/problematic directory",
        false,
    );
}

#[test]
fn what_is_no_directory_is_skipped() {
    let mut observed = seen(Vec::new());
    observed.access = DirAccess::NotDirectory;
    observed.is_symlink = true;
    assert_skipped(&probe_directory_at("s1", "/t/f", NOW, true, &observed), "/t/f", "Not a directory", false);
    assert!(check_access("s1", "/t", NOW, &DirAccess::Directory).is_none());
}

#[test]
fn unreadable_metadata_is_an_error_that_completes() {
    let mut observed = seen(Vec::new());
    observed.access = DirAccess::Failed("Permission denied (os error 13)".to_string());
    let outcome = probe_directory_at("s1", "/t/p", NOW, true, &observed);
    assert_skipped(&outcome, "/t/p", "Cannot access directory: Permission denied (os error 13)", true);
}

#[test]
fn failed_reading_leaves_the_directory_incomplete() {
    let mut observed = seen(vec![file("/t/.DS_Store"), dir("/t/a")]);
    observed.listing.error = Some("Input/output error (os error 5)".to_string());
    let outcome = probe_directory_at("s1", "/t", NOW, true, &observed);
    assert!(!outcome.state.search_completed);
    assert!(outcome.failed);
    assert_eq!(
        outcome.state.error_message,
        Some("Failed to read directory: Input/output error (os error 5)".to_string())
    );
    // what was read before the failure still counts
    assert!(outcome.state.ds_store_found);
    assert_eq!(outcome.matches, vec!["/t/.DS_Store".to_string()]);
    assert_eq!(outcome.subdirs, vec!["/t/a".to_string()]);

    let mut at_once = seen(Vec::new());
    at_once.listing.error = Some("Permission denied (os error 13)".to_string());
    let outcome = probe_directory_at("s1", "/t", NOW, true, &at_once);
    assert!(!outcome.state.search_completed);
    assert!(!outcome.state.ds_store_found);
    assert!(outcome.failed);
}

#[test]
fn entries_are_sorted_into_matches_and_subdirs() {
    let mut system = dir("/t/Library/Caches");
    system.is_system_path = true;
    let mut renamed = file("/t/b/other");
    renamed.file_name = Some(".DS_Store".to_string());
    let mut nameless = file("/t/..");
    nameless.file_name = None;
    let entries = vec![
        dir("/t/a"),
        file("/t/.DS_Store"),
        file("/t/readme.txt"),
        file("/t/.ds_store"),
        file("/t/.DS_Store.bak"),
        entry("/t/link", Some(EntryKind::Directory), Some(true)),
        entry("/t/unknown_link", Some(EntryKind::Directory), None),
        entry("/t/socket", Some(EntryKind::Other), Some(false)),
        entry("/t/unreadable", None, Some(false)),
        entry("/t/.DS_Store", Some(EntryKind::Directory), Some(false)),
        entry("/t/other/.DS_Store", Some(EntryKind::Other), None),
        system,
        renamed,
        nameless,
        dir("/t/z"),
    ];
    let outcome = read_listing("s1", "/t", NOW, true, &listing(entries));
    assert_eq!(outcome.matches, vec!["/t/.DS_Store".to_string(), "/t/b/other".to_string()]);
    assert_eq!(outcome.subdirs, vec!["/t/a".to_string(), "/t/.DS_Store".to_string(), "/t/z".to_string()]);
    assert!(outcome.state.ds_store_found);
    assert!(outcome.state.search_completed);
    assert!(!outcome.failed);
}

#[test]
fn without_recursion_no_subdirectory_is_queued() {
    let entries = vec![dir("/t/a"), file("/t/.DS_Store"), dir("/t/b")];
    let outcome = probe_directory_at("s1", "/t", NOW, false, &seen(entries));
    assert!(outcome.subdirs.is_empty());
    assert_eq!(outcome.matches, vec!["/t/.DS_Store".to_string()]);
    assert!(!DirEntryInfo::needs_link_check(Some(EntryKind::Directory), false));
    assert!(DirEntryInfo::needs_link_check(Some(EntryKind::Directory), true));
    assert!(!DirEntryInfo::needs_link_check(Some(EntryKind::File), true));
    assert!(!DirEntryInfo::needs_link_check(Some(EntryKind::Other), true));
    assert!(!DirEntryInfo::needs_link_check(None, true));
}

#[test]
fn probe_now_uses_the_clock() {
    let outcome = process_directory_with_persistent_queue("/t", "s1", true, &seen(vec![file("/t/.DS_Store")]));
    assert!(outcome.state.last_searched_at > 1_690_000_000);
    assert_eq!(outcome.state.path, "/t");
    assert_eq!(outcome.session_id, "s1");
    assert_eq!(outcome.matches.len(), 1);
}

#[test]
fn system_paths_are_told_by_the_patterns() {
    let filter = SystemPathFilter::new();
    for path in [
        "/Volumes/Backup",
        "/Volumes/",
        "/Users/me/.Trash",
        "/Users/me/.Trash/old",
        "/Users/me/.Trashes",
        "/System/Volumes/Data",
        "/private/var/folders/zz/abc",
        "/.fseventsd",
        "/data/.fseventsd/0001",
        "/Users/me/Library/Caches",
        "/Users/me/Library/Caches/com.apple",
        "/.Spotlight-V100",
        "/data/.Spotlight-V100/Store",
        "/mnt/x/Volumes/y",
    ] {
        assert!(filter.is_system_path(path), "{}", path);
        assert!(is_system_path(path), "{}", path);
    }
    for path in [
        "",
        "/",
        "/t",
        "/Users/me/Documents",
        "/Volumes",
        "/volumes/backup",
        "Volumes/x",
        "/Users/me/Trash",
        "/Users/me/xTrash",
        "/Users/me/.trash",
        "/System/Library",
        "/private/var/log",
        "/Users/me/Library/Cache",
        "/Users/me/Library/Preferences",
        "/data/fseventsd",
        "/data/xfseventsd",
        "/data/Spotlight-V100",
    ] {
        assert!(!filter.is_system_path(path), "{}", path);
        assert!(!is_system_path(path), "{}", path);
    }
}

#[test]
fn the_patterns_are_seven() {
    assert_eq!(
        system_path_patterns(),
        vec![
            "/Volumes/".to_string(),
            "/\\.Trash".to_string(),
            "/System/Volumes".to_string(),
            "/private/var/folders".to_string(),
            "/\\.fseventsd".to_string(),
            "/Library/Caches".to_string(),
            "/\\.Spotlight-V100".to_string(),
        ]
    );
}

#[test]
fn observed_entries_are_held_against_the_system_paths() {
    let filter = SystemPathFilter::new();
    let caches = DirEntryInfo::observe(
        &filter,
        "/Users/me/Library/Caches".to_string(),
        Some("Caches".to_string()),
        Some(EntryKind::Directory),
        Some(false),
    );
    assert!(caches.is_system_path);
    assert!(!caches.is_subdir(true));
    assert_eq!(caches.path, "/Users/me/Library/Caches");
    assert_eq!(caches.file_name, Some("Caches".to_string()));
    let plain = DirEntryInfo::observe(
        &filter,
        "/Users/me/Documents".to_string(),
        Some("Documents".to_string()),
        Some(EntryKind::Directory),
        Some(false),
    );
    assert!(!plain.is_system_path);
    assert!(plain.is_subdir(true));
    assert!(!plain.is_subdir(false));
    assert!(!plain.is_match());
    let sentinel = DirEntryInfo::observe(
        &filter,
        "/Users/me/.DS_Store".to_string(),
        Some(".DS_Store".to_string()),
        Some(EntryKind::File),
        None,
    );
    assert!(sentinel.is_match());
    assert!(!sentinel.is_subdir(true));
}
