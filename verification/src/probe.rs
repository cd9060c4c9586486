//! The directory prober: what one look at a directory makes of what the file
//! system said about it.

use crate::cache::DirectoryState;
use crate::clock::unix_timestamp;
use crate::model::DirRow;
use crate::seqs::lemma_filter_ends;
use crate::seqs::lemma_filter_step;
use crate::system_path::SystemPathFilter;
use crate::system_path::system_path;
use crate::text::join_text;
use crate::text::opt_text;
use crate::text::same_text;
use crate::text::texts;
use vstd::prelude::*;

verus! {

/// What kind of thing a directory entry is.
#[derive(Debug, Clone, Copy, PartialEq, Eq, Structural)]
pub enum EntryKind {
    Directory,
    File,
    Other,
}

/// What the file system said about one entry of a directory.
#[derive(Debug)]
pub struct DirEntryInfo {
    pub path: String,
    /// The last component of the path, where it has one.
    pub file_name: Option<String>,
    /// The entry's file type; `None` where it could not be read.
    pub kind: Option<EntryKind>,
    /// Whether the entry itself is a symbolic link; `None` where that could
    /// not be read or was not asked.
    pub is_symlink: Option<bool>,
    /// Whether the entry's path is a system path.
    pub is_system_path: bool,
}

/// The view of an entry.
pub struct EntryView {
    pub path: Seq<char>,
    pub file_name: Option<Seq<char>>,
    pub kind: Option<EntryKind>,
    pub is_symlink: Option<bool>,
    pub is_system_path: bool,
}

impl View for DirEntryInfo {
    type V = EntryView;

    open spec fn view(&self) -> EntryView {
        EntryView {
            path: self.path@,
            file_name: opt_text(self.file_name),
            kind: self.kind,
            is_symlink: self.is_symlink,
            is_system_path: self.is_system_path,
        }
    }
}

/// The views of the entries, in their order.
pub open spec fn entry_views(entries: Seq<DirEntryInfo>) -> Seq<EntryView> {
    Seq::new(entries.len(), |i: int| entries[i]@)
}

/// The paths of the entries, in their order.
pub open spec fn entry_paths(entries: Seq<EntryView>) -> Seq<Seq<char>> {
    Seq::new(entries.len(), |i: int| entries[i].path)
}

/// What reading the metadata of a directory gave.
#[derive(Debug)]
pub enum DirAccess {
    /// The path is a directory.
    Directory,
    /// The path is something else.
    NotDirectory,
    /// The metadata could not be read; the error in words.
    Failed(String),
}

/// The view of what reading the metadata gave.
pub enum AccessView {
    Directory,
    NotDirectory,
    Failed(Seq<char>),
}

impl View for DirAccess {
    type V = AccessView;

    open spec fn view(&self) -> AccessView {
        match self {
            DirAccess::Directory => AccessView::Directory,
            DirAccess::NotDirectory => AccessView::NotDirectory,
            DirAccess::Failed(e) => AccessView::Failed(e@),
        }
    }
}

/// What reading a directory gave: the entries that were read, and the error
/// that ended the reading, if one did.
#[derive(Debug)]
pub struct DirListing {
    pub entries: Vec<DirEntryInfo>,
    pub error: Option<String>,
}

/// The view of a listing.
pub struct ListingView {
    pub entries: Seq<EntryView>,
    pub error: Option<Seq<char>>,
}

impl View for DirListing {
    type V = ListingView;

    open spec fn view(&self) -> ListingView {
        ListingView { entries: entry_views(self.entries@), error: opt_text(self.error) }
    }
}

/// Everything the file system said about a directory.
#[derive(Debug)]
pub struct DirObservation {
    /// Whether the directory's path is a system path.
    pub is_system_path: bool,
    pub access: DirAccess,
    /// Whether the directory itself is a symbolic link.
    pub is_symlink: bool,
    pub listing: DirListing,
}

/// The view of an observation.
pub struct ObservationView {
    pub is_system_path: bool,
    pub access: AccessView,
    pub is_symlink: bool,
    pub listing: ListingView,
}

impl View for DirObservation {
    type V = ObservationView;

    open spec fn view(&self) -> ObservationView {
        ObservationView {
            is_system_path: self.is_system_path,
            access: self.access@,
            is_symlink: self.is_symlink,
            listing: self.listing@,
        }
    }
}

/// What a probe hands to the scheduler.
#[derive(Debug)]
pub struct ProbeOutcome {
    pub session_id: String,
    /// The state of the directory, for the directory cache.
    pub state: DirectoryState,
    /// The subdirectories to queue.
    pub subdirs: Vec<String>,
    /// The matches found in the directory.
    pub matches: Vec<String>,
    /// Whether the probe counts as an error.
    pub failed: bool,
}

/// The view of an outcome.
pub struct OutcomeView {
    pub session_id: Seq<char>,
    pub state: DirRow,
    pub subdirs: Seq<Seq<char>>,
    pub matches: Seq<Seq<char>>,
    pub failed: bool,
}

impl View for ProbeOutcome {
    type V = OutcomeView;

    open spec fn view(&self) -> OutcomeView {
        OutcomeView {
            session_id: self.session_id@,
            state: self.state@,
            subdirs: texts(self.subdirs@),
            matches: texts(self.matches@),
            failed: self.failed,
        }
    }
}

/// A regular file with the name that the scan hunts for.
pub open spec fn is_match_entry() -> spec_fn(EntryView) -> bool {
    |e: EntryView| e.kind == Some(EntryKind::File) && e.file_name == Some(".DS_Store"@)
}

/// A directory to descend into: in recursive mode, a directory that is known
/// not to be a symbolic link and is no system path.
pub open spec fn is_subdir_entry(recursive: bool) -> spec_fn(EntryView) -> bool {
    |e: EntryView|
        recursive && e.kind == Some(EntryKind::Directory) && e.is_symlink == Some(false)
            && !e.is_system_path
}

/// The state of a directory that was not read: completed, with the reason.
pub open spec fn skipped_state(dir: Seq<char>, now: i64, reason: Seq<char>) -> DirRow {
    DirRow {
        path: dir,
        last_searched_at: now,
        search_completed: true,
        ds_store_found: false,
        ds_store_deleted: false,
        error_message: Some(reason),
    }
}

/// The outcome for a directory that is not read.
pub open spec fn skipped(session: Seq<char>, dir: Seq<char>, now: i64, reason: Seq<char>, failed: bool)
    -> OutcomeView {
    OutcomeView {
        session_id: session,
        state: skipped_state(dir, now, reason),
        subdirs: Seq::empty(),
        matches: Seq::empty(),
        failed,
    }
}

/// What a probe makes of a listing: the matches and subdirectories among the
/// entries that were read; where the reading failed, an error and a state
/// that is not completed, so that the directory is tried again.
pub open spec fn listing_outcome(
    session: Seq<char>,
    dir: Seq<char>,
    now: i64,
    recursive: bool,
    listing: ListingView,
) -> OutcomeView {
    let matches = entry_paths(listing.entries.filter(is_match_entry()));
    OutcomeView {
        session_id: session,
        state: DirRow {
            path: dir,
            last_searched_at: now,
            search_completed: listing.error is None,
            ds_store_found: matches.len() > 0,
            ds_store_deleted: false,
            error_message: match listing.error {
                Some(e) => Some("Failed to read directory: "@ + e),
                None => None,
            },
        },
        subdirs: entry_paths(listing.entries.filter(is_subdir_entry(recursive))),
        matches,
        failed: listing.error is Some,
    }
}

/// What a probe makes of a directory: the checks in order, then the listing.
pub open spec fn probe_outcome(
    session: Seq<char>,
    dir: Seq<char>,
    now: i64,
    recursive: bool,
    seen: ObservationView,
) -> OutcomeView {
    if seen.is_system_path {
        skipped(session, dir, now, "Skipped system/problematic directory"@, false)
    } else {
        match seen.access {
            AccessView::NotDirectory => skipped(session, dir, now, "Not a directory"@, false),
            AccessView::Failed(e) => skipped(
                session,
                dir,
                now,
                "Cannot access directory: "@ + e,
                true,
            ),
            AccessView::Directory => if seen.is_symlink {
                skipped(session, dir, now, "Skipped symlink"@, false)
            } else {
                listing_outcome(session, dir, now, recursive, seen.listing)
            },
        }
    }
}

impl DirEntryInfo {
    /// An entry as the file system showed it, with its path held against the
    /// system paths.
    pub fn observe(
        filter: &SystemPathFilter,
        path: String,
        file_name: Option<String>,
        kind: Option<EntryKind>,
        is_symlink: Option<bool>,
    ) -> (entry: DirEntryInfo)
        ensures
            entry@ == (EntryView {
                path: path@,
                file_name: opt_text(file_name),
                kind,
                is_symlink,
                is_system_path: system_path(path@),
            }),
    {
        let is_system_path = filter.is_system_path(path.as_str());
        DirEntryInfo { path, file_name, kind, is_symlink, is_system_path }
    }

    /// Whether a probe asks if an entry of this kind is a symbolic link: of
    /// directories, in recursive mode.
    pub fn needs_link_check(kind: Option<EntryKind>, recursive: bool) -> (needed: bool)
        ensures
            needed == (recursive && kind == Some(EntryKind::Directory)),
    {
        recursive && match kind {
            Some(EntryKind::Directory) => true,
            _ => false,
        }
    }

    /// Whether the entry is a match.
    pub fn is_match(&self) -> (yes: bool)
        ensures
            yes == is_match_entry()(self@),
    {
        let is_file = match self.kind {
            Some(EntryKind::File) => true,
            _ => false,
        };
        is_file && match &self.file_name {
            Some(name) => same_text(name.as_str(), ".DS_Store"),
            None => false,
        }
    }

    /// Whether the entry is a subdirectory to queue.
    pub fn is_subdir(&self, recursive: bool) -> (yes: bool)
        ensures
            yes == is_subdir_entry(recursive)(self@),
    {
        let is_dir = match self.kind {
            Some(EntryKind::Directory) => true,
            _ => false,
        };
        let not_link = match self.is_symlink {
            Some(false) => true,
            _ => false,
        };
        recursive && is_dir && not_link && !self.is_system_path
    }
}

/// The outcome for a directory that is not read.
pub fn skip_directory(session_id: &str, dir: &str, now: i64, reason: String, failed: bool) -> (outcome:
    ProbeOutcome)
    ensures
        outcome@ == skipped(session_id@, dir@, now, reason@, failed),
{
    let outcome = ProbeOutcome {
        session_id: session_id.to_owned(),
        state: DirectoryState {
            path: dir.to_owned(),
            last_searched_at: now,
            search_completed: true,
            ds_store_found: false,
            ds_store_deleted: false,
            error_message: Some(reason),
        },
        subdirs: Vec::new(),
        matches: Vec::new(),
        failed,
    };
    assert(outcome@.subdirs =~= Seq::empty());
    assert(outcome@.matches =~= Seq::empty());
    outcome
}

/// First check: a system path is skipped without a look at the file system.
pub fn check_system_path(session_id: &str, dir: &str, now: i64, is_system_path: bool) -> (done: Option<
    ProbeOutcome,
>)
    ensures
        done is Some == is_system_path,
        done matches Some(outcome) ==> outcome@ == skipped(
            session_id@,
            dir@,
            now,
            "Skipped system/problematic directory"@,
            false,
        ),
{
    if is_system_path {
        Some(
            skip_directory(
                session_id,
                dir,
                now,
                "Skipped system/problematic directory".to_owned(),
                false,
            ),
        )
    } else {
        None
    }
}

/// Second check: what is no directory is skipped; what cannot be read is
/// skipped and counts as an error.
pub fn check_access(session_id: &str, dir: &str, now: i64, access: &DirAccess) -> (done: Option<
    ProbeOutcome,
>)
    ensures
        match access@ {
            AccessView::Directory => done is None,
            AccessView::NotDirectory => done matches Some(outcome) && outcome@ == skipped(
                session_id@,
                dir@,
                now,
                "Not a directory"@,
                false,
            ),
            AccessView::Failed(e) => done matches Some(outcome) && outcome@ == skipped(
                session_id@,
                dir@,
                now,
                "Cannot access directory: "@ + e,
                true,
            ),
        },
{
    match access {
        DirAccess::Directory => None,
        DirAccess::NotDirectory => Some(
            skip_directory(session_id, dir, now, "Not a directory".to_owned(), false),
        ),
        DirAccess::Failed(e) => Some(
            skip_directory(
                session_id,
                dir,
                now,
                join_text("Cannot access directory: ", e.as_str()),
                true,
            ),
        ),
    }
}

/// Third check: a symbolic link is skipped, so that no loop is followed.
pub fn check_symlink(session_id: &str, dir: &str, now: i64, is_symlink: bool) -> (done: Option<
    ProbeOutcome,
>)
    ensures
        done is Some == is_symlink,
        done matches Some(outcome) ==> outcome@ == skipped(
            session_id@,
            dir@,
            now,
            "Skipped symlink"@,
            false,
        ),
{
    if is_symlink {
        Some(skip_directory(session_id, dir, now, "Skipped symlink".to_owned(), false))
    } else {
        None
    }
}

/// What a probe makes of the listing of a directory that passed the checks.
pub fn read_listing(session_id: &str, dir: &str, now: i64, recursive: bool, listing: &DirListing) -> (outcome:
    ProbeOutcome)
    ensures
        outcome@ == listing_outcome(session_id@, dir@, now, recursive, listing@),
{
    let ghost entries = entry_views(listing.entries@);
    let mut subdirs: Vec<String> = Vec::new();
    let mut matches: Vec<String> = Vec::new();
    let mut i: usize = 0;
    proof {
        lemma_filter_ends(entries, is_match_entry());
        lemma_filter_ends(entries, is_subdir_entry(recursive));
        assert(texts(matches@) =~= entry_paths(Seq::<EntryView>::empty()));
        assert(texts(subdirs@) =~= entry_paths(Seq::<EntryView>::empty()));
    }
    while i < listing.entries.len()
        invariant
            i <= listing.entries.len(),
            entries == entry_views(listing.entries@),
            texts(matches@) == entry_paths(entries.take(i as int).filter(is_match_entry())),
            texts(subdirs@) == entry_paths(
                entries.take(i as int).filter(is_subdir_entry(recursive)),
            ),
        decreases listing.entries.len() - i,
    {
        proof {
            lemma_filter_step(entries, i as int, is_match_entry());
            lemma_filter_step(entries, i as int, is_subdir_entry(recursive));
        }
        let entry = &listing.entries[i];
        if entry.is_subdir(recursive) {
            let ghost before = subdirs@;
            let ghost kept = entries.take(i as int).filter(is_subdir_entry(recursive));
            subdirs.push(entry.path.clone());
            assert(texts(subdirs@) =~= texts(before).push(entries[i as int].path));
            assert(entry_paths(kept.push(entries[i as int])) =~= entry_paths(kept).push(
                entries[i as int].path,
            ));
        }
        if entry.is_match() {
            let ghost before = matches@;
            let ghost kept = entries.take(i as int).filter(is_match_entry());
            matches.push(entry.path.clone());
            assert(texts(matches@) =~= texts(before).push(entries[i as int].path));
            assert(entry_paths(kept.push(entries[i as int])) =~= entry_paths(kept).push(
                entries[i as int].path,
            ));
        }
        i += 1;
    }
    let failed = listing.error.is_some();
    let error_message = match &listing.error {
        Some(e) => Some(join_text("Failed to read directory: ", e.as_str())),
        None => None,
    };
    let found = matches.len() > 0;
    assert(texts(matches@).len() == matches.len());
    ProbeOutcome {
        session_id: session_id.to_owned(),
        state: DirectoryState {
            path: dir.to_owned(),
            last_searched_at: now,
            search_completed: !failed,
            ds_store_found: found,
            ds_store_deleted: false,
            error_message,
        },
        subdirs,
        matches,
        failed,
    }
}

/// What a probe at `now` makes of everything the file system said about `dir`.
pub fn probe_directory_at(session_id: &str, dir: &str, now: i64, recursive: bool, seen: &DirObservation) -> (outcome:
    ProbeOutcome)
    ensures
        outcome@ == probe_outcome(session_id@, dir@, now, recursive, seen@),
{
    match check_system_path(session_id, dir, now, seen.is_system_path) {
        Some(outcome) => {
            return outcome;
        },
        None => {},
    }
    match check_access(session_id, dir, now, &seen.access) {
        Some(outcome) => {
            return outcome;
        },
        None => {},
    }
    match check_symlink(session_id, dir, now, seen.is_symlink) {
        Some(outcome) => {
            return outcome;
        },
        None => {},
    }
    read_listing(session_id, dir, now, recursive, &seen.listing)
}

/// What a probe now makes of everything the file system said about `dir`.
pub fn process_directory_with_persistent_queue(
    dir: &str,
    session_id: &str,
    recursive: bool,
    seen: &DirObservation,
) -> (outcome: ProbeOutcome)
    ensures
        exists|now: i64| outcome@ == probe_outcome(session_id@, dir@, now, recursive, seen@),
{
    let now = unix_timestamp();
    probe_directory_at(session_id, dir, now, recursive, seen)
}

} // verus!
