//! What a store holds on disk, as plain rows: read when a cache is opened and
//! written when it is saved.

use crate::cache::DirectoryState;
use crate::cache::FoundFile;
use crate::cache::SearchSession;
use crate::cache::WorkItem;
use crate::model::LegacyRow;
use crate::model::SnapshotView;
use crate::tables::dir_rows;
use crate::tables::found_rows;
use crate::tables::session_rows;
use crate::tables::work_rows;
use vstd::prelude::*;

verus! {

/// One row of the legacy table of searched directories.
#[derive(Debug)]
pub struct LegacyDir {
    pub path: String,
    pub last_searched_at: i64,
}

impl View for LegacyDir {
    type V = LegacyRow;

    open spec fn view(&self) -> LegacyRow {
        LegacyRow { path: self.path@, last_searched_at: self.last_searched_at }
    }
}

/// The views of the legacy rows, in their order.
pub open spec fn legacy_rows(rows: Seq<LegacyDir>) -> Seq<LegacyRow> {
    Seq::new(rows.len(), |i: int| rows[i]@)
}

/// The view of the legacy table, where there is one.
pub open spec fn opt_legacy_rows(rows: Option<Vec<LegacyDir>>) -> Option<Seq<LegacyRow>> {
    match rows {
        Some(v) => Some(legacy_rows(v@)),
        None => None,
    }
}

/// The tables of a store as they stand on disk.
#[derive(Debug)]
pub struct StoreSnapshot {
    /// The rows of the legacy table `searched_dirs`, where that table exists.
    pub legacy_dirs: Option<Vec<LegacyDir>>,
    pub directories: Vec<DirectoryState>,
    /// The work queue in drain order: by priority descending, then by id.
    pub work_queue: Vec<WorkItem>,
    /// The highest id that the work queue ever gave out.
    pub last_work_id: i64,
    pub sessions: Vec<SearchSession>,
    pub found_files: Vec<FoundFile>,
    /// What the engine's integrity check answered; `ok` when it found no fault.
    pub integrity_report: String,
}

impl View for StoreSnapshot {
    type V = SnapshotView;

    open spec fn view(&self) -> SnapshotView {
        SnapshotView {
            legacy_dirs: opt_legacy_rows(self.legacy_dirs),
            directories: dir_rows(self.directories@),
            work_queue: work_rows(self.work_queue@),
            last_work_id: self.last_work_id,
            sessions: session_rows(self.sessions@),
            found_files: found_rows(self.found_files@),
            integrity_report: self.integrity_report@,
        }
    }
}

impl StoreSnapshot {
    /// The snapshot of a store that was never written: empty tables, no
    /// legacy table, and a clean integrity report.
    pub fn empty() -> (snapshot: StoreSnapshot)
        ensures
            snapshot@ == (SnapshotView {
                legacy_dirs: None,
                directories: Seq::empty(),
                work_queue: Seq::empty(),
                last_work_id: 0,
                sessions: Seq::empty(),
                found_files: Seq::empty(),
                integrity_report: "ok"@,
            }),
    {
        let snapshot = StoreSnapshot {
            legacy_dirs: None,
            directories: Vec::new(),
            work_queue: Vec::new(),
            last_work_id: 0,
            sessions: Vec::new(),
            found_files: Vec::new(),
            integrity_report: "ok".to_owned(),
        };
        assert(snapshot@.directories =~= Seq::empty());
        assert(snapshot@.work_queue =~= Seq::empty());
        assert(snapshot@.sessions =~= Seq::empty());
        assert(snapshot@.found_files =~= Seq::empty());
        snapshot
    }
}

} // verus!
