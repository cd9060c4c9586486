//! The tables as vectors of rows: their views, the lemmas on the model's
//! operations, and the loops that carry those operations out.

use crate::cache::DirectoryState;
use crate::cache::FoundFile;
use crate::cache::SearchSession;
use crate::cache::WorkItem;
use crate::model::CacheState;
use crate::model::DirRow;
use crate::model::FoundRow;
use crate::model::SessionRow;
use crate::model::WorkRow;
use crate::model::dir_index;
use crate::model::drain_ordered;
use crate::model::drains_before;
use crate::model::found_in_session;
use crate::model::found_not_in_session;
use crate::model::found_of_live_session;
use crate::model::found_paths;
use crate::model::fresh_paths;
use crate::model::get_dir;
use crate::model::get_session;
use crate::model::has_completed_dir;
use crate::model::has_dir;
use crate::model::has_session;
use crate::model::has_swept_dir;
use crate::model::hot_rows_completed;
use crate::model::ids_issued;
use crate::model::in_session;
use crate::model::is_completed;
use crate::model::is_incomplete;
use crate::model::is_logged;
use crate::model::is_queued;
use crate::model::is_stale;
use crate::model::is_stale_id;
use crate::model::lists_latest_first;
use crate::model::not_in_session;
use crate::model::not_listed;
use crate::model::not_stale;
use crate::model::other_session;
use crate::model::put_dir;
use crate::model::queue_slot;
use crate::model::repaired_row;
use crate::model::repaired_rows;
use crate::model::row_consistent;
use crate::model::rows_consistent;
use crate::model::searched_since;
use crate::model::session_index;
use crate::model::swept_hot;
use crate::model::unique_dirs;
use crate::model::unique_found;
use crate::model::unique_ids;
use crate::model::unique_sessions;
use crate::model::unique_work;
use crate::model::work_id;
use crate::model::work_of_live_session;
use crate::seqs::lemma_filter_all;
use crate::seqs::lemma_filter_ends;
use crate::seqs::lemma_filter_pairs;
use crate::seqs::lemma_filter_step;
use crate::text::contains_text;
use crate::text::same_text;
use crate::text::texts;
use vstd::prelude::*;

verus! {

/// The views of the directory states, in their order.
pub open spec fn dir_rows(rows: Seq<DirectoryState>) -> Seq<DirRow> {
    Seq::new(rows.len(), |i: int| rows[i]@)
}

/// The views of the work items, in their order.
pub open spec fn work_rows(rows: Seq<WorkItem>) -> Seq<WorkRow> {
    Seq::new(rows.len(), |i: int| rows[i]@)
}

/// The views of the sessions, in their order.
pub open spec fn session_rows(rows: Seq<SearchSession>) -> Seq<SessionRow> {
    Seq::new(rows.len(), |i: int| rows[i]@)
}

/// The views of the logged matches, in their order.
pub open spec fn found_rows(rows: Seq<FoundFile>) -> Seq<FoundRow> {
    Seq::new(rows.len(), |i: int| rows[i]@)
}

// ---------------------------------------------------------------------------
// Directory cache
// ---------------------------------------------------------------------------

/// In a table with unique paths, the row at `i` is the row of its path.
pub proof fn lemma_dir_at(rows: Seq<DirRow>, i: int)
    requires
        unique_dirs(rows),
        0 <= i < rows.len(),
    ensures
        has_dir(rows, rows[i].path),
        dir_index(rows, rows[i].path) == i,
        get_dir(rows, rows[i].path) == Some(rows[i]),
{
    let path = rows[i].path;
    assert(has_dir(rows, path));
    let j = dir_index(rows, path);
    assert(0 <= j < rows.len() && rows[j].path == path);
    if j < i {
        assert(rows[j].path != rows[i].path);
    }
    if i < j {
        assert(rows[i].path != rows[j].path);
    }
}

/// `put_dir` keeps the paths unique, leaves the row it was given under its
/// path and every other path's row as it was.
pub proof fn lemma_put_dir(rows: Seq<DirRow>, row: DirRow)
    requires
        unique_dirs(rows),
    ensures
        unique_dirs(put_dir(rows, row)),
        get_dir(put_dir(rows, row), row.path) == Some(row),
        forall|p: Seq<char>| p != row.path ==> get_dir(put_dir(rows, row), p) == get_dir(rows, p),
        put_dir(put_dir(rows, row), row) == put_dir(rows, row),
{
    let after = put_dir(rows, row);
    let at = if has_dir(rows, row.path) {
        dir_index(rows, row.path)
    } else {
        rows.len() as int
    };
    assert(0 <= at < after.len() && after[at] == row);
    assert(forall|k: int| 0 <= k < after.len() && k != at ==> after[k] == rows[k]);
    assert forall|i: int, j: int| 0 <= i < j < after.len() implies after[i].path != after[j].path by {
        if has_dir(rows, row.path) {
            lemma_dir_at(rows, at);
            if i == at {
                assert(rows[at].path != rows[j].path);
            } else if j == at {
                assert(rows[i].path != rows[at].path);
            }
        } else {
            if j == at {
                assert(rows[i].path != row.path);
            }
        }
    }
    lemma_dir_at(after, at);
    assert(after.update(at, row) =~= after);
    assert forall|p: Seq<char>| p != row.path implies get_dir(after, p) == get_dir(rows, p) by {
        if has_dir(rows, p) {
            let k = dir_index(rows, p);
            assert(after[k] == rows[k]);
            lemma_dir_at(rows, k);
            lemma_dir_at(after, k);
        } else {
            if has_dir(after, p) {
                let k = dir_index(after, p);
                assert(rows[k].path == p);
            }
        }
    }
}

/// The index of the row of `path`.
pub(crate) fn find_dir(rows: &Vec<DirectoryState>, path: &str) -> (found: Option<usize>)
    requires
        unique_dirs(dir_rows(rows@)),
    ensures
        found is Some == has_dir(dir_rows(rows@), path@),
        found matches Some(i) ==> i < rows.len() && i == dir_index(dir_rows(rows@), path@)
            && rows[i as int].path@ == path@,
        match found {
            Some(i) => get_dir(dir_rows(rows@), path@) == Some(rows[i as int]@),
            None => get_dir(dir_rows(rows@), path@) is None,
        },
{
    let mut i: usize = 0;
    while i < rows.len()
        invariant
            i <= rows.len(),
            unique_dirs(dir_rows(rows@)),
            forall|j: int| 0 <= j < i ==> (#[trigger] dir_rows(rows@)[j]).path != path@,
        decreases rows.len() - i,
    {
        if same_text(rows[i].path.as_str(), path) {
            proof {
                assert(dir_rows(rows@)[i as int].path == path@);
                lemma_dir_at(dir_rows(rows@), i as int);
            }
            return Some(i);
        }
        i += 1;
    }
    None
}

/// Insert `row`, or replace the row that has its path.
pub(crate) fn put_dir_row(rows: &mut Vec<DirectoryState>, row: DirectoryState)
    requires
        unique_dirs(dir_rows(old(rows)@)),
    ensures
        dir_rows(final(rows)@) == put_dir(dir_rows(old(rows)@), row@),
        unique_dirs(dir_rows(final(rows)@)),
{
    proof {
        lemma_put_dir(dir_rows(rows@), row@);
    }
    match find_dir(rows, row.path.as_str()) {
        Some(i) => {
            rows.set(i, row);
        },
        None => {
            rows.push(row);
        },
    }
    assert(dir_rows(rows@) =~= put_dir(dir_rows(old(rows)@), row@));
}


/// A filter keeps the paths of a directory table unique.
pub proof fn lemma_filter_dirs(rows: Seq<DirRow>, pred: spec_fn(DirRow) -> bool)
    requires
        unique_dirs(rows),
    ensures
        unique_dirs(rows.filter(pred)),
{
    lemma_filter_pairs(rows, pred, |a: DirRow, b: DirRow| a.path != b.path);
}

/// The rows that are completed.
pub fn completed_dirs(rows: &Vec<DirectoryState>) -> (kept: Vec<DirectoryState>)
    ensures
        dir_rows(kept@) == dir_rows(rows@).filter(is_completed()),
{
    let mut kept: Vec<DirectoryState> = Vec::new();
    let mut i: usize = 0;
    proof {
        lemma_filter_ends(dir_rows(rows@), is_completed());
        assert(dir_rows(kept@) =~= Seq::<DirRow>::empty());
    }
    while i < rows.len()
        invariant
            i <= rows.len(),
            dir_rows(kept@) == dir_rows(rows@).take(i as int).filter(is_completed()),
        decreases rows.len() - i,
    {
        proof {
            lemma_filter_step(dir_rows(rows@), i as int, is_completed());
        }
        if rows[i].search_completed {
            let ghost before = kept@;
            kept.push(rows[i].clone());
            assert(dir_rows(kept@) =~= dir_rows(before).push(rows[i as int]@));
        }
        i += 1;
    }
    proof {
        lemma_filter_ends(dir_rows(rows@), is_completed());
    }
    kept
}

/// The rows that were searched at `cutoff` or later.
pub fn dirs_searched_since(rows: &Vec<DirectoryState>, cutoff: i64) -> (kept: Vec<DirectoryState>)
    ensures
        dir_rows(kept@) == dir_rows(rows@).filter(searched_since(cutoff)),
{
    let mut kept: Vec<DirectoryState> = Vec::new();
    let mut i: usize = 0;
    proof {
        lemma_filter_ends(dir_rows(rows@), searched_since(cutoff));
        assert(dir_rows(kept@) =~= Seq::<DirRow>::empty());
    }
    while i < rows.len()
        invariant
            i <= rows.len(),
            dir_rows(kept@) == dir_rows(rows@).take(i as int).filter(searched_since(cutoff)),
        decreases rows.len() - i,
    {
        proof {
            lemma_filter_step(dir_rows(rows@), i as int, searched_since(cutoff));
        }
        if rows[i].last_searched_at >= cutoff {
            let ghost before = kept@;
            kept.push(rows[i].clone());
            assert(dir_rows(kept@) =~= dir_rows(before).push(rows[i as int]@));
        }
        i += 1;
    }
    proof {
        lemma_filter_ends(dir_rows(rows@), searched_since(cutoff));
    }
    kept
}

// ---------------------------------------------------------------------------
// Work queue
// ---------------------------------------------------------------------------

/// A filter keeps the constraints of the work queue.
pub proof fn lemma_filter_work(q: Seq<WorkRow>, last: i64, pred: spec_fn(WorkRow) -> bool)
    requires
        unique_work(q),
        unique_ids(q),
        drain_ordered(q),
        ids_issued(q, last),
    ensures
        unique_work(q.filter(pred)),
        unique_ids(q.filter(pred)),
        drain_ordered(q.filter(pred)),
        ids_issued(q.filter(pred), last),
{
    lemma_filter_pairs(q, pred, |a: WorkRow, b: WorkRow| work_id(a) != work_id(b));
    lemma_filter_pairs(
        q,
        pred,
        |a: WorkRow, b: WorkRow| !(a.path == b.path && a.session_id == b.session_id),
    );
    lemma_filter_pairs(q, pred, |a: WorkRow, b: WorkRow| drains_before(a, b));
    lemma_filter_all(q, pred, |w: WorkRow| w.id is Some && 1 <= work_id(w) <= last);
}

/// The slot of a priority stands behind the rows of at least that priority
/// and before a row of less.
pub proof fn lemma_queue_slot(q: Seq<WorkRow>, priority: i32)
    ensures
        0 <= queue_slot(q, priority) <= q.len(),
        forall|i: int| 0 <= i < queue_slot(q, priority) ==> (#[trigger] q[i]).priority >= priority,
        queue_slot(q, priority) < q.len() ==> q[queue_slot(q, priority)].priority < priority,
    decreases q.len(),
{
    if q.len() > 0 && q[0].priority >= priority {
        let rest = q.skip(1);
        lemma_queue_slot(rest, priority);
        let k = queue_slot(rest, priority);
        assert forall|i: int| 0 <= i < k + 1 implies (#[trigger] q[i]).priority >= priority by {
            if i > 0 {
                assert(rest[i - 1] == q[i]);
            }
        }
        if k + 1 < q.len() {
            assert(rest[k] == q[k + 1]);
        }
    }
}

/// Enqueueing keeps the constraints of the store.
pub proof fn lemma_enqueue_inv(s: CacheState, session: Seq<char>, path: Seq<char>, priority: i32, now: i64)
    requires
        s.inv(),
    ensures
        s.enqueue_work(session, path, priority, now).inv(),
{
    let q = s.work_queue;
    if !(is_queued(q, path, session) || s.last_work_id >= i64::MAX) {
        lemma_queue_slot(q, priority);
        let k = queue_slot(q, priority);
        let id = (s.last_work_id + 1) as i64;
        let item = WorkRow { id: Some(id), path, discovered_at: now, priority, session_id: session };
        let after = q.insert(k, item);
        assert(after.len() == q.len() + 1);
        assert(forall|i: int| 0 <= i < k ==> after[i] == q[i]);
        assert(after[k] == item);
        assert(forall|i: int| k < i < after.len() ==> after[i] == q[i - 1]);
        assert forall|i: int, j: int| 0 <= i < j < after.len() implies !(after[i].path
            == after[j].path && after[i].session_id == after[j].session_id) && drains_before(
            after[i],
            after[j],
        ) && work_id(after[i]) != work_id(after[j]) by {
            if i < k && j < k {
                assert(drains_before(q[i], q[j]));
                assert(work_id(q[i]) != work_id(q[j]));
            } else if i < k && j == k {
                assert(q[i].priority >= priority);
                assert(q[i].id is Some && work_id(q[i]) <= s.last_work_id);
            } else if i < k && j > k {
                assert(drains_before(q[i], q[j - 1]));
                assert(work_id(q[i]) != work_id(q[j - 1]));
            } else if i == k {
                assert(q[k].priority < priority);
                if j - 1 > k {
                    assert(drains_before(q[k], q[j - 1]));
                }
                assert(q[j - 1].path == after[j].path);
                assert(q[j - 1].id is Some && work_id(q[j - 1]) <= s.last_work_id);
            } else {
                assert(drains_before(q[i - 1], q[j - 1]));
                assert(work_id(q[i - 1]) != work_id(q[j - 1]));
            }
        }
        assert forall|i: int| 0 <= i < after.len() implies (#[trigger] after[i]).id is Some && 1
            <= work_id(after[i]) <= id by {
            if i < k {
                assert(q[i].id is Some);
            } else if i > k {
                assert(q[i - 1].id is Some);
            }
        }
    }
}

/// Whether the queue holds `path` for `session`.
pub fn is_queued_in(q: &Vec<WorkItem>, path: &str, session: &str) -> (queued: bool)
    ensures
        queued == is_queued(work_rows(q@), path@, session@),
{
    let mut i: usize = 0;
    while i < q.len()
        invariant
            i <= q.len(),
            forall|j: int|
                0 <= j < i ==> !((#[trigger] work_rows(q@)[j]).path == path@ && work_rows(
                    q@,
                )[j].session_id == session@),
        decreases q.len() - i,
    {
        if same_text(q[i].path.as_str(), path) && same_text(q[i].session_id.as_str(), session) {
            assert(work_rows(q@)[i as int].path == path@);
            return true;
        }
        i += 1;
    }
    false
}

/// Where a new row of `priority` goes.
pub fn slot_for(q: &Vec<WorkItem>, priority: i32) -> (slot: usize)
    ensures
        slot == queue_slot(work_rows(q@), priority),
        slot <= q.len(),
{
    let ghost rows = work_rows(q@);
    let mut k: usize = 0;
    assert(rows.skip(0) =~= rows);
    while k < q.len() && q[k].priority >= priority
        invariant
            k <= q.len(),
            rows == work_rows(q@),
            queue_slot(rows, priority) == k + queue_slot(rows.skip(k as int), priority),
        decreases q.len() - k,
    {
        proof {
            let rest = rows.skip(k as int);
            assert(rest.len() > 0 && rest[0] == rows[k as int]);
            assert(rest.skip(1) =~= rows.skip(k + 1));
        }
        k += 1;
    }
    proof {
        let rest = rows.skip(k as int);
        if k < q.len() {
            assert(rest[0] == rows[k as int]);
        }
        assert(queue_slot(rest, priority) == 0);
    }
    k
}

/// A copy of the queue.
pub fn copy_work(q: &Vec<WorkItem>) -> (copy: Vec<WorkItem>)
    ensures
        work_rows(copy@) == work_rows(q@),
{
    let mut copy: Vec<WorkItem> = Vec::new();
    let mut i: usize = 0;
    while i < q.len()
        invariant
            i <= q.len(),
            copy.len() == i,
            forall|j: int| 0 <= j < i ==> copy[j]@ == q[j]@,
        decreases q.len() - i,
    {
        copy.push(q[i].clone());
        i += 1;
    }
    assert(work_rows(copy@) =~= work_rows(q@));
    copy
}

/// The first `limit` rows of `session`, in queue order.
pub fn work_of_session(q: &Vec<WorkItem>, session: &str, limit: usize) -> (items: Vec<WorkItem>)
    ensures
        items.len() <= limit,
        work_rows(items@) == {
            let all = work_rows(q@).filter(in_session(session@));
            if limit < all.len() {
                all.take(limit as int)
            } else {
                all
            }
        },
{
    let ghost rows = work_rows(q@);
    let ghost pred = in_session(session@);
    let mut items: Vec<WorkItem> = Vec::new();
    let mut i: usize = 0;
    proof {
        lemma_filter_ends(rows, pred);
        assert(work_rows(items@) =~= Seq::<WorkRow>::empty());
    }
    while i < q.len() && items.len() < limit
        invariant
            i <= q.len(),
            items.len() <= limit,
            rows == work_rows(q@),
            pred == in_session(session@),
            work_rows(items@) == rows.take(i as int).filter(pred),
        decreases q.len() - i,
    {
        proof {
            lemma_filter_step(rows, i as int, pred);
        }
        if same_text(q[i].session_id.as_str(), session) {
            let ghost before = items@;
            items.push(q[i].clone());
            assert(work_rows(items@) =~= work_rows(before).push(q[i as int]@));
        }
        i += 1;
    }
    proof {
        lemma_filter_ends(rows, pred);
        crate::seqs::lemma_filter_prefix(rows, i as int, pred);
        let all = rows.filter(pred);
        assert(work_rows(items@).len() == items.len());
        if i == q.len() {
            assert(work_rows(items@) == all);
        } else {
            assert(items.len() == limit);
            if limit == all.len() {
                assert(all.take(limit as int) =~= all);
            }
        }
    }
    items
}

/// How many rows the queue holds for `session`.
pub fn count_work(q: &Vec<WorkItem>, session: &str) -> (count: usize)
    ensures
        count == work_rows(q@).filter(in_session(session@)).len(),
{
    let ghost rows = work_rows(q@);
    let ghost pred = in_session(session@);
    let mut count: usize = 0;
    let mut i: usize = 0;
    proof {
        lemma_filter_ends(rows, pred);
    }
    while i < q.len()
        invariant
            i <= q.len(),
            count <= i,
            rows == work_rows(q@),
            pred == in_session(session@),
            count == rows.take(i as int).filter(pred).len(),
        decreases q.len() - i,
    {
        proof {
            lemma_filter_step(rows, i as int, pred);
        }
        if same_text(q[i].session_id.as_str(), session) {
            count += 1;
        }
        i += 1;
    }
    proof {
        lemma_filter_ends(rows, pred);
    }
    count
}

/// The queue without the rows of `session`.
pub fn work_without_session(q: &Vec<WorkItem>, session: &str) -> (kept: Vec<WorkItem>)
    ensures
        work_rows(kept@) == work_rows(q@).filter(not_in_session(session@)),
{
    let ghost rows = work_rows(q@);
    let ghost pred = not_in_session(session@);
    let mut kept: Vec<WorkItem> = Vec::new();
    let mut i: usize = 0;
    proof {
        lemma_filter_ends(rows, pred);
        assert(work_rows(kept@) =~= Seq::<WorkRow>::empty());
    }
    while i < q.len()
        invariant
            i <= q.len(),
            rows == work_rows(q@),
            pred == not_in_session(session@),
            work_rows(kept@) == rows.take(i as int).filter(pred),
        decreases q.len() - i,
    {
        proof {
            lemma_filter_step(rows, i as int, pred);
        }
        if !same_text(q[i].session_id.as_str(), session) {
            let ghost before = kept@;
            kept.push(q[i].clone());
            assert(work_rows(kept@) =~= work_rows(before).push(q[i as int]@));
        }
        i += 1;
    }
    proof {
        lemma_filter_ends(rows, pred);
    }
    kept
}

/// Whether `ids` holds `id`.
pub fn contains_id(ids: &Vec<i64>, id: i64) -> (found: bool)
    ensures
        found == ids@.contains(id),
{
    let mut i: usize = 0;
    while i < ids.len()
        invariant
            i <= ids.len(),
            forall|j: int| 0 <= j < i ==> ids@[j] != id,
        decreases ids.len() - i,
    {
        if ids[i] == id {
            return true;
        }
        i += 1;
    }
    false
}

/// The queue without the rows whose id is among `ids`.
pub fn work_without_ids(q: &Vec<WorkItem>, ids: &Vec<i64>) -> (kept: Vec<WorkItem>)
    ensures
        work_rows(kept@) == work_rows(q@).filter(not_listed(ids@)),
{
    let ghost rows = work_rows(q@);
    let ghost pred = not_listed(ids@);
    let mut kept: Vec<WorkItem> = Vec::new();
    let mut i: usize = 0;
    proof {
        lemma_filter_ends(rows, pred);
        assert(work_rows(kept@) =~= Seq::<WorkRow>::empty());
    }
    while i < q.len()
        invariant
            i <= q.len(),
            rows == work_rows(q@),
            pred == not_listed(ids@),
            work_rows(kept@) == rows.take(i as int).filter(pred),
        decreases q.len() - i,
    {
        proof {
            lemma_filter_step(rows, i as int, pred);
        }
        let listed = match q[i].id {
            Some(id) => contains_id(ids, id),
            None => false,
        };
        if !listed {
            let ghost before = kept@;
            kept.push(q[i].clone());
            assert(work_rows(kept@) =~= work_rows(before).push(q[i as int]@));
        }
        i += 1;
    }
    proof {
        lemma_filter_ends(rows, pred);
    }
    kept
}

/// The queue without the rows of the sessions in `stale`, which holds the
/// stale sessions of `sessions`.
pub(crate) fn work_of_live_sessions(
    q: &Vec<WorkItem>,
    stale: &Vec<String>,
    Ghost(sessions): Ghost<Seq<SessionRow>>,
    Ghost(cutoff): Ghost<i64>,
) -> (kept: Vec<WorkItem>)
    requires
        forall|id: Seq<char>| texts(stale@).contains(id) == is_stale_id(sessions, cutoff, id),
    ensures
        work_rows(kept@) == work_rows(q@).filter(work_of_live_session(sessions, cutoff)),
{
    let ghost rows = work_rows(q@);
    let ghost pred = work_of_live_session(sessions, cutoff);
    let mut kept: Vec<WorkItem> = Vec::new();
    let mut i: usize = 0;
    proof {
        lemma_filter_ends(rows, pred);
        assert(work_rows(kept@) =~= Seq::<WorkRow>::empty());
    }
    while i < q.len()
        invariant
            i <= q.len(),
            rows == work_rows(q@),
            pred == work_of_live_session(sessions, cutoff),
            forall|id: Seq<char>| texts(stale@).contains(id) == is_stale_id(sessions, cutoff, id),
            work_rows(kept@) == rows.take(i as int).filter(pred),
        decreases q.len() - i,
    {
        proof {
            lemma_filter_step(rows, i as int, pred);
        }
        if !contains_text(stale, q[i].session_id.as_str()) {
            let ghost before = kept@;
            kept.push(q[i].clone());
            assert(work_rows(kept@) =~= work_rows(before).push(q[i as int]@));
        }
        i += 1;
    }
    proof {
        lemma_filter_ends(rows, pred);
    }
    kept
}

// ---------------------------------------------------------------------------
// Sessions
// ---------------------------------------------------------------------------

/// A filter keeps the identifiers of a session table unique.
pub proof fn lemma_filter_sessions(rows: Seq<SessionRow>, pred: spec_fn(SessionRow) -> bool)
    requires
        unique_sessions(rows),
    ensures
        unique_sessions(rows.filter(pred)),
{
    lemma_filter_pairs(rows, pred, |a: SessionRow, b: SessionRow| a.session_id != b.session_id);
}

/// In a table with unique identifiers, the row at `i` is the row of its identifier.
pub proof fn lemma_session_at(rows: Seq<SessionRow>, i: int)
    requires
        unique_sessions(rows),
        0 <= i < rows.len(),
    ensures
        has_session(rows, rows[i].session_id),
        session_index(rows, rows[i].session_id) == i,
        get_session(rows, rows[i].session_id) == Some(rows[i]),
{
    let id = rows[i].session_id;
    assert(has_session(rows, id));
    let j = session_index(rows, id);
    assert(0 <= j < rows.len() && rows[j].session_id == id);
    if j < i {
        assert(rows[j].session_id != rows[i].session_id);
    }
    if i < j {
        assert(rows[i].session_id != rows[j].session_id);
    }
}

/// The index of the row of session `id`.
pub(crate) fn find_session(rows: &Vec<SearchSession>, id: &str) -> (found: Option<usize>)
    requires
        unique_sessions(session_rows(rows@)),
    ensures
        found is Some == has_session(session_rows(rows@), id@),
        found matches Some(i) ==> i < rows.len() && i == session_index(session_rows(rows@), id@)
            && rows[i as int].session_id@ == id@,
        match found {
            Some(i) => get_session(session_rows(rows@), id@) == Some(rows[i as int]@),
            None => get_session(session_rows(rows@), id@) is None,
        },
{
    let mut i: usize = 0;
    while i < rows.len()
        invariant
            i <= rows.len(),
            unique_sessions(session_rows(rows@)),
            forall|j: int| 0 <= j < i ==> (#[trigger] session_rows(rows@)[j]).session_id != id@,
        decreases rows.len() - i,
    {
        if same_text(rows[i].session_id.as_str(), id) {
            proof {
                assert(session_rows(rows@)[i as int].session_id == id@);
                lemma_session_at(session_rows(rows@), i as int);
            }
            return Some(i);
        }
        i += 1;
    }
    None
}

/// The session table without the row of `id`.
pub fn sessions_without(rows: &Vec<SearchSession>, id: &str) -> (kept: Vec<SearchSession>)
    ensures
        session_rows(kept@) == session_rows(rows@).filter(other_session(id@)),
{
    let ghost all = session_rows(rows@);
    let ghost pred = other_session(id@);
    let mut kept: Vec<SearchSession> = Vec::new();
    let mut i: usize = 0;
    proof {
        lemma_filter_ends(all, pred);
        assert(session_rows(kept@) =~= Seq::<SessionRow>::empty());
    }
    while i < rows.len()
        invariant
            i <= rows.len(),
            all == session_rows(rows@),
            pred == other_session(id@),
            session_rows(kept@) == all.take(i as int).filter(pred),
        decreases rows.len() - i,
    {
        proof {
            lemma_filter_step(all, i as int, pred);
        }
        if !same_text(rows[i].session_id.as_str(), id) {
            let ghost before = kept@;
            kept.push(rows[i].clone());
            assert(session_rows(kept@) =~= session_rows(before).push(rows[i as int]@));
        }
        i += 1;
    }
    proof {
        lemma_filter_ends(all, pred);
    }
    kept
}

/// Whether a session never completed and started before `cutoff`.
pub fn session_is_stale(row: &SearchSession, cutoff: i64) -> (stale: bool)
    ensures
        stale == is_stale(row@, cutoff),
{
    let completed = match row.status {
        crate::cache::SearchSessionStatus::Completed => true,
        _ => false,
    };
    row.started_at < cutoff && !completed
}

/// The identifiers of the stale sessions.
pub fn stale_session_ids(rows: &Vec<SearchSession>, cutoff: i64) -> (stale: Vec<String>)
    ensures
        forall|id: Seq<char>|
            texts(stale@).contains(id) == is_stale_id(session_rows(rows@), cutoff, id),
{
    let ghost all = session_rows(rows@);
    let mut stale: Vec<String> = Vec::new();
    let mut i: usize = 0;
    while i < rows.len()
        invariant
            i <= rows.len(),
            all == session_rows(rows@),
            forall|id: Seq<char>|
                texts(stale@).contains(id) == is_stale_id(all.take(i as int), cutoff, id),
        decreases rows.len() - i,
    {
        let ghost before = stale@;
        let ghost front = all.take(i as int);
        let ghost next = all.take(i + 1);
        let is_stale_row = session_is_stale(&rows[i], cutoff);
        if is_stale_row {
            stale.push(rows[i].session_id.clone());
        }
        proof {
            assert(next.len() == front.len() + 1);
            assert(next[i as int] == all[i as int]);
            assert(forall|j: int| 0 <= j < i ==> next[j] == front[j]);
            assert forall|id: Seq<char>| texts(stale@).contains(id) == is_stale_id(
                next,
                cutoff,
                id,
            ) by {
                if is_stale_row {
                    assert(texts(stale@) =~= texts(before).push(all[i as int].session_id));
                } else {
                    assert(texts(stale@) =~= texts(before));
                }
                if texts(stale@).contains(id) {
                    let k = choose|k: int| 0 <= k < texts(stale@).len() && texts(stale@)[k] == id;
                    if k < before.len() {
                        assert(texts(before)[k] == id);
                        assert(texts(before).contains(id));
                        let j = choose|j: int|
                            0 <= j < front.len() && (#[trigger] front[j]).session_id == id
                                && is_stale(front[j], cutoff);
                        assert(next[j].session_id == id && is_stale(next[j], cutoff));
                    } else {
                        assert(next[i as int].session_id == id && is_stale(next[i as int], cutoff));
                    }
                }
                if is_stale_id(next, cutoff, id) {
                    let j = choose|j: int|
                        0 <= j < next.len() && (#[trigger] next[j]).session_id == id && is_stale(
                            next[j],
                            cutoff,
                        );
                    if j < i {
                        assert(front[j].session_id == id && is_stale(front[j], cutoff));
                        assert(is_stale_id(front, cutoff, id));
                        assert(texts(before).contains(id));
                        let k = choose|k: int| 0 <= k < texts(before).len() && texts(before)[k] == id;
                        assert(texts(stale@)[k] == id);
                    } else {
                        assert(texts(stale@)[stale.len() - 1] == id);
                    }
                }
            }
        }
        i += 1;
    }
    assert(all.take(rows.len() as int) =~= all);
    stale
}

/// The session table without its stale rows.
pub fn live_sessions(rows: &Vec<SearchSession>, cutoff: i64) -> (kept: Vec<SearchSession>)
    ensures
        session_rows(kept@) == session_rows(rows@).filter(not_stale(cutoff)),
{
    let ghost all = session_rows(rows@);
    let ghost pred = not_stale(cutoff);
    let mut kept: Vec<SearchSession> = Vec::new();
    let mut i: usize = 0;
    proof {
        lemma_filter_ends(all, pred);
        assert(session_rows(kept@) =~= Seq::<SessionRow>::empty());
    }
    while i < rows.len()
        invariant
            i <= rows.len(),
            all == session_rows(rows@),
            pred == not_stale(cutoff),
            session_rows(kept@) == all.take(i as int).filter(pred),
        decreases rows.len() - i,
    {
        proof {
            lemma_filter_step(all, i as int, pred);
        }
        if !session_is_stale(&rows[i], cutoff) {
            let ghost before = kept@;
            kept.push(rows[i].clone());
            assert(session_rows(kept@) =~= session_rows(before).push(rows[i as int]@));
        }
        i += 1;
    }
    proof {
        lemma_filter_ends(all, pred);
    }
    kept
}

// ---------------------------------------------------------------------------
// Found-file log
// ---------------------------------------------------------------------------

/// A filter keeps the rows of the found-file log unique.
pub proof fn lemma_filter_found(rows: Seq<FoundRow>, pred: spec_fn(FoundRow) -> bool)
    requires
        unique_found(rows),
    ensures
        unique_found(rows.filter(pred)),
{
    lemma_filter_pairs(
        rows,
        pred,
        |a: FoundRow, b: FoundRow| !(a.session_id == b.session_id && a.file_path == b.file_path),
    );
}

/// Whether the log holds `path` for `session`.
pub fn is_logged_in(rows: &Vec<FoundFile>, session: &str, path: &str) -> (logged: bool)
    ensures
        logged == is_logged(found_rows(rows@), session@, path@),
{
    let mut i: usize = 0;
    while i < rows.len()
        invariant
            i <= rows.len(),
            forall|j: int|
                0 <= j < i ==> !((#[trigger] found_rows(rows@)[j]).session_id == session@
                    && found_rows(rows@)[j].file_path == path@),
        decreases rows.len() - i,
    {
        if same_text(rows[i].session_id.as_str(), session) && same_text(
            rows[i].file_path.as_str(),
            path,
        ) {
            assert(found_rows(rows@)[i as int].session_id == session@);
            return true;
        }
        i += 1;
    }
    false
}

/// The log without the rows of `session`.
pub fn found_without_session(rows: &Vec<FoundFile>, session: &str) -> (kept: Vec<FoundFile>)
    ensures
        found_rows(kept@) == found_rows(rows@).filter(found_not_in_session(session@)),
{
    let ghost all = found_rows(rows@);
    let ghost pred = found_not_in_session(session@);
    let mut kept: Vec<FoundFile> = Vec::new();
    let mut i: usize = 0;
    proof {
        lemma_filter_ends(all, pred);
        assert(found_rows(kept@) =~= Seq::<FoundRow>::empty());
    }
    while i < rows.len()
        invariant
            i <= rows.len(),
            all == found_rows(rows@),
            pred == found_not_in_session(session@),
            found_rows(kept@) == all.take(i as int).filter(pred),
        decreases rows.len() - i,
    {
        proof {
            lemma_filter_step(all, i as int, pred);
        }
        if !same_text(rows[i].session_id.as_str(), session) {
            let ghost before = kept@;
            kept.push(rows[i].clone());
            assert(found_rows(kept@) =~= found_rows(before).push(rows[i as int]@));
        }
        i += 1;
    }
    proof {
        lemma_filter_ends(all, pred);
    }
    kept
}

/// The log without the rows of the sessions in `stale`, which holds the stale
/// sessions of `sessions`.
pub(crate) fn found_of_live_sessions(
    rows: &Vec<FoundFile>,
    stale: &Vec<String>,
    Ghost(sessions): Ghost<Seq<SessionRow>>,
    Ghost(cutoff): Ghost<i64>,
) -> (kept: Vec<FoundFile>)
    requires
        forall|id: Seq<char>| texts(stale@).contains(id) == is_stale_id(sessions, cutoff, id),
    ensures
        found_rows(kept@) == found_rows(rows@).filter(found_of_live_session(sessions, cutoff)),
{
    let ghost all = found_rows(rows@);
    let ghost pred = found_of_live_session(sessions, cutoff);
    let mut kept: Vec<FoundFile> = Vec::new();
    let mut i: usize = 0;
    proof {
        lemma_filter_ends(all, pred);
        assert(found_rows(kept@) =~= Seq::<FoundRow>::empty());
    }
    while i < rows.len()
        invariant
            i <= rows.len(),
            all == found_rows(rows@),
            pred == found_of_live_session(sessions, cutoff),
            forall|id: Seq<char>| texts(stale@).contains(id) == is_stale_id(sessions, cutoff, id),
            found_rows(kept@) == all.take(i as int).filter(pred),
        decreases rows.len() - i,
    {
        proof {
            lemma_filter_step(all, i as int, pred);
        }
        if !contains_text(stale, rows[i].session_id.as_str()) {
            let ghost before = kept@;
            kept.push(rows[i].clone());
            assert(found_rows(kept@) =~= found_rows(before).push(rows[i as int]@));
        }
        i += 1;
    }
    proof {
        lemma_filter_ends(all, pred);
    }
    kept
}

/// The paths that the log holds for `session`, in the order they were logged,
/// and how many there are.
pub fn found_of_session(rows: &Vec<FoundFile>, session: &str) -> (paths: Vec<String>)
    ensures
        texts(paths@) == found_paths(found_rows(rows@).filter(found_in_session(session@))),
        paths.len() == found_rows(rows@).filter(found_in_session(session@)).len(),
{
    let ghost all = found_rows(rows@);
    let ghost pred = found_in_session(session@);
    let mut paths: Vec<String> = Vec::new();
    let mut i: usize = 0;
    proof {
        lemma_filter_ends(all, pred);
        assert(texts(paths@) =~= found_paths(Seq::<FoundRow>::empty()));
    }
    while i < rows.len()
        invariant
            i <= rows.len(),
            all == found_rows(rows@),
            pred == found_in_session(session@),
            texts(paths@) == found_paths(all.take(i as int).filter(pred)),
            paths.len() == all.take(i as int).filter(pred).len(),
        decreases rows.len() - i,
    {
        proof {
            lemma_filter_step(all, i as int, pred);
        }
        if same_text(rows[i].session_id.as_str(), session) {
            let ghost before = paths@;
            paths.push(rows[i].file_path.clone());
            assert(texts(paths@) =~= texts(before).push(rows[i as int].file_path@));
            assert(found_paths(all.take(i as int).filter(pred).push(all[i as int])) =~= found_paths(
                all.take(i as int).filter(pred),
            ).push(all[i as int].file_path));
        }
        i += 1;
    }
    proof {
        lemma_filter_ends(all, pred);
    }
    paths
}


// ---------------------------------------------------------------------------
// Checks on tables that come from outside
// ---------------------------------------------------------------------------

/// Whether the table has a row of `path`, whatever else it holds.
pub fn has_dir_in(rows: &Vec<DirectoryState>, path: &str) -> (found: bool)
    ensures
        found == has_dir(dir_rows(rows@), path@),
{
    let mut i: usize = 0;
    while i < rows.len()
        invariant
            i <= rows.len(),
            forall|j: int| 0 <= j < i ==> (#[trigger] dir_rows(rows@)[j]).path != path@,
        decreases rows.len() - i,
    {
        if same_text(rows[i].path.as_str(), path) {
            assert(dir_rows(rows@)[i as int].path == path@);
            return true;
        }
        i += 1;
    }
    false
}

/// Whether no two rows of the directory table have one path.
pub fn dirs_unique(rows: &Vec<DirectoryState>) -> (unique: bool)
    ensures
        unique == unique_dirs(dir_rows(rows@)),
{
    let ghost all = dir_rows(rows@);
    let mut j: usize = 0;
    while j < rows.len()
        invariant
            j <= rows.len(),
            all == dir_rows(rows@),
            forall|a: int, b: int| 0 <= a < b < j ==> all[a].path != all[b].path,
        decreases rows.len() - j,
    {
        let mut i: usize = 0;
        while i < j
            invariant
                i <= j < rows.len(),
                all == dir_rows(rows@),
                forall|a: int| 0 <= a < i ==> all[a].path != all[j as int].path,
            decreases j - i,
        {
            if same_text(rows[i].path.as_str(), rows[j].path.as_str()) {
                assert(all[i as int].path == all[j as int].path);
                return false;
            }
            i += 1;
        }
        j += 1;
    }
    true
}

/// Whether no two rows of the session table have one identifier.
pub fn sessions_unique(rows: &Vec<SearchSession>) -> (unique: bool)
    ensures
        unique == unique_sessions(session_rows(rows@)),
{
    let ghost all = session_rows(rows@);
    let mut j: usize = 0;
    while j < rows.len()
        invariant
            j <= rows.len(),
            all == session_rows(rows@),
            forall|a: int, b: int| 0 <= a < b < j ==> all[a].session_id != all[b].session_id,
        decreases rows.len() - j,
    {
        let mut i: usize = 0;
        while i < j
            invariant
                i <= j < rows.len(),
                all == session_rows(rows@),
                forall|a: int| 0 <= a < i ==> all[a].session_id != all[j as int].session_id,
            decreases j - i,
        {
            if same_text(rows[i].session_id.as_str(), rows[j].session_id.as_str()) {
                assert(all[i as int].session_id == all[j as int].session_id);
                return false;
            }
            i += 1;
        }
        j += 1;
    }
    true
}

/// Whether no two rows of the found-file log have one session and path.
pub fn found_unique(rows: &Vec<FoundFile>) -> (unique: bool)
    ensures
        unique == unique_found(found_rows(rows@)),
{
    let ghost all = found_rows(rows@);
    let mut j: usize = 0;
    while j < rows.len()
        invariant
            j <= rows.len(),
            all == found_rows(rows@),
            forall|a: int, b: int|
                0 <= a < b < j ==> !(all[a].session_id == all[b].session_id && all[a].file_path
                    == all[b].file_path),
        decreases rows.len() - j,
    {
        let mut i: usize = 0;
        while i < j
            invariant
                i <= j < rows.len(),
                all == found_rows(rows@),
                forall|a: int|
                    0 <= a < i ==> !(all[a].session_id == all[j as int].session_id
                        && all[a].file_path == all[j as int].file_path),
            decreases j - i,
        {
            if same_text(rows[i].session_id.as_str(), rows[j].session_id.as_str()) && same_text(
                rows[i].file_path.as_str(),
                rows[j].file_path.as_str(),
            ) {
                assert(all[i as int].session_id == all[j as int].session_id);
                return false;
            }
            i += 1;
        }
        j += 1;
    }
    true
}

/// Rows that each drain before the next are in drain order.
pub proof fn lemma_adjacent_order(q: Seq<WorkRow>, i: int, j: int)
    requires
        forall|k: int| 0 <= k < q.len() - 1 ==> drains_before(#[trigger] q[k], q[k + 1]),
        0 <= i < j < q.len(),
    ensures
        drains_before(q[i], q[j]),
    decreases j - i,
{
    if i + 1 < j {
        lemma_adjacent_order(q, i, j - 1);
        assert(drains_before(q[j - 1], q[j - 1 + 1]));
    } else {
        assert(drains_before(q[i], q[i + 1]));
    }
}

/// Whether the constraints of the work queue hold: no two rows with one path
/// and session or with one id, drain order, and every id given out and not
/// above `last`.
pub fn work_sound(q: &Vec<WorkItem>, last: i64) -> (sound: bool)
    ensures
        sound == (unique_work(work_rows(q@)) && unique_ids(work_rows(q@)) && drain_ordered(
            work_rows(q@),
        ) && ids_issued(work_rows(q@), last)),
{
    let ghost all = work_rows(q@);
    let mut j: usize = 0;
    while j < q.len()
        invariant
            j <= q.len(),
            all == work_rows(q@),
            forall|a: int, b: int|
                0 <= a < b < j ==> !(all[a].path == all[b].path && all[a].session_id
                    == all[b].session_id),
            forall|a: int, b: int| 0 <= a < b < j ==> work_id(all[a]) != work_id(all[b]),
            forall|k: int| 0 <= k < j ==> (#[trigger] all[k]).id is Some && 1 <= work_id(all[k]) <= last,
            forall|k: int| 0 <= k < j - 1 ==> drains_before(#[trigger] all[k], all[k + 1]),
        decreases q.len() - j,
    {
        let id_ok = match q[j].id {
            Some(id) => 1 <= id && id <= last,
            None => false,
        };
        if !id_ok {
            assert(!(all[j as int].id is Some && 1 <= work_id(all[j as int]) <= last));
            return false;
        }
        if j > 0 {
            let prev = &q[j - 1];
            let cur = &q[j];
            let before = prev.priority > cur.priority || (prev.priority == cur.priority && match (
                prev.id,
                cur.id,
            ) {
                (Some(a), Some(b)) => a < b,
                _ => false,
            });
            if !before {
                assert(!drains_before(all[j - 1], all[j as int]));
                return false;
            }
        }
        let mut i: usize = 0;
        while i < j
            invariant
                i <= j < q.len(),
                all == work_rows(q@),
                all[j as int].id is Some,
                forall|a: int|
                    0 <= a < i ==> !(all[a].path == all[j as int].path && all[a].session_id
                        == all[j as int].session_id),
                forall|a: int| 0 <= a < i ==> work_id(all[a]) != work_id(all[j as int]),
                forall|k: int| 0 <= k < j ==> (#[trigger] all[k]).id is Some,
            decreases j - i,
        {
            if same_text(q[i].path.as_str(), q[j].path.as_str()) && same_text(
                q[i].session_id.as_str(),
                q[j].session_id.as_str(),
            ) {
                assert(all[i as int].path == all[j as int].path);
                return false;
            }
            let same_id = match (q[i].id, q[j].id) {
                (Some(a), Some(b)) => a == b,
                _ => false,
            };
            if same_id {
                assert(all[i as int].id is Some);
                assert(work_id(all[i as int]) == work_id(all[j as int]));
                return false;
            }
            assert(all[i as int].id is Some);
            i += 1;
        }
        j += 1;
    }
    proof {
        assert forall|a: int, b: int| 0 <= a < b < all.len() implies drains_before(all[a], all[b]) by {
            lemma_adjacent_order(all, a, b);
        }
    }
    true
}

/// The paths of the rows that are completed and were searched after `cutoff`.
pub fn fresh_dirs(rows: &Vec<DirectoryState>, cutoff: i64) -> (hot: vstd::hash_set::StringHashSet)
    ensures
        hot@ == fresh_paths(dir_rows(rows@), cutoff),
{
    let ghost all = dir_rows(rows@);
    let mut count: usize = 0;
    let mut k: usize = 0;
    while k < rows.len()
        invariant
            k <= rows.len(),
            count <= k,
        decreases rows.len() - k,
    {
        if rows[k].search_completed && rows[k].last_searched_at > cutoff {
            count += 1;
        }
        k += 1;
    }
    let mut hot = vstd::hash_set::StringHashSet::with_capacity(count);
    let mut i: usize = 0;
    assert(hot@ =~= fresh_paths(all.take(0), cutoff));
    while i < rows.len()
        invariant
            i <= rows.len(),
            all == dir_rows(rows@),
            hot@ == fresh_paths(all.take(i as int), cutoff),
        decreases rows.len() - i,
    {
        let ghost before = hot@;
        let ghost front = all.take(i as int);
        let ghost next = all.take(i + 1);
        let fresh = rows[i].search_completed && rows[i].last_searched_at > cutoff;
        if fresh {
            hot.insert(rows[i].path.clone());
        }
        proof {
            assert(forall|j: int| 0 <= j < i ==> next[j] == front[j]);
            assert(next[i as int] == all[i as int]);
            assert forall|p: Seq<char>| hot@.contains(p) == fresh_paths(next, cutoff).contains(
                p,
            ) by {
                if fresh_paths(next, cutoff).contains(p) {
                    let j = choose|j: int|
                        0 <= j < next.len() && (#[trigger] next[j]).path == p
                            && next[j].search_completed && next[j].last_searched_at > cutoff;
                    if j < i {
                        assert(front[j].path == p);
                        assert(fresh_paths(front, cutoff).contains(p));
                    }
                }
                if hot@.contains(p) {
                    if before.contains(p) {
                        let j = choose|j: int|
                            0 <= j < front.len() && (#[trigger] front[j]).path == p
                                && front[j].search_completed && front[j].last_searched_at > cutoff;
                        assert(next[j].path == p);
                    } else {
                        assert(next[i as int].path == p);
                    }
                }
            }
            assert(hot@ =~= fresh_paths(next, cutoff));
        }
        i += 1;
    }
    assert(all.take(rows.len() as int) =~= all);
    hot
}

/// The rows whose search did not complete, latest search first.
pub fn incomplete_latest_first(rows: &Vec<DirectoryState>) -> (sorted: Vec<DirectoryState>)
    ensures
        lists_latest_first(dir_rows(sorted@), dir_rows(rows@), is_incomplete()),
{
    let ghost all = dir_rows(rows@);
    let ghost pred = is_incomplete();
    let mut sorted: Vec<DirectoryState> = Vec::new();
    let mut i: usize = 0;
    proof {
        lemma_filter_ends(all, pred);
        assert(dir_rows(sorted@) =~= Seq::<DirRow>::empty());
    }
    while i < rows.len()
        invariant
            i <= rows.len(),
            all == dir_rows(rows@),
            pred == is_incomplete(),
            dir_rows(sorted@).to_multiset() == all.take(i as int).filter(pred).to_multiset(),
            forall|a: int, b: int|
                0 <= a < b < sorted.len() ==> dir_rows(sorted@)[a].last_searched_at >= dir_rows(
                    sorted@,
                )[b].last_searched_at,
        decreases rows.len() - i,
    {
        proof {
            lemma_filter_step(all, i as int, pred);
        }
        if !rows[i].search_completed {
            let at = rows[i].last_searched_at;
            let mut k: usize = 0;
            while k < sorted.len() && sorted[k].last_searched_at >= at
                invariant
                    k <= sorted.len(),
                    forall|a: int| 0 <= a < k ==> dir_rows(sorted@)[a].last_searched_at >= at,
                decreases sorted.len() - k,
            {
                k += 1;
            }
            let ghost before = sorted@;
            sorted.insert(k, rows[i].clone());
            proof {
                let old_rows = dir_rows(before);
                let new_rows = dir_rows(sorted@);
                assert(new_rows =~= old_rows.insert(k as int, all[i as int]));
                vstd::seq_lib::to_multiset_insert(old_rows, k as int, all[i as int]);
                vstd::seq_lib::to_multiset_build(all.take(i as int).filter(pred), all[i as int]);
                assert forall|a: int, b: int| 0 <= a < b < new_rows.len() implies new_rows[a].last_searched_at
                    >= new_rows[b].last_searched_at by {
                    if b < k {
                        assert(old_rows[a].last_searched_at >= old_rows[b].last_searched_at);
                    } else if b == k {
                        assert(old_rows[a].last_searched_at >= at);
                    } else if a < k {
                        assert(old_rows[a].last_searched_at >= old_rows[b - 1].last_searched_at);
                    } else if a == k {
                        assert(old_rows[k as int].last_searched_at < at);
                        if b - 1 > k {
                            assert(old_rows[k as int].last_searched_at >= old_rows[b
                                - 1].last_searched_at);
                        }
                    } else {
                        assert(old_rows[a - 1].last_searched_at >= old_rows[b - 1].last_searched_at);
                    }
                }
            }
        }
        i += 1;
    }
    proof {
        lemma_filter_ends(all, pred);
    }
    sorted
}


/// A copy of a directory table.
pub fn copy_dirs(rows: &Vec<DirectoryState>) -> (copy: Vec<DirectoryState>)
    ensures
        dir_rows(copy@) == dir_rows(rows@),
{
    let mut copy: Vec<DirectoryState> = Vec::new();
    let mut i: usize = 0;
    while i < rows.len()
        invariant
            i <= rows.len(),
            copy.len() == i,
            forall|j: int| 0 <= j < i ==> copy[j]@ == rows[j]@,
        decreases rows.len() - i,
    {
        copy.push(rows[i].clone());
        i += 1;
    }
    assert(dir_rows(copy@) =~= dir_rows(rows@));
    copy
}

/// A copy of a session table.
pub fn copy_sessions(rows: &Vec<SearchSession>) -> (copy: Vec<SearchSession>)
    ensures
        session_rows(copy@) == session_rows(rows@),
{
    let mut copy: Vec<SearchSession> = Vec::new();
    let mut i: usize = 0;
    while i < rows.len()
        invariant
            i <= rows.len(),
            copy.len() == i,
            forall|j: int| 0 <= j < i ==> copy[j]@ == rows[j]@,
        decreases rows.len() - i,
    {
        copy.push(rows[i].clone());
        i += 1;
    }
    assert(session_rows(copy@) =~= session_rows(rows@));
    copy
}

/// A copy of a found-file log.
pub fn copy_found(rows: &Vec<FoundFile>) -> (copy: Vec<FoundFile>)
    ensures
        found_rows(copy@) == found_rows(rows@),
{
    let mut copy: Vec<FoundFile> = Vec::new();
    let mut i: usize = 0;
    while i < rows.len()
        invariant
            i <= rows.len(),
            copy.len() == i,
            forall|j: int| 0 <= j < i ==> copy[j]@ == rows[j]@,
        decreases rows.len() - i,
    {
        copy.push(rows[i].clone());
        i += 1;
    }
    assert(found_rows(copy@) =~= found_rows(rows@));
    copy
}

/// The paths of the rows, in their order.
pub fn paths_of(rows: &Vec<DirectoryState>) -> (paths: Vec<String>)
    ensures
        texts(paths@) == crate::model::dir_paths(dir_rows(rows@)),
{
    let mut paths: Vec<String> = Vec::new();
    let mut i: usize = 0;
    while i < rows.len()
        invariant
            i <= rows.len(),
            paths.len() == i,
            forall|j: int| 0 <= j < i ==> paths[j]@ == rows[j].path@,
        decreases rows.len() - i,
    {
        paths.push(rows[i].path.clone());
        i += 1;
    }
    assert(texts(paths@) =~= crate::model::dir_paths(dir_rows(rows@)));
    paths
}


// ---------------------------------------------------------------------------
// Consistent rows and the hot set
// ---------------------------------------------------------------------------

/// Storing a consistent row keeps the rows consistent. The hot set keeps a
/// completed row for each of its paths where the path of a completed row
/// joins it or stays, and the path of any other row leaves it.
pub proof fn lemma_put_dir_hot(rows: Seq<DirRow>, row: DirRow, hot: Set<Seq<char>>)
    requires
        rows_consistent(rows),
        row_consistent(row),
        hot_rows_completed(hot, rows),
    ensures
        rows_consistent(put_dir(rows, row)),
        hot_rows_completed(hot.remove(row.path), put_dir(rows, row)),
        row.search_completed ==> hot_rows_completed(hot.insert(row.path), put_dir(rows, row)),
        row.search_completed ==> hot_rows_completed(hot, put_dir(rows, row)),
{
    let after = put_dir(rows, row);
    let at = if has_dir(rows, row.path) {
        dir_index(rows, row.path)
    } else {
        rows.len() as int
    };
    assert(0 <= at < after.len() && after[at] == row);
    assert(forall|k: int| 0 <= k < after.len() && k != at ==> after[k] == rows[k]);
    assert forall|i: int| 0 <= i < after.len() implies row_consistent(#[trigger] after[i]) by {
        if i != at {
            assert(after[i] == rows[i]);
        }
    }
    assert forall|p: Seq<char>| p != row.path && has_completed_dir(rows, p) implies has_completed_dir(
        after,
        p,
    ) by {
        let i = choose|i: int|
            0 <= i < rows.len() && (#[trigger] rows[i]).path == p && rows[i].search_completed;
        if has_dir(rows, row.path) {
            assert(rows[at].path == row.path);
        }
        assert(i != at);
        assert(after[i].path == p && after[i].search_completed);
    }
    if row.search_completed {
        assert(after[at].path == row.path && after[at].search_completed);
        assert(has_completed_dir(after, row.path));
    }
}

/// Consistent rows need no repair.
pub proof fn lemma_consistent_rows_need_no_repair(rows: Seq<DirRow>)
    requires
        rows_consistent(rows),
    ensures
        repaired_rows(rows) == rows,
{
    assert forall|i: int| 0 <= i < rows.len() implies repaired_rows(rows)[i] == rows[i] by {
        assert(row_consistent(rows[i]));
    }
    assert(repaired_rows(rows) =~= rows);
}

/// Repaired rows are consistent and keep their paths.
pub proof fn lemma_repaired_rows(rows: Seq<DirRow>)
    ensures
        rows_consistent(repaired_rows(rows)),
        unique_dirs(rows) ==> unique_dirs(repaired_rows(rows)),
{
    if unique_dirs(rows) {
        assert forall|a: int, b: int| 0 <= a < b < rows.len() implies repaired_rows(rows)[a].path
            != repaired_rows(rows)[b].path by {
            assert(rows[a].path != rows[b].path);
        }
    }
}

/// A filter that keeps every completed row keeps a completed row for each
/// path of the hot set.
pub proof fn lemma_filter_keeps_hot_rows(rows: Seq<DirRow>, pred: spec_fn(DirRow) -> bool, hot: Set<Seq<char>>)
    requires
        forall|p: Seq<char>|
            hot.contains(p) ==> exists|i: int|
                0 <= i < rows.len() && (#[trigger] rows[i]).path == p && rows[i].search_completed
                    && pred(rows[i]),
    ensures
        hot_rows_completed(hot, rows.filter(pred)),
{
    let src = crate::seqs::lemma_filter_sources(rows, pred);
    let kept = rows.filter(pred);
    assert forall|p: Seq<char>| hot.contains(p) implies has_completed_dir(kept, p) by {
        let i = choose|i: int|
            0 <= i < rows.len() && (#[trigger] rows[i]).path == p && rows[i].search_completed
                && pred(rows[i]);
        let k = choose|k: int| 0 <= k < src.len() && #[trigger] src[k] == i;
        assert(kept[k] == rows[i]);
        assert(kept[k].path == p && kept[k].search_completed);
    }
}

/// Removing the incomplete rows keeps the store sound.
pub proof fn lemma_clear_incomplete_inv(s: CacheState)
    requires
        s.inv(),
    ensures
        s.clear_incomplete().inv(),
{
    lemma_filter_dirs(s.directories, is_completed());
    lemma_filter_all(s.directories, is_completed(), |r: DirRow| row_consistent(r));
    assert forall|p: Seq<char>| s.hot.contains(p) implies exists|i: int|
        0 <= i < s.directories.len() && (#[trigger] s.directories[i]).path == p
            && s.directories[i].search_completed && is_completed()(s.directories[i]) by {
        assert(has_completed_dir(s.directories, p));
        let i = choose|i: int|
            0 <= i < s.directories.len() && (#[trigger] s.directories[i]).path == p
                && s.directories[i].search_completed;
        assert(is_completed()(s.directories[i]));
    }
    lemma_filter_keeps_hot_rows(s.directories, is_completed(), s.hot);
}

/// A sweep keeps the store sound.
pub proof fn lemma_cleanup_inv(s: CacheState, now: i64)
    requires
        s.inv(),
    ensures
        s.cleanup_old_entries(now).inv(),
{
    let cutoff = crate::model::sweep_cutoff(now, s.window_hours);
    let pred = searched_since(cutoff);
    let hot = swept_hot(s.hot, s.directories, cutoff);
    lemma_filter_dirs(s.directories, pred);
    lemma_filter_all(s.directories, pred, |r: DirRow| row_consistent(r));
    assert forall|p: Seq<char>| hot.contains(p) implies exists|i: int|
        0 <= i < s.directories.len() && (#[trigger] s.directories[i]).path == p
            && s.directories[i].search_completed && pred(s.directories[i]) by {
        assert(has_completed_dir(s.directories, p));
        let i = choose|i: int|
            0 <= i < s.directories.len() && (#[trigger] s.directories[i]).path == p
                && s.directories[i].search_completed;
        assert(!has_swept_dir(s.directories, cutoff, p));
        assert(pred(s.directories[i]));
    }
    lemma_filter_keeps_hot_rows(s.directories, pred, hot);
}

/// Clear `ds_store_deleted` in every row where no match was found.
pub fn repair_dirs(rows: &mut Vec<DirectoryState>)
    ensures
        dir_rows(final(rows)@) == repaired_rows(dir_rows(old(rows)@)),
{
    let ghost before = dir_rows(rows@);
    let mut i: usize = 0;
    while i < rows.len()
        invariant
            i <= rows.len(),
            rows.len() == before.len(),
            forall|j: int| 0 <= j < i ==> dir_rows(rows@)[j] == repaired_row(before[j]),
            forall|j: int| i <= j < before.len() ==> dir_rows(rows@)[j] == before[j],
        decreases rows.len() - i,
    {
        let ghost earlier = rows@;
        let row = &rows[i];
        if row.ds_store_deleted && !row.ds_store_found {
            let fixed = DirectoryState {
                path: row.path.clone(),
                last_searched_at: row.last_searched_at,
                search_completed: row.search_completed,
                ds_store_found: row.ds_store_found,
                ds_store_deleted: false,
                error_message: crate::text::copy_opt_text(&row.error_message),
            };
            rows.set(i, fixed);
        }
        proof {
            assert(dir_rows(earlier)[i as int] == before[i as int]);
            assert forall|j: int| 0 <= j < i + 1 implies dir_rows(rows@)[j] == repaired_row(
                before[j],
            ) by {
                if j < i {
                    assert(dir_rows(earlier)[j] == repaired_row(before[j]));
                }
            }
            assert forall|j: int| i + 1 <= j < before.len() implies dir_rows(rows@)[j]
                == before[j] by {
                assert(dir_rows(earlier)[j] == before[j]);
            }
        }
        i += 1;
    }
    assert(dir_rows(rows@) =~= repaired_rows(before));
}

/// Take from the hot set the paths of the rows last searched before `cutoff`.
pub fn sweep_hot_set(hot: &mut vstd::hash_set::StringHashSet, rows: &Vec<DirectoryState>, cutoff: i64)
    ensures
        final(hot)@ == swept_hot(old(hot)@, dir_rows(rows@), cutoff),
{
    let ghost all = dir_rows(rows@);
    let ghost start = hot@;
    let mut i: usize = 0;
    assert(hot@ =~= swept_hot(start, all.take(0), cutoff));
    while i < rows.len()
        invariant
            i <= rows.len(),
            all == dir_rows(rows@),
            hot@ == swept_hot(start, all.take(i as int), cutoff),
        decreases rows.len() - i,
    {
        let ghost before = hot@;
        let ghost front = all.take(i as int);
        let ghost next = all.take(i + 1);
        let swept = rows[i].last_searched_at < cutoff;
        if swept {
            hot.remove(rows[i].path.as_str());
        }
        proof {
            assert(forall|j: int| 0 <= j < i ==> next[j] == front[j]);
            assert(next[i as int] == all[i as int]);
            assert forall|p: Seq<char>| hot@.contains(p) == swept_hot(start, next, cutoff).contains(
                p,
            ) by {
                if has_swept_dir(next, cutoff, p) {
                    let j = choose|j: int|
                        0 <= j < next.len() && (#[trigger] next[j]).path == p
                            && next[j].last_searched_at < cutoff;
                    if j < i {
                        assert(front[j].path == p && front[j].last_searched_at < cutoff);
                        assert(has_swept_dir(front, cutoff, p));
                    }
                }
                if has_swept_dir(front, cutoff, p) {
                    let j = choose|j: int|
                        0 <= j < front.len() && (#[trigger] front[j]).path == p
                            && front[j].last_searched_at < cutoff;
                    assert(next[j].path == p && next[j].last_searched_at < cutoff);
                }
                if swept && p == all[i as int].path {
                    assert(next[i as int].path == p && next[i as int].last_searched_at < cutoff);
                }
            }
            assert(hot@ =~= swept_hot(start, next, cutoff));
        }
        i += 1;
    }
    assert(all.take(rows.len() as int) =~= all);
}

} // verus!
