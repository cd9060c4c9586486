//! Around a search: the matches that the cache remembers from earlier runs,
//! and what the deletion of matches leaves in the cache.

use crate::cache::Cache;
use crate::cache::DirectoryState;
use crate::clock::unix_timestamp;
use crate::model::CacheState;
use crate::model::DirRow;
use crate::model::completed_row;
use crate::model::sentinel_paths;
use crate::model::undeleted_under;
use crate::seqs::distinct;
use crate::seqs::lemma_with_new;
use crate::seqs::with_new;
use crate::stats::SearchStats;
use crate::tables::dir_rows;
use crate::text::add_new_texts;
use crate::text::holds_texts;
use crate::text::push_if_new;
use crate::text::text_set;
use crate::text::distinct_texts;
use crate::text::opt_text;
use crate::text::texts;
use vstd::prelude::*;

verus! {

/// How the deletion of one match went.
#[derive(Debug, Clone, Copy, PartialEq, Eq, Structural)]
pub enum DeletionResult {
    /// The file was removed.
    Deleted,
    /// The file was gone already.
    Missing,
    /// The file could not be removed.
    Failed,
}

/// The deletion of one match: how it went, and the directory the match lay in.
#[derive(Debug)]
pub struct Deletion {
    pub parent: Option<String>,
    pub result: DeletionResult,
}

/// The view of a deletion.
pub struct DeletionView {
    pub parent: Option<Seq<char>>,
    pub result: DeletionResult,
}

impl View for Deletion {
    type V = DeletionView;

    open spec fn view(&self) -> DeletionView {
        DeletionView { parent: opt_text(self.parent), result: self.result }
    }
}

/// The views of the deletions, in their order.
pub open spec fn deletion_views(deletions: Seq<Deletion>) -> Seq<DeletionView> {
    Seq::new(deletions.len(), |i: int| deletions[i]@)
}

/// What a run reports in the end.
#[derive(Debug, Clone, Copy, PartialEq, Eq, Structural)]
pub struct SearchSummary {
    pub new_searches: usize,
    pub resumed_searches: usize,
    pub skipped_cached: usize,
    pub errors: usize,
    /// The matches of the run, remembered ones included.
    pub num_hits: usize,
    /// The directories searched: new and resumed together.
    pub searched_dirs: usize,
}

/// The matches of a search and the remembered ones, each once: those of the
/// search first, then the remembered ones that the search did not find.
pub open spec fn merged_hits(hits: Seq<Seq<char>>, cached: Seq<Seq<char>>) -> Seq<Seq<char>> {
    with_new(distinct(hits), cached)
}

/// The match is gone from a directory that is known: it was removed, or was
/// missing already.
pub open spec fn clears_parent(deletion: DeletionView) -> bool {
    deletion.parent is Some && deletion.result != DeletionResult::Failed
}

/// The directories whose match is gone, each once, in the order of their
/// first deletion.
pub open spec fn affected_parents(deletions: Seq<DeletionView>) -> Seq<Seq<char>>
    decreases deletions.len(),
{
    if deletions.len() == 0 {
        Seq::empty()
    } else {
        let before = affected_parents(deletions.drop_last());
        let last = deletions.last();
        if clears_parent(last) && !before.contains(last.parent->0) {
            before.push(last.parent->0)
        } else {
            before
        }
    }
}

/// The states of directories whose match was deleted at `now`.
pub open spec fn deleted_states(parents: Seq<Seq<char>>, now: i64) -> Seq<DirRow> {
    Seq::new(parents.len(), |i: int| completed_row(parents[i], true, true, now))
}

/// The cache after the deletions of a run: the directories whose match is
/// gone are recorded, unless this was a dry run; after a run with matches
/// the old rows are swept.
pub open spec fn after_deletions(
    c: CacheState,
    deletions: Seq<DeletionView>,
    dry_run: bool,
    num_hits: usize,
    now: i64,
) -> CacheState {
    let recorded = if dry_run {
        c
    } else {
        c.mark_completed_batch(deleted_states(affected_parents(deletions), now))
    };
    if num_hits > 0 {
        recorded.cleanup_old_entries(now)
    } else {
        recorded
    }
}

/// The matches that the cache remembers as found and not deleted at or below
/// `root_path`, for a run that deletes; none for a dry run.
pub fn remembered_hits(cache: &Cache, root_path: &str, recursive: bool, dry_run: bool) -> (files: Vec<
    String,
>)
    ensures
        texts(files@) == if dry_run {
            Seq::<Seq<char>>::empty()
        } else {
            sentinel_paths(cache@.directories.filter(undeleted_under(root_path@, recursive)))
        },
{
    if dry_run {
        let files: Vec<String> = Vec::new();
        assert(texts(files@) =~= Seq::<Seq<char>>::empty());
        files
    } else {
        cache.get_undeleted_ds_store_files(root_path, recursive)
    }
}

/// The matches of a search and the remembered ones, each once.
pub fn merge_cached_hits(hits: Vec<String>, cached: &Vec<String>) -> (merged: Vec<String>)
    ensures
        texts(merged@) == merged_hits(texts(hits@), texts(cached@)),
        texts(merged@).no_duplicates(),
{
    let mut merged = distinct_texts(&hits);
    add_new_texts(&mut merged, cached);
    proof {
        lemma_with_new(distinct(texts(hits@)), texts(cached@));
    }
    merged
}

/// What a run reports: the counters of its search and its number of matches.
pub fn summarize(stats: &SearchStats, num_hits: usize) -> (summary: SearchSummary)
    ensures
        summary == (SearchSummary {
            new_searches: stats.new_searches,
            resumed_searches: stats.resumed_searches,
            skipped_cached: stats.skipped_cached,
            errors: stats.errors,
            num_hits,
            searched_dirs: crate::stats::wrapping_sum(stats.new_searches, stats.resumed_searches),
        }),
{
    SearchSummary {
        new_searches: stats.get_new(),
        resumed_searches: stats.get_resumed(),
        skipped_cached: stats.get_skipped(),
        errors: stats.get_errors(),
        num_hits,
        searched_dirs: stats.get_total_searched(),
    }
}

/// The directories whose match is gone, each once.
pub fn parents_to_mark(deletions: &Vec<Deletion>) -> (parents: Vec<String>)
    ensures
        texts(parents@) == affected_parents(deletion_views(deletions@)),
{
    let ghost all = deletion_views(deletions@);
    let mut parents: Vec<String> = Vec::new();
    let mut seen = text_set(&parents);
    let mut i: usize = 0;
    proof {
        assert(all.take(0) =~= Seq::<DeletionView>::empty());
        assert(texts(parents@) =~= Seq::<Seq<char>>::empty());
    }
    while i < deletions.len()
        invariant
            i <= deletions.len(),
            all == deletion_views(deletions@),
            holds_texts(seen@, texts(parents@)),
            texts(parents@) == affected_parents(all.take(i as int)),
        decreases deletions.len() - i,
    {
        proof {
            assert(all.take(i + 1).drop_last() =~= all.take(i as int));
            assert(all.take(i + 1).last() == deletions[i as int]@);
        }
        let gone = match deletions[i].result {
            DeletionResult::Failed => false,
            _ => true,
        };
        if gone {
            match &deletions[i].parent {
                Some(parent) => {
                    push_if_new(&mut parents, &mut seen, parent.as_str());
                },
                None => {},
            }
        }
        i += 1;
    }
    assert(all.take(deletions.len() as int) =~= all);
    parents
}

/// The states of directories whose match was deleted at `now`: completed,
/// found and deleted.
pub fn states_of_deleted(parents: &Vec<String>, now: i64) -> (states: Vec<DirectoryState>)
    ensures
        dir_rows(states@) == deleted_states(texts(parents@), now),
{
    let mut states: Vec<DirectoryState> = Vec::new();
    let mut i: usize = 0;
    while i < parents.len()
        invariant
            i <= parents.len(),
            states.len() == i,
            forall|j: int| 0 <= j < i ==> states[j]@ == completed_row(parents[j]@, true, true, now),
        decreases parents.len() - i,
    {
        states.push(
            DirectoryState {
                path: parents[i].clone(),
                last_searched_at: now,
                search_completed: true,
                ds_store_found: true,
                ds_store_deleted: true,
                error_message: None,
            },
        );
        i += 1;
    }
    assert(dir_rows(states@) =~= deleted_states(texts(parents@), now));
    states
}

/// Record at `now` what the deletions of a run left.
pub fn record_deletions_at(cache: &mut Cache, deletions: &Vec<Deletion>, dry_run: bool, num_hits: usize, now: i64)
    ensures
        final(cache)@ == after_deletions(
            old(cache)@,
            deletion_views(deletions@),
            dry_run,
            num_hits,
            now,
        ),
        final(cache).wf(),
{
    proof {
        use_type_invariant(&*cache);
    }
    let parents = parents_to_mark(deletions);
    let states = states_of_deleted(&parents, now);
    if states.len() > 0 && !dry_run {
        cache.mark_completed_batch(&states);
    }
    if num_hits > 0 {
        cache.cleanup_old_entries_at(now);
    }
}

/// Record now what the deletions of a run left.
pub fn record_deletions(cache: &mut Cache, deletions: &Vec<Deletion>, dry_run: bool, num_hits: usize)
    ensures
        exists|now: i64|
            final(cache)@ == after_deletions(
                old(cache)@,
                deletion_views(deletions@),
                dry_run,
                num_hits,
                now,
            ),
        final(cache).wf(),
{
    let now = unix_timestamp();
    record_deletions_at(cache, deletions, dry_run, num_hits, now);
}

} // verus!
