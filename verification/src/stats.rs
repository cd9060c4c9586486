//! The counters of a scan.

use vstd::prelude::*;

verus! {

/// What a scan has counted so far. Each counter wraps around at the limit of
/// `usize`.
#[derive(Debug, Clone, Copy, PartialEq, Eq, Structural)]
pub struct SearchStats {
    /// Directories searched for the first time.
    pub new_searches: usize,
    /// Directories resumed from an incomplete search.
    pub resumed_searches: usize,
    /// Directories skipped because the cache holds them fresh.
    pub skipped_cached: usize,
    /// Matches found.
    pub found: usize,
    /// Directories with an error.
    pub errors: usize,
}

/// `a + b` in `usize`, wrapping around.
pub open spec fn wrapping_sum(a: usize, b: usize) -> usize {
    if a + b > usize::MAX {
        (a + b - usize::MAX - 1) as usize
    } else {
        (a + b) as usize
    }
}

/// `a + b` in `usize`, wrapping around.
pub fn wrapping_add(a: usize, b: usize) -> (sum: usize)
    ensures
        sum == wrapping_sum(a, b),
{
    if a > usize::MAX - b {
        a - (usize::MAX - b) - 1
    } else {
        a + b
    }
}

impl SearchStats {
    /// Nothing counted yet.
    pub open spec fn zero() -> SearchStats {
        SearchStats { new_searches: 0, resumed_searches: 0, skipped_cached: 0, found: 0, errors: 0 }
    }

    /// The directories that the scan has classified.
    pub open spec fn classified(self) -> int {
        self.new_searches + self.resumed_searches + self.skipped_cached
    }

    /// One more directory searched for the first time.
    pub open spec fn plus_new(self) -> SearchStats {
        SearchStats { new_searches: wrapping_sum(self.new_searches, 1), ..self }
    }

    /// One more directory resumed.
    pub open spec fn plus_resumed(self) -> SearchStats {
        SearchStats { resumed_searches: wrapping_sum(self.resumed_searches, 1), ..self }
    }

    /// `count` more directories skipped.
    pub open spec fn plus_skipped(self, count: usize) -> SearchStats {
        SearchStats { skipped_cached: wrapping_sum(self.skipped_cached, count), ..self }
    }

    /// `count` more matches found.
    pub open spec fn plus_found(self, count: usize) -> SearchStats {
        SearchStats { found: wrapping_sum(self.found, count), ..self }
    }

    /// One more directory with an error.
    pub open spec fn plus_error(self) -> SearchStats {
        SearchStats { errors: wrapping_sum(self.errors, 1), ..self }
    }

    /// Counters that have counted nothing yet.
    pub fn new() -> (stats: SearchStats)
        ensures
            stats == SearchStats::zero(),
    {
        SearchStats { new_searches: 0, resumed_searches: 0, skipped_cached: 0, found: 0, errors: 0 }
    }

    /// Count a directory searched for the first time.
    pub fn increment_new(&mut self)
        ensures
            *final(self) == old(self).plus_new(),
    {
        self.new_searches = wrapping_add(self.new_searches, 1);
    }

    /// Count a directory resumed.
    pub fn increment_resumed(&mut self)
        ensures
            *final(self) == old(self).plus_resumed(),
    {
        self.resumed_searches = wrapping_add(self.resumed_searches, 1);
    }

    /// Count a directory skipped.
    pub fn increment_skipped(&mut self)
        ensures
            *final(self) == old(self).plus_skipped(1),
    {
        self.skipped_cached = wrapping_add(self.skipped_cached, 1);
    }

    /// Credit `count` directories as skipped at once.
    pub fn add_skipped(&mut self, count: usize)
        ensures
            *final(self) == old(self).plus_skipped(count),
    {
        self.skipped_cached = wrapping_add(self.skipped_cached, count);
    }

    /// Count a match.
    pub fn increment_found(&mut self)
        ensures
            *final(self) == old(self).plus_found(1),
    {
        self.found = wrapping_add(self.found, 1);
    }

    /// Credit `count` matches at once.
    pub fn add_found(&mut self, count: usize)
        ensures
            *final(self) == old(self).plus_found(count),
    {
        self.found = wrapping_add(self.found, count);
    }

    /// Count a directory with an error.
    pub fn increment_errors(&mut self)
        ensures
            *final(self) == old(self).plus_error(),
    {
        self.errors = wrapping_add(self.errors, 1);
    }

    /// The directories searched for the first time.
    pub fn get_new(&self) -> (count: usize)
        ensures
            count == self.new_searches,
    {
        self.new_searches
    }

    /// The directories resumed.
    pub fn get_resumed(&self) -> (count: usize)
        ensures
            count == self.resumed_searches,
    {
        self.resumed_searches
    }

    /// The directories skipped.
    pub fn get_skipped(&self) -> (count: usize)
        ensures
            count == self.skipped_cached,
    {
        self.skipped_cached
    }

    /// The matches found.
    pub fn get_found(&self) -> (count: usize)
        ensures
            count == self.found,
    {
        self.found
    }

    /// The directories with an error.
    pub fn get_errors(&self) -> (count: usize)
        ensures
            count == self.errors,
    {
        self.errors
    }

    /// The directories searched: new and resumed together.
    pub fn get_total_searched(&self) -> (count: usize)
        ensures
            count == wrapping_sum(self.new_searches, self.resumed_searches),
    {
        wrapping_add(self.new_searches, self.resumed_searches)
    }
}

} // verus!
