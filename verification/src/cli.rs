//! The command line as plain values, and what a run is to do for it.

use vstd::prelude::*;

verus! {

/// The flags and the argument of the command line.
#[derive(Debug)]
pub struct Cli {
    /// Say more as the run goes on.
    pub verbose: bool,
    /// Say nothing but errors.
    pub quiet: bool,
    /// Search the subdirectories of the search directory too.
    pub recursive: bool,
    /// Find the files but do not delete them.
    pub dry: bool,
    /// Ignore what the cache holds.
    pub force: bool,
    /// The freshness window in hours, in place of the configured one.
    pub cache_hours: Option<u64>,
    /// Show the incomplete searches.
    pub cache_status: bool,
    /// Remove the incomplete searches from the cache.
    pub cache_clear_incomplete: bool,
    /// Show the counts of the cache.
    pub cache_stats: bool,
    /// The directory to search.
    pub dir: String,
}

/// What a run is to do.
#[derive(Debug, Clone, Copy, PartialEq, Eq, Structural)]
pub enum Operation {
    CacheStatus,
    CacheClearIncomplete,
    CacheStats,
    Search,
}

/// The exit code of a run that ended well.
pub const EXIT_SUCCESS: i32 = 0;

/// The exit code of a run that failed.
pub const EXIT_FAILURE: i32 = 1;

/// The exit code of a run that the user interrupted.
pub const EXIT_INTERRUPTED: i32 = 130;

impl Cli {
    /// How many of the three cache commands are asked for.
    pub open spec fn cache_commands(&self) -> int {
        (if self.cache_status {
            1int
        } else {
            0int
        }) + (if self.cache_clear_incomplete {
            1int
        } else {
            0int
        }) + (if self.cache_stats {
            1int
        } else {
            0int
        })
    }

    /// The cache commands exclude each other, and each excludes the options
    /// of a search and a search directory other than the default.
    pub open spec fn consistent(&self) -> bool {
        self.cache_commands() == 0 || (self.cache_commands() == 1 && !self.recursive && !self.dry
            && !self.force && self.dir@ == "."@)
    }

    /// What the run is to do: the first cache command that is asked for, else a
    /// search.
    pub open spec fn spec_operation(&self) -> Operation {
        if self.cache_status {
            Operation::CacheStatus
        } else if self.cache_clear_incomplete {
            Operation::CacheClearIncomplete
        } else if self.cache_stats {
            Operation::CacheStats
        } else {
            Operation::Search
        }
    }

    /// Whether the command line asks for one thing only.
    pub fn is_consistent(&self) -> (ok: bool)
        ensures
            ok == self.consistent(),
    {
        let mut commands: u8 = 0;
        if self.cache_status {
            commands += 1;
        }
        if self.cache_clear_incomplete {
            commands += 1;
        }
        if self.cache_stats {
            commands += 1;
        }
        commands == 0 || (commands == 1 && !self.recursive && !self.dry && !self.force
            && crate::text::same_text(self.dir.as_str(), "."))
    }

    /// What the run is to do: the first cache command that is asked for,
    /// else a search.
    pub fn operation(&self) -> (op: Operation)
        ensures
            op == self.spec_operation(),
    {
        if self.cache_status {
            Operation::CacheStatus
        } else if self.cache_clear_incomplete {
            Operation::CacheClearIncomplete
        } else if self.cache_stats {
            Operation::CacheStats
        } else {
            Operation::Search
        }
    }
}

/// The exit code of a run: 130 where the user interrupted it, else 0 on
/// success and 1 on failure.
pub fn exit_code(interrupted: bool, failed: bool) -> (code: i32)
    ensures
        code == if interrupted {
            EXIT_INTERRUPTED
        } else if failed {
            EXIT_FAILURE
        } else {
            EXIT_SUCCESS
        },
{
    if interrupted {
        EXIT_INTERRUPTED
    } else if failed {
        EXIT_FAILURE
    } else {
        EXIT_SUCCESS
    }
}

} // verus!
