//! The settings that a run reads from the user's configuration file.

use crate::text::join_text;
use vstd::prelude::*;

verus! {

/// The freshness window that a new configuration file gets: one week.
pub const DEFAULT_CACHE_WINDOW_HOURS: u64 = 168;

/// Where the store lies, and how long a search stays fresh.
#[derive(Debug)]
pub struct Config {
    pub database_path: String,
    pub cache_window_hours: u64,
}

impl Config {
    /// The settings that a new configuration file gets under home directory
    /// `home`: the store in `.dds/cache.sqlite` below it, and a window of one
    /// week.
    pub fn with_home(home: &str) -> (config: Config)
        ensures
            config.database_path@ == home@ + "/.dds/cache.sqlite"@,
            config.cache_window_hours == DEFAULT_CACHE_WINDOW_HOURS,
    {
        Config {
            database_path: join_text(home, "/.dds/cache.sqlite"),
            cache_window_hours: DEFAULT_CACHE_WINDOW_HOURS,
        }
    }

    /// The window of a run: the override where one is given, else the
    /// configured one.
    pub fn window_hours(&self, override_hours: Option<u64>) -> (hours: u64)
        ensures
            hours == match override_hours {
                Some(h) => h,
                None => self.cache_window_hours,
            },
    {
        match override_hours {
            Some(h) => h,
            None => self.cache_window_hours,
        }
    }
}

} // verus!
