//! How much a run says.

use vstd::prelude::*;

verus! {

/// How much a run says: `Quiet` suppresses everything but errors.
#[derive(Debug, PartialEq, Eq, Clone, Copy, Structural)]
pub enum Verbosity {
    Quiet,
    Normal,
    Verbose,
}

impl Default for Verbosity {
    fn default() -> (level: Verbosity)
        ensures
            level == Verbosity::Normal,
    {
        Verbosity::Normal
    }
}

impl Verbosity {
    /// The level that the two flags ask for. They exclude each other: both
    /// together, like neither, give `Normal`.
    pub open spec fn from_bools(verbose: bool, quiet: bool) -> Verbosity {
        if verbose && !quiet {
            Verbosity::Verbose
        } else if quiet && !verbose {
            Verbosity::Quiet
        } else {
            Verbosity::Normal
        }
    }

    /// The level that the two flags ask for.
    pub fn new_from_bools(verbose: bool, quiet: bool) -> (level: Verbosity)
        ensures
            level == Self::from_bools(verbose, quiet),
    {
        match (verbose, quiet) {
            (true, true) => Verbosity::Normal,
            (true, false) => Verbosity::Verbose,
            (false, true) => Verbosity::Quiet,
            (false, false) => Verbosity::Normal,
        }
    }

    /// Whether the run says more than usual.
    pub fn is_verbose(self) -> (yes: bool)
        ensures
            yes == (self == Verbosity::Verbose),
    {
        match self {
            Verbosity::Quiet => false,
            Verbosity::Normal => false,
            Verbosity::Verbose => true,
        }
    }

    /// Whether the run says what is usual.
    pub fn is_normal(self) -> (yes: bool)
        ensures
            yes == (self == Verbosity::Normal),
    {
        match self {
            Verbosity::Quiet => false,
            Verbosity::Normal => true,
            Verbosity::Verbose => false,
        }
    }

    /// Whether the run suppresses everything but errors.
    pub fn is_quiet(self) -> (yes: bool)
        ensures
            yes == (self == Verbosity::Quiet),
    {
        match self {
            Verbosity::Quiet => true,
            Verbosity::Normal => false,
            Verbosity::Verbose => false,
        }
    }

    /// Whether the run says anything beside errors.
    pub fn is_not_quiet(self) -> (yes: bool)
        ensures
            yes == (self != Verbosity::Quiet),
    {
        match self {
            Verbosity::Quiet => false,
            Verbosity::Normal => true,
            Verbosity::Verbose => true,
        }
    }
}

} // verus!
