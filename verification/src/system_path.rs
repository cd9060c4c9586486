//! The filter for system paths: platform directories that a scan stays out
//! of, told by a set of regular expressions.

use crate::text::texts;
use vstd::prelude::*;

verus! {

/// `regex::RegexSet`, declared so that a compiled set can be held and handed on.
/// Nothing inside it is visible.
#[verifier::external_type_specification]
#[verifier::external_body]
pub struct ExRegexSet(regex::RegexSet);

/// Whether `regex::RegexSet::new` accepts these patterns.
pub uninterp spec fn regex_set_compiles(patterns: Seq<Seq<char>>) -> bool;

/// The patterns that a regex set was made from, in order.
pub uninterp spec fn regex_set_patterns(set: regex::RegexSet) -> Seq<Seq<char>>;

/// Whether one of the patterns, as `regex::RegexSet::is_match` reads them,
/// matches somewhere in `haystack`.
pub uninterp spec fn regex_set_matches(patterns: Seq<Seq<char>>, haystack: Seq<char>) -> bool;

/// `regex::RegexSet::new` on `patterns`. Whether it succeeds depends on the
/// patterns alone; the set it returns holds them as they were given. The
/// error of a failure is dropped.
#[verifier::external_body]
fn compile_regex_set(patterns: &Vec<String>) -> (compiled: Option<regex::RegexSet>)
    ensures
        compiled is Some == regex_set_compiles(texts(patterns@)),
        compiled matches Some(set) ==> regex_set_patterns(set) == texts(patterns@),
{
    regex::RegexSet::new(patterns).ok()
}

/// `regex::RegexSet::is_match`: whether one of the set's patterns matches
/// somewhere in `haystack`. For a set made by `RegexSet::new`, with its
/// default options, that depends on the patterns and the haystack alone;
/// `compile_regex_set` is the only source of a set in this crate.
#[verifier::external_body]
fn regex_set_is_match(set: &regex::RegexSet, haystack: &str) -> (hit: bool)
    ensures
        hit == regex_set_matches(regex_set_patterns(*set), haystack@),
{
    set.is_match(haystack)
}

/// The patterns of the paths that a scan stays out of: other volumes, trash,
/// system volumes, per-user temporary folders, the event-stream database,
/// library caches and the spotlight index.
pub open spec fn system_patterns() -> Seq<Seq<char>> {
    seq![
        "/Volumes/"@,
        "/\\.Trash"@,
        "/System/Volumes"@,
        "/private/var/folders"@,
        "/\\.fseventsd"@,
        "/Library/Caches"@,
        "/\\.Spotlight-V100"@,
    ]
}

/// Whether `path` is a system path: the patterns compile and one matches.
pub open spec fn system_path(path: Seq<char>) -> bool {
    regex_set_compiles(system_patterns()) && regex_set_matches(system_patterns(), path)
}

/// The patterns as strings.
pub fn system_path_patterns() -> (patterns: Vec<String>)
    ensures
        texts(patterns@) == system_patterns(),
{
    let mut patterns: Vec<String> = Vec::new();
    patterns.push("/Volumes/".to_owned());
    patterns.push("/\\.Trash".to_owned());
    patterns.push("/System/Volumes".to_owned());
    patterns.push("/private/var/folders".to_owned());
    patterns.push("/\\.fseventsd".to_owned());
    patterns.push("/Library/Caches".to_owned());
    patterns.push("/\\.Spotlight-V100".to_owned());
    assert(texts(patterns@) =~= system_patterns());
    patterns
}

/// The compiled filter, made once and asked for every path.
pub struct SystemPathFilter {
    set: Option<regex::RegexSet>,
}

impl SystemPathFilter {
    #[verifier::type_invariant]
    spec fn holds_system_patterns(&self) -> bool {
        &&& self.set is Some == regex_set_compiles(system_patterns())
        &&& self.set matches Some(set) ==> regex_set_patterns(set) == system_patterns()
    }

    /// Whether the filter holds a compiled set.
    pub closed spec fn is_compiled(&self) -> bool {
        self.set is Some
    }

    /// The filter over the patterns of the system paths. It holds a compiled
    /// set exactly where the patterns compile.
    pub fn new() -> (filter: SystemPathFilter)
        ensures
            filter.is_compiled() == regex_set_compiles(system_patterns()),
    {
        let patterns = system_path_patterns();
        SystemPathFilter { set: compile_regex_set(&patterns) }
    }

    /// Whether `path` is a system path.
    pub fn is_system_path(&self, path: &str) -> (system: bool)
        ensures
            system == system_path(path@),
    {
        proof {
            use_type_invariant(self);
        }
        match &self.set {
            Some(set) => regex_set_is_match(set, path),
            None => false,
        }
    }
}

/// Whether `path` is a system path.
pub fn is_system_path(path: &str) -> (system: bool)
    ensures
        system == system_path(path@),
{
    let filter = SystemPathFilter::new();
    filter.is_system_path(path)
}

} // verus!
