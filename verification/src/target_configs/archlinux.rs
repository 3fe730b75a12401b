//! Parameters of the Arch Linux target.

use vstd::prelude::*;

verus! {

/// How the accepted mirrors are ordered.
#[derive(Clone, Copy, Debug, PartialEq, Eq, Structural)]
pub enum SortingStrategy {
    /// A random permutation.
    Random,
    /// Smallest delay first.
    DelayAscending,
    /// Largest delay first.
    DelayDescending,
    /// Smallest score first.
    ScoreAscending,
    /// Largest score first.
    ScoreDescending,
}

/// Parameters of the Arch Linux target.
///
/// Scores and completion values are integer ranks: the caller maps the
/// source's numbers to integers in a way that keeps their order, and gives
/// `completion` on the same scale as the entries' `completion_pct`.
#[derive(Clone, Debug, PartialEq, Eq)]
pub struct ArchTarget {
    /// Path joined to a mirror's URL to obtain the URL used for speed testing.
    pub path_to_test: String,
    /// Prefix of comment lines.
    pub comment_prefix: String,
    /// Least completion a mirror must have.
    pub completion: i64,
    /// Greatest delay a mirror may have.
    pub max_delay: i64,
    /// Order of the accepted mirrors.
    pub sort_mirrors_by: SortingStrategy,
    /// Whether only first-tier mirrors are asked for.
    pub fetch_first_tier_only: bool,
    /// Timeout of each request, in milliseconds.
    pub fetch_mirrors_timeout: u64,
}

} // verus!
