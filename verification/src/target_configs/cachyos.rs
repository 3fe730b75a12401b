//! Parameters of the CachyOS target.

use vstd::prelude::*;

verus! {

/// Parameters of the CachyOS target.
#[derive(Clone, Debug, PartialEq, Eq)]
pub struct CachyOSTarget {
    /// Path joined to a mirror's URL to obtain the URL used for speed testing.
    pub path_to_test: String,
    /// Prefix of comment lines.
    pub comment_prefix: String,
    /// Architecture written into mirror lines; `auto` leaves the choice to
    /// the package manager.
    pub arch: String,
    /// Timeout of each request, in milliseconds.
    pub fetch_mirrors_timeout: u64,
}

} // verus!
