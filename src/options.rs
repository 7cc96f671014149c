//! The configuration the command line supplies.
use vstd::prelude::*;
use crate::algorithms::Algorithm;

verus! {

/// All configurable values of one run.
pub struct Commands {
    /// Hashing algorithm to use.
    pub algorithm: Algorithm,
    /// Max recursion depth. Infinite if None.
    pub depth: Option<usize>,
    /// Whether to recurse down symlinks.
    pub follow_symlinks: bool,
    /// Files/directories to ignore.
    pub ignored_files: Vec<String>,
    /// Number of threads used for hashing; 0 for one per core.
    pub jobs: usize,
    /// Whether to verify or create hashes.
    pub command: Mode,
}

/// What a run does.
pub enum Mode {
    /// Hash `path` and write the manifest to `file`.
    Create { path: String, file: Option<String>, force: bool },
    /// Hash `path` and compare it with the manifest in `file`.
    Verify { path: String, file: Option<String> },
}

/// Representation of the application's configurable values that are not
/// tied to a mode.
pub struct Options {}

/// Whether create mode may write its manifest: always when forced, else only
/// where the file does not exist yet.
pub fn may_write(force: bool, exists: bool) -> (r: bool)
    ensures
        r == (force || !exists),
{
    force || !exists
}

} // verus!
