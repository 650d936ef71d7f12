//! The command line of the tool, as plain values. Reading it from the
//! process's arguments is left to the program.

use vstd::prelude::*;

verus! {

/// Rust Directory Delta - Visualize delta between directories
pub struct Cli {
    /// Main directory (baseline for comparison)
    pub main_dir: String,
    /// Directory to compare against main
    pub compare_dir: String,
    /// Show verbose output
    pub verbose: bool,
    /// Show only differences (hide common files)
    pub diff_only: bool,
    /// Compare file contents using MD5 checksums
    pub md5: bool,
}

} // verus!
