//! The options of a scan.

use vstd::prelude::*;

verus! {

/// The options of a scan, as given on the command line.
#[derive(Debug, Clone)]
pub struct Args {
    /// Print machine-readable output.
    pub json: bool,
    /// Do not use the default scan directories.
    pub no_default: bool,
    /// Suppress all logging output.
    pub no_log: bool,
    /// Include entries with `Hidden=true` or `NoDisplay=true`.
    pub include_hidden: bool,
    /// Additional directories to scan.
    pub extra_dirs: Vec<String>,
    /// Do not scan the common extra directories (Flatpak and Snap exports).
    pub no_common_extras: bool,
    /// Check the script argument of interpreter command lines.
    pub check_script_args: bool,
    /// Maximum number of concurrent inspections.
    pub jobs: Option<usize>,
}

} // verus!
