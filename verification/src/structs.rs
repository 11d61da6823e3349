use vstd::prelude::*;

use crate::pattern::IgnorePattern;

verus! {

/// The command line: the path of the configuration file.
pub struct CliArgs {
    pub config: String,
}

/// The configuration file's contents.
pub struct CliConfig {
    /// A regular expression; matching paths are not backed up.
    pub ignore: Option<String>,
    /// The paths to back up.
    pub source: Vec<String>,
    /// The directory the backup goes into.
    pub target: String,
    /// The log file; by default `files-backup-log.txt` in the working
    /// directory.
    pub log: Option<String>,
}

/// A configuration ready for a run: the ignore pattern compiled and the log
/// path settled.
pub struct BackupConfig {
    pub ignore: Option<IgnorePattern>,
    pub source: Vec<String>,
    pub target: String,
    pub log_path: String,
}

} // verus!
