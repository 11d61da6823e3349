use vstd::prelude::*;

verus! {

/// Name of the log file written next to the working directory when the
/// configuration names no log path.
pub const LOG_FILE_NAME: &'static str = "files-backup-log.txt";

/// Upper bound on the number of copying worker threads.
pub const THREAD_POOL_LIMIT: usize = 4;

/// The share of the machine's threads given to the worker pool, as the
/// fraction `THREAD_POOL_SHARE_NUMERATOR / THREAD_POOL_SHARE_DENOMINATOR`
/// (one quarter).
pub const THREAD_POOL_SHARE_NUMERATOR: usize = 1;

/// See [`THREAD_POOL_SHARE_NUMERATOR`].
pub const THREAD_POOL_SHARE_DENOMINATOR: usize = 4;

/// Suffix appended to a directory source's name to form the staging
/// directory that receives the new copy before it replaces the old one.
pub const STAGING_SUFFIX: &'static str = ".backup";

} // verus!
