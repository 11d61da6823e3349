use vstd::prelude::*;

use crate::constants::{LOG_FILE_NAME, THREAD_POOL_LIMIT, THREAD_POOL_SHARE_DENOMINATOR, THREAD_POOL_SHARE_NUMERATOR};
use crate::errors::{ErrorView, FSErrors};
use crate::paths::{join, path_join};
use crate::pattern::{regex_compile_error, IgnorePattern};
use crate::structs::{BackupConfig, CliConfig};

verus! {

/// How many workers a machine with `available` threads gets: the
/// available threads divided by the pool's share of them (rounded down),
/// at most `THREAD_POOL_LIMIT`.
pub open spec fn pool_size(available: int) -> int {
    let scaled = available * (THREAD_POOL_SHARE_DENOMINATOR as int) / (THREAD_POOL_SHARE_NUMERATOR as int);
    if scaled < THREAD_POOL_LIMIT { scaled } else { THREAD_POOL_LIMIT as int }
}

/// The number of copying workers for a machine with `available` threads.
pub fn get_thread_pool_size(available: usize) -> (size: usize)
    ensures
        size == pool_size(available as int),
{
    if available >= THREAD_POOL_LIMIT {
        // `available / share` is at least `available`, so at least the limit.
        return THREAD_POOL_LIMIT;
    }
    let scaled = available * THREAD_POOL_SHARE_DENOMINATOR / THREAD_POOL_SHARE_NUMERATOR;
    if scaled < THREAD_POOL_LIMIT {
        scaled
    } else {
        THREAD_POOL_LIMIT
    }
}

/// The log path of a run: the configured one, or the log file name joined to
/// the working directory.
pub open spec fn log_path_of(log: Option<Seq<char>>, current_dir: Seq<char>) -> Seq<char> {
    match log {
        Some(path) => path,
        None => path_join(current_dir, LOG_FILE_NAME@),
    }
}

/// The error reported for an ignore pattern that does not compile.
pub open spec fn regex_error(message: Seq<char>) -> ErrorView {
    ErrorView::OtherError("Failed parsing regex: "@ + message)
}

/// Settles the run's configuration from the configuration file's contents
/// and the working directory (the directory the default log file goes in).
/// Fails exactly when the ignore pattern does not compile.
pub fn get_backup_config(config: CliConfig, current_dir: String) -> (result: Result<BackupConfig, FSErrors>)
    ensures
        match result {
            Ok(c) => {
                &&& c.source@ == config.source@
                &&& c.target@ == config.target@
                &&& c.log_path@ == log_path_of(match config.log {
                    Some(l) => Some(l@),
                    None => None,
                }, current_dir@)
                &&& match config.ignore {
                    Some(pattern) => regex_compile_error(pattern@) is None
                        && (c.ignore matches Some(p) && p@ == pattern@),
                    None => c.ignore is None,
                }
            },
            Err(e) => config.ignore matches Some(pattern)
                && (regex_compile_error(pattern@) matches Some(message) && e@ == regex_error(message)),
        },
{
    let CliConfig { ignore, source, target, log } = config;
    let log_path = match log {
        Some(path) => path,
        None => join(current_dir.as_str(), LOG_FILE_NAME),
    };
    let ignore = match ignore {
        Some(pattern) => match IgnorePattern::new(pattern) {
            Ok(p) => Some(p),
            Err(message) => {
                let mut text = String::from_str("Failed parsing regex: ");
                text.append(message.as_str());
                return Err(FSErrors::OtherError(text));
            },
        },
        None => None,
    };
    Ok(BackupConfig { ignore, source, target, log_path })
}

} // verus!
