//! Log destinations with time-bucketed file rotation, and a retention policy
//! that keeps only the most recent log files of a directory.
//!
//! The verified core decides which files a cleanup pass deletes
//! ([`retention`]) and what a periodic cleanup task does next
//! ([`scheduler`]). Listing the directory, reading timestamps, deleting files
//! and sleeping are left to the caller.

use vstd::prelude::*;

pub mod retention;
pub mod scheduler;
pub mod speak_easy;

verus! {

/// How often the rotating file writer starts a new log file.
#[derive(Clone, Copy, Debug, PartialEq, Eq, Structural)]
pub enum Rotation {
    Minutely,
    Hourly,
    Daily,
    Never,
}

/// Cleanup interval used unless `with_cleanup` sets another: one day, in seconds.
pub const DEFAULT_CLEANUP_INTERVAL: u64 = 86400;

/// Number of most recent log files kept unless `with_cleanup` sets another.
pub const DEFAULT_KEEP_LAST: usize = 5;

/// Configuration of the file destination and of its retention.
#[derive(Clone, Debug)]
pub struct SpeakConfig {
    pub interval: Rotation,
    pub directory_path: String,
    pub prefix: String,
    pub cleanup: bool,
    pub cleanup_interval: u64,
    pub keep_last: usize,
}

impl Default for SpeakConfig {
    /// No rotation, files `log*` under `./logs`, cleanup off.
    fn default() -> (r: Self)
        ensures
            r.interval == Rotation::Never,
            r.directory_path@ == "./logs"@,
            r.prefix@ == "log"@,
            !r.cleanup,
            r.cleanup_interval == DEFAULT_CLEANUP_INTERVAL,
            r.keep_last == DEFAULT_KEEP_LAST,
    {
        SpeakConfig {
            interval: Rotation::Never,
            directory_path: "./logs".to_owned(),
            prefix: "log".to_owned(),
            cleanup: false,
            cleanup_interval: DEFAULT_CLEANUP_INTERVAL,
            keep_last: DEFAULT_KEEP_LAST,
        }
    }
}

impl SpeakConfig {
    /// A configuration writing files named `prefix*` into `directory_path`,
    /// rotated at `interval`, with cleanup off and the default retention
    /// parameters.
    pub fn new(interval: Rotation, directory_path: String, prefix: String) -> (r: Self)
        ensures
            r.interval == interval,
            r.directory_path == directory_path,
            r.prefix == prefix,
            !r.cleanup,
            r.cleanup_interval == DEFAULT_CLEANUP_INTERVAL,
            r.keep_last == DEFAULT_KEEP_LAST,
    {
        SpeakConfig {
            interval,
            directory_path,
            prefix,
            cleanup: false,
            cleanup_interval: DEFAULT_CLEANUP_INTERVAL,
            keep_last: DEFAULT_KEEP_LAST,
        }
    }

    /// Turns cleanup on: every `cleanup_interval` seconds, all files but the
    /// `keep_last` most recent ones are deleted.
    pub fn with_cleanup(self, cleanup_interval: u64, keep_last: usize) -> (r: Self)
        ensures
            r.interval == self.interval,
            r.directory_path == self.directory_path,
            r.prefix == self.prefix,
            r.cleanup,
            r.cleanup_interval == cleanup_interval,
            r.keep_last == keep_last,
    {
        let mut c = self;
        c.cleanup = true;
        c.cleanup_interval = cleanup_interval;
        c.keep_last = keep_last;
        c
    }
}

} // verus!
