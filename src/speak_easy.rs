//! The entry point that wires log destinations together.
//!
//! Installing the destinations is done outside the library; what the library
//! decides is whether a retention task is started, and on what.
use vstd::prelude::*;

use crate::scheduler::CleanupTask;
use crate::SpeakConfig;

verus! {

/// The logging system's entry point.
#[derive(Debug)]
pub struct SpeakEasy {}

impl SpeakEasy {
    /// The retention task that initialising with `config` starts: one over
    /// the configured directory, prefix, interval and count when a file
    /// destination is configured with cleanup on, none otherwise.
    pub fn cleanup_task(config: &Option<SpeakConfig>) -> (r: Option<CleanupTask>)
        ensures
            r is Some <==> (config is Some && config->0.cleanup),
            r is Some ==> ({
                let c = config->0;
                let t = r->0;
                &&& t.directory_path == c.directory_path
                &&& t.prefix == c.prefix
                &&& t.interval_secs == c.cleanup_interval
                &&& t.keep_last == c.keep_last
            }),
    {
        match config {
            Some(c) => {
                if c.cleanup {
                    Some(
                        CleanupTask {
                            directory_path: c.directory_path.clone(),
                            prefix: c.prefix.clone(),
                            interval_secs: c.cleanup_interval,
                            keep_last: c.keep_last,
                        },
                    )
                } else {
                    None
                }
            },
            None => None,
        }
    }
}

} // verus!
