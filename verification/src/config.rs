//! The run's configuration record and the choice of a logging threshold.

use vstd::prelude::*;

verus! {

/// Port that is observed when none is given.
pub const DEFAULT_PORT: usize = 514;

/// Length of a run in seconds when none is given.
pub const DEFAULT_INTERVAL: u64 = 10;

/// Seconds between periodic reports when none are given.
pub const DEFAULT_FREQUENCY: u64 = 5;

/// Settings of one capture run.
#[derive(Debug, Clone)]
pub struct Config {
    /// UDP port whose traffic is observed.
    pub port: usize,
    /// Name of the network interface to listen on.
    pub interface: String,
    /// Whether diagnostic logging was asked for.
    pub debug: bool,
    /// Total length of the run, in seconds.
    pub interval: u64,
    /// Whether reports are also emitted while the run goes on.
    pub periodic: bool,
    /// Seconds between two periodic reports; read only when `periodic` is set.
    pub frequency: u64,
}

/// A logging threshold.
#[derive(Debug, Clone, Copy, PartialEq, Eq, Structural)]
pub enum LevelFilter {
    /// Nothing is logged.
    Off,
    /// Errors only.
    Error,
    /// Warnings and above.
    Warn,
    /// Informational messages and above.
    Info,
    /// Diagnostic messages and above.
    Debug,
    /// Everything.
    Trace,
}

/// The threshold that the flags force, if they force one.
pub open spec fn log_level_for(debug: bool, env_rust_log_is_set: bool) -> Option<LevelFilter> {
    if debug {
        Some(LevelFilter::Debug)
    } else if !env_rust_log_is_set {
        Some(LevelFilter::Error)
    } else {
        None
    }
}

/// Chooses the logging threshold: the debug flag forces `Debug`; without it
/// and without a threshold from the environment only errors are logged; a
/// threshold from the environment is otherwise left in charge (`None`).
pub fn determine_log_level(debug: bool, env_rust_log_is_set: bool) -> (level: Option<LevelFilter>)
    ensures
        level == log_level_for(debug, env_rust_log_is_set),
{
    if debug {
        Some(LevelFilter::Debug)
    } else if !env_rust_log_is_set {
        Some(LevelFilter::Error)
    } else {
        None
    }
}

} // verus!
