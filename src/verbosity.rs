//! How many `-v` flags on the command line choose the log level.
use vstd::prelude::*;

verus! {

/// The levels of the router's log, from the quietest.
#[derive(Clone, Copy, Debug, PartialEq, Eq, Structural)]
pub enum LogLevel {
    Error,
    Warning,
    Info,
    Debug,
    Trace,
}

/// The log level for `verbose` repetitions of `-v`: none logs errors only,
/// four or more log everything.
pub fn log_level(verbose: u64) -> (r: LogLevel)
    ensures
        verbose == 0 ==> r == LogLevel::Error,
        verbose == 1 ==> r == LogLevel::Warning,
        verbose == 2 ==> r == LogLevel::Info,
        verbose == 3 ==> r == LogLevel::Debug,
        verbose >= 4 ==> r == LogLevel::Trace,
{
    match verbose {
        0 => LogLevel::Error,
        1 => LogLevel::Warning,
        2 => LogLevel::Info,
        3 => LogLevel::Debug,
        _ => LogLevel::Trace,
    }
}

} // verus!
