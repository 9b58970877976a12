//! Command-line settings that the library decides.
use vstd::prelude::*;

verus! {

/// How much the process logs.
#[derive(Debug, Clone, Copy, PartialEq, Eq, Structural)]
pub enum LogLevel {
    Off,
    Error,
    Warn,
    Info,
    Debug,
    Trace,
}

/// The log level for the `--silence` flag and the count of `-v` flags:
/// nothing when silenced; errors up to one `-v`, then one level more for
/// each further `-v`, up to trace.
pub fn log_level(silence: bool, verbose: u8) -> (r: LogLevel)
    ensures
        silence ==> r == LogLevel::Off,
        !silence && verbose <= 1 ==> r == LogLevel::Error,
        !silence && verbose == 2 ==> r == LogLevel::Warn,
        !silence && verbose == 3 ==> r == LogLevel::Info,
        !silence && verbose == 4 ==> r == LogLevel::Debug,
        !silence && verbose >= 5 ==> r == LogLevel::Trace,
{
    if silence {
        LogLevel::Off
    } else if verbose <= 1 {
        LogLevel::Error
    } else if verbose == 2 {
        LogLevel::Warn
    } else if verbose == 3 {
        LogLevel::Info
    } else if verbose == 4 {
        LogLevel::Debug
    } else {
        LogLevel::Trace
    }
}

} // verus!
