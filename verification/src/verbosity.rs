//! How much the program tells of what it does.

use vstd::prelude::*;

verus! {

/// The least severe kind of message that is shown.
#[derive(Clone, Copy, Debug, PartialEq, Eq, Structural)]
pub enum LogLevel {
    Error,
    Warn,
    Info,
    Debug,
    Trace,
}

/// The level for `verbose` requests to tell more and `quiet` requests to
/// tell less: each request moves the level by one step from `Info`, as far
/// as there are levels.
pub open spec fn spec_log_level(verbose: u8, quiet: u8) -> LogLevel {
    let verbosity = verbose - quiet;
    if verbosity <= -2 {
        LogLevel::Error
    } else if verbosity == -1 {
        LogLevel::Warn
    } else if verbosity == 0 {
        LogLevel::Info
    } else if verbosity == 1 {
        LogLevel::Debug
    } else {
        LogLevel::Trace
    }
}

/// The level for `verbose` requests to tell more and `quiet` requests to tell less.
pub fn log_level(verbose: u8, quiet: u8) -> (level: LogLevel)
    ensures
        level == spec_log_level(verbose, quiet),
{
    let verbosity: i16 = verbose as i16 - quiet as i16;
    if verbosity <= -2 {
        LogLevel::Error
    } else if verbosity == -1 {
        LogLevel::Warn
    } else if verbosity == 0 {
        LogLevel::Info
    } else if verbosity == 1 {
        LogLevel::Debug
    } else {
        LogLevel::Trace
    }
}

} // verus!
