//! Translation of textual log-level names into the library's level type.
//!
//! The process-wide logger itself (file handling, formatting) lives outside
//! the library; these functions only decide which threshold a configuration
//! string asks for.

use vstd::prelude::*;

verus! {

/// A logging threshold, ordered from most to least severe.
#[derive(Clone, Copy, Debug, PartialEq, Eq, Structural)]
pub enum LogLevel {
    /// Only errors.
    Error,
    /// Errors and warnings.
    Warn,
    /// Informational messages and above.
    Info,
    /// Debugging messages and above.
    Debug,
    /// Everything.
    Trace,
}

/// Compares two string slices by their character sequences.
fn str_eq(a: &str, b: &str) -> (r: bool)
    ensures
        r == (a@ == b@),
{
    a.to_owned() == b.to_owned()
}

/// The level that a plugin configuration string selects: an exact,
/// case-sensitive match on the five level names, anything else falling back
/// to `Error`.
pub open spec fn spec_log_level(s: Seq<char>) -> LogLevel {
    if s == "error"@ {
        LogLevel::Error
    } else if s == "warn"@ {
        LogLevel::Warn
    } else if s == "info"@ {
        LogLevel::Info
    } else if s == "debug"@ {
        LogLevel::Debug
    } else if s == "trace"@ {
        LogLevel::Trace
    } else {
        LogLevel::Error
    }
}

/// Converts a plugin configuration's log-level string into a [`LogLevel`],
/// defaulting to `Error` for unrecognized text.
pub fn get_log_level(config_str: &str) -> (r: LogLevel)
    ensures
        r == spec_log_level(config_str@),
{
    if str_eq(config_str, "error") {
        LogLevel::Error
    } else if str_eq(config_str, "warn") {
        LogLevel::Warn
    } else if str_eq(config_str, "info") {
        LogLevel::Info
    } else if str_eq(config_str, "debug") {
        LogLevel::Debug
    } else if str_eq(config_str, "trace") {
        LogLevel::Trace
    } else {
        LogLevel::Error
    }
}

/// The level that the host's command line selects: an exact, case-sensitive
/// match, anything else falling back to `Info`.
pub open spec fn spec_logger_filter(s: Seq<char>) -> LogLevel {
    if s == "debug"@ {
        LogLevel::Debug
    } else if s == "error"@ {
        LogLevel::Error
    } else if s == "warn"@ {
        LogLevel::Warn
    } else if s == "trace"@ {
        LogLevel::Trace
    } else {
        LogLevel::Info
    }
}

/// Converts the host command line's log-level string into a [`LogLevel`],
/// defaulting to `Info` for unrecognized text.
pub fn get_logger_filter(log_level: &str) -> (r: LogLevel)
    ensures
        r == spec_logger_filter(log_level@),
{
    if str_eq(log_level, "debug") {
        LogLevel::Debug
    } else if str_eq(log_level, "error") {
        LogLevel::Error
    } else if str_eq(log_level, "warn") {
        LogLevel::Warn
    } else if str_eq(log_level, "trace") {
        LogLevel::Trace
    } else {
        LogLevel::Info
    }
}

} // verus!
