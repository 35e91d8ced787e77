//! The logging policy: which messages the server emits and how a log line
//! is laid out. Registering the process-wide logger is transport-side
//! plumbing; the policy and the line format are decided — and checked —
//! here.

use vstd::prelude::*;

verus! {

/// A message severity, most severe first.
#[derive(Clone, Copy, PartialEq, Eq, Structural, Debug)]
pub enum LogLevel {
    Error,
    Warn,
    Info,
    Debug,
    Trace,
}

/// The rank of a severity: lower is more severe.
pub open spec fn level_rank(l: LogLevel) -> int {
    match l {
        LogLevel::Error => 1,
        LogLevel::Warn => 2,
        LogLevel::Info => 3,
        LogLevel::Debug => 4,
        LogLevel::Trace => 5,
    }
}

/// The display name of a severity.
pub open spec fn level_name_spec(l: LogLevel) -> Seq<char> {
    match l {
        LogLevel::Error => "ERROR"@,
        LogLevel::Warn => "WARN"@,
        LogLevel::Info => "INFO"@,
        LogLevel::Debug => "DEBUG"@,
        LogLevel::Trace => "TRACE"@,
    }
}

/// The logging configuration the server runs with.
pub struct LoggerConfig {
    pub max_level: LogLevel,
}

/// The policy the server starts with: informational messages and above.
pub fn init() -> (c: LoggerConfig)
    ensures
        c.max_level == LogLevel::Info,
{
    LoggerConfig { max_level: LogLevel::Info }
}

/// Whether a message of severity `level` is emitted under `max`.
pub fn enabled(level: LogLevel, max: LogLevel) -> (r: bool)
    ensures
        r == (level_rank(level) <= level_rank(max)),
{
    let a: u32 = match level {
        LogLevel::Error => 1,
        LogLevel::Warn => 2,
        LogLevel::Info => 3,
        LogLevel::Debug => 4,
        LogLevel::Trace => 5,
    };
    let b: u32 = match max {
        LogLevel::Error => 1,
        LogLevel::Warn => 2,
        LogLevel::Info => 3,
        LogLevel::Debug => 4,
        LogLevel::Trace => 5,
    };
    a <= b
}

/// The display name of a severity.
pub fn level_name(l: LogLevel) -> (s: &'static str)
    ensures
        s@ == level_name_spec(l),
{
    match l {
        LogLevel::Error => "ERROR",
        LogLevel::Warn => "WARN",
        LogLevel::Info => "INFO",
        LogLevel::Debug => "DEBUG",
        LogLevel::Trace => "TRACE",
    }
}

/// Lays out one log line: timestamp, severity, bracketed module path and
/// the message, space-separated.
pub fn format_line(timestamp: &str, level: LogLevel, module: &str, msg: &str) -> (s: String)
    ensures
        s@ == timestamp@ + " "@ + level_name_spec(level) + " ["@ + module@ + "] "@ + msg@,
{
    let mut s = String::from_str(timestamp);
    s.append(" ");
    s.append(level_name(level));
    s.append(" [");
    s.append(module);
    s.append("] ");
    s.append(msg);
    s
}

} // verus!
