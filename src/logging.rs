//! Logging settings: the level named by the environment and where log lines go.

use crate::chunk::{lower_of, lowercase};
use crate::error::ServerError;
use crate::text::{chars_of, str_eq, substring};
use vstd::prelude::*;

verus! {

/// A log level.
#[derive(Clone, Copy, Debug, PartialEq, Eq, Structural)]
pub enum LogLevel {
    Trace,
    Debug,
    Info,
    Warn,
    Error,
}

/// The level named by `name`, if it names one.
pub open spec fn level_named(name: Seq<char>) -> Option<LogLevel> {
    if name == "trace"@ {
        Some(LogLevel::Trace)
    } else if name == "debug"@ {
        Some(LogLevel::Debug)
    } else if name == "info"@ {
        Some(LogLevel::Info)
    } else if name == "warn"@ {
        Some(LogLevel::Warn)
    } else if name == "error"@ {
        Some(LogLevel::Error)
    } else {
        None
    }
}

/// The level named by `name`, if it names one.
pub fn parse_log_level(name: &str) -> (r: Option<LogLevel>)
    ensures
        r == level_named(name@),
{
    if str_eq(name, "trace") {
        Some(LogLevel::Trace)
    } else if str_eq(name, "debug") {
        Some(LogLevel::Debug)
    } else if str_eq(name, "info") {
        Some(LogLevel::Info)
    } else if str_eq(name, "warn") {
        Some(LogLevel::Warn)
    } else if str_eq(name, "error") {
        Some(LogLevel::Error)
    } else {
        None
    }
}

/// The level a log-level variable asks for: the level it names, `Info` when it is
/// unset or names none.
pub fn log_level_from_env(value: Option<&str>) -> (r: LogLevel)
    ensures
        value is None ==> r == LogLevel::Info,
        value matches Some(v) ==> r == match level_named(v@) {
            Some(l) => l,
            None => LogLevel::Info,
        },
{
    match value {
        Some(v) => match parse_log_level(v) {
            Some(l) => l,
            None => LogLevel::Info,
        },
        None => LogLevel::Info,
    }
}

/// The position of the first `=` in `s`, or `s.len()` when there is none.
pub open spec fn first_equals(s: Seq<char>, i: nat) -> nat
    decreases s.len() - i,
{
    if i >= s.len() {
        s.len()
    } else if s[i as int] == '=' {
        i
    } else {
        first_equals(s, i + 1)
    }
}

/// The level asked for by a `target=level` or `level` filter (compared in lower
/// case): `Info` when the filter is empty or names no level.
pub open spec fn filter_level(filter: Seq<char>) -> LogLevel {
    let s = lower_of(filter);
    let e = first_equals(s, 0);
    let name = if e < s.len() { s.subrange(e as int + 1, s.len() as int) } else { s };
    match level_named(name) {
        Some(l) => l,
        None => LogLevel::Info,
    }
}

/// The level asked for by a `target=level` or `level` log filter.
pub fn log_level_from_filter(filter: &str) -> (r: LogLevel)
    ensures
        r == filter_level(filter@),
{
    let s = lowercase(filter);
    let cs = chars_of(s.as_str());
    let mut i: usize = 0;
    while i < cs.len() && cs[i] != '='
        invariant
            cs@ == s@,
            i <= cs.len(),
            first_equals(cs@, 0) == first_equals(cs@, i as nat),
        decreases cs.len() - i,
    {
        i = i + 1;
    }
    let name = if i < cs.len() {
        substring(s.as_str(), i + 1, cs.len())
    } else {
        String::from_str(s.as_str())
    };
    match parse_log_level(name.as_str()) {
        Some(l) => l,
        None => LogLevel::Info,
    }
}

/// Where log lines go.
#[derive(Clone, Debug, PartialEq, Eq)]
pub enum LogTarget {
    /// The terminal.
    Stdout,
    /// A file at the given path.
    File(String),
    /// The terminal and a file at the given path.
    Both(String),
}

/// Where log lines go for destination `destination` and file path `file_path`.
pub fn log_target(destination: &str, file_path: Option<&str>) -> (r: Result<LogTarget, ServerError>)
    ensures
        destination@ == "stdout"@ ==> r == Ok::<LogTarget, ServerError>(LogTarget::Stdout),
        destination@ == "file"@ ==> match file_path {
            Some(p) => r matches Ok(LogTarget::File(q)) && q@ == p@,
            None => r matches Err(ServerError::Operation(m)) && m@ == "Missing log file path"@,
        },
        destination@ == "both"@ ==> match file_path {
            Some(p) => r matches Ok(LogTarget::Both(q)) && q@ == p@,
            None => r matches Err(ServerError::Operation(m)) && m@ == "Missing log file path"@,
        },
        destination@ != "stdout"@ && destination@ != "file"@ && destination@ != "both"@ ==> (r matches Err(
            ServerError::Operation(m),
        ) && m@ == "Invalid log destination: "@ + destination@ + ". Valid values are 'stdout', 'file', or 'both'"@),
{
    proof {
        reveal_strlit("stdout");
        reveal_strlit("file");
        reveal_strlit("both");
        assert("stdout"@.len() == 6 && "file"@.len() == 4 && "both"@.len() == 4);
        assert("file"@[0] != "both"@[0]);
    }
    if str_eq(destination, "stdout") {
        Ok(LogTarget::Stdout)
    } else if str_eq(destination, "file") || str_eq(destination, "both") {
        match file_path {
            Some(p) => if str_eq(destination, "file") {
                Ok(LogTarget::File(String::from_str(p)))
            } else {
                Ok(LogTarget::Both(String::from_str(p)))
            },
            None => Err(ServerError::Operation(String::from_str("Missing log file path"))),
        }
    } else {
        let mut m = String::from_str("Invalid log destination: ");
        m.append(destination);
        m.append(". Valid values are 'stdout', 'file', or 'both'");
        Err(ServerError::Operation(m))
    }
}

} // verus!
