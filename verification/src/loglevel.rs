//! Log levels and the rule that decides whether a message at a given level
//! is emitted under a configured level.

use vstd::prelude::*;

verus! {

use vstd::string::StringExecFns;
use crate::strutil::{str_eq, string_copy};

/// Severity of a log line. `Error` is the most severe and always emitted;
/// `Debug` is the least severe.
#[derive(Clone, Copy, Debug, PartialEq, Eq, PartialOrd, Ord, Hash, Structural)]
pub enum LogLevel {
    Error,
    Info,
    Debug,
}

impl LogLevel {
    /// Rank of a level: 0 for `Error`, 1 for `Info`, 2 for `Debug`.
    /// A message is emitted when its rank is at most the configured rank.
    pub open spec fn rank(self) -> int {
        match self {
            LogLevel::Error => 0,
            LogLevel::Info => 1,
            LogLevel::Debug => 2,
        }
    }

    /// The textual form of a level, as it appears in configuration.
    pub open spec fn spec_name(self) -> Seq<char> {
        match self {
            LogLevel::Error => "error"@,
            LogLevel::Info => "info"@,
            LogLevel::Debug => "debug"@,
        }
    }

    /// Parses a configuration value into a level. Exactly the strings
    /// `error`, `info` and `debug` are accepted.
    pub fn parse(value: &str) -> (r: Result<LogLevel, crate::loglevel::LogLevelError>)
        ensures
            r matches Ok(l) ==> value@ == l.spec_name(),
            r is Err ==> (forall|l: LogLevel| value@ != l.spec_name()),
            r matches Err(e) ==> e.value@ == value@,
    {
        proof {
            reveal_strlit("error");
            reveal_strlit("info");
            reveal_strlit("debug");
        }
        if str_eq(value, "error") {
            Ok(LogLevel::Error)
        } else if str_eq(value, "info") {
            Ok(LogLevel::Info)
        } else if str_eq(value, "debug") {
            Ok(LogLevel::Debug)
        } else {
            assert forall|l: LogLevel| value@ != l.spec_name() by {
                match l {
                    LogLevel::Error => assert(value@ != "error"@),
                    LogLevel::Info => assert(value@ != "info"@),
                    LogLevel::Debug => assert(value@ != "debug"@),
                }
            }
            Err(LogLevelError { value: string_copy(value) })
        }
    }

    /// The textual form of a level.
    pub fn as_str(self) -> (r: &'static str)
        ensures
            r@ == self.spec_name(),
    {
        match self {
            LogLevel::Error => "error",
            LogLevel::Info => "info",
            LogLevel::Debug => "debug",
        }
    }
}

/// A rejected log-level string, kept for the error message.
#[derive(Debug)]
pub struct LogLevelError {
    pub value: String,
}

impl LogLevelError {
    /// Message of the error, naming the offending value.
    pub fn message(&self) -> (r: String)
        ensures
            r@ == "invalid log_level value: "@ + self.value@ + " (expected: error|info|debug)"@,
    {
        let mut m = String::new();
        m.append("invalid log_level value: ");
        m.append(self.value.as_str());
        m.append(" (expected: error|info|debug)");
        m
    }
}

/// A message at level `level` is emitted iff its rank does not exceed the
/// configured rank: `Error` lines always appear, `Debug` lines only under a
/// `Debug` configuration.
pub fn enabled(level: LogLevel, configured: LogLevel) -> (r: bool)
    ensures
        r == (level.rank() <= configured.rank()),
{
    let l = match level {
        LogLevel::Error => 0u8,
        LogLevel::Info => 1u8,
        LogLevel::Debug => 2u8,
    };
    let c = match configured {
        LogLevel::Error => 0u8,
        LogLevel::Info => 1u8,
        LogLevel::Debug => 2u8,
    };
    l <= c
}

} // verus!
