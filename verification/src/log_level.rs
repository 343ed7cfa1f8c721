//! The logging verbosity level and its textual form.

use vstd::prelude::*;

use crate::text::{eq_ignore_case, str_eq_ic};

verus! {

/// Minimum level of messages that will be logged: 0 = error up to
/// 4 = trace; 5 means logging is off.
#[derive(Debug, Clone, Copy, PartialEq, Eq, Structural)]
pub struct LogLevel {
    pub level: usize,
}

/// The level denoted by a name, ASCII case-insensitive.
pub open spec fn log_level_of(s: Seq<char>) -> Option<usize> {
    if str_eq_ic(s, "error"@) {
        Some(0usize)
    } else if str_eq_ic(s, "warn"@) {
        Some(1usize)
    } else if str_eq_ic(s, "info"@) {
        Some(2usize)
    } else if str_eq_ic(s, "debug"@) {
        Some(3usize)
    } else if str_eq_ic(s, "trace"@) {
        Some(4usize)
    } else if str_eq_ic(s, "none"@) {
        Some(5usize)
    } else {
        None
    }
}

impl LogLevel {
    /// Parse a level name (error, warn, info, debug, trace, none),
    /// ignoring ASCII letter case.
    pub fn from_str(s: &str) -> (r: Option<LogLevel>)
        ensures
            match r {
                Some(l) => log_level_of(s@) == Some(l.level),
                None => log_level_of(s@) is None,
            },
    {
        if eq_ignore_case(s, "error") {
            Some(LogLevel { level: 0 })
        } else if eq_ignore_case(s, "warn") {
            Some(LogLevel { level: 1 })
        } else if eq_ignore_case(s, "info") {
            Some(LogLevel { level: 2 })
        } else if eq_ignore_case(s, "debug") {
            Some(LogLevel { level: 3 })
        } else if eq_ignore_case(s, "trace") {
            Some(LogLevel { level: 4 })
        } else if eq_ignore_case(s, "none") {
            Some(LogLevel { level: 5 })
        } else {
            None
        }
    }

    /// Whether logging is switched off entirely.
    pub fn is_none(&self) -> (r: bool)
        ensures
            r == (self.level > 4),
    {
        self.level > 4
    }

    /// The verbosity handed to the logger: the level itself, or zero when
    /// logging is off.
    pub fn get_level(&self) -> (r: usize)
        ensures
            self.level > 4 ==> r == 0,
            self.level <= 4 ==> r == self.level,
    {
        if self.level > 4 {
            0
        } else {
            self.level
        }
    }

    /// The level's name, for display.
    pub fn name(&self) -> (r: &'static str)
        ensures
            self.level == 0 ==> r@ == "error"@,
            self.level == 1 ==> r@ == "warn"@,
            self.level == 2 ==> r@ == "info"@,
            self.level == 3 ==> r@ == "debug"@,
            self.level == 4 ==> r@ == "trace"@,
            self.level == 5 ==> r@ == "none"@,
            self.level > 5 ==> r@ == "unknown"@,
    {
        match self.level {
            0 => "error",
            1 => "warn",
            2 => "info",
            3 => "debug",
            4 => "trace",
            5 => "none",
            _ => "unknown",
        }
    }
}

} // verus!
