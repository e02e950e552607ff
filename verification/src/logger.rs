//! The stderr logger's rule: warnings always print; informational and debug
//! messages print only in verbose mode, each behind the word for its level.
//! Printing the line is the caller's, on stderr, so stdout stays reserved for
//! machine-readable output.

use vstd::prelude::*;

verus! {

/// How loud a message is.
#[derive(Debug, Clone, Copy, PartialEq, Eq, Structural)]
pub enum Level {
    Warn,
    Info,
    Debug,
}

pub struct Logger {
    verbose: bool,
}

/// The word a level's lines start with.
pub open spec fn level_word(level: Level) -> Seq<char> {
    match level {
        Level::Warn => "warn: "@,
        Level::Info => "info: "@,
        Level::Debug => "debug: "@,
    }
}

impl Logger {
    /// Whether informational and debug messages print.
    pub closed spec fn is_verbose(&self) -> bool {
        self.verbose
    }

    pub fn new(verbose: bool) -> (r: Self)
        ensures
            r.is_verbose() == verbose,
    {
        Logger { verbose }
    }

    /// The line a message is printed as on stderr, or `None` where its level
    /// is not shown: a warning always is, the others only when verbose.
    pub fn line(&self, level: Level, msg: &str) -> (r: Option<String>)
        ensures
            match r {
                Some(l) => (level == Level::Warn || self.is_verbose()) && l@ == level_word(level) + msg@,
                None => level != Level::Warn && !self.is_verbose(),
            },
    {
        let word = match level {
            Level::Warn => "warn: ",
            Level::Info => {
                if !self.verbose {
                    return None;
                }
                "info: "
            },
            Level::Debug => {
                if !self.verbose {
                    return None;
                }
                "debug: "
            },
        };
        let mut out = String::from_str(word);
        out.append(msg);
        Some(out)
    }
}

} // verus!
