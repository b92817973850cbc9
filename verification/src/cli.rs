//! Command-line option data and validation.
//!
//! The option set is plain data here; reading it from the command line
//! and checking that paths exist are the caller's work. Validation of
//! the options against each other is specified exactly.

use vstd::prelude::*;
use vstd::string::StringExecFns;
use crate::text::{to_lower, lower_eq};

verus! {

/// The options of one run.
#[derive(Debug)]
pub struct Cli {
    /// Paths to analyze.
    pub paths: Vec<String>,
    /// Include hidden files and directories.
    pub hidden: bool,
    /// Verbose output.
    pub verbose: bool,
    /// Analyze commit history.
    pub history: bool,
    /// Only analyze commits since this date.
    pub since: Option<String>,
    /// Only analyze commits until this date.
    pub until: Option<String>,
    /// Only analyze commits from the last N days.
    pub last: Option<usize>,
    /// Group history by day (default).
    pub by_day: bool,
    /// Group history by week.
    pub by_week: bool,
    /// Filter commits by author name.
    pub author: Option<String>,
    /// Output format (table, json, or csv).
    pub format: String,
    /// Number of parallel jobs (0 = number of CPUs).
    pub jobs: usize,
    /// Disable colored output.
    pub no_color: bool,
}

/// A history-only flag is set although history mode is not.
pub open spec fn history_flags_without_history(c: Cli) -> bool {
    !c.history && (c.since is Some || c.until is Some || c.last is Some || c.by_day || c.by_week
        || c.author is Some)
}

/// The format name is one of the supported three, in any case.
pub open spec fn format_ok(f: Seq<char>) -> bool {
    to_lower(f) == "table"@ || to_lower(f) == "json"@ || to_lower(f) == "csv"@
}

/// The outcome validation owes: no message for consistent options, and
/// for inconsistent ones the first applicable message, in the order the
/// checks are made.
pub open spec fn validate_spec(c: Cli) -> Option<Seq<char>> {
    if c.by_day && c.by_week {
        Some("Cannot use both --by-day and --by-week"@)
    } else if history_flags_without_history(c) {
        Some(
            "History-related flags (--since, --until, --last, --by-day, --by-week, --author) require --history"@,
        )
    } else if !format_ok(c.format@) {
        Some("Invalid format '"@ + c.format@ + "'. Supported formats: table, json, csv"@)
    } else {
        None
    }
}

impl Cli {
    /// Validate the parsed options against each other.
    ///
    /// That each path exists is for the caller to check before this,
    /// as it takes the file system.
    pub fn validate(&self) -> (r: Result<(), String>)
        ensures
            match r {
                Ok(_) => validate_spec(*self) is None,
                Err(m) => validate_spec(*self) == Some(m@),
            },
    {
        // Validate that --by-day and --by-week are mutually exclusive
        if self.by_day && self.by_week {
            return Err(String::from_str("Cannot use both --by-day and --by-week"));
        }
        // Validate that history-related flags require --history
        if !self.history && (self.since.is_some() || self.until.is_some() || self.last.is_some()
            || self.by_day || self.by_week || self.author.is_some()) {
            return Err(
                String::from_str(
                    "History-related flags (--since, --until, --last, --by-day, --by-week, --author) require --history",
                ),
            );
        }
        // Validate format
        if !(lower_eq(self.format.as_str(), "table") || lower_eq(self.format.as_str(), "json")
            || lower_eq(self.format.as_str(), "csv")) {
            let mut m = String::from_str("Invalid format '");
            m.append(self.format.as_str());
            m.append("'. Supported formats: table, json, csv");
            return Err(m);
        }
        Ok(())
    }
}

} // verus!
