//! The errors that stop a run before any job starts.

use vstd::prelude::*;

verus! {

/// A setting with which no run can start.
#[derive(Clone, Copy, Debug, PartialEq, Eq, Structural)]
pub enum ConfigError {
    /// The number of jobs that may run at once is zero.
    ZeroParallel,
    /// The filter pattern at this position is not a valid regular expression.
    InvalidFilter { index: usize },
}

/// A list of URLs that cannot be read as one.
#[derive(Clone, Copy, Debug, PartialEq, Eq, Structural)]
pub enum ListError {
    /// A line of a list is neither empty, a comment nor an absolute URL.
    /// `list` counts the lists and `line` the lines of that list, both from
    /// zero.
    MalformedUrl { list: usize, line: usize },
}

} // verus!
