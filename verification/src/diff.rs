//! Structured differences between two states of a file.
use vstd::prelude::*;

verus! {

/// The difference that one change made to a file.
#[derive(Debug, PartialEq, Eq)]
pub struct DiffSummary {
    /// Number of added lines over all hunks.
    pub added: u32,
    /// Number of removed lines over all hunks.
    pub removed: u32,
    /// Empty where the file is unchanged.
    pub hunks: Vec<DiffHunk>,
}

/// A contiguous changed region with the lines around it.
#[derive(Debug, PartialEq, Eq)]
pub struct DiffHunk {
    pub old_start: u32,
    pub old_count: u32,
    pub new_start: u32,
    pub new_count: u32,
    pub lines: Vec<DiffLine>,
}

/// One line of a hunk.
#[derive(Debug, PartialEq, Eq)]
pub enum DiffLine {
    Equal { text: String },
    Remove { text: String },
    Add { text: String },
    /// One removed line paired with one added line, in slices.
    Modify { old: Vec<DiffSegment>, new: Vec<DiffSegment> },
}

/// One slice of a modified line.
#[derive(Debug, PartialEq, Eq)]
pub enum DiffSegment {
    Equal { text: String },
    Remove { text: String },
    Add { text: String },
}

impl Default for DiffSummary {
    fn default() -> (r: DiffSummary)
        ensures
            r.added == 0,
            r.removed == 0,
            r.hunks@.len() == 0,
    {
        DiffSummary { added: 0, removed: 0, hunks: Vec::new() }
    }
}

} // verus!
