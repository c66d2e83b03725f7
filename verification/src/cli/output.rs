//! Output formats and the records that listings print.

use vstd::prelude::*;

verus! {

/// Output format for command results.
#[derive(Debug, Clone, Copy, PartialEq, Eq, Structural)]
pub enum OutputFormat {
    /// Human-readable output (the default).
    Human,
    /// JSON output for programs.
    Json,
    /// Plain file paths, one per line.
    Paths,
}

impl Default for OutputFormat {
    fn default() -> (r: OutputFormat)
        ensures
            r == OutputFormat::Human,
    {
        OutputFormat::Human
    }
}

/// A note in a listing.
#[derive(Debug)]
pub struct NoteListing {
    pub id: String,
    pub title: String,
    pub path: String,
}

/// A topic, with the number of notes when counts were asked for.
#[derive(Debug)]
pub struct TopicListing {
    pub path: String,
    pub count: Option<usize>,
}

/// A tag, with the number of notes when counts were asked for.
#[derive(Debug)]
pub struct TagListing {
    pub name: String,
    pub count: Option<usize>,
}

/// A relationship type, with the number of links when counts were asked for.
#[derive(Debug)]
pub struct RelListing {
    pub name: String,
    pub count: Option<usize>,
}

} // verus!
