//! The command line: global options, commands and their arguments.

use vstd::prelude::*;
use crate::cli::output::OutputFormat;
use crate::cli::export::ExportArgs;
use crate::cli::mv::MvArgs;
use crate::cli::prime::PrimeArgs;
use crate::cli::tagging::{ArchiveArgs, UnarchiveArgs};

verus! {

/// den: markdown notes with virtual folder organization.
#[derive(Debug)]
pub struct Cli {
    /// Notes directory (overrides the configuration file).
    pub dir: Option<String>,
    /// Verbosity (number of `-v`).
    pub verbose: u8,
    pub command: Command,
}

/// The commands.
#[derive(Debug)]
pub enum Command {
    /// Rebuild or update the index.
    Index(IndexArgs),
    /// List notes, optionally filtered by topic and tags.
    List(ListArgs),
    /// Full-text search across notes.
    Search(SearchArgs),
    /// Create a new note.
    New(NewArgs),
    /// Show a note's contents.
    Show(ShowArgs),
    /// Edit a note in the editor.
    Edit(EditArgs),
    /// List all topics.
    Topics(TopicsArgs),
    /// List all tags.
    Tags(TagsArgs),
    /// Add a tag to a note.
    Tag(TagArgs),
    /// Remove a tag from a note.
    Untag(UntagArgs),
    /// Check for issues (broken links, orphans, ...).
    Check(CheckArgs),
    /// Show the notes that link to a note.
    Backlinks(BacklinksArgs),
    /// Create a link between notes.
    Link(LinkArgs),
    /// Remove a link between notes.
    Unlink(UnlinkArgs),
    /// List the relationship types used in links.
    Rels(RelsArgs),
    /// Rename a note or change its topics.
    Mv(MvArgs),
    /// Archive a note (tag it `archived`).
    Archive(ArchiveArgs),
    /// Unarchive a note.
    Unarchive(UnarchiveArgs),
    /// Export notes to HTML or a static site.
    Export(ExportArgs),
    /// List the configured vaults.
    Vaults(VaultsArgs),
    /// Print a primer on the notes system.
    Prime(PrimeArgs),
    /// Completion candidates for a note reference.
    CompleteNotes(CompleteNotesArgs),
}

/// Arguments of `complete-notes`.
#[derive(Debug)]
pub struct CompleteNotesArgs {
    /// What has been typed so far.
    pub prefix: String,
    /// Most candidates to print.
    pub limit: usize,
}

/// Arguments of `vaults`.
#[derive(Debug)]
pub struct VaultsArgs {
    pub format: OutputFormat,
}

/// Arguments of `index`.
#[derive(Debug)]
pub struct IndexArgs {
    /// Full rebuild instead of an incremental update.
    pub full: bool,
}

/// Arguments of `ls`.
#[derive(Debug)]
pub struct ListArgs {
    /// Topic to filter by (a trailing `/` includes descendants).
    pub topic: Option<String>,
    /// Tags that every listed note carries.
    pub tags: Vec<String>,
    pub format: OutputFormat,
    /// Creation date filter (`YYYY-MM-DD` or `Nd`).
    pub created: Option<String>,
    /// Modification date filter (`YYYY-MM-DD` or `Nd`).
    pub modified: Option<String>,
    /// List archived notes too.
    pub include_archived: bool,
}

/// Arguments of `search`.
#[derive(Debug)]
pub struct SearchArgs {
    pub query: String,
    /// Topic to restrict to (a trailing `/` includes descendants).
    pub topic: Option<String>,
    /// Tags that every result carries.
    pub tags: Vec<String>,
    pub format: OutputFormat,
    /// Include archived notes.
    pub include_archived: bool,
}

/// Arguments of `new`.
#[derive(Debug)]
pub struct NewArgs {
    pub title: String,
    pub topics: Vec<String>,
    pub tags: Vec<String>,
    /// Short description.
    pub desc: Option<String>,
    /// Alternative names for the note.
    pub aliases: Vec<String>,
    /// Kind of note (`generic`, `book`, `paper`, `transcript`, `article`).
    pub kind: Option<String>,
    /// Subdirectory of the notes directory to create the note in.
    pub into: Option<String>,
    /// Create the `into` directory when it does not exist.
    pub mkdir: bool,
    /// File whose contents (frontmatter removed) become the body.
    pub file: Option<String>,
    /// Read the body from standard input.
    pub stdin: bool,
    /// Do not open the editor after creating the note.
    pub no_edit: bool,
    /// Output format.
    pub format: OutputFormat,
}

/// Arguments of `show`.
#[derive(Debug)]
pub struct ShowArgs {
    /// Note identifier or title.
    pub note: String,
}

/// Arguments of `edit`.
#[derive(Debug)]
pub struct EditArgs {
    /// Note identifier or title.
    pub note: String,
}

/// Arguments of `topics`.
#[derive(Debug)]
pub struct TopicsArgs {
    pub counts: bool,
    pub format: OutputFormat,
}

/// Arguments of `tags`.
#[derive(Debug)]
pub struct TagsArgs {
    pub counts: bool,
    pub format: OutputFormat,
}

/// Arguments of `tag` (add a tag to a note).
#[derive(Debug)]
pub struct TagArgs {
    pub note: String,
    pub tag: String,
}

/// Arguments of `untag` (remove a tag from a note).
#[derive(Debug)]
pub struct UntagArgs {
    pub note: String,
    pub tag: String,
}

/// Arguments of `check`.
#[derive(Debug)]
pub struct CheckArgs {
    /// Try to fix issues.
    pub fix: bool,
}

/// Arguments of `backlinks`.
#[derive(Debug)]
pub struct BacklinksArgs {
    pub note: String,
    /// Only links with this relationship type.
    pub rel: Option<String>,
    pub format: OutputFormat,
}

/// Arguments of `link`.
#[derive(Debug)]
pub struct LinkArgs {
    pub source: String,
    pub target: String,
    /// Relationship types (at least one).
    pub rels: Vec<String>,
    /// Context text for the link.
    pub note: Option<String>,
}

/// Arguments of `unlink`.
#[derive(Debug)]
pub struct UnlinkArgs {
    pub source: String,
    pub target: String,
}

/// Arguments of `rels`.
#[derive(Debug)]
pub struct RelsArgs {
    pub counts: bool,
    pub format: OutputFormat,
}

} // verus!
