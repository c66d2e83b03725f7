//! Showing and editing notes: which file, and the note after an edit.

use vstd::prelude::*;
use vstd::string::StringExecFns;
use crate::cli::args::{EditArgs, ShowArgs};
use crate::cli::index::{IndexedNote, NoteIndex};
use crate::cli::links::{clone_links, links_view};
use crate::cli::list::{index_db_path, path_join};
use crate::cli::resolve::{resolve_note, resolves_to, ResolveResult};
use crate::domain::note::{
    clone_tags, clone_topics, dedup_aliases_spec, dedup_first, description_spec, rebuild_note,
    Note, ParseNoteError,
};
use crate::domain::timestamp::Timestamp;
use crate::text::{trim};

verus! {

/// A note reference that does not designate exactly one note.
#[derive(Debug)]
pub enum NoteLookupError {
    /// Several notes match; they are listed to tell them apart.
    Ambiguous(Vec<IndexedNote>),
    /// No note matches the reference.
    NotFound(String),
}

impl NoteLookupError {
    /// `ambiguous note identifier`, or `note not found: '<reference>'`.
    pub fn to_string(&self) -> (r: String)
        ensures
            match self {
                NoteLookupError::Ambiguous(_) => r@ == "ambiguous note identifier"@,
                NoteLookupError::NotFound(q) => r@ == "note not found: '"@ + q@ + "'"@,
            },
    {
        match self {
            NoteLookupError::Ambiguous(_) => String::from_str("ambiguous note identifier"),
            NoteLookupError::NotFound(q) => {
                let mut s = String::from_str("note not found: '");
                s.append(q.as_str());
                s.append("'");
                s
            },
        }
    }
}

/// The one note `reference` designates, or why there is none.
pub fn resolve_unique(index: &NoteIndex, reference: &str) -> (r: Result<IndexedNote, NoteLookupError>)
    ensures
        exists|res: ResolveResult|
            resolves_to(index@, trim(reference@), res) && match res {
                ResolveResult::Unique(n) => r matches Ok(m) && m@ == n@,
                ResolveResult::Ambiguous(v) => r matches Err(NoteLookupError::Ambiguous(w))
                    && crate::cli::index::notes_view(w@) == crate::cli::index::notes_view(v@),
                ResolveResult::NotFound => r matches Err(NoteLookupError::NotFound(q)) && q@
                    == reference@,
            },
{
    let res = resolve_note(index, reference);
    let ghost g = res;
    match res {
        ResolveResult::Unique(n) => {
            assert(resolves_to(index@, trim(reference@), g));
            Ok(n)
        },
        ResolveResult::Ambiguous(v) => Err(NoteLookupError::Ambiguous(v)),
        ResolveResult::NotFound => Err(NoteLookupError::NotFound(String::from_str(reference))),
    }
}

/// The decisions of `edit`: the file of the note to open in the editor
/// (`<notes_dir>/<path>`), or why there is none.
pub fn handle_edit(index: &NoteIndex, args: &EditArgs, notes_dir: &str) -> (r: Result<
    String,
    NoteLookupError,
>)
    ensures
        exists|res: ResolveResult|
            resolves_to(index@, trim(args.note@), res) && match res {
                ResolveResult::Unique(n) => r matches Ok(p) && p@ == path_join(notes_dir@, n@.path),
                ResolveResult::Ambiguous(v) => r matches Err(NoteLookupError::Ambiguous(w))
                    && crate::cli::index::notes_view(w@) == crate::cli::index::notes_view(v@),
                ResolveResult::NotFound => r matches Err(NoteLookupError::NotFound(q)) && q@
                    == args.note@,
            },
{
    match resolve_unique(index, args.note.as_str()) {
        Ok(n) => Ok(crate::cli::list::join_path(notes_dir, n.path())),
        Err(e) => Err(e),
    }
}

/// The decisions of `show`: the file of the note to display, or why there
/// is none.
pub fn handle_show(index: &NoteIndex, args: &ShowArgs, notes_dir: &str) -> (r: Result<
    String,
    NoteLookupError,
>)
    ensures
        exists|res: ResolveResult|
            resolves_to(index@, trim(args.note@), res) && match res {
                ResolveResult::Unique(n) => r matches Ok(p) && p@ == path_join(notes_dir@, n@.path),
                ResolveResult::Ambiguous(v) => r matches Err(NoteLookupError::Ambiguous(w))
                    && crate::cli::index::notes_view(w@) == crate::cli::index::notes_view(v@),
                ResolveResult::NotFound => r matches Err(NoteLookupError::NotFound(q)) && q@
                    == args.note@,
            },
{
    match resolve_unique(index, args.note.as_str()) {
        Ok(n) => Ok(crate::cli::list::join_path(notes_dir, n.path())),
        Err(e) => Err(e),
    }
}

/// The note after an edit at `now`: rebuilt with the new modification time.
pub fn update_modified_timestamp(note: &Note, now: Timestamp) -> (res: Result<Note, ParseNoteError>)
    ensures
        res is Ok,
        res matches Ok(n) ==> {
            &&& n.spec_id() == note.spec_id()
            &&& n.spec_title() == note.spec_title()
            &&& n.spec_created() == note.spec_created()
            &&& n.spec_modified() == now
            &&& n.spec_description() == note.spec_description()
            &&& n.spec_topics() == note.spec_topics()
            &&& n.spec_aliases() == note.spec_aliases()
            &&& n.spec_tags() == note.spec_tags()
            &&& links_view(n.spec_links()) == links_view(note.spec_links())
        },
{
    proof {
        use_type_invariant(note);
        crate::domain::note::lemma_dedup_first_of_distinct(note.spec_topics());
        crate::domain::note::lemma_dedup_first_of_distinct(note.spec_tags());
    }
    rebuild_note(
        note,
        note.title(),
        now,
        clone_topics(note.topics()),
        clone_tags(note.tags()),
        clone_links(note.links()),
    )
}

} // verus!
