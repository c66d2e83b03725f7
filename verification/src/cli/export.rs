//! The export command: which notes to export and what is refused.

use vstd::prelude::*;
use vstd::string::StringExecFns;
use crate::cli::index::{notes_view, tag_match, topic_match, IndexedNote, IndexedNoteView, NoteIndex};
use crate::cli::list::{has_all_tags, parse_all_tags, tag_views};
use crate::cli::output::OutputFormat;
use crate::cli::resolve::{resolve_note, resolves_to, ResolveResult};
use crate::domain::note::strings_view;
use crate::domain::tag::{tag_error_message, Tag};
use crate::domain::topic::{topic_parse, Topic};
use crate::text::{chars_of, string_from_chars, trim};

verus! {

/// Export formats.
#[derive(Debug, Clone, Copy, PartialEq, Eq, Structural)]
pub enum ExportFormat {
    /// One HTML document per note.
    Html,
    /// A static site with navigation.
    Site,
    /// A PDF document.
    Pdf,
}

/// Arguments of `export`.
#[derive(Debug)]
pub struct ExportArgs {
    /// The note to export (identifier prefix, title or alias).
    pub note: Option<String>,
    /// Export all notes (those the filters keep).
    pub all: bool,
    /// Output file or directory.
    pub output: Option<String>,
    pub export_format: ExportFormat,
    pub cli_format: OutputFormat,
    pub topic: Option<String>,
    pub tags: Vec<String>,
    pub include_archived: bool,
    pub resolve_links: bool,
    pub theme: Option<String>,
    pub template: Option<String>,
}

/// What an export reports.
#[derive(Debug)]
pub struct ExportResult {
    /// Number of notes exported.
    pub notes_exported: usize,
    /// Output path, when written to a file.
    pub path: Option<String>,
    /// Identifier of the note (single export).
    pub id: Option<String>,
    /// Title of the note (single export).
    pub title: Option<String>,
}

/// Why an export was refused.
#[derive(Debug)]
pub struct ExportError(String);

impl View for ExportError {
    type V = Seq<char>;

    closed spec fn view(&self) -> Seq<char> {
        self.0@
    }
}

impl ExportError {
    pub fn to_string(&self) -> (r: String)
        ensures
            r@ == self@,
    {
        self.0.clone()
    }
}

/// The notes an export works on.
#[derive(Debug)]
pub enum ExportPlan {
    /// One note, as HTML.
    Single(IndexedNote),
    /// The filtered notes into an output directory, as HTML files or a site.
    Bulk(Vec<IndexedNote>, String),
}

pub open spec fn strip_slashes_end(s: Seq<char>) -> Seq<char> {
    crate::cli::list::strip_trailing_slashes(s)
}

/// The notes that `get_filtered_notes` keeps, or the message of the first
/// refused argument: the topic (a trailing `/` includes descendants), then
/// the tags.
pub open spec fn export_filter_spec(
    idx: Seq<IndexedNoteView>,
    topic: Option<Seq<char>>,
    tags: Seq<Seq<char>>,
) -> Result<Seq<IndexedNoteView>, Seq<char>> {
    let base: Result<Seq<IndexedNoteView>, Seq<char>> = match topic {
        Some(t) => {
            let desc = t.len() > 0 && t.last() == '/';
            match topic_parse(strip_slashes_end(t)) {
                Ok(segs) => Ok(idx.filter(|n: IndexedNoteView| topic_match(n, segs, desc))),
                Err(m) => Err(m),
            }
        },
        None => Ok(idx),
    };
    match base {
        Err(m) => Err(m),
        Ok(b) => if tags.len() == 0 {
            Ok(b)
        } else {
            match parse_all_tags(tags) {
                Err(k) => Err(tag_error_message(tags[k])),
                Ok(ts) => Ok(b.filter(|n: IndexedNoteView| has_all_tags(n, ts))),
            }
        },
    }
}

fn keep_with_tags(notes: Vec<IndexedNote>, tags: &[Tag]) -> (r: Vec<IndexedNote>)
    ensures
        notes_view(r@) == notes_view(notes@).filter(
            |n: IndexedNoteView| has_all_tags(n, tag_views(tags@)),
        ),
{
    let ghost nv = notes_view(notes@);
    let ghost ts = tag_views(tags@);
    let ghost keep = |n: IndexedNoteView| has_all_tags(n, ts);
    let mut out: Vec<IndexedNote> = Vec::new();
    let mut i: usize = 0;
    assert(nv.take(0).filter(keep) =~= Seq::<IndexedNoteView>::empty());
    assert(notes_view(out@) =~= Seq::<IndexedNoteView>::empty());
    while i < notes.len()
        invariant
            i <= notes@.len(),
            nv == notes_view(notes@),
            ts == tag_views(tags@),
            keep == (|n: IndexedNoteView| has_all_tags(n, ts)),
            notes_view(out@) == nv.take(i as int).filter(keep),
        decreases notes@.len() - i,
    {
        let n = &notes[i];
        assert(nv[i as int] == n@);
        assert(nv.take(i + 1) =~= nv.take(i as int).push(n@));
        proof {
            nv.take(i as int).lemma_filter_push(n@, keep);
        }
        if has_all(n, tags) {
            let ghost before = out@;
            out.push(n.clone());
            assert(notes_view(out@) =~= notes_view(before).push(n@));
        }
        i = i + 1;
    }
    assert(nv.take(nv.len() as int) =~= nv);
    out
}

fn has_all(n: &IndexedNote, tags: &[Tag]) -> (r: bool)
    ensures
        r == has_all_tags(n@, tag_views(tags@)),
{
    let mut i: usize = 0;
    while i < tags.len()
        invariant
            i <= tags@.len(),
            forall|j: int| 0 <= j < i ==> tag_match(n@, #[trigger] tag_views(tags@)[j]),
        decreases tags@.len() - i,
    {
        if !crate::cli::index::note_has_tag(n, &tags[i]) {
            assert(!tag_match(n@, tag_views(tags@)[i as int]));
            return false;
        }
        i = i + 1;
    }
    true
}

/// The notes to export by topic and tags (see `export_filter_spec`).
pub fn get_filtered_notes(index: &NoteIndex, args: &ExportArgs) -> (r: Result<Vec<IndexedNote>, ExportError>)
    ensures
        match export_filter_spec(
            index@,
            crate::cli::list::opt_string_view(args.topic),
            strings_view(args.tags@),
        ) {
            Ok(v) => r matches Ok(notes) && notes_view(notes@) == v,
            Err(m) => r matches Err(e) && e@ == m,
        },
{
    let notes = match &args.topic {
        Some(t) => {
            let (path, desc) = crate::cli::list::parse_topic_filter(t.as_str());
            match Topic::new(path.as_str()) {
                Ok(topic) => index.list_by_topic(&topic, desc),
                Err(e) => {
                    return Err(ExportError(e.to_string()));
                },
            }
        },
        None => index.list_all(),
    };
    if args.tags.len() == 0 {
        return Ok(notes);
    }
    let ghost sv = strings_view(args.tags@);
    let mut tags: Vec<Tag> = Vec::new();
    let mut i: usize = 0;
    assert(sv.take(0) =~= Seq::<Seq<char>>::empty());
    assert(tag_views(tags@) =~= Seq::<Seq<char>>::empty());
    while i < args.tags.len()
        invariant
            i <= args.tags@.len(),
            sv == strings_view(args.tags@),
            args.tags@.len() > 0,
            match crate::cli::list::opt_string_view(args.topic) {
                Some(t) => topic_parse(strip_slashes_end(t)) is Ok,
                None => true,
            },
            parse_all_tags(sv.take(i as int)) == Ok::<Seq<Seq<char>>, int>(tag_views(tags@)),
        decreases args.tags@.len() - i,
    {
        assert(sv.take(i + 1).drop_last() =~= sv.take(i as int));
        assert(sv.take(i + 1).last() == args.tags@[i as int]@);
        assert(sv[i as int] == args.tags@[i as int]@);
        match Tag::new(args.tags[i].as_str()) {
            Ok(t) => {
                let ghost before = tags@;
                tags.push(t);
                assert(tag_views(tags@) =~= tag_views(before).push(t@));
            },
            Err(e) => {
                proof {
                    lemma_tags_err(sv, i + 1, i as int);
                }
                return Err(ExportError(e.to_string()));
            },
        }
        i = i + 1;
    }
    assert(sv.take(sv.len() as int) =~= sv);
    Ok(keep_with_tags(notes, tags.as_slice()))
}

proof fn lemma_tags_err(strs: Seq<Seq<char>>, n: int, k: int)
    requires
        0 <= n <= strs.len(),
        parse_all_tags(strs.take(n)) == Err::<Seq<Seq<char>>, int>(k),
    ensures
        parse_all_tags(strs) == Err::<Seq<Seq<char>>, int>(k),
    decreases strs.len() - n,
{
    if n == strs.len() {
        assert(strs.take(n) =~= strs);
    } else {
        assert(strs.take(n + 1).drop_last() =~= strs.take(n));
        lemma_tags_err(strs, n + 1, k);
    }
}

/// The notes without the `archived` tag.
fn drop_archived(notes: Vec<IndexedNote>) -> (r: Vec<IndexedNote>)
    ensures
        notes_view(r@) == notes_view(notes@).filter(
            |n: IndexedNoteView| !tag_match(n, "archived"@),
        ),
{
    let archived = crate::cli::tagging::archived_tag();
    let ghost nv = notes_view(notes@);
    let ghost keep = |n: IndexedNoteView| !tag_match(n, "archived"@);
    let mut out: Vec<IndexedNote> = Vec::new();
    let mut i: usize = 0;
    assert(nv.take(0).filter(keep) =~= Seq::<IndexedNoteView>::empty());
    assert(notes_view(out@) =~= Seq::<IndexedNoteView>::empty());
    while i < notes.len()
        invariant
            i <= notes@.len(),
            nv == notes_view(notes@),
            archived@ == "archived"@,
            keep == (|n: IndexedNoteView| !tag_match(n, "archived"@)),
            notes_view(out@) == nv.take(i as int).filter(keep),
        decreases notes@.len() - i,
    {
        let n = &notes[i];
        assert(nv[i as int] == n@);
        assert(nv.take(i + 1) =~= nv.take(i as int).push(n@));
        proof {
            nv.take(i as int).lemma_filter_push(n@, keep);
        }
        if !crate::cli::index::note_has_tag(n, &archived) {
            let ghost before = out@;
            out.push(n.clone());
            assert(notes_view(out@) =~= notes_view(before).push(n@));
        }
        i = i + 1;
    }
    assert(nv.take(nv.len() as int) =~= nv);
    out
}

/// What an export of `args` works on, or why it is refused.  A single note
/// is resolved (ambiguous or unknown references are refused) and must be
/// exported as HTML; a bulk export needs an output directory, keeps the
/// notes the filters select (not the archived ones unless asked), needs at
/// least one, and cannot be a PDF.
pub open spec fn export_plan_spec(
    idx: Seq<IndexedNoteView>,
    note: Option<Seq<char>>,
    output: Option<Seq<char>>,
    format: ExportFormat,
    topic: Option<Seq<char>>,
    tags: Seq<Seq<char>>,
    include_archived: bool,
    plan: Result<ExportPlan, ExportError>,
) -> bool {
    match note {
        Some(q) => {
            let q = trim(q);
            if crate::cli::resolve::looks_like_id(q) && crate::cli::resolve::id_hits(idx, q).len() == 1 {
                match format {
                    ExportFormat::Html => plan matches Ok(ExportPlan::Single(n)) && n@
                        == crate::cli::resolve::id_hits(idx, q)[0],
                    ExportFormat::Pdf => plan matches Err(e) && e@
                        == "PDF export is not yet implemented. Use --format html and convert manually."@,
                    ExportFormat::Site => plan matches Err(e) && e@
                        == "Site export requires --all flag to export all notes."@,
                }
            } else {
                let c = crate::cli::resolve::candidates(idx, q);
                if c.len() == 0 {
                    plan matches Err(e) && e@ == "Note not found: "@ + note->0
                } else if c.len() > 1 {
                    plan matches Err(e) && e@ == "Ambiguous note reference"@
                } else {
                    match format {
                        ExportFormat::Html => plan matches Ok(ExportPlan::Single(n)) && n@ == c[0],
                        ExportFormat::Pdf => plan matches Err(e) && e@
                            == "PDF export is not yet implemented. Use --format html and convert manually."@,
                        ExportFormat::Site => plan matches Err(e) && e@
                            == "Site export requires --all flag to export all notes."@,
                    }
                }
            }
        },
        None => match output {
            None => plan matches Err(e) && e@ == "Bulk export requires --output directory"@,
            Some(dir) => match export_filter_spec(idx, topic, tags) {
                Err(m) => plan matches Err(e) && e@ == m,
                Ok(v) => {
                    let kept = if include_archived {
                        v
                    } else {
                        v.filter(|n: IndexedNoteView| !tag_match(n, "archived"@))
                    };
                    if kept.len() == 0 {
                        plan matches Err(e) && e@ == "No notes match the specified filters"@
                    } else if format == ExportFormat::Pdf {
                        plan matches Err(e) && e@ == "PDF export is not yet implemented."@
                    } else {
                        plan matches Ok(ExportPlan::Bulk(notes, d)) && notes_view(notes@) == kept
                            && d@ == dir
                    }
                },
            },
        },
    }
}

/// Decides an export: which notes, and where, or why it is refused (see
/// `export_plan_spec`).  Exactly one of a note and `--all` is given.
pub fn handle_export(index: &NoteIndex, args: &ExportArgs) -> (r: Result<ExportPlan, ExportError>)
    requires
        args.note is Some != args.all,
    ensures
        export_plan_spec(
            index@,
            crate::cli::list::opt_string_view(args.note),
            crate::cli::list::opt_string_view(args.output),
            args.export_format,
            crate::cli::list::opt_string_view(args.topic),
            strings_view(args.tags@),
            args.include_archived,
            r,
        ),
{
    match &args.note {
        Some(query) => {
            let note = match resolve_note(index, query.as_str()) {
                ResolveResult::Unique(n) => n,
                ResolveResult::Ambiguous(_) => {
                    return Err(ExportError(String::from_str("Ambiguous note reference")));
                },
                ResolveResult::NotFound => {
                    let mut m = String::from_str("Note not found: ");
                    m.append(query.as_str());
                    return Err(ExportError(m));
                },
            };
            match args.export_format {
                ExportFormat::Html => Ok(ExportPlan::Single(note)),
                ExportFormat::Pdf => Err(
                    ExportError(
                        String::from_str(
                            "PDF export is not yet implemented. Use --format html and convert manually.",
                        ),
                    ),
                ),
                ExportFormat::Site => Err(
                    ExportError(
                        String::from_str("Site export requires --all flag to export all notes."),
                    ),
                ),
            }
        },
        None => {
            let dir = match &args.output {
                Some(d) => d.clone(),
                None => {
                    return Err(
                        ExportError(String::from_str("Bulk export requires --output directory")),
                    );
                },
            };
            let notes = match get_filtered_notes(index, args) {
                Ok(n) => n,
                Err(e) => {
                    return Err(e);
                },
            };
            let notes = if args.include_archived {
                notes
            } else {
                drop_archived(notes)
            };
            if notes.len() == 0 {
                return Err(ExportError(String::from_str("No notes match the specified filters")));
            }
            if args.export_format == ExportFormat::Pdf {
                return Err(ExportError(String::from_str("PDF export is not yet implemented.")));
            }
            Ok(ExportPlan::Bulk(notes, dir))
        },
    }
}

} // verus!
