//! Kind-specific metadata of notes.

use vstd::prelude::*;
use crate::domain::kind::NoteKind;
use crate::domain::note::strings_view;

verus! {

/// A chapter of a transcript: its title and where it starts.
#[derive(Debug)]
pub struct Chapter {
    /// Chapter title.
    pub title: String,
    /// Start time in seconds from the beginning.
    pub start_seconds: u32,
}

impl Clone for Chapter {
    fn clone(&self) -> (r: Chapter)
        ensures
            r.title@ == self.title@,
            r.start_seconds == self.start_seconds,
    {
        Chapter { title: self.title.clone(), start_seconds: self.start_seconds }
    }
}

impl PartialEq for Chapter {
    fn eq(&self, other: &Chapter) -> (r: bool) {
        self.title == other.title && self.start_seconds == other.start_seconds
    }
}

impl vstd::std_specs::cmp::PartialEqSpecImpl for Chapter {
    open spec fn obeys_eq_spec() -> bool {
        true
    }

    open spec fn eq_spec(&self, other: &Chapter) -> bool {
        self.title@ == other.title@ && self.start_seconds == other.start_seconds
    }
}


/// A JSON value held in the extra fields of metadata.
#[verifier::external_type_specification]
#[verifier::external_body]
pub struct ExJsonValue(serde_json::Value);

/// Additional fields: each key with its JSON value, in order.
pub type ExtraFields = Vec<(String, serde_json::Value)>;

/// No two extra fields share a key (they come from a mapping).
pub open spec fn distinct_keys(v: Seq<(String, serde_json::Value)>) -> bool {
    forall|i: int, j: int| 0 <= i < j < v.len() ==> v[i].0@ != v[j].0@
}

/// Metadata for book notes.
#[derive(Debug, Clone, PartialEq)]
pub struct BookMetadata {
    pub authors: Vec<String>,
    /// ISBN (10 or 13 digits).
    pub isbn: Option<String>,
    pub publisher: Option<String>,
    /// Publication year.
    pub year: Option<u16>,
    /// Arbitrary additional fields.
    pub extra: ExtraFields,
}

impl BookMetadata {
    pub open spec fn wf(&self) -> bool {
        distinct_keys(self.extra@)
    }

    pub open spec fn spec_is_empty(&self) -> bool {
        &&& self.authors@.len() == 0
        &&& self.isbn is None
        &&& self.publisher is None
        &&& self.year is None
        &&& self.extra@.len() == 0
    }

    /// Book metadata with the given authors and nothing else.
    pub fn new(authors: Vec<String>) -> (r: BookMetadata)
        ensures
            r.wf(),
            r.authors@ == authors@,
            r.isbn is None && r.publisher is None && r.year is None && r.extra@.len() == 0,
    {
        BookMetadata { authors, isbn: None, publisher: None, year: None, extra: Vec::new() }
    }

    /// True when no field is set.
    pub fn is_empty(&self) -> (r: bool)
        ensures
            r == self.spec_is_empty(),
    {
        self.authors.len() == 0 && self.isbn.is_none() && self.publisher.is_none()
            && self.year.is_none() && self.extra.len() == 0
    }
}

impl Default for BookMetadata {
    fn default() -> (r: BookMetadata)
        ensures
            r.spec_is_empty(),
    {
        BookMetadata::new(Vec::new())
    }
}

/// Metadata for academic paper notes.
#[derive(Debug, Clone, PartialEq)]
pub struct PaperMetadata {
    pub authors: Vec<String>,
    /// Digital Object Identifier.
    pub doi: Option<String>,
    /// Journal or conference.
    pub journal: Option<String>,
    pub year: Option<u16>,
    /// ArXiv identifier.
    pub arxiv: Option<String>,
    pub extra: ExtraFields,
}

impl PaperMetadata {
    pub open spec fn wf(&self) -> bool {
        distinct_keys(self.extra@)
    }

    pub open spec fn spec_is_empty(&self) -> bool {
        &&& self.authors@.len() == 0
        &&& self.doi is None
        &&& self.journal is None
        &&& self.year is None
        &&& self.arxiv is None
        &&& self.extra@.len() == 0
    }

    /// Paper metadata with the given authors and nothing else.
    pub fn new(authors: Vec<String>) -> (r: PaperMetadata)
        ensures
            r.wf(),
            r.authors@ == authors@,
            r.doi is None && r.journal is None && r.year is None && r.arxiv is None
                && r.extra@.len() == 0,
    {
        PaperMetadata {
            authors,
            doi: None,
            journal: None,
            year: None,
            arxiv: None,
            extra: Vec::new(),
        }
    }

    /// True when no field is set.
    pub fn is_empty(&self) -> (r: bool)
        ensures
            r == self.spec_is_empty(),
    {
        self.authors.len() == 0 && self.doi.is_none() && self.journal.is_none()
            && self.year.is_none() && self.arxiv.is_none() && self.extra.len() == 0
    }
}

impl Default for PaperMetadata {
    fn default() -> (r: PaperMetadata)
        ensures
            r.spec_is_empty(),
    {
        PaperMetadata::new(Vec::new())
    }
}

/// Metadata for transcripts (podcasts, interviews, lectures).
#[derive(Debug, Clone, PartialEq)]
pub struct TranscriptMetadata {
    /// Source URL.
    pub source: Option<String>,
    pub speakers: Vec<String>,
    pub duration_seconds: Option<u32>,
    /// Chapter markers.
    pub chapters: Vec<Chapter>,
    pub extra: ExtraFields,
}

impl TranscriptMetadata {
    pub open spec fn wf(&self) -> bool {
        distinct_keys(self.extra@)
    }

    pub open spec fn spec_is_empty(&self) -> bool {
        &&& self.source is None
        &&& self.speakers@.len() == 0
        &&& self.duration_seconds is None
        &&& self.chapters@.len() == 0
        &&& self.extra@.len() == 0
    }

    /// Empty transcript metadata.
    pub fn new() -> (r: TranscriptMetadata)
        ensures
            r.wf(),
            r.spec_is_empty(),
    {
        TranscriptMetadata::with_speakers(Vec::new())
    }

    /// Transcript metadata with the given speakers and nothing else.
    pub fn with_speakers(speakers: Vec<String>) -> (r: TranscriptMetadata)
        ensures
            r.wf(),
            r.speakers@ == speakers@,
            r.source is None && r.duration_seconds is None && r.chapters@.len() == 0
                && r.extra@.len() == 0,
    {
        TranscriptMetadata {
            source: None,
            speakers,
            duration_seconds: None,
            chapters: Vec::new(),
            extra: Vec::new(),
        }
    }

    /// True when no field is set.
    pub fn is_empty(&self) -> (r: bool)
        ensures
            r == self.spec_is_empty(),
    {
        self.source.is_none() && self.speakers.len() == 0 && self.duration_seconds.is_none()
            && self.chapters.len() == 0 && self.extra.len() == 0
    }
}

impl Default for TranscriptMetadata {
    fn default() -> (r: TranscriptMetadata)
        ensures
            r.spec_is_empty(),
    {
        TranscriptMetadata::new()
    }
}

/// Metadata for articles (web articles, blog posts).
#[derive(Debug, Clone, PartialEq)]
pub struct ArticleMetadata {
    pub authors: Vec<String>,
    pub url: Option<String>,
    /// Publication or site name.
    pub publication: Option<String>,
    /// Publication date (ISO 8601 date text).
    pub date: Option<String>,
    pub extra: ExtraFields,
}

impl ArticleMetadata {
    pub open spec fn wf(&self) -> bool {
        distinct_keys(self.extra@)
    }

    pub open spec fn spec_is_empty(&self) -> bool {
        &&& self.authors@.len() == 0
        &&& self.url is None
        &&& self.publication is None
        &&& self.date is None
        &&& self.extra@.len() == 0
    }

    /// Empty article metadata.
    pub fn new() -> (r: ArticleMetadata)
        ensures
            r.wf(),
            r.spec_is_empty(),
    {
        ArticleMetadata {
            authors: Vec::new(),
            url: None,
            publication: None,
            date: None,
            extra: Vec::new(),
        }
    }

    /// True when no field is set.
    pub fn is_empty(&self) -> (r: bool)
        ensures
            r == self.spec_is_empty(),
    {
        self.authors.len() == 0 && self.url.is_none() && self.publication.is_none()
            && self.date.is_none() && self.extra.len() == 0
    }
}

impl Default for ArticleMetadata {
    fn default() -> (r: ArticleMetadata)
        ensures
            r.spec_is_empty(),
    {
        ArticleMetadata::new()
    }
}

/// Metadata for notes of no particular kind: only additional fields.
#[derive(Debug, Clone, PartialEq)]
pub struct GenericMetadata {
    pub extra: ExtraFields,
}

impl GenericMetadata {
    pub open spec fn wf(&self) -> bool {
        distinct_keys(self.extra@)
    }

    /// Empty generic metadata.
    pub fn new() -> (r: GenericMetadata)
        ensures
            r.wf(),
            r.extra@.len() == 0,
    {
        GenericMetadata { extra: Vec::new() }
    }

    /// True when there are no fields.
    pub fn is_empty(&self) -> (r: bool)
        ensures
            r == (self.extra@.len() == 0),
    {
        self.extra.len() == 0
    }
}

impl Default for GenericMetadata {
    fn default() -> (r: GenericMetadata)
        ensures
            r.extra@.len() == 0,
    {
        GenericMetadata::new()
    }
}

/// The metadata of a note, by its kind.
#[derive(Debug, Clone, PartialEq)]
pub enum NoteMetadata {
    Generic(GenericMetadata),
    Book(BookMetadata),
    Paper(PaperMetadata),
    Transcript(TranscriptMetadata),
    Article(ArticleMetadata),
}

impl NoteMetadata {
    pub open spec fn spec_is_empty(&self) -> bool {
        match self {
            NoteMetadata::Generic(m) => m.extra@.len() == 0,
            NoteMetadata::Book(m) => m.spec_is_empty(),
            NoteMetadata::Paper(m) => m.spec_is_empty(),
            NoteMetadata::Transcript(m) => m.spec_is_empty(),
            NoteMetadata::Article(m) => m.spec_is_empty(),
        }
    }

    /// The authors, for the kinds that have them (books, papers, articles).
    pub open spec fn spec_authors(&self) -> Seq<Seq<char>> {
        match self {
            NoteMetadata::Book(m) => strings_view(m.authors@),
            NoteMetadata::Paper(m) => strings_view(m.authors@),
            NoteMetadata::Article(m) => strings_view(m.authors@),
            _ => Seq::empty(),
        }
    }

    /// True when no field is set.
    pub fn is_empty(&self) -> (r: bool)
        ensures
            r == self.spec_is_empty(),
    {
        match self {
            NoteMetadata::Generic(m) => m.is_empty(),
            NoteMetadata::Book(m) => m.is_empty(),
            NoteMetadata::Paper(m) => m.is_empty(),
            NoteMetadata::Transcript(m) => m.is_empty(),
            NoteMetadata::Article(m) => m.is_empty(),
        }
    }

    /// The authors (none for generic notes and transcripts).
    pub fn authors(&self) -> (r: &[String])
        ensures
            strings_view(r@) == self.spec_authors(),
    {
        match self {
            NoteMetadata::Book(m) => m.authors.as_slice(),
            NoteMetadata::Paper(m) => m.authors.as_slice(),
            NoteMetadata::Article(m) => m.authors.as_slice(),
            _ => {
                let r: &[String] = &[];
                assert(strings_view(r@) =~= Seq::<Seq<char>>::empty());
                r
            },
        }
    }

    /// The speakers (transcripts only).
    pub fn speakers(&self) -> (r: &[String])
        ensures
            strings_view(r@) == match self {
                NoteMetadata::Transcript(m) => strings_view(m.speakers@),
                _ => Seq::<Seq<char>>::empty(),
            },
    {
        match self {
            NoteMetadata::Transcript(m) => m.speakers.as_slice(),
            _ => {
                let r: &[String] = &[];
                assert(strings_view(r@) =~= Seq::<Seq<char>>::empty());
                r
            },
        }
    }

    /// Empty metadata of the variant for `kind` (generic for unknown kinds).
    pub fn empty_for_kind(kind: &NoteKind) -> (r: NoteMetadata)
        ensures
            r.spec_is_empty(),
            match kind {
                NoteKind::Generic | NoteKind::Other(_) => r is Generic,
                NoteKind::Book => r is Book,
                NoteKind::Paper => r is Paper,
                NoteKind::Transcript => r is Transcript,
                NoteKind::Article => r is Article,
            },
    {
        match kind {
            NoteKind::Generic | NoteKind::Other(_) => NoteMetadata::Generic(GenericMetadata::new()),
            NoteKind::Book => NoteMetadata::Book(BookMetadata::new(Vec::new())),
            NoteKind::Paper => NoteMetadata::Paper(PaperMetadata::new(Vec::new())),
            NoteKind::Transcript => NoteMetadata::Transcript(TranscriptMetadata::new()),
            NoteKind::Article => NoteMetadata::Article(ArticleMetadata::new()),
        }
    }
}

impl Default for NoteMetadata {
    fn default() -> (r: NoteMetadata)
        ensures
            r matches NoteMetadata::Generic(m) && m.extra@.len() == 0,
    {
        NoteMetadata::Generic(GenericMetadata::new())
    }
}

} // verus!
