//! What a note page shows: the values its template is rendered with.

use vstd::prelude::*;
use vstd::string::StringExecFns;
use crate::domain::note::{strings_view, topics_view, tags_view, Note};
use crate::domain::timestamp::Timestamp;
use crate::text::decimal;
use crate::domain::topic::join_slash;
use crate::export::html::{markdown_html, markdown_to_html};
use crate::export::links::{resolve_from, LinkResolver};

verus! {

/// The proleptic Gregorian date `(year, month, day)` of the day `z` days
/// after 1970-01-01 (days counted in 400-year eras of 146097 days, years
/// taken to start in March).
pub open spec fn civil_from_days(z: int) -> (int, int, int) {
    let z = z + 719468;
    let era = z / 146097;
    let doe = z - era * 146097;
    let yoe = (doe - doe / 1460 + doe / 36524 - doe / 146096) / 365;
    let doy = doe - (365 * yoe + yoe / 4 - yoe / 100);
    let mp = (5 * doy + 2) / 153;
    let d = doy - (153 * mp + 2) / 5 + 1;
    let m = if mp < 10 { mp + 3 } else { mp - 9 };
    let y = yoe + era * 400;
    (if m <= 2 { y + 1 } else { y }, m, d)
}

/// `n` in decimal, zero-padded to `width` digits.
pub open spec fn padded(n: nat, width: nat) -> Seq<char>
    decreases width,
{
    if width <= decimal(n).len() || width == 0 {
        decimal(n)
    } else {
        seq!['0'] + padded(n, (width - 1) as nat)
    }
}

/// chrono's `%Y`: four digits, zero-padded, for the years 0 to 9999; a sign
/// and at least four digits otherwise.
pub open spec fn year_text(y: int) -> Seq<char> {
    if 0 <= y <= 9999 {
        padded(y as nat, 4)
    } else if y < 0 {
        seq!['-'] + padded((-y) as nat, 4)
    } else {
        seq!['+'] + padded(y as nat, 4)
    }
}

/// The text that chrono's `format("%Y-%m-%d")` gives for the UTC instant
/// `secs` seconds (and `nanos` nanoseconds) after the epoch.
pub open spec fn ymd_text(secs: i64, nanos: u32) -> Seq<char> {
    let (y, m, d) = civil_from_days(secs as int / 86400);
    year_text(y) + seq!['-'] + padded(m as nat, 2) + seq!['-'] + padded(d as nat, 2)
}

/// Name for the text that chrono's `to_rfc3339()` gives for the UTC
/// instant `secs` seconds and `nanos` nanoseconds after the epoch.
pub uninterp spec fn rfc3339_text(secs: i64, nanos: u32) -> Seq<char>;

/// Instants that chrono can represent: from the start of the year -262143
/// to the end of the year 262142 (its `from_timestamp` range).
pub open spec fn in_chrono_range(t: Timestamp) -> bool {
    &&& -8_334_601_228_800 <= t.secs <= 8_210_266_876_799
    &&& t.nanos < 1_000_000_000
}

/// Whether chrono can represent the instant, so that its dates can be
/// written.
pub fn chrono_can_represent(t: Timestamp) -> (r: bool)
    ensures
        r == in_chrono_range(t),
{
    -8_334_601_228_800 <= t.secs && t.secs <= 8_210_266_876_799 && t.nanos < 1_000_000_000
}

/// `chrono::DateTime::<Utc>::from_timestamp(secs, nanos)` formatted with
/// `%Y-%m-%d`.  Claimed: the text is `ymd_text` of the instant (chrono
/// counts days with Euclidean division by 86400 and writes the proleptic
/// Gregorian date of the day).
#[verifier::external_body]
fn format_ymd(t: Timestamp) -> (r: String)
    requires
        in_chrono_range(t),
    ensures
        r@ == ymd_text(t.secs, t.nanos),
{
    match chrono::DateTime::from_timestamp(t.secs, t.nanos) {
        Some(d) => d.format("%Y-%m-%d").to_string(),
        None => String::new(),
    }
}

/// `chrono::DateTime::<Utc>::from_timestamp(secs, nanos)` as RFC 3339 text
/// (`to_rfc3339`).  Claimed: the text is a function of the instant.
#[verifier::external_body]
fn format_rfc3339(t: Timestamp) -> (r: String)
    requires
        in_chrono_range(t),
    ensures
        r@ == rfc3339_text(t.secs, t.nanos),
{
    match chrono::DateTime::from_timestamp(t.secs, t.nanos) {
        Some(d) => d.to_rfc3339(),
        None => String::new(),
    }
}

/// The values a note page is rendered with.
#[derive(Debug)]
pub struct NotePage {
    pub title: String,
    pub description: Option<String>,
    /// The body as HTML.
    pub content: String,
    pub theme_css: String,
    /// Topic paths.
    pub topics: Vec<String>,
    pub tags: Vec<String>,
    /// Creation date, `YYYY-MM-DD`.
    pub created: String,
    /// Creation time, RFC 3339.
    pub created_iso: String,
    pub modified: String,
    pub modified_iso: String,
}

/// A note page as plain values.
pub struct NotePageView {
    pub title: Seq<char>,
    pub description: Option<Seq<char>>,
    pub content: Seq<char>,
    pub theme_css: Seq<char>,
    pub topics: Seq<Seq<char>>,
    pub tags: Seq<Seq<char>>,
    pub created: Seq<char>,
    pub created_iso: Seq<char>,
    pub modified: Seq<char>,
    pub modified_iso: Seq<char>,
}

impl View for NotePage {
    type V = NotePageView;

    open spec fn view(&self) -> NotePageView {
        NotePageView {
            title: self.title@,
            description: crate::domain::note::opt_view(self.description),
            content: self.content@,
            theme_css: self.theme_css@,
            topics: strings_view(self.topics@),
            tags: strings_view(self.tags@),
            created: self.created@,
            created_iso: self.created_iso@,
            modified: self.modified@,
            modified_iso: self.modified_iso@,
        }
    }
}

/// The markdown a page renders: the body with its note references resolved
/// when there is a resolver.
pub open spec fn page_markdown(body: Seq<char>, resolver: Option<&LinkResolver>) -> Seq<char> {
    match resolver {
        Some(res) => resolve_from(
            body,
            0,
            res.spec_entries(),
            res.spec_options().broken_link_handling,
            res.spec_options().base_path@,
        ).0,
        None => body,
    }
}

/// The page of `note` with markdown `body`: references resolved (when there
/// is a resolver), the body turned into HTML, the topics as paths, and the
/// dates formatted.
pub open spec fn page_of(
    note: &Note,
    body: Seq<char>,
    resolver: Option<&LinkResolver>,
    theme_css: Seq<char>,
) -> NotePageView {
    NotePageView {
        title: note.spec_title(),
        description: note.spec_description(),
        content: markdown_html(page_markdown(body, resolver), true, true, true, true),
        theme_css,
        topics: note.spec_topics().map_values(|t: Seq<Seq<char>>| join_slash(t)),
        tags: note.spec_tags(),
        created: ymd_text(note.spec_created().secs, note.spec_created().nanos),
        created_iso: rfc3339_text(note.spec_created().secs, note.spec_created().nanos),
        modified: ymd_text(note.spec_modified().secs, note.spec_modified().nanos),
        modified_iso: rfc3339_text(note.spec_modified().secs, note.spec_modified().nanos),
    }
}

/// The page of `note` with markdown `body` (see `page_of`).
pub fn note_page(note: &Note, body: &str, resolver: Option<&LinkResolver>, theme_css: &str) -> (r:
    NotePage)
    requires
        in_chrono_range(note.spec_created()),
        in_chrono_range(note.spec_modified()),
    ensures
        r@ == page_of(note, body@, resolver, theme_css@),
{
    let content = match resolver {
        Some(res) => {
            let resolved = res.resolve(body);
            markdown_to_html(resolved.content.as_str())
        },
        None => markdown_to_html(body),
    };
    let topics_in = note.topics();
    let mut topics: Vec<String> = Vec::new();
    let mut i: usize = 0;
    while i < topics_in.len()
        invariant
            i <= topics_in@.len(),
            topics_view(topics_in@) == note.spec_topics(),
            strings_view(topics@) == note.spec_topics().take(i as int).map_values(
                |t: Seq<Seq<char>>| join_slash(t),
            ),
        decreases topics_in@.len() - i,
    {
        let ghost before = topics@;
        let t = topics_in[i].to_string();
        assert(note.spec_topics()[i as int] == topics_in@[i as int]@);
        topics.push(t);
        assert(strings_view(topics@) =~= strings_view(before).push(t@));
        assert(note.spec_topics().take(i + 1) =~= note.spec_topics().take(i as int).push(
            note.spec_topics()[i as int],
        ));
        i = i + 1;
        assert(strings_view(topics@) =~= note.spec_topics().take(i as int).map_values(
            |t: Seq<Seq<char>>| join_slash(t),
        ));
    }
    assert(note.spec_topics().take(topics_in@.len() as int) =~= note.spec_topics());
    let tags_in = note.tags();
    let mut tags: Vec<String> = Vec::new();
    let mut j: usize = 0;
    while j < tags_in.len()
        invariant
            j <= tags_in@.len(),
            tags_view(tags_in@) == note.spec_tags(),
            strings_view(tags@) == note.spec_tags().take(j as int),
        decreases tags_in@.len() - j,
    {
        let ghost before = tags@;
        let t = tags_in[j].to_string();
        tags.push(t);
        assert(strings_view(tags@) =~= strings_view(before).push(t@));
        j = j + 1;
        assert(strings_view(tags@) =~= note.spec_tags().take(j as int));
    }
    assert(note.spec_tags().take(tags_in@.len() as int) =~= note.spec_tags());
    let page = NotePage {
        title: String::from_str(note.title()),
        description: match note.description() {
            Some(d) => Some(String::from_str(d)),
            None => None,
        },
        content,
        theme_css: String::from_str(theme_css),
        topics,
        tags,
        created: format_ymd(note.created()),
        created_iso: format_rfc3339(note.created()),
        modified: format_ymd(note.modified()),
        modified_iso: format_rfc3339(note.modified()),
    };
    assert(page@ =~= page_of(note, body@, resolver, theme_css@));
    page
}

} // verus!
