use den::cli::args::{BacklinksArgs, CheckArgs, EditArgs, ShowArgs, TagArgs, UntagArgs};
use den::cli::check::handle_check;
use den::cli::index::{IndexedNote, NoteIndex};
use den::cli::link_cmd::handle_backlinks;
use den::cli::output::OutputFormat;
use den::cli::show_edit::{handle_edit, handle_show, resolve_unique};
use den::cli::tagging::{handle_tag, handle_untag};
use den::domain::link::Link;
use den::domain::note::Note;
use den::domain::note_id::NoteId;
use den::domain::tag::Tag;
use den::domain::timestamp::Timestamp;
use den::domain::topic::Topic;
use den::domain::validation::ValidationIssue;

fn id(s: &str) -> NoteId {
    NoteId::parse(s).unwrap()
}

fn jan15() -> Timestamp {
    Timestamp::from_unix(1_705_314_600, 0).unwrap()
}

fn later() -> Timestamp {
    Timestamp::from_unix(1_705_400_000, 0).unwrap()
}

fn api_design() -> Note {
    Note::builder(id("01HQ3K5M7NXJK4QZPW8V2R6T9A"), "API Design", jan15(), jan15())
        .description(Some("Notes on API design principles"))
        .topics(vec![Topic::new("software/architecture").unwrap()])
        .tags(vec![Tag::new("draft").unwrap()])
        .aliases(vec!["REST".to_string()])
        .build()
        .unwrap()
}

fn single_note_index() -> NoteIndex {
    let mut index = NoteIndex::new();
    index.upsert(IndexedNote::from_note(&api_design(), "01HQ3K5M7N-api-design.md"));
    index
}

fn ambiguous_index() -> NoteIndex {
    let mut index = NoteIndex::new();
    let a = Note::new(id("01HQ3K5M7NXJK4QZPW8V2R6T9A"), "API Design", jan15(), jan15()).unwrap();
    let b = Note::new(id("01HQ3K5M7NXJK4QZPW8V2R6T9B"), "API Design", jan15(), jan15()).unwrap();
    index.upsert(IndexedNote::from_note(&a, "01HQ3K5M7N-api-design.md"));
    index.upsert(IndexedNote::from_note(&b, "01HQ3K5M7N-api-design-2.md"));
    index
}

fn show(note: &str) -> Result<String, String> {
    let args = ShowArgs { note: note.to_string() };
    handle_show(&single_note_index(), &args, "/notes").map_err(|e| e.to_string())
}

#[test]
fn tests_handle_show_by_id_prefix() {
    assert_eq!(show("01HQ3K5M").unwrap(), "/notes/01HQ3K5M7N-api-design.md");
}

#[test]
fn tests_handle_show_by_title() {
    assert!(show("API Design").is_ok());
}

#[test]
fn tests_handle_show_by_alias() {
    assert!(show("REST").is_ok());
}

#[test]
fn tests_handle_show_not_found() {
    let err = show("nonexistent").unwrap_err();
    assert!(err.contains("not found"));
}

#[test]
fn handlers_handle_show_by_id_prefix() {
    tests_handle_show_by_id_prefix();
}

#[test]
fn handlers_handle_show_by_title() {
    tests_handle_show_by_title();
}

#[test]
fn handlers_handle_show_by_alias() {
    tests_handle_show_by_alias();
}

#[test]
fn handlers_handle_show_not_found() {
    tests_handle_show_not_found();
}

fn edit(index: &NoteIndex, note: &str) -> Result<String, String> {
    let args = EditArgs { note: note.to_string() };
    handle_edit(index, &args, "/notes").map_err(|e| e.to_string())
}

#[test]
fn tests_handle_edit_not_found_returns_error() {
    let err = edit(&single_note_index(), "nonexistent").unwrap_err();
    assert!(err.contains("not found"));
}

#[test]
fn tests_handle_edit_ambiguous_returns_error() {
    let err = edit(&ambiguous_index(), "API Design").unwrap_err();
    assert!(err.contains("ambiguous"));
}

#[test]
fn tests_handle_edit_by_id_prefix() {
    let opened = edit(&single_note_index(), "01HQ3K5M").unwrap();
    assert!(opened.ends_with("01HQ3K5M7N-api-design.md"));
}

#[test]
fn tests_handle_edit_by_title() {
    let opened = edit(&single_note_index(), "API Design").unwrap();
    assert!(opened.ends_with("01HQ3K5M7N-api-design.md"));
}

#[test]
fn tests_handle_edit_by_alias() {
    let opened = edit(&single_note_index(), "REST").unwrap();
    assert!(opened.ends_with("01HQ3K5M7N-api-design.md"));
}

#[test]
fn handlers_handle_edit_not_found_returns_error() {
    tests_handle_edit_not_found_returns_error();
}

#[test]
fn handlers_handle_edit_ambiguous_returns_error() {
    tests_handle_edit_ambiguous_returns_error();
}

#[test]
fn handlers_handle_edit_by_id_prefix() {
    tests_handle_edit_by_id_prefix();
}

#[test]
fn handlers_handle_edit_by_title() {
    tests_handle_edit_by_title();
}

#[test]
fn handlers_handle_edit_by_alias() {
    tests_handle_edit_by_alias();
}

#[test]
fn edit_updates_modified_timestamp_only() {
    let note = api_design();
    let updated = den::cli::show_edit::update_modified_timestamp(&note, later()).unwrap();
    assert_eq!(updated.modified(), later());
    assert_eq!(updated.created(), note.created());
    assert_eq!(updated.title(), note.title());
    assert_eq!(updated.tags().len(), note.tags().len());
}

fn test_note_with_tags(tags: &[&str]) -> Note {
    Note::builder(id("01HQ3K5M7NXJK4QZPW8V2R6T9A"), "Test Note", jan15(), jan15())
        .tags(tags.iter().map(|t| Tag::new(t).unwrap()).collect())
        .build()
        .unwrap()
}

fn tag(note: &Note, t: &str) -> Result<Option<Note>, String> {
    let args = TagArgs { note: "Test Note".to_string(), tag: t.to_string() };
    handle_tag(&args, note, later()).map_err(|e| e.to_string())
}

fn untag(note: &Note, t: &str) -> Result<Option<Note>, String> {
    let args = UntagArgs { note: "Test Note".to_string(), tag: t.to_string() };
    handle_untag(&args, note, later()).map_err(|e| e.to_string())
}

#[test]
fn handle_tag_note_not_found() {
    let mut index = NoteIndex::new();
    index.upsert(IndexedNote::from_note(&test_note_with_tags(&[]), "01HQ3K5M7N-test-note.md"));
    let err = resolve_unique(&index, "nonexistent").unwrap_err();
    assert!(err.to_string().contains("not found"));
}

#[test]
fn handle_tag_invalid_tag() {
    let err = tag(&test_note_with_tags(&[]), "has spaces").unwrap_err();
    assert!(err.contains("invalid tag"));
}

#[test]
fn handle_tag_by_id_prefix() {
    let mut index = NoteIndex::new();
    index.upsert(IndexedNote::from_note(&test_note_with_tags(&[]), "01HQ3K5M7N-test-note.md"));
    let found = resolve_unique(&index, "01HQ3K5M").unwrap();
    assert_eq!(found.title(), "Test Note");
    let n = tag(&test_note_with_tags(&[]), "draft").unwrap().unwrap();
    assert!(n.tags().iter().any(|t| t.as_str() == "draft"));
}

#[test]
fn handle_tag_by_title() {
    let mut index = NoteIndex::new();
    index.upsert(IndexedNote::from_note(&test_note_with_tags(&[]), "01HQ3K5M7N-test-note.md"));
    let found = resolve_unique(&index, "Test Note").unwrap();
    assert_eq!(found.path(), "01HQ3K5M7N-test-note.md");
}

#[test]
fn handle_tag_adds_to_empty() {
    let n = tag(&test_note_with_tags(&[]), "draft").unwrap().unwrap();
    assert_eq!(n.tags().len(), 1);
    assert_eq!(n.tags()[0].as_str(), "draft");
}

#[test]
fn handle_tag_appends_to_existing() {
    let n = tag(&test_note_with_tags(&["existing"]), "new-tag").unwrap().unwrap();
    assert_eq!(n.tags().len(), 2);
    assert!(n.tags().iter().any(|t| t.as_str() == "existing"));
    assert!(n.tags().iter().any(|t| t.as_str() == "new-tag"));
}

#[test]
fn handle_tag_normalizes_case() {
    let n = tag(&test_note_with_tags(&[]), "DRAFT").unwrap().unwrap();
    assert_eq!(n.tags()[0].as_str(), "draft");
}

#[test]
fn handle_tag_idempotent_exact_case() {
    assert!(tag(&test_note_with_tags(&["draft"]), "draft").unwrap().is_none());
}

#[test]
fn handle_tag_idempotent_different_case() {
    assert!(tag(&test_note_with_tags(&["draft"]), "DRAFT").unwrap().is_none());
}

#[test]
fn handle_tag_updates_modified_when_changed() {
    let n = tag(&test_note_with_tags(&[]), "draft").unwrap().unwrap();
    assert_eq!(n.modified(), later());
    assert_eq!(n.created(), jan15());
}

#[test]
fn handle_untag_removes_tag() {
    let n = untag(&test_note_with_tags(&["draft", "keep"]), "draft").unwrap().unwrap();
    assert_eq!(n.tags().len(), 1);
    assert_eq!(n.tags()[0].as_str(), "keep");
    assert_eq!(n.modified(), later());
}

#[test]
fn handle_untag_case_insensitive() {
    let n = untag(&test_note_with_tags(&["draft"]), "DRAFT").unwrap().unwrap();
    assert!(n.tags().is_empty());
}

#[test]
fn handle_untag_idempotent_tag_not_present() {
    assert!(untag(&test_note_with_tags(&["other"]), "draft").unwrap().is_none());
    assert!(untag(&test_note_with_tags(&[]), "draft").unwrap().is_none());
}

#[test]
fn handle_untag_invalid_tag() {
    let err = untag(&test_note_with_tags(&[]), "has spaces").unwrap_err();
    assert!(err.contains("invalid tag"));
}

#[test]
fn tag_then_untag_restores_tags() {
    let original = test_note_with_tags(&["a"]);
    let tagged = tag(&original, "b").unwrap().unwrap();
    let back = untag(&tagged, "b").unwrap().unwrap();
    let names: Vec<&str> = back.tags().iter().map(|t| t.as_str()).collect();
    assert_eq!(names, vec!["a"]);
}

fn backlinks_index() -> NoteIndex {
    let target = id("01HQ3K5M7NXJK4QZPW8V2R6T9A");
    let mut index = NoteIndex::new();
    let t = Note::new(target, "Target", jan15(), jan15()).unwrap();
    let older = Note::builder(id("01HQ3K5M7NXJK4QZPW8V2R6T9B"), "Older", jan15(), jan15())
        .links(vec![Link::new(target, vec!["parent"]).unwrap()])
        .build()
        .unwrap();
    let newer = Note::builder(id("01HQ3K5M7NXJK4QZPW8V2R6T9C"), "Newer", jan15(), later())
        .links(vec![Link::new(target, vec!["see-also"]).unwrap()])
        .build()
        .unwrap();
    let unrelated = Note::new(id("01HQ3K5M7NXJK4QZPW8V2R6T9D"), "Unrelated", jan15(), later()).unwrap();
    index.upsert(IndexedNote::from_note(&t, "t.md"));
    index.upsert(IndexedNote::from_note(&older, "o.md"));
    index.upsert(IndexedNote::from_note(&newer, "n.md"));
    index.upsert(IndexedNote::from_note(&unrelated, "u.md"));
    index
}

fn backlinks(note: &str, rel: Option<&str>) -> Result<Vec<String>, String> {
    let args = BacklinksArgs { note: note.to_string(), rel: rel.map(|r| r.to_string()), format: OutputFormat::Human };
    handle_backlinks(&backlinks_index(), &args)
        .map(|v| v.iter().map(|n| n.title().to_string()).collect())
        .map_err(|e| e.to_string())
}

#[test]
fn backlinks_returns_linking_notes_newest_first() {
    assert_eq!(backlinks("Target", None).unwrap(), vec!["Newer", "Older"]);
}

#[test]
fn backlinks_with_rel_filter_returns_matching_only() {
    assert_eq!(backlinks("Target", Some("PARENT")).unwrap(), vec!["Older"]);
    assert!(backlinks("Target", Some("child")).unwrap().is_empty());
}

#[test]
fn backlinks_errors() {
    assert_eq!(backlinks("missing", None).unwrap_err(), "note not found: 'missing'");
    assert!(backlinks("Target", Some("bad rel")).unwrap_err().starts_with("invalid relationship type 'bad rel': "));
    assert!(backlinks("Unrelated", None).unwrap().is_empty());
}

fn lines(r: &den::cli::check::CheckReport) -> Vec<&str> {
    r.stdout.iter().map(|s| s.as_str()).collect()
}

#[test]
fn check_with_no_files_reports_none_found() {
    let r = handle_check(&CheckArgs { fix: false }, 0, &[], vec![]);
    assert_eq!(lines(&r), vec!["No notes found."]);
    assert!(!r.failed);
    assert!(r.repaired.is_empty());
}

#[test]
fn check_of_valid_notes_is_ok() {
    let a = Note::builder(id("01HQ3K5M7NXJK4QZPW8V2R6T9A"), "A", jan15(), jan15())
        .topics(vec![Topic::new("software").unwrap()])
        .build()
        .unwrap();
    let notes = vec![("a.md".to_string(), &a)];
    let r = handle_check(&CheckArgs { fix: true }, 1, &notes, vec![]);
    assert_eq!(lines(&r), vec!["All notes OK."]);
    assert!(!r.failed);
    assert!(r.repaired.is_empty());
}

#[test]
fn check_reports_errors_first_and_fails_on_errors() {
    let orphan = Note::new(id("01HQ3K5M7NXJK4QZPW8V2R6T9A"), "Orphan", jan15(), jan15()).unwrap();
    let notes = vec![("orphan.md".to_string(), &orphan)];
    let parse = vec![ValidationIssue::parse_error("bad.md", "missing opening delimiter")];
    let r = handle_check(&CheckArgs { fix: false }, 2, &notes, parse);
    assert_eq!(
        lines(&r),
        vec![
            "error: bad.md: parse error: missing opening delimiter",
            "warning: orphan.md: orphaned note (no topics)",
            "\nFound 2 issue(s): 1 error(s), 1 warning(s)",
        ]
    );
    assert!(r.failed);
}

#[test]
fn check_warnings_dont_cause_failure() {
    let orphan = Note::new(id("01HQ3K5M7NXJK4QZPW8V2R6T9A"), "Orphan", jan15(), jan15()).unwrap();
    let notes = vec![("orphan.md".to_string(), &orphan)];
    let r = handle_check(&CheckArgs { fix: false }, 1, &notes, vec![]);
    assert_eq!(r.stdout.last().unwrap(), "\nFound 1 issue(s): 0 error(s), 1 warning(s)");
    assert!(!r.failed);
}
