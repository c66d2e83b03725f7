use den::cli::args::{CheckArgs, TagArgs, UntagArgs};
use den::cli::check::handle_check;
use den::cli::index::{IndexedNote, NoteIndex};
use den::cli::new::create_new_note;
use den::cli::show_edit::resolve_unique;
use den::cli::tagging::{handle_tag, handle_untag};
use den::domain::note::Note;
use den::domain::note_id::NoteId;
use den::domain::tag::Tag;
use den::domain::timestamp::Timestamp;

/// 2024-01-15T10:30:00Z
fn jan15() -> Timestamp {
    Timestamp::from_unix(1_705_314_600, 0).unwrap()
}

fn now() -> Timestamp {
    Timestamp::from_unix(1_800_000_000, 0).unwrap()
}

const PATH: &str = "01HQ3K5M7N-test-note.md";

fn note_with_tags(tags: &[&str]) -> Note {
    Note::builder(NoteId::parse("01HQ3K5M7NXJK4QZPW8V2R6T9A").unwrap(), "Test Note", jan15(), jan15())
        .tags(tags.iter().map(|t| Tag::new(t).unwrap()).collect())
        .build()
        .unwrap()
}

/// `tag`, as the command runs it on a directory holding `note`: the reference
/// is resolved, then the note is tagged; `Ok(None)` when nothing is written.
fn tag_in(note: &Note, reference: &str, tag: &str) -> Result<Option<Note>, String> {
    let mut index = NoteIndex::new();
    index.upsert(IndexedNote::from_note(note, PATH));
    let found = resolve_unique(&index, reference).map_err(|e| e.to_string())?;
    assert_eq!(found.path(), PATH);
    let args = TagArgs { note: reference.to_string(), tag: tag.to_string() };
    handle_tag(&args, note, now()).map_err(|e| e.to_string())
}

/// `untag`, as the command runs it on a directory holding `note`.
fn untag_in(note: &Note, reference: &str, tag: &str) -> Result<Option<Note>, String> {
    let mut index = NoteIndex::new();
    index.upsert(IndexedNote::from_note(note, PATH));
    let found = resolve_unique(&index, reference).map_err(|e| e.to_string())?;
    assert_eq!(found.path(), PATH);
    let args = UntagArgs { note: reference.to_string(), tag: tag.to_string() };
    handle_untag(&args, note, now()).map_err(|e| e.to_string())
}

/// The note as the file holds it after the command.
fn after(before: &Note, outcome: Option<Note>) -> Note {
    outcome.unwrap_or_else(|| before.clone())
}

fn tag_names(note: &Note) -> Vec<&str> {
    note.tags().iter().map(|t| t.as_str()).collect()
}

#[test]
fn handle_tag_no_timestamp_change_when_idempotent() {
    let before = note_with_tags(&["draft"]);
    let outcome = tag_in(&before, "Test Note", "draft").unwrap();
    assert!(outcome.is_none());
    assert_eq!(after(&before, outcome).modified(), before.modified());
}

#[test]
fn handle_untag_note_not_found() {
    let err = untag_in(&note_with_tags(&["draft"]), "nonexistent", "draft").unwrap_err();
    assert!(err.contains("not found"));
}

#[test]
fn handle_untag_by_id_prefix() {
    let before = note_with_tags(&["draft"]);
    let outcome = untag_in(&before, "01HQ3K5M", "draft").unwrap();
    assert!(after(&before, outcome).tags().is_empty());
}

#[test]
fn handle_untag_by_title() {
    let before = note_with_tags(&["draft"]);
    let outcome = untag_in(&before, "Test Note", "draft").unwrap();
    assert!(after(&before, outcome).tags().is_empty());
}

#[test]
fn handle_untag_removes_last_tag() {
    let before = note_with_tags(&["draft"]);
    let outcome = untag_in(&before, "Test Note", "draft").unwrap();
    assert!(after(&before, outcome).tags().is_empty());
}

#[test]
fn handle_untag_removes_one_of_two_tags() {
    let before = note_with_tags(&["draft", "important"]);
    let outcome = untag_in(&before, "Test Note", "draft").unwrap();
    assert_eq!(tag_names(&after(&before, outcome)), vec!["important"]);
}

#[test]
fn handle_untag_idempotent_no_tags() {
    let before = note_with_tags(&[]);
    assert!(untag_in(&before, "Test Note", "draft").is_ok());
}

#[test]
fn handle_untag_updates_modified_when_changed() {
    let before = note_with_tags(&["draft"]);
    let outcome = untag_in(&before, "Test Note", "draft").unwrap();
    assert!(after(&before, outcome).modified() > before.modified());
}

#[test]
fn handle_untag_no_timestamp_change_when_idempotent() {
    let before = note_with_tags(&["important"]);
    let outcome = untag_in(&before, "Test Note", "draft").unwrap();
    assert!(outcome.is_none());
    assert_eq!(after(&before, outcome).modified(), before.modified());
}

#[test]
fn handle_tag_updates_modified_timestamp() {
    let before = note_with_tags(&[]);
    let outcome = tag_in(&before, "Test Note", "draft").unwrap();
    assert!(after(&before, outcome).modified() > before.modified());
}

fn new_note_error(title: &str, topics: &[&str], tags: &[&str]) -> bool {
    let topics: Vec<String> = topics.iter().map(|s| s.to_string()).collect();
    let tags: Vec<String> = tags.iter().map(|s| s.to_string()).collect();
    create_new_note(title, None, &topics, &tags, &[], None, now()).is_err()
}

#[test]
fn tests_handle_new_fails_with_invalid_topic() {
    assert!(new_note_error("Test Note", &["invalid@topic"], &[]));
}

#[test]
fn tests_handle_new_fails_with_invalid_tag() {
    assert!(new_note_error("Test Note", &[], &["has spaces"]));
}

#[test]
fn tests_handle_new_fails_with_empty_title() {
    assert!(new_note_error("", &[], &[]));
}

#[test]
fn handlers_handle_new_fails_with_invalid_topic() {
    tests_handle_new_fails_with_invalid_topic();
}

#[test]
fn handlers_handle_new_fails_with_invalid_tag() {
    tests_handle_new_fails_with_invalid_tag();
}

#[test]
fn handlers_handle_new_fails_with_empty_title() {
    tests_handle_new_fails_with_empty_title();
}

#[test]
fn handle_check_empty_directory_succeeds() {
    let report = handle_check(&CheckArgs { fix: false }, 0, &[], vec![]);
    assert!(!report.failed);
}
