use den::domain::note_id::NoteId;
use den::domain::validation::{Severity, ValidationIssue, ValidationKind, ValidationSummary};

fn test_note_id() -> NoteId {
    NoteId::parse("01HQ3K5M7NXJK4QZPW8V2R6T9Y").unwrap()
}

fn other_note_id() -> NoteId {
    NoteId::parse("01HQ4A2R9PXJK4QZPW8V2R6T9Y").unwrap()
}

#[test]
fn creates_parse_error_issue() {
    let issue = ValidationIssue::new(
        "notes/test.md",
        ValidationKind::ParseError("missing opening delimiter".to_string()),
    );

    assert_eq!(issue.path, "notes/test.md");
    assert!(issue.is_parse_error());
    assert_eq!(issue.severity(), Severity::Error);
}

#[test]
fn creates_duplicate_id_issue() {
    let issue = ValidationIssue::duplicate_id("notes/second.md", test_note_id(), "notes/first.md");

    assert_eq!(issue.path, "notes/second.md");
    assert!(issue.is_duplicate_id());
    assert_eq!(issue.severity(), Severity::Error);

    if let ValidationKind::DuplicateId { id, first_path } = &issue.kind {
        assert_eq!(id, &test_note_id());
        assert_eq!(first_path, "notes/first.md");
    } else {
        panic!("Expected DuplicateId variant");
    }
}

#[test]
fn creates_broken_link_issue() {
    let issue = ValidationIssue::broken_link("notes/test.md", other_note_id());

    assert_eq!(issue.path, "notes/test.md");
    assert!(issue.is_broken_link());
    assert_eq!(issue.severity(), Severity::Error);

    if let ValidationKind::BrokenLink { target_id } = &issue.kind {
        assert_eq!(target_id, &other_note_id());
    } else {
        panic!("Expected BrokenLink variant");
    }
}

#[test]
fn creates_orphaned_issue() {
    let issue = ValidationIssue::orphaned("notes/lonely.md");

    assert_eq!(issue.path, "notes/lonely.md");
    assert!(issue.is_orphaned());
    assert_eq!(issue.severity(), Severity::Warning);
}

#[test]
fn formats_parse_error() {
    let issue = ValidationIssue::new("notes/bad.md", ValidationKind::ParseError("invalid YAML".to_string()));

    let display = issue.to_string();
    assert!(display.contains("notes/bad.md"));
    assert!(display.contains("parse error"));
    assert!(display.contains("invalid YAML"));
}

#[test]
fn formats_duplicate_id() {
    let issue = ValidationIssue::duplicate_id("notes/second.md", test_note_id(), "notes/first.md");

    let display = issue.to_string();
    assert!(display.contains("notes/second.md"));
    assert!(display.contains("duplicate ID"));
    assert!(display.contains("01HQ3K5M7N"));
    assert!(display.contains("notes/first.md"));
}

#[test]
fn formats_broken_link() {
    let issue = ValidationIssue::broken_link("notes/test.md", other_note_id());

    let display = issue.to_string();
    assert!(display.contains("notes/test.md"));
    assert!(display.contains("broken link"));
    assert!(display.contains("01HQ4A2R9P"));
}

#[test]
fn formats_orphaned() {
    let issue = ValidationIssue::orphaned("notes/lonely.md");

    let display = issue.to_string();
    assert!(display.contains("notes/lonely.md"));
    assert!(display.contains("orphaned"));
    assert!(display.contains("no topics"));
}

#[test]
fn issue_text_is_path_then_message() {
    let issue = ValidationIssue::duplicate_id("b.md", test_note_id(), "a.md");
    assert_eq!(issue.to_string(), "b.md: duplicate ID '01HQ3K5M7N' (first seen in a.md)");
    let issue = ValidationIssue::broken_link("c.md", other_note_id());
    assert_eq!(issue.to_string(), "c.md: broken link to '01HQ4A2R9P'");
    let issue = ValidationIssue::orphaned("d.md");
    assert_eq!(issue.to_string(), "d.md: orphaned note (no topics)");
}

#[test]
fn severity_ordering() {
    assert!(Severity::Warning < Severity::Error);
}

#[test]
fn severity_display() {
    assert_eq!(Severity::Warning.to_string(), "warning");
    assert_eq!(Severity::Error.to_string(), "error");
}

#[test]
fn empty_summary_is_ok() {
    let summary = ValidationSummary::new();

    assert!(summary.is_ok());
    assert!(!summary.has_errors());
    assert_eq!(summary.total(), 0);
    assert_eq!(summary.error_count(), 0);
    assert_eq!(summary.warning_count(), 0);
}

#[test]
fn summary_counts_errors_and_warnings() {
    let mut summary = ValidationSummary::new();
    summary.add(ValidationIssue::orphaned("notes/a.md"));
    summary.add(ValidationIssue::orphaned("notes/b.md"));
    summary.add(ValidationIssue::broken_link("notes/c.md", test_note_id()));

    assert_eq!(summary.total(), 3);
    assert_eq!(summary.error_count(), 1);
    assert_eq!(summary.warning_count(), 2);
    assert!(!summary.is_ok());
    assert!(summary.has_errors());
}

#[test]
fn summary_filters_by_type() {
    let mut summary = ValidationSummary::new();
    summary.add(ValidationIssue::new("a.md", ValidationKind::ParseError("bad".to_string())));
    summary.add(ValidationIssue::duplicate_id("b.md", test_note_id(), "c.md"));
    summary.add(ValidationIssue::broken_link("d.md", other_note_id()));
    summary.add(ValidationIssue::orphaned("e.md"));

    assert_eq!(summary.parse_errors().len(), 1);
    assert_eq!(summary.duplicate_ids().len(), 1);
    assert_eq!(summary.broken_links().len(), 1);
    assert_eq!(summary.orphaned_notes().len(), 1);
}

#[test]
fn summary_sorts_by_severity() {
    let mut summary = ValidationSummary::new();
    summary.add(ValidationIssue::orphaned("warning.md"));
    summary.add(ValidationIssue::broken_link("error.md", test_note_id()));

    let sorted = summary.issues_by_severity();
    assert_eq!(sorted[0].severity(), Severity::Error);
    assert_eq!(sorted[1].severity(), Severity::Warning);
}
