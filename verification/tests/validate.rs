use den::domain::link::Link;
use den::domain::note::Note;
use den::domain::note_id::NoteId;
use den::domain::timestamp::Timestamp;
use den::domain::topic::Topic;
use den::domain::validate::{find_broken_links, find_duplicate_ids, find_orphaned_notes, validate_notes};
use den::domain::validation::{Severity, ValidationKind};

fn id(s: &str) -> NoteId {
    NoteId::parse(s).unwrap()
}

fn test_note_id() -> NoteId {
    id("01HQ3K5M7NXJK4QZPW8V2R6T9Y")
}

fn test_datetime() -> Timestamp {
    // 2024-01-15T10:30:00Z
    Timestamp::from_unix(1_705_314_600, 0).unwrap()
}

fn test_note(id_str: &str, title: &str) -> Note {
    Note::new(id(id_str), title, test_datetime(), test_datetime()).unwrap()
}

fn test_note_with_id(nid: NoteId, title: &str) -> Note {
    Note::new(nid, title, test_datetime(), test_datetime()).unwrap()
}

fn test_note_without_links() -> Note {
    Note::new(test_note_id(), "No Links", test_datetime(), test_datetime()).unwrap()
}

fn test_note_with_topics(id_str: &str, topics: Vec<&str>) -> Note {
    let ts: Vec<Topic> = topics.iter().map(|t| Topic::new(t).unwrap()).collect();
    Note::builder(id(id_str), "Test", test_datetime(), test_datetime()).topics(ts).build().unwrap()
}

fn test_note_without_topics() -> Note {
    Note::new(test_note_id(), "Orphan", test_datetime(), test_datetime()).unwrap()
}

fn test_note_without_topics_with_id(id_str: &str) -> Note {
    Note::new(id(id_str), "Orphan", test_datetime(), test_datetime()).unwrap()
}

fn test_note_with_link(id_str: &str, target: NoteId) -> Note {
    let link = Link::new(target, vec!["see-also"]).unwrap();
    Note::builder(id(id_str), "Linked", test_datetime(), test_datetime()).links(vec![link]).build().unwrap()
}

fn test_note_with_links(id_str: &str, targets: Vec<NoteId>) -> Note {
    let links: Vec<Link> = targets.into_iter().map(|t| Link::new(t, vec!["see-also"]).unwrap()).collect();
    Note::builder(id(id_str), "Multi-linked", test_datetime(), test_datetime()).links(links).build().unwrap()
}

fn test_note_with_self_link(id_str: &str) -> Note {
    let nid = id(id_str);
    let link = Link::new(nid, vec!["self-ref"]).unwrap();
    Note::builder(nid, "Self-linked", test_datetime(), test_datetime()).links(vec![link]).build().unwrap()
}

fn test_note_with_topics_and_links(id_str: &str, topics: Vec<&str>, link_targets: Vec<NoteId>) -> Note {
    let ts: Vec<Topic> = topics.iter().map(|t| Topic::new(t).unwrap()).collect();
    let links: Vec<Link> = link_targets.into_iter().map(|t| Link::new(t, vec!["see-also"]).unwrap()).collect();
    Note::builder(id(id_str), "Full Note", test_datetime(), test_datetime())
        .topics(ts)
        .links(links)
        .build()
        .unwrap()
}

fn p(s: &str) -> String {
    s.to_string()
}

#[test]
fn duplicate_ids_empty_collection() {
    let notes: Vec<(String, &Note)> = vec![];
    let issues = find_duplicate_ids(&notes);
    assert!(issues.is_empty());
}

#[test]
fn duplicate_ids_single_note() {
    let note = test_note("01HQ3K5M7NXJK4QZPW8V2R6T9Y", "Note A");
    let notes = vec![(p("a.md"), &note)];
    let issues = find_duplicate_ids(&notes);
    assert!(issues.is_empty());
}

#[test]
fn duplicate_ids_unique_ids() {
    let note_a = test_note("01HQ3K5M7NXJK4QZPW8V2R6T9A", "Note A");
    let note_b = test_note("01HQ3K5M7NXJK4QZPW8V2R6T9B", "Note B");
    let notes = vec![(p("a.md"), &note_a), (p("b.md"), &note_b)];
    let issues = find_duplicate_ids(&notes);
    assert!(issues.is_empty());
}

#[test]
fn duplicate_ids_detects_duplicate() {
    let nid = test_note_id();
    let note_a = test_note_with_id(nid, "Note A");
    let note_b = test_note_with_id(nid, "Note B");
    let notes = vec![(p("a.md"), &note_a), (p("b.md"), &note_b)];
    let issues = find_duplicate_ids(&notes);

    assert_eq!(issues.len(), 1);
    assert!(issues[0].is_duplicate_id());
    assert_eq!(issues[0].path, "b.md");
}

#[test]
fn duplicate_ids_issue_references_first_path() {
    let nid = test_note_id();
    let note_a = test_note_with_id(nid, "Note A");
    let note_b = test_note_with_id(nid, "Note B");
    let notes = vec![(p("first.md"), &note_a), (p("second.md"), &note_b)];
    let issues = find_duplicate_ids(&notes);

    if let ValidationKind::DuplicateId { first_path, .. } = &issues[0].kind {
        assert_eq!(first_path, "first.md");
    } else {
        panic!("Expected DuplicateId");
    }
}

#[test]
fn duplicate_ids_multiple_duplicates() {
    let nid = test_note_id();
    let notes_owned: Vec<Note> = (0..3).map(|i| test_note_with_id(nid, &format!("Note {}", i))).collect();
    let note_refs: Vec<(String, &Note)> =
        notes_owned.iter().enumerate().map(|(i, n)| (format!("{}.md", i), n)).collect();

    let issues = find_duplicate_ids(&note_refs);
    assert_eq!(issues.len(), 2);
}

#[test]
fn duplicate_ids_different_ids() {
    let id_x = id("01HQ3K5M7NXJK4QZPW8V2R6T9X");
    let id_y = id("01HQ3K5M7NXJK4QZPW8V2R6T9Z");
    let notes_owned = vec![
        test_note_with_id(id_x, "X1"),
        test_note_with_id(id_x, "X2"),
        test_note_with_id(id_y, "Y1"),
        test_note_with_id(id_y, "Y2"),
    ];
    let note_refs: Vec<(String, &Note)> =
        notes_owned.iter().enumerate().map(|(i, n)| (format!("{}.md", i), n)).collect();

    let issues = find_duplicate_ids(&note_refs);
    assert_eq!(issues.len(), 2);
}

#[test]
fn broken_links_empty_collection() {
    let notes: Vec<(String, &Note)> = vec![];
    let known_ids: Vec<NoteId> = vec![];
    let issues = find_broken_links(&notes, &known_ids);
    assert!(issues.is_empty());
}

#[test]
fn broken_links_no_links() {
    let note = test_note_without_links();
    let notes = vec![(p("a.md"), &note)];
    let known_ids = vec![*note.id()];
    let issues = find_broken_links(&notes, &known_ids);
    assert!(issues.is_empty());
}

#[test]
fn broken_links_valid_link() {
    let target_id = id("01HQ3K5M7NXJK4QZPW8V2R6T9B");
    let note = test_note_with_link("01HQ3K5M7NXJK4QZPW8V2R6T9A", target_id);
    let notes = vec![(p("a.md"), &note)];
    let known_ids = vec![*note.id(), target_id];
    let issues = find_broken_links(&notes, &known_ids);
    assert!(issues.is_empty());
}

#[test]
fn broken_links_detects_missing_target() {
    let target_id = id("01HQ3K5M7NXJK4QZPW8V2R6T9B");
    let note = test_note_with_link("01HQ3K5M7NXJK4QZPW8V2R6T9A", target_id);
    let notes = vec![(p("a.md"), &note)];
    let known_ids = vec![*note.id()];

    let issues = find_broken_links(&notes, &known_ids);

    assert_eq!(issues.len(), 1);
    assert!(issues[0].is_broken_link());
    assert_eq!(issues[0].path, "a.md");
}

#[test]
fn broken_links_issue_contains_target() {
    let target_id = id("01HQ3K5M7NXJK4QZPW8V2R6T9B");
    let note = test_note_with_link("01HQ3K5M7NXJK4QZPW8V2R6T9A", target_id);
    let notes = vec![(p("a.md"), &note)];
    let known_ids = vec![*note.id()];

    let issues = find_broken_links(&notes, &known_ids);

    if let ValidationKind::BrokenLink { target_id: tid } = &issues[0].kind {
        assert_eq!(tid, &target_id);
    } else {
        panic!("Expected BrokenLink");
    }
}

#[test]
fn broken_links_multiple_in_one_note() {
    let target_a = id("01HQ3K5M7NXJK4QZPW8V2R6T9A");
    let target_b = id("01HQ3K5M7NXJK4QZPW8V2R6T9B");
    let note = test_note_with_links("01HQ3K5M7NXJK4QZPW8V2R6T9C", vec![target_a, target_b]);
    let notes = vec![(p("a.md"), &note)];
    let known_ids = vec![*note.id()];

    let issues = find_broken_links(&notes, &known_ids);
    assert_eq!(issues.len(), 2);
}

#[test]
fn broken_links_mix_valid_and_broken() {
    let valid_target = id("01HQ3K5M7NXJK4QZPW8V2R6T9A");
    let broken_target = id("01HQ3K5M7NXJK4QZPW8V2R6T9B");
    let note = test_note_with_links("01HQ3K5M7NXJK4QZPW8V2R6T9C", vec![valid_target, broken_target]);
    let notes = vec![(p("a.md"), &note)];
    let known_ids = vec![*note.id(), valid_target];

    let issues = find_broken_links(&notes, &known_ids);
    assert_eq!(issues.len(), 1);
}

#[test]
fn broken_links_across_notes() {
    let missing = id("01HQ3K5M7NXJK4QZPW8V2R6T9X");
    let note_a = test_note_with_link("01HQ3K5M7NXJK4QZPW8V2R6T9A", missing);
    let note_b = test_note_with_link("01HQ3K5M7NXJK4QZPW8V2R6T9B", missing);
    let notes = vec![(p("a.md"), &note_a), (p("b.md"), &note_b)];
    let known_ids = vec![*note_a.id(), *note_b.id()];

    let issues = find_broken_links(&notes, &known_ids);
    assert_eq!(issues.len(), 2);
}

#[test]
fn orphaned_empty_collection() {
    let notes: Vec<(String, &Note)> = vec![];
    let issues = find_orphaned_notes(&notes);
    assert!(issues.is_empty());
}

#[test]
fn orphaned_note_with_topics() {
    let note = test_note_with_topics("01HQ3K5M7NXJK4QZPW8V2R6T9A", vec!["software/rust"]);
    let notes = vec![(p("a.md"), &note)];
    let issues = find_orphaned_notes(&notes);
    assert!(issues.is_empty());
}

#[test]
fn orphaned_note_without_topics() {
    let note = test_note_without_topics();
    let notes = vec![(p("orphan.md"), &note)];
    let issues = find_orphaned_notes(&notes);

    assert_eq!(issues.len(), 1);
    assert!(issues[0].is_orphaned());
    assert_eq!(issues[0].path, "orphan.md");
    assert_eq!(issues[0].severity(), Severity::Warning);
}

#[test]
fn orphaned_mixed() {
    let with_topics = test_note_with_topics("01HQ3K5M7NXJK4QZPW8V2R6T9A", vec!["software"]);
    let without_topics = test_note_without_topics_with_id("01HQ3K5M7NXJK4QZPW8V2R6T9B");
    let notes = vec![(p("ok.md"), &with_topics), (p("orphan.md"), &without_topics)];

    let issues = find_orphaned_notes(&notes);
    assert_eq!(issues.len(), 1);
    assert_eq!(issues[0].path, "orphan.md");
}

#[test]
fn orphaned_multiple() {
    let orphan_a = test_note_without_topics_with_id("01HQ3K5M7NXJK4QZPW8V2R6T9A");
    let orphan_b = test_note_without_topics_with_id("01HQ3K5M7NXJK4QZPW8V2R6T9B");
    let notes = vec![(p("a.md"), &orphan_a), (p("b.md"), &orphan_b)];

    let issues = find_orphaned_notes(&notes);
    assert_eq!(issues.len(), 2);
}

#[test]
fn validate_notes_empty() {
    let notes: Vec<(String, &Note)> = vec![];
    let summary = validate_notes(&notes);
    assert!(summary.is_ok());
    assert_eq!(summary.total(), 0);
}

#[test]
fn validate_notes_all_valid() {
    let note_a = test_note_with_topics_and_links("01HQ3K5M7NXJK4QZPW8V2R6T9A", vec!["software"], vec![]);
    let note_b = test_note_with_topics_and_links("01HQ3K5M7NXJK4QZPW8V2R6T9B", vec!["reference"], vec![]);
    let notes = vec![(p("a.md"), &note_a), (p("b.md"), &note_b)];

    let summary = validate_notes(&notes);
    assert!(summary.is_ok());
}

#[test]
fn validate_notes_combines_issues() {
    let missing_target = id("01HQ3K5M7NXJK4QZPW8V2R6T9X");
    let note_dup1 = test_note_with_topics_and_links("01HQ3K5M7NXJK4QZPW8V2R6T9D", vec!["software"], vec![]);
    let dup2_id = id("01HQ3K5M7NXJK4QZPW8V2R6T9D");
    let note_dup2 = Note::builder(dup2_id, "Dup2", test_datetime(), test_datetime())
        .topics(vec![Topic::new("reference").unwrap()])
        .build()
        .unwrap();
    let note_broken = test_note_with_link("01HQ3K5M7NXJK4QZPW8V2R6T9E", missing_target);
    let note_orphan = test_note_without_topics_with_id("01HQ3K5M7NXJK4QZPW8V2R6T9F");

    let notes = vec![
        (p("dup1.md"), &note_dup1),
        (p("dup2.md"), &note_dup2),
        (p("broken.md"), &note_broken),
        (p("orphan.md"), &note_orphan),
    ];

    let summary = validate_notes(&notes);

    assert_eq!(summary.duplicate_ids().len(), 1);
    assert_eq!(summary.broken_links().len(), 1);
    assert_eq!(summary.orphaned_notes().len(), 2);
}

#[test]
fn validate_notes_correct_counts() {
    let missing = id("01HQ3K5M7NXJK4QZPW8V2R6T9X");
    let note_dup1 = test_note_with_topics_and_links("01HQ3K5M7NXJK4QZPW8V2R6T9D", vec!["software"], vec![]);
    let dup2_id = id("01HQ3K5M7NXJK4QZPW8V2R6T9D");
    let note_dup2 = Note::builder(dup2_id, "Dup2", test_datetime(), test_datetime())
        .topics(vec![Topic::new("ref").unwrap()])
        .build()
        .unwrap();
    let note_broken = test_note_with_link("01HQ3K5M7NXJK4QZPW8V2R6T9E", missing);
    let note_orphan = test_note_without_topics_with_id("01HQ3K5M7NXJK4QZPW8V2R6T9F");

    let notes = vec![
        (p("dup1.md"), &note_dup1),
        (p("dup2.md"), &note_dup2),
        (p("broken.md"), &note_broken),
        (p("orphan.md"), &note_orphan),
    ];

    let summary = validate_notes(&notes);

    assert_eq!(summary.error_count(), 2);
    assert_eq!(summary.warning_count(), 2);
    assert_eq!(summary.total(), 4);
    assert!(summary.has_errors());
}

#[test]
fn self_referencing_link_valid() {
    let note = test_note_with_self_link("01HQ3K5M7NXJK4QZPW8V2R6T9A");
    let notes = vec![(p("a.md"), &note)];
    let known_ids = vec![*note.id()];

    let issues = find_broken_links(&notes, &known_ids);
    assert!(issues.is_empty());
}

#[test]
fn empty_topics_array_is_orphaned() {
    let note = Note::builder(test_note_id(), "Empty Topics", test_datetime(), test_datetime())
        .topics(vec![])
        .build()
        .unwrap();
    let notes = vec![(p("a.md"), &note)];

    let issues = find_orphaned_notes(&notes);
    assert_eq!(issues.len(), 1);
}

#[test]
fn duplicate_first_wins() {
    let nid = test_note_id();
    let note_a = test_note_with_id(nid, "First");
    let note_b = test_note_with_id(nid, "Second");

    let notes_ab = vec![(p("a.md"), &note_a), (p("b.md"), &note_b)];
    let issues = find_duplicate_ids(&notes_ab);
    if let ValidationKind::DuplicateId { first_path, .. } = &issues[0].kind {
        assert_eq!(first_path, "a.md");
    } else {
        panic!("Expected DuplicateId");
    }
}

#[test]
fn validate_notes_with_cross_references() {
    let id_a = id("01HQ3K5M7NXJK4QZPW8V2R6T9A");
    let id_b = id("01HQ3K5M7NXJK4QZPW8V2R6T9B");

    let note_a = test_note_with_topics_and_links("01HQ3K5M7NXJK4QZPW8V2R6T9A", vec!["software"], vec![id_b]);
    let note_b = test_note_with_topics_and_links("01HQ3K5M7NXJK4QZPW8V2R6T9B", vec!["reference"], vec![id_a]);

    let notes = vec![(p("a.md"), &note_a), (p("b.md"), &note_b)];

    let summary = validate_notes(&notes);
    assert!(summary.is_ok());
}
