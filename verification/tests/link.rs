use den::domain::link::{Link, Rel};
use den::domain::note_id::NoteId;

fn test_note_id() -> NoteId {
    "01HQ3K5M7NXJK4QZPW8V2R6T9Y".parse().unwrap()
}

#[test]
fn rel_normalizes_mixed_case() {
    let rel = Rel::new("ManagerOf").unwrap();
    assert_eq!(rel.to_string(), "managerof");
}

#[test]
fn rel_allows_alphanumeric() {
    assert!(Rel::new("rel123").is_ok());
}

#[test]
fn rel_display_shows_normalized() {
    let rel = Rel::new("SeeAlso").unwrap();
    assert_eq!(rel.to_string(), "seealso");
}

#[test]
fn link_new_with_single_rel() {
    let link = Link::new(test_note_id(), vec!["parent"]).unwrap();
    assert_eq!(link.rel().len(), 1);
    assert_eq!(link.rel()[0].as_str(), "parent");
}

#[test]
fn link_new_with_multiple_rels() {
    let link = Link::new(test_note_id(), vec!["manager-of", "mentor-to"]).unwrap();
    assert_eq!(link.rel().len(), 2);
    assert_eq!(link.rel()[0].as_str(), "manager-of");
    assert_eq!(link.rel()[1].as_str(), "mentor-to");
}

#[test]
fn link_new_with_context() {
    let link = Link::with_context(test_note_id(), vec!["parent"], "Hired me at Acme Corp").unwrap();
    assert_eq!(link.context(), Some("Hired me at Acme Corp"));
}

#[test]
fn link_rejects_empty_rel_vec() {
    let result = Link::new(test_note_id(), Vec::<&str>::new());
    assert!(result.is_err());
}

#[test]
fn link_rejects_invalid_rel() {
    let err = Link::new(test_note_id(), vec!["parent", "see also"]).unwrap_err();
    assert!(err.to_string().contains("see also"));
}

#[test]
fn link_target_accessor() {
    let target = test_note_id();
    let link = Link::new(target, vec!["parent"]).unwrap();
    assert_eq!(link.target(), &target);
}

#[test]
fn link_rel_accessor() {
    let link = Link::new(test_note_id(), vec!["parent", "mentor"]).unwrap();
    let rels: Vec<&str> = link.rel().iter().map(|r| r.as_str()).collect();
    assert_eq!(rels, vec!["parent", "mentor"]);
}

#[test]
fn link_context_accessor_none() {
    let link = Link::new(test_note_id(), vec!["parent"]).unwrap();
    assert_eq!(link.context(), None);
}

#[test]
fn link_equality_same_target_and_rels() {
    let link1 = Link::new(test_note_id(), vec!["parent"]).unwrap();
    let link2 = Link::new(test_note_id(), vec!["parent"]).unwrap();
    assert_eq!(link1, link2);
}

#[test]
fn link_inequality_different_target() {
    let id1: NoteId = "01HQ3K5M7NXJK4QZPW8V2R6T9Y".parse().unwrap();
    let id2: NoteId = "01HQ4A2R9PXJK4QZPW8V2R6T9Y".parse().unwrap();
    let link1 = Link::new(id1, vec!["parent"]).unwrap();
    let link2 = Link::new(id2, vec!["parent"]).unwrap();
    assert_ne!(link1, link2);
}

#[test]
fn link_inequality_different_rels() {
    let link1 = Link::new(test_note_id(), vec!["parent"]).unwrap();
    let link2 = Link::new(test_note_id(), vec!["child"]).unwrap();
    assert_ne!(link1, link2);
}

#[test]
fn link_equality_ignores_context() {
    let link1 = Link::with_context(test_note_id(), vec!["parent"], "context 1").unwrap();
    let link2 = Link::with_context(test_note_id(), vec!["parent"], "context 2").unwrap();
    assert_eq!(link1, link2);
}

#[test]
fn link_display_format() {
    let link = Link::new(test_note_id(), vec!["parent", "mentor"]).unwrap();
    let display = link.to_string();
    assert!(display.contains("01HQ3K5M"));
    assert!(display.contains("parent"));
    assert!(display.contains("mentor"));
    assert_eq!(display, "01HQ3K5M7N [parent, mentor]");
}

#[test]
fn link_debug_format() {
    let link = Link::new(test_note_id(), vec!["parent"]).unwrap();
    let debug = format!("{:?}", link);
    assert!(debug.contains("Link"));
    assert!(debug.contains("target"));
    assert!(debug.contains("rel"));
}
