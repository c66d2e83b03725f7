use den::cli::links::{merge_or_add_link, remove_link};
use den::domain::link::Link;
use den::domain::note_id::NoteId;

fn test_note_id(suffix: &str) -> NoteId {
    format!("01HQ3K5M7NXJK4QZPW{}", suffix).parse().unwrap()
}

#[test]
fn remove_link_finds_and_removes_matching_target() {
    let target_id = test_note_id("8V2R6TAA");
    let links = vec![Link::new(target_id, vec!["see-also"]).unwrap()];

    let (result, changed) = remove_link(&links, &target_id);

    assert!(changed);
    assert!(result.is_empty());
}

#[test]
fn remove_link_returns_false_when_target_not_found() {
    let existing_id = test_note_id("8V2R6TBB");
    let missing_id = test_note_id("8V2R6TCC");
    let links = vec![Link::new(existing_id, vec!["parent"]).unwrap()];

    let (result, changed) = remove_link(&links, &missing_id);

    assert!(!changed);
    assert_eq!(result.len(), 1);
}

#[test]
fn remove_link_preserves_other_links() {
    let target_id = test_note_id("8V2R6TDD");
    let other_id = test_note_id("8V2R6TEE");
    let links = vec![
        Link::new(target_id, vec!["see-also"]).unwrap(),
        Link::new(other_id, vec!["parent"]).unwrap(),
    ];

    let (result, changed) = remove_link(&links, &target_id);

    assert!(changed);
    assert_eq!(result.len(), 1);
    assert_eq!(result[0].target(), &other_id);
}

#[test]
fn remove_link_handles_empty_links() {
    let target_id = test_note_id("8V2R6TFF");
    let links: Vec<Link> = vec![];

    let (result, changed) = remove_link(&links, &target_id);

    assert!(!changed);
    assert!(result.is_empty());
}

#[test]
fn merge_adds_a_link_to_a_new_target() {
    let a = test_note_id("8V2R6TAA");
    let b = test_note_id("8V2R6TBB");
    let links = vec![Link::new(a, vec!["parent"]).unwrap()];
    let (result, changed) = merge_or_add_link(&links, &Link::new(b, vec!["see-also"]).unwrap());
    assert!(changed);
    assert_eq!(result.len(), 2);
    assert_eq!(result[1].target(), &b);
}

#[test]
fn merge_adds_new_rels_to_an_existing_link() {
    let a = test_note_id("8V2R6TAA");
    let links = vec![Link::new(a, vec!["parent"]).unwrap()];
    let (result, changed) = merge_or_add_link(&links, &Link::new(a, vec!["parent", "source"]).unwrap());
    assert!(changed);
    assert_eq!(result.len(), 1);
    let rels: Vec<&str> = result[0].rel().iter().map(|r| r.as_str()).collect();
    assert_eq!(rels, vec!["parent", "source"]);
}

#[test]
fn merge_of_the_same_link_changes_nothing() {
    let a = test_note_id("8V2R6TAA");
    let links = vec![Link::with_context(a, vec!["parent"], "ctx").unwrap()];
    let (result, changed) = merge_or_add_link(&links, &Link::new(a, vec!["parent"]).unwrap());
    assert!(!changed);
    assert_eq!(result[0].context(), Some("ctx"));
}

#[test]
fn merge_with_new_context_replaces_it() {
    let a = test_note_id("8V2R6TAA");
    let links = vec![Link::with_context(a, vec!["parent"], "old").unwrap()];
    let (result, changed) = merge_or_add_link(&links, &Link::with_context(a, vec!["parent"], "new").unwrap());
    assert!(changed);
    assert_eq!(result[0].context(), Some("new"));
}

#[test]
fn removing_a_link_just_added_restores_the_list() {
    let a = test_note_id("8V2R6TAA");
    let b = test_note_id("8V2R6TBB");
    let links = vec![Link::new(a, vec!["parent"]).unwrap()];
    let (added, _) = merge_or_add_link(&links, &Link::new(b, vec!["see-also"]).unwrap());
    let (removed, changed) = remove_link(&added, &b);
    assert!(changed);
    assert_eq!(removed, links);
}
