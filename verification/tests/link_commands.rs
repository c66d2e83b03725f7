use den::cli::args::{BacklinksArgs, LinkArgs, UnlinkArgs};
use den::cli::index::{IndexedNote, NoteIndex};
use den::cli::link_cmd::{handle_backlinks, linked_note, new_link, plan_link, plan_unlink, unlinked_note};
use den::cli::output::OutputFormat;
use den::domain::link::Link;
use den::domain::note::Note;
use den::domain::note_id::NoteId;
use den::domain::timestamp::Timestamp;

fn id(s: &str) -> NoteId {
    NoteId::parse(s).unwrap()
}

/// 2024-01-15T10:30:00Z
fn jan15() -> Timestamp {
    Timestamp::from_unix(1_705_314_600, 0).unwrap()
}

fn at(secs: i64) -> Timestamp {
    Timestamp::from_unix(secs, 0).unwrap()
}

/// The notes of a notes directory: file name, note, body.
struct Vault {
    files: Vec<(String, Note, String)>,
}

impl Vault {
    fn new() -> Self {
        Vault { files: Vec::new() }
    }

    fn add(&mut self, note: Note) {
        let prefix = &note.id().to_string()[..10];
        let slug = note.title().to_lowercase().replace(' ', "-");
        let path = format!("{}-{}.md", prefix, slug);
        self.files.push((path, note, "Body content.\n".to_string()));
    }

    fn index(&self) -> NoteIndex {
        let mut index = NoteIndex::new();
        for (path, note, _) in &self.files {
            index.upsert(IndexedNote::from_note(note, path));
        }
        index
    }

    fn note(&self, path: &str) -> &Note {
        &self.files.iter().find(|(p, _, _)| p == path).unwrap().1
    }

    fn body(&self, path: &str) -> &str {
        &self.files.iter().find(|(p, _, _)| p == path).unwrap().2
    }

    fn replace(&mut self, path: &str, note: Note) {
        let entry = self.files.iter_mut().find(|(p, _, _)| p == path).unwrap();
        entry.1 = note;
    }

    /// `link`, as the command runs it: plan, read the source, merge, write.
    fn link(&mut self, args: &LinkArgs, now: Timestamp) -> Result<bool, String> {
        let plan = plan_link(&self.index(), args).map_err(|e| e.to_string())?;
        let path = plan.source.path().to_string();
        let link = new_link(plan.target, &plan.rels, args.note.as_deref());
        match linked_note(self.note(&path), &link, now).map_err(|e| e.to_string())? {
            None => Ok(false),
            Some(updated) => {
                self.replace(&path, updated);
                Ok(true)
            }
        }
    }

    /// `unlink`, as the command runs it.
    fn unlink(&mut self, args: &UnlinkArgs, now: Timestamp) -> Result<bool, String> {
        let plan = plan_unlink(&self.index(), args).map_err(|e| e.to_string())?;
        let path = plan.source.path().to_string();
        match unlinked_note(self.note(&path), &plan.target, now).map_err(|e| e.to_string())? {
            None => Ok(false),
            Some(updated) => {
                self.replace(&path, updated);
                Ok(true)
            }
        }
    }
}

const SOURCE: &str = "01HQ3K5M7N-source-note.md";

fn plain(id_text: &str, title: &str) -> Note {
    Note::new(id(id_text), title, jan15(), jan15()).unwrap()
}

fn setup_two_notes() -> Vault {
    let mut v = Vault::new();
    v.add(plain("01HQ3K5M7NXJK4QZPW8V2R6T9A", "Source Note"));
    v.add(plain("01HQ4A2R9PXJK4QZPW8V2R6T9B", "Target Note"));
    v
}

fn setup_ambiguous_notes() -> Vault {
    let mut v = Vault::new();
    v.add(plain("01HQ3K5M7NXJK4QZPW8V2R6T9A", "Note A"));
    v.add(plain("01HQ3K5M7NXJK4QZPW8V2R6T9B", "Note B"));
    v.add(plain("01HQ4A2R9PXJK4QZPW8V2R6T9C", "Target Note"));
    v
}

fn link_args(source: &str, target: &str, rels: Vec<&str>) -> LinkArgs {
    LinkArgs {
        source: source.to_string(),
        target: target.to_string(),
        rels: rels.iter().map(|s| s.to_string()).collect(),
        note: None,
    }
}

fn link_args_with_context(source: &str, target: &str, rels: Vec<&str>, context: &str) -> LinkArgs {
    LinkArgs { note: Some(context.to_string()), ..link_args(source, target, rels) }
}

fn unlink_args(source: &str, target: &str) -> UnlinkArgs {
    UnlinkArgs { source: source.to_string(), target: target.to_string() }
}

fn rel_names(link: &Link) -> Vec<&str> {
    link.rel().iter().map(|r| r.as_str()).collect()
}

#[test]
fn handle_link_no_rels_returns_error() {
    let mut v = setup_two_notes();
    let args = link_args("Source Note", "Target Note", vec![]);
    assert!(v.link(&args, at(1)).unwrap_err().contains("at least one --rel"));
}

#[test]
fn handle_link_invalid_rel_returns_error() {
    let mut v = setup_two_notes();
    let args = link_args("Source Note", "Target Note", vec!["has_underscore"]);
    assert!(v.link(&args, at(1)).unwrap_err().contains("invalid rel"));
}

#[test]
fn handle_link_one_invalid_rel_among_many_returns_error() {
    let mut v = setup_two_notes();
    let args = link_args("Source Note", "Target Note", vec!["valid", "in@valid"]);
    let err = v.link(&args, at(1)).unwrap_err();
    assert!(err.contains("invalid rel"));
    assert!(err.contains("in@valid"));
}

#[test]
fn handle_link_source_not_found_returns_error() {
    let mut v = setup_two_notes();
    let err = v.link(&link_args("nonexistent", "Target Note", vec!["parent"]), at(1)).unwrap_err();
    assert!(err.contains("source note not found"));
    assert!(err.contains("nonexistent"));
}

#[test]
fn handle_link_source_ambiguous_returns_error() {
    let mut v = setup_ambiguous_notes();
    let err = v.link(&link_args("01HQ3K5M7N", "Target Note", vec!["parent"]), at(1)).unwrap_err();
    assert!(err.contains("ambiguous source"));
}

#[test]
fn handle_link_source_by_id_prefix_resolves() {
    let mut v = setup_two_notes();
    assert!(v.link(&link_args("01HQ3K5M", "Target Note", vec!["parent"]), at(1)).is_ok());
}

#[test]
fn handle_link_source_by_title_resolves() {
    let mut v = setup_two_notes();
    assert!(v.link(&link_args("Source Note", "Target Note", vec!["parent"]), at(1)).is_ok());
}

#[test]
fn handle_link_target_resolves_to_full_id() {
    let mut v = setup_two_notes();
    assert!(v.link(&link_args("Source Note", "01HQ4A2R", vec!["parent"]), at(1)).is_ok());
    let links = v.note(SOURCE).links();
    assert_eq!(links.len(), 1);
    assert_eq!(links[0].target().to_string(), "01HQ4A2R9PXJK4QZPW8V2R6T9B");
}

#[test]
fn handle_link_target_by_title_uses_resolved_id() {
    let mut v = setup_two_notes();
    assert!(v.link(&link_args("Source Note", "Target Note", vec!["parent"]), at(1)).is_ok());
    let links = v.note(SOURCE).links();
    assert_eq!(links.len(), 1);
    assert_eq!(links[0].target().to_string(), "01HQ4A2R9PXJK4QZPW8V2R6T9B");
}

#[test]
fn handle_link_target_not_found_valid_ulid_creates_broken_link() {
    let mut v = setup_two_notes();
    let args = link_args("Source Note", "01HZ9Z9Z9ZXJK4QZPW8V2R6T9Z", vec!["parent"]);
    assert!(v.link(&args, at(1)).is_ok());
    let links = v.note(SOURCE).links();
    assert_eq!(links.len(), 1);
    assert_eq!(links[0].target().to_string(), "01HZ9Z9Z9ZXJK4QZPW8V2R6T9Z");
}

#[test]
fn handle_link_target_ambiguous_returns_error() {
    let mut v = setup_ambiguous_notes();
    let err = v.link(&link_args("Target Note", "01HQ3K5M7N", vec!["parent"]), at(1)).unwrap_err();
    assert!(err.contains("ambiguous target"));
}

#[test]
fn handle_link_target_invalid_returns_error() {
    let mut v = setup_two_notes();
    let err = v.link(&link_args("Source Note", "not-a-ulid", vec!["parent"]), at(1)).unwrap_err();
    assert!(err.contains("target not found and not a valid note ID"));
}

#[test]
fn handle_link_creates_link_with_single_rel() {
    let mut v = setup_two_notes();
    assert!(v.link(&link_args("Source Note", "Target Note", vec!["parent"]), at(1)).is_ok());
    let links = v.note(SOURCE).links();
    assert_eq!(links.len(), 1);
    assert_eq!(links[0].rel().len(), 1);
    assert_eq!(links[0].rel()[0].as_str(), "parent");
}

#[test]
fn handle_link_creates_link_with_multiple_rels() {
    let mut v = setup_two_notes();
    assert!(v.link(&link_args("Source Note", "Target Note", vec!["parent", "see-also"]), at(1)).is_ok());
    let links = v.note(SOURCE).links();
    assert_eq!(links.len(), 1);
    assert_eq!(links[0].rel().len(), 2);
}

#[test]
fn handle_link_creates_link_with_context() {
    let mut v = setup_two_notes();
    let args = link_args_with_context("Source Note", "Target Note", vec!["parent"], "Some context");
    assert!(v.link(&args, at(1)).is_ok());
    let links = v.note(SOURCE).links();
    assert_eq!(links.len(), 1);
    assert_eq!(links[0].context(), Some("Some context"));
}

#[test]
fn handle_link_normalizes_rels() {
    let mut v = setup_two_notes();
    assert!(v.link(&link_args("Source Note", "Target Note", vec!["PARENT", "See-Also"]), at(1)).is_ok());
    assert_eq!(rel_names(&v.note(SOURCE).links()[0]), vec!["parent", "see-also"]);
}

#[test]
fn handle_link_same_target_merges_rels() {
    let mut v = setup_two_notes();
    v.link(&link_args("Source Note", "Target Note", vec!["parent"]), at(1)).unwrap();
    v.link(&link_args("Source Note", "Target Note", vec!["see-also"]), at(2)).unwrap();
    let links = v.note(SOURCE).links();
    assert_eq!(links.len(), 1);
    assert_eq!(links[0].rel().len(), 2);
    let rels = rel_names(&links[0]);
    assert!(rels.contains(&"parent"));
    assert!(rels.contains(&"see-also"));
}

#[test]
fn handle_link_same_target_updates_context() {
    let mut v = setup_two_notes();
    v.link(&link_args("Source Note", "Target Note", vec!["parent"]), at(1)).unwrap();
    let args = link_args_with_context("Source Note", "Target Note", vec!["parent"], "New context");
    v.link(&args, at(2)).unwrap();
    let links = v.note(SOURCE).links();
    assert_eq!(links.len(), 1);
    assert_eq!(links[0].context(), Some("New context"));
}

#[test]
fn handle_link_updates_index() {
    let mut v = setup_two_notes();
    v.link(&link_args("Source Note", "Target Note", vec!["parent"]), at(1)).unwrap();
    let index = v.index();
    let backlinks = index.backlinks(&id("01HQ4A2R9PXJK4QZPW8V2R6T9B"), None);
    assert_eq!(backlinks.len(), 1);
    assert_eq!(backlinks[0].title(), "Source Note");
}

#[test]
fn handle_link_self_link_allowed() {
    let mut v = setup_two_notes();
    assert!(v.link(&link_args("Source Note", "Source Note", vec!["self-reference"]), at(1)).is_ok());
    let links = v.note(SOURCE).links();
    assert_eq!(links.len(), 1);
    assert_eq!(links[0].target().to_string(), "01HQ3K5M7NXJK4QZPW8V2R6T9A");
}

#[test]
fn handle_link_preserves_body_content() {
    let mut v = setup_two_notes();
    let original_body = v.body(SOURCE).to_string();
    v.link(&link_args("Source Note", "Target Note", vec!["parent"]), at(1)).unwrap();
    assert_eq!(v.body(SOURCE), original_body);
}

#[test]
fn handle_link_preserves_existing_links() {
    let mut v = Vault::new();
    let source = Note::builder(id("01HQ3K5M7NXJK4QZPW8V2R6T9A"), "Source Note", jan15(), jan15())
        .links(vec![Link::new(id("01HZ9Z9Z9ZXJK4QZPW8V2R6T9X"), vec!["existing"]).unwrap()])
        .build()
        .unwrap();
    v.add(source);
    v.add(plain("01HQ4A2R9PXJK4QZPW8V2R6T9B", "Target Note"));
    assert!(v.link(&link_args("Source Note", "Target Note", vec!["parent"]), at(1)).is_ok());
    assert_eq!(v.note(SOURCE).links().len(), 2);
}

#[test]
fn handle_link_same_target_same_rels_is_noop() {
    let mut v = setup_two_notes();
    let args = link_args("Source Note", "Target Note", vec!["parent"]);
    v.link(&args, at(1_800_000_000)).unwrap();
    let original_modified = v.note(SOURCE).modified();
    assert_eq!(v.link(&args, at(1_900_000_000)), Ok(false));
    assert_eq!(v.note(SOURCE).modified(), original_modified);
    assert_eq!(v.note(SOURCE).links().len(), 1);
}

#[test]
fn handle_link_updates_modified_timestamp() {
    let mut v = setup_two_notes();
    let original_modified = v.note(SOURCE).modified();
    v.link(&link_args("Source Note", "Target Note", vec!["parent"]), at(1_800_000_000)).unwrap();
    assert!(v.note(SOURCE).modified() > original_modified);
}

#[test]
fn handle_link_noop_preserves_timestamp() {
    let mut v = setup_two_notes();
    let args = link_args("Source Note", "Target Note", vec!["parent"]);
    v.link(&args, at(1_800_000_000)).unwrap();
    let original_modified = v.note(SOURCE).modified();
    v.link(&args, at(1_900_000_000)).unwrap();
    assert_eq!(v.note(SOURCE).modified(), original_modified);
}

fn setup_linked_notes() -> Vault {
    let mut v = setup_two_notes();
    v.link(&link_args("Source Note", "Target Note", vec!["parent"]), at(1)).unwrap();
    v
}

#[test]
fn handle_unlink_removes_link_from_note_file() {
    let mut v = setup_linked_notes();
    assert!(v.unlink(&unlink_args("Source Note", "Target Note"), at(2)).is_ok());
    assert!(v.note(SOURCE).links().is_empty());
}

#[test]
fn handle_unlink_link_not_found_returns_ok() {
    let mut v = setup_two_notes();
    assert_eq!(v.unlink(&unlink_args("Source Note", "Target Note"), at(2)), Ok(false));
}

#[test]
fn handle_unlink_source_not_found_returns_error() {
    let mut v = setup_two_notes();
    let err = v.unlink(&unlink_args("Nonexistent Note", "Target Note"), at(2)).unwrap_err();
    assert!(err.contains("not found"));
}

#[test]
fn handle_unlink_preserves_other_links() {
    let mut v = setup_linked_notes();
    v.link(&link_args("Source Note", "Source Note", vec!["self-ref"]), at(2)).unwrap();
    v.unlink(&unlink_args("Source Note", "Target Note"), at(3)).unwrap();
    let links = v.note(SOURCE).links();
    assert_eq!(links.len(), 1);
    assert_eq!(links[0].target().to_string(), "01HQ3K5M7NXJK4QZPW8V2R6T9A");
}

#[test]
fn handle_unlink_target_by_id_prefix() {
    let mut v = setup_linked_notes();
    assert!(v.unlink(&unlink_args("Source Note", "01HQ4A2R9P"), at(2)).is_ok());
    assert!(v.note(SOURCE).links().is_empty());
}

#[test]
fn handle_unlink_updates_modified_timestamp() {
    let mut v = setup_linked_notes();
    let before = v.note(SOURCE).modified();
    v.unlink(&unlink_args("Source Note", "Target Note"), at(1_800_000_000)).unwrap();
    assert!(v.note(SOURCE).modified() > before);
}

#[test]
fn handle_unlink_allows_removal_of_broken_link() {
    let mut v = Vault::new();
    let jan1 = at(1_704_067_200);
    let source = Note::builder(id("01HQ3K5M7NXJK4QZPW8V2R6T9A"), "Source Note", jan1, jan1)
        .links(vec![Link::new(id("01ZZZZZZZZXJK4QZPW8V2R6T9X"), vec!["broken-ref"]).unwrap()])
        .build()
        .unwrap();
    v.add(source);
    assert!(v.unlink(&unlink_args("Source Note", "01ZZZZZZZZXJK4QZPW8V2R6T9X"), at(1_800_000_000)).is_ok());
    assert!(v.note(SOURCE).links().is_empty());
}

#[test]
fn link_then_unlink_stamps_modified_each_time() {
    let mut v = setup_two_notes();
    assert_eq!(v.link(&link_args("Source Note", "Target Note", vec!["parent"]), at(1_800_000_000)), Ok(true));
    assert_eq!(v.note(SOURCE).modified(), at(1_800_000_000));
    assert_eq!(v.link(&link_args("Source Note", "Target Note", vec!["parent"]), at(1_900_000_000)), Ok(false));
    assert_eq!(v.note(SOURCE).modified(), at(1_800_000_000));
    assert_eq!(v.unlink(&unlink_args("Source Note", "Target Note"), at(1_900_000_000)), Ok(true));
    assert_eq!(v.note(SOURCE).modified(), at(1_900_000_000));
    assert_eq!(v.note(SOURCE).created(), jan15());
}

// Backlinks.

const TARGET_ID: &str = "01HQ5B3S0QYJK5RZQX9W3S7T0A";

fn index_of(notes: Vec<(Note, &str)>) -> NoteIndex {
    let mut index = NoteIndex::new();
    for (n, p) in notes {
        index.upsert(IndexedNote::from_note(&n, p));
    }
    index
}

fn linking(id_text: &str, title: &str, modified: Timestamp, rels: Vec<&str>) -> Note {
    Note::builder(id(id_text), title, jan15(), modified)
        .links(vec![Link::new(id(TARGET_ID), rels).unwrap()])
        .build()
        .unwrap()
}

fn setup_empty_index() -> NoteIndex {
    NoteIndex::new()
}

fn setup_index_with_target_note() -> NoteIndex {
    index_of(vec![(plain(TARGET_ID, "Target Note"), "01HQ5B3S0Q-target-note.md")])
}

fn setup_index_with_backlinks() -> NoteIndex {
    index_of(vec![
        (plain(TARGET_ID, "Target Note"), "01HQ5B3S0Q-target-note.md"),
        (linking("01HQ3K5M7NXJK4QZPW8V2R6T9A", "Source Note", jan15(), vec!["parent"]), "01HQ3K5M7N-source-note.md"),
    ])
}

fn setup_index_with_multiple_backlinks() -> NoteIndex {
    index_of(vec![
        (plain(TARGET_ID, "Target Note"), "01HQ5B3S0Q-target-note.md"),
        (linking("01HQ3K5M7NXJK4QZPW8V2R6T9A", "Source Note A", jan15(), vec!["parent"]), "01HQ3K5M7N-source-a.md"),
        (
            linking("01HQ4A2R9PXJK4QZPW8V2R6T9B", "Source Note B", at(1_705_401_000), vec!["see-also"]),
            "01HQ4A2R9P-source-b.md",
        ),
        (
            linking("01HQ6C4T1RXJK6SZRY0X4T81CC", "Source Note C", at(1_705_228_200), vec!["parent"]),
            "01HQ6C4T1R-source-c.md",
        ),
    ])
}

fn setup_index_with_alias() -> NoteIndex {
    let target = Note::builder(id(TARGET_ID), "Target Note", jan15(), jan15())
        .aliases(vec!["REST".to_string()])
        .build()
        .unwrap();
    index_of(vec![
        (target, "01HQ5B3S0Q-target-note.md"),
        (linking("01HQ3K5M7NXJK4QZPW8V2R6T9A", "Source Note", jan15(), vec!["parent"]), "01HQ3K5M7N-source-note.md"),
    ])
}

fn run_backlinks(index: &NoteIndex, note: &str, rel: Option<&str>, format: OutputFormat) -> Result<Vec<String>, String> {
    let args = BacklinksArgs { note: note.to_string(), rel: rel.map(|r| r.to_string()), format };
    handle_backlinks(index, &args)
        .map(|v| v.iter().map(|n| n.title().to_string()).collect())
        .map_err(|e| e.to_string())
}

#[test]
fn backlinks_note_not_found_returns_error() {
    let err = run_backlinks(&setup_empty_index(), "nonexistent", None, OutputFormat::Human).unwrap_err();
    assert!(err.contains("note not found"));
    assert!(err.contains("nonexistent"));
}

#[test]
fn backlinks_ambiguous_note_returns_error() {
    let index = index_of(vec![
        (plain("01HQ3K5M7NXJK4QZPW8V2R6T9A", "Note A"), "01HQ3K5M7N-note-a.md"),
        (plain("01HQ3K5M7NXJK4QZPW8V2R6T9B", "Note B"), "01HQ3K5M7N-note-b.md"),
    ]);
    let err = run_backlinks(&index, "01HQ3K5M7N", None, OutputFormat::Human).unwrap_err();
    assert!(err.contains("ambiguous"));
}

#[test]
fn backlinks_returns_empty_for_note_with_no_backlinks() {
    let found = run_backlinks(&setup_index_with_target_note(), "Target Note", None, OutputFormat::Human).unwrap();
    assert!(found.is_empty());
}

#[test]
fn backlinks_returns_linking_notes() {
    let found = run_backlinks(&setup_index_with_backlinks(), "Target Note", None, OutputFormat::Human).unwrap();
    assert_eq!(found, vec!["Source Note"]);
}

#[test]
fn backlinks_returns_multiple_linking_notes() {
    let found = run_backlinks(&setup_index_with_multiple_backlinks(), "Target Note", None, OutputFormat::Human).unwrap();
    assert_eq!(found, vec!["Source Note B", "Source Note A", "Source Note C"]);
}

#[test]
fn backlinks_with_rel_filter_returns_parent_links_only() {
    let found =
        run_backlinks(&setup_index_with_multiple_backlinks(), "Target Note", Some("parent"), OutputFormat::Human).unwrap();
    assert_eq!(found, vec!["Source Note A", "Source Note C"]);
}

#[test]
fn backlinks_with_invalid_rel_returns_error() {
    let err = run_backlinks(&setup_index_with_target_note(), "Target Note", Some("invalid_rel"), OutputFormat::Human)
        .unwrap_err();
    assert!(err.contains("invalid relationship type"));
}

#[test]
fn backlinks_with_rel_filter_no_matches_returns_empty() {
    let found =
        run_backlinks(&setup_index_with_backlinks(), "Target Note", Some("see-also"), OutputFormat::Human).unwrap();
    assert!(found.is_empty());
}

#[test]
fn backlinks_human_format_returns_ok() {
    assert!(run_backlinks(&setup_index_with_backlinks(), "Target Note", None, OutputFormat::Human).is_ok());
}

#[test]
fn backlinks_json_format_returns_ok() {
    assert!(run_backlinks(&setup_index_with_backlinks(), "Target Note", None, OutputFormat::Json).is_ok());
}

#[test]
fn backlinks_paths_format_returns_ok() {
    assert!(run_backlinks(&setup_index_with_backlinks(), "Target Note", None, OutputFormat::Paths).is_ok());
}

#[test]
fn backlinks_resolves_by_id_prefix() {
    let found = run_backlinks(&setup_index_with_backlinks(), "01HQ5B3S", None, OutputFormat::Human).unwrap();
    assert_eq!(found, vec!["Source Note"]);
}

#[test]
fn backlinks_resolves_by_alias() {
    let found = run_backlinks(&setup_index_with_alias(), "REST", None, OutputFormat::Human).unwrap();
    assert_eq!(found, vec!["Source Note"]);
}

#[test]
fn backlinks_resolves_by_alias_case_insensitive() {
    let found = run_backlinks(&setup_index_with_alias(), "rest", None, OutputFormat::Human).unwrap();
    assert_eq!(found, vec!["Source Note"]);
}
