use den::cli::new::{create_new_note_at, frontmatter_yaml, generate_filename, slugify, strip_frontmatter, validate_into};
use den::domain::note_id::NoteId;
use den::domain::timestamp::Timestamp;

#[test]
fn strip_frontmatter_removes_yaml() {
    let content = "---\ntitle: Test\ntags: [a]\n---\nBody content here";
    assert_eq!(strip_frontmatter(content), "Body content here");
}

#[test]
fn strip_frontmatter_preserves_content_without_frontmatter() {
    let content = "Just some plain text\nwith multiple lines";
    assert_eq!(strip_frontmatter(content), content);
}

#[test]
fn strip_frontmatter_handles_no_closing_delimiter() {
    let content = "---\ntitle: Test\nno closing delimiter";
    assert_eq!(strip_frontmatter(content), content);
}

#[test]
fn strip_frontmatter_handles_empty_body() {
    let content = "---\ntitle: Test\n---\n";
    assert_eq!(strip_frontmatter(content), "");
}

#[test]
fn strip_frontmatter_allows_leading_whitespace_and_spaced_rule() {
    let content = "\n  ---\ntitle: Test\n  ---  \nBody";
    assert_eq!(strip_frontmatter(content), "Body");
}

#[test]
fn strip_frontmatter_requires_newline_after_opening() {
    assert_eq!(strip_frontmatter("---"), "---");
}

#[test]
fn frontmatter_yaml_gives_block_between_rules() {
    let content = "---\ntitle: Test\ntags: [a]\n---\nBody content here";
    assert_eq!(frontmatter_yaml(content), Some("title: Test\ntags: [a]\n".to_string()));
    assert_eq!(frontmatter_yaml("  ---\r\nid: x\r\n --- \r\nbody"), Some("id: x\r\n".to_string()));
}

#[test]
fn frontmatter_yaml_none_without_block() {
    assert_eq!(frontmatter_yaml("Just text"), None);
    assert_eq!(frontmatter_yaml("---\ntitle: Test\nno closing"), None);
    assert_eq!(frontmatter_yaml("---"), None);
}

#[test]
fn slugify_lowercases_and_hyphenates() {
    assert_eq!(slugify("Target Note"), "target-note");
    assert_eq!(slugify("  API: Design, v2!  "), "api-design-v2");
}

#[test]
fn generate_filename_uses_prefix_and_slug() {
    let id = NoteId::parse("01HQ3K5M7NXJK4QZPW8V2R6T9Y").unwrap();
    assert_eq!(generate_filename(&id, "API Design Notes"), "01HQ3K5M7N-api-design-notes.md");
}

fn at() -> (NoteId, Timestamp) {
    (NoteId::parse("01HQ3K5M7NXJK4QZPW8V2R6T9Y").unwrap(), Timestamp::from_unix(1_705_314_600, 0).unwrap())
}

#[test]
fn create_new_note_builds_note_and_filename() {
    let (id, now) = at();
    let res = create_new_note_at(
        "  My Note ",
        Some(" A description "),
        &["software/rust".to_string(), "software/rust".to_string()],
        &["Draft".to_string()],
        &["alias".to_string()],
        Some("BOOK"),
        id,
        now,
    )
    .ok()
    .unwrap();
    assert_eq!(res.note.title(), "My Note");
    assert_eq!(res.note.description(), Some("A description"));
    assert_eq!(res.note.topics().len(), 1);
    assert_eq!(res.note.tags()[0].as_str(), "draft");
    assert_eq!(res.note.created(), now);
    assert_eq!(res.kind.as_str(), "book");
    assert_eq!(res.filename, "01HQ3K5M7N-my-note.md");
}

#[test]
fn create_new_note_rejects_empty_title() {
    let (id, now) = at();
    let err = create_new_note_at("   ", None, &[], &[], &[], None, id, now).err().unwrap();
    assert_eq!(err.to_string(), "title cannot be empty");
}

#[test]
fn create_new_note_rejects_bad_topic_then_tag_then_kind() {
    let (id, now) = at();
    let err = create_new_note_at("T", None, &["a b".to_string()], &["x y".to_string()], &[], Some("zzz"), id, now)
        .err()
        .unwrap();
    assert!(err.to_string().starts_with("invalid topic 'a b'"));
    let err = create_new_note_at("T", None, &[], &["x y".to_string()], &[], Some("zzz"), id, now).err().unwrap();
    assert!(err.to_string().starts_with("invalid tag 'x y'"));
    let err = create_new_note_at("T", None, &[], &[], &[], Some("zzz"), id, now).err().unwrap();
    assert_eq!(err.to_string(), "invalid kind 'zzz'");
}

#[test]
fn strip_frontmatter_handles_crlf_line_endings() {
    assert_eq!(strip_frontmatter("---\r\ntitle: x\r\n---\r\nBody"), "Body");
    assert_eq!(strip_frontmatter("---\r\ntitle: x\r\n--- \r\n\r\nBody"), "\r\nBody");
    assert_eq!(strip_frontmatter("---\ntitle: Test\n---"), "");
}

#[test]
fn strip_frontmatter_gives_back_the_body_of_a_block() {
    for (fm, body) in [("title: Test\ntags: [a]", "Body content here"), ("title: Test", ""), ("a: 1\nb: --", "x\n---\ny")] {
        let content = format!("---\n{}\n---\n{}", fm, body);
        assert_eq!(strip_frontmatter(&content), body);
    }
}

#[test]
fn validate_into_accepts_relative_subdirectories() {
    assert!(validate_into("projects/rust").is_ok());
    assert!(validate_into("..hidden/x").is_ok());
    assert!(validate_into("a/b..").is_ok());
}

#[test]
fn validate_into_rejects_absolute_paths() {
    assert_eq!(
        validate_into("/tmp/notes").unwrap_err(),
        "--into must be a relative path, not absolute: /tmp/notes"
    );
}

#[test]
fn validate_into_rejects_parent_components() {
    assert_eq!(validate_into("a/../b").unwrap_err(), "--into cannot contain '..': a/../b");
    assert_eq!(validate_into("..").unwrap_err(), "--into cannot contain '..': ..");
    assert_eq!(validate_into("sub/..").unwrap_err(), "--into cannot contain '..': sub/..");
}
