use den::cli::index::IndexedNote;
use den::domain::note_id::NoteId;
use den::domain::timestamp::Timestamp;
use den::export::links::{
    is_external_link, looks_like_note_id, BrokenLinkHandling, LinkResolver, LinkResolverOptions,
};

fn create_mock_note(title: &str, id: &str) -> IndexedNote {
    let now = Timestamp::from_unix(1_705_314_600, 0).unwrap();
    IndexedNote::new(NoteId::parse(id).unwrap(), title, now, now, "note.md")
}

#[test]
fn test_is_external_link() {
    assert!(is_external_link("https://example.com"));
    assert!(is_external_link("http://example.com"));
    assert!(is_external_link("mailto:test@example.com"));
    assert!(is_external_link("#heading"));
    assert!(is_external_link("./path/to/file.md"));
    assert!(is_external_link("file.txt"));
    assert!(!is_external_link("01HQ4A2R9P"));
    assert!(!is_external_link("01HQ4A2R9PXJK4QZPW8V2R6T9Y"));
}

#[test]
fn test_looks_like_note_id() {
    assert!(looks_like_note_id("01HQ4A2R9P"));
    assert!(looks_like_note_id("01HQ4A2R9PXJK4QZPW8V2R6T9Y"));
    assert!(looks_like_note_id("0ABC"));
    assert!(!looks_like_note_id("abc"));
    assert!(!looks_like_note_id("AB"));
    assert!(!looks_like_note_id("ABC"));
    assert!(!looks_like_note_id("hello-world"));
    assert!(!looks_like_note_id("A1234567890123456789012345678"));
}

#[test]
fn note_id_must_start_with_digit() {
    assert!(!looks_like_note_id("ABCD"));
}

#[test]
fn test_resolve_internal_link() {
    let notes = vec![create_mock_note("Target Note", "01HQ4A2R9PXJK4QZPW8V2R6T9Y")];
    let options = LinkResolverOptions::default();
    let resolver = LinkResolver::from_notes(&notes, &options);
    let result = resolver.resolve("See [Target](01HQ4A2R9P) for details.");
    assert_eq!(result.resolved, 1);
    assert_eq!(result.broken, 0);
    assert!(result.content.contains("[Target](target-note.html)"));
}

#[test]
fn test_preserve_external_links() {
    let notes = vec![];
    let options = LinkResolverOptions::default();
    let resolver = LinkResolver::from_notes(&notes, &options);
    let content = "Visit [example](https://example.com) for more.";
    let result = resolver.resolve(content);
    assert_eq!(result.resolved, 0);
    assert_eq!(result.broken, 0);
    assert_eq!(result.content, content);
}

#[test]
fn test_broken_link_mark() {
    let notes = vec![];
    let options = LinkResolverOptions { broken_link_handling: BrokenLinkHandling::MarkBroken, base_path: String::new() };
    let resolver = LinkResolver::from_notes(&notes, &options);
    let result = resolver.resolve("See [Missing](01HZZZZZZZZZ) for details.");
    assert_eq!(result.resolved, 0);
    assert_eq!(result.broken, 1);
    assert_eq!(result.content, "See [Missing](# \"Broken link: 01HZZZZZZZZZ\") for details.");
}

#[test]
fn test_broken_link_preserve() {
    let notes = vec![];
    let options = LinkResolverOptions { broken_link_handling: BrokenLinkHandling::Preserve, base_path: String::new() };
    let resolver = LinkResolver::from_notes(&notes, &options);
    let content = "See [Missing](01HZZZZZZZZZ) for details.";
    let result = resolver.resolve(content);
    assert_eq!(result.broken, 1);
    assert_eq!(result.content, content);
}

#[test]
fn test_broken_link_remove() {
    let notes = vec![];
    let options = LinkResolverOptions { broken_link_handling: BrokenLinkHandling::RemoveLink, base_path: String::new() };
    let resolver = LinkResolver::from_notes(&notes, &options);
    let result = resolver.resolve("See [Missing](01HZZZZZZZZZ) for details.");
    assert_eq!(result.broken, 1);
    assert_eq!(result.content, "See Missing for details.");
}

#[test]
fn test_multiple_links() {
    let notes = vec![
        create_mock_note("First Note", "01HQ4A2R9PXJK4QZPW8V2R6T9Y"),
        create_mock_note("Second Note", "01HQ5B3S0QYJK5RAQX9W3S7V0Z"),
    ];
    let options = LinkResolverOptions::default();
    let resolver = LinkResolver::from_notes(&notes, &options);
    let content = "See [First](01HQ4A2R9P) and [Second](01HQ5B3S0Q) and [external](https://example.com).";
    let result = resolver.resolve(content);
    assert_eq!(result.resolved, 2);
    assert_eq!(result.broken, 0);
    assert!(result.content.contains("first-note.html"));
    assert!(result.content.contains("second-note.html"));
    assert!(result.content.contains("https://example.com"));
}

#[test]
fn test_base_path() {
    let notes = vec![create_mock_note("Target Note", "01HQ4A2R9PXJK4QZPW8V2R6T9Y")];
    let options = LinkResolverOptions { broken_link_handling: BrokenLinkHandling::MarkBroken, base_path: "../".to_string() };
    let resolver = LinkResolver::from_notes(&notes, &options);
    let result = resolver.resolve("See [Target](01HQ4A2R9P) for details.");
    assert!(result.content.contains("[Target](../target-note.html)"));
}

#[test]
fn lookup_finds_slug_and_title() {
    let notes = vec![create_mock_note("Target Note", "01HQ4A2R9PXJK4QZPW8V2R6T9Y")];
    let options = LinkResolverOptions::default();
    let resolver = LinkResolver::from_notes(&notes, &options);
    assert_eq!(resolver.lookup("01HQ4A2R9P"), Some(("target-note", "Target Note")));
    assert_eq!(resolver.lookup("01HQ4A2R9X"), None);
}

#[test]
fn unclosed_link_is_left_alone() {
    let notes = vec![];
    let options = LinkResolverOptions::default();
    let resolver = LinkResolver::from_notes(&notes, &options);
    let content = "A [dangling](01HQ4A2R9P and [more]";
    assert_eq!(resolver.resolve(content).content, content);
}

#[test]
fn test_preserve_anchor_links() {
    let notes: Vec<IndexedNote> = vec![];
    let options = LinkResolverOptions::default();
    let resolver = LinkResolver::from_notes(&notes, &options);

    let content = "See [section](#heading) below.";
    let result = resolver.resolve(content);

    assert_eq!(result.resolved, 0);
    assert_eq!(result.broken, 0);
    assert_eq!(result.content, content);
}

#[test]
fn test_preserve_file_links() {
    let notes: Vec<IndexedNote> = vec![];
    let options = LinkResolverOptions::default();
    let resolver = LinkResolver::from_notes(&notes, &options);

    let content = "See [doc](./docs/readme.md) for details.";
    let result = resolver.resolve(content);

    assert_eq!(result.resolved, 0);
    assert_eq!(result.broken, 0);
    assert_eq!(result.content, content);
}

#[test]
fn test_link_with_special_text() {
    let notes = vec![create_mock_note("Target Note", "01HQ4A2R9PXJK4QZPW8V2R6T9Y")];
    let options = LinkResolverOptions::default();
    let resolver = LinkResolver::from_notes(&notes, &options);

    let content = "See [API Design Notes](01HQ4A2R9P) for details.";
    let result = resolver.resolve(content);

    assert!(result.content.contains("[API Design Notes](target-note.html)"));
}

#[test]
fn test_empty_link_text() {
    let notes = vec![create_mock_note("Target Note", "01HQ4A2R9PXJK4QZPW8V2R6T9Y")];
    let options = LinkResolverOptions::default();
    let resolver = LinkResolver::from_notes(&notes, &options);

    let content = "See [](01HQ4A2R9P) for details.";
    let result = resolver.resolve(content);

    assert!(result.content.contains("[](target-note.html)"));
}

#[test]
fn full_id_and_short_prefix_links_resolve() {
    let notes = vec![create_mock_note("Target Note", "01HQ4A2R9PXJK4QZPW8V2R6T9Y")];
    let options = LinkResolverOptions::default();
    let resolver = LinkResolver::from_notes(&notes, &options);
    let full = resolver.resolve("See [T](01HQ4A2R9PXJK4QZPW8V2R6T9Y).");
    assert_eq!(full.content, "See [T](target-note.html).");
    assert_eq!((full.resolved, full.broken), (1, 0));
    let short = resolver.resolve("See [T](01HQ).");
    assert_eq!(short.content, "See [T](target-note.html).");
    assert_eq!(resolver.lookup("01HQ4A2R9PXJK4QZPW8V2R6T9Y"), Some(("target-note", "Target Note")));
    assert_eq!(resolver.lookup("01HQ4A2R9PXJK4QZPW8V2R6T9Z"), None);
    assert_eq!(resolver.lookup("01H"), None);
}

#[test]
fn later_note_wins_a_shared_prefix() {
    let notes = vec![
        create_mock_note("First", "01HQ4A2R9PXJK4QZPW8V2R6T9Y"),
        create_mock_note("Second", "01HQ4A2R9PXJK4QZPW8V2R6T9Z"),
    ];
    let options = LinkResolverOptions::default();
    let resolver = LinkResolver::from_notes(&notes, &options);
    assert_eq!(resolver.lookup("01HQ4A2R9P"), Some(("second", "Second")));
    assert_eq!(resolver.lookup("01HQ4A2R9PXJK4QZPW8V2R6T9Y"), Some(("first", "First")));
}
