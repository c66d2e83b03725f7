use den::cli::index::{note_matches_topic, IndexedNote, NoteIndex};
use den::cli::list::{parse_topic_filter, strip_html_tags};
use den::cli::resolve::{resolve_note, ResolveResult};
use den::domain::note::Note;
use den::domain::note_id::NoteId;
use den::domain::timestamp::Timestamp;
use den::domain::topic::Topic;

fn test_note_id(suffix: &str) -> NoteId {
    NoteId::parse(&format!("01HQ3K5M7NXJK4QZPW8V2R6T{}", suffix)).unwrap()
}

fn test_datetime() -> Timestamp {
    // 2024-01-15T10:30:00Z
    Timestamp::from_unix(1_705_314_600, 0).unwrap()
}

fn sample_indexed_note_with_topics(id_suffix: &str, title: &str, topics: Vec<Topic>) -> IndexedNote {
    IndexedNote::new(
        test_note_id(id_suffix),
        title,
        test_datetime(),
        test_datetime(),
        &format!("{}.md", id_suffix),
    )
    .with_topics(topics)
}

#[test]
fn handlers_parse_topic_filter_without_trailing_slash() {
    let (path, include_descendants) = parse_topic_filter("software/rust");
    assert_eq!(path, "software/rust");
    assert!(!include_descendants);
}

#[test]
fn handlers_parse_topic_filter_with_trailing_slash() {
    let (path, include_descendants) = parse_topic_filter("software/rust/");
    assert_eq!(path, "software/rust");
    assert!(include_descendants);
}

#[test]
fn handlers_parse_topic_filter_root_with_slash() {
    let (path, include_descendants) = parse_topic_filter("software/");
    assert_eq!(path, "software");
    assert!(include_descendants);
}

#[test]
fn handlers_strip_html_tags_removes_bold() {
    assert_eq!(strip_html_tags("Hello <b>world</b>!"), "Hello world!");
}

#[test]
fn handlers_strip_html_tags_no_tags() {
    assert_eq!(strip_html_tags("Hello world!"), "Hello world!");
}

#[test]
fn handlers_strip_html_tags_multiple_bold() {
    assert_eq!(strip_html_tags("<b>foo</b> and <b>bar</b>"), "foo and bar");
}

#[test]
fn tests_parse_topic_filter_without_trailing_slash() {
    let (path, include_descendants) = parse_topic_filter("software/rust");
    assert_eq!(path, "software/rust");
    assert!(!include_descendants);
}

#[test]
fn tests_parse_topic_filter_with_trailing_slash() {
    let (path, include_descendants) = parse_topic_filter("software/rust/");
    assert_eq!(path, "software/rust");
    assert!(include_descendants);
}

#[test]
fn tests_parse_topic_filter_root_with_slash() {
    let (path, include_descendants) = parse_topic_filter("software/");
    assert_eq!(path, "software");
    assert!(include_descendants);
}

#[test]
fn parse_topic_filter_drops_every_trailing_slash() {
    let (path, include_descendants) = parse_topic_filter("software//");
    assert_eq!(path, "software");
    assert!(include_descendants);
}

#[test]
fn tests_note_matches_topic_exact_match() {
    let note = sample_indexed_note_with_topics("9A", "Rust Guide", vec![Topic::new("software/rust").unwrap()]);
    let topic = Topic::new("software/rust").unwrap();
    assert!(note_matches_topic(&note, &topic, false));
}

#[test]
fn tests_note_matches_topic_no_match() {
    let note = sample_indexed_note_with_topics("9A", "Rust Guide", vec![Topic::new("software/rust").unwrap()]);
    let topic = Topic::new("software/python").unwrap();
    assert!(!note_matches_topic(&note, &topic, false));
}

#[test]
fn tests_note_matches_topic_descendant_match_with_flag() {
    let note =
        sample_indexed_note_with_topics("9A", "Async Rust", vec![Topic::new("software/rust/async").unwrap()]);
    let topic = Topic::new("software/rust").unwrap();
    assert!(note_matches_topic(&note, &topic, true));
}

#[test]
fn tests_note_matches_topic_descendant_no_match_without_flag() {
    let note =
        sample_indexed_note_with_topics("9A", "Async Rust", vec![Topic::new("software/rust/async").unwrap()]);
    let topic = Topic::new("software/rust").unwrap();
    assert!(!note_matches_topic(&note, &topic, false));
}

#[test]
fn tests_note_matches_topic_parent_no_match() {
    let note = sample_indexed_note_with_topics("9A", "Rust Guide", vec![Topic::new("software").unwrap()]);
    let topic = Topic::new("software/rust").unwrap();
    assert!(!note_matches_topic(&note, &topic, true));
}

#[test]
fn tests_note_matches_topic_multiple_topics() {
    let note = sample_indexed_note_with_topics(
        "9A",
        "Rust Guide",
        vec![Topic::new("software/rust").unwrap(), Topic::new("programming").unwrap()],
    );
    let topic = Topic::new("programming").unwrap();
    assert!(note_matches_topic(&note, &topic, false));
}

#[test]
fn note_matches_topic_requires_segment_boundary() {
    let note = sample_indexed_note_with_topics("9A", "Rust Guide", vec![Topic::new("software-old").unwrap()]);
    let topic = Topic::new("software").unwrap();
    assert!(!note_matches_topic(&note, &topic, true));
}

#[test]
fn tests_strip_html_tags_removes_bold() {
    assert_eq!(strip_html_tags("Hello <b>world</b>!"), "Hello world!");
}

#[test]
fn tests_strip_html_tags_no_tags() {
    assert_eq!(strip_html_tags("Hello world!"), "Hello world!");
}

#[test]
fn tests_strip_html_tags_multiple_bold() {
    assert_eq!(strip_html_tags("<b>foo</b> and <b>bar</b>"), "foo and bar");
}

fn setup_index_with_notes() -> NoteIndex {
    let mut index = NoteIndex::new();
    let note1 = Note::builder(
        NoteId::parse("01HQ3K5M7NXJK4QZPW8V2R6T9A").unwrap(),
        "API Design",
        test_datetime(),
        test_datetime(),
    )
    .aliases(vec!["REST".to_string(), "api".to_string()])
    .build()
    .unwrap();
    index.upsert(IndexedNote::from_note(&note1, "01HQ3K5M7N-api-design.md"));
    let note2 = Note::builder(
        NoteId::parse("01HQ3K5M7NXJK4QZPW8V2R6T9B").unwrap(),
        "Rust Programming",
        test_datetime(),
        test_datetime(),
    )
    .build()
    .unwrap();
    index.upsert(IndexedNote::from_note(&note2, "01HQ3K5M7N-rust-programming.md"));
    let note3 = Note::builder(
        NoteId::parse("01HQ4A2R9PXJK4QZPW8V2R6T9C").unwrap(),
        "API Testing",
        test_datetime(),
        test_datetime(),
    )
    .build()
    .unwrap();
    index.upsert(IndexedNote::from_note(&note3, "01HQ4A2R9P-api-testing.md"));
    index
}

fn expect_unique_title(result: ResolveResult, title: &str) {
    match result {
        ResolveResult::Unique(note) => assert_eq!(note.title(), title),
        other => panic!("Expected Unique result, got {:?}", other),
    }
}

#[test]
fn tests_resolve_by_full_id() {
    let index = setup_index_with_notes();
    expect_unique_title(resolve_note(&index, "01HQ3K5M7NXJK4QZPW8V2R6T9A"), "API Design");
}

#[test]
fn tests_resolve_by_id_prefix_unique() {
    let index = setup_index_with_notes();
    expect_unique_title(resolve_note(&index, "01HQ4A2R"), "API Testing");
}

#[test]
fn tests_resolve_by_id_prefix_ambiguous() {
    let index = setup_index_with_notes();
    let result = resolve_note(&index, "01HQ3K5M7N");
    match result {
        ResolveResult::Ambiguous(notes) => {
            assert_eq!(notes.len(), 2);
        }
        _ => panic!("Expected Ambiguous result, got {:?}", result),
    }
}

#[test]
fn resolve_ambiguous_sorted_by_id() {
    let index = setup_index_with_notes();
    match resolve_note(&index, "01HQ3K5M7N") {
        ResolveResult::Ambiguous(notes) => {
            assert_eq!(notes[0].title(), "API Design");
            assert_eq!(notes[1].title(), "Rust Programming");
        }
        other => panic!("Expected Ambiguous result, got {:?}", other),
    }
}

#[test]
fn tests_resolve_by_title_exact() {
    let index = setup_index_with_notes();
    expect_unique_title(resolve_note(&index, "Rust Programming"), "Rust Programming");
}

#[test]
fn tests_resolve_by_title_case_insensitive() {
    let index = setup_index_with_notes();
    expect_unique_title(resolve_note(&index, "rust programming"), "Rust Programming");
}

#[test]
fn tests_resolve_by_alias() {
    let index = setup_index_with_notes();
    expect_unique_title(resolve_note(&index, "REST"), "API Design");
}

#[test]
fn tests_resolve_by_alias_case_insensitive() {
    let index = setup_index_with_notes();
    expect_unique_title(resolve_note(&index, "rest"), "API Design");
}

#[test]
fn tests_resolve_not_found() {
    let index = setup_index_with_notes();
    let result = resolve_note(&index, "nonexistent");
    match result {
        ResolveResult::NotFound => {}
        _ => panic!("Expected NotFound result"),
    }
}

#[test]
fn tests_resolve_whitespace_trimmed() {
    let index = setup_index_with_notes();
    expect_unique_title(resolve_note(&index, "  Rust Programming  "), "Rust Programming");
}

#[test]
fn upsert_replaces_note_with_same_id() {
    let mut index = setup_index_with_notes();
    let renamed = Note::builder(
        NoteId::parse("01HQ3K5M7NXJK4QZPW8V2R6T9B").unwrap(),
        "Rust Systems",
        test_datetime(),
        test_datetime(),
    )
    .build()
    .unwrap();
    index.upsert(IndexedNote::from_note(&renamed, "01HQ3K5M7N-rust-systems.md"));
    assert_eq!(index.len(), 3);
    expect_unique_title(resolve_note(&index, "Rust Systems"), "Rust Systems");
    assert!(matches!(resolve_note(&index, "Rust Programming"), ResolveResult::NotFound));
}

#[test]
fn tests_resolve_id_prefix_takes_precedence() {
    let index = setup_index_with_notes();
    expect_unique_title(resolve_note(&index, "01HQ4A2R9P"), "API Testing");
}

#[test]
fn handlers_resolve_by_full_id() {
    tests_resolve_by_full_id();
}

#[test]
fn handlers_resolve_by_id_prefix_unique() {
    tests_resolve_by_id_prefix_unique();
}

#[test]
fn handlers_resolve_by_id_prefix_ambiguous() {
    tests_resolve_by_id_prefix_ambiguous();
}

#[test]
fn handlers_resolve_by_title_exact() {
    tests_resolve_by_title_exact();
}

#[test]
fn handlers_resolve_by_title_case_insensitive() {
    tests_resolve_by_title_case_insensitive();
}

#[test]
fn handlers_resolve_by_alias() {
    tests_resolve_by_alias();
}

#[test]
fn handlers_resolve_by_alias_case_insensitive() {
    tests_resolve_by_alias_case_insensitive();
}

#[test]
fn handlers_resolve_not_found() {
    tests_resolve_not_found();
}

#[test]
fn handlers_resolve_whitespace_trimmed() {
    tests_resolve_whitespace_trimmed();
}

#[test]
fn handlers_resolve_id_prefix_takes_precedence() {
    tests_resolve_id_prefix_takes_precedence();
}

#[test]
fn handlers_note_matches_topic_exact_match() {
    tests_note_matches_topic_exact_match();
}

#[test]
fn handlers_note_matches_topic_no_match() {
    tests_note_matches_topic_no_match();
}

#[test]
fn handlers_note_matches_topic_descendant_match_with_flag() {
    tests_note_matches_topic_descendant_match_with_flag();
}

#[test]
fn handlers_note_matches_topic_descendant_no_match_without_flag() {
    tests_note_matches_topic_descendant_no_match_without_flag();
}

#[test]
fn handlers_note_matches_topic_parent_no_match() {
    tests_note_matches_topic_parent_no_match();
}

#[test]
fn handlers_note_matches_topic_multiple_topics() {
    tests_note_matches_topic_multiple_topics();
}

#[test]
fn ambiguous_notes_are_described() {
    let index = setup_index_with_notes();
    let notes = match resolve_note(&index, "01HQ3K5M7N") {
        ResolveResult::Ambiguous(notes) => notes,
        other => panic!("Expected Ambiguous result, got {:?}", other),
    };
    let lines = den::cli::resolve::ambiguous_notes_lines("01HQ3K5M7N", &notes);
    assert_eq!(
        lines,
        vec![
            "Ambiguous: '01HQ3K5M7N' matches 2 notes:".to_string(),
            "  01HQ3K5M7N - API Design".to_string(),
            "      aliases: REST, api".to_string(),
            "  01HQ3K5M7N - Rust Programming".to_string(),
            "".to_string(),
            "Use the ID prefix to specify which note you mean.".to_string(),
        ]
    );
}
