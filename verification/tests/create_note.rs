use den::cli::index::{note_matches_topic, IndexedNote};
use den::cli::list::note_has_all_tags;
use den::cli::new::{create_new_note, NewNoteResult};
use den::domain::note_id::NoteId;
use den::domain::tag::Tag;
use den::domain::timestamp::Timestamp;
use den::domain::topic::Topic;

fn clock() -> Timestamp {
    let t = chrono::Utc::now();
    Timestamp::from_unix(t.timestamp(), t.timestamp_subsec_nanos()).unwrap()
}

fn create(title: &str, desc: Option<&str>, topics: &[String], tags: &[String]) -> Result<NewNoteResult, String> {
    create_new_note(title, desc, topics, tags, &[], None, clock()).map_err(|e| e.to_string())
}

#[test]
fn tests_create_new_note_generates_valid_note() {
    let result = create("Test Note", None, &[], &[]).unwrap();
    assert_eq!(result.note.title(), "Test Note");
    assert!(result.note.description().is_none());
    assert!(result.note.topics().is_empty());
    assert!(result.note.tags().is_empty());
}

#[test]
fn tests_create_new_note_sets_timestamps_to_now() {
    let before = chrono::Utc::now().timestamp_millis();
    let result = create("Test Note", None, &[], &[]).unwrap();
    let after = chrono::Utc::now().timestamp_millis();
    assert!(result.note.created().timestamp_millis() >= before);
    assert!(result.note.created().timestamp_millis() <= after);
    assert_eq!(result.note.created(), result.note.modified());
}

#[test]
fn handlers_create_new_note_sets_timestamps_to_now() {
    tests_create_new_note_sets_timestamps_to_now();
}

#[test]
fn tests_create_new_note_with_description() {
    let result = create("Test Note", Some("A test description"), &[], &[]).unwrap();
    assert_eq!(result.note.description(), Some("A test description"));
}

#[test]
fn tests_create_new_note_with_valid_topics() {
    let topics = vec!["software/rust".to_string(), "reference".to_string()];
    let result = create("Test Note", None, &topics, &[]).unwrap();
    assert_eq!(result.note.topics().len(), 2);
    assert_eq!(result.note.topics()[0].to_string(), "software/rust");
    assert_eq!(result.note.topics()[1].to_string(), "reference");
}

#[test]
fn tests_create_new_note_rejects_invalid_topic() {
    let topics = vec!["software@invalid".to_string()];
    let err = create("Test Note", None, &topics, &[]).err().unwrap();
    assert!(err.contains("invalid topic"));
}

#[test]
fn tests_create_new_note_normalizes_topics() {
    let topics = vec!["/software/rust/".to_string()];
    let result = create("Test Note", None, &topics, &[]).unwrap();
    assert_eq!(result.note.topics()[0].to_string(), "software/rust");
}

#[test]
fn tests_create_new_note_with_valid_tags() {
    let tags = vec!["draft".to_string(), "important".to_string()];
    let result = create("Test Note", None, &[], &tags).unwrap();
    assert_eq!(result.note.tags().len(), 2);
    assert_eq!(result.note.tags()[0].as_str(), "draft");
    assert_eq!(result.note.tags()[1].as_str(), "important");
}

#[test]
fn tests_create_new_note_rejects_invalid_tag() {
    let tags = vec!["has spaces".to_string()];
    let err = create("Test Note", None, &[], &tags).err().unwrap();
    assert!(err.contains("invalid tag"));
}

#[test]
fn tests_create_new_note_normalizes_tags_to_lowercase() {
    let tags = vec!["DRAFT".to_string()];
    let result = create("Test Note", None, &[], &tags).unwrap();
    assert_eq!(result.note.tags()[0].as_str(), "draft");
}

#[test]
fn tests_create_new_note_returns_correct_filename() {
    let result = create("API Design", None, &[], &[]).unwrap();
    assert!(result.filename.ends_with("-api-design.md"));
    assert_eq!(result.filename.len(), 10 + 1 + "api-design".len() + 3);
}

#[test]
fn tests_create_new_note_rejects_empty_title() {
    let err = create("", None, &[], &[]).err().unwrap();
    assert!(err.contains("empty"));
}

#[test]
fn tests_create_new_note_rejects_whitespace_only_title() {
    let err = create("   ", None, &[], &[]).err().unwrap();
    assert!(err.contains("empty"));
}

fn test_note_id(suffix: &str) -> NoteId {
    NoteId::parse(&format!("01HQ3K5M7NXJK4QZPW8V2R6T{}", suffix)).unwrap()
}

fn test_datetime() -> Timestamp {
    Timestamp::from_unix(1_705_314_600, 0).unwrap()
}

fn with_topics(suffix: &str, title: &str, topics: Vec<Topic>) -> IndexedNote {
    IndexedNote::new(test_note_id(suffix), title, test_datetime(), test_datetime(), &format!("{}.md", suffix))
        .with_topics(topics)
}

fn with_tags(suffix: &str, title: &str, tags: Vec<Tag>) -> IndexedNote {
    IndexedNote::new(test_note_id(suffix), title, test_datetime(), test_datetime(), &format!("{}.md", suffix))
        .with_tags(tags)
}

#[test]
fn tests_search_filters_by_topic_exact() {
    let results = vec![
        with_topics("9A", "Rust Guide", vec![Topic::new("software/rust").unwrap()]),
        with_topics("9B", "Python Guide", vec![Topic::new("software/python").unwrap()]),
    ];
    let topic = Topic::new("software/rust").unwrap();
    let filtered: Vec<_> = results.into_iter().filter(|r| note_matches_topic(r, &topic, false)).collect();
    assert_eq!(filtered.len(), 1);
    assert_eq!(filtered[0].title(), "Rust Guide");
}

#[test]
fn tests_search_filters_by_topic_with_descendants() {
    let results = vec![
        with_topics("9A", "Rust Guide", vec![Topic::new("software/rust").unwrap()]),
        with_topics("9B", "Async Rust", vec![Topic::new("software/rust/async").unwrap()]),
        with_topics("9C", "Python Guide", vec![Topic::new("software/python").unwrap()]),
    ];
    let topic = Topic::new("software/rust").unwrap();
    let filtered: Vec<_> = results.into_iter().filter(|r| note_matches_topic(r, &topic, true)).collect();
    assert_eq!(filtered.len(), 2);
    assert!(filtered.iter().any(|r| r.title() == "Rust Guide"));
    assert!(filtered.iter().any(|r| r.title() == "Async Rust"));
}

#[test]
fn tests_search_filters_by_tags_and_logic() {
    let results = vec![
        with_tags("9A", "Note with both tags", vec![Tag::new("draft").unwrap(), Tag::new("important").unwrap()]),
        with_tags("9B", "Note with draft only", vec![Tag::new("draft").unwrap()]),
        with_tags("9C", "Note with important only", vec![Tag::new("important").unwrap()]),
    ];
    let required = vec![Tag::new("draft").unwrap(), Tag::new("important").unwrap()];
    let filtered: Vec<_> = results.into_iter().filter(|r| note_has_all_tags(r, &required)).collect();
    assert_eq!(filtered.len(), 1);
    assert_eq!(filtered[0].title(), "Note with both tags");
}

#[test]
fn tests_search_preserves_rank_order_after_filtering() {
    let results = vec![
        with_topics("9A", "High Rank", vec![Topic::new("software").unwrap()]),
        with_topics("9D", "Filtered Out", vec![Topic::new("other").unwrap()]),
        with_topics("9B", "Medium Rank", vec![Topic::new("software").unwrap()]),
        with_topics("9C", "Low Rank", vec![Topic::new("software").unwrap()]),
    ];
    let topic = Topic::new("software").unwrap();
    let filtered: Vec<_> = results.into_iter().filter(|r| note_matches_topic(r, &topic, false)).collect();
    assert_eq!(filtered.len(), 3);
    assert_eq!(filtered[0].title(), "High Rank");
    assert_eq!(filtered[1].title(), "Medium Rank");
    assert_eq!(filtered[2].title(), "Low Rank");
}

#[test]
fn handlers_create_new_note_generates_valid_note() {
    tests_create_new_note_generates_valid_note();
}

#[test]
fn handlers_create_new_note_with_description() {
    tests_create_new_note_with_description();
}

#[test]
fn handlers_create_new_note_with_valid_topics() {
    tests_create_new_note_with_valid_topics();
}

#[test]
fn handlers_create_new_note_rejects_invalid_topic() {
    tests_create_new_note_rejects_invalid_topic();
}

#[test]
fn handlers_create_new_note_normalizes_topics() {
    tests_create_new_note_normalizes_topics();
}

#[test]
fn handlers_create_new_note_with_valid_tags() {
    tests_create_new_note_with_valid_tags();
}

#[test]
fn handlers_create_new_note_rejects_invalid_tag() {
    tests_create_new_note_rejects_invalid_tag();
}

#[test]
fn handlers_create_new_note_normalizes_tags_to_lowercase() {
    tests_create_new_note_normalizes_tags_to_lowercase();
}

#[test]
fn handlers_create_new_note_returns_correct_filename() {
    tests_create_new_note_returns_correct_filename();
}

#[test]
fn handlers_create_new_note_rejects_empty_title() {
    tests_create_new_note_rejects_empty_title();
}

#[test]
fn handlers_create_new_note_rejects_whitespace_only_title() {
    tests_create_new_note_rejects_whitespace_only_title();
}

#[test]
fn handlers_search_filters_by_topic_exact() {
    tests_search_filters_by_topic_exact();
}

#[test]
fn handlers_search_filters_by_topic_with_descendants() {
    tests_search_filters_by_topic_with_descendants();
}

#[test]
fn handlers_search_filters_by_tags_and_logic() {
    tests_search_filters_by_tags_and_logic();
}

#[test]
fn handlers_search_preserves_rank_order_after_filtering() {
    tests_search_preserves_rank_order_after_filtering();
}
