use den::domain::link::Link;
use den::domain::note::Note;
use den::domain::note_id::NoteId;
use den::domain::tag::Tag;
use den::domain::timestamp::Timestamp;
use den::domain::topic::Topic;

fn test_note_id() -> NoteId {
    "01HQ3K5M7NXJK4QZPW8V2R6T9Y".parse().unwrap()
}

fn test_datetime() -> Timestamp {
    // 2024-01-15T10:30:00Z
    Timestamp::from_unix(1_705_314_600, 0).unwrap()
}

fn test_modified_datetime() -> Timestamp {
    // 2024-01-16T14:00:00Z
    Timestamp::from_unix(1_705_413_600, 0).unwrap()
}

fn builder() -> den::domain::note::NoteBuilder {
    Note::builder(test_note_id(), "Test", test_datetime(), test_modified_datetime())
}

#[test]
fn new_with_required_fields() {
    let id = test_note_id();
    let created = test_datetime();
    let modified = test_modified_datetime();
    let note = Note::new(id, "API Design", created, modified).unwrap();

    assert_eq!(note.id(), &id);
    assert_eq!(note.title(), "API Design");
    assert_eq!(note.created(), created);
    assert_eq!(note.modified(), modified);
}

#[test]
fn accessors_return_correct_values() {
    let note = Note::new(test_note_id(), "Test Note", test_datetime(), test_modified_datetime()).unwrap();

    assert_eq!(note.title(), "Test Note");
    assert_eq!(note.created(), test_datetime());
    assert_eq!(note.modified(), test_modified_datetime());
    assert_eq!(note.description(), None);
    assert!(note.topics().is_empty());
    assert!(note.aliases().is_empty());
    assert!(note.tags().is_empty());
    assert!(note.links().is_empty());
}

#[test]
fn title_cannot_be_empty() {
    let result = Note::new(test_note_id(), "", test_datetime(), test_modified_datetime());
    assert!(result.is_err());
    let result = Note::new(test_note_id(), "   ", test_datetime(), test_modified_datetime());
    assert!(result.is_err());
}

#[test]
fn created_before_modified_is_valid() {
    let created = test_datetime();
    let modified = test_modified_datetime();
    assert!(created.is_at_or_before(&modified));
    let note = Note::new(test_note_id(), "Test", created, modified).unwrap();
    assert_eq!(note.created(), created);
    assert_eq!(note.modified(), modified);
}

#[test]
fn builder_sets_description() {
    let note = builder().description(Some("A test description")).build().unwrap();
    assert_eq!(note.description(), Some("A test description"));
}

#[test]
fn builder_sets_topics() {
    let topics = vec![Topic::new("software/api").unwrap(), Topic::new("reference").unwrap()];
    let note = builder().topics(topics.clone()).build().unwrap();
    assert_eq!(note.topics().len(), 2);
    assert_eq!(note.topics()[0].to_string(), "software/api");
}

#[test]
fn builder_sets_aliases() {
    let aliases = vec!["REST API".to_string(), "API Guide".to_string()];
    let note = builder().aliases(aliases).build().unwrap();
    assert_eq!(note.aliases().len(), 2);
    assert_eq!(note.aliases()[0], "REST API");
}

#[test]
fn builder_sets_tags() {
    let tags = vec![Tag::new("draft").unwrap(), Tag::new("review").unwrap()];
    let note = builder().tags(tags).build().unwrap();
    assert_eq!(note.tags().len(), 2);
    assert_eq!(note.tags()[0].as_str(), "draft");
}

#[test]
fn builder_sets_links() {
    let target: NoteId = "01HQ4A2R9PXJK4QZPW8V2R6T9Y".parse().unwrap();
    let links = vec![Link::new(target, vec!["parent"]).unwrap()];
    let note = builder().links(links).build().unwrap();
    assert_eq!(note.links().len(), 1);
    assert_eq!(note.links()[0].rel()[0].as_str(), "parent");
}

#[test]
fn builder_chains_all_fields() {
    let target: NoteId = "01HQ4A2R9PXJK4QZPW8V2R6T9Y".parse().unwrap();
    let note = Note::builder(test_note_id(), "Full Note", test_datetime(), test_modified_datetime())
        .description(Some("Complete description"))
        .topics(vec![Topic::new("software").unwrap()])
        .aliases(vec!["Alias One".to_string()])
        .tags(vec![Tag::new("important").unwrap()])
        .links(vec![Link::new(target, vec!["see-also"]).unwrap()])
        .build()
        .unwrap();

    assert_eq!(note.title(), "Full Note");
    assert_eq!(note.description(), Some("Complete description"));
    assert_eq!(note.topics().len(), 1);
    assert_eq!(note.aliases().len(), 1);
    assert_eq!(note.tags().len(), 1);
    assert_eq!(note.links().len(), 1);
}

#[test]
fn aliases_are_deduplicated() {
    let aliases = vec!["REST API".to_string(), "rest api".to_string(), "API Guide".to_string()];
    let note = builder().aliases(aliases).build().unwrap();
    assert_eq!(note.aliases().len(), 2);
    assert_eq!(note.aliases()[0], "REST API");
    assert_eq!(note.aliases()[1], "API Guide");
}

#[test]
fn topics_are_deduplicated() {
    let topics = vec![
        Topic::new("software/api").unwrap(),
        Topic::new("software/api").unwrap(),
        Topic::new("reference").unwrap(),
    ];
    let note = builder().topics(topics).build().unwrap();
    assert_eq!(note.topics().len(), 2);
}

#[test]
fn tags_are_deduplicated() {
    let tags = vec![Tag::new("Draft").unwrap(), Tag::new("draft").unwrap(), Tag::new("review").unwrap()];
    let note = builder().tags(tags).build().unwrap();
    assert_eq!(note.tags().len(), 2);
}

#[test]
fn empty_description_normalized_to_none() {
    let note = builder().description(Some("   ")).build().unwrap();
    assert_eq!(note.description(), None);
}

#[test]
fn id_timestamp_matches_created() {
    let created = test_datetime();
    let id = NoteId::from_datetime(created);
    let note = Note::new(id, "Test", created, test_modified_datetime()).unwrap();
    let id_timestamp = note.id().timestamp();
    let diff = (id_timestamp.timestamp_millis() - created.timestamp_millis()).abs();
    assert!(diff < 1000);
}

#[test]
fn equality_compares_all_fields() {
    let note1 = builder().description(Some("Description")).build().unwrap();
    let note2 = builder().description(Some("Description")).build().unwrap();
    assert_eq!(note1, note2);
}

#[test]
fn equality_fails_on_different_id() {
    let note1 = Note::new(test_note_id(), "Test", test_datetime(), test_modified_datetime()).unwrap();
    let note2 = Note::new(NoteId::new(), "Test", test_datetime(), test_modified_datetime()).unwrap();
    assert_ne!(note1, note2);
}

#[test]
fn equality_fails_on_different_optional_fields() {
    let note1 = builder().description(Some("Description A")).build().unwrap();
    let note2 = builder().description(Some("Description B")).build().unwrap();
    assert_ne!(note1, note2);
}

#[test]
fn clone_produces_equal_note() {
    let note = Note::builder(test_note_id(), "Test", test_datetime(), test_modified_datetime())
        .description(Some("Description"))
        .topics(vec![Topic::new("software").unwrap()])
        .tags(vec![Tag::new("draft").unwrap()])
        .build()
        .unwrap();
    let cloned = note.clone();
    assert_eq!(note, cloned);
}

#[test]
fn display_shows_title_and_id_prefix() {
    let note = Note::new(test_note_id(), "API Design", test_datetime(), test_modified_datetime()).unwrap();
    assert_eq!(note.to_string(), "API Design [01HQ3K5M7N]");
}

#[test]
fn debug_shows_full_structure() {
    let note = Note::new(test_note_id(), "Test", test_datetime(), test_modified_datetime()).unwrap();
    let debug = format!("{:?}", note);
    assert!(debug.contains("Note"));
    assert!(debug.contains("id"));
    assert!(debug.contains("title"));
    assert!(debug.contains("created"));
    assert!(debug.contains("modified"));
    assert!(debug.contains("description"));
    assert!(debug.contains("topics"));
    assert!(debug.contains("aliases"));
    assert!(debug.contains("tags"));
    assert!(debug.contains("links"));
}

#[test]
fn builder_allows_duplicate_links_to_same_target() {
    let target: NoteId = "01HQ4A2R9PXJK4QZPW8V2R6T9Y".parse().unwrap();
    let link1 = Link::new(target, vec!["parent"]).unwrap();
    let link2 = Link::new(target, vec!["source"]).unwrap();
    let note = builder().links(vec![link1, link2]).build().unwrap();
    assert_eq!(note.links().len(), 2);
}

#[test]
fn aliases_filter_out_empty_strings() {
    let aliases = vec![
        "Valid Alias".to_string(),
        "".to_string(),
        "   ".to_string(),
        "Another Valid".to_string(),
    ];
    let note = builder().aliases(aliases).build().unwrap();
    assert_eq!(note.aliases().len(), 2);
    assert_eq!(note.aliases()[0], "Valid Alias");
    assert_eq!(note.aliases()[1], "Another Valid");
}

#[test]
fn created_equals_modified_is_valid() {
    let timestamp = test_datetime();
    let note = Note::new(test_note_id(), "New Note", timestamp, timestamp).unwrap();
    assert_eq!(note.created(), note.modified());
}

#[test]
fn title_whitespace_is_trimmed() {
    let note = Note::new(test_note_id(), "  API Design  ", test_datetime(), test_modified_datetime()).unwrap();
    assert_eq!(note.title(), "API Design");
}

#[test]
fn description_whitespace_is_trimmed() {
    let note = builder().description(Some("  A description with spaces  ")).build().unwrap();
    assert_eq!(note.description(), Some("A description with spaces"));
}

#[test]
fn note_parse_error_shows_empty_title() {
    let err = Note::new(test_note_id(), "", test_datetime(), test_datetime()).unwrap_err();
    assert!(err.to_string().contains("title"));
    assert!(err.to_string().contains("cannot be empty"));
}
