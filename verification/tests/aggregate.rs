use den::cli::aggregate::{all_rels, all_tags, all_topics, handle_rels, handle_tags, handle_topics};
use den::cli::args::{RelsArgs, TagsArgs, TopicsArgs};
use den::cli::index::{IndexedNote, NoteIndex};
use den::cli::output::OutputFormat;
use den::domain::link::Link;
use den::domain::note::Note;
use den::domain::note_id::NoteId;
use den::domain::tag::Tag;
use den::domain::timestamp::Timestamp;
use den::domain::topic::Topic;

fn id(suffix: &str) -> NoteId {
    NoteId::parse(&format!("01HQ3K5M7NXJK4QZPW8V2R6T{}", suffix)).unwrap()
}

fn ts() -> Timestamp {
    Timestamp::from_unix(1_705_314_600, 0).unwrap()
}

fn index_with(notes: Vec<Note>) -> NoteIndex {
    let mut index = NoteIndex::new();
    for (i, n) in notes.iter().enumerate() {
        index.upsert(IndexedNote::from_note(n, &format!("{}.md", i)));
    }
    index
}

fn note(suffix: &str, topics: &[&str], tags: &[&str], links: Vec<Link>) -> Note {
    Note::builder(id(suffix), "Test Note", ts(), ts())
        .topics(topics.iter().map(|t| Topic::new(t).unwrap()).collect())
        .tags(tags.iter().map(|t| Tag::new(t).unwrap()).collect())
        .links(links)
        .build()
        .unwrap()
}

#[test]
fn handle_tags_empty_index() {
    let index = NoteIndex::new();
    let (lines, records) = handle_tags(&index, &TagsArgs { counts: false, format: OutputFormat::Human });
    assert_eq!(lines, vec!["No tags found."]);
    assert!(records.is_empty());
}

#[test]
fn handle_tags_lists_tags_sorted() {
    let index = index_with(vec![note("9A", &[], &["rust", "draft", "important"], vec![])]);
    let (lines, _) = handle_tags(&index, &TagsArgs { counts: false, format: OutputFormat::Human });
    assert_eq!(lines, vec!["draft", "important", "rust"]);
}

#[test]
fn handle_tags_json_output() {
    let index = index_with(vec![note("9A", &[], &["rust", "draft"], vec![]), note("9B", &[], &["rust"], vec![])]);
    let (lines, records) = handle_tags(&index, &TagsArgs { counts: true, format: OutputFormat::Json });
    assert!(lines.is_empty());
    assert_eq!(records.len(), 2);
    assert_eq!(records[0].name, "draft");
    assert_eq!(records[0].count, Some(1));
    assert_eq!(records[1].name, "rust");
    assert_eq!(records[1].count, Some(2));
}

#[test]
fn tag_counts_are_per_note() {
    let index = index_with(vec![note("9A", &[], &["a"], vec![]), note("9B", &[], &["a", "b"], vec![])]);
    let tags = all_tags(&index);
    let pairs: Vec<(&str, usize)> = tags.iter().map(|t| (t.name.as_str(), t.count)).collect();
    assert_eq!(pairs, vec![("a", 2), ("b", 1)]);
    let (lines, _) = handle_tags(&index, &TagsArgs { counts: true, format: OutputFormat::Human });
    assert_eq!(lines, vec!["a (2)", "b (1)"]);
}

#[test]
fn handle_rels_empty_index() {
    let index = NoteIndex::new();
    let (lines, _) = handle_rels(&index, &RelsArgs { counts: false, format: OutputFormat::Human });
    assert_eq!(lines, vec!["No relationship types found."]);
}

#[test]
fn handle_rels_lists_rels_sorted() {
    let link = Link::new(id("9B"), vec!["see-also", "parent", "child"]).unwrap();
    let index = index_with(vec![note("9A", &[], &[], vec![link])]);
    let (lines, _) = handle_rels(&index, &RelsArgs { counts: false, format: OutputFormat::Human });
    assert_eq!(lines, vec!["child", "parent", "see-also"]);
}

#[test]
fn handle_rels_with_counts() {
    let a = Link::new(id("9B"), vec!["parent", "see-also"]).unwrap();
    let b = Link::new(id("9C"), vec!["parent"]).unwrap();
    let index = index_with(vec![note("9A", &[], &[], vec![a, b])]);
    let (lines, _) = handle_rels(&index, &RelsArgs { counts: true, format: OutputFormat::Human });
    assert_eq!(lines, vec!["parent (2)", "see-also (1)"]);
    let rels = all_rels(&index);
    assert_eq!(rels.len(), 2);
}

#[test]
fn handle_rels_json_output() {
    let link = Link::new(id("9B"), vec!["parent", "child"]).unwrap();
    let index = index_with(vec![note("9A", &[], &[], vec![link])]);
    let (lines, records) = handle_rels(&index, &RelsArgs { counts: true, format: OutputFormat::Json });
    assert!(lines.is_empty());
    assert_eq!(records[0].name, "child");
    assert_eq!(records[0].count, Some(1));
}

#[test]
fn handle_rels_paths_output() {
    let link = Link::new(id("9B"), vec!["parent"]).unwrap();
    let index = index_with(vec![note("9A", &[], &[], vec![link])]);
    let (lines, _) = handle_rels(&index, &RelsArgs { counts: false, format: OutputFormat::Paths });
    assert_eq!(lines, vec!["parent"]);
}

#[test]
fn handle_topics_empty_index() {
    let index = NoteIndex::new();
    let (lines, _) = handle_topics(&index, &TopicsArgs { counts: false, format: OutputFormat::Human });
    assert_eq!(lines, vec!["No topics found."]);
}

#[test]
fn handle_topics_lists_topics_sorted() {
    let index = index_with(vec![note("9A", &["software/rust", "reference", "software"], &[], vec![])]);
    let (lines, _) = handle_topics(&index, &TopicsArgs { counts: false, format: OutputFormat::Human });
    assert_eq!(lines, vec!["reference", "software", "software/rust"]);
}

#[test]
fn handle_topics_with_counts() {
    let index = index_with(vec![
        note("9A", &["software/rust", "software"], &[], vec![]),
        note("9B", &["software/rust"], &[], vec![]),
    ]);
    let (lines, _) = handle_topics(&index, &TopicsArgs { counts: true, format: OutputFormat::Human });
    assert_eq!(lines, vec!["software (1/2)", "software/rust (2/2)"]);
    let topics = all_topics(&index);
    assert_eq!(topics[0].topic, "software");
    assert_eq!(topics[0].exact_count, 1);
    assert_eq!(topics[0].total_count, 2);
}

#[test]
fn handle_topics_json_output() {
    let index = index_with(vec![note("9A", &["software/rust"], &[], vec![])]);
    let (lines, records) = handle_topics(&index, &TopicsArgs { counts: true, format: OutputFormat::Json });
    assert!(lines.is_empty());
    assert_eq!(records.len(), 1);
    assert_eq!(records[0].path, "software/rust");
    assert_eq!(records[0].count, Some(1));
}

#[test]
fn topic_counts_respect_segment_boundaries() {
    let index = index_with(vec![note("9A", &["soft"], &[], vec![]), note("9B", &["software"], &[], vec![])]);
    let topics = all_topics(&index);
    assert_eq!(topics[0].topic, "soft");
    assert_eq!(topics[0].total_count, 1);
}
