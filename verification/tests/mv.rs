use den::cli::mv::{moved_note, parse_topics, plan_mv, validate_mv_args, MvArgs};
use den::cli::output::OutputFormat;
use den::domain::note::Note;
use den::domain::note_id::NoteId;
use den::domain::tag::Tag;
use den::domain::timestamp::Timestamp;
use den::domain::topic::Topic;

fn make_args(note: &str, title: Option<&str>, topics: Vec<&str>, clear_topics: bool) -> MvArgs {
    MvArgs {
        note: note.to_string(),
        title: title.map(|s| s.to_string()),
        topics: topics.into_iter().map(|s| s.to_string()).collect(),
        clear_topics,
        format: OutputFormat::Human,
    }
}

#[test]
fn validate_requires_at_least_one_change() {
    let result = validate_mv_args(&make_args("some-note", None, vec![], false));
    assert!(result.is_err());
    assert!(result.unwrap_err().to_string().contains("at least one of --title, --topic, or --clear-topics"));
}

#[test]
fn validate_rejects_clear_topics_with_topics() {
    let result = validate_mv_args(&make_args("some-note", None, vec!["software"], true));
    assert!(result.is_err());
    assert!(result.unwrap_err().to_string().contains("mutually exclusive"));
}

#[test]
fn validate_rejects_empty_title() {
    let result = validate_mv_args(&make_args("some-note", Some(""), vec![], false));
    assert!(result.is_err());
    assert!(result.unwrap_err().to_string().contains("cannot be empty"));
}

#[test]
fn validate_rejects_whitespace_only_title() {
    let result = validate_mv_args(&make_args("some-note", Some("   "), vec![], false));
    assert!(result.is_err());
    assert!(result.unwrap_err().to_string().contains("cannot be empty"));
}

#[test]
fn validate_accepts_title_only() {
    assert!(validate_mv_args(&make_args("some-note", Some("New Title"), vec![], false)).is_ok());
}

#[test]
fn validate_accepts_topics_only() {
    assert!(validate_mv_args(&make_args("some-note", None, vec!["software/rust"], false)).is_ok());
}

#[test]
fn validate_accepts_clear_topics_only() {
    assert!(validate_mv_args(&make_args("some-note", None, vec![], true)).is_ok());
}

#[test]
fn validate_accepts_title_and_clear_topics() {
    assert!(validate_mv_args(&make_args("some-note", Some("New Title"), vec![], true)).is_ok());
}

#[test]
fn parse_topics_valid() {
    let topics = parse_topics(&["software/rust".to_string(), "tutorials".to_string()]).unwrap();
    assert_eq!(topics.len(), 2);
    assert_eq!(topics[0].to_string(), "software/rust");
    assert_eq!(topics[1].to_string(), "tutorials");
}

#[test]
fn parse_topics_invalid() {
    let topics = parse_topics(&["invalid topic with spaces".to_string()]);
    assert!(topics.is_err());
}

#[test]
fn parse_topics_reports_first_invalid() {
    let err = parse_topics(&["ok".to_string(), "bad topic".to_string(), "also bad!".to_string()]).unwrap_err();
    assert_eq!(err.input(), "bad topic");
    assert_eq!(
        err.to_string(),
        "invalid topic 'bad topic': topics must contain only alphanumeric characters, hyphens, underscores, and forward slashes"
    );
}

fn sample_note() -> Note {
    Note::builder(
        NoteId::parse("01HQ3K5M7NXJK4QZPW8V2R6T9A").unwrap(),
        "Old Title",
        Timestamp::from_unix(1_705_314_600, 0).unwrap(),
        Timestamp::from_unix(1_705_314_600, 0).unwrap(),
    )
    .topics(vec![Topic::new("software").unwrap()])
    .tags(vec![Tag::new("draft").unwrap()])
    .build()
    .unwrap()
}

#[test]
fn plan_mv_keeps_topics_when_only_title_changes() {
    let note = sample_note();
    let plan = plan_mv(&note, &make_args("x", Some("  New Title "), vec![], false)).ok().unwrap();
    assert_eq!(plan.new_title, "New Title");
    assert!(!plan.title_unchanged);
    assert!(plan.topics_unchanged);
    assert_eq!(plan.new_topics.len(), 1);
}

#[test]
fn plan_mv_same_title_and_topics_is_no_change() {
    let note = sample_note();
    let plan = plan_mv(&note, &make_args("x", Some("Old Title"), vec!["software"], false)).ok().unwrap();
    assert!(plan.title_unchanged);
    assert!(plan.topics_unchanged);
}

#[test]
fn plan_mv_clear_topics() {
    let note = sample_note();
    let plan = plan_mv(&note, &make_args("x", None, vec![], true)).ok().unwrap();
    assert!(plan.new_topics.is_empty());
    assert!(!plan.topics_unchanged);
}

#[test]
fn moved_note_keeps_identity_and_tags() {
    let note = sample_note();
    let plan = plan_mv(&note, &make_args("x", Some("New"), vec!["work/meetings"], false)).ok().unwrap();
    let later = Timestamp::from_unix(1_705_400_000, 0).unwrap();
    let moved = moved_note(&note, &plan, later).unwrap();
    assert_eq!(moved.title(), "New");
    assert_eq!(moved.id(), note.id());
    assert_eq!(moved.created(), note.created());
    assert_eq!(moved.modified(), later);
    assert_eq!(moved.topics()[0].to_string(), "work/meetings");
    assert_eq!(moved.tags()[0].as_str(), "draft");
}

#[test]
fn validate_accepts_title_and_topics() {
    let args = make_args("some-note", Some("New Title"), vec!["software"], false);
    let result = validate_mv_args(&args);
    assert!(result.is_ok());
}
