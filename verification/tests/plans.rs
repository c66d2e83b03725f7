use den::cli::args::SearchArgs;
use den::cli::export::{handle_export, ExportArgs, ExportFormat, ExportPlan};
use den::cli::index::{IndexedNote, NoteIndex};
use den::cli::args::ListArgs;
use den::cli::list::{handle_list, handle_search};
use den::cli::mv::topic_strings;
use den::cli::output::OutputFormat;
use den::cli::tagging::{archive_note, unarchive_note};
use den::domain::link::Link;
use den::domain::note::Note;
use den::domain::note_id::NoteId;
use den::domain::tag::Tag;
use den::domain::timestamp::Timestamp;
use den::domain::topic::Topic;
use den::export::links::{LinkResolver, LinkResolverOptions};

fn id(suffix: &str) -> NoteId {
    NoteId::parse(&format!("01HQ3K5M7NXJK4QZPW8V2R6T{}", suffix)).unwrap()
}

fn ts(secs: i64) -> Timestamp {
    Timestamp::from_unix(secs, 0).unwrap()
}

fn indexed(suffix: &str, title: &str, topics: &[&str], tags: &[&str]) -> IndexedNote {
    IndexedNote::new(id(suffix), title, ts(1_705_314_600), ts(1_705_314_600), &format!("{}.md", suffix))
        .with_topics(topics.iter().map(|t| Topic::new(t).unwrap()).collect())
        .with_tags(tags.iter().map(|t| Tag::new(t).unwrap()).collect())
}

fn search_args(topic: Option<&str>, tags: &[&str], include_archived: bool) -> SearchArgs {
    SearchArgs {
        query: "q".to_string(),
        topic: topic.map(|t| t.to_string()),
        tags: tags.iter().map(|t| t.to_string()).collect(),
        format: OutputFormat::Human,
        include_archived,
    }
}

#[test]
fn search_keeps_matching_positions_in_rank_order() {
    let results = vec![
        indexed("9A", "High", &["software"], &["draft"]),
        indexed("9B", "Other", &["other"], &["draft"]),
        indexed("9C", "Low", &["software/rust"], &["draft"]),
        indexed("9D", "Archived", &["software"], &["draft", "archived"]),
    ];
    assert_eq!(handle_search(&results, &search_args(Some("software/"), &["draft"], false)).unwrap(), vec![0, 2]);
    assert_eq!(handle_search(&results, &search_args(Some("software"), &[], true)).unwrap(), vec![0, 3]);
    assert_eq!(handle_search(&results, &search_args(None, &[], false)).unwrap(), vec![0, 1, 2]);
}

#[test]
fn search_rejects_invalid_filters() {
    let results = vec![indexed("9A", "High", &["software"], &[])];
    assert_eq!(handle_search(&results, &search_args(Some("bad@topic"), &[], false)).unwrap_err().to_string(), "invalid topic: bad@topic");
    assert_eq!(handle_search(&results, &search_args(None, &["has space"], false)).unwrap_err().to_string(), "invalid tag");
}

fn export_args(note: Option<&str>, all: bool, output: Option<&str>, format: ExportFormat) -> ExportArgs {
    ExportArgs {
        note: note.map(|s| s.to_string()),
        all,
        output: output.map(|s| s.to_string()),
        export_format: format,
        cli_format: OutputFormat::Human,
        topic: None,
        tags: vec![],
        include_archived: false,
        resolve_links: false,
        theme: None,
        template: None,
    }
}

fn export_index() -> NoteIndex {
    let mut index = NoteIndex::new();
    index.upsert(indexed("9A", "Alpha", &["software"], &[]));
    index.upsert(indexed("9B", "Beta", &[], &["archived"]));
    index
}

#[test]
fn export_single_note_plan() {
    let index = export_index();
    match handle_export(&index, &export_args(Some("Alpha"), false, None, ExportFormat::Html)).unwrap() {
        ExportPlan::Single(n) => assert_eq!(n.title(), "Alpha"),
        other => panic!("unexpected plan {:?}", other),
    }
    let err = handle_export(&index, &export_args(Some("Nope"), false, None, ExportFormat::Html)).unwrap_err();
    assert_eq!(err.to_string(), "Note not found: Nope");
    let err = handle_export(&index, &export_args(Some("Alpha"), false, None, ExportFormat::Site)).unwrap_err();
    assert_eq!(err.to_string(), "Site export requires --all flag to export all notes.");
}

#[test]
fn export_bulk_plan_skips_archived_notes() {
    let index = export_index();
    match handle_export(&index, &export_args(None, true, Some("out"), ExportFormat::Site)).unwrap() {
        ExportPlan::Bulk(notes, dir) => {
            assert_eq!(notes.len(), 1);
            assert_eq!(notes[0].title(), "Alpha");
            assert_eq!(dir, "out");
        }
        other => panic!("unexpected plan {:?}", other),
    }
    let err = handle_export(&index, &export_args(None, true, None, ExportFormat::Site)).unwrap_err();
    assert_eq!(err.to_string(), "Bulk export requires --output directory");
}

#[test]
fn archive_then_unarchive() {
    let note = Note::new(id("9A"), "Old Project Notes", ts(1_705_314_600), ts(1_705_314_600)).unwrap();
    let archived = archive_note(&note, ts(1_705_400_000)).unwrap().unwrap();
    assert!(archived.tags().iter().any(|t| t.as_str() == "archived"));
    assert_eq!(archived.modified(), ts(1_705_400_000));
    assert!(archive_note(&archived, ts(1_705_500_000)).unwrap().is_none());
    let restored = unarchive_note(&archived, ts(1_705_500_000)).unwrap().unwrap();
    assert!(restored.tags().is_empty());
    assert!(unarchive_note(&restored, ts(1_705_600_000)).unwrap().is_none());
}

#[test]
fn topic_strings_are_paths() {
    let topics = vec![Topic::new("software/rust").unwrap(), Topic::new("reference").unwrap()];
    assert_eq!(topic_strings(&topics), vec!["software/rust".to_string(), "reference".to_string()]);
}

#[test]
fn index_builders_and_lookups() {
    let n = IndexedNote::new(id("9A"), "Alpha", ts(0), ts(0), "a.md")
        .with_aliases(vec!["First".to_string()])
        .with_description(Some("About alpha".to_string()))
        .with_links(vec![Link::new(id("9B"), vec!["parent"]).unwrap()])
        .with_tags(vec![Tag::new("draft").unwrap()]);
    assert_eq!(n.aliases(), &["First".to_string()]);
    assert_eq!(n.description(), Some("About alpha"));
    assert_eq!(n.links().len(), 1);
    let mut index = NoteIndex::new();
    index.upsert(n);
    index.upsert(indexed("9C", "Gamma", &[], &[]));
    let tagged = index.list_by_tag(&Tag::new("DRAFT").unwrap());
    assert_eq!(tagged.len(), 1);
    assert_eq!(tagged[0].title(), "Alpha");
    assert_eq!(index.find_by_alias("first").len(), 1);
    assert_eq!(index.backlinks(&id("9B"), None).len(), 1);
}

#[test]
fn resolver_from_index_rewrites_links() {
    let mut index = NoteIndex::new();
    index.upsert(indexed("9A", "Target Note", &[], &[]));
    let options = LinkResolverOptions::default();
    let resolver = LinkResolver::from_index(&index, &options);
    let result = resolver.resolve("See [it](01HQ3K5M7N) now");
    assert_eq!(result.content, "See [it](target-note.html) now");
    assert_eq!(result.resolved, 1);
}

fn list_args(topic: Option<&str>, tags: &[&str], created: Option<&str>, include_archived: bool) -> ListArgs {
    ListArgs {
        topic: topic.map(|t| t.to_string()),
        tags: tags.iter().map(|t| t.to_string()).collect(),
        format: OutputFormat::Human,
        created: created.map(|c| c.to_string()),
        modified: None,
        include_archived,
    }
}

fn list_index() -> NoteIndex {
    let mut index = NoteIndex::new();
    index.upsert(
        IndexedNote::new(id("9A"), "Old", ts(1_700_000_000), ts(1_700_000_000), "a.md")
            .with_topics(vec![Topic::new("software").unwrap()]),
    );
    index.upsert(
        IndexedNote::new(id("9B"), "New", ts(1_705_314_600), ts(1_705_400_000), "b.md")
            .with_topics(vec![Topic::new("software/rust").unwrap()])
            .with_tags(vec![Tag::new("draft").unwrap()]),
    );
    index.upsert(
        IndexedNote::new(id("9C"), "Shelved", ts(1_705_314_600), ts(1_705_500_000), "c.md")
            .with_tags(vec![Tag::new("archived").unwrap()]),
    );
    index
}

fn titles(v: &[IndexedNote]) -> Vec<&str> {
    v.iter().map(|n| n.title()).collect()
}

#[test]
fn list_shows_newest_first_without_archived() {
    let index = list_index();
    let now = ts(1_706_000_000);
    let all = handle_list(&index, &list_args(None, &[], None, false), now).unwrap();
    assert_eq!(titles(&all), vec!["New", "Old"]);
    let with_archived = handle_list(&index, &list_args(None, &[], None, true), now).unwrap();
    assert_eq!(titles(&with_archived), vec!["Shelved", "New", "Old"]);
}

#[test]
fn list_filters_by_topic_tags_and_dates() {
    let index = list_index();
    let now = ts(1_706_000_000);
    assert_eq!(titles(&handle_list(&index, &list_args(Some("software/"), &[], None, false), now).unwrap()), vec!["New", "Old"]);
    assert_eq!(titles(&handle_list(&index, &list_args(Some("software"), &[], None, false), now).unwrap()), vec!["Old"]);
    assert_eq!(titles(&handle_list(&index, &list_args(None, &["DRAFT"], None, false), now).unwrap()), vec!["New"]);
    assert_eq!(titles(&handle_list(&index, &list_args(None, &[], Some("2024-01-01"), false), now).unwrap()), vec!["New"]);
}

#[test]
fn list_refusals() {
    let index = list_index();
    let now = ts(1_706_000_000);
    let err = handle_list(&index, &list_args(Some("bad@topic"), &[], None, false), now).unwrap_err();
    assert_eq!(err.to_string(), "invalid topic: bad@topic");
    let err = handle_list(&index, &list_args(None, &["has space"], None, false), now).unwrap_err();
    assert_eq!(err.to_string(), "invalid tag: has space");
    let err = handle_list(&index, &list_args(None, &[], Some("-2d"), false), now).unwrap_err();
    assert_eq!(err.to_string(), "invalid --created filter: days must be non-negative: -2d");
}

#[test]
fn archive_round_trip_keeps_every_other_field() {
    let note = Note::builder(id("9C"), "Kept Fields", ts(1_705_314_600), ts(1_705_314_600))
        .description(Some("  A description  "))
        .topics(vec![Topic::new("work").unwrap()])
        .aliases(vec!["KF".to_string(), " kf ".to_string(), "Other".to_string()])
        .tags(vec![Tag::new("draft").unwrap()])
        .build()
        .unwrap();
    let archived = archive_note(&note, ts(1_705_400_000)).unwrap().unwrap();
    let restored = unarchive_note(&archived, ts(1_705_500_000)).unwrap().unwrap();
    for n in [&archived, &restored] {
        assert_eq!(n.title(), note.title());
        assert_eq!(n.description(), Some("A description"));
        assert_eq!(n.aliases(), note.aliases());
        assert_eq!(n.topics(), note.topics());
        assert_eq!(n.created(), note.created());
    }
    assert_eq!(restored.tags(), note.tags());
}
