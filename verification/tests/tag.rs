use den::domain::tag::Tag;
use std::collections::HashSet;

#[test]
fn new_with_valid_tag() {
    let tag = Tag::new("draft").unwrap();
    assert_eq!(tag.to_string(), "draft");
}

#[test]
fn tag_new_rejects_empty_string() {
    assert!(Tag::new("").is_err());
}

#[test]
fn tag_new_rejects_whitespace_only() {
    assert!(Tag::new("   ").is_err());
}

#[test]
fn normalizes_to_lowercase() {
    assert_eq!(Tag::new("Draft").unwrap().to_string(), "draft");
}

#[test]
fn normalizes_mixed_case() {
    assert_eq!(Tag::new("NeedsReview").unwrap().to_string(), "needsreview");
}

#[test]
fn trims_whitespace() {
    assert_eq!(Tag::new("  draft  ").unwrap().to_string(), "draft");
}

#[test]
fn allows_alphanumeric() {
    assert!(Tag::new("tag123").is_ok());
}

#[test]
fn allows_hyphens() {
    assert!(Tag::new("needs-review").is_ok());
}

#[test]
fn allows_underscores() {
    assert!(Tag::new("work_in_progress").is_ok());
}

#[test]
fn rejects_spaces() {
    assert!(Tag::new("needs review").is_err());
}

#[test]
fn rejects_special_chars() {
    assert!(Tag::new("tag@home").is_err());
    assert!(Tag::new("tag#1").is_err());
}

#[test]
fn rejects_slashes() {
    assert!(Tag::new("path/tag").is_err());
}

#[test]
fn equality_case_insensitive() {
    let t1 = Tag::new("Draft").unwrap();
    let t2 = Tag::new("draft").unwrap();
    let t3 = Tag::new("DRAFT").unwrap();
    assert_eq!(t1, t2);
    assert_eq!(t2, t3);
}

#[test]
fn tag_hash_consistent_with_equality() {
    let t1 = Tag::new("Draft").unwrap();
    let t2 = Tag::new("draft").unwrap();
    let mut set = HashSet::new();
    set.insert(t1);
    assert!(set.contains(&t2));
}

#[test]
fn tag_debug_format() {
    let tag = Tag::new("draft").unwrap();
    assert_eq!(format!("{:?}", tag), "Tag(\"draft\")");
}

#[test]
fn tag_parse_via_fromstr() {
    let tag: Tag = "draft".parse().unwrap();
    assert_eq!(tag.to_string(), "draft");
}

#[test]
fn tag_parse_error_display() {
    let err = "".parse::<Tag>().unwrap_err();
    assert!(err.to_string().contains("empty") || err.to_string().contains("invalid"));
}

#[test]
fn tag_error_messages() {
    assert_eq!(Tag::new("  ").unwrap_err().to_string(), "tag cannot be empty");
    assert_eq!(
        Tag::new("Tag@Home").unwrap_err().to_string(),
        "invalid tag 'tag@home': tags must contain only alphanumeric characters, hyphens, and underscores"
    );
}

#[test]
fn tag_normal_form_reparses_to_itself() {
    let tag = Tag::new("  Needs-Review ").unwrap();
    let again = Tag::new(tag.as_str()).unwrap();
    assert_eq!(tag, again);
    assert_eq!(again.as_str(), "needs-review");
}

#[test]
fn hashset_deduplicates_case_variants() {
    let mut set = std::collections::HashSet::new();
    set.insert(Tag::new("draft").unwrap());
    set.insert(Tag::new("Draft").unwrap());
    set.insert(Tag::new("DRAFT").unwrap());
    assert_eq!(set.len(), 1);
}

#[test]
fn display_shows_normalized_value() {
    let tag = Tag::new("NeedsReview").unwrap();
    assert_eq!(tag.to_string(), "needsreview");
}

#[test]
fn parse_normalizes() {
    let tag: Tag = "DRAFT".parse().unwrap();
    assert_eq!(tag.to_string(), "draft");
}

#[test]
fn as_str_returns_normalized_value() {
    let tag = Tag::new("DRAFT").unwrap();
    assert_eq!(tag.as_str(), "draft");
}

#[test]
fn uppercased_tag_parses_to_the_same_tag() {
    let t = Tag::new("Draft-Notes").unwrap();
    assert_eq!(Tag::new(&t.to_string().to_uppercase()).unwrap(), t);
    assert_eq!(Tag::new("  DRAFT-NOTES ").unwrap(), t);
}
