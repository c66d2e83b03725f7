use den::domain::link::Rel;
use std::collections::HashSet;

#[test]
fn rel_new_with_valid_value() {
    assert_eq!(Rel::new("parent").unwrap().to_string(), "parent");
}

#[test]
fn rel_rejects_empty_string() {
    assert!(Rel::new("").is_err());
}

#[test]
fn rel_rejects_whitespace_only() {
    assert!(Rel::new("   ").is_err());
}

#[test]
fn rel_normalizes_to_lowercase() {
    assert_eq!(Rel::new("Parent").unwrap().to_string(), "parent");
}

#[test]
fn rel_trims_whitespace() {
    assert_eq!(Rel::new("  parent  ").unwrap().to_string(), "parent");
}

#[test]
fn rel_allows_hyphens() {
    assert_eq!(Rel::new("see-also").unwrap().to_string(), "see-also");
}

#[test]
fn rel_rejects_underscores() {
    assert!(Rel::new("see_also").is_err());
}

#[test]
fn rel_rejects_spaces() {
    assert!(Rel::new("see also").is_err());
}

#[test]
fn rel_rejects_special_chars() {
    assert!(Rel::new("rel@1").is_err());
    assert!(Rel::new("rel#1").is_err());
}

#[test]
fn rel_rejects_slashes() {
    assert!(Rel::new("parent/child").is_err());
}

#[test]
fn rel_equality_case_insensitive() {
    let r1 = Rel::new("Parent").unwrap();
    let r2 = Rel::new("parent").unwrap();
    let r3 = Rel::new("PARENT").unwrap();
    assert_eq!(r1, r2);
    assert_eq!(r2, r3);
}

#[test]
fn rel_hash_consistent_with_equality() {
    let r1 = Rel::new("Parent").unwrap();
    let r2 = Rel::new("parent").unwrap();
    let mut set = HashSet::new();
    set.insert(r1);
    assert!(set.contains(&r2));
}

#[test]
fn rel_debug_format() {
    let rel = Rel::new("parent").unwrap();
    assert_eq!(format!("{:?}", rel), "Rel(\"parent\")");
}

#[test]
fn rel_as_str_accessor() {
    assert_eq!(Rel::new("PARENT").unwrap().as_str(), "parent");
}

#[test]
fn rel_parse_via_fromstr() {
    let rel: Rel = "parent".parse().unwrap();
    assert_eq!(rel.to_string(), "parent");
}

#[test]
fn rel_parse_error_display() {
    let err = "".parse::<Rel>().unwrap_err();
    assert!(err.to_string().contains("empty") || err.to_string().contains("invalid"));
}

#[test]
fn rel_error_messages() {
    assert_eq!(Rel::new("").unwrap_err().to_string(), "relationship type cannot be empty");
    assert_eq!(
        Rel::new("See_Also").unwrap_err().to_string(),
        "invalid relationship type 'see_also': must contain only alphanumeric characters and hyphens"
    );
}

#[test]
fn rel_normal_form_reparses_to_itself() {
    let rel = Rel::new(" See-Also ").unwrap();
    assert_eq!(Rel::new(rel.as_str()).unwrap(), rel);
}
