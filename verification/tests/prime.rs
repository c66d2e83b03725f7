use den::cli::prime::{build_content, format_human, get_sections, PrimeArgs, PrimeFormat, Section};

#[test]
fn section_from_str_is_case_insensitive() {
    assert_eq!(Section::from_str("concept"), Some(Section::Concept));
    assert_eq!(Section::from_str("CONCEPT"), Some(Section::Concept));
    assert_eq!(Section::from_str("Concept"), Some(Section::Concept));
    assert_eq!(Section::from_str("  concept  "), Some(Section::Concept));
}

#[test]
fn section_from_str_returns_none_for_invalid() {
    assert_eq!(Section::from_str("invalid"), None);
    assert_eq!(Section::from_str(""), None);
}

#[test]
fn all_sections_have_content() {
    for section in Section::all() {
        assert!(!section.full_content().is_empty());
        assert!(!section.compact_content().is_empty());
    }
}

#[test]
fn compact_content_is_shorter_than_full() {
    for section in Section::all() {
        assert!(
            section.compact_content().len() < section.full_content().len(),
            "compact should be shorter for {:?}",
            section
        );
    }
}

#[test]
fn get_sections_defaults_to_all_and_skips_unknown() {
    let all = get_sections(&PrimeArgs { sections: vec![], compact: false, format: PrimeFormat::Human });
    assert_eq!(all.len(), 8);
    let some = get_sections(&PrimeArgs {
        sections: vec!["links".to_string(), "nope".to_string(), "Schema".to_string()],
        compact: true,
        format: PrimeFormat::Json,
    });
    assert_eq!(some, vec![Section::Links, Section::Schema]);
}

#[test]
fn format_human_has_heading_and_sections() {
    let content = build_content(&[Section::Topics], true);
    let text = format_human(&content);
    assert!(text.starts_with("# Notes CLI Primer\n\n## Topics\n\n"));
    assert!(text.ends_with(&format!("{}\n\n", Section::Topics.compact_content())));
}
