use den::domain::kind::NoteKind;
use std::collections::HashSet;

#[test]
fn is_default_returns_true_only_for_generic() {
    assert!(NoteKind::Generic.is_default());
    assert!(!NoteKind::Book.is_default());
    assert!(!NoteKind::Paper.is_default());
    assert!(!NoteKind::Transcript.is_default());
    assert!(!NoteKind::Article.is_default());
    assert!(!NoteKind::Other("custom".to_string()).is_default());
}

#[test]
fn parse_strict_rejects_unknown_kinds() {
    let err = NoteKind::parse_strict("custom-kind").unwrap_err();
    assert_eq!(err.input(), "custom-kind");
    assert!(err.to_string().contains("unknown kind"));
    assert!(err.to_string().contains("custom-kind"));
}

#[test]
fn parse_strict_error_lists_valid_kinds() {
    let err = NoteKind::parse_strict("invalid").unwrap_err();
    let msg = err.to_string();
    assert!(msg.contains("generic"));
    assert!(msg.contains("book"));
    assert!(msg.contains("paper"));
    assert!(msg.contains("transcript"));
    assert!(msg.contains("article"));
}

#[test]
fn parse_strict_is_case_insensitive() {
    assert!(NoteKind::parse_strict("BOOK").unwrap() == NoteKind::Book);
    assert!(NoteKind::parse_strict("Paper").unwrap() == NoteKind::Paper);
}

#[test]
fn known_names_returns_all_kind_strings() {
    let names = NoteKind::known_names();
    assert_eq!(names, vec!["generic", "book", "paper", "transcript", "article"]);
}

#[test]
fn from_text_keeps_unknown_kinds() {
    assert!(NoteKind::from_text("Article") == NoteKind::Article);
    assert_eq!(NoteKind::from_text("custom").as_str(), "custom");
}

#[test]
fn debug_includes_variant() {
    let debug = format!("{:?}", NoteKind::Book);
    assert!(debug.contains("Book"));
    let other_debug = format!("{:?}", NoteKind::Other("custom".to_string()));
    assert!(other_debug.contains("Other"));
    assert!(other_debug.contains("custom"));
}

#[test]
fn default_is_generic() {
    assert_eq!(NoteKind::default(), NoteKind::Generic);
}

#[test]
fn as_str_returns_expected_values() {
    assert_eq!(NoteKind::Generic.as_str(), "generic");
    assert_eq!(NoteKind::Book.as_str(), "book");
    assert_eq!(NoteKind::Paper.as_str(), "paper");
    assert_eq!(NoteKind::Transcript.as_str(), "transcript");
    assert_eq!(NoteKind::Article.as_str(), "article");
    assert_eq!(NoteKind::Other("custom".to_string()).as_str(), "custom");
}

#[test]
fn all_known_returns_known_variants() {
    let all = NoteKind::all_known();
    assert_eq!(all.len(), 5);
    assert!(all.contains(&NoteKind::Generic));
    assert!(all.contains(&NoteKind::Book));
    assert!(all.contains(&NoteKind::Paper));
    assert!(all.contains(&NoteKind::Transcript));
    assert!(all.contains(&NoteKind::Article));
}

#[test]
fn parse_known_kinds_case_insensitive() {
    assert_eq!("generic".parse::<NoteKind>().unwrap(), NoteKind::Generic);
    assert_eq!("GENERIC".parse::<NoteKind>().unwrap(), NoteKind::Generic);
    assert_eq!("Generic".parse::<NoteKind>().unwrap(), NoteKind::Generic);
    assert_eq!("book".parse::<NoteKind>().unwrap(), NoteKind::Book);
    assert_eq!("BOOK".parse::<NoteKind>().unwrap(), NoteKind::Book);
    assert_eq!("paper".parse::<NoteKind>().unwrap(), NoteKind::Paper);
    assert_eq!("transcript".parse::<NoteKind>().unwrap(), NoteKind::Transcript);
    assert_eq!("article".parse::<NoteKind>().unwrap(), NoteKind::Article);
}

#[test]
fn parse_unknown_kind_becomes_other() {
    let kind: NoteKind = "custom-kind".parse().unwrap();
    assert_eq!(kind, NoteKind::Other("custom-kind".to_string()));
}

#[test]
fn parse_preserves_case_for_other() {
    let kind: NoteKind = "MyCustomKind".parse().unwrap();
    assert_eq!(kind.as_str(), "MyCustomKind");
}

#[test]
fn parse_strict_accepts_known_kinds() {
    assert_eq!(NoteKind::parse_strict("generic").unwrap(), NoteKind::Generic);
    assert_eq!(NoteKind::parse_strict("book").unwrap(), NoteKind::Book);
    assert_eq!(NoteKind::parse_strict("paper").unwrap(), NoteKind::Paper);
    assert_eq!(NoteKind::parse_strict("transcript").unwrap(), NoteKind::Transcript);
    assert_eq!(NoteKind::parse_strict("article").unwrap(), NoteKind::Article);
}

#[test]
fn display_matches_as_str() {
    assert_eq!(NoteKind::Generic.to_string(), "generic");
    assert_eq!(NoteKind::Book.to_string(), "book");
    assert_eq!(NoteKind::Paper.to_string(), "paper");
    assert_eq!(NoteKind::Transcript.to_string(), "transcript");
    assert_eq!(NoteKind::Article.to_string(), "article");
    assert_eq!(NoteKind::Other("custom".to_string()).to_string(), "custom");
}

#[test]
fn clone_produces_equal_kind() {
    let kind = NoteKind::Book;
    assert_eq!(kind.clone(), kind);
    let other = NoteKind::Other("custom".to_string());
    assert_eq!(other.clone(), other);
}

#[test]
fn equality_works_correctly() {
    assert_eq!(NoteKind::Book, NoteKind::Book);
    assert_ne!(NoteKind::Book, NoteKind::Paper);
    assert_ne!(NoteKind::Other("a".to_string()), NoteKind::Other("b".to_string()));
    assert_eq!(NoteKind::Other("same".to_string()), NoteKind::Other("same".to_string()));
}

#[test]
fn hash_is_consistent() {
    let mut set = HashSet::new();
    set.insert(NoteKind::Book);
    set.insert(NoteKind::Book);
    set.insert(NoteKind::Paper);
    assert_eq!(set.len(), 2);
    assert!(set.contains(&NoteKind::Book));
    assert!(set.contains(&NoteKind::Paper));
}

#[test]
fn parse_strict_accepts_uppercased_names_of_every_kind() {
    for k in NoteKind::all_known() {
        assert_eq!(NoteKind::parse_strict(&k.as_str().to_uppercase()).unwrap(), k);
    }
}
