use std::collections::HashSet;

use den::domain::note_id::{NoteId, ParseNoteIdError};
use den::domain::timestamp::Timestamp;

fn at(secs: i64) -> Timestamp {
    Timestamp::from_unix(secs, 0).unwrap()
}

#[test]
fn new_creates_valid_ulid() {
    let id = NoteId::new();
    let s = id.to_string();
    assert_eq!(s.len(), 26, "ULID should be 26 characters");
    assert!(s.chars().all(|c| c.is_ascii_alphanumeric()));
}

#[test]
fn prefix_returns_first_10_chars() {
    let id = NoteId::new();
    let prefix = id.prefix();
    let full = id.to_string();
    assert_eq!(prefix.len(), 10);
    assert_eq!(prefix, &full[..10]);
}

#[test]
fn prefix_for_known_ulid() {
    let id: NoteId = "01HQ3K5M7NXJK4QZPW8V2R6T9Y".parse().unwrap();
    assert_eq!(id.prefix(), "01HQ3K5M7N");
}

#[test]
fn timestamp_returns_creation_time() {
    let before = chrono::Utc::now().timestamp_millis();
    let id = NoteId::new();
    let after = chrono::Utc::now().timestamp_millis();

    let ts = id.timestamp().timestamp_millis();
    assert!(ts >= before, "timestamp should be >= before creation");
    assert!(ts <= after, "timestamp should be <= after creation");
}

#[test]
fn from_datetime_creates_id_with_correct_timestamp() {
    // 2024-01-15T10:30:00Z
    let dt = at(1_705_314_600);
    let id = NoteId::from_datetime(dt);
    assert_eq!(id.timestamp().timestamp_millis(), dt.timestamp_millis());
}

#[test]
fn parse_valid_ulid_string() {
    let s = "01HQ3K5M7NXJK4QZPW8V2R6T9Y";
    let id: NoteId = s.parse().expect("should parse valid ULID");
    assert_eq!(id.to_string(), s);
}

#[test]
fn parse_invalid_ulid_too_short() {
    let result: Result<NoteId, _> = "01HQ3K5M".parse();
    assert!(result.is_err());
}

#[test]
fn parse_invalid_ulid_bad_chars() {
    let result: Result<NoteId, _> = "IIIIIIIIIIIIIIIIIIIIIIIIII".parse();
    assert!(result.is_err());
}

#[test]
fn parse_accepts_lowercase_and_prints_uppercase() {
    let id: NoteId = "01hq3k5m7nxjk4qzpw8v2r6t9y".parse().unwrap();
    assert_eq!(id.to_string(), "01HQ3K5M7NXJK4QZPW8V2R6T9Y");
}

#[test]
fn text_roundtrip_is_identity() {
    let id = NoteId::new();
    let again: NoteId = id.to_string().parse().unwrap();
    assert_eq!(id, again);
}

#[test]
fn equality_works() {
    let s = "01HQ3K5M7NXJK4QZPW8V2R6T9Y";
    let id1: NoteId = s.parse().unwrap();
    let id2: NoteId = s.parse().unwrap();
    let id3 = NoteId::new();

    assert_eq!(id1, id2);
    assert_ne!(id1, id3);
}

#[test]
fn hash_consistent() {
    let s = "01HQ3K5M7NXJK4QZPW8V2R6T9Y";
    let id1: NoteId = s.parse().unwrap();
    let id2: NoteId = s.parse().unwrap();

    let mut set = HashSet::new();
    set.insert(id1);
    assert!(set.contains(&id2));

    let id3 = NoteId::new();
    set.insert(id3);
    assert_eq!(set.len(), 2);
}

#[test]
fn multiple_new_ids_are_unique() {
    let ids: Vec<NoteId> = (0..100).map(|_| NoteId::new()).collect();
    let unique: HashSet<_> = ids.iter().collect();
    assert_eq!(ids.len(), unique.len());
}

#[test]
fn ids_sort_chronologically() {
    let id1 = NoteId::from_datetime(at(1_704_067_200)); // 2024-01-01
    let id2 = NoteId::from_datetime(at(1_717_200_000)); // 2024-06-01
    let id3 = NoteId::from_datetime(at(1_733_011_200)); // 2024-12-01

    assert!(id1.to_string() < id2.to_string());
    assert!(id2.to_string() < id3.to_string());

    let mut ids = vec![id3.to_string(), id1.to_string(), id2.to_string()];
    ids.sort();
    assert_eq!(ids, vec![id1.to_string(), id2.to_string(), id3.to_string()]);
}

#[test]
fn note_id_parse_error_display() {
    let result: Result<NoteId, ParseNoteIdError> = "invalid".parse();
    let err = result.unwrap_err();
    assert!(err.to_string().contains("invalid ULID"));
}

#[test]
fn parse_error_contains_invalid_value() {
    let err: ParseNoteIdError = "invalid".parse::<NoteId>().unwrap_err();
    assert_eq!(err.invalid_value(), "invalid");
}

#[test]
fn parse_error_display_includes_value() {
    let err: ParseNoteIdError = "bad".parse::<NoteId>().unwrap_err();
    assert!(err.to_string().contains("'bad'"));
}

#[test]
fn parse_error_reasons() {
    let err = NoteId::parse("bad").unwrap_err();
    assert_eq!(err.to_string(), "invalid ULID 'bad': invalid length");
    let err = NoteId::parse("IIIIIIIIIIIIIIIIIIIIIIIIII").unwrap_err();
    assert_eq!(err.to_string(), "invalid ULID 'IIIIIIIIIIIIIIIIIIIIIIIIII': invalid character");
}
