use toy_blog::document::{Document, DecodeError};
use toy_blog::model::{Article, ArticleId, Visibility};
use toy_blog::timestamp::Timestamp;

fn ts(year: u16, month: u8, day: u8, hour: u8, minute: u8, second: u8, nano: u32,
    offset_minutes: i16) -> Timestamp {
    Timestamp { year, month, day, hour, minute, second, nanosecond: nano, offset_minutes }
}

fn doc(entries: Vec<(&str, Article)>) -> Document {
    Document {
        version: 2,
        entries: entries.into_iter()
            .map(|(id, a)| (ArticleId::new(id.to_string()), a))
            .collect(),
    }
}

fn text(chars: &[char]) -> String {
    chars.iter().collect()
}

#[test]
fn empty_document_encodes_compactly() {
    let d = Document::empty();
    assert_eq!(text(&d.encode()), r#"{"version":2,"data":{}}"#);
}

#[test]
fn one_record_encodes_exactly() {
    let a = Article {
        created_at: ts(2023, 5, 7, 8, 9, 10, 123, 540),
        updated_at: ts(2023, 5, 7, 8, 9, 11, 0, 540),
        content: "hello\nworld".to_string(),
        visibility: Visibility::Public,
    };
    let d = doc(vec![("first", a)]);
    let expected = r#"{"version":2,"data":{"first":{"created_at":"2023-05-07T08:09:10.000000123+09:00","updated_at":"2023-05-07T08:09:11.000000000+09:00","content":"hello\u000aworld","visibility":"public"}}}"#;
    assert_eq!(text(&d.encode()), expected);
}

#[test]
fn round_trip_keeps_every_field() {
    let a = Article {
        created_at: ts(1999, 12, 31, 23, 59, 59, 999_999_999, -720),
        updated_at: ts(2001, 1, 1, 0, 0, 0, 0, 0),
        content: "with \"quotes\", back\\slashes and a tab\t!".to_string(),
        visibility: Visibility::Restricted,
    };
    let b = Article {
        created_at: ts(2020, 2, 29, 12, 0, 0, 1, 60),
        updated_at: ts(2020, 2, 29, 12, 0, 0, 1, 60),
        content: String::new(),
        visibility: Visibility::Private,
    };
    let d = doc(vec![("a", a.clone()), ("b", b.clone())]);
    let back = Document::decode(&d.encode()).expect("the codec reads what it wrote");
    assert_eq!(back, doc(vec![("a", a), ("b", b)]));
}

#[test]
fn decode_accepts_a_legacy_style_blob() {
    // field order and short fractions as an older writer produced them
    let blob: Vec<char> = r#"{"version":2,"data":{"x":{"content":"hi","visibility":"private","created_at":"2022-01-02T03:04:05.5+00:00","updated_at":"2022-01-02T03:04:06+00:00"}}}"#.chars().collect();
    let d = Document::decode(&blob).expect("legacy blob");
    assert_eq!(d.entries.len(), 1);
    assert_eq!(d.entries[0].0, ArticleId::new("x".to_string()));
    assert_eq!(d.entries[0].1.created_at, ts(2022, 1, 2, 3, 4, 5, 500_000_000, 0));
    assert_eq!(d.entries[0].1.updated_at, ts(2022, 1, 2, 3, 4, 6, 0, 0));
}

#[test]
fn decode_rejects_broken_text() {
    let cases: Vec<(&str, DecodeError)> = vec![
        ("", DecodeError::Syntax),
        ("{", DecodeError::Syntax),
        (r#"{"version":2,"data":{}}x"#, DecodeError::Syntax),
        (r#"[1]"#, DecodeError::Syntax),
        (r#"17"#, DecodeError::Structure),
        (r#"{"version":2}"#, DecodeError::Structure),
        (r#"{"data":{}}"#, DecodeError::Structure),
        (r#"{"version":"2","data":{}}"#, DecodeError::Structure),
        (r#"{"version":2,"data":3}"#, DecodeError::Structure),
        (r#"{"version":2,"data":{"x":{}}}"#, DecodeError::Structure),
        (r#"{"version":1234567890,"data":{}}"#, DecodeError::Syntax),
    ];
    for (input, expected) in cases {
        let chars: Vec<char> = input.chars().collect();
        assert_eq!(Document::decode(&chars).unwrap_err(), expected, "on {input:?}");
    }
}

#[test]
fn decode_accepts_a_utc_blob_with_zulu_offsets() {
    // what the original wrote on a host running in UTC
    let blob: Vec<char> = r#"{"version":2,"data":{"x":{"created_at":"2022-01-02T03:04:05Z","updated_at":"2022-01-02T03:04:06Z","content":"hi","visibility":"public"}}}"#.chars().collect();
    let d = Document::decode(&blob).expect("zulu offsets");
    assert_eq!(d.entries[0].1.created_at, ts(2022, 1, 2, 3, 4, 5, 0, 0));
    assert_eq!(d.entries[0].1.updated_at, ts(2022, 1, 2, 3, 4, 6, 0, 0));
}

#[test]
fn decode_accepts_a_hand_edited_blob() {
    // blank space between tokens, as a manual repair of the file leaves it
    let blob: Vec<char> = "{\n  \"version\": 2,\n  \"data\": {\n    \"x\": {\n      \"created_at\": \"2022-01-02T03:04:05Z\",\n      \"updated_at\": \"2022-01-02T03:04:05Z\",\n      \"content\": \"hi\",\n      \"visibility\": \"private\"\n    }\n  }\n}\n".chars().collect();
    let d = Document::decode(&blob).expect("pretty printed");
    assert_eq!(d.entries.len(), 1);
    assert_eq!(d.entries[0].1.content, "hi");
    assert_eq!(d.entries[0].1.visibility, Visibility::Private);
}

#[test]
fn decode_tolerates_blank_space_at_the_edges() {
    let blob: Vec<char> = "  {\"version\":2,\"data\":{}}\n".chars().collect();
    let d = Document::decode(&blob).expect("blank edges are fine");
    assert_eq!(d.entries.len(), 0);
}

#[test]
fn decode_rejects_a_doubled_id() {
    let blob: Vec<char> = r#"{"version":2,"data":{"x":{"created_at":"2022-01-02T03:04:05+00:00","updated_at":"2022-01-02T03:04:05+00:00","content":"a","visibility":"public"},"x":{"created_at":"2022-01-02T03:04:05+00:00","updated_at":"2022-01-02T03:04:05+00:00","content":"b","visibility":"public"}}}"#.chars().collect();
    assert_eq!(Document::decode(&blob).unwrap_err(), DecodeError::Structure);
}

#[test]
fn decode_rejects_update_before_creation() {
    let blob: Vec<char> = r#"{"version":2,"data":{"x":{"created_at":"2022-01-02T03:04:05+00:00","updated_at":"2022-01-02T03:04:04+00:00","content":"a","visibility":"public"}}}"#.chars().collect();
    assert_eq!(Document::decode(&blob).unwrap_err(), DecodeError::Structure);
}

#[test]
fn decode_rejects_an_unknown_visibility() {
    let blob: Vec<char> = r#"{"version":2,"data":{"x":{"created_at":"2022-01-02T03:04:05+00:00","updated_at":"2022-01-02T03:04:05+00:00","content":"a","visibility":"secret"}}}"#.chars().collect();
    assert_eq!(Document::decode(&blob).unwrap_err(), DecodeError::Structure);
}

#[test]
fn offsets_compare_as_instants() {
    // the same instant written in two offsets
    let in_tokyo = ts(2023, 5, 7, 9, 0, 0, 0, 540);
    let in_utc = ts(2023, 5, 7, 0, 0, 0, 0, 0);
    assert!(in_tokyo.le_exec(&in_utc));
    assert!(in_utc.le_exec(&in_tokyo));
    // an hour apart on the clock face, the same offset
    let earlier = ts(2023, 5, 7, 0, 0, 0, 0, 0);
    let later = ts(2023, 5, 7, 1, 0, 0, 0, 0);
    assert!(earlier.le_exec(&later));
    assert!(!later.le_exec(&earlier));
}
