//! The wire codec: decoding the four payload shapes and the snapshot round
//! trip.

use presenced::msg::Msg;
use presenced::state::{Eta, Etd, Person, State, Status};

#[test]
fn eta_decodes_all_fields() {
    let e = Eta::from_bytes(br#"{"name":"Alice","time":"2024-01-01T10:00:00Z","note":"hi"}"#)
        .unwrap();
    assert_eq!(e.name, "Alice");
    assert_eq!(e.time.as_deref(), Some("2024-01-01T10:00:00Z"));
    assert_eq!(e.note.as_deref(), Some("hi"));
}

#[test]
fn eta_optional_fields_may_be_absent_or_null() {
    let e = Eta::from_bytes(br#"{"name":"Alice"}"#).unwrap();
    assert_eq!(e.name, "Alice");
    assert_eq!(e.time, None);
    assert_eq!(e.note, None);
    let e = Eta::from_bytes(br#"{"name":"Alice","note":null,"time":null}"#).unwrap();
    assert_eq!(e.note, None);
}

#[test]
fn eta_field_order_does_not_matter() {
    let e = Eta::from_bytes(br#"{ "note" : "hi" , "name" : "Alice" }"#).unwrap();
    assert_eq!(e.name, "Alice");
    assert_eq!(e.note.as_deref(), Some("hi"));
}

#[test]
fn eta_unknown_fields_are_ignored() {
    let e = Eta::from_bytes(br#"{"name":"Alice","mood":"good","count":3}"#).unwrap();
    assert_eq!(e.name, "Alice");
}

#[test]
fn eta_rejects_missing_name_and_bad_shapes() {
    assert!(Eta::from_bytes(br#"{"note":"hi"}"#).is_none());
    assert!(Eta::from_bytes(br#"{"name":3}"#).is_none());
    assert!(Eta::from_bytes(br#"["Alice"]"#).is_none());
    assert!(Eta::from_bytes(br#"{"name":"Alice""#).is_none());
    assert!(Eta::from_bytes(b"\xff\xfe").is_none());
    assert!(Eta::from_bytes(br#"{"name":"Alice","note":7}"#).is_none());
}

#[test]
fn eta_string_escapes_are_decoded() {
    let e = Eta::from_bytes(br#"{"name":"Alice","note":"line\nbreak \"quoted\""}"#).unwrap();
    assert_eq!(e.name, "Alice");
    assert_eq!(e.note.as_deref(), Some("line\nbreak \"quoted\""));
}

#[test]
fn eta_unicode_escapes_below_0x100_are_decoded() {
    let e = Eta::from_bytes(br#"{"name":"Alice \u00e9"}"#).unwrap();
    assert_eq!(e.name, "Alice \u{e9}");
    // larger code points must be written as the characters themselves
    assert!(Eta::from_bytes(br#"{"name":"\u0100"}"#).is_none());
    let e = Eta::from_bytes("{\"name\":\"Zoë\"}".as_bytes()).unwrap();
    assert_eq!(e.name, "Zoë");
}

#[test]
fn etd_decodes() {
    let e = Etd::from_bytes(br#"{"name":"Bob","time":null}"#).unwrap();
    assert_eq!(e.name, "Bob");
    assert_eq!(e.time, None);
    assert!(Etd::from_bytes(br#"{}"#).is_none());
}

#[test]
fn status_decodes_from_json_string() {
    assert_eq!(Status::from_bytes(br#""open""#), Some(Status::Open));
    assert_eq!(Status::from_bytes(br#""closed""#), Some(Status::Closed));
    assert_eq!(Status::from_bytes(br#""thursday""#), Some(Status::Thursday));
    assert_eq!(Status::from_bytes(br#"  "open"  "#), Some(Status::Open));
}

#[test]
fn status_raw_fallback_matches_json_form() {
    assert_eq!(Status::from_bytes(b"closed"), Some(Status::Closed));
    assert_eq!(Status::from_bytes(b"closed"), Status::from_bytes(br#""closed""#));
    assert_eq!(Status::from_bytes(b"open"), Some(Status::Open));
    assert_eq!(Status::from_bytes(b"thursday"), Some(Status::Thursday));
}

#[test]
fn status_rejects_unknown_encodings() {
    assert!(Status::from_bytes(b"Open").is_none());
    assert!(Status::from_bytes(br#""ajar""#).is_none());
    assert!(Status::from_bytes(b"").is_none());
    assert!(Status::from_bytes(b"\xff").is_none());
}

#[test]
fn snapshot_decodes() {
    let s = State::from_bytes(
        br#"{"status":"open","people":[["Alice",null],["Bob","visiting"]]}"#,
    )
    .unwrap();
    assert_eq!(s.status(), Status::Open);
    assert_eq!(s.people().len(), 2);
    assert_eq!(s.people()[0], Person("Alice".to_string(), None));
    assert_eq!(s.people()[1], Person("Bob".to_string(), Some("visiting".to_string())));
}

#[test]
fn snapshot_rejects_bad_shapes() {
    assert!(State::from_bytes(br#"{"status":"open"}"#).is_none());
    assert!(State::from_bytes(br#"{"people":[]}"#).is_none());
    assert!(State::from_bytes(br#"{"status":"ajar","people":[]}"#).is_none());
    assert!(State::from_bytes(br#"{"status":"open","people":[["Alice"]]}"#).is_none());
    assert!(State::from_bytes(br#"{"status":"open","people":[["Alice",null,1]]}"#).is_none());
    assert!(State::from_bytes(br#"{"status":"open","people":[[3,null]]}"#).is_none());
}

#[test]
fn snapshot_round_trip_plain() {
    let s = State::from_parts(
        Status::Open,
        vec![
            Person("Alice".to_string(), None),
            Person("Bob".to_string(), Some("visiting".to_string())),
        ],
    );
    let json = s.to_json();
    assert_eq!(json, r#"{"status":"open","people":[["Alice",null],["Bob","visiting"]]}"#);
    let back = State::from_json_str(&json).unwrap();
    assert_eq!(back, s);
}

#[test]
fn snapshot_round_trip_empty() {
    let s = State::new();
    let json = s.to_json();
    assert_eq!(json, r#"{"status":"closed","people":[]}"#);
    assert_eq!(State::from_json_str(&json).unwrap(), s);
}

#[test]
fn snapshot_round_trip_awkward_names() {
    let s = State::from_parts(
        Status::Thursday,
        vec![
            Person("A\"B\\C".to_string(), Some("tab\there".to_string())),
            Person("new\nline\u{1}".to_string(), None),
            Person("Zoë 日本".to_string(), Some("café".to_string())),
        ],
    );
    let back = State::from_json_str(&s.to_json()).unwrap();
    assert_eq!(back, s);
}

#[test]
fn decode_dispatches_by_topic() {
    assert!(matches!(
        Msg::decode("/presence/eta", br#"{"name":"Alice"}"#),
        Some(Msg::Eta(_))
    ));
    assert!(matches!(
        Msg::decode("/presence/etd", br#"{"name":"Alice"}"#),
        Some(Msg::Etd(_))
    ));
    assert!(matches!(Msg::decode("/presence/status", b"open"), Some(Msg::Status(_))));
    assert!(matches!(
        Msg::decode("/presence/state", br#"{"status":"open","people":[]}"#),
        Some(Msg::State(_))
    ));
}

#[test]
fn decode_unknown_topic_is_silent() {
    assert!(Msg::decode("/other/topic", br#"{"name":"Alice"}"#).is_none());
    assert!(Msg::decode("/other/topic", b"anything at all").is_none());
    assert!(Msg::decode("", b"").is_none());
}

#[test]
fn decode_malformed_payload_is_dropped() {
    assert!(Msg::decode("/presence/eta", b"not json").is_none());
    assert!(Msg::decode("/presence/status", b"late").is_none());
}
