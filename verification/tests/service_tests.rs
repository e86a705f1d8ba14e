//! The service reducer: what gets published, and when.

use presenced::service::Service;
use presenced::state::Status;

#[test]
fn arrival_publishes_the_new_snapshot() {
    let mut svc = Service::new();
    let (publish, malformed) = svc.handle("/presence/eta", br#"{"name":"Alice"}"#);
    assert!(!malformed);
    let snapshot = publish.expect("a change must publish");
    assert_eq!(snapshot, r#"{"status":"closed","people":[["Alice",null]]}"#);
    assert_eq!(snapshot, svc.state().to_json());
}

#[test]
fn repeated_arrival_publishes_once() {
    let mut svc = Service::new();
    let (first, _) = svc.handle("/presence/eta", br#"{"name":"Alice"}"#);
    assert!(first.is_some());
    let (second, malformed) = svc.handle("/presence/eta", br#"{"name":"Alice"}"#);
    assert!(second.is_none());
    assert!(!malformed);
}

#[test]
fn departure_of_nobody_publishes_nothing() {
    let mut svc = Service::new();
    let (publish, malformed) = svc.handle("/presence/etd", br#"{"name":"Alice"}"#);
    assert!(publish.is_none());
    assert!(!malformed);
}

#[test]
fn departure_empties_and_closes() {
    let mut svc = Service::new();
    svc.handle("/presence/status", b"open");
    svc.handle("/presence/eta", br#"{"name":"Alice"}"#);
    let (publish, _) = svc.handle("/presence/etd", br#"{"name":"ALICE"}"#);
    assert_eq!(publish.unwrap(), r#"{"status":"closed","people":[]}"#);
}

#[test]
fn noop_status_update_publishes_nothing() {
    let mut svc = Service::new();
    let (first, _) = svc.handle("/presence/status", b"open");
    assert!(first.is_some());
    let (second, malformed) = svc.handle("/presence/status", b"open");
    assert!(second.is_none());
    assert!(!malformed);
    assert_eq!(svc.state().status(), Status::Open);
}

#[test]
fn adopted_snapshot_is_never_echoed() {
    let mut svc = Service::new();
    let (publish, malformed) =
        svc.handle("/presence/state", br#"{"status":"open","people":[["Bob",null]]}"#);
    assert!(publish.is_none());
    assert!(!malformed);
    assert_eq!(svc.state().status(), Status::Open);
    assert_eq!(svc.state().people().len(), 1);
}

#[test]
fn unknown_topic_is_ignored_without_warning() {
    let mut svc = Service::new();
    let (publish, malformed) = svc.handle("/somewhere/else", b"whatever");
    assert!(publish.is_none());
    assert!(!malformed);
}

#[test]
fn malformed_payload_on_known_topic_is_flagged() {
    let mut svc = Service::new();
    let (publish, malformed) = svc.handle("/presence/eta", b"not json");
    assert!(publish.is_none());
    assert!(malformed);
}
