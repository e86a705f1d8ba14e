//! The presence state machine, exercised on concrete values.

use presenced::state::{Eta, Etd, Person, State, Status};

fn eta(name: &str, note: Option<&str>) -> Eta {
    Eta { name: name.to_string(), time: None, note: note.map(|s| s.to_string()) }
}

fn etd(name: &str) -> Etd {
    Etd { name: name.to_string(), time: None }
}

#[test]
fn new_state_is_empty_and_closed() {
    let s = State::new();
    assert_eq!(s.status(), Status::Closed);
    assert!(s.people().is_empty());
}

#[test]
fn arrive_twice_changes_once() {
    let mut s = State::new();
    assert!(s.arrive(eta("Alice", Some("till 6"))));
    assert!(!s.arrive(eta("Alice", Some("till 6"))));
    assert_eq!(s.people().len(), 1);
}

#[test]
fn arrive_with_new_note_changes() {
    let mut s = State::new();
    assert!(s.arrive(eta("Alice", None)));
    assert!(s.arrive(eta("Alice", Some("now with note"))));
    assert_eq!(s.people().len(), 1);
    assert_eq!(s.people()[0].1.as_deref(), Some("now with note"));
}

#[test]
fn rearrival_keeps_position() {
    let mut s = State::new();
    s.arrive(eta("Alice", None));
    s.arrive(eta("Bob", None));
    s.arrive(eta("Alice", Some("back again")));
    assert_eq!(s.people()[0].0, "Alice");
    assert_eq!(s.people()[1].0, "Bob");
}

#[test]
fn depart_is_case_insensitive() {
    let mut s = State::new();
    s.arrive(eta("Alice", None));
    assert!(s.depart(etd("ALICE")));
    assert!(s.people().is_empty());
}

#[test]
fn depart_unknown_name_changes_nothing() {
    let mut s = State::new();
    s.arrive(eta("Alice", None));
    assert!(!s.depart(etd("Bob")));
    assert_eq!(s.people().len(), 1);
}

#[test]
fn last_departure_closes_the_space() {
    let mut s = State::new();
    s.set_status(Status::Open);
    s.arrive(eta("Alice", None));
    assert!(s.depart(etd("alice")));
    assert!(s.people().is_empty());
    assert_eq!(s.status(), Status::Closed);
}

#[test]
fn departure_with_people_left_keeps_status() {
    let mut s = State::new();
    s.set_status(Status::Open);
    s.arrive(eta("Alice", None));
    s.arrive(eta("Bob", None));
    assert!(s.depart(etd("Alice")));
    assert_eq!(s.status(), Status::Open);
}

#[test]
fn set_status_reports_change_only_when_it_changes() {
    let mut s = State::new();
    assert!(s.set_status(Status::Open));
    assert!(!s.set_status(Status::Open));
    assert!(s.set_status(Status::Thursday));
    assert_eq!(s.status(), Status::Thursday);
}

#[test]
fn arrivals_do_not_touch_status() {
    let mut s = State::new();
    s.set_status(Status::Thursday);
    s.arrive(eta("Alice", None));
    assert_eq!(s.status(), Status::Thursday);
}

#[test]
fn replace_state_adopts_the_snapshot() {
    let mut s = State::new();
    s.arrive(eta("Alice", None));
    let other = State::from_parts(
        Status::Open,
        vec![Person("Bob".to_string(), Some("visiting".to_string()))],
    );
    s.replace_state(other.clone());
    assert_eq!(s, other);
}
