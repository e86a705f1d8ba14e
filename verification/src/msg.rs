//! Incoming messages: which topic carries what, and how a raw payload
//! becomes a typed event. An unknown topic is expected noise and decodes to
//! nothing; a malformed payload on a known topic decodes to nothing too.

use vstd::prelude::*;

use crate::state::Eta;
use crate::state::EtaV;
use crate::state::Etd;
use crate::state::EtdV;
use crate::state::State;
use crate::state::StateV;
use crate::state::Status;
use crate::text::str_eq;
use crate::wire::spec_eta_from_bytes;
use crate::wire::spec_etd_from_bytes;
use crate::wire::spec_state_from_bytes;
use crate::wire::spec_status_from_bytes;

verus! {

/// An incoming message, decoded.
pub enum Msg {
    State(State),
    Status(Status),
    Eta(Eta),
    Etd(Etd),
}

/// Mathematical model of an incoming message.
#[verifier::ext_equal]
pub ghost enum MsgV {
    State(StateV),
    Status(Status),
    Eta(EtaV),
    Etd(EtdV),
}

impl View for Msg {
    type V = MsgV;

    open spec fn view(&self) -> MsgV {
        match self {
            Msg::State(s) => MsgV::State(s@),
            Msg::Status(s) => MsgV::Status(*s),
            Msg::Eta(e) => MsgV::Eta(e@),
            Msg::Etd(e) => MsgV::Etd(e@),
        }
    }
}

/// The inbound topic that carries arrivals.
pub fn topic_eta() -> (r: &'static str)
    ensures
        r@ == "/presence/eta"@,
{
    "/presence/eta"
}

/// The inbound topic that carries departures.
pub fn topic_etd() -> (r: &'static str)
    ensures
        r@ == "/presence/etd"@,
{
    "/presence/etd"
}

/// The topic that carries full snapshots, inbound and outbound.
pub fn topic_state() -> (r: &'static str)
    ensures
        r@ == "/presence/state"@,
{
    "/presence/state"
}

/// The inbound topic that carries status updates.
pub fn topic_status() -> (r: &'static str)
    ensures
        r@ == "/presence/status"@,
{
    "/presence/status"
}

/// Whether a topic is one of the four the service listens on.
pub open spec fn is_known_topic(topic: Seq<char>) -> bool {
    topic == "/presence/eta"@ || topic == "/presence/etd"@ || topic == "/presence/state"@ || topic
        == "/presence/status"@
}

/// Whether a topic is one of the four the service listens on.
pub fn known_topic(topic: &str) -> (r: bool)
    ensures
        r == is_known_topic(topic@),
{
    str_eq(topic, "/presence/eta") || str_eq(topic, "/presence/etd") || str_eq(
        topic,
        "/presence/state",
    ) || str_eq(topic, "/presence/status")
}

/// What a topic and payload decode to: dispatch is by exact topic match,
/// and a payload that does not read as the topic's entity decodes to
/// nothing.
pub open spec fn spec_decode(topic: Seq<char>, payload: Seq<u8>) -> Option<MsgV> {
    if topic == "/presence/eta"@ {
        match spec_eta_from_bytes(payload) {
            Some(e) => Some(MsgV::Eta(e)),
            None => None,
        }
    } else if topic == "/presence/etd"@ {
        match spec_etd_from_bytes(payload) {
            Some(e) => Some(MsgV::Etd(e)),
            None => None,
        }
    } else if topic == "/presence/state"@ {
        match spec_state_from_bytes(payload) {
            Some(s) => Some(MsgV::State(s)),
            None => None,
        }
    } else if topic == "/presence/status"@ {
        match spec_status_from_bytes(payload) {
            Some(st) => Some(MsgV::Status(st)),
            None => None,
        }
    } else {
        None
    }
}

impl Msg {
    /// Decode a payload into a message.
    pub fn decode(topic: &str, payload: &[u8]) -> (r: Option<Msg>)
        ensures
            (match r {
                Some(m) => spec_decode(topic@, payload@) == Some(m@),
                None => spec_decode(topic@, payload@) is None,
            }),
    {
        if str_eq(topic, "/presence/eta") {
            match Eta::from_bytes(payload) {
                Some(e) => Some(Msg::Eta(e)),
                None => None,
            }
        } else if str_eq(topic, "/presence/etd") {
            match Etd::from_bytes(payload) {
                Some(e) => Some(Msg::Etd(e)),
                None => None,
            }
        } else if str_eq(topic, "/presence/state") {
            match State::from_bytes(payload) {
                Some(s) => Some(Msg::State(s)),
                None => None,
            }
        } else if str_eq(topic, "/presence/status") {
            match Status::from_bytes(payload) {
                Some(st) => Some(Msg::Status(st)),
                None => None,
            }
        } else {
            None
        }
    }
}

} // verus!
