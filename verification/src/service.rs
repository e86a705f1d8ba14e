//! The presence service's reducer: one decoded message in, the next state
//! and at most one snapshot to publish out. Publishing itself, like all
//! transport work, belongs to the caller.

use vstd::prelude::*;

use crate::msg::is_known_topic;
use crate::msg::known_topic;
use crate::msg::spec_decode;
use crate::msg::Msg;
use crate::msg::MsgV;
use crate::state::has_key;
use crate::state::opt_str_view;
use crate::state::spec_arrive_changed;
use crate::state::spec_arrive_people;
use crate::state::spec_depart_people;
use crate::state::spec_depart_status;
use crate::state::PersonV;
use crate::state::State;
use crate::state::StateV;
use crate::state::Status;
use crate::text::lower_of;
use crate::wire::spec_state_text;

verus! {

/// What one handled message does: the state after it, and the snapshot text
/// to publish, present exactly when the state observably changed through a
/// local mutation. An adopted snapshot is never re-published.
pub open spec fn spec_handle(v: StateV, topic: Seq<char>, payload: Seq<u8>) -> (StateV, Option<
    Seq<char>,
>) {
    match spec_decode(topic, payload) {
        None => (v, None::<Seq<char>>),
        Some(MsgV::State(w)) => (w, None::<Seq<char>>),
        Some(MsgV::Eta(e)) => {
            let p = PersonV { name: e.name, note: e.note };
            let w = StateV { status: v.status, people: spec_arrive_people(v.people, p) };
            if spec_arrive_changed(v.people, p) {
                (w, Some(spec_state_text(w)))
            } else {
                (w, None::<Seq<char>>)
            }
        },
        Some(MsgV::Etd(e)) => {
            let key = lower_of(e.name);
            let w = StateV {
                status: spec_depart_status(v.status, v.people, key),
                people: spec_depart_people(v.people, key),
            };
            if has_key(v.people, key) {
                (w, Some(spec_state_text(w)))
            } else {
                (w, None::<Seq<char>>)
            }
        },
        Some(MsgV::Status(st)) => {
            let w = StateV { status: st, people: v.people };
            if v.status != st {
                (w, Some(spec_state_text(w)))
            } else {
                (w, None::<Seq<char>>)
            }
        },
    }
}

/// The presence service: the one owner of the presence state.
pub struct Service {
    state: State,
}

impl View for Service {
    type V = StateV;

    closed spec fn view(&self) -> StateV {
        self.state@
    }
}

impl Service {
    /// A fresh service: nobody present, status `Closed`.
    pub fn new() -> (r: Self)
        ensures
            r@.status == Status::Closed,
            r@.people == Seq::<PersonV>::empty(),
    {
        Self { state: State::new() }
    }

    /// The state the service holds.
    pub fn state(&self) -> (r: &State)
        ensures
            r@ == self@,
    {
        &self.state
    }

    /// Handle one inbound message. Returns the snapshot to publish, if the
    /// message changed the state observably, and whether a known topic
    /// carried a payload that could not be decoded (worth a warning; an
    /// unknown topic is passed over in silence).
    pub fn handle(&mut self, topic: &str, payload: &[u8]) -> (r: (Option<String>, bool))
        ensures
            final(self)@ == spec_handle(old(self)@, topic@, payload@).0,
            opt_str_view(r.0) == spec_handle(old(self)@, topic@, payload@).1,
            r.1 == (is_known_topic(topic@) && spec_decode(topic@, payload@) is None),
    {
        match Msg::decode(topic, payload) {
            Some(Msg::State(st)) => {
                self.state.replace_state(st);
                (None, false)
            },
            Some(Msg::Eta(eta)) => {
                let ghost v = old(self)@;
                let ghost p = PersonV { name: eta.name@, note: opt_str_view(eta.note) };
                let changed = self.state.arrive(eta);
                proof {
                    assert(self@ =~= (StateV {
                        status: v.status,
                        people: spec_arrive_people(v.people, p),
                    }));
                }
                if changed {
                    (Some(self.state.to_json()), false)
                } else {
                    (None, false)
                }
            },
            Some(Msg::Etd(etd)) => {
                let ghost v = old(self)@;
                let ghost key = lower_of(etd.name@);
                let changed = self.state.depart(etd);
                proof {
                    assert(self@ =~= (StateV {
                        status: spec_depart_status(v.status, v.people, key),
                        people: spec_depart_people(v.people, key),
                    }));
                }
                if changed {
                    (Some(self.state.to_json()), false)
                } else {
                    (None, false)
                }
            },
            Some(Msg::Status(st)) => {
                let ghost v = old(self)@;
                let changed = self.state.set_status(st);
                proof {
                    assert(self@ =~= (StateV { status: st, people: v.people }));
                }
                if changed {
                    (Some(self.state.to_json()), false)
                } else {
                    (None, false)
                }
            },
            None => (None, known_topic(topic)),
        }
    }
}

} // verus!
