//! The presence state: the space's operating status and the people present,
//! with idempotent, case-insensitive mutation operations.

use vstd::prelude::*;

use crate::text::lower_of;
use crate::text::lowercase;

verus! {

/// Operating mode of the space.
#[derive(Clone, Copy, Debug, PartialEq, Eq, Structural)]
pub enum Status {
    Open,
    Closed,
    Thursday,
}

/// A present person: a name and an optional note. Identity is the name,
/// compared case-insensitively; the note is payload.
#[derive(Clone, Debug, PartialEq, Eq)]
pub struct Person(pub String, pub Option<String>);

/// Mathematical model of a person.
#[verifier::ext_equal]
pub ghost struct PersonV {
    pub name: Seq<char>,
    pub note: Option<Seq<char>>,
}

/// Model of an optional string.
pub open spec fn opt_str_view(o: Option<String>) -> Option<Seq<char>> {
    match o {
        Some(s) => Some(s@),
        None => None,
    }
}

impl View for Person {
    type V = PersonV;

    open spec fn view(&self) -> PersonV {
        PersonV { name: self.0@, note: opt_str_view(self.1) }
    }
}

/// An arrival announcement: who arrived, optionally when and with a note.
/// The time is accepted from the wire but not used by the state logic, so it
/// is kept as the raw text it was sent as.
#[derive(Clone, Debug, PartialEq, Eq)]
pub struct Eta {
    pub name: String,
    pub time: Option<String>,
    pub note: Option<String>,
}

/// A departure announcement: who left, optionally when.
#[derive(Clone, Debug, PartialEq, Eq)]
pub struct Etd {
    pub name: String,
    pub time: Option<String>,
}

/// Mathematical model of an arrival announcement.
#[verifier::ext_equal]
pub ghost struct EtaV {
    pub name: Seq<char>,
    pub time: Option<Seq<char>>,
    pub note: Option<Seq<char>>,
}

/// Mathematical model of a departure announcement.
#[verifier::ext_equal]
pub ghost struct EtdV {
    pub name: Seq<char>,
    pub time: Option<Seq<char>>,
}

impl View for Eta {
    type V = EtaV;

    open spec fn view(&self) -> EtaV {
        EtaV { name: self.name@, time: opt_str_view(self.time), note: opt_str_view(self.note) }
    }
}

impl View for Etd {
    type V = EtdV;

    open spec fn view(&self) -> EtdV {
        EtdV { name: self.name@, time: opt_str_view(self.time) }
    }
}

impl Eta {
    /// The person an arrival stands for: the name and note, as announced.
    pub open spec fn person(&self) -> PersonV {
        PersonV { name: self.name@, note: opt_str_view(self.note) }
    }
}

/// Mathematical model of the whole presence state.
#[verifier::ext_equal]
pub ghost struct StateV {
    pub status: Status,
    pub people: Seq<PersonV>,
}

/// Whether a person answers to the given case-folded name.
pub open spec fn match_key(p: PersonV, key: Seq<char>) -> bool {
    lower_of(p.name) == key
}

/// Whether some person answers to the given case-folded name.
pub open spec fn has_key(people: Seq<PersonV>, key: Seq<char>) -> bool {
    exists|i: int| 0 <= i < people.len() && match_key(people[i], key)
}

/// People after an arrival of `p`: every entry whose name folds like `p`'s is
/// replaced in place by `p`; if none does, `p` is appended.
pub open spec fn spec_arrive_people(people: Seq<PersonV>, p: PersonV) -> Seq<PersonV> {
    let key = lower_of(p.name);
    if has_key(people, key) {
        people.map(|i: int, q: PersonV| if match_key(q, key) {
            p
        } else {
            q
        })
    } else {
        people.push(p)
    }
}

/// Whether an arrival of `p` changes anything observable: either nobody
/// answered to the name, or a matching entry differed from `p`.
pub open spec fn spec_arrive_changed(people: Seq<PersonV>, p: PersonV) -> bool {
    let key = lower_of(p.name);
    !has_key(people, key) || exists|i: int|
        0 <= i < people.len() && match_key(people[i], key) && people[i] != p
}

/// People after a departure under the given case-folded name: every matching
/// entry is removed, order of the rest kept.
pub open spec fn spec_depart_people(people: Seq<PersonV>, key: Seq<char>) -> Seq<PersonV> {
    people.filter(|q: PersonV| !match_key(q, key))
}

/// Status after a departure: forced to `Closed` exactly when the departure
/// removed someone and nobody is left.
pub open spec fn spec_depart_status(
    status: Status,
    people: Seq<PersonV>,
    key: Seq<char>,
) -> Status {
    if has_key(people, key) && spec_depart_people(people, key).len() == 0 {
        Status::Closed
    } else {
        status
    }
}

/// No two entries share a case-insensitively equal name.
pub open spec fn unique_names(people: Seq<PersonV>) -> bool {
    forall|i: int, j: int|
        0 <= i < j < people.len() ==> lower_of(people[i].name) != lower_of(people[j].name)
}

/// The state holds the current status of the space and who is present.
#[derive(Clone, Debug, PartialEq)]
pub struct State {
    status: Status,
    people: Vec<Person>,
}

impl View for State {
    type V = StateV;

    closed spec fn view(&self) -> StateV {
        StateV {
            status: self.status,
            people: Seq::new(self.people@.len(), |i: int| self.people@[i]@),
        }
    }
}

/// Field-by-field equality of two people.
fn person_eq(a: &Person, b: &Person) -> (r: bool)
    ensures
        r == (a@ == b@),
{
    let names = crate::text::str_eq(a.0.as_str(), b.0.as_str());
    let notes = match (&a.1, &b.1) {
        (Some(x), Some(y)) => crate::text::str_eq(x.as_str(), y.as_str()),
        (None, None) => true,
        _ => false,
    };
    proof {
        if names && notes {
            assert(a@ =~= b@);
        }
    }
    names && notes
}

/// Copy of a person, with the view carried over.
fn person_copy(p: &Person) -> (r: Person)
    ensures
        r@ == p@,
{
    let note = match &p.1 {
        Some(n) => Some(n.clone()),
        None => None,
    };
    Person(p.0.clone(), note)
}

impl State {
    /// A fresh state: nobody present, status `Closed`.
    pub fn new() -> (r: Self)
        ensures
            r@.status == Status::Closed,
            r@.people == Seq::<PersonV>::empty(),
    {
        let r = Self { status: Status::Closed, people: Vec::new() };
        proof {
            assert(r@.people =~= Seq::<PersonV>::empty());
        }
        r
    }

    /// Record an arrival. A matching entry is updated in place (its position
    /// kept); otherwise the person is appended. Reports whether anything
    /// observable changed. The status is never touched.
    pub fn arrive(&mut self, eta: Eta) -> (changed: bool)
        ensures
            final(self)@.people == spec_arrive_people(old(self)@.people, eta.person()),
            final(self)@.status == old(self)@.status,
            changed == spec_arrive_changed(old(self)@.people, eta.person()),
    {
        let ghost pv = eta.person();
        let ghost olds = old(self)@.people;
        let key = lowercase(eta.name.as_str());
        let ghost keyv = lower_of(eta.name@);
        let person = Person(eta.name, eta.note);
        assert(person@ == pv);

        let mut change = false;
        let mut found = false;
        let mut people: Vec<Person> = Vec::new();
        let n = self.people.len();
        let mut idx: usize = 0;
        while idx < n
            invariant
                *self == *old(self),
                n == self.people.len(),
                idx <= n,
                key@ == keyv,
                person@ == pv,
                keyv == lower_of(pv.name),
                olds == old(self)@.people,
                olds.len() == n,
                people@.len() == idx,
                forall|j: int|
                    0 <= j < idx ==> people@[j]@ == (if match_key(olds[j], keyv) {
                        pv
                    } else {
                        olds[j]
                    }),
                found == exists|j: int| 0 <= j < idx && match_key(olds[j], keyv),
                change == exists|j: int|
                    0 <= j < idx && match_key(olds[j], keyv) && olds[j] != pv,
            decreases n - idx,
        {
            let p = &self.people[idx];
            assert(p@ == olds[idx as int]);
            let pl = lowercase(p.0.as_str());
            if pl == key {
                people.push(person_copy(&person));
                found = true;
                if !person_eq(p, &person) {
                    change = true;
                }
            } else {
                people.push(person_copy(p));
            }
            idx += 1;
        }
        if !found {
            people.push(person);
            change = true;
        }
        self.people = people;
        proof {
            if found {
                assert(has_key(olds, keyv));
                assert(self@.people =~= olds.map(
                    |i: int, q: PersonV| if match_key(q, keyv) {
                        pv
                    } else {
                        q
                    },
                ));
            } else {
                assert(!has_key(olds, keyv));
                assert(self@.people =~= olds.push(pv));
            }
        }
        change
    }

    /// Record a departure. Every entry answering to the name is removed; if
    /// someone was removed and nobody is left, the status is forced to
    /// `Closed`. Reports whether anything was removed.
    pub fn depart(&mut self, etd: Etd) -> (changed: bool)
        ensures
            final(self)@.people == spec_depart_people(old(self)@.people, lower_of(etd.name@)),
            final(self)@.status == spec_depart_status(
                old(self)@.status,
                old(self)@.people,
                lower_of(etd.name@),
            ),
            changed == has_key(old(self)@.people, lower_of(etd.name@)),
    {
        let ghost olds = old(self)@.people;
        let key = lowercase(etd.name.as_str());
        let ghost keyv = lower_of(etd.name@);
        let ghost pred = |q: PersonV| !match_key(q, keyv);

        let mut change = false;
        let mut people: Vec<Person> = Vec::new();
        let n = self.people.len();
        let mut idx: usize = 0;
        while idx < n
            invariant
                *self == *old(self),
                n == self.people.len(),
                idx <= n,
                key@ == keyv,
                pred == (|q: PersonV| !match_key(q, keyv)),
                olds == old(self)@.people,
                olds.len() == n,
                Seq::new(people@.len(), |i: int| people@[i]@) == olds.take(idx as int).filter(
                    pred,
                ),
                change == exists|j: int| 0 <= j < idx && match_key(olds[j], keyv),
            decreases n - idx,
        {
            let ghost prefix = olds.take(idx as int);
            let ghost prefix1 = olds.take(idx as int + 1);
            proof {
                reveal(Seq::filter);
                assert(prefix1.drop_last() =~= prefix);
                assert(prefix1.last() == olds[idx as int]);
            }
            let p = &self.people[idx];
            assert(p@ == olds[idx as int]);
            let pl = lowercase(p.0.as_str());
            if pl != key {
                people.push(person_copy(p));
                proof {
                    assert(Seq::new(people@.len(), |i: int| people@[i]@) =~= prefix1.filter(pred));
                }
            } else {
                change = true;
                proof {
                    assert(Seq::new(people@.len(), |i: int| people@[i]@) =~= prefix1.filter(pred));
                }
            }
            idx += 1;
        }
        proof {
            assert(olds.take(n as int) =~= olds);
        }
        self.people = people;

        // Set status to closed when everyone left
        if change && self.people.len() == 0 {
            self.status = Status::Closed;
        }
        proof {
            assert(self@.people =~= olds.filter(pred));
        }
        change
    }

    /// Set the status. Reports whether it actually changed.
    pub fn set_status(&mut self, status: Status) -> (changed: bool)
        ensures
            final(self)@.status == status,
            final(self)@.people == old(self)@.people,
            changed == (old(self)@.status != status),
    {
        if self.status != status {
            self.status = status;
            true
        } else {
            false
        }
    }

    /// Adopt a full snapshot received from elsewhere, unconditionally. The
    /// snapshot is taken as authoritative and is not validated.
    pub fn replace_state(&mut self, new_state: State)
        ensures
            final(self)@ == new_state@,
    {
        *self = new_state;
    }

    /// A state assembled from its parts, as a decoded snapshot gives them.
    pub fn from_parts(status: Status, people: Vec<Person>) -> (r: Self)
        ensures
            r@.status == status,
            r@.people == Seq::new(people@.len(), |i: int| people@[i]@),
    {
        Self { status, people }
    }

    /// The current status.
    pub fn status(&self) -> (r: Status)
        ensures
            r == self@.status,
    {
        self.status
    }

    /// The people present, in insertion order.
    pub fn people(&self) -> (r: &Vec<Person>)
        ensures
            Seq::new(r@.len(), |i: int| r@[i]@) == self@.people,
    {
        &self.people
    }
}

} // verus!
