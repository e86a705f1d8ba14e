//! What the presence payloads mean: how arrival, departure, status and
//! snapshot messages read as JSON, and how a snapshot is written.

use vstd::prelude::*;
use vstd::string::StrSliceExecFns;
use vstd::string::StringExecFns;
use vstd::utf8::decode_utf8;
use vstd::utf8::valid_utf8;

use crate::json::arr_views;
use crate::json::elems_view;
use crate::json::fields_view;
use crate::json::json_view;
use crate::json::lemma_arr_views;
use crate::json::obj_views;
use crate::json::parse_json;
use crate::json::spec_json;
use crate::json::Json;
use crate::json::JsonV;
use crate::state::opt_str_view;
use crate::state::Eta;
use crate::state::EtaV;
use crate::state::Etd;
use crate::state::EtdV;
use crate::state::Person;
use crate::state::PersonV;
use crate::state::State;
use crate::state::StateV;
use crate::state::Status;
use crate::text::bytes_as_str;
use crate::text::push_char;
use crate::text::str_copy;
use crate::text::str_eq;

verus! {

/// First value held by a field of the given name, if any.
pub open spec fn spec_get_field(fields: Seq<(Seq<char>, JsonV)>, key: Seq<char>) -> Option<JsonV>
    decreases fields.len(),
{
    if fields.len() == 0 {
        None
    } else if fields[0].0 == key {
        Some(fields[0].1)
    } else {
        spec_get_field(fields.drop_first(), key)
    }
}

/// An optional string field: absent and `null` both mean nothing; any other
/// non-string value is malformed (the outer `None`).
pub open spec fn spec_opt_str_field(fields: Seq<(Seq<char>, JsonV)>, key: Seq<char>) -> Option<
    Option<Seq<char>>,
> {
    match spec_get_field(fields, key) {
        None => Some(None),
        Some(JsonV::Null) => Some(None),
        Some(JsonV::Str(s)) => Some(Some(s)),
        Some(_) => None,
    }
}

/// How an arrival payload reads: an object with a `name` string and
/// optional `time` and `note` strings; other fields are ignored.
pub open spec fn spec_eta_of(j: JsonV) -> Option<EtaV> {
    match j {
        JsonV::Obj(fields) => match (
            spec_get_field(fields, "name"@),
            spec_opt_str_field(fields, "time"@),
            spec_opt_str_field(fields, "note"@),
        ) {
            (Some(JsonV::Str(nm)), Some(t), Some(no)) => Some(
                (EtaV { name: nm, time: t, note: no }),
            ),
            _ => None,
        },
        _ => None,
    }
}

/// How a departure payload reads: an object with a `name` string and an
/// optional `time` string; other fields are ignored.
pub open spec fn spec_etd_of(j: JsonV) -> Option<EtdV> {
    match j {
        JsonV::Obj(fields) => match (
            spec_get_field(fields, "name"@),
            spec_opt_str_field(fields, "time"@),
        ) {
            (Some(JsonV::Str(nm)), Some(t)) => Some((EtdV { name: nm, time: t })),
            _ => None,
        },
        _ => None,
    }
}

/// The status a name stands for.
pub open spec fn status_of_name(s: Seq<char>) -> Option<Status> {
    if s == "open"@ {
        Some(Status::Open)
    } else if s == "closed"@ {
        Some(Status::Closed)
    } else if s == "thursday"@ {
        Some(Status::Thursday)
    } else {
        None
    }
}

/// The name a status is written as.
pub open spec fn status_name(st: Status) -> Seq<char> {
    match st {
        Status::Open => "open"@,
        Status::Closed => "closed"@,
        Status::Thursday => "thursday"@,
    }
}

/// How one person reads in a snapshot: a two-element array of the name and
/// the note, the note possibly `null`.
pub open spec fn spec_person_of(j: JsonV) -> Option<PersonV> {
    match j {
        JsonV::Arr(elts) => if elts.len() == 2 {
            match (elts[0], elts[1]) {
                (JsonV::Str(nm), JsonV::Null) => Some((PersonV { name: nm, note: None })),
                (JsonV::Str(nm), JsonV::Str(no)) => Some((PersonV { name: nm, note: Some(no) })),
                _ => None,
            }
        } else {
            None
        },
        _ => None,
    }
}

/// How a list of people reads: each entry a person, in order.
pub open spec fn spec_people_of(elts: Seq<JsonV>) -> Option<Seq<PersonV>>
    decreases elts.len(),
{
    if elts.len() == 0 {
        Some(Seq::empty())
    } else {
        match spec_person_of(elts[0]) {
            Some(p) => match spec_people_of(elts.drop_first()) {
                Some(r) => Some(seq![p] + r),
                None => None,
            },
            None => None,
        }
    }
}

/// How a snapshot payload reads: an object with a `status` name and a
/// `people` array.
pub open spec fn spec_state_of(j: JsonV) -> Option<StateV> {
    match j {
        JsonV::Obj(fields) => match (
            spec_get_field(fields, "status"@),
            spec_get_field(fields, "people"@),
        ) {
            (Some(JsonV::Str(sn)), Some(JsonV::Arr(elts))) => match (
                status_of_name(sn),
                spec_people_of(elts),
            ) {
                (Some(st), Some(ppl)) => Some((StateV { status: st, people: ppl })),
                _ => None,
            },
            _ => None,
        },
        _ => None,
    }
}

/// The JSON a byte payload holds, if it is UTF-8 and parses.
pub open spec fn spec_json_of_bytes(payload: Seq<u8>) -> Option<JsonV> {
    if valid_utf8(payload) {
        spec_json(decode_utf8(payload))
    } else {
        None
    }
}

/// What an arrival payload decodes to.
pub open spec fn spec_eta_from_bytes(payload: Seq<u8>) -> Option<EtaV> {
    match spec_json_of_bytes(payload) {
        Some(j) => spec_eta_of(j),
        None => None,
    }
}

/// What a departure payload decodes to.
pub open spec fn spec_etd_from_bytes(payload: Seq<u8>) -> Option<EtdV> {
    match spec_json_of_bytes(payload) {
        Some(j) => spec_etd_of(j),
        None => None,
    }
}

/// What a snapshot payload decodes to.
pub open spec fn spec_state_from_chars(s: Seq<char>) -> Option<StateV> {
    match spec_json(s) {
        Some(j) => spec_state_of(j),
        None => None,
    }
}

/// What a snapshot payload decodes to, from bytes.
pub open spec fn spec_state_from_bytes(payload: Seq<u8>) -> Option<StateV> {
    if valid_utf8(payload) {
        spec_state_from_chars(decode_utf8(payload))
    } else {
        None
    }
}

/// What a status payload decodes to: a JSON status string, or, failing
/// that, the raw unquoted name.
pub open spec fn spec_status_from_chars(s: Seq<char>) -> Option<Status> {
    match spec_json(s) {
        Some(JsonV::Str(t)) => match status_of_name(t) {
            Some(st) => Some(st),
            None => status_of_name(s),
        },
        _ => status_of_name(s),
    }
}

/// What a status payload decodes to, from bytes.
pub open spec fn spec_status_from_bytes(payload: Seq<u8>) -> Option<Status> {
    if valid_utf8(payload) {
        spec_status_from_chars(decode_utf8(payload))
    } else {
        None
    }
}

/// The character a hexadecimal digit is written as, lower case.
pub open spec fn hex_char(v: u32) -> char {
    if v < 10 {
        ((48 + v) as u8) as char
    } else {
        ((87 + v) as u8) as char
    }
}

/// How one character is written inside a JSON string: quotes and
/// backslashes get a backslash, control characters the `\u00XX` form, and
/// everything else stands as it is.
pub open spec fn esc_char(c: char) -> Seq<char> {
    if c == '"' {
        seq!['\\', '"']
    } else if c == '\\' {
        seq!['\\', '\\']
    } else if (c as u32) < 32 {
        seq![
            '\\',
            'u',
            '0',
            '0',
            hex_char((((c as u32) / 16) as u32)),
            hex_char((((c as u32) % 16) as u32)),
        ]
    } else {
        seq![c]
    }
}

/// A string's characters, escaped for JSON.
pub open spec fn escape(s: Seq<char>) -> Seq<char>
    decreases s.len(),
{
    if s.len() == 0 {
        Seq::empty()
    } else {
        esc_char(s[0]) + escape(s.drop_first())
    }
}

/// A quoted JSON string.
pub open spec fn quoted(s: Seq<char>) -> Seq<char> {
    seq!['"'] + escape(s) + seq!['"']
}

/// How a note is written: the quoted text, or `null`.
pub open spec fn note_text(n: Option<Seq<char>>) -> Seq<char> {
    match n {
        None => "null"@,
        Some(t) => quoted(t),
    }
}

/// How one person is written in a snapshot.
pub open spec fn person_text(p: PersonV) -> Seq<char> {
    "["@ + quoted(p.name) + ","@ + note_text(p.note) + "]"@
}

/// How the people are written: comma-separated, in order.
pub open spec fn people_text(s: Seq<PersonV>) -> Seq<char>
    decreases s.len(),
{
    if s.len() == 0 {
        Seq::empty()
    } else if s.len() == 1 {
        person_text(s[0])
    } else {
        person_text(s[0]) + seq![','] + people_text(s.drop_first())
    }
}

/// How a whole snapshot is written.
pub open spec fn spec_state_text(v: StateV) -> Seq<char> {
    "{\"status\":"@ + quoted(status_name(v.status)) + ",\"people\":["@ + people_text(v.people)
        + "]}"@
}

/// Escaping distributes over joining two strings.
pub proof fn lemma_escape_concat(a: Seq<char>, b: Seq<char>)
    ensures
        escape(a + b) == escape(a) + escape(b),
    decreases a.len(),
{
    if a.len() == 0 {
        assert(a + b =~= b);
        assert(escape(a) + escape(b) =~= escape(b));
    } else {
        lemma_escape_concat(a.drop_first(), b);
        assert((a + b).drop_first() =~= a.drop_first() + b);
        assert((a + b)[0] == a[0]);
        assert(esc_char(a[0]) + (escape(a.drop_first()) + escape(b)) =~= (esc_char(a[0]) + escape(
            a.drop_first(),
        )) + escape(b));
    }
}

/// Escaping one character is that character's escape.
pub proof fn lemma_escape_one(c: char)
    ensures
        escape(seq![c]) == esc_char(c),
{
    reveal_with_fuel(escape, 2);
    assert(seq![c].drop_first() =~= Seq::<char>::empty());
    assert(esc_char(c) + escape(Seq::<char>::empty()) =~= esc_char(c));
}

/// The join of the people's texts grows at the end, with a comma once
/// somebody already stands before it.
pub proof fn lemma_people_text_snoc(s: Seq<PersonV>)
    requires
        s.len() > 0,
    ensures
        people_text(s) == people_text(s.drop_last()) + (if s.len() == 1 {
            person_text(s[0])
        } else {
            seq![','] + person_text(s.last())
        }),
    decreases s.len(),
{
    if s.len() == 1 {
        assert(s.drop_last() =~= Seq::<PersonV>::empty());
        assert(people_text(Seq::<PersonV>::empty()) + person_text(s[0]) =~= person_text(s[0]));
    } else {
        lemma_people_text_snoc(s.drop_first());
        assert(s.drop_first().drop_last() =~= s.drop_last().drop_first());
        assert(s.drop_first().last() == s.last());
        if s.len() == 2 {
            assert(s.drop_first()[0] == s[1]);
            assert(s.drop_last()[0] == s[0]);
            assert(person_text(s[0]) + seq![','] + person_text(s[1]) =~= person_text(s[0]) + (
            seq![','] + person_text(s[1])));
        } else {
            assert(s.drop_last()[0] == s[0]);
            assert(s.drop_last().len() >= 2);
            assert((person_text(s[0]) + seq![','] + (people_text(s.drop_first().drop_last()) + (
            seq![','] + person_text(s.last())))) =~= ((person_text(s[0]) + seq![','] + people_text(
                s.drop_last().drop_first(),
            )) + (seq![','] + person_text(s.last()))));
        }
    }
}

/// One hexadecimal digit, appended.
fn push_hex(out: &mut String, v: u32)
    requires
        v < 16,
    ensures
        final(out)@ == old(out)@.push(hex_char(v)),
{
    if v < 10 {
        push_char(out, (48 + v as u8) as char);
    } else {
        push_char(out, (87 + v as u8) as char);
    }
}

/// A string's characters, escaped and appended.
fn append_escaped(out: &mut String, s: &str)
    ensures
        final(out)@ == old(out)@ + escape(s@),
{
    let n = s.unicode_len();
    let mut i: usize = 0;
    proof {
        assert(s@.take(0) =~= Seq::<char>::empty());
        assert(old(out)@ + escape(s@.take(0)) =~= old(out)@);
    }
    while i < n
        invariant
            n == s@.len(),
            i <= n,
            out@ == old(out)@ + escape(s@.take(i as int)),
        decreases n - i,
    {
        let ghost out0 = out@;
        let c = s.get_char(i);
        let u = c as u32;
        if c == '"' {
            push_char(out, '\\');
            push_char(out, '"');
        } else if c == '\\' {
            push_char(out, '\\');
            push_char(out, '\\');
        } else if u < 32 {
            push_char(out, '\\');
            push_char(out, 'u');
            push_char(out, '0');
            push_char(out, '0');
            push_hex(out, u / 16);
            push_hex(out, u % 16);
        } else {
            push_char(out, c);
        }
        proof {
            assert(out@ =~= out0 + esc_char(c));
            assert(s@.take(i as int + 1) =~= s@.take(i as int) + seq![c]);
            lemma_escape_concat(s@.take(i as int), seq![c]);
            lemma_escape_one(c);
            assert(out@ =~= old(out)@ + escape(s@.take(i as int + 1)));
        }
        i += 1;
    }
    proof {
        assert(s@.take(n as int) =~= s@);
    }
}

/// A quoted JSON string, appended.
fn append_quoted(out: &mut String, s: &str)
    ensures
        final(out)@ == old(out)@ + quoted(s@),
{
    push_char(out, '"');
    append_escaped(out, s);
    push_char(out, '"');
    proof {
        assert(final(out)@ =~= old(out)@ + quoted(s@));
    }
}

/// The name a status is written as.
fn status_str(st: Status) -> (r: &'static str)
    ensures
        r@ == status_name(st),
{
    match st {
        Status::Open => "open",
        Status::Closed => "closed",
        Status::Thursday => "thursday",
    }
}

/// First field of the given name.
fn get_field<'a>(fields: &'a Vec<(String, Json)>, key: &str) -> (r: Option<&'a Json>)
    ensures
        (match r {
            Some(j) => spec_get_field(fields_view(*fields), key@) == Some(json_view(*j)),
            None => spec_get_field(fields_view(*fields), key@) is None,
        }),
{
    let n = fields.len();
    let mut i: usize = 0;
    proof {
        assert(fields@.skip(0) =~= fields@);
    }
    loop
        invariant
            n == fields@.len(),
            i <= n,
            spec_get_field(fields_view(*fields), key@) == spec_get_field(
                obj_views(fields@.skip(i as int)),
                key@,
            ),
        decreases n - i,
    {
        if i >= n {
            proof {
                assert(fields@.skip(i as int) =~= Seq::<(String, Json)>::empty());
            }
            return None;
        }
        let ghost suf = fields@.skip(i as int);
        proof {
            assert(suf[0] == fields@[i as int]);
            assert(suf.drop_first() =~= fields@.skip(i as int + 1));
            assert(obj_views(suf) == seq![(suf[0].0@, json_view(suf[0].1))] + obj_views(
                suf.drop_first(),
            ));
            assert(obj_views(suf)[0] == (suf[0].0@, json_view(suf[0].1)));
            assert(obj_views(suf).drop_first() =~= obj_views(suf.drop_first()));
        }
        if str_eq(fields[i].0.as_str(), key) {
            return Some(&fields[i].1);
        }
        i += 1;
    }
}

/// An optional string field, copied out.
fn opt_str_field(fields: &Vec<(String, Json)>, key: &str) -> (r: Option<Option<String>>)
    ensures
        (match r {
            Some(t) => spec_opt_str_field(fields_view(*fields), key@) == Some(opt_str_view(t)),
            None => spec_opt_str_field(fields_view(*fields), key@) is None,
        }),
{
    match get_field(fields, key) {
        None => Some(None),
        Some(Json::Null) => Some(None),
        Some(Json::Str(s)) => Some(Some(str_copy(s.as_str()))),
        Some(_) => None,
    }
}

/// One person read out of a snapshot entry.
fn person_of(j: &Json) -> (r: Option<Person>)
    ensures
        (match r {
            Some(p) => spec_person_of(json_view(*j)) == Some(p@),
            None => spec_person_of(json_view(*j)) is None,
        }),
{
    match j {
        Json::Arr(elts) => {
            proof {
                lemma_arr_views(elts@);
            }
            if elts.len() == 2 {
                match (&elts[0], &elts[1]) {
                    (Json::Str(nm), Json::Null) => Some(Person(str_copy(nm.as_str()), None)),
                    (Json::Str(nm), Json::Str(no)) => Some(
                        Person(str_copy(nm.as_str()), Some(str_copy(no.as_str()))),
                    ),
                    _ => None,
                }
            } else {
                None
            }
        },
        _ => None,
    }
}

/// The people read out of a snapshot's array, in order.
fn people_of(elts: &Vec<Json>) -> (r: Option<Vec<Person>>)
    ensures
        (match r {
            Some(v) => spec_people_of(elems_view(*elts)) == Some(
                Seq::new(v@.len(), |i: int| v@[i]@),
            ),
            None => spec_people_of(elems_view(*elts)) is None,
        }),
{
    let n = elts.len();
    let mut out: Vec<Person> = Vec::new();
    let mut i: usize = 0;
    proof {
        assert(elts@.skip(0) =~= elts@);
        if let Some(r0) = spec_people_of(arr_views(elts@)) {
            assert(Seq::new(0nat, |k: int| out@[k]@) + r0 =~= r0);
        }
    }
    loop
        invariant
            n == elts@.len(),
            i <= n,
            out@.len() == i,
            (match spec_people_of(arr_views(elts@.skip(i as int))) {
                Some(rest) => spec_people_of(arr_views(elts@)) == Some(
                    Seq::new(out@.len(), |k: int| out@[k]@) + rest,
                ),
                None => spec_people_of(arr_views(elts@)) is None,
            }),
        decreases n - i,
    {
        let ghost suf = elts@.skip(i as int);
        if i >= n {
            proof {
                assert(suf =~= Seq::<Json>::empty());
                assert(arr_views(suf) =~= Seq::<JsonV>::empty());
                if let Some(rest) = spec_people_of(arr_views(suf)) {
                    assert(rest =~= Seq::<PersonV>::empty());
                    assert(Seq::new(out@.len(), |k: int| out@[k]@) + rest =~= Seq::new(
                        out@.len(),
                        |k: int| out@[k]@,
                    ));
                }
            }
            return Some(out);
        }
        proof {
            assert(suf[0] == elts@[i as int]);
            assert(suf.drop_first() =~= elts@.skip(i as int + 1));
            assert(arr_views(suf)[0] == json_view(suf[0]));
            assert(arr_views(suf).drop_first() =~= arr_views(suf.drop_first()));
        }
        let p = match person_of(&elts[i]) {
            Some(p) => p,
            None => {
                return None;
            },
        };
        let ghost out0 = out@;
        out.push(p);
        proof {
            if let Some(rest) = spec_people_of(arr_views(elts@.skip(i as int + 1))) {
                assert(Seq::new(out@.len(), |k: int| out@[k]@) =~= Seq::new(
                    out0.len(),
                    |k: int| out0[k]@,
                ).push(p@));
                assert(Seq::new(out0.len(), |k: int| out0[k]@) + (seq![p@] + rest) =~= Seq::new(
                    out@.len(),
                    |k: int| out@[k]@,
                ) + rest);
            }
        }
        i += 1;
    }
}

impl Eta {
    /// Decode an arrival payload.
    pub fn from_bytes(payload: &[u8]) -> (r: Option<Eta>)
        ensures
            (match r {
                Some(e) => spec_eta_from_bytes(payload@) == Some(e@),
                None => spec_eta_from_bytes(payload@) is None,
            }),
    {
        let s = match bytes_as_str(payload) {
            Some(s) => s,
            None => {
                return None;
            },
        };
        let j = match parse_json(s) {
            Some(j) => j,
            None => {
                return None;
            },
        };
        let fields = match &j {
            Json::Obj(f) => f,
            _ => {
                return None;
            },
        };
        let name = match get_field(fields, "name") {
            Some(Json::Str(nm)) => str_copy(nm.as_str()),
            _ => {
                return None;
            },
        };
        let time = match opt_str_field(fields, "time") {
            Some(t) => t,
            None => {
                return None;
            },
        };
        let note = match opt_str_field(fields, "note") {
            Some(t) => t,
            None => {
                return None;
            },
        };
        Some(Eta { name, time, note })
    }
}

impl Etd {
    /// Decode a departure payload.
    pub fn from_bytes(payload: &[u8]) -> (r: Option<Etd>)
        ensures
            (match r {
                Some(e) => spec_etd_from_bytes(payload@) == Some(e@),
                None => spec_etd_from_bytes(payload@) is None,
            }),
    {
        let s = match bytes_as_str(payload) {
            Some(s) => s,
            None => {
                return None;
            },
        };
        let j = match parse_json(s) {
            Some(j) => j,
            None => {
                return None;
            },
        };
        let fields = match &j {
            Json::Obj(f) => f,
            _ => {
                return None;
            },
        };
        let name = match get_field(fields, "name") {
            Some(Json::Str(nm)) => str_copy(nm.as_str()),
            _ => {
                return None;
            },
        };
        let time = match opt_str_field(fields, "time") {
            Some(t) => t,
            None => {
                return None;
            },
        };
        Some(Etd { name, time })
    }
}

/// The status a name names, if any.
fn status_of_str(s: &str) -> (r: Option<Status>)
    ensures
        r == status_of_name(s@),
{
    if str_eq(s, "open") {
        Some(Status::Open)
    } else if str_eq(s, "closed") {
        Some(Status::Closed)
    } else if str_eq(s, "thursday") {
        Some(Status::Thursday)
    } else {
        None
    }
}

impl Status {
    /// Decode a status payload: a JSON status string, or the raw unquoted
    /// name as a fallback.
    pub fn from_bytes(payload: &[u8]) -> (r: Option<Status>)
        ensures
            r == spec_status_from_bytes(payload@),
    {
        let s = match bytes_as_str(payload) {
            Some(s) => s,
            None => {
                return None;
            },
        };
        match parse_json(s) {
            Some(Json::Str(t)) => match status_of_str(t.as_str()) {
                Some(st) => Some(st),
                None => status_of_str(s),
            },
            _ => status_of_str(s),
        }
    }
}

impl State {
    /// Decode a snapshot from its characters.
    pub fn from_json_str(s: &str) -> (r: Option<State>)
        ensures
            (match r {
                Some(st) => spec_state_from_chars(s@) == Some(st@),
                None => spec_state_from_chars(s@) is None,
            }),
    {
        let j = match parse_json(s) {
            Some(j) => j,
            None => {
                return None;
            },
        };
        let fields = match &j {
            Json::Obj(f) => f,
            _ => {
                return None;
            },
        };
        let st = match get_field(fields, "status") {
            Some(Json::Str(sn)) => match status_of_str(sn.as_str()) {
                Some(st) => st,
                None => {
                    return None;
                },
            },
            _ => {
                return None;
            },
        };
        let ppl = match get_field(fields, "people") {
            Some(Json::Arr(elts)) => match people_of(elts) {
                Some(v) => v,
                None => {
                    return None;
                },
            },
            _ => {
                return None;
            },
        };
        Some(State::from_parts(st, ppl))
    }

    /// Write the snapshot out: the compact object with the status name and
    /// the people, in order.
    pub fn to_json(&self) -> (r: String)
        ensures
            r@ == spec_state_text(self@),
    {
        let mut out = String::new();
        proof {
            assert(out@ + "{\"status\":"@ =~= "{\"status\":"@);
        }
        out.append("{\"status\":");
        append_quoted(&mut out, status_str(self.status()));
        out.append(",\"people\":[");
        let ppl = self.people();
        let ghost pv = self@.people;
        let n = ppl.len();
        let mut i: usize = 0;
        proof {
            assert(pv.take(0) =~= Seq::<PersonV>::empty());
            assert(out@ + people_text(pv.take(0)) =~= out@);
        }
        while i < n
            invariant
                n == pv.len(),
                n == ppl@.len(),
                i <= n,
                pv == Seq::new(ppl@.len(), |k: int| ppl@[k]@),
                out@ == "{\"status\":"@ + quoted(status_name(self@.status)) + ",\"people\":["@
                    + people_text(pv.take(i as int)),
            decreases n - i,
        {
            let ghost out0 = out@;
            if i > 0 {
                push_char(&mut out, ',');
            }
            let p = &ppl[i];
            assert(p@ == pv[i as int]);
            out.append("[");
            append_quoted(&mut out, p.0.as_str());
            out.append(",");
            match &p.1 {
                Some(no) => append_quoted(&mut out, no.as_str()),
                None => out.append("null"),
            }
            out.append("]");
            proof {
                let sep: Seq<char> = if i == 0 {
                    Seq::empty()
                } else {
                    seq![',']
                };
                assert(out@ =~= out0 + (sep + person_text(pv[i as int])));
                lemma_people_text_snoc(pv.take(i as int + 1));
                assert(pv.take(i as int + 1).drop_last() =~= pv.take(i as int));
                assert(pv.take(i as int + 1).last() == pv[i as int]);
                assert(pv.take(i as int + 1)[0] == pv[0]);
                assert(people_text(pv.take(i as int + 1)) == people_text(pv.take(i as int)) + (
                sep + person_text(pv[i as int])));
                assert(out@ =~= "{\"status\":"@ + quoted(status_name(self@.status))
                    + ",\"people\":["@ + people_text(pv.take(i as int + 1)));
            }
            i += 1;
        }
        proof {
            assert(pv.take(n as int) =~= pv);
        }
        out.append("]}");
        proof {
            assert(out@ =~= spec_state_text(self@));
        }
        out
    }

    /// Decode a snapshot payload.
    pub fn from_bytes(payload: &[u8]) -> (r: Option<State>)
        ensures
            (match r {
                Some(st) => spec_state_from_bytes(payload@) == Some(st@),
                None => spec_state_from_bytes(payload@) is None,
            }),
    {
        let s = match bytes_as_str(payload) {
            Some(s) => s,
            None => {
                return None;
            },
        };
        State::from_json_str(s)
    }
}

} // verus!
