//! The guarantees the library states of itself, proved once and for all:
//! idempotent arrivals, case-insensitive removal, auto-close on the last
//! departure, no-op suppression, silence on unknown topics, no echo on
//! adopted snapshots, and the snapshot round trip.

use vstd::prelude::*;

use crate::json::hexv;
use crate::json::spec_elements;
use crate::json::spec_json;
use crate::json::spec_members;
use crate::json::spec_string_body;
use crate::json::spec_value;
use crate::json::JsonV;
use crate::msg::is_known_topic;
use crate::msg::spec_decode;
use crate::service::spec_handle;
use crate::state::has_key;
use crate::state::match_key;
use crate::state::spec_arrive_changed;
use crate::state::spec_arrive_people;
use crate::state::spec_depart_people;
use crate::state::spec_depart_status;
use crate::state::unique_names;
use crate::state::PersonV;
use crate::state::StateV;
use crate::state::Status;
use crate::text::lower_of;
use crate::wire::escape;
use crate::wire::esc_char;
use crate::wire::hex_char;
use crate::wire::note_text;
use crate::wire::people_text;
use crate::wire::person_text;
use crate::wire::quoted;
use crate::wire::spec_get_field;
use crate::wire::spec_people_of;
use crate::wire::spec_person_of;
use crate::wire::spec_state_from_chars;
use crate::wire::spec_state_of;
use crate::wire::spec_state_text;
use crate::wire::spec_status_from_bytes;
use crate::wire::status_name;
use crate::wire::status_of_name;

verus! {

/// Applying the same arrival twice: the second application changes nothing
/// and reports no change.
pub proof fn lemma_arrive_idempotent(people: Seq<PersonV>, p: PersonV)
    ensures
        spec_arrive_people(spec_arrive_people(people, p), p) == spec_arrive_people(people, p),
        !spec_arrive_changed(spec_arrive_people(people, p), p),
{
    let key = lower_of(p.name);
    let first = spec_arrive_people(people, p);
    if has_key(people, key) {
        assert(forall|i: int|
            0 <= i < first.len() ==> first[i] == (if match_key(people[i], key) {
                p
            } else {
                people[i]
            }));
        assert(has_key(first, key)) by {
            let w = choose|i: int| 0 <= i < people.len() && match_key(people[i], key);
            assert(first[w] == p);
            assert(match_key(first[w], key));
        }
        assert(forall|i: int| 0 <= i < first.len() && match_key(first[i], key) ==> first[i] == p);
        assert(spec_arrive_people(first, p) =~= first);
    } else {
        assert(first == people.push(p));
        assert(match_key(first[people.len() as int], key));
        assert(has_key(first, key));
        assert(forall|i: int| 0 <= i < first.len() && match_key(first[i], key) ==> first[i] == p)
            by {
            assert(forall|i: int| 0 <= i < people.len() ==> !match_key(people[i], key));
        }
        assert(spec_arrive_people(first, p) =~= first);
    }
}

/// An arrival keeps the state's invariant: no two entries share a
/// case-insensitively equal name.
pub proof fn lemma_arrive_preserves_unique_names(people: Seq<PersonV>, p: PersonV)
    requires
        unique_names(people),
    ensures
        unique_names(spec_arrive_people(people, p)),
{
    let key = lower_of(p.name);
    let after = spec_arrive_people(people, p);
    if has_key(people, key) {
        assert forall|i: int, j: int| 0 <= i < j < after.len() implies lower_of(after[i].name)
            != lower_of(after[j].name) by {
            assert(after[i] == (if match_key(people[i], key) {
                p
            } else {
                people[i]
            }));
            assert(after[j] == (if match_key(people[j], key) {
                p
            } else {
                people[j]
            }));
        }
    } else {
        assert(forall|i: int| 0 <= i < people.len() ==> !match_key(people[i], key));
        assert forall|i: int, j: int| 0 <= i < j < after.len() implies lower_of(after[i].name)
            != lower_of(after[j].name) by {
            if j == people.len() {
                assert(after[i] == people[i]);
                assert(after[j] == p);
            }
        }
    }
}

/// A departure keeps the state's invariant: no two entries share a
/// case-insensitively equal name.
pub proof fn lemma_depart_preserves_unique_names(people: Seq<PersonV>, key: Seq<char>)
    requires
        unique_names(people),
    ensures
        unique_names(spec_depart_people(people, key)),
{
    lemma_filter_keeps_unique_names(people, key);
}

proof fn lemma_filter_keeps_unique_names(s: Seq<PersonV>, key: Seq<char>)
    requires
        unique_names(s),
    ensures
        unique_names(spec_depart_people(s, key)),
        forall|i: int|
            0 <= i < spec_depart_people(s, key).len() ==> s.contains(
                #[trigger] spec_depart_people(s, key)[i],
            ),
    decreases s.len(),
{
    reveal(Seq::filter);
    let left = spec_depart_people(s, key);
    if s.len() > 0 {
        let head = s.drop_last();
        assert(unique_names(head)) by {
            assert(forall|i: int| 0 <= i < head.len() ==> head[i] == s[i]);
        }
        lemma_filter_keeps_unique_names(head, key);
        let lh = spec_depart_people(head, key);
        assert(forall|i: int| 0 <= i < lh.len() ==> s.contains(#[trigger] lh[i])) by {
            assert(forall|i: int|
                0 <= i < head.len() && head.contains(#[trigger] head[i]) ==> s.contains(head[i]));
            assert forall|i: int| 0 <= i < lh.len() implies s.contains(#[trigger] lh[i]) by {
                let w = choose|w: int| 0 <= w < head.len() && head[w] == lh[i];
                assert(s[w] == lh[i]);
            }
        }
        if !match_key(s.last(), key) {
            assert(left == lh.push(s.last()));
            assert forall|i: int, j: int| 0 <= i < j < left.len() implies lower_of(left[i].name)
                != lower_of(left[j].name) by {
                if j == left.len() - 1 {
                    let w = choose|w: int| 0 <= w < head.len() && head[w] == left[i];
                    assert(s[w] == left[i]);
                    assert(lower_of(s[w].name) != lower_of(s[s.len() - 1].name));
                }
            }
        }
    }
}

/// A departure removes every entry answering to the name, whatever the
/// casing it was recorded or announced under folds to.
pub proof fn lemma_depart_removes(people: Seq<PersonV>, key: Seq<char>)
    ensures
        !has_key(spec_depart_people(people, key), key),
{
    let left = spec_depart_people(people, key);
    assert forall|i: int| 0 <= i < left.len() implies !match_key(left[i], key) by {
        people.lemma_filter_pred(|q: PersonV| !match_key(q, key), i);
    }
}

/// An arrival followed by a departure under a name that folds the same:
/// the departure finds the entry and removes it.
pub proof fn lemma_arrive_then_depart(people: Seq<PersonV>, p: PersonV, dname: Seq<char>)
    requires
        lower_of(dname) == lower_of(p.name),
    ensures
        has_key(spec_arrive_people(people, p), lower_of(dname)),
        !has_key(
            spec_depart_people(spec_arrive_people(people, p), lower_of(dname)),
            lower_of(dname),
        ),
{
    let key = lower_of(dname);
    let first = spec_arrive_people(people, p);
    if has_key(people, key) {
        let w = choose|i: int| 0 <= i < people.len() && match_key(people[i], key);
        assert(first[w] == p);
        assert(match_key(first[w], key));
    } else {
        assert(match_key(first[people.len() as int], key));
    }
    lemma_depart_removes(first, key);
}

/// A departure that leaves nobody behind forces the status to `Closed` and
/// reports a change.
pub proof fn lemma_auto_close(v: StateV, key: Seq<char>)
    requires
        v.people.len() > 0,
        forall|i: int| 0 <= i < v.people.len() ==> match_key(v.people[i], key),
    ensures
        has_key(v.people, key),
        spec_depart_people(v.people, key).len() == 0,
        spec_depart_status(v.status, v.people, key) == Status::Closed,
{
    assert(match_key(v.people[0], key));
    lemma_filter_all_removed(v.people, key);
}

proof fn lemma_filter_all_removed(s: Seq<PersonV>, key: Seq<char>)
    requires
        forall|i: int| 0 <= i < s.len() ==> match_key(s[i], key),
    ensures
        spec_depart_people(s, key).len() == 0,
    decreases s.len(),
{
    reveal(Seq::filter);
    if s.len() > 0 {
        assert(forall|i: int| 0 <= i < s.drop_last().len() ==> match_key(s.drop_last()[i], key));
        lemma_filter_all_removed(s.drop_last(), key);
    }
}

/// A status update that sets the status the state already has changes
/// nothing and publishes nothing.
pub proof fn lemma_noop_status_publishes_nothing(v: StateV, payload: Seq<u8>)
    requires
        spec_status_from_bytes(payload) == Some(v.status),
    ensures
        spec_handle(v, "/presence/status"@, payload) == (v, None::<Seq<char>>),
{
    lemma_topics_distinct();
    assert((StateV { status: v.status, people: v.people }) =~= v);
}

/// An unknown topic decodes to nothing and leaves everything as it was,
/// whatever the payload holds.
pub proof fn lemma_unknown_topic(v: StateV, topic: Seq<char>, payload: Seq<u8>)
    requires
        !is_known_topic(topic),
    ensures
        spec_decode(topic, payload) is None,
        spec_handle(v, topic, payload) == (v, None::<Seq<char>>),
{
}

/// A message on the snapshot topic never triggers a publish: an adopted
/// snapshot is not echoed back.
pub proof fn lemma_replace_publishes_nothing(v: StateV, payload: Seq<u8>)
    ensures
        spec_handle(v, "/presence/state"@, payload).1 is None,
{
    lemma_topics_distinct();
}

/// The four topics are four different strings.
proof fn lemma_topics_distinct()
    ensures
        "/presence/eta"@ != "/presence/etd"@,
        "/presence/eta"@ != "/presence/state"@,
        "/presence/eta"@ != "/presence/status"@,
        "/presence/etd"@ != "/presence/state"@,
        "/presence/etd"@ != "/presence/status"@,
        "/presence/state"@ != "/presence/status"@,
{
    reveal_strlit("/presence/eta");
    reveal_strlit("/presence/etd");
    reveal_strlit("/presence/state");
    reveal_strlit("/presence/status");
    assert("/presence/eta"@.len() == 13);
    assert("/presence/etd"@.len() == 13);
    assert("/presence/state"@.len() == 15);
    assert("/presence/status"@.len() == 16);
    assert("/presence/eta"@[12] == 'a');
    assert("/presence/etd"@[12] == 'd');
}

/// The JSON a note is written as.
pub open spec fn note_json(n: Option<Seq<char>>) -> JsonV {
    match n {
        None => JsonV::Null,
        Some(t) => JsonV::Str(t),
    }
}

/// The JSON a person is written as.
pub open spec fn person_json(p: PersonV) -> JsonV {
    JsonV::Arr(seq![JsonV::Str(p.name), note_json(p.note)])
}

/// The JSON a list of people is written as.
pub open spec fn people_jsons(s: Seq<PersonV>) -> Seq<JsonV>
    decreases s.len(),
{
    if s.len() == 0 {
        Seq::empty()
    } else {
        seq![person_json(s[0])] + people_jsons(s.drop_first())
    }
}

/// The JSON a snapshot is written as.
pub open spec fn state_json(v: StateV) -> JsonV {
    JsonV::Obj(
        seq![
            ("status"@, JsonV::Str(status_name(v.status))),
            ("people"@, JsonV::Arr(people_jsons(v.people))),
        ],
    )
}

/// Reading a string body back from its escaped form gives the original
/// characters and stops right after the closing quote.
proof fn lemma_sb_escaped(pre: Seq<char>, content: Seq<char>, tail: Seq<char>)
    ensures
        spec_string_body(pre + escape(content) + seq!['"'] + tail, pre.len() as int) == Some(
            (content, pre.len() as int + escape(content).len() + 1),
        ),
    decreases content.len(),
{
    let s = pre + escape(content) + seq!['"'] + tail;
    if content.len() == 0 {
        assert(escape(content) =~= Seq::<char>::empty());
        assert(s[pre.len() as int] == '"');
        assert(spec_string_body(s, pre.len() as int) == Some(
            (Seq::<char>::empty(), pre.len() as int + 1),
        ));
        assert(content =~= Seq::<char>::empty());
    } else {
        let c = content[0];
        let rest = content.drop_first();
        assert(escape(content) == esc_char(c) + escape(rest));
        let pre2 = pre + esc_char(c);
        assert(s =~= pre2 + escape(rest) + seq!['"'] + tail);
        lemma_sb_escaped(pre2, rest, tail);
        let i = pre.len() as int;
        let k = i + escape(content).len() as int + 1;
        assert(spec_string_body(s, pre2.len() as int) == Some((rest, k)));
        if c == '"' {
            assert(esc_char(c) == seq!['\\', '"']);
            assert(s[i] == '\\');
            assert(s[i + 1] == '"');
            assert(pre2.len() == i + 2);
            assert(seq!['"'] + rest =~= content);
            assert(spec_string_body(s, i) == Some((content, k)));
        } else if c == '\\' {
            assert(esc_char(c) == seq!['\\', '\\']);
            assert(s[i] == '\\');
            assert(s[i + 1] == '\\');
            assert(pre2.len() == i + 2);
            assert(seq!['\\'] + rest =~= content);
            assert(spec_string_body(s, i) == Some((content, k)));
        } else if (c as u32) < 32 {
            let u = c as u32;
            let h1 = hex_char(((u / 16) as u32));
            let h2 = hex_char(((u % 16) as u32));
            assert(esc_char(c) == seq!['\\', 'u', '0', '0', h1, h2]);
            assert(s[i] == '\\');
            assert(s[i + 1] == 'u');
            assert(s[i + 2] == '0');
            assert(s[i + 3] == '0');
            assert(s[i + 4] == h1);
            assert(s[i + 5] == h2);
            assert(pre2.len() == i + 6);
            assert(hexv('0') == Some(0u32));
            assert(hexv(h1) == Some(((u / 16) as u32)));
            assert(hexv(h2) == Some(((u % 16) as u32)));
            assert((u / 16) * 16 + (u % 16) == u);
            lemma_char_u8_round(c);
            assert(seq![c] + rest =~= content);
            assert(spec_string_body(s, i) == Some((content, k)));
        } else {
            assert(esc_char(c) == seq![c]);
            assert(s[i] == c);
            assert(pre2.len() == i + 1);
            assert(seq![c] + rest =~= content);
            assert(spec_string_body(s, i) == Some((content, k)));
        }
    }
}

/// Reading a quoted string back gives the original characters.
proof fn lemma_value_quoted(pre: Seq<char>, content: Seq<char>, tail: Seq<char>)
    ensures
        spec_value(pre + quoted(content) + tail, pre.len() as int) == Some(
            (JsonV::Str(content), pre.len() as int + quoted(content).len()),
        ),
{
    let s = pre + quoted(content) + tail;
    assert(s[pre.len() as int] == '"');
    assert(s =~= (pre + seq!['"']) + escape(content) + seq!['"'] + tail);
    lemma_sb_escaped(pre + seq!['"'], content, tail);
}

/// Reading a written note back gives its JSON: `null`, or the quoted text.
proof fn lemma_value_note(pre: Seq<char>, n: Option<Seq<char>>, tail: Seq<char>)
    ensures
        spec_value(pre + note_text(n) + tail, pre.len() as int) == Some(
            (note_json(n), pre.len() as int + note_text(n).len()),
        ),
{
    let s = pre + note_text(n) + tail;
    let i = pre.len() as int;
    match n {
        None => {
            reveal_strlit("null");
            assert("null"@.len() == 4);
            assert(s[i] == 'n');
            assert(s[i + 1] == 'u');
            assert(s[i + 2] == 'l');
            assert(s[i + 3] == 'l');
        },
        Some(t) => {
            lemma_value_quoted(pre, t, tail);
        },
    }
}

/// Reading a written person back gives that person's JSON.
#[verifier::rlimit(100)]
proof fn lemma_value_person(pre: Seq<char>, p: PersonV, tail: Seq<char>)
    ensures
        spec_value(pre + person_text(p) + tail, pre.len() as int) == Some(
            (person_json(p), pre.len() as int + person_text(p).len()),
        ),
{
    reveal_strlit("[");
    reveal_strlit(",");
    reveal_strlit("]");
    let s = pre + person_text(p) + tail;
    let i = pre.len() as int;
    assert(s[i] == '[');
    let q = quoted(p.name);
    let nt = note_text(p.note);
    let m = i + 1 + q.len() as int;
    let m2 = m + 1 + nt.len() as int;
    assert(s[i + 1] == '"');
    assert(s =~= (pre + seq!['[']) + q + (","@ + nt + "]"@ + tail));
    lemma_value_quoted(pre + seq!['['], p.name, ","@ + nt + "]"@ + tail);
    assert(s[m] == ',');
    assert(s =~= (pre + seq!['['] + q + seq![',']) + nt + ("]"@ + tail));
    lemma_value_note(pre + seq!['['] + q + seq![','], p.note, "]"@ + tail);
    assert(s[m2] == ']');
    assert(spec_value(s, m + 1) == Some((note_json(p.note), m2)));
    assert(spec_elements(s, m + 1) == Some((seq![note_json(p.note)], m2 + 1)));
    assert(spec_value(s, i + 1) == Some((JsonV::Str(p.name), m)));
    assert(spec_elements(s, i + 1) == Some(
        (seq![JsonV::Str(p.name)] + seq![note_json(p.note)], m2 + 1),
    ));
    assert(seq![JsonV::Str(p.name)] + seq![note_json(p.note)] =~= seq![
        JsonV::Str(p.name),
        note_json(p.note),
    ]);
    assert(m2 + 1 == i + person_text(p).len());
}

/// Reading a written people list back, up to the closing bracket, gives
/// the people's JSON values in order.
proof fn lemma_parse_people(pre: Seq<char>, people: Seq<PersonV>, tail: Seq<char>)
    requires
        people.len() > 0,
        tail.len() > 0,
        tail[0] == ']',
    ensures
        spec_elements(pre + people_text(people) + tail, pre.len() as int) == Some(
            (people_jsons(people), pre.len() as int + people_text(people).len() + 1),
        ),
    decreases people.len(),
{
    reveal_strlit("[");
    let s = pre + people_text(people) + tail;
    let i = pre.len() as int;
    let p0 = people[0];
    if people.len() == 1 {
        assert(people_text(people) == person_text(p0));
        lemma_value_person(pre, p0, tail);
        let m = i + person_text(p0).len() as int;
        assert(s[m] == ']');
        assert(people.drop_first() =~= Seq::<PersonV>::empty());
        assert(people_jsons(people.drop_first()) =~= Seq::<JsonV>::empty());
        assert(people_jsons(people) =~= seq![person_json(p0)]);
    } else {
        let rest = people.drop_first();
        assert(people_text(people) == person_text(p0) + seq![','] + people_text(rest));
        assert(s =~= pre + person_text(p0) + (seq![','] + people_text(rest) + tail));
        lemma_value_person(pre, p0, seq![','] + people_text(rest) + tail);
        let m = i + person_text(p0).len() as int;
        assert(s[m] == ',');
        let pre2 = pre + person_text(p0) + seq![','];
        assert(s =~= pre2 + people_text(rest) + tail);
        lemma_parse_people(pre2, rest, tail);
        assert(people_text(rest)[0] == person_text(rest[0])[0]);
        assert(person_text(rest[0])[0] == '[');
        assert(s[m + 1] == '[');
        assert(people_jsons(people) == seq![person_json(p0)] + people_jsons(rest));
    }
}

/// Reading the written `"people"` member back, from just after the comma
/// behind the status value through the closing brace.
#[verifier::rlimit(100)]
proof fn lemma_state_people_member(v: StateV)
    ensures
        ({
            let s = spec_state_text(v);
            let m = 10 + quoted(status_name(v.status)).len() as int;
            spec_members(s, m + 1) == Some(
                (seq![("people"@, JsonV::Arr(people_jsons(v.people)))], s.len() as int),
            )
        }),
{
    reveal_strlit("{\"status\":");
    reveal_strlit(",\"people\":[");
    reveal_strlit("]}");
    reveal_strlit("people");
    reveal_strlit("[");
    let s = spec_state_text(v);
    let mid = ",\"people\":["@;
    let q = quoted(status_name(v.status));
    let pt = people_text(v.people);
    assert(mid.len() == 11);
    let m = 10 + q.len() as int;
    assert(s[m] == ',');
    assert(s[m + 1] == '"');

    // the key: "people"
    assert("people"@.len() == 6);
    assert(escape("people"@) =~= "people"@) by {
        lemma_escape_plain("people"@);
    }
    assert(s =~= (s.take(m + 2)) + escape("people"@) + seq!['"'] + (seq![':', '['] + pt + "]}"@));
    lemma_sb_escaped(s.take(m + 2), "people"@, seq![':', '['] + pt + "]}"@);
    assert(spec_string_body(s, m + 2) == Some(("people"@, m + 9)));
    assert(s[m + 9] == ':');
    assert(s[m + 10] == '[');

    // the people array
    let pj = JsonV::Arr(people_jsons(v.people));
    let e = m + 11 + pt.len() as int;
    assert(s[e] == ']');
    if v.people.len() == 0 {
        assert(pt =~= Seq::<char>::empty());
        assert(s[m + 11] == ']');
        assert(spec_value(s, m + 10) == Some((JsonV::Arr(Seq::empty()), m + 12)));
        assert(people_jsons(v.people) =~= Seq::<JsonV>::empty());
    } else {
        assert(s =~= (s.take(m + 11)) + pt + ("]}"@));
        lemma_parse_people(s.take(m + 11), v.people, "]}"@);
        assert(people_text(v.people)[0] == person_text(v.people[0])[0]);
        assert(person_text(v.people[0])[0] == '[');
        assert(s[m + 11] == '[');
        assert(spec_elements(s, m + 11) == Some((people_jsons(v.people), e + 1)));
        assert(spec_value(s, m + 10) == Some((pj, e + 1)));
    }

    assert(spec_value(s, m + 10) == Some((pj, e + 1)));
    assert(s[e + 1] == '}');
    assert(spec_members(s, m + 1) == Some((seq![("people"@, pj)], e + 2)));
    assert(e + 2 == s.len());
}

/// Reading a written snapshot back gives the snapshot's JSON.
#[verifier::rlimit(100)]
proof fn lemma_state_text_parses(v: StateV)
    ensures
        spec_json(spec_state_text(v)) == Some(state_json(v)),
{
    reveal_strlit("{\"status\":");
    reveal_strlit(",\"people\":[");
    reveal_strlit("]}");
    reveal_strlit("status");
    let s = spec_state_text(v);
    let head = "{\"status\":"@;
    let mid = ",\"people\":["@;
    let q = quoted(status_name(v.status));
    let pt = people_text(v.people);
    assert(head.len() == 10);
    assert(mid.len() == 11);
    assert(s[0] == '{');
    assert(s[1] == '"');

    // the first key: "status"
    assert("status"@.len() == 6);
    assert(escape("status"@) =~= "status"@) by {
        lemma_escape_plain("status"@);
    }
    assert(spec_string_body(s, 2) == Some(("status"@, 9int))) by {
        assert(s =~= (s.take(2)) + escape("status"@) + seq!['"'] + (seq![':'] + q + mid + pt
            + "]}"@));
        lemma_sb_escaped(s.take(2), "status"@, seq![':'] + q + mid + pt + "]}"@);
    }
    assert(s[9] == ':');

    // the status value
    assert(s =~= (s.take(10)) + q + (mid + pt + "]}"@));
    lemma_value_quoted(s.take(10), status_name(v.status), mid + pt + "]}"@);
    let m = 10 + q.len() as int;
    assert(spec_value(s, 10) == Some((JsonV::Str(status_name(v.status)), m)));
    assert(s[m] == ',');
    assert(s[m + 1] == '"');

    // the second member and the closing brace
    let pj = JsonV::Arr(people_jsons(v.people));
    lemma_state_people_member(v);
    assert(spec_members(s, m + 1) == Some((seq![("people"@, pj)], s.len() as int)));
    assert(spec_members(s, 1) == Some(
        (
            seq![("status"@, JsonV::Str(status_name(v.status)))] + seq![("people"@, pj)],
            s.len() as int,
        ),
    ));
    assert(seq![("status"@, JsonV::Str(status_name(v.status)))] + seq![("people"@, pj)] =~= seq![
        ("status"@, JsonV::Str(status_name(v.status))),
        ("people"@, pj),
    ]);
    assert(spec_value(s, 0) == Some((state_json(v), s.len() as int)));
}

/// A character below 256, taken through its code point, comes back itself.
proof fn lemma_char_u8_round(c: char)
    requires
        (c as u32) < 256,
    ensures
        (((c as u32) as u8) as char) == c,
{
}

/// Plain characters need no escaping.
proof fn lemma_escape_plain(s: Seq<char>)
    requires
        forall|i: int|
            0 <= i < s.len() ==> s[i] != '"' && s[i] != '\\' && (#[trigger] s[i] as u32) >= 32,
    ensures
        escape(s) == s,
    decreases s.len(),
{
    if s.len() > 0 {
        assert(esc_char(s[0]) == seq![s[0]]);
        lemma_escape_plain(s.drop_first());
        assert(seq![s[0]] + s.drop_first() =~= s);
    }
}

/// The snapshot's JSON reads back as the snapshot.
proof fn lemma_state_of_json(v: StateV)
    ensures
        spec_state_of(state_json(v)) == Some(v),
{
    reveal_strlit("status");
    reveal_strlit("people");
    reveal_strlit("open");
    reveal_strlit("closed");
    reveal_strlit("thursday");
    assert("status"@.len() == 6);
    assert("people"@.len() == 6);
    assert("status"@[0] == 's');
    assert("people"@[0] == 'p');
    assert("open"@.len() == 4);
    assert("closed"@.len() == 6);
    assert("thursday"@.len() == 8);
    assert("closed"@[0] == 'c');
    assert("thursday"@[0] == 't');
    assert("status"@ != "people"@);
    let pj = JsonV::Arr(people_jsons(v.people));
    let fields = seq![("status"@, JsonV::Str(status_name(v.status))), ("people"@, pj)];
    assert(spec_get_field(fields, "status"@) == Some(JsonV::Str(status_name(v.status))));
    assert(fields.drop_first() =~= seq![("people"@, pj)]);
    assert(spec_get_field(fields.drop_first(), "people"@) == Some(pj));
    assert(spec_get_field(fields, "people"@) == Some(pj));
    assert(status_of_name(status_name(v.status)) == Some(v.status));
    lemma_people_of_jsons(v.people);
    assert((StateV { status: v.status, people: v.people }) =~= v);
}

/// A people list's JSON reads back as the same people.
proof fn lemma_people_of_jsons(s: Seq<PersonV>)
    ensures
        spec_people_of(people_jsons(s)) == Some(s),
    decreases s.len(),
{
    if s.len() == 0 {
        assert(people_jsons(s) =~= Seq::<JsonV>::empty());
        assert(spec_people_of(people_jsons(s)) == Some(Seq::<PersonV>::empty()));
        assert(Seq::<PersonV>::empty() =~= s);
    } else {
        let js = people_jsons(s);
        assert(js[0] == person_json(s[0]));
        assert(js.drop_first() =~= people_jsons(s.drop_first()));
        lemma_people_of_jsons(s.drop_first());
        assert(spec_person_of(person_json(s[0])) == Some(s[0]));
        assert(seq![s[0]] + s.drop_first() =~= s);
    }
}

/// The round trip: a written snapshot, read back, is the same snapshot,
/// for every state.
pub proof fn lemma_wire_round_trip(v: StateV)
    ensures
        spec_state_from_chars(spec_state_text(v)) == Some(v),
{
    lemma_state_text_parses(v);
    lemma_state_of_json(v);
}

} // verus!
