//! The wire format of the presence messages: a small JSON reader and writer,
//! specified character by character.
//!
//! The reader accepts the usual JSON shapes the presence topics carry
//! (objects, arrays, strings with escapes, `null`, booleans, numbers kept as
//! raw text) with surrounding whitespace and any field order. Escapes of the
//! form `\uXXXX` are accepted for code points below 0x100; larger ones are
//! treated as a decode failure. The writer produces the compact encoding and
//! escapes quotes, backslashes and control characters.

use vstd::prelude::*;
use vstd::string::StrSliceExecFns;
use vstd::string::StringExecFns;

use crate::text::push_char;
use crate::text::str_copy;

verus! {

broadcast use vstd::std_specs::vec::axiom_vec_index_decreases;

/// A decoded JSON value. Numbers are kept as the raw text they were sent as;
/// nothing in the presence messages reads them.
pub enum Json {
    Null,
    Bool(bool),
    Num(String),
    Str(String),
    Arr(Vec<Json>),
    Obj(Vec<(String, Json)>),
}

/// Mathematical model of a JSON value.
#[verifier::ext_equal]
pub ghost enum JsonV {
    Null,
    Bool(bool),
    Num(Seq<char>),
    Str(Seq<char>),
    Arr(Seq<JsonV>),
    Obj(Seq<(Seq<char>, JsonV)>),
}

/// The model of a decoded JSON value.
pub open spec fn json_view(j: Json) -> JsonV
    decreases j,
{
    match j {
        Json::Null => JsonV::Null,
        Json::Bool(b) => JsonV::Bool(b),
        Json::Num(s) => JsonV::Num(s@),
        Json::Str(s) => JsonV::Str(s@),
        Json::Arr(v) => JsonV::Arr(arr_views(v@)),
        Json::Obj(v) => JsonV::Obj(obj_views(v@)),
    }
}

/// The models of a sequence of values.
pub open spec fn arr_views(s: Seq<Json>) -> Seq<JsonV>
    decreases s,
{
    if s.len() == 0 {
        Seq::empty()
    } else {
        seq![json_view(s[0])] + arr_views(s.drop_first())
    }
}

/// The models of a sequence of fields.
pub open spec fn obj_views(s: Seq<(String, Json)>) -> Seq<(Seq<char>, JsonV)>
    decreases s,
{
    if s.len() == 0 {
        Seq::empty()
    } else {
        seq![(s[0].0@, json_view(s[0].1))] + obj_views(s.drop_first())
    }
}

/// The model of a parsed field list.
pub open spec fn fields_view(v: Vec<(String, Json)>) -> Seq<(Seq<char>, JsonV)> {
    obj_views(v@)
}

/// The model of a parsed element list.
pub open spec fn elems_view(v: Vec<Json>) -> Seq<JsonV> {
    arr_views(v@)
}

/// How the model of a value sequence reads, entry by entry.
pub proof fn lemma_arr_views(s: Seq<Json>)
    ensures
        arr_views(s).len() == s.len(),
        forall|i: int| 0 <= i < s.len() ==> #[trigger] arr_views(s)[i] == json_view(s[i]),
    decreases s,
{
    if s.len() > 0 {
        lemma_arr_views(s.drop_first());
    }
}

/// JSON whitespace.
pub open spec fn is_ws(c: char) -> bool {
    c == ' ' || c == '\t' || c == '\n' || c == '\r'
}

/// First position at or after `i` holding no whitespace.
pub open spec fn skip_ws(s: Seq<char>, i: int) -> int
    decreases s.len() - i,
{
    if 0 <= i < s.len() && is_ws(s[i]) {
        skip_ws(s, i + 1)
    } else {
        i
    }
}

/// The value of a hexadecimal digit.
pub open spec fn hexv(c: char) -> Option<u32> {
    let u = c as u32;
    if 48 <= u <= 57 {
        Some((u - 48) as u32)
    } else if 97 <= u <= 102 {
        Some((u - 87) as u32)
    } else if 65 <= u <= 70 {
        Some((u - 55) as u32)
    } else {
        None
    }
}

/// The character a short escape stands for.
pub open spec fn unesc(e: char) -> Option<char> {
    if e == '"' {
        Some('"')
    } else if e == '\\' {
        Some('\\')
    } else if e == '/' {
        Some('/')
    } else if e == 'b' {
        Some('\u{8}')
    } else if e == 'f' {
        Some('\u{c}')
    } else if e == 'n' {
        Some('\n')
    } else if e == 'r' {
        Some('\r')
    } else if e == 't' {
        Some('\t')
    } else {
        None
    }
}

/// A character that may stand in the raw text of a number.
pub open spec fn is_num_char(c: char) -> bool {
    let u = c as u32;
    (48 <= u <= 57) || c == '-' || c == '+' || c == '.' || c == 'e' || c == 'E'
}

/// End of the run of number characters starting at `i`.
pub open spec fn num_end(s: Seq<char>, i: int) -> int
    decreases s.len() - i,
{
    if 0 <= i < s.len() && is_num_char(s[i]) {
        num_end(s, i + 1)
    } else {
        i
    }
}

/// Content of a string read from position `i` (just after the opening
/// quote) up to and including the closing quote: the decoded characters and
/// the position after the closing quote.
pub open spec fn spec_string_body(s: Seq<char>, i: int) -> Option<(Seq<char>, int)>
    decreases s.len() - i,
{
    if !(0 <= i < s.len()) {
        None
    } else {
        let c = s[i];
        if c == '"' {
            Some((Seq::empty(), i + 1))
        } else if c == '\\' {
            if i + 1 < s.len() {
                let e = s[i + 1];
                if e == 'u' {
                    if i + 6 <= s.len() {
                        match (hexv(s[i + 2]), hexv(s[i + 3]), hexv(s[i + 4]), hexv(s[i + 5])) {
                            (Some(a), Some(b), Some(c4), Some(d)) => {
                                let v = a * 4096 + b * 256 + c4 * 16 + d;
                                if v < 256 {
                                    match spec_string_body(s, i + 6) {
                                        Some((rest, k)) => Some(
                                            (seq![((v as u8) as char)] + rest, k),
                                        ),
                                        None => None,
                                    }
                                } else {
                                    None
                                }
                            },
                            _ => None,
                        }
                    } else {
                        None
                    }
                } else {
                    match unesc(e) {
                        Some(ch) => match spec_string_body(s, i + 2) {
                            Some((rest, k)) => Some((seq![ch] + rest, k)),
                            None => None,
                        },
                        None => None,
                    }
                }
            } else {
                None
            }
        } else if (c as u32) < 32 {
            None
        } else {
            match spec_string_body(s, i + 1) {
                Some((rest, k)) => Some((seq![c] + rest, k)),
                None => None,
            }
        }
    }
}

/// A JSON value read from position `i`, which must hold its first character.
pub open spec fn spec_value(s: Seq<char>, i: int) -> Option<(JsonV, int)>
    decreases s.len() - i, 0int,
{
    if !(0 <= i < s.len()) {
        None
    } else {
        let c = s[i];
        if c == '{' {
            let j = skip_ws(s, i + 1);
            if !(i < j <= s.len()) {
                None
            } else if j < s.len() && s[j] == '}' {
                Some((JsonV::Obj(Seq::empty()), j + 1))
            } else {
                match spec_members(s, j) {
                    Some((fields, k)) => Some((JsonV::Obj(fields), k)),
                    None => None,
                }
            }
        } else if c == '[' {
            let j = skip_ws(s, i + 1);
            if !(i < j <= s.len()) {
                None
            } else if j < s.len() && s[j] == ']' {
                Some((JsonV::Arr(Seq::empty()), j + 1))
            } else {
                match spec_elements(s, j) {
                    Some((elts, k)) => Some((JsonV::Arr(elts), k)),
                    None => None,
                }
            }
        } else if c == '"' {
            match spec_string_body(s, i + 1) {
                Some((content, k)) => Some((JsonV::Str(content), k)),
                None => None,
            }
        } else if c == 'n' {
            if i + 4 <= s.len() && s[i + 1] == 'u' && s[i + 2] == 'l' && s[i + 3] == 'l' {
                Some((JsonV::Null, i + 4))
            } else {
                None
            }
        } else if c == 't' {
            if i + 4 <= s.len() && s[i + 1] == 'r' && s[i + 2] == 'u' && s[i + 3] == 'e' {
                Some((JsonV::Bool(true), i + 4))
            } else {
                None
            }
        } else if c == 'f' {
            if i + 5 <= s.len() && s[i + 1] == 'a' && s[i + 2] == 'l' && s[i + 3] == 's' && s[i + 4]
                == 'e' {
                Some((JsonV::Bool(false), i + 5))
            } else {
                None
            }
        } else {
            let e = num_end(s, i);
            if e > i {
                Some((JsonV::Num(s.subrange(i, e)), e))
            } else {
                None
            }
        }
    }
}

/// The fields of an object read from position `i`, which must hold the
/// opening quote of the first key; ends after the closing brace.
pub open spec fn spec_members(s: Seq<char>, i: int) -> Option<(Seq<(Seq<char>, JsonV)>, int)>
    decreases s.len() - i, 1int,
{
    if !(0 <= i < s.len() && s[i] == '"') {
        None
    } else {
        match spec_string_body(s, i + 1) {
            Some((key, k)) => {
                let w = skip_ws(s, k);
                if w < s.len() && s[w] == ':' {
                    let v = skip_ws(s, w + 1);
                    if !(i < v <= s.len()) {
                        None
                    } else {
                        match spec_value(s, v) {
                            Some((jv, m)) => {
                                let t = skip_ws(s, m);
                                if t < s.len() && s[t] == ',' {
                                    let nx = skip_ws(s, t + 1);
                                    if !(i < nx <= s.len()) {
                                        None
                                    } else {
                                        match spec_members(s, nx) {
                                            Some((rest, e)) => Some((seq![(key, jv)] + rest, e)),
                                            None => None,
                                        }
                                    }
                                } else if t < s.len() && s[t] == '}' {
                                    Some((seq![(key, jv)], t + 1))
                                } else {
                                    None
                                }
                            },
                            None => None,
                        }
                    }
                } else {
                    None
                }
            },
            None => None,
        }
    }
}

/// The elements of an array read from position `i`, which must hold the
/// first character of the first element; ends after the closing bracket.
pub open spec fn spec_elements(s: Seq<char>, i: int) -> Option<(Seq<JsonV>, int)>
    decreases s.len() - i, 1int,
{
    if !(0 <= i < s.len()) {
        None
    } else {
        match spec_value(s, i) {
            Some((jv, m)) => {
                let t = skip_ws(s, m);
                if t < s.len() && s[t] == ',' {
                    let nx = skip_ws(s, t + 1);
                    if !(i < nx <= s.len()) {
                        None
                    } else {
                        match spec_elements(s, nx) {
                            Some((rest, e)) => Some((seq![jv] + rest, e)),
                            None => None,
                        }
                    }
                } else if t < s.len() && s[t] == ']' {
                    Some((seq![jv], t + 1))
                } else {
                    None
                }
            },
            None => None,
        }
    }
}

/// A whole payload: one JSON value with nothing but whitespace around it.
pub open spec fn spec_json(s: Seq<char>) -> Option<JsonV> {
    let i = skip_ws(s, 0);
    match spec_value(s, i) {
        Some((j, k)) => if skip_ws(s, k) == s.len() {
            Some(j)
        } else {
            None
        },
        None => None,
    }
}

/// First non-whitespace position at or after `i`.
fn p_skip_ws(s: &str, n: usize, i: usize) -> (r: usize)
    requires
        n == s@.len(),
        i <= n,
    ensures
        r as int == skip_ws(s@, i as int),
        i <= r <= n,
{
    let mut j = i;
    loop
        invariant
            n == s@.len(),
            i <= j <= n,
            skip_ws(s@, i as int) == skip_ws(s@, j as int),
        decreases n - j,
    {
        if j >= n {
            return j;
        }
        let c = s.get_char(j);
        if !(c == ' ' || c == '\t' || c == '\n' || c == '\r') {
            return j;
        }
        j += 1;
    }
}

/// The value of a hexadecimal digit.
fn p_hex(c: char) -> (r: Option<u32>)
    ensures
        r == hexv(c),
        r matches Some(v) ==> v < 16,
{
    let u = c as u32;
    if 48 <= u && u <= 57 {
        Some(u - 48)
    } else if 97 <= u && u <= 102 {
        Some(u - 87)
    } else if 65 <= u && u <= 70 {
        Some(u - 55)
    } else {
        None
    }
}

/// The character a short escape stands for.
fn p_unesc(e: char) -> (r: Option<char>)
    ensures
        r == unesc(e),
{
    if e == '"' {
        Some('"')
    } else if e == '\\' {
        Some('\\')
    } else if e == '/' {
        Some('/')
    } else if e == 'b' {
        Some('\u{8}')
    } else if e == 'f' {
        Some('\u{c}')
    } else if e == 'n' {
        Some('\n')
    } else if e == 'r' {
        Some('\r')
    } else if e == 't' {
        Some('\t')
    } else {
        None
    }
}

/// Reads a string's content from just after the opening quote through the
/// closing quote.
fn p_string_body(s: &str, n: usize, i: usize) -> (r: Option<(String, usize)>)
    requires
        n == s@.len(),
        i <= n,
    ensures
        (match r {
            Some(p) => spec_string_body(s@, i as int) == Some((p.0@, p.1 as int)) && i < p.1 <= n,
            None => spec_string_body(s@, i as int) is None,
        }),
{
    let mut acc = String::new();
    let mut j = i;
    proof {
        if let Some((c0, k0)) = spec_string_body(s@, i as int) {
            assert(Seq::<char>::empty() + c0 =~= c0);
        }
    }
    loop
        invariant
            n == s@.len(),
            i <= j <= n,
            (match spec_string_body(s@, j as int) {
                Some(p) => spec_string_body(s@, i as int) == Some((acc@ + p.0, p.1)),
                None => spec_string_body(s@, i as int) is None,
            }),
        decreases n - j,
    {
        if j >= n {
            return None;
        }
        let c = s.get_char(j);
        if c == '"' {
            proof {
                assert(acc@ + Seq::<char>::empty() =~= acc@);
            }
            return Some((acc, j + 1));
        } else if c == '\\' {
            if j + 1 >= n {
                return None;
            }
            let e = s.get_char(j + 1);
            if e == 'u' {
                if n - j < 6 {
                    return None;
                }
                let h1 = p_hex(s.get_char(j + 2));
                let h2 = p_hex(s.get_char(j + 3));
                let h3 = p_hex(s.get_char(j + 4));
                let h4 = p_hex(s.get_char(j + 5));
                match (h1, h2, h3, h4) {
                    (Some(a), Some(b), Some(c4), Some(d)) => {
                        let v = a * 4096 + b * 256 + c4 * 16 + d;
                        if v >= 256 {
                            return None;
                        }
                        let ch = (v as u8) as char;
                        let ghost acc0 = acc@;
                        push_char(&mut acc, ch);
                        proof {
                            if let Some((rest, k)) = spec_string_body(s@, j + 6) {
                                assert(acc0 + (seq![ch] + rest) =~= acc@ + rest);
                            }
                        }
                        j += 6;
                    },
                    _ => {
                        return None;
                    },
                }
            } else {
                match p_unesc(e) {
                    Some(ch) => {
                        let ghost acc0 = acc@;
                        push_char(&mut acc, ch);
                        proof {
                            if let Some((rest, k)) = spec_string_body(s@, j + 2) {
                                assert(acc0 + (seq![ch] + rest) =~= acc@ + rest);
                            }
                        }
                        j += 2;
                    },
                    None => {
                        return None;
                    },
                }
            }
        } else if (c as u32) < 32 {
            return None;
        } else {
            let ghost acc0 = acc@;
            push_char(&mut acc, c);
            proof {
                if let Some((rest, k)) = spec_string_body(s@, j + 1) {
                    assert(acc0 + (seq![c] + rest) =~= acc@ + rest);
                }
            }
            j += 1;
        }
    }
}

/// End of the run of number characters starting at `i`.
fn p_num_end(s: &str, n: usize, i: usize) -> (r: usize)
    requires
        n == s@.len(),
        i <= n,
    ensures
        r as int == num_end(s@, i as int),
        i <= r <= n,
{
    let mut j = i;
    loop
        invariant
            n == s@.len(),
            i <= j <= n,
            num_end(s@, i as int) == num_end(s@, j as int),
        decreases n - j,
    {
        if j >= n {
            return j;
        }
        let c = s.get_char(j);
        let u = c as u32;
        if !((48 <= u && u <= 57) || c == '-' || c == '+' || c == '.' || c == 'e' || c == 'E') {
            return j;
        }
        j += 1;
    }
}

/// Reads one JSON value starting exactly at `i`.
fn p_value(s: &str, n: usize, i: usize) -> (r: Option<(Json, usize)>)
    requires
        n == s@.len(),
        i <= n,
    ensures
        (match r {
            Some(p) => spec_value(s@, i as int) == Some((json_view(p.0), p.1 as int)) && i < p.1 <= n,
            None => spec_value(s@, i as int) is None,
        }),
    decreases n - i, 0int,
{
    if i >= n {
        return None;
    }
    let c = s.get_char(i);
    if c == '{' {
        let j = p_skip_ws(s, n, i + 1);
        if j < n && s.get_char(j) == '}' {
            let v: Vec<(String, Json)> = Vec::new();
            proof {
                assert(fields_view(v) =~= Seq::<(Seq<char>, JsonV)>::empty());
            }
            Some((Json::Obj(v), j + 1))
        } else {
            match p_members(s, n, j) {
                Some((fields, k)) => Some((Json::Obj(fields), k)),
                None => None,
            }
        }
    } else if c == '[' {
        let j = p_skip_ws(s, n, i + 1);
        if j < n && s.get_char(j) == ']' {
            let v: Vec<Json> = Vec::new();
            proof {
                assert(elems_view(v) =~= Seq::<JsonV>::empty());
            }
            Some((Json::Arr(v), j + 1))
        } else {
            match p_elements(s, n, j) {
                Some((elts, k)) => Some((Json::Arr(elts), k)),
                None => None,
            }
        }
    } else if c == '"' {
        match p_string_body(s, n, i + 1) {
            Some((content, k)) => Some((Json::Str(content), k)),
            None => None,
        }
    } else if c == 'n' {
        if n - i >= 4 && s.get_char(i + 1) == 'u' && s.get_char(i + 2) == 'l' && s.get_char(i + 3)
            == 'l' {
            Some((Json::Null, i + 4))
        } else {
            None
        }
    } else if c == 't' {
        if n - i >= 4 && s.get_char(i + 1) == 'r' && s.get_char(i + 2) == 'u' && s.get_char(i + 3)
            == 'e' {
            Some((Json::Bool(true), i + 4))
        } else {
            None
        }
    } else if c == 'f' {
        if n - i >= 5 && s.get_char(i + 1) == 'a' && s.get_char(i + 2) == 'l' && s.get_char(i + 3)
            == 's' && s.get_char(i + 4) == 'e' {
            Some((Json::Bool(false), i + 5))
        } else {
            None
        }
    } else {
        let e = p_num_end(s, n, i);
        if e > i {
            let text = str_copy(s.substring_char(i, e));
            Some((Json::Num(text), e))
        } else {
            None
        }
    }
}

/// Reads the fields of an object from the opening quote of the first key
/// through the closing brace.
fn p_members(s: &str, n: usize, i: usize) -> (r: Option<(Vec<(String, Json)>, usize)>)
    requires
        n == s@.len(),
        i <= n,
    ensures
        (match r {
            Some(p) => spec_members(s@, i as int) == Some((fields_view(p.0), p.1 as int)) && i
                < p.1 <= n,
            None => spec_members(s@, i as int) is None,
        }),
    decreases n - i, 1int,
{
    if i >= n || s.get_char(i) != '"' {
        return None;
    }
    let (key, k) = match p_string_body(s, n, i + 1) {
        Some(p) => p,
        None => {
            return None;
        },
    };
    let w = p_skip_ws(s, n, k);
    if !(w < n && s.get_char(w) == ':') {
        return None;
    }
    let v = p_skip_ws(s, n, w + 1);
    let (jv, m) = match p_value(s, n, v) {
        Some(p) => p,
        None => {
            return None;
        },
    };
    let t = p_skip_ws(s, n, m);
    if t < n && s.get_char(t) == ',' {
        let nx = p_skip_ws(s, n, t + 1);
        match p_members(s, n, nx) {
            Some((mut rest, e)) => {
                let ghost gk = key@;
                let ghost gj = json_view(jv);
                let ghost prev = rest@;
                let mut out: Vec<(String, Json)> = Vec::new();
                out.push((key, jv));
                out.append(&mut rest);
                proof {
                    assert(out@.drop_first() =~= prev);
                    assert(fields_view(out) =~= seq![(gk, gj)] + obj_views(prev));
                }
                Some((out, e))
            },
            None => None,
        }
    } else if t < n && s.get_char(t) == '}' {
        let ghost gk = key@;
        let ghost gj = json_view(jv);
        let mut one: Vec<(String, Json)> = Vec::new();
        one.push((key, jv));
        proof {
            reveal_with_fuel(obj_views, 2);
            assert(one@.drop_first() =~= Seq::<(String, Json)>::empty());
            assert(fields_view(one) =~= seq![(gk, gj)]);
        }
        Some((one, t + 1))
    } else {
        None
    }
}

/// Reads the elements of an array from the first element's first character
/// through the closing bracket.
fn p_elements(s: &str, n: usize, i: usize) -> (r: Option<(Vec<Json>, usize)>)
    requires
        n == s@.len(),
        i <= n,
    ensures
        (match r {
            Some(p) => spec_elements(s@, i as int) == Some((elems_view(p.0), p.1 as int)) && i
                < p.1 <= n,
            None => spec_elements(s@, i as int) is None,
        }),
    decreases n - i, 1int,
{
    if i >= n {
        return None;
    }
    let (jv, m) = match p_value(s, n, i) {
        Some(p) => p,
        None => {
            return None;
        },
    };
    let t = p_skip_ws(s, n, m);
    if t < n && s.get_char(t) == ',' {
        let nx = p_skip_ws(s, n, t + 1);
        match p_elements(s, n, nx) {
            Some((mut rest, e)) => {
                let ghost gj = json_view(jv);
                let ghost prev = rest@;
                let mut out: Vec<Json> = Vec::new();
                out.push(jv);
                out.append(&mut rest);
                proof {
                    assert(out@.drop_first() =~= prev);
                    assert(elems_view(out) =~= seq![gj] + arr_views(prev));
                }
                Some((out, e))
            },
            None => None,
        }
    } else if t < n && s.get_char(t) == ']' {
        let ghost gj = json_view(jv);
        let mut one: Vec<Json> = Vec::new();
        one.push(jv);
        proof {
            reveal_with_fuel(arr_views, 2);
            assert(one@.drop_first() =~= Seq::<Json>::empty());
            assert(elems_view(one) =~= seq![gj]);
        }
        Some((one, t + 1))
    } else {
        None
    }
}

/// Reads a whole payload: one JSON value with only whitespace around it.
pub fn parse_json(s: &str) -> (r: Option<Json>)
    ensures
        (match r {
            Some(j) => spec_json(s@) == Some(json_view(j)),
            None => spec_json(s@) is None,
        }),
{
    let n = s.unicode_len();
    let i = p_skip_ws(s, n, 0);
    match p_value(s, n, i) {
        Some((j, k)) => {
            let e = p_skip_ws(s, n, k);
            if e == n {
                Some(j)
            } else {
                None
            }
        },
        None => None,
    }
}

} // verus!
