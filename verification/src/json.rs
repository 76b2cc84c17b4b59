//! JSON values as the library reads them (the data model of `serde_json::Value`).

use vstd::prelude::*;

use crate::seqs::{first_match, lemma_first_match, lemma_first_match_at, lemma_first_match_none};
use crate::text::{push_char, push_str};

verus! {

/// A JSON number: its integer readings where it has them, and its two textual renderings.
pub struct JsonNumber {
    /// The number as an `i64`, when it is an integer in range.
    pub as_i64: Option<i64>,
    /// The number as a `u64`, when it is a non-negative integer in range.
    pub as_u64: Option<u64>,
    /// The number read as an `f64`, rendered with `f64`'s `Display`.
    pub f64_text: String,
    /// The number as JSON text.
    pub text: String,
}

/// A JSON value. Object members are held in a sequence; as `serde_json` reads them (its map
/// ordered by key) they come in key order, each key once.
pub enum JsonValue {
    Null,
    Bool(bool),
    Number(JsonNumber),
    String(String),
    Array(Vec<JsonValue>),
    Object(Vec<(String, JsonValue)>),
}

/// The predicate "has key `k`" on object members.
pub open spec fn key_is(k: Seq<char>) -> spec_fn((Seq<char>, JsonV)) -> bool {
    |m: (Seq<char>, JsonV)| m.0 == k
}

/// The position of the member named `k`, or -1.
pub open spec fn m_find(m: Seq<(Seq<char>, JsonV)>, k: Seq<char>) -> int {
    first_match(m, key_is(k))
}

/// The value of the member named `k`.
pub open spec fn m_get(m: Seq<(Seq<char>, JsonV)>, k: Seq<char>) -> Option<JsonV> {
    let i = m_find(m, k);
    if i < 0 {
        None
    } else {
        Some(m[i].1)
    }
}

/// The members without the one named `k` (`Map::remove`).
pub open spec fn m_remove(m: Seq<(Seq<char>, JsonV)>, k: Seq<char>) -> Seq<(Seq<char>, JsonV)> {
    let i = m_find(m, k);
    if i < 0 {
        m
    } else {
        m.remove(i)
    }
}

/// Lexicographic order on character sequences (the order of `String`'s `Ord`).
pub open spec fn seq_lt(a: Seq<char>, b: Seq<char>) -> bool
    decreases a.len(),
{
    if a.len() == 0 {
        b.len() > 0
    } else if b.len() == 0 {
        false
    } else if a[0] != b[0] {
        a[0] < b[0]
    } else {
        seq_lt(a.drop_first(), b.drop_first())
    }
}

/// The predicate "key orders after `k`".
pub open spec fn key_after(k: Seq<char>) -> spec_fn((Seq<char>, JsonV)) -> bool {
    |m: (Seq<char>, JsonV)| seq_lt(k, m.0)
}

/// Where a new key `k` goes in members kept in key order: before the first larger key.
pub open spec fn m_insert_pos(m: Seq<(Seq<char>, JsonV)>, k: Seq<char>) -> int {
    let i = first_match(m, key_after(k));
    if i < 0 {
        m.len() as int
    } else {
        i
    }
}

/// The members with `k` set to `v` (`Map::insert`): replaced in place, or added in key order.
pub open spec fn m_insert(m: Seq<(Seq<char>, JsonV)>, k: Seq<char>, v: JsonV) -> Seq<(Seq<char>, JsonV)> {
    let i = m_find(m, k);
    if i >= 0 {
        m.update(i, (k, v))
    } else {
        m.insert(m_insert_pos(m, k), (k, v))
    }
}

/// After `m_insert(m, k, v)`, the member named `k` holds `v`.
pub proof fn lemma_m_get_insert_same(m: Seq<(Seq<char>, JsonV)>, k: Seq<char>, v: JsonV)
    ensures
        m_get(m_insert(m, k, v), k) == Some(v),
{
    let i = m_find(m, k);
    lemma_first_match(m, key_is(k));
    let r = m_insert(m, k, v);
    if i >= 0 {
        assert(key_is(k)(r[i]));
        assert forall|j: int| 0 <= j < i implies !key_is(k)(#[trigger] r[j]) by {
            assert(r[j] == m[j]);
        }
        lemma_first_match_at(r, key_is(k), i);
    } else {
        let p = m_insert_pos(m, k);
        lemma_first_match(m, key_after(k));
        assert(0 <= p <= m.len());
        assert(r[p] == (k, v));
        assert forall|j: int| 0 <= j < p implies !key_is(k)(#[trigger] r[j]) by {
            assert(r[j] == m[j]);
            assert(!key_is(k)(m[j]));
        }
        lemma_first_match_at(r, key_is(k), p);
    }
}

/// After `m_insert(m, k, v)`, a member named otherwise reads as before.
pub proof fn lemma_m_get_insert_other(m: Seq<(Seq<char>, JsonV)>, k: Seq<char>, v: JsonV, k2: Seq<char>)
    requires
        k2 != k,
    ensures
        m_get(m_insert(m, k, v), k2) == m_get(m, k2),
{
    let i = m_find(m, k);
    let j = m_find(m, k2);
    lemma_first_match(m, key_is(k));
    lemma_first_match(m, key_is(k2));
    let r = m_insert(m, k, v);
    if i >= 0 {
        assert forall|t: int| 0 <= t < r.len() && t != i implies #[trigger] r[t] == m[t] by {}
        if j >= 0 {
            assert forall|t: int| 0 <= t < j implies !key_is(k2)(#[trigger] r[t]) by {
                if t != i {
                    assert(r[t] == m[t]);
                }
            }
            assert(r[j] == m[j]);
            lemma_first_match_at(r, key_is(k2), j);
        } else {
            assert forall|t: int| 0 <= t < r.len() implies !key_is(k2)(#[trigger] r[t]) by {
                if t != i {
                    assert(!key_is(k2)(m[t]));
                }
            }
            lemma_first_match_none(r, key_is(k2));
        }
    } else {
        let p = m_insert_pos(m, k);
        lemma_first_match(m, key_after(k));
        assert(0 <= p <= m.len());
        assert forall|t: int| 0 <= t < p implies #[trigger] r[t] == m[t] by {}
        assert forall|t: int| p < t < r.len() implies #[trigger] r[t] == m[t - 1] by {}
        if j >= 0 {
            let j2 = if j < p { j } else { j + 1 };
            assert(r[j2] == m[j]);
            assert forall|t: int| 0 <= t < j2 implies !key_is(k2)(#[trigger] r[t]) by {
                if t < p {
                    assert(!key_is(k2)(m[t]));
                } else if t > p {
                    assert(!key_is(k2)(m[t - 1]));
                }
            }
            lemma_first_match_at(r, key_is(k2), j2);
        } else {
            assert forall|t: int| 0 <= t < r.len() implies !key_is(k2)(#[trigger] r[t]) by {
                if t < p {
                    assert(!key_is(k2)(m[t]));
                } else if t > p {
                    assert(!key_is(k2)(m[t - 1]));
                }
            }
            lemma_first_match_none(r, key_is(k2));
        }
    }
}

/// After `m_remove(m, k)`, a member named otherwise reads as before.
pub proof fn lemma_m_get_remove_other(m: Seq<(Seq<char>, JsonV)>, k: Seq<char>, k2: Seq<char>)
    requires
        k2 != k,
    ensures
        m_get(m_remove(m, k), k2) == m_get(m, k2),
{
    let i = m_find(m, k);
    let j = m_find(m, k2);
    lemma_first_match(m, key_is(k));
    lemma_first_match(m, key_is(k2));
    if i >= 0 {
        let r = m.remove(i);
        assert forall|t: int| 0 <= t < i implies #[trigger] r[t] == m[t] by {}
        assert forall|t: int| i <= t < r.len() implies #[trigger] r[t] == m[t + 1] by {}
        if j >= 0 {
            let j2 = if j < i { j } else { j - 1 };
            assert(j != i);
            assert(r[j2] == m[j]);
            assert forall|t: int| 0 <= t < j2 implies !key_is(k2)(#[trigger] r[t]) by {
                if t < i {
                    assert(!key_is(k2)(m[t]));
                } else {
                    assert(!key_is(k2)(m[t + 1]));
                }
            }
            lemma_first_match_at(r, key_is(k2), j2);
        } else {
            assert forall|t: int| 0 <= t < r.len() implies !key_is(k2)(#[trigger] r[t]) by {
                if t < i {
                    assert(!key_is(k2)(m[t]));
                } else {
                    assert(!key_is(k2)(m[t + 1]));
                }
            }
            lemma_first_match_none(r, key_is(k2));
        }
    }
}

/// The member named `key` of an object (`serde_json::Value::get` with a string key).
pub open spec fn jv_get(v: JsonV, key: Seq<char>) -> Option<JsonV> {
    match v {
        JsonV::Object(members) => m_get(members, key),
        _ => None,
    }
}

/// The text of a JSON string value.
pub open spec fn jv_as_str(v: JsonV) -> Option<Seq<char>> {
    match v {
        JsonV::String(s) => Some(s),
        _ => None,
    }
}

/// The mathematical value of a JSON number.
pub struct JsonNumberV {
    pub as_i64: Option<i64>,
    pub as_u64: Option<u64>,
    pub f64_text: Seq<char>,
    pub text: Seq<char>,
}

/// The mathematical value of a JSON value: strings as character sequences.
pub enum JsonV {
    Null,
    Bool(bool),
    Number(JsonNumberV),
    String(Seq<char>),
    Array(Seq<JsonV>),
    Object(Seq<(Seq<char>, JsonV)>),
}

/// Whether every member key of `m` is one of `allowed`.
pub open spec fn keys_within(m: Seq<(Seq<char>, JsonV)>, allowed: Seq<Seq<char>>) -> bool {
    forall|i: int| 0 <= i < m.len() ==> allowed.contains(#[trigger] m[i].0)
}

/// The views of a list of string slices.
pub open spec fn strs_view(names: Seq<&str>) -> Seq<Seq<char>> {
    Seq::new(names.len(), |i: int| names[i]@)
}

/// The variant index that a unit enum variant is read as: the variant's name as a string, or an
/// object with that name as its only key and `null` as its value; -1 when neither.
pub open spec fn unit_variant(v: JsonV, names: Seq<Seq<char>>) -> int {
    match v {
        JsonV::String(s) => names.index_of_first(s).unwrap_or(-1),
        JsonV::Object(m) => if m.len() == 1 && m[0].1 == JsonV::Null {
            names.index_of_first(m[0].0).unwrap_or(-1)
        } else {
            -1
        },
        _ => -1,
    }
}

pub proof fn lemma_unit_variant_range(v: JsonV, names: Seq<Seq<char>>)
    ensures
        -1 <= unit_variant(v, names) < names.len(),
{
    match v {
        JsonV::String(s) => {
            names.index_of_first_ensures(s);
        },
        JsonV::Object(m) => {
            if m.len() == 1 {
                names.index_of_first_ensures(m[0].0);
            }
        },
        _ => {},
    }
}

/// The number as a `u32`, when it is a non-negative integer that fits.
pub open spec fn jv_u32(v: JsonV) -> Option<u32> {
    match v {
        JsonV::Number(n) => match n.as_u64 {
            Some(u) => if u <= u32::MAX {
                Some(u as u32)
            } else {
                None
            },
            None => None,
        },
        _ => None,
    }
}

impl View for JsonNumber {
    type V = JsonNumberV;

    open spec fn view(&self) -> JsonNumberV {
        JsonNumberV {
            as_i64: self.as_i64,
            as_u64: self.as_u64,
            f64_text: self.f64_text@,
            text: self.text@,
        }
    }
}

/// The views of a sequence of JSON values.
pub open spec fn json_seq_view(s: Seq<JsonValue>) -> Seq<JsonV>
    decreases s,
{
    Seq::new(s.len(), |i: int| if 0 <= i < s.len() { json_view(s[i]) } else { JsonV::Null })
}

/// The views of a sequence of object members.
pub open spec fn json_members_view(s: Seq<(String, JsonValue)>) -> Seq<(Seq<char>, JsonV)>
    decreases s,
{
    Seq::new(
        s.len(),
        |i: int|
            if 0 <= i < s.len() {
                (s[i].0@, json_view(s[i].1))
            } else {
                (Seq::empty(), JsonV::Null)
            },
    )
}

pub open spec fn json_view(v: JsonValue) -> JsonV
    decreases v,
{
    match v {
        JsonValue::Null => JsonV::Null,
        JsonValue::Bool(b) => JsonV::Bool(b),
        JsonValue::Number(n) => JsonV::Number(n@),
        JsonValue::String(s) => JsonV::String(s@),
        JsonValue::Array(items) => JsonV::Array(json_seq_view(items@)),
        JsonValue::Object(members) => JsonV::Object(json_members_view(members@)),
    }
}

impl View for JsonValue {
    type V = JsonV;

    open spec fn view(&self) -> JsonV {
        json_view(*self)
    }
}

#[verifier::external_type_specification]
#[verifier::external_body]
pub struct ExSerdeJsonValue(serde_json::Value);

/// Converts a `serde_json::Value` into the library's model one for one: each variant to its
/// counterpart, a number to its integer readings and its two renderings, object members in the
/// order serde_json keeps them. Nothing is stated of it here; `parse_json_text` names the
/// outcome of the parse and this conversion together.
#[verifier::external_body]
fn json_from_serde(v: &serde_json::Value) -> JsonValue {
    match v {
        serde_json::Value::Null => JsonValue::Null,
        serde_json::Value::Bool(b) => JsonValue::Bool(*b),
        serde_json::Value::Number(n) => JsonValue::Number(JsonNumber {
            as_i64: n.as_i64(),
            as_u64: n.as_u64(),
            f64_text: n.as_f64().map(|x| x.to_string()).unwrap_or_default(),
            text: n.to_string(),
        }),
        serde_json::Value::String(s) => JsonValue::String(s.clone()),
        serde_json::Value::Array(a) => JsonValue::Array(a.iter().map(json_from_serde).collect()),
        serde_json::Value::Object(m) => JsonValue::Object(m.iter().map(|(k, x)| (k.clone(), json_from_serde(x))).collect()),
    }
}

/// What `serde_json::from_str::<serde_json::Value>` gives for a text, as the library reads it:
/// the value, or the message of the parse error.
pub uninterp spec fn spec_parse_json(text: Seq<char>) -> Result<JsonV, Seq<char>>;

/// The JSON value a text reads as, when it is valid JSON.
pub open spec fn json_reading(text: Seq<char>) -> Option<JsonV> {
    match spec_parse_json(text) {
        Ok(v) => Some(v),
        Err(_) => None,
    }
}

/// Parses a text as JSON (`serde_json::from_str::<serde_json::Value>`), converted into the
/// library's model; a failure gives the parse error's message (its `Display` text).
#[verifier::external_body]
pub(crate) fn parse_json_text(text: &str) -> (res: Result<JsonValue, String>)
    ensures
        match res {
            Ok(v) => spec_parse_json(text@) == Ok::<JsonV, Seq<char>>(v@),
            Err(e) => spec_parse_json(text@) == Err::<JsonV, Seq<char>>(e@),
        },
{
    match serde_json::from_str::<serde_json::Value>(text) {
        Ok(v) => Ok(json_from_serde(&v)),
        Err(e) => Err(e.to_string()),
    }
}

/// Converts the library's JSON value into a `serde_json::Value` one for one: each variant to its
/// counterpart, a number read back from its JSON text (a text that is no JSON number becomes
/// `null`), object members inserted in order. Nothing is stated of it here; `json_to_string`
/// names the outcome of this conversion and the rendering together.
#[verifier::external_body]
fn serde_of_json(v: &JsonValue) -> serde_json::Value {
    match v {
        JsonValue::Null => serde_json::Value::Null,
        JsonValue::Bool(b) => serde_json::Value::Bool(*b),
        JsonValue::Number(n) => n.text.parse::<serde_json::Number>().map(serde_json::Value::Number).unwrap_or(serde_json::Value::Null),
        JsonValue::String(s) => serde_json::Value::String(s.clone()),
        JsonValue::Array(a) => serde_json::Value::Array(a.iter().map(serde_of_json).collect()),
        JsonValue::Object(m) => serde_json::Value::Object(m.iter().map(|(k, x)| (k.clone(), serde_of_json(x))).collect()),
    }
}

/// What `serde_json::Value`'s `Display` (compact JSON text) gives for a value.
pub uninterp spec fn spec_json_to_string(v: JsonV) -> Seq<char>;

/// The compact JSON text of a value (`Display` of `serde_json::Value`).
#[verifier::external_body]
pub(crate) fn json_to_string(v: &JsonValue) -> (res: String)
    ensures
        res@ == spec_json_to_string(v@),
{
    serde_of_json(v).to_string()
}

impl Clone for JsonNumber {
    fn clone(&self) -> (res: Self)
        ensures
            res@ == self@,
    {
        JsonNumber {
            as_i64: self.as_i64,
            as_u64: self.as_u64,
            f64_text: self.f64_text.clone(),
            text: self.text.clone(),
        }
    }
}

impl Clone for JsonValue {
    #[verifier::loop_isolation(false)]
    fn clone(&self) -> (res: Self)
        ensures
            res@ == self@,
        decreases self,
    {
        match self {
            JsonValue::Null => JsonValue::Null,
            JsonValue::Bool(b) => JsonValue::Bool(*b),
            JsonValue::Number(n) => JsonValue::Number(n.clone()),
            JsonValue::String(s) => JsonValue::String(s.clone()),
            JsonValue::Array(items) => {
                let mut out: Vec<JsonValue> = Vec::new();
                let mut i: usize = 0;
                while i < items.len()
                    invariant
                        i <= items.len(),
                        out.len() == i,
                        forall|k: int| 0 <= k < i ==> json_view(#[trigger] out@[k]) == json_view(items@[k]),
                    decreases items.len() - i,
                {
                    proof {
                        assert(decreases_to!(*self => *items));
                        assert(decreases_to!(*items => items@));
                        assert(decreases_to!(items@ => items@[i as int]));
                    }
                    let c = items[i].clone();
                    out.push(c);
                    i = i + 1;
                }
                proof {
                    assert(json_seq_view(out@) =~= json_seq_view(items@));
                }
                JsonValue::Array(out)
            },
            JsonValue::Object(members) => {
                let mut out: Vec<(String, JsonValue)> = Vec::new();
                let mut i: usize = 0;
                while i < members.len()
                    invariant
                        i <= members.len(),
                        out.len() == i,
                        forall|k: int|
                            0 <= k < i ==> (#[trigger] out@[k]).0@ == members@[k].0@ && json_view(out@[k].1)
                                == json_view(members@[k].1),
                    decreases members.len() - i,
                {
                    proof {
                        assert(decreases_to!(*self => *members));
                        assert(decreases_to!(*members => members@));
                        assert(decreases_to!(members@ => members@[i as int]));
                        assert(decreases_to!(members@[i as int] => members@[i as int].1));
                    }
                    let v = members[i].1.clone();
                    let k = members[i].0.clone();
                    out.push((k, v));
                    i = i + 1;
                }
                proof {
                    assert(json_members_view(out@) =~= json_members_view(members@));
                }
                JsonValue::Object(out)
            },
        }
    }
}

impl JsonValue {
    /// The member named `key` of an object; `None` for other values (`serde_json::Value::get`).
    pub fn get(&self, key: &str) -> (res: Option<&JsonValue>)
        ensures
            match res {
                Some(r) => jv_get(self@, key@) == Some(r@),
                None => jv_get(self@, key@) is None,
            },
    {
        match self {
            JsonValue::Object(members) => match obj_find(members, key) {
                Some(i) => Some(&members[i].1),
                None => None,
            },
            _ => None,
        }
    }

    /// The text of a JSON string; `None` for other values (`serde_json::Value::as_str`).
    pub fn as_str(&self) -> (res: Option<&str>)
        ensures
            match res {
                Some(s) => jv_as_str(self@) == Some(s@),
                None => jv_as_str(self@) is None,
            },
    {
        match self {
            JsonValue::String(s) => Some(s.as_str()),
            _ => None,
        }
    }

    /// The elements of a JSON array; `None` for other values (`serde_json::Value::as_array`).
    pub fn as_array(&self) -> (res: Option<&Vec<JsonValue>>)
        ensures
            match res {
                Some(a) => *self == JsonValue::Array(*a) && self@ == JsonV::Array(json_seq_view(a@)),
                None => !(self@ is Array),
            },
    {
        match self {
            JsonValue::Array(a) => Some(a),
            _ => None,
        }
    }

    /// The members of a JSON object; `None` for other values (`serde_json::Value::as_object`).
    pub fn as_object(&self) -> (res: Option<&Vec<(String, JsonValue)>>)
        ensures
            match res {
                Some(m) => *self == JsonValue::Object(*m) && self@ == JsonV::Object(json_members_view(m@)),
                None => !(self@ is Object),
            },
    {
        match self {
            JsonValue::Object(m) => Some(m),
            _ => None,
        }
    }

    /// The number as a `u32`, when it is a non-negative integer that fits.
    pub fn as_u32(&self) -> (res: Option<u32>)
        ensures
            res == jv_u32(self@),
    {
        match self {
            JsonValue::Number(n) => match n.as_u64 {
                Some(u) => if u <= 0xffff_ffffu64 {
                    Some(u as u32)
                } else {
                    None
                },
                None => None,
            },
            _ => None,
        }
    }

    pub fn is_null(&self) -> (res: bool)
        ensures
            res == (self@ == JsonV::Null),
    {
        matches!(self, JsonValue::Null)
    }

    pub fn is_array(&self) -> (res: bool)
        ensures
            res == (self@ is Array),
    {
        matches!(self, JsonValue::Array(_))
    }
}

/// The position of the member named `key`.
pub fn obj_find(members: &Vec<(String, JsonValue)>, key: &str) -> (res: Option<usize>)
    ensures
        match res {
            Some(i) => i < members@.len() && m_find(json_members_view(members@), key@) == i,
            None => m_find(json_members_view(members@), key@) == -1,
        },
{
    let ghost mv = json_members_view(members@);
    let ghost p = key_is(key@);
    let mut i: usize = 0;
    while i < members.len()
        invariant
            mv == json_members_view(members@),
            p == key_is(key@),
            i <= members.len(),
            forall|j: int| 0 <= j < i ==> !p(#[trigger] mv[j]),
        decreases members.len() - i,
    {
        if crate::text::str_eq(members[i].0.as_str(), key) {
            proof {
                lemma_first_match_at(mv, p, i as int);
            }
            return Some(i);
        }
        i = i + 1;
    }
    proof {
        lemma_first_match_none(mv, p);
    }
    None
}

/// Whether `a` orders before `b`.
pub fn str_lt(a: &str, b: &str) -> (res: bool)
    ensures
        res == seq_lt(a@, b@),
{
    let x = crate::text::str_chars(a);
    let y = crate::text::str_chars(b);
    proof {
        assert(x@.skip(0) == x@);
        assert(y@.skip(0) == y@);
    }
    let mut i: usize = 0;
    while i < x.len() && i < y.len() && x[i] == y[i]
        invariant
            i <= x.len(),
            i <= y.len(),
            seq_lt(a@, b@) == seq_lt(x@.skip(i as int), y@.skip(i as int)),
        decreases x.len() - i,
    {
        proof {
            assert(x@.skip(i as int).drop_first() == x@.skip(i + 1));
            assert(y@.skip(i as int).drop_first() == y@.skip(i + 1));
        }
        i = i + 1;
    }
    if i == x.len() {
        i < y.len()
    } else if i == y.len() {
        false
    } else {
        x[i] < y[i]
    }
}

/// Removes the member named `key`, returning its value.
pub fn obj_remove(members: &mut Vec<(String, JsonValue)>, key: &str) -> (res: Option<JsonValue>)
    ensures
        json_members_view(final(members)@) == m_remove(json_members_view(old(members)@), key@),
        match res {
            Some(v) => m_get(json_members_view(old(members)@), key@) == Some(v@),
            None => m_get(json_members_view(old(members)@), key@) is None,
        },
{
    match obj_find(members, key) {
        None => None,
        Some(i) => {
            let ghost before = members@;
            let (_, v) = members.remove(i);
            proof {
                assert(json_members_view(members@) =~= json_members_view(before).remove(i as int));
            }
            Some(v)
        },
    }
}

/// Sets the member named `key` to `v`: in place when present, else in key order.
pub fn obj_insert(members: &mut Vec<(String, JsonValue)>, key: String, v: JsonValue)
    ensures
        json_members_view(final(members)@) == m_insert(json_members_view(old(members)@), key@, v@),
{
    let ghost mv = json_members_view(members@);
    match obj_find(members, key.as_str()) {
        Some(i) => {
            let ghost before = members@;
            members.remove(i);
            members.insert(i, (key, v));
            proof {
                assert(json_members_view(members@) =~= mv.update(i as int, (key@, v@)));
            }
        },
        None => {
            let ghost p = key_after(key@);
            let mut i: usize = 0;
            while i < members.len() && !str_lt(key.as_str(), members[i].0.as_str())
                invariant
                    mv == json_members_view(members@),
                    p == key_after(key@),
                    i <= members.len(),
                    forall|j: int| 0 <= j < i ==> !p(#[trigger] mv[j]),
                decreases members.len() - i,
            {
                i = i + 1;
            }
            proof {
                if i < members.len() {
                    lemma_first_match_at(mv, p, i as int);
                } else {
                    lemma_first_match_none(mv, p);
                }
            }
            let ghost before = members@;
            members.insert(i, (key, v));
            proof {
                assert(json_members_view(members@) =~= mv.insert(i as int, (key@, v@)));
            }
        },
    }
}

/// The index of `s` in `names`, or -1.
pub fn str_index(names: &[&str], s: &str) -> (res: Option<usize>)
    ensures
        match res {
            Some(i) => strs_view(names@).index_of_first(s@) == Some(i as int),
            None => strs_view(names@).index_of_first(s@) is None,
        },
{
    let ghost nv = strs_view(names@);
    let mut i: usize = 0;
    while i < names.len()
        invariant
            nv == strs_view(names@),
            i <= names@.len(),
            forall|j: int| 0 <= j < i ==> nv[j] != s@,
        decreases names@.len() - i,
    {
        if crate::text::str_eq(names[i], s) {
            proof {
                nv.index_of_first_ensures(s@);
                let r = nv.index_of_first(s@);
                assert(nv[i as int] == s@);
                if r is None {
                    assert(nv.contains(s@));
                }
            }
            return Some(i);
        }
        i = i + 1;
    }
    proof {
        nv.index_of_first_ensures(s@);
        if nv.index_of_first(s@) is Some {
            let r = nv.index_of_first(s@)->0;
            assert(nv[r] == s@);
        }
    }
    None
}

/// The variant index a unit enum variant is read as (see [`unit_variant`]).
pub fn read_unit_variant(v: &JsonValue, names: &[&str]) -> (res: Option<usize>)
    ensures
        match res {
            Some(k) => unit_variant(v@, strs_view(names@)) == k as int,
            None => unit_variant(v@, strs_view(names@)) == -1,
        },
{
    match v {
        JsonValue::String(s) => {
            proof {
                strs_view(names@).index_of_first_ensures(s@);
                assert(v@ == JsonV::String(s@));
                assert(strs_view(names@).len() == names@.len());
            }
            str_index(names, s.as_str())
        },
        JsonValue::Object(m) => {
            if m.len() == 1 && m[0].1.is_null() {
                proof {
                    assert(json_members_view(m@)[0] == (m@[0].0@, json_view(m@[0].1)));
                    strs_view(names@).index_of_first_ensures(m@[0].0@);
                    assert(strs_view(names@).len() == names@.len());
                }
                str_index(names, m[0].0.as_str())
            } else {
                proof {
                    if m@.len() == 1 {
                        assert(json_members_view(m@)[0] == (m@[0].0@, json_view(m@[0].1)));
                    }
                }
                None
            }
        },
        _ => None,
    }
}

/// The index of the first member whose key is not one of `allowed`, if any.
pub fn first_unknown_key(members: &Vec<(String, JsonValue)>, allowed: &[&str]) -> (res: Option<usize>)
    ensures
        match res {
            Some(i) => i < members.len() && !strs_view(allowed@).contains(members@[i as int].0@)
                && !keys_within(json_members_view(members@), strs_view(allowed@)),
            None => keys_within(json_members_view(members@), strs_view(allowed@)),
        },
{
    let ghost av = strs_view(allowed@);
    let mut i: usize = 0;
    while i < members.len()
        invariant
            av == strs_view(allowed@),
            i <= members.len(),
            forall|j: int| 0 <= j < i ==> av.contains(#[trigger] members@[j].0@),
        decreases members.len() - i,
    {
        let k = str_index(allowed, members[i].0.as_str());
        proof {
            av.index_of_first_ensures(members@[i as int].0@);
        }
        if k.is_none() {
            proof {
                let mv = json_members_view(members@);
                assert(mv[i as int].0 == members@[i as int].0@);
                if av.contains(members@[i as int].0@) {
                    let w = choose|w: int| 0 <= w < av.len() && av[w] == members@[i as int].0@;
                    assert(av.index_of_first(members@[i as int].0@) is Some);
                }
            }
            return Some(i);
        }
        i = i + 1;
    }
    proof {
        let mv = json_members_view(members@);
        assert forall|j: int| 0 <= j < mv.len() implies av.contains(#[trigger] mv[j].0) by {
            assert(mv[j].0 == members@[j].0@);
        }
    }
    None
}

} // verus!
