//! JSON values as the library reads and writes them. Parsing and printing
//! are done at the edges; here a value is a tree of plain data with a
//! mathematical view, and lookups behave as `serde_json::Value`'s do.
use vstd::prelude::*;

use crate::provider::copy_string;
use crate::text::{chars_of, str_eq, string_of};

verus! {

/// A JSON value. Objects list their members in order; a key is meant to
/// occur once (`has_unique_keys`), as in every object parsed from text, and
/// where it occurs more than once it reads as its first member. Numbers are non-negative integers, negative integers, or other numbers
/// kept as the text that denotes them.
pub enum Json {
    Null,
    Bool(bool),
    UInt(u64),
    NegInt(i64),
    Float(String),
    Str(String),
    Array(Vec<Json>),
    Object(Vec<(String, Json)>),
}

/// The mathematical view of a JSON value.
pub enum JsonV {
    Null,
    Bool(bool),
    UInt(u64),
    NegInt(i64),
    Float(Seq<char>),
    Str(Seq<char>),
    Array(Seq<JsonV>),
    Object(Seq<(Seq<char>, JsonV)>),
}

/// The view of a JSON value.
pub open spec fn json_view(j: Json) -> JsonV
    decreases j,
{
    match j {
        Json::Null => JsonV::Null,
        Json::Bool(b) => JsonV::Bool(b),
        Json::UInt(u) => JsonV::UInt(u),
        Json::NegInt(i) => JsonV::NegInt(i),
        Json::Float(s) => JsonV::Float(s@),
        Json::Str(s) => JsonV::Str(s@),
        Json::Array(v) => JsonV::Array(
            Seq::new(
                v@.len(),
                |i: int|
                    if 0 <= i < v@.len() {
                        json_view(v@[i])
                    } else {
                        JsonV::Null
                    },
            ),
        ),
        Json::Object(v) => JsonV::Object(
            Seq::new(
                v@.len(),
                |i: int|
                    if 0 <= i < v@.len() {
                        (v@[i].0@, json_view(v@[i].1))
                    } else {
                        (Seq::empty(), JsonV::Null)
                    },
            ),
        ),
    }
}

impl View for Json {
    type V = JsonV;

    open spec fn view(&self) -> JsonV {
        json_view(*self)
    }
}

/// The views of a list of values.
pub open spec fn items_view(v: Seq<Json>) -> Seq<JsonV> {
    Seq::new(v.len(), |i: int| v[i]@)
}

/// The views of a list of members.
pub open spec fn members_view(v: Seq<(String, Json)>) -> Seq<(Seq<char>, JsonV)> {
    Seq::new(v.len(), |i: int| (v[i].0@, v[i].1@))
}

pub proof fn lemma_array_view(v: Vec<Json>)
    ensures
        Json::Array(v)@ == JsonV::Array(items_view(v@)),
{
    let j = Json::Array(v);
    match j@ {
        JsonV::Array(s) => {
            assert(s =~= items_view(v@));
        },
        _ => {},
    }
}

pub proof fn lemma_object_view(v: Vec<(String, Json)>)
    ensures
        Json::Object(v)@ == JsonV::Object(members_view(v@)),
{
    let j = Json::Object(v);
    match j@ {
        JsonV::Object(s) => {
            assert(s =~= members_view(v@));
        },
        _ => {},
    }
}

/// Index of the first member named `key`, or the number of members.
pub open spec fn find_key(m: Seq<(Seq<char>, JsonV)>, key: Seq<char>) -> int
    decreases m.len(),
{
    if m.len() == 0 {
        0
    } else if m[0].0 == key {
        0
    } else {
        1 + find_key(m.drop_first(), key)
    }
}

pub proof fn lemma_find_key(m: Seq<(Seq<char>, JsonV)>, key: Seq<char>)
    ensures
        0 <= find_key(m, key) <= m.len(),
        forall|j: int| 0 <= j < find_key(m, key) ==> m[j].0 != key,
        find_key(m, key) < m.len() ==> m[find_key(m, key)].0 == key,
    decreases m.len(),
{
    if m.len() > 0 && m[0].0 != key {
        lemma_find_key(m.drop_first(), key);
        assert forall|j: int| 0 <= j < find_key(m, key) implies m[j].0 != key by {
            if j > 0 {
                assert(m[j] == m.drop_first()[j - 1]);
            }
        }
    }
}

/// `value.get(key)`: the member of an object, if present.
pub open spec fn jget(v: JsonV, key: Seq<char>) -> Option<JsonV> {
    match v {
        JsonV::Object(m) => {
            let i = find_key(m, key);
            if 0 <= i < m.len() {
                Some(m[i].1)
            } else {
                None
            }
        },
        _ => None,
    }
}

/// `value.get(key).and_then(Value::as_str)`.
pub open spec fn jget_str(v: JsonV, key: Seq<char>) -> Option<Seq<char>> {
    match jget(v, key) {
        Some(JsonV::Str(s)) => Some(s),
        _ => None,
    }
}

/// `value.get(key).and_then(Value::as_array)`.
pub open spec fn jget_array(v: JsonV, key: Seq<char>) -> Option<Seq<JsonV>> {
    match jget(v, key) {
        Some(JsonV::Array(a)) => Some(a),
        _ => None,
    }
}

/// `value.as_u64()`.
pub open spec fn jas_u64(v: JsonV) -> Option<u64> {
    match v {
        JsonV::UInt(u) => Some(u),
        _ => None,
    }
}

/// `value.get(key).and_then(Value::as_u64)`.
pub open spec fn jget_u64(v: JsonV, key: Seq<char>) -> Option<u64> {
    match jget(v, key) {
        Some(x) => jas_u64(x),
        None => None,
    }
}

/// `value[key] = new`: on an object the member is replaced or appended; a
/// null becomes an object holding just that member.
pub open spec fn jset(v: JsonV, key: Seq<char>, new: JsonV) -> JsonV {
    match v {
        JsonV::Object(m) => {
            let i = find_key(m, key);
            if 0 <= i < m.len() {
                JsonV::Object(m.update(i, (key, new)))
            } else {
                JsonV::Object(m.push((key, new)))
            }
        },
        _ => JsonV::Object(seq![(key, new)]),
    }
}

/// Whether `value[key] = ...` may be written (serde_json panics otherwise).
pub open spec fn settable(v: JsonV) -> bool {
    v is Object || v is Null
}

impl Json {
    /// `value.get(key)`.
    pub fn get(&self, key: &str) -> (r: Option<&Json>)
        ensures
            match r {
                Some(x) => jget(self@, key@) == Some(x@),
                None => jget(self@, key@) is None,
            },
    {
        match self {
            Json::Object(m) => {
                proof {
                    lemma_object_view(*m);
                    lemma_find_key(members_view(m@), key@);
                }
                let ghost mv = members_view(m@);
                let mut i: usize = 0;
                while i < m.len()
                    invariant
                        i <= m.len(),
                        mv == members_view(m@),
                        self@ == JsonV::Object(mv),
                        forall|j: int| 0 <= j < i ==> mv[j].0 != key@,
                        0 <= find_key(mv, key@) <= mv.len(),
                        forall|j: int| 0 <= j < find_key(mv, key@) ==> mv[j].0 != key@,
                        find_key(mv, key@) < mv.len() ==> mv[find_key(mv, key@)].0 == key@,
                    decreases m.len() - i,
                {
                    if str_eq(m[i].0.as_str(), key) {
                        assert(mv[i as int].0 == key@);
                        assert(find_key(mv, key@) == i);
                        return Some(&m[i].1);
                    }
                    i = i + 1;
                }
                None
            },
            _ => None,
        }
    }

    /// `value.as_str()`.
    pub fn as_str(&self) -> (r: Option<&String>)
        ensures
            match r {
                Some(s) => self@ == JsonV::Str(s@),
                None => !(self@ is Str),
            },
    {
        match self {
            Json::Str(s) => Some(s),
            _ => None,
        }
    }

    /// `value.as_array()`.
    pub fn as_array(&self) -> (r: Option<&Vec<Json>>)
        ensures
            match r {
                Some(a) => self@ == JsonV::Array(items_view(a@)),
                None => !(self@ is Array),
            },
    {
        match self {
            Json::Array(a) => {
                proof {
                    lemma_array_view(*a);
                }
                Some(a)
            },
            _ => None,
        }
    }

    /// `value.as_u64()`.
    pub fn as_u64(&self) -> (r: Option<u64>)
        ensures
            r == jas_u64(self@),
    {
        match self {
            Json::UInt(u) => Some(*u),
            _ => None,
        }
    }

    /// A copy of the value.
    #[verifier::loop_isolation(false)]
    pub fn deep_clone(&self) -> (r: Json)
        ensures
            r@ == self@,
        decreases self,
    {
        match self {
            Json::Null => Json::Null,
            Json::Bool(b) => Json::Bool(*b),
            Json::UInt(u) => Json::UInt(*u),
            Json::NegInt(i) => Json::NegInt(*i),
            Json::Float(s) => Json::Float(copy_string(s)),
            Json::Str(s) => Json::Str(copy_string(s)),
            Json::Array(a) => {
                let mut out: Vec<Json> = Vec::new();
                let mut i: usize = 0;
                while i < a.len()
                    invariant
                        i <= a.len(),
                        *self == Json::Array(*a),
                        out@.len() == i,
                        forall|j: int| 0 <= j < i ==> (#[trigger] out@[j])@ == a@[j]@,
                    decreases a.len() - i,
                {
                    let c = a[i].deep_clone();
                    out.push(c);
                    i = i + 1;
                }
                proof {
                    lemma_array_view(*a);
                    lemma_array_view(out);
                    assert(items_view(out@) =~= items_view(a@));
                }
                Json::Array(out)
            },
            Json::Object(m) => {
                let mut out: Vec<(String, Json)> = Vec::new();
                let mut i: usize = 0;
                while i < m.len()
                    invariant
                        i <= m.len(),
                        *self == Json::Object(*m),
                        out@.len() == i,
                        forall|j: int|
                            0 <= j < i ==> (#[trigger] out@[j]).0@ == m@[j].0@ && out@[j].1@ == m@[j].1@,
                    decreases m.len() - i,
                {
                    let c = m[i].1.deep_clone();
                    let k = copy_string(&m[i].0);
                    out.push((k, c));
                    i = i + 1;
                }
                proof {
                    lemma_object_view(*m);
                    lemma_object_view(out);
                    assert(members_view(out@) =~= members_view(m@));
                }
                Json::Object(out)
            },
        }
    }

    /// `value[key] = new`.
    pub fn set(&mut self, key: &str, new: Json)
        requires
            settable(old(self)@),
        ensures
            final(self)@ == jset(old(self)@, key@, new@),
    {
        let ghost newv = new@;
        let mut taken = Json::Null;
        core::mem::swap(&mut taken, self);
        let k = string_of(&chars_of(key));
        match taken {
            Json::Object(mut m) => {
                proof {
                    lemma_object_view(m);
                    lemma_find_key(members_view(m@), key@);
                }
                let ghost mv = members_view(m@);
                let mut i: usize = 0;
                while i < m.len()
                    invariant
                        i <= m.len(),
                        mv == members_view(m@),
                        forall|j: int| 0 <= j < i ==> mv[j].0 != key@,
                        0 <= find_key(mv, key@) <= mv.len(),
                        forall|j: int| 0 <= j < find_key(mv, key@) ==> mv[j].0 != key@,
                        find_key(mv, key@) < mv.len() ==> mv[find_key(mv, key@)].0 == key@,
                    ensures
                        i <= m.len(),
                        i < m.len() ==> mv[i as int].0 == key@,
                        forall|j: int| 0 <= j < i ==> mv[j].0 != key@,
                    decreases m.len() - i,
                {
                    if str_eq(m[i].0.as_str(), key) {
                        assert(mv[i as int].0 == key@);
                        break;
                    }
                    i = i + 1;
                }
                if i < m.len() {
                    assert(find_key(mv, key@) == i);
                    m.set(i, (k, new));
                    proof {
                        lemma_object_view(m);
                        assert(members_view(m@) =~= mv.update(i as int, (key@, newv)));
                    }
                } else {
                    m.push((k, new));
                    proof {
                        lemma_object_view(m);
                        assert(members_view(m@) =~= mv.push((key@, newv)));
                    }
                }
                *self = Json::Object(m);
            },
            _ => {
                let mut m: Vec<(String, Json)> = Vec::new();
                m.push((k, new));
                proof {
                    lemma_object_view(m);
                    assert(members_view(m@) =~= seq![(key@, newv)]);
                }
                *self = Json::Object(m);
            },
        }
    }

    /// A string value.
    pub fn string(s: &str) -> (r: Json)
        ensures
            r@ == JsonV::Str(s@),
    {
        Json::Str(string_of(&chars_of(s)))
    }
}

/// An object member.
pub fn member(key: &str, value: Json) -> (r: (String, Json))
    ensures
        r.0@ == key@,
        r.1 == value,
{
    (string_of(&chars_of(key)), value)
}

pub fn obj(m: Vec<(String, Json)>) -> (r: Json)
    ensures
        r@ == JsonV::Object(members_view(m@)),
{
    proof {
        lemma_object_view(m);
    }
    Json::Object(m)
}


pub fn obj1(k1: &str, v1: Json) -> (r: Json)
    ensures
        r@ == JsonV::Object(seq![(k1@, v1@)]),
{
    let ghost w1 = v1@;
    let mut m: Vec<(String, Json)> = Vec::new();
    m.push(member(k1, v1));
    proof {
        lemma_object_view(m);
        assert(members_view(m@) =~= seq![(k1@, w1)]);
    }
    Json::Object(m)
}

pub fn obj2(k1: &str, v1: Json, k2: &str, v2: Json) -> (r: Json)
    ensures
        r@ == JsonV::Object(seq![(k1@, v1@), (k2@, v2@)]),
{
    let ghost w1 = v1@;
    let ghost w2 = v2@;
    let mut m: Vec<(String, Json)> = Vec::new();
    m.push(member(k1, v1));
    m.push(member(k2, v2));
    proof {
        lemma_object_view(m);
        assert(members_view(m@) =~= seq![(k1@, w1), (k2@, w2)]);
    }
    Json::Object(m)
}

pub fn obj3(k1: &str, v1: Json, k2: &str, v2: Json, k3: &str, v3: Json) -> (r: Json)
    ensures
        r@ == JsonV::Object(seq![(k1@, v1@), (k2@, v2@), (k3@, v3@)]),
{
    let ghost w1 = v1@;
    let ghost w2 = v2@;
    let ghost w3 = v3@;
    let mut m: Vec<(String, Json)> = Vec::new();
    m.push(member(k1, v1));
    m.push(member(k2, v2));
    m.push(member(k3, v3));
    proof {
        lemma_object_view(m);
        assert(members_view(m@) =~= seq![(k1@, w1), (k2@, w2), (k3@, w3)]);
    }
    Json::Object(m)
}

pub fn obj4(k1: &str, v1: Json, k2: &str, v2: Json, k3: &str, v3: Json, k4: &str, v4: Json) -> (r: Json)
    ensures
        r@ == JsonV::Object(seq![(k1@, v1@), (k2@, v2@), (k3@, v3@), (k4@, v4@)]),
{
    let ghost w1 = v1@;
    let ghost w2 = v2@;
    let ghost w3 = v3@;
    let ghost w4 = v4@;
    let mut m: Vec<(String, Json)> = Vec::new();
    m.push(member(k1, v1));
    m.push(member(k2, v2));
    m.push(member(k3, v3));
    m.push(member(k4, v4));
    proof {
        lemma_object_view(m);
        assert(members_view(m@) =~= seq![(k1@, w1), (k2@, w2), (k3@, w3), (k4@, w4)]);
    }
    Json::Object(m)
}

pub fn obj5(k1: &str, v1: Json, k2: &str, v2: Json, k3: &str, v3: Json, k4: &str, v4: Json, k5: &str, v5: Json) -> (r:
    Json)
    ensures
        r@ == JsonV::Object(seq![(k1@, v1@), (k2@, v2@), (k3@, v3@), (k4@, v4@), (k5@, v5@)]),
{
    let ghost w1 = v1@;
    let ghost w2 = v2@;
    let ghost w3 = v3@;
    let ghost w4 = v4@;
    let ghost w5 = v5@;
    let mut m: Vec<(String, Json)> = Vec::new();
    m.push(member(k1, v1));
    m.push(member(k2, v2));
    m.push(member(k3, v3));
    m.push(member(k4, v4));
    m.push(member(k5, v5));
    proof {
        lemma_object_view(m);
        assert(members_view(m@) =~= seq![(k1@, w1), (k2@, w2), (k3@, w3), (k4@, w4), (k5@, w5)]);
    }
    Json::Object(m)
}

pub fn obj6(
    k1: &str,
    v1: Json,
    k2: &str,
    v2: Json,
    k3: &str,
    v3: Json,
    k4: &str,
    v4: Json,
    k5: &str,
    v5: Json,
    k6: &str,
    v6: Json,
) -> (r: Json)
    ensures
        r@ == JsonV::Object(seq![(k1@, v1@), (k2@, v2@), (k3@, v3@), (k4@, v4@), (k5@, v5@), (k6@, v6@)]),
{
    let ghost w1 = v1@;
    let ghost w2 = v2@;
    let ghost w3 = v3@;
    let ghost w4 = v4@;
    let ghost w5 = v5@;
    let ghost w6 = v6@;
    let mut m: Vec<(String, Json)> = Vec::new();
    m.push(member(k1, v1));
    m.push(member(k2, v2));
    m.push(member(k3, v3));
    m.push(member(k4, v4));
    m.push(member(k5, v5));
    m.push(member(k6, v6));
    proof {
        lemma_object_view(m);
        assert(members_view(m@) =~= seq![(k1@, w1), (k2@, w2), (k3@, w3), (k4@, w4), (k5@, w5), (k6@, w6)]);
    }
    Json::Object(m)
}

pub fn arr1(v1: Json) -> (r: Json)
    ensures
        r@ == JsonV::Array(seq![v1@]),
{
    let ghost w1 = v1@;
    let mut v: Vec<Json> = Vec::new();
    v.push(v1);
    proof {
        lemma_array_view(v);
        assert(items_view(v@) =~= seq![w1]);
    }
    Json::Array(v)
}

pub fn arr(v: Vec<Json>) -> (r: Json)
    ensures
        r@ == JsonV::Array(items_view(v@)),
{
    proof {
        lemma_array_view(v);
    }
    Json::Array(v)
}


// ---------------------------------------------------------------------------
// Reading back what was written
// ---------------------------------------------------------------------------

proof fn lemma_find_key_update(m: Seq<(Seq<char>, JsonV)>, i: int, key: Seq<char>, x: JsonV, other: Seq<char>)
    requires
        0 <= i < m.len(),
        m[i].0 == key,
        key != other,
    ensures
        find_key(m.update(i, (key, x)), other) == find_key(m, other),
    decreases m.len(),
{
    let u = m.update(i, (key, x));
    if m.len() > 0 && m[0].0 != other {
        if i > 0 {
            assert(u.drop_first() =~= m.drop_first().update(i - 1, (key, x)));
            lemma_find_key_update(m.drop_first(), i - 1, key, x, other);
        } else {
            assert(u.drop_first() =~= m.drop_first());
        }
    }
}

proof fn lemma_find_key_push(m: Seq<(Seq<char>, JsonV)>, key: Seq<char>, x: JsonV, other: Seq<char>)
    requires
        key != other,
    ensures
        find_key(m.push((key, x)), other) == (if find_key(m, other) < m.len() {
            find_key(m, other)
        } else {
            m.len() + 1int
        }),
    decreases m.len(),
{
    let p = m.push((key, x));
    if m.len() == 0 {
        assert(p.drop_first() =~= Seq::<(Seq<char>, JsonV)>::empty());
        assert(find_key(p.drop_first(), other) == 0);
        assert(p[0].0 == key);
    } else if m[0].0 == other {
        assert(p[0] == m[0]);
    } else {
        assert(p[0] == m[0]);
        assert(find_key(p, other) == 1 + find_key(p.drop_first(), other));
        assert(find_key(m, other) == 1 + find_key(m.drop_first(), other));
        assert(p.drop_first() =~= m.drop_first().push((key, x)));
        lemma_find_key_push(m.drop_first(), key, x, other);
        lemma_find_key(m, other);
        lemma_find_key(m.drop_first(), other);
    }
}

proof fn lemma_find_key_update_same(m: Seq<(Seq<char>, JsonV)>, key: Seq<char>, x: JsonV)
    requires
        0 <= find_key(m, key) < m.len(),
    ensures
        find_key(m.update(find_key(m, key), (key, x)), key) == find_key(m, key),
    decreases m.len(),
{
    let i = find_key(m, key);
    let u = m.update(i, (key, x));
    if m[0].0 != key {
        assert(i == 1 + find_key(m.drop_first(), key));
        lemma_find_key(m.drop_first(), key);
        assert(u.drop_first() =~= m.drop_first().update(i - 1, (key, x)));
        lemma_find_key_update_same(m.drop_first(), key, x);
    }
}

proof fn lemma_find_key_push_same(m: Seq<(Seq<char>, JsonV)>, key: Seq<char>, x: JsonV)
    requires
        find_key(m, key) >= m.len(),
    ensures
        find_key(m.push((key, x)), key) == m.len(),
    decreases m.len(),
{
    let p = m.push((key, x));
    if m.len() > 0 {
        assert(p.drop_first() =~= m.drop_first().push((key, x)));
        lemma_find_key(m, key);
        lemma_find_key_push_same(m.drop_first(), key, x);
    }
}

/// Writing a member and reading it back gives what was written; the other
/// members of an object read as before.
pub proof fn jset_then_jget(v: JsonV, key: Seq<char>, x: JsonV, other: Seq<char>)
    ensures
        jget(jset(v, key, x), key) == Some(x),
        v is Object && other != key ==> jget(jset(v, key, x), other) == jget(v, other),
{
    lemma_find_key_push_same(Seq::empty(), key, x);
    assert(seq![(key, x)] =~= Seq::<(Seq<char>, JsonV)>::empty().push((key, x)));
    if let JsonV::Object(m) = v {
        lemma_find_key(m, key);
        lemma_find_key(m, other);
        let i = find_key(m, key);
        if 0 <= i < m.len() {
            lemma_find_key_update_same(m, key, x);
            if other != key {
                lemma_find_key_update(m, i, key, x, other);
            }
        } else {
            lemma_find_key_push_same(m, key, x);
            if other != key {
                lemma_find_key_push(m, key, x, other);
            }
        }
    }
}

/// An object whose members all have different keys (anything else has no
/// members to tell apart).
pub open spec fn has_unique_keys(v: JsonV) -> bool {
    match v {
        JsonV::Object(m) => forall|i: int, j: int| 0 <= i < j < m.len() ==> #[trigger] m[i].0 != #[trigger] m[j].0,
        _ => true,
    }
}

/// In an object with unique keys, a key reads as the one member that has
/// it, wherever it stands; and writing a member keeps the keys unique.
pub proof fn unique_keys_read_and_stay(v: JsonV, key: Seq<char>, x: JsonV, i: int)
    requires
        has_unique_keys(v),
    ensures
        has_unique_keys(jset(v, key, x)),
        (match v {
            JsonV::Object(m) => 0 <= i < m.len() && m[i].0 == key ==> jget(v, key) == Some(m[i].1),
            _ => true,
        }),
{
    if let JsonV::Object(m) = v {
        lemma_find_key(m, key);
        let k = find_key(m, key);
        if 0 <= i < m.len() && m[i].0 == key {
            if k != i {
                if k < i {
                    assert(m[k].0 == key);
                } else {
                    assert(m[i].0 != key);
                }
            }
        }
        if 0 <= k < m.len() {
            let u = m.update(k, (key, x));
            assert forall|a: int, b: int| 0 <= a < b < u.len() implies #[trigger] u[a].0 != #[trigger] u[b].0 by {
                assert(u[a].0 == m[a].0 && u[b].0 == m[b].0);
            }
        } else {
            let u = m.push((key, x));
            assert forall|a: int, b: int| 0 <= a < b < u.len() implies #[trigger] u[a].0 != #[trigger] u[b].0 by {
                if b < m.len() {
                    assert(u[a] == m[a] && u[b] == m[b]);
                } else {
                    assert(u[a] == m[a]);
                }
            }
        }
    }
}

} // verus!
