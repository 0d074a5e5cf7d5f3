//! An owned JSON tree, with the lookups the import, config and query
//! logic perform on it, and the `serde_json` parser that produces it.
use vstd::prelude::*;
use crate::text::{decimal, push_char, push_decimal, str_eq, u64_to_string};

verus! {

/// A JSON number, kept the way `serde_json` keeps it.
#[derive(Debug)]
pub enum JsonNumber {
    /// A non-negative integer.
    PosInt(u64),
    /// A negative integer.
    NegInt(i64),
    /// A number written with a fraction or an exponent: its canonical text,
    /// and the IEEE-754 binary64 bit pattern of its value.
    Float { text: String, bits: u64 },
}

/// A JSON value. An object is a list of members: as `serde_json` reads it
/// (without its `preserve_order` feature), the keys are distinct and in
/// sorted order; lookups find the first member with the key.
#[derive(Debug)]
pub enum JsonValue {
    Null,
    Bool(bool),
    Number(JsonNumber),
    Str(String),
    Array(Vec<JsonValue>),
    Object(Vec<(String, JsonValue)>),
}

#[verifier::external_type_specification]
#[verifier::external_body]
pub struct ExSerdeJsonValue(serde_json::Value);

#[verifier::external_type_specification]
#[verifier::external_body]
pub struct ExSerdeJsonNumber(serde_json::Number);

/// What `serde_json::from_str::<serde_json::Value>` makes of a text: the
/// tree it reads, or the message of its error.
pub uninterp spec fn serde_json_from_str(text: Seq<char>) -> Result<JsonModel, Seq<char>>;

/// Parses JSON text with `serde_json`.
///
/// Trusted: the result is `serde_json::from_str` on `text`, its tree carried
/// over member by member and its error by its message.
#[verifier::external_body]
pub(crate) fn parse_json(text: &str) -> (r: Result<JsonValue, String>)
    ensures
        match r {
            Ok(v) => serde_json_from_str(text@) == Ok::<JsonModel, Seq<char>>(v@),
            Err(m) => serde_json_from_str(text@) == Err::<JsonModel, Seq<char>>(m@),
        },
{
    match serde_json::from_str::<serde_json::Value>(text) {
        Ok(v) => Ok(from_serde(v)),
        Err(e) => Err(e.to_string()),
    }
}

/// Carries a `serde_json::Value` over into a `JsonValue`, one variant to the
/// same variant; used by `parse_json` only.
#[verifier::external_body]
fn from_serde(v: serde_json::Value) -> JsonValue {
    match v {
        serde_json::Value::Null => JsonValue::Null,
        serde_json::Value::Bool(b) => JsonValue::Bool(b),
        serde_json::Value::Number(n) => JsonValue::Number(from_serde_number(n)),
        serde_json::Value::String(s) => JsonValue::Str(s),
        serde_json::Value::Array(a) => JsonValue::Array(a.into_iter().map(from_serde).collect()),
        serde_json::Value::Object(m) => JsonValue::Object(m.into_iter().map(|(k, v)| (k, from_serde(v))).collect()),
    }
}

/// Carries a `serde_json::Number` over into a `JsonNumber`: an integer as
/// its value, any other number as its text and `f64` bits; used by
/// `from_serde` only.
#[verifier::external_body]
fn from_serde_number(n: serde_json::Number) -> JsonNumber {
    match (n.as_u64(), n.as_i64()) {
        (Some(u), _) => JsonNumber::PosInt(u),
        (None, Some(i)) => JsonNumber::NegInt(i),
        (None, None) => JsonNumber::Float { text: n.to_string(), bits: n.as_f64().map_or(0, |x| x.to_bits()) },
    }
}

/// The mathematical content of a JSON number.
pub enum NumberModel {
    PosInt(u64),
    NegInt(i64),
    Float(Seq<char>, u64),
}

/// The mathematical content of a JSON value: strings as character
/// sequences, arrays as sequences, objects as member sequences.
pub enum JsonModel {
    Null,
    Bool(bool),
    Number(NumberModel),
    Str(Seq<char>),
    Array(Seq<JsonModel>),
    Object(Seq<(Seq<char>, JsonModel)>),
}

impl View for JsonNumber {
    type V = NumberModel;

    open spec fn view(&self) -> NumberModel {
        match *self {
            JsonNumber::PosInt(u) => NumberModel::PosInt(u),
            JsonNumber::NegInt(i) => NumberModel::NegInt(i),
            JsonNumber::Float { text, bits } => NumberModel::Float(text@, bits),
        }
    }
}

pub open spec fn json_model(v: JsonValue) -> JsonModel
    decreases v,
{
    match v {
        JsonValue::Null => JsonModel::Null,
        JsonValue::Bool(b) => JsonModel::Bool(b),
        JsonValue::Number(n) => JsonModel::Number(n@),
        JsonValue::Str(s) => JsonModel::Str(s@),
        JsonValue::Array(a) => JsonModel::Array(
            Seq::new(a@.len(), |i: int| if 0 <= i < a@.len() { json_model(a@[i]) } else { JsonModel::Null }),
        ),
        JsonValue::Object(e) => JsonModel::Object(
            Seq::new(e@.len(), |i: int| if 0 <= i < e@.len() { (e@[i].0@, json_model(e@[i].1)) } else { (Seq::empty(), JsonModel::Null) }),
        ),
    }
}

impl View for JsonValue {
    type V = JsonModel;

    open spec fn view(&self) -> JsonModel {
        json_model(*self)
    }
}

/// The model of a member list.
pub open spec fn members_model(e: Seq<(String, JsonValue)>) -> Seq<(Seq<char>, JsonModel)> {
    Seq::new(e.len(), |i: int| (e[i].0@, e[i].1@))
}

/// The model of an array's items.
pub open spec fn items_model(a: Seq<JsonValue>) -> Seq<JsonModel> {
    Seq::new(a.len(), |i: int| a[i]@)
}

pub proof fn lemma_model_of_object(e: Vec<(String, JsonValue)>)
    ensures
        JsonValue::Object(e)@ == JsonModel::Object(members_model(e@)),
{
    assert(JsonValue::Object(e)@->Object_0 =~= members_model(e@));
}

pub proof fn lemma_model_of_array(a: Vec<JsonValue>)
    ensures
        JsonValue::Array(a)@ == JsonModel::Array(items_model(a@)),
{
    assert(JsonValue::Array(a)@->Array_0 =~= items_model(a@));
}

/// `i` is the first position of a member named `k`.
pub open spec fn first_key_at(e: Seq<(Seq<char>, JsonModel)>, k: Seq<char>, i: int) -> bool {
    &&& 0 <= i < e.len()
    &&& e[i].0 == k
    &&& forall|j: int| 0 <= j < i ==> e[j].0 != k
}

/// Position of the first member named `k`.
pub open spec fn key_index(e: Seq<(Seq<char>, JsonModel)>, k: Seq<char>) -> Option<int> {
    if exists|i: int| 0 <= i < e.len() && e[i].0 == k {
        Some(choose|i: int| first_key_at(e, k, i))
    } else {
        None
    }
}

pub proof fn lemma_key_index(e: Seq<(Seq<char>, JsonModel)>, k: Seq<char>, i: int)
    requires
        first_key_at(e, k, i),
    ensures
        key_index(e, k) == Some(i),
{
    let w = choose|w: int| first_key_at(e, k, w);
    assert(first_key_at(e, k, w));
    if w < i {
        assert(e[w].0 != k);
    }
    if i < w {
        assert(e[i].0 != k);
    }
}

proof fn lemma_first_key_exists(e: Seq<(Seq<char>, JsonModel)>, k: Seq<char>)
    requires
        obj_has(e, k),
    ensures
        exists|i: int| first_key_at(e, k, i),
    decreases e.len(),
{
    if e[0].0 == k {
        assert(first_key_at(e, k, 0));
    } else {
        let j = choose|j: int| 0 <= j < e.len() && e[j].0 == k;
        assert(e.drop_first()[j - 1].0 == k);
        lemma_first_key_exists(e.drop_first(), k);
        let i = choose|i: int| first_key_at(e.drop_first(), k, i);
        assert forall|m: int| 0 <= m < i + 1 implies e[m].0 != k by {
            if m > 0 {
                assert(e[m] == e.drop_first()[m - 1]);
            }
        }
        assert(first_key_at(e, k, i + 1));
    }
}

/// The first member named `k`, when there is one, is where `key_index`
/// points.
pub proof fn lemma_key_index_first(e: Seq<(Seq<char>, JsonModel)>, k: Seq<char>)
    requires
        obj_has(e, k),
    ensures
        key_index(e, k) matches Some(i) && first_key_at(e, k, i),
{
    lemma_first_key_exists(e, k);
}

/// The value of the first member named `k`.
pub open spec fn obj_get(e: Seq<(Seq<char>, JsonModel)>, k: Seq<char>) -> Option<JsonModel> {
    match key_index(e, k) {
        Some(i) => Some(e[i].1),
        None => None,
    }
}

pub open spec fn obj_has(e: Seq<(Seq<char>, JsonModel)>, k: Seq<char>) -> bool {
    exists|i: int| 0 <= i < e.len() && e[i].0 == k
}

/// Inserting a member, as `serde_json::Map::insert` does up to the order
/// of members (which printing sorts): replaces the value of the member named `k`,
/// or adds the member at the end.
pub open spec fn obj_insert(e: Seq<(Seq<char>, JsonModel)>, k: Seq<char>, v: JsonModel) -> Seq<(Seq<char>, JsonModel)> {
    match key_index(e, k) {
        Some(i) => e.update(i, (k, v)),
        None => e.push((k, v)),
    }
}

/// After `obj_insert`, the member names are the old ones and `k`.
pub proof fn lemma_obj_insert_has(e: Seq<(Seq<char>, JsonModel)>, k: Seq<char>, v: JsonModel, x: Seq<char>)
    ensures
        obj_has(obj_insert(e, k, v), x) == (obj_has(e, x) || x == k),
{
    if obj_has(e, k) {
        lemma_key_index_first(e, k);
        let i = key_index(e, k)->Some_0;
        let u = e.update(i, (k, v));
        if obj_has(e, x) {
            let j = choose|j: int| 0 <= j < e.len() && e[j].0 == x;
            if j == i {
                assert(u[i].0 == x);
            } else {
                assert(u[j].0 == x);
            }
        }
        if x == k {
            assert(u[i].0 == x);
        }
        if obj_has(u, x) {
            let j = choose|j: int| 0 <= j < u.len() && u[j].0 == x;
            if j != i {
                assert(e[j].0 == x);
            }
        }
    } else {
        let u = e.push((k, v));
        if obj_has(e, x) {
            let j = choose|j: int| 0 <= j < e.len() && e[j].0 == x;
            assert(u[j].0 == x);
        }
        if x == k {
            assert(u[e.len() as int].0 == x);
        }
        if obj_has(u, x) {
            let j = choose|j: int| 0 <= j < u.len() && u[j].0 == x;
            if j < e.len() {
                assert(e[j].0 == x);
            }
        }
    }
}

impl JsonModel {
    /// `Value::get` with a string key.
    pub open spec fn get(self, k: Seq<char>) -> Option<JsonModel> {
        match self {
            JsonModel::Object(e) => obj_get(e, k),
            _ => None,
        }
    }

    pub open spec fn as_str(self) -> Option<Seq<char>> {
        match self {
            JsonModel::Str(s) => Some(s),
            _ => None,
        }
    }

    pub open spec fn as_u64(self) -> Option<u64> {
        match self {
            JsonModel::Number(NumberModel::PosInt(u)) => Some(u),
            _ => None,
        }
    }
}

impl JsonValue {
    /// Member lookup by key (`Value::get`).
    pub fn get(&self, key: &str) -> (r: Option<&JsonValue>)
        ensures
            match r {
                Some(x) => self@.get(key@) == Some(x@),
                None => self@.get(key@) is None,
            },
    {
        match self {
            JsonValue::Object(e) => {
                proof {
                    assert(members_model(e@) =~= self@->Object_0);
                }
                object_get(e, key)
            },
            _ => None,
        }
    }

    /// `Value::as_str`.
    pub fn as_str(&self) -> (r: Option<&String>)
        ensures
            match r {
                Some(s) => self@.as_str() == Some(s@),
                None => self@.as_str() is None,
            },
    {
        match self {
            JsonValue::Str(s) => Some(s),
            _ => None,
        }
    }

    /// `Value::as_u64`.
    pub fn as_u64(&self) -> (r: Option<u64>)
        ensures
            r == self@.as_u64(),
    {
        match self {
            JsonValue::Number(JsonNumber::PosInt(u)) => Some(*u),
            _ => None,
        }
    }

    /// A copy of the value.
    pub fn duplicate(&self) -> (r: JsonValue)
        ensures
            r@ == self@,
        decreases self,
    {
        match self {
            JsonValue::Null => JsonValue::Null,
            JsonValue::Bool(b) => JsonValue::Bool(*b),
            JsonValue::Number(n) => JsonValue::Number(n.duplicate()),
            JsonValue::Str(s) => JsonValue::Str(s.clone()),
            JsonValue::Array(a) => {
                let mut out: Vec<JsonValue> = Vec::new();
                let mut i: usize = 0;
                while i < a.len()
                    invariant
                        i <= a@.len(),
                        *self == JsonValue::Array(*a),
                        out@.len() == i,
                        forall|j: int| 0 <= j < i ==> (#[trigger] out@[j])@ == a@[j]@,
                    decreases a.len() - i,
                {
                    proof {
                        vstd::std_specs::vec::axiom_vec_index_decreases(*a, i as int);
                        assert(decreases_to!(*self => self->Array_0));
                    }
                    let x = a[i].duplicate();
                    out.push(x);
                    i = i + 1;
                }
                let r = JsonValue::Array(out);
                assert(r@->Array_0 =~= self@->Array_0);
                r
            },
            JsonValue::Object(e) => {
                let mut out: Vec<(String, JsonValue)> = Vec::new();
                let mut i: usize = 0;
                while i < e.len()
                    invariant
                        i <= e@.len(),
                        *self == JsonValue::Object(*e),
                        out@.len() == i,
                        forall|j: int| 0 <= j < i ==> (#[trigger] out@[j]).0@ == e@[j].0@ && out@[j].1@ == e@[j].1@,
                    decreases e.len() - i,
                {
                    proof {
                        vstd::std_specs::vec::axiom_vec_index_decreases(*e, i as int);
                        assert(decreases_to!(*self => self->Object_0));
                        assert(decreases_to!(e@[i as int] => e@[i as int].1));
                    }
                    let v = e[i].1.duplicate();
                    out.push((e[i].0.clone(), v));
                    i = i + 1;
                }
                let r = JsonValue::Object(out);
                assert(r@->Object_0 =~= self@->Object_0);
                r
            },
        }
    }
}

impl JsonNumber {
    pub fn duplicate(&self) -> (r: JsonNumber)
        ensures
            r@ == self@,
    {
        match self {
            JsonNumber::PosInt(u) => JsonNumber::PosInt(*u),
            JsonNumber::NegInt(i) => JsonNumber::NegInt(*i),
            JsonNumber::Float { text, bits } => JsonNumber::Float { text: text.clone(), bits: *bits },
        }
    }
}

/// A copy of a member list.
pub fn duplicate_members(e: &Vec<(String, JsonValue)>) -> (r: Vec<(String, JsonValue)>)
    ensures
        members_model(r@) == members_model(e@),
{
    let mut out: Vec<(String, JsonValue)> = Vec::new();
    let mut i: usize = 0;
    while i < e.len()
        invariant
            i <= e@.len(),
            members_model(out@) == members_model(e@).take(i as int),
        decreases e.len() - i,
    {
        let v = e[i].1.duplicate();
        let k = e[i].0.clone();
        let ghost before = out@;
        out.push((k, v));
        assert(members_model(out@) =~= members_model(before).push((e@[i as int].0@, e@[i as int].1@)));
        assert(members_model(out@) =~= members_model(e@).take(i + 1));
        i = i + 1;
    }
    assert(members_model(e@).take(i as int) =~= members_model(e@));
    out
}

/// Member lookup in an object's member list.
pub fn object_get<'a>(e: &'a Vec<(String, JsonValue)>, key: &str) -> (r: Option<&'a JsonValue>)
    ensures
        match r {
            Some(x) => obj_get(members_model(e@), key@) == Some(x@),
            None => obj_get(members_model(e@), key@) is None,
        },
{
    match object_find(e, key) {
        Some(i) => Some(&e[i].1),
        None => None,
    }
}

/// Position of the first member named `key`.
pub fn object_find(e: &Vec<(String, JsonValue)>, key: &str) -> (r: Option<usize>)
    ensures
        match r {
            Some(i) => key_index(members_model(e@), key@) == Some(i as int) && i < e@.len(),
            None => key_index(members_model(e@), key@) is None,
        },
{
    let ghost m = members_model(e@);
    let mut i: usize = 0;
    while i < e.len()
        invariant
            i <= e@.len(),
            m == members_model(e@),
            forall|j: int| 0 <= j < i ==> m[j].0 != key@,
        decreases e.len() - i,
    {
        if str_eq(e[i].0.as_str(), key) {
            proof {
                lemma_key_index(m, key@, i as int);
            }
            return Some(i);
        }
        i = i + 1;
    }
    None
}

/// Inserts a member (see `obj_insert`).
pub fn object_insert(e: &mut Vec<(String, JsonValue)>, k: String, v: JsonValue)
    ensures
        members_model(final(e)@) == obj_insert(members_model(old(e)@), k@, v@),
{
    match object_find(e, k.as_str()) {
        Some(i) => {
            e.set(i, (k, v));
            assert(members_model(e@) =~= obj_insert(members_model(old(e)@), k@, v@));
        },
        None => {
            e.push((k, v));
            assert(members_model(e@) =~= obj_insert(members_model(old(e)@), k@, v@));
        },
    }
}

/// `serde_json::Number::to_string`.
pub open spec fn number_text(n: NumberModel) -> Seq<char> {
    match n {
        NumberModel::PosInt(u) => decimal(u as nat),
        NumberModel::NegInt(i) => if i < 0 {
            seq!['-'] + decimal((-i) as nat)
        } else {
            decimal(i as nat)
        },
        NumberModel::Float(text, bits) => text,
    }
}

pub fn number_to_string(n: &JsonNumber) -> (r: String)
    ensures
        r@ == number_text(n@),
{
    match n {
        JsonNumber::PosInt(u) => u64_to_string(*u),
        JsonNumber::NegInt(i) => {
            if *i < 0 {
                let m: u64 = ((-(*i + 1)) as u64) + 1;
                let mut s = String::new();
                push_char(&mut s, '-');
                push_decimal(&mut s, m);
                assert(s@ =~= seq!['-'] + decimal((-*i) as nat));
                s
            } else {
                u64_to_string(*i as u64)
            }
        },
        JsonNumber::Float { text, bits } => text.clone(),
    }
}

} // verus!
