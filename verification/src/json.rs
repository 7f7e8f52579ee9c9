//! A JSON value model: what session entries carry and what the session logic
//! reads from transcript lines.

use serde_json::Value;
use vstd::prelude::*;

verus! {

/// A JSON number, kept exactly as serde_json distinguishes it.  A number with a
/// fractional part or an exponent is held as its decimal text.
#[derive(Debug)]
pub enum JsonNumber {
    PosInt(u64),
    NegInt(i64),
    Float(String),
}

/// A JSON value.  Objects are association lists; a lookup finds the first
/// member with the key, and an insertion replaces that member or appends one.
#[derive(Debug)]
pub enum JsonValue {
    Null,
    Bool(bool),
    Number(JsonNumber),
    String(String),
    Array(Vec<JsonValue>),
    Object(Vec<JsonMember>),
}

/// One member of a JSON object.
#[derive(Debug)]
pub struct JsonMember {
    pub key: String,
    pub value: JsonValue,
}

/// The mathematical form of a JSON value.
pub enum JsonModel {
    Null,
    Bool(bool),
    PosInt(u64),
    NegInt(i64),
    Float(Seq<char>),
    Str(Seq<char>),
    Array(Seq<JsonModel>),
    Object(Seq<(Seq<char>, JsonModel)>),
}

impl JsonNumber {
    pub open spec fn model(&self) -> JsonModel {
        match self {
            JsonNumber::PosInt(n) => JsonModel::PosInt(*n),
            JsonNumber::NegInt(n) => JsonModel::NegInt(*n),
            JsonNumber::Float(t) => JsonModel::Float(t@),
        }
    }
}

/// The model of a sequence of JSON values, element by element.
pub open spec fn values_model(s: Seq<JsonValue>) -> Seq<JsonModel>
    decreases s,
{
    if s.len() == 0 {
        Seq::empty()
    } else {
        values_model(s.drop_last()).push(value_model(s.last()))
    }
}

/// The model of a sequence of object members, member by member.
pub open spec fn members_model(s: Seq<JsonMember>) -> Seq<(Seq<char>, JsonModel)>
    decreases s,
{
    if s.len() == 0 {
        Seq::empty()
    } else {
        members_model(s.drop_last()).push((s.last().key@, value_model(s.last().value)))
    }
}

/// The model of one JSON value.
pub open spec fn value_model(v: JsonValue) -> JsonModel
    decreases v,
{
    match v {
        JsonValue::Null => JsonModel::Null,
        JsonValue::Bool(b) => JsonModel::Bool(b),
        JsonValue::Number(n) => n.model(),
        JsonValue::String(s) => JsonModel::Str(s@),
        JsonValue::Array(items) => JsonModel::Array(values_model(items@)),
        JsonValue::Object(members) => JsonModel::Object(members_model(members@)),
    }
}

pub proof fn lemma_values_model_push(s: Seq<JsonValue>, x: JsonValue)
    ensures
        values_model(s.push(x)) == values_model(s).push(value_model(x)),
{
    assert(s.push(x).drop_last() == s);
}

pub proof fn lemma_members_model_push(s: Seq<JsonMember>, x: JsonMember)
    ensures
        members_model(s.push(x)) == members_model(s).push((x.key@, value_model(x.value))),
{
    assert(s.push(x).drop_last() == s);
}

impl Clone for JsonNumber {
    fn clone(&self) -> (r: JsonNumber)
        ensures
            r.model() == self.model(),
    {
        match self {
            JsonNumber::PosInt(n) => JsonNumber::PosInt(*n),
            JsonNumber::NegInt(n) => JsonNumber::NegInt(*n),
            JsonNumber::Float(t) => JsonNumber::Float(t.clone()),
        }
    }
}

impl Clone for JsonValue {
    fn clone(&self) -> (r: JsonValue)
        ensures
            value_model(r) == value_model(*self),
        decreases self,
    {
        match self {
            JsonValue::Null => JsonValue::Null,
            JsonValue::Bool(b) => JsonValue::Bool(*b),
            JsonValue::Number(n) => JsonValue::Number(n.clone()),
            JsonValue::String(s) => JsonValue::String(s.clone()),
            JsonValue::Array(items) => {
                let mut out: Vec<JsonValue> = Vec::new();
                let mut i: usize = 0;
                while i < items.len()
                    invariant
                        0 <= i <= items.len(),
                        *self == JsonValue::Array(*items),
                        values_model(out@) == values_model(items@.subrange(0, i as int)),
                    decreases items.len() - i,
                {
                    proof {
                        assert(*items == (*self)->Array_0);
                        assert(decreases_to!(*self => (*self)->Array_0));
                        assert(decreases_to!(*items => items@));
                        assert(decreases_to!(items@ => items@[i as int]));
                    }
                    let c = items[i].clone();
                    proof {
                        lemma_values_model_push(out@, c);
                        lemma_values_model_push(items@.subrange(0, i as int), items@[i as int]);
                        assert(items@.subrange(0, i + 1) == items@.subrange(0, i as int).push(
                            items@[i as int],
                        ));
                    }
                    out.push(c);
                    i = i + 1;
                }
                assert(items@.subrange(0, items@.len() as int) == items@);
                JsonValue::Array(out)
            },
            JsonValue::Object(members) => {
                let mut out: Vec<JsonMember> = Vec::new();
                let mut i: usize = 0;
                while i < members.len()
                    invariant
                        0 <= i <= members.len(),
                        *self == JsonValue::Object(*members),
                        members_model(out@) == members_model(members@.subrange(0, i as int)),
                    decreases members.len() - i,
                {
                    let member = &members[i];
                    proof {
                        assert(*members == (*self)->Object_0);
                        assert(decreases_to!(*self => (*self)->Object_0));
                        assert(decreases_to!(*members => members@));
                        assert(decreases_to!(members@ => members@[i as int]));
                        assert(decreases_to!(*member => member.value));
                    }
                    let m = JsonMember { key: member.key.clone(), value: member.value.clone() };
                    proof {
                        lemma_members_model_push(out@, m);
                        lemma_members_model_push(members@.subrange(0, i as int), members@[i as int]);
                        assert(members@.subrange(0, i + 1) == members@.subrange(0, i as int).push(
                            members@[i as int],
                        ));
                    }
                    out.push(m);
                    i = i + 1;
                }
                assert(members@.subrange(0, members@.len() as int) == members@);
                JsonValue::Object(out)
            },
        }
    }
}

/// Each member of a member list is modelled by its key's text and its value's model.
pub proof fn lemma_members_model_index(s: Seq<JsonMember>)
    ensures
        members_model(s).len() == s.len(),
        forall|i: int|
            0 <= i < s.len() ==> #[trigger] members_model(s)[i] == (s[i].key@, value_model(
                s[i].value,
            )),
    decreases s.len(),
{
    if s.len() > 0 {
        lemma_members_model_index(s.drop_last());
    }
}

/// The position of the first member whose key is `k`, or -1 when there is none.
pub open spec fn assoc_index(m: Seq<(Seq<char>, JsonModel)>, k: Seq<char>) -> int
    decreases m.len(),
{
    if m.len() == 0 {
        -1
    } else if m[0].0 == k {
        0
    } else {
        let r = assoc_index(m.drop_first(), k);
        if r < 0 {
            -1
        } else {
            r + 1
        }
    }
}

/// The value of the first member whose key is `k`.
pub open spec fn assoc_get(m: Seq<(Seq<char>, JsonModel)>, k: Seq<char>) -> Option<JsonModel> {
    let i = assoc_index(m, k);
    if i < 0 {
        None
    } else {
        Some(m[i].1)
    }
}

/// Setting `k` to `v`: the first member with key `k` takes the new value, or a
/// new member is appended when there is none.
pub open spec fn assoc_insert(m: Seq<(Seq<char>, JsonModel)>, k: Seq<char>, v: JsonModel) -> Seq<
    (Seq<char>, JsonModel),
> {
    let i = assoc_index(m, k);
    if i < 0 {
        m.push((k, v))
    } else {
        m.update(i, (k, v))
    }
}

/// `assoc_index` is the first position holding the key, or -1 when no position does.
pub proof fn lemma_assoc_index(m: Seq<(Seq<char>, JsonModel)>, k: Seq<char>)
    ensures
        assoc_index(m, k) == -1 ==> forall|j: int| 0 <= j < m.len() ==> m[j].0 != k,
        assoc_index(m, k) != -1 ==> {
            &&& 0 <= assoc_index(m, k) < m.len()
            &&& m[assoc_index(m, k)].0 == k
            &&& forall|j: int| 0 <= j < assoc_index(m, k) ==> m[j].0 != k
        },
    decreases m.len(),
{
    if m.len() > 0 && m[0].0 != k {
        lemma_assoc_index(m.drop_first(), k);
        assert forall|j: int| 0 < j < m.len() implies m[j] == m.drop_first()[j - 1] by {}
    }
}

/// Finds the first member with the given key.
pub fn find_member(members: &Vec<JsonMember>, key: &str) -> (r: Option<usize>)
    ensures
        match r {
            Some(i) => i < members@.len() && i == assoc_index(members_model(members@), key@),
            None => assoc_index(members_model(members@), key@) == -1,
        },
{
    let wanted = key.to_string();
    let ghost k = key@;
    assert(wanted@ == k);
    let ghost m = members_model(members@);
    proof {
        lemma_members_model_index(members@);
        lemma_assoc_index(m, k);
    }
    let mut i: usize = 0;
    while i < members.len()
        invariant
            0 <= i <= members.len(),
            wanted@ == k,
            k == key@,
            m == members_model(members@),
            m.len() == members@.len(),
            forall|j: int| 0 <= j < i ==> m[j].0 != k,
            forall|j: int|
                0 <= j < members@.len() ==> #[trigger] m[j] == (members@[j].key@, value_model(
                    members@[j].value,
                )),
        decreases members.len() - i,
    {
        if members[i].key == wanted {
            proof {
                lemma_assoc_index(m, k);
                assert(m[i as int].0 == k);
                let idx = assoc_index(m, k);
                if idx != i {
                    if idx == -1 {
                        assert(m[i as int].0 != k);
                    } else if idx < i {
                        assert(m[idx].0 != k);
                    } else {
                        assert(m[i as int].0 != k);
                    }
                }
                assert(i == assoc_index(m, k));
            }
            return Some(i);
        }
        i = i + 1;
    }
    proof {
        lemma_assoc_index(m, k);
        if assoc_index(m, k) != -1 {
            assert(m[assoc_index(m, k)].0 == k);
        }
    }
    None
}

/// Looks up the value of the first member with the given key.
pub fn get_member<'a>(members: &'a Vec<JsonMember>, key: &str) -> (r: Option<&'a JsonValue>)
    ensures
        match r {
            Some(v) => assoc_get(members_model(members@), key@) == Some(value_model(*v)),
            None => assoc_get(members_model(members@), key@) is None,
        },
{
    proof {
        lemma_members_model_index(members@);
    }
    match find_member(members, key) {
        Some(i) => Some(&members[i].value),
        None => None,
    }
}

/// Sets the member `key` to `value`, replacing the first member with that key or
/// appending a new one.
pub fn insert_member(members: &mut Vec<JsonMember>, key: String, value: JsonValue)
    ensures
        members_model(final(members)@) == assoc_insert(
            members_model(old(members)@),
            key@,
            value_model(value),
        ),
{
    proof {
        lemma_members_model_index(members@);
    }
    let ghost k = key@;
    let ghost v = value_model(value);
    let ghost m = members_model(members@);
    match find_member(members, key.as_str()) {
        Some(i) => {
            let ghost old_members = members@;
            members.set(i, JsonMember { key, value });
            proof {
                lemma_members_model_index(old_members);
                lemma_members_model_index(members@);
                assert(members@ == old_members.update(i as int, JsonMember { key: key, value: value }));
                assert(members_model(members@) =~= m.update(i as int, (k, v)));
            }
        },
        None => {
            let ghost old_members = members@;
            members.push(JsonMember { key, value });
            proof {
                lemma_members_model_push(old_members, JsonMember { key: key, value: value });
            }
        },
    }
}

impl JsonValue {
    /// The member `key` of an object; nothing for any other value.
    pub fn get(&self, key: &str) -> (r: Option<&JsonValue>)
        ensures
            match r {
                Some(v) => json_get(value_model(*self), key@) == Some(value_model(*v)),
                None => json_get(value_model(*self), key@) is None,
            },
    {
        match self {
            JsonValue::Object(members) => get_member(members, key),
            _ => None,
        }
    }

    /// The text of a string value.
    pub fn as_str(&self) -> (r: Option<&String>)
        ensures
            match r {
                Some(s) => value_model(*self) == JsonModel::Str(s@),
                None => !(value_model(*self) is Str),
            },
    {
        match self {
            JsonValue::String(s) => Some(s),
            _ => None,
        }
    }

    /// The value of a non-negative integer.
    pub fn as_u64(&self) -> (r: Option<u64>)
        ensures
            r == json_as_u64(value_model(*self)),
    {
        match self {
            JsonValue::Number(JsonNumber::PosInt(n)) => Some(*n),
            _ => None,
        }
    }
}

/// The member `k` of an object model.
pub open spec fn json_get(v: JsonModel, k: Seq<char>) -> Option<JsonModel> {
    match v {
        JsonModel::Object(m) => assoc_get(m, k),
        _ => None,
    }
}

/// The text of a string model.
pub open spec fn json_as_str(v: Option<JsonModel>) -> Option<Seq<char>> {
    match v {
        Some(JsonModel::Str(s)) => Some(s),
        _ => None,
    }
}

/// The value of a non-negative integer model.
pub open spec fn json_as_u64(v: JsonModel) -> Option<u64> {
    match v {
        JsonModel::PosInt(n) => Some(n),
        _ => None,
    }
}

/// The model of an optional JSON value.
pub open spec fn opt_model(v: Option<JsonValue>) -> Option<JsonModel> {
    match v {
        Some(x) => Some(value_model(x)),
        None => None,
    }
}

#[verifier::external_type_specification]
#[verifier::external_body]
pub struct ExSerdeValue(serde_json::Value);

/// The value that a JSON text denotes, when it is one: what
/// `serde_json::from_str::<serde_json::Value>` gives for the text, `None`
/// when it rejects the text.  Objects come with their members in
/// `serde_json::Map`'s order, numbers as `serde_json::Number` classifies them.
pub uninterp spec fn json_text_model(text: Seq<char>) -> Option<JsonModel>;

/// The JSON text of a value: what `serde_json::to_string` gives for it (of
/// members with the same key, the first counts).
pub uninterp spec fn json_text_of(v: JsonModel) -> Seq<char>;

/// Parses a JSON text.
///
/// Calls `serde_json::from_str::<serde_json::Value>` and converts the value
/// one for one; the contract names the result as a function of the text.
#[verifier::external_body]
pub fn parse_json(text: &str) -> (r: Option<JsonValue>)
    ensures
        opt_model(r) == json_text_model(text@),
{
    match serde_json::from_str::<serde_json::Value>(text) {
        Ok(v) => Some(from_serde(v)),
        Err(_) => None,
    }
}

/// Renders a value as JSON text.
///
/// Converts the value one for one and calls `serde_json::to_string`, which
/// does not fail on a `serde_json::Value` (string keys only, finite numbers);
/// the contract names the result as a function of the value's model.
#[verifier::external_body]
pub fn json_text(v: &JsonValue) -> (r: String)
    ensures
        r@ == json_text_of(value_model(*v)),
{
    serde_json::to_string(&to_serde(v)).unwrap_or_default()
}

/// The one-for-one conversion from a `serde_json::Value` that `parse_json` uses.
#[verifier::external_body]
fn from_serde(v: Value) -> JsonValue {
    match v {
        Value::Null => JsonValue::Null,
        Value::Bool(b) => JsonValue::Bool(b),
        Value::Number(n) => JsonValue::Number(match (n.as_u64(), n.as_i64()) {
            (Some(u), _) => JsonNumber::PosInt(u),
            (None, Some(i)) => JsonNumber::NegInt(i),
            (None, None) => JsonNumber::Float(n.to_string()),
        }),
        Value::String(s) => JsonValue::String(s),
        Value::Array(a) => JsonValue::Array(a.into_iter().map(from_serde).collect()),
        Value::Object(m) => JsonValue::Object(
            m.into_iter().map(|(key, x)| JsonMember { key, value: from_serde(x) }).collect(),
        ),
    }
}

/// The one-for-one conversion to a `serde_json::Value` that `json_text` uses;
/// members are inserted last to first, so that the first of a key counts.
#[verifier::external_body]
fn to_serde(v: &JsonValue) -> Value {
    match v {
        JsonValue::Null => Value::Null,
        JsonValue::Bool(b) => Value::Bool(*b),
        JsonValue::Number(JsonNumber::PosInt(u)) => Value::from(*u),
        JsonValue::Number(JsonNumber::NegInt(i)) => Value::from(*i),
        JsonValue::Number(JsonNumber::Float(t)) => serde_json::from_str(t).map(Value::Number).unwrap_or(
            Value::Null,
        ),
        JsonValue::String(s) => Value::String(s.clone()),
        JsonValue::Array(a) => Value::Array(a.iter().map(to_serde).collect()),
        JsonValue::Object(m) => Value::Object(
            m.iter().rev().map(|x| (x.key.clone(), to_serde(&x.value))).collect(),
        ),
    }
}

} // verus!
