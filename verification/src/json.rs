//! JSON values as the status logic reads them.

use vstd::prelude::*;
use vstd::string::*;
use vstd::utf8::*;

verus! {

/// The model of a JSON number: a whole number, or the text of one that has a
/// fraction or an exponent.
pub enum NumberValue {
    Whole(int),
    Real(Seq<char>),
}

/// The model of a JSON value.
pub enum JsonValue {
    Null,
    Bool(bool),
    Number(NumberValue),
    Text(Seq<char>),
    Array(Seq<JsonValue>),
    Object(Seq<(Seq<char>, JsonValue)>),
}

/// A JSON number.
#[derive(Clone, Debug, PartialEq, Eq)]
pub enum JsonNumber {
    /// A whole number that fits an `i64`.
    Int(i64),
    /// A whole number above the range of `i64`.
    Unsigned(u64),
    /// A number with a fraction or an exponent, as its text.
    Real(String),
}

/// A JSON value. An object keeps its members in a list.
#[derive(Debug, PartialEq, Eq)]
pub enum Json {
    Null,
    Bool(bool),
    Number(JsonNumber),
    Text(String),
    Array(Vec<Json>),
    Object(Vec<Member>),
}

/// A member of an object: a key and its value.
#[derive(Debug, PartialEq, Eq)]
pub struct Member {
    pub key: String,
    pub value: Json,
}

impl View for JsonNumber {
    type V = NumberValue;

    open spec fn view(&self) -> NumberValue {
        match self {
            JsonNumber::Int(i) => NumberValue::Whole(*i as int),
            JsonNumber::Unsigned(u) => NumberValue::Whole(*u as int),
            JsonNumber::Real(t) => NumberValue::Real(t@),
        }
    }
}

/// The model of a value.
pub open spec fn json_view(j: Json) -> JsonValue
    decreases j,
{
    match j {
        Json::Null => JsonValue::Null,
        Json::Bool(b) => JsonValue::Bool(b),
        Json::Number(n) => JsonValue::Number(n@),
        Json::Text(t) => JsonValue::Text(t@),
        Json::Array(items) => JsonValue::Array(items_view(items@)),
        Json::Object(members) => JsonValue::Object(members_view(members@)),
    }
}

/// The models of the items of an array, in their order.
pub open spec fn items_view(items: Seq<Json>) -> Seq<JsonValue>
    decreases items,
{
    if items.len() == 0 {
        Seq::empty()
    } else {
        items_view(items.drop_last()).push(json_view(items.last()))
    }
}

/// The models of the members of an object, in their order.
pub open spec fn members_view(members: Seq<Member>) -> Seq<(Seq<char>, JsonValue)>
    decreases members,
{
    if members.len() == 0 {
        Seq::empty()
    } else {
        members_view(members.drop_last()).push(
            (members.last().key@, json_view(members.last().value)),
        )
    }
}

impl View for Json {
    type V = JsonValue;

    open spec fn view(&self) -> JsonValue {
        json_view(*self)
    }
}

/// The model of an array has the models of its items, one for one.
pub proof fn lemma_items_view(items: Seq<Json>)
    ensures
        items_view(items).len() == items.len(),
        forall|i: int| 0 <= i < items.len() ==> #[trigger] items_view(items)[i] == items[i]@,
    decreases items.len(),
{
    if items.len() > 0 {
        lemma_items_view(items.drop_last());
    }
}

/// The model of an object has the models of its members, one for one.
pub proof fn lemma_members_view(members: Seq<Member>)
    ensures
        members_view(members).len() == members.len(),
        forall|i: int|
            0 <= i < members.len() ==> #[trigger] members_view(members)[i] == (
                members[i].key@,
                members[i].value@,
            ),
    decreases members.len(),
{
    if members.len() > 0 {
        lemma_members_view(members.drop_last());
    }
}

impl Clone for Json {
    fn clone(&self) -> (r: Json)
        ensures
            r@ == self@,
        decreases self,
    {
        match self {
            Json::Null => Json::Null,
            Json::Bool(b) => Json::Bool(*b),
            Json::Number(n) => Json::Number(
                match n {
                    JsonNumber::Int(i) => JsonNumber::Int(*i),
                    JsonNumber::Unsigned(u) => JsonNumber::Unsigned(*u),
                    JsonNumber::Real(t) => JsonNumber::Real(t.clone()),
                },
            ),
            Json::Text(t) => Json::Text(t.clone()),
            Json::Array(items) => {
                let mut copy: Vec<Json> = Vec::new();
                let mut i: usize = 0;
                while i < items.len()
                    invariant
                        *self == Json::Array(*items),
                        i <= items@.len(),
                        copy@.len() == i,
                        forall|j: int| 0 <= j < i ==> (#[trigger] copy@[j])@ == items@[j]@,
                    decreases items.len() - i,
                {
                    proof {
                        vstd::std_specs::vec::axiom_vec_index_decreases(*items, i as int);
                        assert(decreases_to!(*self => self->Array_0));
                    }
                    let item = items[i].clone();
                    copy.push(item);
                    i += 1;
                }
                proof {
                    lemma_items_view(copy@);
                    lemma_items_view(items@);
                    assert(items_view(copy@) =~= items_view(items@));
                }
                Json::Array(copy)
            },
            Json::Object(members) => {
                let mut copy: Vec<Member> = Vec::new();
                let mut i: usize = 0;
                while i < members.len()
                    invariant
                        *self == Json::Object(*members),
                        i <= members@.len(),
                        copy@.len() == i,
                        forall|j: int|
                            0 <= j < i ==> (#[trigger] copy@[j]).key@ == members@[j].key@
                                && copy@[j].value@ == members@[j].value@,
                    decreases members.len() - i,
                {
                    proof {
                        vstd::std_specs::vec::axiom_vec_index_decreases(*members, i as int);
                        assert(decreases_to!(*self => self->Object_0));
                        assert(decreases_to!(members[i as int] => members[i as int].value));
                    }
                    let member = Member {
                        key: members[i].key.clone(),
                        value: members[i].value.clone(),
                    };
                    copy.push(member);
                    i += 1;
                }
                proof {
                    lemma_members_view(copy@);
                    lemma_members_view(members@);
                    assert(members_view(copy@) =~= members_view(members@));
                }
                Json::Object(copy)
            },
        }
    }
}

/// Whether two texts are the same, character by character.
pub fn str_eq(a: &str, b: &str) -> (r: bool)
    ensures
        r == (a@ == b@),
{
    let x = a.as_bytes();
    let y = b.as_bytes();
    proof {
        encode_utf8_decode_utf8(a@);
        encode_utf8_decode_utf8(b@);
    }
    if x.len() != y.len() {
        return false;
    }
    let mut i: usize = 0;
    while i < x.len()
        invariant
            x@ == a.spec_bytes(),
            y@ == b.spec_bytes(),
            x@.len() == y@.len(),
            i <= x@.len(),
            forall|j: int| 0 <= j < i ==> x@[j] == y@[j],
        decreases x.len() - i,
    {
        if x[i] != y[i] {
            return false;
        }
        i += 1;
    }
    assert(x@ =~= y@);
    true
}

/// The place of the first member with the key `key`, or the number of
/// members where there is none.
pub open spec fn find_key(members: Seq<(Seq<char>, JsonValue)>, key: Seq<char>) -> nat
    decreases members.len(),
{
    if members.len() == 0 {
        0
    } else if members[0].0 == key {
        0
    } else {
        1 + find_key(members.skip(1), key)
    }
}

/// The value of the first member of an object with the key `key`. A value
/// that is no object has no members.
pub open spec fn value_get(v: JsonValue, key: Seq<char>) -> Option<JsonValue> {
    match v {
        JsonValue::Object(members) => if find_key(members, key) < members.len() {
            Some(members[find_key(members, key) as int].1)
        } else {
            None
        },
        _ => None,
    }
}

/// The first member with the key lies behind members with other keys.
pub proof fn lemma_find_key(members: Seq<(Seq<char>, JsonValue)>, key: Seq<char>, at: int)
    requires
        0 <= at <= members.len(),
        forall|j: int| 0 <= j < at ==> (#[trigger] members[j]).0 != key,
        at < members.len() ==> members[at].0 == key,
    ensures
        find_key(members, key) == at,
    decreases at,
{
    if at > 0 {
        let rest = members.skip(1);
        assert forall|j: int| 0 <= j < at - 1 implies (#[trigger] rest[j]).0 != key by {
            assert(rest[j] == members[j + 1]);
        }
        if at < members.len() {
            assert(rest[at - 1] == members[at]);
        }
        lemma_find_key(rest, key, at - 1);
    }
}

impl Json {
    /// The member of an object with the key `key`, if this is an object
    /// and has one.
    pub fn get(&self, key: &str) -> (r: Option<&Json>)
        ensures
            r is Some <==> value_get(self@, key@) is Some,
            r is Some ==> r->Some_0@ == value_get(self@, key@)->Some_0,
            r is Some ==> decreases_to!(*self => *r->Some_0),
    {
        match self {
            Json::Object(members) => {
                proof {
                    lemma_members_view(members@);
                }
                let mut i: usize = 0;
                while i < members.len()
                    invariant
                        *self == Json::Object(*members),
                        i <= members@.len(),
                        members_view(members@).len() == members@.len(),
                        forall|j: int|
                            0 <= j < members@.len() ==> #[trigger] members_view(members@)[j] == (
                                members@[j].key@,
                                members@[j].value@,
                            ),
                        forall|j: int| 0 <= j < i ==> (#[trigger] members_view(members@)[j]).0
                            != key@,
                    decreases members.len() - i,
                {
                    if str_eq(members[i].key.as_str(), key) {
                        proof {
                            lemma_find_key(members_view(members@), key@, i as int);
                            vstd::std_specs::vec::axiom_vec_index_decreases(*members, i as int);
                            assert(decreases_to!(*self => self->Object_0));
                            assert(decreases_to!(members[i as int] => members[i as int].value));
                        }
                        return Some(&members[i].value);
                    }
                    i += 1;
                }
                proof {
                    lemma_find_key(members_view(members@), key@, i as int);
                }
                None
            },
            _ => None,
        }
    }

    /// The text of a string value.
    pub fn as_str(&self) -> (r: Option<&str>)
        ensures
            match r {
                Some(s) => self@ == JsonValue::Text(s@),
                None => !(self@ is Text),
            },
    {
        match self {
            Json::Text(t) => Some(t.as_str()),
            _ => None,
        }
    }

    /// The truth value of a boolean.
    pub fn as_bool(&self) -> (r: Option<bool>)
        ensures
            match r {
                Some(b) => self@ == JsonValue::Bool(b),
                None => !(self@ is Bool),
            },
    {
        match self {
            Json::Bool(b) => Some(*b),
            _ => None,
        }
    }

    /// The items of an array.
    pub fn as_array(&self) -> (r: Option<&Vec<Json>>)
        ensures
            match r {
                Some(items) => self@ == JsonValue::Array(items_view(items@)) && *self
                    == Json::Array(*items) && decreases_to!(*self => *items),
                None => !(self@ is Array),
            },
    {
        match self {
            Json::Array(items) => {
                assert(decreases_to!(*self => self->Array_0));
                Some(items)
            },
            _ => None,
        }
    }

    /// The number as an `i32`, where it is a whole number in that range.
    pub fn as_i32(&self) -> (r: Option<i32>)
        ensures
            r == value_as_i32(self@),
    {
        match self {
            Json::Number(JsonNumber::Int(i)) => if -0x8000_0000 <= *i && *i <= 0x7FFF_FFFF {
                Some(*i as i32)
            } else {
                None
            },
            Json::Number(JsonNumber::Unsigned(u)) => if *u <= 0x7FFF_FFFF {
                Some(*u as i32)
            } else {
                None
            },
            _ => None,
        }
    }
}

/// A whole number in the range of `i32`.
pub open spec fn value_as_i32(v: JsonValue) -> Option<i32> {
    match v {
        JsonValue::Number(NumberValue::Whole(n)) => if -0x8000_0000 <= n <= 0x7FFF_FFFF {
            Some(n as i32)
        } else {
            None
        },
        _ => None,
    }
}

/// `serde_json::Value`, which the parser returns.
#[verifier::external_type_specification]
#[verifier::external_body]
pub struct ExValue(serde_json::Value);

/// What `serde_json` makes of a text: the value that it denotes, or nothing
/// where the text is not JSON.
pub uninterp spec fn json_text_value(text: Seq<u8>) -> Option<JsonValue>;

/// Turns a `serde_json::Value` into a [`Json`], variant by variant: a number
/// by `as_i64`, else by `as_u64`, else as its text; an object by its members
/// in the order in which the map hands them out.
#[verifier::external_body]
fn json_from_value(value: serde_json::Value) -> Json {
    match value {
        serde_json::Value::Null => Json::Null,
        serde_json::Value::Bool(b) => Json::Bool(b),
        serde_json::Value::Number(n) => match (n.as_i64(), n.as_u64()) {
            (Some(i), _) => Json::Number(JsonNumber::Int(i)),
            (_, Some(u)) => Json::Number(JsonNumber::Unsigned(u)),
            _ => Json::Number(JsonNumber::Real(n.to_string())),
        },
        serde_json::Value::String(s) => Json::Text(s),
        serde_json::Value::Array(a) => Json::Array(a.into_iter().map(json_from_value).collect()),
        serde_json::Value::Object(m) => Json::Object(m.into_iter().map(json_member).collect()),
    }
}

/// Turns a member of a `serde_json::Map` into a [`Member`].
#[verifier::external_body]
fn json_member(entry: (String, serde_json::Value)) -> Member {
    Member { key: entry.0, value: json_from_value(entry.1) }
}

/// `serde_json::from_slice`: the value that the text denotes.
#[verifier::external_body]
fn parse_json_bytes(text: &[u8]) -> (r: Option<Json>)
    ensures
        r is Some <==> json_text_value(text@) is Some,
        r is Some ==> r->Some_0@ == json_text_value(text@)->Some_0,
{
    serde_json::from_slice::<serde_json::Value>(text).ok().map(json_from_value)
}

/// Parses a JSON text.
pub fn parse_json(text: &[u8]) -> (r: Option<Json>)
    ensures
        r is Some <==> json_text_value(text@) is Some,
        r is Some ==> r->Some_0@ == json_text_value(text@)->Some_0,
{
    parse_json_bytes(text)
}

} // verus!
