//! A JSON document model for IAM policy documents.
use vstd::prelude::*;
use crate::text::{str_eq, first_key, lemma_first_key, lemma_first_key_none};

verus! {

/// A JSON value. Numbers are kept in their textual form.
pub enum JsonValue {
    Null,
    Bool(bool),
    Number(String),
    Str(String),
    Array(Vec<JsonValue>),
    Object(Vec<JsonField>),
}

/// One member of a JSON object.
pub struct JsonField {
    pub key: String,
    pub value: JsonValue,
}

/// The mathematical content of a JSON value.
pub enum Json {
    Null,
    Bool(bool),
    Number(Seq<char>),
    Str(Seq<char>),
    Array(Seq<Json>),
    Object(Seq<Seq<char>>, Seq<Json>),
}

pub open spec fn items_view(items: Seq<JsonValue>) -> Seq<Json> {
    Seq::new(items.len(), |i: int| items[i].view())
}

pub open spec fn keys_view(fields: Seq<JsonField>) -> Seq<Seq<char>> {
    Seq::new(fields.len(), |i: int| fields[i].key@)
}

pub open spec fn values_view(fields: Seq<JsonField>) -> Seq<Json> {
    Seq::new(fields.len(), |i: int| fields[i].value.view())
}

impl View for JsonValue {
    type V = Json;

    open spec fn view(&self) -> Json
        decreases self,
    {
        match self {
            JsonValue::Null => Json::Null,
            JsonValue::Bool(b) => Json::Bool(*b),
            JsonValue::Number(n) => Json::Number(n@),
            JsonValue::Str(s) => Json::Str(s@),
            JsonValue::Array(items) => Json::Array(
                Seq::new(
                    items@.len(),
                    |i: int|
                        if 0 <= i < items@.len() {
                            items@[i].view()
                        } else {
                            Json::Null
                        },
                ),
            ),
            JsonValue::Object(fields) => Json::Object(
                Seq::new(
                    fields@.len(),
                    |i: int|
                        if 0 <= i < fields@.len() {
                            fields@[i].key@
                        } else {
                            Seq::empty()
                        },
                ),
                Seq::new(
                    fields@.len(),
                    |i: int|
                        if 0 <= i < fields@.len() {
                            fields@[i].value.view()
                        } else {
                            Json::Null
                        },
                ),
            ),
        }
    }
}

/// The view of an array holds the views of its items.
pub proof fn lemma_array_view(v: JsonValue, items: Vec<JsonValue>)
    requires
        v == JsonValue::Array(items),
    ensures
        v@ == Json::Array(items_view(items@)),
{
    assert(match v@ { Json::Array(x) => x =~= items_view(items@), _ => false });
}

/// The view of an object holds the keys and the views of the values of its members.
pub proof fn lemma_object_view(v: JsonValue, fields: Vec<JsonField>)
    requires
        v == JsonValue::Object(fields),
    ensures
        v@ == Json::Object(keys_view(fields@), values_view(fields@)),
{
    assert(match v@ { Json::Object(x, y) => x =~= keys_view(fields@) && y =~= values_view(fields@), _ => false });
}

impl Json {
    /// Member lookup: `Some` only for an object that has a member named `key`
    /// (the first such member).
    pub open spec fn get(self, key: Seq<char>) -> Option<Json> {
        match self {
            Json::Object(keys, vals) => match first_key(keys, key) {
                Some(i) => Some(vals[i]),
                None => None,
            },
            _ => None,
        }
    }

    /// The string held by a JSON string.
    pub open spec fn as_str(self) -> Option<Seq<char>> {
        match self {
            Json::Str(s) => Some(s),
            _ => None,
        }
    }
}

impl JsonValue {
    /// Looks up the member `key` of an object.
    pub fn get(&self, key: &str) -> (r: Option<&JsonValue>)
        ensures
            r matches Some(v) ==> self@.get(key@) == Some(v@),
            r is None ==> self@.get(key@) is None,
    {
        match self {
            JsonValue::Object(fields) => {
                proof {
                    lemma_object_view(*self, *fields);
                }
                let ghost keys = keys_view(fields@);
                let mut i: usize = 0;
                while i < fields.len()
                    invariant
                        i <= fields.len(),
                        keys == keys_view(fields@),
                        self@ == Json::Object(keys, values_view(fields@)),
                        forall|k: int| 0 <= k < i ==> keys[k] != key@,
                    decreases fields.len() - i,
                {
                    if str_eq(fields[i].key.as_str(), key) {
                        proof {
                            lemma_first_key(keys, key@, i as int);
                        }
                        return Some(&fields[i].value);
                    }
                    i = i + 1;
                }
                proof {
                    lemma_first_key_none(keys, key@);
                }
                None
            },
            _ => None,
        }
    }

    /// The string held by a JSON string, as `serde_json::Value::as_str`.
    pub fn as_str(&self) -> (r: Option<&str>)
        ensures
            r matches Some(s) ==> self@.as_str() == Some(s@),
            r is None ==> self@.as_str() is None,
    {
        match self {
            JsonValue::Str(s) => Some(s.as_str()),
            _ => None,
        }
    }

    /// A structural copy of the value.
    pub fn deep_copy(&self) -> (r: JsonValue)
        ensures
            r@ == self@,
        decreases self,
    {
        match self {
            JsonValue::Null => JsonValue::Null,
            JsonValue::Bool(b) => JsonValue::Bool(*b),
            JsonValue::Number(n) => JsonValue::Number(n.clone()),
            JsonValue::Str(s) => JsonValue::Str(s.clone()),
            JsonValue::Array(items) => {
                let mut out: Vec<JsonValue> = Vec::new();
                let mut i: usize = 0;
                while i < items.len()
                    invariant
                        i <= items.len(),
                        out@.len() == i,
                        forall|k: int| 0 <= k < i ==> #[trigger] out@[k]@ == items@[k]@,
                        forall|k: int| 0 <= k < items.len() ==> decreases_to!(*self => #[trigger] items@[k]),
                    decreases items.len() - i,
                {
                    let c = items[i].deep_copy();
                    out.push(c);
                    i = i + 1;
                }
                let r = JsonValue::Array(out);
                proof {
                    lemma_array_view(r, out);
                    lemma_array_view(*self, *items);
                    assert(items_view(out@) =~= items_view(items@));
                }
                r
            },
            JsonValue::Object(fields) => {
                let mut out: Vec<JsonField> = Vec::new();
                let mut i: usize = 0;
                while i < fields.len()
                    invariant
                        i <= fields.len(),
                        out@.len() == i,
                        forall|k: int| 0 <= k < i ==> #[trigger] out@[k].key@ == fields@[k].key@,
                        forall|k: int| 0 <= k < i ==> #[trigger] out@[k].value@ == fields@[k].value@,
                        forall|k: int| 0 <= k < fields.len() ==> decreases_to!(*self => #[trigger] fields@[k].value),
                    decreases fields.len() - i,
                {
                    let v = fields[i].value.deep_copy();
                    let f = JsonField { key: fields[i].key.clone(), value: v };
                    out.push(f);
                    i = i + 1;
                }
                let r = JsonValue::Object(out);
                proof {
                    lemma_object_view(r, out);
                    lemma_object_view(*self, *fields);
                    assert(keys_view(out@) =~= keys_view(fields@));
                    assert(values_view(out@) =~= values_view(fields@));
                }
                r
            },
        }
    }
}

/// An object with the given members, in order.
pub fn object_of(fields: Vec<JsonField>) -> (r: JsonValue)
    ensures
        r@ == Json::Object(keys_view(fields@), values_view(fields@)),
{
    let r = JsonValue::Object(fields);
    proof {
        lemma_object_view(r, fields);
    }
    r
}

/// An array with the given items, in order.
pub fn array_of(items: Vec<JsonValue>) -> (r: JsonValue)
    ensures
        r@ == Json::Array(items_view(items@)),
{
    let r = JsonValue::Array(items);
    proof {
        lemma_array_view(r, items);
    }
    r
}

/// A member of an object.
pub fn member(key: &str, value: JsonValue) -> (r: JsonField)
    ensures
        r.key@ == key@,
        r.value == value,
{
    JsonField { key: key.to_owned(), value }
}

/// A JSON string.
pub fn string_value(s: &str) -> (r: JsonValue)
    ensures
        r@ == Json::Str(s@),
{
    JsonValue::Str(s.to_owned())
}

/// A JSON number written as `text`.
pub fn number_value(text: &str) -> (r: JsonValue)
    ensures
        r@ == Json::Number(text@),
{
    JsonValue::Number(text.to_owned())
}

} // verus!
