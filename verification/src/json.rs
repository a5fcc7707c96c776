//! JSON values, and reading them from bytes.

use vstd::prelude::*;
use vstd::string::*;
use serde_json::{Number, Value};
use crate::text::same_text;

verus! {

/// A JSON value as a mathematical value. A number is a text that stands for it; one
/// that was read is the text that `serde_json` prints for it.
pub enum JsonView {
    Null,
    Bool(bool),
    Number(Seq<char>),
    String(Seq<char>),
    Array(Seq<JsonView>),
    Object(Seq<(Seq<char>, JsonView)>),
}

/// A JSON value.
#[derive(Debug, PartialEq, Eq)]
pub enum JsonValue {
    Null,
    Bool(bool),
    Number(String),
    String(String),
    Array(Vec<JsonValue>),
    Object(Vec<(String, JsonValue)>),
}

/// The value of the member `key`. Where several members have that name, the last
/// one counts.
pub open spec fn member(members: Seq<(Seq<char>, JsonView)>, key: Seq<char>) -> Option<JsonView>
    decreases members.len(),
{
    if members.len() == 0 {
        None
    } else if members.last().0 == key {
        Some(members.last().1)
    } else {
        member(members.drop_last(), key)
    }
}

impl JsonView {
    /// The value of the member `key` of an object.
    pub open spec fn get(self, key: Seq<char>) -> Option<JsonView> {
        match self {
            JsonView::Object(members) => member(members, key),
            _ => None,
        }
    }

    /// The text of a string.
    pub open spec fn as_str(self) -> Option<Seq<char>> {
        match self {
            JsonView::String(s) => Some(s),
            _ => None,
        }
    }

    /// The text of the member `key`, where it is a string.
    pub open spec fn get_str(self, key: Seq<char>) -> Option<Seq<char>> {
        match self.get(key) {
            Some(v) => v.as_str(),
            None => None,
        }
    }
}

impl JsonValue {
    pub open spec fn view(&self) -> JsonView
        decreases self,
    {
        match self {
            JsonValue::Null => JsonView::Null,
            JsonValue::Bool(b) => JsonView::Bool(*b),
            JsonValue::Number(n) => JsonView::Number(n@),
            JsonValue::String(s) => JsonView::String(s@),
            JsonValue::Array(items) => JsonView::Array(
                Seq::new(
                    items@.len(),
                    |i: int| if 0 <= i < items@.len() { items@[i].view() } else { JsonView::Null },
                ),
            ),
            JsonValue::Object(members) => JsonView::Object(
                Seq::new(
                    members@.len(),
                    |i: int|
                        if 0 <= i < members@.len() {
                            (members@[i].0@, members@[i].1.view())
                        } else {
                            (Seq::empty(), JsonView::Null)
                        },
                ),
            ),
        }
    }

    /// The value of the member `key` of an object.
    pub fn get(&self, key: &str) -> (r: Option<&JsonValue>)
        ensures
            match r {
                Some(v) => self@.get(key@) == Some(v@),
                None => self@.get(key@) is None,
            },
    {
        match self {
            JsonValue::Object(members) => {
                let ghost all = self@->Object_0;
                let mut n: usize = members.len();
                assert(all.take(n as int) == all);
                while n > 0
                    invariant
                        n <= members@.len(),
                        self@ == JsonView::Object(all),
                        all.len() == members@.len(),
                        forall|i: int|
                            0 <= i < all.len() ==> #[trigger] all[i] == (
                                members@[i].0@,
                                members@[i].1@,
                            ),
                        member(all, key@) == member(all.take(n as int), key@),
                    decreases n,
                {
                    let ghost seen = all.take(n as int);
                    assert(seen.last() == all[n - 1]);
                    assert(seen.drop_last() == all.take(n - 1));
                    if same_text(members[n - 1].0.as_str(), key) {
                        return Some(&members[n - 1].1);
                    }
                    n = n - 1;
                }
                None
            },
            _ => None,
        }
    }

    /// The text of a string.
    pub fn as_str(&self) -> (r: Option<&str>)
        ensures
            match r {
                Some(s) => self@.as_str() == Some(s@),
                None => self@.as_str() is None,
            },
    {
        match self {
            JsonValue::String(s) => Some(s.as_str()),
            _ => None,
        }
    }
}

#[verifier::external_type_specification]
#[verifier::external_body]
pub struct ExJsonValue(serde_json::Value);

/// The value that `bytes` are the JSON text of, where they are one.
pub uninterp spec fn parsed_json(bytes: Seq<u8>) -> Option<JsonView>;

/// Takes a `serde_json::Value` over part by part. Nothing is claimed of the
/// result: [`parse_json`] says what it is for the values that are read there.
#[verifier::external_body]
pub(crate) fn json_from_value(value: Value) -> JsonValue {
    match value {
        Value::Null => JsonValue::Null,
        Value::Bool(b) => JsonValue::Bool(b),
        Value::Number(n) => JsonValue::Number(n.to_string()),
        Value::String(s) => JsonValue::String(s),
        Value::Array(items) => {
            JsonValue::Array(items.into_iter().map(json_from_value).collect())
        },
        Value::Object(members) => {
            JsonValue::Object(members.into_iter().map(|(k, v)| (k, json_from_value(v))).collect())
        },
    }
}

/// Hands a value over as a `serde_json::Value`, part by part. Of members with the
/// same name the last one stays. A number is read from its text by the standard
/// library, which gives back exactly what was printed; a text that is no finite
/// number becomes null. Nothing is claimed of the result.
#[verifier::external_body]
pub(crate) fn json_to_value(value: &JsonValue) -> Value {
    match value {
        JsonValue::Null => Value::Null,
        JsonValue::Bool(b) => Value::Bool(*b),
        JsonValue::Number(n) => {
            let whole = n.parse().ok().and_then(Number::from_i128);
            let number = whole.or_else(|| n.parse().ok().and_then(Number::from_f64));
            number.map_or(Value::Null, Value::Number)
        },
        JsonValue::String(s) => Value::String(s.clone()),
        JsonValue::Array(items) => items.iter().map(json_to_value).collect(),
        JsonValue::Object(members) => {
            members.iter().map(|(k, v)| (k.clone(), json_to_value(v))).collect()
        },
    }
}

/// Reads a JSON text with `serde_json::from_slice`. The result depends on the
/// bytes alone; which bytes are a JSON text, and of what value, is left to the
/// name [`parsed_json`].
#[verifier::external_body]
pub(crate) fn parse_json(bytes: &[u8]) -> (r: Option<JsonValue>)
    ensures
        match r {
            Some(v) => parsed_json(bytes@) == Some(v@),
            None => parsed_json(bytes@) is None,
        },
{
    serde_json::from_slice::<Value>(bytes).ok().map(json_from_value)
}

} // verus!
