//! JSON texts as plain values.
use serde_json::Value;
use vstd::prelude::*;

use crate::bytes::str_eq;

verus! {

/// A JSON value, as far as messages are read.
#[derive(Debug)]
pub enum Json {
    /// Nothing, a truth value or a list.
    Other,
    /// A number, with its value where it is a signed 64-bit integer.
    Number(Option<i64>),
    Text(String),
    Object(Vec<(String, Json)>),
}

/// What a JSON value says.
pub enum JsonView {
    Other,
    Number(Option<i64>),
    Text(Seq<char>),
    Object(Seq<(Seq<char>, JsonView)>),
}

/// What a JSON value says.
pub open spec fn json_view(j: Json) -> JsonView
    decreases j,
{
    match j {
        Json::Other => JsonView::Other,
        Json::Number(n) => JsonView::Number(n),
        Json::Text(s) => JsonView::Text(s@),
        Json::Object(fields) => JsonView::Object(
            Seq::new(
                fields@.len(),
                |i: int|
                    if 0 <= i < fields@.len() {
                        (fields@[i].0@, json_view(fields@[i].1))
                    } else {
                        arbitrary()
                    },
            ),
        ),
    }
}

/// A value of `serde_json`.
#[verifier::external_type_specification]
#[verifier::external_body]
pub struct ExValue(serde_json::Value);

/// What a JSON text says; nothing where it is none.
pub uninterp spec fn json_of(text: Seq<char>) -> Option<JsonView>;

/// `serde_json::from_str` into a `serde_json::Value`, which is then turned
/// into a plain one. What it returns is fixed by the text.
#[verifier::external_body]
pub(crate) fn parse_json(text: &str) -> (r: Option<Json>)
    ensures
        r is Some == json_of(text@) is Some,
        r is Some ==> json_view(r->0) == json_of(text@)->0,
{
    serde_json::from_str::<Value>(text).ok().map(plain_json)
}

/// A `serde_json::Value`, variant by variant, with `Number::as_i64` of its
/// numbers. Nothing is claimed of the result here: it is part of what
/// `parse_json` returns.
#[verifier::external_body]
fn plain_json(value: Value) -> (r: Json) {
    match value {
        Value::Null | Value::Bool(_) | Value::Array(_) => Json::Other,
        Value::Number(n) => Json::Number(n.as_i64()),
        Value::String(s) => Json::Text(s),
        Value::Object(fields) => Json::Object(fields.into_iter().map(|(k, v)| (k, plain_json(v))).collect()),
    }
}

/// The first field of a name from `i` on.
pub open spec fn field_from(fields: Seq<(Seq<char>, JsonView)>, name: Seq<char>, i: int) -> Option<JsonView>
    decreases fields.len() - i,
{
    if i >= fields.len() {
        None
    } else if fields[i].0 == name {
        Some(fields[i].1)
    } else {
        field_from(fields, name, i + 1)
    }
}

impl JsonView {
    /// The field of a name; only an object has fields.
    pub open spec fn field(self, name: Seq<char>) -> Option<JsonView> {
        match self {
            JsonView::Object(fields) => field_from(fields, name, 0),
            _ => None,
        }
    }

    /// The text in a field.
    pub open spec fn text(self, name: Seq<char>) -> Option<Seq<char>> {
        match self.field(name) {
            Some(JsonView::Text(s)) => Some(s),
            _ => None,
        }
    }

    /// The integer in a field.
    pub open spec fn integer(self, name: Seq<char>) -> Option<i64> {
        match self.field(name) {
            Some(JsonView::Number(n)) => n,
            _ => None,
        }
    }
}

impl View for Json {
    type V = JsonView;

    open spec fn view(&self) -> JsonView {
        json_view(*self)
    }
}

/// What a text says, where there is one.
pub open spec fn text_in(s: Option<String>) -> Option<Seq<char>> {
    match s {
        Some(s) => Some(s@),
        None => None,
    }
}

impl Json {
    pub fn get(&self, name: &str) -> (r: Option<&Json>)
        ensures
            r is Some == self@.field(name@) is Some,
            r is Some ==> r->0@ == self@.field(name@)->0,
    {
        match self {
            Json::Object(fields) => {
                let ghost views = self@->Object_0;
                let mut i: usize = 0;
                while i < fields.len()
                    invariant
                        i <= fields@.len(),
                        views.len() == fields@.len(),
                        *self == Json::Object(*fields),
                        self@ == JsonView::Object(views),
                        field_from(views, name@, i as int) == field_from(views, name@, 0),
                    decreases fields@.len() - i,
                {
                    assert(views[i as int] == (fields@[i as int].0@, json_view(fields@[i as int].1)));
                    if str_eq(fields[i].0.as_str(), name) {
                        return Some(&fields[i].1);
                    }
                    i = i + 1;
                }
                None
            },
            _ => None,
        }
    }

    pub fn get_text(&self, name: &str) -> (r: Option<String>)
        ensures
            text_in(r) == self@.text(name@),
    {
        match self.get(name) {
            Some(Json::Text(s)) => Some(s.clone()),
            _ => None,
        }
    }

    pub fn get_integer(&self, name: &str) -> (r: Option<i64>)
        ensures
            r == self@.integer(name@),
    {
        match self.get(name) {
            Some(Json::Number(n)) => *n,
            _ => None,
        }
    }
}

/// A field of an object is the first of its name, if there is one.
pub proof fn law_field_is_the_first_of_its_name(fields: Seq<(Seq<char>, JsonView)>, name: Seq<char>, i: int, k: int)
    requires
        0 <= i <= k <= fields.len(),
        forall|j: int| i <= j < k ==> (#[trigger] fields[j]).0 != name,
        k < fields.len() ==> fields[k].0 == name,
    ensures
        k < fields.len() ==> field_from(fields, name, i) == Some(fields[k].1),
        k == fields.len() ==> field_from(fields, name, i) is None,
    decreases k - i,
{
    if i < k {
        law_field_is_the_first_of_its_name(fields, name, i + 1, k);
    }
}

}
