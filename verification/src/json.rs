//! JSON values as plain data.

use crate::text::{optional_text, same_text};
use vstd::prelude::*;

verus! {

/// A value as `serde_json` holds it.
#[verifier::external_type_specification]
#[verifier::external_body]
pub struct ExValue(serde_json::Value);

/// A JSON value.
#[derive(Debug)]
pub enum Json {
    Null,
    Bool(bool),
    /// A number, as it is written.
    Number(String),
    Text(String),
    List(Vec<Json>),
    /// Keys with their values. Of a key that comes twice the first counts.
    Record(Vec<(String, Json)>),
}

/// What a [`Json`] value holds.
pub enum JsonView {
    Null,
    Bool(bool),
    Number(Seq<char>),
    Text(Seq<char>),
    List(Seq<JsonView>),
    Record(Seq<(Seq<char>, JsonView)>),
}

/// What a value holds, value by value.
pub open spec fn json_view(json: Json) -> JsonView
    decreases json,
{
    match json {
        Json::Null => JsonView::Null,
        Json::Bool(value) => JsonView::Bool(value),
        Json::Number(number) => JsonView::Number(number@),
        Json::Text(text) => JsonView::Text(text@),
        Json::List(items) => JsonView::List(
            Seq::new(
                items@.len(),
                |i: int|
                    if 0 <= i < items@.len() {
                        json_view(items@[i])
                    } else {
                        JsonView::Null
                    },
            ),
        ),
        Json::Record(fields) => JsonView::Record(
            Seq::new(
                fields@.len(),
                |i: int|
                    if 0 <= i < fields@.len() {
                        (fields@[i].0@, json_view(fields@[i].1))
                    } else {
                        (Seq::<char>::empty(), JsonView::Null)
                    },
            ),
        ),
    }
}

impl View for Json {
    type V = JsonView;

    open spec fn view(&self) -> JsonView {
        json_view(*self)
    }
}

/// A list holds what its values hold.
pub proof fn lemma_list_view(items: Vec<Json>)
    ensures
        Json::List(items)@ == JsonView::List(items@.map_values(|item: Json| item@)),
{
    reveal_with_fuel(json_view, 2);
    assert(Json::List(items)@->List_0 =~= items@.map_values(|item: Json| item@));
}

/// A record holds its keys and what its values hold.
pub proof fn lemma_record_view(fields: Vec<(String, Json)>)
    ensures
        Json::Record(fields)@ == JsonView::Record(
            fields@.map_values(|field: (String, Json)| (field.0@, field.1@)),
        ),
{
    reveal_with_fuel(json_view, 2);
    assert(Json::Record(fields)@->Record_0 =~= fields@.map_values(
        |field: (String, Json)| (field.0@, field.1@),
    ));
}

/// What a value of `serde_json` holds.
pub uninterp spec fn content_of(value: serde_json::Value) -> JsonView;

/// The value that `serde_json` reads from a text; `None` where the text is not JSON.
pub uninterp spec fn json_in(text: Seq<char>) -> Option<JsonView>;

/// Calls `serde_json::from_str`. What comes out depends on the text alone.
#[verifier::external_body]
fn parse(text: &str) -> (value: Option<serde_json::Value>)
    ensures
        match value {
            Some(value) => json_in(text@) == Some(content_of(value)),
            None => json_in(text@) is None,
        },
{
    serde_json::from_str(text).ok()
}

/// Takes a `serde_json::Value` apart, variant by variant, and what it holds in turn. A value that
/// was read from a text holds others at most 128 deep.
#[verifier::external_body]
fn plain(value: serde_json::Value) -> (json: Json)
    ensures
        json@ == content_of(value),
{
    match value {
        serde_json::Value::Null => Json::Null,
        serde_json::Value::Bool(value) => Json::Bool(value),
        serde_json::Value::Number(number) => Json::Number(number.to_string()),
        serde_json::Value::String(text) => Json::Text(text),
        serde_json::Value::Array(items) => Json::List(items.into_iter().map(plain).collect()),
        serde_json::Value::Object(fields) => Json::Record(
            fields.into_iter().map(|(key, value)| (key, plain(value))).collect(),
        ),
    }
}

/// Reads a text as JSON.
pub fn read_json(text: &str) -> (json: Option<Json>)
    ensures
        (match json {
            Some(json) => Some(json@),
            None => None,
        }) == json_in(text@),
{
    match parse(text) {
        Some(value) => Some(plain(value)),
        None => None,
    }
}

/// The value that a record has for a key.
pub open spec fn value_of(fields: Seq<(Seq<char>, JsonView)>, key: Seq<char>) -> Option<JsonView>
    decreases fields.len(),
{
    if fields.len() == 0 {
        None
    } else if fields[0].0 == key {
        Some(fields[0].1)
    } else {
        value_of(fields.drop_first(), key)
    }
}

impl JsonView {
    /// The value for a key. Only a record has any.
    pub open spec fn field(self, key: Seq<char>) -> Option<JsonView> {
        match self {
            JsonView::Record(fields) => value_of(fields, key),
            _ => None,
        }
    }

    /// The text, where the value is one.
    pub open spec fn text(self) -> Option<Seq<char>> {
        match self {
            JsonView::Text(text) => Some(text),
            _ => None,
        }
    }
}

impl Json {
    /// The value for a key. Only a record has any.
    pub fn field(&self, key: &str) -> (value: Option<&Json>)
        ensures
            (match value {
                Some(value) => Some(value@),
                None => None,
            }) == self@.field(key@),
    {
        match self {
            Json::Record(fields) => {
                let ghost all = fields@.map_values(
                    |field: (String, Json)| (field.0@, field.1@),
                );
                proof {
                    lemma_record_view(*fields);
                    assert(all.skip(0) =~= all);
                }
                for i in 0..fields.len()
                    invariant
                        self@ == JsonView::Record(all),
                        all == fields@.map_values(
                            |field: (String, Json)| (field.0@, field.1@),
                        ),
                        value_of(all, key@) == value_of(all.skip(i as int), key@),
                {
                    proof {
                        assert(all.skip(i as int)[0] == (fields[i as int].0@, fields[i as int].1@));
                        assert(all.skip(i as int).drop_first() =~= all.skip(i + 1));
                    }
                    if same_text(fields[i].0.as_str(), key) {
                        return Some(&fields[i].1);
                    }
                }
                None
            },
            _ => None,
        }
    }

    /// The text, where the value is one.
    pub fn text(&self) -> (text: Option<String>)
        ensures
            optional_text(text) == self@.text(),
    {
        match self {
            Json::Text(text) => Some(text.clone()),
            _ => None,
        }
    }
}

} // verus!
