//! JSON values: reading them from bytes and looking keys up.
use vstd::prelude::*;

use crate::error::{self, DockerPullError, ErrorView};
use crate::text;

verus! {

/// A JSON value.
#[derive(Debug)]
pub enum Json {
    Null,
    Bool(bool),
    /// A number, by its printed form.
    Number(String),
    Text(String),
    Array(Vec<Json>),
    Object(Vec<(String, Json)>),
}

/// What a JSON value holds.
pub enum JsonView {
    Null,
    Bool(bool),
    Number(Seq<char>),
    Text(Seq<char>),
    Array(Seq<JsonView>),
    Object(Seq<(Seq<char>, JsonView)>),
}

impl Json {
    /// What the value holds.
    pub open spec fn contents(self) -> JsonView
        decreases self,
    {
        match self {
            Json::Null => JsonView::Null,
            Json::Bool(b) => JsonView::Bool(b),
            Json::Number(n) => JsonView::Number(n@),
            Json::Text(t) => JsonView::Text(t@),
            Json::Array(items) => JsonView::Array(
                Seq::new(
                    items@.len(),
                    |i: int|
                        if 0 <= i < items@.len() {
                            items@[i].contents()
                        } else {
                            JsonView::Null
                        },
                ),
            ),
            Json::Object(entries) => JsonView::Object(
                Seq::new(
                    entries@.len(),
                    |i: int|
                        if 0 <= i < entries@.len() {
                            (entries@[i].0@, entries@[i].1.contents())
                        } else {
                            (seq![], JsonView::Null)
                        },
                ),
            ),
        }
    }
}

impl View for Json {
    type V = JsonView;

    open spec fn view(&self) -> JsonView {
        self.contents()
    }
}

/// What the items of an array hold.
pub open spec fn items_view(items: Seq<Json>) -> Seq<JsonView> {
    items.map_values(|v: Json| v@)
}

/// What the entries of an object hold.
pub open spec fn entries_view(entries: Seq<(String, Json)>) -> Seq<(Seq<char>, JsonView)> {
    entries.map_values(|e: (String, Json)| (e.0@, e.1@))
}

/// The contents of an array are those of its items.
pub broadcast proof fn lemma_array_contents(items: Vec<Json>)
    ensures
        #[trigger] Json::Array(items).contents() == JsonView::Array(items_view(items@)),
{
    assert(Json::Array(items).contents()->Array_0 =~= items_view(items@));
}

/// The contents of an object are those of its entries.
pub broadcast proof fn lemma_object_contents(entries: Vec<(String, Json)>)
    ensures
        #[trigger] Json::Object(entries).contents() == JsonView::Object(entries_view(entries@)),
{
    assert(Json::Object(entries).contents()->Object_0 =~= entries_view(entries@));
}

/// The value under a key among the entries of an object.
pub open spec fn entry_value(entries: Seq<(Seq<char>, JsonView)>, key: Seq<char>) -> Option<
    JsonView,
>
    decreases entries.len(),
{
    if entries.len() == 0 {
        None
    } else if entries[0].0 == key {
        Some(entries[0].1)
    } else {
        entry_value(entries.skip(1), key)
    }
}

impl JsonView {
    /// The value under a key; only an object has one.
    pub open spec fn get(self, key: Seq<char>) -> Option<JsonView> {
        match self {
            JsonView::Object(entries) => entry_value(entries, key),
            _ => None,
        }
    }

    /// The text, where the value is one.
    pub open spec fn as_text(self) -> Option<Seq<char>> {
        match self {
            JsonView::Text(t) => Some(t),
            _ => None,
        }
    }

    /// The text under a key.
    pub open spec fn get_text(self, key: Seq<char>) -> Option<Seq<char>> {
        match self.get(key) {
            Some(value) => value.as_text(),
            None => None,
        }
    }
}

/// What an optional value holds.
pub open spec fn opt_json(value: Option<&Json>) -> Option<JsonView> {
    match value {
        Some(v) => Some(v@),
        None => None,
    }
}

impl Json {
    /// The value under a key; only an object has one.
    pub fn get(&self, key: &str) -> (r: Option<&Json>)
        ensures
            opt_json(r) == self@.get(key@),
    {
        broadcast use lemma_object_contents;

        match self {
            Json::Object(entries) => {
                let ghost all = entries_view(entries@);
                assert(all.skip(0) =~= all);
                let mut i: usize = 0;
                while i < entries.len()
                    invariant
                        i <= entries@.len(),
                        all == entries_view(entries@),
                        self@.get(key@) == entry_value(all, key@),
                        entry_value(all, key@) == entry_value(all.skip(i as int), key@),
                    decreases entries@.len() - i,
                {
                    assert(all.skip(i as int).skip(1) =~= all.skip(i + 1));
                    assert(all.skip(i as int)[0] == (
                        entries@[i as int].0@,
                        entries@[i as int].1@,
                    ));
                    if text::same(entries[i].0.as_str(), key) {
                        return Some(&entries[i].1);
                    }
                    i += 1;
                }
                None
            },
            _ => None,
        }
    }

    /// The text, where the value is one.
    pub fn as_str(&self) -> (r: Option<&str>)
        ensures
            text::opt_view(r) == self@.as_text(),
    {
        match self {
            Json::Text(t) => Some(t.as_str()),
            _ => None,
        }
    }

    /// The text under a key.
    pub fn get_str(&self, key: &str) -> (r: Option<&str>)
        ensures
            text::opt_view(r) == self@.get_text(key@),
    {
        match self.get(key) {
            Some(value) => value.as_str(),
            None => None,
        }
    }
}

/// A JSON value as the parser gives it.
#[verifier::external_type_specification]
#[verifier::external_body]
pub struct ExJsonValue(serde_json::Value);

/// What a parsed JSON value holds: the tree of its items and entries, with each number by its
/// printed form.
pub uninterp spec fn json_contents(value: serde_json::Value) -> JsonView;

/// The value that bytes denote, or the message that says why they denote none.
pub uninterp spec fn json_document(bytes: Seq<u8>) -> Result<JsonView, Seq<char>>;

/// One level of a parsed JSON value.
pub enum JsonNode {
    Null,
    Bool(bool),
    Number(String),
    Text(String),
    Array(Vec<serde_json::Value>),
    Object(Vec<(String, serde_json::Value)>),
}

/// Parses bytes with `serde_json::from_slice` into a `serde_json::Value`. The outcome, value or
/// error message, depends on the bytes alone.
#[verifier::external_body]
fn json_from_slice(bytes: &[u8]) -> (r: Result<serde_json::Value, String>)
    ensures
        json_document(bytes@) == match r {
            Ok(value) => Ok(json_contents(value)),
            Err(message) => Err(message@),
        },
{
    serde_json::from_slice::<serde_json::Value>(bytes).map_err(|error| error.to_string())
}

/// Opens one level of a `serde_json::Value`: tells its variants apart and moves its fields out. A
/// number is handed out by its `Display` form.
#[verifier::external_body]
fn json_open(value: serde_json::Value) -> (node: JsonNode)
    ensures
        json_contents(value) == match node {
            JsonNode::Null => JsonView::Null,
            JsonNode::Bool(b) => JsonView::Bool(b),
            JsonNode::Number(n) => JsonView::Number(n@),
            JsonNode::Text(t) => JsonView::Text(t@),
            JsonNode::Array(items) => JsonView::Array(
                items@.map_values(|v: serde_json::Value| json_contents(v)),
            ),
            JsonNode::Object(entries) => JsonView::Object(
                entries@.map_values(|e: (String, serde_json::Value)| (e.0@, json_contents(e.1))),
            ),
        },
{
    match value {
        serde_json::Value::Null => JsonNode::Null,
        serde_json::Value::Bool(flag) => JsonNode::Bool(flag),
        serde_json::Value::Number(number) => JsonNode::Number(number.to_string()),
        serde_json::Value::String(text) => JsonNode::Text(text),
        serde_json::Value::Array(items) => JsonNode::Array(items),
        serde_json::Value::Object(entries) => JsonNode::Object(entries.into_iter().collect()),
    }
}

/// Turns a parsed JSON value into a value of this library.
fn from_json(value: serde_json::Value) -> (r: Json)
    ensures
        r@ == json_contents(value),
    decreases json_contents(value),
{
    broadcast use {lemma_array_contents, lemma_object_contents};

    match json_open(value) {
        JsonNode::Null => Json::Null,
        JsonNode::Bool(b) => Json::Bool(b),
        JsonNode::Number(n) => Json::Number(n),
        JsonNode::Text(t) => Json::Text(t),
        JsonNode::Array(items) => {
            let ghost all = items@.map_values(|v: serde_json::Value| json_contents(v));
            let mut out: Vec<Json> = Vec::new();
            for item in it: items
                invariant
                    it.seq() == items@,
                    all == items@.map_values(|v: serde_json::Value| json_contents(v)),
                    json_contents(value) == JsonView::Array(all),
                    items_view(out@) == all.take(it.index()),
            {
                let ghost before = out@;
                let ghost at = it.index();
                assert(decreases_to!(
                    json_contents(value) => json_contents(value)->Array_0[at]
                ));
                let converted = from_json(item);
                out.push(converted);
                assert(items_view(out@) =~= items_view(before).push(converted@));
                assert(items_view(out@) =~= all.take(at + 1));
            }
            assert(items_view(out@) =~= all);
            Json::Array(out)
        },
        JsonNode::Object(entries) => {
            let ghost all = entries@.map_values(
                |e: (String, serde_json::Value)| (e.0@, json_contents(e.1)),
            );
            let mut out: Vec<(String, Json)> = Vec::new();
            for entry in it: entries
                invariant
                    it.seq() == entries@,
                    all == entries@.map_values(
                        |e: (String, serde_json::Value)| (e.0@, json_contents(e.1)),
                    ),
                    json_contents(value) == JsonView::Object(all),
                    entries_view(out@) == all.take(it.index()),
            {
                let ghost before = out@;
                let ghost at = it.index();
                assert(decreases_to!(
                    json_contents(value) => json_contents(value)->Object_0[at].1
                ));
                let key = entry.0;
                let held = from_json(entry.1);
                out.push((key, held));
                assert(entries_view(out@) =~= entries_view(before).push((key@, held@)));
                assert(entries_view(out@) =~= all.take(at + 1));
            }
            assert(entries_view(out@) =~= all);
            Json::Object(out)
        },
    }
}

/// Reads a JSON value from bytes.
pub fn parse_json(bytes: &[u8]) -> (r: Result<Json, String>)
    ensures
        json_document(bytes@) == match r {
            Ok(value) => Ok(value@),
            Err(message) => Err(message@),
        },
{
    match json_from_slice(bytes) {
        Ok(value) => Ok(from_json(value)),
        Err(message) => Err(message),
    }
}

/// The text of a value over several lines, with two spaces for each level, or the message that says
/// why there is none.
pub uninterp spec fn pretty_text(value: JsonView) -> Result<Seq<char>, Seq<char>>;

/// Writes a `serde_json::Value` with `serde_json::to_string_pretty`. The outcome depends on what the
/// value holds alone.
#[verifier::external_body]
fn json_to_string_pretty(value: &serde_json::Value) -> (r: Result<String, String>)
    ensures
        pretty_text(json_contents(*value)) == match r {
            Ok(text) => Ok(text@),
            Err(message) => Err(message@),
        },
{
    serde_json::to_string_pretty(value).map_err(|error| error.to_string())
}

/// The text of the JSON value that bytes denote, over several lines, or why there is none.
pub open spec fn pretty_view(bytes: Seq<u8>) -> Result<Seq<char>, ErrorView> {
    match json_document(bytes) {
        Err(message) => Err(ErrorView::Json(message)),
        Ok(value) => match pretty_text(value) {
            Ok(text) => Ok(text),
            Err(message) => Err(ErrorView::Json(message)),
        },
    }
}

/// Writes the JSON value that bytes denote over several lines.
pub fn pretty_json(bytes: &[u8]) -> (r: error::Result<String>)
    ensures
        pretty_view(bytes@) == match r {
            Ok(text) => Ok(text@),
            Err(e) => Err(e@),
        },
{
    match json_from_slice(bytes) {
        Err(message) => Err(DockerPullError::Json(message)),
        Ok(value) => match json_to_string_pretty(&value) {
            Ok(text) => Ok(text),
            Err(message) => Err(DockerPullError::Json(message)),
        },
    }
}

/// An object gives the value of the first entry with the key, and nothing where no entry has it.
pub proof fn law_the_first_entry_counts(
    entries: Seq<(Seq<char>, JsonView)>,
    key: Seq<char>,
    value: JsonView,
    more: Seq<(Seq<char>, JsonView)>,
)
    requires
        forall|i: int| 0 <= i < entries.len() ==> (#[trigger] entries[i]).0 != key,
    ensures
        JsonView::Object(entries + seq![(key, value)] + more).get(key) == Some(value),
        JsonView::Object(entries).get(key) is None,
    decreases entries.len(),
{
    let all = entries + seq![(key, value)] + more;
    if entries.len() == 0 {
        assert(all[0] == (key, value));
    } else {
        let rest = entries.skip(1);
        assert forall|i: int| 0 <= i < rest.len() implies (#[trigger] rest[i]).0 != key by {
            assert(rest[i] == entries[i + 1]);
        }
        law_the_first_entry_counts(rest, key, value, more);
        assert(all.skip(1) =~= rest + seq![(key, value)] + more);
        assert(all[0] == entries[0]);
    }
}

/// Only text is taken for text, and only an object has values under keys.
pub proof fn law_text_is_taken_for_text(value: JsonView, key: Seq<char>)
    ensures
        value matches JsonView::Text(t) ==> value.as_text() == Some(t),
        !(value is Text) ==> value.as_text() is None,
        !(value is Object) ==> value.get(key) is None && value.get_text(key) is None,
        forall|t: Seq<char>|
            value.get_text(key) == Some(t) <==> value.get(key) == Some(JsonView::Text(t)),
{
}

} // verus!
