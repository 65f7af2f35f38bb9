//! JSON values as the scrapes hold them, and the lookups that the extraction makes in them.

use vstd::prelude::*;
use crate::text::str_equal;

verus! {

/// A JSON value. A number is held by the bit pattern of its IEEE-754 binary64
/// value; an object by its entries, in the order in which they were read.
#[derive(Debug)]
pub enum Json {
    Null,
    Bool(bool),
    Number(u64),
    Str(String),
    Array(Vec<Json>),
    Object(Vec<(String, Json)>),
}

/// The value of the first of `entries` whose key is `key`.
pub open spec fn entry_value(entries: Seq<(String, Json)>, key: Seq<char>) -> Option<Json>
    decreases entries.len(),
{
    if entries.len() == 0 {
        None
    } else if entries[0].0@ == key {
        Some(entries[0].1)
    } else {
        entry_value(entries.drop_first(), key)
    }
}

proof fn lemma_entry_value_skip(entries: Seq<(String, Json)>, key: Seq<char>, i: int)
    requires
        0 <= i <= entries.len(),
        forall|j: int| 0 <= j < i ==> (#[trigger] entries[j]).0@ != key,
    ensures
        entry_value(entries, key) == entry_value(entries.skip(i), key),
    decreases i,
{
    if i == 0 {
        assert(entries.skip(0) =~= entries);
    } else {
        let rest = entries.drop_first();
        assert(entries[0].0@ != key);
        assert forall|j: int| 0 <= j < i - 1 implies (#[trigger] rest[j]).0@ != key by {
            assert(rest[j] == entries[j + 1]);
        }
        lemma_entry_value_skip(rest, key, i - 1);
        assert(rest.skip(i - 1) =~= entries.skip(i));
    }
}

/// What a JSON value says, whatever order its text gave an object's entries in: an
/// object is a map from its keys to the values under them.
pub enum JsonModel {
    Null,
    Bool(bool),
    Number(u64),
    Str(Seq<char>),
    Array(Seq<JsonModel>),
    Object(Map<Seq<char>, JsonModel>),
}

impl JsonModel {
    /// The value under `key`, when this is an object that has one.
    pub open spec fn field(self, key: Seq<char>) -> Option<JsonModel> {
        match self {
            JsonModel::Object(m) => if m.dom().contains(key) {
                Some(m[key])
            } else {
                None
            },
            _ => None,
        }
    }

    /// This is an object with an entry under `key`.
    pub open spec fn has_field(self, key: Seq<char>) -> bool {
        self.field(key) is Some
    }

    /// The characters of this string value.
    pub open spec fn text(self) -> Option<Seq<char>> {
        match self {
            JsonModel::Str(s) => Some(s),
            _ => None,
        }
    }
}

/// What the items of an array say, in order.
pub open spec fn items_model(items: Seq<Json>) -> Seq<JsonModel>
    decreases items,
{
    if items.len() == 0 {
        Seq::empty()
    } else {
        items_model(items.subrange(0, items.len() - 1)).push(items[items.len() - 1].model())
    }
}

/// What the entries of an object say: under each key, the first value given for it.
pub open spec fn entries_model(entries: Seq<(String, Json)>) -> Map<Seq<char>, JsonModel>
    decreases entries,
{
    if entries.len() == 0 {
        Map::empty()
    } else {
        entries_model(entries.subrange(1, entries.len() as int)).insert(entries[0].0@, entries[0].1.model())
    }
}

impl Json {
    /// What this value says.
    pub open spec fn model(self) -> JsonModel
        decreases self,
    {
        match self {
            Json::Null => JsonModel::Null,
            Json::Bool(b) => JsonModel::Bool(b),
            Json::Number(n) => JsonModel::Number(n),
            Json::Str(s) => JsonModel::Str(s@),
            Json::Array(items) => JsonModel::Array(items_model(items@)),
            Json::Object(entries) => JsonModel::Object(entries_model(entries@)),
        }
    }
}

/// The model of an array has one item for each item, each the model of that item.
pub proof fn lemma_items_model(items: Seq<Json>)
    ensures
        items_model(items).len() == items.len(),
        forall|i: int| 0 <= i < items.len() ==> #[trigger] items_model(items)[i] == items[i].model(),
    decreases items.len(),
{
    if items.len() > 0 {
        lemma_items_model(items.subrange(0, items.len() - 1));
    }
}

/// Looking a key up in the model of an object finds the first entry under that key.
proof fn lemma_entries_model(entries: Seq<(String, Json)>, key: Seq<char>)
    ensures
        entry_value(entries, key) matches Some(v) ==> entries_model(entries).dom().contains(key)
            && entries_model(entries)[key] == v.model(),
        entry_value(entries, key) is None ==> !entries_model(entries).dom().contains(key),
    decreases entries.len(),
{
    if entries.len() > 0 {
        let rest = entries.subrange(1, entries.len() as int);
        assert(rest =~= entries.drop_first());
        lemma_entries_model(rest, key);
    }
}

impl Json {
    /// The value under `key`, as indexing an object by a key finds it.
    pub fn get(&self, key: &str) -> (r: Option<&Json>)
        ensures
            r matches Some(v) ==> self.model().field(key@) == Some(v.model()),
            r is None ==> self.model().field(key@) is None,
    {
        match self {
            Json::Object(entries) => {
                let n = entries.len();
                for i in 0..n
                    invariant
                        n == entries@.len(),
                        self.model() == JsonModel::Object(entries_model(entries@)),
                        forall|j: int| 0 <= j < i ==> (#[trigger] entries@[j]).0@ != key@,
                {
                    if str_equal(entries[i].0.as_str(), key) {
                        proof {
                            lemma_entry_value_skip(entries@, key@, i as int);
                            assert(entries@.skip(i as int)[0] == entries@[i as int]);
                            lemma_entries_model(entries@, key@);
                        }
                        return Some(&entries[i].1);
                    }
                }
                proof {
                    lemma_entry_value_skip(entries@, key@, n as int);
                    lemma_entries_model(entries@, key@);
                }
                None
            },
            _ => None,
        }
    }

    /// Whether this is an object with an entry under `key`.
    pub fn contains_key(&self, key: &str) -> (r: bool)
        ensures
            r == self.model().has_field(key@),
    {
        self.get(key).is_some()
    }

    /// Whether this is `null`.
    pub fn is_null(&self) -> (r: bool)
        ensures
            r == (self.model() is Null),
    {
        match self {
            Json::Null => true,
            _ => false,
        }
    }

    /// Whether this is an object.
    pub fn is_object(&self) -> (r: bool)
        ensures
            r == (self.model() is Object),
    {
        match self {
            Json::Object(_) => true,
            _ => false,
        }
    }

    /// The string held by this value, when it is a string.
    pub fn as_string(&self) -> (r: Option<&String>)
        ensures
            r matches Some(s) ==> self.model() == JsonModel::Str(s@),
            r is None ==> !(self.model() is Str),
    {
        match self {
            Json::Str(s) => Some(s),
            _ => None,
        }
    }

    /// The items of this value, when it is an array.
    pub fn as_array(&self) -> (r: Option<&Vec<Json>>)
        ensures
            r matches Some(items) ==> self.model() == JsonModel::Array(items_model(items@)),
            r is None ==> !(self.model() is Array),
    {
        match self {
            Json::Array(items) => Some(items),
            _ => None,
        }
    }
}


/// `tinyjson::JsonValue`, the JSON value that tinyjson parses, held opaque.
#[verifier::external_type_specification]
#[verifier::external_body]
pub struct ExJsonValue(tinyjson::JsonValue);

/// `tinyjson::JsonParseError`, tinyjson's refusal of a text, held opaque.
#[verifier::external_type_specification]
#[verifier::external_body]
pub struct ExJsonParseError(tinyjson::JsonParseError);

/// Whether tinyjson's parser (`<JsonValue as FromStr>::from_str`) accepts `text` as JSON.
pub uninterp spec fn json_text_parses(text: Seq<char>) -> bool;

/// What the JSON value that tinyjson's parser reads from `text` says.
pub uninterp spec fn json_text_model(text: Seq<char>) -> JsonModel;

/// `<tinyjson::JsonValue as FromStr>::from_str`, its value taken into the library's
/// form. The contract claims that it succeeds exactly on the texts that the name
/// `json_text_parses` stands for, and that what the value says is what the name
/// `json_text_model` gives for the text: the parser is a function of the text, but for
/// the order of an object's entries, which it keeps in a `HashMap` and which the model
/// does not hold. Very deeply nested text may exhaust the stack, as the parser recurses;
/// that is not stated.
#[verifier::external_body]
fn tinyjson_parse(text: &str) -> (r: Result<Json, tinyjson::JsonParseError>)
    ensures
        r is Ok <==> json_text_parses(text@),
        r matches Ok(j) ==> j.model() == json_text_model(text@),
{
    text.parse::<tinyjson::JsonValue>().map(json_of_value)
}

/// The library's form of a tinyjson value, one variant for one: a number by the bit
/// pattern of its `f64`, an object by its entries in the order its `HashMap` yields them.
/// It is only called by `tinyjson_parse`, whose contract covers it.
#[verifier::external_body]
fn json_of_value(v: tinyjson::JsonValue) -> Json {
    match v {
        tinyjson::JsonValue::Number(n) => Json::Number(n.to_bits()),
        tinyjson::JsonValue::Boolean(b) => Json::Bool(b),
        tinyjson::JsonValue::String(s) => Json::Str(s),
        tinyjson::JsonValue::Null => Json::Null,
        tinyjson::JsonValue::Array(a) => Json::Array(a.into_iter().map(json_of_value).collect()),
        tinyjson::JsonValue::Object(o) => Json::Object(o.into_iter().map(|(k, x)| (k, json_of_value(x))).collect()),
    }
}

/// Parses JSON text with tinyjson: `None` exactly when tinyjson refuses the text;
/// otherwise a value that says what the text says.
pub fn parse_json(text: &str) -> (r: Option<Json>)
    ensures
        r is Some <==> json_text_parses(text@),
        r matches Some(j) ==> j.model() == json_text_model(text@),
{
    match tinyjson_parse(text) {
        Ok(j) => Some(j),
        Err(_) => None,
    }
}

} // verus!
