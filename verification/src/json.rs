//! JSON texts as plain values.

#[allow(unused_imports)]
use crate::text::views;
use crate::text::same_text;
use vstd::prelude::*;
use vstd::string::*;

verus! {

/// A JSON value.
#[derive(Debug)]
pub enum Json {
    Null,
    Bool { value: bool },
    /// A number, as the integers that it can be taken for.
    Number { signed: Option<i64>, unsigned: Option<u64> },
    Text { text: String },
    List { items: Vec<Json> },
    Object { entries: Vec<(String, Json)> },
}

#[verifier::ext_equal]
pub enum JsonView {
    Null,
    Bool { value: bool },
    Number { signed: Option<i64>, unsigned: Option<u64> },
    Text { text: Seq<char> },
    List { items: Seq<JsonView> },
    Object { entries: Seq<(Seq<char>, JsonView)> },
}

/// What a value holds.
pub open spec fn held(json: Json) -> JsonView
    decreases json,
{
    match json {
        Json::Null => JsonView::Null,
        Json::Bool { value } => JsonView::Bool { value },
        Json::Number { signed, unsigned } => JsonView::Number { signed, unsigned },
        Json::Text { text } => JsonView::Text { text: text@ },
        Json::List { items } => JsonView::List {
            items: Seq::new(
                items@.len(),
                |i: int|
                    if 0 <= i < items@.len() {
                        held(items@[i])
                    } else {
                        JsonView::Null
                    },
            ),
        },
        Json::Object { entries } => JsonView::Object {
            entries: Seq::new(
                entries@.len(),
                |i: int|
                    if 0 <= i < entries@.len() {
                        (entries@[i].0@, held(entries@[i].1))
                    } else {
                        (Seq::empty(), JsonView::Null)
                    },
            ),
        },
    }
}

impl View for Json {
    type V = JsonView;

    open spec fn view(&self) -> JsonView {
        held(*self)
    }
}

/// What a list or an object holds, item by item.
pub proof fn lemma_items(json: &Json)
    ensures
        match json {
            Json::List { items } => {
                &&& json@ is List
                &&& json@->items.len() == items@.len()
                &&& forall|i: int|
                    0 <= i < items@.len() ==> #[trigger] json@->items[i] == items@[i]@
            },
            Json::Object { entries } => {
                &&& json@ is Object
                &&& json@->entries.len() == entries@.len()
                &&& forall|i: int|
                    0 <= i < entries@.len() ==> #[trigger] json@->entries[i] == (
                        entries@[i].0@,
                        entries@[i].1@,
                    )
            },
            _ => true,
        },
{
}

/// Declares serde_json's tree of values, which is taken apart below.
#[verifier::external_type_specification]
#[verifier::external_body]
pub struct ExValue(serde_json::Value);

/// What a tree of values holds.
pub uninterp spec fn contents(value: serde_json::Value) -> JsonView;

/// How deep a tree of values is.
pub uninterp spec fn depth(value: serde_json::Value) -> nat;

/// The value that a text holds as JSON, if it is well-formed.
pub uninterp spec fn json_of(text: Seq<char>) -> Option<JsonView>;

/// Parses a text with `serde_json::from_str`. Which texts are well-formed and
/// what value each holds is left to that function, beyond that it depends on
/// the text alone.
#[verifier::external_body]
fn parse_value(text: &str) -> (value: Option<serde_json::Value>)
    ensures
        match value {
            Some(value) => json_of(text@) == Some(contents(value)),
            None => json_of(text@) is None,
        },
{
    serde_json::from_str(text).ok()
}

/// The outermost layer of a tree of values.
enum Layer<'a> {
    Null,
    Bool(bool),
    Number(Option<i64>, Option<u64>),
    Text(&'a str),
    List(&'a Vec<serde_json::Value>),
    Object(Vec<(&'a String, &'a serde_json::Value)>),
}

/// Takes the outermost layer off a `serde_json::Value`: its variant and, for a
/// number, `Number::as_i64` and `Number::as_u64`. The entries of an object
/// come in the order in which `serde_json::Map` walks them. What is inside a
/// value is less deep than the value.
#[verifier::external_body]
fn take_apart(value: &serde_json::Value) -> (layer: Layer<'_>)
    ensures
        match layer {
            Layer::Null => contents(*value) == JsonView::Null,
            Layer::Bool(held) => contents(*value) == (JsonView::Bool { value: held }),
            Layer::Number(signed, unsigned) => contents(*value) == (JsonView::Number {
                signed,
                unsigned,
            }),
            Layer::Text(text) => contents(*value) == (JsonView::Text { text: text@ }),
            Layer::List(items) => {
                &&& contents(*value) == (JsonView::List {
                    items: items@.map_values(|item: serde_json::Value| contents(item)),
                })
                &&& forall|i: int|
                    0 <= i < items@.len() ==> depth(#[trigger] items@[i]) < depth(*value)
            },
            Layer::Object(entries) => {
                &&& contents(*value) == (JsonView::Object {
                    entries: entries@.map_values(
                        |entry: (&String, &serde_json::Value)| (entry.0@, contents(*entry.1)),
                    ),
                })
                &&& forall|i: int|
                    0 <= i < entries@.len() ==> depth(*(#[trigger] entries@[i]).1) < depth(*value)
            },
        },
{
    match value {
        serde_json::Value::Null => Layer::Null,
        serde_json::Value::Bool(held) => Layer::Bool(*held),
        serde_json::Value::Number(number) => Layer::Number(number.as_i64(), number.as_u64()),
        serde_json::Value::String(text) => Layer::Text(text),
        serde_json::Value::Array(items) => Layer::List(items),
        serde_json::Value::Object(entries) => Layer::Object(entries.iter().collect()),
    }
}

fn convert(value: &serde_json::Value) -> (json: Json)
    ensures
        json@ == contents(*value),
    decreases depth(*value),
{
    match take_apart(value) {
        Layer::Null => Json::Null,
        Layer::Bool(held) => Json::Bool { value: held },
        Layer::Number(signed, unsigned) => Json::Number { signed, unsigned },
        Layer::Text(text) => Json::Text { text: text.to_owned() },
        Layer::List(values) => {
            let mut items: Vec<Json> = Vec::new();
            for i in 0..values.len()
                invariant
                    forall|j: int|
                        0 <= j < values@.len() ==> depth(#[trigger] values@[j]) < depth(*value),
                    items@.len() == i,
                    forall|j: int| 0 <= j < i ==> (#[trigger] items@[j])@ == contents(values@[j]),
            {
                let item = convert(&values[i]);
                items.push(item);
            }
            let json = Json::List { items };
            assert(json@->items =~= values@.map_values(
                |item: serde_json::Value| contents(item),
            ));
            json
        },
        Layer::Object(pairs) => {
            let mut entries: Vec<(String, Json)> = Vec::new();
            for i in 0..pairs.len()
                invariant
                    forall|j: int|
                        0 <= j < pairs@.len() ==> depth(*(#[trigger] pairs@[j]).1) < depth(*value),
                    entries@.len() == i,
                    forall|j: int|
                        0 <= j < i ==> (#[trigger] entries@[j]).0@ == pairs@[j].0@
                            && entries@[j].1@ == contents(*pairs@[j].1),
            {
                let (key, held) = pairs[i];
                assert(depth(*pairs@[i as int].1) < depth(*value));
                let item = convert(held);
                entries.push((key.clone(), item));
            }
            let json = Json::Object { entries };
            assert(json@->entries =~= pairs@.map_values(
                |entry: (&String, &serde_json::Value)| (entry.0@, contents(*entry.1)),
            ));
            json
        },
    }
}

/// What a JSON value that may be missing holds.
pub open spec fn value_of(json: Option<Json>) -> Option<JsonView> {
    match json {
        Some(json) => Some(json@),
        None => None,
    }
}

/// Reads a text as JSON.
pub fn parse_json(text: &str) -> (json: Option<Json>)
    ensures
        value_of(json) == json_of(text@),
{
    match parse_value(text) {
        Some(value) => Some(convert(&value)),
        None => None,
    }
}

impl JsonView {
    /// Where an entry with the given key stands in an object, at `from` or
    /// later.
    pub open spec fn position(entries: Seq<(Seq<char>, JsonView)>, key: Seq<char>, from: int) -> Option<
        int,
    >
        decreases entries.len() - from,
    {
        if from >= entries.len() {
            None
        } else if entries[from].0 == key {
            Some(from)
        } else {
            Self::position(entries, key, from + 1)
        }
    }

    /// The member of an object with the given key.
    pub open spec fn member(self, key: Seq<char>) -> Option<JsonView> {
        match self {
            JsonView::Object { entries } => match Self::position(entries, key, 0) {
                Some(at) => Some(entries[at].1),
                None => None,
            },
            _ => None,
        }
    }

    pub open spec fn text(self) -> Option<Seq<char>> {
        match self {
            JsonView::Text { text } => Some(text),
            _ => None,
        }
    }

    pub open spec fn unsigned(self) -> Option<u64> {
        match self {
            JsonView::Number { unsigned, .. } => unsigned,
            _ => None,
        }
    }

    /// A number as a signed integer; one that is too large wraps around.
    pub open spec fn integer(self) -> Option<i64> {
        match self {
            JsonView::Number { signed, unsigned } => match signed {
                Some(signed) => Some(signed),
                None => match unsigned {
                    Some(unsigned) => Some(unsigned as i64),
                    None => None,
                },
            },
            _ => None,
        }
    }

    pub open spec fn list(self) -> Option<Seq<JsonView>> {
        match self {
            JsonView::List { items } => Some(items),
            _ => None,
        }
    }

    /// The first entry of an object.
    pub open spec fn first_entry(self) -> Option<(Seq<char>, JsonView)> {
        match self {
            JsonView::Object { entries } => if entries.len() > 0 {
                Some(entries[0])
            } else {
                None
            },
            _ => None,
        }
    }
}

/// The member of a value that may be missing.
pub open spec fn member_of(value: Option<JsonView>, key: Seq<char>) -> Option<JsonView> {
    match value {
        Some(value) => value.member(key),
        None => None,
    }
}

/// What a reference to a JSON value that may be missing leads to.
pub open spec fn referred(json: Option<&Json>) -> Option<JsonView> {
    match json {
        Some(json) => Some(json@),
        None => None,
    }
}

/// A text that may be missing.
pub open spec fn text_referred(text: Option<&str>) -> Option<Seq<char>> {
    match text {
        Some(text) => Some(text@),
        None => None,
    }
}

impl Json {
    pub fn get(&self, key: &str) -> (member: Option<&Json>)
        ensures
            referred(member) == self@.member(key@),
    {
        match self {
            Json::Object { entries } => {
                let ghost all = self@->entries;
                proof {
                    lemma_items(self);
                }
                for i in 0..entries.len()
                    invariant
                        self@ == (JsonView::Object { entries: all }),
                        all.len() == entries@.len(),
                        forall|j: int|
                            0 <= j < entries@.len() ==> #[trigger] all[j] == (
                                entries@[j].0@,
                                entries@[j].1@,
                            ),
                        JsonView::position(all, key@, 0) == JsonView::position(
                            all,
                            key@,
                            i as int,
                        ),
                {
                    assert(all[i as int].0 == entries@[i as int].0@);
                    if same_text(entries[i].0.as_str(), key) {
                        return Some(&entries[i].1);
                    }
                }
                None
            },
            _ => None,
        }
    }

    pub fn as_str(&self) -> (text: Option<&str>)
        ensures
            text_referred(text) == self@.text(),
    {
        match self {
            Json::Text { text } => Some(text.as_str()),
            _ => None,
        }
    }

    pub fn as_u64(&self) -> (number: Option<u64>)
        ensures
            number == self@.unsigned(),
    {
        match self {
            Json::Number { unsigned, .. } => *unsigned,
            _ => None,
        }
    }

    pub fn as_integer(&self) -> (number: Option<i64>)
        ensures
            number == self@.integer(),
    {
        match self {
            Json::Number { signed, unsigned } => match *signed {
                Some(signed) => Some(signed),
                None => match *unsigned {
                    Some(unsigned) => Some(#[verifier::truncate] (unsigned as i64)),
                    None => None,
                },
            },
            _ => None,
        }
    }
}

/// Whether a text stands in JSON as it is, but for the quotes around it.
pub open spec fn unescaped(text: Seq<char>) -> bool {
    forall|i: int|
        0 <= i < text.len() ==> (#[trigger] text[i]) >= ' ' && text[i] != '"' && text[i] != '\\'
}

/// A text as JSON.
pub uninterp spec fn quoted(text: Seq<char>) -> Seq<char>;

/// Writes a text as JSON with `serde_json::Value`'s `to_string`: between
/// quotes, with quotes, backslashes and control characters escaped. How they
/// are escaped is left to that function.
#[verifier::external_body]
pub(crate) fn quote(text: &str) -> (json: String)
    ensures
        json@ == quoted(text@),
        unescaped(text@) ==> json@ == seq!['"'] + text@ + seq!['"'],
{
    serde_json::Value::String(text.to_owned()).to_string()
}

} // verus!
