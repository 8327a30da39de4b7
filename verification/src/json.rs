//! JSON documents, as far as their structure and texts matter.
use vstd::prelude::*;

use crate::text;

verus! {

broadcast use vstd::seq::group_seq_axioms;

/// A JSON value. Of numbers only the fact that they are there is kept.
pub enum Json {
    Null,
    Bool(bool),
    Number,
    Text(String),
    Array(Vec<Json>),
    Object(Vec<(String, Json)>),
}

/// What a `Json` holds.
pub ghost enum JsonView {
    Null,
    Bool(bool),
    Number,
    Text(Seq<char>),
    Array(Seq<JsonView>),
    Object(Seq<(Seq<char>, JsonView)>),
}

/// What a value holds, with its parts.
pub open spec fn contents(json: Json) -> JsonView
    decreases json,
{
    match json {
        Json::Null => JsonView::Null,
        Json::Bool(b) => JsonView::Bool(b),
        Json::Number => JsonView::Number,
        Json::Text(s) => JsonView::Text(s@),
        Json::Array(items) => JsonView::Array(
            Seq::new(
                items@.len(),
                |i: int|
                    if 0 <= i < items@.len() {
                        contents(items@[i])
                    } else {
                        JsonView::Null
                    },
            ),
        ),
        Json::Object(fields) => JsonView::Object(
            Seq::new(
                fields@.len(),
                |i: int|
                    if 0 <= i < fields@.len() {
                        (fields@[i].0@, contents(fields@[i].1))
                    } else {
                        (Seq::empty(), JsonView::Null)
                    },
            ),
        ),
    }
}

impl View for Json {
    type V = JsonView;

    open spec fn view(&self) -> JsonView {
        contents(*self)
    }
}

/// One level of a parsed value: its variant, with the parts still unopened.
pub enum JsonNode {
    Null,
    Bool(bool),
    Number,
    Text(String),
    Array(Vec<serde_json::Value>),
    Object(Vec<(String, serde_json::Value)>),
}

impl JsonNode {
    /// What the value holds, each part given by its contents.
    pub open spec fn holds(self) -> JsonView {
        match self {
            JsonNode::Null => JsonView::Null,
            JsonNode::Bool(b) => JsonView::Bool(b),
            JsonNode::Number => JsonView::Number,
            JsonNode::Text(s) => JsonView::Text(s@),
            JsonNode::Array(items) => JsonView::Array(
                Seq::new(items@.len(), |i: int| json_contents(items@[i])),
            ),
            JsonNode::Object(fields) => JsonView::Object(
                Seq::new(fields@.len(), |i: int| (fields@[i].0@, json_contents(fields@[i].1))),
            ),
        }
    }
}

/// `serde_json::Value`, a parsed document.
#[verifier::external_type_specification]
#[verifier::external_body]
pub struct ExValue(serde_json::Value);

/// What a `serde_json::Value` holds: its variant and its parts, the fields of an object in the
/// order in which `serde_json::Map` hands them out (sorted by key).
pub uninterp spec fn json_contents(value: serde_json::Value) -> JsonView;

/// What `serde_json::from_str` reads out of a text: the value, or nothing where it fails.
pub uninterp spec fn json_document(document: Seq<char>) -> Option<JsonView>;

/// `serde_json::from_str` into a `serde_json::Value`. Whether it succeeds, and what the value
/// holds, depends on the text alone.
#[verifier::external_body]
fn parse_value(document: &str) -> (r: Option<serde_json::Value>)
    ensures
        r is Some <==> json_document(document@) is Some,
        r matches Some(value) ==> json_document(document@) == Some(json_contents(value)),
{
    serde_json::from_str(document).ok()
}

/// Takes a `serde_json::Value` apart by one level: the node has the variant of the value and
/// hands over its parts. The digits of a number are left behind.
#[verifier::external_body]
fn open_value(value: serde_json::Value) -> (r: JsonNode)
    ensures
        r.holds() == json_contents(value),
{
    match value {
        serde_json::Value::Null => JsonNode::Null,
        serde_json::Value::Bool(b) => JsonNode::Bool(b),
        serde_json::Value::Number(_) => JsonNode::Number,
        serde_json::Value::String(s) => JsonNode::Text(s),
        serde_json::Value::Array(items) => JsonNode::Array(items),
        serde_json::Value::Object(fields) => JsonNode::Object(fields.into_iter().collect()),
    }
}

impl Json {
    /// The tree of a parsed value.
    pub fn from_value(value: serde_json::Value) -> (r: Json)
        ensures
            r@ == json_contents(value),
        decreases json_contents(value),
    {
        let ghost whole = json_contents(value);
        match open_value(value) {
            JsonNode::Null => Json::Null,
            JsonNode::Bool(b) => Json::Bool(b),
            JsonNode::Number => Json::Number,
            JsonNode::Text(s) => Json::Text(s),
            JsonNode::Array(items) => {
                let mut out: Vec<Json> = Vec::new();
                let ghost listed = items@;
                for item in it: items
                    invariant
                        it.seq() == listed,
                        whole is Array,
                        whole->Array_0 == Seq::new(
                            listed.len(),
                            |i: int| json_contents(listed[i]),
                        ),
                        out@.len() == it.index(),
                        forall|i: int|
                            0 <= i < it.index() ==> (#[trigger] out@[i])@ == json_contents(
                                listed[i],
                            ),
                        whole == json_contents(value),
                {
                    let ghost at = it.index();
                    assert(whole->Array_0[at] == json_contents(item));
                    assert(decreases_to!(whole => whole->Array_0[at]));
                    out.push(Json::from_value(item));
                }
                let r = Json::Array(out);
                assert(r@->Array_0 =~= whole->Array_0);
                r
            },
            JsonNode::Object(fields) => {
                let mut out: Vec<(String, Json)> = Vec::new();
                let ghost listed = fields@;
                for field in it: fields
                    invariant
                        it.seq() == listed,
                        whole is Object,
                        whole->Object_0 == Seq::new(
                            listed.len(),
                            |i: int| (listed[i].0@, json_contents(listed[i].1)),
                        ),
                        out@.len() == it.index(),
                        forall|i: int|
                            0 <= i < it.index() ==> (#[trigger] out@[i]).0@ == listed[i].0@
                                && out@[i].1@ == json_contents(listed[i].1),
                        whole == json_contents(value),
                {
                    let ghost at = it.index();
                    assert(whole->Object_0[at].1 == json_contents(field.1));
                    assert(decreases_to!(whole => whole->Object_0[at].1));
                    let (key, part) = field;
                    out.push((key, Json::from_value(part)));
                }
                let r = Json::Object(out);
                assert(r@->Object_0 =~= whole->Object_0);
                r
            },
        }
    }

    /// The document in a text, where it is JSON.
    pub fn parse(document: &str) -> (r: Option<Json>)
        ensures
            opt_view(r) == json_document(document@),
    {
        match parse_value(document) {
            Some(value) => Some(Json::from_value(value)),
            None => None,
        }
    }
}

/// The contents of an optional value.
pub open spec fn opt_view(value: Option<Json>) -> Option<JsonView> {
    match value {
        Some(json) => Some(json@),
        None => None,
    }
}

/// What a field lookup finds in a list of fields: the first entry under the key.
pub open spec fn lookup(fields: Seq<(Seq<char>, JsonView)>, key: Seq<char>) -> JsonView
    decreases fields.len(),
{
    if fields.len() == 0 {
        JsonView::Null
    } else if fields[0].0 == key {
        fields[0].1
    } else {
        lookup(fields.drop_first(), key)
    }
}

/// The field of an object under a key, null for a key that is not there and for anything that is
/// no object.
pub open spec fn field(value: JsonView, key: Seq<char>) -> JsonView {
    match value {
        JsonView::Object(fields) => lookup(fields, key),
        _ => JsonView::Null,
    }
}

/// The text of a value that is one.
pub open spec fn text_of(value: JsonView) -> Option<Seq<char>> {
    match value {
        JsonView::Text(s) => Some(s),
        _ => None,
    }
}

/// The items of a value that is an array.
pub open spec fn items_of(value: JsonView) -> Option<Seq<JsonView>> {
    match value {
        JsonView::Array(items) => Some(items),
        _ => None,
    }
}

/// The first item of a value that is an array with one.
pub open spec fn first_of(value: JsonView) -> Option<JsonView> {
    match value {
        JsonView::Array(items) => if items.len() > 0 {
            Some(items[0])
        } else {
            None
        },
        _ => None,
    }
}

/// A value that may be missing reads as null where it is.
pub open spec fn seen(value: Option<&Json>) -> JsonView {
    match value {
        Some(json) => json@,
        None => JsonView::Null,
    }
}

/// The contents of an optional text.
pub open spec fn opt_text(value: Option<&str>) -> Option<Seq<char>> {
    match value {
        Some(s) => Some(s@),
        None => None,
    }
}

/// The contents of a list of fields.
pub open spec fn fields_view(fields: Seq<(String, Json)>) -> Seq<(Seq<char>, JsonView)> {
    Seq::new(fields.len(), |i: int| (fields[i].0@, fields[i].1@))
}

proof fn lemma_object(json: Json)
    requires
        json is Object,
    ensures
        json@ == JsonView::Object(fields_view(json->Object_0@)),
{
    let fields = json->Object_0;
    assert(json@->Object_0 =~= fields_view(fields@));
}

proof fn lemma_array(json: Json)
    requires
        json is Array,
    ensures
        json@ == JsonView::Array(items_view(json->Array_0@)),
{
    let items = json->Array_0;
    assert(json@->Array_0 =~= items_view(items@));
}

/// The first of the fields under `key`.
fn find_field<'a>(fields: &'a Vec<(String, Json)>, key: &str) -> (r: Option<&'a Json>)
    ensures
        seen(r) == lookup(fields_view(fields@), key@),
{
    let ghost all = fields_view(fields@);
    assert(all.skip(0) =~= all);
    let mut at: usize = 0;
    while at < fields.len()
        invariant
            at <= fields@.len(),
            all == fields_view(fields@),
            lookup(all, key@) == lookup(all.skip(at as int), key@),
        decreases fields@.len() - at,
    {
        if text::same(fields[at].0.as_str(), key) {
            return Some(&fields[at].1);
        }
        assert(all.skip(at as int).drop_first() =~= all.skip(at + 1));
        at += 1;
    }
    None
}

/// The field of `value` under `key`; nothing where the lookup reads null.
pub fn get<'a>(value: Option<&'a Json>, key: &str) -> (r: Option<&'a Json>)
    ensures
        seen(r) == field(seen(value), key@),
{
    match value {
        Some(json) => match json {
            Json::Object(fields) => {
                proof {
                    lemma_object(*json);
                }
                find_field(fields, key)
            },
            _ => None,
        },
        None => None,
    }
}

/// The text of a value that is one.
pub fn as_str<'a>(value: Option<&'a Json>) -> (r: Option<&'a str>)
    ensures
        opt_text(r) == text_of(seen(value)),
{
    match value {
        Some(Json::Text(s)) => Some(s.as_str()),
        _ => None,
    }
}

/// Whether a value is null or missing.
pub fn is_null(value: Option<&Json>) -> (r: bool)
    ensures
        r == (seen(value) is Null),
{
    match value {
        None => true,
        Some(Json::Null) => true,
        _ => false,
    }
}

/// The first item of a value that is an array with one.
pub fn first<'a>(value: Option<&'a Json>) -> (r: Option<&'a Json>)
    ensures
        r is Some <==> first_of(seen(value)) is Some,
        r matches Some(item) ==> first_of(seen(value)) == Some(item@),
{
    match value {
        Some(Json::Array(items)) => {
            if items.len() > 0 {
                Some(&items[0])
            } else {
                None
            }
        },
        _ => None,
    }
}

/// The contents of a list of values.
pub open spec fn items_view(items: Seq<Json>) -> Seq<JsonView> {
    Seq::new(items.len(), |i: int| items[i]@)
}

/// An array of values.
pub fn array(items: Vec<Json>) -> (r: Json)
    ensures
        r@ == JsonView::Array(items_view(items@)),
{
    let r = Json::Array(items);
    proof {
        lemma_array(r);
    }
    r
}

/// An object with fields.
pub fn object(fields: Vec<(String, Json)>) -> (r: Json)
    ensures
        r@ == JsonView::Object(fields_view(fields@)),
{
    let r = Json::Object(fields);
    proof {
        lemma_object(r);
    }
    r
}

/// A text as a value.
pub fn text_value(s: &str) -> (r: Json)
    ensures
        r@ == JsonView::Text(s@),
{
    Json::Text(s.to_string())
}

/// Adds a field.
pub fn push_field(fields: &mut Vec<(String, Json)>, key: &str, value: Json)
    ensures
        fields_view(final(fields)@) == fields_view(old(fields)@).push((key@, value@)),
{
    fields.push((key.to_string(), value));
    assert(fields_view(fields@) =~= fields_view(old(fields)@).push((key@, value@)));
}

/// The items of a value that is an array.
pub fn as_array<'a>(value: Option<&'a Json>) -> (r: Option<&'a Vec<Json>>)
    ensures
        match r {
            Some(items) => items_of(seen(value)) == Some(items_view(items@)),
            None => items_of(seen(value)) is None,
        },
{
    match value {
        Some(json) => match json {
            Json::Array(items) => {
                proof {
                    lemma_array(*json);
                }
                Some(items)
            },
            _ => None,
        },
        None => None,
    }
}

/// Looking a key up gives what the first field of that name holds, and null where there is none, or
/// where there are no fields at all.
pub proof fn law_fields_are_found(fields: Seq<(Seq<char>, JsonView)>, key: Seq<char>, i: int)
    ensures
        0 <= i < fields.len() && fields[i].0 == key && (forall|j: int|
            0 <= j < i ==> (#[trigger] fields[j]).0 != key) ==> field(JsonView::Object(fields), key)
            == fields[i].1,
        (forall|j: int| 0 <= j < fields.len() ==> (#[trigger] fields[j]).0 != key) ==> field(
            JsonView::Object(fields),
            key,
        ) == JsonView::Null,
    decreases fields.len(),
{
    if fields.len() > 0 && fields[0].0 != key {
        let rest = fields.drop_first();
        law_fields_are_found(rest, key, i - 1);
        assert forall|j: int| 0 <= j < rest.len() implies #[trigger] rest[j] == fields[j + 1] by {}
    }
}

/// Each value gives out only what it is: fields an object, a text a text, items an array.
pub proof fn law_values_give_what_they_are(
    value: JsonView,
    key: Seq<char>,
    s: Seq<char>,
    items: Seq<JsonView>,
)
    ensures
        text_of(JsonView::Text(s)) == Some(s),
        items_of(JsonView::Array(items)) == Some(items),
        items.len() > 0 ==> first_of(JsonView::Array(items)) == Some(items[0]),
        items.len() == 0 ==> first_of(JsonView::Array(items)) is None,
        !(value is Object) ==> field(value, key) == JsonView::Null,
        !(value is Text) ==> text_of(value) is None,
        !(value is Array) ==> items_of(value) is None && first_of(value) is None,
{
}

/// A document is told as it is: its texts, its items and its fields, in their order.
pub proof fn law_documents_are_told_as_they_are(
    s: String,
    b: bool,
    items: Vec<Json>,
    fields: Vec<(String, Json)>,
    i: int,
)
    ensures
        Json::Null@ == JsonView::Null,
        Json::Number@ == JsonView::Number,
        Json::Bool(b)@ == JsonView::Bool(b),
        Json::Text(s)@ == JsonView::Text(s@),
        Json::Array(items)@ is Array,
        Json::Array(items)@->Array_0.len() == items@.len(),
        0 <= i < items@.len() ==> Json::Array(items)@->Array_0[i] == items@[i]@,
        Json::Object(fields)@ is Object,
        Json::Object(fields)@->Object_0.len() == fields@.len(),
        0 <= i < fields@.len() ==> Json::Object(fields)@->Object_0[i] == (
            fields@[i].0@,
            fields@[i].1@,
        ),
        items_view(items@) == Json::Array(items)@->Array_0,
        fields_view(fields@) == Json::Object(fields)@->Object_0,
{
    assert(items_view(items@) =~= Json::Array(items)@->Array_0);
    assert(fields_view(fields@) =~= Json::Object(fields)@->Object_0);
}

} // verus!
