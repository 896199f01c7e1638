//! JSON documents as plain values, and the calls into `serde_json` that read
//! and write their text.
use serde_json::Value;
use vstd::prelude::*;

use crate::text::same_text;

verus! {

/// A JSON number.
#[derive(Debug, PartialEq, Eq)]
pub enum JsonNumber {
    /// An integer from 0 up to `u64::MAX`.
    Unsigned(u64),
    /// A negative integer from `i64::MIN` on.
    Negative(i64),
    /// Any other number, by its text.
    Other(String),
}

/// Model of a [`JsonNumber`].
pub enum NumberView {
    Unsigned(u64),
    Negative(i64),
    Other(Seq<char>),
}

/// A JSON document. The fields of an object keep the order of the text.
#[derive(Debug, PartialEq, Eq)]
pub enum Json {
    Null,
    Bool(bool),
    Number(JsonNumber),
    Str(String),
    Array(Vec<Json>),
    Object(Vec<(String, Json)>),
}

/// Model of a [`Json`] document.
#[verifier::ext_equal]
pub enum JsonView {
    Null,
    Bool(bool),
    Number(NumberView),
    Str(Seq<char>),
    Array(Seq<JsonView>),
    Object(Seq<(Seq<char>, JsonView)>),
}

impl DeepView for JsonNumber {
    type V = NumberView;

    open spec fn deep_view(&self) -> NumberView {
        match self {
            JsonNumber::Unsigned(n) => NumberView::Unsigned(*n),
            JsonNumber::Negative(n) => NumberView::Negative(*n),
            JsonNumber::Other(text) => NumberView::Other(text@),
        }
    }
}

/// The document that a [`Json`] value holds.
pub open spec fn json_view(json: Json) -> JsonView
    decreases json,
{
    match json {
        Json::Null => JsonView::Null,
        Json::Bool(b) => JsonView::Bool(b),
        Json::Number(n) => JsonView::Number(n.deep_view()),
        Json::Str(text) => JsonView::Str(text@),
        Json::Array(items) => JsonView::Array(
            Seq::new(
                items@.len(),
                |i: int|
                    if 0 <= i < items@.len() {
                        json_view(items@[i])
                    } else {
                        JsonView::Null
                    },
            ),
        ),
        Json::Object(fields) => JsonView::Object(
            Seq::new(
                fields@.len(),
                |i: int|
                    if 0 <= i < fields@.len() {
                        (fields@[i].0@, json_view(fields@[i].1))
                    } else {
                        (Seq::empty(), JsonView::Null)
                    },
            ),
        ),
    }
}

impl DeepView for Json {
    type V = JsonView;

    open spec fn deep_view(&self) -> JsonView {
        json_view(*self)
    }
}

/// An array is seen item by item.
pub proof fn lemma_array_view(json: Json)
    requires
        json is Array,
    ensures
        json.deep_view() is Array,
        json.deep_view()->Array_0.len() == json->Array_0@.len(),
        forall|i: int|
            0 <= i < json->Array_0@.len() ==> (#[trigger] json.deep_view()->Array_0[i])
                == json->Array_0@[i].deep_view(),
        json.deep_view()->Array_0 == json->Array_0.deep_view(),
{
    reveal_with_fuel(json_view, 2);
    assert(json.deep_view()->Array_0 =~= json->Array_0.deep_view());
}

/// An object is seen field by field.
pub proof fn lemma_object_view(json: Json)
    requires
        json is Object,
    ensures
        json.deep_view() is Object,
        json.deep_view()->Object_0.len() == json->Object_0@.len(),
        forall|i: int|
            0 <= i < json->Object_0@.len() ==> (#[trigger] json.deep_view()->Object_0[i]) == (
                json->Object_0@[i].0@,
                json->Object_0@[i].1.deep_view(),
            ),
        json.deep_view()->Object_0 == json->Object_0.deep_view(),
{
    reveal_with_fuel(json_view, 2);
    assert(json.deep_view()->Object_0 =~= json->Object_0.deep_view());
}

impl Clone for Json {
    fn clone(&self) -> (r: Self)
        ensures
            r.deep_view() == self.deep_view(),
        decreases self,
    {
        match self {
            Json::Null => Json::Null,
            Json::Bool(b) => Json::Bool(*b),
            Json::Number(JsonNumber::Unsigned(n)) => Json::Number(JsonNumber::Unsigned(*n)),
            Json::Number(JsonNumber::Negative(n)) => Json::Number(JsonNumber::Negative(*n)),
            Json::Number(JsonNumber::Other(text)) => Json::Number(JsonNumber::Other(text.clone())),
            Json::Str(text) => Json::Str(text.clone()),
            Json::Array(items) => {
                let mut out: Vec<Json> = Vec::new();
                let mut i: usize = 0;
                while i < items.len()
                    invariant
                        i <= items.len(),
                        out@.len() == i,
                        decreases_to!(self => items),
                        forall|j: int|
                            0 <= j < i ==> (#[trigger] out@[j]).deep_view() == items@[j].deep_view(),
                    decreases items.len() - i,
                {
                    out.push(items[i].clone());
                    i += 1;
                }
                let r = Json::Array(out);
                proof {
                    lemma_array_view(r);
                    lemma_array_view(*self);
                }
                assert(r.deep_view()->Array_0 =~= self.deep_view()->Array_0);
                r
            },
            Json::Object(fields) => {
                let mut out: Vec<(String, Json)> = Vec::new();
                let mut i: usize = 0;
                while i < fields.len()
                    invariant
                        i <= fields.len(),
                        out@.len() == i,
                        decreases_to!(self => fields),
                        forall|j: int|
                            0 <= j < i ==> (#[trigger] out@[j]).0@ == fields@[j].0@
                                && out@[j].1.deep_view() == fields@[j].1.deep_view(),
                    decreases fields.len() - i,
                {
                    out.push((fields[i].0.clone(), fields[i].1.clone()));
                    i += 1;
                }
                let r = Json::Object(out);
                proof {
                    lemma_object_view(r);
                    lemma_object_view(*self);
                }
                assert(r.deep_view()->Object_0 =~= self.deep_view()->Object_0);
                r
            },
        }
    }
}

/// The value of the field `key`: that of the first field of that name in an
/// object, nothing in any other document.
pub open spec fn get(json: JsonView, key: Seq<char>) -> Option<JsonView> {
    match json {
        JsonView::Object(fields) => find_field(fields, key),
        _ => None,
    }
}

/// The value of the first field named `key`.
pub open spec fn find_field(fields: Seq<(Seq<char>, JsonView)>, key: Seq<char>) -> Option<JsonView>
    decreases fields.len(),
{
    if fields.len() == 0 {
        None
    } else if fields[0].0 == key {
        Some(fields[0].1)
    } else {
        find_field(fields.drop_first(), key)
    }
}

/// The text of a string document.
pub open spec fn str_of(json: Option<JsonView>) -> Option<Seq<char>> {
    match json {
        Some(JsonView::Str(text)) => Some(text),
        _ => None,
    }
}

/// The value of a Boolean document.
pub open spec fn bool_of(json: Option<JsonView>) -> Option<bool> {
    match json {
        Some(JsonView::Bool(b)) => Some(b),
        _ => None,
    }
}

/// The value of a document that is an unsigned integer.
pub open spec fn u64_of(json: Option<JsonView>) -> Option<u64> {
    match json {
        Some(JsonView::Number(NumberView::Unsigned(n))) => Some(n),
        _ => None,
    }
}

/// The value of a document that is an integer between the bounds of `i64`.
pub open spec fn i64_of(json: Option<JsonView>) -> Option<i64> {
    match json {
        Some(JsonView::Number(NumberView::Unsigned(n))) if n <= i64::MAX => Some(n as i64),
        Some(JsonView::Number(NumberView::Negative(n))) => Some(n),
        _ => None,
    }
}

impl Json {
    /// The value of the first field named `key`, in an object.
    pub fn get(&self, key: &str) -> (r: Option<&Json>)
        ensures
            r is Some <==> get(self.deep_view(), key@) is Some,
            r matches Some(value) ==> get(self.deep_view(), key@) == Some(value.deep_view()),
    {
        match self {
            Json::Object(fields) => {
                proof {
                    lemma_object_view(*self);
                }
                let ghost whole = self.deep_view()->Object_0;
                let mut i: usize = 0;
                assert(whole.skip(0) =~= whole);
                while i < fields.len()
                    invariant
                        i <= fields.len(),
                        whole.len() == fields@.len(),
                        forall|j: int|
                            0 <= j < whole.len() ==> (#[trigger] whole[j]) == (
                                fields@[j].0@,
                                fields@[j].1.deep_view(),
                            ),
                        find_field(whole, key@) == find_field(whole.skip(i as int), key@),
                        get(self.deep_view(), key@) == find_field(whole, key@),
                    decreases fields.len() - i,
                {
                    assert(whole.skip(i as int)[0] == whole[i as int]);
                    assert(whole.skip(i as int).drop_first() =~= whole.skip(i + 1));
                    if same_text(fields[i].0.as_str(), key) {
                        return Some(&fields[i].1);
                    }
                    i += 1;
                }
                None
            },
            _ => None,
        }
    }

    /// The text of a string document.
    pub fn as_str(&self) -> (r: Option<&str>)
        ensures
            r is Some <==> str_of(Some(self.deep_view())) is Some,
            r matches Some(text) ==> str_of(Some(self.deep_view())) == Some(text@),
    {
        match self {
            Json::Str(text) => Some(text.as_str()),
            _ => None,
        }
    }

    /// The value of a Boolean document.
    pub fn as_bool(&self) -> (r: Option<bool>)
        ensures
            r == bool_of(Some(self.deep_view())),
    {
        match self {
            Json::Bool(b) => Some(*b),
            _ => None,
        }
    }

    /// The value of a document that is an unsigned integer.
    pub fn as_u64(&self) -> (r: Option<u64>)
        ensures
            r == u64_of(Some(self.deep_view())),
    {
        match self {
            Json::Number(JsonNumber::Unsigned(n)) => Some(*n),
            _ => None,
        }
    }

    /// The value of a document that is an integer between the bounds of `i64`.
    pub fn as_i64(&self) -> (r: Option<i64>)
        ensures
            r == i64_of(Some(self.deep_view())),
    {
        match self {
            Json::Number(JsonNumber::Unsigned(n)) => if *n <= i64::MAX as u64 {
                Some(*n as i64)
            } else {
                None
            },
            Json::Number(JsonNumber::Negative(n)) => Some(*n),
            _ => None,
        }
    }

    /// The text of the field `key`, where it is a string.
    pub fn str_field(&self, key: &str) -> (r: Option<String>)
        ensures
            r.deep_view() == str_of(get(self.deep_view(), key@)),
    {
        match self.get(key) {
            Some(value) => match value.as_str() {
                Some(text) => Some(text.to_owned()),
                None => None,
            },
            None => None,
        }
    }

    /// The value of the field `key`, where it is a Boolean.
    pub fn bool_field(&self, key: &str) -> (r: Option<bool>)
        ensures
            r == bool_of(get(self.deep_view(), key@)),
    {
        match self.get(key) {
            Some(value) => value.as_bool(),
            None => None,
        }
    }

    /// The value of the field `key`, where it is an unsigned integer.
    pub fn u64_field(&self, key: &str) -> (r: Option<u64>)
        ensures
            r == u64_of(get(self.deep_view(), key@)),
    {
        match self.get(key) {
            Some(value) => value.as_u64(),
            None => None,
        }
    }

    /// The value of the field `key`, where it is an integer of `i64`.
    pub fn i64_field(&self, key: &str) -> (r: Option<i64>)
        ensures
            r == i64_of(get(self.deep_view(), key@)),
    {
        match self.get(key) {
            Some(value) => value.as_i64(),
            None => None,
        }
    }

    /// A string document.
    pub fn string(text: &str) -> (r: Json)
        ensures
            r.deep_view() == JsonView::Str(text@),
    {
        Json::Str(text.to_owned())
    }

    /// An unsigned integer document.
    pub fn unsigned(n: u64) -> (r: Json)
        ensures
            r.deep_view() == JsonView::Number(NumberView::Unsigned(n)),
    {
        Json::Number(JsonNumber::Unsigned(n))
    }

    /// An array document.
    pub fn array(items: Vec<Json>) -> (r: Json)
        ensures
            r.deep_view() == JsonView::Array(items.deep_view()),
    {
        let r = Json::Array(items);
        proof {
            lemma_array_view(r);
        }
        r
    }

    /// An object document with the fields in the given order.
    pub fn object(fields: Vec<(String, Json)>) -> (r: Json)
        ensures
            r.deep_view() == JsonView::Object(fields.deep_view()),
    {
        let r = Json::Object(fields);
        proof {
            lemma_object_view(r);
        }
        r
    }
}

/// Append the field `key` to a list of fields.
pub fn put(fields: &mut Vec<(String, Json)>, key: &str, value: Json)
    ensures
        final(fields).deep_view() == old(fields).deep_view().push((key@, value.deep_view())),
{
    let ghost before = fields.deep_view();
    fields.push((key.to_owned(), value));
    assert(fields.deep_view() =~= before.push((key@, value.deep_view())));
}

/// Append an item to a list of documents.
pub fn add_item(items: &mut Vec<Json>, value: Json)
    ensures
        final(items).deep_view() == old(items).deep_view().push(value.deep_view()),
{
    let ghost before = items.deep_view();
    items.push(value);
    assert(items.deep_view() =~= before.push(value.deep_view()));
}

/// Documents that `serde_json` holds exactly as they are: every number is an
/// integer, negative numbers are negative, and no object has a key twice.
pub open spec fn plain(json: JsonView) -> bool
    decreases json,
{
    match json {
        JsonView::Number(NumberView::Other(_)) => false,
        JsonView::Number(NumberView::Negative(n)) => n < 0,
        JsonView::Array(items) => forall|i: int| 0 <= i < items.len() ==> plain(#[trigger] items[i]),
        JsonView::Object(fields) => {
            &&& forall|i: int| 0 <= i < fields.len() ==> plain((#[trigger] fields[i]).1)
            &&& forall|i: int, j: int|
                0 <= i < j < fields.len() ==> (#[trigger] fields[i]).0 != (#[trigger] fields[j]).0
        },
        _ => true,
    }
}

proof fn lemma_plain_items(items: Seq<JsonView>, at: int)
    requires
        plain(JsonView::Array(items)),
        0 <= at < items.len(),
    ensures
        plain(items[at]),
{
    let doc = JsonView::Array(items);
    assert(doc->Array_0 == items);
    assert(match doc {
        JsonView::Array(list) => forall|i: int| 0 <= i < list.len() ==> plain(#[trigger] list[i]),
        _ => true,
    });
}

proof fn lemma_plain_fields(fields: Seq<(Seq<char>, JsonView)>, at: int, other: int)
    requires
        plain(JsonView::Object(fields)),
        0 <= at < fields.len(),
    ensures
        plain(fields[at].1),
        0 <= other < at ==> fields[other].0 != fields[at].0,
{
    let doc = JsonView::Object(fields);
    assert(doc->Object_0 == fields);
    assert(match doc {
        JsonView::Object(list) => {
            &&& forall|i: int| 0 <= i < list.len() ==> plain((#[trigger] list[i]).1)
            &&& forall|i: int, j: int|
                0 <= i < j < list.len() ==> (#[trigger] list[i]).0 != (#[trigger] list[j]).0
        },
        _ => true,
    });
}

/// Whether `serde_json` holds a document exactly as it is.
pub fn is_plain(json: &Json) -> (r: bool)
    ensures
        r == plain(json.deep_view()),
    decreases json,
{
    match json {
        Json::Null => true,
        Json::Bool(_) => true,
        Json::Number(number) => match number {
            JsonNumber::Unsigned(_) => true,
            JsonNumber::Negative(n) => *n < 0,
            JsonNumber::Other(_) => false,
        },
        Json::Str(_) => true,
        Json::Array(items) => {
            proof {
                lemma_array_view(*json);
            }
            let ghost views = items.deep_view();
            let mut i: usize = 0;
            while i < items.len()
                invariant
                    i <= items@.len(),
                    views == items.deep_view(),
                    json.deep_view() == JsonView::Array(views),
                    decreases_to!(json => items),
                    forall|k: int| 0 <= k < i ==> plain(#[trigger] views[k]),
                decreases items@.len() - i,
            {
                assert(views.len() == items@.len());
                assert(views[i as int] == items@[i as int].deep_view());
                if !is_plain(&items[i]) {
                    proof {
                        if plain(json.deep_view()) {
                            lemma_plain_items(views, i as int);
                        }
                    }
                    return false;
                }
                i += 1;
            }
            assert(views.len() == items@.len());
            true
        },
        Json::Object(fields) => {
            proof {
                lemma_object_view(*json);
            }
            let ghost views = fields.deep_view();
            let mut i: usize = 0;
            while i < fields.len()
                invariant
                    i <= fields@.len(),
                    views == fields.deep_view(),
                    json.deep_view() == JsonView::Object(views),
                    decreases_to!(json => fields),
                    forall|k: int| 0 <= k < i ==> plain((#[trigger] views[k]).1),
                    forall|k: int, m: int|
                        0 <= k < m < i ==> (#[trigger] views[k]).0 != (#[trigger] views[m]).0,
                decreases fields@.len() - i,
            {
                assert(views.len() == fields@.len());
                assert(views[i as int] == fields@[i as int].deep_view());
                if !is_plain(&fields[i].1) {
                    proof {
                        if plain(json.deep_view()) {
                            lemma_plain_fields(views, i as int, 0);
                        }
                    }
                    return false;
                }
                let mut k: usize = 0;
                while k < i
                    invariant
                        k <= i < fields@.len(),
                        views == fields.deep_view(),
                        views.len() == fields@.len(),
                        json.deep_view() == JsonView::Object(views),
                        forall|m: int| 0 <= m < k ==> (#[trigger] views[m]).0 != views[i as int].0,
                    decreases i - k,
                {
                    assert(views[k as int] == fields@[k as int].deep_view());
                    assert(views[i as int] == fields@[i as int].deep_view());
                    if same_text(fields[k].0.as_str(), fields[i].0.as_str()) {
                        proof {
                            if plain(json.deep_view()) {
                                lemma_plain_fields(views, i as int, k as int);
                            }
                        }
                        return false;
                    }
                    k += 1;
                }
                i += 1;
            }
            assert(views.len() == fields@.len());
            true
        },
    }
}

/// Plain documents that `serde_json` reads back as it wrote them: no deeper than
/// `depth` arrays and objects inside one another, and with no key that may be
/// one of its own.
pub open spec fn readable(json: JsonView, depth: nat) -> bool
    decreases json,
{
    match json {
        JsonView::Number(NumberView::Other(_)) => false,
        JsonView::Number(NumberView::Negative(n)) => n < 0,
        JsonView::Array(items) => depth > 0 && forall|i: int|
            0 <= i < items.len() ==> readable(#[trigger] items[i], (depth - 1) as nat),
        JsonView::Object(fields) => {
            &&& depth > 0
            &&& forall|i: int|
                0 <= i < fields.len() ==> {
                    let (key, value) = #[trigger] fields[i];
                    readable(value, (depth - 1) as nat) && (key.len() > 0 ==> key[0] != '$')
                }
            &&& forall|i: int, j: int|
                0 <= i < j < fields.len() ==> (#[trigger] fields[i]).0 != (#[trigger] fields[j]).0
        },
        _ => true,
    }
}

/// Nesting that is read back for certain.
pub const READABLE_DEPTH: usize = 100;

/// A document as `serde_json` holds it.
#[verifier::external_type_specification]
#[verifier::external_body]
pub struct ExValue(serde_json::Value);

/// What a `serde_json` document holds: its variant, with the text of a string,
/// the items of an array and the fields of an object in their order, and a
/// number by its integer value or, where it is no such integer, by its text.
pub uninterp spec fn value_contents(value: serde_json::Value) -> JsonView;

/// What `serde_json` reads from a text: the document, or the text of its error.
pub uninterp spec fn json_parsed(text: Seq<char>) -> Result<JsonView, Seq<char>>;

/// Whether a text spells this document.
pub open spec fn reads_as(text: Seq<char>, json: JsonView) -> bool {
    json_parsed(text) == Ok::<JsonView, Seq<char>>(json)
}

/// What `serde_json` writes for a document, without white space.
pub uninterp spec fn json_text_of(json: JsonView) -> Seq<char>;

/// What `serde_json` writes for a document with line breaks and indentation.
pub uninterp spec fn pretty_text_of(json: JsonView) -> Seq<char>;

/// `serde_json::from_str` into a `Value`: the outcome is a function of the
/// text, the error being known by the text it displays.
#[verifier::external_body]
fn parse_value(text: &str) -> (r: Result<serde_json::Value, String>)
    ensures
        json_parsed(text@) == match r {
            Ok(value) => Ok(value_contents(value)),
            Err(error) => Err(error@),
        },
{
    serde_json::from_str::<serde_json::Value>(text).map_err(|error| error.to_string())
}

/// One arm for each variant of `serde_json::Value`: the result holds the same
/// document. `Number::as_u64` and `Number::as_i64` give the integers.
#[verifier::external_body]
fn json_of_value(value: Value) -> (r: Json)
    ensures
        r.deep_view() == value_contents(value),
{
    match value {
        Value::Null => Json::Null,
        Value::Bool(b) => Json::Bool(b),
        Value::Number(n) => match (n.as_u64(), n.as_i64()) {
            (Some(u), _) => Json::Number(JsonNumber::Unsigned(u)),
            (None, Some(i)) => Json::Number(JsonNumber::Negative(i)),
            (None, None) => Json::Number(JsonNumber::Other(n.to_string())),
        },
        Value::String(s) => Json::Str(s),
        Value::Array(a) => Json::Array(a.into_iter().map(json_of_value).collect()),
        Value::Object(o) => Json::Object(
            o.into_iter().map(|(k, v)| (k, json_of_value(v))).collect(),
        ),
    }
}

/// One arm for each variant: the `serde_json::Value` that holds the same
/// document, for documents that it can hold unchanged.
#[verifier::external_body]
fn value_of_json(json: &Json) -> (r: Value)
    requires
        plain(json.deep_view()),
    ensures
        value_contents(r) == json.deep_view(),
{
    match json {
        Json::Null => Value::Null,
        Json::Bool(b) => Value::Bool(*b),
        Json::Number(JsonNumber::Unsigned(n)) => Value::from(*n),
        Json::Number(JsonNumber::Negative(n)) => Value::from(*n),
        Json::Number(JsonNumber::Other(s)) => Value::from(s.as_str()),
        Json::Str(s) => Value::from(s.as_str()),
        Json::Array(a) => Value::Array(a.iter().map(value_of_json).collect()),
        Json::Object(o) => Value::Object(
            o.iter().map(|(k, v)| (k.clone(), value_of_json(v))).collect(),
        ),
    }
}

/// `to_string` of a `serde_json::Value`: the text is a function of the document.
#[verifier::external_body]
fn value_text(value: &serde_json::Value) -> (r: String)
    ensures
        r@ == json_text_of(value_contents(*value)),
{
    value.to_string()
}

/// `serde_json::to_string_pretty` of a `Value`: it succeeds, the text is a
/// function of the document, and reading it gives a readable document back.
#[verifier::external_body]
fn value_pretty_text(value: &serde_json::Value) -> (r: Option<String>)
    ensures
        r.deep_view() == Some(pretty_text_of(value_contents(*value))),
        r matches Some(text) ==> readable(value_contents(*value), READABLE_DEPTH as nat)
            ==> reads_as(text@, value_contents(*value)),
{
    serde_json::to_string_pretty(value).ok()
}

/// The document that `text` spells, or the text of the parse error.
pub fn parse_json(text: &str) -> (r: Result<Json, String>)
    ensures
        json_parsed(text@) == match r {
            Ok(json) => Ok::<JsonView, Seq<char>>(json.deep_view()),
            Err(error) => Err(error@),
        },
{
    match parse_value(text) {
        Ok(value) => Ok(json_of_value(value)),
        Err(error) => Err(error),
    }
}

/// The document that `text` spells, together with the text that it is written
/// back as.
pub fn parse_with_text(text: &str) -> (r: Result<(Json, String), String>)
    ensures
        json_parsed(text@) == match r {
            Ok(parsed) => Ok::<JsonView, Seq<char>>(parsed.0.deep_view()),
            Err(error) => Err(error@),
        },
        r matches Ok(parsed) ==> parsed.1@ == json_text_of(parsed.0.deep_view()),
{
    match parse_value(text) {
        Ok(value) => {
            let written = value_text(&value);
            Ok((json_of_value(value), written))
        },
        Err(error) => Err(error),
    }
}

/// The text of a document, without white space.
pub fn json_text(json: &Json) -> (r: String)
    requires
        plain(json.deep_view()),
    ensures
        r@ == json_text_of(json.deep_view()),
{
    value_text(&value_of_json(json))
}

/// The text of a document with line breaks and indentation.
pub fn pretty_text(json: &Json) -> (r: Option<String>)
    requires
        plain(json.deep_view()),
    ensures
        r.deep_view() == Some(pretty_text_of(json.deep_view())),
        r matches Some(text) ==> readable(json.deep_view(), READABLE_DEPTH as nat)
            ==> reads_as(text@, json.deep_view()),
{
    value_pretty_text(&value_of_json(json))
}

/// A field is found by its name: the first one of that name, wherever it stands,
/// and nothing where no field has the name.
pub proof fn fields_are_found_by_name(
    fields: Seq<(Seq<char>, JsonView)>,
    key: Seq<char>,
    at: int,
)
    requires
        0 <= at <= fields.len(),
        forall|i: int| 0 <= i < at ==> (#[trigger] fields[i]).0 != key,
        at < fields.len() ==> fields[at].0 == key,
    ensures
        get(JsonView::Object(fields), key) == if at < fields.len() {
            Some(fields[at].1)
        } else {
            None
        },
    decreases at,
{
    if at > 0 {
        let rest = fields.drop_first();
        assert(fields[0].0 != key);
        assert forall|i: int| 0 <= i < at - 1 implies (#[trigger] rest[i]).0 != key by {
            assert(rest[i] == fields[i + 1]);
        }
        fields_are_found_by_name(rest, key, at - 1);
        assert(get(JsonView::Object(rest), key) == find_field(rest, key));
    }
}

/// Only objects have fields, and a value is read as what it is: a text as a text,
/// a switch as a switch, a number as a number.
pub proof fn values_are_read_as_what_they_are(json: JsonView, key: Seq<char>)
    ensures
        !(json is Object) ==> get(json, key) is None,
        str_of(Some(json)) == match json {
            JsonView::Str(text) => Some(text),
            _ => None,
        },
        bool_of(Some(json)) == match json {
            JsonView::Bool(value) => Some(value),
            _ => None,
        },
        u64_of(Some(json)) == match json {
            JsonView::Number(NumberView::Unsigned(n)) => Some(n),
            _ => None,
        },
        json matches JsonView::Number(NumberView::Unsigned(n)) ==> (n <= i64::MAX ==> i64_of(
            Some(json),
        ) == Some(n as i64)) && (n > i64::MAX ==> i64_of(Some(json)) is None),
        json matches JsonView::Number(NumberView::Negative(n)) ==> i64_of(Some(json)) == Some(n),
        str_of(None) is None && bool_of(None) is None && u64_of(None) is None && i64_of(
            None,
        ) is None,
{
}

} // verus!
