//! JSON as plain values.

use vstd::prelude::*;

use serde_json::Value as SerdeJson;

verus! {

/// A JSON value as plain values; a number is kept as the text it was
/// written as.
#[derive(Debug)]
pub enum JsonValue {
    Null,
    Bool(bool),
    Number(String),
    Str(String),
    Array(Vec<JsonValue>),
    Object(Vec<(String, JsonValue)>),
}

pub enum JsonView {
    Null,
    Bool(bool),
    Number(Seq<char>),
    Str(Seq<char>),
    Array(Seq<JsonView>),
    Object(Seq<(Seq<char>, JsonView)>),
}

pub open spec fn json_view(v: JsonValue) -> JsonView
    decreases v, 0int,
{
    match v {
        JsonValue::Null => JsonView::Null,
        JsonValue::Bool(b) => JsonView::Bool(b),
        JsonValue::Number(n) => JsonView::Number(n@),
        JsonValue::Str(s) => JsonView::Str(s@),
        JsonValue::Array(items) => JsonView::Array(item_views(items@, items@.len() as int)),
        JsonValue::Object(fields) => JsonView::Object(field_views(fields@, fields@.len() as int)),
    }
}

/// The views of the first `n` items.
pub open spec fn item_views(items: Seq<JsonValue>, n: int) -> Seq<JsonView>
    decreases items, n,
{
    if n <= 0 || n > items.len() {
        Seq::empty()
    } else {
        item_views(items, n - 1).push(json_view(items[n - 1]))
    }
}

/// The views of the first `n` fields.
pub open spec fn field_views(fields: Seq<(String, JsonValue)>, n: int) -> Seq<(Seq<char>, JsonView)>
    decreases fields, n,
{
    if n <= 0 || n > fields.len() {
        Seq::empty()
    } else {
        field_views(fields, n - 1).push((fields[n - 1].0@, json_view(fields[n - 1].1)))
    }
}

pub proof fn lemma_field_views(fields: Seq<(String, JsonValue)>, n: int)
    requires
        0 <= n <= fields.len(),
    ensures
        field_views(fields, n).len() == n,
        forall|i: int| 0 <= i < n ==> #[trigger] field_views(fields, n)[i] == (fields[i].0@, json_view(fields[i].1)),
    decreases n,
{
    if n > 0 {
        lemma_field_views(fields, n - 1);
    }
}

pub proof fn lemma_item_views(items: Seq<JsonValue>, n: int)
    requires
        0 <= n <= items.len(),
    ensures
        item_views(items, n).len() == n,
        forall|i: int| 0 <= i < n ==> #[trigger] item_views(items, n)[i] == json_view(items[i]),
    decreases n,
{
    if n > 0 {
        lemma_item_views(items, n - 1);
    }
}

/// A value viewed, and its parse's outcome viewed.
pub open spec fn opt_json_view(v: Option<JsonValue>) -> Option<JsonView> {
    match v {
        Some(j) => Some(json_view(j)),
        None => None,
    }
}

/// What `serde_json::from_str` makes of `text`: the value it holds, or
/// `None` when it is not JSON.
pub uninterp spec fn json_parse(text: Seq<char>) -> Option<JsonView>;

#[verifier::external_type_specification]
#[verifier::external_body]
pub struct ExSerdeJson(SerdeJson);

/// `serde_json::Value` as plain values, variant for variant.
#[verifier::external_body]
fn plain_json(v: SerdeJson) -> JsonValue {
    match v {
        SerdeJson::Null => JsonValue::Null,
        SerdeJson::Bool(b) => JsonValue::Bool(b),
        SerdeJson::Number(n) => JsonValue::Number(n.to_string()),
        SerdeJson::String(s) => JsonValue::Str(s),
        SerdeJson::Array(a) => JsonValue::Array(a.into_iter().map(plain_json).collect()),
        SerdeJson::Object(m) => JsonValue::Object(m.into_iter().map(|(k, v)| (k, plain_json(v))).collect()),
    }
}

/// `serde_json::from_str::<serde_json::Value>`, whose outcome is
/// [`json_parse`] of the text.
#[verifier::external_body]
pub(crate) fn parse_json(text: &str) -> (r: Option<JsonValue>)
    ensures
        opt_json_view(r) == json_parse(text@),
{
    serde_json::from_str::<SerdeJson>(text).ok().map(plain_json)
}

/// The index of the first of the first `n` fields named `key`.
pub open spec fn key_index(fields: Seq<(Seq<char>, JsonView)>, key: Seq<char>, n: int) -> Option<int>
    decreases n,
{
    if n <= 0 {
        None
    } else {
        match key_index(fields, key, n - 1) {
            Some(i) => Some(i),
            None => if fields[n - 1].0 == key { Some(n - 1) } else { None },
        }
    }
}

proof fn lemma_key_index(fields: Seq<(Seq<char>, JsonView)>, key: Seq<char>, n: int)
    requires
        0 <= n <= fields.len(),
    ensures
        key_index(fields, key, n) matches Some(i) ==> 0 <= i < n && fields[i].0 == key,
        key_index(fields, key, n) is None ==> forall|i: int| 0 <= i < n ==> #[trigger] fields[i].0 != key,
    decreases n,
{
    if n > 0 {
        lemma_key_index(fields, key, n - 1);
    }
}

proof fn lemma_key_index_extends(fields: Seq<(Seq<char>, JsonView)>, key: Seq<char>, a: int, b: int)
    requires
        a <= b,
        key_index(fields, key, a) is Some,
    ensures
        key_index(fields, key, b) == key_index(fields, key, a),
    decreases b - a,
{
    if a < b {
        lemma_key_index_extends(fields, key, a, b - 1);
    }
}

/// The member `key` of an object: its first field so named.
pub open spec fn member(v: JsonView, key: Seq<char>) -> Option<JsonView> {
    match v {
        JsonView::Object(fields) => match key_index(fields, key, fields.len() as int) {
            Some(i) => Some(fields[i].1),
            None => None,
        },
        _ => None,
    }
}

/// The text of a string value.
pub open spec fn str_of(v: Option<JsonView>) -> Option<Seq<char>> {
    match v {
        Some(JsonView::Str(s)) => Some(s),
        _ => None,
    }
}

pub fn member_of<'a>(v: &'a JsonValue, key: &str) -> (r: Option<&'a JsonValue>)
    ensures
        match member(json_view(*v), key@) {
            Some(m) => r is Some && json_view(*r->0) == m,
            None => r is None,
        },
{
    match v {
        JsonValue::Object(fields) => {
            let k = crate::text::chars_of(key);
            let ghost fv = field_views(fields@, fields@.len() as int);
            proof {
                lemma_field_views(fields@, fields@.len() as int);
            }
            assert(json_view(*v) == JsonView::Object(fv));
            let mut i: usize = 0;
            while i < fields.len()
                invariant
                    i <= fields@.len(),
                    k@ == key@,
                    fv == field_views(fields@, fields@.len() as int),
                    fv.len() == fields@.len(),
                    forall|j: int| 0 <= j < fields@.len() ==> #[trigger] fv[j] == (fields@[j].0@, json_view(fields@[j].1)),
                    key_index(fv, key@, i as int) is None,
                json_view(*v) == JsonView::Object(fv),
                decreases fields.len() - i,
            {
                assert(fv[i as int] == (fields@[i as int].0@, json_view(fields@[i as int].1)));
                if crate::text::seq_eq(&crate::text::chars_of(fields[i].0.as_str()), &k) {
                    proof {
                        assert(key_index(fv, key@, i + 1) == Some(i as int));
                        lemma_key_index_extends(fv, key@, i + 1, fv.len() as int);
                    }
                    return Some(&fields[i].1);
                }
                i = i + 1;
            }
            None
        },
        _ => None,
    }
}

/// The text of `v` when it is a string.
pub fn text_of(v: Option<&JsonValue>) -> (r: Option<String>)
    ensures
        match str_of(match v { Some(j) => Some(json_view(*j)), None => None }) {
            Some(s) => r is Some && r->0@ == s,
            None => r is None,
        },
{
    match v {
        Some(JsonValue::Str(s)) => Some(s.as_str().to_owned()),
        _ => None,
    }
}

} // verus!
