//! JSON values as far as a ranking is read from them.
use vstd::prelude::*;

use crate::text::same_text;

verus! {

/// A JSON value. Everything that a ranking never reads (texts, fractions,
/// negative numbers, booleans, null) is [`Json::Other`].
#[derive(Debug)]
pub enum Json {
    Unsigned(u64),
    Array(Vec<Json>),
    /// The fields in the order in which they are kept, each key once.
    Object(Vec<(String, Json)>),
    Other,
}

/// What a [`Json`] says.
pub enum JsonView {
    Unsigned(u64),
    Array(Seq<JsonView>),
    Object(Seq<(Seq<char>, JsonView)>),
    Other,
}

impl Json {
    pub open spec fn view(&self) -> JsonView
        decreases self,
    {
        match self {
            Json::Unsigned(n) => JsonView::Unsigned(*n),
            Json::Array(items) => JsonView::Array(
                Seq::new(
                    items@.len(),
                    |i: int|
                        if 0 <= i < items@.len() {
                            items@[i].view()
                        } else {
                            arbitrary()
                        },
                ),
            ),
            Json::Object(fields) => JsonView::Object(
                Seq::new(
                    fields@.len(),
                    |i: int|
                        if 0 <= i < fields@.len() {
                            (fields@[i].0@, fields@[i].1.view())
                        } else {
                            arbitrary()
                        },
                ),
            ),
            Json::Other => JsonView::Other,
        }
    }
}

pub open spec fn json_views(v: Seq<Json>) -> Seq<JsonView> {
    Seq::new(v.len(), |i: int| v[i].view())
}

pub open spec fn field_views(v: Seq<(String, Json)>) -> Seq<(Seq<char>, JsonView)> {
    Seq::new(v.len(), |i: int| (v[i].0@, v[i].1.view()))
}

pub proof fn lemma_view(json: Json)
    ensures
        json matches Json::Array(items) ==> json.view() == JsonView::Array(json_views(items@)),
        json matches Json::Object(fields) ==> json.view() == JsonView::Object(
            field_views(fields@),
        ),
{
    match json {
        Json::Array(items) => {
            assert(json.view()->Array_0 =~= json_views(items@));
        },
        Json::Object(fields) => {
            assert(json.view()->Object_0 =~= field_views(fields@));
        },
        _ => {},
    }
}

/// The value of the first field with the given key.
pub open spec fn field_of(fields: Seq<(Seq<char>, JsonView)>, key: Seq<char>) -> Option<JsonView>
    decreases fields.len(),
{
    if fields.len() == 0 {
        None
    } else if fields[0].0 == key {
        Some(fields[0].1)
    } else {
        field_of(fields.drop_first(), key)
    }
}

pub fn field<'a>(fields: &'a Vec<(String, Json)>, key: &str) -> (r: Option<&'a Json>)
    ensures
        match r {
            Some(value) => field_of(field_views(fields@), key@) == Some(value.view()),
            None => field_of(field_views(fields@), key@) is None,
        },
{
    let ghost all = field_views(fields@);
    let mut i: usize = 0;
    assert(all.skip(0) =~= all);
    while i < fields.len()
        invariant
            all == field_views(fields@),
            i <= fields@.len(),
            field_of(all, key@) == field_of(all.skip(i as int), key@),
        decreases fields@.len() - i,
    {
        assert(all.skip(i as int)[0] == (fields@[i as int].0@, fields@[i as int].1.view()));
        assert(all.skip(i as int).drop_first() =~= all.skip(i + 1));
        if same_text(fields[i].0.as_str(), key) {
            return Some(&fields[i].1);
        }
        i = i + 1;
    }
    None
}

// ─── The parser ───

/// A JSON value of serde_json. What it holds is read through [`read_json`].
#[verifier::external_type_specification]
#[verifier::external_body]
pub struct ExValue(serde_json::Value);

/// What a value of serde_json holds.
pub uninterp spec fn value_of(value: serde_json::Value) -> JsonView;

/// The value that a text denotes, where it is a JSON text.
pub uninterp spec fn json_of(text: Seq<char>) -> Option<JsonView>;

/// `serde_json::from_str`: the value of a JSON text, or nothing where it refuses
/// the text. The value is named, not described; it depends on the text alone.
#[verifier::external_body]
fn parse_value(text: &str) -> (r: Option<serde_json::Value>)
    ensures
        match r {
            Some(value) => json_of(text@) == Some(value_of(value)),
            None => json_of(text@) is None,
        },
{
    serde_json::from_str(text).ok()
}

/// `Value::as_u64` (serde_json): the number, where the value is an integer that
/// fits.
pub assume_specification[ serde_json::Value::as_u64 ](value: &serde_json::Value) -> (r: Option<
    u64,
>)
    ensures
        r == (match value_of(*value) {
            JsonView::Unsigned(n) => Some(n),
            _ => None,
        }),
;

/// `Value::as_array` (serde_json): the items, where the value is an array.
pub assume_specification[ serde_json::Value::as_array ](value: &serde_json::Value) -> (r: Option<
    &Vec<serde_json::Value>,
>)
    ensures
        match r {
            Some(items) => value_of(*value) == JsonView::Array(
                Seq::new(items@.len(), |i: int| value_of(items@[i])),
            ),
            None => !(value_of(*value) is Array),
        },
;

/// `Value::as_object` and `Map::iter` (serde_json): the fields, where the value
/// is an object, in the order in which it keeps them.
#[verifier::external_body]
fn object_fields(value: &serde_json::Value) -> (r: Option<Vec<(String, &serde_json::Value)>>)
    ensures
        match r {
            Some(fields) => value_of(*value) == JsonView::Object(
                Seq::new(fields@.len(), |i: int| (fields@[i].0@, value_of(*fields@[i].1))),
            ),
            None => !(value_of(*value) is Object),
        },
{
    let fields = value.as_object()?;
    Some(fields.iter().map(|(key, item)| (key.clone(), item)).collect())
}

fn read_json(value: &serde_json::Value) -> (r: Json)
    ensures
        r.view() == value_of(*value),
    decreases value_of(*value),
{
    if let Some(n) = value.as_u64() {
        return Json::Unsigned(n);
    }
    if let Some(items) = value.as_array() {
        let ghost all = value_of(*value)->Array_0;
        let mut out: Vec<Json> = Vec::new();
        let mut i: usize = 0;
        while i < items.len()
            invariant
                value_of(*value) == JsonView::Array(all),
                all == Seq::new(items@.len(), |k: int| value_of(items@[k])),
                i <= items@.len(),
                out@.len() == i,
                forall|k: int| 0 <= k < i ==> (#[trigger] out@[k]).view() == all[k],
            decreases items@.len() - i,
        {
            assert(all[i as int] == value_of(items@[i as int]));
            assert(decreases_to!(value_of(*value) => value_of(*value)->Array_0[i as int]));
            out.push(read_json(&items[i]));
            i = i + 1;
        }
        let r = Json::Array(out);
        proof {
            lemma_view(r);
            assert(json_views(out@) =~= all);
        }
        return r;
    }
    if let Some(fields) = object_fields(value) {
        let ghost all = value_of(*value)->Object_0;
        let mut out: Vec<(String, Json)> = Vec::new();
        let mut i: usize = 0;
        while i < fields.len()
            invariant
                value_of(*value) == JsonView::Object(all),
                all == Seq::new(fields@.len(), |k: int| (fields@[k].0@, value_of(*fields@[k].1))),
                i <= fields@.len(),
                out@.len() == i,
                forall|k: int|
                    0 <= k < i ==> ((#[trigger] out@[k]).0@, out@[k].1.view()) == all[k],
            decreases fields@.len() - i,
        {
            assert(all[i as int].1 == value_of(*fields@[i as int].1));
            assert(decreases_to!(value_of(*value) => value_of(*value)->Object_0[i as int].1));
            let key = fields[i].0.clone();
            out.push((key, read_json(fields[i].1)));
            i = i + 1;
        }
        let r = Json::Object(out);
        proof {
            lemma_view(r);
            assert(field_views(out@) =~= all);
        }
        return r;
    }
    Json::Other
}

pub open spec fn opt_json(json: Option<Json>) -> Option<JsonView> {
    match json {
        Some(j) => Some(j.view()),
        None => None,
    }
}

/// The value of a JSON text, or nothing where it is none.
pub fn parse_json(text: &str) -> (r: Option<Json>)
    ensures
        opt_json(r) == json_of(text@),
{
    match parse_value(text) {
        Some(value) => Some(read_json(&value)),
        None => None,
    }
}

}
