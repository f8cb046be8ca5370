//! The JSON value model that all grammars of this crate decode from and
//! encode to.
//!
//! JSON5 text is parsed by the `json5` crate into a `serde_json::Value`,
//! which is converted to the crate's own [`Json`] type so that verified
//! code can inspect it.  Non-integer numbers have no place in any schema
//! of this crate and are rejected at this boundary.

use vstd::prelude::*;

verus! {

/// A JSON value, as the grammars of this crate see it.
pub enum Json {
    Null,
    Bool(bool),
    Int(i128),
    Str(String),
    Arr(Vec<Json>),
    Obj(Vec<(String, Json)>),
}

/// The mathematical model of a [`Json`] value.
pub enum JsonView {
    Null,
    Bool(bool),
    Int(int),
    Str(Seq<char>),
    Arr(Seq<JsonView>),
    Obj(Seq<(Seq<char>, JsonView)>),
}

pub open spec fn json_view(j: Json) -> JsonView
    decreases j,
{
    match j {
        Json::Null => JsonView::Null,
        Json::Bool(b) => JsonView::Bool(b),
        Json::Int(n) => JsonView::Int(n as int),
        Json::Str(s) => JsonView::Str(s@),
        Json::Arr(v) => JsonView::Arr(json_seq_view(v@)),
        Json::Obj(v) => JsonView::Obj(json_pairs_view(v@)),
    }
}

pub open spec fn json_seq_view(s: Seq<Json>) -> Seq<JsonView>
    decreases s,
{
    if s.len() == 0 {
        Seq::empty()
    } else {
        json_seq_view(s.drop_last()).push(json_view(s.last()))
    }
}

pub open spec fn json_pairs_view(s: Seq<(String, Json)>) -> Seq<(Seq<char>, JsonView)>
    decreases s,
{
    if s.len() == 0 {
        Seq::empty()
    } else {
        json_pairs_view(s.drop_last()).push((s.last().0@, json_view(s.last().1)))
    }
}

impl View for Json {
    type V = JsonView;

    open spec fn view(&self) -> JsonView {
        json_view(*self)
    }
}

pub broadcast proof fn lemma_json_seq_view_len(s: Seq<Json>)
    ensures
        #[trigger] json_seq_view(s).len() == s.len(),
    decreases s,
{
    if s.len() > 0 {
        lemma_json_seq_view_len(s.drop_last());
    }
}

pub broadcast proof fn lemma_json_seq_view_index(s: Seq<Json>, i: int)
    requires
        0 <= i < s.len(),
    ensures
        #[trigger] json_seq_view(s)[i] == json_view(s[i]),
    decreases s,
{
    lemma_json_seq_view_len(s);
    if i < s.len() - 1 {
        lemma_json_seq_view_index(s.drop_last(), i);
    }
}

pub broadcast proof fn lemma_json_pairs_view_len(s: Seq<(String, Json)>)
    ensures
        #[trigger] json_pairs_view(s).len() == s.len(),
    decreases s,
{
    if s.len() > 0 {
        lemma_json_pairs_view_len(s.drop_last());
    }
}

pub broadcast proof fn lemma_json_pairs_view_index(s: Seq<(String, Json)>, i: int)
    requires
        0 <= i < s.len(),
    ensures
        #[trigger] json_pairs_view(s)[i] == (s[i].0@, json_view(s[i].1)),
    decreases s,
{
    lemma_json_pairs_view_len(s);
    if i < s.len() - 1 {
        lemma_json_pairs_view_index(s.drop_last(), i);
    }
}

pub broadcast proof fn lemma_json_pairs_view_push(s: Seq<(String, Json)>, p: (String, Json))
    ensures
        #[trigger] json_pairs_view(s.push(p)) == json_pairs_view(s).push((p.0@, json_view(p.1))),
{
    assert(s.push(p).drop_last() =~= s);
    assert(s.push(p).last() == p);
}

/// The value that the JSON5 grammar gives to a text, if the text is
/// well-formed JSON5 and its numbers are integers; `None` otherwise.
pub uninterp spec fn json5_parsed(s: Seq<char>) -> Option<JsonView>;

/// The JSON5 rendering of a value, if serialization succeeds (it does for
/// every value this crate builds).
pub uninterp spec fn json5_text(v: JsonView) -> Option<Seq<char>>;

/// The strict-JSON rendering of a value, if serialization succeeds.
pub uninterp spec fn json_text(v: JsonView) -> Option<Seq<char>>;

#[verifier::external_type_specification]
#[verifier::external_body]
pub struct ExValue(serde_json::Value);

/// Converts a `serde_json::Value` into the crate's own model.  Returns
/// `None` when the value holds a number that is not an integer.
#[verifier::external_body]
fn json_of_value(v: &serde_json::Value) -> Option<Json> {
    match v {
        serde_json::Value::Null => Some(Json::Null),
        serde_json::Value::Bool(b) => Some(Json::Bool(*b)),
        serde_json::Value::Number(n) => n.as_i128().map(Json::Int),
        serde_json::Value::String(s) => Some(Json::Str(s.clone())),
        serde_json::Value::Array(a) => a.iter().map(json_of_value).collect::<Option<Vec<Json>>>().map(Json::Arr),
        serde_json::Value::Object(m) => m.iter().map(|(k, x)| json_of_value(x).map(|y| (k.clone(), y))).collect::<Option<Vec<(String, Json)>>>().map(Json::Obj),
    }
}

/// Converts a value of the crate's model back into a `serde_json::Value`.
/// Returns `None` when an integer does not fit a JSON number.
#[verifier::external_body]
fn value_of_json(j: &Json) -> Option<serde_json::Value> {
    match j {
        Json::Null => Some(serde_json::Value::Null),
        Json::Bool(b) => Some(serde_json::Value::Bool(*b)),
        Json::Int(n) => serde_json::Number::from_i128(*n).map(serde_json::Value::Number),
        Json::Str(s) => Some(serde_json::Value::String(s.clone())),
        Json::Arr(a) => a.iter().map(value_of_json).collect::<Option<Vec<serde_json::Value>>>().map(serde_json::Value::Array),
        Json::Obj(m) => m.iter().map(|(k, x)| value_of_json(x).map(|y| (k.clone(), y))).collect::<Option<serde_json::Map<String, serde_json::Value>>>().map(serde_json::Value::Object),
    }
}

/// Relies on `json5::from_str::<serde_json::Value>`: parses JSON5 text;
/// the result is a function of the text alone.
#[verifier::external_body]
pub(crate) fn parse_json5(s: &str) -> (r: Option<Json>)
    ensures
        r matches Some(j) ==> json5_parsed(s@) == Some(j@),
        r is None ==> json5_parsed(s@) is None,
{
    match json5::from_str::<serde_json::Value>(s) {
        Ok(v) => json_of_value(&v),
        Err(_) => None,
    }
}

/// Relies on `json5::to_string`: renders a value as JSON5 text; the
/// result is a function of the value alone.
#[verifier::external_body]
pub(crate) fn to_json5_text(j: &Json) -> (r: Option<String>)
    ensures
        r matches Some(t) ==> json5_text(j@) == Some(t@),
        r is None ==> json5_text(j@) is None,
{
    value_of_json(j).and_then(|v| json5::to_string(&v).ok())
}

/// Relies on `serde_json::to_string`: renders a value as strict JSON
/// text; the result is a function of the value alone.
#[verifier::external_body]
pub(crate) fn to_json_text(j: &Json) -> (r: Option<String>)
    ensures
        r matches Some(t) ==> json_text(j@) == Some(t@),
        r is None ==> json_text(j@) is None,
{
    value_of_json(j).and_then(|v| serde_json::to_string(&v).ok())
}

/// Relies on `<str as PartialEq>::eq`: two string slices are equal
/// exactly when their character sequences are.
#[verifier::external_body]
pub(crate) fn str_eq(a: &str, b: &str) -> (r: bool)
    ensures
        r == (a@ == b@),
{
    a == b
}

} // verus!
