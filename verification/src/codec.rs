//! JSON as text: reading and writing, by `serde_json`.

use crate::json::{self, Json, JsonView, Numeral};
use crate::order;
use vstd::prelude::*;

verus! {

#[verifier::external_type_specification]
#[verifier::external_body]
pub struct ExValue(serde_json::Value);

/// What a `serde_json::Value` holds; the members of an object in the order of their names.
pub uninterp spec fn held(v: serde_json::Value) -> JsonView;

/// The integer of 64 bits that a `serde_json::Number` holds, as its `as_u64` or else its `as_i64`
/// gives it; nothing where it holds none.
pub uninterp spec fn whole(n: serde_json::Number) -> Option<int>;

/// The value that the bytes of a JSON text stand for, as `serde_json::from_slice` reads them;
/// nothing where it refuses them.
pub uninterp spec fn read_text(bytes: Seq<u8>) -> Option<JsonView>;

/// Why `serde_json::from_slice` refuses the bytes, in its words.
pub uninterp spec fn refusal(bytes: Seq<u8>) -> Seq<char>;

/// The text of a value without blanks, as `Display` of `serde_json::Value` writes it.
pub uninterp spec fn compact_text(v: JsonView) -> Seq<char>;

/// The text of a value over several lines, as `serde_json::to_string_pretty` writes it.
pub uninterp spec fn pretty_text(v: JsonView) -> Seq<char>;

/// Whether the members of every object in `v` stand in the order of their names, no two of them
/// with the same name.
pub open spec fn ordered(v: JsonView) -> bool
    decreases v,
{
    match v {
        JsonView::Array(s) => forall|i: int| 0 <= i < s.len() ==> ordered(#[trigger] s[i]),
        JsonView::Object(m) => {
            &&& forall|i: int, j: int|
                0 <= i < j < m.len() ==> order::before((#[trigger] m[i]).0, (#[trigger] m[j]).0)
            &&& forall|i: int| 0 <= i < m.len() ==> ordered((#[trigger] m[i]).1)
        },
        _ => true,
    }
}

/// The value with the members of every object in the order of their names; of two with the same
/// name the later counts. A number that holds an integer is that integer.
pub open spec fn normal(v: JsonView) -> JsonView
    decreases v,
{
    match v {
        JsonView::Array(s) => JsonView::Array(normal_all(s)),
        JsonView::Object(m) => JsonView::Object(normal_members(m)),
        JsonView::OtherNumber(n) => match whole(n) {
            Some(i) => JsonView::Int(i),
            None => v,
        },
        _ => v,
    }
}

/// Each value of an array in its normal form.
pub open spec fn normal_all(s: Seq<JsonView>) -> Seq<JsonView>
    decreases s,
{
    if s.len() == 0 {
        Seq::empty()
    } else {
        normal_all(s.drop_last()).push(normal(s.last()))
    }
}

/// The members of an object in normal form: each put in its place in turn.
pub open spec fn normal_members(m: Seq<(Seq<char>, JsonView)>) -> Seq<(Seq<char>, JsonView)>
    decreases m,
{
    if m.len() == 0 {
        Seq::empty()
    } else {
        json::with_member(normal_members(m.drop_last()), m.last().0, normal(m.last().1))
    }
}

/// `serde_json::from_slice` into a `serde_json::Value`: the value that the bytes stand for, or the
/// text of its error where they are no JSON text.
#[verifier::external_body]
fn parse_value(bytes: &[u8]) -> (r: Result<serde_json::Value, String>)
    ensures
        match r {
            Ok(v) => read_text(bytes@) == Some(held(v)),
            Err(why) => read_text(bytes@) is None && why@ == refusal(bytes@),
        },
{
    serde_json::from_slice::<serde_json::Value>(bytes).map_err(|e| e.to_string())
}

/// Takes a `serde_json::Value` apart, one variant after another. An object of `serde_json` hands
/// its members out in the order of their names, each name once.
#[verifier::external_body]
fn from_value(v: serde_json::Value) -> (r: Json)
    ensures
        r@ == held(v),
        ordered(r@),
{
    match v {
        serde_json::Value::Null => Json::Null,
        serde_json::Value::Bool(b) => Json::Bool(b),
        serde_json::Value::Number(n) => Json::Number(match (n.as_u64(), n.as_i64()) {
            (Some(u), _) => Numeral::Unsigned(u),
            (None, Some(i)) => Numeral::Negative(i),
            (None, None) => Numeral::Other(n),
        }),
        serde_json::Value::String(s) => Json::Str(s),
        serde_json::Value::Array(a) => Json::Array(a.into_iter().map(from_value).collect()),
        serde_json::Value::Object(o) =>
            Json::Object(o.into_iter().map(|(k, x)| (k, from_value(x))).collect()),
    }
}

/// Puts a `serde_json::Value` together, one variant after another. An object of `serde_json`
/// keeps its members in the order of their names and replaces one of the same name. A number that
/// is carried along counts as an integer where it holds one.
#[verifier::external_body]
fn to_value(j: &Json) -> (r: serde_json::Value)
    ensures
        held(r) == normal(j@),
        j@ matches JsonView::OtherNumber(n) ==> whole(n) matches Some(i) ==> held(r)
            == JsonView::Int(i),
{
    match j {
        Json::Null => serde_json::Value::Null,
        Json::Bool(b) => serde_json::Value::Bool(*b),
        Json::Number(Numeral::Unsigned(u)) => serde_json::Value::from(*u),
        Json::Number(Numeral::Negative(i)) => serde_json::Value::from(*i),
        Json::Number(Numeral::Other(n)) => serde_json::Value::Number(n.clone()),
        Json::Str(s) => serde_json::Value::from(s.as_str()),
        Json::Array(v) => serde_json::Value::Array(v.iter().map(to_value).collect()),
        Json::Object(m) => serde_json::Value::Object(
            m.iter().map(|(k, x)| (k.clone(), to_value(x))).collect(),
        ),
    }
}

/// `Display` of `serde_json::Value`: its text without blanks.
#[verifier::external_body]
fn write_compact(v: &serde_json::Value) -> (r: String)
    ensures
        r@ == compact_text(held(*v)),
{
    v.to_string()
}

/// `serde_json::to_string_pretty`: the text of a value over several lines. It does not fail on a
/// `serde_json::Value`.
#[verifier::external_body]
fn write_pretty(v: &serde_json::Value) -> (r: String)
    ensures
        r@ == pretty_text(held(*v)),
{
    serde_json::to_string_pretty(v).unwrap_or_default()
}

/// The value that the bytes of a JSON text stand for.
pub fn parse(bytes: &[u8]) -> (r: Option<Json>)
    ensures
        json::opt_view(r) == read_text(bytes@),
        r matches Some(j) ==> ordered(j@),
{
    match parse_value(bytes) {
        Ok(v) => Some(from_value(v)),
        Err(_) => None,
    }
}

/// The value that the bytes of a JSON text stand for, or why they are none.
pub fn parse_or_reason(bytes: &[u8]) -> (r: Result<Json, String>)
    ensures
        match r {
            Ok(j) => read_text(bytes@) == Some(j@) && ordered(j@),
            Err(why) => read_text(bytes@) is None && why@ == refusal(bytes@),
        },
{
    match parse_value(bytes) {
        Ok(v) => Ok(from_value(v)),
        Err(why) => Err(why),
    }
}

/// The text of a value without blanks.
pub fn compact(j: &Json) -> (r: String)
    ensures
        r@ == compact_text(normal(j@)),
{
    write_compact(&to_value(j))
}

/// The text of a value over several lines.
pub fn pretty(j: &Json) -> (r: String)
    ensures
        r@ == pretty_text(normal(j@)),
{
    write_pretty(&to_value(j))
}

} // verus!
