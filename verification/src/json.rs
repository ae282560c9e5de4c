//! JSON values as the library reads them, and the paths it reads through them.
//! A missing member, a member of something that is not an object and an item
//! past the end of an array all read as nothing (`None`).
use vstd::prelude::*;
use crate::model::opt_view;
use crate::text::{all_digits, digits_val, chars_of, parse_digits, str_eq};

verus! {

/// A JSON value. A number keeps the text JSON writes for it; an object keeps
/// its members in the order the parser gives them.
#[derive(Debug)]
pub enum JsonValue {
    Null,
    Bool(bool),
    Number(String),
    Text(String),
    Array(Vec<JsonValue>),
    Object(Vec<(String, JsonValue)>),
}

#[verifier::external_type_specification]
#[verifier::external_body]
pub struct ExSerdeJsonValue(serde_json::Value);

/// The value `serde_json` reads from `text`, or nothing when `text` is not JSON.
pub uninterp spec fn json_parse(text: Seq<char>) -> Option<JsonValue>;

/// A `serde_json::Value` as a `JsonValue`, variant for variant: a number as the
/// text it displays, an object as its members in the map's order.
#[verifier::external_body]
fn json_value_from(v: &serde_json::Value) -> JsonValue {
    match v {
        serde_json::Value::Null => JsonValue::Null,
        serde_json::Value::Bool(b) => JsonValue::Bool(*b),
        serde_json::Value::Number(n) => JsonValue::Number(n.to_string()),
        serde_json::Value::String(s) => JsonValue::Text(s.clone()),
        serde_json::Value::Array(a) => JsonValue::Array(a.iter().map(json_value_from).collect()),
        serde_json::Value::Object(o) => JsonValue::Object(o.iter().map(|(k, x)| (k.clone(), json_value_from(x))).collect()),
    }
}

/// `serde_json::from_str` into a value: the value named by `json_parse`, or
/// the parser's error message, which is not stated.
#[verifier::external_body]
pub(crate) fn parse_json(text: &str) -> (r: Result<JsonValue, String>)
    ensures
        r is Ok <==> json_parse(text@) is Some,
        r matches Ok(v) ==> json_parse(text@) == Some(v),
{
    match serde_json::from_str::<serde_json::Value>(text) {
        Ok(v) => Ok(json_value_from(&v)),
        Err(e) => Err(e.to_string()),
    }
}

pub open spec fn opt_ref(v: Option<&JsonValue>) -> Option<JsonValue> {
    match v {
        Some(x) => Some(*x),
        None => None,
    }
}

/// The value of the first member named `k`.
pub open spec fn entry_value(es: Seq<(String, JsonValue)>, k: Seq<char>) -> Option<JsonValue>
    decreases es.len(),
{
    if es.len() == 0 {
        None
    } else if es[0].0@ == k {
        Some(es[0].1)
    } else {
        entry_value(es.drop_first(), k)
    }
}

/// Member `k` of an object.
pub open spec fn field(v: Option<JsonValue>, k: Seq<char>) -> Option<JsonValue> {
    match v {
        Some(JsonValue::Object(es)) => entry_value(es@, k),
        _ => None,
    }
}

/// Item `i` of an array.
pub open spec fn item(v: Option<JsonValue>, i: int) -> Option<JsonValue> {
    match v {
        Some(JsonValue::Array(a)) => if 0 <= i < a@.len() { Some(a@[i]) } else { None },
        _ => None,
    }
}

/// The items of an array; none for anything else.
pub open spec fn items(v: Option<JsonValue>) -> Seq<JsonValue> {
    match v {
        Some(JsonValue::Array(a)) => a@,
        _ => Seq::empty(),
    }
}

/// The members of an object; none for anything else.
pub open spec fn members_of(v: Option<JsonValue>) -> Seq<(String, JsonValue)> {
    match v {
        Some(JsonValue::Object(es)) => es@,
        _ => Seq::empty(),
    }
}

pub open spec fn text_of(v: Option<JsonValue>) -> Option<Seq<char>> {
    match v {
        Some(JsonValue::Text(s)) => Some(s@),
        _ => None,
    }
}

pub open spec fn bool_of(v: Option<JsonValue>) -> Option<bool> {
    match v {
        Some(JsonValue::Bool(b)) => Some(b),
        _ => None,
    }
}

/// A number that is a whole number from 0 to `u64::MAX`, as `as_u64` reads it.
pub open spec fn u64_of(v: Option<JsonValue>) -> Option<u64> {
    match v {
        Some(JsonValue::Number(s)) => if s@.len() > 0 && all_digits(s@) && digits_val(s@) <= u64::MAX {
            Some(digits_val(s@) as u64)
        } else {
            None
        },
        _ => None,
    }
}

/// Member `k` of `v`.
pub fn get_field<'a>(v: Option<&'a JsonValue>, k: &str) -> (r: Option<&'a JsonValue>)
    ensures
        opt_ref(r) == field(opt_ref(v), k@),
{
    match v {
        Some(JsonValue::Object(es)) => {
            let mut i: usize = 0;
            assert(es@.skip(0) =~= es@);
            while i < es.len()
                invariant
                    i <= es@.len(),
                    entry_value(es@, k@) == entry_value(es@.skip(i as int), k@),
                    field(opt_ref(v), k@) == entry_value(es@, k@),
                decreases es@.len() - i,
            {
                assert(es@.skip(i as int)[0] == es@[i as int]);
                assert(es@.skip(i as int).drop_first() =~= es@.skip(i + 1));
                if str_eq(es[i].0.as_str(), k) {
                    assert(entry_value(es@.skip(i as int), k@) == Some(es@[i as int].1));
                    return Some(&es[i].1);
                }
                i += 1;
            }
            None
        },
        _ => None,
    }
}

/// Item `i` of `v`.
pub fn get_item<'a>(v: Option<&'a JsonValue>, i: usize) -> (r: Option<&'a JsonValue>)
    ensures
        opt_ref(r) == item(opt_ref(v), i as int),
{
    match v {
        Some(JsonValue::Array(a)) => if i < a.len() { Some(&a[i]) } else { None },
        _ => None,
    }
}

/// The text of `v`, when it is a string.
pub fn get_text(v: Option<&JsonValue>) -> (r: Option<String>)
    ensures
        opt_view(r) == text_of(opt_ref(v)),
{
    match v {
        Some(JsonValue::Text(s)) => Some(s.clone()),
        _ => None,
    }
}

/// The text of `v`, or "" when it is not a string.
pub fn get_text_or_empty(v: Option<&JsonValue>) -> (r: String)
    ensures
        r@ == match text_of(opt_ref(v)) { Some(s) => s, None => Seq::<char>::empty() },
{
    match v {
        Some(JsonValue::Text(s)) => s.clone(),
        _ => String::new(),
    }
}

/// The truth value of `v`, when it is one.
pub fn get_bool(v: Option<&JsonValue>) -> (r: Option<bool>)
    ensures
        r == bool_of(opt_ref(v)),
{
    match v {
        Some(JsonValue::Bool(b)) => Some(*b),
        _ => None,
    }
}

/// The value of `v` as a `u64`, when it is a whole number in range.
pub fn get_u64(v: Option<&JsonValue>) -> (r: Option<u64>)
    ensures
        r == u64_of(opt_ref(v)),
{
    match v {
        Some(JsonValue::Number(s)) => {
            let cs = chars_of(s.as_str());
            let n = cs.len();
            assert(cs@.subrange(0, n as int) =~= cs@);
            parse_digits(&cs, 0, n, 18446744073709551615)
        },
        _ => None,
    }
}

} // verus!
