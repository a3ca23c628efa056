//! A JSON document as plain values, read through `serde_json`.
use vstd::prelude::*;

use crate::text::str_eq;

verus! {

/// A parsed JSON value.
///
/// Numbers keep what the library reads of them: their value as a `u64`
/// when they are a non-negative integer that fits, and their text.
#[derive(Debug)]
pub enum JsonValue {
    Null,
    Bool(bool),
    Number { as_u64: Option<u64>, text: String },
    Str(String),
    Array(Vec<JsonValue>),
    Object(Vec<(String, JsonValue)>),
}

#[verifier::external_type_specification]
#[verifier::external_body]
pub struct ExSerdeJsonValue(serde_json::Value);

/// The value `serde_json` parses `text` into, converted member for member;
/// `None` when `text` is not one JSON document.
pub uninterp spec fn spec_parse_json(text: Seq<char>) -> Option<JsonValue>;

/// `serde_json::from_str::<serde_json::Value>`, converted to a [`JsonValue`].
/// Claimed: the result is a function of the text alone (`spec_parse_json`);
/// nothing more of its shape is stated.
#[verifier::external_body]
pub(crate) fn parse_json(text: &str) -> (r: Option<JsonValue>)
    ensures
        r == spec_parse_json(text@),
{
    serde_json::from_str::<serde_json::Value>(text).ok().map(from_serde)
}

/// Converts a `serde_json::Value` variant for variant; a number keeps
/// `Number::as_u64` and its `Display` text, an object its members in
/// `serde_json::Map` iteration order.
#[verifier::external_body]
fn from_serde(v: serde_json::Value) -> JsonValue {
    match v {
        serde_json::Value::Null => JsonValue::Null,
        serde_json::Value::Bool(b) => JsonValue::Bool(b),
        serde_json::Value::Number(n) => JsonValue::Number { as_u64: n.as_u64(), text: n.to_string() },
        serde_json::Value::String(s) => JsonValue::Str(s),
        serde_json::Value::Array(a) => JsonValue::Array(a.into_iter().map(from_serde).collect()),
        serde_json::Value::Object(m) => JsonValue::Object(
            m.into_iter().map(|(k, v)| (k, from_serde(v))).collect(),
        ),
    }
}

/// The value of the first member named `key`, if any.
pub open spec fn members_get(m: Seq<(String, JsonValue)>, key: Seq<char>) -> Option<JsonValue>
    decreases m.len(),
{
    if m.len() == 0 {
        None
    } else if m[0].0@ == key {
        Some(m[0].1)
    } else {
        members_get(m.drop_first(), key)
    }
}

/// `Value::get(key)`: the member named `key` of an object; `None` for any
/// other value.
pub open spec fn get_spec(v: JsonValue, key: Seq<char>) -> Option<JsonValue> {
    match v {
        JsonValue::Object(m) => members_get(m@, key),
        _ => None,
    }
}

/// `Value::as_str`.
pub open spec fn as_str_spec(v: Option<JsonValue>) -> Option<Seq<char>> {
    match v {
        Some(JsonValue::Str(s)) => Some(s@),
        _ => None,
    }
}

/// `Value::as_bool`.
pub open spec fn as_bool_spec(v: Option<JsonValue>) -> Option<bool> {
    match v {
        Some(JsonValue::Bool(b)) => Some(b),
        _ => None,
    }
}

/// A borrowed optional value, as a value.
pub open spec fn opt_val(r: Option<&JsonValue>) -> Option<JsonValue> {
    match r {
        Some(x) => Some(*x),
        None => None,
    }
}

/// The member named `key` of an object.
pub fn get<'a>(v: &'a JsonValue, key: &str) -> (r: Option<&'a JsonValue>)
    ensures
        opt_val(r) == get_spec(*v, key@),
{
    match v {
        JsonValue::Object(m) => {
            let mut i: usize = 0;
            assert(m@.skip(0) =~= m@);
            while i < m.len()
                invariant
                    i <= m.len(),
                    members_get(m@, key@) == members_get(m@.skip(i as int), key@),
                    get_spec(*v, key@) == members_get(m@, key@),
                decreases m.len() - i,
            {
                assert(m@.skip(i as int).drop_first() =~= m@.skip(i + 1));
                assert(m@.skip(i as int)[0] == m@[i as int]);
                if str_eq(m[i].0.as_str(), key) {
                    let ghost t = m@.skip(i as int);
                    assert(t[0] == m@[i as int]);
                    assert(t[0].0@ == key@);
                    assert(t.len() > 0);
                    assert(members_get(t, key@) == Some(t[0].1));
                    return Some(&m[i].1);
                }
                i = i + 1;
            }
            None
        },
        _ => None,
    }
}

/// The string a value holds, if it is a string.
pub fn as_str<'a>(v: Option<&'a JsonValue>) -> (r: Option<&'a str>)
    ensures
        match r {
            Some(s) => as_str_spec(opt_val(v)) == Some(s@),
            None => as_str_spec(opt_val(v)) is None,
        },
{
    match v {
        Some(JsonValue::Str(s)) => Some(s.as_str()),
        _ => None,
    }
}

/// The boolean a value holds, if it is a boolean.
pub fn as_bool(v: Option<&JsonValue>) -> (r: Option<bool>)
    ensures
        r == as_bool_spec(opt_val(v)),
{
    match v {
        Some(JsonValue::Bool(b)) => Some(*b),
        _ => None,
    }
}

} // verus!

verus! {

// ---------------------------------------------------------------------------
// Reading plain Rust values out of JSON the way a derived `Deserialize` does
// ---------------------------------------------------------------------------

/// Field `index` (named `name`) of a struct with `count` fields, read from
/// `v`: an object supplies its member of that name (`None` when absent), an
/// array of exactly `count` elements its element at `index`; any other value
/// is not a struct (`None`).
pub open spec fn field_spec(v: JsonValue, index: int, count: int, name: Seq<char>) -> Option<
    Option<JsonValue>,
> {
    match v {
        JsonValue::Object(m) => Some(members_get(m@, name)),
        JsonValue::Array(a) => if a@.len() == count {
            Some(Some(a@[index]))
        } else {
            None
        },
        _ => None,
    }
}

/// Reads field `index`, named `name`, of a `count`-field struct from `v`.
pub fn field<'a>(v: &'a JsonValue, index: usize, count: usize, name: &str) -> (r: Option<
    Option<&'a JsonValue>,
>)
    requires
        index < count,
    ensures
        match r {
            Some(f) => field_spec(*v, index as int, count as int, name@) == Some(opt_val(f)),
            None => field_spec(*v, index as int, count as int, name@) is None,
        },
{
    match v {
        JsonValue::Object(_) => Some(get(v, name)),
        JsonValue::Array(a) => {
            if a.len() == count {
                Some(Some(&a[index]))
            } else {
                None
            }
        },
        _ => None,
    }
}

/// An `Option<String>` field: absent or `null` is `None`, a string is that
/// string; any other value fails (`None`).
pub open spec fn opt_string_spec(f: Option<JsonValue>) -> Option<Option<Seq<char>>> {
    match f {
        None => Some(None),
        Some(JsonValue::Null) => Some(None),
        Some(JsonValue::Str(s)) => Some(Some(s@)),
        _ => None,
    }
}

/// The characters of an optional string.
pub open spec fn opt_chars(o: Option<String>) -> Option<Seq<char>> {
    match o {
        Some(s) => Some(s@),
        None => None,
    }
}

/// Reads an `Option<String>` field.
pub fn opt_string(f: Option<&JsonValue>) -> (r: Option<Option<String>>)
    ensures
        match r {
            Some(o) => opt_string_spec(opt_val(f)) == Some(opt_chars(o)),
            None => opt_string_spec(opt_val(f)) is None,
        },
{
    match f {
        None => Some(None),
        Some(JsonValue::Null) => Some(None),
        Some(JsonValue::Str(s)) => Some(Some(s.clone())),
        _ => None,
    }
}

/// A required `String` field: it must be present and a string.
pub open spec fn req_string_spec(f: Option<JsonValue>) -> Option<Seq<char>> {
    match f {
        Some(JsonValue::Str(s)) => Some(s@),
        _ => None,
    }
}

/// Reads a required `String` field.
pub fn req_string(f: Option<&JsonValue>) -> (r: Option<String>)
    ensures
        opt_chars(r) == req_string_spec(opt_val(f)),
{
    match f {
        Some(JsonValue::Str(s)) => Some(s.clone()),
        _ => None,
    }
}

/// An `Option<bool>` field.
pub open spec fn opt_bool_spec(f: Option<JsonValue>) -> Option<Option<bool>> {
    match f {
        None => Some(None),
        Some(JsonValue::Null) => Some(None),
        Some(JsonValue::Bool(b)) => Some(Some(b)),
        _ => None,
    }
}

/// Reads an `Option<bool>` field.
pub fn opt_bool(f: Option<&JsonValue>) -> (r: Option<Option<bool>>)
    ensures
        r == opt_bool_spec(opt_val(f)),
{
    match f {
        None => Some(None),
        Some(JsonValue::Null) => Some(None),
        Some(JsonValue::Bool(b)) => Some(Some(*b)),
        _ => None,
    }
}

/// An `Option<u64>` field: a number must be a non-negative integer that
/// fits in a `u64`.
pub open spec fn opt_u64_spec(f: Option<JsonValue>) -> Option<Option<u64>> {
    match f {
        None => Some(None),
        Some(JsonValue::Null) => Some(None),
        Some(JsonValue::Number { as_u64: Some(n), .. }) => Some(Some(n)),
        _ => None,
    }
}

/// Reads an `Option<u64>` field.
pub fn opt_u64(f: Option<&JsonValue>) -> (r: Option<Option<u64>>)
    ensures
        r == opt_u64_spec(opt_val(f)),
{
    match f {
        None => Some(None),
        Some(JsonValue::Null) => Some(None),
        Some(JsonValue::Number { as_u64: Some(n), .. }) => Some(Some(*n)),
        _ => None,
    }
}

/// An `Option<usize>` field: as `Option<u64>`, and the number must fit in a
/// `usize`.
pub open spec fn opt_usize_spec(f: Option<JsonValue>) -> Option<Option<usize>> {
    match opt_u64_spec(f) {
        Some(Some(n)) => if n <= usize::MAX {
            Some(Some(n as usize))
        } else {
            None
        },
        Some(None) => Some(None),
        None => None,
    }
}

/// Reads an `Option<usize>` field.
pub fn opt_usize(f: Option<&JsonValue>) -> (r: Option<Option<usize>>)
    ensures
        r == opt_usize_spec(opt_val(f)),
{
    match opt_u64(f) {
        Some(Some(n)) => {
            if n <= usize::MAX as u64 {
                Some(Some(n as usize))
            } else {
                None
            }
        },
        Some(None) => Some(None),
        None => None,
    }
}

/// An `Option<T>` field of a value of any shape: absent or `null` is `None`.
pub open spec fn opt_any_spec(f: Option<JsonValue>) -> Option<JsonValue> {
    match f {
        Some(JsonValue::Null) => None,
        _ => f,
    }
}

/// Reads an optional field of any shape.
pub fn opt_any(f: Option<&JsonValue>) -> (r: Option<&JsonValue>)
    ensures
        opt_val(r) == opt_any_spec(opt_val(f)),
{
    match f {
        Some(JsonValue::Null) => None,
        _ => f,
    }
}

/// Whether every element is a string.
pub open spec fn all_strings(a: Seq<JsonValue>) -> bool {
    forall|i: int| 0 <= i < a.len() ==> #[trigger] a[i] is Str
}

/// The strings of an all-string array.
pub open spec fn strings_of(a: Seq<JsonValue>) -> Seq<Seq<char>> {
    Seq::new(a.len(), |i: int| a[i]->Str_0@)
}

/// An `Option<Vec<String>>` field.
pub open spec fn opt_strings_spec(f: Option<JsonValue>) -> Option<Option<Seq<Seq<char>>>> {
    match f {
        None => Some(None),
        Some(JsonValue::Null) => Some(None),
        Some(JsonValue::Array(a)) => if all_strings(a@) {
            Some(Some(strings_of(a@)))
        } else {
            None
        },
        _ => None,
    }
}

/// The characters of each string.
pub open spec fn chars_of_all(v: Seq<String>) -> Seq<Seq<char>> {
    v.map_values(|s: String| s@)
}

/// Reads an `Option<Vec<String>>` field.
pub fn opt_strings(f: Option<&JsonValue>) -> (r: Option<Option<Vec<String>>>)
    ensures
        match r {
            Some(Some(v)) => opt_strings_spec(opt_val(f)) == Some(Some(chars_of_all(v@))),
            Some(None) => opt_strings_spec(opt_val(f)) == Some(None::<Seq<Seq<char>>>),
            None => opt_strings_spec(opt_val(f)) is None,
        },
{
    match f {
        None => Some(None),
        Some(JsonValue::Null) => Some(None),
        Some(JsonValue::Array(a)) => {
            let mut out: Vec<String> = Vec::new();
            let mut i: usize = 0;
            while i < a.len()
                invariant
                    i <= a.len(),
                    out@.len() == i,
                    forall|k: int| 0 <= k < i ==> #[trigger] a@[k] is Str,
                    forall|k: int| 0 <= k < i ==> out@[k]@ == #[trigger] a@[k]->Str_0@,
                    opt_val(f) == Some(JsonValue::Array(*a)),
                decreases a.len() - i,
            {
                match &a[i] {
                    JsonValue::Str(s) => {
                        out.push(s.clone());
                    },
                    _ => {
                        assert(!(a@[i as int] is Str));
                        return None;
                    },
                }
                i = i + 1;
            }
            assert(chars_of_all(out@) =~= strings_of(a@));
            Some(Some(out))
        },
        _ => None,
    }
}

} // verus!
