//! Laying out the conversation pane: display widths, line breaking, and
//! the argument a tool call is shown with.
use vstd::prelude::*;

use crate::json::{as_str, as_str_spec, get, get_spec, opt_val, parse_json, spec_parse_json, JsonValue};
use crate::text::{chars_of, is_whitespace, is_ws, owned, str_eq, trim_start};
use vstd::string::StrSliceExecFns;

verus! {

/// The columns `UnicodeWidthChar::width` gives a character, `None` for a
/// control character.
pub uninterp spec fn char_width_of(c: char) -> Option<usize>;

/// `UnicodeWidthChar::width`. Claimed, as the crate's source shows
/// (`single_char_width`, `lookup_width`): the result depends on the
/// character alone; printable ASCII is one column; the C0 and C1 controls
/// have no width; no character is wider than three columns. The tables
/// themselves are not stated.
#[verifier::external_body]
fn char_width(c: char) -> (r: Option<usize>)
    ensures
        r == char_width_of(c),
        match r {
            Some(w) => w <= 3,
            None => true,
        },
        (0x20 <= (c as u32) && (c as u32) < 0x7f) ==> r == Some(1usize),
        ((c as u32) < 0x20 || (0x7f <= (c as u32) && (c as u32) < 0xa0)) ==> r is None,
{
    unicode_width::UnicodeWidthChar::width(c)
}

/// The columns a character takes; control characters take none.
pub open spec fn cols(c: char) -> nat {
    match char_width_of(c) {
        Some(w) => w as nat,
        None => 0,
    }
}

/// The columns a text takes.
pub open spec fn width_of(s: Seq<char>) -> nat
    decreases s.len(),
{
    if s.len() == 0 {
        0
    } else {
        width_of(s.drop_last()) + cols(s.last())
    }
}

pub proof fn lemma_width_step(s: Seq<char>, k: int)
    requires
        0 <= k < s.len(),
    ensures
        width_of(s.take(k + 1)) == width_of(s.take(k)) + cols(s[k]),
{
    assert(s.take(k + 1).drop_last() =~= s.take(k));
}

/// A prefix takes no more columns than the whole text.
pub proof fn lemma_width_prefix_le(s: Seq<char>, k: int)
    requires
        0 <= k <= s.len(),
    ensures
        width_of(s.take(k)) <= width_of(s),
    decreases s.len() - k,
{
    if k < s.len() {
        lemma_width_step(s, k);
        lemma_width_prefix_le(s, k + 1);
    } else {
        assert(s.take(k) =~= s);
    }
}

/// The columns of one character.
pub(crate) fn char_cols(c: char) -> (n: usize)
    ensures
        n == cols(c),
        n <= 3,
{
    match char_width(c) {
        Some(w) => w,
        None => 0,
    }
}

/// Display width of a text (wide characters such as emoji take two columns).
pub fn display_width(s: &str) -> (n: usize)
    requires
        3 * s@.len() <= usize::MAX,
    ensures
        n == width_of(s@),
{
    let v = chars_of(s);
    let mut n: usize = 0;
    let mut i: usize = 0;
    while i < v.len()
        invariant
            i <= v@.len(),
            v@ == s@,
            3 * v@.len() <= usize::MAX,
            n == width_of(v@.take(i as int)),
            n <= 3 * i,
        decreases v.len() - i,
    {
        proof {
            lemma_width_step(v@, i as int);
        }
        n = n + char_cols(v[i]);
        i = i + 1;
    }
    proof {
        assert(v@.take(v@.len() as int) =~= v@);
    }
    n
}

/// How many leading characters fit in `max` columns: the first character
/// that would go past `max` and everything after it stays out.
pub open spec fn fitting(s: Seq<char>, max: nat, k: int) -> int
    decreases s.len() - k,
{
    if k >= s.len() || width_of(s.take(k + 1)) > max {
        k
    } else {
        fitting(s, max, k + 1)
    }
}

/// The split of a text at `max` columns: what fits, and the rest.
pub open spec fn split_spec(s: Seq<char>, max: nat) -> (Seq<char>, Seq<char>) {
    let k = fitting(s, max, 0);
    (s.take(k), s.skip(k))
}

pub proof fn lemma_fitting(s: Seq<char>, max: nat, k: int)
    requires
        0 <= k <= s.len(),
    ensures
        k <= fitting(s, max, k) <= s.len(),
    decreases s.len() - k,
{
    if !(k >= s.len() || width_of(s.take(k + 1)) > max) {
        lemma_fitting(s, max, k + 1);
    }
}

/// Split a text at exactly `max` columns (a forced break).
pub fn split_at_width(s: &str, max: usize) -> (r: (&str, &str))
    ensures
        (r.0@, r.1@) == split_spec(s@, max as nat),
{
    let v = chars_of(s);
    let mut width: usize = 0;
    let mut i: usize = 0;
    while i < v.len()
        invariant
            i <= v@.len(),
            v@ == s@,
            width == width_of(v@.take(i as int)),
            width <= max,
            fitting(v@, max as nat, 0) == fitting(v@, max as nat, i as int),
        decreases v.len() - i,
    {
        let w = char_cols(v[i]);
        proof {
            lemma_width_step(v@, i as int);
        }
        if w > max - width {
            proof {
                lemma_fitting(v@, max as nat, i as int);
            }
            return (s.substring_char(0, i), s.substring_char(i, v.len()));
        }
        width = width + w;
        i = i + 1;
    }
    proof {
        assert(v@.take(v@.len() as int) =~= v@);
        assert(v@.skip(v@.len() as int) =~= Seq::<char>::empty());
    }
    (s.substring_char(0, v.len()), s.substring_char(v.len(), v.len()))
}

/// The split of a text at `max` columns, preferring the last space that
/// fits: the chunk then ends with that space and the rest loses its leading
/// whitespace; without such a space it is the forced split.
pub open spec fn word_split_spec(s: Seq<char>, max: nat) -> (Seq<char>, Seq<char>) {
    let k = fitting(s, max, 0);
    if k >= s.len() {
        (s, seq![])
    } else {
        let sp = last_space_before(s, k);
        if sp > 0 {
            (s.take(sp), trim_start(s.skip(sp)))
        } else {
            (s.take(k), s.skip(k))
        }
    }
}

/// One past the last space among the first `k` characters, or 0.
pub open spec fn last_space_before(s: Seq<char>, k: int) -> int
    decreases k,
{
    if k <= 0 {
        0
    } else if s[k - 1] == ' ' {
        k
    } else {
        last_space_before(s, k - 1)
    }
}

pub proof fn lemma_last_space(s: Seq<char>, k: int)
    requires
        0 <= k <= s.len(),
    ensures
        0 <= last_space_before(s, k) <= k,
    decreases k,
{
    if k > 0 && s[k - 1] != ' ' {
        lemma_last_space(s, k - 1);
    }
}

/// The text without its leading whitespace, as a slice of it.
pub(crate) fn trim_start_slice<'a>(s: &'a str) -> (r: &'a str)
    ensures
        r@ == trim_start(s@),
{
    let v = chars_of(s);
    let mut i: usize = 0;
    assert(v@.skip(0) =~= v@);
    while i < v.len() && is_whitespace(v[i])
        invariant
            i <= v@.len(),
            v@ == s@,
            trim_start(v@) == trim_start(v@.skip(i as int)),
        decreases v.len() - i,
    {
        assert(v@.skip(i as int).drop_first() =~= v@.skip(i + 1));
        i = i + 1;
    }
    proof {
        assert(v@.skip(i as int) =~= v@.subrange(i as int, v@.len() as int));
        let t = v@.skip(i as int);
        if t.len() > 0 {
            assert(t[0] == v@[i as int]);
        }
    }
    s.substring_char(i, v.len())
}

/// Split a text at about `max` columns, preferring a word boundary.
pub fn split_at_width_word_boundary(s: &str, max: usize) -> (r: (&str, &str))
    ensures
        (r.0@, r.1@) == word_split_spec(s@, max as nat),
{
    let v = chars_of(s);
    let mut width: usize = 0;
    let mut last_space: usize = 0;
    let mut i: usize = 0;
    while i < v.len()
        invariant
            i <= v@.len(),
            v@ == s@,
            width == width_of(v@.take(i as int)),
            width <= max,
            last_space == last_space_before(v@, i as int),
            fitting(v@, max as nat, 0) == fitting(v@, max as nat, i as int),
        decreases v.len() - i,
    {
        let w = char_cols(v[i]);
        proof {
            lemma_width_step(v@, i as int);
        }
        if w > max - width {
            proof {
                lemma_fitting(v@, max as nat, i as int);
                lemma_last_space(v@, i as int);
            }
            if last_space > 0 {
                let rest = s.substring_char(last_space, v.len());
                proof {
                    assert(rest@ =~= v@.skip(last_space as int));
                }
                return (s.substring_char(0, last_space), trim_start_slice(rest));
            }
            return (s.substring_char(0, i), s.substring_char(i, v.len()));
        }
        if v[i] == ' ' {
            last_space = i + 1;
        }
        width = width + w;
        i = i + 1;
    }
    proof {
        assert(v@.take(v@.len() as int) =~= v@);
        assert(v@.subrange(v@.len() as int, v@.len() as int) =~= Seq::<char>::empty());
        lemma_fitting(v@, max as nat, v@.len() as int);
    }
    (s.substring_char(0, v.len()), s.substring_char(v.len(), v.len()))
}

// ---------------------------------------------------------------------------
// The argument a tool call is shown with
// ---------------------------------------------------------------------------

/// The compact JSON text `serde_json` writes for a value.
pub uninterp spec fn json_text(v: JsonValue) -> Seq<char>;

/// Converts a value back to `serde_json::Value`, variant for variant; a
/// number from its text.
#[verifier::external_body]
fn to_serde(v: &JsonValue) -> serde_json::Value {
    match v {
        JsonValue::Null => serde_json::Value::Null,
        JsonValue::Bool(b) => serde_json::Value::Bool(*b),
        JsonValue::Number { text, .. } => serde_json::from_str(text).unwrap_or(serde_json::Value::Null),
        JsonValue::Str(s) => serde_json::Value::String(s.clone()),
        JsonValue::Array(a) => serde_json::Value::Array(a.iter().map(to_serde).collect()),
        JsonValue::Object(m) => serde_json::Value::Object(m.iter().map(|(k, x)| (k.clone(), to_serde(x))).collect()),
    }
}

/// `Display` of `serde_json::Value` (compact JSON). Claimed: the text
/// depends on the value alone; its form is not stated.
#[verifier::external_body]
fn value_text(v: &JsonValue) -> (r: String)
    ensures
        r@ == json_text(*v),
{
    to_serde(v).to_string()
}

/// A member shown as text: a string as itself, any other value as JSON.
pub open spec fn shown(v: JsonValue) -> Seq<char> {
    match v {
        JsonValue::Str(s) => s@,
        _ => json_text(v),
    }
}

/// The key a tool's main argument is under, if the tool has a fixed one.
pub open spec fn primary_key(tool: Seq<char>) -> Option<Seq<char>> {
    if tool == "Bash"@ {
        Some("command"@)
    } else if tool == "Read"@ || tool == "Write"@ || tool == "Edit"@ || tool == "Glob"@ {
        Some("file_path"@)
    } else if tool == "Grep"@ {
        Some("pattern"@)
    } else {
        None
    }
}

/// The first of the usual argument keys that the object has.
pub open spec fn first_common_member(v: JsonValue) -> Option<JsonValue> {
    let keys = seq!["file_path"@, "command"@, "path"@, "pattern"@, "query"@, "url"@];
    if get_spec(v, keys[0]) is Some {
        get_spec(v, keys[0])
    } else if get_spec(v, keys[1]) is Some {
        get_spec(v, keys[1])
    } else if get_spec(v, keys[2]) is Some {
        get_spec(v, keys[2])
    } else if get_spec(v, keys[3]) is Some {
        get_spec(v, keys[3])
    } else if get_spec(v, keys[4]) is Some {
        get_spec(v, keys[4])
    } else {
        get_spec(v, keys[5])
    }
}

/// The argument shown for a tool call: the member under the tool's key,
/// or for other tools the first usual key present; the input must be a JSON
/// object.
pub open spec fn primary_arg(tool: Seq<char>, j: Option<JsonValue>) -> Option<Seq<char>> {
    match j {
        Some(JsonValue::Object(m)) => {
            let v = JsonValue::Object(m);
            let member = match primary_key(tool) {
                Some(k) => get_spec(v, k),
                None => first_common_member(v),
            };
            match member {
                Some(x) => Some(shown(x)),
                None => None,
            }
        },
        _ => None,
    }
}

/// A member as text.
fn shown_text(v: &JsonValue) -> (r: String)
    ensures
        r@ == shown(*v),
{
    match v {
        JsonValue::Str(s) => s.clone(),
        _ => value_text(v),
    }
}

/// Extract the most relevant argument from a tool's JSON input.
pub fn extract_primary_arg(tool_name: &str, input: &str) -> (r: Option<String>)
    ensures
        match r {
            Some(s) => primary_arg(tool_name@, spec_parse_json(input@)) == Some(s@),
            None => primary_arg(tool_name@, spec_parse_json(input@)) is None,
        },
{
    let json = parse_json(input);
    match &json {
        Some(v) => primary_arg_of_value(tool_name, Some(v)),
        None => primary_arg_of_value(tool_name, None),
    }
}

/// The most relevant argument of a call of `tool_name`, given its parsed
/// input (`None` when the input is not JSON).
pub fn primary_arg_of_value(tool_name: &str, json: Option<&JsonValue>) -> (r: Option<String>)
    ensures
        match r {
            Some(s) => primary_arg(tool_name@, opt_val(json)) == Some(s@),
            None => primary_arg(tool_name@, opt_val(json)) is None,
        },
{
    let v = match json {
        Some(v) => v,
        None => {
            return None;
        },
    };
    match v {
        JsonValue::Object(_) => {},
        _ => {
            return None;
        },
    }
    let member = if str_eq(tool_name, "Bash") {
        get(v, "command")
    } else if str_eq(tool_name, "Read") || str_eq(tool_name, "Write") || str_eq(tool_name, "Edit")
        || str_eq(tool_name, "Glob") {
        get(v, "file_path")
    } else if str_eq(tool_name, "Grep") {
        get(v, "pattern")
    } else {
        proof {
            reveal_strlit("file_path");
            reveal_strlit("command");
            reveal_strlit("path");
            reveal_strlit("pattern");
            reveal_strlit("query");
            reveal_strlit("url");
        }
        let a = get(v, "file_path");
        if a.is_some() {
            a
        } else {
            let b = get(v, "command");
            if b.is_some() {
                b
            } else {
                let c = get(v, "path");
                if c.is_some() {
                    c
                } else {
                    let d = get(v, "pattern");
                    if d.is_some() {
                        d
                    } else {
                        let e = get(v, "query");
                        if e.is_some() {
                            e
                        } else {
                            get(v, "url")
                        }
                    }
                }
            }
        }
    };
    match member {
        Some(x) => Some(shown_text(x)),
        None => None,
    }
}

} // verus!
