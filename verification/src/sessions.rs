//! Past sessions: their age, preview text and project name.
use vstd::prelude::*;

use crate::json::{as_str, as_str_spec, get, get_spec, parse_json, spec_parse_json, JsonValue};
use crate::text::{
    byte_len, bytes_upto, chars_of, decimal, index_of, lemma_byte_len_prefix, lemma_index_of,
    lemma_index_of_at, lines_of, owned, push_decimal, push_str, split_lines, str_eq,
    string_of_range, strip_cr, strs_view, trim, trim_range,
};

verus! {

#[verifier::external_type_specification]
#[verifier::external_body]
pub struct ExSystemTime(std::time::SystemTime);

/// Metadata for a single session found on disk.
#[derive(Debug)]
pub struct SessionInfo {
    pub session_id: String,
    pub project_path: String,
    pub last_modified: std::time::SystemTime,
    pub preview: String,
}

/// `SystemTime::elapsed` in whole seconds, zero for a time in the future.
/// Nothing is claimed of the value: it depends on the clock.
#[verifier::external_body]
fn elapsed_secs(t: &std::time::SystemTime) -> u64 {
    t.elapsed().unwrap_or(std::time::Duration::ZERO).as_secs()
}

/// A relative age: "just now" under a minute, then whole minutes, hours or days.
pub open spec fn age_label(secs: nat) -> Seq<char> {
    if secs < 60 {
        "just now"@
    } else if secs < 3600 {
        decimal(secs / 60) + "m ago"@
    } else if secs < 86400 {
        decimal(secs / 3600) + "h ago"@
    } else {
        decimal(secs / 86400) + "d ago"@
    }
}

/// The relative age of something `secs` seconds old, like "2h ago".
pub fn age_label_of(secs: u64) -> (r: String)
    ensures
        r@ == age_label(secs as nat),
{
    if secs < 60 {
        owned("just now")
    } else {
        let mut s = String::new();
        if secs < 3600 {
            push_decimal(&mut s, secs / 60);
            push_str(&mut s, "m ago");
        } else if secs < 86400 {
            push_decimal(&mut s, secs / 3600);
            push_str(&mut s, "h ago");
        } else {
            push_decimal(&mut s, secs / 86400);
            push_str(&mut s, "d ago");
        }
        s
    }
}

impl SessionInfo {
    /// Human-readable relative time like "2h ago", "3d ago".
    pub fn age_string(&self) -> (r: String)
        ensures
            exists|secs: u64| r@ == age_label(secs as nat),
    {
        let secs = elapsed_secs(&self.last_modified);
        age_label_of(secs)
    }
}

// ---------------------------------------------------------------------------
// Preview text
// ---------------------------------------------------------------------------

/// The first line of `text`, or `text` itself when it has no line.
pub open spec fn first_line(text: Seq<char>) -> Seq<char> {
    if lines_of(text).len() > 0 {
        lines_of(text)[0]
    } else {
        text
    }
}

/// Whether some prefix of `t` is exactly `b` bytes long.
pub open spec fn has_boundary(t: Seq<char>, b: nat) -> bool {
    exists|k: int| 0 <= k <= t.len() && #[trigger] byte_len(t.take(k)) == b
}

/// The text a preview shows: the trimmed first line, cut to its first 77
/// bytes plus "..." when it is longer than 80 bytes.
pub open spec fn preview_spec(text: Seq<char>) -> Seq<char> {
    let t = trim(first_line(text));
    if byte_len(t) > 80 {
        let k = choose|k: int| 0 <= k <= t.len() && #[trigger] byte_len(t.take(k)) == 77;
        t.take(k) + "..."@
    } else {
        t
    }
}

/// Whether cutting the preview of `text` is possible: a line longer than 80
/// bytes must have a character boundary at byte 77.
pub open spec fn preview_cuttable(text: Seq<char>) -> bool {
    let t = trim(first_line(text));
    byte_len(t) > 80 ==> has_boundary(t, 77)
}

/// Prefixes grow strictly in bytes.
pub proof fn lemma_byte_len_strict(s: Seq<char>, j: int, k: int)
    requires
        0 <= j < k <= s.len(),
    ensures
        byte_len(s.take(j)) < byte_len(s.take(k)),
    decreases k - j,
{
    lemma_byte_len_prefix(s, k - 1);
    if j < k - 1 {
        lemma_byte_len_strict(s, j, k - 1);
    }
}

/// The characters of the trimmed first line of `text`.
fn trimmed_first_line(text: &str) -> (v: Vec<char>)
    ensures
        v@ == trim(first_line(text@)),
{
    let all = chars_of(text);
    let n = all.len();
    let mut k: usize = 0;
    while k < n && all[k] != '\n'
        invariant
            k <= n,
            n == all@.len(),
            forall|i: int| 0 <= i < k ==> all@[i] != '\n',
        decreases n - k,
    {
        k = k + 1;
    }
    proof {
        lemma_index_of_at(all@, '\n', k as int);
    }
    let mut end = k;
    if k < n && end > 0 && all[end - 1] == '\r' {
        end = end - 1;
    }
    proof {
        if n > 0 {
            assert(lines_of(text@).len() > 0);
            if k < n {
                assert(lines_of(text@)[0] == strip_cr(text@.take(k as int)));
                if k > 0 {
                    assert(text@.take(k as int).last() == all@[k - 1]);
                }
                assert(strip_cr(text@.take(k as int)) =~= all@.subrange(0, end as int));
            } else {
                assert(all@.subrange(0, end as int) =~= text@);
            }
        } else {
            assert(all@.subrange(0, 0) =~= text@);
        }
    }
    let (c, d) = trim_range(&all, 0, end);
    chars_of(string_of_range(&all, c, d).as_str())
}

/// Whether the preview of `text` can be cut where it needs to be.
pub fn is_preview_cuttable(text: &str) -> (r: bool)
    ensures
        r == preview_cuttable(text@),
{
    let t = trimmed_first_line(text);
    let (k81, b81) = bytes_upto(&t, 81);
    if b81 < 81 {
        proof {
            assert(t@.take(t@.len() as int) =~= t@);
        }
        return true;
    }
    let (k77, b77) = bytes_upto(&t, 77);
    proof {
        assert(t@.take(t@.len() as int) =~= t@);
        crate::text::lemma_byte_len_mono(t@, k81 as int, t@.len() as int);
        if has_boundary(t@, 77) {
            let k = choose|k: int| 0 <= k <= t@.len() && #[trigger] byte_len(t@.take(k)) == 77;
            if k < k77 {
                assert(byte_len(t@.take(k)) < 77);
            } else if k > k77 {
                lemma_byte_len_strict(t@, k77 as int, k);
            }
        }
    }
    b77 == 77
}

/// Truncate preview text to its first line, at most 80 bytes.
pub fn truncate_preview(text: &str) -> (r: String)
    requires
        preview_cuttable(text@),
    ensures
        r@ == preview_spec(text@),
{
    let t = trimmed_first_line(text);
    let (k81, b81) = bytes_upto(&t, 81);
    proof {
        assert(t@.take(t@.len() as int) =~= t@);
        crate::text::lemma_byte_len_mono(t@, k81 as int, t@.len() as int);
    }
    if b81 < 81 {
        return string_of_range(&t, 0, t.len());
    }
    let (k77, b77) = bytes_upto(&t, 77);
    proof {
        let k = choose|k: int| 0 <= k <= t@.len() && #[trigger] byte_len(t@.take(k)) == 77;
        if k < k77 {
            assert(byte_len(t@.take(k)) < 77);
        } else if k > k77 {
            lemma_byte_len_strict(t@, k77 as int, k);
            if k77 < t@.len() {
                assert(b77 >= 77);
            } else {
                assert(false);
            }
        }
        assert(k == k77);
        assert(t@.subrange(0, k77 as int) =~= t@.take(k77 as int));
    }
    let mut out = string_of_range(&t, 0, k77);
    push_str(&mut out, "...");
    out
}

// ---------------------------------------------------------------------------
// Finding the first user message of a session log
// ---------------------------------------------------------------------------

/// The text of the first content block of type "text" that has a text.
pub open spec fn first_text_block(blocks: Seq<JsonValue>) -> Option<Seq<char>>
    decreases blocks.len(),
{
    if blocks.len() == 0 {
        None
    } else if as_str_spec(get_spec(blocks[0], "type"@)) == Some("text"@) && as_str_spec(
        get_spec(blocks[0], "text"@),
    ) is Some {
        as_str_spec(get_spec(blocks[0], "text"@))
    } else {
        first_text_block(blocks.drop_first())
    }
}

/// The text of a user message record: its content string, or the first
/// text block of its content array.
pub open spec fn user_text_of(j: Option<JsonValue>) -> Option<Seq<char>> {
    match j {
        Some(v) => if as_str_spec(get_spec(v, "type"@)) == Some("user"@) {
            match get_spec(v, "message"@) {
                Some(m) => match get_spec(m, "content"@) {
                    Some(JsonValue::Str(s)) => Some(s@),
                    Some(JsonValue::Array(a)) => first_text_block(a@),
                    _ => None,
                },
                None => None,
            }
        } else {
            None
        },
        None => None,
    }
}

/// The user text of the first of `lines` that has one.
pub open spec fn first_user_text_in(lines: Seq<Seq<char>>) -> Option<Seq<char>>
    decreases lines.len(),
{
    if lines.len() == 0 {
        None
    } else {
        match user_text_of(spec_parse_json(lines[0])) {
            Some(t) => Some(t),
            None => first_user_text_in(lines.drop_first()),
        }
    }
}

/// The first lines of a session log that are searched for a user message.
pub open spec fn head_lines(content: Seq<char>) -> Seq<Seq<char>> {
    let ls = lines_of(content);
    if ls.len() > 20 {
        ls.take(20)
    } else {
        ls
    }
}

/// The text of the first user message among the first 20 lines of a
/// session log (JSON lines), if any.
pub fn first_user_text(content: &str) -> (r: Option<String>)
    ensures
        match r {
            Some(s) => first_user_text_in(head_lines(content@)) == Some(s@),
            None => first_user_text_in(head_lines(content@)) is None,
        },
{
    let lines = split_lines(content);
    let limit = if lines.len() > 20 {
        20
    } else {
        lines.len()
    };
    let ghost hl = head_lines(content@);
    assert(hl.len() == limit);
    assert(hl.skip(0) =~= hl);
    let mut i: usize = 0;
    while i < limit
        invariant
            i <= limit,
            limit <= lines.len(),
            hl.len() == limit,
            hl == head_lines(content@),
            forall|k: int| 0 <= k < limit ==> #[trigger] hl[k] == lines@[k]@,
            first_user_text_in(hl) == first_user_text_in(hl.skip(i as int)),
        decreases limit - i,
    {
        assert(hl.skip(i as int)[0] == hl[i as int]);
        assert(hl.skip(i as int).drop_first() =~= hl.skip(i + 1));
        let json = parse_json(lines[i]);
        let found = match &json {
            Some(v) => user_text(v),
            None => None,
        };
        match found {
            Some(t) => {
                return Some(t);
            },
            None => {},
        }
        i = i + 1;
    }
    None
}

/// The text of a session log line's user message, given the parsed line.
pub fn user_text(v: &JsonValue) -> (r: Option<String>)
    ensures
        match r {
            Some(s) => user_text_of(Some(*v)) == Some(s@),
            None => user_text_of(Some(*v)) is None,
        },
{
    let is_user = match as_str(get(v, "type")) {
        Some(t) => str_eq(t, "user"),
        None => false,
    };
    if !is_user {
        return None;
    }
    let m = get(v, "message")?;
    match get(m, "content") {
        Some(JsonValue::Str(s)) => Some(s.clone()),
        Some(JsonValue::Array(a)) => {
            let mut i: usize = 0;
            assert(a@.skip(0) =~= a@);
            while i < a.len()
                invariant
                    i <= a.len(),
                    first_text_block(a@) == first_text_block(a@.skip(i as int)),
                    user_text_of(Some(*v)) == first_text_block(a@),
                decreases a.len() - i,
            {
                assert(a@.skip(i as int)[0] == a@[i as int]);
                assert(a@.skip(i as int).drop_first() =~= a@.skip(i + 1));
                let b = &a[i];
                let is_text = match as_str(get(b, "type")) {
                    Some(t) => str_eq(t, "text"),
                    None => false,
                };
                if is_text {
                    match as_str(get(b, "text")) {
                        Some(t) => {
                            return Some(owned(t));
                        },
                        None => {},
                    }
                }
                i = i + 1;
            }
            None
        },
        _ => None,
    }
}

// ---------------------------------------------------------------------------
// Project names
// ---------------------------------------------------------------------------

/// The maximal runs of characters other than `'-'` in `s`, in order.
pub open spec fn dash_segments(s: Seq<char>) -> Seq<Seq<char>>
    decreases s.len(),
{
    if s.len() == 0 {
        seq![]
    } else if s[0] == '-' {
        dash_segments(s.drop_first())
    } else {
        let k = index_of(s, '-');
        proof {
            lemma_index_of(s, '-');
        }
        seq![s.take(k)] + dash_segments(s.skip(k))
    }
}

/// `parts` joined with `sep` between consecutive parts.
pub open spec fn join(parts: Seq<Seq<char>>, sep: Seq<char>) -> Seq<char>
    decreases parts.len(),
{
    if parts.len() == 0 {
        seq![]
    } else if parts.len() == 1 {
        parts[0]
    } else {
        join(parts.drop_last(), sep) + sep + parts.last()
    }
}

/// A readable name for a project directory slug such as
/// `-Users-name-git-project`: its dash-separated parts joined by `/`, only
/// the last two of them when there are more than two.
pub open spec fn slug_path(slug: Seq<char>) -> Seq<char> {
    let parts = dash_segments(slug);
    if parts.len() <= 2 {
        join(parts, "/"@)
    } else {
        join(parts.subrange(parts.len() - 2, parts.len() as int), "/"@)
    }
}

/// Join strings with a separator.
pub(crate) fn join_strings(parts: &Vec<String>, sep: &str) -> (r: String)
    ensures
        r@ == join(parts@.map_values(|p: String| p@), sep@),
{
    let ghost ps = parts@.map_values(|p: String| p@);
    let mut out = String::new();
    let mut i: usize = 0;
    while i < parts.len()
        invariant
            i <= parts.len(),
            ps == parts@.map_values(|p: String| p@),
            out@ == join(ps.take(i as int), sep@),
        decreases parts.len() - i,
    {
        let ghost before = out@;
        if i > 0 {
            push_str(&mut out, sep);
        }
        push_str(&mut out, parts[i].as_str());
        proof {
            let t = ps.take(i + 1);
            assert(t.drop_last() =~= ps.take(i as int));
            assert(t.last() == parts@[i as int]@);
            if i == 0 {
                assert(before =~= Seq::<char>::empty());
                assert(t.len() == 1);
            }
        }
        i = i + 1;
    }
    proof {
        assert(ps.take(parts@.len() as int) =~= ps);
    }
    out
}

/// Convert a project directory slug back to a readable path.
pub fn slug_to_path(slug: &str) -> (r: String)
    ensures
        r@ == slug_path(slug@),
{
    let v = chars_of(slug);
    let n = v.len();
    let mut parts: Vec<String> = Vec::new();
    let mut p: usize = 0;
    assert(v@.skip(0) =~= v@);
    while p < n
        invariant
            p <= n,
            n == v@.len(),
            v@ == slug@,
            parts@.map_values(|q: String| q@) + dash_segments(v@.skip(p as int)) == dash_segments(
                v@,
            ),
        decreases n - p,
    {
        let ghost before = parts@;
        let ghost t = v@.skip(p as int);
        if v[p] == '-' {
            assert(t.drop_first() =~= v@.skip(p + 1));
            p = p + 1;
        } else {
            let mut k = p;
            while k < n && v[k] != '-'
                invariant
                    p <= k <= n,
                    n == v@.len(),
                    forall|i: int| p <= i < k ==> v@[i] != '-',
                decreases n - k,
            {
                k = k + 1;
            }
            proof {
                assert forall|i: int| 0 <= i < k - p implies t[i] != '-' by {
                    assert(t[i] == v@[i + p]);
                }
                if k < n {
                    assert(t[k - p] == v@[k as int]);
                }
                lemma_index_of_at(t, '-', k - p);
                assert(t.take(k - p) =~= v@.subrange(p as int, k as int));
                assert(t.skip(k - p) =~= v@.skip(k as int));
            }
            parts.push(string_of_range(&v, p, k));
            proof {
                assert(parts@.map_values(|q: String| q@) =~= before.map_values(|q: String| q@).push(
                    v@.subrange(p as int, k as int),
                ));
                assert(parts@.map_values(|q: String| q@) + dash_segments(v@.skip(k as int))
                    =~= before.map_values(|q: String| q@) + dash_segments(t));
            }
            p = k;
        }
    }
    proof {
        assert(v@.skip(n as int) =~= Seq::<char>::empty());
        assert(parts@.map_values(|q: String| q@) + dash_segments(v@.skip(n as int))
            =~= parts@.map_values(|q: String| q@));
    }
    let m = parts.len();
    if m <= 2 {
        join_strings(&parts, "/")
    } else {
        let mut tail: Vec<String> = Vec::new();
        tail.push(parts[m - 2].clone());
        tail.push(parts[m - 1].clone());
        proof {
            assert(tail@.map_values(|q: String| q@) =~= parts@.map_values(|q: String| q@).subrange(
                m - 2,
                m as int,
            ));
        }
        join_strings(&tail, "/")
    }
}

} // verus!
