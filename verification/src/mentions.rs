//! `@path` mentions in a message: which files are named, and the message
//! with their contents put in front.
use vstd::prelude::*;

use crate::text::{
    byte_len, chars_of, decimal, is_whitespace, is_ws, lemma_byte_len_mono, lemma_byte_len_prefix,
    push_decimal, push_str, string_of_range, utf8_width,
};

verus! {

/// Files larger than this many bytes are cut.
pub const MAX_FILE_BYTES: usize = 100_000;

/// Where the path that starts at `i` ends: the next whitespace or the end.
pub open spec fn path_end(s: Seq<char>, i: int) -> int
    decreases s.len() - i,
{
    if i >= s.len() || is_ws(s[i]) {
        i
    } else {
        path_end(s, i + 1)
    }
}

/// Whether position `i` holds a mention: an `@` at the start or after
/// whitespace, followed by at least one character of path.
pub open spec fn mention_at(s: Seq<char>, i: int) -> bool {
    &&& 0 <= i < s.len()
    &&& s[i] == '@'
    &&& (i == 0 || is_ws(s[i - 1]))
    &&& path_end(s, i + 1) > i + 1
}

/// The paths mentioned in `s` at positions before `n`, in order.
pub open spec fn mentions_before(s: Seq<char>, n: int) -> Seq<Seq<char>>
    decreases n,
{
    if n <= 0 {
        seq![]
    } else if mention_at(s, n - 1) {
        mentions_before(s, n - 1).push(s.subrange(n, path_end(s, n)))
    } else {
        mentions_before(s, n - 1)
    }
}

/// The paths mentioned in `s`, in order.
pub open spec fn mentions(s: Seq<char>) -> Seq<Seq<char>> {
    mentions_before(s, s.len() as int)
}

proof fn lemma_path_end(s: Seq<char>, i: int)
    requires
        0 <= i <= s.len(),
    ensures
        i <= path_end(s, i) <= s.len(),
        forall|j: int| i <= j < path_end(s, i) ==> !is_ws(#[trigger] s[j]),
        path_end(s, i) < s.len() ==> is_ws(s[path_end(s, i)]),
    decreases s.len() - i,
{
    if i < s.len() && !is_ws(s[i]) {
        lemma_path_end(s, i + 1);
    }
}

proof fn lemma_path_end_at(s: Seq<char>, i: int, e: int)
    requires
        0 <= i <= e <= s.len(),
        forall|j: int| i <= j < e ==> !is_ws(#[trigger] s[j]),
        e == s.len() || is_ws(s[e]),
    ensures
        path_end(s, i) == e,
    decreases e - i,
{
    if i < e {
        lemma_path_end_at(s, i + 1, e);
    }
}

/// The paths the message mentions with `@path`, in order.
pub fn mention_paths(text: &str) -> (r: Vec<String>)
    ensures
        r@.map_values(|p: String| p@) == mentions(text@),
{
    let v = chars_of(text);
    let n = v.len();
    let mut out: Vec<String> = Vec::new();
    let mut i: usize = 0;
    while i < n
        invariant
            i <= n,
            n == v@.len(),
            v@ == text@,
            out@.map_values(|p: String| p@) == mentions_before(v@, i as int),
        decreases n - i,
    {
        if v[i] == '@' && (i == 0 || is_whitespace(v[i - 1])) {
            let start = i + 1;
            let mut end = start;
            while end < n && !is_whitespace(v[end])
                invariant
                    start <= end <= n,
                    n == v@.len(),
                    forall|j: int| start <= j < end ==> !is_ws(#[trigger] v@[j]),
                decreases n - end,
            {
                end = end + 1;
            }
            proof {
                lemma_path_end_at(v@, start as int, end as int);
            }
            if end > start {
                let ghost before = out@;
                out.push(string_of_range(&v, start, end));
                proof {
                    assert(out@.map_values(|p: String| p@) =~= before.map_values(|p: String| p@).push(
                        v@.subrange(start as int, end as int),
                    ));
                }
            }
        }
        i = i + 1;
    }
    out
}

/// A file's content as it is put in the message: cut after its first
/// `MAX_FILE_BYTES` bytes, with a note of its size, when it is longer.
pub open spec fn limited_content(content: Seq<char>) -> Seq<char> {
    if byte_len(content) > MAX_FILE_BYTES {
        let k = choose|k: int| 0 <= k <= content.len() && #[trigger] byte_len(content.take(k)) == MAX_FILE_BYTES;
        content.take(k) + "...\n[truncated, file is "@ + decimal(byte_len(content)) + " bytes]"@
    } else {
        content
    }
}

/// Whether a content longer than the limit can be cut at the limit: a
/// character boundary must fall there.
pub open spec fn content_cuttable(content: Seq<char>) -> bool {
    byte_len(content) > MAX_FILE_BYTES ==> exists|k: int|
        0 <= k <= content.len() && #[trigger] byte_len(content.take(k)) == MAX_FILE_BYTES
}

proof fn lemma_byte_len_strict(s: Seq<char>, j: int, k: int)
    requires
        0 <= j < k <= s.len(),
    ensures
        byte_len(s.take(j)) < byte_len(s.take(k)),
    decreases k - j,
{
    lemma_byte_len_prefix(s, k - 1);
    if j < k - 1 {
        lemma_byte_len_strict(s, j, k - 1);
    }
}

/// The UTF-8 length of the whole text.
fn total_bytes(v: &Vec<char>) -> (n: usize)
    requires
        byte_len(v@) <= usize::MAX,
    ensures
        n == byte_len(v@),
{
    let mut n: usize = 0;
    let mut i: usize = 0;
    proof {
        assert(v@.take(v@.len() as int) =~= v@);
    }
    while i < v.len()
        invariant
            i <= v@.len(),
            byte_len(v@) <= usize::MAX,
            v@.take(v@.len() as int) == v@,
            n == byte_len(v@.take(i as int)),
        decreases v.len() - i,
    {
        proof {
            lemma_byte_len_prefix(v@, i as int);
            lemma_byte_len_mono(v@, i + 1, v@.len() as int);
        }
        n = n + utf8_width(v[i]);
        i = i + 1;
    }
    n
}

/// A file's content cut to the limit, with a note of its size.
pub fn limit_file_content(content: &str) -> (r: String)
    requires
        byte_len(content@) <= usize::MAX,
        content_cuttable(content@),
    ensures
        r@ == limited_content(content@),
{
    let v = chars_of(content);
    let total = total_bytes(&v);
    if total <= MAX_FILE_BYTES {
        return string_of_range(&v, 0, v.len());
    }
    let mut k: usize = 0;
    let mut b: usize = 0;
    while k < v.len() && b < MAX_FILE_BYTES
        invariant
            k <= v@.len(),
            b == byte_len(v@.take(k as int)),
            b <= byte_len(v@),
            byte_len(v@) <= usize::MAX,
            v@.take(v@.len() as int) == v@,
            forall|j: int| 0 <= j < k ==> byte_len(#[trigger] v@.take(j)) < MAX_FILE_BYTES,
        decreases v.len() - k,
    {
        proof {
            lemma_byte_len_prefix(v@, k as int);
            lemma_byte_len_mono(v@, k + 1, v@.len() as int);
        }
        b = b + utf8_width(v[k]);
        k = k + 1;
    }
    proof {
        assert(v@.subrange(0, v@.len() as int) =~= v@);
        let j = choose|j: int| 0 <= j <= v@.len() && #[trigger] byte_len(v@.take(j)) == MAX_FILE_BYTES;
        if j < k {
            assert(byte_len(v@.take(j)) < MAX_FILE_BYTES);
        } else if j > k {
            lemma_byte_len_strict(v@, k as int, j);
            if k == v@.len() {
                assert(false);
            }
        }
        assert(j == k);
        assert(v@.subrange(0, k as int) =~= v@.take(k as int));
    }
    let mut out = string_of_range(&v, 0, k);
    push_str(&mut out, "...\n[truncated, file is ");
    push_decimal(&mut out, total as u64);
    push_str(&mut out, " bytes]");
    out
}

/// Whether some character boundary falls at the limit.
pub fn is_content_cuttable(content: &str) -> (r: bool)
    requires
        byte_len(content@) <= usize::MAX,
    ensures
        r == content_cuttable(content@),
{
    let v = chars_of(content);
    let total = total_bytes(&v);
    if total <= MAX_FILE_BYTES {
        return true;
    }
    let mut k: usize = 0;
    let mut b: usize = 0;
    proof {
        assert(v@.take(v@.len() as int) =~= v@);
    }
    while k < v.len() && b < MAX_FILE_BYTES
        invariant
            k <= v@.len(),
            b == byte_len(v@.take(k as int)),
            b <= byte_len(v@),
            byte_len(v@) <= usize::MAX,
            v@.take(v@.len() as int) == v@,
            forall|j: int| 0 <= j < k ==> byte_len(#[trigger] v@.take(j)) < MAX_FILE_BYTES,
        decreases v.len() - k,
    {
        proof {
            lemma_byte_len_prefix(v@, k as int);
            lemma_byte_len_mono(v@, k + 1, v@.len() as int);
        }
        b = b + utf8_width(v[k]);
        k = k + 1;
    }
    proof {
        if content_cuttable(content@) {
            let j = choose|j: int| 0 <= j <= v@.len() && #[trigger] byte_len(v@.take(j)) == MAX_FILE_BYTES;
            if j < k {
                assert(byte_len(v@.take(j)) < MAX_FILE_BYTES);
            } else if j > k {
                lemma_byte_len_strict(v@, k as int, j);
            }
        }
    }
    b == MAX_FILE_BYTES
}

/// The message with the mentioned files in front, each as
/// `<file path="p">\ncontent\n</file>\n\n`; the message alone when no file
/// was read.
pub open spec fn expanded(text: Seq<char>, files: Seq<(Seq<char>, Seq<char>)>) -> Seq<char>
    decreases files.len(),
{
    if files.len() == 0 {
        text
    } else {
        let (p, c) = files[0];
        "<file path=\""@ + p + "\">\n"@ + c + "\n</file>\n\n"@ + expanded(text, files.drop_first())
    }
}

/// The files as plain values.
pub open spec fn files_view(v: Seq<(String, String)>) -> Seq<(Seq<char>, Seq<char>)> {
    v.map_values(|f: (String, String)| (f.0@, f.1@))
}

/// Builds the message sent for `text` once the mentioned files were read.
pub fn expanded_message(text: &str, files: &Vec<(String, String)>) -> (r: String)
    ensures
        r@ == expanded(text@, files_view(files@)),
{
    let ghost fs = files_view(files@);
    let mut out = String::new();
    let mut i: usize = 0;
    proof {
        assert(fs.skip(0) =~= fs);
        assert(out@ + expanded(text@, fs.skip(0)) =~= expanded(text@, fs));
    }
    while i < files.len()
        invariant
            i <= files.len(),
            fs == files_view(files@),
            out@ + expanded(text@, fs.skip(i as int)) == expanded(text@, fs),
        decreases files.len() - i,
    {
        let ghost before = out@;
        push_str(&mut out, "<file path=\"");
        push_str(&mut out, files[i].0.as_str());
        push_str(&mut out, "\">\n");
        push_str(&mut out, files[i].1.as_str());
        push_str(&mut out, "\n</file>\n\n");
        proof {
            let t = fs.skip(i as int);
            assert(t[0] == fs[i as int]);
            assert(t.drop_first() =~= fs.skip(i + 1));
            assert(out@ + expanded(text@, fs.skip(i + 1)) =~= before + expanded(text@, t));
        }
        i = i + 1;
    }
    push_str(&mut out, text);
    proof {
        assert(fs.skip(files.len() as int) =~= Seq::<(Seq<char>, Seq<char>)>::empty());
    }
    out
}

} // verus!
