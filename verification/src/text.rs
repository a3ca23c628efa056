//! Character-sequence models of the string operations the library relies on,
//! with executable counterparts proved against them.
use vstd::prelude::*;
use vstd::string::StrSliceExecFns;
use vstd::string::StringExecFns;

verus! {

// ---------------------------------------------------------------------------
// Thin bridges to std's `str`/`String` that vstd does not specify
// ---------------------------------------------------------------------------

/// `str::chars` collected into a vector: the characters of `s`, in order.
#[verifier::external_body]
pub(crate) fn chars_of(s: &str) -> (v: Vec<char>)
    ensures
        v@ == s@,
{
    s.chars().collect()
}

/// `String: FromIterator<char>`: the string made of exactly these characters.
#[verifier::external_body]
pub(crate) fn string_of(v: &[char]) -> (s: String)
    ensures
        s@ == v@,
{
    v.iter().collect()
}

/// `String::push`: appends one character.
#[verifier::external_body]
pub(crate) fn push_char(s: &mut String, c: char)
    ensures
        final(s)@ == old(s)@.push(c),
{
    s.push(c)
}

/// Appends a string slice (vstd's `append`).
pub(crate) fn push_str(s: &mut String, t: &str)
    ensures
        final(s)@ == old(s)@ + t@,
{
    s.append(t)
}

/// `<str as PartialEq>::eq`: two slices are equal when their characters are.
#[verifier::external_body]
pub(crate) fn str_eq(a: &str, b: &str) -> (r: bool)
    ensures
        r == (a@ == b@),
{
    a == b
}

/// An owned copy with the same characters (`str::to_owned`).
pub(crate) fn owned(s: &str) -> (r: String)
    ensures
        r@ == s@,
{
    s.to_owned()
}

// ---------------------------------------------------------------------------
// Whitespace
// ---------------------------------------------------------------------------

/// Unicode `White_Space`, the set `char::is_whitespace` tests for.
pub open spec fn is_ws(c: char) -> bool {
    let u = c as u32;
    ||| (0x09 <= u && u <= 0x0D)
    ||| u == 0x20
    ||| u == 0x85
    ||| u == 0xA0
    ||| u == 0x1680
    ||| (0x2000 <= u && u <= 0x200A)
    ||| u == 0x2028
    ||| u == 0x2029
    ||| u == 0x202F
    ||| u == 0x205F
    ||| u == 0x3000
}

/// Whether `c` is Unicode whitespace.
pub fn is_whitespace(c: char) -> (r: bool)
    ensures
        r == is_ws(c),
{
    let u = c as u32;
    (0x09 <= u && u <= 0x0D) || u == 0x20 || u == 0x85 || u == 0xA0 || u == 0x1680 || (0x2000
        <= u && u <= 0x200A) || u == 0x2028 || u == 0x2029 || u == 0x202F || u == 0x205F || u
        == 0x3000
}

/// `s` without its leading whitespace.
pub open spec fn trim_start(s: Seq<char>) -> Seq<char>
    decreases s.len(),
{
    if s.len() > 0 && is_ws(s[0]) {
        trim_start(s.drop_first())
    } else {
        s
    }
}

/// `s` without its trailing whitespace.
pub open spec fn trim_end(s: Seq<char>) -> Seq<char>
    decreases s.len(),
{
    if s.len() > 0 && is_ws(s.last()) {
        trim_end(s.drop_last())
    } else {
        s
    }
}

/// `s` without leading and trailing whitespace.
pub open spec fn trim(s: Seq<char>) -> Seq<char> {
    trim_end(trim_start(s))
}

/// Trimming the start drops exactly the leading whitespace run.
pub proof fn lemma_trim_start(s: Seq<char>, k: int)
    requires
        0 <= k <= s.len(),
        forall|i: int| 0 <= i < k ==> is_ws(#[trigger] s[i]),
        k == s.len() || !is_ws(s[k]),
    ensures
        trim_start(s) == s.skip(k),
    decreases k,
{
    if k > 0 {
        assert(s.drop_first().skip(k - 1) =~= s.skip(k));
        assert forall|i: int| 0 <= i < k - 1 implies is_ws(#[trigger] s.drop_first()[i]) by {
            assert(s.drop_first()[i] == s[i + 1]);
        }
        lemma_trim_start(s.drop_first(), k - 1);
    } else {
        assert(s.skip(0) =~= s);
    }
}

/// Trimming the end drops exactly the trailing whitespace run.
pub proof fn lemma_trim_end(s: Seq<char>, k: int)
    requires
        0 <= k <= s.len(),
        forall|i: int| k <= i < s.len() ==> is_ws(#[trigger] s[i]),
        k == 0 || !is_ws(s[k - 1]),
    ensures
        trim_end(s) == s.take(k),
    decreases s.len() - k,
{
    if k < s.len() {
        assert(s.drop_last().take(k) =~= s.take(k));
        assert forall|i: int| k <= i < s.drop_last().len() implies is_ws(
            #[trigger] s.drop_last()[i],
        ) by {
            assert(s.drop_last()[i] == s[i]);
        }
        lemma_trim_end(s.drop_last(), k);
    } else {
        assert(s.take(k) =~= s);
    }
}

/// Bounds `(c, d)` such that `v[c..d]` is `v[a..b]` trimmed of whitespace.
pub fn trim_range(v: &Vec<char>, a: usize, b: usize) -> (r: (usize, usize))
    requires
        a <= b <= v@.len(),
    ensures
        a <= r.0 <= r.1 <= b,
        v@.subrange(r.0 as int, r.1 as int) == trim(v@.subrange(a as int, b as int)),
        trim_start(v@.subrange(a as int, b as int)) == v@.subrange(r.0 as int, b as int),
{
    let ghost s = v@.subrange(a as int, b as int);
    let mut c: usize = a;
    while c < b && is_whitespace(v[c])
        invariant
            a <= c <= b,
            b <= v@.len(),
            forall|i: int| a <= i < c ==> is_ws(#[trigger] v@[i]),
        decreases b - c,
    {
        c = c + 1;
    }
    proof {
        assert forall|i: int| 0 <= i < c - a implies is_ws(#[trigger] s[i]) by {
            assert(s[i] == v@[i + a]);
        }
        if c < b {
            assert(s[c - a] == v@[c as int]);
        }
        lemma_trim_start(s, c - a);
        assert(s.skip(c - a) =~= v@.subrange(c as int, b as int));
    }
    let mut d: usize = b;
    while d > c && is_whitespace(v[d - 1])
        invariant
            c <= d <= b,
            b <= v@.len(),
            forall|i: int| d <= i < b ==> is_ws(#[trigger] v@[i]),
        decreases d,
    {
        d = d - 1;
    }
    proof {
        let t = v@.subrange(c as int, b as int);
        assert forall|i: int| d - c <= i < t.len() implies is_ws(#[trigger] t[i]) by {
            assert(t[i] == v@[i + c]);
        }
        if d > c {
            assert(t[d - c - 1] == v@[d - 1]);
        }
        lemma_trim_end(t, d - c);
        assert(t.take(d - c) =~= v@.subrange(c as int, d as int));
    }
    (c, d)
}

/// `str::trim`, as an owned string.
pub fn trim_owned(s: &str) -> (r: String)
    ensures
        r@ == trim(s@),
{
    let v = chars_of(s);
    let (c, d) = trim_range(&v, 0, v.len());
    assert(v@.subrange(0, v@.len() as int) =~= v@);
    string_of_range(&v, c, d)
}

// ---------------------------------------------------------------------------
// Searching
// ---------------------------------------------------------------------------

/// Position of the first `c` in `s`, or `s.len()` when there is none.
pub open spec fn index_of(s: Seq<char>, c: char) -> int
    decreases s.len(),
{
    if s.len() == 0 {
        0
    } else if s[0] == c {
        0
    } else {
        1 + index_of(s.drop_first(), c)
    }
}

/// `index_of` finds the first occurrence, or reports that there is none.
pub proof fn lemma_index_of(s: Seq<char>, c: char)
    ensures
        0 <= index_of(s, c) <= s.len(),
        forall|i: int| 0 <= i < index_of(s, c) ==> s[i] != c,
        index_of(s, c) < s.len() ==> s[index_of(s, c)] == c,
    decreases s.len(),
{
    if s.len() > 0 && s[0] != c {
        lemma_index_of(s.drop_first(), c);
        assert forall|i: int| 0 <= i < index_of(s, c) implies s[i] != c by {
            if i > 0 {
                assert(s[i] == s.drop_first()[i - 1]);
            }
        }
    }
}

/// The characteristic property of `index_of`.
pub proof fn lemma_index_of_at(s: Seq<char>, c: char, k: int)
    requires
        0 <= k <= s.len(),
        forall|i: int| 0 <= i < k ==> s[i] != c,
        k == s.len() || s[k] == c,
    ensures
        index_of(s, c) == k,
    decreases k,
{
    if k > 0 {
        assert forall|i: int| 0 <= i < k - 1 implies s.drop_first()[i] != c by {
            assert(s.drop_first()[i] == s[i + 1]);
        }
        if k < s.len() {
            assert(s.drop_first()[k - 1] == s[k]);
        }
        lemma_index_of_at(s.drop_first(), c, k - 1);
    }
}

/// Number of occurrences of `c` in `s`.
pub open spec fn count_char(s: Seq<char>, c: char) -> nat
    decreases s.len(),
{
    if s.len() == 0 {
        0
    } else {
        count_char(s.drop_last(), c) + if s.last() == c {
            1nat
        } else {
            0nat
        }
    }
}

/// Counting distributes over concatenation.
pub proof fn lemma_count_char_concat(a: Seq<char>, b: Seq<char>, c: char)
    ensures
        count_char(a + b, c) == count_char(a, c) + count_char(b, c),
    decreases b.len(),
{
    if b.len() == 0 {
        assert(a + b =~= a);
    } else {
        assert((a + b).drop_last() =~= a + b.drop_last());
        lemma_count_char_concat(a, b.drop_last(), c);
    }
}

// ---------------------------------------------------------------------------
// Lines (`str::lines`)
// ---------------------------------------------------------------------------

/// A line without the `'\r'` of a `"\r\n"` ending.
pub open spec fn strip_cr(l: Seq<char>) -> Seq<char> {
    if l.len() > 0 && l.last() == '\r' {
        l.drop_last()
    } else {
        l
    }
}

/// The lines of `s` as `str::lines` yields them: split at `'\n'`, a `'\r'`
/// before the `'\n'` removed, and no empty line after a final `'\n'`.
pub open spec fn lines_of(s: Seq<char>) -> Seq<Seq<char>>
    decreases s.len(),
{
    if s.len() == 0 {
        seq![]
    } else {
        let k = index_of(s, '\n');
        if k < s.len() {
            proof {
                lemma_index_of(s, '\n');
            }
            seq![strip_cr(s.take(k))] + lines_of(s.skip(k + 1))
        } else {
            seq![s]
        }
    }
}

/// The number of lines: one per `'\n'`, plus one for a last line without one.
pub proof fn lemma_lines_len(s: Seq<char>)
    ensures
        lines_of(s).len() == count_char(s, '\n') + if s.len() > 0 && s.last() != '\n' {
            1nat
        } else {
            0nat
        },
    decreases s.len(),
{
    if s.len() > 0 {
        lemma_index_of(s, '\n');
        let k = index_of(s, '\n');
        if k < s.len() {
            let rest = s.skip(k + 1);
            lemma_lines_len(rest);
            assert(s =~= s.take(k) + seq!['\n'] + rest);
            lemma_count_char_concat(s.take(k) + seq!['\n'], rest, '\n');
            lemma_count_char_concat(s.take(k), seq!['\n'], '\n');
            lemma_no_char_count(s.take(k), '\n');
            assert(seq!['\n'].drop_last() =~= Seq::<char>::empty());
            assert(count_char(Seq::<char>::empty(), '\n') == 0);
            assert(count_char(seq!['\n'], '\n') == 1);
            assert(count_char(s, '\n') == 1 + count_char(rest, '\n'));
            assert(lines_of(s) == seq![strip_cr(s.take(k))] + lines_of(rest));
            if rest.len() > 0 {
                assert(rest.last() == s.last());
            }
        } else {
            lemma_no_char_count(s, '\n');
        }
    }
}

/// A count never exceeds the length, and a last character other than `c`
/// is not counted.
pub proof fn lemma_count_char_bound(s: Seq<char>, c: char)
    ensures
        count_char(s, c) <= s.len(),
        s.len() > 0 && s.last() != c ==> count_char(s, c) < s.len(),
    decreases s.len(),
{
    if s.len() > 0 {
        lemma_count_char_bound(s.drop_last(), c);
    }
}

/// A sequence without `c` counts no `c`.
pub proof fn lemma_no_char_count(s: Seq<char>, c: char)
    requires
        forall|i: int| 0 <= i < s.len() ==> s[i] != c,
    ensures
        count_char(s, c) == 0,
    decreases s.len(),
{
    if s.len() > 0 {
        lemma_no_char_count(s.drop_last(), c);
    }
}

/// Number of lines `str::lines` yields for `s`.
pub fn line_count(s: &str) -> (n: usize)
    ensures
        n == lines_of(s@).len(),
{
    let v = chars_of(s);
    let mut nl: usize = 0;
    let mut i: usize = 0;
    while i < v.len()
        invariant
            i <= v.len(),
            v@ == s@,
            nl == count_char(v@.take(i as int), '\n'),
            nl <= i,
        decreases v.len() - i,
    {
        proof {
            assert(v@.take(i + 1).drop_last() =~= v@.take(i as int));
        }
        if v[i] == '\n' {
            nl = nl + 1;
        }
        i = i + 1;
    }
    proof {
        assert(v@.take(v.len() as int) =~= v@);
        lemma_lines_len(v@);
        lemma_count_char_bound(v@, '\n');
    }
    if v.len() > 0 && v[v.len() - 1] != '\n' {
        nl + 1
    } else {
        nl
    }
}

} // verus!

verus! {

// ---------------------------------------------------------------------------
// Substrings
// ---------------------------------------------------------------------------

/// `String: FromIterator<char>` over `v[a..b]`.
#[verifier::external_body]
pub(crate) fn string_of_range(v: &Vec<char>, a: usize, b: usize) -> (s: String)
    requires
        a <= b <= v@.len(),
    ensures
        s@ == v@.subrange(a as int, b as int),
{
    v[a..b].iter().collect()
}

/// Whether `s` begins with `p`.
pub open spec fn starts_with(s: Seq<char>, p: Seq<char>) -> bool {
    p.len() <= s.len() && s.take(p.len() as int) == p
}

/// Whether `p` occurs in `s` at position `i`.
pub open spec fn occurs_at(s: Seq<char>, p: Seq<char>, i: int) -> bool {
    0 <= i && i + p.len() <= s.len() && s.subrange(i, i + p.len()) == p
}

/// The first position at or after `i` where `p` occurs in `s`.
pub open spec fn find_from(s: Seq<char>, p: Seq<char>, i: int) -> Option<int>
    decreases s.len() + 1 - i,
{
    if i < 0 || i + p.len() > s.len() {
        None
    } else if occurs_at(s, p, i) {
        Some(i)
    } else {
        find_from(s, p, i + 1)
    }
}

/// The first position where `p` occurs in `s` (`str::find`).
pub open spec fn find(s: Seq<char>, p: Seq<char>) -> Option<int> {
    find_from(s, p, 0)
}

/// `find_from` gives the first occurrence at or after `i`.
pub proof fn lemma_find_from(s: Seq<char>, p: Seq<char>, i: int)
    requires
        0 <= i,
    ensures
        match find_from(s, p, i) {
            Some(k) => i <= k && occurs_at(s, p, k) && forall|j: int|
                i <= j < k ==> !occurs_at(s, p, j),
            None => forall|j: int| i <= j ==> !occurs_at(s, p, j),
        },
    decreases s.len() + 1 - i,
{
    if i + p.len() <= s.len() && !occurs_at(s, p, i) {
        lemma_find_from(s, p, i + 1);
    }
}

/// Whether `p` occurs at position `i` of `v`.
pub fn matches_at(v: &Vec<char>, p: &Vec<char>, i: usize) -> (r: bool)
    ensures
        r == occurs_at(v@, p@, i as int),
{
    if i > v.len() || p.len() > v.len() - i {
        return false;
    }
    let mut k: usize = 0;
    while k < p.len()
        invariant
            k <= p.len(),
            i + p.len() <= v.len(),
            forall|j: int| 0 <= j < k ==> v@[i + j] == p@[j],
        decreases p.len() - k,
    {
        if v[i + k] != p[k] {
            assert(v@.subrange(i as int, i + p.len())[k as int] != p@[k as int]);
            return false;
        }
        k = k + 1;
    }
    assert(v@.subrange(i as int, i + p.len()) =~= p@);
    true
}

/// The first position at or after `from` where `p` occurs in `v`.
pub fn find_in(v: &Vec<char>, p: &Vec<char>, from: usize) -> (r: Option<usize>)
    ensures
        match r {
            Some(k) => find_from(v@, p@, from as int) == Some(k as int),
            None => find_from(v@, p@, from as int) is None,
        },
{
    let mut i = from;
    while i <= v.len() && p.len() <= v.len() - i
        invariant
            from <= i,
            find_from(v@, p@, from as int) == find_from(v@, p@, i as int),
        decreases v.len() + 1 - i,
    {
        if matches_at(v, p, i) {
            return Some(i);
        }
        if i == v.len() {
            assert(find_from(v@, p@, i + 1) is None);
            assert(find_from(v@, p@, i as int) is None);
            return None;
        }
        i = i + 1;
    }
    None
}

/// What `str::to_lowercase` gives for a text: each character's Unicode
/// lowercase mapping, a function of the text alone.
pub uninterp spec fn lowercase_of(s: Seq<char>) -> Seq<char>;

/// A character in ASCII lowercase: `A`–`Z` become `a`–`z`.
pub open spec fn ascii_lower(c: char) -> char {
    if 'A' <= c && c <= 'Z' {
        ((c as u32) + 32) as char
    } else {
        c
    }
}

/// Whether every character is ASCII.
pub open spec fn all_ascii(s: Seq<char>) -> bool {
    forall|i: int| 0 <= i < s.len() ==> (#[trigger] s[i] as u32) < 128
}

/// `str::to_lowercase`. Claimed: the result depends on the text alone
/// (`lowercase_of`), and for ASCII text it is the text with `A`–`Z`
/// turned into `a`–`z` (std documents the Unicode lowercase mapping, which
/// on ASCII is exactly that); the mapping beyond ASCII is not stated.
#[verifier::external_body]
pub(crate) fn to_lowercase(s: &str) -> (r: String)
    ensures
        r@ == lowercase_of(s@),
        all_ascii(s@) ==> r@ == s@.map_values(|c: char| ascii_lower(c)),
{
    s.to_lowercase()
}

/// Whether `p` occurs in `s` (`str::contains`).
pub open spec fn contains(s: Seq<char>, p: Seq<char>) -> bool {
    find(s, p) is Some
}

/// `p` occurs in `s` exactly when `s` is some text, then `p`, then some
/// text.
pub proof fn lemma_contains_infix(s: Seq<char>, p: Seq<char>)
    ensures
        contains(s, p) <==> exists|x: Seq<char>, y: Seq<char>| s == #[trigger] (x + p + y),
{
    lemma_find_from(s, p, 0);
    match find_from(s, p, 0) {
        Some(k) => {
            let x = s.take(k);
            let y = s.skip(k + p.len());
            assert(s =~= x + p + y);
        },
        None => {
            assert forall|x: Seq<char>, y: Seq<char>| s != #[trigger] (x + p + y) by {
                if s == x + p + y {
                    assert(s.subrange(x.len() as int, (x.len() + p.len()) as int) =~= p);
                    assert(occurs_at(s, p, x.len() as int));
                }
            }
        },
    }
}

/// Whether `p` occurs in `s`.
pub fn contains_str(s: &str, p: &str) -> (r: bool)
    ensures
        r == contains(s@, p@),
{
    let v = chars_of(s);
    let q = chars_of(p);
    find_in(&v, &q, 0).is_some()
}

/// `s` with every occurrence of the non-empty `p` replaced by `r`, scanning
/// left to right without overlaps (`str::replace`).
pub open spec fn replace_all(s: Seq<char>, p: Seq<char>, r: Seq<char>) -> Seq<char>
    decreases s.len(),
{
    if p.len() == 0 {
        s
    } else {
        match find(s, p) {
            None => s,
            Some(k) => {
                proof {
                    lemma_find_from(s, p, 0);
                }
                s.take(k) + r + replace_all(s.skip(k + p.len()), p, r)
            },
        }
    }
}

/// A search from position `i` is a search of the suffix from `i`, shifted.
pub proof fn lemma_find_from_shift(s: Seq<char>, p: Seq<char>, i: int, j: int)
    requires
        0 <= i <= j,
        i <= s.len(),
    ensures
        find_from(s, p, j) == match find_from(s.skip(i), p, j - i) {
            Some(k) => Some(k + i),
            None => None::<int>,
        },
    decreases s.len() + 1 - j,
{
    let t = s.skip(i);
    if j + p.len() <= s.len() {
        assert(occurs_at(s, p, j) == occurs_at(t, p, j - i)) by {
            assert(s.subrange(j, j + p.len()) =~= t.subrange(j - i, j - i + p.len()));
        }
        if !occurs_at(s, p, j) {
            lemma_find_from_shift(s, p, i, j + 1);
        }
    }
}

/// `String::replace` for a non-empty pattern.
pub fn replace_str(s: &str, p: &str, r: &str) -> (out: String)
    requires
        p@.len() > 0,
    ensures
        out@ == replace_all(s@, p@, r@),
{
    let v = chars_of(s);
    let pv = chars_of(p);
    let mut out = String::new();
    let mut pos: usize = 0;
    assert(s@.skip(0) =~= s@);
    while pos <= v.len()
        invariant
            pos <= v.len(),
            v@ == s@,
            pv@ == p@,
            p@.len() > 0,
            out@ + replace_all(s@.skip(pos as int), p@, r@) == replace_all(s@, p@, r@),
        decreases v.len() + 1 - pos,
    {
        proof {
            lemma_find_from_shift(s@, p@, pos as int, pos as int);
        }
        match find_in(&v, &pv, pos) {
            None => {
                let rest = string_of_range(&v, pos, v.len());
                let ghost before = out@;
                push_str(&mut out, rest.as_str());
                proof {
                    assert(s@.skip(pos as int) =~= s@.subrange(pos as int, v.len() as int));
                    assert(out@ == before + s@.skip(pos as int));
                }
                return out;
            },
            Some(k) => {
                proof {
                    lemma_find_from(s@, p@, pos as int);
                }
                let piece = string_of_range(&v, pos, k);
                let ghost before = out@;
                push_str(&mut out, piece.as_str());
                push_str(&mut out, r);
                proof {
                    let t = s@.skip(pos as int);
                    assert(find(t, p@) == Some(k - pos));
                    assert(t.take(k - pos) =~= s@.subrange(pos as int, k as int));
                    assert(t.skip(k - pos + p@.len()) =~= s@.skip(k + p@.len()));
                    assert(replace_all(t, p@, r@) == t.take(k - pos) + r@ + replace_all(
                        t.skip(k - pos + p@.len()),
                        p@,
                        r@,
                    ));
                    assert(out@ + replace_all(s@.skip(k + p@.len()), p@, r@) =~= before
                        + replace_all(t, p@, r@));
                }
                pos = k + pv.len();
            },
        }
    }
    out
}

/// The character sequences of a list of string slices.
pub open spec fn strs_view(v: Seq<&str>) -> Seq<Seq<char>> {
    v.map_values(|s: &str| s@)
}

/// The lines of `s`, as slices of it.
pub fn split_lines<'a>(s: &'a str) -> (r: Vec<&'a str>)
    ensures
        strs_view(r@) == lines_of(s@),
{
    let v = chars_of(s);
    let n = v.len();
    let mut out: Vec<&'a str> = Vec::new();
    let mut p: usize = 0;
    assert(s@.skip(0) =~= s@);
    while p < n
        invariant
            p <= n,
            n == v.len(),
            v@ == s@,
            strs_view(out@) + lines_of(s@.skip(p as int)) == lines_of(s@),
        decreases n - p,
    {
        let mut k = p;
        while k < n && v[k] != '\n'
            invariant
                p <= k <= n,
                n == v.len(),
                forall|i: int| p <= i < k ==> v@[i] != '\n',
            decreases n - k,
        {
            k = k + 1;
        }
        let ghost t = s@.skip(p as int);
        proof {
            assert forall|i: int| 0 <= i < k - p implies t[i] != '\n' by {
                assert(t[i] == v@[i + p]);
            }
            if k < n {
                assert(t[k - p] == v@[k as int]);
            }
            lemma_index_of_at(t, '\n', k - p);
        }
        let ghost old_out = out@;
        if k < n {
            let mut end = k;
            if end > p && v[end - 1] == '\r' {
                end = end - 1;
            }
            let line = s.substring_char(p, end);
            out.push(line);
            proof {
                assert(t.take(k - p) =~= s@.subrange(p as int, k as int));
                if k > p {
                    assert(t.take(k - p).last() == v@[k - 1]);
                }
                assert(strip_cr(t.take(k - p)) =~= s@.subrange(p as int, end as int));
                assert(t.skip(k - p + 1) =~= s@.skip(k + 1));
                assert(strs_view(out@) =~= strs_view(old_out).push(line@));
                assert(lines_of(t) == seq![strip_cr(t.take(k - p))] + lines_of(t.skip(k - p + 1)));
                assert(strs_view(out@) + lines_of(s@.skip(k + 1)) =~= strs_view(old_out) + lines_of(t));
            }
            p = k + 1;
        } else {
            let line = s.substring_char(p, n);
            out.push(line);
            proof {
                assert(t =~= s@.subrange(p as int, n as int));
                assert(lines_of(t) == seq![t]);
                assert(s@.skip(n as int) =~= Seq::<char>::empty());
                assert(strs_view(out@) =~= strs_view(old_out).push(line@));
                assert(strs_view(out@) + lines_of(s@.skip(n as int)) =~= strs_view(old_out) + lines_of(t));
            }
            p = n;
        }
    }
    proof {
        assert(s@.skip(n as int) =~= Seq::<char>::empty());
        assert(strs_view(out@) + lines_of(s@.skip(n as int)) =~= strs_view(out@));
    }
    out
}

} // verus!

verus! {

// ---------------------------------------------------------------------------
// Numbers and UTF-8 lengths
// ---------------------------------------------------------------------------

/// The ASCII digit for `d < 10`.
pub open spec fn digit_char(d: nat) -> char {
    (48 + d) as char
}

/// The decimal representation of `n`, without leading zeros.
pub open spec fn decimal(n: nat) -> Seq<char>
    decreases n,
{
    if n < 10 {
        seq![digit_char(n)]
    } else {
        decimal(n / 10).push(digit_char(n % 10))
    }
}

/// Appends the decimal representation of `n`.
pub fn push_decimal(s: &mut String, n: u64)
    ensures
        final(s)@ == old(s)@ + decimal(n as nat),
    decreases n,
{
    if n >= 10 {
        push_decimal(s, n / 10);
    }
    let d = (n % 10) as u8;
    let c = (48u8 + d) as char;
    assert(c == digit_char((n % 10) as nat));
    push_char(s, c);
}

/// The decimal representation of `n` (`u64::to_string`).
pub fn decimal_string(n: u64) -> (s: String)
    ensures
        s@ == decimal(n as nat),
{
    let mut s = String::new();
    push_decimal(&mut s, n);
    s
}

/// How many bytes UTF-8 takes for `c`.
pub open spec fn utf8_len(c: char) -> nat {
    let u = c as u32;
    if u < 0x80 {
        1
    } else if u < 0x800 {
        2
    } else if u < 0x10000 {
        3
    } else {
        4
    }
}

/// How many bytes UTF-8 takes for `s` (`str::len`).
pub open spec fn byte_len(s: Seq<char>) -> nat
    decreases s.len(),
{
    if s.len() == 0 {
        0
    } else {
        byte_len(s.drop_last()) + utf8_len(s.last())
    }
}

/// `char::len_utf8`.
pub fn utf8_width(c: char) -> (n: usize)
    ensures
        n == utf8_len(c),
{
    let u = c as u32;
    if u < 0x80 {
        1
    } else if u < 0x800 {
        2
    } else if u < 0x10000 {
        3
    } else {
        4
    }
}

/// Byte length grows with the prefix.
pub proof fn lemma_byte_len_prefix(s: Seq<char>, k: int)
    requires
        0 <= k < s.len(),
    ensures
        byte_len(s.take(k + 1)) == byte_len(s.take(k)) + utf8_len(s[k]),
{
    assert(s.take(k + 1).drop_last() =~= s.take(k));
}

/// Byte length is monotone in the prefix.
pub proof fn lemma_byte_len_mono(s: Seq<char>, j: int, k: int)
    requires
        0 <= j <= k <= s.len(),
    ensures
        byte_len(s.take(j)) <= byte_len(s.take(k)),
    decreases k - j,
{
    if j < k {
        lemma_byte_len_prefix(s, k - 1);
        lemma_byte_len_mono(s, j, k - 1);
    }
}

/// Counts the bytes of the leading characters of `v` until the count reaches
/// `limit` or the characters run out: `(k, byte_len(v[..k]))`.
pub fn bytes_upto(v: &Vec<char>, limit: usize) -> (r: (usize, usize))
    requires
        limit <= 4096,
    ensures
        r.0 <= v@.len(),
        r.1 == byte_len(v@.take(r.0 as int)),
        r.0 == v@.len() || r.1 >= limit,
        forall|k: int| 0 <= k < r.0 ==> byte_len(#[trigger] v@.take(k)) < limit,
{
    let mut k: usize = 0;
    let mut bytes: usize = 0;
    assert(v@.take(0) =~= Seq::<char>::empty());
    while k < v.len() && bytes < limit
        invariant
            k <= v@.len(),
            limit <= 4096,
            bytes == byte_len(v@.take(k as int)),
            bytes < limit + 4,
            forall|j: int| 0 <= j < k ==> byte_len(#[trigger] v@.take(j)) < limit,
        decreases v.len() - k,
    {
        proof {
            lemma_byte_len_prefix(v@, k as int);
        }
        let w = utf8_width(v[k]);
        bytes = bytes + w;
        k = k + 1;
    }
    (k, bytes)
}

} // verus!

verus! {

/// The UTF-8 encoding of a character is `utf8_len` bytes long.
proof fn lemma_encode_scalar_len(c: char)
    ensures
        vstd::utf8::encode_scalar(c as u32).len() == utf8_len(c),
{
}

/// The UTF-8 encoding of `s` is `byte_len(s)` bytes long.
pub proof fn lemma_encode_utf8_len(s: Seq<char>)
    ensures
        vstd::utf8::encode_utf8(s).len() == byte_len(s),
    decreases s.len(),
{
    if s.len() > 0 {
        lemma_encode_utf8_len(s.drop_first());
        lemma_encode_scalar_len(s[0]);
        assert(s =~= seq![s[0]] + s.drop_first());
        crate::input::lemma_byte_len_concat(seq![s[0]], s.drop_first());
        assert(seq![s[0]].drop_last() =~= Seq::<char>::empty());
        assert(byte_len(Seq::<char>::empty()) == 0);
        assert(byte_len(seq![s[0]]) == utf8_len(s[0]));
    }
}

/// The length of `s` in bytes (`str::len`); a string in memory always has
/// one that fits a `usize`.
pub fn str_len(s: &str) -> (n: usize)
    ensures
        n == byte_len(s@),
{
    let b = s.as_bytes();
    let n = b.len();
    proof {
        lemma_encode_utf8_len(s@);
    }
    n
}

} // verus!

verus! {

/// The strings of a list as character sequences.
pub open spec fn strs_of(v: Seq<String>) -> Seq<Seq<char>> {
    v.map_values(|s: String| s@)
}

/// Whether the list holds the string `s`.
pub fn list_contains(v: &Vec<String>, s: &str) -> (r: bool)
    ensures
        r == strs_of(v@).contains(s@),
{
    let mut i: usize = 0;
    while i < v.len()
        invariant
            i <= v@.len(),
            forall|j: int| 0 <= j < i ==> v@[j]@ != s@,
        decreases v.len() - i,
    {
        if str_eq(v[i].as_str(), s) {
            assert(strs_of(v@)[i as int] == s@);
            return true;
        }
        i = i + 1;
    }
    assert forall|j: int| 0 <= j < strs_of(v@).len() implies strs_of(v@)[j] != s@ by {
        assert(strs_of(v@)[j] == v@[j]@);
    }
    false
}

} // verus!

verus! {

/// Whether `s` begins with `p` (`str::starts_with`).
pub fn str_starts_with(s: &str, p: &str) -> (r: bool)
    ensures
        r == starts_with(s@, p@),
{
    let v = chars_of(s);
    let w = chars_of(p);
    let r = matches_at(&v, &w, 0);
    proof {
        if w@.len() <= v@.len() {
            assert(v@.subrange(0, w@.len() as int) =~= v@.take(w@.len() as int));
        }
    }
    r
}

} // verus!
