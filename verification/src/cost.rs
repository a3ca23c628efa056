//! Model names: which family a model belongs to and its short display name.
use vstd::prelude::*;

use crate::text::{chars_of, contains, contains_str, lowercase_of, to_lowercase, index_of, lemma_index_of, lemma_index_of_at, owned, string_of_range};

verus! {

/// The model families that prices and names are told apart by.
#[derive(Debug, Clone, Copy, PartialEq, Eq, Structural)]
pub enum ModelFamily {
    Opus,
    Haiku,
    Sonnet,
    Other,
}

/// The family a model identifier names, by the first of "opus", "haiku" and
/// "sonnet" that its lowercase form contains.
pub open spec fn family_of(model: Seq<char>) -> ModelFamily {
    let lower = lowercase_of(model);
    if contains(lower, "opus"@) {
        ModelFamily::Opus
    } else if contains(lower, "haiku"@) {
        ModelFamily::Haiku
    } else if contains(lower, "sonnet"@) {
        ModelFamily::Sonnet
    } else {
        ModelFamily::Other
    }
}

/// The family of a model identifier. Pricing falls back to the Sonnet
/// prices for `Other`.
pub fn model_family(model: &str) -> (f: ModelFamily)
    ensures
        f == family_of(model@),
{
    let lower = to_lowercase(model);
    if contains_str(lower.as_str(), "opus") {
        ModelFamily::Opus
    } else if contains_str(lower.as_str(), "haiku") {
        ModelFamily::Haiku
    } else if contains_str(lower.as_str(), "sonnet") {
        ModelFamily::Sonnet
    } else {
        ModelFamily::Other
    }
}

/// The pieces of `s` between occurrences of `c` (`str::split`), in order:
/// one more piece than there are `c`s.
pub open spec fn split_on(s: Seq<char>, c: char) -> Seq<Seq<char>>
    decreases s.len(),
{
    let k = index_of(s, c);
    if k >= s.len() {
        seq![s]
    } else {
        proof {
            lemma_index_of(s, c);
        }
        seq![s.take(k)] + split_on(s.skip(k + 1), c)
    }
}

/// Whether every character of `s` is an ASCII digit.
pub open spec fn all_digits(s: Seq<char>) -> bool {
    forall|i: int| 0 <= i < s.len() ==> '0' <= #[trigger] s[i] <= '9'
}

/// The last of `parts` that is not all digits.
pub open spec fn last_non_numeric(parts: Seq<Seq<char>>) -> Option<Seq<char>>
    decreases parts.len(),
{
    if parts.len() == 0 {
        None
    } else if !all_digits(parts.last()) {
        Some(parts.last())
    } else {
        last_non_numeric(parts.drop_last())
    }
}

/// The short display name of a model identifier: its family's name, or for
/// another model the last `-`-separated part that is not a number (the whole
/// identifier when every part is).
pub open spec fn short_name(model: Seq<char>) -> Seq<char> {
    match family_of(model) {
        ModelFamily::Opus => "opus"@,
        ModelFamily::Haiku => "haiku"@,
        ModelFamily::Sonnet => "sonnet"@,
        ModelFamily::Other => match last_non_numeric(split_on(model, '-')) {
            Some(p) => p,
            None => model,
        },
    }
}

/// Splits `s` at every `c`.
pub(crate) fn split_chars(v: &Vec<char>, c: char) -> (r: Vec<String>)
    ensures
        r@.map_values(|p: String| p@) == split_on(v@, c),
{
    let n = v.len();
    let mut parts: Vec<String> = Vec::new();
    let mut p: usize = 0;
    assert(v@.skip(0) =~= v@);
    loop
        invariant
            p <= n,
            n == v@.len(),
            parts@.map_values(|q: String| q@) + split_on(v@.skip(p as int), c) == split_on(v@, c),
        decreases n - p,
    {
        let ghost before = parts@;
        let ghost t = v@.skip(p as int);
        let mut k = p;
        while k < n && v[k] != c
            invariant
                p <= k <= n,
                n == v@.len(),
                forall|i: int| p <= i < k ==> v@[i] != c,
            decreases n - k,
        {
            k = k + 1;
        }
        proof {
            assert forall|i: int| 0 <= i < k - p implies t[i] != c by {
                assert(t[i] == v@[i + p]);
            }
            if k < n {
                assert(t[k - p] == v@[k as int]);
            }
            lemma_index_of_at(t, c, k - p);
            assert(t.take(k - p) =~= v@.subrange(p as int, k as int));
        }
        parts.push(string_of_range(v, p, k));
        proof {
            assert(parts@.map_values(|q: String| q@) =~= before.map_values(|q: String| q@).push(
                v@.subrange(p as int, k as int),
            ));
        }
        if k == n {
            proof {
                assert(t =~= v@.subrange(p as int, k as int));
                assert(split_on(t, c) == seq![t]);
                assert(parts@.map_values(|q: String| q@) =~= before.map_values(|q: String| q@)
                    + split_on(t, c));
            }
            return parts;
        }
        proof {
            assert(t.skip(k - p + 1) =~= v@.skip(k + 1));
            assert(parts@.map_values(|q: String| q@) + split_on(v@.skip(k + 1), c)
                =~= before.map_values(|q: String| q@) + split_on(t, c));
        }
        p = k + 1;
    }
}

/// Whether every character is an ASCII digit.
fn is_all_digits(s: &str) -> (r: bool)
    ensures
        r == all_digits(s@),
{
    let v = chars_of(s);
    let mut i: usize = 0;
    while i < v.len()
        invariant
            i <= v.len(),
            v@ == s@,
            forall|j: int| 0 <= j < i ==> '0' <= #[trigger] v@[j] <= '9',
        decreases v.len() - i,
    {
        if !('0' <= v[i] && v[i] <= '9') {
            return false;
        }
        i = i + 1;
    }
    true
}

/// A short display name for a model identifier, e.g. "sonnet" for
/// "model-sonnet-4-5-20250929".
pub fn short_model_name(model: &str) -> (r: String)
    ensures
        r@ == short_name(model@),
{
    match model_family(model) {
        ModelFamily::Opus => owned("opus"),
        ModelFamily::Haiku => owned("haiku"),
        ModelFamily::Sonnet => owned("sonnet"),
        ModelFamily::Other => {
            let v = chars_of(model);
            let parts = split_chars(&v, '-');
            let ghost ps = parts@.map_values(|q: String| q@);
            let mut i = parts.len();
            assert(ps.take(i as int) =~= ps);
            while i > 0
                invariant
                    i <= parts.len(),
                    ps == parts@.map_values(|q: String| q@),
                    ps == split_on(model@, '-'),
                    family_of(model@) == ModelFamily::Other,
                    last_non_numeric(ps) == last_non_numeric(ps.take(i as int)),
                decreases i,
            {
                proof {
                    assert(ps.take(i as int).drop_last() =~= ps.take(i - 1));
                    assert(ps.take(i as int).last() == parts@[i - 1]@);
                }
                if !is_all_digits(parts[i - 1].as_str()) {
                    return parts[i - 1].clone();
                }
                i = i - 1;
            }
            owned(model)
        },
    }
}

} // verus!
