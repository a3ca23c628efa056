//! The order of strings (`str`'s `Ord`: by code point, character by
//! character) and a stable sort of entries keyed by a small rank and a name.
use vstd::prelude::*;

use crate::text::{chars_of, owned, str_eq, strs_of};

verus! {

/// Whether `a` comes strictly before `b` in the order of strings: at the
/// first differing character the smaller code point wins, and a proper
/// prefix comes first.
pub open spec fn seq_less(a: Seq<char>, b: Seq<char>) -> bool
    decreases a.len(),
{
    if a.len() == 0 {
        b.len() > 0
    } else if b.len() == 0 {
        false
    } else if a[0] != b[0] {
        (a[0] as int) < (b[0] as int)
    } else {
        seq_less(a.drop_first(), b.drop_first())
    }
}

/// No string comes before itself.
pub proof fn lemma_seq_less_irreflexive(a: Seq<char>)
    ensures
        !seq_less(a, a),
    decreases a.len(),
{
    if a.len() > 0 {
        lemma_seq_less_irreflexive(a.drop_first());
    }
}

/// The order of strings is transitive.
pub proof fn lemma_seq_less_transitive(a: Seq<char>, b: Seq<char>, c: Seq<char>)
    requires
        seq_less(a, b),
        seq_less(b, c),
    ensures
        seq_less(a, c),
    decreases a.len(),
{
    if a.len() > 0 && b.len() > 0 && c.len() > 0 && a[0] == b[0] && b[0] == c[0] {
        lemma_seq_less_transitive(a.drop_first(), b.drop_first(), c.drop_first());
    }
}

/// Of two different strings one comes before the other.
pub proof fn lemma_seq_less_total(a: Seq<char>, b: Seq<char>)
    requires
        a != b,
    ensures
        seq_less(a, b) || seq_less(b, a),
    decreases a.len(),
{
    if a.len() > 0 && b.len() > 0 {
        if a[0] == b[0] {
            if a.drop_first() == b.drop_first() {
                assert(a =~= seq![a[0]] + a.drop_first());
                assert(b =~= seq![b[0]] + b.drop_first());
            }
            lemma_seq_less_total(a.drop_first(), b.drop_first());
        } else {
            assert((a[0] as int) != (b[0] as int));
        }
    } else if a.len() == 0 && b.len() == 0 {
        assert(a =~= b);
    }
}

/// Whether `a` comes before `b` in the order of strings (`str < str`).
pub fn str_less(a: &str, b: &str) -> (r: bool)
    ensures
        r == seq_less(a@, b@),
{
    let x = chars_of(a);
    let y = chars_of(b);
    let mut i: usize = 0;
    assert(x@.skip(0) =~= x@);
    assert(y@.skip(0) =~= y@);
    while i < x.len() && i < y.len() && x[i] == y[i]
        invariant
            i <= x@.len(),
            i <= y@.len(),
            seq_less(a@, b@) == seq_less(x@.skip(i as int), y@.skip(i as int)),
            x@ == a@,
            y@ == b@,
        decreases x.len() - i,
    {
        proof {
            assert(x@.skip(i as int).drop_first() =~= x@.skip(i + 1));
            assert(y@.skip(i as int).drop_first() =~= y@.skip(i + 1));
        }
        i = i + 1;
    }
    proof {
        if i < x@.len() && i < y@.len() {
            assert(x@.skip(i as int)[0] == x@[i as int]);
            assert(y@.skip(i as int)[0] == y@[i as int]);
        }
    }
    if i == x.len() {
        i < y.len()
    } else if i == y.len() {
        false
    } else {
        x[i] < y[i]
    }
}

// ---------------------------------------------------------------------------
// Keys: a rank, then a name
// ---------------------------------------------------------------------------

/// A sort key: a rank first, then a name.
pub type Key = (u8, Seq<char>);

/// Whether key `a` comes strictly before key `b`.
pub open spec fn key_less(a: Key, b: Key) -> bool {
    a.0 < b.0 || (a.0 == b.0 && seq_less(a.1, b.1))
}

/// The key of an entry.
pub open spec fn key_of<T>(e: (u8, String, T)) -> Key {
    (e.0, e.1@)
}

proof fn lemma_key_less_irreflexive(a: Key)
    ensures
        !key_less(a, a),
{
    lemma_seq_less_irreflexive(a.1);
}

proof fn lemma_key_less_transitive(a: Key, b: Key, c: Key)
    requires
        key_less(a, b),
        key_less(b, c),
    ensures
        key_less(a, c),
{
    if a.0 == b.0 && b.0 == c.0 {
        lemma_seq_less_transitive(a.1, b.1, c.1);
    }
}

proof fn lemma_key_less_total(a: Key, b: Key)
    requires
        a != b,
    ensures
        key_less(a, b) || key_less(b, a),
{
    if a.0 == b.0 {
        if a.1 == b.1 {
            assert(a == b);
        }
        lemma_seq_less_total(a.1, b.1);
    }
}

/// `x < y` and `y <= z` give `x < z`.
proof fn lemma_key_less_le(x: Key, y: Key, z: Key)
    requires
        key_less(x, y),
        !key_less(z, y),
    ensures
        key_less(x, z),
{
    if y != z {
        lemma_key_less_total(y, z);
        lemma_key_less_transitive(x, y, z);
    }
}

/// Whether `out` is `input` sorted by key, equal keys kept in their order:
/// `perm` tells where each entry came from.
pub open spec fn is_sort_perm<T>(input: Seq<(u8, String, T)>, out: Seq<(u8, String, T)>, perm: Seq<int>) -> bool {
    &&& perm.len() == out.len()
    &&& out.len() == input.len()
    &&& forall|k: int| 0 <= k < out.len() ==> 0 <= #[trigger] perm[k] < input.len() && out[k] == input[perm[k]]
    &&& forall|k1: int, k2: int| 0 <= k1 < k2 < out.len() ==> perm[k1] != perm[k2]
    &&& forall|k1: int, k2: int|
        0 <= k1 < k2 < out.len() ==> !key_less(key_of(#[trigger] out[k2]), key_of(#[trigger] out[k1]))
    &&& forall|k1: int, k2: int|
        0 <= k1 < k2 < out.len() && key_of(out[k1]) == key_of(out[k2]) ==> #[trigger] perm[k1]
            < #[trigger] perm[k2]
}

/// Whether `out` is the stable sort of `input` by key.
pub open spec fn is_stable_sort<T>(input: Seq<(u8, String, T)>, out: Seq<(u8, String, T)>) -> bool {
    exists|perm: Seq<int>| is_sort_perm(input, out, perm)
}

/// Whether key `a` comes before key `b`.
fn key_less_exec(a: u8, an: &str, b: u8, bn: &str) -> (r: bool)
    ensures
        r == key_less((a, an@), (b, bn@)),
{
    a < b || (a == b && str_less(an, bn))
}

/// Sort the entries by rank and then name, keeping entries with equal keys
/// in their order.
pub fn sort_by_key<T>(input: Vec<(u8, String, T)>) -> (out: Vec<(u8, String, T)>)
    ensures
        is_stable_sort(input@, out@),
{
    let ghost orig = input@;
    let mut rest = input;
    let mut out: Vec<(u8, String, T)> = Vec::new();
    let ghost mut perm: Seq<int> = Seq::empty();
    let mut i: usize = 0;
    let n = rest.len();
    while i < n
        invariant
            n == orig.len(),
            i <= n,
            rest@ == orig.skip(i as int),
            is_sort_perm(orig.take(i as int), out@, perm),
            forall|k: int| 0 <= k < perm.len() ==> #[trigger] perm[k] < i,
        decreases n - i,
    {
        let e = rest.remove(0);
        proof {
            assert(e == orig[i as int]);
            assert(rest@ =~= orig.skip(i + 1));
        }
        let mut p: usize = 0;
        while p < out.len() && !key_less_exec(e.0, e.1.as_str(), out[p].0, out[p].1.as_str())
            invariant
                p <= out@.len(),
                forall|j: int| 0 <= j < p ==> !key_less(key_of(e), key_of(#[trigger] out@[j])),
            decreases out.len() - p,
        {
            p = p + 1;
        }
        let ghost old_out = out@;
        let ghost old_perm = perm;
        let ghost ke = key_of(e);
        out.insert(p, e);
        proof {
            perm = old_perm.insert(p as int, i as int);
            let ins = orig.take(i + 1);
            assert(ins.drop_last() =~= orig.take(i as int));
            assert forall|k: int| 0 <= k < out@.len() implies 0 <= #[trigger] perm[k] < ins.len()
                && out@[k] == ins[perm[k]] by {
                if k < p {
                    assert(out@[k] == old_out[k]);
                    assert(perm[k] == old_perm[k]);
                } else if k > p {
                    assert(out@[k] == old_out[k - 1]);
                    assert(perm[k] == old_perm[k - 1]);
                }
            }
            assert forall|k1: int, k2: int| 0 <= k1 < k2 < out@.len() implies perm[k1] != perm[k2] by {
                if k1 != p && k2 != p {
                    let a = if k1 < p { k1 } else { k1 - 1 };
                    let b = if k2 < p { k2 } else { k2 - 1 };
                    assert(perm[k1] == old_perm[a]);
                    assert(perm[k2] == old_perm[b]);
                } else if k1 == p {
                    assert(perm[k2] == old_perm[k2 - 1]);
                } else {
                    assert(perm[k1] == old_perm[k1]);
                }
            }
            assert forall|k1: int, k2: int| 0 <= k1 < k2 < out@.len() implies !key_less(
                key_of(#[trigger] out@[k2]),
                key_of(#[trigger] out@[k1]),
            ) by {
                if k1 != p && k2 != p {
                    let a = if k1 < p { k1 } else { k1 - 1 };
                    let b = if k2 < p { k2 } else { k2 - 1 };
                    assert(out@[k1] == old_out[a]);
                    assert(out@[k2] == old_out[b]);
                } else if k2 == p {
                    assert(out@[k1] == old_out[k1]);
                } else {
                    assert(out@[k2] == old_out[k2 - 1]);
                    assert(key_less(ke, key_of(old_out[p as int])));
                    if k2 - 1 > p {
                        assert(!key_less(key_of(old_out[k2 - 1]), key_of(old_out[p as int])));
                    }
                    lemma_key_less_irreflexive(key_of(old_out[p as int]));
                    lemma_key_less_le(ke, key_of(old_out[p as int]), key_of(old_out[k2 - 1]));
                    lemma_key_less_irreflexive(ke);
                    if key_less(key_of(old_out[k2 - 1]), ke) {
                        lemma_key_less_transitive(ke, key_of(old_out[k2 - 1]), ke);
                    }
                }
            }
            assert forall|k1: int, k2: int|
                0 <= k1 < k2 < out@.len() && key_of(out@[k1]) == key_of(out@[k2]) implies #[trigger] perm[k1]
                < #[trigger] perm[k2] by {
                if k1 != p && k2 != p {
                    let a = if k1 < p { k1 } else { k1 - 1 };
                    let b = if k2 < p { k2 } else { k2 - 1 };
                    assert(out@[k1] == old_out[a]);
                    assert(out@[k2] == old_out[b]);
                    assert(perm[k1] == old_perm[a]);
                    assert(perm[k2] == old_perm[b]);
                } else if k2 == p {
                    assert(perm[k1] == old_perm[k1]);
                } else {
                    assert(out@[k2] == old_out[k2 - 1]);
                    assert(key_less(ke, key_of(old_out[p as int])));
                    if k2 - 1 > p {
                        assert(!key_less(key_of(old_out[k2 - 1]), key_of(old_out[p as int])));
                    }
                    lemma_key_less_le(ke, key_of(old_out[p as int]), key_of(old_out[k2 - 1]));
                    lemma_key_less_irreflexive(ke);
                }
            }
            assert forall|k: int| 0 <= k < perm.len() implies #[trigger] perm[k] < i + 1 by {
                if k < p {
                    assert(perm[k] == old_perm[k]);
                } else if k > p {
                    assert(perm[k] == old_perm[k - 1]);
                }
            }
            assert(is_sort_perm(ins, out@, perm));
        }
        i = i + 1;
    }
    proof {
        assert(orig.take(n as int) =~= orig);
    }
    out
}

// ---------------------------------------------------------------------------
// Sorted names without repeats
// ---------------------------------------------------------------------------

/// Whether the names are in increasing order, none repeated.
pub open spec fn strictly_sorted(v: Seq<Seq<char>>) -> bool {
    forall|i: int, j: int| 0 <= i < j < v.len() ==> seq_less(#[trigger] v[i], #[trigger] v[j])
}

/// Putting `s` at `p` keeps the names in order when the names before `p`
/// come before it and the one at `p` after it.
proof fn lemma_insert_sorted(v: Seq<Seq<char>>, p: int, s: Seq<char>)
    requires
        strictly_sorted(v),
        0 <= p <= v.len(),
        forall|k: int| 0 <= k < p ==> seq_less(#[trigger] v[k], s),
        p < v.len() ==> seq_less(s, v[p]),
    ensures
        strictly_sorted(v.insert(p, s)),
{
    let w = v.insert(p, s);
    assert forall|i: int, j: int| 0 <= i < j < w.len() implies seq_less(#[trigger] w[i], #[trigger] w[j]) by {
        if i < p {
            if j > p {
                assert(w[j] == v[j - 1]);
                assert(seq_less(v[i], v[j - 1]));
            }
        } else if i == p {
            assert(w[j] == v[j - 1]);
            if j - 1 > p {
                assert(seq_less(v[p], v[j - 1]));
                lemma_seq_less_transitive(s, v[p], v[j - 1]);
            }
        } else {
            assert(w[i] == v[i - 1] && w[j] == v[j - 1]);
            assert(seq_less(v[i - 1], v[j - 1]));
        }
    }
}

/// Whether `x` is one of the names.
pub open spec fn has_name(v: Seq<Seq<char>>, x: Seq<char>) -> bool {
    v.contains(x)
}

/// Add a name to sorted names, unless it is there.
fn insert_name(v: &mut Vec<String>, s: &str)
    requires
        strictly_sorted(strs_of(old(v)@)),
    ensures
        strictly_sorted(strs_of(final(v)@)),
        forall|x: Seq<char>| #[trigger] has_name(strs_of(final(v)@), x) <==> (has_name(strs_of(old(v)@), x) || x == s@),
{
    let ghost before = strs_of(v@);
    let mut p: usize = 0;
    while p < v.len() && str_less(v[p].as_str(), s)
        invariant
            p <= v@.len(),
            before == strs_of(v@),
            forall|k: int| 0 <= k < p ==> seq_less(#[trigger] before[k], s@),
        decreases v@.len() - p,
    {
        p = p + 1;
    }
    if p < v.len() && str_eq(v[p].as_str(), s) {
        proof {
            assert(before[p as int] == s@);
            assert(before == strs_of(old(v)@));
        }
        return;
    }
    proof {
        if p < before.len() {
            assert(before[p as int] == v@[p as int]@);
            lemma_seq_less_total(before[p as int], s@);
        }
        lemma_insert_sorted(before, p as int, s@);
    }
    v.insert(p, owned(s));
    proof {
        assert(strs_of(v@) =~= before.insert(p as int, s@));
        assert forall|x: Seq<char>| #[trigger] has_name(strs_of(v@), x) <==> (has_name(before, x) || x == s@) by {
            let w = before.insert(p as int, s@);
            if before.contains(x) {
                let k = choose|k: int| 0 <= k < before.len() && before[k] == x;
                if k < p {
                    assert(w[k] == x);
                } else {
                    assert(w[k + 1] == x);
                }
            }
            if x == s@ {
                assert(w[p as int] == x);
            }
            if w.contains(x) {
                let k = choose|k: int| 0 <= k < w.len() && w[k] == x;
                if k < p {
                    assert(before[k] == x);
                } else if k > p {
                    assert(before[k - 1] == x);
                }
            }
        }
        assert(before == strs_of(old(v)@));
    }
}

/// The theme names to offer: the names found and the default theme's, in
/// order, each once.
pub fn theme_list(found: &Vec<String>) -> (r: Vec<String>)
    ensures
        strictly_sorted(strs_of(r@)),
        forall|x: Seq<char>| #[trigger] has_name(strs_of(r@), x) <==> (has_name(strs_of(found@), x) || x == "catppuccin-mocha"@),
{
    let mut out: Vec<String> = Vec::new();
    let mut i: usize = 0;
    while i < found.len()
        invariant
            i <= found@.len(),
            strictly_sorted(strs_of(out@)),
            forall|x: Seq<char>| #[trigger] has_name(strs_of(out@), x) <==> has_name(strs_of(found@.take(i as int)), x),
        decreases found@.len() - i,
    {
        let ghost prev = strs_of(out@);
        insert_name(&mut out, found[i].as_str());
        proof {
            assert(strs_of(found@.take(i + 1)) =~= strs_of(found@.take(i as int)).push(found@[i as int]@));
            assert forall|x: Seq<char>| #[trigger] has_name(strs_of(found@.take(i + 1)), x) <==> (has_name(strs_of(
                found@.take(i as int),
            ), x) || x == found@[i as int]@) by {
                let a = strs_of(found@.take(i as int));
                let b = a.push(found@[i as int]@);
                if b.contains(x) {
                    let k = choose|k: int| 0 <= k < b.len() && b[k] == x;
                    if k < a.len() {
                        assert(a[k] == x);
                    }
                }
                if a.contains(x) {
                    let k = choose|k: int| 0 <= k < a.len() && a[k] == x;
                    assert(b[k] == x);
                }
                if x == found@[i as int]@ {
                    assert(b[a.len() as int] == x);
                }
            }
        }
        i = i + 1;
    }
    insert_name(&mut out, "catppuccin-mocha");
    proof {
        assert(found@.take(found@.len() as int) =~= found@);
    }
    out
}

} // verus!
