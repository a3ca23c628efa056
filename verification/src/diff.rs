//! Line- and word-level diffs by longest common subsequence.
use vstd::prelude::*;

use crate::text::{chars_of, is_whitespace, is_ws, lines_of, push_str, split_lines, str_eq, strs_view};
use vstd::string::StrSliceExecFns;

verus! {

/// One step of an edit script.
#[derive(Debug, Clone, Copy, PartialEq)]
pub enum DiffOp<'a> {
    Equal(&'a str),
    Remove(&'a str),
    Add(&'a str),
}

/// The mathematical value of a step.
pub enum OpView {
    Equal(Seq<char>),
    Remove(Seq<char>),
    Add(Seq<char>),
}

impl<'a> View for DiffOp<'a> {
    type V = OpView;

    open spec fn view(&self) -> OpView {
        match self {
            DiffOp::Equal(s) => OpView::Equal(s@),
            DiffOp::Remove(s) => OpView::Remove(s@),
            DiffOp::Add(s) => OpView::Add(s@),
        }
    }
}

/// The values of a list of steps.
pub open spec fn ops_view(v: Seq<DiffOp>) -> Seq<OpView> {
    v.map_values(|o: DiffOp| o@)
}

/// The length of a longest common subsequence of `a` and `b`.
pub open spec fn lcs_len(a: Seq<Seq<char>>, b: Seq<Seq<char>>) -> nat
    decreases a.len() + b.len(),
{
    if a.len() == 0 || b.len() == 0 {
        0
    } else if a.last() == b.last() {
        lcs_len(a.drop_last(), b.drop_last()) + 1
    } else {
        let x = lcs_len(a.drop_last(), b);
        let y = lcs_len(a, b.drop_last());
        if x >= y {
            x
        } else {
            y
        }
    }
}

/// The edit script turning `a[..i]` into `b[..j]` that walking the LCS table
/// back from `(i, j)` yields: a shared last element is kept; otherwise an
/// insertion is preferred when it loses no common element, else a removal.
pub open spec fn script(a: Seq<Seq<char>>, b: Seq<Seq<char>>, i: int, j: int) -> Seq<OpView>
    decreases i + j,
    when 0 <= i <= a.len() && 0 <= j <= b.len()
{
    if i == 0 && j == 0 {
        seq![]
    } else if i > 0 && j > 0 && a[i - 1] == b[j - 1] {
        script(a, b, i - 1, j - 1).push(OpView::Equal(a[i - 1]))
    } else if j > 0 && (i == 0 || lcs_len(a.take(i), b.take(j - 1)) >= lcs_len(
        a.take(i - 1),
        b.take(j),
    )) {
        script(a, b, i, j - 1).push(OpView::Add(b[j - 1]))
    } else {
        script(a, b, i - 1, j).push(OpView::Remove(a[i - 1]))
    }
}

/// The sequence a script reads: its kept and removed elements.
pub open spec fn source_of(ops: Seq<OpView>) -> Seq<Seq<char>>
    decreases ops.len(),
{
    if ops.len() == 0 {
        seq![]
    } else {
        match ops.last() {
            OpView::Equal(s) => source_of(ops.drop_last()).push(s),
            OpView::Remove(s) => source_of(ops.drop_last()).push(s),
            OpView::Add(_) => source_of(ops.drop_last()),
        }
    }
}

/// The sequence a script writes: its kept and added elements.
pub open spec fn target_of(ops: Seq<OpView>) -> Seq<Seq<char>>
    decreases ops.len(),
{
    if ops.len() == 0 {
        seq![]
    } else {
        match ops.last() {
            OpView::Equal(s) => target_of(ops.drop_last()).push(s),
            OpView::Add(s) => target_of(ops.drop_last()).push(s),
            OpView::Remove(_) => target_of(ops.drop_last()),
        }
    }
}

/// How many elements a script keeps.
pub open spec fn kept(ops: Seq<OpView>) -> nat
    decreases ops.len(),
{
    if ops.len() == 0 {
        0
    } else {
        kept(ops.drop_last()) + if ops.last() is Equal {
            1nat
        } else {
            0nat
        }
    }
}

/// The diff of two sequences.
pub open spec fn diff_spec(a: Seq<Seq<char>>, b: Seq<Seq<char>>) -> Seq<OpView> {
    script(a, b, a.len() as int, b.len() as int)
}

/// A common subsequence never outgrows either sequence.
pub proof fn lemma_lcs_bound(a: Seq<Seq<char>>, b: Seq<Seq<char>>)
    ensures
        lcs_len(a, b) <= a.len(),
        lcs_len(a, b) <= b.len(),
    decreases a.len() + b.len(),
{
    if a.len() > 0 && b.len() > 0 {
        if a.last() == b.last() {
            lemma_lcs_bound(a.drop_last(), b.drop_last());
        } else {
            lemma_lcs_bound(a.drop_last(), b);
            lemma_lcs_bound(a, b.drop_last());
        }
    }
}

/// The script for `(i, j)` reads exactly `a[..i]`, writes exactly `b[..j]`,
/// and keeps as many elements as a longest common subsequence has.
pub proof fn lemma_script(a: Seq<Seq<char>>, b: Seq<Seq<char>>, i: int, j: int)
    requires
        0 <= i <= a.len(),
        0 <= j <= b.len(),
    ensures
        source_of(script(a, b, i, j)) == a.take(i),
        target_of(script(a, b, i, j)) == b.take(j),
        kept(script(a, b, i, j)) == lcs_len(a.take(i), b.take(j)),
    decreases i + j,
{
    let s = script(a, b, i, j);
    if i == 0 && j == 0 {
        assert(a.take(0) =~= seq![]);
        assert(b.take(0) =~= seq![]);
    } else if i > 0 && j > 0 && a[i - 1] == b[j - 1] {
        lemma_script(a, b, i - 1, j - 1);
        assert(s.drop_last() == script(a, b, i - 1, j - 1));
        assert(a.take(i - 1).push(a[i - 1]) =~= a.take(i));
        assert(b.take(j - 1).push(b[j - 1]) =~= b.take(j));
        assert(a.take(i).drop_last() =~= a.take(i - 1));
        assert(b.take(j).drop_last() =~= b.take(j - 1));
    } else if j > 0 && (i == 0 || lcs_len(a.take(i), b.take(j - 1)) >= lcs_len(
        a.take(i - 1),
        b.take(j),
    )) {
        lemma_script(a, b, i, j - 1);
        assert(s.drop_last() == script(a, b, i, j - 1));
        assert(b.take(j - 1).push(b[j - 1]) =~= b.take(j));
        assert(b.take(j).drop_last() =~= b.take(j - 1));
        if i > 0 {
            assert(a.take(i).drop_last() =~= a.take(i - 1));
        } else {
            assert(a.take(0) =~= seq![]);
        }
    } else {
        lemma_script(a, b, i - 1, j);
        assert(s.drop_last() == script(a, b, i - 1, j));
        assert(a.take(i - 1).push(a[i - 1]) =~= a.take(i));
        assert(a.take(i).drop_last() =~= a.take(i - 1));
        if j > 0 {
            assert(b.take(j).drop_last() =~= b.take(j - 1));
        } else {
            assert(b.take(0) =~= seq![]);
        }
    }
}

/// Law: the diff of `a` and `b` is an edit script from `a` to `b` — its
/// kept and removed elements spell `a`, its kept and added elements spell
/// `b` — and it keeps a longest common subsequence.
pub proof fn law_diff_reconstructs(a: Seq<Seq<char>>, b: Seq<Seq<char>>)
    ensures
        source_of(diff_spec(a, b)) == a,
        target_of(diff_spec(a, b)) == b,
        kept(diff_spec(a, b)) == lcs_len(a, b),
{
    lemma_script(a, b, a.len() as int, b.len() as int);
    assert(a.take(a.len() as int) =~= a);
    assert(b.take(b.len() as int) =~= b);
}

} // verus!

verus! {

// ---------------------------------------------------------------------------
// Splitting text into lines and words
// ---------------------------------------------------------------------------

/// End of the run starting at `i` of characters whose whitespace-ness is `ws`.
pub open spec fn run_end(s: Seq<char>, ws: bool, i: int) -> int
    decreases s.len() - i,
{
    if i >= s.len() {
        s.len() as int
    } else if is_ws(s[i]) == ws {
        run_end(s, ws, i + 1)
    } else {
        i
    }
}

/// A run ends at or after where it starts, and within the sequence.
pub proof fn lemma_run_end(s: Seq<char>, ws: bool, i: int)
    requires
        0 <= i <= s.len(),
    ensures
        i <= run_end(s, ws, i) <= s.len(),
        forall|k: int| i <= k < run_end(s, ws, i) ==> is_ws(#[trigger] s[k]) == ws,
        run_end(s, ws, i) < s.len() ==> is_ws(s[run_end(s, ws, i)]) != ws,
    decreases s.len() - i,
{
    if i < s.len() && is_ws(s[i]) == ws {
        lemma_run_end(s, ws, i + 1);
    }
}

/// The runs of whitespace and non-whitespace of `s` from position `i` on.
pub open spec fn tokens_from(s: Seq<char>, i: int) -> Seq<Seq<char>>
    decreases s.len() - i,
{
    if i < 0 || i >= s.len() {
        seq![]
    } else {
        let e = run_end(s, is_ws(s[i]), i + 1);
        proof {
            lemma_run_end(s, is_ws(s[i]), i + 1);
        }
        seq![s.subrange(i, e)] + tokens_from(s, e)
    }
}

/// `s` split into maximal runs of whitespace and of non-whitespace,
/// whitespace kept as tokens of its own.
pub open spec fn tokens_of(s: Seq<char>) -> Seq<Seq<char>> {
    tokens_from(s, 0)
}

/// The tokens one after the other.
pub open spec fn concat_all(ts: Seq<Seq<char>>) -> Seq<char>
    decreases ts.len(),
{
    if ts.len() == 0 {
        seq![]
    } else {
        ts[0] + concat_all(ts.drop_first())
    }
}

/// Whether a token is all whitespace or has none.
pub open spec fn uniform(t: Seq<char>) -> bool {
    forall|j: int| 0 <= j < t.len() ==> is_ws(#[trigger] t[j]) == is_ws(t[0])
}

/// Whether `ts` are maximal runs: non-empty, each all whitespace or none,
/// each of the other kind than the one before it.
pub open spec fn maximal_runs(ts: Seq<Seq<char>>) -> bool {
    &&& forall|k: int| 0 <= k < ts.len() ==> #[trigger] ts[k].len() > 0 && uniform(ts[k])
    &&& forall|k: int| 0 <= k < ts.len() - 1 ==> is_ws((#[trigger] ts[k])[0]) != is_ws(ts[k + 1][0])
}

/// The tokens of `s` from `i` on make up the rest of `s` and are maximal runs.
proof fn lemma_tokens_from(s: Seq<char>, i: int)
    requires
        0 <= i <= s.len(),
    ensures
        concat_all(tokens_from(s, i)) == s.skip(i),
        maximal_runs(tokens_from(s, i)),
        tokens_from(s, i).len() > 0 ==> tokens_from(s, i)[0][0] == s[i],
    decreases s.len() - i,
{
    if i < s.len() {
        let ws = is_ws(s[i]);
        let e = run_end(s, ws, i + 1);
        lemma_run_end(s, ws, i + 1);
        lemma_tokens_from(s, e);
        let head = s.subrange(i, e);
        let rest = tokens_from(s, e);
        let ts = tokens_from(s, i);
        assert(ts == seq![head] + rest);
        assert(ts.drop_first() =~= rest);
        assert(s.skip(i) =~= head + s.skip(e));
        assert(uniform(head)) by {
            assert forall|j: int| 0 <= j < head.len() implies is_ws(#[trigger] head[j]) == is_ws(head[0]) by {
                if j > 0 {
                    assert(head[j] == s[i + j]);
                }
            }
        }
        assert forall|k: int| 0 <= k < ts.len() implies #[trigger] ts[k].len() > 0 && uniform(ts[k]) by {
            if k > 0 {
                assert(ts[k] == rest[k - 1]);
            }
        }
        assert forall|k: int| 0 <= k < ts.len() - 1 implies is_ws((#[trigger] ts[k])[0]) != is_ws(ts[k + 1][0]) by {
            if k == 0 {
                assert(ts[1] == rest[0]);
            } else {
                assert(ts[k] == rest[k - 1]);
                assert(ts[k + 1] == rest[k]);
            }
        }
    } else {
        assert(s.skip(i) =~= Seq::<char>::empty());
    }
}

/// Law: the tokens of a text make up the text, and are maximal runs of
/// whitespace and of other characters (non-empty, each of one kind, each
/// of the other kind than the one before).
pub proof fn law_tokens_are_maximal_runs(s: Seq<char>)
    ensures
        concat_all(tokens_of(s)) == s,
        maximal_runs(tokens_of(s)),
{
    lemma_tokens_from(s, 0);
    assert(s.skip(0) =~= s);
}

/// Split a string into tokens preserving whitespace as separate entries:
/// "hello  world" → ["hello", "  ", "world"].
pub fn tokenize_words<'a>(s: &'a str) -> (r: Vec<&'a str>)
    ensures
        strs_view(r@) == tokens_of(s@),
{
    let v = chars_of(s);
    let n = v.len();
    let mut out: Vec<&'a str> = Vec::new();
    let mut p: usize = 0;
    while p < n
        invariant
            p <= n,
            n == v.len(),
            v@ == s@,
            strs_view(out@) + tokens_from(s@, p as int) == tokens_of(s@),
        decreases n - p,
    {
        let ws = is_whitespace(v[p]);
        let mut k = p + 1;
        while k < n && is_whitespace(v[k]) == ws
            invariant
                p < k <= n,
                n == v.len(),
                v@ == s@,
                ws == is_ws(s@[p as int]),
                run_end(s@, ws, p + 1) == run_end(s@, ws, k as int),
            decreases n - k,
        {
            k = k + 1;
        }
        proof {
            lemma_run_end(s@, ws, p + 1);
        }
        let tok = s.substring_char(p, k);
        let ghost old_out = out@;
        out.push(tok);
        proof {
            assert(strs_view(out@) =~= strs_view(old_out).push(tok@));
            assert(tokens_from(s@, p as int) == seq![s@.subrange(p as int, k as int)] + tokens_from(
                s@,
                k as int,
            ));
            assert(strs_view(out@) + tokens_from(s@, k as int) =~= strs_view(old_out) + tokens_from(
                s@,
                p as int,
            ));
        }
        p = k;
    }
    proof {
        assert(strs_view(out@) + tokens_from(s@, n as int) =~= strs_view(out@));
    }
    out
}

} // verus!

verus! {

// ---------------------------------------------------------------------------
// The LCS table and the walk back through it
// ---------------------------------------------------------------------------

/// Whether `table` is the LCS table of `a` and `b`: entry `(i, j)` is the LCS
/// length of `a[..i]` and `b[..j]`.
pub open spec fn is_lcs_table(table: Seq<Vec<usize>>, a: Seq<Seq<char>>, b: Seq<Seq<char>>) -> bool {
    &&& table.len() == a.len() + 1
    &&& forall|i: int| 0 <= i <= a.len() ==> #[trigger] table[i]@.len() == b.len() + 1
    &&& forall|i: int, j: int|
        0 <= i <= a.len() && 0 <= j <= b.len() ==> #[trigger] table[i]@[j] == lcs_len(
            a.take(i),
            b.take(j),
        )
}

/// Build the LCS length table for two sequences of lines.
pub fn lcs_table(old: &[&str], new: &[&str]) -> (table: Vec<Vec<usize>>)
    ensures
        is_lcs_table(table@, strs_view(old@), strs_view(new@)),
{
    let ghost a = strs_view(old@);
    let ghost b = strs_view(new@);
    let m = old.len();
    let n = new.len();
    let mut table: Vec<Vec<usize>> = Vec::new();
    let mut row0: Vec<usize> = Vec::new();
    row0.push(0);
    let mut j: usize = 0;
    while j < n
        invariant
            j <= n,
            n == new.len(),
            row0@.len() == j + 1,
            forall|k: int| 0 <= k <= j ==> row0@[k] == 0,
        decreases n - j,
    {
        row0.push(0);
        j = j + 1;
    }
    proof {
        assert forall|k: int| 0 <= k <= n implies row0@[k] == lcs_len(a.take(0), b.take(k)) by {
            assert(a.take(0).len() == 0);
        }
    }
    table.push(row0);
    let mut i: usize = 0;
    while i < m
        invariant
            i <= m,
            m == old.len(),
            n == new.len(),
            a == strs_view(old@),
            b == strs_view(new@),
            table@.len() == i + 1,
            forall|r: int| 0 <= r <= i ==> #[trigger] table@[r]@.len() == n + 1,
            forall|r: int, c: int|
                0 <= r <= i && 0 <= c <= n ==> #[trigger] table@[r]@[c] == lcs_len(
                    a.take(r),
                    b.take(c),
                ),
        decreases m - i,
    {
        let mut row: Vec<usize> = Vec::new();
        row.push(0);
        proof {
            assert(b.take(0).len() == 0);
        }
        let mut j: usize = 0;
        while j < n
            invariant
                i < m,
                j <= n,
                m == old.len(),
                n == new.len(),
                a == strs_view(old@),
                b == strs_view(new@),
                table@.len() == i + 1,
                table@[i as int]@.len() == n + 1,
                forall|c: int|
                    0 <= c <= n ==> #[trigger] table@[i as int]@[c] == lcs_len(
                        a.take(i as int),
                        b.take(c),
                    ),
                row@.len() == j + 1,
                forall|c: int| 0 <= c <= j ==> #[trigger] row@[c] == lcs_len(a.take(i + 1), b.take(c)),
            decreases n - j,
        {
            let ghost ai = a.take(i + 1);
            let ghost bj = b.take(j + 1);
            proof {
                assert(ai.drop_last() =~= a.take(i as int));
                assert(bj.drop_last() =~= b.take(j as int));
                assert(ai.last() == a[i as int]);
                assert(bj.last() == b[j as int]);
                assert(a[i as int] == old@[i as int]@);
                assert(b[j as int] == new@[j as int]@);
                lemma_lcs_bound(a.take(i as int), b.take(j as int));
            }
            let prev = &table[i];
            let val = if str_eq(old[i], new[j]) {
                prev[j] + 1
            } else {
                let up = prev[j + 1];
                let left = row[j];
                if up >= left {
                    up
                } else {
                    left
                }
            };
            row.push(val);
            j = j + 1;
        }
        table.push(row);
        i = i + 1;
    }
    table
}

/// Walk the LCS table back from the end to produce the diff operations.
fn build_diff<'a>(old: &[&'a str], new: &[&'a str], table: &[Vec<usize>]) -> (ops: Vec<
    DiffOp<'a>,
>)
    requires
        is_lcs_table(table@, strs_view(old@), strs_view(new@)),
    ensures
        ops_view(ops@) == diff_spec(strs_view(old@), strs_view(new@)),
{
    let ghost a = strs_view(old@);
    let ghost b = strs_view(new@);
    let mut rev: Vec<DiffOp<'a>> = Vec::new();
    let ghost mut suffix: Seq<OpView> = seq![];
    let mut i = old.len();
    let mut j = new.len();
    while i > 0 || j > 0
        invariant
            i <= old.len(),
            j <= new.len(),
            a == strs_view(old@),
            b == strs_view(new@),
            is_lcs_table(table@, a, b),
            script(a, b, a.len() as int, b.len() as int) == script(a, b, i as int, j as int)
                + suffix,
            suffix.len() == rev@.len(),
            forall|k: int| 0 <= k < rev@.len() ==> #[trigger] suffix[k] == rev@[rev@.len() - 1 - k]@,
        decreases i + j,
    {
        let ghost s_ij = script(a, b, i as int, j as int);
        if i > 0 && j > 0 && str_eq(old[i - 1], new[j - 1]) {
            let op = DiffOp::Equal(old[i - 1]);
            proof {
                assert(s_ij == script(a, b, i - 1, j - 1).push(op@));
                assert(script(a, b, i - 1, j - 1).push(op@) + suffix =~= script(a, b, i - 1, j - 1)
                    + (seq![op@] + suffix));
                suffix = seq![op@] + suffix;
            }
            rev.push(op);
            i = i - 1;
            j = j - 1;
        } else if j > 0 && (i == 0 || table[i][j - 1] >= table[i - 1][j]) {
            let op = DiffOp::Add(new[j - 1]);
            proof {
                assert(s_ij == script(a, b, i as int, j - 1).push(op@));
                assert(script(a, b, i as int, j - 1).push(op@) + suffix =~= script(
                    a,
                    b,
                    i as int,
                    j - 1,
                ) + (seq![op@] + suffix));
                suffix = seq![op@] + suffix;
            }
            rev.push(op);
            j = j - 1;
        } else {
            let op = DiffOp::Remove(old[i - 1]);
            proof {
                assert(s_ij == script(a, b, i - 1, j as int).push(op@));
                assert(script(a, b, i - 1, j as int).push(op@) + suffix =~= script(
                    a,
                    b,
                    i - 1,
                    j as int,
                ) + (seq![op@] + suffix));
                suffix = seq![op@] + suffix;
            }
            rev.push(op);
            i = i - 1;
        }
    }
    proof {
        assert(script(a, b, 0, 0) + suffix =~= suffix);
    }
    let mut ops: Vec<DiffOp<'a>> = Vec::new();
    let mut k = rev.len();
    while k > 0
        invariant
            k <= rev@.len(),
            suffix.len() == rev@.len(),
            forall|x: int| 0 <= x < rev@.len() ==> #[trigger] suffix[x] == rev@[rev@.len() - 1 - x]@,
            ops_view(ops@) == suffix.take(rev@.len() - k),
        decreases k,
    {
        let op = rev[k - 1];
        let ghost before = ops@;
        ops.push(op);
        proof {
            assert(suffix[rev@.len() - k] == rev@[k - 1]@);
            assert(ops_view(ops@) =~= ops_view(before).push(op@));
            assert(suffix.take(rev@.len() - k + 1) =~= suffix.take(rev@.len() - k).push(
                suffix[rev@.len() - k],
            ));
        }
        k = k - 1;
    }
    proof {
        assert(suffix.take(rev@.len() as int) =~= suffix);
    }
    ops
}

/// Compute a line-level diff between `old` and `new` text.
pub fn diff_lines<'a>(old: &'a str, new: &'a str) -> (ops: Vec<DiffOp<'a>>)
    ensures
        ops_view(ops@) == diff_spec(lines_of(old@), lines_of(new@)),
{
    let old_lines = split_lines(old);
    let new_lines = split_lines(new);
    let lcs = lcs_table(old_lines.as_slice(), new_lines.as_slice());
    build_diff(old_lines.as_slice(), new_lines.as_slice(), lcs.as_slice())
}

/// Compute a word-level diff between two lines: whitespace runs are tokens
/// of their own.
pub fn diff_words<'a>(old: &'a str, new: &'a str) -> (ops: Vec<DiffOp<'a>>)
    ensures
        ops_view(ops@) == diff_spec(tokens_of(old@), tokens_of(new@)),
{
    let old_words = tokenize_words(old);
    let new_words = tokenize_words(new);
    let lcs = lcs_table(old_words.as_slice(), new_words.as_slice());
    build_diff(old_words.as_slice(), new_words.as_slice(), lcs.as_slice())
}

} // verus!

verus! {

// ---------------------------------------------------------------------------
// Presenting a diff
// ---------------------------------------------------------------------------

/// One line of the unified rendering: a two-character marker, the text, a newline.
pub open spec fn unified_line(op: OpView) -> Seq<char> {
    match op {
        OpView::Equal(s) => "  "@ + s + seq!['\n'],
        OpView::Remove(s) => "- "@ + s + seq!['\n'],
        OpView::Add(s) => "+ "@ + s + seq!['\n'],
    }
}

/// The unified rendering of a list of steps.
pub open spec fn unified(ops: Seq<OpView>) -> Seq<char>
    decreases ops.len(),
{
    if ops.len() == 0 {
        seq![]
    } else {
        unified(ops.drop_last()) + unified_line(ops.last())
    }
}

/// Format a diff as a unified-style string with +/- prefixes.
pub fn format_unified(ops: &[DiffOp<'_>]) -> (out: String)
    ensures
        out@ == unified(ops_view(ops@)),
{
    let mut out = String::new();
    let mut k: usize = 0;
    while k < ops.len()
        invariant
            k <= ops.len(),
            out@ == unified(ops_view(ops@.take(k as int))),
        decreases ops.len() - k,
    {
        let ghost before = out@;
        match ops[k] {
            DiffOp::Equal(line) => {
                push_str(&mut out, "  ");
                push_str(&mut out, line);
            },
            DiffOp::Remove(line) => {
                push_str(&mut out, "- ");
                push_str(&mut out, line);
            },
            DiffOp::Add(line) => {
                push_str(&mut out, "+ ");
                push_str(&mut out, line);
            },
        }
        crate::text::push_char(&mut out, '\n');
        proof {
            let t = ops_view(ops@.take(k + 1));
            assert(t.drop_last() =~= ops_view(ops@.take(k as int)));
            assert(t.last() == ops@[k as int]@);
            assert(out@ =~= before + unified_line(ops@[k as int]@));
        }
        k = k + 1;
    }
    proof {
        assert(ops@.take(ops@.len() as int) =~= ops@);
    }
    out
}

/// Whether a step changes something.
pub open spec fn is_change(op: OpView) -> bool {
    !(op is Equal)
}

/// Whether step `i` lies within `context` steps of some change.
pub open spec fn near_change(ops: Seq<OpView>, context: int, i: int) -> bool {
    exists|k: int| 0 <= k < ops.len() && is_change(#[trigger] ops[k]) && k - context <= i <= k + context
}

/// The steps of `ops[..n]` that lie within `context` steps of a change, in order.
pub open spec fn visible_prefix(ops: Seq<OpView>, context: int, n: int) -> Seq<OpView>
    decreases n,
{
    if n <= 0 {
        seq![]
    } else if near_change(ops, context, n - 1) {
        visible_prefix(ops, context, n - 1).push(ops[n - 1])
    } else {
        visible_prefix(ops, context, n - 1)
    }
}

/// The views of borrowed steps.
pub open spec fn refs_view(v: Seq<&DiffOp>) -> Seq<OpView> {
    v.map_values(|o: &DiffOp| o@)
}

/// Return only the changes and the `context` steps around each, in order.
pub fn with_context<'a>(ops: &'a [DiffOp<'a>], context: usize) -> (r: Vec<&'a DiffOp<'a>>)
    ensures
        refs_view(r@) == visible_prefix(ops_view(ops@), context as int, ops@.len() as int),
{
    let ghost v = ops_view(ops@);
    let n = ops.len();
    let mut r: Vec<&'a DiffOp<'a>> = Vec::new();
    if n == 0 {
        proof {
            assert(refs_view(r@) =~= Seq::<OpView>::empty());
        }
        return r;
    }
    let mut visible: Vec<bool> = Vec::new();
    let mut x: usize = 0;
    while x < n
        invariant
            x <= n,
            n == ops.len(),
            visible@.len() == x,
            forall|y: int| 0 <= y < x ==> !visible@[y],
        decreases n - x,
    {
        visible.push(false);
        x = x + 1;
    }
    let mut i: usize = 0;
    while i < n
        invariant
            i <= n,
            n == ops.len(),
            v == ops_view(ops@),
            visible@.len() == n,
            forall|y: int|
                0 <= y < n ==> (#[trigger] visible@[y] <==> exists|k: int|
                    0 <= k < i && is_change(#[trigger] v[k]) && k - context <= y <= k + context),
        decreases n - i,
    {
        let change = match ops[i] {
            DiffOp::Equal(_) => false,
            _ => true,
        };
        assert(change == is_change(v[i as int]));
        if change {
            let start = if i >= context {
                i - context
            } else {
                0
            };
            let end = if context < n - i {
                i + context + 1
            } else {
                n
            };
            let ghost before = visible@;
            assert(forall|z: int|
                0 <= z < n ==> (before[z] <==> exists|k: int|
                    0 <= k < i && is_change(#[trigger] v[k]) && k - context <= z <= k + context));
            let mut y = start;
            while y < end
                invariant
                    start <= y <= end,
                    end <= n,
                    visible@.len() == n,
                    before.len() == n,
                    forall|z: int| 0 <= z < n && !(start <= z < y) ==> visible@[z] == before[z],
                    forall|z: int| start <= z < y ==> visible@[z],
                decreases end - y,
            {
                visible.set(y, true);
                y = y + 1;
            }
            proof {
                assert forall|z: int| 0 <= z < n implies (#[trigger] visible@[z] <==> exists|k: int|
                    0 <= k < i + 1 && is_change(#[trigger] v[k]) && k - context <= z <= k
                        + context) by {
                    let old_z = before[z];
                    if start <= z < end {
                        assert(is_change(v[i as int]));
                        assert(i - context <= z <= i + context);
                    } else {
                        assert(visible@[z] == old_z);
                        assert(!(i - context <= z <= i + context));
                        if exists|k: int|
                            0 <= k < i + 1 && is_change(#[trigger] v[k]) && k - context <= z <= k
                                + context {
                            let k = choose|k: int|
                                0 <= k < i + 1 && is_change(#[trigger] v[k]) && k - context <= z
                                    <= k + context;
                            assert(k != i);
                        }
                    }
                }
            }
        } else {
            proof {
                assert forall|z: int| 0 <= z < n implies (#[trigger] visible@[z] <==> exists|k: int|
                    0 <= k < i + 1 && is_change(#[trigger] v[k]) && k - context <= z <= k
                        + context) by {
                    if exists|k: int|
                        0 <= k < i + 1 && is_change(#[trigger] v[k]) && k - context <= z <= k
                            + context {
                        let k = choose|k: int|
                            0 <= k < i + 1 && is_change(#[trigger] v[k]) && k - context <= z <= k
                                + context;
                        assert(k != i);
                    }
                }
            }
        }
        i = i + 1;
    }
    let mut p: usize = 0;
    while p < n
        invariant
            p <= n,
            n == ops.len(),
            v == ops_view(ops@),
            visible@.len() == n,
            forall|y: int|
                0 <= y < n ==> (#[trigger] visible@[y] <==> exists|k: int|
                    0 <= k < n && is_change(#[trigger] v[k]) && k - context <= y <= k + context),
            refs_view(r@) == visible_prefix(v, context as int, p as int),
        decreases n - p,
    {
        assert(visible@[p as int] == near_change(v, context as int, p as int));
        let ghost before = r@;
        if visible[p] {
            r.push(&ops[p]);
            proof {
                assert(refs_view(r@) =~= refs_view(before).push(v[p as int]));
            }
        }
        p = p + 1;
    }
    r
}

} // verus!
