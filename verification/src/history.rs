//! Input history: most recent last, without duplicates when pushed, kept as
//! JSON lines, searched by fuzzy matching.
use vstd::prelude::*;

use crate::json::{parse_json, spec_parse_json, JsonValue};
use crate::text::{index_of, lemma_index_of, lemma_index_of_at, lines_of, push_char, push_str, split_lines, str_eq, strip_cr, strs_view};

verus! {

/// Maximum number of entries kept after a push.
pub const MAX_ENTRIES: usize = 500;

/// The characters of each entry.
pub open spec fn texts(v: Seq<String>) -> Seq<Seq<char>> {
    v.map_values(|e: String| e@)
}

/// The history of submitted inputs, oldest first.
pub struct InputHistory {
    entries: Vec<String>,
}

impl View for InputHistory {
    type V = Seq<Seq<char>>;

    closed spec fn view(&self) -> Seq<Seq<char>> {
        texts(self.entries@)
    }
}

impl InputHistory {
    /// No entry is empty.
    #[verifier::type_invariant]
    closed spec fn no_empty_entry(self) -> bool {
        forall|i: int| 0 <= i < self.entries@.len() ==> #[trigger] self.entries@[i]@.len() > 0
    }
}

/// Every entry of `h` is non-empty.
pub open spec fn all_nonempty(h: Seq<Seq<char>>) -> bool {
    forall|i: int| 0 <= i < h.len() ==> #[trigger] h[i].len() > 0
}

/// `h` without any entry equal to `t`, the others in order.
pub open spec fn without(h: Seq<Seq<char>>, t: Seq<char>) -> Seq<Seq<char>>
    decreases h.len(),
{
    if h.len() == 0 {
        h
    } else if h.last() == t {
        without(h.drop_last(), t)
    } else {
        without(h.drop_last(), t).push(h.last())
    }
}

/// The history after pushing `t`: an empty text changes nothing; otherwise
/// earlier copies of `t` are removed, `t` is appended, and the oldest
/// entries are dropped beyond `MAX_ENTRIES`.
pub open spec fn pushed(h: Seq<Seq<char>>, t: Seq<char>) -> Seq<Seq<char>> {
    if t.len() == 0 {
        h
    } else {
        let p = without(h, t).push(t);
        if p.len() > MAX_ENTRIES {
            p.skip(p.len() - MAX_ENTRIES)
        } else {
            p
        }
    }
}

/// Entry `index` counted from the most recent (0 = most recent).
pub open spec fn reverse_entry(h: Seq<Seq<char>>, index: int) -> Option<Seq<char>> {
    if 0 <= index < h.len() {
        Some(h[h.len() - 1 - index])
    } else {
        None
    }
}

/// How many entries equal `t`.
pub open spec fn occurrences(h: Seq<Seq<char>>, t: Seq<char>) -> nat
    decreases h.len(),
{
    if h.len() == 0 {
        0
    } else {
        occurrences(h.drop_last(), t) + if h.last() == t {
            1nat
        } else {
            0nat
        }
    }
}

proof fn lemma_without(h: Seq<Seq<char>>, t: Seq<char>)
    ensures
        without(h, t).len() <= h.len(),
        occurrences(without(h, t), t) == 0,
        all_nonempty(h) ==> all_nonempty(without(h, t)),
        forall|i: int| 0 <= i < without(h, t).len() ==> h.contains(#[trigger] without(h, t)[i]),
    decreases h.len(),
{
    if h.len() > 0 {
        lemma_without(h.drop_last(), t);
        let w = without(h.drop_last(), t);
        if h.last() != t {
            assert(w.push(h.last()).drop_last() =~= w);
            assert forall|i: int| 0 <= i < w.push(h.last()).len() implies h.contains(
                #[trigger] w.push(h.last())[i],
            ) by {
                if i < w.len() {
                    let x = w[i];
                    assert(h.drop_last().contains(x));
                    let j = choose|j: int| 0 <= j < h.drop_last().len() && h.drop_last()[j] == x;
                    assert(h[j] == x);
                } else {
                    assert(h[h.len() - 1] == h.last());
                }
            }
        } else {
            assert forall|i: int| 0 <= i < w.len() implies h.contains(#[trigger] w[i]) by {
                let x = w[i];
                assert(h.drop_last().contains(x));
                let j = choose|j: int| 0 <= j < h.drop_last().len() && h.drop_last()[j] == x;
                assert(h[j] == x);
            }
        }
    }
}

proof fn lemma_occurrences_skip(p: Seq<Seq<char>>, t: Seq<char>, k: int)
    requires
        0 <= k <= p.len(),
        occurrences(p, t) == 1,
        p.len() > 0,
        p.last() == t,
        k < p.len(),
    ensures
        occurrences(p.skip(k), t) == 1,
    decreases p.len(),
{
    assert(occurrences(p.drop_last(), t) == 0);
    lemma_occurrences_zero(p.drop_last(), t, k);
    assert(p.skip(k).drop_last() =~= p.drop_last().skip(k));
}

proof fn lemma_occurrences_zero(p: Seq<Seq<char>>, t: Seq<char>, k: int)
    requires
        0 <= k <= p.len(),
        occurrences(p, t) == 0,
    ensures
        occurrences(p.skip(k), t) == 0,
    decreases p.len(),
{
    if p.len() > k {
        assert(p.skip(k).drop_last() =~= p.drop_last().skip(k));
        lemma_occurrences_zero(p.drop_last(), t, k);
    } else {
        assert(p.skip(k).len() == 0);
    }
}

/// After pushing a non-empty text, it is the most recent entry, it occurs
/// exactly once, every entry is non-empty if they were before, and the
/// history holds at most `MAX_ENTRIES` entries.
pub proof fn law_push(h: Seq<Seq<char>>, t: Seq<char>)
    requires
        t.len() > 0,
    ensures
        reverse_entry(pushed(h, t), 0) == Some(t),
        occurrences(pushed(h, t), t) == 1,
        pushed(h, t).len() <= MAX_ENTRIES,
        all_nonempty(h) ==> all_nonempty(pushed(h, t)),
{
    lemma_without(h, t);
    let w = without(h, t);
    let p = w.push(t);
    assert(p.drop_last() =~= w);
    assert(occurrences(p, t) == 1);
    if p.len() > MAX_ENTRIES {
        lemma_occurrences_skip(p, t, p.len() - MAX_ENTRIES);
    }
}

/// Pushing the same text twice in a row leaves the history as one push did.
pub proof fn law_push_idempotent(h: Seq<Seq<char>>, t: Seq<char>)
    ensures
        pushed(pushed(h, t), t) == pushed(h, t),
{
    if t.len() > 0 {
        law_push(h, t);
        let p1 = pushed(h, t);
        lemma_without_absent(p1.drop_last(), t);
        lemma_occurrences_front(p1, t);
        assert(without(p1, t) == without(p1.drop_last(), t));
        assert(without(p1, t) =~= p1.drop_last());
        assert(without(p1, t).push(t) =~= p1);
    }
}

/// Removing a text that does not occur changes nothing.
proof fn lemma_without_absent(h: Seq<Seq<char>>, t: Seq<char>)
    requires
        occurrences(h, t) == 0,
    ensures
        without(h, t) == h,
    decreases h.len(),
{
    if h.len() > 0 {
        lemma_without_absent(h.drop_last(), t);
        assert(h.drop_last().push(h.last()) =~= h);
    }
}

/// A text that occurs once, last, does not occur before.
proof fn lemma_occurrences_front(h: Seq<Seq<char>>, t: Seq<char>)
    requires
        h.len() > 0,
        h.last() == t,
        occurrences(h, t) == 1,
    ensures
        occurrences(h.drop_last(), t) == 0,
{
}

impl InputHistory {
    /// An empty history.
    pub fn empty() -> (h: Self)
        ensures
            h@ == Seq::<Seq<char>>::empty(),
    {
        let h = InputHistory { entries: Vec::new() };
        assert(h@ =~= Seq::<Seq<char>>::empty());
        h
    }

    /// Push a new entry. An existing copy moves to the end (most recent);
    /// an empty text is not recorded.
    pub fn push(&mut self, text: String)
        ensures
            final(self)@ == pushed(old(self)@, text@),
            all_nonempty(final(self)@),
    {
        proof {
            use_type_invariant(&*self);
        }
        if text.as_str().is_empty() {
            proof {
                self.lemma_all_nonempty();
            }
            return;
        }
        let ghost h = self@;
        let mut kept: Vec<String> = Vec::new();
        let mut i: usize = 0;
        while i < self.entries.len()
            invariant
                i <= self.entries.len(),
                h == texts(self.entries@),
                texts(kept@) == without(h.take(i as int), text@),
                forall|k: int| 0 <= k < self.entries@.len() ==> #[trigger] self.entries@[k]@.len() > 0,
                forall|k: int| 0 <= k < kept@.len() ==> #[trigger] kept@[k]@.len() > 0,
            decreases self.entries.len() - i,
        {
            proof {
                assert(h.take(i + 1).drop_last() =~= h.take(i as int));
                assert(h.take(i + 1).last() == self.entries@[i as int]@);
            }
            if !str_eq(self.entries[i].as_str(), text.as_str()) {
                kept.push(self.entries[i].clone());
                proof {
                    assert(texts(kept@) =~= without(h.take(i as int), text@).push(
                        self.entries@[i as int]@,
                    ));
                }
            }
            i = i + 1;
        }
        proof {
            assert(h.take(self.entries.len() as int) =~= h);
        }
        let ghost t = text@;
        kept.push(text);
        let ghost p = texts(kept@);
        proof {
            assert(p =~= without(h, t).push(t));
            assert forall|k: int| 0 <= k < kept@.len() implies #[trigger] kept@[k]@.len() > 0 by {
                if k < kept@.len() - 1 {
                    assert(kept@[k] == kept@.drop_last()[k]);
                }
            }
        }
        if kept.len() > MAX_ENTRIES {
            let excess = kept.len() - MAX_ENTRIES;
            let mut trimmed: Vec<String> = Vec::new();
            let mut j: usize = excess;
            while j < kept.len()
                invariant
                    excess <= j <= kept.len(),
                    p == texts(kept@),
                    texts(trimmed@) == p.subrange(excess as int, j as int),
                    forall|k: int| 0 <= k < kept@.len() ==> #[trigger] kept@[k]@.len() > 0,
                    forall|k: int| 0 <= k < trimmed@.len() ==> #[trigger] trimmed@[k]@.len() > 0,
                decreases kept.len() - j,
            {
                let ghost before = trimmed@;
                trimmed.push(kept[j].clone());
                proof {
                    assert(trimmed@ == before.push(kept@[j as int]));
                    assert(texts(trimmed@) =~= texts(before).push(kept@[j as int]@));
                    assert(p[j as int] == kept@[j as int]@);
                    assert(texts(trimmed@) =~= p.subrange(excess as int, j + 1));
                }
                j = j + 1;
            }
            proof {
                assert(p.subrange(excess as int, p.len() as int) =~= p.skip(excess as int));
            }
            self.entries = trimmed;
        } else {
            self.entries = kept;
        }
        proof {
            self.lemma_all_nonempty();
        }
    }

    /// Every entry is non-empty.
    proof fn lemma_all_nonempty(&self)
        requires
            forall|i: int| 0 <= i < self.entries@.len() ==> #[trigger] self.entries@[i]@.len() > 0,
        ensures
            all_nonempty(self@),
    {
        assert forall|i: int| 0 <= i < self@.len() implies #[trigger] self@[i].len() > 0 by {
            assert(self@[i] == self.entries@[i]@);
        }
    }

    /// Entry by reverse index (0 = most recent).
    pub fn get_reverse(&self, index: usize) -> (r: Option<&str>)
        ensures
            match r {
                Some(s) => reverse_entry(self@, index as int) == Some(s@),
                None => reverse_entry(self@, index as int) is None,
            },
    {
        if index < self.entries.len() {
            Some(self.entries[self.entries.len() - 1 - index].as_str())
        } else {
            None
        }
    }

    /// Total number of entries.
    pub fn len(&self) -> (n: usize)
        ensures
            n == self@.len(),
    {
        self.entries.len()
    }
}

// ---------------------------------------------------------------------------
// JSON lines
// ---------------------------------------------------------------------------

/// The JSON text `serde_json::to_string` writes for a string.
pub uninterp spec fn json_string_of(s: Seq<char>) -> Seq<char>;

/// `serde_json::to_string` of a string slice. Claimed, as its source shows
/// (`format_escaped_str` and the `ESCAPE` table): it succeeds; the text
/// depends on the string alone; control characters, `'\n'` and `'\r'` among
/// them, are written as escapes; and parsing the text gives the string back.
#[verifier::external_body]
fn to_json_string(s: &str) -> (r: Option<String>)
    ensures
        match r {
            Some(t) => t@ == json_string_of(s@) && round_trips(s@),
            None => false,
        },
{
    serde_json::to_string(s).ok()
}

/// The entry a line of the history file holds: a JSON string that is not
/// empty.
pub open spec fn entry_of_line(l: Seq<char>) -> Option<Seq<char>> {
    entry_of_json(spec_parse_json(l))
}

/// The entry a parsed history line holds: a non-empty JSON string.
pub open spec fn entry_of_json(j: Option<JsonValue>) -> Option<Seq<char>> {
    match j {
        Some(JsonValue::Str(s)) => if s@.len() > 0 {
            Some(s@)
        } else {
            None
        },
        _ => None,
    }
}

/// The entry a parsed history line holds (`None` when the line is not
/// JSON, or not a non-empty string).
pub fn entry_of_value(json: Option<JsonValue>) -> (r: Option<String>)
    ensures
        match r {
            Some(e) => entry_of_json(json) == Some(e@),
            None => entry_of_json(json) is None,
        },
{
    match json {
        Some(JsonValue::Str(s)) => {
            if s.as_str().is_empty() {
                None
            } else {
                Some(s)
            }
        },
        _ => None,
    }
}

/// The entries a history file's lines hold, in order.
pub open spec fn loaded_entries(lines: Seq<Seq<char>>) -> Seq<Seq<char>>
    decreases lines.len(),
{
    if lines.len() == 0 {
        seq![]
    } else {
        match entry_of_line(lines.last()) {
            Some(e) => loaded_entries(lines.drop_last()).push(e),
            None => loaded_entries(lines.drop_last()),
        }
    }
}

/// The history file for `h`: each entry as a JSON string on a line of its own.
pub open spec fn jsonl_text(h: Seq<Seq<char>>) -> Seq<char>
    decreases h.len(),
{
    if h.len() == 0 {
        seq![]
    } else {
        jsonl_text(h.drop_last()) + json_string_of(h.last()) + seq!['\n']
    }
}

impl InputHistory {
    /// The history a file of JSON lines holds; lines that are not a
    /// non-empty JSON string are skipped.
    pub fn from_jsonl(content: &str) -> (h: Self)
        ensures
            h@ == loaded_entries(lines_of(content@)),
            all_nonempty(h@),
    {
        let lines = split_lines(content);
        let ghost ls = strs_view(lines@);
        let mut entries: Vec<String> = Vec::new();
        let mut i: usize = 0;
        while i < lines.len()
            invariant
                i <= lines.len(),
                ls == strs_view(lines@),
                ls == lines_of(content@),
                texts(entries@) == loaded_entries(ls.take(i as int)),
                forall|k: int| 0 <= k < entries@.len() ==> #[trigger] entries@[k]@.len() > 0,
            decreases lines.len() - i,
        {
            proof {
                assert(ls.take(i + 1).drop_last() =~= ls.take(i as int));
                assert(ls.take(i + 1).last() == lines@[i as int]@);
            }
            match entry_of_value(parse_json(lines[i])) {
                Some(e) => {
                    entries.push(e);
                    proof {
                        assert(texts(entries@) =~= loaded_entries(ls.take(i as int)).push(
                            entries@.last()@,
                        ));
                    }
                },
                None => {},
            }
            i = i + 1;
        }
        proof {
            assert(ls.take(lines.len() as int) =~= ls);
        }
        let h = InputHistory { entries };
        proof {
            h.lemma_all_nonempty();
        }
        h
    }

    /// The history as a file of JSON lines.
    pub fn to_jsonl(&self) -> (s: String)
        ensures
            s@ == jsonl_text(self@),
            loaded_entries(lines_of(s@)) == self@,
    {
        proof {
            use_type_invariant(self);
            self.lemma_all_nonempty();
        }
        let ghost h = self@;
        let mut content = String::new();
        let mut i: usize = 0;
        while i < self.entries.len()
            invariant
                i <= self.entries.len(),
                h == texts(self.entries@),
                content@ == jsonl_text(h.take(i as int)),
                forall|k: int| 0 <= k < i ==> round_trips(#[trigger] h[k]),
            decreases self.entries.len() - i,
        {
            proof {
                assert(h.take(i + 1).drop_last() =~= h.take(i as int));
                assert(h.take(i + 1).last() == self.entries@[i as int]@);
            }
            match to_json_string(self.entries[i].as_str()) {
                Some(json) => {
                    let ghost before = content@;
                    push_str(&mut content, json.as_str());
                    push_char(&mut content, '\n');
                    proof {
                        assert(round_trips(h[i as int]));
                        assert(content@ =~= before + json_string_of(h[i as int]) + seq!['\n']);
                    }
                },
                None => {},
            }
            i = i + 1;
        }
        proof {
            assert(h.take(self.entries.len() as int) =~= h);
            lemma_jsonl_roundtrip(h);
        }
        content
    }
}

/// Splitting a text that ends a line, followed by more text, splits each.
proof fn lemma_lines_concat(a: Seq<char>, b: Seq<char>)
    requires
        a.len() == 0 || a.last() == '\n',
    ensures
        lines_of(a + b) == lines_of(a) + lines_of(b),
    decreases a.len(),
{
    if a.len() == 0 {
        assert(a + b =~= b);
        assert(lines_of(a) =~= Seq::<Seq<char>>::empty());
        assert(lines_of(a) + lines_of(b) =~= lines_of(b));
    } else {
        lemma_index_of(a, '\n');
        let k = index_of(a, '\n');
        assert(k < a.len()) by {
            if k >= a.len() {
                assert(a[a.len() - 1] == '\n');
            }
        }
        let ab = a + b;
        assert forall|i: int| 0 <= i < k implies ab[i] != '\n' by {
            assert(ab[i] == a[i]);
        }
        assert(ab[k] == a[k]);
        lemma_index_of_at(ab, '\n', k);
        assert(ab.take(k) =~= a.take(k));
        let rest = a.skip(k + 1);
        assert(ab.skip(k + 1) =~= rest + b);
        if rest.len() > 0 {
            assert(rest.last() == a.last());
        }
        lemma_lines_concat(rest, b);
        assert(lines_of(ab) == seq![strip_cr(a.take(k))] + lines_of(rest + b));
        assert(lines_of(a) == seq![strip_cr(a.take(k))] + lines_of(rest));
        assert(lines_of(ab) =~= lines_of(a) + lines_of(b));
    }
}

/// A text with no line break, ended by one, is one line.
proof fn lemma_one_line(t: Seq<char>)
    requires
        forall|i: int| 0 <= i < t.len() ==> #[trigger] t[i] != '\n' && t[i] != '\r',
    ensures
        lines_of(t + seq!['\n']) == seq![t],
{
    let s = t + seq!['\n'];
    assert forall|i: int| 0 <= i < t.len() implies s[i] != '\n' by {
        assert(s[i] == t[i]);
    }
    lemma_index_of_at(s, '\n', t.len() as int);
    assert(s.take(t.len() as int) =~= t);
    if t.len() > 0 {
        assert(t.last() == t[t.len() - 1]);
    }
    assert(strip_cr(t) == t);
    assert(s.skip(t.len() as int + 1) =~= Seq::<char>::empty());
    assert(lines_of(Seq::<char>::empty()) =~= Seq::<Seq<char>>::empty());
    assert(lines_of(s) =~= seq![t]);
}

/// The history file of non-empty entries ends each entry's line.
proof fn lemma_jsonl_ends_line(h: Seq<Seq<char>>)
    ensures
        jsonl_text(h).len() == 0 || jsonl_text(h).last() == '\n',
{
}

/// What `to_json_string` guarantees of an entry's JSON text: it holds no
/// line break and parses back to the entry.
pub open spec fn round_trips(e: Seq<char>) -> bool {
    let t = json_string_of(e);
    &&& forall|j: int| 0 <= j < t.len() ==> #[trigger] t[j] != '\n' && t[j] != '\r'
    &&& spec_parse_json(t) matches Some(JsonValue::Str(u)) && u@ == e
}

/// Loading the file of non-empty entries whose JSON texts round-trip gives
/// the entries back.
proof fn lemma_jsonl_roundtrip(h: Seq<Seq<char>>)
    requires
        all_nonempty(h),
        forall|i: int| 0 <= i < h.len() ==> round_trips(#[trigger] h[i]),
    ensures
        loaded_entries(lines_of(jsonl_text(h))) == h,
    decreases h.len(),
{
    if h.len() > 0 {
        let init = h.drop_last();
        assert forall|i: int| 0 <= i < init.len() implies #[trigger] init[i].len() > 0 by {
            assert(init[i] == h[i]);
        }
        assert forall|i: int| 0 <= i < init.len() implies round_trips(#[trigger] init[i]) by {
            assert(init[i] == h[i]);
        }
        lemma_jsonl_roundtrip(init);
        let t = json_string_of(h.last());
        assert(h.last() == h[h.len() - 1]);
        assert(round_trips(h[h.len() - 1]));
        lemma_jsonl_ends_line(init);
        assert(jsonl_text(h) == jsonl_text(init) + (t + seq!['\n']));
        lemma_lines_concat(jsonl_text(init), t + seq!['\n']);
        lemma_one_line(t);
        let ls = lines_of(jsonl_text(h));
        assert(ls == lines_of(jsonl_text(init)).push(t));
        assert(ls.drop_last() =~= lines_of(jsonl_text(init)));
        assert(entry_of_line(t) == Some(h.last()));
        assert(loaded_entries(ls) =~= h);
    }
}

// ---------------------------------------------------------------------------
// Fuzzy search
// ---------------------------------------------------------------------------

/// The score `SkimMatcherV2::default().fuzzy_match(choice, pattern)` gives,
/// `None` when the pattern does not match.
pub uninterp spec fn skim_score(choice: Seq<char>, pattern: Seq<char>) -> Option<i64>;

/// `FuzzyMatcher::fuzzy_match` of a default `SkimMatcherV2`. Claimed: the
/// score depends on the two texts alone (the matcher's caches do not change
/// results); the scoring itself is not stated.
#[verifier::external_body]
pub(crate) fn fuzzy_score(choice: &str, pattern: &str) -> (r: Option<i64>)
    ensures
        r == skim_score(choice@, pattern@),
{
    fuzzy_matcher::FuzzyMatcher::fuzzy_match(
        &fuzzy_matcher::skim::SkimMatcherV2::default(),
        choice,
        pattern,
    )
}

/// The score of the entry at reverse index `i` against `q`.
pub open spec fn score_at(h: Seq<Seq<char>>, q: Seq<char>, i: int) -> Option<i64> {
    skim_score(h[h.len() - 1 - i], q)
}

/// Search order: higher score first, then lower reverse index (more recent).
pub open spec fn ranks_before(s1: i64, i1: int, s2: i64, i2: int) -> bool {
    s1 > s2 || (s1 == s2 && i1 < i2)
}

/// Whether `r` is what a search of `h` for `q` gives: every entry, most
/// recent first, for an empty query; otherwise exactly the matching entries
/// (each with its reverse index), by descending score, ties most recent first.
pub open spec fn is_search_result(h: Seq<Seq<char>>, q: Seq<char>, r: Seq<(usize, Seq<char>)>) -> bool {
    if q.len() == 0 {
        r == Seq::new(h.len(), |i: int| (i as usize, h[h.len() - 1 - i]))
    } else {
        &&& forall|p: int|
            0 <= p < r.len() ==> {
                &&& #[trigger] r[p].0 < h.len()
                &&& r[p].1 == h[h.len() - 1 - r[p].0]
                &&& score_at(h, q, r[p].0 as int) is Some
            }
        &&& forall|j: int|
            0 <= j < h.len() && (#[trigger] score_at(h, q, j)) is Some ==> exists|p: int|
                0 <= p < r.len() && r[p].0 == j
        &&& forall|p: int, p2: int|
            0 <= p < p2 < r.len() ==> ranks_before(
                score_at(h, q, r[p].0 as int)->0,
                r[p].0 as int,
                score_at(h, q, r[p2].0 as int)->0,
                r[p2].0 as int,
            )
    }
}

/// A result pair as plain values.
pub open spec fn result_view(r: Seq<(usize, &str)>) -> Seq<(usize, Seq<char>)> {
    r.map_values(|x: (usize, &str)| (x.0, x.1@))
}

impl InputHistory {
    /// Search entries with fuzzy matching. Returns (reverse index, entry)
    /// pairs, best match first.
    pub fn search(&self, query: &str) -> (r: Vec<(usize, &str)>)
        ensures
            is_search_result(self@, query@, result_view(r@)),
    {
        let n = self.entries.len();
        let ghost h = self@;
        if query.is_empty() {
            let mut out: Vec<(usize, &str)> = Vec::new();
            let mut i: usize = 0;
            while i < n
                invariant
                    i <= n,
                    n == self.entries@.len(),
                    h == texts(self.entries@),
                    result_view(out@) == Seq::new(i as nat, |k: int| (k as usize, h[h.len() - 1 - k])),
                decreases n - i,
            {
                proof {
                    assert(h[h.len() - 1 - i] == self.entries@[n - 1 - i]@);
                }
                let ghost before = out@;
                out.push((i, self.entries[n - 1 - i].as_str()));
                proof {
                    assert(result_view(out@) =~= result_view(before).push((i, h[h.len() - 1 - i])));
                    assert(result_view(out@) =~= Seq::new(
                        (i + 1) as nat,
                        |k: int| (k as usize, h[h.len() - 1 - k]),
                    ));
                }
                i = i + 1;
            }
            return out;
        }
        // (score, reverse index), kept in search order.
        let mut ranked: Vec<(i64, usize)> = Vec::new();
        let mut i: usize = 0;
        while i < n
            invariant
                i <= n,
                n == self.entries@.len(),
                h == texts(self.entries@),
                forall|p: int|
                    0 <= p < ranked@.len() ==> {
                        &&& #[trigger] ranked@[p].1 < i
                        &&& score_at(h, query@, ranked@[p].1 as int) == Some(ranked@[p].0)
                    },
                forall|j: int|
                    0 <= j < i && (#[trigger] score_at(h, query@, j)) is Some ==> exists|p: int|
                        0 <= p < ranked@.len() && ranked@[p].1 == j,
                forall|p: int, p2: int|
                    0 <= p < p2 < ranked@.len() ==> ranks_before(
                        ranked@[p].0,
                        ranked@[p].1 as int,
                        ranked@[p2].0,
                        ranked@[p2].1 as int,
                    ),
            decreases n - i,
        {
            let entry = self.entries[n - 1 - i].as_str();
            proof {
                assert(h[h.len() - 1 - i] == self.entries@[n - 1 - i]@);
            }
            match fuzzy_score(entry, query) {
                Some(s) => {
                    let mut pos: usize = 0;
                    while pos < ranked.len() && ranked[pos].0 >= s
                        invariant
                            pos <= ranked@.len(),
                            forall|p: int| 0 <= p < pos ==> #[trigger] ranked@[p].0 >= s,
                        decreases ranked.len() - pos,
                    {
                        pos = pos + 1;
                    }
                    let ghost old_ranked = ranked@;
                    ranked.insert(pos, (s, i));
                    proof {
                        assert forall|p: int, p2: int|
                            0 <= p < p2 < ranked@.len() implies ranks_before(
                            ranked@[p].0,
                            ranked@[p].1 as int,
                            ranked@[p2].0,
                            ranked@[p2].1 as int,
                        ) by {
                            if p2 < pos {
                                assert(ranked@[p] == old_ranked[p]);
                                assert(ranked@[p2] == old_ranked[p2]);
                            } else if p2 == pos {
                                assert(ranked@[p] == old_ranked[p]);
                            } else if p == pos {
                                assert(ranked@[p2] == old_ranked[p2 - 1]);
                                assert(old_ranked[pos as int].0 < s);
                                if p2 - 1 > pos {
                                    assert(ranks_before(
                                        old_ranked[pos as int].0,
                                        old_ranked[pos as int].1 as int,
                                        old_ranked[p2 - 1].0,
                                        old_ranked[p2 - 1].1 as int,
                                    ));
                                }
                            } else if p < pos {
                                assert(ranked@[p] == old_ranked[p]);
                                assert(ranked@[p2] == old_ranked[p2 - 1]);
                            } else {
                                assert(ranked@[p] == old_ranked[p - 1]);
                                assert(ranked@[p2] == old_ranked[p2 - 1]);
                            }
                        }
                        assert forall|j: int|
                            0 <= j < i + 1 && (#[trigger] score_at(h, query@, j)) is Some implies exists|p: int|
                            0 <= p < ranked@.len() && ranked@[p].1 == j by {
                            if j < i {
                                let p = choose|p: int| 0 <= p < old_ranked.len() && old_ranked[p].1 == j;
                                if p < pos {
                                    assert(ranked@[p] == old_ranked[p]);
                                } else {
                                    assert(ranked@[p + 1] == old_ranked[p]);
                                }
                            } else {
                                assert(ranked@[pos as int].1 == j);
                            }
                        }
                        assert forall|p: int| 0 <= p < ranked@.len() implies {
                            &&& #[trigger] ranked@[p].1 < i + 1
                            &&& score_at(h, query@, ranked@[p].1 as int) == Some(ranked@[p].0)
                        } by {
                            if p < pos {
                                assert(ranked@[p] == old_ranked[p]);
                            } else if p > pos {
                                assert(ranked@[p] == old_ranked[p - 1]);
                            }
                        }
                    }
                },
                None => {
                    proof {
                        assert(score_at(h, query@, i as int) is None);
                    }
                },
            }
            i = i + 1;
        }
        let mut out: Vec<(usize, &str)> = Vec::new();
        let mut k: usize = 0;
        while k < ranked.len()
            invariant
                k <= ranked.len(),
                n == self.entries@.len(),
                h == texts(self.entries@),
                forall|p: int|
                    0 <= p < ranked@.len() ==> {
                        &&& #[trigger] ranked@[p].1 < n
                        &&& score_at(h, query@, ranked@[p].1 as int) == Some(ranked@[p].0)
                    },
                out@.len() == k,
                forall|p: int|
                    0 <= p < k ==> (#[trigger] result_view(out@)[p]) == (
                        ranked@[p].1,
                        h[h.len() - 1 - ranked@[p].1],
                    ),
            decreases ranked.len() - k,
        {
            let idx = ranked[k].1;
            let ghost before = out@;
            proof {
                assert(h[h.len() - 1 - idx] == self.entries@[n - 1 - idx]@);
            }
            out.push((idx, self.entries[n - 1 - idx].as_str()));
            proof {
                assert(result_view(out@)[k as int] == (idx, h[h.len() - 1 - idx]));
                assert forall|p: int| 0 <= p < k + 1 implies (#[trigger] result_view(out@)[p]) == (
                    ranked@[p].1,
                    h[h.len() - 1 - ranked@[p].1],
                ) by {
                    if p < k {
                        assert(out@[p] == before[p]);
                        assert(result_view(before)[p] == result_view(out@)[p]);
                    }
                }
            }
            k = k + 1;
        }
        proof {
            let r = result_view(out@);
            assert forall|p: int| 0 <= p < r.len() implies {
                &&& #[trigger] r[p].0 < h.len()
                &&& r[p].1 == h[h.len() - 1 - r[p].0]
                &&& score_at(h, query@, r[p].0 as int) is Some
            } by {
                assert(r[p] == (ranked@[p].1, h[h.len() - 1 - ranked@[p].1]));
            }
            assert forall|j: int|
                0 <= j < h.len() && (#[trigger] score_at(h, query@, j)) is Some implies exists|p: int|
                0 <= p < r.len() && r[p].0 == j by {
                let p = choose|p: int| 0 <= p < ranked@.len() && ranked@[p].1 == j;
                assert(r[p] == (ranked@[p].1, h[h.len() - 1 - ranked@[p].1]));
            }
            assert forall|p: int, p2: int| 0 <= p < p2 < r.len() implies ranks_before(
                score_at(h, query@, r[p].0 as int)->0,
                r[p].0 as int,
                score_at(h, query@, r[p2].0 as int)->0,
                r[p2].0 as int,
            ) by {
                assert(r[p] == (ranked@[p].1, h[h.len() - 1 - ranked@[p].1]));
                assert(r[p2] == (ranked@[p2].1, h[h.len() - 1 - ranked@[p2].1]));
            }
        }
        out
    }
}

} // verus!
