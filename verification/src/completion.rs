//! Slash commands: the completion popup, custom command lookup and the
//! commands handled without the agent.
use vstd::prelude::*;

use crate::commands::{render_spec, CustomCommand};
use crate::history::{fuzzy_score, ranks_before, skim_score};
use crate::text::{chars_of, find, find_in, owned, str_eq, string_of_range, trim, trim_owned};

verus! {

/// A single entry of the completion popup.
#[derive(Debug, Clone)]
pub struct CompletionItem {
    pub name: String,
    pub description: String,
    pub score: i64,
}

/// The completion popup: its entries and which is selected.
#[derive(Debug)]
pub struct CompletionState {
    pub matches: Vec<CompletionItem>,
    pub selected: usize,
}

/// An entry as plain values: name, description and score.
pub open spec fn item_view(i: CompletionItem) -> (Seq<char>, Seq<char>, i64) {
    (i.name@, i.description@, i.score)
}

/// Entries as plain values.
pub open spec fn items_view(v: Seq<CompletionItem>) -> Seq<(Seq<char>, Seq<char>, i64)> {
    v.map_values(|i: CompletionItem| item_view(i))
}

impl CompletionState {
    /// A popup over `matches` with the first selected.
    pub fn new(matches: Vec<CompletionItem>) -> (s: Self)
        ensures
            s.matches@ == matches@,
            s.selected == 0,
    {
        CompletionState { matches, selected: 0 }
    }

    /// Select the previous entry, from the first to the last.
    pub fn move_up(&mut self)
        ensures
            final(self).matches@ == old(self).matches@,
            final(self).selected == if old(self).matches@.len() == 0 {
                old(self).selected as int
            } else if old(self).selected > 0 {
                old(self).selected - 1
            } else {
                old(self).matches@.len() - 1
            },
    {
        if self.matches.len() > 0 {
            if self.selected > 0 {
                self.selected = self.selected - 1;
            } else {
                self.selected = self.matches.len() - 1;
            }
        }
    }

    /// Select the next entry, from the last to the first.
    pub fn move_down(&mut self)
        requires
            old(self).selected < usize::MAX,
        ensures
            final(self).matches@ == old(self).matches@,
            final(self).selected == if old(self).matches@.len() == 0 {
                old(self).selected as int
            } else {
                (old(self).selected + 1) % (old(self).matches@.len() as int)
            },
    {
        if self.matches.len() > 0 {
            self.selected = (self.selected + 1) % self.matches.len();
        }
    }

    /// The name of the selected entry.
    pub fn selected_command(&self) -> (r: Option<&str>)
        ensures
            match r {
                Some(s) => self.selected < self.matches@.len() && s@
                    == self.matches@[self.selected as int].name@,
                None => self.selected >= self.matches@.len(),
            },
    {
        if self.selected < self.matches.len() {
            Some(self.matches[self.selected].name.as_str())
        } else {
            None
        }
    }
}

// ---------------------------------------------------------------------------
// The list of commands
// ---------------------------------------------------------------------------

/// A name and a description.
pub type Entry = (Seq<char>, Seq<char>);

/// The description of the first known command named `name`, or empty.
pub open spec fn known_description(known: Seq<Entry>, name: Seq<char>) -> Seq<char>
    decreases known.len(),
{
    if known.len() == 0 {
        seq![]
    } else if known[0].0 == name {
        known[0].1
    } else {
        known_description(known.drop_first(), name)
    }
}

/// Whether some entry is named `name`.
pub open spec fn has_name(entries: Seq<Entry>, name: Seq<char>) -> bool {
    exists|i: int| 0 <= i < entries.len() && (#[trigger] entries[i]).0 == name
}

/// `entries` followed by each of `more` whose name is not there yet, in order.
pub open spec fn add_missing(entries: Seq<Entry>, more: Seq<Entry>) -> Seq<Entry>
    decreases more.len(),
{
    if more.len() == 0 {
        entries
    } else {
        let a = add_missing(entries, more.drop_last());
        if has_name(a, more.last().0) {
            a
        } else {
            a.push(more.last())
        }
    }
}

/// All completable commands: those the agent reported (described from the
/// known list), then the known commands not reported, then the custom
/// commands whose names are not taken.
pub open spec fn all_commands(reported: Seq<Seq<char>>, known: Seq<Entry>, custom: Seq<Entry>) -> Seq<Entry> {
    let first = Seq::new(reported.len(), |i: int| (reported[i], known_description(known, reported[i])));
    add_missing(add_missing(first, known), custom)
}

/// Name and description of each entry.
pub open spec fn entries_of(v: Seq<CompletionItem>) -> Seq<Entry> {
    v.map_values(|i: CompletionItem| (i.name@, i.description@))
}

/// Name and description of each custom command.
pub open spec fn custom_entries(v: Seq<CustomCommand>) -> Seq<Entry> {
    v.map_values(|c: CustomCommand| (c.name@, c.description@))
}

/// Name and description of each known command.
pub open spec fn pairs_of(v: Seq<(String, String)>) -> Seq<Entry> {
    v.map_values(|p: (String, String)| (p.0@, p.1@))
}

/// The strings' characters.
pub open spec fn strings_of(v: Seq<String>) -> Seq<Seq<char>> {
    v.map_values(|s: String| s@)
}

/// The description of the first known command named `name`.
fn describe(known: &Vec<(String, String)>, name: &str) -> (r: String)
    ensures
        r@ == known_description(pairs_of(known@), name@),
{
    let ghost k = pairs_of(known@);
    let mut i: usize = 0;
    assert(k.skip(0) =~= k);
    while i < known.len()
        invariant
            i <= known.len(),
            k == pairs_of(known@),
            known_description(k, name@) == known_description(k.skip(i as int), name@),
        decreases known.len() - i,
    {
        assert(k.skip(i as int)[0] == k[i as int]);
        assert(k.skip(i as int).drop_first() =~= k.skip(i + 1));
        if str_eq(known[i].0.as_str(), name) {
            return known[i].1.clone();
        }
        i = i + 1;
    }
    String::new()
}

/// Whether some item is named `name`.
fn has_item_named(items: &Vec<CompletionItem>, name: &str) -> (r: bool)
    ensures
        r == has_name(entries_of(items@), name@),
{
    let mut i: usize = 0;
    while i < items.len()
        invariant
            i <= items.len(),
            forall|j: int| 0 <= j < i ==> items@[j].name@ != name@,
        decreases items.len() - i,
    {
        if str_eq(items[i].name.as_str(), name) {
            assert(entries_of(items@)[i as int].0 == name@);
            return true;
        }
        i = i + 1;
    }
    proof {
        if has_name(entries_of(items@), name@) {
            let j = choose|j: int| 0 <= j < entries_of(items@).len() && (#[trigger] entries_of(items@)[j]).0 == name@;
            assert(items@[j].name@ == name@);
        }
    }
    false
}

/// Appends each of `more` whose name is not among `items` yet.
fn push_missing(items: &mut Vec<CompletionItem>, more: &Vec<(String, String)>)
    ensures
        entries_of(final(items)@) == add_missing(entries_of(old(items)@), pairs_of(more@)),
        forall|i: int| 0 <= i < final(items)@.len() ==> #[trigger] final(items)@[i].score == 0 || i < old(items)@.len(),
        forall|i: int| 0 <= i < old(items)@.len() ==> #[trigger] final(items)@[i] == old(items)@[i],
{
    let ghost start = entries_of(items@);
    let ghost orig = items@;
    let ghost m = pairs_of(more@);
    let mut i: usize = 0;
    while i < more.len()
        invariant
            i <= more.len(),
            m == pairs_of(more@),
            entries_of(items@) == add_missing(start, m.take(i as int)),
            start == entries_of(orig),
            orig.len() <= items@.len(),
            forall|j: int| 0 <= j < items@.len() ==> #[trigger] items@[j].score == 0 || j < orig.len(),
            forall|j: int| 0 <= j < orig.len() ==> #[trigger] items@[j] == orig[j],
        decreases more.len() - i,
    {
        proof {
            assert(m.take(i + 1).drop_last() =~= m.take(i as int));
            assert(m.take(i + 1).last() == m[i as int]);
        }
        if !has_item_named(items, more[i].0.as_str()) {
            let ghost before = items@;
            items.push(CompletionItem { name: more[i].0.clone(), description: more[i].1.clone(), score: 0 });
            proof {
                assert(entries_of(items@) =~= entries_of(before).push(m[i as int]));
                assert forall|j: int| 0 <= j < orig.len() implies #[trigger] items@[j] == orig[j] by {
                    assert(items@[j] == before[j]);
                }
            }
        }
        i = i + 1;
    }
    proof {
        assert(m.take(more.len() as int) =~= m);
    }
}

/// All completable commands, each with score 0: the commands the agent
/// reported (described from `known`), then the `known` commands not
/// reported, then the custom commands whose names are not taken.
pub fn all_completion_items(
    reported: &Vec<String>,
    known: &Vec<(String, String)>,
    custom: &Vec<CustomCommand>,
) -> (r: Vec<CompletionItem>)
    ensures
        entries_of(r@) == all_commands(strings_of(reported@), pairs_of(known@), custom_entries(custom@)),
        forall|i: int| 0 <= i < r@.len() ==> #[trigger] r@[i].score == 0,
{
    let mut items: Vec<CompletionItem> = Vec::new();
    let ghost rep = strings_of(reported@);
    let ghost k = pairs_of(known@);
    let mut i: usize = 0;
    while i < reported.len()
        invariant
            i <= reported.len(),
            rep == strings_of(reported@),
            k == pairs_of(known@),
            entries_of(items@) == Seq::new(i as nat, |j: int| (rep[j], known_description(k, rep[j]))),
            forall|j: int| 0 <= j < items@.len() ==> #[trigger] items@[j].score == 0,
        decreases reported.len() - i,
    {
        let d = describe(known, reported[i].as_str());
        let ghost before = items@;
        items.push(CompletionItem { name: reported[i].clone(), description: d, score: 0 });
        proof {
            assert(reported@[i as int]@ == rep[i as int]);
            assert(entries_of(items@) =~= entries_of(before).push((rep[i as int], known_description(k, rep[i as int]))));
            assert(entries_of(items@) =~= Seq::new(
                (i + 1) as nat,
                |j: int| (rep[j], known_description(k, rep[j])),
            ));
        }
        i = i + 1;
    }
    push_missing(&mut items, known);
    let mut extra: Vec<(String, String)> = Vec::new();
    let mut j: usize = 0;
    while j < custom.len()
        invariant
            j <= custom.len(),
            pairs_of(extra@) == custom_entries(custom@).take(j as int),
        decreases custom.len() - j,
    {
        let ghost before = extra@;
        extra.push((custom[j].name.clone(), custom[j].description.clone()));
        proof {
            assert(pairs_of(extra@) =~= pairs_of(before).push(custom_entries(custom@)[j as int]));
            assert(pairs_of(extra@) =~= custom_entries(custom@).take(j + 1));
        }
        j = j + 1;
    }
    proof {
        assert(custom_entries(custom@).take(custom.len() as int) =~= custom_entries(custom@));
    }
    let ghost mid = items@;
    push_missing(&mut items, &extra);
    proof {
        assert forall|i: int| 0 <= i < items@.len() implies #[trigger] items@[i].score == 0 by {
            if i < mid.len() {
                assert(items@[i] == mid[i]);
            }
        }
    }
    items
}

// ---------------------------------------------------------------------------
// Completion matching
// ---------------------------------------------------------------------------

/// Whether the input is a completable command prefix: it starts with `/`
/// and has no space or line break.
pub open spec fn completable(input: Seq<char>) -> bool {
    input.len() > 0 && input[0] == '/' && !input.contains(' ') && !input.contains('\n')
}

/// Whether `r` lists exactly the entries of `items` whose name matches
/// `query`, each with its score, best first and equal scores in list order:
/// `idx` gives the position in `items` of each result.
pub open spec fn is_ranking(items: Seq<CompletionItem>, query: Seq<char>, r: Seq<CompletionItem>, idx: Seq<int>) -> bool {
    &&& idx.len() == r.len()
    &&& forall|p: int|
        0 <= p < r.len() ==> {
            &&& 0 <= #[trigger] idx[p] < items.len()
            &&& r[p].name@ == items[idx[p]].name@
            &&& r[p].description@ == items[idx[p]].description@
            &&& skim_score(items[idx[p]].name@, query) == Some(r[p].score)
        }
    &&& forall|j: int|
        0 <= j < items.len() && (#[trigger] skim_score(items[j].name@, query)) is Some ==> exists|p: int|
            0 <= p < r.len() && idx[p] == j
    &&& forall|p: int, p2: int|
        0 <= p < p2 < r.len() ==> ranks_before(r[p].score, idx[p], r[p2].score, idx[p2])
}

/// The entries of `items` that match `query`, best first.
fn ranked_matches(items: &Vec<CompletionItem>, query: &str) -> (r: Vec<CompletionItem>)
    ensures
        exists|idx: Seq<int>| is_ranking(items@, query@, r@, idx),
{
    let mut out: Vec<CompletionItem> = Vec::new();
    let ghost mut idx: Seq<int> = Seq::empty();
    let mut i: usize = 0;
    while i < items.len()
        invariant
            i <= items.len(),
            idx.len() == out@.len(),
            forall|p: int|
                0 <= p < out@.len() ==> {
                    &&& 0 <= #[trigger] idx[p] < i
                    &&& out@[p].name@ == items@[idx[p]].name@
                    &&& out@[p].description@ == items@[idx[p]].description@
                    &&& skim_score(items@[idx[p]].name@, query@) == Some(out@[p].score)
                },
            forall|j: int|
                0 <= j < i && (#[trigger] skim_score(items@[j].name@, query@)) is Some ==> exists|p: int|
                    0 <= p < out@.len() && idx[p] == j,
            forall|p: int, p2: int|
                0 <= p < p2 < out@.len() ==> ranks_before(out@[p].score, idx[p], out@[p2].score, idx[p2]),
        decreases items.len() - i,
    {
        match fuzzy_score(items[i].name.as_str(), query) {
            Some(s) => {
                let mut pos: usize = 0;
                while pos < out.len() && out[pos].score >= s
                    invariant
                        pos <= out@.len(),
                        forall|p: int| 0 <= p < pos ==> #[trigger] out@[p].score >= s,
                    decreases out.len() - pos,
                {
                    pos = pos + 1;
                }
                let ghost old_out = out@;
                let ghost old_idx = idx;
                out.insert(
                    pos,
                    CompletionItem {
                        name: items[i].name.clone(),
                        description: items[i].description.clone(),
                        score: s,
                    },
                );
                proof {
                    idx = old_idx.insert(pos as int, i as int);
                    assert forall|p: int, p2: int|
                        0 <= p < p2 < out@.len() implies ranks_before(
                        out@[p].score,
                        idx[p],
                        out@[p2].score,
                        idx[p2],
                    ) by {
                        if p2 < pos {
                            assert(out@[p] == old_out[p] && idx[p] == old_idx[p]);
                            assert(out@[p2] == old_out[p2] && idx[p2] == old_idx[p2]);
                        } else if p2 == pos {
                            assert(out@[p] == old_out[p] && idx[p] == old_idx[p]);
                        } else if p == pos {
                            assert(out@[p2] == old_out[p2 - 1] && idx[p2] == old_idx[p2 - 1]);
                            assert(old_out[pos as int].score < s);
                            if p2 - 1 > pos {
                                assert(ranks_before(
                                    old_out[pos as int].score,
                                    old_idx[pos as int],
                                    old_out[p2 - 1].score,
                                    old_idx[p2 - 1],
                                ));
                            }
                        } else if p < pos {
                            assert(out@[p] == old_out[p] && idx[p] == old_idx[p]);
                            assert(out@[p2] == old_out[p2 - 1] && idx[p2] == old_idx[p2 - 1]);
                        } else {
                            assert(out@[p] == old_out[p - 1] && idx[p] == old_idx[p - 1]);
                            assert(out@[p2] == old_out[p2 - 1] && idx[p2] == old_idx[p2 - 1]);
                        }
                    }
                    assert forall|j: int|
                        0 <= j < i + 1 && (#[trigger] skim_score(items@[j].name@, query@)) is Some implies exists|p: int|
                        0 <= p < out@.len() && idx[p] == j by {
                        if j < i {
                            let p = choose|p: int| 0 <= p < old_out.len() && old_idx[p] == j;
                            if p < pos {
                                assert(idx[p] == old_idx[p]);
                            } else {
                                assert(idx[p + 1] == old_idx[p]);
                            }
                        } else {
                            assert(idx[pos as int] == j);
                        }
                    }
                    assert forall|p: int| 0 <= p < out@.len() implies {
                        &&& 0 <= #[trigger] idx[p] < i + 1
                        &&& out@[p].name@ == items@[idx[p]].name@
                        &&& out@[p].description@ == items@[idx[p]].description@
                        &&& skim_score(items@[idx[p]].name@, query@) == Some(out@[p].score)
                    } by {
                        if p < pos {
                            assert(out@[p] == old_out[p] && idx[p] == old_idx[p]);
                        } else if p > pos {
                            assert(out@[p] == old_out[p - 1] && idx[p] == old_idx[p - 1]);
                        }
                    }
                }
            },
            None => {},
        }
        i = i + 1;
    }
    proof {
        assert(is_ranking(items@, query@, out@, idx));
    }
    out
}

/// Whether `r` is the completion popup for `input` over `items`, where
/// `prev` was selected before: `None` unless the input is a completable
/// command prefix with something to show. A bare `/` shows every command;
/// otherwise the matching commands, best first, keeping the previous
/// selection where it still fits.
pub open spec fn popup_for(input: Seq<char>, items: Seq<CompletionItem>, prev: nat, r: Option<CompletionState>) -> bool {
    &&& !completable(input) ==> r is None
    &&& completable(input) && input.len() == 1 ==> match r {
        Some(s) => items.len() > 0 && s.matches@ == items && s.selected == 0,
        None => items.len() == 0,
    }
    &&& completable(input) && input.len() > 1 ==> match r {
        Some(s) => s.matches@.len() > 0 && (exists|idx: Seq<int>|
            is_ranking(items, input.skip(1), s.matches@, idx)) && s.selected == (if prev
            < s.matches@.len() {
            prev as int
        } else {
            s.matches@.len() - 1
        }),
        None => forall|j: int|
            0 <= j < items.len() ==> (#[trigger] skim_score(items[j].name@, input.skip(1))) is None,
    }
}

/// The completion popup for the input (see `popup_for`).
pub fn completion_for(input: &str, items: Vec<CompletionItem>, prev_selected: usize) -> (r: Option<CompletionState>)
    ensures
        popup_for(input@, items@, prev_selected as nat, r),
{
    let v = chars_of(input);
    if v.len() == 0 || v[0] != '/' {
        return None;
    }
    let mut i: usize = 0;
    while i < v.len()
        invariant
            i <= v.len(),
            v@ == input@,
            forall|j: int| 0 <= j < i ==> v@[j] != ' ' && v@[j] != '\n',
        decreases v.len() - i,
    {
        if v[i] == ' ' || v[i] == '\n' {
            proof {
                assert(input@[i as int] == v@[i as int]);
            }
            return None;
        }
        i = i + 1;
    }
    proof {
        assert(!input@.contains(' '));
        assert(!input@.contains('\n'));
    }
    if v.len() == 1 {
        if items.len() == 0 {
            return None;
        }
        return Some(CompletionState::new(items));
    }
    let query = string_of_range(&v, 1, v.len());
    proof {
        assert(v@.subrange(1, v@.len() as int) =~= input@.skip(1));
    }
    let matches = ranked_matches(&items, query.as_str());
    if matches.len() == 0 {
        proof {
            let idx = choose|idx: Seq<int>| is_ranking(items@, input@.skip(1), matches@, idx);
            assert forall|j: int| 0 <= j < items@.len() implies (#[trigger] skim_score(
                items@[j].name@,
                input@.skip(1),
            )) is None by {
                if skim_score(items@[j].name@, input@.skip(1)) is Some {
                    let p = choose|p: int| 0 <= p < matches@.len() && idx[p] == j;
                }
            }
        }
        return None;
    }
    let mut state = CompletionState::new(matches);
    state.selected = if prev_selected < state.matches.len() {
        prev_selected
    } else {
        state.matches.len() - 1
    };
    Some(state)
}

// ---------------------------------------------------------------------------
// Custom commands and local commands
// ---------------------------------------------------------------------------

/// The name and arguments of a command line `/name args`: the name runs to
/// the first space, the arguments are the rest, trimmed.
pub open spec fn split_command(without_slash: Seq<char>) -> (Seq<char>, Seq<char>) {
    match find(without_slash, seq![' ']) {
        Some(k) => (without_slash.take(k), trim(without_slash.skip(k + 1))),
        None => (without_slash, seq![]),
    }
}

/// The first custom command with the given name.
pub open spec fn find_command(cmds: Seq<CustomCommand>, name: Seq<char>) -> Option<CustomCommand>
    decreases cmds.len(),
{
    if cmds.len() == 0 {
        None
    } else if cmds[0].name@ == name {
        Some(cmds[0])
    } else {
        find_command(cmds.drop_first(), name)
    }
}

/// The prompt a `/name args` line stands for when `name` is a custom
/// command.
pub open spec fn custom_prompt(cmds: Seq<CustomCommand>, text: Seq<char>) -> Option<Seq<char>> {
    if text.len() == 0 || text[0] != '/' {
        None
    } else {
        let (name, args) = split_command(text.skip(1));
        match find_command(cmds, name) {
            Some(c) => Some(render_spec(c.body@, c.accepts_args, args)),
            None => None,
        }
    }
}

/// The rendered prompt when the input names a custom command.
pub fn resolve_custom_command(commands: &Vec<CustomCommand>, text: &str) -> (r: Option<String>)
    ensures
        match r {
            Some(s) => custom_prompt(commands@, text@) == Some(s@),
            None => custom_prompt(commands@, text@) is None,
        },
{
    let v = chars_of(text);
    if v.len() == 0 || v[0] != '/' {
        return None;
    }
    let rest: Vec<char> = {
        let s = string_of_range(&v, 1, v.len());
        chars_of(s.as_str())
    };
    proof {
        assert(v@.subrange(1, v@.len() as int) =~= text@.skip(1));
    }
    let mut space: Vec<char> = Vec::new();
    space.push(' ');
    proof {
        assert(space@ =~= seq![' ']);
    }
    proof {
        crate::text::lemma_find_from(rest@, space@, 0);
    }
    let (name, args) = match find_in(&rest, &space, 0) {
        Some(k) => {
            let a = string_of_range(&rest, k + 1, rest.len());
            proof {
                assert(rest@.subrange(k + 1, rest@.len() as int) =~= rest@.skip(k + 1));
                assert(rest@.subrange(0, k as int) =~= rest@.take(k as int));
            }
            (string_of_range(&rest, 0, k), trim_owned(a.as_str()))
        },
        None => {
            proof {
                assert(rest@.subrange(0, rest@.len() as int) =~= rest@);
            }
            (string_of_range(&rest, 0, rest.len()), String::new())
        },
    };
    proof {
        assert(rest@ == text@.skip(1));
        assert((name@, args@) == split_command(text@.skip(1)));
    }
    let mut i: usize = 0;
    assert(commands@.skip(0) =~= commands@);
    while i < commands.len()
        invariant
            i <= commands.len(),
            text@.len() > 0 && text@[0] == '/',
            (name@, args@) == split_command(text@.skip(1)),
            find_command(commands@, name@) == find_command(commands@.skip(i as int), name@),
        decreases commands.len() - i,
    {
        assert(commands@.skip(i as int)[0] == commands@[i as int]);
        assert(commands@.skip(i as int).drop_first() =~= commands@.skip(i + 1));
        if str_eq(commands[i].name.as_str(), name.as_str()) {
            return Some(commands[i].render(args.as_str()));
        }
        i = i + 1;
    }
    None
}

/// Commands the application handles itself.
#[derive(Debug, Clone, Copy, PartialEq, Eq, Structural)]
pub enum LocalAction {
    Clear,
    Help,
    ShowConfig,
    ShowModel,
    ShowMemory,
    ShowPlugins,
    Exit,
    ChangeTheme,
}

/// The local action a trimmed input names.
pub open spec fn local_action_of(t: Seq<char>) -> Option<LocalAction> {
    if t == "/clear"@ {
        Some(LocalAction::Clear)
    } else if t == "/help"@ {
        Some(LocalAction::Help)
    } else if t == "/config"@ {
        Some(LocalAction::ShowConfig)
    } else if t == "/model"@ {
        Some(LocalAction::ShowModel)
    } else if t == "/memory"@ {
        Some(LocalAction::ShowMemory)
    } else if t == "/plugins"@ {
        Some(LocalAction::ShowPlugins)
    } else if t == "/exit"@ || t == "/quit"@ {
        Some(LocalAction::Exit)
    } else if t == "/theme"@ {
        Some(LocalAction::ChangeTheme)
    } else {
        None
    }
}

/// The command the input names if it is one handled locally.
pub fn local_command(text: &str) -> (r: Option<LocalAction>)
    ensures
        r == local_action_of(trim(text@)),
{
    let t = trim_owned(text);
    let s = t.as_str();
    if str_eq(s, "/clear") {
        Some(LocalAction::Clear)
    } else if str_eq(s, "/help") {
        Some(LocalAction::Help)
    } else if str_eq(s, "/config") {
        Some(LocalAction::ShowConfig)
    } else if str_eq(s, "/model") {
        Some(LocalAction::ShowModel)
    } else if str_eq(s, "/memory") {
        Some(LocalAction::ShowMemory)
    } else if str_eq(s, "/plugins") {
        Some(LocalAction::ShowPlugins)
    } else if str_eq(s, "/exit") || str_eq(s, "/quit") {
        Some(LocalAction::Exit)
    } else if str_eq(s, "/theme") {
        Some(LocalAction::ChangeTheme)
    } else {
        None
    }
}

} // verus!
