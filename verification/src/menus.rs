//! The pickers' entries: the action menu, the checkpoint timeline, the
//! session picker, the theme picker and the workflow templates; and what a
//! choice in the action menu stands for.
use vstd::prelude::*;

use crate::conversation::{BlockView, ContentBlock, Message, MessageView, Role};
use crate::overlay::{items_view, ItemView, OverlayItem};
use crate::sessions::{age_label, first_line, has_boundary, SessionInfo};
use crate::text::{
    byte_len, bytes_upto, chars_of, decimal, lemma_byte_len_mono, lemma_byte_len_prefix, lines_of,
    list_contains, owned, push_decimal, push_str, split_lines, str_eq, string_of_range, strs_of,
    strs_view, trim, trim_owned,
};
use crate::tracker::AgentTask;

verus! {

/// An entry as plain values.
pub open spec fn entry(label: Seq<char>, value: Seq<char>, hint: Seq<char>) -> ItemView {
    ItemView { label, value, hint }
}

/// An entry without a hint.
fn plain_item(label: &str, value: &str) -> (r: OverlayItem)
    ensures
        r@ == entry(label@, value@, Seq::empty()),
{
    OverlayItem { label: owned(label), value: owned(value), hint: String::new() }
}

/// An entry from three strings.
fn make_item(label: &str, value: &str, hint: &str) -> (r: OverlayItem)
    ensures
        r@ == entry(label@, value@, hint@),
{
    OverlayItem { label: owned(label), value: owned(value), hint: owned(hint) }
}

// ---------------------------------------------------------------------------
// The action menu
// ---------------------------------------------------------------------------

/// How many of the sub-agents are still running.
pub open spec fn running_count(ts: Seq<AgentTask>) -> nat
    decreases ts.len(),
{
    if ts.len() == 0 {
        0
    } else {
        running_count(ts.drop_last()) + if ts.last().completed {
            0nat
        } else {
            1nat
        }
    }
}

/// How many of the sub-agents are still running.
pub fn running_agents(tasks: &Vec<AgentTask>) -> (n: usize)
    ensures
        n == running_count(tasks@),
{
    let mut n: usize = 0;
    let mut i: usize = 0;
    while i < tasks.len()
        invariant
            i <= tasks@.len(),
            n == running_count(tasks@.take(i as int)),
            n <= i,
        decreases tasks.len() - i,
    {
        proof {
            assert(tasks@.take(i + 1).drop_last() =~= tasks@.take(i as int));
        }
        if !tasks[i].completed {
            n = n + 1;
        }
        i = i + 1;
    }
    proof {
        assert(tasks@.take(tasks@.len() as int) =~= tasks@);
    }
    n
}

/// The label of the agent dashboard entry: with the counts once an agent
/// was spawned.
pub open spec fn agents_label(active: nat, total: nat) -> Seq<char> {
    if total == 0 {
        "Agent Dashboard"@
    } else {
        "Agent Dashboard ("@ + decimal(active) + " active / "@ + decimal(total) + " total)"@
    }
}

/// An entry shown only when the agent reported the command `name`.
pub open spec fn if_reported(reported: Seq<Seq<char>>, name: Seq<char>, e: ItemView) -> Seq<ItemView> {
    if reported.contains(name) {
        seq![e]
    } else {
        seq![]
    }
}

/// The action menu: continuing and resuming sessions; renaming, compacting
/// and rewinding where the agent offers them; then the workflow templates,
/// the split pane, the agent dashboard, the theme picker and quitting.
pub open spec fn action_menu(reported: Seq<Seq<char>>, split: bool, active: nat, total: nat) -> Seq<ItemView> {
    seq![
        entry("Continue Last Session"@, "continue"@, Seq::empty()),
        entry("Resume Session"@, "resume"@, Seq::empty()),
    ] + if_reported(reported, "rename"@, entry("Rename Session"@, "rename"@, Seq::empty()))
        + if_reported(reported, "compact"@, entry("Compact Context"@, "compact"@, Seq::empty()))
        + if_reported(reported, "rewind"@, entry("Rewind to Checkpoint"@, "rewind"@, Seq::empty()))
        + seq![
        entry("Workflow Templates"@, "workflows"@, "Ctrl+W"@),
        entry(
            if split {
                "Close Split Pane"@
            } else {
                "Split Pane"@
            },
            "split"@,
            "Ctrl+S"@,
        ),
        entry(agents_label(active, total), "agents"@, "Ctrl+A"@),
        entry("Switch Theme"@, "theme"@, "Ctrl+T"@),
        entry("Quit"@, "quit"@, "Ctrl+Q"@),
    ]
}

/// Append the entry when the agent reported the command `name`.
fn push_if_reported(items: &mut Vec<OverlayItem>, reported: &Vec<String>, name: &str, label: &str)
    ensures
        items_view(final(items)@) == items_view(old(items)@) + if_reported(
            strs_of(reported@),
            name@,
            entry(label@, name@, Seq::empty()),
        ),
{
    let ghost before = items@;
    if list_contains(reported, name) {
        let e = plain_item(label, name);
        items.push(e);
        proof {
            assert(items_view(items@) =~= items_view(before).push(e@));
        }
    } else {
        proof {
            assert(items_view(items@) =~= items_view(before) + Seq::<ItemView>::empty());
        }
    }
}

/// The label of the agent dashboard entry.
fn agents_entry_label(active: usize, total: usize) -> (r: String)
    ensures
        r@ == agents_label(active as nat, total as nat),
{
    if total == 0 {
        owned("Agent Dashboard")
    } else {
        let mut s = owned("Agent Dashboard (");
        push_decimal(&mut s, active as u64);
        push_str(&mut s, " active / ");
        push_decimal(&mut s, total as u64);
        push_str(&mut s, " total)");
        s
    }
}

/// The entries of the action menu (see `action_menu`), given the commands
/// the agent reported, whether the split pane is shown, and how many
/// sub-agents are running out of how many.
pub fn action_menu_items(reported: &Vec<String>, split_pane: bool, active: usize, total: usize) -> (r: Vec<OverlayItem>)
    ensures
        items_view(r@) == action_menu(strs_of(reported@), split_pane, active as nat, total as nat),
{
    let mut items: Vec<OverlayItem> = Vec::new();
    items.push(plain_item("Continue Last Session", "continue"));
    items.push(plain_item("Resume Session", "resume"));
    proof {
        assert(items_view(items@) =~= seq![
            entry("Continue Last Session"@, "continue"@, Seq::empty()),
            entry("Resume Session"@, "resume"@, Seq::empty()),
        ]);
    }
    let ghost a = items_view(items@);
    push_if_reported(&mut items, reported, "rename", "Rename Session");
    push_if_reported(&mut items, reported, "compact", "Compact Context");
    push_if_reported(&mut items, reported, "rewind", "Rewind to Checkpoint");
    let ghost b = items_view(items@);
    let split_label = if split_pane {
        "Close Split Pane"
    } else {
        "Split Pane"
    };
    items.push(make_item("Workflow Templates", "workflows", "Ctrl+W"));
    items.push(make_item(split_label, "split", "Ctrl+S"));
    items.push(
        OverlayItem {
            label: agents_entry_label(active, total),
            value: owned("agents"),
            hint: owned("Ctrl+A"),
        },
    );
    items.push(make_item("Switch Theme", "theme", "Ctrl+T"));
    items.push(make_item("Quit", "quit", "Ctrl+Q"));
    proof {
        let tail = seq![
            entry("Workflow Templates"@, "workflows"@, "Ctrl+W"@),
            entry(
                if split_pane {
                    "Close Split Pane"@
                } else {
                    "Split Pane"@
                },
                "split"@,
                "Ctrl+S"@,
            ),
            entry(agents_label(active as nat, total as nat), "agents"@, "Ctrl+A"@),
            entry("Switch Theme"@, "theme"@, "Ctrl+T"@),
            entry("Quit"@, "quit"@, "Ctrl+Q"@),
        ];
        assert(items_view(items@) =~= b + tail);
    }
    items
}

/// What an entry of the action menu stands for.
#[derive(Debug, Clone, Copy, PartialEq, Eq, Structural)]
pub enum MenuChoice {
    ContinueSession,
    ResumeSession,
    RenameSession,
    CompactContext,
    Rewind,
    Workflows,
    ToggleSplit,
    Agents,
    Theme,
    Quit,
}

/// The choice an action menu value stands for.
pub open spec fn choice_of(v: Seq<char>) -> Option<MenuChoice> {
    if v == "continue"@ {
        Some(MenuChoice::ContinueSession)
    } else if v == "resume"@ {
        Some(MenuChoice::ResumeSession)
    } else if v == "rename"@ {
        Some(MenuChoice::RenameSession)
    } else if v == "compact"@ {
        Some(MenuChoice::CompactContext)
    } else if v == "rewind"@ {
        Some(MenuChoice::Rewind)
    } else if v == "workflows"@ {
        Some(MenuChoice::Workflows)
    } else if v == "split"@ {
        Some(MenuChoice::ToggleSplit)
    } else if v == "agents"@ {
        Some(MenuChoice::Agents)
    } else if v == "theme"@ {
        Some(MenuChoice::Theme)
    } else if v == "quit"@ {
        Some(MenuChoice::Quit)
    } else {
        None
    }
}

/// The choice an action menu value stands for (see `choice_of`).
pub fn menu_choice(value: &str) -> (r: Option<MenuChoice>)
    ensures
        r == choice_of(value@),
{
    if str_eq(value, "continue") {
        Some(MenuChoice::ContinueSession)
    } else if str_eq(value, "resume") {
        Some(MenuChoice::ResumeSession)
    } else if str_eq(value, "rename") {
        Some(MenuChoice::RenameSession)
    } else if str_eq(value, "compact") {
        Some(MenuChoice::CompactContext)
    } else if str_eq(value, "rewind") {
        Some(MenuChoice::Rewind)
    } else if str_eq(value, "workflows") {
        Some(MenuChoice::Workflows)
    } else if str_eq(value, "split") {
        Some(MenuChoice::ToggleSplit)
    } else if str_eq(value, "agents") {
        Some(MenuChoice::Agents)
    } else if str_eq(value, "theme") {
        Some(MenuChoice::Theme)
    } else if str_eq(value, "quit") {
        Some(MenuChoice::Quit)
    } else {
        None
    }
}

/// The command and the notification for rewinding to the turn `value`.
pub fn rewind_request(value: &str) -> (r: (String, String))
    ensures
        r.0@ == "/rewind "@ + value@,
        r.1@ == "Rewinding to turn "@ + value@ + "..."@,
{
    let mut cmd = owned("/rewind ");
    push_str(&mut cmd, value);
    let mut toast = owned("Rewinding to turn ");
    push_str(&mut toast, value);
    push_str(&mut toast, "...");
    (cmd, toast)
}

// ---------------------------------------------------------------------------
// The checkpoint timeline
// ---------------------------------------------------------------------------

/// `t` cut to its first `keep` bytes and "..." when it is longer than
/// `limit` bytes.
pub open spec fn shortened(t: Seq<char>, limit: nat, keep: nat) -> Seq<char> {
    if byte_len(t) > limit {
        let k = choose|k: int| 0 <= k <= t.len() && #[trigger] byte_len(t.take(k)) == keep;
        t.take(k) + "..."@
    } else {
        t
    }
}

/// Whether `t` can be cut so: a text longer than `limit` bytes must have a
/// character boundary at byte `keep`.
pub open spec fn shortenable(t: Seq<char>, limit: nat, keep: nat) -> bool {
    byte_len(t) > limit ==> has_boundary(t, keep)
}

/// `t` cut as `shortened` says, or `None` where that cut would split a
/// character.
pub(crate) fn shorten(t: &Vec<char>, limit: usize, keep: usize) -> (r: Option<String>)
    requires
        keep < limit < 4096,
    ensures
        match r {
            Some(s) => shortenable(t@, limit as nat, keep as nat) && s@ == shortened(
                t@,
                limit as nat,
                keep as nat,
            ),
            None => !shortenable(t@, limit as nat, keep as nat),
        },
{
    let (kl, bl) = bytes_upto(t, limit + 1);
    proof {
        assert(t@.take(t@.len() as int) =~= t@);
        lemma_byte_len_mono(t@, kl as int, t@.len() as int);
    }
    if bl < limit + 1 {
        proof {
            assert(t@.subrange(0, t@.len() as int) =~= t@);
        }
        return Some(string_of_range(t, 0, t.len()));
    }
    let (kk, bk) = bytes_upto(t, keep);
    proof {
        if has_boundary(t@, keep as nat) {
            let k = choose|k: int| 0 <= k <= t@.len() && #[trigger] byte_len(t@.take(k)) == keep;
            if k < kk {
                assert(byte_len(t@.take(k)) < keep);
            } else if k > kk {
                crate::sessions::lemma_byte_len_strict(t@, kk as int, k);
            }
            assert(k == kk);
        }
    }
    if bk != keep {
        return None;
    }
    proof {
        assert(t@.subrange(0, kk as int) =~= t@.take(kk as int));
    }
    let mut out = string_of_range(t, 0, kk);
    push_str(&mut out, "...");
    Some(out)
}

/// The text of the first text block.
pub open spec fn first_text(blocks: Seq<BlockView>) -> Option<Seq<char>>
    decreases blocks.len(),
{
    if blocks.len() == 0 {
        None
    } else {
        match blocks[0] {
            BlockView::Text(t) => Some(t),
            _ => first_text(blocks.drop_first()),
        }
    }
}

/// The line a turn shows: the first line of its trimmed text.
pub open spec fn turn_line(m: MessageView) -> Option<Seq<char>> {
    match first_text(m.content) {
        Some(t) => Some(first_line(trim(t))),
        None => None,
    }
}

/// What a turn shows: its line, cut to 57 bytes and "..." beyond 60 bytes,
/// or "(empty)" for a message without text.
pub open spec fn turn_preview(m: MessageView) -> Seq<char> {
    match turn_line(m) {
        Some(l) => shortened(l, 60, 57),
        None => "(empty)"@,
    }
}

/// The user messages, in order.
pub open spec fn user_turns(ms: Seq<MessageView>) -> Seq<MessageView>
    decreases ms.len(),
{
    if ms.len() == 0 {
        seq![]
    } else if ms.last().role == Role::User {
        user_turns(ms.drop_last()).push(ms.last())
    } else {
        user_turns(ms.drop_last())
    }
}

/// Whether every user message's line can be cut where its preview needs.
pub open spec fn turns_cuttable(ms: Seq<MessageView>) -> bool {
    forall|i: int|
        0 <= i < user_turns(ms).len() ==> match #[trigger] turn_line(user_turns(ms)[i]) {
            Some(l) => shortenable(l, 60, 57),
            None => true,
        }
}

/// The checkpoint timeline: one entry per user message, oldest first,
/// labelled `Turn n — preview` with the turn number as its value.
pub open spec fn checkpoint_entries(ms: Seq<MessageView>) -> Seq<ItemView> {
    let turns = user_turns(ms);
    Seq::new(
        turns.len(),
        |i: int|
            entry(
                "Turn "@ + decimal((i + 1) as nat) + " — "@ + turn_preview(turns[i]),
                decimal((i + 1) as nat),
                Seq::empty(),
            ),
    )
}

/// The messages as plain values.
pub open spec fn msgs(ms: Seq<Message>) -> Seq<MessageView> {
    ms.map_values(|m: Message| m@)
}

/// The text of the first text block of a message.
fn message_text(m: &Message) -> (r: Option<&str>)
    ensures
        match r {
            Some(t) => first_text(m@.content) == Some(t@),
            None => first_text(m@.content) is None,
        },
{
    let mut i: usize = 0;
    assert(m@.content.skip(0) =~= m@.content);
    while i < m.content.len()
        invariant
            i <= m.content@.len(),
            first_text(m@.content) == first_text(m@.content.skip(i as int)),
        decreases m.content.len() - i,
    {
        proof {
            assert(m@.content.skip(i as int)[0] == m.content@[i as int]@);
            assert(m@.content.skip(i as int).drop_first() =~= m@.content.skip(i + 1));
        }
        match &m.content[i] {
            ContentBlock::Text(t) => {
                return Some(t.as_str());
            },
            _ => {},
        }
        i = i + 1;
    }
    None
}

/// The first line of the trimmed text.
fn leading_line(text: &str) -> (r: Vec<char>)
    ensures
        r@ == first_line(trim(text@)),
{
    let t = trim_owned(text);
    let lines = split_lines(t.as_str());
    if lines.len() > 0 {
        proof {
            assert(strs_view(lines@)[0] == lines@[0]@);
        }
        chars_of(lines[0])
    } else {
        chars_of(t.as_str())
    }
}

/// The preview of a turn, or `None` where its cut would split a character.
fn turn_preview_of(m: &Message) -> (r: Option<String>)
    ensures
        match r {
            Some(p) => (match turn_line(m@) {
                Some(l) => shortenable(l, 60, 57),
                None => true,
            }) && p@ == turn_preview(m@),
            None => turn_line(m@) matches Some(l) && !shortenable(l, 60, 57),
        },
{
    match message_text(m) {
        Some(t) => {
            let l = leading_line(t);
            shorten(&l, 60, 57)
        },
        None => Some(owned("(empty)")),
    }
}

/// The entries of the checkpoint timeline (see `checkpoint_entries`), or
/// `None` when a preview would have to be cut inside a character.
pub fn checkpoint_items(messages: &Vec<Message>) -> (r: Option<Vec<OverlayItem>>)
    requires
        messages@.len() <= u32::MAX,
    ensures
        match r {
            Some(items) => turns_cuttable(msgs(messages@)) && items_view(items@) == checkpoint_entries(
                msgs(messages@),
            ),
            None => !turns_cuttable(msgs(messages@)),
        },
{
    let mut items: Vec<OverlayItem> = Vec::new();
    let mut turn: u64 = 0;
    let mut i: usize = 0;
    while i < messages.len()
        invariant
            i <= messages@.len() <= u32::MAX,
            turn == user_turns(msgs(messages@.take(i as int))).len(),
            turn <= i,
            turns_cuttable(msgs(messages@.take(i as int))),
            items_view(items@) == checkpoint_entries(msgs(messages@.take(i as int))),
        decreases messages.len() - i,
    {
        let ghost before = msgs(messages@.take(i as int));
        let ghost after = msgs(messages@.take(i + 1));
        proof {
            assert(after.drop_last() =~= before);
            assert(after.last() == messages@[i as int]@);
        }
        if messages[i].role == Role::User {
            match turn_preview_of(&messages[i]) {
                Some(p) => {
                    turn = turn + 1;
                    let mut label = owned("Turn ");
                    push_decimal(&mut label, turn);
                    push_str(&mut label, " — ");
                    push_str(&mut label, p.as_str());
                    let ghost old_items = items_view(items@);
                    items.push(OverlayItem { label, value: crate::text::decimal_string(turn), hint: String::new() });
                    proof {
                        assert(user_turns(after) == user_turns(before).push(after.last()));
                        assert(items_view(items@) =~= old_items.push(items@.last()@));
                        assert(items_view(items@) =~= checkpoint_entries(after));
                        assert forall|j: int| 0 <= j < user_turns(after).len() implies match #[trigger] turn_line(user_turns(after)[j]) {
                            Some(l) => shortenable(l, 60, 57),
                            None => true,
                        } by {
                            if j < user_turns(before).len() {
                                assert(user_turns(after)[j] == user_turns(before)[j]);
                            }
                        }
                    }
                },
                None => {
                    proof {
                        assert(user_turns(after) == user_turns(before).push(after.last()));
                        let j = user_turns(before).len() as int;
                        assert(user_turns(after)[j] == messages@[i as int]@);
                        assert(!turns_cuttable(after));
                        assert(msgs(messages@).take(i + 1) =~= after);
                        if turns_cuttable(msgs(messages@)) {
                            lemma_turns_cuttable_prefix(msgs(messages@), (i + 1) as int);
                        }
                    }
                    return None;
                },
            }
        } else {
            proof {
                assert(user_turns(after) == user_turns(before));
            }
        }
        i = i + 1;
    }
    proof {
        assert(messages@.take(messages@.len() as int) =~= messages@);
    }
    Some(items)
}

/// A preview that cannot be cut in a prefix cannot be cut in the whole.
proof fn lemma_turns_cuttable_prefix(ms: Seq<MessageView>, n: int)
    requires
        0 <= n <= ms.len(),
        turns_cuttable(ms),
    ensures
        turns_cuttable(ms.take(n)),
    decreases ms.len() - n,
{
    if n < ms.len() {
        lemma_turns_cuttable_prefix(ms, n + 1);
        let a = ms.take(n + 1);
        assert(a.drop_last() =~= ms.take(n));
        assert forall|j: int| 0 <= j < user_turns(ms.take(n)).len() implies match #[trigger] turn_line(user_turns(ms.take(n))[j]) {
            Some(l) => shortenable(l, 60, 57),
            None => true,
        } by {
            assert(user_turns(ms.take(n))[j] == user_turns(a)[j]);
            assert(turn_line(user_turns(ms.take(n))[j]) == turn_line(user_turns(a)[j]));
        }
    } else {
        assert(ms.take(n) =~= ms);
    }
}

// ---------------------------------------------------------------------------
// Session, theme and workflow pickers
// ---------------------------------------------------------------------------

/// A session's entry, given its age: `path (age)` without a preview,
/// `age — preview` with one; the value is the session id, the hint the
/// project path.
pub open spec fn session_entry(s: SessionInfo, age: Seq<char>) -> ItemView {
    entry(
        if s.preview@.len() == 0 {
            s.project_path@ + " ("@ + age + ")"@
        } else {
            age + " — "@ + s.preview@
        },
        s.session_id@,
        s.project_path@,
    )
}

/// Whether `e` is the entry of session `s` at some age.
pub open spec fn is_session_entry(e: ItemView, s: SessionInfo) -> bool {
    exists|secs: u64| e == session_entry(s, age_label(secs as nat))
}

/// A session's entry in the session picker; its age depends on the clock.
pub fn session_item(s: &SessionInfo) -> (r: OverlayItem)
    ensures
        is_session_entry(r@, *s),
{
    let age = s.age_string();
    let mut label = String::new();
    if s.preview.as_str().is_empty() {
        push_str(&mut label, s.project_path.as_str());
        push_str(&mut label, " (");
        push_str(&mut label, age.as_str());
        push_str(&mut label, ")");
    } else {
        push_str(&mut label, age.as_str());
        push_str(&mut label, " — ");
        push_str(&mut label, s.preview.as_str());
    }
    let r = OverlayItem { label, value: owned(s.session_id.as_str()), hint: owned(s.project_path.as_str()) };
    proof {
        let secs = choose|secs: u64| age@ == age_label(secs as nat);
        assert(r@ == session_entry(*s, age_label(secs as nat)));
    }
    r
}

/// The session picker: the entries of the first fifty sessions, in order.
pub fn session_items(sessions: &Vec<SessionInfo>) -> (r: Vec<OverlayItem>)
    ensures
        r@.len() == if sessions@.len() < 50 {
            sessions@.len()
        } else {
            50
        },
        forall|i: int| 0 <= i < r@.len() ==> is_session_entry(#[trigger] r@[i]@, sessions@[i]),
{
    let mut out: Vec<OverlayItem> = Vec::new();
    let mut i: usize = 0;
    while i < sessions.len() && i < 50
        invariant
            i <= sessions@.len(),
            i <= 50,
            out@.len() == i,
            forall|j: int| 0 <= j < i ==> is_session_entry(#[trigger] out@[j]@, sessions@[j]),
        decreases sessions.len() - i,
    {
        let item = session_item(&sessions[i]);
        out.push(item);
        proof {
            assert forall|j: int| 0 <= j < i + 1 implies is_session_entry(#[trigger] out@[j]@, sessions@[j]) by {
                if j < i {
                    assert(out@[j] == out@.drop_last()[j]);
                }
            }
        }
        i = i + 1;
    }
    out
}

/// Where a picker opens: on the first entry whose value is `value`, or on
/// the first entry.
pub open spec fn position_of(items: Seq<ItemView>, value: Seq<char>) -> nat
    decreases items.len(),
{
    if items.len() == 0 {
        0
    } else if items[0].value == value {
        0
    } else if exists|j: int| 0 <= j < items.len() && items[j].value == value {
        1 + position_of(items.drop_first(), value)
    } else {
        0
    }
}

/// The index of the first entry whose value is `value`, or 0.
pub fn picker_index(items: &Vec<OverlayItem>, value: &str) -> (r: usize)
    ensures
        r == position_of(items_view(items@), value@),
        r == 0 || r < items@.len(),
{
    let ghost all = items_view(items@);
    let mut i: usize = 0;
    while i < items.len()
        invariant
            i <= items@.len(),
            all == items_view(items@),
            forall|j: int| 0 <= j < i ==> all[j].value != value@,
        decreases items.len() - i,
    {
        if str_eq(items[i].value.as_str(), value) {
            proof {
                lemma_position_of(all, value@, i as int);
            }
            return i;
        }
        i = i + 1;
    }
    proof {
        assert(!(exists|j: int| 0 <= j < all.len() && all[j].value == value@));
        if all.len() > 0 {
            assert(all[0].value != value@);
        }
    }
    0
}

/// The position of the first match.
proof fn lemma_position_of(items: Seq<ItemView>, value: Seq<char>, i: int)
    requires
        0 <= i < items.len(),
        items[i].value == value,
        forall|j: int| 0 <= j < i ==> items[j].value != value,
    ensures
        position_of(items, value) == i,
    decreases i,
{
    if i > 0 {
        let rest = items.drop_first();
        assert(rest[i - 1] == items[i]);
        assert forall|j: int| 0 <= j < i - 1 implies rest[j].value != value by {
            assert(rest[j] == items[j + 1]);
        }
        lemma_position_of(rest, value, i - 1);
        assert(exists|j: int| 0 <= j < items.len() && items[j].value == value);
    }
}

/// The workflow templates as picker entries: the name as the label, the
/// prompt as the value, the description as the hint.
pub fn workflow_items(templates: &Vec<(String, String, String)>) -> (r: Vec<OverlayItem>)
    ensures
        r@.len() == templates@.len(),
        forall|i: int|
            0 <= i < r@.len() ==> #[trigger] r@[i]@ == entry(
                templates@[i].0@,
                templates@[i].2@,
                templates@[i].1@,
            ),
{
    let mut out: Vec<OverlayItem> = Vec::new();
    let mut i: usize = 0;
    while i < templates.len()
        invariant
            i <= templates@.len(),
            out@.len() == i,
            forall|j: int|
                0 <= j < i ==> #[trigger] out@[j]@ == entry(
                    templates@[j].0@,
                    templates@[j].2@,
                    templates@[j].1@,
                ),
        decreases templates.len() - i,
    {
        let t = &templates[i];
        out.push(make_item(t.0.as_str(), t.2.as_str(), t.1.as_str()));
        i = i + 1;
    }
    out
}

} // verus!
