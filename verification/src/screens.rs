//! What the popups show: where a popup sits, and the rows of the text
//! viewer, the pickers, the question dialog and the agent dashboard, each
//! row as runs of text with the role they are drawn in.
use vstd::prelude::*;

use crate::diff::{diff_spec, diff_words, ops_view, tokens_of, DiffOp, OpView};
use crate::overlay::Area;
use crate::text::{
    chars_of, decimal, lines_of, owned, push_char, push_decimal, push_str, split_lines, starts_with,
    str_starts_with, string_of_range, strs_of, strs_view,
};

verus! {

/// The role a run of text is drawn in; the theme gives the colours.
#[derive(Debug, Clone, Copy, PartialEq, Eq, Structural)]
pub enum Ink {
    /// Ordinary text.
    Text,
    /// Unchanged words of a changed line (dimmed text).
    Faint,
    /// Added lines and words.
    Added,
    /// Removed lines and words.
    Removed,
    /// Diff hunk headers.
    HunkHeader,
    /// Headings.
    Heading,
    /// Code.
    Code,
    /// A label, highlighted on the selected row.
    Label,
    /// A description or a hint.
    Detail,
    /// A column header.
    Header,
    /// Something running, or only half on (warning colour).
    Running,
    /// Something done, or switched on (success colour).
    Done,
    /// Muted text.
    Muted,
    /// The typed filter.
    Filter,
    /// The typing cursor.
    Cursor,
    /// A rule.
    Rule,
}

/// A run of text in one ink.
#[derive(Debug, Clone)]
pub struct Run {
    pub text: String,
    pub ink: Ink,
}

/// A run as plain values.
pub type RunV = (Seq<char>, Ink);

/// Runs as plain values.
pub open spec fn runs_v(r: Seq<Run>) -> Seq<RunV> {
    r.map_values(|x: Run| (x.text@, x.ink))
}

/// Rows as plain values.
pub open spec fn rows_v(rs: Seq<Vec<Run>>) -> Seq<Seq<RunV>> {
    rs.map_values(|r: Vec<Run>| runs_v(r@))
}

/// A run.
fn run(text: &str, ink: Ink) -> (r: Run)
    ensures
        r.text@ == text@,
        r.ink == ink,
{
    Run { text: owned(text), ink }
}

// ---------------------------------------------------------------------------
// The text viewer
// ---------------------------------------------------------------------------

/// Whether a line removes something (`- `, not a `--- ` file header).
pub open spec fn removes(l: Seq<char>) -> bool {
    starts_with(l, "- "@) && !starts_with(l, "--- "@)
}

/// Whether a line adds something (`+ `, not a `+++ ` file header).
pub open spec fn adds(l: Seq<char>) -> bool {
    starts_with(l, "+ "@) && !starts_with(l, "+++ "@)
}

/// The ink of a line shown on its own: diff lines, hunk headers, headings
/// and code stand out.
pub open spec fn line_ink(l: Seq<char>) -> Ink {
    if starts_with(l, "+ "@) || starts_with(l, "+++ "@) {
        Ink::Added
    } else if starts_with(l, "- "@) || starts_with(l, "--- "@) {
        Ink::Removed
    } else if starts_with(l, "@@ "@) {
        Ink::HunkHeader
    } else if starts_with(l, "#"@) {
        Ink::Heading
    } else if starts_with(l, "```"@) || starts_with(l, "\t"@) {
        Ink::Code
    } else {
        Ink::Text
    }
}

/// The runs of one side of a word diff: unchanged words faint, the words of
/// this side in `ink`, the other side's left out.
pub open spec fn side_runs(ops: Seq<OpView>, removed_side: bool) -> Seq<RunV>
    decreases ops.len(),
{
    if ops.len() == 0 {
        seq![]
    } else {
        let rest = side_runs(ops.drop_last(), removed_side);
        match ops.last() {
            OpView::Equal(t) => rest.push((t, Ink::Faint)),
            OpView::Remove(t) => if removed_side {
                rest.push((t, Ink::Removed))
            } else {
                rest
            },
            OpView::Add(t) => if removed_side {
                rest
            } else {
                rest.push((t, Ink::Added))
            },
        }
    }
}

/// The rows of the visible lines: a removed line followed by an added line
/// becomes a pair of rows with their changed words marked; any other line
/// is one row in its ink.
pub open spec fn viewer_rows(ls: Seq<Seq<char>>) -> Seq<Seq<RunV>>
    decreases ls.len(),
{
    if ls.len() == 0 {
        seq![]
    } else if ls.len() > 1 && removes(ls[0]) && adds(ls[1]) {
        let ops = diff_spec(tokens_of(ls[0].skip(2)), tokens_of(ls[1].skip(2)));
        seq![
            seq![("- "@, Ink::Removed)] + side_runs(ops, true),
            seq![("+ "@, Ink::Added)] + side_runs(ops, false),
        ] + viewer_rows(ls.skip(2))
    } else {
        seq![seq![(ls[0], line_ink(ls[0]))]] + viewer_rows(ls.drop_first())
    }
}

/// The part of the lines in view: from the scroll position, clamped so the
/// last screen is full, at most `height` lines.
pub open spec fn in_view(ls: Seq<Seq<char>>, scroll: nat, height: nat) -> Seq<Seq<char>> {
    let max_scroll: nat = if ls.len() >= height {
        (ls.len() - height) as nat
    } else {
        0
    };
    let s: nat = if scroll < max_scroll {
        scroll
    } else {
        max_scroll
    };
    let end: nat = if s + height < ls.len() {
        s + height
    } else {
        ls.len()
    };
    ls.subrange(s as int, end as int)
}

/// The ink of a line shown on its own.
fn ink_of_line(l: &str) -> (i: Ink)
    ensures
        i == line_ink(l@),
{
    if str_starts_with(l, "+ ") || str_starts_with(l, "+++ ") {
        Ink::Added
    } else if str_starts_with(l, "- ") || str_starts_with(l, "--- ") {
        Ink::Removed
    } else if str_starts_with(l, "@@ ") {
        Ink::HunkHeader
    } else if str_starts_with(l, "#") {
        Ink::Heading
    } else if str_starts_with(l, "```") || str_starts_with(l, "\t") {
        Ink::Code
    } else {
        Ink::Text
    }
}

/// Append the runs of one side of a word diff (see `side_runs`).
fn push_side(row: &mut Vec<Run>, ops: &Vec<DiffOp>, removed_side: bool)
    ensures
        runs_v(final(row)@) == runs_v(old(row)@) + side_runs(ops_view(ops@), removed_side),
{
    let ghost base = runs_v(row@);
    let ghost ov = ops_view(ops@);
    let mut i: usize = 0;
    proof {
        assert(ov.take(0) =~= Seq::<OpView>::empty());
        assert(runs_v(row@) =~= base + Seq::<RunV>::empty());
    }
    while i < ops.len()
        invariant
            i <= ops@.len(),
            ov == ops_view(ops@),
            runs_v(row@) == base + side_runs(ov.take(i as int), removed_side),
        decreases ops.len() - i,
    {
        let ghost before = runs_v(row@);
        proof {
            assert(ov.take(i + 1).drop_last() =~= ov.take(i as int));
            assert(ov.take(i + 1).last() == ops@[i as int]@);
        }
        match ops[i] {
            DiffOp::Equal(t) => {
                row.push(run(t, Ink::Faint));
                proof {
                    assert(ov[i as int] == OpView::Equal(t@));
                    assert(runs_v(row@) =~= before.push((t@, Ink::Faint)));
                }
            },
            DiffOp::Remove(t) => {
                if removed_side {
                    row.push(run(t, Ink::Removed));
                    proof {
                        assert(runs_v(row@) =~= before.push((t@, Ink::Removed)));
                    }
                }
                proof {
                    assert(ov[i as int] == OpView::Remove(t@));
                }
            },
            DiffOp::Add(t) => {
                if !removed_side {
                    row.push(run(t, Ink::Added));
                    proof {
                        assert(runs_v(row@) =~= before.push((t@, Ink::Added)));
                    }
                }
                proof {
                    assert(ov[i as int] == OpView::Add(t@));
                }
            },
        }
        proof {
            assert(runs_v(row@) =~= base + side_runs(ov.take(i + 1), removed_side));
        }
        i = i + 1;
    }
    proof {
        assert(ov.take(ops@.len() as int) =~= ov);
    }
}

/// The text after the first two characters.
fn after_marker(l: &str) -> (r: String)
    ensures
        r@ == if l@.len() >= 2 {
            l@.skip(2)
        } else {
            Seq::empty()
        },
{
    let v = chars_of(l);
    if v.len() >= 2 {
        let r = string_of_range(&v, 2, v.len());
        proof {
            assert(v@.subrange(2, v@.len() as int) =~= v@.skip(2));
        }
        r
    } else {
        String::new()
    }
}

/// The rows of the lines `ls` (see `viewer_rows`).
pub fn text_rows(ls: &Vec<String>) -> (r: Vec<Vec<Run>>)
    ensures
        rows_v(r@) == viewer_rows(ls@.map_values(|s: String| s@)),
{
    let ghost lv = ls@.map_values(|s: String| s@);
    let mut out: Vec<Vec<Run>> = Vec::new();
    let mut i: usize = 0;
    proof {
        assert(lv.skip(0) =~= lv);
        assert(rows_v(out@) + viewer_rows(lv.skip(0)) =~= viewer_rows(lv));
    }
    while i < ls.len()
        invariant
            i <= ls@.len(),
            lv == ls@.map_values(|s: String| s@),
            rows_v(out@) + viewer_rows(lv.skip(i as int)) == viewer_rows(lv),
        decreases ls.len() - i,
    {
        let ghost rest = lv.skip(i as int);
        proof {
            assert(rest[0] == ls@[i as int]@);
        }
        let ghost before = rows_v(out@);
        let l = ls[i].as_str();
        let pair = i + 1 < ls.len() && str_starts_with(l, "- ") && !str_starts_with(l, "--- ")
            && str_starts_with(ls[i + 1].as_str(), "+ ") && !str_starts_with(ls[i + 1].as_str(), "+++ ");
        proof {
            if i + 1 < ls@.len() {
                assert(rest[1] == ls@[i + 1]@);
            }
        }
        if pair {
            proof {
                reveal_strlit("- ");
                reveal_strlit("+ ");
            }
            let old_text = after_marker(l);
            let new_text = after_marker(ls[i + 1].as_str());
            let ops = diff_words(old_text.as_str(), new_text.as_str());
            let mut removed: Vec<Run> = Vec::new();
            removed.push(run("- ", Ink::Removed));
            let ghost r0 = runs_v(removed@);
            push_side(&mut removed, &ops, true);
            let mut added: Vec<Run> = Vec::new();
            added.push(run("+ ", Ink::Added));
            let ghost a0 = runs_v(added@);
            push_side(&mut added, &ops, false);
            let ghost rv = runs_v(removed@);
            let ghost av = runs_v(added@);
            out.push(removed);
            out.push(added);
            proof {
                assert(r0 =~= seq![("- "@, Ink::Removed)]);
                assert(a0 =~= seq![("+ "@, Ink::Added)]);
                assert(rest.len() > 1);
                assert(rest.skip(2) =~= lv.skip(i + 2));
                assert(rows_v(out@) =~= before.push(rv).push(av));
                assert(viewer_rows(rest) == seq![rv, av] + viewer_rows(rest.skip(2)));
                assert(rows_v(out@) + viewer_rows(lv.skip(i + 2)) =~= before + viewer_rows(rest));
            }
            i = i + 2;
        } else {
            let mut row: Vec<Run> = Vec::new();
            row.push(run(l, ink_of_line(l)));
            let ghost rv = runs_v(row@);
            out.push(row);
            proof {
                assert(rv =~= seq![(rest[0], line_ink(rest[0]))]);
                assert(rest.drop_first() =~= lv.skip(i + 1));
                assert(rows_v(out@) =~= before.push(rv));
                assert(viewer_rows(rest) == seq![rv] + viewer_rows(rest.drop_first()));
                assert(rows_v(out@) + viewer_rows(lv.skip(i + 1)) =~= before + viewer_rows(rest));
            }
            i = i + 1;
        }
    }
    proof {
        assert(lv.skip(ls@.len() as int) =~= Seq::<Seq<char>>::empty());
        assert(rows_v(out@) + Seq::<Seq<RunV>>::empty() =~= rows_v(out@));
    }
    out
}

// ---------------------------------------------------------------------------
// Where a popup sits
// ---------------------------------------------------------------------------

/// `pct` percent of `n` (at least `min`), but `margin` less than `n` at most.
pub open spec fn share(n: nat, pct: nat, min: nat, margin: nat) -> nat {
    let p = n * pct / 100;
    let wide = if p > min { p } else { min };
    let room: nat = if n >= margin { (n - margin) as nat } else { 0 };
    if wide < room { wide } else { room }
}

/// A popup of the given size centered on `screen`.
pub open spec fn centered_spec(screen: Area, width: nat, height: nat) -> Area {
    Area {
        x: (screen.x + (if screen.width >= width { screen.width - width } else { 0 }) / 2) as u16,
        y: (screen.y + (if screen.height >= height { screen.height - height } else { 0 }) / 2) as u16,
        width: width as u16,
        height: height as u16,
    }
}

/// The inside of a bordered popup.
pub open spec fn inner_spec(a: Area) -> Area {
    Area {
        x: if a.width > 0 { (a.x + 1) as u16 } else { a.x },
        y: if a.height > 0 { (a.y + 1) as u16 } else { a.y },
        width: if a.width >= 2 { (a.width - 2) as u16 } else { 0 },
        height: if a.height >= 2 { (a.height - 2) as u16 } else { 0 },
    }
}

/// Whether percentages of the screen stay within `u16` and the screen
/// within the coordinate range.
pub open spec fn screen_ok(screen: Area, pw: nat, ph: nat) -> bool {
    &&& screen.width * pw <= 0xffff
    &&& screen.height * ph <= 0xffff
    &&& screen.x + screen.width < 0xffff
    &&& screen.y + screen.height < 0xffff
}

/// `pct` percent of `n`, at least `min`, at most `n - margin`.
fn share_of(n: u16, pct: u16, min: u16, margin: u16) -> (r: u16)
    requires
        n * pct <= 0xffff,
    ensures
        r == share(n as nat, pct as nat, min as nat, margin as nat),
        r <= n || r <= min,
{
    let p = n * pct / 100;
    let wide = if p > min { p } else { min };
    let room = if n >= margin { n - margin } else { 0 };
    if wide < room { wide } else { room }
}

/// A popup of `width` by `height` centered on the screen.
pub fn centered(screen: Area, width: u16, height: u16) -> (r: Area)
    requires
        screen.x + screen.width < 0xffff,
        screen.y + screen.height < 0xffff,
    ensures
        r == centered_spec(screen, width as nat, height as nat),
{
    let x = screen.x + screen.width.saturating_sub(width) / 2;
    let y = screen.y + screen.height.saturating_sub(height) / 2;
    Area { x, y, width, height }
}

/// The inside of a bordered popup.
pub fn inner_of(a: Area) -> (r: Area)
    requires
        a.x < 0xffff,
        a.y < 0xffff,
    ensures
        r == inner_spec(a),
{
    Area {
        x: if a.width > 0 { a.x + 1 } else { a.x },
        y: if a.height > 0 { a.y + 1 } else { a.y },
        width: a.width.saturating_sub(2),
        height: a.height.saturating_sub(2),
    }
}

// ---------------------------------------------------------------------------
// The text viewer popup
// ---------------------------------------------------------------------------

/// The text viewer as shown: where it sits, its title and bottom hint, and
/// the rows in view.
#[derive(Debug)]
pub struct ViewerView {
    pub popup: Area,
    pub title: String,
    pub hint: String,
    pub rows: Vec<Vec<Run>>,
}

/// The viewer's popup: 80% of the screen, at least 40 by 10, leaving a
/// margin of 4 columns and 2 rows.
pub open spec fn viewer_popup(screen: Area) -> Area {
    centered_spec(
        screen,
        share(screen.width as nat, 80, 40, 4),
        share(screen.height as nat, 80, 10, 2),
    )
}

/// The viewer's hint: the line position and Esc.
pub open spec fn viewer_hint(scroll: nat, count: nat) -> Seq<char> {
    " "@ + decimal(scroll + 1) + "/"@ + decimal(if count > 1 { count } else { 1 }) + " | Esc to close "@
}

/// The text viewer with its title, lines and scroll position on the screen:
/// the popup (see `viewer_popup`), ` title `, the hint, and the rows of the
/// lines in view (see `in_view` and `viewer_rows`); no rows when the inside
/// is empty.
pub fn viewer_view(title: &str, lines: &Vec<String>, scroll: usize, screen: Area) -> (v: ViewerView)
    requires
        screen_ok(screen, 80, 80),
        scroll < usize::MAX,
    ensures
        v.popup == viewer_popup(screen),
        v.title@ == " "@ + title@ + " "@,
        v.hint@ == viewer_hint(scroll as nat, lines@.len()),
        ({
            let inner = inner_spec(viewer_popup(screen));
            rows_v(v.rows@) == if inner.width == 0 || inner.height == 0 {
                seq![]
            } else {
                viewer_rows(in_view(lines@.map_values(|s: String| s@), scroll as nat, inner.height as nat))
            }
        }),
{
    let w = share_of(screen.width, 80, 40, 4);
    let h = share_of(screen.height, 80, 10, 2);
    let popup = centered(screen, w, h);
    let mut t = owned(" ");
    push_str(&mut t, title);
    push_str(&mut t, " ");
    let mut hint = owned(" ");
    push_decimal(&mut hint, (scroll + 1) as u64);
    push_str(&mut hint, "/");
    push_decimal(&mut hint, (if lines.len() > 1 { lines.len() } else { 1 }) as u64);
    push_str(&mut hint, " | Esc to close ");
    proof {
        assert(popup.x < 0xffff && popup.y < 0xffff) by {
            assert(w <= screen.width || w <= 40);
        }
    }
    let inner = inner_of(popup);
    if inner.width == 0 || inner.height == 0 {
        let rows: Vec<Vec<Run>> = Vec::new();
        proof {
            assert(rows_v(rows@) =~= Seq::<Seq<RunV>>::empty());
        }
        return ViewerView { popup, title: t, hint, rows };
    }
    let height = inner.height as usize;
    let max_scroll = if lines.len() >= height { lines.len() - height } else { 0 };
    let s = if scroll < max_scroll { scroll } else { max_scroll };
    let end = if s + height < lines.len() { s + height } else { lines.len() };
    let mut shown: Vec<String> = Vec::new();
    let mut i = s;
    let ghost lv = lines@.map_values(|x: String| x@);
    while i < end
        invariant
            s <= i <= end <= lines@.len(),
            lv == lines@.map_values(|x: String| x@),
            shown@.map_values(|x: String| x@) == lv.subrange(s as int, i as int),
        decreases end - i,
    {
        let ghost before = shown@;
        shown.push(owned(lines[i].as_str()));
        proof {
            assert(shown@.map_values(|x: String| x@) =~= before.map_values(|x: String| x@).push(lv[i as int]));
            assert(lv.subrange(s as int, i + 1) =~= lv.subrange(s as int, i as int).push(lv[i as int]));
        }
        i = i + 1;
    }
    let rows = text_rows(&shown);
    proof {
        assert(lv.subrange(s as int, end as int) == in_view(lv, scroll as nat, inner.height as nat));
    }
    ViewerView { popup, title: t, hint, rows }
}

// ---------------------------------------------------------------------------
// Rows of the list popups
// ---------------------------------------------------------------------------

/// A row of a list popup: its runs, and whether it is the highlighted one.
#[derive(Debug)]
pub struct PanelRow {
    pub runs: Vec<Run>,
    pub highlighted: bool,
}

/// A row as plain values.
pub open spec fn row_v(r: PanelRow) -> (Seq<RunV>, bool) {
    (runs_v(r.runs@), r.highlighted)
}

/// The first row of a list scrolled so that `cursor` is in view among
/// `visible` rows.
pub open spec fn first_row(cursor: nat, visible: nat) -> nat {
    if cursor >= visible {
        (cursor - visible + 1) as nat
    } else {
        0
    }
}

/// `n` spaces.
pub open spec fn spaces(n: nat) -> Seq<char> {
    Seq::new(n, |i: int| ' ')
}

/// Append `n` spaces.
fn push_spaces(s: &mut String, n: usize)
    ensures
        final(s)@ == old(s)@ + spaces(n as nat),
{
    let ghost base = old(s)@;
    let mut i: usize = 0;
    while i < n
        invariant
            i <= n,
            s@ == base + spaces(i as nat),
        decreases n - i,
    {
        push_char(s, ' ');
        proof {
            assert(spaces(i as nat).push(' ') =~= spaces((i + 1) as nat));
        }
        i = i + 1;
    }
}

// ---------------------------------------------------------------------------
// The agent dashboard
// ---------------------------------------------------------------------------

/// How long an agent has run: hours and minutes, minutes and seconds, or
/// seconds.
pub open spec fn elapsed_text(secs: nat) -> Seq<char> {
    if secs >= 3600 {
        decimal(secs / 3600) + "h"@ + decimal((secs % 3600) / 60) + "m"@
    } else if secs >= 60 {
        decimal(secs / 60) + "m"@ + decimal(secs % 60) + "s"@
    } else {
        decimal(secs) + "s"@
    }
}

/// `t` cut to its first 16 bytes when it is longer.
pub open spec fn cut16(t: Seq<char>) -> Seq<char> {
    if crate::text::byte_len(t) > 16 {
        let k = choose|k: int| 0 <= k <= t.len() && #[trigger] crate::text::byte_len(t.take(k)) == 16;
        t.take(k)
    } else {
        t
    }
}

/// Whether `t` can be cut at byte 16.
pub open spec fn cuttable16(t: Seq<char>) -> bool {
    crate::text::byte_len(t) > 16 ==> crate::sessions::has_boundary(t, 16)
}

/// `s` padded on the left to `w` characters (`{:>w}`).
pub open spec fn right_aligned(s: Seq<char>, w: nat) -> Seq<char> {
    if s.len() >= w {
        s
    } else {
        spaces((w - s.len()) as nat) + s
    }
}

/// The row of an agent: its status, its type cut and padded to 16, how long
/// it has run (right-aligned to 6), and its description.
pub open spec fn agent_row(completed: bool, agent_type: Seq<char>, secs: nat, description: Seq<char>) -> Seq<RunV> {
    seq![
        (if completed { "  DONE  "@ } else { "  RUNNING"@ }, if completed { Ink::Done } else { Ink::Running }),
        (" "@, Ink::Text),
        (crate::viewers::padded(cut16(agent_type), 16), Ink::Detail),
        (" "@, Ink::Text),
        (right_aligned(elapsed_text(secs), 6) + "  "@, Ink::Muted),
        (description, Ink::Text),
    ]
}

/// The dashboard's popup: 75% of the screen wide (at least 50), 70% high
/// (at least 10), leaving a margin of 4 columns and 2 rows.
pub open spec fn dashboard_popup(screen: Area) -> Area {
    centered_spec(screen, share(screen.width as nat, 75, 50, 4), share(screen.height as nat, 70, 10, 2))
}

/// The agent dashboard as shown.
#[derive(Debug)]
pub struct DashboardView {
    pub popup: Area,
    pub title: String,
    pub rows: Vec<PanelRow>,
}

/// Where the dashboard's rows start in the task list: the scroll position,
/// but no further than a full last screen.
pub open spec fn dashboard_first(scroll: nat, count: nat, visible: nat) -> nat {
    let last: nat = if count >= visible { (count - visible) as nat } else { 0 };
    if scroll < last { scroll } else { last }
}

/// The elapsed time, as text.
fn elapsed_string(secs: u64) -> (r: String)
    ensures
        r@ == elapsed_text(secs as nat),
{
    let mut t = String::new();
    if secs >= 3600 {
        push_decimal(&mut t, secs / 3600);
        push_str(&mut t, "h");
        push_decimal(&mut t, (secs % 3600) / 60);
        push_str(&mut t, "m");
    } else if secs >= 60 {
        push_decimal(&mut t, secs / 60);
        push_str(&mut t, "m");
        push_decimal(&mut t, secs % 60);
        push_str(&mut t, "s");
    } else {
        push_decimal(&mut t, secs);
        push_str(&mut t, "s");
    }
    t
}

/// The agent type cut to 16 bytes, or `None` where that would split a
/// character.
fn type_cut(t: &str) -> (r: Option<String>)
    ensures
        match r {
            Some(c) => cuttable16(t@) && c@ == cut16(t@),
            None => !cuttable16(t@),
        },
{
    let v = chars_of(t);
    let (k17, b17) = crate::text::bytes_upto(&v, 17);
    proof {
        assert(v@.take(v@.len() as int) =~= v@);
        crate::text::lemma_byte_len_mono(v@, k17 as int, v@.len() as int);
    }
    if b17 < 17 {
        proof {
            assert(v@.subrange(0, v@.len() as int) =~= v@);
        }
        return Some(string_of_range(&v, 0, v.len()));
    }
    let (k, b) = crate::text::bytes_upto(&v, 16);
    proof {
        if crate::sessions::has_boundary(v@, 16) {
            let j = choose|j: int| 0 <= j <= v@.len() && #[trigger] crate::text::byte_len(v@.take(j)) == 16;
            if j < k {
                assert(crate::text::byte_len(v@.take(j)) < 16);
            } else if j > k {
                crate::sessions::lemma_byte_len_strict(v@, k as int, j);
            }
            assert(j == k);
        }
    }
    if b != 16 {
        return None;
    }
    proof {
        assert(v@.subrange(0, k as int) =~= v@.take(k as int));
    }
    Some(string_of_range(&v, 0, k))
}

/// The row of an agent (see `agent_row`), or `None` where its type cannot
/// be cut.
fn agent_runs(task: &crate::tracker::AgentTask, secs: u64) -> (r: Option<Vec<Run>>)
    ensures
        match r {
            Some(rs) => cuttable16(task.agent_type@) && runs_v(rs@) == agent_row(
                task.completed,
                task.agent_type@,
                secs as nat,
                task.description@,
            ),
            None => !cuttable16(task.agent_type@),
        },
{
    let cut = match type_cut(task.agent_type.as_str()) {
        Some(c) => c,
        None => {
            return None;
        },
    };
    let mut ty = String::new();
    crate::viewers::push_padded(&mut ty, cut.as_str(), 16);
    let e = elapsed_string(secs);
    let n = chars_of(e.as_str()).len();
    let mut el = String::new();
    if n < 6 {
        push_spaces(&mut el, 6 - n);
    }
    push_str(&mut el, e.as_str());
    push_str(&mut el, "  ");
    let mut rs: Vec<Run> = Vec::new();
    if task.completed {
        rs.push(run("  DONE  ", Ink::Done));
    } else {
        rs.push(run("  RUNNING", Ink::Running));
    }
    rs.push(run(" ", Ink::Text));
    rs.push(Run { text: ty, ink: Ink::Detail });
    rs.push(run(" ", Ink::Text));
    rs.push(Run { text: el, ink: Ink::Muted });
    rs.push(run(task.description.as_str(), Ink::Text));
    proof {
        assert(crate::viewers::padded(cut16(task.agent_type@), 16) == ty@) by {
            assert(ty@ =~= Seq::<char>::empty() + crate::viewers::padded(cut@, 16));
        }
        if n < 6 {
            assert(el@ =~= spaces((6 - n) as nat) + e@ + "  "@);
        } else {
            assert(el@ =~= e@ + "  "@);
        }
        assert(runs_v(rs@) =~= agent_row(task.completed, task.agent_type@, secs as nat, task.description@));
    }
    Some(rs)
}

/// The rows of the dashboard's task list in view: the first task shown and
/// how many are shown.
pub open spec fn dashboard_span(scroll: nat, count: nat, screen: Area) -> (nat, nat) {
    let inner = inner_spec(dashboard_popup(screen));
    let visible: nat = if inner.height >= 2 { (inner.height - 2) as nat } else { 0 };
    let first = dashboard_first(scroll, count, visible);
    let shown: nat = if inner.width == 0 || inner.height == 0 {
        0
    } else if first + visible < count {
        visible
    } else {
        (count - first) as nat
    };
    (first, shown)
}

/// Whether the type of the agent at `j` can be cut at byte 16.
pub open spec fn type_cuttable(tasks: Seq<crate::tracker::AgentTask>, j: int) -> bool {
    cuttable16(tasks[j].agent_type@)
}

/// Whether `rows` are the rows of the `count` agents from `first` on, the
/// one at `scroll` highlighted, each of whose type can be cut.
pub open spec fn agent_rows_are(
    rows: Seq<PanelRow>,
    tasks: Seq<crate::tracker::AgentTask>,
    elapsed: Seq<u64>,
    first: int,
    count: nat,
    scroll: int,
) -> bool {
    &&& rows.len() == count
    &&& forall|k: int|
        0 <= k < count ==> #[trigger] row_v(rows[k]) == (
            agent_row(
                tasks[first + k].completed,
                tasks[first + k].agent_type@,
                elapsed[first + k] as nat,
                tasks[first + k].description@,
            ),
            first + k == scroll,
        ) && type_cuttable(tasks, first + k)
}

/// The rows of the agents from `first` to `end`, or `None` where one's
/// type cannot be cut.
fn agent_rows(tasks: &Vec<crate::tracker::AgentTask>, elapsed: &Vec<u64>, first: usize, end: usize, scroll: usize) -> (r: Option<Vec<PanelRow>>)
    requires
        first <= end <= tasks@.len(),
        elapsed@.len() == tasks@.len(),
    ensures
        match r {
            Some(rows) => agent_rows_are(rows@, tasks@, elapsed@, first as int, (end - first) as nat, scroll as int),
            None => exists|j: int| first <= j < end && !#[trigger] type_cuttable(tasks@, j),
        },
{
    let mut rows: Vec<PanelRow> = Vec::new();
    let mut i = first;
    while i < end
        invariant
            first <= i <= end <= tasks@.len(),
            elapsed@.len() == tasks@.len(),
            agent_rows_are(rows@, tasks@, elapsed@, first as int, (i - first) as nat, scroll as int),
        decreases end - i,
    {
        let runs = match agent_runs(&tasks[i], elapsed[i]) {
            Some(r) => r,
            None => {
                proof {
                    assert(!type_cuttable(tasks@, i as int));
                }
                return None;
            },
        };
        rows.push(PanelRow { runs, highlighted: i == scroll });
        proof {
            assert forall|k: int| 0 <= k < i + 1 - first implies #[trigger] row_v(rows@[k]) == (
                agent_row(
                    tasks@[first + k].completed,
                    tasks@[first + k].agent_type@,
                    elapsed@[first + k] as nat,
                    tasks@[first + k].description@,
                ),
                first + k == scroll,
            ) && type_cuttable(tasks@, first + k) by {
                if k < i - first {
                    assert(rows@[k] == rows@.drop_last()[k]);
                }
            }
        }
        i = i + 1;
    }
    Some(rows)
}

/// The agent dashboard over `tasks`, each with how long it has run in
/// `elapsed`, scrolled to `scroll`: the popup, the title with the counts,
/// and the rows in view below the header and rule (see `dashboard_span`),
/// the one at `scroll` highlighted; `None` exactly when the type of an
/// agent in view would be cut inside a character.
pub fn dashboard_view(tasks: &Vec<crate::tracker::AgentTask>, elapsed: &Vec<u64>, scroll: usize, screen: Area) -> (r: Option<DashboardView>)
    requires
        screen_ok(screen, 75, 70),
        elapsed@.len() == tasks@.len(),
    ensures
        ({
            let (first, shown) = dashboard_span(scroll as nat, tasks@.len(), screen);
            match r {
                Some(v) => {
                    &&& v.popup == dashboard_popup(screen)
                    &&& v.title@ == " Agent Dashboard ("@ + decimal(crate::menus::running_count(tasks@))
                        + " active / "@ + decimal(tasks@.len()) + " total) "@
                    &&& agent_rows_are(v.rows@, tasks@, elapsed@, first as int, shown, scroll as int)
                },
                None => exists|j: int| first <= j < first + shown && !#[trigger] type_cuttable(tasks@, j),
            }
        }),
{
    let w = share_of(screen.width, 75, 50, 4);
    let h = share_of(screen.height, 70, 10, 2);
    let popup = centered(screen, w, h);
    proof {
        assert(popup.x < 0xffff && popup.y < 0xffff) by {
            assert(w <= screen.width || w <= 50);
        }
    }
    let inner = inner_of(popup);
    let mut title = owned(" Agent Dashboard (");
    push_decimal(&mut title, crate::menus::running_agents(tasks) as u64);
    push_str(&mut title, " active / ");
    push_decimal(&mut title, tasks.len() as u64);
    push_str(&mut title, " total) ");
    if inner.width == 0 || inner.height == 0 {
        let rows: Vec<PanelRow> = Vec::new();
        return Some(DashboardView { popup, title, rows });
    }
    let visible = (inner.height as usize).saturating_sub(2);
    let last = tasks.len().saturating_sub(visible);
    let first = if scroll < last { scroll } else { last };
    let end = if first + visible < tasks.len() { first + visible } else { tasks.len() };
    proof {
        let sp = dashboard_span(scroll as nat, tasks@.len(), screen);
        assert(inner == inner_spec(dashboard_popup(screen)));
        assert(sp.0 == first as nat);
        assert(sp.1 == (end - first) as nat);
    }
    match agent_rows(tasks, elapsed, first, end, scroll) {
        Some(rows) => Some(DashboardView { popup, title, rows }),
        None => None,
    }
}

// ---------------------------------------------------------------------------
// The question dialog
// ---------------------------------------------------------------------------

/// `q` cut into pieces of `w` characters, the last one shorter.
pub open spec fn chunks(q: Seq<char>, w: nat) -> Seq<Seq<char>>
    decreases q.len(),
{
    if q.len() == 0 || w == 0 {
        seq![]
    } else if q.len() <= w {
        seq![q]
    } else {
        seq![q.take(w as int)] + chunks(q.skip(w as int), w)
    }
}

/// The dialog's popup: 70% of the screen wide (at least 40, leaving 4
/// columns), and high enough for the question, a blank row, the options, a
/// blank row, the hint and the borders (leaving 2 rows).
pub open spec fn question_popup(screen: Area, options: nat) -> Area {
    let height: nat = if options + 6 < screen.height - 2 { options + 6 } else if screen.height >= 2 {
        (screen.height - 2) as nat
    } else {
        0
    };
    centered_spec(screen, share(screen.width as nat, 70, 40, 4), height)
}

/// The marker in front of an option.
pub open spec fn option_marker(multi: bool, highlighted: bool, selected: bool) -> Seq<char> {
    if multi {
        if selected { " [x] "@ } else { " [ ] "@ }
    } else if highlighted {
        " > "@
    } else {
        "   "@
    }
}

/// The row of an option: marker and label, then ` - ` and the description
/// where there is one and the marker and label leave more than 3 columns.
pub open spec fn option_row(multi: bool, highlighted: bool, selected: bool, label: Seq<char>, description: Seq<char>, width: nat) -> Seq<RunV> {
    let head = option_marker(multi, highlighted, selected) + label;
    if description.len() > 0 && head.len() + 3 < width {
        seq![(head, Ink::Label), (" - "@ + description, Ink::Detail)]
    } else {
        seq![(head, Ink::Label)]
    }
}

/// The question dialog as shown.
#[derive(Debug)]
pub struct QuestionScreen {
    pub popup: Area,
    pub title: String,
    pub hint: String,
    /// The question, cut to the inner width, one piece per row from the top.
    pub question_rows: Vec<String>,
    /// The options, from the third row of the inside.
    pub rows: Vec<PanelRow>,
}

/// The question cut into rows of `w` characters, at most `h` of them.
fn question_pieces(q: &str, w: usize, h: usize) -> (r: Vec<String>)
    requires
        w > 0,
    ensures
        strs_of(r@) == chunks(q@, w as nat).take(if h < chunks(q@, w as nat).len() { h as int } else { chunks(q@, w as nat).len() as int }),
{
    let v = chars_of(q);
    let mut out: Vec<String> = Vec::new();
    let mut p: usize = 0;
    let ghost all = chunks(q@, w as nat);
    proof {
        assert(v@.skip(0) =~= v@);
        assert(strs_of(out@) + all =~= all);
    }
    while p < v.len() && out.len() < h
        invariant
            v@ == q@,
            w > 0,
            p <= v@.len(),
            out@.len() <= h,
            all == chunks(q@, w as nat),
            all == strs_of(out@) + chunks(v@.skip(p as int), w as nat),
        decreases v@.len() - p,
    {
        let ghost rest = v@.skip(p as int);
        let e = if v.len() - p <= w { v.len() } else { p + w };
        let ghost before = strs_of(out@);
        out.push(string_of_range(&v, p, e));
        proof {
            assert(strs_of(out@) =~= before.push(v@.subrange(p as int, e as int)));
            if v.len() - p <= w {
                assert(rest =~= v@.subrange(p as int, e as int));
                assert(v@.skip(e as int) =~= Seq::<char>::empty());
                assert(chunks(v@.skip(e as int), w as nat) =~= Seq::<Seq<char>>::empty());
                assert(chunks(rest, w as nat) =~= seq![rest]);
            } else {
                assert(rest.take(w as int) =~= v@.subrange(p as int, e as int));
                assert(rest.skip(w as int) =~= v@.skip(e as int));
            }
            assert(before + chunks(rest, w as nat) =~= before.push(v@.subrange(p as int, e as int)) + chunks(v@.skip(e as int), w as nat));
        }
        p = e;
    }
    proof {
        if p >= v.len() {
            assert(v@.skip(p as int) =~= Seq::<char>::empty());
            assert(all =~= strs_of(out@) + Seq::<Seq<char>>::empty());
        }
        let n = if h < all.len() { h as int } else { all.len() as int };
        assert(out@.len() == n);
        assert(all.take(n) =~= strs_of(out@));
    }
    out
}

/// Whether option `i` is ticked.
fn ticked(selected: &Vec<bool>, i: usize) -> (r: bool)
    ensures
        r == (i < selected@.len() && selected@[i as int]),
{
    if i < selected.len() { selected[i] } else { false }
}

/// The question dialog for `q` with the cursor on option `cursor` and the
/// ticks in `selected`: the popup (see `question_popup`), the title and
/// hint for one or several answers, the question cut to the inner width,
/// and a row for each option that fits below it (see `option_row`), the
/// one at the cursor highlighted.
pub fn question_screen(q: &crate::questions::UserQuestion, cursor: usize, selected: &Vec<bool>, screen: Area) -> (r: QuestionScreen)
    requires
        screen_ok(screen, 70, 1),
        q.options@.len() + 6 <= 0xffff,
    ensures
        ({
            let n = q.options@.len();
            let inner = inner_spec(question_popup(screen, n));
            let pieces = chunks(q.question@, inner.width as nat);
            let shown: nat = if inner.width == 0 || inner.height < 2 {
                0
            } else if n < inner.height - 2 {
                n
            } else {
                (inner.height - 2) as nat
            };
            &&& r.popup == question_popup(screen, n)
            &&& r.title@ == if q.multi_select { " Select Multiple "@ } else { " Select One "@ }
            &&& r.hint@ == if q.multi_select {
                " Space to toggle | Enter to confirm | Esc to dismiss "@
            } else {
                " Enter to select | Esc to dismiss "@
            }
            &&& strs_of(r.question_rows@) == if inner.width == 0 || inner.height == 0 {
                seq![]
            } else {
                pieces.take(if inner.height < pieces.len() { inner.height as int } else { pieces.len() as int })
            }
            &&& r.rows@.len() == shown
            &&& forall|i: int|
                0 <= i < shown ==> #[trigger] row_v(r.rows@[i]) == (
                    option_row(
                        q.multi_select,
                        i == cursor,
                        i < selected@.len() && selected@[i],
                        q.options@[i].label@,
                        q.options@[i].description@,
                        inner.width as nat,
                    ),
                    i == cursor,
                )
        }),
{
    let n = q.options.len();
    let w = share_of(screen.width, 70, 40, 4);
    let room = screen.height.saturating_sub(2);
    let h = if (n as u16) + 6 < room { (n as u16) + 6 } else { room };
    let popup = centered(screen, w, h);
    proof {
        assert(popup.x < 0xffff && popup.y < 0xffff) by {
            assert(w <= screen.width || w <= 40);
        }
        assert(popup == question_popup(screen, n as nat));
    }
    let inner = inner_of(popup);
    let multi = q.multi_select;
    let title = if multi { owned(" Select Multiple ") } else { owned(" Select One ") };
    let hint = if multi {
        owned(" Space to toggle | Enter to confirm | Esc to dismiss ")
    } else {
        owned(" Enter to select | Esc to dismiss ")
    };
    let mut rows: Vec<PanelRow> = Vec::new();
    if inner.width == 0 || inner.height == 0 {
        let question_rows: Vec<String> = Vec::new();
        proof {
            assert(strs_of(question_rows@) =~= Seq::<Seq<char>>::empty());
        }
        return QuestionScreen { popup, title, hint, question_rows, rows };
    }
    let question_rows = question_pieces(q.question.as_str(), inner.width as usize, inner.height as usize);
    let width = inner.width as usize;
    let avail = (inner.height as usize) - if inner.height >= 2 { 2 } else { inner.height as usize };
    let shown = if n < avail { n } else { avail };
    let mut i: usize = 0;
    while i < shown
        invariant
            i <= shown <= n == q.options@.len(),
            width == inner.width,
            inner == inner_spec(question_popup(screen, n as nat)),
            shown as nat == (if inner.height < 2 { 0 } else if n < inner.height - 2 { n as nat } else { (inner.height - 2) as nat }),
            multi == q.multi_select,
            rows@.len() == i,
            forall|k: int|
                0 <= k < i ==> #[trigger] row_v(rows@[k]) == (
                    option_row(
                        q.multi_select,
                        k == cursor,
                        k < selected@.len() && selected@[k],
                        q.options@[k].label@,
                        q.options@[k].description@,
                        inner.width as nat,
                    ),
                    k == cursor,
                ),
        decreases shown - i,
    {
        let hl = i == cursor;
        let tick = ticked(selected, i);
        let marker = if multi {
            if tick { " [x] " } else { " [ ] " }
        } else if hl {
            " > "
        } else {
            "   "
        };
        proof {
            reveal_strlit(" [x] ");
            reveal_strlit(" [ ] ");
            reveal_strlit(" > ");
            reveal_strlit("   ");
        }
        let opt = &q.options[i];
        let mut head = owned(marker);
        push_str(&mut head, opt.label.as_str());
        let head_len = chars_of(head.as_str()).len();
        let mut runs: Vec<Run> = Vec::new();
        let has_desc = !opt.description.as_str().is_empty();
        if has_desc && head_len < width && width - head_len > 3 {
            let mut d = owned(" - ");
            push_str(&mut d, opt.description.as_str());
            runs.push(Run { text: head, ink: Ink::Label });
            runs.push(Run { text: d, ink: Ink::Detail });
        } else {
            runs.push(Run { text: head, ink: Ink::Label });
        }
        rows.push(PanelRow { runs, highlighted: hl });
        proof {
            assert(option_marker(q.multi_select, i == cursor, i < selected@.len() && selected@[i as int]) == marker@);
            assert(opt.description@.len() > 0 <==> has_desc);
            assert(runs_v(runs@) =~= option_row(
                q.multi_select,
                i == cursor,
                i < selected@.len() && selected@[i as int],
                q.options@[i as int].label@,
                q.options@[i as int].description@,
                inner.width as nat,
            ));
            assert forall|k: int| 0 <= k < i + 1 implies #[trigger] row_v(rows@[k]) == (
                option_row(
                    q.multi_select,
                    k == cursor,
                    k < selected@.len() && selected@[k],
                    q.options@[k].label@,
                    q.options@[k].description@,
                    inner.width as nat,
                ),
                k == cursor,
            ) by {
                if k < i {
                    assert(rows@[k] == rows@.drop_last()[k]);
                }
            }
        }
        i = i + 1;
    }
    QuestionScreen { popup, title, hint, question_rows, rows }
}

// ---------------------------------------------------------------------------
// The overlay picker
// ---------------------------------------------------------------------------

/// A row of the picker: the marker and label, whether it is the selected
/// one, and the part of the hint that shows with the column it starts at.
#[derive(Debug)]
pub struct PickerRow {
    pub text: String,
    pub highlighted: bool,
    pub hint: Option<(u16, String)>,
}

/// A picker row as plain values.
pub open spec fn picker_row_v(r: PickerRow) -> (Seq<char>, bool, Option<(int, Seq<char>)>) {
    (r.text@, r.highlighted, match r.hint {
        Some(h) => Some((h.0 as int, h.1@)),
        None => None,
    })
}

/// The part of `hint` that shows on a row inside `inner` whose text takes
/// `text_bytes` bytes: the hint is put so that it ends one column before the
/// right edge (counting its length in bytes), and only the characters right
/// of the text and left of the edge show.
pub open spec fn hint_part(hint: Seq<char>, text_bytes: int, inner: Area) -> Option<(int, Seq<char>)> {
    let right = inner.x + inner.width;
    let hb = crate::text::byte_len(hint);
    let start: int = if hb + 1 <= right { right - hb - 1 } else { 0 };
    let lo0 = inner.x + text_bytes + 1 - start;
    let lo: int = if lo0 > 0 { lo0 } else { 0 };
    let hi0 = right - start;
    let hi: int = if hint.len() < hi0 { hint.len() as int } else { hi0 };
    if hint.len() == 0 || hi <= lo {
        None
    } else {
        Some((start + lo, hint.subrange(lo, hi)))
    }
}

/// The row of an item of the picker.
pub open spec fn picker_row(label: Seq<char>, hint: Seq<char>, highlighted: bool, inner: Area) -> (Seq<char>, bool, Option<(int, Seq<char>)>) {
    let text = (if highlighted { " \u{25b8} "@ } else { "   "@ }) + label;
    (text, highlighted, hint_part(hint, crate::text::byte_len(text) as int, inner))
}

/// The picker as shown.
#[derive(Debug)]
pub struct PickerScreen {
    pub popup: Area,
    pub title: String,
    /// The filter row: the prompt and the typed filter.
    pub filter_line: String,
    /// The column of the typing cursor, where it fits.
    pub cursor_col: Option<u16>,
    /// Whether there is room for the separator below the filter row.
    pub separator: bool,
    /// The items in view, from the third row of the inside.
    pub rows: Vec<PickerRow>,
}

/// The shown part of the hint.
fn hint_shown(hint: &str, text_bytes: usize, inner: Area) -> (r: Option<(u16, String)>)
    requires
        inner.x + inner.width <= 0xffff,
    ensures
        match r {
            Some(h) => hint_part(hint@, text_bytes as int, inner) == Some((h.0 as int, h.1@)),
            None => hint_part(hint@, text_bytes as int, inner) is None,
        },
{
    let v = chars_of(hint);
    if v.len() == 0 {
        return None;
    }
    let right = (inner.x as usize) + (inner.width as usize);
    let hb = crate::text::str_len(hint);
    let start = if hb < right { right - hb - 1 } else { 0 };
    if text_bytes >= right {
        return None;
    }
    let base = inner.x as usize;
    let lo = if base + text_bytes + 1 > start { base + text_bytes + 1 - start } else { 0 };
    let hi0 = right - start;
    let hi = if v.len() < hi0 { v.len() } else { hi0 };
    if hi <= lo {
        return None;
    }
    Some(((start + lo) as u16, string_of_range(&v, lo, hi)))
}

/// The picker over `state` titled `title` on the screen: the popup (see
/// `popup_spec`), ` title `, the filter row with the cursor after it (at
/// the column its length in bytes gives) where it fits, the separator where
/// there is room, and the items that pass the filter in view, scrolled so
/// that the selected one shows (see `first_row` and `picker_row`).
pub fn picker_screen(state: &crate::overlay::OverlayState, title: &str, screen: Area) -> (r: PickerScreen)
    requires
        crate::overlay::filtered(crate::overlay::items_view(state.items@), state.filter@).len() + 4 <= 0xffff,
        (if screen.height * 60 > 0xffff { 0xffff } else { screen.height * 60 }) / 100 >= 5,
        screen.x + screen.width < 0xffff,
        screen.y + screen.height < 0xffff,
    ensures
        ({
            let items = crate::overlay::filtered(crate::overlay::items_view(state.items@), state.filter@);
            let popup = crate::overlay::popup_spec(screen, items.len());
            let inner = inner_spec(popup);
            let line = "> "@ + state.filter@;
            let visible: nat = if inner.height >= 2 { (inner.height - 2) as nat } else { 0 };
            let first = first_row(state.selected as nat, visible);
            let shown: nat = if inner.width == 0 || inner.height == 0 || first >= items.len() {
                0
            } else if first + visible < items.len() {
                visible
            } else {
                (items.len() - first) as nat
            };
            &&& r.popup == popup
            &&& r.title@ == " "@ + title@ + " "@
            &&& r.filter_line@ == line
            &&& r.cursor_col == if inner.width > 0 && inner.height > 0 && crate::text::byte_len(line) < inner.width {
                Some((inner.x + crate::text::byte_len(line)) as u16)
            } else {
                None
            }
            &&& r.separator == (inner.width > 0 && inner.height >= 2)
            &&& r.rows@.len() == shown
            &&& forall|k: int|
                0 <= k < shown ==> #[trigger] picker_row_v(r.rows@[k]) == picker_row(
                    items[first + k].1.label,
                    items[first + k].1.hint,
                    first + k == state.selected,
                    inner,
                )
        }),
{
    let items = state.filtered_items();
    let ghost iv = crate::overlay::filtered(crate::overlay::items_view(state.items@), state.filter@);
    proof {
        crate::overlay::law_popup_fits_width(screen, items@.len() as nat);
    }
    let popup = crate::overlay::popup_area_of(screen, items.len());
    proof {
        assert(popup.x < 0xffff && popup.y < 0xffff);
    }
    let inner = inner_of(popup);
    let mut t = owned(" ");
    push_str(&mut t, title);
    push_str(&mut t, " ");
    let mut line = owned("> ");
    push_str(&mut line, state.filter.as_str());
    let mut rows: Vec<PickerRow> = Vec::new();
    if inner.width == 0 || inner.height == 0 {
        return PickerScreen { popup, title: t, filter_line: line, cursor_col: None, separator: false, rows };
    }
    let lb = crate::text::str_len(line.as_str());
    let cursor_col = if lb < inner.width as usize { Some(inner.x + lb as u16) } else { None };
    let separator = inner.height >= 2;
    let visible = (inner.height as usize) - if inner.height >= 2 { 2 } else { inner.height as usize };
    let first = if state.selected >= visible { state.selected - visible + 1 } else { 0 };
    let end = if first >= items.len() {
        first
    } else if first + visible < items.len() {
        first + visible
    } else {
        items.len()
    };
    let mut i = first;
    while i < end
        invariant
            first <= i <= end,
            end <= items@.len() || end == first,
            pairs_view_eq(items@, iv),
            inner == inner_spec(popup),
            inner.x + inner.width <= 0xffff,
            rows@.len() == i - first,
            forall|k: int|
                0 <= k < i - first ==> #[trigger] picker_row_v(rows@[k]) == picker_row(
                    iv[first + k].1.label,
                    iv[first + k].1.hint,
                    first + k == state.selected,
                    inner,
                ),
        decreases end - i,
    {
        let item = items[i].1;
        let hl = i == state.selected;
        let mut text = if hl { owned(" \u{25b8} ") } else { owned("   ") };
        push_str(&mut text, item.label.as_str());
        let tb = crate::text::str_len(text.as_str());
        let hint = hint_shown(item.hint.as_str(), tb, inner);
        rows.push(PickerRow { text, highlighted: hl, hint });
        proof {
            assert(iv[i as int] == (items@[i as int].0, items@[i as int].1@));
            assert forall|k: int| 0 <= k < i + 1 - first implies #[trigger] picker_row_v(rows@[k]) == picker_row(
                iv[first + k].1.label,
                iv[first + k].1.hint,
                first + k == state.selected,
                inner,
            ) by {
                if k < i - first {
                    assert(rows@[k] == rows@.drop_last()[k]);
                }
            }
        }
        i = i + 1;
    }
    PickerScreen { popup, title: t, filter_line: line, cursor_col, separator, rows }
}

/// Whether `v` is the filtered list `iv`.
pub open spec fn pairs_view_eq(v: Seq<(usize, &crate::overlay::OverlayItem)>, iv: Seq<(usize, crate::overlay::ItemView)>) -> bool {
    crate::overlay::pairs_view(v) == iv
}

// ---------------------------------------------------------------------------
// The plugin browser
// ---------------------------------------------------------------------------

/// How many of the plugins are enabled.
pub open spec fn enabled_count(ps: Seq<crate::plugins::PluginInfo>) -> nat
    decreases ps.len(),
{
    if ps.len() == 0 {
        0
    } else {
        enabled_count(ps.drop_last()) + if ps.last().enabled { 1nat } else { 0nat }
    }
}

/// The ink of a plugin's status mark: enabled, installed only, or neither.
pub open spec fn mark_ink(p: crate::plugins::PluginInfo) -> Ink {
    if p.enabled {
        Ink::Done
    } else if p.installed {
        Ink::Running
    } else {
        Ink::Muted
    }
}

/// The row of a plugin: its status mark, its name, `[MCP]` for a server,
/// and its description after a dash.
pub open spec fn plugin_row(p: crate::plugins::PluginInfo) -> Seq<RunV> {
    let head = seq![
        (" "@ + crate::plugins::status_mark(p.installed, p.enabled) + " "@, mark_ink(p)),
        (p.name@, Ink::Label),
    ];
    let tag: Seq<RunV> = if p.is_mcp { seq![(" [MCP]"@, Ink::Detail)] } else { seq![] };
    head + tag + seq![(" \u{2014} "@, Ink::Muted), (p.description@, Ink::Muted)]
}

/// The plugin browser's popup: 80% of the screen, at least 50 by 10,
/// leaving a margin of 4 columns and 2 rows.
pub open spec fn browser_popup(screen: Area) -> Area {
    centered_spec(screen, share(screen.width as nat, 80, 50, 4), share(screen.height as nat, 80, 10, 2))
}

/// The plugin browser as shown.
#[derive(Debug)]
pub struct BrowserScreen {
    pub popup: Area,
    pub title: String,
    pub hint: String,
    pub rows: Vec<PanelRow>,
}

/// The number of enabled plugins.
fn count_enabled(ps: &Vec<crate::plugins::PluginInfo>) -> (n: usize)
    ensures
        n == enabled_count(ps@),
{
    let mut n: usize = 0;
    let mut i: usize = 0;
    while i < ps.len()
        invariant
            i <= ps@.len(),
            n == enabled_count(ps@.take(i as int)),
            n <= i,
        decreases ps.len() - i,
    {
        proof {
            assert(ps@.take(i + 1).drop_last() =~= ps@.take(i as int));
        }
        if ps[i].enabled {
            n = n + 1;
        }
        i = i + 1;
    }
    proof {
        assert(ps@.take(ps@.len() as int) =~= ps@);
    }
    n
}

/// The runs of a plugin's row.
fn plugin_runs(p: &crate::plugins::PluginInfo) -> (r: Vec<Run>)
    ensures
        runs_v(r@) == plugin_row(*p),
{
    let mut mark = owned(" ");
    push_str(&mut mark, p.status_icon());
    push_str(&mut mark, " ");
    let ink = if p.enabled {
        Ink::Done
    } else if p.installed {
        Ink::Running
    } else {
        Ink::Muted
    };
    let mut rs: Vec<Run> = Vec::new();
    rs.push(Run { text: mark, ink });
    rs.push(run(p.name.as_str(), Ink::Label));
    if p.is_mcp {
        rs.push(run(" [MCP]", Ink::Detail));
    }
    rs.push(run(" \u{2014} ", Ink::Muted));
    rs.push(run(p.description.as_str(), Ink::Muted));
    proof {
        assert(runs_v(rs@) =~= plugin_row(*p));
    }
    rs
}

/// The plugin browser over `plugins` with the cursor on `cursor`: the
/// popup (see `browser_popup`), the title with the counts, the key hint,
/// and the rows in view, scrolled so that the cursor shows (see
/// `first_row` and `plugin_row`), the one at the cursor highlighted.
pub fn browser_screen(plugins: &Vec<crate::plugins::PluginInfo>, cursor: usize, screen: Area) -> (r: BrowserScreen)
    requires
        screen_ok(screen, 80, 80),
    ensures
        ({
            let inner = inner_spec(browser_popup(screen));
            let visible = inner.height as nat;
            let first = first_row(cursor as nat, visible);
            let shown: nat = if inner.width == 0 || inner.height == 0 || first >= plugins@.len() {
                0
            } else if first + visible < plugins@.len() {
                visible
            } else {
                (plugins@.len() - first) as nat
            };
            &&& r.popup == browser_popup(screen)
            &&& r.title@ == " Plugins ("@ + decimal(plugins@.len()) + " available, "@ + decimal(enabled_count(plugins@))
                + " enabled) "@
            &&& r.hint@ == " Enter:readme  Space:toggle  i:install  u:uninstall  Esc:close "@
            &&& r.rows@.len() == shown
            &&& forall|k: int|
                0 <= k < shown ==> #[trigger] row_v(r.rows@[k]) == (plugin_row(plugins@[first + k]), first + k == cursor)
        }),
{
    let w = share_of(screen.width, 80, 50, 4);
    let h = share_of(screen.height, 80, 10, 2);
    let popup = centered(screen, w, h);
    proof {
        assert(popup.x < 0xffff && popup.y < 0xffff) by {
            assert(w <= screen.width || w <= 50);
        }
    }
    let inner = inner_of(popup);
    let mut title = owned(" Plugins (");
    push_decimal(&mut title, plugins.len() as u64);
    push_str(&mut title, " available, ");
    push_decimal(&mut title, count_enabled(plugins) as u64);
    push_str(&mut title, " enabled) ");
    let hint = owned(" Enter:readme  Space:toggle  i:install  u:uninstall  Esc:close ");
    let mut rows: Vec<PanelRow> = Vec::new();
    if inner.width == 0 || inner.height == 0 {
        return BrowserScreen { popup, title, hint, rows };
    }
    let visible = inner.height as usize;
    let first = if cursor >= visible { cursor - visible + 1 } else { 0 };
    let end = if first >= plugins.len() {
        first
    } else if visible < plugins.len() - first {
        first + visible
    } else {
        plugins.len()
    };
    let mut i = first;
    while i < end
        invariant
            first <= i <= end,
            end <= plugins@.len() || end == first,
            rows@.len() == i - first,
            forall|k: int|
                0 <= k < i - first ==> #[trigger] row_v(rows@[k]) == (plugin_row(plugins@[first + k]), first + k == cursor),
        decreases end - i,
    {
        let runs = plugin_runs(&plugins[i]);
        rows.push(PanelRow { runs, highlighted: i == cursor });
        proof {
            assert forall|k: int| 0 <= k < i + 1 - first implies #[trigger] row_v(rows@[k]) == (
                plugin_row(plugins@[first + k]),
                first + k == cursor,
            ) by {
                if k < i - first {
                    assert(rows@[k] == rows@.drop_last()[k]);
                }
            }
        }
        i = i + 1;
    }
    BrowserScreen { popup, title, hint, rows }
}

// ---------------------------------------------------------------------------
// The history search
// ---------------------------------------------------------------------------

/// The first line of an entry (empty for an empty entry).
pub open spec fn first_line(e: Seq<char>) -> Seq<char> {
    let ls = crate::text::lines_of(e);
    if ls.len() > 0 { ls[0] } else { seq![] }
}

/// The row of a history entry: the marker, its first line, and ` ...` when
/// it has more than one line.
pub open spec fn entry_text(e: Seq<char>, highlighted: bool) -> Seq<char> {
    (if highlighted { " \u{25b8} "@ } else { "   "@ }) + first_line(e) + if crate::text::contains(e, "\n"@) {
        " ..."@
    } else {
        seq![]
    }
}

/// The history search's popup: 60% of the screen wide (at least 30,
/// leaving 4 columns), 16 rows high (leaving 2).
pub open spec fn search_popup(screen: Area) -> Area {
    let height: nat = if 16 < screen.height - 2 { 16 } else if screen.height >= 2 {
        (screen.height - 2) as nat
    } else {
        0
    };
    centered_spec(screen, share(screen.width as nat, 60, 30, 4), height)
}

/// The history search as shown.
#[derive(Debug)]
pub struct SearchScreen {
    pub popup: Area,
    pub title: String,
    pub hint: String,
    pub rows: Vec<PanelRow>,
}

/// The row of an entry.
fn entry_row(e: &str, highlighted: bool) -> (r: PanelRow)
    ensures
        row_v(r) == (seq![(entry_text(e@, highlighted), Ink::Label)], highlighted),
{
    let mut t = if highlighted { owned(" \u{25b8} ") } else { owned("   ") };
    let ls = crate::text::split_lines(e);
    if ls.len() > 0 {
        push_str(&mut t, ls[0]);
    }
    let multi = crate::text::contains_str(e, "\n");
    if multi {
        push_str(&mut t, " ...");
    }
    let mut runs: Vec<Run> = Vec::new();
    runs.push(Run { text: t, ink: Ink::Label });
    proof {
        if ls@.len() > 0 {
            assert(crate::text::strs_view(ls@)[0] == ls@[0]@);
        }
        assert(runs_v(runs@) =~= seq![(entry_text(e@, highlighted), Ink::Label)]);
    }
    PanelRow { runs, highlighted }
}

/// The history search over `s` on the screen: the popup (see
/// `search_popup`), the title with the query (or an invitation to type),
/// the count of matches, and the matches in view, scrolled so that the
/// selected one shows (see `first_row` and `entry_text`).
pub fn search_screen(s: &crate::panels::HistorySearch, screen: Area) -> (r: SearchScreen)
    requires
        screen_ok(screen, 60, 1),
    ensures
        ({
            let inner = inner_spec(search_popup(screen));
            let visible = inner.height as nat;
            let first = first_row(s.selected as nat, visible);
            let count = s.matches@.len();
            let shown: nat = if inner.width == 0 || inner.height == 0 || first >= count {
                0
            } else if first + visible < count {
                visible
            } else {
                (count - first) as nat
            };
            &&& r.popup == search_popup(screen)
            &&& r.title@ == " History Search: "@ + (if s.query@.len() == 0 { "(type to filter)"@ } else { s.query@ })
                + " "@
            &&& r.hint@ == " "@ + decimal(count) + " matches | Enter to select | Esc to cancel "@
            &&& r.rows@.len() == shown
            &&& forall|k: int|
                0 <= k < shown ==> #[trigger] row_v(r.rows@[k]) == (
                    seq![(entry_text(s.matches@[first + k]@, first + k == s.selected), Ink::Label)],
                    first + k == s.selected,
                )
        }),
{
    let w = share_of(screen.width, 60, 30, 4);
    let room = screen.height.saturating_sub(2);
    let h = if 16 < room { 16 } else { room };
    let popup = centered(screen, w, h);
    proof {
        assert(popup.x < 0xffff && popup.y < 0xffff) by {
            assert(w <= screen.width || w <= 30);
        }
        assert(popup == search_popup(screen));
    }
    let inner = inner_of(popup);
    let mut title = owned(" History Search: ");
    if s.query.as_str().is_empty() {
        push_str(&mut title, "(type to filter)");
    } else {
        push_str(&mut title, s.query.as_str());
    }
    push_str(&mut title, " ");
    let mut hint = owned(" ");
    push_decimal(&mut hint, s.matches.len() as u64);
    push_str(&mut hint, " matches | Enter to select | Esc to cancel ");
    let mut rows: Vec<PanelRow> = Vec::new();
    if inner.width == 0 || inner.height == 0 {
        return SearchScreen { popup, title, hint, rows };
    }
    let visible = inner.height as usize;
    let first = if s.selected >= visible { s.selected - visible + 1 } else { 0 };
    let count = s.matches.len();
    let end = if first >= count {
        first
    } else if visible < count - first {
        first + visible
    } else {
        count
    };
    let mut i = first;
    while i < end
        invariant
            first <= i <= end,
            end <= s.matches@.len() || end == first,
            rows@.len() == i - first,
            forall|k: int|
                0 <= k < i - first ==> #[trigger] row_v(rows@[k]) == (
                    seq![(entry_text(s.matches@[first + k]@, first + k == s.selected), Ink::Label)],
                    first + k == s.selected,
                ),
        decreases end - i,
    {
        let row = entry_row(s.matches[i].as_str(), i == s.selected);
        rows.push(row);
        proof {
            assert forall|k: int| 0 <= k < i + 1 - first implies #[trigger] row_v(rows@[k]) == (
                seq![(entry_text(s.matches@[first + k]@, first + k == s.selected), Ink::Label)],
                first + k == s.selected,
            ) by {
                if k < i - first {
                    assert(rows@[k] == rows@.drop_last()[k]);
                }
            }
        }
        i = i + 1;
    }
    SearchScreen { popup, title, hint, rows }
}

// ---------------------------------------------------------------------------
// The completion popup
// ---------------------------------------------------------------------------

/// The columns an entry of the completion popup asks for: marker, slash
/// and name, then two columns and the description where there is one
/// (lengths counted in bytes).
pub open spec fn entry_width(i: crate::completion::CompletionItem) -> nat {
    crate::text::byte_len(i.name@) + 5 + if i.description@.len() > 0 {
        2 + crate::text::byte_len(i.description@)
    } else {
        0
    }
}

/// The widest entry.
pub open spec fn widest(items: Seq<crate::completion::CompletionItem>) -> nat
    decreases items.len(),
{
    if items.len() == 0 {
        0
    } else {
        let w = widest(items.drop_last());
        let e = entry_width(items.last());
        if e > w { e } else { w }
    }
}

/// How many entries the popup shows at once: eight at most.
pub open spec fn completion_visible(count: nat) -> nat {
    if count < 8 { count } else { 8 }
}

/// The completion popup over the input box `input`: as wide as its widest
/// entry and the padding (at least 20, at most `max_width`), as high as
/// the entries in view and the borders, just above the input box.
pub open spec fn completion_popup(input: Area, items: Seq<crate::completion::CompletionItem>, max_width: nat) -> Area {
    let height = completion_visible(items.len()) + 2;
    let wanted = widest(items) + 4;
    let at_least: nat = if wanted > 20 { wanted } else { 20 };
    Area {
        x: (input.x + 1) as u16,
        y: (if input.y >= height { input.y - height } else { 0 }) as u16,
        width: (if at_least < max_width { at_least } else { max_width }) as u16,
        height: height as u16,
    }
}

/// The row of an entry: the marker, a slash and the name; then two columns
/// and the description where there is one and more than two columns are
/// left after the name within `width`.
pub open spec fn completion_row(name: Seq<char>, description: Seq<char>, highlighted: bool, width: nat) -> Seq<RunV> {
    let head = (if highlighted { " \u{25b8} "@ } else { "   "@ }) + "/"@ + name;
    if description.len() > 0 && head.len() + 2 < width {
        seq![(head, Ink::Label), ("  "@, Ink::Label), (description, Ink::Detail)]
    } else {
        seq![(head, Ink::Label)]
    }
}

/// The completion popup as shown.
#[derive(Debug)]
pub struct CompletionScreen {
    pub popup: Area,
    pub rows: Vec<PanelRow>,
}

/// The width the widest entry asks for.
fn widest_entry(items: &Vec<crate::completion::CompletionItem>) -> (w: usize)
    requires
        forall|i: int| 0 <= i < items@.len() ==> entry_width(#[trigger] items@[i]) <= 0xffff,
    ensures
        w == widest(items@),
        w <= 0xffff,
{
    let mut w: usize = 0;
    let mut i: usize = 0;
    while i < items.len()
        invariant
            i <= items@.len(),
            w == widest(items@.take(i as int)),
            w <= 0xffff,
            forall|j: int| 0 <= j < items@.len() ==> entry_width(#[trigger] items@[j]) <= 0xffff,
        decreases items.len() - i,
    {
        proof {
            assert(items@.take(i + 1).drop_last() =~= items@.take(i as int));
            assert(items@.take(i + 1).last() == items@[i as int]);
            assert(entry_width(items@[i as int]) <= 0xffff);
        }
        let it = &items[i];
        let nb = crate::text::str_len(it.name.as_str());
        let e = if it.description.as_str().is_empty() {
            nb + 5
        } else {
            nb + 7 + crate::text::str_len(it.description.as_str())
        };
        if e > w {
            w = e;
        }
        i = i + 1;
    }
    proof {
        assert(items@.take(items@.len() as int) =~= items@);
    }
    w
}

/// The row of an entry (see `completion_row`).
fn completion_runs(it: &crate::completion::CompletionItem, highlighted: bool, width: usize) -> (r: Vec<Run>)
    ensures
        runs_v(r@) == completion_row(it.name@, it.description@, highlighted, width as nat),
{
    let mut head = if highlighted { owned(" \u{25b8} /") } else { owned("   /") };
    push_str(&mut head, it.name.as_str());
    let n = chars_of(head.as_str()).len();
    let mut rs: Vec<Run> = Vec::new();
    let has_desc = !it.description.as_str().is_empty();
    if has_desc && n < width && width - n > 2 {
        rs.push(Run { text: head, ink: Ink::Label });
        rs.push(run("  ", Ink::Label));
        rs.push(run(it.description.as_str(), Ink::Detail));
    } else {
        rs.push(Run { text: head, ink: Ink::Label });
    }
    proof {
        reveal_strlit(" \u{25b8} /");
        reveal_strlit("   /");
        reveal_strlit(" \u{25b8} ");
        reveal_strlit("   ");
        reveal_strlit("/");
        assert(" \u{25b8} /"@ =~= " \u{25b8} "@ + "/"@);
        assert("   /"@ =~= "   "@ + "/"@);
        reveal_strlit("  ");
        assert(runs_v(rs@) =~= completion_row(it.name@, it.description@, highlighted, width as nat));
    }
    rs
}

/// The completion popup for `state` above the input box `input`, at most
/// `max_width` wide: where it sits (see `completion_popup`) and the rows of
/// the entries in view, scrolled so that the selected one shows (see
/// `first_row` and `completion_row`); `None` when there is no entry.
pub fn completion_screen(state: &crate::completion::CompletionState, input: Area, max_width: u16) -> (r: Option<CompletionScreen>)
    requires
        forall|i: int| 0 <= i < state.matches@.len() ==> entry_width(#[trigger] state.matches@[i]) <= 0xffff - 4,
        input.x < 0xfffe,
    ensures
        match r {
            None => state.matches@.len() == 0,
            Some(v) => {
                let items = state.matches@;
                let popup = completion_popup(input, items, max_width as nat);
                let inner = inner_spec(popup);
                let visible = completion_visible(items.len());
                let first = first_row(state.selected as nat, visible);
                let shown: nat = if inner.width == 0 || inner.height == 0 || first >= items.len() {
                    0
                } else if first + visible < items.len() {
                    visible
                } else {
                    (items.len() - first) as nat
                };
                &&& items.len() > 0
                &&& v.popup == popup
                &&& v.rows@.len() == shown
                &&& forall|k: int|
                    0 <= k < shown ==> #[trigger] row_v(v.rows@[k]) == (
                        completion_row(
                            items[first + k].name@,
                            items[first + k].description@,
                            first + k == state.selected,
                            inner.width as nat,
                        ),
                        first + k == state.selected,
                    )
            },
        },
{
    let items = &state.matches;
    let n = items.len();
    if n == 0 {
        return None;
    }
    proof {
        assert forall|i: int| 0 <= i < items@.len() implies entry_width(#[trigger] items@[i]) <= 0xffff by {}
    }
    let visible = if n < 8 { n } else { 8 };
    let height = (visible as u16) + 2;
    let wanted = widest_entry(items);
    proof {
        if wanted > 0 {
            lemma_widest_attained(items@);
        }
    }
    let wanted = wanted + 4;
    let at_least = if wanted > 20 { wanted } else { 20 };
    let width = if at_least < max_width as usize { at_least as u16 } else { max_width };
    let popup = Area { x: input.x + 1, y: input.y.saturating_sub(height), width, height };
    proof {
        assert(popup == completion_popup(input, items@, max_width as nat));
    }
    let inner = inner_of(popup);
    let mut rows: Vec<PanelRow> = Vec::new();
    if inner.width == 0 || inner.height == 0 {
        return Some(CompletionScreen { popup, rows });
    }
    let first = if state.selected >= visible { state.selected - visible + 1 } else { 0 };
    let end = if first >= n {
        first
    } else if visible < n - first {
        first + visible
    } else {
        n
    };
    let iw = inner.width as usize;
    let mut i = first;
    while i < end
        invariant
            first <= i <= end,
            end <= state.matches@.len() || end == first,
            items == &state.matches,
            iw == inner.width,
            rows@.len() == i - first,
            forall|k: int|
                0 <= k < i - first ==> #[trigger] row_v(rows@[k]) == (
                    completion_row(
                        state.matches@[first + k].name@,
                        state.matches@[first + k].description@,
                        first + k == state.selected,
                        inner.width as nat,
                    ),
                    first + k == state.selected,
                ),
        decreases end - i,
    {
        let runs = completion_runs(&items[i], i == state.selected, iw);
        rows.push(PanelRow { runs, highlighted: i == state.selected });
        proof {
            assert forall|k: int| 0 <= k < i + 1 - first implies #[trigger] row_v(rows@[k]) == (
                completion_row(
                    state.matches@[first + k].name@,
                    state.matches@[first + k].description@,
                    first + k == state.selected,
                    inner.width as nat,
                ),
                first + k == state.selected,
            ) by {
                if k < i - first {
                    assert(rows@[k] == rows@.drop_last()[k]);
                }
            }
        }
        i = i + 1;
    }
    Some(CompletionScreen { popup, rows })
}

/// The widest entry's width is that of one of the entries.
proof fn lemma_widest_attained(items: Seq<crate::completion::CompletionItem>)
    requires
        widest(items) > 0,
    ensures
        exists|i: int| 0 <= i < items.len() && entry_width(#[trigger] items[i]) == widest(items),
    decreases items.len(),
{
    let w = widest(items.drop_last());
    if entry_width(items.last()) > w {
        assert(entry_width(items[items.len() - 1]) == widest(items));
    } else {
        lemma_widest_attained(items.drop_last());
        let i = choose|i: int| 0 <= i < items.drop_last().len() && entry_width(#[trigger] items.drop_last()[i]) == w;
        assert(items[i] == items.drop_last()[i]);
    }
}

// ---------------------------------------------------------------------------
// The split pane
// ---------------------------------------------------------------------------

/// The ink of a diff line in the split pane: added and removed lines (not
/// the file headers), hunk headers, file headers, the rest.
pub open spec fn split_ink(l: Seq<char>) -> Ink {
    if starts_with(l, "+"@) && !starts_with(l, "+++"@) {
        Ink::Added
    } else if starts_with(l, "-"@) && !starts_with(l, "---"@) {
        Ink::Removed
    } else if starts_with(l, "@@"@) {
        Ink::HunkHeader
    } else if starts_with(l, "---"@) || starts_with(l, "+++"@) {
        Ink::Heading
    } else {
        Ink::Text
    }
}

/// The first line the split pane shows: the scroll position, but no
/// further than a full last screen.
pub open spec fn split_first(scroll: nat, count: nat, height: nat) -> nat {
    let last: nat = if count >= height { (count - height) as nat } else { 0 };
    if scroll < last { scroll } else { last }
}

/// The split pane's lines in view.
#[derive(Debug)]
pub struct SplitScreen {
    /// The index of the first line shown.
    pub first: usize,
    /// The lines shown, each in its ink.
    pub rows: Vec<Run>,
}

/// Whether `row` shows `line`, in its diff ink where `diff`.
pub open spec fn shows_line(row: Run, line: Seq<char>, diff: bool) -> bool {
    &&& row.text@ == line
    &&& row.ink == if diff { split_ink(line) } else { Ink::Text }
}

/// The lines and whether they are a diff.
pub open spec fn split_lines_of(c: crate::activity::SplitView) -> (Seq<Seq<char>>, bool) {
    match c {
        crate::activity::SplitView::FileContext(ls) => (ls, false),
        crate::activity::SplitView::FilePreview(_, ls) => (ls, false),
        crate::activity::SplitView::DiffView(ls) => (ls, true),
    }
}

/// The lines of the split pane in view for a pane `height` rows high,
/// scrolled to `scroll` (see `split_first`): diff lines in their inks (see
/// `split_ink`), other content as text.
pub fn split_screen(content: &crate::activity::SplitContent, scroll: usize, height: usize) -> (r: SplitScreen)
    ensures
        ({
            let (lines, diff) = split_lines_of(content@);
            let first = split_first(scroll as nat, lines.len(), height as nat);
            let shown: nat = if first + height < lines.len() { height as nat } else { (lines.len() - first) as nat };
            &&& r.first == first
            &&& r.rows@.len() == shown
            &&& forall|k: int| 0 <= k < shown ==> #[trigger] shows_line(r.rows@[k], lines[first + k], diff)
        }),
{
    let (lines, diff) = match content {
        crate::activity::SplitContent::FileContext(ls) => (ls, false),
        crate::activity::SplitContent::FilePreview(_, ls) => (ls, false),
        crate::activity::SplitContent::DiffView(ls) => (ls, true),
    };
    let ghost lv = lines@.map_values(|x: String| x@);
    proof {
        assert(split_lines_of(content@) == (lv, diff));
    }
    let n = lines.len();
    let last = n.saturating_sub(height);
    let first = if scroll < last { scroll } else { last };
    let end = if height < n - first { first + height } else { n };
    let mut rows: Vec<Run> = Vec::new();
    let mut i = first;
    while i < end
        invariant
            first <= i <= end <= lines@.len(),
            lv == lines@.map_values(|x: String| x@),
            rows@.len() == i - first,
            forall|k: int| 0 <= k < i - first ==> #[trigger] shows_line(rows@[k], lv[first + k], diff),
        decreases end - i,
    {
        let l = lines[i].as_str();
        let ink = if !diff {
            Ink::Text
        } else if str_starts_with(l, "+") && !str_starts_with(l, "+++") {
            Ink::Added
        } else if str_starts_with(l, "-") && !str_starts_with(l, "---") {
            Ink::Removed
        } else if str_starts_with(l, "@@") {
            Ink::HunkHeader
        } else if str_starts_with(l, "---") || str_starts_with(l, "+++") {
            Ink::Heading
        } else {
            Ink::Text
        };
        let r = run(l, ink);
        proof {
            assert(lv[i as int] == l@);
            assert(shows_line(r, lv[i as int], diff));
        }
        rows.push(r);
        proof {
            assert forall|k: int| 0 <= k < i + 1 - first implies #[trigger] shows_line(rows@[k], lv[first + k], diff) by {
                if k < i - first {
                    assert(rows@[k] == rows@.drop_last()[k]);
                } else {
                    assert(rows@[k] == r);
                }
            }
        }
        i = i + 1;
    }
    SplitScreen { first, rows }
}

// ---------------------------------------------------------------------------
// The main screen
// ---------------------------------------------------------------------------

/// The rows of the conversation pane on a screen `height` rows high: all
/// but the header (three rows, one once there are messages), the input box
/// and the status bar.
pub open spec fn chat_rows_spec(height: nat, has_messages: bool) -> nat {
    let used: nat = (if has_messages { 1nat } else { 3nat }) + 4;
    if height >= used { (height - used) as nat } else { 0 }
}

/// The rows of the conversation pane (see `chat_rows_spec`).
pub fn chat_rows(height: u16, has_messages: bool) -> (n: usize)
    ensures
        n == chat_rows_spec(height as nat, has_messages),
{
    let header: u16 = if has_messages { 1 } else { 3 };
    height.saturating_sub(header + 4) as usize
}

/// The rows of the input box's text on a screen `height` rows high: one
/// for an empty input, else its line count plus one (kept to 16 bits, as
/// the count is stored), but no more than a third of the screen, itself
/// kept between 3 and 10.
pub open spec fn input_rows_spec(content: Seq<char>, height: nat) -> nat {
    if content.len() == 0 {
        1
    } else {
        let cap: nat = if height / 3 < 3 {
            3
        } else if height / 3 > 10 {
            10
        } else {
            height / 3
        };
        let wanted: nat = ((lines_of(content).len() % 65536) + 1) % 65536;
        if cap < wanted {
            cap
        } else {
            wanted
        }
    }
}

/// The rows of the input box's text (see `input_rows_spec`).
pub fn input_rows(content: &str, height: u16) -> (n: u16)
    ensures
        n == input_rows_spec(content@, height as nat),
{
    if content.is_empty() {
        return 1;
    }
    let count = split_lines(content).len();
    let low = (count % 65536) as u16;
    let wanted: u16 = if low == 65535 {
        0
    } else {
        low + 1
    };
    let third = height / 3;
    let cap: u16 = if third < 3 {
        3
    } else if third > 10 {
        10
    } else {
        third
    };
    if cap < wanted {
        cap
    } else {
        wanted
    }
}

} // verus!
