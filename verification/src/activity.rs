//! What the agent did to files: the diff of a session's edits, and what the
//! split pane shows as tools run.
use vstd::prelude::*;

use crate::conversation::{BlockView, ContentBlock, Message, MessageView};
use crate::diff::{diff_lines, diff_spec, format_unified, ops_view, unified};
use crate::events::StreamEvent;
use crate::json::{as_str, as_str_spec, get, get_spec, opt_val, parse_json, spec_parse_json, JsonValue};
use crate::text::{decimal, line_count, lines_of, owned, push_char, push_decimal, push_str, split_lines, str_eq, strs_view};

verus! {

/// What the split pane shows.
#[derive(Debug, Clone)]
pub enum SplitContent {
    /// The files touched in the session.
    FileContext(Vec<String>),
    /// A file's lines under its name.
    FilePreview(String, Vec<String>),
    /// A unified diff.
    DiffView(Vec<String>),
}

/// The split pane content as plain values.
pub enum SplitView {
    FileContext(Seq<Seq<char>>),
    FilePreview(Seq<char>, Seq<Seq<char>>),
    DiffView(Seq<Seq<char>>),
}

/// Strings as plain values.
pub open spec fn strings_view(v: Seq<String>) -> Seq<Seq<char>> {
    v.map_values(|s: String| s@)
}

impl View for SplitContent {
    type V = SplitView;

    open spec fn view(&self) -> SplitView {
        match self {
            SplitContent::FileContext(v) => SplitView::FileContext(strings_view(v@)),
            SplitContent::FilePreview(p, v) => SplitView::FilePreview(p@, strings_view(v@)),
            SplitContent::DiffView(v) => SplitView::DiffView(strings_view(v@)),
        }
    }
}

/// A string member of a tool input, or `default`.
pub open spec fn str_or(v: JsonValue, key: Seq<char>, default: Seq<char>) -> Seq<char> {
    match as_str_spec(get_spec(v, key)) {
        Some(s) => s,
        None => default,
    }
}

/// The diff of one Edit tool input: headers naming the file, then the
/// unified diff of its old and new text, then a blank line; nothing when
/// both texts are empty or the input is not JSON.
pub open spec fn edit_section(j: Option<JsonValue>) -> Seq<char> {
    match j {
        Some(v) => {
            let p = str_or(v, "file_path"@, "unknown"@);
            let old = str_or(v, "old_string"@, seq![]);
            let new = str_or(v, "new_string"@, seq![]);
            if old.len() > 0 || new.len() > 0 {
                "--- "@ + p + "\n+++ "@ + p + "\n"@ + unified(diff_spec(lines_of(old), lines_of(new)))
                    + "\n"@
            } else {
                seq![]
            }
        },
        None => seq![],
    }
}

/// The note for one Write tool input: the file is new, with so many lines.
pub open spec fn write_section(j: Option<JsonValue>) -> Seq<char> {
    match j {
        Some(v) => {
            let p = str_or(v, "file_path"@, "unknown"@);
            let content = str_or(v, "content"@, seq![]);
            "+++ "@ + p + " (new file, "@ + decimal(lines_of(content).len()) + " lines)\n\n"@
        },
        None => seq![],
    }
}

/// What one block adds to the session diff.
pub open spec fn block_diff(b: BlockView) -> Seq<char> {
    match b {
        BlockView::ToolUse { name, input, .. } => if name == "Edit"@ {
            edit_section(spec_parse_json(input))
        } else if name == "Write"@ {
            write_section(spec_parse_json(input))
        } else {
            seq![]
        },
        _ => seq![],
    }
}

/// What a message's blocks add to the session diff.
pub open spec fn blocks_diff(bs: Seq<BlockView>) -> Seq<char>
    decreases bs.len(),
{
    if bs.len() == 0 {
        seq![]
    } else {
        blocks_diff(bs.drop_last()) + block_diff(bs.last())
    }
}

/// The diff of every file edit and write of a session, in order.
pub open spec fn session_diff(ms: Seq<MessageView>) -> Seq<char>
    decreases ms.len(),
{
    if ms.len() == 0 {
        seq![]
    } else {
        session_diff(ms.drop_last()) + blocks_diff(ms.last().content)
    }
}

/// The messages as plain values.
pub open spec fn messages_view(v: Seq<Message>) -> Seq<MessageView> {
    v.map_values(|m: Message| m@)
}

/// A string member, or `default`.
fn member_or(v: &JsonValue, key: &str, default: &str) -> (r: String)
    ensures
        r@ == str_or(*v, key@, default@),
{
    match as_str(get(v, key)) {
        Some(s) => owned(s),
        None => owned(default),
    }
}

/// What an Edit (`is_edit`) or Write tool input adds to the session diff,
/// given the parsed input (`None` when it is not JSON).
pub fn diff_section_of_value(is_edit: bool, json: Option<&JsonValue>) -> (r: String)
    ensures
        r@ == (if is_edit {
            edit_section(opt_val(json))
        } else {
            write_section(opt_val(json))
        }),
{
    let mut out = String::new();
    let v = match json {
        Some(v) => v,
        None => {
            return out;
        },
    };
    let p = member_or(v, "file_path", "unknown");
    if is_edit {
        let old_text = member_or(v, "old_string", "");
        let new_text = member_or(v, "new_string", "");
        proof {
            reveal_strlit("");
        }
        if old_text.as_str().is_empty() && new_text.as_str().is_empty() {
            return out;
        }
        push_str(&mut out, "--- ");
        push_str(&mut out, p.as_str());
        push_str(&mut out, "\n+++ ");
        push_str(&mut out, p.as_str());
        push_str(&mut out, "\n");
        let ops = diff_lines(old_text.as_str(), new_text.as_str());
        let u = format_unified(ops.as_slice());
        push_str(&mut out, u.as_str());
        push_str(&mut out, "\n");
    } else {
        let content = member_or(v, "content", "");
        proof {
            reveal_strlit("");
        }
        let n = line_count(content.as_str());
        push_str(&mut out, "+++ ");
        push_str(&mut out, p.as_str());
        push_str(&mut out, " (new file, ");
        push_decimal(&mut out, n as u64);
        push_str(&mut out, " lines)\n\n");
    }
    out
}

/// Appends what one block adds to the session diff.
fn push_block_diff(out: &mut String, b: &ContentBlock)
    ensures
        final(out)@ == old(out)@ + block_diff(b@),
{
    match b {
        ContentBlock::ToolUse { name, input, .. } => {
            let is_edit = str_eq(name.as_str(), "Edit");
            let is_write = str_eq(name.as_str(), "Write");
            if !is_edit && !is_write {
                proof {
                    assert(old(out)@ + block_diff(b@) =~= old(out)@);
                }
                return;
            }
            let json = parse_json(input.as_str());
            let section = match &json {
                Some(v) => diff_section_of_value(is_edit, Some(v)),
                None => diff_section_of_value(is_edit, None),
            };
            push_str(out, section.as_str());
            proof {
                assert(out@ =~= old(out)@ + block_diff(b@));
            }
        },
        _ => {
            proof {
                assert(old(out)@ + block_diff(b@) =~= old(out)@);
            }
        },
    }
}

/// The diff of every file edit and write in the messages, in order: what
/// the session-diff viewer shows (it shows nothing when this is empty).
pub fn session_diff_text(messages: &Vec<Message>) -> (r: String)
    ensures
        r@ == session_diff(messages_view(messages@)),
{
    let ghost ms = messages_view(messages@);
    let mut out = String::new();
    let mut i: usize = 0;
    while i < messages.len()
        invariant
            i <= messages.len(),
            ms == messages_view(messages@),
            out@ == session_diff(ms.take(i as int)),
        decreases messages.len() - i,
    {
        let blocks = &messages[i].content;
        let ghost bs = blocks@.map_values(|b: ContentBlock| b@);
        let ghost start = out@;
        let mut k: usize = 0;
        while k < blocks.len()
            invariant
                k <= blocks.len(),
                bs == blocks@.map_values(|b: ContentBlock| b@),
                out@ == start + blocks_diff(bs.take(k as int)),
            decreases blocks.len() - k,
        {
            proof {
                assert(bs.take(k + 1).drop_last() =~= bs.take(k as int));
                assert(bs.take(k + 1).last() == blocks@[k as int]@);
            }
            push_block_diff(&mut out, &blocks[k]);
            k = k + 1;
        }
        proof {
            assert(bs.take(blocks.len() as int) =~= bs);
            assert(ms.take(i + 1).drop_last() =~= ms.take(i as int));
            assert(ms.take(i + 1).last() == messages@[i as int]@);
            assert(messages@[i as int]@.content == bs);
        }
        i = i + 1;
    }
    proof {
        assert(ms.take(messages.len() as int) =~= ms);
    }
    out
}

// ---------------------------------------------------------------------------
// The split pane
// ---------------------------------------------------------------------------

/// The lines of a text.
pub fn lines_owned(s: &str) -> (r: Vec<String>)
    ensures
        strings_view(r@) == lines_of(s@),
{
    let parts = split_lines(s);
    let mut out: Vec<String> = Vec::new();
    let mut i: usize = 0;
    while i < parts.len()
        invariant
            i <= parts.len(),
            strs_view(parts@) == lines_of(s@),
            strings_view(out@) == strs_view(parts@).take(i as int),
        decreases parts.len() - i,
    {
        let ghost before = out@;
        out.push(owned(parts[i]));
        proof {
            assert(strings_view(out@) =~= strings_view(before).push(parts@[i as int]@));
            assert(strs_view(parts@).take(i + 1) =~= strs_view(parts@).take(i as int).push(
                parts@[i as int]@,
            ));
        }
        i = i + 1;
    }
    proof {
        assert(strs_view(parts@).take(parts@.len() as int) =~= strs_view(parts@));
    }
    out
}

/// What the pane shows when a message stops on a tool call whose input is
/// the JSON `j`: an Edit shows its diff, a Read its file while it loads, a
/// Write the file it writes; other tools change nothing.
pub open spec fn pane_for_tool(name: Seq<char>, j: Option<JsonValue>) -> Option<SplitView> {
    match j {
        Some(v) => {
            let p = str_or(v, "file_path"@, "unknown"@);
            if name == "Edit"@ {
                let old = str_or(v, "old_string"@, seq![]);
                let new = str_or(v, "new_string"@, seq![]);
                Some(
                    SplitView::DiffView(
                        seq!["--- "@ + p, "+++ "@ + p] + lines_of(
                            unified(diff_spec(lines_of(old), lines_of(new))),
                        ),
                    ),
                )
            } else if name == "Read"@ {
                Some(SplitView::FilePreview(p, seq!["Reading file..."@]))
            } else if name == "Write"@ {
                Some(SplitView::FilePreview(p, lines_of(str_or(v, "content"@, seq![]))))
            } else {
                None
            }
        },
        None => None,
    }
}

/// Whether a block is a Read tool call with this id.
pub open spec fn is_read_call(b: BlockView, id: Seq<char>) -> bool {
    match b {
        BlockView::ToolUse { id: bid, name, .. } => bid == id && name == "Read"@,
        _ => false,
    }
}

/// Whether some message has a Read tool call with this id.
pub open spec fn has_read_call(ms: Seq<MessageView>, id: Seq<char>) -> bool {
    exists|i: int, k: int|
        0 <= i < ms.len() && 0 <= k < ms[i].content.len() && is_read_call(#[trigger] ms[i].content[k], id)
}

/// The new pane content for an event, `None` to keep the current one. A
/// message that stops on a tool call shows that call (`pane_for_tool`); the
/// result of a Read call fills a file preview with the lines read.
pub open spec fn pane_after(ms: Seq<MessageView>, current: SplitView, event: crate::events::EventView) -> Option<SplitView> {
    match event {
        crate::events::EventView::MessageStop => if ms.len() > 0 && ms.last().content.len() > 0 {
            match ms.last().content.last() {
                BlockView::ToolUse { name, input, .. } => pane_for_tool(name, spec_parse_json(input)),
                _ => None,
            }
        } else {
            None
        },
        crate::events::EventView::ToolResult { tool_use_id, content, .. } => if has_read_call(ms, tool_use_id) {
            match current {
                SplitView::FilePreview(p, _) => Some(SplitView::FilePreview(p, lines_of(content))),
                _ => None,
            }
        } else {
            None
        },
        _ => None,
    }
}

/// The pane content for a tool call.
fn pane_for_call(name: &str, input: &str) -> (r: Option<SplitContent>)
    ensures
        match r {
            Some(c) => pane_for_tool(name@, spec_parse_json(input@)) == Some(c@),
            None => pane_for_tool(name@, spec_parse_json(input@)) is None,
        },
{
    let json = parse_json(input);
    match &json {
        Some(v) => pane_of_value(name, Some(v)),
        None => pane_of_value(name, None),
    }
}

/// The pane content for a call of the tool `name`, given its parsed input
/// (`None` when the input is not JSON).
pub fn pane_of_value(name: &str, json: Option<&JsonValue>) -> (r: Option<SplitContent>)
    ensures
        match r {
            Some(c) => pane_for_tool(name@, opt_val(json)) == Some(c@),
            None => pane_for_tool(name@, opt_val(json)) is None,
        },
{
    let v = match json {
        Some(v) => v,
        None => {
            return None;
        },
    };
    let p = member_or(v, "file_path", "unknown");
    if str_eq(name, "Edit") {
        let old_text = member_or(v, "old_string", "");
        let new_text = member_or(v, "new_string", "");
        proof {
            reveal_strlit("");
        }
        let mut lines: Vec<String> = Vec::new();
        let mut h1 = owned("--- ");
        push_str(&mut h1, p.as_str());
        let mut h2 = owned("+++ ");
        push_str(&mut h2, p.as_str());
        lines.push(h1);
        lines.push(h2);
        let ops = diff_lines(old_text.as_str(), new_text.as_str());
        let u = format_unified(ops.as_slice());
        let body = lines_owned(u.as_str());
        let ghost head = strings_view(lines@);
        let mut i: usize = 0;
        while i < body.len()
            invariant
                i <= body.len(),
                strings_view(lines@) == head + strings_view(body@).take(i as int),
            decreases body.len() - i,
        {
            let ghost before = lines@;
            lines.push(body[i].clone());
            proof {
                assert(strings_view(lines@) =~= strings_view(before).push(body@[i as int]@));
                assert(strings_view(body@).take(i + 1) =~= strings_view(body@).take(i as int).push(
                    body@[i as int]@,
                ));
            }
            i = i + 1;
        }
        proof {
            assert(strings_view(body@).take(body@.len() as int) =~= strings_view(body@));
            assert(strings_view(lines@) =~= seq!["--- "@ + p@, "+++ "@ + p@] + lines_of(
                unified(diff_spec(lines_of(old_text@), lines_of(new_text@))),
            ));
        }
        Some(SplitContent::DiffView(lines))
    } else if str_eq(name, "Read") {
        let mut lines: Vec<String> = Vec::new();
        lines.push(owned("Reading file..."));
        proof {
            assert(strings_view(lines@) =~= seq!["Reading file..."@]);
        }
        Some(SplitContent::FilePreview(p, lines))
    } else if str_eq(name, "Write") {
        let content = member_or(v, "content", "");
        proof {
            reveal_strlit("");
        }
        Some(SplitContent::FilePreview(p, lines_owned(content.as_str())))
    } else {
        None
    }
}

/// Whether some message has a Read tool call with this id.
fn find_read_call(messages: &Vec<Message>, id: &str) -> (r: bool)
    ensures
        r == has_read_call(messages_view(messages@), id@),
{
    let ghost ms = messages_view(messages@);
    let mut i: usize = 0;
    while i < messages.len()
        invariant
            i <= messages.len(),
            ms == messages_view(messages@),
            forall|a: int, k: int|
                0 <= a < i && 0 <= k < ms[a].content.len() ==> !is_read_call(#[trigger] ms[a].content[k], id@),
        decreases messages.len() - i,
    {
        let blocks = &messages[i].content;
        let mut k: usize = 0;
        while k < blocks.len()
            invariant
                k <= blocks.len(),
                i < messages.len(),
                ms == messages_view(messages@),
                *blocks == messages@[i as int].content,
                forall|j: int|
                    0 <= j < k ==> !is_read_call(#[trigger] ms[i as int].content[j], id@),
            decreases blocks.len() - k,
        {
            proof {
                assert(ms[i as int].content[k as int] == blocks@[k as int]@);
            }
            match &blocks[k] {
                ContentBlock::ToolUse { id: bid, name, .. } => {
                    if str_eq(bid.as_str(), id) && str_eq(name.as_str(), "Read") {
                        proof {
                            assert(is_read_call(ms[i as int].content[k as int], id@));
                        }
                        return true;
                    }
                },
                _ => {},
            }
            k = k + 1;
        }
        i = i + 1;
    }
    false
}

/// The new split pane content after `event`, given the messages before the
/// event is applied and what the pane shows now; `None` keeps it (a new
/// content also scrolls the pane back to the top).
pub fn split_content_after(messages: &Vec<Message>, current: &SplitContent, event: &StreamEvent) -> (r: Option<SplitContent>)
    ensures
        match r {
            Some(c) => pane_after(messages_view(messages@), current@, event@) == Some(c@),
            None => pane_after(messages_view(messages@), current@, event@) is None,
        },
{
    match event {
        StreamEvent::MessageStop => {
            let n = messages.len();
            if n == 0 {
                return None;
            }
            let blocks = &messages[n - 1].content;
            if blocks.len() == 0 {
                return None;
            }
            proof {
                assert(messages_view(messages@).last() == messages@[n - 1]@);
                assert(messages@[n - 1]@.content.last() == blocks@[blocks.len() - 1]@);
            }
            match &blocks[blocks.len() - 1] {
                ContentBlock::ToolUse { name, input, .. } => pane_for_call(name.as_str(), input.as_str()),
                _ => None,
            }
        },
        StreamEvent::ToolResult { tool_use_id, content, .. } => {
            if !find_read_call(messages, tool_use_id.as_str()) {
                return None;
            }
            match current {
                SplitContent::FilePreview(p, _) => Some(
                    SplitContent::FilePreview(p.clone(), lines_owned(content.as_str())),
                ),
                _ => None,
            }
        },
        _ => None,
    }
}

} // verus!
