//! The conversation as styled lines: role labels, wrapped text, tool calls
//! with their results, diffs and previews, thinking, and placeholders.
use vstd::prelude::*;

use crate::diff::{diff_lines, diff_spec, refs_view, visible_prefix, with_context, DiffOp, OpView};
use crate::json::{get, get_spec, opt_val, parse_json, spec_parse_json, JsonValue};
use crate::conversation::{BlockView, ContentBlock, Message, MessageView, Role};
use crate::markdown::{line_view, lines_view, MdSpan, MdStyle, SpanView};
use crate::menus::{shortenable, shortened};
use crate::pane::{
    char_cols, cols, extract_primary_arg, primary_arg, split_at_width, split_at_width_word_boundary,
    split_spec, width_of, word_split_spec,
};
use crate::text::{
    chars_of, decimal, lines_of, owned, push_char, push_decimal, push_str, split_lines, strs_view,
    trim_start,
};

verus! {

/// How a span of the conversation is drawn; the theme gives the colours.
#[derive(Debug, Clone, Copy, PartialEq, Eq, Structural)]
pub enum ChatTone {
    /// The default style (indentation).
    Plain,
    /// The user's role label.
    UserLabel,
    /// The assistant's role label.
    AssistantLabel,
    /// The user's text.
    UserText,
    /// The rule between messages.
    Separator,
    /// Text of the assistant's markdown.
    Markdown(MdStyle),
    /// A tool's name (accent, bold).
    ToolName,
    /// A failed tool's name, its mark and the error label (error, bold).
    Failure,
    /// Dimmed foreground: a tool's argument, unchanged diff lines, previews
    /// and tool output.
    Dim,
    /// Removed diff lines.
    Removed,
    /// Added diff lines.
    Added,
    /// Notes such as "... more lines" and the progress line (info, dim).
    Note,
    /// Output of a failed tool (error).
    ErrorText,
    /// The thinking header and media placeholders (info, dim, italic).
    Aside,
    /// Thinking text (dim, italic).
    ThinkingText,
}

/// A piece of the conversation with its tone.
#[derive(Debug, Clone)]
pub struct ChatSpan {
    pub text: String,
    pub tone: ChatTone,
}

/// A span as plain values.
pub type SpanV = (Seq<char>, ChatTone);

/// A line as plain values.
pub type LineV = Seq<SpanV>;

/// A line of spans as plain values.
pub open spec fn line_v(l: Seq<ChatSpan>) -> LineV {
    l.map_values(|s: ChatSpan| (s.text@, s.tone))
}

/// Lines as plain values.
pub open spec fn lines_v(ls: Seq<Vec<ChatSpan>>) -> Seq<LineV> {
    ls.map_values(|l: Vec<ChatSpan>| line_v(l@))
}

/// A span.
fn span(text: &str, tone: ChatTone) -> (s: ChatSpan)
    ensures
        s.text@ == text@,
        s.tone == tone,
{
    ChatSpan { text: owned(text), tone }
}

// ---------------------------------------------------------------------------
// Widths
// ---------------------------------------------------------------------------

/// Whether `s` fits in `budget` columns.
fn fits_within(s: &str, budget: usize) -> (r: bool)
    ensures
        r == (width_of(s@) <= budget),
{
    let v = chars_of(s);
    let mut w: usize = 0;
    let mut i: usize = 0;
    while i < v.len()
        invariant
            i <= v@.len(),
            v@ == s@,
            w == width_of(v@.take(i as int)),
            w <= budget,
        decreases v.len() - i,
    {
        proof {
            assert(v@.take(i + 1).drop_last() =~= v@.take(i as int));
        }
        let c = char_cols(v[i]);
        if c > budget - w {
            proof {
                crate::pane::lemma_width_prefix_le(v@, (i + 1) as int);
            }
            return false;
        }
        w = w + c;
        i = i + 1;
    }
    proof {
        assert(v@.take(v@.len() as int) =~= v@);
    }
    true
}

/// The width of a text known to fit in `budget` columns.
fn width_within(s: &str, budget: usize) -> (n: usize)
    requires
        width_of(s@) <= budget,
    ensures
        n == width_of(s@),
{
    let v = chars_of(s);
    let mut w: usize = 0;
    let mut i: usize = 0;
    while i < v.len()
        invariant
            i <= v@.len(),
            v@ == s@,
            w == width_of(v@.take(i as int)),
            width_of(v@) <= budget,
        decreases v.len() - i,
    {
        proof {
            assert(v@.take(i + 1).drop_last() =~= v@.take(i as int));
            crate::pane::lemma_width_prefix_le(v@, (i + 1) as int);
        }
        w = w + char_cols(v[i]);
        i = i + 1;
    }
    proof {
        assert(v@.take(v@.len() as int) =~= v@);
    }
    w
}

// ---------------------------------------------------------------------------
// Word wrapping
// ---------------------------------------------------------------------------

/// Wrapping in progress: the finished lines, the line being filled and
/// the columns it has used (the indent aside).
pub type WrapState = (Seq<LineV>, LineV, nat);

/// A new line: just the indent.
pub open spec fn fresh_line(indent: Seq<char>) -> LineV {
    seq![(indent, ChatTone::Plain)]
}

/// Wrap the text `rem` in `tone` onto lines of `avail` columns after the
/// indent: what fits joins the current line; otherwise the line breaks at
/// the last space that fits (the rest losing its leading whitespace), or,
/// when nothing fits, the line is finished and a new one takes as many
/// characters as fit, and is finished too.
pub open spec fn wrap_text(st: WrapState, rem: Seq<char>, tone: ChatTone, indent: Seq<char>, avail: nat) -> WrapState
    decreases rem.len(),
{
    if rem.len() == 0 {
        st
    } else if st.2 + width_of(rem) <= avail {
        (st.0, st.1.push((rem, tone)), st.2 + width_of(rem))
    } else {
        let budget = if st.2 <= avail {
            (avail - st.2) as nat
        } else {
            0
        };
        let (chunk, rest) = word_split_spec(rem, budget);
        if chunk.len() == 0 {
            let (forced, frest) = split_spec(rem, avail);
            let line = if forced.len() > 0 {
                fresh_line(indent).push((forced, tone))
            } else {
                fresh_line(indent)
            };
            let out = st.0.push(st.1).push(line);
            if frest.len() < rem.len() {
                wrap_text((out, fresh_line(indent), 0), frest, tone, indent, avail)
            } else {
                (out, fresh_line(indent), 0)
            }
        } else {
            let out = st.0.push(st.1.push((chunk, tone)));
            let r2 = trim_start(rest);
            if r2.len() < rem.len() {
                wrap_text((out, fresh_line(indent), 0), r2, tone, indent, avail)
            } else {
                (out, fresh_line(indent), 0)
            }
        }
    }
}

/// Wrap the spans one after another.
pub open spec fn wrap_all(st: WrapState, spans: Seq<SpanV>, indent: Seq<char>, avail: nat) -> WrapState
    decreases spans.len(),
{
    if spans.len() == 0 {
        st
    } else {
        wrap_all(wrap_text(st, spans[0].0, spans[0].1, indent, avail), spans.drop_first(), indent, avail)
    }
}

/// The lines that spans wrap to within `max_width` columns, each starting
/// with the indent; nothing when the indent leaves no room.
pub open spec fn wrapped(spans: Seq<SpanV>, indent: Seq<char>, max_width: nat) -> Seq<LineV> {
    if max_width <= width_of(indent) {
        seq![]
    } else {
        let avail = (max_width - width_of(indent)) as nat;
        let st = wrap_all((seq![], fresh_line(indent), 0), spans, indent, avail);
        if st.1.len() > 1 || st.2 > 0 {
            st.0.push(st.1)
        } else {
            st.0
        }
    }
}

/// Whether every character of the spans fits on a line of `avail`
/// columns; otherwise wrapping would never end.
pub open spec fn narrow_enough(spans: Seq<SpanV>, avail: nat) -> bool {
    forall|i: int, j: int| 0 <= i < spans.len() && 0 <= j < spans[i].0.len() ==> cols(#[trigger] spans[i].0[j]) <= avail
}

/// Whether the spans can be wrapped within `max_width` columns.
pub open spec fn wrappable(spans: Seq<SpanV>, indent: Seq<char>, max_width: nat) -> bool {
    max_width <= width_of(indent) || narrow_enough(spans, (max_width - width_of(indent)) as nat)
}

/// Every character of `s` fits on a line of `avail` columns.
pub open spec fn all_narrow(s: Seq<char>, avail: nat) -> bool {
    forall|j: int| 0 <= j < s.len() ==> cols(#[trigger] s[j]) <= avail
}

proof fn lemma_narrow_skip(s: Seq<char>, avail: nat, n: int)
    requires
        all_narrow(s, avail),
        0 <= n <= s.len(),
    ensures
        all_narrow(s.skip(n), avail),
{
    assert forall|j: int| 0 <= j < s.skip(n).len() implies cols(#[trigger] s.skip(n)[j]) <= avail by {
        assert(s.skip(n)[j] == s[j + n]);
    }
}

/// Trimming the start leaves a suffix.
proof fn lemma_trim_start_suffix(s: Seq<char>) -> (n: int)
    ensures
        0 <= n <= s.len(),
        trim_start(s) == s.skip(n),
    decreases s.len(),
{
    if s.len() > 0 && crate::text::is_ws(s[0]) {
        let m = lemma_trim_start_suffix(s.drop_first());
        assert(s.drop_first().skip(m) =~= s.skip(m + 1));
        m + 1
    } else {
        assert(s.skip(0) =~= s);
        0
    }
}

/// The word split of a narrow text: the rest is a suffix, and the chunk is
/// empty only when the whole text is the rest.
proof fn lemma_word_split(s: Seq<char>, budget: nat)
    requires
        s.len() > 0,
    ensures
        word_split_spec(s, budget).1.len() <= s.len(),
        word_split_spec(s, budget).0.len() == 0 ==> word_split_spec(s, budget).1 == s,
        word_split_spec(s, budget).0.len() > 0 ==> word_split_spec(s, budget).1.len() < s.len(),
        exists|n: int| 0 <= n <= s.len() && word_split_spec(s, budget).1 == s.skip(n),
{
    let k = crate::pane::fitting(s, budget, 0);
    crate::pane::lemma_fitting(s, budget, 0);
    if k >= s.len() {
        assert(s.skip(s.len() as int) =~= Seq::<char>::empty());
    } else {
        let sp = crate::pane::last_space_before(s, k);
        crate::pane::lemma_last_space(s, k);
        if sp > 0 {
            let m = lemma_trim_start_suffix(s.skip(sp));
            assert(s.skip(sp).skip(m) =~= s.skip(sp + m));
        } else if k == 0 {
            assert(s.skip(0) =~= s);
        }
    }
}

/// The forced split of a narrow text takes at least one character.
proof fn lemma_forced_split(s: Seq<char>, avail: nat)
    requires
        s.len() > 0,
        all_narrow(s, avail),
    ensures
        split_spec(s, avail).0.len() > 0,
        split_spec(s, avail).0.len() <= s.len(),
        split_spec(s, avail).1 == s.skip(split_spec(s, avail).0.len() as int),
        split_spec(s, avail).1.len() < s.len(),
{
    crate::pane::lemma_fitting(s, avail, 0);
    crate::pane::lemma_width_step(s, 0);
    assert(s.take(0) =~= Seq::<char>::empty());
    assert(cols(s[0]) <= avail);
    crate::pane::lemma_fitting(s, avail, 1);
}

/// Wrapping the spans from the `i`-th on continues with the `i`-th.
proof fn lemma_wrap_all_step(st: WrapState, spans: Seq<SpanV>, i: int, indent: Seq<char>, avail: nat)
    requires
        0 <= i < spans.len(),
    ensures
        wrap_all(st, spans.skip(i), indent, avail) == wrap_all(
            wrap_text(st, spans[i].0, spans[i].1, indent, avail),
            spans.skip(i + 1),
            indent,
            avail,
        ),
{
    assert(spans.skip(i)[0] == spans[i]);
    assert(spans.skip(i).drop_first() =~= spans.skip(i + 1));
}

/// A fresh line: just the indent.
fn fresh(indent: &str) -> (l: Vec<ChatSpan>)
    ensures
        line_v(l@) == fresh_line(indent@),
{
    let mut l: Vec<ChatSpan> = Vec::new();
    l.push(span(indent, ChatTone::Plain));
    proof {
        assert(line_v(l@) =~= fresh_line(indent@));
    }
    l
}

/// Word-wrap spans to `max_width` columns, each line starting with the
/// indent (see `wrapped`).
pub fn wrap_spans(spans: &Vec<ChatSpan>, indent: &str, max_width: usize) -> (r: Vec<Vec<ChatSpan>>)
    requires
        wrappable(line_v(spans@), indent@, max_width as nat),
    ensures
        lines_v(r@) == wrapped(line_v(spans@), indent@, max_width as nat),
{
    let ghost sv = line_v(spans@);
    if !fits_within(indent, max_width) {
        return Vec::new();
    }
    let iw = width_within(indent, max_width);
    if iw == max_width {
        return Vec::new();
    }
    let avail = max_width - iw;
    let ghost av = avail as nat;
    let ghost target = wrap_all((seq![], fresh_line(indent@), 0), sv, indent@, av);
    let mut out: Vec<Vec<ChatSpan>> = Vec::new();
    let mut cur = fresh(indent);
    let mut cur_w: usize = 0;
    let mut i: usize = 0;
    proof {
        assert(sv.skip(0) =~= sv);
        assert(lines_v(out@) =~= Seq::<LineV>::empty());
    }
    while i < spans.len()
        invariant
            i <= spans@.len(),
            sv == line_v(spans@),
            narrow_enough(sv, av),
            av == avail,
            cur_w <= avail,
            wrap_all((lines_v(out@), line_v(cur@), cur_w as nat), sv.skip(i as int), indent@, av) == target,
        decreases spans.len() - i,
    {
        proof {
            lemma_wrap_all_step((lines_v(out@), line_v(cur@), cur_w as nat), sv, i as int, indent@, av);
        }
        let tone = spans[i].tone;
        let mut rem: &str = spans[i].text.as_str();
        let ghost rest_spans = sv.skip(i + 1);
        proof {
            assert(sv[i as int] == (spans@[i as int].text@, tone));
            assert forall|j: int| 0 <= j < rem@.len() implies cols(#[trigger] rem@[j]) <= av by {
                assert(sv[i as int].0[j] == rem@[j]);
            }
        }
        while !rem.is_empty()
            invariant_except_break
                all_narrow(rem@, av),
                wrap_all(
                    wrap_text((lines_v(out@), line_v(cur@), cur_w as nat), rem@, tone, indent@, av),
                    rest_spans,
                    indent@,
                    av,
                ) == target,
            invariant
                cur_w <= avail,
                av == avail,
            ensures
                wrap_all((lines_v(out@), line_v(cur@), cur_w as nat), rest_spans, indent@, av) == target,
            decreases rem@.len(),
        {
            let budget = avail - cur_w;
            let ghost st = (lines_v(out@), line_v(cur@), cur_w as nat);
            if fits_within(rem, budget) {
                let w = width_within(rem, budget);
                let ghost before = line_v(cur@);
                cur.push(span(rem, tone));
                cur_w = cur_w + w;
                proof {
                    assert(line_v(cur@) =~= before.push((rem@, tone)));
                    assert(rem@.len() > 0);
                }
                break;
            }
            proof {
                lemma_word_split(rem@, budget as nat);
            }
            let (chunk, rest) = split_at_width_word_boundary(rem, budget);
            if chunk.is_empty() {
                proof {
                    lemma_forced_split(rem@, av);
                }
                let ghost full = line_v(cur@);
                out.push(cur);
                let (forced, frest) = split_at_width(rem, avail);
                cur = fresh(indent);
                let ghost f0 = line_v(cur@);
                cur.push(span(forced, tone));
                proof {
                    assert(line_v(cur@) =~= f0.push((forced@, tone)));
                    lemma_narrow_skip(rem@, av, forced@.len() as int);
                }
                let ghost done = line_v(cur@);
                out.push(cur);
                cur = fresh(indent);
                cur_w = 0;
                proof {
                    assert(lines_v(out@) =~= st.0.push(full).push(done));
                    assert(line_v(cur@) == fresh_line(indent@));
                    assert(wrap_text(st, rem@, tone, indent@, av) == wrap_text(
                        (lines_v(out@), line_v(cur@), 0nat),
                        frest@,
                        tone,
                        indent@,
                        av,
                    ));
                }
                rem = frest;
            } else {
                let ghost before = line_v(cur@);
                cur.push(span(chunk, tone));
                proof {
                    assert(line_v(cur@) =~= before.push((chunk@, tone)));
                }
                let ghost done = line_v(cur@);
                out.push(cur);
                cur = fresh(indent);
                cur_w = 0;
                let r2 = crate::pane::trim_start_slice(rest);
                proof {
                    assert(lines_v(out@) =~= st.0.push(done));
                    let n = choose|n: int| 0 <= n <= rem@.len() && word_split_spec(rem@, budget as nat).1 == rem@.skip(n);
                    lemma_narrow_skip(rem@, av, n);
                    let m = lemma_trim_start_suffix(rest@);
                    lemma_narrow_skip(rest@, av, m);
                    assert(r2@.len() <= rest@.len());
                    assert(line_v(cur@) == fresh_line(indent@));
                    assert(wrap_text(st, rem@, tone, indent@, av) == wrap_text(
                        (lines_v(out@), line_v(cur@), 0nat),
                        r2@,
                        tone,
                        indent@,
                        av,
                    ));
                }
                rem = r2;
            }
        }
        i = i + 1;
    }
    proof {
        assert(sv.skip(sv.len() as int) =~= Seq::<SpanV>::empty());
    }
    if cur.len() > 1 || cur_w > 0 {
        out.push(cur);
    }
    proof {
        assert(lines_v(out@) == wrapped(sv, indent@, max_width as nat));
    }
    out
}

// ---------------------------------------------------------------------------
// Blocks
// ---------------------------------------------------------------------------

/// One line of one span.
pub open spec fn single(text: Seq<char>, tone: ChatTone) -> LineV {
    seq![(text, tone)]
}

/// Lines indented by four spaces, at most `limit` of them, with a note of
/// how many more there are.
pub open spec fn capped(ls: Seq<Seq<char>>, limit: nat, tone: ChatTone) -> Seq<LineV> {
    let shown = if ls.len() > limit {
        ls.take(limit as int)
    } else {
        ls
    };
    shown.map_values(|l: Seq<char>| single("    "@ + l, tone)) + if ls.len() > limit {
        seq![single("    ... "@ + decimal((ls.len() - limit) as nat) + " more lines"@, ChatTone::Note)]
    } else {
        seq![]
    }
}

/// Lines indented by four spaces.
pub open spec fn indented(ls: Seq<Seq<char>>, tone: ChatTone) -> Seq<LineV> {
    ls.map_values(|l: Seq<char>| single("    "@ + l, tone))
}

/// One line of one span.
fn single_line(text: String, tone: ChatTone) -> (l: Vec<ChatSpan>)
    ensures
        line_v(l@) == single(text@, tone),
{
    let mut l: Vec<ChatSpan> = Vec::new();
    l.push(ChatSpan { text, tone });
    proof {
        assert(line_v(l@) =~= single(text@, tone));
    }
    l
}

/// `prefix` followed by `s`.
fn prefixed(prefix: &str, s: &str) -> (r: String)
    ensures
        r@ == prefix@ + s@,
{
    let mut t = owned(prefix);
    push_str(&mut t, s);
    t
}

/// Append the lines indented by four spaces, at most `limit` of them (all
/// of them without a limit), with a note of how many more there are.
fn push_indented(out: &mut Vec<Vec<ChatSpan>>, ls: &Vec<&str>, limit: Option<usize>, tone: ChatTone)
    ensures
        lines_v(final(out)@) == lines_v(old(out)@) + match limit {
            Some(n) => capped(strs_view(ls@), n as nat, tone),
            None => indented(strs_view(ls@), tone),
        },
{
    let ghost base = lines_v(out@);
    let ghost lv = strs_view(ls@);
    let n = match limit {
        Some(m) => if ls.len() > m {
            m
        } else {
            ls.len()
        },
        None => ls.len(),
    };
    let mut i: usize = 0;
    while i < n
        invariant
            i <= n <= ls@.len(),
            lv == strs_view(ls@),
            lines_v(out@) == base + lv.take(i as int).map_values(|l: Seq<char>| single("    "@ + l, tone)),
        decreases n - i,
    {
        let ghost before = lines_v(out@);
        let l = single_line(prefixed("    ", ls[i]), tone);
        out.push(l);
        proof {
            assert(lv[i as int] == ls@[i as int]@);
            assert(lines_v(out@) =~= before.push(single("    "@ + lv[i as int], tone)));
            assert(lv.take(i + 1).map_values(|l: Seq<char>| single("    "@ + l, tone)) =~= lv.take(
                i as int,
            ).map_values(|l: Seq<char>| single("    "@ + l, tone)).push(single("    "@ + lv[i as int], tone)));
        }
        i = i + 1;
    }
    let ghost shown = lines_v(out@);
    let ghost mut note: Seq<char> = Seq::empty();
    if let Some(m) = limit {
        if ls.len() > m {
            let mut t = owned("    ... ");
            push_decimal(&mut t, (ls.len() - m) as u64);
            push_str(&mut t, " more lines");
            proof {
                note = t@;
            }
            out.push(single_line(t, ChatTone::Note));
        }
    }
    proof {
        match limit {
            Some(m) => {
                if lv.len() > m {
                    assert(note == "    ... "@ + decimal((lv.len() - m) as nat) + " more lines"@);
                    assert(lines_v(out@) =~= shown.push(single(note, ChatTone::Note)));
                } else {
                    assert(lv.take(n as int) =~= lv);
                    assert(lines_v(out@) == shown);
                }
                assert(lines_v(out@) =~= base + capped(lv, m as nat, tone));
            },
            None => {
                assert(lv.take(n as int) =~= lv);
                assert(lines_v(out@) =~= base + indented(lv, tone));
            },
        }
    }
}

/// What a tool call is shown with: its main argument, or nothing.
pub open spec fn tool_arg(name: Seq<char>, input: Seq<char>) -> Seq<char> {
    match primary_arg(name, spec_parse_json(input)) {
        Some(a) => a,
        None => Seq::empty(),
    }
}

/// Whether the argument of a tool call can be cut where its header needs
/// (a character boundary at byte 57 when it is longer than 60 bytes).
pub open spec fn header_cuttable(name: Seq<char>, input: Seq<char>) -> bool {
    shortenable(tool_arg(name, input), 60, 57)
}

/// The header line of a tool call: `  > name`, then `: argument` (cut to
/// 57 bytes and "..." beyond 60), then a mark when the call failed.
pub open spec fn tool_header(name: Seq<char>, input: Seq<char>, failed: bool) -> LineV {
    let arg = shortened(tool_arg(name, input), 60, 57);
    seq![
        (
            "  > "@ + name,
            if failed {
                ChatTone::Failure
            } else {
                ChatTone::ToolName
            },
        ),
    ] + (if arg.len() > 0 {
        seq![(": "@ + arg, ChatTone::Dim)]
    } else {
        seq![]
    }) + (if failed {
        seq![(" ✗"@, ChatTone::Failure)]
    } else {
        seq![]
    })
}

/// A string member of a JSON object, or empty.
pub open spec fn str_member(v: JsonValue, key: Seq<char>) -> Seq<char> {
    match get_spec(v, key) {
        Some(JsonValue::Str(s)) => s@,
        _ => Seq::empty(),
    }
}

/// The line of one diff step.
pub open spec fn op_line(op: OpView) -> LineV {
    match op {
        OpView::Equal(l) => single("      "@ + l, ChatTone::Dim),
        OpView::Remove(l) => single("    - "@ + l, ChatTone::Removed),
        OpView::Add(l) => single("    + "@ + l, ChatTone::Added),
    }
}

/// The diff an Edit call shows: the steps from `old_string` to
/// `new_string` within two steps of a change, at most twenty, with a note
/// of how many more there are.
pub open spec fn edit_preview(input: Seq<char>) -> Seq<LineV> {
    edit_preview_of(spec_parse_json(input))
}

/// The diff lines an Edit call shows, given its parsed input (`None` when
/// it is not JSON).
pub open spec fn edit_preview_of(j: Option<JsonValue>) -> Seq<LineV> {
    match j {
        Some(v) => {
            let old = str_member(v, "old_string"@);
            let new = str_member(v, "new_string"@);
            if old.len() == 0 && new.len() == 0 {
                seq![]
            } else {
                let ops = diff_spec(lines_of(old), lines_of(new));
                let vis = visible_prefix(ops, 2, ops.len() as int);
                let shown = if vis.len() > 20 {
                    vis.take(20)
                } else {
                    vis
                };
                shown.map_values(|o: OpView| op_line(o)) + if vis.len() > 20 {
                    seq![single("    ... "@ + decimal((vis.len() - 20) as nat) + " more diff lines"@, ChatTone::Note)]
                } else {
                    seq![]
                }
            }
        },
        None => seq![],
    }
}

/// The preview a Write call shows: the first ten lines of its content,
/// with a note of how many more there are.
pub open spec fn write_preview(input: Seq<char>) -> Seq<LineV> {
    write_preview_of(spec_parse_json(input))
}

/// The lines a Write call shows, given its parsed input (`None` when it is
/// not JSON).
pub open spec fn write_preview_of(j: Option<JsonValue>) -> Seq<LineV> {
    match j {
        Some(v) => {
            let c = str_member(v, "content"@);
            if c.len() == 0 {
                seq![]
            } else {
                capped(lines_of(c), 10, ChatTone::Dim)
            }
        },
        None => seq![],
    }
}

/// A string member of a value, or empty.
fn str_member_of(v: &JsonValue, key: &str) -> (r: String)
    ensures
        r@ == str_member(*v, key@),
{
    match get(v, key) {
        Some(JsonValue::Str(s)) => owned(s.as_str()),
        _ => String::new(),
    }
}

/// The line of one diff step.
fn op_line_of(op: &DiffOp) -> (l: Vec<ChatSpan>)
    ensures
        line_v(l@) == op_line(op@),
{
    match op {
        DiffOp::Equal(t) => single_line(prefixed("      ", t), ChatTone::Dim),
        DiffOp::Remove(t) => single_line(prefixed("    - ", t), ChatTone::Removed),
        DiffOp::Add(t) => single_line(prefixed("    + ", t), ChatTone::Added),
    }
}

/// The diff an Edit call shows (see `edit_preview`).
pub fn edit_preview_lines(input: &str) -> (r: Vec<Vec<ChatSpan>>)
    ensures
        lines_v(r@) == edit_preview(input@),
{
    let json = parse_json(input);
    match &json {
        Some(v) => edit_preview_of_value(Some(v)),
        None => edit_preview_of_value(None),
    }
}

/// The diff an Edit call shows, given its parsed input (see
/// `edit_preview_of`).
pub fn edit_preview_of_value(json: Option<&JsonValue>) -> (r: Vec<Vec<ChatSpan>>)
    ensures
        lines_v(r@) == edit_preview_of(opt_val(json)),
{
    let mut out: Vec<Vec<ChatSpan>> = Vec::new();
    let v = match json {
        Some(v) => v,
        None => {
            proof {
                assert(lines_v(out@) =~= Seq::<LineV>::empty());
            }
            return out;
        },
    };
    let old = str_member_of(v, "old_string");
    let new = str_member_of(v, "new_string");
    if old.as_str().is_empty() && new.as_str().is_empty() {
        proof {
            assert(lines_v(out@) =~= Seq::<LineV>::empty());
        }
        return out;
    }
    let ops = diff_lines(old.as_str(), new.as_str());
    let vis = with_context(ops.as_slice(), 2);
    let ghost vv = refs_view(vis@);
    let n = if vis.len() > 20 {
        20
    } else {
        vis.len()
    };
    let mut i: usize = 0;
    while i < n
        invariant
            i <= n <= vis@.len(),
            vv == refs_view(vis@),
            lines_v(out@) == vv.take(i as int).map_values(|o: OpView| op_line(o)),
        decreases n - i,
    {
        let ghost before = lines_v(out@);
        out.push(op_line_of(vis[i]));
        proof {
            assert(vv[i as int] == vis@[i as int]@);
            assert(lines_v(out@) =~= before.push(op_line(vv[i as int])));
            assert(vv.take(i + 1).map_values(|o: OpView| op_line(o)) =~= vv.take(i as int).map_values(
                |o: OpView| op_line(o),
            ).push(op_line(vv[i as int])));
        }
        i = i + 1;
    }
    if vis.len() > 20 {
        let mut t = owned("    ... ");
        push_decimal(&mut t, (vis.len() - 20) as u64);
        push_str(&mut t, " more diff lines");
        out.push(single_line(t, ChatTone::Note));
    }
    proof {
        if n == vis@.len() {
            assert(vv.take(n as int) =~= vv);
        }
        assert(lines_v(out@) =~= edit_preview_of(opt_val(json)));
    }
    out
}

/// The preview a Write call shows (see `write_preview`).
pub fn write_preview_lines(input: &str) -> (r: Vec<Vec<ChatSpan>>)
    ensures
        lines_v(r@) == write_preview(input@),
{
    let json = parse_json(input);
    match &json {
        Some(v) => write_preview_of_value(Some(v)),
        None => write_preview_of_value(None),
    }
}

/// The preview a Write call shows, given its parsed input (see
/// `write_preview_of`).
pub fn write_preview_of_value(json: Option<&JsonValue>) -> (r: Vec<Vec<ChatSpan>>)
    ensures
        lines_v(r@) == write_preview_of(opt_val(json)),
{
    let mut out: Vec<Vec<ChatSpan>> = Vec::new();
    proof {
        assert(lines_v(out@) =~= Seq::<LineV>::empty());
    }
    match json {
        Some(v) => {
            let c = str_member_of(v, "content");
            if !c.as_str().is_empty() {
                let ls = split_lines(c.as_str());
                push_indented(&mut out, &ls, Some(10), ChatTone::Dim);
                proof {
                    assert(lines_v(out@) =~= write_preview_of(opt_val(json)));
                }
            }
        },
        None => {},
    }
    out
}

/// The header of a tool call, or `None` where its argument would be cut
/// inside a character.
pub fn tool_header_line(name: &str, input: &str, failed: bool) -> (r: Option<Vec<ChatSpan>>)
    ensures
        match r {
            Some(l) => header_cuttable(name@, input@) && line_v(l@) == tool_header(name@, input@, failed),
            None => !header_cuttable(name@, input@),
        },
{
    let arg = match extract_primary_arg(name, input) {
        Some(a) => a,
        None => String::new(),
    };
    let shown = match crate::menus::shorten(&chars_of(arg.as_str()), 60, 57) {
        Some(s) => s,
        None => {
            return None;
        },
    };
    let mut l: Vec<ChatSpan> = Vec::new();
    let name_tone = if failed {
        ChatTone::Failure
    } else {
        ChatTone::ToolName
    };
    l.push(ChatSpan { text: prefixed("  > ", name), tone: name_tone });
    let ghost a = line_v(l@);
    if !shown.as_str().is_empty() {
        l.push(ChatSpan { text: prefixed(": ", shown.as_str()), tone: ChatTone::Dim });
    }
    let ghost b = line_v(l@);
    if failed {
        l.push(span(" ✗", ChatTone::Failure));
    }
    proof {
        assert(line_v(l@) =~= tool_header(name@, input@, failed));
    }
    Some(l)
}

/// The lines a tool's output shows: a failure label for a failed tool,
/// then the output indented, at most twenty lines when collapsed; nothing
/// for empty output.
pub open spec fn result_lines(content: Seq<char>, is_error: bool, collapsed: bool) -> Seq<LineV> {
    if content.len() == 0 {
        seq![]
    } else {
        let tone = if is_error {
            ChatTone::ErrorText
        } else {
            ChatTone::Dim
        };
        (if is_error {
            seq![single("    ✗ Error"@, ChatTone::Failure)]
        } else {
            seq![]
        }) + if collapsed {
            capped(lines_of(content), 20, tone)
        } else {
            indented(lines_of(content), tone)
        }
    }
}

/// The lines a tool's output shows (see `result_lines`).
pub fn tool_result_lines(content: &str, is_error: bool, collapsed: bool) -> (r: Vec<Vec<ChatSpan>>)
    ensures
        lines_v(r@) == result_lines(content@, is_error, collapsed),
{
    let mut out: Vec<Vec<ChatSpan>> = Vec::new();
    proof {
        assert(lines_v(out@) =~= Seq::<LineV>::empty());
    }
    if content.is_empty() {
        return out;
    }
    if is_error {
        out.push(single_line(owned("    ✗ Error"), ChatTone::Failure));
    }
    let ghost head = lines_v(out@);
    let tone = if is_error {
        ChatTone::ErrorText
    } else {
        ChatTone::Dim
    };
    let ls = split_lines(content);
    push_indented(&mut out, &ls, if collapsed { Some(20) } else { None }, tone);
    proof {
        assert(lines_v(out@) =~= result_lines(content@, is_error, collapsed));
    }
    out
}

/// The lines a thinking block shows: a header and its first four lines,
/// with a note of how many more there are; nothing when it is empty.
pub open spec fn thinking_lines(text: Seq<char>) -> Seq<LineV> {
    if text.len() == 0 {
        seq![]
    } else {
        seq![single("  Thinking..."@, ChatTone::Aside)] + capped(lines_of(text), 4, ChatTone::ThinkingText)
    }
}

/// The lines a thinking block shows (see `thinking_lines`).
pub fn thinking_block_lines(text: &str) -> (r: Vec<Vec<ChatSpan>>)
    ensures
        lines_v(r@) == thinking_lines(text@),
{
    let mut out: Vec<Vec<ChatSpan>> = Vec::new();
    proof {
        assert(lines_v(out@) =~= Seq::<LineV>::empty());
    }
    if text.is_empty() {
        return out;
    }
    out.push(single_line(owned("  Thinking..."), ChatTone::Aside));
    let ls = split_lines(text);
    push_indented(&mut out, &ls, Some(4), ChatTone::ThinkingText);
    proof {
        assert(lines_v(out@) =~= thinking_lines(text@));
    }
    out
}

/// The placeholder of an image or a document: `  [kind: type]`.
pub open spec fn media_line(kind: Seq<char>, media_type: Seq<char>) -> LineV {
    single("  ["@ + kind + ": "@ + media_type + "]"@, ChatTone::Aside)
}

/// The placeholder of an image or a document (see `media_line`).
pub fn media_placeholder(kind: &str, media_type: &str) -> (l: Vec<ChatSpan>)
    ensures
        line_v(l@) == media_line(kind@, media_type@),
{
    let mut t = owned("  [");
    push_str(&mut t, kind);
    push_str(&mut t, ": ");
    push_str(&mut t, media_type);
    push_str(&mut t, "]");
    single_line(t, ChatTone::Aside)
}

// ---------------------------------------------------------------------------
// Messages
// ---------------------------------------------------------------------------

/// The text without its leading line breaks.
pub open spec fn skip_newlines(s: Seq<char>) -> Seq<char>
    decreases s.len(),
{
    if s.len() > 0 && s[0] == '\n' {
        skip_newlines(s.drop_first())
    } else {
        s
    }
}

/// Markdown spans in the conversation's tones.
pub open spec fn md_spans(l: Seq<SpanView>) -> Seq<SpanV> {
    l.map_values(|x: SpanView| (x.0, ChatTone::Markdown(x.1)))
}

/// The lines of one source line: an empty line stays empty; otherwise it
/// is wrapped with a two-space indent.
pub open spec fn source_line(spans: Seq<SpanV>, cw: nat) -> Seq<LineV> {
    if spans.len() == 0 {
        seq![seq![]]
    } else {
        wrapped(spans, "  "@, cw)
    }
}

/// The spans of a line of the user's text.
pub open spec fn user_spans(l: Seq<char>) -> Seq<SpanV> {
    if l.len() == 0 {
        seq![]
    } else {
        seq![(l, ChatTone::UserText)]
    }
}

/// Source lines, each wrapped (see `source_line`).
pub open spec fn source_lines(ls: Seq<Seq<SpanV>>, cw: nat) -> Seq<LineV>
    decreases ls.len(),
{
    if ls.len() == 0 {
        seq![]
    } else {
        source_lines(ls.drop_last(), cw) + source_line(ls.last(), cw)
    }
}

/// The spans of each source line of a text block: for the user the lines
/// of the text, for the assistant the markdown lines given.
pub open spec fn text_spans(role: Role, text: Seq<char>, md: Seq<Seq<SpanView>>) -> Seq<Seq<SpanV>> {
    match role {
        Role::User => lines_of(skip_newlines(text)).map_values(|l: Seq<char>| user_spans(l)),
        Role::Assistant => md.map_values(|l: Seq<SpanView>| md_spans(l)),
    }
}

/// The tool result for a call: the last result block with its id.
pub open spec fn result_for(blocks: Seq<BlockView>, id: Seq<char>) -> Option<BlockView>
    decreases blocks.len(),
{
    if blocks.len() == 0 {
        None
    } else if blocks.last() is ToolResult && blocks.last()->tool_use_id == id {
        Some(blocks.last())
    } else {
        result_for(blocks.drop_last(), id)
    }
}

/// The lines of a tool call: its header (marked when its result is an
/// error), an Edit's diff or a Write's preview, then its result.
pub open spec fn tool_lines(name: Seq<char>, input: Seq<char>, result: Option<BlockView>) -> Seq<LineV> {
    let failed = result matches Some(BlockView::ToolResult { is_error, .. }) && is_error;
    seq![tool_header(name, input, failed)] + (if name == "Edit"@ {
        edit_preview(input)
    } else {
        seq![]
    }) + (if name == "Write"@ {
        write_preview(input)
    } else {
        seq![]
    }) + match result {
        Some(BlockView::ToolResult { content, is_error, collapsed, .. }) => result_lines(content, is_error, collapsed),
        _ => seq![],
    }
}

/// The lines of one block of a message whose blocks are `all`; `md` is the
/// markdown of the block when it is the assistant's text.
pub open spec fn block_lines(b: BlockView, all: Seq<BlockView>, role: Role, md: Seq<Seq<SpanView>>, cw: nat) -> Seq<LineV> {
    match b {
        BlockView::Text(t) => source_lines(text_spans(role, t, md), cw),
        BlockView::ToolUse { id, name, input } => tool_lines(name, input, result_for(all, id)),
        BlockView::ToolResult { .. } => seq![],
        BlockView::Thinking(t) => thinking_lines(t),
        BlockView::Image { media_type } => seq![media_line("Image"@, media_type)],
        BlockView::Document { doc_type } => seq![media_line("Document"@, doc_type)],
    }
}

/// The lines of the first `n` blocks.
pub open spec fn blocks_lines(all: Seq<BlockView>, n: int, role: Role, mds: Seq<Seq<Seq<SpanView>>>, cw: nat) -> Seq<LineV>
    decreases n,
{
    if n <= 0 {
        seq![]
    } else {
        blocks_lines(all, n - 1, role, mds, cw) + block_lines(all[n - 1], all, role, mds[n - 1], cw)
    }
}

/// The role label line.
pub open spec fn label_line(role: Role, assistant_label: Seq<char>) -> LineV {
    match role {
        Role::User => single("  You  "@, ChatTone::UserLabel),
        Role::Assistant => single(assistant_label, ChatTone::AssistantLabel),
    }
}

/// The lines of a message within `cw` columns: its role label, then its
/// blocks; `mds` gives the markdown of each of the assistant's text blocks.
pub open spec fn message_lines_spec(m: MessageView, mds: Seq<Seq<Seq<SpanView>>>, cw: nat, label: Seq<char>) -> Seq<LineV> {
    seq![label_line(m.role, label)] + blocks_lines(m.content, m.content.len() as int, m.role, mds, cw)
}

/// Whether every source line of a text block can be wrapped.
pub open spec fn text_ok(role: Role, t: Seq<char>, md: Seq<Seq<SpanView>>, cw: nat) -> bool {
    forall|i: int| 0 <= i < text_spans(role, t, md).len() ==> wrappable(#[trigger] text_spans(role, t, md)[i], "  "@, cw)
}

/// Whether every source line of a block can be wrapped, and a tool call's
/// argument can be cut where its header needs.
pub open spec fn block_ok(b: BlockView, role: Role, md: Seq<Seq<SpanView>>, cw: nat) -> bool {
    match b {
        BlockView::Text(t) => text_ok(role, t, md, cw),
        BlockView::ToolUse { name, input, .. } => header_cuttable(name, input),
        _ => true,
    }
}

/// Whether a message can be laid out with the markdown `mds`.
pub open spec fn message_ok(m: MessageView, mds: Seq<Seq<Seq<SpanView>>>, cw: nat) -> bool {
    &&& mds.len() == m.content.len()
    &&& forall|k: int| 0 <= k < m.content.len() ==> block_ok(#[trigger] m.content[k], m.role, mds[k], cw)
}

/// Whether the spans can be wrapped within `max_width` columns (see
/// `wrappable`).
pub fn can_wrap(spans: &Vec<ChatSpan>, indent: &str, max_width: usize) -> (r: bool)
    ensures
        r == wrappable(line_v(spans@), indent@, max_width as nat),
{
    if !fits_within(indent, max_width) {
        return true;
    }
    let iw = width_within(indent, max_width);
    if iw == max_width {
        return true;
    }
    let avail = max_width - iw;
    let ghost sv = line_v(spans@);
    let mut i: usize = 0;
    while i < spans.len()
        invariant
            i <= spans@.len(),
            sv == line_v(spans@),
            iw == width_of(indent@),
            iw < max_width,
            avail == max_width - width_of(indent@),
            forall|a: int, j: int| 0 <= a < i && 0 <= j < sv[a].0.len() ==> cols(#[trigger] sv[a].0[j]) <= avail,
        decreases spans.len() - i,
    {
        let v = chars_of(spans[i].text.as_str());
        let mut j: usize = 0;
        while j < v.len()
            invariant
                j <= v@.len(),
                v@ == sv[i as int].0,
                i < sv.len(),
                sv == line_v(spans@),
                iw == width_of(indent@),
                iw < max_width,
                avail == max_width - width_of(indent@),
                forall|b: int| 0 <= b < j ==> cols(#[trigger] v@[b]) <= avail,
            decreases v.len() - j,
        {
            if char_cols(v[j]) > avail {
                proof {
                    assert(v@[j as int] == sv[i as int].0[j as int]);
                    assert(cols(sv[i as int].0[j as int]) > avail);
                    assert(!narrow_enough(sv, avail as nat));
                }
                return false;
            }
            j = j + 1;
        }
        proof {
            assert forall|a: int, b: int| 0 <= a < i + 1 && 0 <= b < sv[a].0.len() implies cols(#[trigger] sv[a].0[b]) <= avail by {
                if a == i {
                    assert(sv[a].0[b] == v@[b]);
                }
            }
        }
        i = i + 1;
    }
    true
}

/// Append the lines of one source line (see `source_line`); `false`, with
/// nothing appended, when it cannot be wrapped.
fn push_source_line(out: &mut Vec<Vec<ChatSpan>>, spans: Vec<ChatSpan>, cw: usize) -> (ok: bool)
    ensures
        ok == wrappable(line_v(spans@), "  "@, cw as nat),
        ok ==> lines_v(final(out)@) == lines_v(old(out)@) + source_line(line_v(spans@), cw as nat),
        !ok ==> final(out)@ == old(out)@,
{
    let ghost before = lines_v(out@);
    if spans.len() == 0 {
        out.push(Vec::new());
        proof {
            assert(line_v(Seq::<ChatSpan>::empty()) =~= Seq::<SpanV>::empty());
            assert(lines_v(out@) =~= before + seq![Seq::<SpanV>::empty()]);
            assert(line_v(spans@) =~= Seq::<SpanV>::empty());
        }
        return true;
    }
    if !can_wrap(&spans, "  ", cw) {
        return false;
    }
    let mut ls = wrap_spans(&spans, "  ", cw);
    let ghost w = lines_v(ls@);
    out.append(&mut ls);
    proof {
        assert(lines_v(out@) =~= before + w);
    }
    true
}

/// The text without its leading line breaks, as a slice of it.
fn skip_newlines_slice(s: &str) -> (r: &str)
    ensures
        r@ == skip_newlines(s@),
{
    let v = chars_of(s);
    let mut i: usize = 0;
    assert(v@.skip(0) =~= v@);
    while i < v.len() && v[i] == '\n'
        invariant
            i <= v@.len(),
            v@ == s@,
            skip_newlines(v@) == skip_newlines(v@.skip(i as int)),
        decreases v.len() - i,
    {
        assert(v@.skip(i as int).drop_first() =~= v@.skip(i + 1));
        i = i + 1;
    }
    proof {
        assert(v@.skip(i as int) =~= v@.subrange(i as int, v@.len() as int));
        if i < v@.len() {
            assert(v@.skip(i as int)[0] == v@[i as int]);
        }
    }
    s.substring_char(i, v.len())
}

/// The spans of a line of the user's text (see `user_spans`).
fn user_line_spans(l: &str) -> (r: Vec<ChatSpan>)
    ensures
        line_v(r@) == user_spans(l@),
{
    let mut r: Vec<ChatSpan> = Vec::new();
    if !l.is_empty() {
        r.push(span(l, ChatTone::UserText));
    }
    proof {
        assert(line_v(r@) =~= user_spans(l@));
    }
    r
}

/// Markdown spans in the conversation's tones (see `md_spans`).
fn markdown_spans(l: &Vec<MdSpan>) -> (r: Vec<ChatSpan>)
    ensures
        line_v(r@) == md_spans(line_view(l@)),
{
    let mut r: Vec<ChatSpan> = Vec::new();
    let mut i: usize = 0;
    while i < l.len()
        invariant
            i <= l@.len(),
            line_v(r@) == md_spans(line_view(l@)).take(i as int),
        decreases l.len() - i,
    {
        let ghost before = line_v(r@);
        r.push(ChatSpan { text: owned(l[i].text.as_str()), tone: ChatTone::Markdown(l[i].style) });
        proof {
            assert(line_view(l@)[i as int] == (l@[i as int].text@, l@[i as int].style));
            assert(line_v(r@) =~= before.push((l@[i as int].text@, ChatTone::Markdown(l@[i as int].style))));
            assert(line_v(r@) =~= md_spans(line_view(l@)).take(i + 1));
        }
        i = i + 1;
    }
    proof {
        assert(md_spans(line_view(l@)).take(l@.len() as int) =~= md_spans(line_view(l@)));
    }
    r
}

/// Append the lines of a text block (see `block_lines`); `false` when a
/// line cannot be wrapped.
fn push_text(out: &mut Vec<Vec<ChatSpan>>, role: Role, text: &str, md: &Vec<Vec<MdSpan>>, cw: usize) -> (ok: bool)
    ensures
        ({
            let ls = text_spans(role, text@, lines_view(md@));
            &&& ok == forall|i: int| 0 <= i < ls.len() ==> wrappable(#[trigger] ls[i], "  "@, cw as nat)
            &&& ok ==> lines_v(final(out)@) == lines_v(old(out)@) + source_lines(ls, cw as nat)
        }),
{
    let ghost ls = text_spans(role, text@, lines_view(md@));
    let ghost base = lines_v(out@);
    let user_lines = split_lines(skip_newlines_slice(text));
    let n = match role {
        Role::User => user_lines.len(),
        Role::Assistant => md.len(),
    };
    proof {
        assert(ls.len() == n);
        assert(source_lines(ls.take(0), cw as nat) =~= Seq::<LineV>::empty());
        assert(lines_v(out@) =~= base + Seq::<LineV>::empty());
    }
    let mut i: usize = 0;
    while i < n
        invariant
            i <= n,
            n == ls.len(),
            ls == text_spans(role, text@, lines_view(md@)),
            strs_view(user_lines@) == lines_of(skip_newlines(text@)),
            role == Role::User ==> n == user_lines@.len(),
            role == Role::Assistant ==> n == md@.len(),
            forall|j: int| 0 <= j < i ==> wrappable(#[trigger] ls[j], "  "@, cw as nat),
            lines_v(out@) == base + source_lines(ls.take(i as int), cw as nat),
        decreases n - i,
    {
        let spans = match role {
            Role::User => user_line_spans(user_lines[i]),
            Role::Assistant => markdown_spans(&md[i]),
        };
        proof {
            match role {
                Role::User => {
                    assert(strs_view(user_lines@)[i as int] == user_lines@[i as int]@);
                },
                Role::Assistant => {
                    assert(lines_view(md@)[i as int] == line_view(md@[i as int]@));
                },
            }
            assert(line_v(spans@) == ls[i as int]);
        }
        let ghost before = lines_v(out@);
        if !push_source_line(out, spans, cw) {
            return false;
        }
        proof {
            assert(ls.take(i + 1).drop_last() =~= ls.take(i as int));
            assert(lines_v(out@) =~= base + source_lines(ls.take(i + 1), cw as nat));
        }
        i = i + 1;
    }
    proof {
        assert(ls.take(n as int) =~= ls);
    }
    true
}

/// The index of the tool result for a call (see `result_for`).
fn result_index(blocks: &Vec<ContentBlock>, id: &str) -> (r: Option<usize>)
    ensures
        ({
            let bv = blocks@.map_values(|b: ContentBlock| b@);
            match r {
                Some(k) => k < blocks@.len() && result_for(bv, id@) == Some(bv[k as int]),
                None => result_for(bv, id@) is None,
            }
        }),
{
    let ghost bv = blocks@.map_values(|b: ContentBlock| b@);
    let mut k: usize = blocks.len();
    assert(bv.take(k as int) =~= bv);
    while k > 0
        invariant
            k <= blocks@.len(),
            bv == blocks@.map_values(|b: ContentBlock| b@),
            result_for(bv, id@) == result_for(bv.take(k as int), id@),
        decreases k,
    {
        let ghost pre = bv.take(k as int);
        proof {
            assert(pre.last() == bv[k - 1]);
            assert(pre.drop_last() =~= bv.take(k - 1));
        }
        match &blocks[k - 1] {
            ContentBlock::ToolResult { tool_use_id, .. } => {
                if crate::text::str_eq(tool_use_id.as_str(), id) {
                    return Some(k - 1);
                }
            },
            _ => {},
        }
        k = k - 1;
    }
    None
}

/// Append the lines of a tool call (see `tool_lines`); `false` when its
/// argument would be cut inside a character.
fn push_tool(out: &mut Vec<Vec<ChatSpan>>, blocks: &Vec<ContentBlock>, name: &str, input: &str, id: &str) -> (ok: bool)
    ensures
        ok == header_cuttable(name@, input@),
        ok ==> lines_v(final(out)@) == lines_v(old(out)@) + tool_lines(
            name@,
            input@,
            result_for(blocks@.map_values(|b: ContentBlock| b@), id@),
        ),
{
    let ghost base = lines_v(out@);
    let ghost bv = blocks@.map_values(|b: ContentBlock| b@);
    let found = result_index(blocks, id);
    let failed = match found {
        Some(k) => match &blocks[k] {
            ContentBlock::ToolResult { is_error, .. } => *is_error,
            _ => false,
        },
        None => false,
    };
    proof {
        if let Some(k) = found {
            assert(bv[k as int] == blocks@[k as int]@);
        }
    }
    let header = match tool_header_line(name, input, failed) {
        Some(h) => h,
        None => {
            return false;
        },
    };
    out.push(header);
    let ghost h = lines_v(out@);
    let mut extra = if crate::text::str_eq(name, "Edit") {
        edit_preview_lines(input)
    } else {
        Vec::new()
    };
    out.append(&mut extra);
    let mut more = if crate::text::str_eq(name, "Write") {
        write_preview_lines(input)
    } else {
        Vec::new()
    };
    out.append(&mut more);
    let mut res = match found {
        Some(k) => match &blocks[k] {
            ContentBlock::ToolResult { content, is_error, collapsed, .. } => tool_result_lines(
                content.as_str(),
                *is_error,
                *collapsed,
            ),
            _ => Vec::new(),
        },
        None => Vec::new(),
    };
    out.append(&mut res);
    proof {
        assert(lines_v(Seq::<Vec<ChatSpan>>::empty()) =~= Seq::<LineV>::empty());
        assert(lines_v(out@) =~= base + tool_lines(name@, input@, result_for(bv, id@)));
    }
    true
}

/// Markdown lines of each block as plain values.
pub open spec fn mds_view(mds: Seq<Vec<Vec<MdSpan>>>) -> Seq<Seq<Seq<SpanView>>> {
    mds.map_values(|m: Vec<Vec<MdSpan>>| lines_view(m@))
}

/// The lines of a message within `cw` columns (see `message_lines_spec`),
/// given the markdown lines of each block (used for the assistant's text
/// blocks); `None` when the message cannot be laid out so (see
/// `message_ok`).
pub fn message_lines_with(msg: &Message, mds: &Vec<Vec<Vec<MdSpan>>>, cw: usize, assistant_label: &str) -> (r: Option<Vec<Vec<ChatSpan>>>)
    ensures
        match r {
            Some(ls) => message_ok(msg@, mds_view(mds@), cw as nat) && lines_v(ls@) == message_lines_spec(
                msg@,
                mds_view(mds@),
                cw as nat,
                assistant_label@,
            ),
            None => !message_ok(msg@, mds_view(mds@), cw as nat),
        },
{
    let ghost mv = mds_view(mds@);
    let ghost m = msg@;
    if mds.len() != msg.content.len() {
        return None;
    }
    let mut out: Vec<Vec<ChatSpan>> = Vec::new();
    match msg.role {
        Role::User => out.push(single_line(owned("  You  "), ChatTone::UserLabel)),
        Role::Assistant => out.push(single_line(owned(assistant_label), ChatTone::AssistantLabel)),
    }
    let ghost head = lines_v(out@);
    proof {
        assert(head =~= seq![label_line(m.role, assistant_label@)]);
        assert(lines_v(out@) =~= head + blocks_lines(m.content, 0, m.role, mv, cw as nat));
    }
    let mut k: usize = 0;
    while k < msg.content.len()
        invariant
            k <= msg.content@.len(),
            m == msg@,
            mv == mds_view(mds@),
            mds@.len() == msg.content@.len(),
            m.content.len() == msg.content@.len(),
            forall|j: int| 0 <= j < k ==> block_ok(#[trigger] m.content[j], m.role, mv[j], cw as nat),
            lines_v(out@) == head + blocks_lines(m.content, k as int, m.role, mv, cw as nat),
        decreases msg.content.len() - k,
    {
        let ghost before = lines_v(out@);
        proof {
            assert(m.content[k as int] == msg.content@[k as int]@);
            assert(mv[k as int] == lines_view(mds@[k as int]@));
        }
        let ok = match &msg.content[k] {
            ContentBlock::Text(t) => {
                proof {
                    assert(m.content[k as int] == BlockView::Text(t@));
                }
                let ok = push_text(&mut out, msg.role, t.as_str(), &mds[k], cw);
                proof {
                    let ls = text_spans(msg.role, t@, lines_view(mds@[k as int]@));
                    assert(ls == text_spans(m.role, t@, mv[k as int]));
                    let ls2 = text_spans(m.role, t@, mv[k as int]);
                    if ok {
                        assert forall|i: int| 0 <= i < ls2.len() implies wrappable(#[trigger] ls2[i], "  "@, cw as nat) by {
                            assert(ls[i] == ls2[i]);
                        }
                        assert(block_ok(m.content[k as int], m.role, mv[k as int], cw as nat));
                    } else {
                        let i = choose|i: int| 0 <= i < ls.len() && !wrappable(#[trigger] ls[i], "  "@, cw as nat);
                        assert(!wrappable(ls2[i], "  "@, cw as nat));
                        assert(!text_ok(m.role, t@, mv[k as int], cw as nat));
                        assert(!block_ok(m.content[k as int], m.role, mv[k as int], cw as nat));
                    }
                }
                ok
            },
            ContentBlock::ToolUse { id, name, input } => {
                proof {
                    assert(m.content[k as int] == BlockView::ToolUse { id: id@, name: name@, input: input@ });
                }
                let ok = push_tool(&mut out, &msg.content, name.as_str(), input.as_str(), id.as_str());
                proof {
                    assert(ok == block_ok(m.content[k as int], m.role, mv[k as int], cw as nat));
                }
                ok
            },
            ContentBlock::ToolResult { .. } => {
                proof {
                    assert(lines_v(out@) =~= before + Seq::<LineV>::empty());
                }
                true
            },
            ContentBlock::Thinking(t) => {
                proof {
                    assert(m.content[k as int] == BlockView::Thinking(t@));
                }
                let mut ls = thinking_block_lines(t.as_str());
                out.append(&mut ls);
                true
            },
            ContentBlock::Image { media_type } => {
                proof {
                    assert(m.content[k as int] == BlockView::Image { media_type: media_type@ });
                    reveal_strlit("Image");
                }
                let l = media_placeholder("Image", media_type.as_str());
                out.push(l);
                proof {
                    assert(lines_v(out@) =~= before + seq![line_v(l@)]);
                }
                true
            },
            ContentBlock::Document { doc_type } => {
                proof {
                    assert(m.content[k as int] == BlockView::Document { doc_type: doc_type@ });
                }
                let l = media_placeholder("Document", doc_type.as_str());
                out.push(l);
                proof {
                    assert(lines_v(out@) =~= before + seq![line_v(l@)]);
                }
                true
            },
        };
        if !ok {
            return None;
        }
        proof {
            assert(lines_v(out@) =~= before + block_lines(m.content[k as int], m.content, m.role, mv[k as int], cw as nat));
            assert(m.content == msg.content@.map_values(|b: ContentBlock| b@));
        }
        k = k + 1;
    }
    Some(out)
}

/// Whether `mds` holds, for each block of the message, a rendering the
/// markdown renderer may give for the assistant's text blocks (and nothing
/// for the other blocks).
pub open spec fn possible_markdown(m: MessageView, mds: Seq<Seq<Seq<SpanView>>>) -> bool {
    &&& mds.len() == m.content.len()
    &&& forall|k: int|
        0 <= k < m.content.len() ==> match #[trigger] m.content[k] {
            BlockView::Text(t) => m.role == Role::Assistant ==> crate::markdown::rendering_of(skip_newlines(t), mds[k]),
            _ => mds[k] == Seq::<Seq<SpanView>>::empty(),
        }
}

/// Whether block `k` of the message is an assistant text whose markdown
/// is too large to render.
pub open spec fn unrenderable_block(m: MessageView, k: int) -> bool {
    &&& m.role == Role::Assistant
    &&& m.content[k] matches BlockView::Text(t)
    &&& !crate::markdown::renderable(crate::markdown::md_events_of(skip_newlines(t)))
}

/// Whether a message cannot be shown: an assistant text is too large to
/// render, or with a rendering its markdown may get it cannot be laid out
/// within `cw` columns.
pub open spec fn message_fails(m: MessageView, cw: nat) -> bool {
    ||| exists|k: int| 0 <= k < m.content.len() && #[trigger] unrenderable_block(m, k)
    ||| exists|mds: Seq<Seq<Seq<SpanView>>>| #[trigger] possible_markdown(m, mds) && !message_ok(m, mds, cw)
}

/// The lines of a message within `cw` columns, its assistant text rendered
/// as markdown; `None` when a markdown text is too large to render or the
/// message cannot be laid out (see `message_fails`).
pub fn message_lines(msg: &Message, cw: usize, assistant_label: &str) -> (r: Option<Vec<Vec<ChatSpan>>>)
    ensures
        match r {
            Some(ls) => exists|mds: Seq<Seq<Seq<SpanView>>>|
                possible_markdown(msg@, mds) && message_ok(msg@, mds, cw as nat) && lines_v(ls@) == message_lines_spec(
                    msg@,
                    mds,
                    cw as nat,
                    assistant_label@,
                ),
            None => message_fails(msg@, cw as nat),
        },
{
    let mut mds: Vec<Vec<Vec<MdSpan>>> = Vec::new();
    let mut k: usize = 0;
    while k < msg.content.len()
        invariant
            k <= msg.content@.len(),
            mds@.len() == k,
            forall|j: int|
                0 <= j < k ==> match #[trigger] msg@.content[j] {
                    BlockView::Text(t) => msg.role == Role::Assistant ==> crate::markdown::rendering_of(
                        skip_newlines(t),
                        mds_view(mds@)[j],
                    ),
                    _ => mds_view(mds@)[j] == Seq::<Seq<SpanView>>::empty(),
                },
        decreases msg.content.len() - k,
    {
        let ghost before = mds@;
        let md = match &msg.content[k] {
            ContentBlock::Text(t) => match msg.role {
                Role::Assistant => match crate::markdown::render_markdown(skip_newlines_slice(t.as_str())) {
                    Some(lines) => lines,
                    None => {
                        proof {
                            assert(msg@.content[k as int] == msg.content@[k as int]@);
                            assert(unrenderable_block(msg@, k as int));
                        }
                        return None;
                    },
                },
                Role::User => Vec::new(),
            },
            _ => Vec::new(),
        };
        mds.push(md);
        proof {
            assert(msg@.content[k as int] == msg.content@[k as int]@);
            assert forall|j: int| 0 <= j < k + 1 implies match #[trigger] msg@.content[j] {
                BlockView::Text(t) => msg.role == Role::Assistant ==> crate::markdown::rendering_of(
                    skip_newlines(t),
                    mds_view(mds@)[j],
                ),
                _ => mds_view(mds@)[j] == Seq::<Seq<SpanView>>::empty(),
            } by {
                if j < k {
                    assert(mds@[j] == before[j]);
                } else {
                    assert(lines_view(Seq::<Vec<MdSpan>>::empty()) =~= Seq::<Seq<SpanView>>::empty());
                }
            }
        }
        k = k + 1;
    }
    let r = message_lines_with(msg, &mds, cw, assistant_label);
    proof {
        assert(possible_markdown(msg@, mds_view(mds@)));
    }
    r
}

// ---------------------------------------------------------------------------
// The conversation
// ---------------------------------------------------------------------------

/// The rule between messages: `─` across the pane, at most 120 wide.
pub open spec fn separator(width: nat) -> Seq<char> {
    Seq::new(if width < 120 { width } else { 120 }, |i: int| '─')
}

/// The columns text gets in a pane of `width` columns (two go to padding).
pub open spec fn content_width(width: nat) -> nat {
    if width >= 2 {
        (width - 2) as nat
    } else {
        0
    }
}

/// The lines of the messages in a pane of `width` columns: each message's
/// lines, with a rule between messages; `mdss` gives each message's
/// markdown.
pub open spec fn conversation_spec(ms: Seq<MessageView>, mdss: Seq<Seq<Seq<Seq<SpanView>>>>, width: nat, label: Seq<char>) -> Seq<LineV>
    decreases ms.len(),
{
    if ms.len() == 0 {
        seq![]
    } else {
        conversation_spec(ms.drop_last(), mdss, width, label) + (if ms.len() > 1 {
            seq![single(separator(width), ChatTone::Separator)]
        } else {
            seq![]
        }) + message_lines_spec(ms.last(), mdss[ms.len() - 1], content_width(width), label)
    }
}

/// Whether `mdss` holds possible markdown for each message, and every
/// message can be laid out with it.
pub open spec fn conversation_fits(ms: Seq<MessageView>, mdss: Seq<Seq<Seq<Seq<SpanView>>>>, width: nat) -> bool {
    &&& mdss.len() == ms.len()
    &&& forall|i: int|
        0 <= i < ms.len() ==> possible_markdown(#[trigger] ms[i], mdss[i]) && message_ok(ms[i], mdss[i], content_width(width))
}

/// The rule between messages.
fn separator_line(width: usize) -> (l: Vec<ChatSpan>)
    ensures
        line_v(l@) == single(separator(width as nat), ChatTone::Separator),
{
    let n = if width < 120 {
        width
    } else {
        120
    };
    let mut t = String::new();
    let mut i: usize = 0;
    while i < n
        invariant
            i <= n,
            t@ == Seq::new(i as nat, |j: int| '─'),
        decreases n - i,
    {
        push_char(&mut t, '─');
        proof {
            assert(t@ =~= Seq::new((i + 1) as nat, |j: int| '─'));
        }
        i = i + 1;
    }
    single_line(t, ChatTone::Separator)
}

/// The conversation as lines in a pane of `width` columns (see
/// `conversation_spec`), the assistant's text rendered as markdown; `None`
/// when a message cannot be laid out (see `message_lines`).
pub fn conversation_lines(messages: &Vec<Message>, width: usize, assistant_label: &str) -> (r: Option<Vec<Vec<ChatSpan>>>)
    ensures
        match r {
            Some(ls) => exists|mdss: Seq<Seq<Seq<Seq<SpanView>>>>|
                conversation_fits(crate::menus::msgs(messages@), mdss, width as nat) && lines_v(ls@) == conversation_spec(
                    crate::menus::msgs(messages@),
                    mdss,
                    width as nat,
                    assistant_label@,
                ),
            None => exists|i: int|
                0 <= i < messages@.len() && message_fails(#[trigger] messages@[i]@, content_width(width as nat)),
        },
{
    let cw = if width >= 2 {
        width - 2
    } else {
        0
    };
    let ghost ms = crate::menus::msgs(messages@);
    let ghost mut mdss: Seq<Seq<Seq<Seq<SpanView>>>> = Seq::empty();
    let mut out: Vec<Vec<ChatSpan>> = Vec::new();
    let mut i: usize = 0;
    proof {
        assert(lines_v(out@) =~= Seq::<LineV>::empty());
    }
    while i < messages.len()
        invariant
            i <= messages@.len(),
            ms == crate::menus::msgs(messages@),
            cw == content_width(width as nat),
            mdss.len() == i,
            conversation_fits(ms.take(i as int), mdss, width as nat),
            lines_v(out@) == conversation_spec(ms.take(i as int), mdss, width as nat, assistant_label@),
        decreases messages.len() - i,
    {
        let ghost before = lines_v(out@);
        if i > 0 {
            out.push(separator_line(width));
        }
        let ghost with_sep = lines_v(out@);
        let mut ls = match message_lines(&messages[i], cw, assistant_label) {
            Some(ls) => ls,
            None => {
                proof {
                    assert(message_fails(messages@[i as int]@, content_width(width as nat)));
                }
                return None;
            },
        };
        let ghost md = choose|mds: Seq<Seq<Seq<SpanView>>>|
            possible_markdown(messages@[i as int]@, mds) && message_ok(messages@[i as int]@, mds, cw as nat)
                && lines_v(ls@) == message_lines_spec(messages@[i as int]@, mds, cw as nat, assistant_label@);
        let ghost mine = lines_v(ls@);
        out.append(&mut ls);
        proof {
            let old_mdss = mdss;
            mdss = mdss.push(md);
            let pre = ms.take(i + 1);
            assert(pre.drop_last() =~= ms.take(i as int));
            assert(pre.last() == messages@[i as int]@);
            assert(conversation_spec(ms.take(i as int), mdss, width as nat, assistant_label@) == conversation_spec(
                ms.take(i as int),
                old_mdss,
                width as nat,
                assistant_label@,
            )) by {
                lemma_conversation_spec_prefix(ms.take(i as int), old_mdss, mdss, width as nat, assistant_label@);
            }
            if i > 0 {
                assert(with_sep =~= before + seq![single(separator(width as nat), ChatTone::Separator)]);
            } else {
                assert(with_sep =~= before + Seq::<LineV>::empty());
            }
            assert(lines_v(out@) =~= conversation_spec(pre, mdss, width as nat, assistant_label@));
            assert forall|j: int| 0 <= j < pre.len() implies possible_markdown(#[trigger] pre[j], mdss[j]) && message_ok(
                pre[j],
                mdss[j],
                content_width(width as nat),
            ) by {
                if j < i {
                    assert(pre[j] == ms.take(i as int)[j]);
                    assert(mdss[j] == old_mdss[j]);
                }
            }
        }
        i = i + 1;
    }
    proof {
        assert(ms.take(messages@.len() as int) =~= ms);
    }
    Some(out)
}

/// Only the markdown of the messages given matters.
proof fn lemma_conversation_spec_prefix(
    ms: Seq<MessageView>,
    a: Seq<Seq<Seq<Seq<SpanView>>>>,
    b: Seq<Seq<Seq<Seq<SpanView>>>>,
    width: nat,
    label: Seq<char>,
)
    requires
        ms.len() <= a.len(),
        ms.len() <= b.len(),
        forall|j: int| 0 <= j < ms.len() ==> a[j] == b[j],
    ensures
        conversation_spec(ms, a, width, label) == conversation_spec(ms, b, width, label),
    decreases ms.len(),
{
    if ms.len() > 0 {
        lemma_conversation_spec_prefix(ms.drop_last(), a, b, width, label);
    }
}

/// The frames of the progress spinner.
pub open spec fn spinner_frames() -> Seq<char> {
    seq!['⠋', '⠙', '⠹', '⠸', '⠼', '⠴', '⠦', '⠧', '⠇', '⠏']
}

/// The progress line under the conversation at frame `frame`: the spinner
/// turns every other frame; "Running..." while a tool runs, "Thinking..."
/// otherwise.
pub open spec fn progress(frame: u64, running: bool) -> LineV {
    single(
        "  "@ + seq![spinner_frames()[((frame / 2) % 10) as int]] + " "@ + if running {
            "Running..."@
        } else {
            "Thinking..."@
        },
        ChatTone::Note,
    )
}

/// The progress line (see `progress`).
pub fn progress_line(frame: u64, running: bool) -> (l: Vec<ChatSpan>)
    ensures
        line_v(l@) == progress(frame, running),
{
    let frames = ['⠋', '⠙', '⠹', '⠸', '⠼', '⠴', '⠦', '⠧', '⠇', '⠏'];
    let k = ((frame / 2) % 10) as usize;
    let mut t = owned("  ");
    let c = frames[k];
    push_char(&mut t, c);
    proof {
        assert(t@ =~= "  "@ + seq![c]);
        assert(frames@ =~= spinner_frames());
        assert(c == spinner_frames()[((frame / 2) % 10) as int]);
    }
    push_str(&mut t, " ");
    push_str(&mut t, if running {
        "Running..."
    } else {
        "Thinking..."
    });
    single_line(t, ChatTone::Note)
}

// ---------------------------------------------------------------------------
// Wrapped lines fit
// ---------------------------------------------------------------------------

/// The columns a line takes.
pub open spec fn line_cols(l: LineV) -> nat
    decreases l.len(),
{
    if l.len() == 0 {
        0
    } else {
        line_cols(l.drop_last()) + width_of(l.last().0)
    }
}

/// Finished lines fit in `iw + avail` columns; the current line takes the
/// indent's `iw` columns and the counted ones, at most `avail`.
spec fn state_fits(st: WrapState, iw: nat, avail: nat) -> bool {
    &&& forall|k: int| 0 <= k < st.0.len() ==> line_cols(#[trigger] st.0[k]) <= iw + avail
    &&& line_cols(st.1) == iw + st.2
    &&& st.2 <= avail
}

/// What fits in `max` columns from position `k` on still fits.
proof fn lemma_fitting_width(s: Seq<char>, max: nat, k: int)
    requires
        0 <= k <= s.len(),
        width_of(s.take(k)) <= max,
    ensures
        width_of(s.take(crate::pane::fitting(s, max, k))) <= max,
    decreases s.len() - k,
{
    if !(k >= s.len() || width_of(s.take(k + 1)) > max) {
        lemma_fitting_width(s, max, k + 1);
    }
}

/// The chunk of a word split fits in the budget.
proof fn lemma_chunk_width(s: Seq<char>, budget: nat)
    ensures
        width_of(word_split_spec(s, budget).0) <= budget,
        width_of(split_spec(s, budget).0) <= budget,
{
    assert(s.take(0) =~= Seq::<char>::empty());
    lemma_fitting_width(s, budget, 0);
    let k = crate::pane::fitting(s, budget, 0);
    crate::pane::lemma_fitting(s, budget, 0);
    if k < s.len() {
        let sp = crate::pane::last_space_before(s, k);
        crate::pane::lemma_last_space(s, k);
        if sp > 0 {
            crate::pane::lemma_width_prefix_le(s.take(k), sp);
            assert(s.take(k).take(sp) =~= s.take(sp));
        }
    } else {
        assert(k == s.len());
        assert(s.take(k) =~= s);
    }
}

proof fn lemma_line_push(l: LineV, x: SpanV)
    ensures
        line_cols(l.push(x)) == line_cols(l) + width_of(x.0),
{
    assert(l.push(x).drop_last() =~= l);
}

proof fn lemma_fresh_cols(indent: Seq<char>)
    ensures
        line_cols(fresh_line(indent)) == width_of(indent),
{
    assert(fresh_line(indent).drop_last() =~= Seq::<SpanV>::empty());
    assert(line_cols(Seq::<SpanV>::empty()) == 0);
}

proof fn lemma_wrap_text_fits(st: WrapState, rem: Seq<char>, tone: ChatTone, indent: Seq<char>, avail: nat)
    requires
        state_fits(st, width_of(indent), avail),
        all_narrow(rem, avail),
    ensures
        state_fits(wrap_text(st, rem, tone, indent, avail), width_of(indent), avail),
    decreases rem.len(),
{
    let iw = width_of(indent);
    lemma_fresh_cols(indent);
    if rem.len() == 0 {
    } else if st.2 + width_of(rem) <= avail {
        lemma_line_push(st.1, (rem, tone));
        let n = (st.0, st.1.push((rem, tone)), st.2 + width_of(rem));
        assert(state_fits(n, iw, avail));
    } else {
        let budget = (avail - st.2) as nat;
        let (chunk, rest) = word_split_spec(rem, budget);
        lemma_chunk_width(rem, budget);
        lemma_word_split(rem, budget);
        if chunk.len() == 0 {
            let (forced, frest) = split_spec(rem, avail);
            lemma_chunk_width(rem, avail);
            lemma_forced_split(rem, avail);
            let line = fresh_line(indent).push((forced, tone));
            lemma_line_push(fresh_line(indent), (forced, tone));
            let out = st.0.push(st.1).push(line);
            assert forall|k: int| 0 <= k < out.len() implies line_cols(#[trigger] out[k]) <= iw + avail by {
                if k < st.0.len() {
                    assert(out[k] == st.0[k]);
                } else if k == st.0.len() {
                    assert(out[k] == st.1);
                }
            }
            lemma_narrow_skip(rem, avail, forced.len() as int);
            lemma_wrap_text_fits((out, fresh_line(indent), 0), frest, tone, indent, avail);
        } else {
            lemma_line_push(st.1, (chunk, tone));
            let out = st.0.push(st.1.push((chunk, tone)));
            assert forall|k: int| 0 <= k < out.len() implies line_cols(#[trigger] out[k]) <= iw + avail by {
                if k < st.0.len() {
                    assert(out[k] == st.0[k]);
                }
            }
            let r2 = trim_start(rest);
            let n = choose|n: int| 0 <= n <= rem.len() && word_split_spec(rem, budget).1 == rem.skip(n);
            lemma_narrow_skip(rem, avail, n);
            let m = lemma_trim_start_suffix(rest);
            lemma_narrow_skip(rest, avail, m);
            if r2.len() < rem.len() {
                lemma_wrap_text_fits((out, fresh_line(indent), 0), r2, tone, indent, avail);
            }
        }
    }
}

proof fn lemma_wrap_all_fits(st: WrapState, spans: Seq<SpanV>, indent: Seq<char>, avail: nat)
    requires
        state_fits(st, width_of(indent), avail),
        narrow_enough(spans, avail),
    ensures
        state_fits(wrap_all(st, spans, indent, avail), width_of(indent), avail),
    decreases spans.len(),
{
    if spans.len() > 0 {
        assert forall|j: int| 0 <= j < spans[0].0.len() implies cols(#[trigger] spans[0].0[j]) <= avail by {}
        lemma_wrap_text_fits(st, spans[0].0, spans[0].1, indent, avail);
        assert forall|i: int, j: int|
            0 <= i < spans.drop_first().len() && 0 <= j < spans.drop_first()[i].0.len() implies cols(
            #[trigger] spans.drop_first()[i].0[j],
        ) <= avail by {
            assert(spans.drop_first()[i] == spans[i + 1]);
        }
        lemma_wrap_all_fits(wrap_text(st, spans[0].0, spans[0].1, indent, avail), spans.drop_first(), indent, avail);
    }
}

/// Every wrapped line, indent included, fits within `max_width` columns.
pub proof fn law_wrapped_lines_fit(spans: Seq<SpanV>, indent: Seq<char>, max_width: nat)
    requires
        wrappable(spans, indent, max_width),
    ensures
        forall|k: int|
            0 <= k < wrapped(spans, indent, max_width).len() ==> line_cols(
                #[trigger] wrapped(spans, indent, max_width)[k],
            ) <= max_width,
{
    let iw = width_of(indent);
    if max_width > iw {
        let avail = (max_width - iw) as nat;
        let st0: WrapState = (seq![], fresh_line(indent), 0);
        lemma_fresh_cols(indent);
        assert(state_fits(st0, iw, avail));
        lemma_wrap_all_fits(st0, spans, indent, avail);
        let st = wrap_all(st0, spans, indent, avail);
        assert forall|k: int| 0 <= k < wrapped(spans, indent, max_width).len() implies line_cols(
            #[trigger] wrapped(spans, indent, max_width)[k],
        ) <= max_width by {
            if k < st.0.len() {
                assert(wrapped(spans, indent, max_width)[k] == st.0[k]);
            }
        }
    }
}

} // verus!
