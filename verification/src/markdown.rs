//! Markdown to styled lines: the events of a markdown parser become lines of
//! styled text, code blocks highlighted where a syntax is known.
use vstd::prelude::*;

use crate::cost::{split_chars, split_on};
use crate::text::{chars_of, decimal, lines_of, owned, push_decimal, push_str, split_lines, strs_view};
use pulldown_cmark::{CodeBlockKind, Event, Tag, TagEnd};

verus! {

/// The colour a span is drawn in; the theme decides the first three.
#[derive(Debug, Clone, Copy, PartialEq, Eq, Structural)]
pub enum Tone {
    /// Ordinary text (the theme's secondary colour).
    Base,
    /// Block quotes and links (the theme's info colour).
    Accent,
    /// Headings.
    Header,
    /// Inline code.
    InlineCode,
    /// Code fences.
    Fence,
    /// Horizontal rules.
    Rule,
    /// Code without highlighting.
    PlainCode,
    /// A highlighted code colour.
    Rgb(u8, u8, u8),
}

/// How a span is drawn: its colour and modifiers.
#[derive(Debug, Clone, Copy, PartialEq, Eq, Structural)]
pub struct MdStyle {
    pub tone: Tone,
    pub bold: bool,
    pub italic: bool,
    pub crossed: bool,
    pub underlined: bool,
    pub dim: bool,
}

/// A piece of styled text.
#[derive(Debug, Clone)]
pub struct MdSpan {
    pub text: String,
    pub style: MdStyle,
}

/// A span as plain values.
pub type SpanView = (Seq<char>, MdStyle);

/// A line of spans as plain values.
pub open spec fn line_view(l: Seq<MdSpan>) -> Seq<SpanView> {
    l.map_values(|s: MdSpan| (s.text@, s.style))
}

/// Lines as plain values.
pub open spec fn lines_view(ls: Seq<Vec<MdSpan>>) -> Seq<Seq<SpanView>> {
    ls.map_values(|l: Vec<MdSpan>| line_view(l@))
}

/// A markdown parser event, as far as rendering tells them apart.
#[derive(Debug, Clone)]
pub enum MdEvent {
    /// A code block starts; a fenced one with its info string, an
    /// indented one with none.
    StartCodeBlock(String),
    EndCodeBlock,
    Text(String),
    StartHeading(u8),
    EndHeading,
    StartParagraph,
    EndParagraph,
    StartBlockQuote,
    EndBlockQuote,
    /// A list starts: ordered from a number, or not.
    StartList(Option<u64>),
    EndList,
    StartItem,
    EndItem,
    StartStrong,
    EndStrong,
    StartEmphasis,
    EndEmphasis,
    StartStrikethrough,
    EndStrikethrough,
    StartLink,
    EndLink,
    Code(String),
    SoftBreak,
    HardBreak,
    Rule,
    /// Anything rendering ignores.
    Other,
}

/// An event as plain values.
pub enum MdEventView {
    StartCodeBlock(Seq<char>),
    EndCodeBlock,
    Text(Seq<char>),
    StartHeading(u8),
    EndHeading,
    StartParagraph,
    EndParagraph,
    StartBlockQuote,
    EndBlockQuote,
    StartList(Option<u64>),
    EndList,
    StartItem,
    EndItem,
    StartStrong,
    EndStrong,
    StartEmphasis,
    EndEmphasis,
    StartStrikethrough,
    EndStrikethrough,
    StartLink,
    EndLink,
    Code(Seq<char>),
    SoftBreak,
    HardBreak,
    Rule,
    Other,
}

impl View for MdEvent {
    type V = MdEventView;

    open spec fn view(&self) -> MdEventView {
        match self {
            MdEvent::StartCodeBlock(l) => MdEventView::StartCodeBlock(l@),
            MdEvent::EndCodeBlock => MdEventView::EndCodeBlock,
            MdEvent::Text(t) => MdEventView::Text(t@),
            MdEvent::StartHeading(n) => MdEventView::StartHeading(*n),
            MdEvent::EndHeading => MdEventView::EndHeading,
            MdEvent::StartParagraph => MdEventView::StartParagraph,
            MdEvent::EndParagraph => MdEventView::EndParagraph,
            MdEvent::StartBlockQuote => MdEventView::StartBlockQuote,
            MdEvent::EndBlockQuote => MdEventView::EndBlockQuote,
            MdEvent::StartList(n) => MdEventView::StartList(*n),
            MdEvent::EndList => MdEventView::EndList,
            MdEvent::StartItem => MdEventView::StartItem,
            MdEvent::EndItem => MdEventView::EndItem,
            MdEvent::StartStrong => MdEventView::StartStrong,
            MdEvent::EndStrong => MdEventView::EndStrong,
            MdEvent::StartEmphasis => MdEventView::StartEmphasis,
            MdEvent::EndEmphasis => MdEventView::EndEmphasis,
            MdEvent::StartStrikethrough => MdEventView::StartStrikethrough,
            MdEvent::EndStrikethrough => MdEventView::EndStrikethrough,
            MdEvent::StartLink => MdEventView::StartLink,
            MdEvent::EndLink => MdEventView::EndLink,
            MdEvent::Code(t) => MdEventView::Code(t@),
            MdEvent::SoftBreak => MdEventView::SoftBreak,
            MdEvent::HardBreak => MdEventView::HardBreak,
            MdEvent::Rule => MdEventView::Rule,
            MdEvent::Other => MdEventView::Other,
        }
    }
}

/// Events as plain values.
pub open spec fn events_view(v: Seq<MdEvent>) -> Seq<MdEventView> {
    v.map_values(|e: MdEvent| e@)
}

// ---------------------------------------------------------------------------
// Styles
// ---------------------------------------------------------------------------

/// A style with no modifier.
pub open spec fn plain_style(tone: Tone) -> MdStyle {
    MdStyle { tone, bold: false, italic: false, crossed: false, underlined: false, dim: false }
}

/// The style of ordinary text.
pub open spec fn base_style() -> MdStyle {
    plain_style(Tone::Base)
}

/// Headings: bold.
pub open spec fn header_style() -> MdStyle {
    MdStyle { bold: true, ..plain_style(Tone::Header) }
}

/// Block quotes: dim.
pub open spec fn quote_style() -> MdStyle {
    MdStyle { dim: true, ..plain_style(Tone::Accent) }
}

/// Links: underlined.
pub open spec fn link_style() -> MdStyle {
    MdStyle { underlined: true, ..plain_style(Tone::Accent) }
}

/// Code fences: dim.
pub open spec fn fence_style() -> MdStyle {
    MdStyle { dim: true, ..plain_style(Tone::Fence) }
}

/// A style with no modifier.
fn plain(tone: Tone) -> (s: MdStyle)
    ensures
        s == plain_style(tone),
{
    MdStyle { tone, bold: false, italic: false, crossed: false, underlined: false, dim: false }
}

// ---------------------------------------------------------------------------
// The renderer's state and its steps
// ---------------------------------------------------------------------------

/// The renderer's state as plain values.
pub struct MdStateView {
    pub lines: Seq<Seq<SpanView>>,
    pub current: Seq<SpanView>,
    pub styles: Seq<MdStyle>,
    pub lists: Seq<Option<u64>>,
    pub quote_depth: nat,
    pub in_code: bool,
    pub lang: Seq<char>,
    pub code: Seq<char>,
    /// How many code blocks have ended.
    pub blocks: nat,
}

/// The state before the first event.
pub open spec fn initial_state() -> MdStateView {
    MdStateView {
        lines: seq![],
        current: seq![],
        styles: seq![base_style()],
        lists: seq![],
        quote_depth: 0,
        in_code: false,
        lang: seq![],
        code: seq![],
        blocks: 0,
    }
}

/// The style text gets now.
pub open spec fn current_style(s: MdStateView) -> MdStyle {
    if s.styles.len() > 0 {
        s.styles.last()
    } else {
        base_style()
    }
}

/// The state with the spans of the line being built moved to the lines.
pub open spec fn flushed(s: MdStateView) -> MdStateView {
    if s.current.len() > 0 {
        MdStateView { lines: s.lines.push(s.current), current: seq![], ..s }
    } else {
        s
    }
}

/// The state with the innermost style dropped, the base style kept.
pub open spec fn popped(s: MdStateView) -> MdStateView {
    if s.styles.len() > 1 {
        MdStateView { styles: s.styles.drop_last(), ..s }
    } else {
        s
    }
}

/// The state after text pieces, each after the first on a new line.
pub open spec fn with_pieces(s: MdStateView, pieces: Seq<Seq<char>>, style: MdStyle) -> MdStateView
    decreases pieces.len(),
{
    if pieces.len() == 0 {
        s
    } else {
        let before = with_pieces(s, pieces.drop_last(), style);
        let t = if pieces.len() > 1 { flushed(before) } else { before };
        if pieces.last().len() > 0 {
            MdStateView { current: t.current.push((pieces.last(), style)), ..t }
        } else {
            t
        }
    }
}

/// The lines of a code block: its highlighted lines when there are any,
/// otherwise each line of the code in the plain code style.
pub open spec fn code_lines(h: Option<Seq<Seq<SpanView>>>, code: Seq<char>) -> Seq<Seq<SpanView>> {
    match h {
        Some(ls) => ls,
        None => Seq::new(lines_of(code).len(), |i: int| seq![(lines_of(code)[i], plain_style(Tone::PlainCode))]),
    }
}

/// The fence line opening a code block.
pub open spec fn fence_label(lang: Seq<char>) -> Seq<char> {
    "```"@ + lang
}

/// The rule line: forty box-drawing dashes.
pub open spec fn rule_text() -> Seq<char> {
    Seq::new(40, |i: int| '\u{2500}')
}

/// The prefix of a list item: its number for an ordered list, a dash
/// otherwise.
pub open spec fn item_prefix(lists: Seq<Option<u64>>) -> Seq<char> {
    if lists.len() > 0 && lists.last() is Some {
        "  "@ + decimal(lists.last()->0 as nat) + ". "@
    } else {
        "  - "@
    }
}

/// The state after one event; `hl` holds the highlighting of each code
/// block in order (`None` where there is none).
pub open spec fn step(s: MdStateView, e: MdEventView, hl: Seq<Option<Seq<Seq<SpanView>>>>) -> MdStateView {
    match e {
        MdEventView::StartCodeBlock(lang) => {
            let f = flushed(s);
            MdStateView {
                lines: f.lines.push(seq![(fence_label(lang), fence_style())]),
                in_code: true,
                code: seq![],
                lang,
                ..f
            }
        },
        MdEventView::EndCodeBlock => {
            let h = if s.blocks < hl.len() { hl[s.blocks as int] } else { None };
            MdStateView {
                lines: s.lines + code_lines(h, s.code) + seq![seq![("```"@, fence_style())]],
                in_code: false,
                blocks: s.blocks + 1,
                ..s
            }
        },
        MdEventView::Text(t) => if s.in_code {
            MdStateView { code: s.code + t, ..s }
        } else if s.quote_depth > 0 {
            let pieces = split_on(t, '\n');
            with_pieces(s, Seq::new(pieces.len(), |i: int| "| "@ + pieces[i]), current_style(s))
        } else if t.len() == 0 {
            s
        } else {
            with_pieces(s, split_on(t, '\n'), current_style(s))
        },
        MdEventView::StartHeading(level) => {
            let f = flushed(s);
            MdStateView {
                styles: f.styles.push(header_style()),
                current: f.current.push((Seq::new(level as nat, |i: int| '#') + " "@, header_style())),
                ..f
            }
        },
        MdEventView::EndHeading => flushed(popped(s)),
        MdEventView::StartParagraph => if s.lines.len() > 0 && s.lines.last().len() > 0 {
            MdStateView { lines: s.lines.push(seq![]), ..s }
        } else {
            s
        },
        MdEventView::EndParagraph => flushed(s),
        MdEventView::StartBlockQuote => {
            let f = flushed(s);
            MdStateView { quote_depth: f.quote_depth + 1, styles: f.styles.push(quote_style()), ..f }
        },
        MdEventView::EndBlockQuote => {
            let p = popped(
                MdStateView { quote_depth: if s.quote_depth > 0 { (s.quote_depth - 1) as nat } else { 0 }, ..s },
            );
            flushed(p)
        },
        MdEventView::StartList(n) => {
            let f = flushed(s);
            MdStateView { lists: f.lists.push(n), ..f }
        },
        MdEventView::EndList => flushed(
            MdStateView { lists: if s.lists.len() > 0 { s.lists.drop_last() } else { s.lists }, ..s },
        ),
        MdEventView::StartItem => {
            let f = flushed(s);
            let lists = if f.lists.len() > 0 && f.lists.last() is Some {
                f.lists.update(f.lists.len() - 1, Some((f.lists.last()->0 + 1) as u64))
            } else {
                f.lists
            };
            MdStateView { current: f.current.push((item_prefix(f.lists), current_style(f))), lists, ..f }
        },
        MdEventView::EndItem => flushed(s),
        MdEventView::StartStrong => MdStateView {
            styles: s.styles.push(MdStyle { bold: true, ..current_style(s) }),
            ..s
        },
        MdEventView::StartEmphasis => MdStateView {
            styles: s.styles.push(MdStyle { italic: true, ..current_style(s) }),
            ..s
        },
        MdEventView::StartStrikethrough => MdStateView {
            styles: s.styles.push(MdStyle { crossed: true, ..current_style(s) }),
            ..s
        },
        MdEventView::StartLink => MdStateView { styles: s.styles.push(link_style()), ..s },
        MdEventView::EndStrong => popped(s),
        MdEventView::EndEmphasis => popped(s),
        MdEventView::EndStrikethrough => popped(s),
        MdEventView::EndLink => popped(s),
        MdEventView::Code(t) => MdStateView {
            current: s.current.push((t, plain_style(Tone::InlineCode))),
            ..s
        },
        MdEventView::SoftBreak => MdStateView { current: s.current.push((" "@, current_style(s))), ..s },
        MdEventView::HardBreak => flushed(s),
        MdEventView::Rule => {
            let f = flushed(s);
            MdStateView { lines: f.lines.push(seq![(rule_text(), plain_style(Tone::Rule))]), ..f }
        },
        MdEventView::Other => s,
    }
}

/// The state after the events.
pub open spec fn run(es: Seq<MdEventView>, hl: Seq<Option<Seq<Seq<SpanView>>>>) -> MdStateView
    decreases es.len(),
{
    if es.len() == 0 {
        initial_state()
    } else {
        step(run(es.drop_last(), hl), es.last(), hl)
    }
}

/// The lines rendered from the events: the state's lines after the last
/// event, with the line being built flushed.
pub open spec fn rendered(es: Seq<MdEventView>, hl: Seq<Option<Seq<Seq<SpanView>>>>) -> Seq<Seq<SpanView>> {
    flushed(run(es, hl)).lines
}

// ---------------------------------------------------------------------------
// The renderer
// ---------------------------------------------------------------------------

/// The renderer's state.
struct MdState {
    lines: Vec<Vec<MdSpan>>,
    current: Vec<MdSpan>,
    styles: Vec<MdStyle>,
    lists: Vec<Option<u64>>,
    quote_depth: usize,
    in_code: bool,
    lang: String,
    code: String,
    blocks: usize,
}

impl MdState {
    spec fn view(&self) -> MdStateView {
        MdStateView {
            lines: lines_view(self.lines@),
            current: line_view(self.current@),
            styles: self.styles@,
            lists: self.lists@,
            quote_depth: self.quote_depth as nat,
            in_code: self.in_code,
            lang: self.lang@,
            code: self.code@,
            blocks: self.blocks as nat,
        }
    }

    fn current_style(&self) -> (st: MdStyle)
        ensures
            st == current_style(self.view()),
    {
        if self.styles.len() > 0 {
            self.styles[self.styles.len() - 1]
        } else {
            plain(Tone::Base)
        }
    }

    fn flush(&mut self)
        ensures
            final(self).view() == flushed(old(self).view()),
    {
        if self.current.len() > 0 {
            let mut line: Vec<MdSpan> = Vec::new();
            std::mem::swap(&mut line, &mut self.current);
            let ghost before = self.lines@;
            self.lines.push(line);
            proof {
                assert(lines_view(self.lines@) =~= lines_view(before).push(line_view(line@)));
                assert(line_view(self.current@) =~= Seq::<SpanView>::empty());
            }
        }
    }

    fn pop_style(&mut self)
        ensures
            final(self).view() == popped(old(self).view()),
    {
        if self.styles.len() > 1 {
            self.styles.pop();
        }
    }

    fn push_span(&mut self, text: String, style: MdStyle)
        ensures
            final(self).view() == (MdStateView { current: old(self).view().current.push((text@, style)), ..old(self).view() }),
    {
        let ghost before = self.current@;
        self.current.push(MdSpan { text, style });
        proof {
            assert(line_view(self.current@) =~= line_view(before).push((text@, style)));
        }
    }

    fn push_line(&mut self, line: Vec<MdSpan>)
        ensures
            final(self).view() == (MdStateView { lines: old(self).view().lines.push(line_view(line@)), ..old(self).view() }),
    {
        let ghost before = self.lines@;
        self.lines.push(line);
        proof {
            assert(lines_view(self.lines@) =~= lines_view(before).push(line_view(line@)));
        }
    }

    /// Adds text pieces, each after the first on a new line.
    fn push_pieces(&mut self, pieces: &Vec<String>, style: MdStyle)
        ensures
            final(self).view() == with_pieces(old(self).view(), pieces@.map_values(|p: String| p@), style),
    {
        let ghost ps = pieces@.map_values(|p: String| p@);
        let ghost start = self.view();
        let mut i: usize = 0;
        while i < pieces.len()
            invariant
                i <= pieces.len(),
                ps == pieces@.map_values(|p: String| p@),
                self.view() == with_pieces(start, ps.take(i as int), style),
            decreases pieces.len() - i,
        {
            proof {
                assert(ps.take(i + 1).drop_last() =~= ps.take(i as int));
                assert(ps.take(i + 1).last() == pieces@[i as int]@);
            }
            if i > 0 {
                self.flush();
            }
            if !pieces[i].as_str().is_empty() {
                self.push_span(pieces[i].clone(), style);
            }
            i = i + 1;
        }
        proof {
            assert(ps.take(pieces.len() as int) =~= ps);
        }
    }

    fn end_code_block(&mut self, hl: &Vec<Option<Vec<Vec<MdSpan>>>>)
        requires
            old(self).blocks < usize::MAX,
        ensures
            final(self).view() == step(old(self).view(), MdEventView::EndCodeBlock, hl_view(hl@)),
    {
        self.in_code = false;
        let ghost s0 = self.view();
        let entry: Option<&Option<Vec<Vec<MdSpan>>>> = if self.blocks < hl.len() {
            Some(&hl[self.blocks])
        } else {
            None
        };
        let ghost hv = if s0.blocks < hl_view(hl@).len() { hl_view(hl@)[s0.blocks as int] } else { None };
        proof {
            if s0.blocks < hl_view(hl@).len() {
                assert(hl_view(hl@)[s0.blocks as int] == opt_lines_view(hl@[s0.blocks as int]));
            }
        }
        let ghost before = self.lines@;
        match entry {
            Some(Some(ls)) => {
                proof {
                    assert(hv == Some(lines_view(ls@)));
                }
                let mut i: usize = 0;
                while i < ls.len()
                    invariant
                        i <= ls.len(),
                        self.view() == (MdStateView { lines: lines_view(before) + lines_view(ls@).take(i as int), ..s0 }),
                    decreases ls.len() - i,
                {
                    self.push_line(copy_line(&ls[i]));
                    proof {
                        assert(lines_view(ls@).take(i + 1) =~= lines_view(ls@).take(i as int).push(line_view(ls@[i as int]@)));
                    }
                    i = i + 1;
                }
                proof {
                    assert(lines_view(ls@).take(ls@.len() as int) =~= lines_view(ls@));
                    assert(self.view().lines =~= s0.lines + code_lines(hv, s0.code));
                }
            },
            _ => {
                proof {
                    assert(hv is None);
                }
                let code_text = self.code.clone();
                let code_lines_vec = split_lines(code_text.as_str());
                let ghost cl = strs_view(code_lines_vec@);
                let mut i: usize = 0;
                while i < code_lines_vec.len()
                    invariant
                        i <= code_lines_vec.len(),
                        cl == strs_view(code_lines_vec@),
                        cl == lines_of(s0.code),
                        self.view() == (MdStateView {
                            lines: lines_view(before) + Seq::new(i as nat, |k: int| seq![(cl[k], plain_style(Tone::PlainCode))]),
                            ..s0
                        }),
                    decreases code_lines_vec.len() - i,
                {
                    let mut line: Vec<MdSpan> = Vec::new();
                    line.push(MdSpan { text: owned(code_lines_vec[i]), style: plain(Tone::PlainCode) });
                    proof {
                        assert(line_view(line@) =~= seq![(cl[i as int], plain_style(Tone::PlainCode))]);
                    }
                    self.push_line(line);
                    proof {
                        assert(self.view().lines =~= lines_view(before) + Seq::new((i + 1) as nat, |k: int| seq![(cl[k], plain_style(Tone::PlainCode))]));
                    }
                    i = i + 1;
                }
                proof {
                    assert(self.view().lines =~= s0.lines + code_lines(hv, s0.code));
                }
            },
        }
        let ghost mid = self.view();
        proof {
            assert(mid.lines =~= s0.lines + code_lines(hv, s0.code));
        }
        let mut fence: Vec<MdSpan> = Vec::new();
        fence.push(MdSpan { text: owned("```"), style: MdStyle { dim: true, ..plain(Tone::Fence) } });
        proof {
            assert(line_view(fence@) =~= seq![("```"@, fence_style())]);
        }
        self.push_line(fence);
        self.blocks = self.blocks + 1;
        proof {
            assert(self.view().lines =~= s0.lines + code_lines(hv, s0.code) + seq![seq![("```"@, fence_style())]]);
        }
    }

    fn text(&mut self, t: &String)
        ensures
            final(self).view() == step(old(self).view(), MdEventView::Text(t@), seq![]),
    {
        if self.in_code {
            push_str(&mut self.code, t.as_str());
        } else if self.quote_depth > 0 {
            let style = self.current_style();
            let v = chars_of(t.as_str());
            let pieces = split_chars(&v, '\n');
            let mut prefixed: Vec<String> = Vec::new();
            let mut i: usize = 0;
            while i < pieces.len()
                invariant
                    i <= pieces.len(),
                    prefixed@.map_values(|p: String| p@) == Seq::new(i as nat, |k: int| "| "@ + pieces@[k]@),
                decreases pieces.len() - i,
            {
                let mut p = owned("| ");
                push_str(&mut p, pieces[i].as_str());
                let ghost before = prefixed@;
                let ghost pv = p@;
                prefixed.push(p);
                proof {
                    assert(pv == "| "@ + pieces@[i as int]@);
                    assert(prefixed@.map_values(|p: String| p@) =~= before.map_values(|p: String| p@).push(pv));
                    assert(prefixed@.map_values(|p: String| p@) =~= Seq::new((i + 1) as nat, |k: int| "| "@ + pieces@[k]@));
                }
                i = i + 1;
            }
            proof {
                let sp = split_on(t@, '\n');
                assert(pieces@.map_values(|p: String| p@) == sp);
                assert(prefixed@.map_values(|p: String| p@) =~= Seq::new(sp.len(), |k: int| "| "@ + sp[k]));
            }
            self.push_pieces(&prefixed, style);
        } else if !t.as_str().is_empty() {
            let style = self.current_style();
            let v = chars_of(t.as_str());
            let pieces = split_chars(&v, '\n');
            self.push_pieces(&pieces, style);
        }
    }

    fn start_item(&mut self)
        requires
            forall|k: int| 0 <= k < old(self).lists@.len() && old(self).lists@[k] is Some ==> #[trigger] old(self).lists@[k]->0 < u64::MAX,
        ensures
            final(self).view() == step(old(self).view(), MdEventView::StartItem, seq![]),
    {
        self.flush();
        let style = self.current_style();
        let n = self.lists.len();
        let prefix = if n > 0 && self.lists[n - 1].is_some() {
            let num = match self.lists[n - 1] {
                Some(x) => x,
                None => 0,
            };
            let mut p = owned("  ");
            push_decimal(&mut p, num);
            push_str(&mut p, ". ");
            self.lists.set(n - 1, Some(num + 1));
            p
        } else {
            owned("  - ")
        };
        self.push_span(prefix, style);
    }

    fn rule(&mut self)
        ensures
            final(self).view() == step(old(self).view(), MdEventView::Rule, seq![]),
    {
        self.flush();
        let mut text = String::new();
        let mut i: usize = 0;
        while i < 40
            invariant
                i <= 40,
                text@ == Seq::new(i as nat, |k: int| '\u{2500}'),
            decreases 40 - i,
        {
            crate::text::push_char(&mut text, '\u{2500}');
            proof {
                assert(text@ =~= Seq::new((i + 1) as nat, |k: int| '\u{2500}'));
            }
            i = i + 1;
        }
        let mut line: Vec<MdSpan> = Vec::new();
        line.push(MdSpan { text, style: plain(Tone::Rule) });
        proof {
            assert(line_view(line@) =~= seq![(rule_text(), plain_style(Tone::Rule))]);
        }
        self.push_line(line);
    }

    fn start_heading(&mut self, level: u8)
        ensures
            final(self).view() == step(old(self).view(), MdEventView::StartHeading(level), seq![]),
    {
        self.flush();
        let hs = MdStyle { bold: true, ..plain(Tone::Header) };
        self.styles.push(hs);
        let mut prefix = String::new();
        let mut i: u8 = 0;
        while i < level
            invariant
                i <= level,
                prefix@ == Seq::new(i as nat, |k: int| '#'),
            decreases level - i,
        {
            crate::text::push_char(&mut prefix, '#');
            proof {
                assert(prefix@ =~= Seq::new((i + 1) as nat, |k: int| '#'));
            }
            i = i + 1;
        }
        push_str(&mut prefix, " ");
        self.push_span(prefix, hs);
    }

    fn start_code_block(&mut self, lang: &String)
        ensures
            final(self).view() == step(old(self).view(), MdEventView::StartCodeBlock(lang@), seq![]),
    {
        self.flush();
        let mut label = owned("```");
        push_str(&mut label, lang.as_str());
        let mut fence: Vec<MdSpan> = Vec::new();
        fence.push(MdSpan { text: label, style: MdStyle { dim: true, ..plain(Tone::Fence) } });
        proof {
            assert(line_view(fence@) =~= seq![(fence_label(lang@), fence_style())]);
        }
        self.push_line(fence);
        self.in_code = true;
        self.code = String::new();
        self.lang = lang.clone();
    }

    /// Takes in one event.
    fn process(&mut self, e: &MdEvent, hl: &Vec<Option<Vec<Vec<MdSpan>>>>)
        requires
        old(self).quote_depth < usize::MAX,
        old(self).blocks < usize::MAX,
        forall|k: int| 0 <= k < old(self).lists@.len() && old(self).lists@[k] is Some ==> #[trigger] old(self).lists@[k]->0 < u64::MAX,
        ensures
        final(self).view() == step(old(self).view(), e@, hl_view(hl@)),
    {
        match e {
        MdEvent::StartCodeBlock(lang) => {
            self.start_code_block(lang);
        },
        MdEvent::EndCodeBlock => {
            self.end_code_block(hl);
        },
        MdEvent::Text(t) => {
            self.text(t);
        },
        MdEvent::StartHeading(level) => {
            self.start_heading(*level);
        },
        MdEvent::EndHeading => {
            self.pop_style();
            self.flush();
        },
        MdEvent::StartParagraph => {
            let n = self.lines.len();
            if n > 0 && self.lines[n - 1].len() > 0 {
                proof {
                    assert(lines_view(self.lines@).last() == line_view(self.lines@[n - 1]@));
                }
                let empty: Vec<MdSpan> = Vec::new();
                proof {
                    assert(line_view(empty@) =~= Seq::<SpanView>::empty());
                }
                self.push_line(empty);
            } else {
                proof {
                    if n > 0 {
                        assert(lines_view(self.lines@).last() == line_view(self.lines@[n - 1]@));
                    }
                }
            }
        },
        MdEvent::EndParagraph => {
            self.flush();
        },
        MdEvent::StartBlockQuote => {
            self.flush();
            self.quote_depth = self.quote_depth + 1;
            self.styles.push(MdStyle { dim: true, ..plain(Tone::Accent) });
        },
        MdEvent::EndBlockQuote => {
            if self.quote_depth > 0 {
                self.quote_depth = self.quote_depth - 1;
            }
            self.pop_style();
            self.flush();
        },
        MdEvent::StartList(n) => {
            self.flush();
            self.lists.push(*n);
        },
        MdEvent::EndList => {
            if self.lists.len() > 0 {
                self.lists.pop();
            }
            self.flush();
        },
        MdEvent::StartItem => {
            self.start_item();
        },
        MdEvent::EndItem => {
            self.flush();
        },
        MdEvent::StartStrong => {
            let c = self.current_style();
            self.styles.push(MdStyle { bold: true, ..c });
        },
        MdEvent::StartEmphasis => {
            let c = self.current_style();
            self.styles.push(MdStyle { italic: true, ..c });
        },
        MdEvent::StartStrikethrough => {
            let c = self.current_style();
            self.styles.push(MdStyle { crossed: true, ..c });
        },
        MdEvent::StartLink => {
            self.styles.push(MdStyle { underlined: true, ..plain(Tone::Accent) });
        },
        MdEvent::EndStrong | MdEvent::EndEmphasis | MdEvent::EndStrikethrough | MdEvent::EndLink => {
            self.pop_style();
        },
        MdEvent::Code(t) => {
            self.push_span(t.clone(), plain(Tone::InlineCode));
        },
        MdEvent::SoftBreak => {
            let style = self.current_style();
            self.push_span(owned(" "), style);
        },
        MdEvent::HardBreak => {
            self.flush();
        },
        MdEvent::Rule => {
            self.rule();
        },
        MdEvent::Other => {},
        }
    }
}

/// A copy of a line.
fn copy_line(l: &Vec<MdSpan>) -> (r: Vec<MdSpan>)
    ensures
        line_view(r@) == line_view(l@),
{
    let mut out: Vec<MdSpan> = Vec::new();
    let mut i: usize = 0;
    while i < l.len()
        invariant
            i <= l.len(),
            line_view(out@) == line_view(l@).take(i as int),
        decreases l.len() - i,
    {
        let ghost before = out@;
        out.push(MdSpan { text: l[i].text.clone(), style: l[i].style });
        proof {
            assert(line_view(out@) =~= line_view(before).push((l@[i as int].text@, l@[i as int].style)));
            assert(line_view(l@).take(i + 1) =~= line_view(l@).take(i as int).push((l@[i as int].text@, l@[i as int].style)));
        }
        i = i + 1;
    }
    proof {
        assert(line_view(l@).take(l@.len() as int) =~= line_view(l@));
    }
    out
}

/// Highlighted lines as plain values.
pub open spec fn opt_lines_view(o: Option<Vec<Vec<MdSpan>>>) -> Option<Seq<Seq<SpanView>>> {
    match o {
        Some(ls) => Some(lines_view(ls@)),
        None => None,
    }
}

/// The highlighting of each code block as plain values.
pub open spec fn hl_view(v: Seq<Option<Vec<Vec<MdSpan>>>>) -> Seq<Option<Seq<Seq<SpanView>>>> {
    v.map_values(|o: Option<Vec<Vec<MdSpan>>>| opt_lines_view(o))
}

} // verus!

verus! {

// ---------------------------------------------------------------------------
// Running the renderer over a document
// ---------------------------------------------------------------------------

/// Whether an event keeps list numbers at most `bound`.
pub open spec fn start_within(e: MdEventView, bound: int) -> bool {
    match e {
        MdEventView::StartList(Some(n)) => n <= bound,
        _ => true,
    }
}

/// Whether the events can be rendered without a counter overflowing: there
/// are fewer than `usize::MAX` of them and no ordered list starts so high
/// that counting its items could pass `u64::MAX`.
pub open spec fn renderable(es: Seq<MdEventView>) -> bool {
    &&& es.len() < usize::MAX
    &&& forall|i: int| 0 <= i < es.len() ==> start_within(#[trigger] es[i], u64::MAX - es.len())
}

/// Every list number is at most `bound`.
pub open spec fn lists_within(lists: Seq<Option<u64>>, bound: int) -> bool {
    forall|k: int| 0 <= k < lists.len() && lists[k] is Some ==> #[trigger] lists[k]->0 <= bound
}

/// Adding text pieces touches neither lists, quotes nor code blocks.
proof fn lemma_with_pieces_keeps(s: MdStateView, pieces: Seq<Seq<char>>, style: MdStyle)
    ensures
        with_pieces(s, pieces, style).lists == s.lists,
        with_pieces(s, pieces, style).quote_depth == s.quote_depth,
        with_pieces(s, pieces, style).blocks == s.blocks,
    decreases pieces.len(),
{
    if pieces.len() > 0 {
        lemma_with_pieces_keeps(s, pieces.drop_last(), style);
    }
}

/// One event raises the quote depth and the block count by one at most.
proof fn lemma_step_counters(s: MdStateView, e: MdEventView, hl: Seq<Option<Seq<Seq<SpanView>>>>)
    ensures
        step(s, e, hl).quote_depth <= s.quote_depth + 1,
        step(s, e, hl).blocks <= s.blocks + 1,
{
    match e {
        MdEventView::Text(t) => {
            let pieces = split_on(t, '\n');
            lemma_with_pieces_keeps(s, Seq::new(pieces.len(), |i: int| "| "@ + pieces[i]), current_style(s));
            lemma_with_pieces_keeps(s, pieces, current_style(s));
        },
        _ => {},
    }
}

proof fn lemma_step_lists(s: MdStateView, e: MdEventView, hl: Seq<Option<Seq<Seq<SpanView>>>>, bound: int)
    requires
        lists_within(s.lists, bound),
        start_within(e, bound + 1),
        bound < u64::MAX,
    ensures
        lists_within(step(s, e, hl).lists, bound + 1),
{
    let t = step(s, e, hl);
    assert forall|k: int| 0 <= k < t.lists.len() && t.lists[k] is Some implies #[trigger] t.lists[k]->0 <= bound + 1 by {
        match e {
            MdEventView::StartList(n) => {
                let f = flushed(s);
                if k < s.lists.len() {
                    assert(t.lists[k] == s.lists[k]);
                }
            },
            MdEventView::EndList => {
                assert(t.lists[k] == s.lists[k]);
            },
            MdEventView::StartItem => {
                if k < s.lists.len() - 1 {
                    assert(t.lists[k] == s.lists[k]);
                } else {
                    assert(s.lists.len() > 0);
                }
            },
            MdEventView::Text(x) => {
                let pieces = split_on(x, '\n');
                lemma_with_pieces_keeps(s, Seq::new(pieces.len(), |i: int| "| "@ + pieces[i]), current_style(s));
                lemma_with_pieces_keeps(s, pieces, current_style(s));
                assert(t.lists == s.lists);
            },
            _ => {
                assert(t.lists == s.lists);
            },
        }
    }
}

/// Whether an event list can be rendered.
pub fn events_renderable(events: &Vec<MdEvent>) -> (r: bool)
    ensures
        r == renderable(events_view(events@)),
{
    let n = events.len();
    if n == usize::MAX {
        return false;
    }
    let bound: u64 = if (n as u64) <= u64::MAX {
        u64::MAX - (n as u64)
    } else {
        0
    };
    let mut i: usize = 0;
    while i < n
        invariant
            i <= n,
            n == events@.len(),
            n < usize::MAX,
            bound == u64::MAX - n,
            forall|j: int| 0 <= j < i ==> start_within(#[trigger] events_view(events@)[j], u64::MAX - n),
        decreases n - i,
    {
        match &events[i] {
            MdEvent::StartList(Some(start)) => {
                if *start > bound {
                    proof {
                        assert(!start_within(events_view(events@)[i as int], u64::MAX - n));
                    }
                    return false;
                }
            },
            _ => {},
        }
        i = i + 1;
    }
    true
}

/// Renders markdown events to lines; `hl` holds the highlighting of each
/// code block in order (`None` for plain code).
pub fn render_events(events: &Vec<MdEvent>, hl: &Vec<Option<Vec<Vec<MdSpan>>>>) -> (r: Vec<Vec<MdSpan>>)
    requires
        renderable(events_view(events@)),
    ensures
        lines_view(r@) == rendered(events_view(events@), hl_view(hl@)),
{
    let ghost es = events_view(events@);
    let ghost hv = hl_view(hl@);
    let n = events.len();
    let mut st = MdState {
        lines: Vec::new(),
        current: Vec::new(),
        styles: Vec::new(),
        lists: Vec::new(),
        quote_depth: 0,
        in_code: false,
        lang: String::new(),
        code: String::new(),
        blocks: 0,
    };
    st.styles.push(plain(Tone::Base));
    proof {
        assert(st.view().lines =~= Seq::<Seq<SpanView>>::empty());
        assert(st.view().current =~= Seq::<SpanView>::empty());
        assert(st.view().styles =~= seq![base_style()]);
        assert(st.view() == initial_state());
        assert(es.take(0) =~= Seq::<MdEventView>::empty());
    }
    let mut i: usize = 0;
    while i < n
        invariant
            i <= n,
            n == events@.len(),
            es == events_view(events@),
            hv == hl_view(hl@),
            renderable(es),
            st.view() == run(es.take(i as int), hv),
            st.quote_depth <= i,
            st.blocks <= i,
            lists_within(st.lists@, u64::MAX - (n - i)),
        decreases n - i,
    {
        proof {
            assert(es.take(i + 1).drop_last() =~= es.take(i as int));
            assert(es.take(i + 1).last() == events@[i as int]@);
            assert(start_within(es[i as int], u64::MAX - n));
            lemma_step_lists(st.view(), es[i as int], hv, u64::MAX - (n - i));
            lemma_step_counters(st.view(), es[i as int], hv);
        }
        st.process(&events[i], hl);
        i = i + 1;
    }
    st.flush();
    proof {
        assert(es.take(n as int) =~= es);
    }
    st.lines
}

} // verus!

verus! {

// ---------------------------------------------------------------------------
// The parser and the highlighter
// ---------------------------------------------------------------------------

/// The events `pulldown_cmark::Parser::new_ext` yields for a text with
/// strikethrough enabled, as `MdEvent`s.
pub uninterp spec fn md_events_of(text: Seq<char>) -> Seq<MdEventView>;

#[verifier::external_type_specification]
#[verifier::external_body]
pub struct ExMarkdownEvent<'a>(pulldown_cmark::Event<'a>);

#[verifier::external_type_specification]
#[verifier::external_body]
pub struct ExMarkdownTag<'a>(pulldown_cmark::Tag<'a>);

#[verifier::external_type_specification]
#[verifier::external_body]
pub struct ExMarkdownTagEnd(pulldown_cmark::TagEnd);

#[verifier::external_type_specification]
#[verifier::external_body]
pub struct ExCodeBlockKind<'a>(pulldown_cmark::CodeBlockKind<'a>);

/// Converts a parser event, one variant to one variant.
#[verifier::external_body]
fn md_event(e: Event) -> MdEvent {
    match e {
        Event::Start(t) => md_start(t),
        Event::End(t) => md_end(t),
        Event::Text(t) => MdEvent::Text(t.to_string()),
        Event::Code(t) => MdEvent::Code(t.to_string()),
        Event::SoftBreak => MdEvent::SoftBreak,
        Event::HardBreak => MdEvent::HardBreak,
        Event::Rule => MdEvent::Rule,
        _ => MdEvent::Other,
    }
}

/// Converts the start of a tag.
#[verifier::external_body]
fn md_start(t: Tag) -> MdEvent {
    match t {
        Tag::CodeBlock(k) => MdEvent::StartCodeBlock(fence_info(k)),
        Tag::Heading { level, .. } => MdEvent::StartHeading(level as u8),
        Tag::Paragraph => MdEvent::StartParagraph,
        Tag::BlockQuote(_) => MdEvent::StartBlockQuote,
        Tag::List(n) => MdEvent::StartList(n),
        Tag::Item => MdEvent::StartItem,
        Tag::Strong => MdEvent::StartStrong,
        Tag::Emphasis => MdEvent::StartEmphasis,
        Tag::Strikethrough => MdEvent::StartStrikethrough,
        Tag::Link { .. } => MdEvent::StartLink,
        _ => MdEvent::Other,
    }
}

/// A code block's info string: the fence's, or none for an indented block.
#[verifier::external_body]
fn fence_info(k: CodeBlockKind) -> String {
    match k {
        CodeBlockKind::Fenced(lang) => lang.to_string(),
        CodeBlockKind::Indented => String::new(),
    }
}

/// Converts the end of a tag.
#[verifier::external_body]
fn md_end(t: TagEnd) -> MdEvent {
    match t {
        TagEnd::CodeBlock => MdEvent::EndCodeBlock,
        TagEnd::Heading(_) => MdEvent::EndHeading,
        TagEnd::Paragraph => MdEvent::EndParagraph,
        TagEnd::BlockQuote(_) => MdEvent::EndBlockQuote,
        TagEnd::List(_) => MdEvent::EndList,
        TagEnd::Item => MdEvent::EndItem,
        TagEnd::Strong => MdEvent::EndStrong,
        TagEnd::Emphasis => MdEvent::EndEmphasis,
        TagEnd::Strikethrough => MdEvent::EndStrikethrough,
        TagEnd::Link => MdEvent::EndLink,
        _ => MdEvent::Other,
    }
}

/// `pulldown_cmark::Parser::new_ext` with `ENABLE_STRIKETHROUGH`, its events
/// converted, collected into a vector (which holds at most `isize::MAX`
/// items). Claimed: the events depend on the text alone, and an ordered
/// list's start number has at most nine digits (the parser reads no more);
/// the markdown grammar is not stated.
#[verifier::external_body]
fn md_events(text: &str) -> (r: Vec<MdEvent>)
    ensures
        events_view(r@) == md_events_of(text@),
        r@.len() <= isize::MAX,
        forall|i: int| 0 <= i < r@.len() ==> start_within(#[trigger] events_view(r@)[i], 999_999_999),
{
    pulldown_cmark::Parser::new_ext(text, pulldown_cmark::Options::ENABLE_STRIKETHROUGH).map(md_event).collect()
}

#[verifier::external_type_specification]
#[verifier::external_body]
pub struct ExSyntaxSet(syntect::parsing::SyntaxSet);

#[verifier::external_type_specification]
#[verifier::external_body]
pub struct ExSyntaxReference(syntect::parsing::SyntaxReference);

#[verifier::external_type_specification]
#[verifier::external_body]
pub struct ExThemeSet(syntect::highlighting::ThemeSet);

#[verifier::external_type_specification]
#[verifier::external_body]
pub struct ExHighlightTheme(syntect::highlighting::Theme);

#[verifier::external_type_specification]
#[verifier::external_body]
pub struct ExHighlightLines<'a>(syntect::easy::HighlightLines<'a>);

/// The tokens (file extensions and names, either case) for which a syntax
/// set finds a syntax (`SyntaxSet::find_syntax_by_token`).
pub uninterp spec fn syntax_tokens(set: syntect::parsing::SyntaxSet) -> Set<Seq<char>>;

/// The names of the themes of a theme set (the keys of `ThemeSet::themes`).
pub uninterp spec fn theme_keys(set: syntect::highlighting::ThemeSet) -> Set<Seq<char>>;

/// The highlighting theme code blocks are drawn with.
pub open spec fn code_theme() -> Seq<char> {
    "base16-ocean.dark"@
}

/// `SyntaxSet::load_defaults_newlines`: the bundled syntaxes.
#[verifier::external_body]
fn load_syntaxes() -> syntect::parsing::SyntaxSet {
    syntect::parsing::SyntaxSet::load_defaults_newlines()
}

/// `ThemeSet::load_defaults`: the bundled highlighting themes, which syntect
/// documents to include `base16-ocean.dark`.
#[verifier::external_body]
fn load_themes() -> (r: syntect::highlighting::ThemeSet)
    ensures
        theme_keys(r).contains(code_theme()),
{
    syntect::highlighting::ThemeSet::load_defaults()
}

/// The theme of that name in the set (`ThemeSet::themes` looked up): found
/// exactly when the set has a theme of that name.
#[verifier::external_body]
fn theme_named<'a>(set: &'a syntect::highlighting::ThemeSet, name: &str) -> (r: Option<&'a syntect::highlighting::Theme>)
    ensures
        r is Some <==> theme_keys(*set).contains(name@),
{
    set.themes.get(name)
}

/// `SyntaxSet::find_syntax_by_token`: the syntax a fence's info string
/// names, found exactly for the set's tokens.
#[verifier::external_body]
fn syntax_for<'a>(set: &'a syntect::parsing::SyntaxSet, token: &str) -> (r: Option<&'a syntect::parsing::SyntaxReference>)
    ensures
        r is Some <==> syntax_tokens(*set).contains(token@),
{
    set.find_syntax_by_token(token)
}

/// `HighlightLines::new`.
#[verifier::external_body]
fn highlighter<'a>(
    syntax: &'a syntect::parsing::SyntaxReference,
    theme: &'a syntect::highlighting::Theme,
) -> syntect::easy::HighlightLines<'a> {
    syntect::easy::HighlightLines::new(syntax, theme)
}

/// The texts of highlighted spans, one after the other.
pub open spec fn span_texts(v: Seq<(u8, u8, u8, String)>) -> Seq<char>
    decreases v.len(),
{
    if v.len() == 0 {
        seq![]
    } else {
        span_texts(v.drop_last()) + v.last().3@
    }
}

/// `HighlightLines::highlight_line`, an error read as no span: each span as
/// its foreground colour and text. syntect documents that the texts of the
/// spans make up the line; their colours depend on the lines highlighted
/// before and are not stated.
#[verifier::external_body]
fn highlight_line(h: &mut syntect::easy::HighlightLines, line: &str, set: &syntect::parsing::SyntaxSet) -> (r: Vec<(u8, u8, u8, String)>)
    ensures
        r@.len() == 0 || span_texts(r@) == line@,
{
    h.highlight_line(line, set).unwrap_or_default().into_iter().map(
        |(st, t)| (st.foreground.r, st.foreground.g, st.foreground.b, t.to_string()),
    ).collect()
}

/// The language and code of each code block, in order: what the renderer
/// has collected when each block ends.
pub open spec fn code_blocks_of(es: Seq<MdEventView>) -> Seq<(Seq<char>, Seq<char>)>
    decreases es.len(),
{
    if es.len() == 0 {
        seq![]
    } else {
        let before = code_blocks_of(es.drop_last());
        match es.last() {
            MdEventView::EndCodeBlock => {
                let s = run(es.drop_last(), seq![]);
                before.push((s.lang, s.code))
            },
            _ => before,
        }
    }
}

/// The texts of a line's spans, one after the other.
pub open spec fn joined(l: Seq<SpanView>) -> Seq<char>
    decreases l.len(),
{
    if l.len() == 0 {
        seq![]
    } else {
        joined(l.drop_last()) + l.last().0
    }
}

/// A code block's highlighting is as it should be: none without a
/// language, otherwise (when there is any) one line per line of code, each
/// span in a plain highlighted colour, the spans' texts making up the line
/// (a line the highlighter failed on has no span).
pub open spec fn highlight_fits(block: (Seq<char>, Seq<char>), h: Option<Seq<Seq<SpanView>>>) -> bool {
    match h {
        None => true,
        Some(ls) => {
            &&& block.0.len() > 0
            &&& ls.len() == lines_of(block.1).len()
            &&& forall|i: int| 0 <= i < ls.len() ==> #[trigger] ls[i].len() == 0 || joined(ls[i]) == lines_of(block.1)[i]
            &&& forall|i: int, j: int|
                0 <= i < ls.len() && 0 <= j < ls[i].len() ==> (#[trigger] ls[i][j]).1.tone is Rgb && ls[i][j].1
                    == plain_style(ls[i][j].1.tone)
        },
    }
}

/// The renderer's lang and code do not depend on the highlighting.
proof fn lemma_run_code_independent(es: Seq<MdEventView>, hl: Seq<Option<Seq<Seq<SpanView>>>>)
    ensures
        run(es, hl).lang == run(es, seq![]).lang,
        run(es, hl).code == run(es, seq![]).code,
        run(es, hl).in_code == run(es, seq![]).in_code,
    decreases es.len(),
{
    if es.len() > 0 {
        lemma_run_code_independent(es.drop_last(), hl);
        let a = run(es.drop_last(), hl);
        let b = run(es.drop_last(), seq![]);
        match es.last() {
            MdEventView::Text(t) => {
                let pieces = split_on(t, '\n');
                lemma_with_pieces_code(a, Seq::new(pieces.len(), |i: int| "| "@ + pieces[i]), current_style(a));
                lemma_with_pieces_code(a, pieces, current_style(a));
                lemma_with_pieces_code(b, Seq::new(pieces.len(), |i: int| "| "@ + pieces[i]), current_style(b));
                lemma_with_pieces_code(b, pieces, current_style(b));
            },
            _ => {},
        }
    }
}

/// Adding text pieces leaves the code block being collected alone.
proof fn lemma_with_pieces_code(s: MdStateView, pieces: Seq<Seq<char>>, style: MdStyle)
    ensures
        with_pieces(s, pieces, style).lang == s.lang,
        with_pieces(s, pieces, style).code == s.code,
        with_pieces(s, pieces, style).in_code == s.in_code,
    decreases pieces.len(),
{
    if pieces.len() > 0 {
        lemma_with_pieces_code(s, pieces.drop_last(), style);
    }
}

/// The code blocks of the events.
fn code_blocks(events: &Vec<MdEvent>) -> (r: Vec<(String, String)>)
    ensures
        r@.map_values(|b: (String, String)| (b.0@, b.1@)) == code_blocks_of(events_view(events@)),
{
    let ghost es = events_view(events@);
    let mut out: Vec<(String, String)> = Vec::new();
    let mut in_code = false;
    let mut lang = String::new();
    let mut code = String::new();
    let mut i: usize = 0;
    proof {
        assert(es.take(0) =~= Seq::<MdEventView>::empty());
    }
    while i < events.len()
        invariant
            i <= events.len(),
            es == events_view(events@),
            out@.map_values(|b: (String, String)| (b.0@, b.1@)) == code_blocks_of(es.take(i as int)),
            in_code == run(es.take(i as int), seq![]).in_code,
            lang@ == run(es.take(i as int), seq![]).lang,
            code@ == run(es.take(i as int), seq![]).code,
        decreases events.len() - i,
    {
        let ghost pre = es.take(i as int);
        proof {
            assert(es.take(i + 1).drop_last() =~= pre);
            assert(es.take(i + 1).last() == events@[i as int]@);
        }
        match &events[i] {
            MdEvent::StartCodeBlock(l) => {
                in_code = true;
                lang = l.clone();
                code = String::new();
            },
            MdEvent::EndCodeBlock => {
                let ghost before = out@;
                out.push((lang.clone(), code.clone()));
                proof {
                    assert(out@.map_values(|b: (String, String)| (b.0@, b.1@)) =~= before.map_values(
                        |b: (String, String)| (b.0@, b.1@),
                    ).push((lang@, code@)));
                }
                in_code = false;
            },
            MdEvent::Text(t) => {
                if in_code {
                    push_str(&mut code, t.as_str());
                } else {
                    proof {
                        let s = run(pre, seq![]);
                        let pieces = split_on(t@, '\n');
                        lemma_with_pieces_code(s, Seq::new(pieces.len(), |k: int| "| "@ + pieces[k]), current_style(s));
                        lemma_with_pieces_code(s, pieces, current_style(s));
                    }
                }
            },
            _ => {},
        }
        i = i + 1;
    }
    proof {
        assert(es.take(events.len() as int) =~= es);
    }
    out
}

/// The highlighted lines of a code block: none without a language or a
/// theme, or when the syntax set has no syntax for the language; otherwise
/// one line per line of code, as the highlighter gives them.
fn highlight_block(
    syntaxes: &syntect::parsing::SyntaxSet,
    theme: Option<&syntect::highlighting::Theme>,
    lang: &str,
    code: &str,
) -> (r: Option<Vec<Vec<MdSpan>>>)
    ensures
        highlight_fits((lang@, code@), opt_lines_view(r)),
        r is Some <==> (lang@.len() > 0 && theme is Some && syntax_tokens(*syntaxes).contains(lang@)),
{
    if lang.is_empty() {
        return None;
    }
    let th = match theme {
        Some(t) => t,
        None => {
            return None;
        },
    };
    let syntax = match syntax_for(syntaxes, lang) {
        Some(s) => s,
        None => {
            return None;
        },
    };
    let mut h = highlighter(syntax, th);
    let code_lines = split_lines(code);
    let ghost cl = strs_view(code_lines@);
    let mut out: Vec<Vec<MdSpan>> = Vec::new();
    let mut i: usize = 0;
    while i < code_lines.len()
        invariant
            i <= code_lines.len(),
            cl == strs_view(code_lines@),
            out@.len() == i,
            forall|a: int, b: int|
                0 <= a < out@.len() && 0 <= b < lines_view(out@)[a].len() ==> (#[trigger] lines_view(out@)[a][b]).1.tone is Rgb
                    && lines_view(out@)[a][b].1 == plain_style(lines_view(out@)[a][b].1.tone),
            forall|a: int|
                0 <= a < out@.len() ==> #[trigger] lines_view(out@)[a].len() == 0 || joined(lines_view(out@)[a]) == cl[a],
        decreases code_lines.len() - i,
    {
        let spans = highlight_line(&mut h, code_lines[i], syntaxes);
        let mut line: Vec<MdSpan> = Vec::new();
        let mut k: usize = 0;
        while k < spans.len()
            invariant
                k <= spans.len(),
                line@.len() == k,
                joined(line_view(line@)) == span_texts(spans@.take(k as int)),
                forall|b: int|
                    0 <= b < line_view(line@).len() ==> (#[trigger] line_view(line@)[b]).1.tone is Rgb
                        && line_view(line@)[b].1 == plain_style(line_view(line@)[b].1.tone),
            decreases spans.len() - k,
        {
            let (r, g, b, ref t) = spans[k];
            let ghost before_line = line@;
            let st = plain(Tone::Rgb(r, g, b));
            line.push(MdSpan { text: owned(t.as_str()), style: st });
            proof {
                assert(line_view(line@) =~= line_view(before_line).push((t@, st)));
                assert(line_view(line@).drop_last() =~= line_view(before_line));
                assert(spans@.take(k + 1).drop_last() =~= spans@.take(k as int));
                assert(spans@.take(k + 1).last() == spans@[k as int]);
            }
            k = k + 1;
        }
        proof {
            assert(spans@.take(spans@.len() as int) =~= spans@);
            assert(cl[i as int] == code_lines@[i as int]@);
        }
        let ghost before = out@;
        out.push(line);
        proof {
            assert forall|a: int, b: int|
                0 <= a < out@.len() && 0 <= b < lines_view(out@)[a].len() implies (#[trigger] lines_view(out@)[a][b]).1.tone is Rgb
                    && lines_view(out@)[a][b].1 == plain_style(lines_view(out@)[a][b].1.tone) by {
                if a < before.len() {
                    assert(lines_view(out@)[a] == lines_view(before)[a]);
                }
            }
            assert forall|a: int|
                0 <= a < out@.len() implies #[trigger] lines_view(out@)[a].len() == 0 || joined(lines_view(out@)[a]) == cl[a] by {
                if a < before.len() {
                    assert(lines_view(out@)[a] == lines_view(before)[a]);
                }
            }
        }
        i = i + 1;
    }
    proof {
        assert(strs_view(code_lines@).len() == code_lines@.len());
    }
    Some(out)
}

/// Whether `lines` is what the renderer gives for the markdown `text`: its
/// events rendered, each code block highlighted as the highlighter may
/// (see `highlight_fits`), exactly the blocks whose language is one of the
/// tokens the syntax set knows.
pub open spec fn rendering_of(text: Seq<char>, lines: Seq<Seq<SpanView>>) -> bool {
    renderable(md_events_of(text)) && exists|tokens: Set<Seq<char>>| #[trigger] rendering_with(text, lines, tokens)
}

/// `rendering_of`, where the syntax set knows the languages `tokens`.
pub open spec fn rendering_with(text: Seq<char>, lines: Seq<Seq<SpanView>>, tokens: Set<Seq<char>>) -> bool {
    exists|hl: Seq<Option<Seq<Seq<SpanView>>>>|
        {
            &&& #[trigger] hl.len() == code_blocks_of(md_events_of(text)).len()
            &&& forall|k: int|
                0 <= k < hl.len() ==> highlight_fits(code_blocks_of(md_events_of(text))[k], #[trigger] hl[k])
            &&& forall|k: int|
                0 <= k < hl.len() ==> (#[trigger] hl[k] is Some <==> highlighted_lang(
                    code_blocks_of(md_events_of(text))[k].0,
                    tokens,
                ))
            &&& lines == rendered(md_events_of(text), hl)
        }
}

/// Whether a block in `lang` is highlighted, given the tokens the syntax
/// set knows: it has a language and the set knows it.
pub open spec fn highlighted_lang(lang: Seq<char>, tokens: Set<Seq<char>>) -> bool {
    lang.len() > 0 && tokens.contains(lang)
}

/// Renders a markdown text to styled lines, code blocks highlighted where
/// their language has a syntax. Every text renders: the parser's list
/// numbers and event count are too small to overflow the renderer's
/// counters.
pub fn render_markdown(text: &str) -> (r: Option<Vec<Vec<MdSpan>>>)
    ensures
        r is Some,
        match r {
            None => !renderable(md_events_of(text@)),
            Some(lines) => rendering_of(text@, lines_view(lines@)),
        },
{
    let events = md_events(text);
    proof {
        let es = md_events_of(text@);
        assert(es.len() == events@.len());
        assert forall|i: int| 0 <= i < es.len() implies start_within(#[trigger] es[i], u64::MAX - es.len()) by {
            assert(es[i] == events_view(events@)[i]);
        }
    }
    assert(renderable(md_events_of(text@)));
    let blocks = code_blocks(&events);
    let ghost bv = blocks@.map_values(|b: (String, String)| (b.0@, b.1@));
    let syntaxes = load_syntaxes();
    let themes = load_themes();
    let theme = theme_named(&themes, "base16-ocean.dark");
    let ghost tokens = syntax_tokens(syntaxes);
    let mut hl: Vec<Option<Vec<Vec<MdSpan>>>> = Vec::new();
    let mut k: usize = 0;
    while k < blocks.len()
        invariant
            k <= blocks.len(),
            bv == blocks@.map_values(|b: (String, String)| (b.0@, b.1@)),
            hl@.len() == k,
            forall|j: int| 0 <= j < k ==> highlight_fits(bv[j], #[trigger] hl_view(hl@)[j]),
            theme is Some,
            tokens == syntax_tokens(syntaxes),
            forall|j: int| 0 <= j < k ==> (#[trigger] hl_view(hl@)[j] is Some <==> highlighted_lang(bv[j].0, tokens)),
        decreases blocks.len() - k,
    {
        let h = highlight_block(&syntaxes, theme, blocks[k].0.as_str(), blocks[k].1.as_str());
        let ghost before = hl@;
        let ghost hvk = opt_lines_view(h);
        hl.push(h);
        proof {
            assert(bv[k as int] == (blocks@[k as int].0@, blocks@[k as int].1@));
            assert(hl_view(hl@)[k as int] == hvk);
            assert forall|j: int| 0 <= j < k + 1 implies (#[trigger] hl_view(hl@)[j] is Some <==> highlighted_lang(bv[j].0, tokens)) by {
                if j < k {
                    assert(hl@[j] == before[j]);
                    assert(hl_view(hl@)[j] == opt_lines_view(hl@[j]));
                    assert(hl_view(before)[j] == opt_lines_view(before[j]));
                }
            }
            assert forall|j: int| 0 <= j < k + 1 implies highlight_fits(bv[j], #[trigger] hl_view(hl@)[j]) by {
                if j < k {
                    assert(hl@[j] == before[j]);
                    assert(hl_view(hl@)[j] == opt_lines_view(hl@[j]));
                    assert(hl_view(before)[j] == opt_lines_view(before[j]));
                    assert(highlight_fits(bv[j], hl_view(before)[j]));
                }
            }
        }
        k = k + 1;
    }
    let lines = render_events(&events, &hl);
    proof {
        let w = hl_view(hl@);
        assert(w.len() == code_blocks_of(md_events_of(text@)).len());
        assert forall|j: int| 0 <= j < w.len() implies highlight_fits(code_blocks_of(md_events_of(text@))[j], #[trigger] w[j]) by {
        }
        assert forall|j: int| 0 <= j < w.len() implies (#[trigger] w[j] is Some <==> highlighted_lang(
            code_blocks_of(md_events_of(text@))[j].0,
            tokens,
        )) by {
        }
        assert(rendering_with(text@, lines_view(lines@), tokens));
    }
    Some(lines)
}

/// Every span of a state, the finished lines' then the current line's.
pub open spec fn all_spans(st: MdStateView) -> Seq<SpanView> {
    st.lines.flatten() + st.current
}

/// Finishing the line moves spans without changing them.
proof fn lemma_flushed_spans(s: MdStateView)
    ensures
        all_spans(flushed(s)) == all_spans(s),
{
    if s.current.len() > 0 {
        s.lines.lemma_flatten_push(s.current);
        assert(all_spans(flushed(s)) =~= all_spans(s));
    }
}

/// Text pieces keep the spans there were and add spans only in `style`.
proof fn lemma_with_pieces_spans(s: MdStateView, pieces: Seq<Seq<char>>, style: MdStyle)
    ensures
        ({
            let w = with_pieces(s, pieces, style);
            &&& all_spans(s).len() <= all_spans(w).len()
            &&& all_spans(w).take(all_spans(s).len() as int) == all_spans(s)
            &&& forall|k: int| all_spans(s).len() <= k < all_spans(w).len() ==> (#[trigger] all_spans(w)[k]).1 == style
        }),
    decreases pieces.len(),
{
    if pieces.len() > 0 {
        let before = with_pieces(s, pieces.drop_last(), style);
        lemma_with_pieces_spans(s, pieces.drop_last(), style);
        lemma_flushed_spans(before);
        let t = if pieces.len() > 1 { flushed(before) } else { before };
        let w = with_pieces(s, pieces, style);
        if pieces.last().len() > 0 {
            assert(all_spans(w) =~= all_spans(t).push((pieces.last(), style)));
        }
        assert(all_spans(w).take(all_spans(s).len() as int) =~= all_spans(s)) by {
            assert(all_spans(w).take(all_spans(t).len() as int) =~= all_spans(t));
            assert(all_spans(t).take(all_spans(s).len() as int) =~= all_spans(s));
        }
        assert forall|k: int| all_spans(s).len() <= k < all_spans(w).len() implies (#[trigger] all_spans(w)[k]).1 == style by {
            if k < all_spans(t).len() {
                assert(all_spans(w)[k] == all_spans(t)[k]);
            }
        }
    }
}

/// Text inside a strikethrough is struck through: after
/// `StartStrikethrough` and then text (outside a code block), the spans
/// there were stay, and every span the text adds is crossed out, in the
/// style text had before with `crossed` set.
pub proof fn law_strikethrough_crosses_text(s: MdStateView, t: Seq<char>, hl: Seq<Option<Seq<Seq<SpanView>>>>)
    requires
        !s.in_code,
    ensures
        ({
            let s2 = step(step(s, MdEventView::StartStrikethrough, hl), MdEventView::Text(t), hl);
            &&& all_spans(s).len() <= all_spans(s2).len()
            &&& all_spans(s2).take(all_spans(s).len() as int) == all_spans(s)
            &&& forall|k: int| all_spans(s).len() <= k < all_spans(s2).len() ==> (#[trigger] all_spans(s2)[k]).1
                == MdStyle { crossed: true, ..current_style(s) }
        }),
{
    let s1 = step(s, MdEventView::StartStrikethrough, hl);
    assert(all_spans(s1) == all_spans(s));
    let style = MdStyle { crossed: true, ..current_style(s) };
    assert(current_style(s1) == style);
    if s1.quote_depth > 0 {
        let pieces = split_on(t, '\n');
        lemma_with_pieces_spans(s1, Seq::new(pieces.len(), |i: int| "| "@ + pieces[i]), style);
    } else if t.len() > 0 {
        lemma_with_pieces_spans(s1, split_on(t, '\n'), style);
    }
}

/// A line of text with no line break, outside a code block and a quote,
/// after `StartStrikethrough` adds exactly one span: that text, crossed out.
pub proof fn law_strikethrough_text_span(s: MdStateView, t: Seq<char>, hl: Seq<Option<Seq<Seq<SpanView>>>>)
    requires
        !s.in_code,
        s.quote_depth == 0,
        t.len() > 0,
        !t.contains('\n'),
    ensures
        all_spans(step(step(s, MdEventView::StartStrikethrough, hl), MdEventView::Text(t), hl)) == all_spans(s).push(
            (t, MdStyle { crossed: true, ..current_style(s) }),
        ),
{
    crate::text::lemma_index_of(t, '\n');
    assert(split_on(t, '\n') == seq![t]);
    let s1 = step(s, MdEventView::StartStrikethrough, hl);
    let s2 = step(s1, MdEventView::Text(t), hl);
    let style = MdStyle { crossed: true, ..current_style(s) };
    assert(current_style(s1) == style);
    assert(s2 == with_pieces(s1, seq![t], style));
    assert(seq![t].drop_last() =~= Seq::<Seq<char>>::empty());
    assert(with_pieces(s1, seq![t].drop_last(), style) == s1);
    let w = with_pieces(s1, seq![t], style);
    assert(w.lines == s.lines);
    assert(w.current == s.current.push((t, style)));
    assert(all_spans(s2) =~= all_spans(s).push((t, style)));
}

} // verus!
