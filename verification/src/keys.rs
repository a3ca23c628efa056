//! Keys in the main view: the shortcuts, scrolling, the completion popup,
//! browsing the input history and editing the input, and what the
//! application has to do in answer.
use vstd::prelude::*;

use crate::completion::{
    completion_for, custom_prompt, local_action_of, local_command, popup_for, resolve_custom_command,
    CompletionItem, CompletionState, LocalAction,
};
use crate::commands::CustomCommand;
use crate::history::{pushed, reverse_entry, InputHistory};
use crate::input::{
    backspaced, deleted, end_cursor, home_cursor, inserted, EditorView, InputEditor,
};
use crate::text::{byte_len, chars_of, owned, push_str, trim, utf8_len, utf8_width};

verus! {

/// The key of a key press.
#[derive(Debug, Clone, Copy, PartialEq, Eq, Structural)]
pub enum KeyCode {
    Char(char),
    Enter,
    Tab,
    Esc,
    Up,
    Down,
    Left,
    Right,
    Home,
    End,
    Backspace,
    Delete,
    PageUp,
    PageDown,
    Other,
}

/// A key press: the key and whether Ctrl and Shift were held.
#[derive(Debug, Clone, Copy, PartialEq, Eq, Structural)]
pub struct Key {
    pub code: KeyCode,
    pub ctrl: bool,
    pub shift: bool,
}

/// The panels and pickers a shortcut opens.
#[derive(Debug, Clone, Copy, PartialEq, Eq, Structural)]
pub enum Panel {
    ActionMenu,
    ThemePicker,
    HistorySearch,
    Instructions,
    Memory,
    FileContext,
    Workflows,
    Plugins,
    Diff,
    Agents,
}

/// What the application does after a key in the main view.
#[derive(Debug)]
pub enum NormalAction {
    /// Nothing beyond the state change.
    Nothing,
    Quit,
    Open(Panel),
    Toast(String),
    /// The scroll offset went down: clamp it to the conversation's length.
    ClampScroll,
    /// A command the application handles itself.
    Local(LocalAction),
    /// A custom command: show the prompt as a user message and send it.
    SendCustom(String),
    /// A slash command: send it as it is, without a user message.
    SendSlash(String),
    /// A message: show it and send it with its `@file` mentions expanded.
    SendMessage(String),
}

/// An action as plain values.
pub enum ActionView {
    Nothing,
    Quit,
    Open(Panel),
    Toast(Seq<char>),
    ClampScroll,
    Local(LocalAction),
    SendCustom(Seq<char>),
    SendSlash(Seq<char>),
    SendMessage(Seq<char>),
}

impl View for NormalAction {
    type V = ActionView;

    open spec fn view(&self) -> ActionView {
        match self {
            NormalAction::Nothing => ActionView::Nothing,
            NormalAction::Quit => ActionView::Quit,
            NormalAction::Open(p) => ActionView::Open(*p),
            NormalAction::Toast(t) => ActionView::Toast(t@),
            NormalAction::ClampScroll => ActionView::ClampScroll,
            NormalAction::Local(a) => ActionView::Local(*a),
            NormalAction::SendCustom(t) => ActionView::SendCustom(t@),
            NormalAction::SendSlash(t) => ActionView::SendSlash(t@),
            NormalAction::SendMessage(t) => ActionView::SendMessage(t@),
        }
    }
}

/// What the main view keeps between keys.
pub struct NormalState {
    pub input: InputEditor,
    /// The completion popup, when shown.
    pub completion: Option<CompletionState>,
    pub history: InputHistory,
    /// The history entry shown while browsing, counted from the most recent.
    pub browse: Option<usize>,
    /// Whether tool output is shown in full.
    pub tools_expanded: bool,
    pub split_pane: bool,
    pub split_scroll: usize,
    pub scroll_offset: usize,
    /// Whether the conversation follows its end.
    pub auto_scroll: bool,
}

impl NormalState {
    /// The popup's selection lies within it, and a browsed entry exists.
    pub open spec fn well_formed(&self) -> bool {
        &&& (self.completion matches Some(c) ==> c.selected < c.matches@.len())
        &&& (self.browse matches Some(i) ==> i < self.history@.len())
    }
}

/// Which part of the main view a key goes to.
pub enum Route {
    Quit,
    Open(Panel),
    ToggleTools,
    ToggleSplit,
    SplitScrollUp,
    SplitScrollDown,
    ScrollUp,
    ScrollDown,
    Accept,
    Dismiss,
    PopupUp,
    PopupDown,
    Older,
    Newer,
    Edit,
}

/// The Ctrl shortcut on a letter.
pub open spec fn shortcut(c: char) -> Option<Route> {
    if c == 'q' {
        Some(Route::Quit)
    } else if c == 'k' {
        Some(Route::Open(Panel::ActionMenu))
    } else if c == 't' {
        Some(Route::Open(Panel::ThemePicker))
    } else if c == 'r' {
        Some(Route::Open(Panel::HistorySearch))
    } else if c == 'i' {
        Some(Route::Open(Panel::Instructions))
    } else if c == 'm' {
        Some(Route::Open(Panel::Memory))
    } else if c == 'f' {
        Some(Route::Open(Panel::FileContext))
    } else if c == 'w' {
        Some(Route::Open(Panel::Workflows))
    } else if c == 'p' {
        Some(Route::Open(Panel::Plugins))
    } else if c == 'd' {
        Some(Route::Open(Panel::Diff))
    } else if c == 'e' {
        Some(Route::ToggleTools)
    } else if c == 'a' {
        Some(Route::Open(Panel::Agents))
    } else if c == 's' {
        Some(Route::ToggleSplit)
    } else {
        None
    }
}

/// The shortcut a key press names, if any.
pub open spec fn ctrl_shortcut(k: Key) -> Option<Route> {
    if k.ctrl {
        match k.code {
            KeyCode::Char(c) => shortcut(c),
            _ => None,
        }
    } else {
        None
    }
}

/// Where a key goes, given whether the split pane is shown, whether the
/// popup is shown, whether the input is empty and whether the history is
/// being browsed. The shortcuts come first, then scrolling, then the popup,
/// then the history, then the input.
pub open spec fn route(k: Key, split: bool, popup: bool, empty: bool, browsing: bool) -> Route {
    match ctrl_shortcut(k) {
        Some(r) => r,
        None => if split && k.shift && k.code == KeyCode::PageUp {
            Route::SplitScrollUp
        } else if split && k.shift && k.code == KeyCode::PageDown {
            Route::SplitScrollDown
        } else if k.code == KeyCode::PageUp {
            Route::ScrollUp
        } else if k.code == KeyCode::PageDown {
            Route::ScrollDown
        } else if popup && !k.shift && (k.code == KeyCode::Tab || k.code == KeyCode::Enter) {
            Route::Accept
        } else if popup && k.code == KeyCode::Esc {
            Route::Dismiss
        } else if popup && k.code == KeyCode::Up {
            Route::PopupUp
        } else if popup && k.code == KeyCode::Down {
            Route::PopupDown
        } else if !popup && empty && k.code == KeyCode::Up {
            Route::Older
        } else if !popup && browsing && k.code == KeyCode::Down {
            Route::Newer
        } else {
            Route::Edit
        },
    }
}

/// The route of a key in state `s`.
pub open spec fn route_in(s: NormalState, k: Key) -> Route {
    route(k, s.split_pane, s.completion is Some, s.input@.content.len() == 0, s.browse is Some)
}

/// Whether `extra` more bytes fit after the text of `v`.
pub open spec fn room(v: EditorView, extra: nat) -> bool {
    byte_len(v.content) + extra <= usize::MAX
}

/// The input after a key that edits it (Enter without Shift aside): a
/// character, a line break, Backspace, Delete, or a cursor movement. A
/// character that would not fit is dropped.
pub open spec fn edited(v: EditorView, k: Key) -> EditorView {
    match k.code {
        KeyCode::Enter => if k.shift && room(v, 1) {
            inserted(v, '\n')
        } else {
            v
        },
        KeyCode::Char(c) => if !k.ctrl && room(v, utf8_len(c)) {
            inserted(v, c)
        } else {
            v
        },
        KeyCode::Backspace => backspaced(v),
        KeyCode::Delete => deleted(v),
        KeyCode::Left => EditorView {
            content: v.content,
            cursor: if v.cursor > 0 {
                (v.cursor - 1) as nat
            } else {
                0
            },
        },
        KeyCode::Right => EditorView {
            content: v.content,
            cursor: if v.cursor < v.content.len() {
                v.cursor + 1
            } else {
                v.cursor
            },
        },
        KeyCode::Home => EditorView { content: v.content, cursor: home_cursor(v) },
        KeyCode::End => EditorView { content: v.content, cursor: end_cursor(v) },
        _ => v,
    }
}

/// Whether a key submits the input.
pub open spec fn is_submit(k: Key) -> bool {
    k.code == KeyCode::Enter && !k.shift
}

/// What submitting `text` asks for: a local command, a custom command's
/// prompt, a slash command sent as it is, or a message.
pub open spec fn submission(text: Seq<char>, custom: Seq<CustomCommand>) -> ActionView {
    match local_action_of(trim(text)) {
        Some(a) => ActionView::Local(a),
        None => match custom_prompt(custom, text) {
            Some(p) => ActionView::SendCustom(p),
            None => if text.len() > 0 && text[0] == '/' {
                ActionView::SendSlash(text)
            } else {
                ActionView::SendMessage(text)
            },
        },
    }
}

/// The editor holding `t` with the cursor at its end.
pub open spec fn showing(t: Seq<char>) -> EditorView {
    EditorView { content: t, cursor: t.len() }
}

/// The selection before a key: what the popup had selected, or the first.
pub open spec fn prev_selection(c: Option<CompletionState>) -> nat {
    match c {
        Some(s) => s.selected as nat,
        None => 0,
    }
}

/// The toast after toggling tool output.
pub open spec fn tools_toast(expanded: bool) -> Seq<char> {
    if expanded {
        "Tool output expanded"@
    } else {
        "Tool output collapsed"@
    }
}

/// The toast after toggling the split pane.
pub open spec fn split_toast(split: bool) -> Seq<char> {
    if split {
        "Split pane enabled"@
    } else {
        "Split pane closed"@
    }
}

/// The history index that Up goes to.
pub open spec fn older_index(browse: Option<usize>) -> int {
    match browse {
        Some(i) => i + 1,
        None => 0,
    }
}

impl NormalState {
    /// The state before any key: an empty input and the given history.
    pub fn new(history: InputHistory) -> (s: Self)
        ensures
            s.well_formed(),
            s.input@ == showing(Seq::empty()),
            s.completion is None,
            s.history@ == history@,
            s.browse is None,
            !s.tools_expanded,
            !s.split_pane,
            s.split_scroll == 0,
            s.scroll_offset == 0,
            s.auto_scroll,
    {
        NormalState {
            input: InputEditor::new(),
            completion: None,
            history,
            browse: None,
            tools_expanded: false,
            split_pane: false,
            split_scroll: 0,
            scroll_offset: 0,
            auto_scroll: true,
        }
    }

    /// Follow the end of the conversation.
    pub fn scroll_to_bottom(&mut self)
        ensures
            *final(self) == (NormalState { scroll_offset: usize::MAX, ..*old(self) }),
    {
        self.scroll_offset = usize::MAX;
    }

    /// Before drawing a conversation of `total` lines in `visible` rows:
    /// while following the end, or when scrolled past the end, the view
    /// shows the last screen.
    pub fn settle_scroll(&mut self, total: usize, visible: usize)
        ensures
            *final(self) == if old(self).auto_scroll || old(self).scroll_offset > total {
                NormalState {
                    scroll_offset: if total >= visible { (total - visible) as usize } else { 0 },
                    ..*old(self)
                }
            } else {
                *old(self)
            },
    {
        if self.auto_scroll || self.scroll_offset > total {
            self.scroll_offset = if total >= visible { total - visible } else { 0 };
        }
    }

    /// Keep the scroll offset within a conversation of `total` lines: at or
    /// past the last screen it stops there and follows the end again.
    pub fn clamp_scroll(&mut self, total: usize)
        ensures
            ({
                let max = if total >= 10 {
                    total - 10
                } else {
                    0
                };
                if old(self).scroll_offset >= max {
                    *final(self) == (NormalState {
                        scroll_offset: max as usize,
                        auto_scroll: true,
                        ..*old(self)
                    })
                } else {
                    *final(self) == *old(self)
                }
            }),
    {
        let max = if total >= 10 {
            total - 10
        } else {
            0
        };
        if self.scroll_offset >= max {
            self.scroll_offset = max;
            self.auto_scroll = true;
        }
    }

    /// Refresh the popup for the current input over `items`.
    fn refresh_completion(&mut self, items: Vec<CompletionItem>)
        requires
            old(self).well_formed(),
        ensures
            final(self).well_formed(),
            popup_for(old(self).input@.content, items@, prev_selection(old(self).completion), final(self).completion),
            *final(self) == (NormalState { completion: final(self).completion, ..*old(self) }),
    {
        let prev = match &self.completion {
            Some(c) => c.selected,
            None => 0,
        };
        let c = completion_for(self.input.content(), items, prev);
        self.completion = c;
    }
}

/// After Tab or Enter on the popup: the input holds `/` and the selected
/// command, and the popup is gone.
pub open spec fn accepted(o: NormalState, n: NormalState) -> bool {
    let c = o.completion->0;
    &&& n.input@ == showing("/"@ + c.matches@[c.selected as int].name@)
    &&& n == (NormalState { input: n.input, completion: None, ..o })
}

/// After Up on the popup: the previous entry is selected, the last after
/// the first.
pub open spec fn popup_went_up(o: NormalState, n: NormalState) -> bool {
    let c = o.completion->0;
    &&& n.completion matches Some(d) && d.matches@ == c.matches@ && d.selected == if c.selected > 0 {
        c.selected - 1
    } else {
        c.matches@.len() - 1
    }
    &&& n == (NormalState { completion: n.completion, ..o })
}

/// After Down on the popup: the next entry is selected, the first after
/// the last.
pub open spec fn popup_went_down(o: NormalState, n: NormalState) -> bool {
    let c = o.completion->0;
    &&& n.completion matches Some(d) && d.matches@ == c.matches@ && d.selected == (c.selected + 1)
        % (c.matches@.len() as int)
    &&& n == (NormalState { completion: n.completion, ..o })
}

/// After Up on an empty input: the next older history entry is shown, if
/// there is one.
pub open spec fn went_older(o: NormalState, n: NormalState) -> bool {
    let idx = older_index(o.browse);
    match reverse_entry(o.history@, idx) {
        Some(e) => n.input@ == showing(e) && n.browse == Some(idx as usize) && n == (NormalState {
            input: n.input,
            browse: n.browse,
            ..o
        }),
        None => n == o,
    }
}

/// After Down while browsing: the next newer entry is shown, or, past the
/// most recent, the input empties and browsing ends.
pub open spec fn went_newer(o: NormalState, n: NormalState) -> bool {
    let i = o.browse->0;
    &&& if i == 0 {
        n.input@ == showing(Seq::empty()) && n.browse is None
    } else {
        n.input@ == showing(reverse_entry(o.history@, i - 1)->0) && n.browse == Some((i - 1) as usize)
    }
    &&& n == (NormalState { input: n.input, browse: n.browse, ..o })
}

/// After submitting the input `text`: it is in the history, the input is
/// empty, and the conversation follows its end unless a local command
/// other than clearing was named (clearing goes back to the top).
pub open spec fn submitted(o: NormalState, n: NormalState, custom: Seq<CustomCommand>, act: ActionView) -> bool {
    let text = o.input@.content;
    &&& act == submission(text, custom)
    &&& n.input@ == showing(Seq::empty())
    &&& n.history@ == pushed(o.history@, text)
    &&& n.browse is None
    &&& n.tools_expanded == o.tools_expanded
    &&& n.split_pane == o.split_pane
    &&& n.split_scroll == o.split_scroll
    &&& match act {
        ActionView::Local(LocalAction::Clear) => n.scroll_offset == 0 && n.auto_scroll,
        ActionView::Local(_) => n.scroll_offset == o.scroll_offset && n.auto_scroll == o.auto_scroll,
        _ => n.scroll_offset == usize::MAX && n.auto_scroll,
    }
}

/// After a key that goes to the input: Enter sends a non-empty input unless
/// the agent is answering; other keys edit it (a typed character ends
/// history browsing); then the popup is refreshed for the new input.
pub open spec fn edit_done(
    o: NormalState,
    n: NormalState,
    key: Key,
    streaming: bool,
    custom: Seq<CustomCommand>,
    items: Seq<CompletionItem>,
    act: ActionView,
) -> bool {
    if is_submit(key) && o.input@.content.len() > 0 && !streaming {
        submitted(o, n, custom, act) && n.completion is None
    } else {
        &&& act == ActionView::Nothing
        &&& n.input@ == edited(o.input@, key)
        &&& n.browse == if key.code is Char && !key.ctrl {
            None
        } else {
            o.browse
        }
        &&& popup_for(n.input@.content, items, prev_selection(o.completion), n.completion)
        &&& n == (NormalState { input: n.input, browse: n.browse, completion: n.completion, ..o })
    }
}

impl NormalState {
    /// Handle a key in the main view. `streaming` says whether the agent is
    /// still answering (the input is then kept), `custom` lists the custom
    /// commands and `items` the commands the popup offers.
    pub fn handle_key(
        &mut self,
        key: Key,
        streaming: bool,
        custom: &Vec<CustomCommand>,
        items: Vec<CompletionItem>,
    ) -> (act: NormalAction)
        requires
            old(self).well_formed(),
            route_in(*old(self), key) == Route::SplitScrollDown ==> old(self).split_scroll + 10
                <= usize::MAX,
            route_in(*old(self), key) == Route::ScrollDown ==> old(self).scroll_offset + 10
                <= usize::MAX,
        ensures
            final(self).well_formed(),
            match route_in(*old(self), key) {
                Route::Quit => act@ == ActionView::Quit && *final(self) == *old(self),
                Route::Open(p) => act@ == ActionView::Open(p) && *final(self) == *old(self),
                Route::ToggleTools => act@ == ActionView::Toast(tools_toast(!old(self).tools_expanded))
                    && *final(self) == (NormalState {
                    tools_expanded: !old(self).tools_expanded,
                    ..*old(self)
                }),
                Route::ToggleSplit => act@ == ActionView::Toast(split_toast(!old(self).split_pane))
                    && *final(self) == (NormalState { split_pane: !old(self).split_pane, ..*old(self) }),
                Route::SplitScrollUp => act@ == ActionView::Nothing && *final(self) == (NormalState {
                    split_scroll: if old(self).split_scroll >= 10 {
                        (old(self).split_scroll - 10) as usize
                    } else {
                        0
                    },
                    ..*old(self)
                }),
                Route::SplitScrollDown => act@ == ActionView::Nothing && *final(self) == (NormalState {
                    split_scroll: (old(self).split_scroll + 10) as usize,
                    ..*old(self)
                }),
                Route::ScrollUp => act@ == ActionView::Nothing && *final(self) == (NormalState {
                    scroll_offset: if old(self).scroll_offset >= 10 {
                        (old(self).scroll_offset - 10) as usize
                    } else {
                        0
                    },
                    auto_scroll: false,
                    ..*old(self)
                }),
                Route::ScrollDown => act@ == ActionView::ClampScroll && *final(self) == (NormalState {
                    scroll_offset: (old(self).scroll_offset + 10) as usize,
                    ..*old(self)
                }),
                Route::Accept => act@ == ActionView::Nothing && accepted(*old(self), *final(self)),
                Route::Dismiss => act@ == ActionView::Nothing && *final(self) == (NormalState {
                    completion: None,
                    ..*old(self)
                }),
                Route::PopupUp => act@ == ActionView::Nothing && popup_went_up(*old(self), *final(self)),
                Route::PopupDown => act@ == ActionView::Nothing && popup_went_down(
                    *old(self),
                    *final(self),
                ),
                Route::Older => act@ == ActionView::Nothing && went_older(*old(self), *final(self)),
                Route::Newer => act@ == ActionView::Nothing && went_newer(*old(self), *final(self)),
                Route::Edit => edit_done(*old(self), *final(self), key, streaming, custom@, items@, act@),
            },
    {
        let code = key.code;
        if key.ctrl {
            if let KeyCode::Char(c) = code {
                if c == 'q' {
                    return NormalAction::Quit;
                } else if c == 'k' {
                    return NormalAction::Open(Panel::ActionMenu);
                } else if c == 't' {
                    return NormalAction::Open(Panel::ThemePicker);
                } else if c == 'r' {
                    return NormalAction::Open(Panel::HistorySearch);
                } else if c == 'i' {
                    return NormalAction::Open(Panel::Instructions);
                } else if c == 'm' {
                    return NormalAction::Open(Panel::Memory);
                } else if c == 'f' {
                    return NormalAction::Open(Panel::FileContext);
                } else if c == 'w' {
                    return NormalAction::Open(Panel::Workflows);
                } else if c == 'p' {
                    return NormalAction::Open(Panel::Plugins);
                } else if c == 'd' {
                    return NormalAction::Open(Panel::Diff);
                } else if c == 'e' {
                    self.tools_expanded = !self.tools_expanded;
                    let msg = if self.tools_expanded {
                        "Tool output expanded"
                    } else {
                        "Tool output collapsed"
                    };
                    return NormalAction::Toast(owned(msg));
                } else if c == 'a' {
                    return NormalAction::Open(Panel::Agents);
                } else if c == 's' {
                    self.split_pane = !self.split_pane;
                    let msg = if self.split_pane {
                        "Split pane enabled"
                    } else {
                        "Split pane closed"
                    };
                    return NormalAction::Toast(owned(msg));
                }
            }
        }
        if self.split_pane && key.shift {
            match code {
                KeyCode::PageUp => {
                    self.split_scroll = if self.split_scroll >= 10 {
                        self.split_scroll - 10
                    } else {
                        0
                    };
                    return NormalAction::Nothing;
                },
                KeyCode::PageDown => {
                    self.split_scroll = self.split_scroll + 10;
                    return NormalAction::Nothing;
                },
                _ => {},
            }
        }
        match code {
            KeyCode::PageUp => {
                self.auto_scroll = false;
                self.scroll_offset = if self.scroll_offset >= 10 {
                    self.scroll_offset - 10
                } else {
                    0
                };
                return NormalAction::Nothing;
            },
            KeyCode::PageDown => {
                self.scroll_offset = self.scroll_offset + 10;
                return NormalAction::ClampScroll;
            },
            _ => {},
        }
        if self.completion.is_some() {
            let accept = match code {
                KeyCode::Tab => !key.shift,
                KeyCode::Enter => !key.shift,
                _ => false,
            };
            if accept {
                self.accept();
                return NormalAction::Nothing;
            }
            match code {
                KeyCode::Esc => {
                    self.completion = None;
                    return NormalAction::Nothing;
                },
                KeyCode::Up => {
                    self.popup_up();
                    return NormalAction::Nothing;
                },
                KeyCode::Down => {
                    self.popup_down();
                    return NormalAction::Nothing;
                },
                _ => {},
            }
        }
        if self.completion.is_none() && self.input.is_empty() {
            if let KeyCode::Up = code {
                self.older();
                return NormalAction::Nothing;
            }
        }
        if self.completion.is_none() && self.browse.is_some() {
            if let KeyCode::Down = code {
                self.newer();
                return NormalAction::Nothing;
            }
        }
        self.edit(key, streaming, custom, items)
    }

    /// Take the selected command into the input and close the popup.
    fn accept(&mut self)
        requires
            old(self).well_formed(),
            old(self).completion is Some,
        ensures
            final(self).well_formed(),
            accepted(*old(self), *final(self)),
    {
        let full: Option<String> = match &self.completion {
            Some(st) => match st.selected_command() {
                Some(cmd) => {
                    let mut f = owned("/");
                    push_str(&mut f, cmd);
                    Some(f)
                },
                None => None,
            },
            None => None,
        };
        if let Some(f) = full {
            self.input.set_content(f.as_str());
        }
        self.completion = None;
    }

    /// Select the previous entry of the popup.
    fn popup_up(&mut self)
        requires
            old(self).well_formed(),
            old(self).completion is Some,
        ensures
            final(self).well_formed(),
            popup_went_up(*old(self), *final(self)),
    {
        let taken = self.completion.take();
        if let Some(mut st) = taken {
            st.move_up();
            self.completion = Some(st);
        }
    }

    /// Select the next entry of the popup.
    fn popup_down(&mut self)
        requires
            old(self).well_formed(),
            old(self).completion is Some,
        ensures
            final(self).well_formed(),
            popup_went_down(*old(self), *final(self)),
    {
        let taken = self.completion.take();
        if let Some(mut st) = taken {
            let n = st.matches.len();
            assert(st.selected < n);
            st.move_down();
            self.completion = Some(st);
        }
    }

    /// Show the next older history entry.
    fn older(&mut self)
        requires
            old(self).well_formed(),
        ensures
            final(self).well_formed(),
            went_older(*old(self), *final(self)),
    {
        let count = self.history.len();
        let idx: usize = match self.browse {
            Some(i) => i + 1,
            None => 0,
        };
        match self.history.get_reverse(idx) {
            Some(entry) => {
                self.input.set_content(entry);
                self.browse = Some(idx);
            },
            None => {},
        }
    }

    /// Show the next newer history entry, or end browsing.
    fn newer(&mut self)
        requires
            old(self).well_formed(),
            old(self).browse is Some,
        ensures
            final(self).well_formed(),
            went_newer(*old(self), *final(self)),
    {
        if let Some(idx) = self.browse {
            if idx == 0 {
                proof {
                    reveal_strlit("");
                }
                self.input.set_content("");
                assert(self.input@.content =~= Seq::<char>::empty());
                self.browse = None;
            } else {
                let newer = idx - 1;
                match self.history.get_reverse(newer) {
                    Some(entry) => {
                        self.input.set_content(entry);
                        self.browse = Some(newer);
                    },
                    None => {},
                }
            }
        }
    }

    /// Give a key to the input, then refresh the popup.
    fn edit(
        &mut self,
        key: Key,
        streaming: bool,
        custom: &Vec<CustomCommand>,
        items: Vec<CompletionItem>,
    ) -> (act: NormalAction)
        requires
            old(self).well_formed(),
        ensures
            final(self).well_formed(),
            edit_done(*old(self), *final(self), key, streaming, custom@, items@, act@),
    {
        let mut act = NormalAction::Nothing;
        match key.code {
            KeyCode::Enter => {
                if !key.shift {
                    if !self.input.is_empty() && !streaming {
                        act = self.submit(custom);
                    }
                } else if self.input.has_room(1) {
                    self.input.insert_newline();
                }
            },
            KeyCode::Char(c) => {
                if !key.ctrl {
                    if self.input.has_room(utf8_width(c)) {
                        self.input.insert_char(c);
                    }
                    self.browse = None;
                }
            },
            KeyCode::Backspace => self.input.backspace(),
            KeyCode::Delete => self.input.delete(),
            KeyCode::Left => self.input.move_left(),
            KeyCode::Right => self.input.move_right(),
            KeyCode::Home => self.input.move_home(),
            KeyCode::End => self.input.move_end(),
            _ => {},
        }
        self.refresh_completion(items);
        act
    }

    /// Send the input: it goes into the history, and the input empties.
    fn submit(&mut self, custom: &Vec<CustomCommand>) -> (act: NormalAction)
        requires
            old(self).well_formed(),
        ensures
            final(self).well_formed(),
            submitted(*old(self), *final(self), custom@, act@),
            final(self).completion == old(self).completion,
    {
        let text = self.input.take_content();
        self.history.push(text.clone());
        self.browse = None;
        match local_command(text.as_str()) {
            Some(a) => {
                if let LocalAction::Clear = a {
                    self.scroll_offset = 0;
                    self.auto_scroll = true;
                }
                NormalAction::Local(a)
            },
            None => match resolve_custom_command(custom, text.as_str()) {
                Some(p) => {
                    self.auto_scroll = true;
                    self.scroll_offset = usize::MAX;
                    NormalAction::SendCustom(p)
                },
                None => {
                    self.auto_scroll = true;
                    self.scroll_offset = usize::MAX;
                    let v = chars_of(text.as_str());
                    if v.len() > 0 && v[0] == '/' {
                        NormalAction::SendSlash(text)
                    } else {
                        NormalAction::SendMessage(text)
                    }
                },
            },
        }
    }
}

/// Up on an empty input followed by Down brings back the empty input and
/// ends browsing, whatever the history holds.
pub proof fn law_older_then_newer(o: NormalState, m: NormalState, n: NormalState)
    requires
        o.browse is None,
        o.input@ == showing(Seq::empty()),
        o.history@.len() > 0,
        went_older(o, m),
        went_newer(m, n),
    ensures
        n.input@ == o.input@,
        n.browse is None,
        n.history == o.history,
{
    assert(reverse_entry(o.history@, 0) is Some);
}

} // verus!
