//! The panels that take the keys over from the main view: the history
//! search, a one-line text prompt, the text viewer, the agent dashboard,
//! the plugin browser and the pickers.
use vstd::prelude::*;

use crate::history::{is_search_result, result_view, texts, InputHistory};
use crate::keys::{Key, KeyCode};
use crate::overlay::{filtered, items_view, moved_down, moved_up, OverlayState};
use crate::plugins::PluginInfo;
use crate::text::{
    chars_of, list_contains, owned, push_char, push_str, strs_of, string_of, string_of_range, trim,
    trim_owned,
};

verus! {

// ---------------------------------------------------------------------------
// History search
// ---------------------------------------------------------------------------

/// The entries of a search result, in its order.
pub open spec fn entries_found(r: Seq<(usize, Seq<char>)>) -> Seq<Seq<char>> {
    r.map_values(|p: (usize, Seq<char>)| p.1)
}

/// Whether `m` lists the entries a search of `h` for `q` finds, best first.
pub open spec fn search_texts(h: Seq<Seq<char>>, q: Seq<char>, m: Seq<Seq<char>>) -> bool {
    exists|r: Seq<(usize, Seq<char>)>| is_search_result(h, q, r) && m == entries_found(r)
}

/// The history search panel: the query, the entries it finds and the
/// selected one.
#[derive(Debug)]
pub struct HistorySearch {
    pub query: String,
    pub matches: Vec<String>,
    pub selected: usize,
}

/// What a key in the history search asks for.
#[derive(Debug)]
pub enum SearchOutcome {
    Stay,
    /// Close the panel.
    Close,
    /// Close the panel and put this entry into the input.
    Choose(String),
}

/// The selection kept after the matches change to `count` entries: the
/// same, or the last one if fewer remain (the first if none).
pub open spec fn kept_selection(selected: nat, count: nat) -> nat {
    if count == 0 {
        0
    } else if selected < count {
        selected
    } else {
        (count - 1) as nat
    }
}

/// The entries of `history` a search for `query` finds, best first.
fn found_entries(history: &InputHistory, query: &str) -> (m: Vec<String>)
    ensures
        search_texts(history@, query@, texts(m@)),
{
    let r = history.search(query);
    let ghost rv = result_view(r@);
    let mut out: Vec<String> = Vec::new();
    let mut i: usize = 0;
    while i < r.len()
        invariant
            i <= r@.len(),
            rv == result_view(r@),
            texts(out@) == entries_found(rv).take(i as int),
        decreases r.len() - i,
    {
        let ghost before = out@;
        out.push(owned(r[i].1));
        proof {
            assert(texts(out@) =~= texts(before).push(rv[i as int].1));
            assert(entries_found(rv).take(i + 1) =~= entries_found(rv).take(i as int).push(rv[i as int].1));
        }
        i = i + 1;
    }
    proof {
        assert(entries_found(rv).take(r@.len() as int) =~= entries_found(rv));
    }
    out
}

impl HistorySearch {
    /// The selection lies within the matches (or is the first when there
    /// are none).
    pub open spec fn well_formed(&self) -> bool {
        self.selected == 0 || self.selected < self.matches@.len()
    }

    /// Open the search over `history` with an empty query: every entry,
    /// most recent first. Nothing opens over an empty history.
    pub fn open(history: &InputHistory) -> (r: Option<HistorySearch>)
        ensures
            match r {
                Some(s) => {
                    &&& history@.len() > 0
                    &&& s.query@ == Seq::<char>::empty()
                    &&& search_texts(history@, Seq::empty(), texts(s.matches@))
                    &&& s.selected == 0
                },
                None => history@.len() == 0,
            },
    {
        if history.len() == 0 {
            return None;
        }
        let query = String::new();
        let matches = found_entries(history, query.as_str());
        Some(HistorySearch { query, matches, selected: 0 })
    }

    /// Search again for the current query.
    fn refresh(&mut self, history: &InputHistory)
        ensures
            final(self).query@ == old(self).query@,
            search_texts(history@, final(self).query@, texts(final(self).matches@)),
            final(self).selected == kept_selection(old(self).selected as nat, final(self).matches@.len()),
    {
        let matches = found_entries(history, self.query.as_str());
        let n = matches.len();
        self.selected = if n == 0 {
            0
        } else if self.selected < n {
            self.selected
        } else {
            n - 1
        };
        self.matches = matches;
    }

    /// Handle a key: Esc closes, Enter takes the selected entry, Up and
    /// Down move the selection round the list, and typing or Backspace
    /// changes the query and searches again.
    pub fn handle_key(&mut self, key: Key, history: &InputHistory) -> (out: SearchOutcome)
        requires
            old(self).well_formed(),
        ensures
            final(self).well_formed(),
            match key.code {
                KeyCode::Esc => out is Close && *final(self) == *old(self),
                KeyCode::Enter => *final(self) == *old(self) && match out {
                    SearchOutcome::Choose(t) => old(self).selected < old(self).matches@.len() && t@
                        == old(self).matches@[old(self).selected as int]@,
                    SearchOutcome::Close => old(self).selected >= old(self).matches@.len(),
                    SearchOutcome::Stay => false,
                },
                KeyCode::Up => out is Stay && final(self).query == old(self).query
                    && final(self).matches == old(self).matches && final(self).selected == moved_up(
                    old(self).selected as nat,
                    old(self).matches@.len(),
                ),
                KeyCode::Down => out is Stay && final(self).query == old(self).query
                    && final(self).matches == old(self).matches && final(self).selected
                    == moved_down(old(self).selected as nat, old(self).matches@.len()),
                KeyCode::Backspace => {
                    &&& out is Stay
                    &&& final(self).query@ == if old(self).query@.len() > 0 {
                        old(self).query@.drop_last()
                    } else {
                        old(self).query@
                    }
                    &&& search_texts(history@, final(self).query@, texts(final(self).matches@))
                    &&& final(self).selected == kept_selection(
                        old(self).selected as nat,
                        final(self).matches@.len(),
                    )
                },
                KeyCode::Char(c) => {
                    &&& out is Stay
                    &&& final(self).query@ == old(self).query@.push(c)
                    &&& search_texts(history@, final(self).query@, texts(final(self).matches@))
                    &&& final(self).selected == kept_selection(
                        old(self).selected as nat,
                        final(self).matches@.len(),
                    )
                },
                _ => out is Stay && *final(self) == *old(self),
            },
    {
        match key.code {
            KeyCode::Esc => SearchOutcome::Close,
            KeyCode::Enter => {
                if self.selected < self.matches.len() {
                    SearchOutcome::Choose(owned(self.matches[self.selected].as_str()))
                } else {
                    SearchOutcome::Close
                }
            },
            KeyCode::Up => {
                let n = self.matches.len();
                if n > 0 {
                    self.selected = if self.selected > 0 {
                        self.selected - 1
                    } else {
                        n - 1
                    };
                }
                SearchOutcome::Stay
            },
            KeyCode::Down => {
                let n = self.matches.len();
                if n > 0 {
                    self.selected = (self.selected + 1) % n;
                }
                SearchOutcome::Stay
            },
            KeyCode::Backspace => {
                let v = chars_of(self.query.as_str());
                if v.len() > 0 {
                    self.query = string_of_range(&v, 0, v.len() - 1);
                    proof {
                        assert(v@.subrange(0, v@.len() - 1) =~= v@.drop_last());
                    }
                }
                self.refresh(history);
                SearchOutcome::Stay
            },
            KeyCode::Char(c) => {
                push_char(&mut self.query, c);
                self.refresh(history);
                SearchOutcome::Stay
            },
            _ => SearchOutcome::Stay,
        }
    }
}

// ---------------------------------------------------------------------------
// A one-line text prompt
// ---------------------------------------------------------------------------

/// A prompt for one line of text, with a cursor counted in characters.
#[derive(Debug)]
pub struct TextInput {
    pub prompt: String,
    pub value: String,
    pub cursor: usize,
}

/// What a key in the text prompt asks for.
#[derive(Debug)]
pub enum PromptOutcome {
    Stay,
    /// Close the prompt without doing anything.
    Close,
    /// Close the prompt and act on this text.
    Submit(String),
}

impl TextInput {
    /// An empty prompt.
    pub fn new(prompt: String) -> (t: Self)
        ensures
            t.prompt@ == prompt@,
            t.value@ == Seq::<char>::empty(),
            t.cursor == 0,
            t.well_formed(),
    {
        TextInput { prompt, value: String::new(), cursor: 0 }
    }

    /// The cursor lies within the text.
    pub open spec fn well_formed(&self) -> bool {
        self.cursor <= self.value@.len()
    }

    /// Handle a key: Esc closes, Enter submits a text that is not blank
    /// (and closes in any case), and the other keys edit the text.
    pub fn handle_key(&mut self, key: Key) -> (out: PromptOutcome)
        requires
            old(self).well_formed(),
        ensures
            final(self).well_formed(),
            final(self).prompt == old(self).prompt,
            ({
                let v = old(self).value@;
                let k = old(self).cursor as int;
                match key.code {
                    KeyCode::Esc => out is Close && *final(self) == *old(self),
                    KeyCode::Enter => *final(self) == *old(self) && if trim(v).len() > 0 {
                        out matches PromptOutcome::Submit(t) && t@ == v
                    } else {
                        out is Close
                    },
                    KeyCode::Backspace => out is Stay && if k > 0 {
                        final(self).value@ == v.remove(k - 1) && final(self).cursor == k - 1
                    } else {
                        *final(self) == *old(self)
                    },
                    KeyCode::Left => out is Stay && final(self).value == old(self).value
                        && final(self).cursor == if k > 0 {
                        k - 1
                    } else {
                        0
                    },
                    KeyCode::Right => out is Stay && final(self).value == old(self).value
                        && final(self).cursor == if k < v.len() {
                        k + 1
                    } else {
                        k
                    },
                    KeyCode::Home => out is Stay && final(self).value == old(self).value
                        && final(self).cursor == 0,
                    KeyCode::End => out is Stay && final(self).value == old(self).value
                        && final(self).cursor == v.len(),
                    KeyCode::Char(c) => out is Stay && final(self).value@ == v.insert(k, c)
                        && final(self).cursor == k + 1,
                    _ => out is Stay && *final(self) == *old(self),
                }
            }),
    {
        match key.code {
            KeyCode::Esc => PromptOutcome::Close,
            KeyCode::Enter => {
                let t = trim_owned(self.value.as_str());
                if t.as_str().is_empty() {
                    PromptOutcome::Close
                } else {
                    PromptOutcome::Submit(owned(self.value.as_str()))
                }
            },
            KeyCode::Backspace => {
                if self.cursor > 0 {
                    let mut v = chars_of(self.value.as_str());
                    v.remove(self.cursor - 1);
                    self.value = string_of(v.as_slice());
                    self.cursor = self.cursor - 1;
                }
                PromptOutcome::Stay
            },
            KeyCode::Left => {
                if self.cursor > 0 {
                    self.cursor = self.cursor - 1;
                }
                PromptOutcome::Stay
            },
            KeyCode::Right => {
                let n = chars_of(self.value.as_str()).len();
                if self.cursor < n {
                    self.cursor = self.cursor + 1;
                }
                PromptOutcome::Stay
            },
            KeyCode::Home => {
                self.cursor = 0;
                PromptOutcome::Stay
            },
            KeyCode::End => {
                self.cursor = chars_of(self.value.as_str()).len();
                PromptOutcome::Stay
            },
            KeyCode::Char(c) => {
                let mut v = chars_of(self.value.as_str());
                v.insert(self.cursor, c);
                let n = v.len();
                assert(self.cursor < n);
                self.value = string_of(v.as_slice());
                self.cursor = self.cursor + 1;
                PromptOutcome::Stay
            },
            _ => PromptOutcome::Stay,
        }
    }
}

/// What renaming the session to `value` amounts to, given the commands the
/// agent reported: the command to send (none where `rename` was not
/// reported) and the notification to show.
pub fn rename_session(reported: &Vec<String>, value: &str) -> (r: (Option<String>, String))
    ensures
        strs_of(reported@).contains("rename"@) ==> {
            &&& r.0 matches Some(cmd) && cmd@ == "/rename "@ + value@
            &&& r.1@ == "Renamed session to \""@ + value@ + "\""@
        },
        !strs_of(reported@).contains("rename"@) ==> {
            &&& r.0 is None
            &&& r.1@ == "/rename not available"@
        },
{
    if !list_contains(reported, "rename") {
        return (None, owned("/rename not available"));
    }
    let mut cmd = owned("/rename ");
    push_str(&mut cmd, value);
    let mut toast = owned("Renamed session to \"");
    push_str(&mut toast, value);
    push_str(&mut toast, "\"");
    (Some(cmd), toast)
}

// ---------------------------------------------------------------------------
// Text viewer and agent dashboard
// ---------------------------------------------------------------------------

/// A scrollable read-only text: help, configuration, instructions, memory
/// files, a diff.
#[derive(Debug)]
pub struct TextViewer {
    pub title: String,
    pub lines: Vec<String>,
    pub scroll: usize,
}

/// Whether a key is `code` or the letter `c`.
pub open spec fn is_key(k: Key, code: KeyCode, c: char) -> bool {
    k.code == code || k.code == KeyCode::Char(c)
}

/// The scroll position after a key in the text viewer, or `None` when the
/// key closes it: Esc or q close, Up or k and Down or j move a line,
/// PageUp and PageDown twenty, Home goes to the top.
pub open spec fn viewer_scroll(scroll: nat, k: Key) -> Option<nat> {
    if is_key(k, KeyCode::Esc, 'q') {
        None
    } else if is_key(k, KeyCode::Up, 'k') {
        Some(if scroll >= 1 { (scroll - 1) as nat } else { 0 })
    } else if is_key(k, KeyCode::Down, 'j') {
        Some(scroll + 1)
    } else if k.code == KeyCode::PageUp {
        Some(if scroll >= 20 { (scroll - 20) as nat } else { 0 })
    } else if k.code == KeyCode::PageDown {
        Some(scroll + 20)
    } else if k.code == KeyCode::Home {
        Some(0)
    } else {
        Some(scroll)
    }
}

impl TextViewer {
    /// A viewer over `lines`, at the top.
    pub fn new(title: String, lines: Vec<String>) -> (v: Self)
        ensures
            v.title@ == title@,
            v.lines@ == lines@,
            v.scroll == 0,
    {
        TextViewer { title, lines, scroll: 0 }
    }

    /// Handle a key; `false` when it closes the viewer.
    pub fn handle_key(&mut self, key: Key) -> (open: bool)
        requires
            viewer_scroll(old(self).scroll as nat, key) matches Some(n) ==> n <= usize::MAX,
        ensures
            final(self).title == old(self).title,
            final(self).lines == old(self).lines,
            match viewer_scroll(old(self).scroll as nat, key) {
                Some(n) => open && final(self).scroll == n,
                None => !open && final(self).scroll == old(self).scroll,
            },
    {
        let s = self.scroll;
        match key.code {
            KeyCode::Esc => {
                return false;
            },
            KeyCode::Char(c) => {
                if c == 'q' {
                    return false;
                } else if c == 'k' {
                    self.scroll = if s >= 1 { s - 1 } else { 0 };
                } else if c == 'j' {
                    self.scroll = s + 1;
                }
            },
            KeyCode::Up => {
                self.scroll = if s >= 1 { s - 1 } else { 0 };
            },
            KeyCode::Down => {
                self.scroll = s + 1;
            },
            KeyCode::PageUp => {
                self.scroll = if s >= 20 { s - 20 } else { 0 };
            },
            KeyCode::PageDown => {
                self.scroll = s + 20;
            },
            KeyCode::Home => {
                self.scroll = 0;
            },
            _ => {},
        }
        true
    }
}

/// The scroll position of the agent dashboard after a key over `tasks`
/// agents, or `None` when the key closes it: Esc or q close, Up or k go
/// one up, Down or j one down but not past the last agent.
pub open spec fn dashboard_scroll(scroll: nat, tasks: nat, k: Key) -> Option<nat> {
    if is_key(k, KeyCode::Esc, 'q') {
        None
    } else if is_key(k, KeyCode::Up, 'k') {
        Some(if scroll >= 1 { (scroll - 1) as nat } else { 0 })
    } else if is_key(k, KeyCode::Down, 'j') {
        let last: nat = if tasks >= 1 { (tasks - 1) as nat } else { 0 };
        Some(if scroll + 1 <= last { scroll + 1 } else { last })
    } else {
        Some(scroll)
    }
}

/// Handle a key in the agent dashboard (see `dashboard_scroll`).
pub fn dashboard_key(scroll: usize, tasks: usize, key: Key) -> (r: Option<usize>)
    requires
        is_key(key, KeyCode::Down, 'j') ==> scroll < usize::MAX,
    ensures
        match r {
            Some(n) => dashboard_scroll(scroll as nat, tasks as nat, key) == Some(n as nat),
            None => dashboard_scroll(scroll as nat, tasks as nat, key) is None,
        },
{
    let up = if scroll >= 1 { scroll - 1 } else { 0 };
    match key.code {
        KeyCode::Esc => None,
        KeyCode::Up => Some(up),
        KeyCode::Down => {
            let last = if tasks >= 1 { tasks - 1 } else { 0 };
            Some(if scroll + 1 <= last { scroll + 1 } else { last })
        },
        KeyCode::Char(c) => {
            if c == 'q' {
                None
            } else if c == 'k' {
                Some(up)
            } else if c == 'j' {
                let last = if tasks >= 1 { tasks - 1 } else { 0 };
                Some(if scroll + 1 <= last { scroll + 1 } else { last })
            } else {
                Some(scroll)
            }
        },
        _ => Some(scroll),
    }
}

// ---------------------------------------------------------------------------
// Plugin browser
// ---------------------------------------------------------------------------

/// A plugin command of the agent's command line.
#[derive(Debug, Clone, Copy, PartialEq, Eq, Structural)]
pub enum PluginVerb {
    Enable,
    Disable,
    Install,
    Uninstall,
}

/// The verb as the command line takes it.
pub open spec fn verb_text(v: PluginVerb) -> Seq<char> {
    match v {
        PluginVerb::Enable => "enable"@,
        PluginVerb::Disable => "disable"@,
        PluginVerb::Install => "install"@,
        PluginVerb::Uninstall => "uninstall"@,
    }
}

/// The verb as the command line takes it.
pub fn verb_word(v: PluginVerb) -> (r: &'static str)
    ensures
        r@ == verb_text(v),
{
    match v {
        PluginVerb::Enable => "enable",
        PluginVerb::Disable => "disable",
        PluginVerb::Install => "install",
        PluginVerb::Uninstall => "uninstall",
    }
}

/// The plugin browser: the plugins found, the one under the cursor and how
/// far the list is scrolled.
#[derive(Debug)]
pub struct PluginBrowser {
    pub plugins: Vec<PluginInfo>,
    pub cursor: usize,
    pub scroll: usize,
}

/// What a key in the plugin browser asks for.
#[derive(Debug)]
pub enum PluginAction {
    Stay,
    Close,
    /// Show the README of the plugin at this index.
    ShowReadme(usize),
    /// Run a plugin command on the plugin of this full name.
    Run(PluginVerb, String),
}

/// The full name of a plugin, `name@marketplace`.
pub open spec fn full_name_of(p: PluginInfo) -> Seq<char> {
    p.name@ + seq!['@'] + p.marketplace@
}

impl PluginBrowser {
    /// The cursor is on a plugin (or at the top of an empty list).
    pub open spec fn well_formed(&self) -> bool {
        self.cursor == 0 || self.cursor < self.plugins@.len()
    }

    /// A browser over `plugins`, at the top.
    pub fn new(plugins: Vec<PluginInfo>) -> (b: Self)
        ensures
            b.plugins@ == plugins@,
            b.cursor == 0,
            b.scroll == 0,
            b.well_formed(),
    {
        PluginBrowser { plugins, cursor: 0, scroll: 0 }
    }

    /// Handle a key: Esc or q close; Up or k and Down or j move the cursor
    /// within the list; Enter shows the README; Space enables or disables
    /// an installed plugin; i installs one that is not installed and u
    /// uninstalls one that is.
    pub fn handle_key(&mut self, key: Key) -> (act: PluginAction)
        requires
            old(self).well_formed(),
        ensures
            final(self).well_formed(),
            final(self).plugins == old(self).plugins,
            final(self).scroll == old(self).scroll,
            ({
                let ps = old(self).plugins@;
                let k = old(self).cursor as int;
                if is_key(key, KeyCode::Esc, 'q') {
                    act is Close && final(self).cursor == k
                } else if is_key(key, KeyCode::Up, 'k') {
                    act is Stay && final(self).cursor == if k >= 1 {
                        k - 1
                    } else {
                        0
                    }
                } else if is_key(key, KeyCode::Down, 'j') {
                    act is Stay && final(self).cursor == if k + 1 < ps.len() {
                        k + 1
                    } else {
                        k
                    }
                } else {
                    &&& final(self).cursor == k
                    &&& if key.code == KeyCode::Enter && k < ps.len() {
                        act == PluginAction::ShowReadme(k as usize)
                    } else if key.code == KeyCode::Char(' ') && k < ps.len() && ps[k].installed {
                        act matches PluginAction::Run(v, n) && v == (if ps[k].enabled {
                            PluginVerb::Disable
                        } else {
                            PluginVerb::Enable
                        }) && n@ == full_name_of(ps[k])
                    } else if key.code == KeyCode::Char('i') && k < ps.len() && !ps[k].installed {
                        act matches PluginAction::Run(v, n) && v == PluginVerb::Install && n@
                            == full_name_of(ps[k])
                    } else if key.code == KeyCode::Char('u') && k < ps.len() && ps[k].installed {
                        act matches PluginAction::Run(v, n) && v == PluginVerb::Uninstall && n@
                            == full_name_of(ps[k])
                    } else {
                        act is Stay
                    }
                }
            }),
    {
        let k = self.cursor;
        let n = self.plugins.len();
        let (esc, up, down) = match key.code {
            KeyCode::Esc => (true, false, false),
            KeyCode::Up => (false, true, false),
            KeyCode::Down => (false, false, true),
            KeyCode::Char(c) => (c == 'q', c == 'k', c == 'j'),
            _ => (false, false, false),
        };
        if esc {
            return PluginAction::Close;
        }
        if up {
            self.cursor = if k >= 1 { k - 1 } else { 0 };
            return PluginAction::Stay;
        }
        if down {
            if k + 1 < n {
                self.cursor = k + 1;
            }
            return PluginAction::Stay;
        }
        if k >= n {
            return PluginAction::Stay;
        }
        let p = &self.plugins[k];
        match key.code {
            KeyCode::Enter => PluginAction::ShowReadme(k),
            KeyCode::Char(c) => {
                if c == ' ' && p.installed {
                    let v = if p.enabled {
                        PluginVerb::Disable
                    } else {
                        PluginVerb::Enable
                    };
                    PluginAction::Run(v, p.full_name())
                } else if c == 'i' && !p.installed {
                    PluginAction::Run(PluginVerb::Install, p.full_name())
                } else if c == 'u' && p.installed {
                    PluginAction::Run(PluginVerb::Uninstall, p.full_name())
                } else {
                    PluginAction::Stay
                }
            },
            _ => PluginAction::Stay,
        }
    }
}

/// How a plugin command went.
#[derive(Debug)]
pub enum PluginRun {
    Succeeded,
    /// It ran and failed, with this error output.
    Failed(String),
    /// It could not be run, for this reason.
    NotRun(String),
}

/// The notification after a plugin command, and whether the list is to be
/// read again (after a success).
pub open spec fn plugin_report(v: PluginVerb, name: Seq<char>, run: PluginRun) -> (Seq<char>, bool) {
    match run {
        PluginRun::Succeeded => (
            match v {
                PluginVerb::Enable => "Plugin enabled: "@ + name,
                PluginVerb::Disable => "Plugin disabled: "@ + name,
                PluginVerb::Install => "Installed: "@ + name,
                PluginVerb::Uninstall => "Uninstalled: "@ + name,
            },
            true,
        ),
        PluginRun::Failed(err) => (
            match v {
                PluginVerb::Enable => "Failed: "@ + err@,
                PluginVerb::Disable => "Failed: "@ + err@,
                PluginVerb::Install => "Install failed: "@ + err@,
                PluginVerb::Uninstall => "Uninstall failed: "@ + err@,
            },
            false,
        ),
        PluginRun::NotRun(e) => ("Error: "@ + e@, false),
    }
}

/// The notification after a plugin command (see `plugin_report`).
pub fn plugin_outcome(v: PluginVerb, name: &str, run: &PluginRun) -> (r: (String, bool))
    ensures
        (r.0@, r.1) == plugin_report(v, name@, *run),
{
    match run {
        PluginRun::Succeeded => {
            let mut t = match v {
                PluginVerb::Enable => owned("Plugin enabled: "),
                PluginVerb::Disable => owned("Plugin disabled: "),
                PluginVerb::Install => owned("Installed: "),
                PluginVerb::Uninstall => owned("Uninstalled: "),
            };
            push_str(&mut t, name);
            (t, true)
        },
        PluginRun::Failed(err) => {
            let mut t = match v {
                PluginVerb::Enable => owned("Failed: "),
                PluginVerb::Disable => owned("Failed: "),
                PluginVerb::Install => owned("Install failed: "),
                PluginVerb::Uninstall => owned("Uninstall failed: "),
            };
            push_str(&mut t, err.as_str());
            (t, false)
        },
        PluginRun::NotRun(e) => {
            let mut t = owned("Error: ");
            push_str(&mut t, e.as_str());
            (t, false)
        },
    }
}

/// The notification while a plugin installs.
pub fn installing_toast(name: &str) -> (r: String)
    ensures
        r@ == "Installing "@ + name@ + "..."@,
{
    let mut t = owned("Installing ");
    push_str(&mut t, name);
    push_str(&mut t, "...");
    t
}

/// The viewer title of a plugin's README: `name (marketplace)`.
pub fn readme_title(p: &PluginInfo) -> (r: String)
    ensures
        r@ == p.name@ + " ("@ + p.marketplace@ + ")"@,
{
    let mut t = owned(p.name.as_str());
    push_str(&mut t, " (");
    push_str(&mut t, p.marketplace.as_str());
    push_str(&mut t, ")");
    t
}

/// What the viewer shows for a plugin without a README.
pub fn readme_fallback(p: &PluginInfo) -> (r: String)
    ensures
        r@ == "# "@ + p.name@ + "\n\n"@ + p.description@ + "\n\nNo README available."@,
{
    let mut t = owned("# ");
    push_str(&mut t, p.name.as_str());
    push_str(&mut t, "\n\n");
    push_str(&mut t, p.description.as_str());
    push_str(&mut t, "\n\nNo README available.");
    t
}

/// The directory of the marketplace that holds a plugin: MCP plugins sit
/// under `external_plugins`, the others under `plugins`.
pub fn plugin_subdir(p: &PluginInfo) -> (r: &'static str)
    ensures
        r@ == if p.is_mcp {
            "external_plugins"@
        } else {
            "plugins"@
        },
{
    if p.is_mcp {
        "external_plugins"
    } else {
        "plugins"
    }
}

// ---------------------------------------------------------------------------
// Pickers
// ---------------------------------------------------------------------------

/// What a key in a picker asks for.
#[derive(Debug, Clone, Copy, PartialEq, Eq, Structural)]
pub enum PickerOutcome {
    Stay,
    /// The selection moved (a theme picker previews the theme).
    Moved,
    /// Close without choosing (a theme picker restores the theme).
    Close,
    /// Choose the selected item.
    Confirm,
}

/// Handle a key in a picker: Esc closes, Enter confirms, Up and Down move
/// the selection, Backspace and typing edit the filter.
pub fn picker_key(state: &mut OverlayState, key: Key) -> (out: PickerOutcome)
    requires
        key.code == KeyCode::Down ==> old(state).selected < usize::MAX,
    ensures
        final(state).items@ == old(state).items@,
        final(state).original_theme == old(state).original_theme,
        ({
            let count = filtered(items_view(old(state).items@), old(state).filter@).len();
            match key.code {
                KeyCode::Esc => out == PickerOutcome::Close && *final(state) == *old(state),
                KeyCode::Enter => out == PickerOutcome::Confirm && *final(state) == *old(state),
                KeyCode::Up => out == PickerOutcome::Moved && final(state).filter@ == old(state).filter@
                    && final(state).selected == moved_up(old(state).selected as nat, count),
                KeyCode::Down => out == PickerOutcome::Moved && final(state).filter@
                    == old(state).filter@ && final(state).selected == moved_down(
                    old(state).selected as nat,
                    count,
                ),
                KeyCode::Backspace => out == PickerOutcome::Stay && final(state).selected == 0
                    && final(state).filter@ == if old(state).filter@.len() > 0 {
                    old(state).filter@.drop_last()
                } else {
                    old(state).filter@
                },
                KeyCode::Char(c) => out == PickerOutcome::Stay && final(state).selected == 0
                    && final(state).filter@ == old(state).filter@.push(c),
                _ => out == PickerOutcome::Stay && *final(state) == *old(state),
            }
        }),
{
    match key.code {
        KeyCode::Esc => PickerOutcome::Close,
        KeyCode::Enter => PickerOutcome::Confirm,
        KeyCode::Up => {
            state.move_up();
            PickerOutcome::Moved
        },
        KeyCode::Down => {
            state.move_down();
            PickerOutcome::Moved
        },
        KeyCode::Backspace => {
            state.backspace();
            PickerOutcome::Stay
        },
        KeyCode::Char(c) => {
            state.type_char(c);
            PickerOutcome::Stay
        },
        _ => PickerOutcome::Stay,
    }
}

} // verus!
