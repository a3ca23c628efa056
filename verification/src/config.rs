//! Settings that the configuration file gives and the checks they must pass.
use vstd::prelude::*;

use crate::text::owned;

verus! {

/// Layout settings.
#[derive(Debug, Clone, Copy, PartialEq, Eq, Structural)]
pub struct LayoutConfig {
    /// Share of the screen width, in percent, given to the conversation pane.
    pub claude_pane_percent: u16,
}

impl Default for LayoutConfig {
    fn default() -> (l: Self)
        ensures
            l.claude_pane_percent == 70,
    {
        LayoutConfig { claude_pane_percent: 70 }
    }
}

/// A setting out of its allowed range.
#[derive(Debug, Clone, Copy, PartialEq, Eq, Structural)]
pub enum ConfigError {
    /// `fps` is not between 1 and 120.
    Fps,
    /// The pane share is not between 20 and 100 percent.
    PanePercent,
}

impl ConfigError {
    /// The error message.
    pub fn message(&self) -> (m: String)
        ensures
            m@ == match *self {
                ConfigError::Fps => "fps must be between 1 and 120"@,
                ConfigError::PanePercent => "claude_pane_percent must be between 20 and 100"@,
            },
    {
        match self {
            ConfigError::Fps => owned("fps must be between 1 and 120"),
            ConfigError::PanePercent => owned("claude_pane_percent must be between 20 and 100"),
        }
    }
}

/// Checks the frame rate and the layout: `fps` must be within 1..=120 and the
/// pane share within 20..=100; the frame rate is checked first.
pub fn validate_settings(fps: u32, layout: &LayoutConfig) -> (r: Result<(), ConfigError>)
    ensures
        !(1 <= fps <= 120) ==> r == Err::<(), ConfigError>(ConfigError::Fps),
        1 <= fps <= 120 && !(20 <= layout.claude_pane_percent <= 100) ==> r == Err::<(), ConfigError>(
            ConfigError::PanePercent,
        ),
        1 <= fps <= 120 && 20 <= layout.claude_pane_percent <= 100 ==> r == Ok::<(), ConfigError>(()),
{
    if !(fps >= 1 && fps <= 120) {
        return Err(ConfigError::Fps);
    }
    if !(layout.claude_pane_percent >= 20 && layout.claude_pane_percent <= 100) {
        return Err(ConfigError::PanePercent);
    }
    Ok(())
}

// ---------------------------------------------------------------------------
// Saving the theme
// ---------------------------------------------------------------------------

/// A configuration file read as a table of top-level keys and TOML values.
#[verifier::external_body]
pub struct TomlTable {
    inner: std::collections::BTreeMap<String, toml::Value>,
}

/// The entries of a table: each key with its value written as TOML text.
pub uninterp spec fn toml_entries(t: TomlTable) -> Map<Seq<char>, Seq<char>>;

/// The entries `toml::from_str` reads from a text into a table of values;
/// none when the text is not such a table.
pub uninterp spec fn toml_entries_of(text: Seq<char>) -> Map<Seq<char>, Seq<char>>;

/// A string written as a TOML value.
pub uninterp spec fn toml_string_text(s: Seq<char>) -> Seq<char>;

/// The text `toml::to_string_pretty` writes for a table with these entries;
/// `None` where it cannot write them.
pub uninterp spec fn toml_text_of(entries: Map<Seq<char>, Seq<char>>) -> Option<Seq<char>>;

/// An optional string taken by its characters.
pub open spec fn text_opt(r: Option<String>) -> Option<Seq<char>> {
    match r {
        Some(s) => Some(s@),
        None => None,
    }
}

/// No entry.
pub open spec fn no_entries() -> Map<Seq<char>, Seq<char>> {
    Map::empty()
}

/// An empty table (`BTreeMap::new`).
#[verifier::external_body]
fn empty_table() -> (t: TomlTable)
    ensures
        toml_entries(t) == no_entries(),
{
    TomlTable { inner: std::collections::BTreeMap::new() }
}

/// `toml::from_str` into a table of values; a text that does not parse
/// gives the empty table.
#[verifier::external_body]
fn parse_table(text: &str) -> (t: TomlTable)
    ensures
        toml_entries(t) == toml_entries_of(text@),
{
    TomlTable { inner: toml::from_str(text).unwrap_or_default() }
}

/// `BTreeMap::insert` of `toml::Value::String`: sets a key to a string,
/// replacing what it held.
#[verifier::external_body]
fn set_string(t: &mut TomlTable, key: &str, value: &str)
    ensures
        toml_entries(*final(t)) == toml_entries(*old(t)).insert(key@, toml_string_text(value@)),
{
    t.inner.insert(key.to_string(), toml::Value::String(value.to_string()));
}

/// `toml::to_string_pretty` of the table, `None` where it cannot be
/// written: a function of the table's entries alone (the map is ordered by
/// key), named `toml_text_of`.
#[verifier::external_body]
fn table_text(t: &TomlTable) -> (r: Option<String>)
    ensures
        text_opt(r) == toml_text_of(toml_entries(*t)),
{
    toml::to_string_pretty(&t.inner).ok()
}

/// The configuration with the theme set to `theme`: the entries of the
/// existing file (none where there is no file, or it does not parse), with
/// `theme` set to the theme's name and every other value kept.
pub fn config_with_theme(existing: Option<&str>, theme: &str) -> (t: TomlTable)
    ensures
        toml_entries(t) == (match existing {
            Some(s) => toml_entries_of(s@),
            None => no_entries(),
        }).insert("theme"@, toml_string_text(theme@)),
{
    let mut t = match existing {
        Some(s) => parse_table(s),
        None => empty_table(),
    };
    set_string(&mut t, "theme", theme);
    t
}

/// The text to write back for the configuration with the theme set (see
/// `config_with_theme`); `None` where the table cannot be written as TOML.
pub fn config_text_with_theme(existing: Option<&str>, theme: &str) -> (r: Option<String>)
    ensures
        text_opt(r) == toml_text_of(
            (match existing {
                Some(s) => toml_entries_of(s@),
                None => no_entries(),
            }).insert("theme"@, toml_string_text(theme@)),
        ),
{
    let t = config_with_theme(existing, theme);
    table_text(&t)
}

} // verus!
