//! What the text viewers and the plugin browser show: the help page, the
//! memory files, the files the session touched, and the plugins the
//! marketplaces offer.
use vstd::prelude::*;

use crate::commands::CustomCommand;
use crate::conversation::{BlockView, MessageView};
use crate::json::{get, get_spec, opt_val, parse_json, spec_parse_json, JsonValue};
use crate::order::{is_sort_perm, is_stable_sort, key_of, seq_less, sort_by_key};
use crate::plugins::{plugin_rank, PluginInfo};
use crate::text::{chars_of, list_contains, owned, push_char, push_decimal, push_str, str_eq, strs_of, decimal};

verus! {

// ---------------------------------------------------------------------------
// The help page
// ---------------------------------------------------------------------------

/// `s` padded with spaces to `w` characters (`{:w}`).
pub open spec fn padded(s: Seq<char>, w: nat) -> Seq<char> {
    if s.len() >= w {
        s
    } else {
        s + Seq::new((w - s.len()) as nat, |i: int| ' ')
    }
}

/// The help line of a known command: `?` marks one the agent did not report.
pub open spec fn known_line(name: Seq<char>, desc: Seq<char>, available: bool) -> Seq<char> {
    " "@ + (if available {
        " "@
    } else {
        "?"@
    }) + " /"@ + padded(name, 20) + " "@ + desc
}

/// The help line of a custom command.
pub open spec fn custom_line(name: Seq<char>, desc: Seq<char>) -> Seq<char> {
    "   /"@ + padded(name, 20) + " "@ + (if desc.len() == 0 {
        "(no description)"@
    } else {
        desc
    })
}

/// The help page: the known commands (marked when not reported), the
/// custom commands if any, the keyboard shortcuts, and a legend.
pub open spec fn help_page(
    known: Seq<(String, String)>,
    reported: Seq<Seq<char>>,
    custom: Seq<CustomCommand>,
    shortcuts: Seq<Seq<char>>,
) -> Seq<Seq<char>> {
    seq!["# Available Commands"@, Seq::empty(), "## Slash Commands"@] + Seq::new(
        known.len(),
        |i: int| known_line(known[i].0@, known[i].1@, reported.contains(known[i].0@)),
    ) + (if custom.len() > 0 {
        seq![Seq::empty(), "## Custom Commands"@] + Seq::new(
            custom.len(),
            |i: int| custom_line(custom[i].name@, custom[i].description@),
        )
    } else {
        seq![]
    }) + seq![Seq::empty(), "## Keyboard Shortcuts"@] + shortcuts + seq![
        Seq::empty(),
        "? = may not be available in stream-json mode"@,
    ]
}

/// Append `s` padded with spaces to `w` characters.
pub(crate) fn push_padded(out: &mut String, s: &str, w: usize)
    ensures
        final(out)@ == old(out)@ + padded(s@, w as nat),
{
    push_str(out, s);
    let n = chars_of(s).len();
    let mut k = n;
    let ghost base = old(out)@;
    while k < w
        invariant
            n == s@.len(),
            n <= k <= w || (n > w && k == n),
            out@ == base + s@ + Seq::new((k - n) as nat, |i: int| ' '),
        decreases w - k,
    {
        push_char(out, ' ');
        proof {
            assert(Seq::new((k - n) as nat, |i: int| ' ').push(' ') =~= Seq::new(
                (k + 1 - n) as nat,
                |i: int| ' ',
            ));
        }
        k = k + 1;
    }
    proof {
        if n >= w {
            assert(Seq::new(0 as nat, |i: int| ' ') =~= Seq::<char>::empty());
            assert(base + s@ + Seq::<char>::empty() =~= base + s@);
        }
    }
}

/// The lines of the help page (see `help_page`); the shortcut lines are
/// given.
pub fn help_lines(
    known: &Vec<(String, String)>,
    reported: &Vec<String>,
    custom: &Vec<CustomCommand>,
    shortcuts: &Vec<String>,
) -> (r: Vec<String>)
    ensures
        strs_of(r@) == help_page(known@, strs_of(reported@), custom@, strs_of(shortcuts@)),
{
    let mut lines: Vec<String> = Vec::new();
    lines.push(owned("# Available Commands"));
    lines.push(String::new());
    lines.push(owned("## Slash Commands"));
    let ghost head = strs_of(lines@);
    proof {
        assert(head =~= seq!["# Available Commands"@, Seq::empty(), "## Slash Commands"@]);
    }
    let mut i: usize = 0;
    while i < known.len()
        invariant
            i <= known@.len(),
            strs_of(lines@) == head + Seq::new(
                i as nat,
                |j: int| known_line(known@[j].0@, known@[j].1@, strs_of(reported@).contains(known@[j].0@)),
            ),
        decreases known.len() - i,
    {
        let (name, desc) = (&known[i].0, &known[i].1);
        let available = list_contains(reported, name.as_str());
        let mut l = owned(" ");
        push_str(&mut l, if available { " " } else { "?" });
        push_str(&mut l, " /");
        push_padded(&mut l, name.as_str(), 20);
        push_str(&mut l, " ");
        push_str(&mut l, desc.as_str());
        let ghost before = strs_of(lines@);
        lines.push(l);
        proof {
            assert(strs_of(lines@) =~= before.push(l@));
            assert(strs_of(lines@) =~= head + Seq::new(
                (i + 1) as nat,
                |j: int| known_line(known@[j].0@, known@[j].1@, strs_of(reported@).contains(known@[j].0@)),
            ));
        }
        i = i + 1;
    }
    let ghost mid = strs_of(lines@);
    if custom.len() > 0 {
        lines.push(String::new());
        lines.push(owned("## Custom Commands"));
        let ghost mid2 = strs_of(lines@);
        proof {
            assert(mid2 =~= mid + seq![Seq::empty(), "## Custom Commands"@]);
        }
        let mut j: usize = 0;
        while j < custom.len()
            invariant
                j <= custom@.len(),
                strs_of(lines@) == mid2 + Seq::new(
                    j as nat,
                    |k: int| custom_line(custom@[k].name@, custom@[k].description@),
                ),
            decreases custom.len() - j,
        {
            let c = &custom[j];
            let mut l = owned("   /");
            push_padded(&mut l, c.name.as_str(), 20);
            push_str(&mut l, " ");
            if c.description.as_str().is_empty() {
                push_str(&mut l, "(no description)");
            } else {
                push_str(&mut l, c.description.as_str());
            }
            let ghost before = strs_of(lines@);
            lines.push(l);
            proof {
                assert(strs_of(lines@) =~= before.push(l@));
                assert(strs_of(lines@) =~= mid2 + Seq::new(
                    (j + 1) as nat,
                    |k: int| custom_line(custom@[k].name@, custom@[k].description@),
                ));
            }
            j = j + 1;
        }
    }
    let ghost with_custom = strs_of(lines@);
    proof {
        let kp = Seq::new(
            known@.len(),
            |j: int| known_line(known@[j].0@, known@[j].1@, strs_of(reported@).contains(known@[j].0@)),
        );
        let cp = if custom@.len() > 0 {
            seq![Seq::empty(), "## Custom Commands"@] + Seq::new(
                custom@.len(),
                |i: int| custom_line(custom@[i].name@, custom@[i].description@),
            )
        } else {
            seq![]
        };
        assert(mid =~= head + kp);
        assert(with_custom =~= head + kp + cp);
    }
    lines.push(String::new());
    lines.push(owned("## Keyboard Shortcuts"));
    let mut k: usize = 0;
    while k < shortcuts.len()
        invariant
            k <= shortcuts@.len(),
            strs_of(lines@) == with_custom + seq![Seq::<char>::empty(), "## Keyboard Shortcuts"@]
                + strs_of(shortcuts@).take(k as int),
        decreases shortcuts.len() - k,
    {
        let ghost before = strs_of(lines@);
        lines.push(owned(shortcuts[k].as_str()));
        proof {
            assert(strs_of(lines@) =~= before.push(shortcuts@[k as int]@));
            assert(strs_of(shortcuts@).take(k + 1) =~= strs_of(shortcuts@).take(k as int).push(
                shortcuts@[k as int]@,
            ));
        }
        k = k + 1;
    }
    lines.push(String::new());
    lines.push(owned("? = may not be available in stream-json mode"));
    proof {
        assert(strs_of(shortcuts@).take(shortcuts@.len() as int) =~= strs_of(shortcuts@));
        assert(strs_of(lines@) =~= help_page(known@, strs_of(reported@), custom@, strs_of(shortcuts@)));
    }
    lines
}

// ---------------------------------------------------------------------------
// The memory files
// ---------------------------------------------------------------------------

/// Whether a file name has the extension `md` (`Path::extension`): it ends
/// in `.md` after at least one other character.
pub open spec fn is_markdown_name(n: Seq<char>) -> bool {
    n.len() >= 4 && n[n.len() - 3] == '.' && n[n.len() - 2] == 'm' && n[n.len() - 1] == 'd'
}

/// Whether a file name has the extension `md`.
pub fn is_markdown_file(name: &str) -> (r: bool)
    ensures
        r == is_markdown_name(name@),
{
    let v = chars_of(name);
    let n = v.len();
    n >= 4 && v[n - 3] == '.' && v[n - 2] == 'm' && v[n - 1] == 'd'
}

/// Where a memory file goes: `MEMORY.md` first, then the others by name.
pub open spec fn memory_rank(name: Seq<char>) -> u8 {
    if name == "MEMORY.md"@ {
        0
    } else {
        1
    }
}

/// The section of the memory view for the file at `i`: a line break
/// between files, a header with the file name, then the file.
pub open spec fn memory_section(i: int, name: Seq<char>, content: Seq<char>) -> Seq<char> {
    (if i > 0 {
        "\n"@
    } else {
        Seq::empty()
    }) + "═══ "@ + name + " ═══\n\n"@ + content
}

/// The memory view of files in the order given.
pub open spec fn memory_text(files: Seq<(u8, String, String)>) -> Seq<char>
    decreases files.len(),
{
    if files.len() == 0 {
        Seq::empty()
    } else {
        memory_text(files.drop_last()) + memory_section(
            files.len() - 1,
            files.last().1@,
            files.last().2@,
        )
    }
}

/// The memory files with their sort keys.
pub open spec fn memory_keyed(files: Seq<(String, String)>) -> Seq<(u8, String, String)> {
    files.map_values(|f: (String, String)| (memory_rank(f.0@), f.0, f.1))
}

/// The title of the memory view.
pub open spec fn memory_title(count: nat) -> Seq<char> {
    "Auto-Memory ("@ + decimal(count) + " files)"@
}

/// The memory view of the files read (name and text), or `None` when there
/// are none: `MEMORY.md` first, then the others by name, each under a
/// header with its name.
pub fn memory_viewer(files: Vec<(String, String)>) -> (r: Option<crate::panels::TextViewer>)
    ensures
        match r {
            Some(v) => {
                &&& files@.len() > 0
                &&& v.title@ == memory_title(files@.len())
                &&& v.scroll == 0
                &&& exists|sorted: Seq<(u8, String, String)>|
                    is_stable_sort(memory_keyed(files@), sorted) && strs_of(v.lines@)
                        == crate::text::lines_of(memory_text(sorted))
            },
            None => files@.len() == 0,
        },
{
    let count = files.len();
    if count == 0 {
        return None;
    }
    let ghost input = files@;
    let mut keyed: Vec<(u8, String, String)> = Vec::new();
    let mut files = files;
    let mut i: usize = 0;
    while i < count
        invariant
            count == input.len(),
            i <= count,
            files@ == input.skip(i as int),
            keyed@ == memory_keyed(input).take(i as int),
        decreases count - i,
    {
        let f = files.remove(0);
        proof {
            assert(f == input[i as int]);
            assert(files@ =~= input.skip(i + 1));
        }
        let rank: u8 = if str_eq(f.0.as_str(), "MEMORY.md") {
            0
        } else {
            1
        };
        keyed.push((rank, f.0, f.1));
        proof {
            assert(keyed@ =~= memory_keyed(input).take(i + 1));
        }
        i = i + 1;
    }
    proof {
        assert(memory_keyed(input).take(count as int) =~= memory_keyed(input));
    }
    let sorted = sort_by_key(keyed);
    let mut text = String::new();
    let mut j: usize = 0;
    while j < sorted.len()
        invariant
            j <= sorted@.len(),
            text@ == memory_text(sorted@.take(j as int)),
        decreases sorted.len() - j,
    {
        proof {
            assert(sorted@.take(j + 1).drop_last() =~= sorted@.take(j as int));
        }
        if j > 0 {
            push_str(&mut text, "\n");
        }
        push_str(&mut text, "═══ ");
        push_str(&mut text, sorted[j].1.as_str());
        push_str(&mut text, " ═══\n\n");
        push_str(&mut text, sorted[j].2.as_str());
        proof {
            reveal_strlit("\n");
            assert(text@ =~= memory_text(sorted@.take(j + 1)));
        }
        j = j + 1;
    }
    proof {
        assert(sorted@.take(sorted@.len() as int) =~= sorted@);
    }
    let mut title = owned("Auto-Memory (");
    push_decimal(&mut title, count as u64);
    push_str(&mut title, " files)");
    let lines = crate::activity::lines_owned(text.as_str());
    Some(crate::panels::TextViewer::new(title, lines))
}

/// The directory name the agent keeps a project's files under: its path
/// with every `/` turned into `-`.
pub open spec fn project_key_of(path: Seq<char>) -> Seq<char> {
    path.map_values(|c: char| if c == '/' { '-' } else { c })
}

/// The directory name the agent keeps a project's files under.
pub fn project_key(path: &str) -> (r: String)
    ensures
        r@ == project_key_of(path@),
{
    let v = chars_of(path);
    let mut out = String::new();
    let mut i: usize = 0;
    while i < v.len()
        invariant
            i <= v@.len(),
            v@ == path@,
            out@ == project_key_of(path@).take(i as int),
        decreases v.len() - i,
    {
        push_char(&mut out, if v[i] == '/' { '-' } else { v[i] });
        proof {
            assert(out@ =~= project_key_of(path@).take(i + 1));
        }
        i = i + 1;
    }
    proof {
        assert(project_key_of(path@).take(v@.len() as int) =~= project_key_of(path@));
    }
    out
}

// ---------------------------------------------------------------------------
// The plugin catalog
// ---------------------------------------------------------------------------

/// A plugin directory found in a marketplace: where, its name, the text of
/// its manifest if it could be read, and whether it serves MCP.
#[derive(Debug)]
pub struct FoundPlugin {
    pub marketplace: String,
    pub name: String,
    pub manifest: Option<String>,
    pub is_mcp: bool,
}

/// The members of the object at `key` of the document `text`, if it is one.
pub open spec fn object_at(text: Option<Seq<char>>, key: Seq<char>) -> Seq<(String, JsonValue)> {
    match text {
        Some(t) => object_in(spec_parse_json(t), key),
        None => seq![],
    }
}

/// The members of the object under `key` in a parsed document; none when
/// there is no such object.
pub open spec fn object_in(j: Option<JsonValue>, key: Seq<char>) -> Seq<(String, JsonValue)> {
    match j {
        Some(v) => match get_spec(v, key) {
            Some(JsonValue::Object(m)) => m@,
            _ => seq![],
        },
        None => seq![],
    }
}

/// Whether the installed-plugins document lists `full` under `plugins`.
pub open spec fn listed_installed(installed: Option<Seq<char>>, full: Seq<char>) -> bool {
    exists|k: int| 0 <= k < object_at(installed, "plugins"@).len() && #[trigger] object_at(installed, "plugins"@)[k].0@ == full
}

/// Whether the settings enable `full` (a member `true` under
/// `enabledPlugins`).
pub open spec fn listed_enabled(settings: Option<Seq<char>>, full: Seq<char>) -> bool {
    exists|k: int|
        0 <= k < object_at(settings, "enabledPlugins"@).len() && #[trigger] object_at(settings, "enabledPlugins"@)[k].0@
            == full && object_at(settings, "enabledPlugins"@)[k].1 == JsonValue::Bool(true)
}

/// The description a manifest gives, or empty.
pub open spec fn manifest_description(manifest: Option<Seq<char>>) -> Seq<char> {
    match manifest {
        Some(t) => description_in(spec_parse_json(t)),
        None => Seq::empty(),
    }
}

/// The description a parsed manifest gives, or empty.
pub open spec fn description_in(j: Option<JsonValue>) -> Seq<char> {
    match j {
        Some(v) => match get_spec(v, "description"@) {
            Some(JsonValue::Str(d)) => d@,
            _ => Seq::empty(),
        },
        None => Seq::empty(),
    }
}

/// An optional string as plain values.
pub open spec fn opt_text(o: Option<String>) -> Option<Seq<char>> {
    match o {
        Some(s) => Some(s@),
        None => None,
    }
}

/// An optional borrowed string as plain values.
pub open spec fn opt_str(o: Option<&str>) -> Option<Seq<char>> {
    match o {
        Some(s) => Some(s@),
        None => None,
    }
}

/// Whether `p` is what the browser shows for the plugin found as `f`.
pub open spec fn plugin_entry(p: PluginInfo, f: FoundPlugin, installed: Option<Seq<char>>, settings: Option<Seq<char>>) -> bool {
    let full = f.name@ + seq!['@'] + f.marketplace@;
    &&& p.name@ == f.name@
    &&& p.marketplace@ == f.marketplace@
    &&& p.description@ == manifest_description(opt_text(f.manifest))
    &&& p.is_mcp == f.is_mcp
    &&& p.installed == listed_installed(installed, full)
    &&& p.enabled == listed_enabled(settings, full)
}

/// Whether `keyed` holds the plugins `ps` with their sort keys: rank, then
/// name.
pub open spec fn plugins_keyed(ps: Seq<PluginInfo>, keyed: Seq<(u8, String, PluginInfo)>) -> bool {
    &&& keyed.len() == ps.len()
    &&& forall|i: int|
        0 <= i < ps.len() ==> (#[trigger] keyed[i]).0 == plugin_rank(ps[i]) as u8 && keyed[i].1@
            == ps[i].name@ && keyed[i].2 == ps[i]
}

/// The plugins of sorted keyed entries.
pub open spec fn plugins_of(s: Seq<(u8, String, PluginInfo)>) -> Seq<PluginInfo> {
    s.map_values(|e: (u8, String, PluginInfo)| e.2)
}

/// Whether the members hold `full`, with the value `true` where `enabled`
/// asks for it.
fn object_holds(members: &Vec<(String, JsonValue)>, full: &str, enabled: bool) -> (r: bool)
    ensures
        r == exists|k: int|
            0 <= k < members@.len() && #[trigger] members@[k].0@ == full@ && (enabled ==> members@[k].1
                == JsonValue::Bool(true)),
{
    let mut i: usize = 0;
    while i < members.len()
        invariant
            i <= members@.len(),
            forall|k: int|
                0 <= k < i ==> !(#[trigger] members@[k].0@ == full@ && (enabled ==> members@[k].1
                    == JsonValue::Bool(true))),
        decreases members.len() - i,
    {
        if str_eq(members[i].0.as_str(), full) {
            let ok = if enabled {
                match &members[i].1 {
                    JsonValue::Bool(b) => *b,
                    _ => false,
                }
            } else {
                true
            };
            if ok {
                return true;
            }
        }
        i = i + 1;
    }
    false
}

/// Whether the document at `text` has, under `key`, a member named `full`
/// (with the value `true` where `enabled` asks for it).
fn listed(text: Option<&str>, key: &str, full: &str, enabled: bool) -> (r: bool)
    ensures
        r == exists|k: int|
            0 <= k < object_at(opt_str(text), key@).len() && #[trigger] object_at(opt_str(text), key@)[k].0@
                == full@ && (enabled ==> object_at(opt_str(text), key@)[k].1 == JsonValue::Bool(true)),
{
    match text {
        Some(t) => {
            let json = parse_json(t);
            match &json {
                Some(v) => listed_in_value(Some(v), key, full, enabled),
                None => listed_in_value(None, key, full, enabled),
            }
        },
        None => false,
    }
}

/// Whether a parsed document has, under `key`, a member named `full` (with
/// the value `true` where `enabled` asks for it).
pub fn listed_in_value(json: Option<&JsonValue>, key: &str, full: &str, enabled: bool) -> (r: bool)
    ensures
        r == exists|k: int|
            0 <= k < object_in(opt_val(json), key@).len() && #[trigger] object_in(opt_val(json), key@)[k].0@
                == full@ && (enabled ==> object_in(opt_val(json), key@)[k].1 == JsonValue::Bool(true)),
{
    match json {
        Some(v) => match get(v, key) {
            Some(JsonValue::Object(m)) => object_holds(m, full, enabled),
            _ => false,
        },
        None => false,
    }
}

/// The description a manifest gives, or empty.
fn description_of(manifest: &Option<String>) -> (r: String)
    ensures
        r@ == manifest_description(opt_text(*manifest)),
{
    match manifest {
        Some(t) => {
            let json = parse_json(t.as_str());
            match &json {
                Some(v) => description_of_value(Some(v)),
                None => description_of_value(None),
            }
        },
        None => String::new(),
    }
}

/// The description a parsed manifest gives, or empty.
pub fn description_of_value(json: Option<&JsonValue>) -> (r: String)
    ensures
        r@ == description_in(opt_val(json)),
{
    match json {
        Some(v) => match get(v, "description") {
            Some(JsonValue::Str(d)) => owned(d.as_str()),
            _ => String::new(),
        },
        None => String::new(),
    }
}

/// The plugins the browser lists, from the plugin directories found, the
/// installed-plugins document and the settings (each if it could be read):
/// enabled plugins first, then installed ones, then the rest, by name
/// within each group.
pub fn plugin_catalog(installed: Option<&str>, settings: Option<&str>, found: Vec<FoundPlugin>) -> (r: Vec<PluginInfo>)
    ensures
        exists|pre: Seq<PluginInfo>, keyed: Seq<(u8, String, PluginInfo)>, sorted: Seq<(u8, String, PluginInfo)>|
            {
                &&& pre.len() == found@.len()
                &&& forall|i: int|
                    0 <= i < pre.len() ==> plugin_entry(#[trigger] pre[i], found@[i], opt_str(installed), opt_str(settings))
                &&& plugins_keyed(pre, keyed)
                &&& is_stable_sort(keyed, sorted)
                &&& r@ == plugins_of(sorted)
            },
{
    let ghost input = found@;
    let n = found.len();
    let mut found = found;
    let mut keyed: Vec<(u8, String, PluginInfo)> = Vec::new();
    let ghost mut pre: Seq<PluginInfo> = Seq::empty();
    let mut i: usize = 0;
    while i < n
        invariant
            n == input.len(),
            i <= n,
            found@ == input.skip(i as int),
            pre.len() == i,
            forall|j: int|
                0 <= j < i ==> plugin_entry(#[trigger] pre[j], input[j], opt_str(installed), opt_str(settings)),
            plugins_keyed(pre, keyed@),
        decreases n - i,
    {
        let f = found.remove(0);
        proof {
            assert(f == input[i as int]);
            assert(found@ =~= input.skip(i + 1));
        }
        let mut full = owned(f.name.as_str());
        push_char(&mut full, '@');
        push_str(&mut full, f.marketplace.as_str());
        assert(full@ =~= input[i as int].name@ + seq!['@'] + input[i as int].marketplace@);
        let is_installed = listed(installed, "plugins", full.as_str(), false);
        let is_enabled = listed(settings, "enabledPlugins", full.as_str(), true);
        proof {
            let t = opt_str(installed);
            let o = object_at(t, "plugins"@);
            if is_installed {
                let k = choose|k: int| 0 <= k < o.len() && #[trigger] o[k].0@ == full@ && (false ==> o[k].1 == JsonValue::Bool(true));
                assert(0 <= k < o.len() && o[k].0@ == full@);
            }
            if listed_installed(t, full@) {
                let k = choose|k: int| 0 <= k < o.len() && #[trigger] o[k].0@ == full@;
                assert(0 <= k < o.len() && o[k].0@ == full@ && (false ==> o[k].1 == JsonValue::Bool(true)));
            }
            assert(is_installed == listed_installed(t, full@));
            let u = opt_str(settings);
            let e = object_at(u, "enabledPlugins"@);
            if is_enabled {
                let k = choose|k: int| 0 <= k < e.len() && #[trigger] e[k].0@ == full@ && (true ==> e[k].1 == JsonValue::Bool(true));
                assert(0 <= k < e.len() && e[k].0@ == full@ && e[k].1 == JsonValue::Bool(true));
            }
            if listed_enabled(u, full@) {
                let k = choose|k: int| 0 <= k < e.len() && #[trigger] e[k].0@ == full@ && e[k].1 == JsonValue::Bool(true);
                assert(0 <= k < e.len() && e[k].0@ == full@ && (true ==> e[k].1 == JsonValue::Bool(true)));
            }
            assert(is_enabled == listed_enabled(u, full@));
        }
        let description = description_of(&f.manifest);
        let p = PluginInfo {
            name: f.name,
            marketplace: f.marketplace,
            description,
            is_mcp: f.is_mcp,
            installed: is_installed,
            enabled: is_enabled,
        };
        let rank: u8 = crate::plugins::rank_of(&p);
        let name = owned(p.name.as_str());
        proof {
            assert(p.name@ == input[i as int].name@);
            pre = pre.push(p);
        }
        keyed.push((rank, name, p));
        proof {
            assert forall|j: int| 0 <= j < i + 1 implies plugin_entry(#[trigger] pre[j], input[j], opt_str(installed), opt_str(settings)) by {
                if j < i {
                    assert(pre[j] == pre.drop_last()[j]);
                }
            }
            assert forall|j: int| 0 <= j < pre.len() implies (#[trigger] keyed@[j]).0 == plugin_rank(pre[j]) as u8
                && keyed@[j].1@ == pre[j].name@ && keyed@[j].2 == pre[j] by {
                if j < i {
                    assert(keyed@[j] == keyed@.drop_last()[j]);
                    assert(pre[j] == pre.drop_last()[j]);
                }
            }
        }
        i = i + 1;
    }
    let ghost keyed_all = keyed@;
    let sorted = sort_by_key(keyed);
    let mut out: Vec<PluginInfo> = Vec::new();
    let mut rest = sorted;
    let ghost s = rest@;
    let m = rest.len();
    let mut j: usize = 0;
    while j < m
        invariant
            m == s.len(),
            j <= m,
            rest@ == s.skip(j as int),
            out@ == plugins_of(s).take(j as int),
        decreases m - j,
    {
        let e = rest.remove(0);
        proof {
            assert(e == s[j as int]);
            assert(rest@ =~= s.skip(j + 1));
        }
        out.push(e.2);
        proof {
            assert(out@ =~= plugins_of(s).take(j + 1));
        }
        j = j + 1;
    }
    proof {
        assert(plugins_of(s).take(m as int) =~= plugins_of(s));
        assert(pre.len() == input.len());
        assert(plugins_keyed(pre, keyed_all));
        assert(is_stable_sort(keyed_all, s));
    }
    out
}

// ---------------------------------------------------------------------------
// The files the session touched
// ---------------------------------------------------------------------------

/// Whether a tool reads or writes files.
pub open spec fn file_tool(name: Seq<char>) -> bool {
    name == "Read"@ || name == "Write"@ || name == "Edit"@ || name == "Glob"@ || name == "Grep"@
}

/// The path a file tool's input names: its `file_path`, or else its
/// `path`, when that is a string; empty otherwise.
pub open spec fn tool_path(input: Seq<char>) -> Seq<char> {
    path_in(spec_parse_json(input))
}

/// The path a parsed file tool input names: its `file_path`, else its
/// `path`, if a string; else empty.
pub open spec fn path_in(j: Option<JsonValue>) -> Seq<char> {
    match j {
        Some(v) => {
            let f = match get_spec(v, "file_path"@) {
                Some(x) => Some(x),
                None => get_spec(v, "path"@),
            };
            match f {
                Some(JsonValue::Str(p)) => p@,
                _ => Seq::empty(),
            }
        },
        None => Seq::empty(),
    }
}

/// A path and the tool used on it.
pub type FileOp = (Seq<char>, Seq<char>);

/// The file operations of some blocks, in order.
pub open spec fn block_ops(bs: Seq<BlockView>) -> Seq<FileOp>
    decreases bs.len(),
{
    if bs.len() == 0 {
        seq![]
    } else {
        let rest = block_ops(bs.drop_last());
        match bs.last() {
            BlockView::ToolUse { name, input, .. } => if file_tool(name) && tool_path(input).len() > 0 {
                rest.push((tool_path(input), name))
            } else {
                rest
            },
            _ => rest,
        }
    }
}

/// The file operations of a conversation, in order.
pub open spec fn session_ops(ms: Seq<MessageView>) -> Seq<FileOp>
    decreases ms.len(),
{
    if ms.len() == 0 {
        seq![]
    } else {
        session_ops(ms.drop_last()) + block_ops(ms.last().content)
    }
}

/// The tools used on `path`, in order.
pub open spec fn tools_on(ops: Seq<FileOp>, path: Seq<char>) -> Seq<Seq<char>>
    decreases ops.len(),
{
    if ops.len() == 0 {
        seq![]
    } else if ops.last().0 == path {
        tools_on(ops.drop_last(), path).push(ops.last().1)
    } else {
        tools_on(ops.drop_last(), path)
    }
}

/// Whether some operation touched `path`.
pub open spec fn touched(ops: Seq<FileOp>, path: Seq<char>) -> bool {
    exists|k: int| 0 <= k < ops.len() && #[trigger] ops[k].0 == path
}

/// Whether `g` lists every file of `ops` once, in the order of their paths,
/// each with the tools used on it.
pub open spec fn is_file_listing(ops: Seq<FileOp>, g: Seq<(Seq<char>, Seq<Seq<char>>)>) -> bool {
    &&& forall|a: int, b: int| 0 <= a < b < g.len() ==> seq_less(#[trigger] g[a].0, #[trigger] g[b].0)
    &&& forall|k: int| 0 <= k < g.len() ==> touched(ops, (#[trigger] g[k]).0) && g[k].1 == tools_on(ops, g[k].0)
    &&& forall|p: Seq<char>| touched(ops, p) ==> exists|k: int| 0 <= k < g.len() && (#[trigger] g[k]).0 == p
}

/// The line of one file: its path and the tools used on it.
pub open spec fn listing_line(e: (Seq<char>, Seq<Seq<char>>)) -> Seq<char> {
    "  "@ + e.0 + " ["@ + crate::sessions::join(e.1, ", "@) + "]"@
}

/// The file context panel: how many files, then one line per file.
pub open spec fn listing_lines(g: Seq<(Seq<char>, Seq<Seq<char>>)>) -> Seq<Seq<char>> {
    seq![decimal(g.len()) + " files accessed"@, Seq::empty()] + g.map_values(
        |e: (Seq<char>, Seq<Seq<char>>)| listing_line(e),
    )
}

/// Operations as plain values.
pub open spec fn ops_view(v: Seq<(String, String)>) -> Seq<FileOp> {
    v.map_values(|o: (String, String)| (o.0@, o.1@))
}

/// Groups as plain values.
pub open spec fn groups_view(v: Seq<(u8, String, Vec<String>)>) -> Seq<(Seq<char>, Seq<Seq<char>>)> {
    v.map_values(|e: (u8, String, Vec<String>)| (e.1@, strs_of(e.2@)))
}

/// Whether a tool name is one of the file tools.
fn is_file_tool(name: &str) -> (r: bool)
    ensures
        r == file_tool(name@),
{
    str_eq(name, "Read") || str_eq(name, "Write") || str_eq(name, "Edit") || str_eq(name, "Glob")
        || str_eq(name, "Grep")
}

/// The path a file tool's input names (see `tool_path`).
fn path_of_input(input: &str) -> (r: String)
    ensures
        r@ == tool_path(input@),
{
    let json = parse_json(input);
    match &json {
        Some(v) => path_of_value(Some(v)),
        None => path_of_value(None),
    }
}

/// The path a parsed file tool input names (see `path_in`).
pub fn path_of_value(json: Option<&JsonValue>) -> (r: String)
    ensures
        r@ == path_in(opt_val(json)),
{
    match json {
        Some(v) => {
            let f = match get(v, "file_path") {
                Some(x) => Some(x),
                None => get(v, "path"),
            };
            match f {
                Some(JsonValue::Str(p)) => owned(p.as_str()),
                _ => String::new(),
            }
        },
        None => String::new(),
    }
}

/// The file operations of a conversation.
fn file_ops(messages: &Vec<crate::conversation::Message>) -> (r: Vec<(String, String)>)
    ensures
        ops_view(r@) == session_ops(crate::menus::msgs(messages@)),
{
    let mut out: Vec<(String, String)> = Vec::new();
    let mut i: usize = 0;
    while i < messages.len()
        invariant
            i <= messages@.len(),
            ops_view(out@) == session_ops(crate::menus::msgs(messages@.take(i as int))),
        decreases messages.len() - i,
    {
        let m = &messages[i];
        let ghost base = ops_view(out@);
        let mut j: usize = 0;
        while j < m.content.len()
            invariant
                j <= m.content@.len(),
                ops_view(out@) == base + block_ops(m@.content.take(j as int)),
            decreases m.content.len() - j,
        {
            proof {
                assert(m@.content.take(j + 1).drop_last() =~= m@.content.take(j as int));
                assert(m@.content.take(j + 1).last() == m.content@[j as int]@);
            }
            match &m.content[j] {
                crate::conversation::ContentBlock::ToolUse { name, input, .. } => {
                    if is_file_tool(name.as_str()) {
                        let p = path_of_input(input.as_str());
                        if !p.as_str().is_empty() {
                            let ghost before = ops_view(out@);
                            let n2 = owned(name.as_str());
                            out.push((p, n2));
                            proof {
                                assert(ops_view(out@) =~= before.push((tool_path(input@), name@)));
                            }
                        }
                    }
                },
                _ => {},
            }
            proof {
                assert(ops_view(out@) =~= base + block_ops(m@.content.take(j + 1)));
            }
            j = j + 1;
        }
        proof {
            assert(m@.content.take(m@.content.len() as int) =~= m@.content);
            let pre = crate::menus::msgs(messages@.take(i + 1));
            assert(pre.drop_last() =~= crate::menus::msgs(messages@.take(i as int)));
            assert(pre.last() == m@);
        }
        i = i + 1;
    }
    proof {
        assert(messages@.take(messages@.len() as int) =~= messages@);
    }
    out
}

/// Whether `g` holds the files of `ops` once each, with their tools.
pub open spec fn groups_cover(ops: Seq<FileOp>, g: Seq<(u8, String, Vec<String>)>) -> bool {
    &&& forall|a: int, b: int| 0 <= a < b < g.len() ==> (#[trigger] g[a]).1@ != (#[trigger] g[b]).1@
    &&& forall|k: int|
        0 <= k < g.len() ==> (#[trigger] g[k]).0 == 0 && touched(ops, g[k].1@) && strs_of(g[k].2@)
            == tools_on(ops, g[k].1@)
    &&& forall|p: Seq<char>| touched(ops, p) ==> exists|k: int| 0 <= k < g.len() && (#[trigger] g[k]).1@ == p
}

proof fn lemma_tools_on_untouched(ops: Seq<FileOp>, p: Seq<char>)
    requires
        !touched(ops, p),
    ensures
        tools_on(ops, p) == Seq::<Seq<char>>::empty(),
    decreases ops.len(),
{
    if ops.len() > 0 {
        assert(ops.last().0 != p) by {
            if ops.last().0 == p {
                assert(ops[ops.len() - 1].0 == p);
            }
        }
        assert forall|k: int| 0 <= k < ops.drop_last().len() implies #[trigger] ops.drop_last()[k].0 != p by {
            assert(ops.drop_last()[k] == ops[k]);
        }
        lemma_tools_on_untouched(ops.drop_last(), p);
    }
}

/// The files of `ops`, in the order first touched, each with its tools.
fn group_ops(ops: Vec<(String, String)>) -> (g: Vec<(u8, String, Vec<String>)>)
    ensures
        groups_cover(ops_view(ops@), g@),
{
    let ghost orig = ops@;
    let ghost all = ops_view(ops@);
    let n = ops.len();
    let mut rest = ops;
    let mut groups: Vec<(u8, String, Vec<String>)> = Vec::new();
    let mut i: usize = 0;
    while i < n
        invariant
            n == all.len(),
            all == ops_view(orig),
            i <= n,
            rest@ == orig.skip(i as int),
            groups_cover(all.take(i as int), groups@),
        decreases n - i,
    {
        let ghost prefix = all.take(i as int);
        let ghost next = all.take(i + 1);
        let op = rest.remove(0);
        proof {
            assert(op == orig[i as int]);
            assert(rest@ =~= orig.skip(i + 1));
            assert((op.0@, op.1@) == all[i as int]);
            assert(next.drop_last() =~= prefix);
            assert(next.last() == (op.0@, op.1@));
            assert forall|q: Seq<char>| #[trigger] touched(next, q) == (touched(prefix, q) || q == op.0@) by {
                if touched(next, q) {
                    let k = choose|k: int| 0 <= k < next.len() && #[trigger] next[k].0 == q;
                    if k < prefix.len() {
                        assert(prefix[k] == next[k]);
                    }
                }
                if touched(prefix, q) {
                    let k = choose|k: int| 0 <= k < prefix.len() && #[trigger] prefix[k].0 == q;
                    assert(next[k] == prefix[k]);
                }
                if q == op.0@ {
                    assert(next[i as int].0 == q);
                }
            }
            assert forall|q: Seq<char>| q != op.0@ implies #[trigger] tools_on(next, q) == tools_on(prefix, q) by {}
            assert(tools_on(next, op.0@) == tools_on(prefix, op.0@).push(op.1@));
        }
        let mut k: usize = 0;
        while k < groups.len() && !str_eq(groups[k].1.as_str(), op.0.as_str())
            invariant
                k <= groups@.len(),
                forall|j: int| 0 <= j < k ==> (#[trigger] groups@[j]).1@ != op.0@,
            decreases groups.len() - k,
        {
            k = k + 1;
        }
        let ghost old_groups = groups@;
        if k < groups.len() {
            let mut e = groups.remove(k);
            let ghost old_tools = e.2@;
            e.2.push(op.1);
            groups.insert(k, e);
            proof {
                assert forall|a: int| 0 <= a < groups@.len() && a != k implies #[trigger] groups@[a] == old_groups[a] by {}
                assert(strs_of(groups@[k as int].2@) =~= strs_of(old_groups[k as int].2@).push(op.1@));
                assert forall|a: int, b: int| 0 <= a < b < groups@.len() implies (#[trigger] groups@[a]).1@
                    != (#[trigger] groups@[b]).1@ by {
                    assert(old_groups[a].1@ != old_groups[b].1@);
                }
                assert forall|j: int| 0 <= j < groups@.len() implies (#[trigger] groups@[j]).0 == 0 && touched(
                    next,
                    groups@[j].1@,
                ) && strs_of(groups@[j].2@) == tools_on(next, groups@[j].1@) by {
                    assert(touched(prefix, old_groups[j].1@));
                    assert(touched(next, groups@[j].1@));
                }
                assert forall|q: Seq<char>| touched(next, q) implies exists|j: int|
                    0 <= j < groups@.len() && (#[trigger] groups@[j]).1@ == q by {
                    if q == op.0@ {
                        assert(groups@[k as int].1@ == q);
                    } else {
                        let j = choose|j: int| 0 <= j < old_groups.len() && (#[trigger] old_groups[j]).1@ == q;
                        assert(groups@[j].1@ == q);
                    }
                }
            }
        } else {
            proof {
                assert(!touched(prefix, op.0@));
                lemma_tools_on_untouched(prefix, op.0@);
            }
            let path = op.0;
            let mut tools: Vec<String> = Vec::new();
            tools.push(op.1);
            groups.push((0, path, tools));
            proof {
                let last = groups@.len() - 1;
                assert(strs_of(groups@[last].2@) =~= seq![op.1@]);
                assert(tools_on(next, op.0@) =~= seq![op.1@]);
                assert forall|a: int| 0 <= a < old_groups.len() implies #[trigger] groups@[a] == old_groups[a] by {}
                assert forall|a: int, b: int| 0 <= a < b < groups@.len() implies (#[trigger] groups@[a]).1@
                    != (#[trigger] groups@[b]).1@ by {
                    if b < last {
                        assert(old_groups[a].1@ != old_groups[b].1@);
                    }
                }
                assert forall|j: int| 0 <= j < groups@.len() implies (#[trigger] groups@[j]).0 == 0 && touched(
                    next,
                    groups@[j].1@,
                ) && strs_of(groups@[j].2@) == tools_on(next, groups@[j].1@) by {
                    if j < last {
                        assert(touched(prefix, old_groups[j].1@));
                        assert(touched(next, groups@[j].1@));
                    }
                }
                assert forall|q: Seq<char>| touched(next, q) implies exists|j: int|
                    0 <= j < groups@.len() && (#[trigger] groups@[j]).1@ == q by {
                    if q == op.0@ {
                        assert(groups@[last].1@ == q);
                    } else {
                        let j = choose|j: int| 0 <= j < old_groups.len() && (#[trigger] old_groups[j]).1@ == q;
                        assert(groups@[j].1@ == q);
                    }
                }
            }
        }
        i = i + 1;
    }
    proof {
        assert(all.take(n as int) =~= all);
    }
    groups
}

/// Sorted groups are in strictly increasing order of their paths.
proof fn lemma_sorted_groups(ops: Seq<FileOp>, g: Seq<(u8, String, Vec<String>)>, out: Seq<(u8, String, Vec<String>)>, perm: Seq<int>)
    requires
        groups_cover(ops, g),
        is_sort_perm(g, out, perm),
    ensures
        groups_cover(ops, out),
        is_file_listing(ops, groups_view(out)),
{
    let v = groups_view(out);
    assert forall|a: int, b: int| 0 <= a < b < out.len() implies (#[trigger] out[a]).1@ != (#[trigger] out[b]).1@ by {
        assert(perm[a] != perm[b]);
        assert(out[a] == g[perm[a]]);
        assert(out[b] == g[perm[b]]);
        if perm[a] < perm[b] {
            assert(g[perm[a]].1@ != g[perm[b]].1@);
        } else {
            assert(g[perm[b]].1@ != g[perm[a]].1@);
        }
    }
    assert forall|k: int| 0 <= k < out.len() implies (#[trigger] out[k]).0 == 0 && touched(ops, out[k].1@) && strs_of(out[k].2@)
        == tools_on(ops, out[k].1@) by {
        assert(out[k] == g[perm[k]]);
    }
    assert forall|p: Seq<char>| touched(ops, p) implies exists|k: int| 0 <= k < out.len() && (#[trigger] out[k]).1@ == p by {
        let j = choose|j: int| 0 <= j < g.len() && (#[trigger] g[j]).1@ == p;
        lemma_perm_onto(g.len() as int, perm, j);
        let k = choose|k: int| 0 <= k < out.len() && perm[k] == j;
        assert(out[k] == g[j]);
    }
    assert forall|a: int, b: int| 0 <= a < b < v.len() implies seq_less(#[trigger] v[a].0, #[trigger] v[b].0) by {
        assert(!crate::order::key_less(key_of(out[b]), key_of(out[a])));
        assert(out[a].1@ != out[b].1@);
        crate::order::lemma_seq_less_total(out[a].1@, out[b].1@);
    }
    assert forall|k: int| 0 <= k < v.len() implies touched(ops, (#[trigger] v[k]).0) && v[k].1 == tools_on(ops, v[k].0) by {
        assert(out[k].0 == 0);
    }
    assert forall|p: Seq<char>| touched(ops, p) implies exists|k: int| 0 <= k < v.len() && (#[trigger] v[k]).0 == p by {
        let k = choose|k: int| 0 <= k < out.len() && (#[trigger] out[k]).1@ == p;
        assert(v[k].0 == p);
    }
}

/// An injective map of `0..n` into `0..n` reaches every index.
proof fn lemma_perm_onto(n: int, perm: Seq<int>, j: int)
    requires
        perm.len() == n,
        0 <= j < n,
        forall|k: int| 0 <= k < n ==> 0 <= #[trigger] perm[k] < n,
        forall|k1: int, k2: int| 0 <= k1 < k2 < n ==> perm[k1] != perm[k2],
    ensures
        exists|k: int| 0 <= k < n && #[trigger] perm[k] == j,
{
    {
        if !(exists|k: int| 0 <= k < n && #[trigger] perm[k] == j) {
            let s = Set::new(|x: int| 0 <= x < n && x != j);
            let image = perm.to_set();
            assert(image.subset_of(s)) by {
                assert forall|x: int| image.contains(x) implies s.contains(x) by {
                    let k = choose|k: int| 0 <= k < perm.len() && perm[k] == x;
                }
            }
            vstd::set_lib::lemma_int_range(0, n);
            assert(s =~= vstd::set_lib::set_int_range(0, n).remove(j));
            assert(perm.no_duplicates()) by {
                assert forall|a: int, b: int| 0 <= a < perm.len() && 0 <= b < perm.len() && a != b implies perm[a]
                    != perm[b] by {
                    if a < b {
                        assert(perm[a] != perm[b]);
                    } else {
                        assert(perm[b] != perm[a]);
                    }
                }
            }
            perm.unique_seq_to_set();
            vstd::set_lib::lemma_len_subset(image, s);
            assert(false);
        }
    }
}

/// The file context panel for a conversation: how many files were read,
/// written, edited or searched, then each file in the order of its path
/// with the tools used on it; `None` when no file was touched.
pub fn file_context(messages: &Vec<crate::conversation::Message>) -> (r: Option<crate::panels::TextViewer>)
    ensures
        ({
            let ops = session_ops(crate::menus::msgs(messages@));
            match r {
                Some(v) => {
                    &&& ops.len() > 0
                    &&& v.title@ == "File Context"@
                    &&& v.scroll == 0
                    &&& exists|g: Seq<(Seq<char>, Seq<Seq<char>>)>| is_file_listing(ops, g) && strs_of(v.lines@)
                        == listing_lines(g)
                },
                None => ops.len() == 0,
            }
        }),
{
    let ops = file_ops(messages);
    let ghost opsv = ops_view(ops@);
    if ops.len() == 0 {
        return None;
    }
    let groups = group_ops(ops);
    let ghost g0 = groups@;
    let sorted = sort_by_key(groups);
    proof {
        let perm = choose|perm: Seq<int>| is_sort_perm(g0, sorted@, perm);
        lemma_sorted_groups(opsv, g0, sorted@, perm);
        assert(opsv.len() > 0);
        assert(touched(opsv, opsv[0].0));
    }
    let ghost gv = groups_view(sorted@);
    let mut lines: Vec<String> = Vec::new();
    let mut head = String::new();
    push_decimal(&mut head, sorted.len() as u64);
    push_str(&mut head, " files accessed");
    lines.push(head);
    lines.push(String::new());
    let mut i: usize = 0;
    while i < sorted.len()
        invariant
            i <= sorted@.len(),
            gv == groups_view(sorted@),
            strs_of(lines@) == seq![decimal(gv.len()) + " files accessed"@, Seq::<char>::empty()] + gv.map_values(
                |e: (Seq<char>, Seq<Seq<char>>)| listing_line(e),
            ).take(i as int),
        decreases sorted.len() - i,
    {
        let mut l = owned("  ");
        push_str(&mut l, sorted[i].1.as_str());
        push_str(&mut l, " [");
        let joined = crate::sessions::join_strings(&sorted[i].2, ", ");
        push_str(&mut l, joined.as_str());
        push_str(&mut l, "]");
        let ghost before = strs_of(lines@);
        lines.push(l);
        proof {
            assert(gv[i as int] == (sorted@[i as int].1@, strs_of(sorted@[i as int].2@)));
            assert(strs_of(sorted@[i as int].2@) == sorted@[i as int].2@.map_values(|p: String| p@));
            assert(l@ == listing_line(gv[i as int]));
            assert(strs_of(lines@) =~= before.push(l@));
            assert(gv.map_values(|e: (Seq<char>, Seq<Seq<char>>)| listing_line(e)).take(i + 1) =~= gv.map_values(
                |e: (Seq<char>, Seq<Seq<char>>)| listing_line(e),
            ).take(i as int).push(listing_line(gv[i as int])));
        }
        i = i + 1;
    }
    proof {
        assert(gv.map_values(|e: (Seq<char>, Seq<Seq<char>>)| listing_line(e)).take(gv.len() as int)
            =~= gv.map_values(|e: (Seq<char>, Seq<Seq<char>>)| listing_line(e)));
        assert(strs_of(lines@) == listing_lines(gv));
    }
    Some(crate::panels::TextViewer::new(owned("File Context"), lines))
}

} // verus!
