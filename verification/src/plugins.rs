//! Plugins offered by the marketplaces.
use vstd::prelude::*;

use crate::text::{owned, push_char, push_str};

verus! {

/// A plugin as the plugin browser lists it.
#[derive(Debug, Clone)]
pub struct PluginInfo {
    pub name: String,
    pub marketplace: String,
    pub description: String,
    pub is_mcp: bool,
    pub installed: bool,
    pub enabled: bool,
}

/// The status mark of a plugin: enabled, installed only, or available.
pub open spec fn status_mark(installed: bool, enabled: bool) -> Seq<char> {
    if installed && enabled {
        "[+]"@
    } else if installed {
        "[-]"@
    } else {
        "[ ]"@
    }
}

impl PluginInfo {
    /// The name the plugin commands take: `name@marketplace`.
    pub fn full_name(&self) -> (r: String)
        ensures
            r@ == self.name@ + seq!['@'] + self.marketplace@,
    {
        let mut s = owned(self.name.as_str());
        push_char(&mut s, '@');
        push_str(&mut s, self.marketplace.as_str());
        s
    }

    /// The status mark shown before the plugin.
    pub fn status_icon(&self) -> (r: &str)
        ensures
            r@ == status_mark(self.installed, self.enabled),
    {
        if self.installed && self.enabled {
            "[+]"
        } else if self.installed {
            "[-]"
        } else {
            "[ ]"
        }
    }
}

/// Where a plugin goes in the list: enabled first, then installed, then
/// the rest.
pub open spec fn plugin_rank(p: PluginInfo) -> nat {
    if p.enabled {
        0
    } else if p.installed {
        1
    } else {
        2
    }
}

/// The rank of a plugin in the list.
pub fn rank_of(p: &PluginInfo) -> (r: u8)
    ensures
        r == plugin_rank(*p),
{
    if p.enabled {
        0
    } else if p.installed {
        1
    } else {
        2
    }
}

} // verus!
