use sexy_claude::plugins::{rank_of, PluginInfo};

fn plugin(installed: bool, enabled: bool) -> PluginInfo {
    PluginInfo {
        name: "fmt".to_string(),
        marketplace: "official".to_string(),
        description: String::new(),
        is_mcp: false,
        installed,
        enabled,
    }
}

#[test]
fn plugin_full_name() {
    assert_eq!(plugin(false, false).full_name(), "fmt@official");
}

#[test]
fn plugin_status_icons() {
    assert_eq!(plugin(true, true).status_icon(), "[+]");
    assert_eq!(plugin(true, false).status_icon(), "[-]");
    assert_eq!(plugin(false, false).status_icon(), "[ ]");
    assert_eq!(plugin(false, true).status_icon(), "[ ]");
}

#[test]
fn plugin_ranks() {
    assert_eq!(rank_of(&plugin(true, true)), 0);
    assert_eq!(rank_of(&plugin(false, true)), 0);
    assert_eq!(rank_of(&plugin(true, false)), 1);
    assert_eq!(rank_of(&plugin(false, false)), 2);
}
