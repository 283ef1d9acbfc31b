use plua::commands::{
    disable_reply, enable_reply, info_reply, list_reply, reload_all_reply, reload_reply, Message,
    NamedColor, TextPart,
};
use plua::config::PLuaConfig;
use plua::script::manifest::PluginManifest;

fn msg(text: &str, color: Option<NamedColor>, children: &[(&str, Option<NamedColor>)]) -> Message {
    Message {
        text: text.to_string(),
        color,
        children: children.iter().map(|(t, c)| TextPart { text: t.to_string(), color: *c }).collect(),
    }
}

#[test]
fn list_reply_without_plugins() {
    assert_eq!(list_reply(&vec![]), vec![msg("No Lua plugins found.", Some(NamedColor::Yellow), &[])]);
}

#[test]
fn list_reply_shows_status_of_each_plugin() {
    let list = vec![
        ("a".to_string(), true, "1.0.0".to_string(), String::new()),
        ("b".to_string(), false, "1.0.0".to_string(), String::new()),
    ];
    assert_eq!(
        list_reply(&list),
        vec![
            msg("=== Lua Plugins ===", Some(NamedColor::Gold), &[]),
            msg("- a [", None, &[("Enabled", Some(NamedColor::Green)), ("]", None)]),
            msg("- b [", None, &[("Disabled", Some(NamedColor::Red)), ("]", None)]),
        ]
    );
}

#[test]
fn enable_reply_records_success_only() {
    let mut config = PLuaConfig::new();
    let m = enable_reply(&mut config, "a", &Some(Ok(())));
    assert_eq!(m, msg("Plugin 'a' ", None, &[("has been enabled.", Some(NamedColor::Green))]));
    assert!(config.is_enabled("a"));
    let m = enable_reply(&mut config, "b", &Some(Err("Plugin 'b' not found".to_string())));
    assert_eq!(m, msg("Failed to enable plugin 'b': ", None, &[("Plugin 'b' not found", Some(NamedColor::Red))]));
    assert!(!config.is_enabled("b"));
    let m = enable_reply(&mut config, "c", &None);
    assert_eq!(m, msg("Runtime not initialized", Some(NamedColor::Red), &[]));
    assert_eq!(config.enabled_plugins, vec!["a".to_string()]);
}

#[test]
fn disable_reply_records_success_only() {
    let mut config = PLuaConfig { enabled_plugins: vec!["a".into(), "b".into()] };
    let m = disable_reply(&mut config, "a", &Some(Ok(())));
    assert_eq!(m, msg("Plugin 'a' ", None, &[("has been disabled.", Some(NamedColor::Green))]));
    assert_eq!(config.enabled_plugins, vec!["b".to_string()]);
    let m = disable_reply(&mut config, "b", &Some(Err("Plugin 'b' is not enabled".to_string())));
    assert_eq!(m, msg("Failed to disable plugin 'b': ", None, &[("Plugin 'b' is not enabled", Some(NamedColor::Red))]));
    assert_eq!(config.enabled_plugins, vec!["b".to_string()]);
    assert_eq!(disable_reply(&mut config, "b", &None), msg("Runtime not initialized", Some(NamedColor::Red), &[]));
}

#[test]
fn reload_replies() {
    assert_eq!(
        reload_reply("a", &Some(Ok(()))),
        msg("Plugin 'a' ", None, &[("has been reloaded.", Some(NamedColor::Green))])
    );
    assert_eq!(
        reload_reply("a", &Some(Err("x".to_string()))),
        msg("Failed to reload plugin 'a': ", None, &[("x", Some(NamedColor::Red))])
    );
    assert_eq!(reload_reply("a", &None), msg("Runtime not initialized", Some(NamedColor::Red), &[]));
    assert_eq!(reload_all_reply(&Ok(())), msg("All Lua plugins have been reloaded.", Some(NamedColor::Green), &[]));
    assert_eq!(
        reload_all_reply(&Err("Runtime not initialized".to_string())),
        msg("Failed to reload plugins: ", Some(NamedColor::Red), &[("Runtime not initialized", None)])
    );
}

#[test]
fn info_reply_for_known_and_unknown_plugin() {
    let manifest = PluginManifest {
        name: "greeter".into(),
        description: "Says hi".into(),
        version: "1.0.0".into(),
        author: "Unknown".into(),
        on_enable_ref: None,
        on_disable_ref: None,
    };
    let path = "data/plugins/greeter.lua".to_string();
    assert_eq!(
        info_reply("greeter", Some((&manifest, &path, true))),
        vec![
            msg("=== ", Some(NamedColor::Gold), &[("greeter", None), (" ===", Some(NamedColor::Gold))]),
            msg("Description: ", Some(NamedColor::Yellow), &[("Says hi", None)]),
            msg("Version: ", Some(NamedColor::Yellow), &[("1.0.0", None)]),
            msg("Author: ", Some(NamedColor::Yellow), &[("Unknown", None)]),
            msg("Status: ", Some(NamedColor::Green), &[("Enabled", None)]),
            msg("File: ", Some(NamedColor::Yellow), &[("data/plugins/greeter.lua", None)]),
        ]
    );
    assert_eq!(info_reply("greeter", Some((&manifest, &path, false)))[4], msg("Status: ", Some(NamedColor::Red), &[("Disabled", None)]));
    assert_eq!(
        info_reply("nope", None),
        vec![msg("Plugin 'nope' ", None, &[("not found.", Some(NamedColor::Red))])]
    );
}
