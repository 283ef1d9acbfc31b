use plua::config::PLuaConfig;
use plua::script::paths::{extension_in, join_path, stem};
use plua::script::lua_host::{LuaEntry, LuaHost};
use plua::script::manifest::ManifestFields;
use plua::script::runtime::{
    disable_key, hook_in, load_hooks, manifest_fields, manifest_from, read_manifest_fields, text_in, PluginRuntime,
};

fn source(text: &'static str) -> impl Fn(&String) -> Result<String, String> {
    move |_path: &String| Ok(text.to_string())
}

fn unreadable(_path: &String) -> Result<String, String> {
    Err("No such file or directory (os error 2)".to_string())
}

fn runtime_with(files: &[&str]) -> PluginRuntime {
    let mut rt = PluginRuntime::new("/data/plua");
    let paths: Vec<String> = files.iter().map(|f| join_path(rt.plugins_dir(), f)).collect();
    rt.discover_plugins(&paths, &unreadable);
    rt
}

fn global_integer(rt: &mut PluginRuntime, name: &'static str) -> Option<i64> {
    rt.lua().enter(|ctx| match ctx.get_global(name) {
        piccolo::Value::Integer(i) => Some(i),
        _ => None,
    })
}

#[test]
fn join_path_inserts_one_separator() {
    assert_eq!(join_path("/data/plua", "plugins"), "/data/plua/plugins");
    assert_eq!(join_path("/data/plua/", "plugins"), "/data/plua/plugins");
    assert_eq!(join_path("", "plugins"), "plugins");
    assert_eq!(join_path("/data", "/abs"), "/abs");
}

#[test]
fn new_runtime_is_empty_with_plugins_folder() {
    let rt = PluginRuntime::new("data");
    assert_eq!(rt.plugins_dir(), "data/plugins");
    assert!(rt.get_plugin_list().is_empty());
    assert!(!rt.plugin_exists("x"));
}

#[test]
fn load_manifest_names_plugin_after_file_stem() {
    let rt = PluginRuntime::new("data");
    let m = rt.load_manifest("data/plugins/greeter.lua", Err("gone".to_string())).unwrap();
    assert_eq!(m.name, "greeter");
    assert_eq!(m.description, "");
    assert_eq!(m.version, "1.0.0");
    assert_eq!(m.author, "Unknown");
    assert_eq!(m.on_enable_ref, None);
    assert_eq!(m.on_disable_ref, None);
    assert_eq!(rt.load_manifest("p/a.b.luau", Err(String::new())).unwrap().name, "a.b");
    assert_eq!(rt.load_manifest("p/.hidden", Err(String::new())).unwrap().name, ".hidden");
    assert_eq!(rt.load_manifest("p/..", Err(String::new())).unwrap().name, "unknown");
}

#[test]
fn load_manifest_takes_metadata_from_returned_table() {
    let rt = PluginRuntime::new("data");
    let text = "return { name = \"MyPlugin\", description = \"Does something useful\", version = \"2.0\", author = \"Your Name\", on_enable = function() end }";
    let m = rt.load_manifest("data/plugins/my.lua", Ok(text.to_string())).unwrap();
    assert_eq!(m.name, "MyPlugin");
    assert_eq!(m.description, "Does something useful");
    assert_eq!(m.version, "2.0");
    assert_eq!(m.author, "Your Name");
    assert_eq!(m.on_enable_ref, None);
    assert_eq!(m.on_disable_ref, None);
}

#[test]
fn load_manifest_keeps_defaults_for_missing_or_non_text_fields() {
    let rt = PluginRuntime::new("data");
    let m = rt.load_manifest("p/part.lua", Ok("return { version = \"3.1\", author = 7 }".to_string())).unwrap();
    assert_eq!(m.name, "part");
    assert_eq!(m.description, "");
    assert_eq!(m.version, "3.1");
    assert_eq!(m.author, "Unknown");
    let none = rt.load_manifest("p/none.lua", Ok("local x = 1".to_string())).unwrap();
    assert_eq!((none.name.as_str(), none.version.as_str()), ("none", "1.0.0"));
    let broken = rt.load_manifest("p/broken.lua", Ok("return {".to_string())).unwrap();
    assert_eq!((broken.name.as_str(), broken.author.as_str()), ("broken", "Unknown"));
    let failing = rt.load_manifest("p/failing.lua", Ok("error(\"boom\")".to_string())).unwrap();
    assert_eq!(failing.name, "failing");
}

#[test]
fn load_manifest_runs_file_apart_from_plugin_interpreter() {
    let mut rt = PluginRuntime::new("data");
    let m = rt.load_manifest("p/g.lua", Ok("leaked = 5 return { name = \"g2\" }".to_string())).unwrap();
    assert_eq!(m.name, "g2");
    assert_eq!(global_integer(&mut rt, "leaked"), None);
}

#[test]
fn discover_registers_plugin_under_name_its_table_gives() {
    let mut rt = PluginRuntime::new("/data/plua");
    let paths = vec![join_path(rt.plugins_dir(), "file.lua"), join_path(rt.plugins_dir(), "notes.txt")];
    rt.discover_plugins(&paths, &source("return { name = \"Named\", version = \"2.0\", description = \"d\" }"));
    let list = rt.get_plugin_list();
    assert_eq!(list, vec![("Named".to_string(), false, "2.0".to_string(), "d".to_string())]);
    let (m, path, _) = rt.get_plugin_info("Named").unwrap();
    assert_eq!(m.author, "Unknown");
    assert_eq!(path, "/data/plua/plugins/file.lua");
    assert!(!rt.plugin_exists("file"));
}

#[test]
fn discover_registers_lua_files_only() {
    let rt = runtime_with(&["one.lua", "two.luau", "notes.txt", "three", ".lua", "four.LUA"]);
    let list = rt.get_plugin_list();
    let names: Vec<&str> = list.iter().map(|e| e.0.as_str()).collect();
    assert_eq!(names, vec!["one", "two"]);
    for (_, enabled, version, description) in &list {
        assert!(!enabled);
        assert_eq!(version, "1.0.0");
        assert_eq!(description, "");
    }
    let (m, path, enabled) = rt.get_plugin_info("two").unwrap();
    assert_eq!(m.name, "two");
    assert_eq!(path, "/data/plua/plugins/two.luau");
    assert!(!enabled);
    assert!(rt.get_plugin_info("three").is_none());
    assert!(rt.plugin_exists("one"));
    assert!(!rt.plugin_exists("notes"));
}

#[test]
fn discover_same_name_later_file_replaces_earlier() {
    let rt = runtime_with(&["dup.lua", "other.lua", "dup.luau"]);
    let list = rt.get_plugin_list();
    assert_eq!(list.len(), 2);
    assert_eq!(list[0].0, "dup");
    assert_eq!(list[1].0, "other");
    assert_eq!(rt.get_plugin_info("dup").unwrap().1, "/data/plua/plugins/dup.luau");
}

#[test]
fn enable_unknown_plugin_is_refused() {
    let mut rt = runtime_with(&["a.lua"]);
    assert_eq!(rt.enable_plugin("b", &source("return {}")), Err("Plugin 'b' not found".to_string()));
    assert_eq!(rt.disable_plugin("b"), Err("Plugin 'b' not found".to_string()));
}

#[test]
fn enable_runs_on_enable_and_marks_plugin() {
    let mut rt = runtime_with(&["greeter.lua"]);
    let script = "return { on_enable = function() enabled_count = (enabled_count or 0) + 1 end }";
    assert_eq!(rt.enable_plugin("greeter", &source(script)), Ok(()));
    assert!(rt.get_plugin_info("greeter").unwrap().2);
    assert_eq!(global_integer(&mut rt, "enabled_count"), Some(1));
    assert_eq!(
        rt.enable_plugin("greeter", &source(script)),
        Err("Plugin 'greeter' is already enabled".to_string())
    );
    assert_eq!(global_integer(&mut rt, "enabled_count"), Some(1));
}

#[test]
fn disable_runs_on_disable_once() {
    let mut rt = runtime_with(&["p.lua"]);
    let script = "return { on_disable = function() disabled_count = (disabled_count or 0) + 1 end }";
    assert_eq!(rt.enable_plugin("p", &source(script)), Ok(()));
    assert_eq!(global_integer(&mut rt, "disabled_count"), None);
    assert_eq!(rt.disable_plugin("p"), Ok(()));
    assert_eq!(global_integer(&mut rt, "disabled_count"), Some(1));
    assert!(!rt.get_plugin_info("p").unwrap().2);
    assert_eq!(rt.disable_plugin("p"), Err("Plugin 'p' is not enabled".to_string()));
    assert_eq!(global_integer(&mut rt, "disabled_count"), Some(1));
}

#[test]
fn plugin_file_body_runs_when_enabled() {
    let mut rt = runtime_with(&["body.lua"]);
    assert_eq!(rt.enable_plugin("body", &source("loaded_value = 42")), Ok(()));
    assert_eq!(global_integer(&mut rt, "loaded_value"), Some(42));
    assert!(rt.get_plugin_info("body").unwrap().2);
}

#[test]
fn unreadable_file_is_refused() {
    let mut rt = runtime_with(&["p.lua"]);
    assert_eq!(
        rt.enable_plugin("p", &unreadable),
        Err("Failed to read plugin: No such file or directory (os error 2)".to_string())
    );
    assert!(!rt.get_plugin_info("p").unwrap().2);
}

#[test]
fn file_that_does_not_compile_is_refused() {
    let mut rt = runtime_with(&["broken.lua"]);
    let r = rt.enable_with_source("broken", Ok("return {".to_string()));
    let message = r.unwrap_err();
    assert!(message.starts_with("Failed to load plugin 'broken': runtime error: Compile error: "));
    assert!(message.len() > "Failed to load plugin 'broken': runtime error: Compile error: ".len());
    assert!(!rt.get_plugin_info("broken").unwrap().2);
}

#[test]
fn enable_with_source_reports_read_failure() {
    let mut rt = runtime_with(&["p.lua"]);
    assert_eq!(
        rt.enable_with_source("p", Err("denied".to_string())),
        Err("Failed to read plugin: denied".to_string())
    );
    assert_eq!(rt.enable_with_source("p", Ok("x = 1".to_string())), Ok(()));
}

#[test]
fn disable_all_disables_every_plugin() {
    let mut rt = runtime_with(&["a.lua", "b.lua", "c.lua"]);
    rt.enable_plugin("a", &source("return {}")).unwrap();
    rt.enable_plugin("c", &source("return {}")).unwrap();
    rt.disable_all_plugins();
    let list = rt.get_plugin_list();
    assert_eq!(list.len(), 3);
    assert!(list.iter().all(|e| !e.1));
}

#[test]
fn reload_of_disabled_plugin_does_nothing() {
    let mut rt = runtime_with(&["a.lua"]);
    assert_eq!(rt.reload_plugin("a", &unreadable), Ok(()));
    assert!(!rt.get_plugin_info("a").unwrap().2);
    assert_eq!(rt.reload_plugin("missing", &unreadable), Ok(()));
}

#[test]
fn reload_runs_hooks_again() {
    let mut rt = runtime_with(&["a.lua"]);
    let script = "return { on_enable = function() ups = (ups or 0) + 1 end, on_disable = function() downs = (downs or 0) + 1 end }";
    rt.enable_plugin("a", &source(script)).unwrap();
    assert_eq!(rt.reload_plugin("a", &source(script)), Ok(()));
    assert_eq!(global_integer(&mut rt, "ups"), Some(2));
    assert_eq!(global_integer(&mut rt, "downs"), Some(1));
    assert!(rt.get_plugin_info("a").unwrap().2);
}

#[test]
fn reload_with_unreadable_file_leaves_plugin_disabled() {
    let mut rt = runtime_with(&["a.lua"]);
    rt.enable_plugin("a", &source("return {}")).unwrap();
    assert_eq!(
        rt.reload_plugin("a", &unreadable),
        Err("Failed to read plugin: No such file or directory (os error 2)".to_string())
    );
    assert!(!rt.get_plugin_info("a").unwrap().2);
}

#[test]
fn load_enabled_plugins_enables_configured_ones() {
    let mut rt = runtime_with(&["a.lua", "b.lua", "c.lua"]);
    let config = PLuaConfig { enabled_plugins: vec!["c".into(), "missing".into(), "a".into()] };
    rt.load_enabled_plugins(&config, &source("return {}"));
    let list = rt.get_plugin_list();
    assert_eq!(list.iter().map(|e| (e.0.as_str(), e.1)).collect::<Vec<_>>(), vec![("a", true), ("b", false), ("c", true)]);
}

#[test]
fn load_enabled_plugins_skips_failures() {
    let mut rt = runtime_with(&["a.lua", "b.lua"]);
    let config = PLuaConfig { enabled_plugins: vec!["a".into(), "b".into()] };
    let read = |p: &String| {
        if p.ends_with("a.lua") { Ok("return {".to_string()) } else { Ok("return {}".to_string()) }
    };
    rt.load_enabled_plugins(&config, &read);
    assert!(!rt.get_plugin_info("a").unwrap().2);
    assert!(rt.get_plugin_info("b").unwrap().2);
}

#[test]
fn reload_all_keeps_disabled_plugins_disabled() {
    let mut rt = runtime_with(&["a.lua", "b.lua"]);
    rt.enable_plugin("a", &source("return {}")).unwrap();
    rt.reload_all_plugins(&source("return {}"));
    assert!(rt.get_plugin_info("a").unwrap().2);
    assert!(!rt.get_plugin_info("b").unwrap().2);
}

#[test]
fn disable_key_names_the_storage_slot() {
    assert_eq!(disable_key("greeter"), "__plua_disable_greeter");
}

#[test]
fn enable_then_disable_gives_back_the_registry() {
    let mut rt = runtime_with(&["a.lua", "b.lua"]);
    rt.enable_plugin("b", &source("return {}")).unwrap();
    let before = rt.get_plugin_list();
    rt.enable_plugin("a", &source("return {}")).unwrap();
    rt.disable_plugin("a").unwrap();
    assert_eq!(rt.get_plugin_list(), before);
}

#[test]
fn refused_requests_leave_the_registry_alone() {
    let mut rt = runtime_with(&["a.lua", "b.lua"]);
    rt.enable_plugin("a", &source("return {}")).unwrap();
    let before = rt.get_plugin_list();
    assert!(rt.enable_plugin("a", &source("return {}")).is_err());
    assert!(rt.disable_plugin("b").is_err());
    assert!(rt.enable_plugin("zzz", &source("return {}")).is_err());
    assert!(rt.enable_with_source("b", Ok("return {".to_string())).is_err());
    assert_eq!(rt.get_plugin_list(), before);
}

#[test]
fn hook_in_takes_only_functions() {
    assert!(hook_in(LuaEntry::Other).is_none());
    assert!(hook_in(LuaEntry::Text("on_enable".to_string())).is_none());
    let hooks = load_hooks(LuaEntry::Other, LuaEntry::Text("x".to_string()));
    assert!(hooks.keep_on_disable.is_none());
    assert!(hooks.run_on_enable.is_none());
}

#[test]
fn text_in_takes_only_text() {
    assert_eq!(text_in(LuaEntry::Text("1.2".to_string())), Some("1.2".to_string()));
    assert_eq!(text_in(LuaEntry::Other), None);
}

#[test]
fn manifest_from_fills_missing_fields_with_defaults() {
    let fields = ManifestFields { name: None, description: Some("d".to_string()), version: None, author: Some("me".to_string()) };
    let m = manifest_from("x/tool.luau", fields);
    assert_eq!((m.name.as_str(), m.description.as_str(), m.version.as_str(), m.author.as_str()), ("tool", "d", "1.0.0", "me"));
    let named = ManifestFields { name: Some("N".to_string()), description: None, version: Some("9".to_string()), author: None };
    let m = manifest_from("x/tool.luau", named);
    assert_eq!((m.name.as_str(), m.description.as_str(), m.version.as_str(), m.author.as_str()), ("N", "", "9", "Unknown"));
}

#[test]
fn read_manifest_fields_runs_chunk_alone() {
    let f = read_manifest_fields(&mut LuaHost::new(), "a.lua", "return { name = 'A', version = '0.1' }");
    assert_eq!((f.name, f.version, f.description, f.author), (Some("A".to_string()), Some("0.1".to_string()), None, None));
    let f = read_manifest_fields(&mut LuaHost::new(), "a.lua", "return");
    assert_eq!((f.name, f.version), (None, None));
    let f = read_manifest_fields(&mut LuaHost::new(), "a.lua", "return {");
    assert_eq!((f.name, f.author), (None, None));
}

#[test]
fn refused_requests_run_no_code() {
    let mut rt = runtime_with(&["a.lua", "b.lua"]);
    let counting = "runs = (runs or 0) + 1 return { on_enable = function() hooks = (hooks or 0) + 1 end }";
    rt.enable_plugin("a", &source(counting)).unwrap();
    assert_eq!((global_integer(&mut rt, "runs"), global_integer(&mut rt, "hooks")), (Some(1), Some(1)));
    assert!(rt.enable_plugin("a", &source(counting)).is_err());
    assert!(rt.enable_plugin("none", &source(counting)).is_err());
    assert!(rt.disable_plugin("b").is_err());
    assert_eq!(rt.reload_plugin("b", &source(counting)), Ok(()));
    assert_eq!((global_integer(&mut rt, "runs"), global_integer(&mut rt, "hooks")), (Some(1), Some(1)));
}

#[test]
fn enabling_twice_with_the_same_file_adds_nothing() {
    let mut rt = runtime_with(&["a.lua", "b.lua"]);
    assert!(rt.enable_plugin("a", &source("return {")).is_err());
    assert!(rt.enable_plugin("a", &source("return {")).is_err());
    assert!(!rt.get_plugin_info("a").unwrap().2);
    assert_eq!(rt.enable_plugin("b", &source("return {}")), Ok(()));
    assert_eq!(rt.enable_plugin("b", &source("return {}")), Err("Plugin 'b' is already enabled".to_string()));
    assert!(rt.get_plugin_info("b").unwrap().2);
}

#[test]
fn repeated_configured_name_enables_once() {
    let script = "return { on_enable = function() count = (count or 0) + 1 end }";
    let mut twice = runtime_with(&["a.lua", "b.lua"]);
    twice.load_enabled_plugins(&PLuaConfig { enabled_plugins: vec!["a".into(), "b".into(), "a".into()] }, &source(script));
    let mut once = runtime_with(&["a.lua", "b.lua"]);
    once.load_enabled_plugins(&PLuaConfig { enabled_plugins: vec!["a".into(), "b".into()] }, &source(script));
    assert_eq!(twice.get_plugin_list(), once.get_plugin_list());
    assert_eq!(global_integer(&mut twice, "count"), Some(2));
    assert_eq!(global_integer(&mut once, "count"), Some(2));
}

#[test]
fn manifest_fields_takes_text_of_each_entry() {
    let f = manifest_fields(LuaEntry::Text("n".to_string()), LuaEntry::Other, LuaEntry::Text("2".to_string()), LuaEntry::Other);
    assert_eq!((f.name, f.description, f.version, f.author), (Some("n".to_string()), None, Some("2".to_string()), None));
}

#[test]
fn plugin_file_that_never_stops_is_given_up_on() {
    let mut rt = runtime_with(&["spin.lua", "hook.lua"]);
    assert_eq!(rt.enable_plugin("spin", &source("while true do end")), Ok(()));
    assert!(rt.get_plugin_info("spin").unwrap().2);
    let looping_hook = "return { on_enable = function() while true do end end, on_disable = function() left = 1 end }";
    assert_eq!(rt.enable_plugin("hook", &source(looping_hook)), Ok(()));
    assert_eq!(rt.disable_plugin("hook"), Ok(()));
    assert_eq!(global_integer(&mut rt, "left"), Some(1));
}

#[test]
fn discovery_gives_up_on_file_that_never_stops() {
    let rt = PluginRuntime::new("data");
    let m = rt.load_manifest("p/spin.lua", Ok("while true do end".to_string())).unwrap();
    assert_eq!((m.name.as_str(), m.version.as_str()), ("spin", "1.0.0"));
}

#[test]
fn stem_and_extension_follow_the_last_dot() {
    assert_eq!(stem("a.b.c"), "a.b");
    assert_eq!(stem(".hidden"), ".hidden");
    assert_eq!(stem("plain"), "plain");
    assert_eq!(stem("é.lua"), "é");
    assert_eq!(stem("a."), "a");
    assert_eq!(extension_in("x.luau"), Some("luau".to_string()));
    assert_eq!(extension_in(".lua"), None);
    assert_eq!(extension_in("a."), Some(String::new()));
    assert_eq!(extension_in("plain"), None);
    assert_eq!(extension_in("ü.lüa"), Some("lüa".to_string()));
}
