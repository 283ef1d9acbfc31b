use plua::config::PLuaConfig;

fn names(c: &PLuaConfig) -> Vec<String> {
    c.enabled_plugins.clone()
}

#[test]
fn new_config_lists_nothing() {
    let c = PLuaConfig::new();
    assert!(c.enabled_plugins.is_empty());
    assert!(!c.is_enabled("a"));
}

#[test]
fn enable_lists_plugin_once() {
    let mut c = PLuaConfig::new();
    c.enable_plugin("alpha");
    assert!(c.is_enabled("alpha"));
    c.enable_plugin("alpha");
    assert_eq!(names(&c), vec!["alpha".to_string()]);
    c.enable_plugin("beta");
    assert_eq!(names(&c), vec!["alpha".to_string(), "beta".to_string()]);
    assert!(!c.is_enabled("gamma"));
}

#[test]
fn disable_removes_every_occurrence_and_keeps_order() {
    let mut c = PLuaConfig { enabled_plugins: vec!["a".into(), "b".into(), "a".into(), "c".into()] };
    c.disable_plugin("a");
    assert_eq!(names(&c), vec!["b".to_string(), "c".to_string()]);
    assert!(!c.is_enabled("a"));
    c.disable_plugin("missing");
    assert_eq!(names(&c), vec!["b".to_string(), "c".to_string()]);
}

#[test]
fn enable_then_disable_gives_back_the_list() {
    let mut c = PLuaConfig { enabled_plugins: vec!["x".into(), "y".into()] };
    c.enable_plugin("z");
    c.disable_plugin("z");
    assert_eq!(names(&c), vec!["x".to_string(), "y".to_string()]);
}

#[test]
fn names_are_compared_exactly() {
    let mut c = PLuaConfig::new();
    c.enable_plugin("Plugin");
    assert!(!c.is_enabled("plugin"));
    assert!(!c.is_enabled("Plugin "));
    assert!(c.is_enabled("Plugin"));
}
