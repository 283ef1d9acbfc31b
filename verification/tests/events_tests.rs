use plua::events::{
    all_event_types, block_break_fields, block_place_fields, decimal_text, dispatch_event,
    listener_errors, listener_functions, listener_id, player_chat_fields, player_join_fields, player_leave_fields, EventValue,
};
use plua::script::runtime::PluginRuntime;

fn show(fields: &[(String, EventValue)]) -> Vec<String> {
    fields
        .iter()
        .map(|(k, v)| match v {
            EventValue::Text(s) => format!("{k}={s:?}"),
            EventValue::Integer(i) => format!("{k}={i}"),
            EventValue::Boolean(b) => format!("{k}={b}"),
        })
        .collect()
}

#[test]
fn event_types_are_the_five_supported() {
    assert_eq!(all_event_types(), vec!["player_join", "player_leave", "player_chat", "block_break", "block_place"]);
}

#[test]
fn player_event_tables() {
    assert_eq!(
        show(&player_join_fields("Steve", "Steve joined the game", false)),
        vec!["player_name=\"Steve\"", "join_message=\"Steve joined the game\"", "cancelled=false"]
    );
    assert_eq!(
        show(&player_leave_fields("Alex", "bye", true)),
        vec!["player_name=\"Alex\"", "leave_message=\"bye\"", "cancelled=true"]
    );
    assert_eq!(
        show(&player_chat_fields("Alex", "hi", false)),
        vec!["player_name=\"Alex\"", "message=\"hi\"", "cancelled=false"]
    );
}

#[test]
fn block_event_tables() {
    assert_eq!(
        show(&block_break_fields(None, "minecraft:stone", -5, 64, 2147483647, 7, true, false)),
        vec![
            "player_name=\"\"",
            "block=\"minecraft:stone\"",
            "x=-5",
            "y=64",
            "z=2147483647",
            "exp=7",
            "should_drop=true",
            "cancelled=false"
        ]
    );
    assert_eq!(show(&block_break_fields(Some("Steve"), "b", 0, 0, 0, 4294967295, false, true))[0], "player_name=\"Steve\"");
    assert_eq!(show(&block_break_fields(Some("Steve"), "b", 0, 0, 0, 4294967295, false, true))[5], "exp=4294967295");
    assert_eq!(
        show(&block_place_fields("Alex", "minecraft:dirt", 1, 2, -3, true, false)),
        vec![
            "player_name=\"Alex\"",
            "block_placed=\"minecraft:dirt\"",
            "x=1",
            "y=2",
            "z=-3",
            "can_build=true",
            "cancelled=false"
        ]
    );
}

#[test]
fn decimal_text_matches_display() {
    for n in [0u128, 7, 10, 99, 100, 1234567890, 1_700_000_000_123, u128::MAX] {
        assert_eq!(decimal_text(n), n.to_string());
    }
}

#[test]
fn listener_ids_join_event_and_time() {
    assert_eq!(listener_id("player_join", 1700000000123), "player_join_1700000000123");
    assert_eq!(listener_id("block_break", 0), "block_break_0");
    assert_ne!(listener_id("x", 12), listener_id("x", 120));
}

fn register_listener(rt: &mut PluginRuntime, event: &'static str, id: &'static str, body: &'static str) {
    rt.lua().enter(|ctx| {
        let closure = piccolo::Closure::load(ctx, None, body.as_bytes()).unwrap();
        let pumpkin = match ctx.get_global("pumpkin") {
            piccolo::Value::Table(t) => t,
            _ => {
                let t = piccolo::Table::new(&ctx);
                ctx.set_global("pumpkin", t).unwrap();
                t
            }
        };
        let events = match pumpkin.get(ctx, "events") {
            piccolo::Value::Table(t) => t,
            _ => {
                let t = piccolo::Table::new(&ctx);
                pumpkin.set(ctx, "events", t).unwrap();
                t
            }
        };
        let listeners = match events.get(ctx, event) {
            piccolo::Value::Table(t) => t,
            _ => {
                let t = piccolo::Table::new(&ctx);
                events.set(ctx, event, t).unwrap();
                t
            }
        };
        listeners.set(ctx, id, closure).unwrap();
        listeners.set(ctx, "not_a_function", 5).unwrap();
    });
}

fn global_text(rt: &mut PluginRuntime, name: &'static str) -> Option<String> {
    rt.lua().enter(|ctx| match ctx.get_global(name) {
        piccolo::Value::String(s) => Some(s.to_str().unwrap().to_string()),
        _ => None,
    })
}

#[test]
fn dispatch_without_listeners_does_nothing() {
    let mut rt = PluginRuntime::new("d");
    let errors = dispatch_event(rt.host(), "player_join", &player_join_fields("a", "b", false)).errors;
    assert!(errors.is_empty());
}

#[test]
fn dispatch_gives_event_table_to_listeners() {
    let mut rt = PluginRuntime::new("d");
    register_listener(&mut rt, "player_join", "l1", "local event = ...; seen = event.player_name .. ':' .. event.join_message");
    let errors = dispatch_event(rt.host(), "player_join", &player_join_fields("Steve", "hello", false)).errors;
    assert!(errors.is_empty());
    assert_eq!(global_text(&mut rt, "seen"), Some("Steve:hello".to_string()));
    let errors = dispatch_event(rt.host(), "block_break", &block_break_fields(None, "stone", 1, 2, 3, 0, true, false)).errors;
    assert!(errors.is_empty());
    assert_eq!(global_text(&mut rt, "seen"), Some("Steve:hello".to_string()));
}

#[test]
fn dispatch_reports_failing_listeners() {
    let mut rt = PluginRuntime::new("d");
    register_listener(&mut rt, "block_place", "bad", "error('boom')");
    let errors = dispatch_event(rt.host(), "block_place", &block_place_fields("a", "b", 0, 0, 0, true, false)).errors;
    assert_eq!(errors.len(), 1);
    assert!(errors[0].contains("boom"));
}

#[test]
fn listener_errors_keeps_failures_in_order() {
    let outcomes = vec![Ok(()), Err("first".to_string()), Ok(()), Err("second".to_string())];
    assert_eq!(listener_errors(&outcomes), vec!["first".to_string(), "second".to_string()]);
    assert!(listener_errors(&vec![Ok(()), Ok(())]).is_empty());
    assert!(listener_errors(&Vec::new()).is_empty());
}

#[test]
fn listener_functions_passes_over_non_functions() {
    assert!(listener_functions(vec![None, None]).is_empty());
    assert!(listener_functions(Vec::new()).is_empty());
}

#[test]
fn dispatch_calls_each_listener_once_with_one_outcome() {
    let mut rt = PluginRuntime::new("d");
    register_listener(&mut rt, "player_join", "l1", "calls = (calls or 0) + 1");
    register_listener(&mut rt, "player_join", "l2", "error('second fails')");
    let d = dispatch_event(rt.host(), "player_join", &player_join_fields("a", "b", false));
    assert_eq!(d.listeners.len(), 2);
    assert_eq!(d.outcomes.len(), 2);
    assert_eq!(d.outcomes.iter().filter(|o| o.is_ok()).count(), 1);
    assert_eq!(d.errors.len(), 1);
    assert!(d.errors[0].contains("second fails"));
    let calls = rt.lua().enter(|ctx| match ctx.get_global("calls") {
        piccolo::Value::Integer(i) => Some(i),
        _ => None,
    });
    assert_eq!(calls, Some(1));
}

#[test]
fn dispatch_gives_up_on_listener_that_never_stops() {
    let mut rt = PluginRuntime::new("d");
    register_listener(&mut rt, "player_join", "spin", "while true do end");
    let d = dispatch_event(rt.host(), "player_join", &player_join_fields("a", "b", false));
    assert_eq!(d.errors, vec!["script did not finish within its step budget".to_string()]);
}
