//! The replies of the `/plua` command: what the command's sub-commands
//! (`list`, `enable`, `disable`, `reload`, `info`) tell the player who ran
//! them, and what they record in the configuration.
use vstd::prelude::*;

use crate::config::PLuaConfig;
use crate::script::manifest::PluginManifest;

verus! {

/// The chat colours that the replies use.
#[derive(Clone, Copy, Debug, PartialEq, Eq)]
pub enum NamedColor {
    Yellow,
    Gold,
    Green,
    Red,
}

/// A piece of text with an optional colour of its own.
#[derive(Debug, PartialEq, Eq)]
pub struct TextPart {
    pub text: String,
    pub color: Option<NamedColor>,
}

/// One chat message: a text with an optional colour, followed by its parts.
#[derive(Debug, PartialEq, Eq)]
pub struct Message {
    pub text: String,
    pub color: Option<NamedColor>,
    pub children: Vec<TextPart>,
}

/// A chat message, as text.
pub struct MessageView {
    pub text: Seq<char>,
    pub color: Option<NamedColor>,
    pub children: Seq<(Seq<char>, Option<NamedColor>)>,
}

pub open spec fn part_view(p: TextPart) -> (Seq<char>, Option<NamedColor>) {
    (p.text@, p.color)
}

impl View for Message {
    type V = MessageView;

    open spec fn view(&self) -> MessageView {
        MessageView {
            text: self.text@,
            color: self.color,
            children: self.children@.map_values(|p: TextPart| part_view(p)),
        }
    }
}

pub open spec fn plain(text: Seq<char>, color: Option<NamedColor>) -> MessageView {
    MessageView { text, color, children: Seq::empty() }
}

pub open spec fn with_part(
    text: Seq<char>,
    color: Option<NamedColor>,
    part: Seq<char>,
    part_color: Option<NamedColor>,
) -> MessageView {
    MessageView { text, color, children: seq![(part, part_color)] }
}

/// The colour and word that show whether a plugin is enabled.
pub open spec fn status_color(enabled: bool) -> NamedColor {
    if enabled {
        NamedColor::Green
    } else {
        NamedColor::Red
    }
}

pub open spec fn status_text(enabled: bool) -> Seq<char> {
    if enabled {
        "Enabled"@
    } else {
        "Disabled"@
    }
}

/// The line of the plugin list for one plugin.
pub open spec fn list_line(name: Seq<char>, enabled: bool) -> MessageView {
    MessageView {
        text: "- "@ + name + " ["@,
        color: None,
        children: seq![(status_text(enabled), Some(status_color(enabled))), ("]"@, None)],
    }
}

/// The reply of `/plua list` to the plugin list `list` (name, enabled,
/// version, description of each plugin).
pub open spec fn list_reply_spec(list: Seq<(Seq<char>, bool)>) -> Seq<MessageView> {
    if list.len() == 0 {
        seq![plain("No Lua plugins found."@, Some(NamedColor::Yellow))]
    } else {
        seq![plain("=== Lua Plugins ==="@, Some(NamedColor::Gold))] + list.map_values(
            |e: (Seq<char>, bool)| list_line(e.0, e.1),
        )
    }
}

pub open spec fn runtime_missing() -> MessageView {
    plain("Runtime not initialized"@, Some(NamedColor::Red))
}

/// The reply to a sub-command on the plugin `name` that succeeded, with the
/// text `done` ("has been enabled." and so on).
pub open spec fn done_reply(name: Seq<char>, done: Seq<char>) -> MessageView {
    with_part("Plugin '"@ + name + "' "@, None, done, Some(NamedColor::Green))
}

/// The reply to a sub-command on the plugin `name` that failed with `error`;
/// `failed` opens it ("Failed to enable plugin '" and so on).
pub open spec fn failed_reply(failed: Seq<char>, name: Seq<char>, error: Seq<char>) -> MessageView {
    with_part(failed + name + "': "@, None, error, Some(NamedColor::Red))
}

/// The reply to a sub-command on `name` whose runtime call gave `result`
/// (`None` where there is no runtime).
pub open spec fn command_reply_spec(
    failed: Seq<char>,
    done: Seq<char>,
    name: Seq<char>,
    result: Option<Result<(), String>>,
) -> MessageView {
    match result {
        Some(Ok(())) => done_reply(name, done),
        Some(Err(e)) => failed_reply(failed, name, e@),
        None => runtime_missing(),
    }
}

fn text_message(text: &str, color: Option<NamedColor>) -> (m: Message)
    ensures
        m@ == plain(text@, color),
{
    let m = Message { text: text.to_owned(), color: color, children: Vec::new() };
    assert(m@.children =~= Seq::<(Seq<char>, Option<NamedColor>)>::empty());
    m
}

fn part_message(text: String, color: Option<NamedColor>, part: &str, part_color: Option<NamedColor>) -> (m: Message)
    ensures
        m@ == with_part(text@, color, part@, part_color),
{
    let m = Message {
        text: text,
        color: color,
        children: vec![TextPart { text: part.to_owned(), color: part_color }],
    };
    assert(m@.children =~= seq![(part@, part_color)]);
    m
}

fn concat3(a: &str, b: &str, c: &str) -> (s: String)
    ensures
        s@ == a@ + b@ + c@,
{
    let mut s = a.to_owned();
    s.append(b);
    s.append(c);
    s
}

fn status_word(enabled: bool) -> (w: &'static str)
    ensures
        w@ == status_text(enabled),
{
    if enabled {
        "Enabled"
    } else {
        "Disabled"
    }
}

fn status_colour(enabled: bool) -> (c: NamedColor)
    ensures
        c == status_color(enabled),
{
    if enabled {
        NamedColor::Green
    } else {
        NamedColor::Red
    }
}

/// The reply of `/plua list` to the plugin list `list`, as
/// `PluginRuntime::get_plugin_list` gives it: a heading and one line per
/// plugin with its status, or a notice that there are no plugins.
pub fn list_reply(list: &Vec<(String, bool, String, String)>) -> (reply: Vec<Message>)
    ensures
        reply@.map_values(|m: Message| m@) == list_reply_spec(
            list@.map_values(|e: (String, bool, String, String)| (e.0@, e.1)),
        ),
{
    let ghost entries = list@.map_values(|e: (String, bool, String, String)| (e.0@, e.1));
    if list.len() == 0 {
        let reply = vec![text_message("No Lua plugins found.", Some(NamedColor::Yellow))];
        assert(reply@.map_values(|m: Message| m@) =~= list_reply_spec(entries));
        return reply;
    }
    let mut reply = vec![text_message("=== Lua Plugins ===", Some(NamedColor::Gold))];
    let mut i: usize = 0;
    while i < list.len()
        invariant
            i <= list.len(),
            entries == list@.map_values(|e: (String, bool, String, String)| (e.0@, e.1)),
            reply@.map_values(|m: Message| m@) =~= seq![
                plain("=== Lua Plugins ==="@, Some(NamedColor::Gold)),
            ] + entries.take(i as int).map_values(|e: (Seq<char>, bool)| list_line(e.0, e.1)),
        decreases list.len() - i,
    {
        let enabled = list[i].1;
        let line = Message {
            text: concat3("- ", list[i].0.as_str(), " ["),
            color: None,
            children: vec![
                TextPart { text: status_word(enabled).to_owned(), color: Some(status_colour(enabled)) },
                TextPart { text: "]".to_owned(), color: None },
            ],
        };
        assert(line@.children =~= list_line(list@[i as int].0@, enabled).children);
        assert(line@ == list_line(entries[i as int].0, entries[i as int].1));
        let ghost before = reply@;
        reply.push(line);
        proof {
            assert(reply@.map_values(|m: Message| m@) =~= before.map_values(|m: Message| m@).push(
                list_line(entries[i as int].0, entries[i as int].1),
            ));
            assert(entries.take(i as int + 1).map_values(|e: (Seq<char>, bool)| list_line(e.0, e.1))
                =~= entries.take(i as int).map_values(|e: (Seq<char>, bool)| list_line(e.0, e.1)).push(
                list_line(entries[i as int].0, entries[i as int].1),
            ));
        }
        i = i + 1;
    }
    assert(entries.take(list.len() as int) =~= entries);
    reply
}

/// The reply of `/plua enable <name>` once the runtime's `enable_plugin`
/// gave `result` (`None` where there is no runtime). Where the plugin was
/// enabled it is also recorded as enabled in `config`; otherwise `config`
/// is left as it was.
pub fn enable_reply(config: &mut PLuaConfig, name: &str, result: &Option<Result<(), String>>) -> (reply: Message)
    ensures
        reply@ == command_reply_spec("Failed to enable plugin '"@, "has been enabled."@, name@, *result),
        final(config).names() == if *result matches Some(Ok(_)) {
            crate::config::with_name(old(config).names(), name@)
        } else {
            old(config).names()
        },
{
    match result {
        Some(Ok(())) => {
            config.enable_plugin(name);
            part_message(concat3("Plugin '", name, "' "), None, "has been enabled.", Some(NamedColor::Green))
        },
        Some(Err(e)) => part_message(
            concat3("Failed to enable plugin '", name, "': "),
            None,
            e.as_str(),
            Some(NamedColor::Red),
        ),
        None => text_message("Runtime not initialized", Some(NamedColor::Red)),
    }
}

/// The reply of `/plua disable <name>` once the runtime's `disable_plugin`
/// gave `result` (`None` where there is no runtime). Where the plugin was
/// disabled it is also removed from the enabled list of `config`; otherwise
/// `config` is left as it was.
pub fn disable_reply(config: &mut PLuaConfig, name: &str, result: &Option<Result<(), String>>) -> (reply: Message)
    ensures
        reply@ == command_reply_spec("Failed to disable plugin '"@, "has been disabled."@, name@, *result),
        final(config).names() == if *result matches Some(Ok(_)) {
            crate::config::without_name(old(config).names(), name@)
        } else {
            old(config).names()
        },
{
    match result {
        Some(Ok(())) => {
            config.disable_plugin(name);
            part_message(concat3("Plugin '", name, "' "), None, "has been disabled.", Some(NamedColor::Green))
        },
        Some(Err(e)) => part_message(
            concat3("Failed to disable plugin '", name, "': "),
            None,
            e.as_str(),
            Some(NamedColor::Red),
        ),
        None => text_message("Runtime not initialized", Some(NamedColor::Red)),
    }
}

/// The reply of `/plua reload <name>` once the runtime's `reload_plugin`
/// gave `result` (`None` where there is no runtime).
pub fn reload_reply(name: &str, result: &Option<Result<(), String>>) -> (reply: Message)
    ensures
        reply@ == command_reply_spec("Failed to reload plugin '"@, "has been reloaded."@, name@, *result),
{
    match result {
        Some(Ok(())) => part_message(concat3("Plugin '", name, "' "), None, "has been reloaded.", Some(NamedColor::Green)),
        Some(Err(e)) => part_message(
            concat3("Failed to reload plugin '", name, "': "),
            None,
            e.as_str(),
            Some(NamedColor::Red),
        ),
        None => text_message("Runtime not initialized", Some(NamedColor::Red)),
    }
}

/// The reply of `/plua reload`: `Ok` once every plugin was reloaded, or the
/// error that stopped it.
pub fn reload_all_reply(result: &Result<(), String>) -> (reply: Message)
    ensures
        reply@ == match *result {
            Ok(()) => plain("All Lua plugins have been reloaded."@, Some(NamedColor::Green)),
            Err(e) => with_part("Failed to reload plugins: "@, Some(NamedColor::Red), e@, None),
        },
{
    match result {
        Ok(()) => text_message("All Lua plugins have been reloaded.", Some(NamedColor::Green)),
        Err(e) => part_message("Failed to reload plugins: ".to_owned(), Some(NamedColor::Red), e.as_str(), None),
    }
}

/// The reply of `/plua info` for a plugin with this manifest, status and file.
pub open spec fn info_lines(
    name: Seq<char>,
    description: Seq<char>,
    version: Seq<char>,
    author: Seq<char>,
    enabled: bool,
    file_path: Seq<char>,
) -> Seq<MessageView> {
    seq![
        MessageView {
            text: "=== "@,
            color: Some(NamedColor::Gold),
            children: seq![(name, None), (" ==="@, Some(NamedColor::Gold))],
        },
        with_part("Description: "@, Some(NamedColor::Yellow), description, None),
        with_part("Version: "@, Some(NamedColor::Yellow), version, None),
        with_part("Author: "@, Some(NamedColor::Yellow), author, None),
        with_part("Status: "@, Some(status_color(enabled)), status_text(enabled), None),
        with_part("File: "@, Some(NamedColor::Yellow), file_path, None),
    ]
}

/// The reply of `/plua info <name>` to what `PluginRuntime::get_plugin_info`
/// gave: the plugin's name, description, version, author, status and file,
/// or a notice that there is no such plugin.
pub fn info_reply(name: &str, info: Option<(&PluginManifest, &String, bool)>) -> (reply: Vec<Message>)
    ensures
        reply@.map_values(|m: Message| m@) == match info {
            Some((m, p, e)) => info_lines(m.name@, m.description@, m.version@, m.author@, e, p@),
            None => seq![
                with_part("Plugin '"@ + name@ + "' "@, None, "not found."@, Some(NamedColor::Red)),
            ],
        },
{
    match info {
        Some((manifest, file_path, enabled)) => {
            let header = Message {
                text: "=== ".to_owned(),
                color: Some(NamedColor::Gold),
                children: vec![
                    TextPart { text: manifest.name.clone(), color: None },
                    TextPart { text: " ===".to_owned(), color: Some(NamedColor::Gold) },
                ],
            };
            assert(header@.children =~= seq![(manifest.name@, None), (" ==="@, Some(NamedColor::Gold))]);
            let reply = vec![
                header,
                part_message("Description: ".to_owned(), Some(NamedColor::Yellow), manifest.description.as_str(), None),
                part_message("Version: ".to_owned(), Some(NamedColor::Yellow), manifest.version.as_str(), None),
                part_message("Author: ".to_owned(), Some(NamedColor::Yellow), manifest.author.as_str(), None),
                part_message("Status: ".to_owned(), Some(status_colour(enabled)), status_word(enabled), None),
                part_message("File: ".to_owned(), Some(NamedColor::Yellow), file_path.as_str(), None),
            ];
            assert(reply@.map_values(|m: Message| m@) =~= info_lines(
                manifest.name@,
                manifest.description@,
                manifest.version@,
                manifest.author@,
                enabled,
                file_path@,
            ));
            reply
        },
        None => {
            let reply = vec![
                part_message(concat3("Plugin '", name, "' "), None, "not found.", Some(NamedColor::Red)),
            ];
            assert(reply@.map_values(|m: Message| m@) =~= seq![
                with_part("Plugin '"@ + name@ + "' "@, None, "not found."@, Some(NamedColor::Red)),
            ]);
            reply
        },
    }
}

} // verus!
