//! The registry of Lua plugins and their life cycle: discovery in the plugin
//! folder, enabling (which runs the plugin's file and its `on_enable` hook),
//! disabling (which runs its `on_disable` hook) and reloading.
use piccolo::{Lua, StashedFunction, StashedTable};
use vstd::prelude::*;

use crate::config::PLuaConfig;
use crate::script::lua_host::{
    lua_compile_error, outcome_view, HostCall, LuaEntry, LuaHost, StoredValue, StoredView,
};
use crate::script::manifest::{
    no_fields, text_view, FieldsView, ManifestFields, ManifestView, PluginManifest,
};
use crate::script::paths::{
    extension, extension_of, file_name, file_stem, join_path, joined, path_file_name, stem_of,
};

verus! {

/// A plugin that the registry knows of.
pub struct PluginInfo {
    pub manifest: PluginManifest,
    pub file_path: String,
    pub enabled: bool,
}

/// A registered plugin, as text.
pub struct PluginInfoView {
    pub manifest: ManifestView,
    pub file_path: Seq<char>,
    pub enabled: bool,
}

impl View for PluginInfo {
    type V = PluginInfoView;

    open spec fn view(&self) -> PluginInfoView {
        PluginInfoView { manifest: self.manifest@, file_path: self.file_path@, enabled: self.enabled }
    }
}

/// The plugin registry together with the Lua interpreter that runs the plugins.
pub struct PluginRuntime {
    plugins_dir: String,
    plugins: Vec<PluginInfo>,
    host: LuaHost,
}

/// The view of a `Result` of text.
pub open spec fn text_result_view(r: Result<String, String>) -> Result<Seq<char>, Seq<char>> {
    match r {
        Ok(s) => Ok(s@),
        Err(e) => Err(e@),
    }
}

/// No two registered plugins share a name.
pub open spec fn unique_names(s: Seq<PluginInfoView>) -> bool {
    forall|i: int, j: int|
        0 <= i < s.len() && 0 <= j < s.len() && i != j ==> s[i].manifest.name
            != s[j].manifest.name
}

/// Some registered plugin has the name `name`.
pub open spec fn has_plugin(s: Seq<PluginInfoView>, name: Seq<char>) -> bool {
    exists|i: int| 0 <= i < s.len() && s[i].manifest.name == name
}

/// The position of the plugin named `name`.
pub open spec fn plugin_index(s: Seq<PluginInfoView>, name: Seq<char>) -> int {
    choose|i: int| 0 <= i < s.len() && s[i].manifest.name == name
}

/// The plugin named `name`, if there is one.
pub open spec fn lookup(s: Seq<PluginInfoView>, name: Seq<char>) -> Option<PluginInfoView> {
    if has_plugin(s, name) {
        Some(s[plugin_index(s, name)])
    } else {
        None
    }
}

/// `s` with the plugin named `name` marked enabled or not; all else unchanged.
pub open spec fn with_enabled(s: Seq<PluginInfoView>, name: Seq<char>, enabled: bool) -> Seq<
    PluginInfoView,
> {
    s.map_values(
        |p: PluginInfoView|
            if p.manifest.name == name {
                PluginInfoView { enabled: enabled, ..p }
            } else {
                p
            },
    )
}

/// `s` with every plugin marked disabled; all else unchanged.
pub open spec fn all_disabled(s: Seq<PluginInfoView>) -> Seq<PluginInfoView> {
    s.map_values(|p: PluginInfoView| PluginInfoView { enabled: false, ..p })
}

/// `a` and `b` list the same plugins, in the same order, and differ at most in
/// which are enabled.
pub open spec fn same_plugins(a: Seq<PluginInfoView>, b: Seq<PluginInfoView>) -> bool {
    &&& a.len() == b.len()
    &&& forall|i: int|
        0 <= i < a.len() ==> a[i].manifest == b[i].manifest && a[i].file_path == b[i].file_path
}

/// `s` with `p` registered under its name: it takes the place of a plugin of
/// that name, or else comes last.
pub open spec fn inserted(s: Seq<PluginInfoView>, p: PluginInfoView) -> Seq<PluginInfoView> {
    if has_plugin(s, p.manifest.name) {
        s.update(plugin_index(s, p.manifest.name), p)
    } else {
        s.push(p)
    }
}

/// The manifest of the plugin file at `path` where the file gives no metadata:
/// named after the file's stem, or "unknown" where the path has no file name,
/// with an empty description, version "1.0.0" and author "Unknown".
pub open spec fn manifest_for(path: Seq<char>) -> ManifestView {
    ManifestView {
        name: match path_file_name(path) {
            Some(n) => stem_of(n),
            None => "unknown"@,
        },
        description: Seq::<char>::empty(),
        version: "1.0.0"@,
        author: "Unknown"@,
        on_enable_ref: None,
        on_disable_ref: None,
    }
}

/// The manifest of the plugin file at `path` whose returned table gives
/// `fields`: each field the table gives, and for the others what
/// `manifest_for` has.
pub open spec fn manifest_with(path: Seq<char>, fields: FieldsView) -> ManifestView {
    let d = manifest_for(path);
    ManifestView {
        name: match fields.name {
            Some(t) => t,
            None => d.name,
        },
        description: match fields.description {
            Some(t) => t,
            None => d.description,
        },
        version: match fields.version {
            Some(t) => t,
            None => d.version,
        },
        author: match fields.author {
            Some(t) => t,
            None => d.author,
        },
        ..d
    }
}

/// `fields` can be what the plugin file at `path` gives once reading it gave
/// `source`: a file that could not be read, or that does not compile, gives
/// no metadata.
pub open spec fn fields_from(path: Seq<char>, source: Result<Seq<char>, Seq<char>>, fields: FieldsView) -> bool {
    match source {
        Err(_) => fields == no_fields(),
        Ok(text) => lua_compile_error(chunk_name(path), text) is Some ==> fields == no_fields(),
    }
}

/// The path names a Lua plugin file: its extension is `lua` or `luau`.
pub open spec fn is_plugin_file(path: Seq<char>) -> bool {
    &&& path_file_name(path) is Some
    &&& (extension_of(path_file_name(path)->0) == Some("lua"@) || extension_of(
        path_file_name(path)->0,
    ) == Some("luau"@))
}

/// The registry after discovering the files `paths`, in order, the `i`-th
/// giving the metadata `fields[i]`: each plugin file is registered, disabled,
/// under its manifest's name.
pub open spec fn discovered(s: Seq<PluginInfoView>, paths: Seq<Seq<char>>, fields: Seq<FieldsView>) -> Seq<PluginInfoView>
    decreases paths.len(),
{
    if paths.len() == 0 {
        s
    } else {
        let before = discovered(s, paths.drop_last(), fields);
        if is_plugin_file(paths.last()) {
            inserted(
                before,
                PluginInfoView {
                    manifest: manifest_with(paths.last(), fields[paths.len() - 1]),
                    file_path: paths.last(),
                    enabled: false,
                },
            )
        } else {
            before
        }
    }
}

/// The name under which the interpreter compiles the file at `path`.
pub open spec fn chunk_name(path: Seq<char>) -> Seq<char> {
    match path_file_name(path) {
        Some(n) => n,
        None => "unknown"@,
    }
}

/// The error for a request about a plugin that is not registered.
pub open spec fn not_found_message(name: Seq<char>) -> Seq<char> {
    "Plugin '"@ + name + "' not found"@
}

/// The error for enabling a plugin that is already enabled.
pub open spec fn already_enabled_message(name: Seq<char>) -> Seq<char> {
    "Plugin '"@ + name + "' is already enabled"@
}

/// The error for disabling a plugin that is not enabled.
pub open spec fn not_enabled_message(name: Seq<char>) -> Seq<char> {
    "Plugin '"@ + name + "' is not enabled"@
}

/// The error for a plugin file that could not be read.
pub open spec fn read_failure_message(error: Seq<char>) -> Seq<char> {
    "Failed to read plugin: "@ + error
}

/// The error for a plugin file that does not compile.
pub open spec fn load_failure_message(name: Seq<char>, error: Seq<char>) -> Seq<char> {
    "Failed to load plugin '"@ + name + "': runtime error: Compile error: "@ + error
}

/// What enabling the plugin named `name` (found and not yet enabled, with its
/// file at `path`) gives, once reading its file gave `source`: an error that
/// leaves the registry as it was, or success with the plugin enabled.
pub open spec fn enable_outcome(
    s: Seq<PluginInfoView>,
    name: Seq<char>,
    path: Seq<char>,
    source: Result<Seq<char>, Seq<char>>,
) -> (Result<(), Seq<char>>, Seq<PluginInfoView>) {
    match source {
        Err(e) => (Err(read_failure_message(e)), s),
        Ok(text) => match lua_compile_error(chunk_name(path), text) {
            Some(e) => (Err(load_failure_message(name, e)), s),
            None => (Ok(()), with_enabled(s, name, true)),
        },
    }
}

/// What `enable_with_source` gives for the plugin named `name`.
pub open spec fn enable_spec(
    s: Seq<PluginInfoView>,
    name: Seq<char>,
    source: Result<Seq<char>, Seq<char>>,
) -> (Result<(), Seq<char>>, Seq<PluginInfoView>) {
    match lookup(s, name) {
        None => (Err(not_found_message(name)), s),
        Some(p) => if p.enabled {
            (Err(already_enabled_message(name)), s)
        } else {
            enable_outcome(s, name, p.file_path, source)
        },
    }
}

/// What `disable_plugin` gives for the plugin named `name`.
pub open spec fn disable_spec(s: Seq<PluginInfoView>, name: Seq<char>) -> (
    Result<(), Seq<char>>,
    Seq<PluginInfoView>,
) {
    match lookup(s, name) {
        None => (Err(not_found_message(name)), s),
        Some(p) => if !p.enabled {
            (Err(not_enabled_message(name)), s)
        } else {
            (Ok(()), with_enabled(s, name, false))
        },
    }
}

/// Disabling `name` runs its hook: the plugin is registered and enabled.
pub open spec fn disable_runs(s: Seq<PluginInfoView>, name: Seq<char>) -> bool {
    has_plugin(s, name) && lookup(s, name)->0.enabled
}

/// `prefix`, `name` and `suffix`, one after the other.
fn quoted(prefix: &str, name: &str, suffix: &str) -> (text: String)
    ensures
        text@ == prefix@ + name@ + suffix@,
{
    let mut text = prefix.to_owned();
    text.append(name);
    text.append(suffix);
    text
}

/// The key under which the Lua storage table keeps a plugin's `on_disable` hook.
pub fn disable_key(name: &str) -> (key: String)
    ensures
        key@ == "__plua_disable_"@ + name@,
{
    let mut key = "__plua_disable_".to_owned();
    key.append(name);
    key
}

/// The key of a plugin's `on_disable` hook in the storage table.
pub open spec fn disable_key_of(name: Seq<char>) -> Seq<char> {
    "__plua_disable_"@ + name
}

/// `storage` is the storage table found through the global read that gave
/// `global`: the table the global holds, or else a fresh one.
pub open spec fn storage_found(global: Option<StashedTable>, storage: StashedTable) -> bool {
    global matches Some(t) ==> storage == t
}

/// The globals that finding the storage table sets: none where the global
/// held a table, else the storage global, set to the fresh table.
pub open spec fn storage_sets(global: Option<StashedTable>, storage: StashedTable) -> Seq<(Seq<char>, StashedTable)> {
    match global {
        Some(_) => Seq::empty(),
        None => seq![("__plua_storage"@, storage)],
    }
}

/// The globals that handling a returned table's hooks sets: those of finding
/// the storage table, where an `on_disable` function is kept.
pub open spec fn hooks_sets(d: LuaEntry, global: Option<StashedTable>, storage: StashedTable) -> Seq<(Seq<char>, StashedTable)> {
    match entry_function(d) {
        Some(_) => storage_sets(global, storage),
        None => Seq::empty(),
    }
}

/// `log` and `sets` are the calls that enabling the plugin `name` records
/// and the globals it sets (see `enable_log_by`), for some chunk, entries and
/// outcome that its file and the interpreter gave.
pub open spec fn enable_effects(name: Seq<char>, log: Seq<HostCall>, sets: Seq<(Seq<char>, StashedTable)>) -> bool {
    exists|
        chunk: StashedFunction,
        returned: Option<StashedTable>,
        d: LuaEntry,
        e: LuaEntry,
        global: Option<StashedTable>,
        storage: StashedTable,
        outcome: Result<(), Seq<char>>,
    |
        storage_found(global, storage) && log == #[trigger] enable_log_by(
            name,
            chunk,
            returned,
            d,
            e,
            global,
            storage,
            outcome,
        ) && sets == match returned {
            Some(_) => hooks_sets(d, global, storage),
            None => Seq::empty(),
        }
}

/// `log` and `sets` are the calls that disabling the plugin `name` records
/// and the globals it sets (see `disable_log_by`).
pub open spec fn disable_effects(name: Seq<char>, log: Seq<HostCall>, sets: Seq<(Seq<char>, StashedTable)>) -> bool {
    exists|
        global: Option<StashedTable>,
        storage: StashedTable,
        e: LuaEntry,
        outcome: Result<(), Seq<char>>,
    |
        storage_found(global, storage) && log == #[trigger] disable_log_by(name, global, storage, e, outcome)
            && sets == storage_sets(global, storage)
}

/// The global storage table of the plugin manager, made and stored as a global
/// first where there is none.
fn storage_table(host: &mut LuaHost) -> (storage: StashedTable)
    ensures
        exists|global: Option<StashedTable>|
            final(host).calls() == old(host).calls().push(HostCall::Global("__plua_storage"@, global))
                && storage_found(global, storage) && final(host).global_sets() == old(host).global_sets()
                + #[trigger] storage_sets(global, storage),
{
    let global = host.global("__plua_storage");
    let ghost g = global;
    match global {
        Some(t) => {
            assert(storage_found(g, t));
            assert(host.global_sets() =~= old(host).global_sets() + storage_sets(g, t));
            t
        },
        None => {
            let t = host.new_table();
            host.set_global("__plua_storage", &t);
            assert(storage_found(g, t));
            assert(host.global_sets() =~= old(host).global_sets() + storage_sets(g, t));
            t
        },
    }
}

/// The calls that enabling makes with the table `table` that the plugin
/// `name`'s file returned: it reads `on_disable` and `on_enable`; an
/// `on_disable` function that `d` holds is stored in the storage table under
/// the plugin's key; an `on_enable` function that `e` holds is called with no
/// arguments.
pub open spec fn hooks_log(
    name: Seq<char>,
    table: StashedTable,
    d: LuaEntry,
    e: LuaEntry,
    global: Option<StashedTable>,
    storage: StashedTable,
    outcome: Result<(), Seq<char>>,
) -> Seq<HostCall> {
    seq![HostCall::Read(table, "on_disable"@, d), HostCall::Read(table, "on_enable"@, e)]
        + match entry_function(d) {
        Some(f) => seq![
            HostCall::Global("__plua_storage"@, global),
            HostCall::Stored(storage, disable_key_of(name), StoredView::Hook(f)),
        ],
        None => Seq::empty(),
    } + match entry_function(e) {
        Some(f) => seq![HostCall::Called(f, None, outcome)],
        None => Seq::empty(),
    }
}

/// The calls that enabling the plugin `name` makes once its file compiled to
/// `chunk`: the chunk is run, and where it returned a table, its hooks are
/// handled as `hooks_log` says.
pub open spec fn enable_log_by(
    name: Seq<char>,
    chunk: StashedFunction,
    returned: Option<StashedTable>,
    d: LuaEntry,
    e: LuaEntry,
    global: Option<StashedTable>,
    storage: StashedTable,
    outcome: Result<(), Seq<char>>,
) -> Seq<HostCall> {
    seq![HostCall::Ran(chunk, returned)] + match returned {
        Some(t) => hooks_log(name, t, d, e, global, storage, outcome),
        None => Seq::empty(),
    }
}

/// `log` is what enabling the plugin `name` records in the interpreter, for
/// some chunk, entries and outcome that its file and the interpreter gave.
pub open spec fn enable_log(name: Seq<char>, log: Seq<HostCall>) -> bool {
    exists|
        chunk: StashedFunction,
        returned: Option<StashedTable>,
        d: LuaEntry,
        e: LuaEntry,
        global: Option<StashedTable>,
        storage: StashedTable,
        outcome: Result<(), Seq<char>>,
    |
        storage_found(global, storage) && log == #[trigger] enable_log_by(
            name,
            chunk,
            returned,
            d,
            e,
            global,
            storage,
            outcome,
        )
}

/// The calls that disabling the plugin `name` makes: it reads the plugin's
/// key in the storage table; a function that `e` holds is cleared from the
/// table, then called with no arguments.
pub open spec fn disable_log_by(
    name: Seq<char>,
    global: Option<StashedTable>,
    storage: StashedTable,
    e: LuaEntry,
    outcome: Result<(), Seq<char>>,
) -> Seq<HostCall> {
    seq![
        HostCall::Global("__plua_storage"@, global),
        HostCall::Read(storage, disable_key_of(name), e),
    ] + match entry_function(e) {
        Some(f) => seq![
            HostCall::Stored(storage, disable_key_of(name), StoredView::Nil),
            HostCall::Called(f, None, outcome),
        ],
        None => Seq::empty(),
    }
}

/// `log` is what disabling the plugin `name` records in the interpreter, for
/// some entry and outcome that the interpreter gave.
pub open spec fn disable_log(name: Seq<char>, log: Seq<HostCall>) -> bool {
    exists|
        global: Option<StashedTable>,
        storage: StashedTable,
        e: LuaEntry,
        outcome: Result<(), Seq<char>>,
    | storage_found(global, storage) && log == #[trigger] disable_log_by(name, global, storage, e, outcome)
}

/// `unload` and then `load` are what reloading the plugin `name` records:
/// disabling it, then, where enabling it again succeeded (`loaded`), enabling
/// it; a failed enabling records nothing.
pub open spec fn reload_log(name: Seq<char>, unload: Seq<HostCall>, load: Seq<HostCall>, loaded: bool) -> bool {
    &&& disable_log(name, unload)
    &&& loaded ==> enable_log(name, load)
    &&& !loaded ==> load == Seq::<HostCall>::empty()
}

/// `unload`, `unload_sets`, `load` and `load_sets` are what reloading the
/// plugin `name` records and the globals it sets: those of disabling it,
/// then, where enabling it again succeeded (`loaded`), those of enabling it;
/// a failed enabling records and sets nothing.
pub open spec fn reload_effects(
    name: Seq<char>,
    unload: Seq<HostCall>,
    unload_sets: Seq<(Seq<char>, StashedTable)>,
    load: Seq<HostCall>,
    load_sets: Seq<(Seq<char>, StashedTable)>,
    loaded: bool,
) -> bool {
    &&& disable_effects(name, unload, unload_sets)
    &&& loaded ==> enable_effects(name, load, load_sets)
    &&& !loaded ==> load == Seq::<HostCall>::empty() && load_sets == Seq::<(Seq<char>, StashedTable)>::empty()
}

/// The concatenation of `logs`, in order.
pub open spec fn joined_logs(logs: Seq<Seq<HostCall>>) -> Seq<HostCall>
    decreases logs.len(),
{
    if logs.len() == 0 {
        Seq::empty()
    } else {
        joined_logs(logs.drop_last()) + logs.last()
    }
}

/// `log` is what disabling every plugin records for the plugin `p`: what
/// disabling it records where it is enabled, else nothing.
pub open spec fn disable_step(p: PluginInfoView, log: Seq<HostCall>) -> bool {
    if p.enabled {
        disable_log(p.manifest.name, log)
    } else {
        log == Seq::<HostCall>::empty()
    }
}

/// The concatenation of `setss`, in order.
pub open spec fn joined_sets(setss: Seq<Seq<(Seq<char>, StashedTable)>>) -> Seq<(Seq<char>, StashedTable)>
    decreases setss.len(),
{
    if setss.len() == 0 {
        Seq::empty()
    } else {
        joined_sets(setss.drop_last()) + setss.last()
    }
}

/// `log` and `sets` are what disabling every plugin records and sets for the
/// plugin `p`: those of disabling it where it is enabled, else nothing.
pub open spec fn disable_effect_step(p: PluginInfoView, log: Seq<HostCall>, sets: Seq<(Seq<char>, StashedTable)>) -> bool {
    if p.enabled {
        disable_effects(p.manifest.name, log, sets)
    } else {
        log == Seq::<HostCall>::empty() && sets == Seq::<(Seq<char>, StashedTable)>::empty()
    }
}

/// `logs` and `setss` are what disabling every plugin of `s` records and
/// sets, one of each for each plugin, in order.
pub open spec fn disable_all_effects(
    s: Seq<PluginInfoView>,
    logs: Seq<Seq<HostCall>>,
    setss: Seq<Seq<(Seq<char>, StashedTable)>>,
) -> bool {
    &&& logs.len() == s.len()
    &&& setss.len() == s.len()
    &&& forall|i: int| 0 <= i < s.len() ==> disable_effect_step(s[i], logs[i], #[trigger] setss[i])
}

/// `logs` are what disabling every plugin of `s` records, one for each
/// plugin, in order.
pub open spec fn disable_all_log(s: Seq<PluginInfoView>, logs: Seq<Seq<HostCall>>) -> bool {
    &&& logs.len() == s.len()
    &&& forall|i: int| 0 <= i < s.len() ==> disable_step(s[i], #[trigger] logs[i])
}

/// Handles the hooks of the table `table` that the file of the plugin `name`
/// returned: keeps its `on_disable` function in the storage table and calls
/// its `on_enable` function (see `hooks_log`). A hook that fails is passed
/// over, as the plugin manager does not stop for it.
fn run_hooks(host: &mut LuaHost, name: &str, table: &StashedTable)
    ensures
        exists|
            d: LuaEntry,
            e: LuaEntry,
            global: Option<StashedTable>,
            storage: StashedTable,
            outcome: Result<(), Seq<char>>,
        |
            storage_found(global, storage) && final(host).calls() == old(host).calls()
                + #[trigger] hooks_log(name@, *table, d, e, global, storage, outcome)
                && final(host).global_sets() == old(host).global_sets() + hooks_sets(d, global, storage),
{
    let ghost start = host.calls();
    let on_disable = host.read(table, "on_disable");
    let on_enable = host.read(table, "on_enable");
    let ghost d = on_disable;
    let ghost e = on_enable;
    let hooks = load_hooks(on_disable, on_enable);
    let ghost mut global: Option<StashedTable> = None;
    let ghost mut storage: StashedTable = *table;
    let ghost mut outcome: Result<(), Seq<char>> = Ok(());
    let ghost after_reads = host.calls();
    match hooks.keep_on_disable {
        Some(f) => {
            let st = storage_table(host);
            let key = disable_key(name);
            proof {
                global = choose|g: Option<StashedTable>|
                    host.calls() == after_reads.push(HostCall::Global("__plua_storage"@, g))
                        && storage_found(g, st) && host.global_sets() == old(host).global_sets()
                        + #[trigger] storage_sets(g, st);
                storage = st;
            }
            host.store(&st, key.as_str(), StoredValue::Hook(&f));
        },
        None => {},
    }
    match hooks.run_on_enable {
        Some(f) => {
            let r = host.call(&f, None);
            proof {
                outcome = outcome_view(r);
            }
        },
        None => {},
    }
    assert(host.calls() =~= start + hooks_log(name@, *table, d, e, global, storage, outcome));
    assert(host.global_sets() =~= old(host).global_sets() + hooks_sets(d, global, storage));
}

/// The function an entry of a Lua table holds, if it holds one.
pub open spec fn entry_function(entry: LuaEntry) -> Option<StashedFunction> {
    match entry {
        LuaEntry::Function(f) => Some(f),
        _ => None,
    }
}

/// The hook that an entry names: the function it holds; any other value names
/// no hook.
pub fn hook_in(entry: LuaEntry) -> (hook: Option<StashedFunction>)
    ensures
        hook == entry_function(entry),
{
    match entry {
        LuaEntry::Function(f) => Some(f),
        _ => None,
    }
}

/// What enabling does with the table that a plugin's file returned: the
/// `on_disable` function to keep for disabling, and the `on_enable` function
/// to run now.
pub struct LoadHooks {
    pub keep_on_disable: Option<StashedFunction>,
    pub run_on_enable: Option<StashedFunction>,
}

/// Decides, from the table's entries under `on_disable` and `on_enable`, which
/// hook enabling keeps and which it runs: a function under either key is
/// used, anything else is passed over.
pub fn load_hooks(on_disable: LuaEntry, on_enable: LuaEntry) -> (hooks: LoadHooks)
    ensures
        hooks.keep_on_disable == entry_function(on_disable),
        hooks.run_on_enable == entry_function(on_enable),
{
    LoadHooks { keep_on_disable: hook_in(on_disable), run_on_enable: hook_in(on_enable) }
}

/// The text an entry of a Lua table holds, if it holds text.
pub open spec fn entry_text(entry: LuaEntry) -> Option<Seq<char>> {
    match entry {
        LuaEntry::Text(t) => Some(t@),
        _ => None,
    }
}

/// The text an entry holds; any other value gives none.
pub fn text_in(entry: LuaEntry) -> (text: Option<String>)
    ensures
        text_view(text) == entry_text(entry),
{
    match entry {
        LuaEntry::Text(t) => Some(t),
        _ => None,
    }
}

/// The metadata of a returned table whose entries under `name`,
/// `description`, `version` and `author` are the four entries given: the text
/// each holds.
pub fn manifest_fields(name: LuaEntry, description: LuaEntry, version: LuaEntry, author: LuaEntry) -> (fields: ManifestFields)
    ensures
        fields@ == (FieldsView {
            name: entry_text(name),
            description: entry_text(description),
            version: entry_text(version),
            author: entry_text(author),
        }),
{
    ManifestFields {
        name: text_in(name),
        description: text_in(description),
        version: text_in(version),
        author: text_in(author),
    }
}

/// The calls that reading a plugin file's metadata makes once it compiled to
/// `chunk`: the chunk is run, and where it returned a table, the table's
/// entries under `name`, `description`, `version` and `author` are read.
pub open spec fn manifest_log_by(
    chunk: StashedFunction,
    returned: Option<StashedTable>,
    a: LuaEntry,
    b: LuaEntry,
    c: LuaEntry,
    d: LuaEntry,
) -> Seq<HostCall> {
    seq![HostCall::Ran(chunk, returned)] + match returned {
        Some(t) => seq![
            HostCall::Read(t, "name"@, a),
            HostCall::Read(t, "description"@, b),
            HostCall::Read(t, "version"@, c),
            HostCall::Read(t, "author"@, d),
        ],
        None => Seq::empty(),
    }
}

/// The metadata read by the calls of `manifest_log_by`: none where the chunk
/// returned no table.
pub open spec fn manifest_fields_by(
    returned: Option<StashedTable>,
    a: LuaEntry,
    b: LuaEntry,
    c: LuaEntry,
    d: LuaEntry,
) -> FieldsView {
    match returned {
        Some(_) => FieldsView {
            name: entry_text(a),
            description: entry_text(b),
            version: entry_text(c),
            author: entry_text(d),
        },
        None => no_fields(),
    }
}

/// Runs `source`, compiled as the chunk `chunk`, in `host`, and takes the
/// text that the table it returns holds under `name`, `description`,
/// `version` and `author` (see `manifest_log_by`). A chunk that does not
/// compile, or returns no table within its step budget, gives no metadata.
pub fn read_manifest_fields(host: &mut LuaHost, chunk: &str, source: &str) -> (fields: ManifestFields)
    ensures
        lua_compile_error(chunk@, source@) is Some ==> fields@ == no_fields()
            && final(host).calls() == old(host).calls(),
        lua_compile_error(chunk@, source@) is None ==> exists|
            f: StashedFunction,
            returned: Option<StashedTable>,
            a: LuaEntry,
            b: LuaEntry,
            c: LuaEntry,
            d: LuaEntry,
        |
            final(host).calls() == old(host).calls() + #[trigger] manifest_log_by(f, returned, a, b, c, d)
                && fields@ == manifest_fields_by(returned, a, b, c, d),
{
    let ghost start = host.calls();
    let none = ManifestFields { name: None, description: None, version: None, author: None };
    let function = match host.compile(chunk, source) {
        Ok(f) => f,
        Err(_) => return none,
    };
    let table = host.run_chunk(&function);
    match table {
        Some(t) => {
            let a = host.read(&t, "name");
            let b = host.read(&t, "description");
            let c = host.read(&t, "version");
            let d = host.read(&t, "author");
            let ghost (ga, gb, gc, gd) = (a, b, c, d);
            let fields = manifest_fields(a, b, c, d);
            assert(host.calls() =~= start + manifest_log_by(function, table, ga, gb, gc, gd));
            assert(fields@ == manifest_fields_by(table, ga, gb, gc, gd));
            fields
        },
        None => {
            let ghost o = LuaEntry::Other;
            assert(host.calls() =~= start + manifest_log_by(function, table, o, o, o, o));
            assert(none@ == manifest_fields_by(table, o, o, o, o));
            none
        },
    }
}

/// The manifest of the plugin file at `path` whose returned table gives
/// `fields` (see `manifest_with`).
pub fn manifest_from(path: &str, fields: ManifestFields) -> (manifest: PluginManifest)
    ensures
        manifest@ == manifest_with(path@, fields@),
{
    let name = match fields.name {
        Some(n) => n,
        None => match file_stem(path) {
            Some(stem) => stem,
            None => "unknown".to_owned(),
        },
    };
    PluginManifest {
        name: name,
        description: match fields.description {
            Some(d) => d,
            None => String::new(),
        },
        version: match fields.version {
            Some(v) => v,
            None => "1.0.0".to_owned(),
        },
        author: match fields.author {
            Some(a) => a,
            None => "Unknown".to_owned(),
        },
        on_enable_ref: None,
        on_disable_ref: None,
    }
}

proof fn lemma_discovered_prefix(
    s: Seq<PluginInfoView>,
    paths: Seq<Seq<char>>,
    a: Seq<FieldsView>,
    b: Seq<FieldsView>,
)
    requires
        paths.len() <= a.len(),
        paths.len() <= b.len(),
        forall|k: int| 0 <= k < paths.len() ==> a[k] == b[k],
    ensures
        discovered(s, paths, a) == discovered(s, paths, b),
    decreases paths.len(),
{
    if paths.len() > 0 {
        lemma_discovered_prefix(s, paths.drop_last(), a, b);
    }
}

proof fn lemma_lookup_at(s: Seq<PluginInfoView>, name: Seq<char>, i: int)
    requires
        unique_names(s),
        0 <= i < s.len(),
        s[i].manifest.name == name,
    ensures
        has_plugin(s, name),
        plugin_index(s, name) == i,
        lookup(s, name) == Some(s[i]),
{
}

proof fn lemma_with_enabled_at(s: Seq<PluginInfoView>, name: Seq<char>, i: int, enabled: bool)
    requires
        unique_names(s),
        0 <= i < s.len(),
        s[i].manifest.name == name,
    ensures
        with_enabled(s, name, enabled) =~= s.update(i, PluginInfoView { enabled: enabled, ..s[i] }),
        unique_names(with_enabled(s, name, enabled)),
        same_plugins(with_enabled(s, name, enabled), s),
{
    assert(with_enabled(s, name, enabled) =~= s.update(
        i,
        PluginInfoView { enabled: enabled, ..s[i] },
    ));
}

impl PluginRuntime {
    /// The registered plugins, in registration order.
    pub closed spec fn plugins(&self) -> Seq<PluginInfoView> {
        self.plugins@.map_values(|p: PluginInfo| p@)
    }

    /// The interpreter that runs the plugins, with the record of the calls
    /// made into it.
    pub closed spec fn lua_host(&self) -> LuaHost {
        self.host
    }

    /// The folder in which plugin files are looked for.
    pub closed spec fn dir(&self) -> Seq<char> {
        self.plugins_dir@
    }

    /// The registry is well formed: no two plugins share a name.
    pub open spec fn wf(&self) -> bool {
        unique_names(self.plugins())
    }

    /// A runtime with no plugins, a fresh interpreter, and its plugin folder
    /// `plugins` inside `data_folder`.
    pub fn new(data_folder: &str) -> (rt: Self)
        ensures
            rt.wf(),
            rt.plugins() == Seq::<PluginInfoView>::empty(),
            rt.dir() == joined(data_folder@, "plugins"@),
    {
        let rt = PluginRuntime {
            plugins_dir: join_path(data_folder, "plugins"),
            plugins: Vec::new(),
            host: LuaHost::new(),
        };
        assert(rt.plugins() =~= Seq::<PluginInfoView>::empty());
        rt
    }

    /// The folder in which plugin files are looked for.
    pub fn plugins_dir(&self) -> (dir: &String)
        ensures
            dir@ == self.dir(),
    {
        &self.plugins_dir
    }

    /// The interpreter that runs the plugins. Lending it out leaves the
    /// registry as it was; what is done through the loan becomes the
    /// runtime's interpreter.
    pub fn lua(&mut self) -> (lua: &mut Lua)
        ensures
            *lua == old(self).lua_host().interpreter(),
            final(self).lua_host().interpreter() == *final(lua),
            final(self).lua_host().calls() == old(self).lua_host().calls(),
            final(self).plugins() == old(self).plugins(),
            final(self).dir() == old(self).dir(),
    {
        self.host.lua()
    }

    /// The interpreter with its record of calls, for dispatching events.
    /// Lending it out leaves the registry as it was.
    pub fn host(&mut self) -> (host: &mut LuaHost)
        ensures
            *host == old(self).lua_host(),
            final(self).lua_host() == *final(host),
            final(self).plugins() == old(self).plugins(),
            final(self).dir() == old(self).dir(),
    {
        &mut self.host
    }

    /// The position of the plugin named `name`, if there is one.
    fn position(&self, name: &str) -> (pos: Option<usize>)
        ensures
            match pos {
                Some(i) => i < self.plugins().len() && self.plugins()[i as int].manifest.name
                    == name@,
                None => !has_plugin(self.plugins(), name@),
            },
    {
        let target = name.to_owned();
        let mut i: usize = 0;
        while i < self.plugins.len()
            invariant
                i <= self.plugins.len(),
                target@ == name@,
                forall|j: int| 0 <= j < i ==> self.plugins()[j].manifest.name != name@,
            decreases self.plugins.len() - i,
        {
            if self.plugins[i].manifest.name == target {
                return Some(i);
            }
            i = i + 1;
        }
        None
    }

    /// Sets whether the plugin at position `i` is enabled.
    fn set_enabled(&mut self, i: usize, enabled: bool)
        requires
            old(self).wf(),
            i < old(self).plugins().len(),
        ensures
            final(self).wf(),
            final(self).plugins() == with_enabled(
                old(self).plugins(),
                old(self).plugins()[i as int].manifest.name,
                enabled,
            ),
            final(self).dir() == old(self).dir(),
            final(self).lua_host() == old(self).lua_host(),
    {
        proof {
            lemma_with_enabled_at(old(self).plugins(), old(self).plugins()[i as int].manifest.name, i as int, enabled);
        }
        self.plugins[i].enabled = enabled;
        assert(self.plugins() =~= with_enabled(
            old(self).plugins(),
            old(self).plugins()[i as int].manifest.name,
            enabled,
        ));
    }
}


/// Where `path` names a plugin file, `fields` can be what discovery reads
/// from it with `read_file` (see `fields_from`).
pub open spec fn read_fields<F: Fn(&String) -> Result<String, String>>(
    read_file: F,
    path: Seq<char>,
    fields: FieldsView,
) -> bool {
    is_plugin_file(path) ==> exists|source: Result<Seq<char>, Seq<char>>|
        read_gave(read_file, path, source) && fields_from(path, source, fields)
}

/// Reading the file at `path` with `read_file` can give `source`.
pub open spec fn read_gave<F: Fn(&String) -> Result<String, String>>(
    read_file: F,
    path: Seq<char>,
    source: Result<Seq<char>, Seq<char>>,
) -> bool {
    exists|p: String, r: Result<String, String>|
        p@ == path && call_ensures(read_file, (&p,), r) && text_result_view(r) == source
}

/// Enabling `name` may leave the registry as it was or enable that plugin;
/// nothing else changes.
proof fn lemma_enable_spec_shape(s: Seq<PluginInfoView>, name: Seq<char>, source: Result<Seq<char>, Seq<char>>)
    requires
        unique_names(s),
    ensures
        enable_spec(s, name, source).1 == s || (has_plugin(s, name) && enable_spec(s, name, source).1
            == with_enabled(s, name, true)),
{
}

impl PluginRuntime {
    /// The manifest of the plugin file at `path`, once reading it gave
    /// `source`: the file is run on its own, in a fresh interpreter, and the
    /// text it gives under `name`, `description`, `version` and `author` in
    /// the table it returns is taken; what it does not give is as
    /// `manifest_for` has it. A file that could not be read, or that does not
    /// compile, gives no metadata.
    pub fn load_manifest(&self, path: &str, source: Result<String, String>) -> (manifest: Result<PluginManifest, String>)
        ensures
            manifest matches Ok(m) && exists|fields: FieldsView|
                fields_from(path@, text_result_view(source), fields) && m@ == manifest_with(path@, fields),
    {
        let fields = match source {
            Ok(text) => {
                let chunk = match file_name(path) {
                    Some(n) => n,
                    None => "unknown".to_owned(),
                };
                let mut host = LuaHost::new();
                read_manifest_fields(&mut host, chunk.as_str(), text.as_str())
            },
            Err(_) => ManifestFields { name: None, description: None, version: None, author: None },
        };
        Ok(manifest_from(path, fields))
    }

    /// Registers `info` under its name, in place of a plugin of that name.
    fn insert_plugin(&mut self, info: PluginInfo)
        requires
            old(self).wf(),
        ensures
            final(self).wf(),
            final(self).plugins() == inserted(old(self).plugins(), info@),
            final(self).dir() == old(self).dir(),
            final(self).lua_host() == old(self).lua_host(),
    {
        let ghost s = old(self).plugins();
        match self.position(info.manifest.name.as_str()) {
            Some(i) => {
                proof {
                    lemma_lookup_at(s, info@.manifest.name, i as int);
                }
                self.plugins.set(i, info);
                assert(self.plugins() =~= s.update(i as int, info@));
            },
            None => {
                self.plugins.push(info);
                assert(self.plugins() =~= s.push(info@));
            },
        }
    }

    /// Registers, disabled, every Lua plugin file (extension `lua` or `luau`)
    /// among `paths`, in order, under the name its manifest gives, reading
    /// each with `read_file` (see `load_manifest`); a file whose name is
    /// already registered takes that plugin's place.
    pub fn discover_plugins<F: Fn(&String) -> Result<String, String>>(&mut self, paths: &Vec<String>, read_file: &F)
        requires
            old(self).wf(),
            forall|p: &String| call_requires(*read_file, (p,)),
        ensures
            final(self).wf(),
            final(self).dir() == old(self).dir(),
            final(self).lua_host() == old(self).lua_host(),
            exists|fields: Seq<FieldsView>|
                {
                    &&& fields.len() == paths.len()
                    &&& final(self).plugins() == discovered(
                        old(self).plugins(),
                        paths@.map_values(|p: String| p@),
                        fields,
                    )
                    &&& forall|i: int|
                        0 <= i < fields.len() ==> read_fields(*read_file, paths@[i]@, #[trigger] fields[i])
                },
    {
        let ghost ps = paths@.map_values(|p: String| p@);
        let ghost mut fields: Seq<FieldsView> = Seq::empty();
        let lua_ext = "lua".to_owned();
        let luau_ext = "luau".to_owned();
        let mut i: usize = 0;
        assert(ps.take(0) =~= Seq::<Seq<char>>::empty());
        while i < paths.len()
            invariant
                i <= paths.len(),
                ps == paths@.map_values(|p: String| p@),
                lua_ext@ == "lua"@,
                luau_ext@ == "luau"@,
                self.wf(),
                self.dir() == old(self).dir(),
                self.lua_host() == old(self).lua_host(),
                forall|p: &String| call_requires(*read_file, (p,)),
                fields.len() == i,
                self.plugins() == discovered(old(self).plugins(), ps.take(i as int), fields),
                forall|k: int| 0 <= k < fields.len() ==> read_fields(*read_file, paths@[k]@, #[trigger] fields[k]),
            decreases paths.len() - i,
        {
            proof {
                assert(ps.take(i as int + 1).drop_last() =~= ps.take(i as int));
                assert(ps.take(i as int + 1).last() == paths@[i as int]@);
            }
            let path = &paths[i];
            let is_plugin = match extension(path.as_str()) {
                Some(e) => e == lua_ext || e == luau_ext,
                None => false,
            };
            let ghost before = fields;
            if is_plugin {
                let source = read_file(path);
                let ghost source_view = text_result_view(source);
                match self.load_manifest(path.as_str(), source) {
                    Ok(manifest) => {
                        proof {
                            let f = choose|f: FieldsView|
                                fields_from(path@, source_view, f) && manifest@ == manifest_with(path@, f);
                            fields = fields.push(f);
                            assert(read_fields(*read_file, path@, f));
                        }
                        self.insert_plugin(
                            PluginInfo { manifest: manifest, file_path: path.clone(), enabled: false },
                        );
                    },
                    Err(_) => {},
                }
            } else {
                proof {
                    fields = fields.push(no_fields());
                }
            }
            proof {
                lemma_discovered_prefix(old(self).plugins(), ps.take(i as int), before, fields);
                assert(fields[i as int] == fields[ps.take(i as int + 1).len() - 1]);
            }
            i = i + 1;
        }
        assert(ps.take(paths.len() as int) =~= ps);
    }

    /// The plugins, in order: each one's name, whether it is enabled, its
    /// version and its description.
    pub fn get_plugin_list(&self) -> (list: Vec<(String, bool, String, String)>)
        ensures
            list@.len() == self.plugins().len(),
            forall|i: int|
                #![trigger list@[i]]
                0 <= i < list@.len() ==> list@[i].0@ == self.plugins()[i].manifest.name
                    && list@[i].1 == self.plugins()[i].enabled && list@[i].2@
                    == self.plugins()[i].manifest.version && list@[i].3@
                    == self.plugins()[i].manifest.description,
    {
        let mut list: Vec<(String, bool, String, String)> = Vec::new();
        let mut i: usize = 0;
        while i < self.plugins.len()
            invariant
                i <= self.plugins.len(),
                list@.len() == i,
                forall|k: int|
                    #![trigger list@[k]]
                    0 <= k < i ==> list@[k].0@ == self.plugins()[k].manifest.name && list@[k].1
                        == self.plugins()[k].enabled && list@[k].2@
                        == self.plugins()[k].manifest.version && list@[k].3@
                        == self.plugins()[k].manifest.description,
            decreases self.plugins.len() - i,
        {
            let info = &self.plugins[i];
            list.push(
                (
                    info.manifest.name.clone(),
                    info.enabled,
                    info.manifest.version.clone(),
                    info.manifest.description.clone(),
                ),
            );
            i = i + 1;
        }
        list
    }

    /// The manifest, file path and status of the plugin named `name`.
    pub fn get_plugin_info(&self, name: &str) -> (info: Option<(&PluginManifest, &String, bool)>)
        requires
            self.wf(),
        ensures
            match info {
                Some((m, p, e)) => lookup(self.plugins(), name@) == Some(
                    PluginInfoView { manifest: m@, file_path: p@, enabled: e },
                ),
                None => lookup(self.plugins(), name@) is None,
            },
    {
        match self.position(name) {
            Some(i) => {
                proof {
                    lemma_lookup_at(self.plugins(), name@, i as int);
                }
                let info = &self.plugins[i];
                Some((&info.manifest, &info.file_path, info.enabled))
            },
            None => None,
        }
    }

    /// Whether a plugin named `name` is registered.
    pub fn plugin_exists(&self, name: &str) -> (found: bool)
        ensures
            found == has_plugin(self.plugins(), name@),
    {
        self.position(name).is_some()
    }

    /// Enables the plugin named `name` once its file's text has been read as
    /// `source`: runs the file in the interpreter, keeps the `on_disable`
    /// function of the table it returns (if any) for `disable_plugin`, and
    /// runs its `on_enable` function (if any); the calls made are recorded as
    /// `enable_log` says. Code runs for at most its step budget; a file or
    /// hook that does not stop in time is given up on. Fails, leaving the
    /// registry as it was, where no such plugin is registered, where it is
    /// already enabled, where reading failed, or where the file does not
    /// compile.
    pub fn enable_with_source(&mut self, name: &str, source: Result<String, String>) -> (r: Result<(), String>)
        requires
            old(self).wf(),
        ensures
            final(self).wf(),
            final(self).dir() == old(self).dir(),
            (outcome_view(r), final(self).plugins()) == enable_spec(
                old(self).plugins(),
                name@,
                text_result_view(source),
            ),
            !enable_reads(old(self).plugins(), name@) || source is Err ==> final(self).lua_host()
                == old(self).lua_host(),
            r is Err ==> final(self).lua_host().calls() == old(self).lua_host().calls(),
            r is Ok ==> exists|log: Seq<HostCall>|
                final(self).lua_host().calls() == old(self).lua_host().calls() + log && #[trigger] enable_log(
                    name@,
                    log,
                ),
            r is Err ==> final(self).lua_host().global_sets() == old(self).lua_host().global_sets(),
            r is Ok ==> exists|log: Seq<HostCall>, sets: Seq<(Seq<char>, StashedTable)>|
                {
                    &&& final(self).lua_host().calls() == old(self).lua_host().calls() + log
                    &&& final(self).lua_host().global_sets() == old(self).lua_host().global_sets() + sets
                    &&& #[trigger] enable_effects(name@, log, sets)
                },
    {
        let i = match self.position(name) {
            None => return Err(quoted("Plugin '", name, "' not found")),
            Some(i) => i,
        };
        proof {
            lemma_lookup_at(self.plugins(), name@, i as int);
        }
        if self.plugins[i].enabled {
            return Err(quoted("Plugin '", name, "' is already enabled"));
        }
        self.run_plugin_file(i, name, source)
    }

    /// Runs the file of the plugin at position `i` (see `enable_with_source`).
    fn run_plugin_file(&mut self, i: usize, name: &str, source: Result<String, String>) -> (r: Result<(), String>)
        requires
            old(self).wf(),
            i < old(self).plugins().len(),
            old(self).plugins()[i as int].manifest.name == name@,
            !old(self).plugins()[i as int].enabled,
        ensures
            final(self).wf(),
            final(self).dir() == old(self).dir(),
            (outcome_view(r), final(self).plugins()) == enable_outcome(
                old(self).plugins(),
                name@,
                old(self).plugins()[i as int].file_path,
                text_result_view(source),
            ),
            source is Err ==> final(self).lua_host() == old(self).lua_host(),
            r is Err ==> final(self).lua_host().calls() == old(self).lua_host().calls(),
            r is Ok ==> exists|log: Seq<HostCall>|
                final(self).lua_host().calls() == old(self).lua_host().calls() + log && #[trigger] enable_log(
                    name@,
                    log,
                ),
            r is Err ==> final(self).lua_host().global_sets() == old(self).lua_host().global_sets(),
            r is Ok ==> exists|log: Seq<HostCall>, sets: Seq<(Seq<char>, StashedTable)>|
                {
                    &&& final(self).lua_host().calls() == old(self).lua_host().calls() + log
                    &&& final(self).lua_host().global_sets() == old(self).lua_host().global_sets() + sets
                    &&& #[trigger] enable_effects(name@, log, sets)
                },
    {
        let text = match source {
            Ok(t) => t,
            Err(e) => {
                let mut message = "Failed to read plugin: ".to_owned();
                message.append(e.as_str());
                return Err(message);
            },
        };
        let chunk = match file_name(self.plugins[i].file_path.as_str()) {
            Some(n) => n,
            None => "unknown".to_owned(),
        };
        let chunk_function = match self.host.compile(chunk.as_str(), text.as_str()) {
            Ok(f) => f,
            Err(e) => {
                let mut message = quoted("Failed to load plugin '", name, "': runtime error: Compile error: ");
                message.append(e.as_str());
                return Err(message);
            },
        };
        let ghost start = self.host.calls();
        let table = self.host.run_chunk(&chunk_function);
        let ghost mid = self.host.calls();
        let ghost sets_mid = self.host.global_sets();
        match &table {
            Some(t) => run_hooks(&mut self.host, name, t),
            None => {},
        }
        proof {
            let (d, e, g, st, o) = if table is Some {
                choose|d: LuaEntry, e: LuaEntry, g: Option<StashedTable>, st: StashedTable, o: Result<(), Seq<char>>|
                    storage_found(g, st) && self.host.calls() == mid + #[trigger] hooks_log(name@, table->0, d, e, g, st, o)
                        && self.host.global_sets() == sets_mid + hooks_sets(d, g, st)
            } else {
                (LuaEntry::Other, LuaEntry::Other, None, vstd::pervasive::arbitrary::<StashedTable>(), Ok(()))
            };
            let log = enable_log_by(name@, chunk_function, table, d, e, g, st, o);
            assert(self.host.calls() =~= start + log);
            assert(enable_log(name@, log));
            let sets = if table is Some {
                hooks_sets(d, g, st)
            } else {
                Seq::<(Seq<char>, StashedTable)>::empty()
            };
            assert(self.host.global_sets() =~= old(self).lua_host().global_sets() + sets);
            assert(enable_effects(name@, log, sets));
        }
        self.set_enabled(i, true);
        Ok(())
    }

    /// Enables the plugin named `name` (see `enable_with_source`), reading
    /// its file with `read_file` once the plugin is found and not yet enabled.
    pub fn enable_plugin<F: Fn(&String) -> Result<String, String>>(&mut self, name: &str, read_file: &F) -> (r: Result<(), String>)
        requires
            old(self).wf(),
            forall|p: &String| call_requires(*read_file, (p,)),
        ensures
            final(self).wf(),
            final(self).dir() == old(self).dir(),
            exists|source: Result<Seq<char>, Seq<char>>|
                {
                    &&& (outcome_view(r), final(self).plugins()) == enable_spec(
                        old(self).plugins(),
                        name@,
                        source,
                    )
                    &&& (lookup(old(self).plugins(), name@) matches Some(p) ==> (!p.enabled
                        ==> read_gave(*read_file, p.file_path, source)))
                    &&& (source is Err ==> final(self).lua_host() == old(self).lua_host())
                },
            !enable_reads(old(self).plugins(), name@) ==> final(self).lua_host()
                == old(self).lua_host(),
            r is Err ==> final(self).lua_host().calls() == old(self).lua_host().calls(),
            r is Ok ==> exists|log: Seq<HostCall>|
                final(self).lua_host().calls() == old(self).lua_host().calls() + log && #[trigger] enable_log(
                    name@,
                    log,
                ),
            r is Err ==> final(self).lua_host().global_sets() == old(self).lua_host().global_sets(),
            r is Ok ==> exists|log: Seq<HostCall>, sets: Seq<(Seq<char>, StashedTable)>|
                {
                    &&& final(self).lua_host().calls() == old(self).lua_host().calls() + log
                    &&& final(self).lua_host().global_sets() == old(self).lua_host().global_sets() + sets
                    &&& #[trigger] enable_effects(name@, log, sets)
                },
    {
        let source = match self.position(name) {
            Some(i) => {
                proof {
                    lemma_lookup_at(self.plugins(), name@, i as int);
                }
                if self.plugins[i].enabled {
                    Err(String::new())
                } else {
                    let path = self.plugins[i].file_path.clone();
                    let source = read_file(&path);
                    assert(read_gave(*read_file, self.plugins()[i as int].file_path, text_result_view(source)));
                    source
                }
            },
            None => Err(String::new()),
        };
        self.enable_with_source(name, source)
    }
}


/// The names of the registered plugins, in order.
pub open spec fn plugin_names(s: Seq<PluginInfoView>) -> Seq<Seq<char>> {
    s.map_values(|p: PluginInfoView| p.manifest.name)
}

/// Enabling `name` reads its file: the plugin is registered and not enabled.
pub open spec fn enable_reads(s: Seq<PluginInfoView>, name: Seq<char>) -> bool {
    has_plugin(s, name) && !lookup(s, name)->0.enabled
}

/// The registry after enabling the first `n` of `names` in turn, the `i`-th
/// with `sources[i]` as what reading its file gave.
pub open spec fn enabled_in_turn(
    s: Seq<PluginInfoView>,
    names: Seq<Seq<char>>,
    sources: Seq<Result<Seq<char>, Seq<char>>>,
    n: nat,
) -> Seq<PluginInfoView>
    decreases n,
{
    if n == 0 {
        s
    } else {
        enable_spec(
            enabled_in_turn(s, names, sources, (n - 1) as nat),
            names[n - 1],
            sources[n - 1],
        ).1
    }
}

/// Where enabling `name` in the registry `s` reads a file, reading it with
/// `read_file` can give `source`.
pub open spec fn read_in_step<F: Fn(&String) -> Result<String, String>>(
    read_file: F,
    s: Seq<PluginInfoView>,
    name: Seq<char>,
    source: Result<Seq<char>, Seq<char>>,
) -> bool {
    enable_reads(s, name) ==> read_gave(read_file, lookup(s, name)->0.file_path, source)
}

/// Each of `sources` is what `read_file` can give for the file that enabling
/// `names` in turn reads.
pub open spec fn reads_in_turn<F: Fn(&String) -> Result<String, String>>(
    read_file: F,
    s: Seq<PluginInfoView>,
    names: Seq<Seq<char>>,
    sources: Seq<Result<Seq<char>, Seq<char>>>,
) -> bool {
    forall|i: int|
        #![trigger sources[i]]
        0 <= i < sources.len() ==> read_in_step(
            read_file,
            enabled_in_turn(s, names, sources, i as nat),
            names[i],
            sources[i],
        )
}

/// What `reload_plugin` gives for `name`, once reading its file (where it
/// reads one) gave `source`.
pub open spec fn reload_spec(
    s: Seq<PluginInfoView>,
    name: Seq<char>,
    source: Result<Seq<char>, Seq<char>>,
) -> (Result<(), Seq<char>>, Seq<PluginInfoView>) {
    if has_plugin(s, name) && lookup(s, name)->0.enabled {
        enable_outcome(with_enabled(s, name, false), name, lookup(s, name)->0.file_path, source)
    } else {
        (Ok(()), s)
    }
}

/// The registry after reloading the first `n` of `names` in turn.
pub open spec fn reloaded_in_turn(
    s: Seq<PluginInfoView>,
    names: Seq<Seq<char>>,
    sources: Seq<Result<Seq<char>, Seq<char>>>,
    n: nat,
) -> Seq<PluginInfoView>
    decreases n,
{
    if n == 0 {
        s
    } else {
        reload_spec(
            reloaded_in_turn(s, names, sources, (n - 1) as nat),
            names[n - 1],
            sources[n - 1],
        ).1
    }
}

/// Where reloading `name` in the registry `s` reads a file, reading it with
/// `read_file` can give `source`.
pub open spec fn reload_read_in_step<F: Fn(&String) -> Result<String, String>>(
    read_file: F,
    s: Seq<PluginInfoView>,
    name: Seq<char>,
    source: Result<Seq<char>, Seq<char>>,
) -> bool {
    has_plugin(s, name) && lookup(s, name)->0.enabled ==> read_gave(
        read_file,
        lookup(s, name)->0.file_path,
        source,
    )
}

/// Each of `sources` is what `read_file` can give for the file that
/// reloading `names` in turn reads.
pub open spec fn reloads_in_turn<F: Fn(&String) -> Result<String, String>>(
    read_file: F,
    s: Seq<PluginInfoView>,
    names: Seq<Seq<char>>,
    sources: Seq<Result<Seq<char>, Seq<char>>>,
) -> bool {
    forall|i: int|
        #![trigger sources[i]]
        0 <= i < sources.len() ==> reload_read_in_step(
            read_file,
            reloaded_in_turn(s, names, sources, i as nat),
            names[i],
            sources[i],
        )
}

proof fn lemma_in_turn_prefix(
    s: Seq<PluginInfoView>,
    names: Seq<Seq<char>>,
    a: Seq<Result<Seq<char>, Seq<char>>>,
    b: Seq<Result<Seq<char>, Seq<char>>>,
    n: nat,
)
    requires
        n <= a.len(),
        n <= b.len(),
        forall|i: int| 0 <= i < n ==> a[i] == b[i],
    ensures
        enabled_in_turn(s, names, a, n) == enabled_in_turn(s, names, b, n),
    decreases n,
{
    if n > 0 {
        lemma_in_turn_prefix(s, names, a, b, (n - 1) as nat);
    }
}

proof fn lemma_reload_prefix(
    s: Seq<PluginInfoView>,
    names: Seq<Seq<char>>,
    a: Seq<Result<Seq<char>, Seq<char>>>,
    b: Seq<Result<Seq<char>, Seq<char>>>,
    n: nat,
)
    requires
        n <= a.len(),
        n <= b.len(),
        forall|i: int| 0 <= i < n ==> a[i] == b[i],
    ensures
        reloaded_in_turn(s, names, a, n) == reloaded_in_turn(s, names, b, n),
    decreases n,
{
    if n > 0 {
        lemma_reload_prefix(s, names, a, b, (n - 1) as nat);
    }
}

/// Disabling `name` may leave the registry as it was or disable that plugin;
/// nothing else changes.
proof fn lemma_disable_spec_shape(s: Seq<PluginInfoView>, name: Seq<char>)
    requires
        unique_names(s),
    ensures
        disable_spec(s, name).1 == s || (has_plugin(s, name) && disable_spec(s, name).1
            == with_enabled(s, name, false)),
{
}

/// `with_enabled` on a registered name changes only that plugin's status.
proof fn lemma_with_enabled_entry(s: Seq<PluginInfoView>, name: Seq<char>, enabled: bool, k: int)
    requires
        unique_names(s),
        0 <= k < s.len(),
    ensures
        unique_names(with_enabled(s, name, enabled)),
        same_plugins(with_enabled(s, name, enabled), s),
        with_enabled(s, name, enabled)[k].enabled == if s[k].manifest.name == name {
            enabled
        } else {
            s[k].enabled
        },
{
}

impl PluginRuntime {
    /// Disables the plugin named `name`: runs the `on_disable` function that
    /// enabling it kept (if any) and forgets it, as `disable_log` records.
    /// Fails, leaving the registry as
    /// it was, where no such plugin is registered or where it is not enabled.
    pub fn disable_plugin(&mut self, name: &str) -> (r: Result<(), String>)
        requires
            old(self).wf(),
        ensures
            final(self).wf(),
            final(self).dir() == old(self).dir(),
            (outcome_view(r), final(self).plugins()) == disable_spec(old(self).plugins(), name@),
            !disable_runs(old(self).plugins(), name@) ==> final(self).lua_host()
                == old(self).lua_host(),
            disable_runs(old(self).plugins(), name@) ==> exists|log: Seq<HostCall>|
                final(self).lua_host().calls() == old(self).lua_host().calls() + log && #[trigger] disable_log(
                    name@,
                    log,
                ),
            disable_runs(old(self).plugins(), name@) ==> exists|
                log: Seq<HostCall>,
                sets: Seq<(Seq<char>, StashedTable)>,
            |
                {
                    &&& final(self).lua_host().calls() == old(self).lua_host().calls() + log
                    &&& final(self).lua_host().global_sets() == old(self).lua_host().global_sets() + sets
                    &&& #[trigger] disable_effects(name@, log, sets)
                },
    {
        let i = match self.position(name) {
            None => return Err(quoted("Plugin '", name, "' not found")),
            Some(i) => i,
        };
        proof {
            lemma_lookup_at(self.plugins(), name@, i as int);
        }
        if !self.plugins[i].enabled {
            return Err(quoted("Plugin '", name, "' is not enabled"));
        }
        let ghost start = self.host.calls();
        let ghost sets0 = self.host.global_sets();
        let storage = storage_table(&mut self.host);
        let ghost g = choose|g: Option<StashedTable>|
            self.host.calls() == start.push(HostCall::Global("__plua_storage"@, g)) && storage_found(g, storage)
                && self.host.global_sets() == sets0 + #[trigger] storage_sets(g, storage);
        let key = disable_key(name);
        let stored = self.host.read(&storage, key.as_str());
        let ghost e = stored;
        let ghost mut o: Result<(), Seq<char>> = Ok(());
        match hook_in(stored) {
            Some(on_disable) => {
                self.host.store(&storage, key.as_str(), StoredValue::Nil);
                let r = self.host.call(&on_disable, None);
                proof {
                    o = outcome_view(r);
                }
            },
            None => {},
        }
        proof {
            let log = disable_log_by(name@, g, storage, e, o);
            assert(self.host.calls() =~= start + log);
            assert(disable_log(name@, log));
            assert(disable_effects(name@, log, storage_sets(g, storage)));
        }
        self.set_enabled(i, false);
        Ok(())
    }

    /// Disables every enabled plugin; the registry keeps all of them.
    pub fn disable_all_plugins(&mut self)
        requires
            old(self).wf(),
        ensures
            final(self).wf(),
            final(self).dir() == old(self).dir(),
            final(self).plugins() == all_disabled(old(self).plugins()),
            (forall|k: int| 0 <= k < old(self).plugins().len() ==> !old(self).plugins()[k].enabled)
                ==> final(self).lua_host() == old(self).lua_host(),
            exists|logs: Seq<Seq<HostCall>>|
                final(self).lua_host().calls() == old(self).lua_host().calls() + joined_logs(logs)
                    && #[trigger] disable_all_log(old(self).plugins(), logs),
            exists|logs: Seq<Seq<HostCall>>, setss: Seq<Seq<(Seq<char>, StashedTable)>>|
                {
                    &&& final(self).lua_host().calls() == old(self).lua_host().calls() + joined_logs(logs)
                    &&& final(self).lua_host().global_sets() == old(self).lua_host().global_sets()
                        + joined_sets(setss)
                    &&& #[trigger] disable_all_effects(old(self).plugins(), logs, setss)
                },
    {
        let ghost s0 = old(self).plugins();
        let ghost c0 = old(self).lua_host().calls();
        let ghost g0 = old(self).lua_host().global_sets();
        let ghost mut logs: Seq<Seq<HostCall>> = Seq::empty();
        let ghost mut setss: Seq<Seq<(Seq<char>, StashedTable)>> = Seq::empty();
        let mut i: usize = 0;
        while i < self.plugins.len()
            invariant
                i <= self.plugins.len(),
                self.wf(),
                self.dir() == old(self).dir(),
                s0 == old(self).plugins(),
                self.plugins().len() == s0.len(),
                (forall|k: int| 0 <= k < s0.len() ==> !s0[k].enabled) ==> self.lua_host()
                    == old(self).lua_host(),
                c0 == old(self).lua_host().calls(),
                logs.len() == i,
                self.lua_host().calls() == c0 + joined_logs(logs),
                forall|k: int| 0 <= k < i ==> disable_step(s0[k], #[trigger] logs[k]),
                g0 == old(self).lua_host().global_sets(),
                setss.len() == i,
                self.lua_host().global_sets() == g0 + joined_sets(setss),
                forall|k: int| 0 <= k < i ==> disable_effect_step(s0[k], logs[k], #[trigger] setss[k]),
                forall|k: int|
                    0 <= k < s0.len() ==> #[trigger] self.plugins()[k] == if k < i {
                        PluginInfoView { enabled: false, ..s0[k] }
                    } else {
                        s0[k]
                    },
            decreases self.plugins.len() - i,
        {
            let name = self.plugins[i].manifest.name.clone();
            let ghost before = self.plugins();
            let ghost calls_before = self.lua_host().calls();
            let ghost sets_before = self.lua_host().global_sets();
            proof {
                lemma_lookup_at(before, name@, i as int);
                lemma_disable_spec_shape(before, name@);
            }
            let _ = self.disable_plugin(name.as_str());
            proof {
                let log = if s0[i as int].enabled {
                    choose|log: Seq<HostCall>|
                        self.lua_host().calls() == calls_before + log && #[trigger] disable_log(name@, log)
                } else {
                    Seq::<HostCall>::empty()
                };
                assert(self.lua_host().calls() =~= calls_before + log);
                let sets = if s0[i as int].enabled {
                    let (l2, st2) = choose|l2: Seq<HostCall>, st2: Seq<(Seq<char>, StashedTable)>|
                        self.lua_host().calls() == calls_before + l2 && self.lua_host().global_sets() == sets_before
                            + st2 && #[trigger] disable_effects(name@, l2, st2);
                    assert(l2 =~= self.lua_host().calls().skip(calls_before.len() as int));
                    assert(log =~= self.lua_host().calls().skip(calls_before.len() as int));
                    st2
                } else {
                    Seq::<(Seq<char>, StashedTable)>::empty()
                };
                assert(self.lua_host().global_sets() =~= sets_before + sets);
                let old_setss = setss;
                setss = setss.push(sets);
                assert(setss.drop_last() =~= old_setss);
                assert(joined_sets(setss) == joined_sets(old_setss) + sets);
                assert(g0 + joined_sets(old_setss) + sets =~= g0 + joined_sets(setss));
                assert(disable_effect_step(s0[i as int], log, setss[i as int]));
                let old_logs = logs;
                logs = logs.push(log);
                assert(logs.drop_last() =~= old_logs);
                assert(joined_logs(logs) == joined_logs(old_logs) + log);
                assert(c0 + joined_logs(old_logs) + log =~= c0 + joined_logs(logs));
                assert(disable_step(s0[i as int], logs[i as int]));
                assert forall|k: int| 0 <= k < i + 1 implies disable_step(s0[k], #[trigger] logs[k]) by {
                    if k < i {
                        assert(logs[k] == old_logs[k]);
                    }
                }
                assert forall|k: int| 0 <= k < i + 1 implies disable_effect_step(s0[k], logs[k], #[trigger] setss[k]) by {
                    if k < i {
                        assert(logs[k] == old_logs[k]);
                        assert(setss[k] == old_setss[k]);
                    }
                }
                if self.plugins() != before {
                    lemma_with_enabled_at(before, name@, i as int, false);
                }
                assert forall|k: int| 0 <= k < s0.len() implies #[trigger] self.plugins()[k] == if k < i + 1 {
                    PluginInfoView { enabled: false, ..s0[k] }
                } else {
                    s0[k]
                } by {
                    if self.plugins() != before {
                        assert(self.plugins() == before.update(i as int, PluginInfoView { enabled: false, ..before[i as int] }));
                    } else {
                        assert(!before[i as int].enabled);
                    }
                }
            }
            i = i + 1;
        }
        assert(self.plugins() =~= all_disabled(s0));
        assert(disable_all_log(s0, logs));
        assert(disable_all_effects(s0, logs, setss));
    }

    /// Reloads the plugin named `name` if it is enabled: disables it, then
    /// enables it again, reading its file anew with `read_file`. A plugin that
    /// is not enabled, or not registered, is left alone, and that succeeds.
    pub fn reload_plugin<F: Fn(&String) -> Result<String, String>>(&mut self, name: &str, read_file: &F) -> (r: Result<(), String>)
        requires
            old(self).wf(),
            forall|p: &String| call_requires(*read_file, (p,)),
        ensures
            final(self).wf(),
            final(self).dir() == old(self).dir(),
            match lookup(old(self).plugins(), name@) {
                Some(p) if p.enabled => exists|source: Result<Seq<char>, Seq<char>>|
                    {
                        &&& read_gave(*read_file, p.file_path, source)
                        &&& (outcome_view(r), final(self).plugins()) == enable_outcome(
                            with_enabled(old(self).plugins(), name@, false),
                            name@,
                            p.file_path,
                            source,
                        )
                    },
                _ => r is Ok && final(self).plugins() == old(self).plugins()
                    && final(self).lua_host() == old(self).lua_host(),
            },
            disable_runs(old(self).plugins(), name@) ==> exists|unload: Seq<HostCall>, load: Seq<HostCall>|
                final(self).lua_host().calls() == old(self).lua_host().calls() + unload + load
                    && #[trigger] reload_log(name@, unload, load, r is Ok),
            disable_runs(old(self).plugins(), name@) ==> exists|
                unload: Seq<HostCall>,
                unload_sets: Seq<(Seq<char>, StashedTable)>,
                load: Seq<HostCall>,
                load_sets: Seq<(Seq<char>, StashedTable)>,
            |
                {
                    &&& final(self).lua_host().calls() == old(self).lua_host().calls() + unload + load
                    &&& final(self).lua_host().global_sets() == old(self).lua_host().global_sets()
                        + unload_sets + load_sets
                    &&& #[trigger] reload_effects(name@, unload, unload_sets, load, load_sets, r is Ok)
                },
    {
        let was_enabled = match self.position(name) {
            Some(i) => {
                proof {
                    lemma_lookup_at(self.plugins(), name@, i as int);
                }
                self.plugins[i].enabled
            },
            None => false,
        };
        if !was_enabled {
            return Ok(());
        }
        let ghost s0 = self.plugins();
        let ghost i0 = plugin_index(s0, name@);
        let ghost c0 = self.lua_host().calls();
        let ghost g0 = self.lua_host().global_sets();
        match self.disable_plugin(name) {
            Ok(()) => {},
            Err(e) => return Err(e),
        }
        let ghost c1 = self.lua_host().calls();
        let ghost unload = choose|log: Seq<HostCall>| c1 == c0 + log && #[trigger] disable_log(name@, log);
        let ghost (unload2, unload_sets) = choose|log: Seq<HostCall>, sets: Seq<(Seq<char>, StashedTable)>|
            c1 == c0 + log && self.lua_host().global_sets() == g0 + sets && #[trigger] disable_effects(name@, log, sets);
        let ghost g1 = self.lua_host().global_sets();
        proof {
            lemma_with_enabled_at(s0, name@, i0, false);
            lemma_lookup_at(self.plugins(), name@, i0);
        }
        let r = self.enable_plugin(name, read_file);
        proof {
            let load = if r is Ok {
                choose|log: Seq<HostCall>| self.lua_host().calls() == c1 + log && #[trigger] enable_log(name@, log)
            } else {
                Seq::<HostCall>::empty()
            };
            assert(self.lua_host().calls() =~= c0 + unload + load);
            assert(reload_log(name@, unload, load, r is Ok));
            let (load2, load_sets) = if r is Ok {
                choose|log: Seq<HostCall>, sets: Seq<(Seq<char>, StashedTable)>|
                    self.lua_host().calls() == c1 + log && self.lua_host().global_sets() == g1 + sets
                        && #[trigger] enable_effects(name@, log, sets)
            } else {
                (Seq::<HostCall>::empty(), Seq::<(Seq<char>, StashedTable)>::empty())
            };
            assert(unload2 == unload) by {
                assert(c1 == c0 + unload2);
                assert(unload2 =~= c1.skip(c0.len() as int));
                assert(unload =~= c1.skip(c0.len() as int));
            }
            assert(self.lua_host().calls() =~= c0 + unload2 + load2);
            assert(self.lua_host().global_sets() =~= g0 + unload_sets + load_sets);
            assert(reload_effects(name@, unload2, unload_sets, load2, load_sets, r is Ok));
        }
        r
    }

    /// Enables, in order, every plugin that `config` lists, reading each one's
    /// file with `read_file`; a plugin that cannot be enabled is passed over.
    /// The registry ends as enabling the listed names in turn leaves it, each
    /// with what reading its file gave. No plugin is disabled, and only listed
    /// plugins can become enabled.
    pub fn load_enabled_plugins<F: Fn(&String) -> Result<String, String>>(&mut self, config: &PLuaConfig, read_file: &F)
        requires
            old(self).wf(),
            forall|p: &String| call_requires(*read_file, (p,)),
        ensures
            final(self).wf(),
            final(self).dir() == old(self).dir(),
            exists|sources: Seq<Result<Seq<char>, Seq<char>>>|
                {
                    &&& sources.len() == config.names().len()
                    &&& final(self).plugins() == enabled_in_turn(
                        old(self).plugins(),
                        config.names(),
                        sources,
                        config.names().len(),
                    )
                    &&& reads_in_turn(*read_file, old(self).plugins(), config.names(), sources)
                },
            same_plugins(final(self).plugins(), old(self).plugins()),
            forall|k: int|
                0 <= k < old(self).plugins().len() ==> {
                    &&& old(self).plugins()[k].enabled ==> #[trigger] final(self).plugins()[k].enabled
                    &&& !config.names().contains(old(self).plugins()[k].manifest.name)
                        ==> final(self).plugins()[k].enabled == old(self).plugins()[k].enabled
                },
    {
        let ghost s0 = old(self).plugins();
        let ghost names = config.names();
        let ghost mut sources: Seq<Result<Seq<char>, Seq<char>>> = Seq::empty();
        let mut j: usize = 0;
        while j < config.enabled_plugins.len()
            invariant
                j <= config.enabled_plugins.len(),
                self.wf(),
                self.dir() == old(self).dir(),
                s0 == old(self).plugins(),
                names == config.names(),
                forall|p: &String| call_requires(*read_file, (p,)),
                sources.len() == j,
                self.plugins() == enabled_in_turn(s0, names, sources, j as nat),
                reads_in_turn(*read_file, s0, names, sources),
                same_plugins(self.plugins(), s0),
                forall|k: int|
                    0 <= k < s0.len() ==> {
                        &&& s0[k].enabled ==> #[trigger] self.plugins()[k].enabled
                        &&& !names.take(j as int).contains(s0[k].manifest.name)
                            ==> self.plugins()[k].enabled == s0[k].enabled
                    },
            decreases config.enabled_plugins.len() - j,
        {
            let ghost before = self.plugins();
            let ghost name = config.enabled_plugins@[j as int]@;
            let _ = self.enable_plugin(config.enabled_plugins[j].as_str(), read_file);
            proof {
                let source = choose|source: Result<Seq<char>, Seq<char>>|
                    {
                        &&& (#[trigger] enable_spec(before, name, source)).1 == self.plugins()
                        &&& (lookup(before, name) matches Some(p) ==> (!p.enabled ==> read_gave(
                            *read_file,
                            p.file_path,
                            source,
                        )))
                    };
                let old_sources = sources;
                sources = sources.push(source);
                lemma_in_turn_prefix(s0, names, old_sources, sources, j as nat);
                assert(names[j as int] == name);
                assert(self.plugins() == enabled_in_turn(s0, names, sources, (j + 1) as nat));
                assert forall|i: int| #![trigger sources[i]] 0 <= i < sources.len() implies read_in_step(
                    *read_file,
                    enabled_in_turn(s0, names, sources, i as nat),
                    names[i],
                    sources[i],
                ) by {
                    if i < j {
                        lemma_in_turn_prefix(s0, names, old_sources, sources, i as nat);
                        assert(old_sources[i] == sources[i]);
                    }
                }
                lemma_enable_spec_shape(before, name, source);
                assert(names.take(j as int + 1) =~= names.take(j as int).push(name));
                assert forall|k: int| 0 <= k < s0.len() implies {
                    &&& s0[k].enabled ==> #[trigger] self.plugins()[k].enabled
                    &&& !names.take(j as int + 1).contains(s0[k].manifest.name)
                        ==> self.plugins()[k].enabled == s0[k].enabled
                } by {
                    if self.plugins() != before {
                        lemma_with_enabled_entry(before, name, true, k);
                    }
                    if !names.take(j as int + 1).contains(s0[k].manifest.name) {
                        assert(!names.take(j as int).contains(s0[k].manifest.name)) by {
                            if names.take(j as int).contains(s0[k].manifest.name) {
                                let w = choose|w: int| 0 <= w < j && names.take(j as int)[w] == s0[k].manifest.name;
                                assert(names.take(j as int + 1)[w] == s0[k].manifest.name);
                            }
                        }
                        assert(s0[k].manifest.name != name) by {
                            assert(names.take(j as int + 1)[j as int] == name);
                        }
                    }
                }
                if self.plugins() != before {
                    assert forall|k: int| 0 <= k < self.plugins().len() implies self.plugins()[k].manifest == s0[k].manifest
                        && self.plugins()[k].file_path == s0[k].file_path by {
                        lemma_with_enabled_entry(before, name, true, k);
                    }
                }
            }
            j = j + 1;
        }
        assert(names.take(config.enabled_plugins.len() as int) =~= names);
    }

    /// Reloads every registered plugin in turn (see `reload_plugin`), reading
    /// files with `read_file`. The registry ends as reloading the plugins'
    /// names in turn leaves it, each with what reading its file gave. No
    /// plugin that was disabled becomes enabled.
    pub fn reload_all_plugins<F: Fn(&String) -> Result<String, String>>(&mut self, read_file: &F)
        requires
            old(self).wf(),
            forall|p: &String| call_requires(*read_file, (p,)),
        ensures
            final(self).wf(),
            final(self).dir() == old(self).dir(),
            exists|sources: Seq<Result<Seq<char>, Seq<char>>>|
                {
                    &&& sources.len() == old(self).plugins().len()
                    &&& final(self).plugins() == reloaded_in_turn(
                        old(self).plugins(),
                        plugin_names(old(self).plugins()),
                        sources,
                        old(self).plugins().len(),
                    )
                    &&& #[trigger] reloads_in_turn(
                        *read_file,
                        old(self).plugins(),
                        plugin_names(old(self).plugins()),
                        sources,
                    )
                },
            same_plugins(final(self).plugins(), old(self).plugins()),
            forall|k: int|
                0 <= k < old(self).plugins().len() && !old(self).plugins()[k].enabled
                    ==> !#[trigger] final(self).plugins()[k].enabled,
            (forall|k: int| 0 <= k < old(self).plugins().len() ==> !old(self).plugins()[k].enabled)
                ==> final(self).lua_host() == old(self).lua_host(),
    {
        let list = self.get_plugin_list();
        let ghost s0 = old(self).plugins();
        let ghost names = plugin_names(s0);
        let ghost mut sources: Seq<Result<Seq<char>, Seq<char>>> = Seq::empty();
        let mut j: usize = 0;
        while j < list.len()
            invariant
                j <= list.len(),
                list@.len() == s0.len(),
                forall|i: int| #![trigger list@[i]] 0 <= i < list@.len() ==> list@[i].0@ == names[i],
                names == plugin_names(s0),
                self.wf(),
                self.dir() == old(self).dir(),
                s0 == old(self).plugins(),
                forall|p: &String| call_requires(*read_file, (p,)),
                sources.len() == j,
                self.plugins() == reloaded_in_turn(s0, names, sources, j as nat),
                reloads_in_turn(*read_file, s0, names, sources),
                same_plugins(self.plugins(), s0),
                forall|k: int|
                    0 <= k < s0.len() && !s0[k].enabled ==> !#[trigger] self.plugins()[k].enabled,
                (forall|k: int| 0 <= k < s0.len() ==> !s0[k].enabled) ==> self.lua_host()
                    == old(self).lua_host(),
            decreases list.len() - j,
        {
            let ghost before = self.plugins();
            let ghost name = list@[j as int].0@;
            assert(name == names[j as int]);
            proof {
                if forall|k: int| 0 <= k < s0.len() ==> !s0[k].enabled {
                    assert(!self.plugins()[j as int].enabled);
                    lemma_lookup_at(before, name, j as int);
                }
            }
            let _ = self.reload_plugin(list[j].0.as_str(), read_file);
            proof {
                let source = if lookup(before, name) matches Some(p) && p.enabled {
                    choose|source: Result<Seq<char>, Seq<char>>|
                        {
                            &&& read_gave(*read_file, lookup(before, name)->0.file_path, source)
                            &&& (#[trigger] enable_outcome(
                                with_enabled(before, name, false),
                                name,
                                lookup(before, name)->0.file_path,
                                source,
                            )).1 == self.plugins()
                        }
                } else {
                    Err(Seq::empty())
                };
                let old_sources = sources;
                sources = sources.push(source);
                lemma_reload_prefix(s0, names, old_sources, sources, j as nat);
                assert(self.plugins() == reloaded_in_turn(s0, names, sources, (j + 1) as nat));
                assert forall|i: int| #![trigger sources[i]] 0 <= i < sources.len() implies reload_read_in_step(
                    *read_file,
                    reloaded_in_turn(s0, names, sources, i as nat),
                    names[i],
                    sources[i],
                ) by {
                    if i < j {
                        lemma_reload_prefix(s0, names, old_sources, sources, i as nat);
                        assert(old_sources[i] == sources[i]);
                    }
                }
                if lookup(before, name) matches Some(p) && p.enabled {
                    let i = plugin_index(before, name);
                    let mid = with_enabled(before, name, false);
                    lemma_with_enabled_at(before, name, i, false);
                    lemma_lookup_at(mid, name, i);
                    assert forall|k: int| 0 <= k < s0.len() && !s0[k].enabled implies !#[trigger] self.plugins()[k].enabled by {
                        lemma_with_enabled_entry(before, name, false, k);
                        lemma_with_enabled_entry(mid, name, true, k);
                    }
                    assert forall|k: int| 0 <= k < self.plugins().len() implies self.plugins()[k].manifest == s0[k].manifest
                        && self.plugins()[k].file_path == s0[k].file_path by {
                        lemma_with_enabled_entry(before, name, false, k);
                        lemma_with_enabled_entry(mid, name, true, k);
                    }
                }
            }
            j = j + 1;
        }
    }
}


/// After every plugin is disabled, none is enabled and every one is still
/// registered.
pub proof fn law_disable_all(s: Seq<PluginInfoView>)
    ensures
        same_plugins(all_disabled(s), s),
        forall|i: int| 0 <= i < s.len() ==> !(#[trigger] all_disabled(s)[i]).enabled,
{
}

/// Disabling a plugin right after enabling it succeeds and gives back the
/// registry as it was.
pub proof fn law_enable_then_disable(
    s: Seq<PluginInfoView>,
    name: Seq<char>,
    source: Result<Seq<char>, Seq<char>>,
)
    requires
        unique_names(s),
        enable_spec(s, name, source).0 is Ok,
    ensures
        disable_spec(enable_spec(s, name, source).1, name) == (Ok::<(), Seq<char>>(()), s),
{
    let i = plugin_index(s, name);
    lemma_with_enabled_at(s, name, i, true);
    let t = with_enabled(s, name, true);
    lemma_lookup_at(t, name, i);
    lemma_with_enabled_at(t, name, i, false);
    assert(with_enabled(t, name, false) =~= s);
}

/// Enabling a plugin right after disabling it, where its file reads and
/// compiles, succeeds and gives back the registry as it was.
pub proof fn law_disable_then_enable(s: Seq<PluginInfoView>, name: Seq<char>, text: Seq<char>)
    requires
        unique_names(s),
        disable_spec(s, name).0 is Ok,
        lua_compile_error(chunk_name(lookup(s, name)->0.file_path), text) is None,
    ensures
        enable_spec(disable_spec(s, name).1, name, Ok(text)) == (Ok::<(), Seq<char>>(()), s),
{
    let i = plugin_index(s, name);
    lemma_with_enabled_at(s, name, i, false);
    let t = with_enabled(s, name, false);
    lemma_lookup_at(t, name, i);
    lemma_with_enabled_at(t, name, i, true);
    assert(with_enabled(t, name, true) =~= s);
}

/// Enabling a plugin a second time, with what reading its file gave the
/// first time, gives what the first time gave and changes nothing more: a
/// repeated request adds nothing to the registry.
pub proof fn law_enable_twice(s: Seq<PluginInfoView>, name: Seq<char>, source: Result<Seq<char>, Seq<char>>)
    requires
        unique_names(s),
    ensures
        enable_spec(enable_spec(s, name, source).1, name, source).1 == enable_spec(s, name, source).1,
{
    if enable_spec(s, name, source).0 is Ok {
        let i = plugin_index(s, name);
        lemma_with_enabled_at(s, name, i, true);
        lemma_lookup_at(with_enabled(s, name, true), name, i);
    }
}

/// A refused request to enable or disable a plugin leaves the registry as it was.
pub proof fn law_refusal_changes_nothing(
    s: Seq<PluginInfoView>,
    name: Seq<char>,
    source: Result<Seq<char>, Seq<char>>,
)
    ensures
        enable_spec(s, name, source).0 is Err ==> enable_spec(s, name, source).1 == s,
        disable_spec(s, name).0 is Err ==> disable_spec(s, name).1 == s,
{
}

/// Enabling a plugin that is already enabled, or disabling one that is not,
/// is refused; so is either request for a plugin that is not registered.
pub proof fn law_refusals(s: Seq<PluginInfoView>, name: Seq<char>, source: Result<Seq<char>, Seq<char>>)
    ensures
        !has_plugin(s, name) ==> enable_spec(s, name, source).0 == Err::<(), Seq<char>>(
            not_found_message(name),
        ) && disable_spec(s, name).0 == Err::<(), Seq<char>>(not_found_message(name)),
        has_plugin(s, name) && lookup(s, name)->0.enabled ==> enable_spec(s, name, source).0
            == Err::<(), Seq<char>>(already_enabled_message(name)),
        has_plugin(s, name) && !lookup(s, name)->0.enabled ==> disable_spec(s, name).0
            == Err::<(), Seq<char>>(not_enabled_message(name)),
{
}

/// Enabling or disabling one plugin leaves every other plugin as it was, and
/// no two plugins come to share a name.
pub proof fn law_status_change_is_local(s: Seq<PluginInfoView>, name: Seq<char>, enabled: bool, k: int)
    requires
        unique_names(s),
        0 <= k < s.len(),
        s[k].manifest.name != name,
    ensures
        with_enabled(s, name, enabled)[k] == s[k],
        unique_names(with_enabled(s, name, enabled)),
{
    lemma_with_enabled_entry(s, name, enabled, k);
}

/// A plugin has an entry to show exactly where it is registered.
pub proof fn law_lookup_iff_registered(s: Seq<PluginInfoView>, name: Seq<char>)
    ensures
        lookup(s, name) is Some <==> has_plugin(s, name),
        lookup(s, name) matches Some(p) ==> p.manifest.name == name,
{
}

/// One enabling step keeps names unique, keeps the plugins, and keeps every
/// enabled plugin enabled.
proof fn lemma_enable_step(t: Seq<PluginInfoView>, name: Seq<char>, source: Result<Seq<char>, Seq<char>>, k: int)
    requires
        unique_names(t),
    ensures
        unique_names(enable_spec(t, name, source).1),
        same_plugins(enable_spec(t, name, source).1, t),
        0 <= k < t.len() && t[k].enabled ==> enable_spec(t, name, source).1[k].enabled,
{
    lemma_enable_spec_shape(t, name, source);
    if enable_spec(t, name, source).1 != t {
        lemma_with_enabled_at(t, name, plugin_index(t, name), true);
        if 0 <= k < t.len() {
            lemma_with_enabled_entry(t, name, true, k);
        }
    }
}

/// Enabling names in turn keeps names unique, keeps the plugins, and never
/// disables a plugin: what is enabled after `m` steps is enabled after `n >= m`.
proof fn lemma_in_turn_monotone(
    s: Seq<PluginInfoView>,
    names: Seq<Seq<char>>,
    sources: Seq<Result<Seq<char>, Seq<char>>>,
    m: nat,
    n: nat,
    k: int,
)
    requires
        unique_names(s),
        m <= n,
    ensures
        unique_names(enabled_in_turn(s, names, sources, n)),
        same_plugins(enabled_in_turn(s, names, sources, n), s),
        0 <= k < s.len() && enabled_in_turn(s, names, sources, m)[k].enabled ==> enabled_in_turn(
            s,
            names,
            sources,
            n,
        )[k].enabled,
    decreases n,
{
    if n > 0 {
        let before = enabled_in_turn(s, names, sources, (n - 1) as nat);
        if m < n {
            lemma_in_turn_monotone(s, names, sources, m, (n - 1) as nat, k);
        } else {
            lemma_in_turn_monotone(s, names, sources, 0, (n - 1) as nat, k);
        }
        lemma_enable_step(before, names[n - 1], sources[n - 1], k);
        let after = enabled_in_turn(s, names, sources, n);
        assert forall|q: int| 0 <= q < after.len() implies after[q].manifest == s[q].manifest
            && after[q].file_path == s[q].file_path by {
            assert(after[q].manifest == before[q].manifest);
        }
    }
}

/// Enabling in turn a name that was already enabled earlier in the list, with
/// what reading its file gave then, changes nothing: a configuration that
/// lists a plugin twice, whose file reads the same both times, enables what it
/// enables without the repetition.
pub proof fn law_repeated_name_adds_nothing(
    s: Seq<PluginInfoView>,
    names: Seq<Seq<char>>,
    sources: Seq<Result<Seq<char>, Seq<char>>>,
    i: nat,
    j: nat,
)
    requires
        unique_names(s),
        i < j,
        j < names.len(),
        j < sources.len(),
        names[i as int] == names[j as int],
        sources[i as int] == sources[j as int],
    ensures
        enabled_in_turn(s, names, sources, j + 1) == enabled_in_turn(s, names, sources, j),
{
    let x = names[j as int];
    let src = sources[j as int];
    let u = enabled_in_turn(s, names, sources, i);
    let v = enabled_in_turn(s, names, sources, i + 1);
    let w = enabled_in_turn(s, names, sources, j);
    assert(enabled_in_turn(s, names, sources, j + 1) == enable_spec(w, x, src).1);
    assert(v == enable_spec(u, x, src).1);
    if has_plugin(s, x) {
        let k = plugin_index(s, x);
        lemma_in_turn_monotone(s, names, sources, i, j, k);
        lemma_in_turn_monotone(s, names, sources, i + 1, j, k);
        lemma_in_turn_monotone(s, names, sources, 0, i, k);
        lemma_lookup_at(w, x, k);
        lemma_lookup_at(u, x, k);
        if !w[k].enabled {
            assert(!u[k].enabled);
            assert(!v[k].enabled);
            if enable_outcome(u, x, u[k].file_path, src).0 is Ok {
                lemma_with_enabled_at(u, x, k, true);
            }
        }
    } else {
        lemma_in_turn_monotone(s, names, sources, 0, j, 0);
        if has_plugin(w, x) {
            let q = plugin_index(w, x);
            assert(s[q].manifest.name == x);
        }
    }
}

/// The names of `names` up to `n`, each kept at its first place, with the
/// sources at those places.
pub open spec fn first_occurrences(
    names: Seq<Seq<char>>,
    sources: Seq<Result<Seq<char>, Seq<char>>>,
    n: nat,
) -> (Seq<Seq<char>>, Seq<Result<Seq<char>, Seq<char>>>)
    decreases n,
{
    if n == 0 {
        (Seq::empty(), Seq::empty())
    } else {
        let (a, b) = first_occurrences(names, sources, (n - 1) as nat);
        if a.contains(names[n - 1]) {
            (a, b)
        } else {
            (a.push(names[n - 1]), b.push(sources[n - 1]))
        }
    }
}

/// Enabling in turn depends only on the names and sources of the steps taken.
proof fn lemma_in_turn_agree(
    s: Seq<PluginInfoView>,
    names1: Seq<Seq<char>>,
    sources1: Seq<Result<Seq<char>, Seq<char>>>,
    names2: Seq<Seq<char>>,
    sources2: Seq<Result<Seq<char>, Seq<char>>>,
    n: nat,
)
    requires
        forall|i: int| 0 <= i < n ==> names1[i] == names2[i] && sources1[i] == sources2[i],
    ensures
        enabled_in_turn(s, names1, sources1, n) == enabled_in_turn(s, names2, sources2, n),
    decreases n,
{
    if n > 0 {
        lemma_in_turn_agree(s, names1, sources1, names2, sources2, (n - 1) as nat);
    }
}

proof fn lemma_first_occurrences(
    s: Seq<PluginInfoView>,
    names: Seq<Seq<char>>,
    sources: Seq<Result<Seq<char>, Seq<char>>>,
    n: nat,
)
    requires
        unique_names(s),
        n <= names.len(),
        names.len() == sources.len(),
        forall|i: int, j: int|
            0 <= i < j < names.len() && names[i] == names[j] ==> sources[i] == sources[j],
    ensures
        ({
            let (a, b) = first_occurrences(names, sources, n);
            &&& a.len() == b.len()
            &&& a.no_duplicates()
            &&& forall|x: Seq<char>| a.contains(x) <==> names.take(n as int).contains(x)
            &&& enabled_in_turn(s, a, b, a.len()) == enabled_in_turn(s, names, sources, n)
        }),
    decreases n,
{
    if n > 0 {
        lemma_first_occurrences(s, names, sources, (n - 1) as nat);
        let (a, b) = first_occurrences(names, sources, (n - 1) as nat);
        let x = names[n - 1];
        let prev = names.take(n - 1);
        let cur = names.take(n as int);
        assert(cur =~= prev.push(x));
        if a.contains(x) {
            assert(prev.contains(x));
            let i = choose|i: int| 0 <= i < n - 1 && prev[i] == x;
            assert(names[i] == x);
            law_repeated_name_adds_nothing(s, names, sources, i as nat, (n - 1) as nat);
            assert forall|y: Seq<char>| a.contains(y) <==> cur.contains(y) by {
                if cur.contains(y) {
                    let k = choose|k: int| 0 <= k < n && cur[k] == y;
                    if k < n - 1 {
                        assert(prev[k] == y);
                    }
                }
                if prev.contains(y) {
                    let k = choose|k: int| 0 <= k < n - 1 && prev[k] == y;
                    assert(cur[k] == y);
                }
            }
        } else {
            let a2 = a.push(x);
            let b2 = b.push(sources[n - 1]);
            lemma_in_turn_agree(s, a2, b2, a, b, a.len());
            assert(enabled_in_turn(s, a2, b2, a2.len()) == enable_spec(
                enabled_in_turn(s, a2, b2, a.len()),
                x,
                sources[n - 1],
            ).1);
            assert forall|y: Seq<char>| a2.contains(y) <==> cur.contains(y) by {
                if cur.contains(y) {
                    let k = choose|k: int| 0 <= k < n && cur[k] == y;
                    if k < n - 1 {
                        assert(prev[k] == y);
                        assert(a.contains(y));
                        let q = choose|q: int| 0 <= q < a.len() && a[q] == y;
                        assert(a2[q] == y);
                    } else {
                        assert(a2[a.len() as int] == y);
                    }
                }
                if a2.contains(y) {
                    let q = choose|q: int| 0 <= q < a2.len() && a2[q] == y;
                    if q < a.len() {
                        assert(a.contains(y));
                        assert(prev.contains(y));
                        let k = choose|k: int| 0 <= k < n - 1 && prev[k] == y;
                        assert(cur[k] == y);
                    } else {
                        assert(cur[n - 1] == y);
                    }
                }
            }
            assert(a2.no_duplicates()) by {
                assert forall|p: int, q: int| 0 <= p < a2.len() && 0 <= q < a2.len() && p != q implies a2[p] != a2[q] by {
                    if p < a.len() && q < a.len() {
                    } else if p == a.len() {
                        if a2[p] == a2[q] {
                            assert(a[q] == x);
                        }
                    } else {
                        if a2[p] == a2[q] {
                            assert(a[p] == x);
                        }
                    }
                }
            }
        }
    }
}

/// Enabling a configured list in turn leaves the registry as enabling the
/// same list with each repeated name dropped, where each file reads the same
/// every time: a configuration and its de-duplicated copy enable the same
/// plugins.
pub proof fn law_deduplicated_list_same_registry(
    s: Seq<PluginInfoView>,
    names: Seq<Seq<char>>,
    sources: Seq<Result<Seq<char>, Seq<char>>>,
)
    requires
        unique_names(s),
        names.len() == sources.len(),
        forall|i: int, j: int|
            0 <= i < j < names.len() && names[i] == names[j] ==> sources[i] == sources[j],
    ensures
        ({
            let (a, b) = first_occurrences(names, sources, names.len());
            &&& a.no_duplicates()
            &&& forall|x: Seq<char>| a.contains(x) <==> names.contains(x)
            &&& enabled_in_turn(s, a, b, a.len()) == enabled_in_turn(s, names, sources, names.len())
        }),
{
    lemma_first_occurrences(s, names, sources, names.len());
    assert(names.take(names.len() as int) =~= names);
}

/// The key and value of a store, if the call is one.
pub open spec fn store_of(c: HostCall) -> Option<(Seq<char>, StoredView)> {
    match c {
        HostCall::Stored(_, k, v) => Some((k, v)),
        _ => None,
    }
}

/// The key of a store, if the call is one.
pub open spec fn store_key(c: HostCall) -> Option<Seq<char>> {
    match c {
        HostCall::Stored(_, k, _) => Some(k),
        _ => None,
    }
}

/// The function that a read of `key` found, if the call is such a read and
/// found one.
pub open spec fn function_read(c: HostCall, key: Seq<char>) -> Option<StashedFunction> {
    match c {
        HostCall::Read(_, k, LuaEntry::Function(f)) => if k == key {
            Some(f)
        } else {
            None
        },
        _ => None,
    }
}

/// The call is a call of `f` with no arguments.
pub open spec fn calls_with_nothing(c: HostCall, f: StashedFunction) -> bool {
    c matches HostCall::Called(g, None, _) && g == f
}

/// The call stores the hook `f` under `key`.
pub open spec fn keeps_hook(c: HostCall, key: Seq<char>, f: StashedFunction) -> bool {
    c matches HostCall::Stored(_, k, StoredView::Hook(g)) && k == key && g == f
}

/// The globals set are at most one: the hook storage, created where no
/// storage table was found.
pub open spec fn sets_only_storage(log: Seq<HostCall>, sets: Seq<(Seq<char>, StashedTable)>) -> bool {
    &&& sets.len() <= 1
    &&& forall|j: int| 0 <= j < sets.len() ==> (#[trigger] sets[j]).0 == "__plua_storage"@
    &&& sets.len() == 1 ==> log.contains(HostCall::Global("__plua_storage"@, None))
}

/// Disabling the plugin `name` sets no global but the hook storage, and that
/// only where none was found (so `pumpkin` and every other global are left
/// alone); it stores only under `name`'s own key, and only nil there, so the
/// hook kept under every other plugin's key stays; it calls the function
/// found under `name`'s key, with no arguments, and no other function.
pub proof fn law_disable_touches_only_its_own_hook(
    name: Seq<char>,
    log: Seq<HostCall>,
    sets: Seq<(Seq<char>, StashedTable)>,
)
    requires
        disable_effects(name, log, sets),
    ensures
        sets_only_storage(log, sets),
        forall|i: int|
            0 <= i < log.len() && #[trigger] store_of(log[i]) is Some ==> store_of(log[i]) == Some(
                (disable_key_of(name), StoredView::Nil),
            ),
        forall|i: int|
            0 <= i < log.len() && (#[trigger] function_read(log[i], disable_key_of(name))) is Some
                ==> exists|j: int|
                i < j < log.len() && #[trigger] calls_with_nothing(
                    log[j],
                    function_read(log[i], disable_key_of(name))->0,
                ),
        forall|j: int|
            0 <= j < log.len() && #[trigger] log[j] is Called ==> exists|i: int|
                0 <= i < j && #[trigger] function_read(log[i], disable_key_of(name)) is Some
                    && calls_with_nothing(log[j], function_read(log[i], disable_key_of(name))->0),
{
    let (g, st, e, o) = choose|g: Option<StashedTable>, st: StashedTable, e: LuaEntry, o: Result<(), Seq<char>>|
        storage_found(g, st) && log == #[trigger] disable_log_by(name, g, st, e, o) && sets == storage_sets(g, st);
    let key = disable_key_of(name);
    match entry_function(e) {
        Some(f) => {
            assert(log =~= seq![
                HostCall::Global("__plua_storage"@, g),
                HostCall::Read(st, key, e),
                HostCall::Stored(st, key, StoredView::Nil),
                HostCall::Called(f, None, o),
            ]);
            assert(function_read(log[1], key) == Some(f));
            assert(calls_with_nothing(log[3], f));
        },
        None => {
            assert(log =~= seq![HostCall::Global("__plua_storage"@, g), HostCall::Read(st, key, e)]);
            assert(function_read(log[1], key) is None);
        },
    }
    if g is None {
        assert(log[0] == HostCall::Global("__plua_storage"@, None));
    }
}

/// Enabling the plugin `name` sets no global but the hook storage, and that
/// only where none was found (so `pumpkin` and every other global are left
/// alone); it stores only under `name`'s own key, so the hook kept under every
/// other plugin's key stays. The `on_disable` function that the plugin's
/// table gives is stored under `name`'s key, the `on_enable` function it gives
/// is called with no arguments, and no other function is called.
pub proof fn law_enable_touches_only_its_own_hook(
    name: Seq<char>,
    log: Seq<HostCall>,
    sets: Seq<(Seq<char>, StashedTable)>,
)
    requires
        enable_effects(name, log, sets),
    ensures
        sets_only_storage(log, sets),
        forall|i: int|
            0 <= i < log.len() && #[trigger] store_of(log[i]) is Some ==> store_key(log[i]) == Some(
                disable_key_of(name),
            ),
        forall|i: int|
            0 <= i < log.len() && (#[trigger] function_read(log[i], "on_disable"@)) is Some
                ==> exists|j: int|
                i < j < log.len() && #[trigger] keeps_hook(
                    log[j],
                    disable_key_of(name),
                    function_read(log[i], "on_disable"@)->0,
                ),
        forall|i: int|
            0 <= i < log.len() && (#[trigger] function_read(log[i], "on_enable"@)) is Some
                ==> exists|j: int|
                i < j < log.len() && #[trigger] calls_with_nothing(
                    log[j],
                    function_read(log[i], "on_enable"@)->0,
                ),
        forall|j: int|
            0 <= j < log.len() && #[trigger] log[j] is Called ==> exists|i: int|
                0 <= i < j && #[trigger] function_read(log[i], "on_enable"@) is Some
                    && calls_with_nothing(log[j], function_read(log[i], "on_enable"@)->0),
{
    let (chunk, returned, d, e, g, st, o) = choose|
        chunk: StashedFunction,
        returned: Option<StashedTable>,
        d: LuaEntry,
        e: LuaEntry,
        g: Option<StashedTable>,
        st: StashedTable,
        o: Result<(), Seq<char>>,
    |
        storage_found(g, st) && log == #[trigger] enable_log_by(name, chunk, returned, d, e, g, st, o)
            && sets == match returned {
            Some(_) => hooks_sets(d, g, st),
            None => Seq::empty(),
        };
    let key = disable_key_of(name);
    let ran = HostCall::Ran(chunk, returned);
    match returned {
        None => {
            assert(log =~= seq![ran]);
        },
        Some(t) => {
            let rd = HostCall::Read(t, "on_disable"@, d);
            let re = HostCall::Read(t, "on_enable"@, e);
            let gl = HostCall::Global("__plua_storage"@, g);
            reveal_strlit("on_enable");
            reveal_strlit("on_disable");
            assert("on_enable"@.len() != "on_disable"@.len());
            assert(function_read(rd, "on_enable"@) is None);
            assert(function_read(re, "on_disable"@) is None);
            match (entry_function(d), entry_function(e)) {
                (Some(fd), Some(fe)) => {
                    let kp = HostCall::Stored(st, key, StoredView::Hook(fd));
                    let cl = HostCall::Called(fe, None, o);
                    assert(log =~= seq![ran, rd, re, gl, kp, cl]);
                    assert(keeps_hook(log[4], key, fd));
                    assert(calls_with_nothing(log[5], fe));
                    assert(function_read(log[2], "on_enable"@) == Some(fe));
                    if g is None {
                        assert(log[3] == HostCall::Global("__plua_storage"@, None));
                    }
                },
                (Some(fd), None) => {
                    let kp = HostCall::Stored(st, key, StoredView::Hook(fd));
                    assert(log =~= seq![ran, rd, re, gl, kp]);
                    assert(keeps_hook(log[4], key, fd));
                    if g is None {
                        assert(log[3] == HostCall::Global("__plua_storage"@, None));
                    }
                },
                (None, Some(fe)) => {
                    let cl = HostCall::Called(fe, None, o);
                    assert(log =~= seq![ran, rd, re, cl]);
                    assert(calls_with_nothing(log[3], fe));
                    assert(function_read(log[2], "on_enable"@) == Some(fe));
                },
                (None, None) => {
                    assert(log =~= seq![ran, rd, re]);
                },
            }
        },
    }
}

/// Reloading the plugin `name` sets no global but the hook storage (so
/// `pumpkin` and every other global, and the listeners registered in it, are
/// left alone), and stores only under `name`'s own key.
pub proof fn law_reload_keeps_other_globals(
    name: Seq<char>,
    unload: Seq<HostCall>,
    unload_sets: Seq<(Seq<char>, StashedTable)>,
    load: Seq<HostCall>,
    load_sets: Seq<(Seq<char>, StashedTable)>,
    loaded: bool,
)
    requires
        reload_effects(name, unload, unload_sets, load, load_sets, loaded),
    ensures
        forall|j: int|
            0 <= j < (unload_sets + load_sets).len() ==> (#[trigger] (unload_sets + load_sets)[j]).0
                == "__plua_storage"@,
        forall|i: int|
            0 <= i < (unload + load).len() && #[trigger] store_of((unload + load)[i]) is Some
                ==> store_key((unload + load)[i]) == Some(disable_key_of(name)),
{
    law_disable_touches_only_its_own_hook(name, unload, unload_sets);
    if loaded {
        law_enable_touches_only_its_own_hook(name, load, load_sets);
    }
    assert forall|j: int| 0 <= j < (unload_sets + load_sets).len() implies (#[trigger] (unload_sets
        + load_sets)[j]).0 == "__plua_storage"@ by {
        if j < unload_sets.len() {
            assert((unload_sets + load_sets)[j] == unload_sets[j]);
        } else {
            assert((unload_sets + load_sets)[j] == load_sets[j - unload_sets.len()]);
        }
    }
    assert forall|i: int| 0 <= i < (unload + load).len() && #[trigger] store_of((unload + load)[i]) is Some implies store_key(
        (unload + load)[i],
    ) == Some(disable_key_of(name)) by {
        if i < unload.len() {
            assert((unload + load)[i] == unload[i]);
        } else {
            assert((unload + load)[i] == load[i - unload.len()]);
        }
    }
}

/// Disabling every plugin sets no global but the hook storage: `pumpkin`,
/// and every other global, are left alone.
pub proof fn law_disable_all_keeps_other_globals(
    s: Seq<PluginInfoView>,
    logs: Seq<Seq<HostCall>>,
    setss: Seq<Seq<(Seq<char>, StashedTable)>>,
)
    requires
        disable_all_effects(s, logs, setss),
    ensures
        forall|j: int|
            0 <= j < joined_sets(setss).len() ==> (#[trigger] joined_sets(setss)[j]).0 == "__plua_storage"@,
    decreases setss.len(),
{
    if setss.len() > 0 {
        let n = setss.len() - 1;
        assert(disable_all_effects(s.drop_last(), logs.drop_last(), setss.drop_last())) by {
            assert forall|i: int| 0 <= i < s.drop_last().len() implies disable_effect_step(
                s.drop_last()[i],
                logs.drop_last()[i],
                #[trigger] setss.drop_last()[i],
            ) by {
                assert(setss.drop_last()[i] == setss[i]);
                assert(disable_effect_step(s[i], logs[i], setss[i]));
            }
        }
        law_disable_all_keeps_other_globals(s.drop_last(), logs.drop_last(), setss.drop_last());
        assert(disable_effect_step(s[n], logs[n], setss[n]));
        if s[n].enabled {
            law_disable_touches_only_its_own_hook(s[n].manifest.name, logs[n], setss[n]);
        }
        let front = joined_sets(setss.drop_last());
        assert forall|j: int| 0 <= j < joined_sets(setss).len() implies (#[trigger] joined_sets(setss)[j]).0
            == "__plua_storage"@ by {
            if j < front.len() {
                assert(joined_sets(setss)[j] == front[j]);
            } else {
                assert(joined_sets(setss)[j] == setss[n][j - front.len()]);
            }
        }
    }
}

/// Registering a plugin keeps names unique, registers it under its name, and
/// keeps every other registered name.
proof fn lemma_inserted(s: Seq<PluginInfoView>, p: PluginInfoView, other: Seq<char>)
    requires
        unique_names(s),
    ensures
        unique_names(inserted(s, p)),
        lookup(inserted(s, p), p.manifest.name) == Some(p),
        has_plugin(s, other) ==> has_plugin(inserted(s, p), other),
{
    let t = inserted(s, p);
    if has_plugin(s, p.manifest.name) {
        let i = plugin_index(s, p.manifest.name);
        assert(unique_names(t));
        lemma_lookup_at(t, p.manifest.name, i);
        if has_plugin(s, other) {
            let j = plugin_index(s, other);
            assert(t[j].manifest.name == other);
        }
    } else {
        assert(unique_names(t));
        lemma_lookup_at(t, p.manifest.name, s.len() as int);
        if has_plugin(s, other) {
            let j = plugin_index(s, other);
            assert(t[j].manifest.name == other);
        }
    }
}

/// Discovery keeps names unique and never unregisters a plugin.
pub proof fn law_discovery_keeps(s: Seq<PluginInfoView>, paths: Seq<Seq<char>>, fields: Seq<FieldsView>, name: Seq<char>)
    requires
        unique_names(s),
    ensures
        unique_names(discovered(s, paths, fields)),
        has_plugin(s, name) ==> has_plugin(discovered(s, paths, fields), name),
    decreases paths.len(),
{
    if paths.len() > 0 {
        law_discovery_keeps(s, paths.drop_last(), fields, name);
        if is_plugin_file(paths.last()) {
            lemma_inserted(
                discovered(s, paths.drop_last(), fields),
                PluginInfoView { manifest: manifest_with(paths.last(), fields[paths.len() - 1]), file_path: paths.last(), enabled: false },
                name,
            );
        }
    }
}

/// The last plugin file that discovery meets is registered, disabled, under
/// the name its manifest gives, with the metadata that it gives.
pub proof fn law_discovery_registers(s: Seq<PluginInfoView>, paths: Seq<Seq<char>>, fields: Seq<FieldsView>)
    requires
        unique_names(s),
        paths.len() > 0,
        is_plugin_file(paths.last()),
    ensures
        ({
            let m = manifest_with(paths.last(), fields[paths.len() - 1]);
            lookup(discovered(s, paths, fields), m.name) == Some(
                PluginInfoView { manifest: m, file_path: paths.last(), enabled: false },
            )
        }),
{
    law_discovery_keeps(s, paths.drop_last(), fields, Seq::empty());
    lemma_inserted(
        discovered(s, paths.drop_last(), fields),
        PluginInfoView { manifest: manifest_with(paths.last(), fields[paths.len() - 1]), file_path: paths.last(), enabled: false },
        Seq::empty(),
    );
}

/// A plugin file that gives no metadata is registered as its file's stem,
/// with an empty description, version "1.0.0" and author "Unknown".
pub proof fn law_manifest_defaults(path: Seq<char>)
    ensures
        manifest_with(path, no_fields()) == manifest_for(path),
{
}

} // verus!
