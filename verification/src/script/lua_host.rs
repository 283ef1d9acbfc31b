//! The calls that the plugin manager makes into the piccolo Lua interpreter,
//! and `LuaHost`, which makes them and keeps a record of them.
//!
//! The private functions here are trusted: Verus reads their contracts and
//! not their bodies. A Lua interpreter's heap is opaque to the library, so
//! most of these calls promise nothing of the values they hand back; what a
//! script does when it runs is decided by the script. Handles are looked up
//! with `try_fetch`, so a handle of another interpreter is passed over rather
//! than panicking, and code runs in fuel-bounded steps, at most `STEP_LIMIT`
//! of them, so every call returns. `LuaHost`'s methods are verified: each
//! records the call it made, with what came back.
use piccolo::{Closure, Executor, Function, Lua, StashedExecutor, StashedFunction, StashedTable, Value};
use vstd::prelude::*;

use crate::events::EventValue;
use crate::events::EventValue::{Boolean, Integer, Text};
use self::StoredValue::{Field, Hook, Nil};

verus! {

#[verifier::external_type_specification]
#[verifier::external_body]
pub struct ExLua(piccolo::Lua);

#[verifier::external_type_specification]
#[verifier::external_body]
pub struct ExStashedExecutor(piccolo::StashedExecutor);

#[verifier::external_type_specification]
#[verifier::external_body]
pub struct ExStashedTable(piccolo::StashedTable);

#[verifier::external_type_specification]
#[verifier::external_body]
pub struct ExStashedFunction(piccolo::StashedFunction);

/// `piccolo::Lua::core`: a fresh interpreter with the core standard library.
/// Nothing is stated of the interpreter.
pub assume_specification[ piccolo::Lua::core ]() -> Lua;

/// The `Debug` text of the error that piccolo's compiler (`Closure::load`)
/// reports for a chunk with this name and source, or `None` where the chunk
/// compiles. Compiling reads only the chunk's name and text.
pub uninterp spec fn lua_compile_error(chunk_name: Seq<char>, source: Seq<char>) -> Option<Seq<char>>;

/// `piccolo::Closure::load` of `source` as a chunk named `chunk_name`: the
/// compiled chunk as a function, or the compiler error's `Debug` text, exactly
/// where `lua_compile_error` names one.
#[verifier::external_body]
fn compile_chunk(lua: &mut Lua, chunk_name: &str, source: &str) -> (compiled: Result<StashedFunction, String>)
    ensures
        match compiled {
            Ok(_) => lua_compile_error(chunk_name@, source@) is None,
            Err(e) => lua_compile_error(chunk_name@, source@) == Some(e@),
        },
{
    lua.enter(|ctx| match Closure::load(ctx, Some(chunk_name), source.as_bytes()) {
        Ok(closure) => Ok(ctx.stash(Function::Closure(closure))),
        Err(e) => Err(format!("{:?}", e)),
    })
}

/// `piccolo::Executor::step` with `fuel` units of fuel: `true` where the
/// executor's code has stopped (returned or failed), `false` where the fuel ran
/// out first. Each call returns, since piccolo stops once the fuel is spent and
/// some progress is made. An executor of another interpreter counts as
/// stopped. Whether the code stops is not stated.
#[verifier::external_body]
fn step(lua: &mut Lua, executor: &StashedExecutor, fuel: i32) -> bool {
    lua.enter(|ctx| match ctx.registry().roots().try_fetch(&executor.0) {
        Ok(e) => e.step(ctx, &mut piccolo::Fuel::with(fuel)),
        Err(_) => true,
    })
}

/// `piccolo::Executor::take_result` of a finished executor, asking for one
/// value: the table it returned, if it returned a table (`None` also for an
/// executor of another interpreter). Which value a script returns is not
/// stated.
#[verifier::external_body]
fn returned_table(lua: &mut Lua, executor: &StashedExecutor) -> Option<StashedTable> {
    lua.enter(|ctx| match ctx.registry().roots().try_fetch(&executor.0).ok()?.take_result::<Value>(ctx) {
        Ok(Ok(Value::Table(t))) => Some(ctx.stash(t)),
        _ => None,
    })
}

/// What a table holds under a key, as far as the plugin manager tells it apart.
pub enum LuaEntry {
    Function(StashedFunction),
    Table(StashedTable),
    Text(String),
    Other,
}

/// `piccolo::Table::get` of the string key `key`, telling a function, a table
/// and a UTF-8 string apart from any other value (`Other` also for a table of
/// another interpreter), in the host's interpreter; the host records the read
/// with what it gave. What the table holds is not stated.
#[verifier::external_body]
fn table_get(host: &mut LuaHost, table: &StashedTable, key: &str) -> (entry: LuaEntry)
    ensures
        final(host).calls() == old(host).calls().push(HostCall::Read(*table, key@, entry)),
        final(host).global_sets() == old(host).global_sets(),
        final(host).started() == old(host).started(),
{
    host.lua.enter(|ctx| match ctx.registry().roots().try_fetch(&table.0) {
        Ok(t) => match t.get(ctx, piccolo::String::from_slice(&ctx, key.as_bytes())) {
            Value::Function(f) => LuaEntry::Function(ctx.stash(f)),
            Value::Table(t) => LuaEntry::Table(ctx.stash(t)),
            Value::String(s) => s.to_str().map_or(LuaEntry::Other, |t| LuaEntry::Text(t.to_string())),
            _ => LuaEntry::Other,
        },
        Err(_) => LuaEntry::Other,
    })
}

/// `piccolo::Context::get_global` of the string key `key`, keeping the value
/// only if it is a table, in the host's interpreter; the host records the read
/// with what it gave. What the globals hold is not stated.
#[verifier::external_body]
fn global_table(host: &mut LuaHost, key: &str) -> (table: Option<StashedTable>)
    ensures
        final(host).calls() == old(host).calls().push(HostCall::Global(key@, table)),
        final(host).global_sets() == old(host).global_sets(),
        final(host).started() == old(host).started(),
{
    host.lua.enter(|ctx| match ctx.get_global(piccolo::String::from_slice(&ctx, key.as_bytes())) {
        Value::Table(t) => Some(ctx.stash(t)),
        _ => None,
    })
}

/// `piccolo::Context::set_global` of the string key `key` to `table`, in the
/// host's interpreter; a failed store (piccolo refuses only nil and NaN keys),
/// and a table of another interpreter, are ignored. The host records the
/// global set; its effect on the interpreter is not stated.
#[verifier::external_body]
fn set_global_table(host: &mut LuaHost, key: &str, table: &StashedTable)
    ensures
        final(host).calls() == old(host).calls(),
        final(host).global_sets() == old(host).global_sets().push((key@, *table)),
        final(host).started() == old(host).started(),
{
    host.lua.enter(|ctx| {
        if let Ok(t) = ctx.registry().roots().try_fetch(&table.0) {
            ctx.set_global(piccolo::String::from_slice(&ctx, key.as_bytes()), *t).ok();
        }
    })
}

/// `piccolo::Table::new`: a fresh, empty table.
#[verifier::external_body]
fn new_table(lua: &mut Lua) -> StashedTable {
    lua.enter(|ctx| ctx.stash(piccolo::Table::new(&ctx)))
}

/// A value to store in a table.
pub enum StoredValue<'a> {
    Nil,
    Hook(&'a StashedFunction),
    Field(&'a EventValue),
}

/// `piccolo::Table::set` of the string key `key` to nil, a function, a
/// string, an integer or a boolean, in the host's interpreter; a failed store,
/// and a table or function of another interpreter, are ignored. The host
/// records the store; its effect on the interpreter is not stated.
#[verifier::external_body]
fn table_set(host: &mut LuaHost, table: &StashedTable, key: &str, value: StoredValue)
    ensures
        final(host).calls() == old(host).calls().push(HostCall::Stored(*table, key@, stored_view(value))),
        final(host).global_sets() == old(host).global_sets(),
        final(host).started() == old(host).started(),
{
    host.lua.enter(|ctx| {
        let roots = ctx.registry().roots();
        let v = match value {
            Nil => Value::Nil,
            Hook(StashedFunction::Closure(c)) => (*roots.try_fetch(&c.0).ok()?).into(),
            Hook(StashedFunction::Callback(c)) => (*roots.try_fetch(&c.0).ok()?).into(),
            Field(Text(s)) => ctx.intern(s.as_bytes()).into(),
            Field(Integer(i)) => (*i).into(),
            Field(Boolean(b)) => (*b).into(),
        };
        roots.try_fetch(&table.0).ok()?.set(ctx, key.to_owned(), v).ok()?;
        Some(())
    });
}

/// `piccolo::Table::iter` over a table's entries, giving for each value the
/// function it holds, or `None` where it holds no function (no entries for a
/// table of another interpreter), in the host's interpreter; the host records
/// the listing with what it gave. Which entries a table has, and in which
/// order they come, is not stated.
#[verifier::external_body]
fn table_entry_functions(host: &mut LuaHost, table: &StashedTable) -> (entries: Vec<Option<StashedFunction>>)
    ensures
        final(host).calls() == old(host).calls().push(HostCall::Listed(*table, entries@)),
        final(host).global_sets() == old(host).global_sets(),
        final(host).started() == old(host).started(),
{
    host.lua.enter(|ctx| match ctx.registry().roots().try_fetch(&table.0) {
        Ok(t) => t.iter().map(|(_, v)| match v { Value::Function(f) => Some(ctx.stash(f)), _ => None }).collect(),
        Err(_) => Vec::new(),
    })
}

/// `piccolo::Executor::start` of `function`, called with the table `argument`
/// or with no arguments, in the host's interpreter; `None` where the function
/// or the table belongs to another interpreter. The host records the start.
/// What the call will do is not stated.
#[verifier::external_body]
fn start_call(host: &mut LuaHost, function: &StashedFunction, argument: Option<&StashedTable>) -> (executor: Option<StashedExecutor>)
    ensures
        final(host).calls() == old(host).calls(),
        final(host).global_sets() == old(host).global_sets(),
        final(host).started() == old(host).started().push(
            (
                *function,
                match argument {
                    Some(t) => Some(*t),
                    None => None,
                },
            ),
        ),
{
    host.lua.enter(|ctx| {
        let roots = ctx.registry().roots();
        let f: Function = match function {
            StashedFunction::Closure(c) => (*roots.try_fetch(&c.0).ok()?).into(),
            StashedFunction::Callback(c) => (*roots.try_fetch(&c.0).ok()?).into(),
        };
        Some(match argument {
            Some(t) => ctx.stash(Executor::start(ctx, f, (*roots.try_fetch(&t.0).ok()?,))),
            None => ctx.stash(Executor::start(ctx, f, ())),
        })
    })
}

/// `piccolo::Executor::take_result` of a stopped executor, expecting no
/// values: an error comes back as its `Display` text, as does an executor of
/// another interpreter. Whether the code failed is not stated.
#[verifier::external_body]
fn take_unit_result(lua: &mut Lua, executor: &StashedExecutor) -> Result<(), String> {
    lua.enter(|ctx| match ctx.registry().roots().try_fetch(&executor.0) {
        Ok(e) => match e.take_result::<()>(ctx) {
            Ok(Ok(())) => Ok(()),
            Ok(Err(err)) => Err(err.to_string()),
            Err(err) => Err(err.to_string()),
        },
        Err(err) => Err(err.to_string()),
    })
}

/// A value stored in a table, as the record of calls shows it.
pub enum StoredView {
    Nil,
    Hook(StashedFunction),
    Field(EventValue),
}

/// The record of what a stored value is.
pub open spec fn stored_view(value: StoredValue) -> StoredView {
    match value {
        StoredValue::Nil => StoredView::Nil,
        StoredValue::Hook(f) => StoredView::Hook(*f),
        StoredValue::Field(v) => StoredView::Field(*v),
    }
}

/// The view of a `Result` whose error is text.
pub open spec fn outcome_view(r: Result<(), String>) -> Result<(), Seq<char>> {
    match r {
        Ok(()) => Ok(()),
        Err(e) => Err(e@),
    }
}

/// One call that the plugin manager made into its interpreter.
pub enum HostCall {
    /// The global under a key was read; the table it holds, if any.
    Global(Seq<char>, Option<StashedTable>),
    /// A table's entry under a key was read.
    Read(StashedTable, Seq<char>, LuaEntry),
    /// A value was stored in a table under a key.
    Stored(StashedTable, Seq<char>, StoredView),
    /// A table's entries were listed, as the functions they hold.
    Listed(StashedTable, Seq<Option<StashedFunction>>),
    /// A chunk was run for the table it returns; the table, if it returned
    /// one within its step budget.
    Ran(StashedFunction, Option<StashedTable>),
    /// A function was called with an optional table as its argument, with the
    /// outcome of the call.
    Called(StashedFunction, Option<StashedTable>, Result<(), Seq<char>>),
}

/// How many times code may be stepped before it is given up on.
pub const STEP_LIMIT: u32 = 10000;

/// The fuel of one step.
pub const STEP_FUEL: i32 = 4096;

/// Steps `executor` until its code stops, at most `STEP_LIMIT` times: whether
/// it stopped.
fn run_bounded(lua: &mut Lua, executor: &StashedExecutor) -> bool {
    let mut n: u32 = 0;
    while n < STEP_LIMIT
        decreases STEP_LIMIT - n,
    {
        if step(lua, executor, STEP_FUEL) {
            return true;
        }
        n = n + 1;
    }
    false
}

/// A Lua interpreter together with the record of the calls that the plugin
/// manager made into it: globals and table entries read, values stored,
/// tables listed, chunks run and functions called, in order.
pub struct LuaHost {
    lua: Lua,
    calls: Ghost<Seq<HostCall>>,
    sets: Ghost<Seq<(Seq<char>, StashedTable)>>,
    starts: Ghost<Seq<(StashedFunction, Option<StashedTable>)>>,
}

impl LuaHost {
    /// The interpreter.
    pub closed spec fn interpreter(&self) -> Lua {
        self.lua
    }

    /// The calls made so far, in order.
    pub closed spec fn calls(&self) -> Seq<HostCall> {
        self.calls@
    }

    /// The functions started so far, in order, each with its argument.
    pub closed spec fn started(&self) -> Seq<(StashedFunction, Option<StashedTable>)> {
        self.starts@
    }

    /// The globals set so far, in order: each key with the table it was set to.
    pub closed spec fn global_sets(&self) -> Seq<(Seq<char>, StashedTable)> {
        self.sets@
    }

    /// A fresh interpreter with piccolo's core library, and no calls yet.
    pub fn new() -> (host: Self)
        ensures
            host.calls() == Seq::<HostCall>::empty(),
            host.global_sets() == Seq::<(Seq<char>, StashedTable)>::empty(),
            host.started() == Seq::<(StashedFunction, Option<StashedTable>)>::empty(),
    {
        LuaHost {
            lua: Lua::core(),
            calls: Ghost(Seq::empty()),
            sets: Ghost(Seq::empty()),
            starts: Ghost(Seq::empty()),
        }
    }

    /// The interpreter itself, for what the plugin manager does not record.
    pub fn lua(&mut self) -> (lua: &mut Lua)
        ensures
            *lua == old(self).interpreter(),
            final(self).interpreter() == *final(lua),
            final(self).calls() == old(self).calls(),
            final(self).global_sets() == old(self).global_sets(),
            final(self).started() == old(self).started(),
    {
        &mut self.lua
    }

    /// Compiles `source` as the chunk `chunk` (see `compile_chunk`).
    pub fn compile(&mut self, chunk: &str, source: &str) -> (compiled: Result<StashedFunction, String>)
        ensures
            final(self).calls() == old(self).calls(),
            match compiled {
                Ok(_) => lua_compile_error(chunk@, source@) is None,
                Err(e) => lua_compile_error(chunk@, source@) == Some(e@),
            },
            final(self).global_sets() == old(self).global_sets(),
            final(self).started() == old(self).started(),
    {
        compile_chunk(&mut self.lua, chunk, source)
    }

    /// The table held by the global `key`, if it holds one.
    pub fn global(&mut self, key: &str) -> (table: Option<StashedTable>)
        ensures
            final(self).calls() == old(self).calls().push(HostCall::Global(key@, table)),
            final(self).global_sets() == old(self).global_sets(),
            final(self).started() == old(self).started(),
    {
        global_table(self, key)
    }

    /// Makes the global `key` hold `table`.
    pub fn set_global(&mut self, key: &str, table: &StashedTable)
        ensures
            final(self).calls() == old(self).calls(),
            final(self).global_sets() == old(self).global_sets().push((key@, *table)),
            final(self).started() == old(self).started(),
    {
        set_global_table(self, key, table)
    }

    /// A fresh, empty table.
    pub fn new_table(&mut self) -> (table: StashedTable)
        ensures
            final(self).calls() == old(self).calls(),
            final(self).global_sets() == old(self).global_sets(),
            final(self).started() == old(self).started(),
    {
        new_table(&mut self.lua)
    }

    /// The entry of `table` under `key`.
    pub fn read(&mut self, table: &StashedTable, key: &str) -> (entry: LuaEntry)
        ensures
            final(self).calls() == old(self).calls().push(HostCall::Read(*table, key@, entry)),
            final(self).global_sets() == old(self).global_sets(),
            final(self).started() == old(self).started(),
    {
        table_get(self, table, key)
    }

    /// Stores `value` in `table` under `key`.
    pub fn store(&mut self, table: &StashedTable, key: &str, value: StoredValue)
        ensures
            final(self).calls() == old(self).calls().push(HostCall::Stored(*table, key@, stored_view(value))),
            final(self).global_sets() == old(self).global_sets(),
            final(self).started() == old(self).started(),
    {
        table_set(self, table, key, value)
    }

    /// The entries of `table`, as the functions they hold.
    pub fn list_functions(&mut self, table: &StashedTable) -> (entries: Vec<Option<StashedFunction>>)
        ensures
            final(self).calls() == old(self).calls().push(HostCall::Listed(*table, entries@)),
            final(self).global_sets() == old(self).global_sets(),
            final(self).started() == old(self).started(),
    {
        table_entry_functions(self, table)
    }

    /// Runs `chunk` with no arguments, for at most its step budget, and gives
    /// the table it returned, if it returned one in time.
    pub fn run_chunk(&mut self, chunk: &StashedFunction) -> (table: Option<StashedTable>)
        ensures
            final(self).calls() == old(self).calls().push(HostCall::Ran(*chunk, table)),
            final(self).global_sets() == old(self).global_sets(),
            final(self).started() == old(self).started().push((*chunk, None)),
    {
        let table = match start_call(self, chunk, None) {
            Some(executor) => {
                if run_bounded(&mut self.lua, &executor) {
                    returned_table(&mut self.lua, &executor)
                } else {
                    None
                }
            },
            None => None,
        };
        self.calls = Ghost(self.calls@.push(HostCall::Ran(*chunk, table)));
        table
    }

    /// Calls `function` with `argument` (or with no arguments) and runs it
    /// for at most its step budget: `Ok` where it returned, else its error,
    /// or `unfinished_message` where it did not stop in time.
    pub fn call(&mut self, function: &StashedFunction, argument: Option<&StashedTable>) -> (outcome: Result<(), String>)
        ensures
            final(self).calls() == old(self).calls().push(
                HostCall::Called(
                    *function,
                    match argument {
                        Some(t) => Some(*t),
                        None => None,
                    },
                    outcome_view(outcome),
                ),
            ),
            final(self).global_sets() == old(self).global_sets(),
            final(self).started() == old(self).started().push(
                (
                    *function,
                    match argument {
                        Some(t) => Some(*t),
                        None => None,
                    },
                ),
            ),
    {
        let outcome = match start_call(self, function, argument) {
            Some(executor) => {
                if run_bounded(&mut self.lua, &executor) {
                    take_unit_result(&mut self.lua, &executor)
                } else {
                    Err("script did not finish within its step budget".to_owned())
                }
            },
            None => Err("the function belongs to another interpreter".to_owned()),
        };
        let ghost arg = match argument {
            Some(t) => Some(*t),
            None => None,
        };
        self.calls = Ghost(self.calls@.push(HostCall::Called(*function, arg, outcome_view(outcome))));
        outcome
    }
}

} // verus!
