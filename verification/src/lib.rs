//! The plugin manager of a Lua plugin host: the list of plugins that the
//! configuration keeps enabled, the registry of discovered plugins and their
//! life cycle, the event tables handed to Lua listeners and the replies of
//! the `/plua` command.
pub mod commands;
pub mod config;
pub mod events;
pub mod script;
