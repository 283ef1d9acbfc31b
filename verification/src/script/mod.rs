//! Lua plugins: their manifests, the registry of discovered plugins, and the
//! interpreter that runs them.
pub mod lua_host;
pub mod paths;
pub mod manifest;
pub mod runtime;
