# plua

A Lua plugin host for the Pumpkin Minecraft server, with its plugin manager
verified by Verus.

- `src/` is the verified library: the configuration's list of enabled
  plugins (`config`), the plugin registry and its life cycle (`script`), the
  event tables handed to Lua listeners and their dispatch (`events`), and the
  replies of the `/plua` command (`commands`). Calls into the piccolo Lua
  interpreter and into `std::path` stand behind the trusted items of
  `script/lua_host.rs` and `script/paths.rs`.
- `app/` is the plugin itself: it reads and writes files, installs the
  `pumpkin` API table in the interpreter, and connects server events and the
  `/plua` command to the library.
- `tests/` runs the library against the real interpreter.
