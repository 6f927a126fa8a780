# aw_watcher_steam

An ActivityWatch watcher for Steam activity, with its decisions verified by Verus.

- `src/` is the verified library: path components and the component-wise prefix
  test (`path`), decimal text of ids (`decimal`), the game cache that maps an
  executable to its installed game with longest-prefix matching (`steam`),
  events and aw-server addresses (`aw`), bucket names and heartbeats (`report`),
  Steam Web API addresses and replies (`api`), and the watcher's per-tick
  decisions (`watcher`).
- `app/` is the program around it: command line, configuration file, process
  scanning (sysinfo), Steam library discovery (steamlocate), HTTP (reqwest) and
  JSON (serde_json).
- `tests/` runs the library on concrete values.

Paths are read component by component in the platform's style, as
`std::path::Path` reads them: Unix paths split on `/`; Windows paths split on
`\` and `/` and may begin with a drive, UNC, device or verbatim prefix.
