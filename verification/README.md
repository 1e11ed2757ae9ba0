# tianshu_bridge

The verified core of the Tianshu Bridge tray application (a Tauri desktop app
that starts and watches `local-bridge` processes, one per configured profile).

- `src/` — the library, verified with Verus:
  - `profile` — profiles, their defaults and identifiers, reading the
    configuration (with migration of the older single-profile file), lookup,
    and the bridge command line;
  - `logs` — the `[timestamp] text` log line format, log files, and the
    newest-first ordering shown by the log viewer;
  - `tray` — tray icon choice, tooltip, menu actions and the activity animation;
  - `activity` — sorting a bridge's output lines and reading its JSON activity reports;
  - `registry` — running bridges by profile identifier;
  - `paths` — where the application keeps its files;
  - `text`, `clock` — text handling and the wall clock.
- `app/` — the Tauri program around the library: files, processes, threads,
  windows and the tray itself.
- `tests/` — tests of the library.
