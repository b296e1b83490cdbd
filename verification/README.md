# ghost_shell

The verified core of a desktop shell for the Niri Wayland compositor, written
in Verus. Every executable function in `src/` carries a contract that Verus
proves; the public proof functions state what holds across calls.

## Layout

- `src/input/`: the single-line text input. `text.rs` converts between byte,
  UTF-16 and grapheme offsets; `state.rs` is the editing state machine (value,
  selection, IME composition, undo and redo); `editing.rs` holds the editing
  commands and platform queries; `laws.rs` states what every input keeps
  (secret inputs keep no history, disabled inputs take no edit, undo gives back
  an edit, a composition is one undo step, the value stays on one line).
- `src/shell.rs`: outputs of the shell, the primary and focused display, and
  the UUID that names an output. `src/bars.rs` plans which bars to open and close.
- `src/audio.rs`: audio endpoints, default devices and the connection to the
  sound server, as a state machine from updates to events.
  `src/audio_graph.rs`: the sound-server objects that the backend follows
  (nodes, devices and their routes, default metadata), where a mixer lives,
  what a removal leads to, and what default-metadata properties report.
- `src/tray.rs`, `src/tray_state.rs`, `src/watcher.rs`, `src/dbus_menu.rs`: the
  system tray: item identifiers, item state, the watcher's registry and the
  host that follows items, and exported menus.
- `src/menu.rs`: popup menus: keyboard navigation, confirmation, hover and
  how each item is drawn.
- `src/focus.rs`: tab navigation under a focus trap.
- `src/launcher.rs`, `src/search.rs`: the launcher's entries and the finder's
  results: queries, selection, spawn commands and the status line.
- `src/config.rs`, `src/ipc.rs`, `src/lock.rs`, `src/assets.rs`: configuration
  defaults and directories, the command-line protocol, session locking and the
  embedded assets.
- `app/`: the `ghost-shell` command line and the I/O around the library (IPC
  socket, configuration file, desktop entries, file index, clock).
- `tests/`: tests run against the compiled library.
