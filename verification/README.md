# taskbar

A StatusNotifierItem system tray for the GNOME panel, with its decisions
verified by Verus.

- `src/` is the library: every decision the tray makes, as plain functions
  over plain data, each with a contract that Verus proves. `model` is the
  reducer that folds tray events into state and effects; `rules` orders and
  filters items; `icon` picks, scales, blends and encodes pixmaps; `menu`,
  `view` and `rebuild` model dbusmenu trees, their flat wire form and why it
  rebuilds into the same tree; `wire` decodes what tray applications send;
  `sni`, `config`, `settings` and `daemon` hold the item model, the
  preferences, the settings window's state machine and row decisions, and the
  daemon's small decisions. Building the settings window's widgets is not
  here: it needs GTK.
- `app/` is the daemon: the session bus, the config file and the async
  plumbing around the library. It owns `org.kde.StatusNotifierWatcher` and
  publishes `dev.taskbar.Daemon`. Beside it stands the settings window's D-Bus
  worker, which turns the window's calls into daemon calls.
- `tests/` runs the library on concrete values.

The only calls into other crates that the library makes are to the `png`
crate, for encoding and decoding icons, and to two std string functions; each
sits behind a small wrapper whose contract says what it claims of the call.
