# slip

Floating markdown notes for a Hyprland desktop.

- `src/` is the library, verified with Verus: the note index and its search, note titles,
  previews and file names, the config file and theme, window placement on the compositor and the compositor's JSON,
  and the small decisions the desktop process makes (launch actions, clipboard pastes,
  served assets). `src/laws.rs` states properties that span several functions.
- `app/` is the desktop process around it: files, the compositor, the control socket, the
  file watcher and the JSON channel to the editor.
- `tests/` runs the library on concrete values.
