# Lemonyde

An unofficial, community-made bootstrapper for Sober, the VinegarHQ flatpak
that runs Roblox on Linux: a GTK4 + libadwaita window to install, update and
launch Sober, edit its FastFlags and wrapper settings, replace its cursors,
and launch several isolated instances side by side.

## Layout

- `src/` is the `lemonyde` library, checked by Verus:
  - `text.rs` — trimming, the order of texts, string conversions;
  - `number.rs` — decimal integers, written and read back, and the syntax of
    decimal floating-point literals;
  - `keyed_map.rs` — a map with text keys kept in order (a JSON object);
  - `value.rs` — the values of `config.json`, how typed-in text becomes a
    value, how values are shown;
  - `editor.rs` — the FastFlag editor and wrapper settings, loading and
    saving `config.json`;
  - `slots.rs` — multi-instance launches, never twice into a running slot;
  - `paths.rs` — where Sober and the instance slots keep their files;
  - `flatpak.rs` — reading `flatpak ps` and `flatpak info`, the status texts;
  - `markup.rs` — slugs, SVG escaping and gradients of the headings;
  - `catalog.rs` — the known flags, presets and cursor images.
- `app/` is the program: windows, processes, files and JSON.
- `tests/` exercises the library.
