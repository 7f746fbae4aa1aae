# monitor-ctrl

A Windows tray application that switches monitor inputs over DDC/CI, with
global hotkeys and a settings window. The logic is a Verus-verified library;
a thin program around it does the I/O.

## Layout

- `src/` — the verified library (`monitor_ctrl`):
  - `text.rs`, `numbers.rs` — character-level helpers and number reading and
    writing, each stated over `Seq<char>`.
  - `ddc.rs`, `caps.rs`, `inputs.rs` — input labels, the DDC capabilities
    string parser, ordering inputs by code.
  - `config.rs` — the configuration model (keyed vectors with distinct keys),
    pruning and get-or-insert.
  - `hotkeys.rs` — reading combos such as `Ctrl+Alt+F1`, the registry of
    bound combos, and the keyboard-hook decision per key event.
  - `actions.rs` — which switches a hotkey or a tray action asks for, and
    recording what the monitors report.
  - `tray.rs` — the tray menu, tooltip and icon as data.
  - `settings.rs` — the settings window's state and every edit it makes.
  - `monitors.rs` — the monitor record built from what Windows reports.
  - `laws.rs` — properties that relate several operations.
- `tests/` — tests on concrete values.
- `app/` — the program: Win32 message loop and keyboard hook, DDC calls,
  the tray icon, the egui settings window, `config.toml`, start at login.
