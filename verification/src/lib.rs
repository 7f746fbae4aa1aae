//! Input switching for DDC/CI monitors: the parsing, configuration rules,
//! hotkey handling and menu model, verified with Verus.

pub mod actions;
pub mod caps;
pub mod config;
pub mod ddc;
pub mod hotkeys;
pub mod inputs;
pub mod laws;
pub mod monitors;
pub mod numbers;
pub mod settings;
pub mod text;
pub mod tray;
