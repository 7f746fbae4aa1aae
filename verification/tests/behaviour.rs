use monitor_ctrl::actions::{
    apply_input_readings, handle_hotkey_action, record_input, register_hotkeys, set_all_default,
};
use monitor_ctrl::config::{AppConfig, CycleHotkey, DirectHotkey, MonitorConfig};
use monitor_ctrl::ddc::DdcDisplay;
use monitor_ctrl::hotkeys::{on_key_message, HotkeyRegistry, KeyMessage, ModifierState};
use monitor_ctrl::tray::{build_menu, build_tooltip, handle_tray_action, monitor_icon_rgba, TrayAction};

fn s(x: &str) -> String {
    x.to_string()
}

fn pairs(v: &[(&str, u8)]) -> Vec<(String, u8)> {
    v.iter().map(|(l, c)| (l.to_string(), *c)).collect()
}

fn monitor(name: &str, default_input: Option<u8>) -> MonitorConfig {
    MonitorConfig { name: s(name), default_input, inputs: Vec::new(), hidden_inputs: Vec::new() }
}

fn display(index: usize, id: &str, model: Option<&str>, current: Option<u8>) -> DdcDisplay {
    DdcDisplay {
        index,
        backend_id: s(id),
        model_name: model.map(s),
        current_input: current,
        available_inputs: Vec::new(),
    }
}

fn two_monitor_config() -> AppConfig {
    let mut c = AppConfig::default();
    c.monitors.push((s("A"), monitor("Left", Some(0x11))));
    c.monitors.push((s("B"), monitor("", None)));
    c.cycle_hotkeys.push(CycleHotkey { monitor_id: s("A"), input_a: 0x12, input_b: 0x0F, hotkey: s("Shift+F3") });
    c.direct_hotkeys.push(DirectHotkey { monitor_id: s("B"), input: 0x1B, hotkey: s("Ctrl+Alt+1") });
    c
}

#[test]
fn default_config_is_empty() {
    let c = AppConfig::default();
    assert!(c.monitors.is_empty());
    assert!(c.hotkeys.bindings.is_empty());
    assert!(c.cycle_hotkeys.is_empty());
    assert!(c.direct_hotkeys.is_empty());
    assert!(!c.start_at_login);
}

#[test]
fn prune_stale_drops_panels_and_legacy_bindings() {
    let mut c = AppConfig::default();
    c.monitors.push((s("DISPLAY:LVDS-1"), monitor("laptop", None)));
    c.monitors.push((s("DELL"), monitor("Dell", Some(0x11))));
    c.monitors.push((s("card0:eDP-1"), monitor("panel", None)));
    c.hotkeys.bindings.push((s("mon1_17"), s("Ctrl+Alt+1")));
    c.hotkeys.bindings.push((s("all_default"), s("Ctrl+Alt+0")));
    c.prune_stale();
    assert_eq!(c.monitors.len(), 1);
    assert_eq!(c.monitors[0].0, "DELL");
    assert_eq!(c.hotkeys.bindings, vec![(s("all_default"), s("Ctrl+Alt+0"))]);
    c.prune_stale();
    assert_eq!(c.monitors.len(), 1);
    assert_eq!(c.hotkeys.bindings.len(), 1);
}

#[test]
fn monitor_mut_inserts_or_finds() {
    let mut c = two_monitor_config();
    {
        let m = c.monitor_mut("A");
        assert_eq!(m.name, "Left");
        m.name = s("Renamed");
    }
    assert_eq!(c.monitors[0].1.name, "Renamed");
    {
        let m = c.monitor_mut("C");
        assert_eq!(m.name, "");
        assert_eq!(m.default_input, None);
        m.default_input = Some(0x0F);
    }
    assert_eq!(c.monitors.len(), 3);
    assert_eq!(c.monitors[2].0, "C");
    assert_eq!(c.monitors[2].1.default_input, Some(0x0F));
}

#[test]
fn apply_defaults_plan() {
    let c = two_monitor_config();
    let ds = vec![display(0, "B", None, None), display(1, "A", None, Some(0x0F)), display(2, "Z", None, None)];
    assert_eq!(set_all_default(&c, &ds), vec![(1, 0x11)]);
    assert_eq!(handle_hotkey_action("all_default", &c, &ds), vec![(1, 0x11)]);
}

#[test]
fn direct_hotkey_action() {
    let c = two_monitor_config();
    let ds = vec![display(0, "A", None, None), display(1, "B", None, None)];
    assert_eq!(handle_hotkey_action("direct_0", &c, &ds), vec![(1, 0x1B)]);
    assert_eq!(handle_hotkey_action("direct_+0", &c, &ds), vec![(1, 0x1B)]);
    assert!(handle_hotkey_action("direct_1", &c, &ds).is_empty());
    assert!(handle_hotkey_action("direct_x", &c, &ds).is_empty());
    assert!(handle_hotkey_action("direct_", &c, &ds).is_empty());
    let only_a = vec![display(0, "A", None, None)];
    assert!(handle_hotkey_action("direct_0", &c, &only_a).is_empty());
}

#[test]
fn cycle_hotkey_alternates() {
    let c = two_monitor_config();
    let mut ds = vec![display(0, "A", None, Some(0x12))];
    let plan = handle_hotkey_action("cycle_0", &c, &ds);
    assert_eq!(plan, vec![(0, 0x0F)]);
    record_input(&mut ds, 0, 0x0F);
    assert_eq!(ds[0].current_input, Some(0x0F));
    let plan = handle_hotkey_action("cycle_0", &c, &ds);
    assert_eq!(plan, vec![(0, 0x12)]);
}

#[test]
fn cycle_hotkey_falls_back_to_default_then_first() {
    let mut c = two_monitor_config();
    let ds = vec![display(0, "A", None, Some(0x01))];
    assert_eq!(handle_hotkey_action("cycle_0", &c, &ds), vec![(0, 0x11)]);
    c.monitors[0].1.default_input = None;
    assert_eq!(handle_hotkey_action("cycle_0", &c, &ds), vec![(0, 0x12)]);
    let unknown = vec![display(0, "A", None, None)];
    assert_eq!(handle_hotkey_action("cycle_0", &c, &unknown), vec![(0, 0x12)]);
}

#[test]
fn legacy_monitor_actions() {
    let c = AppConfig::default();
    let ds = vec![display(0, "A", None, None), display(1, "B", None, None)];
    assert_eq!(handle_hotkey_action("mon2_17", &c, &ds), vec![(1, 17)]);
    assert_eq!(handle_hotkey_action("mon0_15", &c, &ds), vec![(0, 15)]);
    assert!(handle_hotkey_action("mon3_17", &c, &ds).is_empty());
    assert!(handle_hotkey_action("mon1_256", &c, &ds).is_empty());
    assert!(handle_hotkey_action("mon1", &c, &ds).is_empty());
    assert!(handle_hotkey_action("unknown", &c, &ds).is_empty());
}

#[test]
fn poll_readings_update_current_inputs() {
    let mut ds = vec![display(0, "A", None, Some(0x11)), display(1, "B", None, None)];
    assert!(!apply_input_readings(&mut ds, &vec![Some(0x11), None]));
    assert_eq!(ds[1].current_input, None);
    assert!(apply_input_readings(&mut ds, &vec![None, Some(0x0F)]));
    assert_eq!(ds[0].current_input, Some(0x11));
    assert_eq!(ds[1].current_input, Some(0x0F));
}

#[test]
fn registering_configured_hotkeys() {
    let mut c = two_monitor_config();
    c.hotkeys.bindings.push((s("all_default"), s("Ctrl+Alt+0")));
    c.hotkeys.bindings.push((s("unused"), s("")));
    c.cycle_hotkeys.push(CycleHotkey { monitor_id: s("B"), input_a: 1, input_b: 2, hotkey: s("Ctrl+Nope") });
    let mut reg = HotkeyRegistry::new();
    let failures = register_hotkeys(&mut reg, &c);
    let actions: Vec<&str> = reg.registrations.iter().map(|r| r.action.as_str()).collect();
    assert_eq!(actions, vec!["all_default", "cycle_0", "direct_0"]);
    assert_eq!(failures.len(), 1);
    assert_eq!(failures[0].0, "Ctrl+Nope");
    assert_eq!(failures[0].1, "cycle_1");
    assert_eq!(failures[0].2.message(), "unknown key: 'NOPE'");
    reg.unregister_all();
    assert!(reg.registrations.is_empty());
}

#[test]
fn keyboard_hook_fires_on_completed_combo() {
    let mut reg = HotkeyRegistry::new();
    assert!(reg.register("Ctrl+Alt+1", "all_default").is_ok());
    assert!(reg.register("Ctrl+Alt", "broken").is_err());
    assert_eq!(reg.registrations.len(), 1);
    let mut st = ModifierState { ctrl: false, shift: false, alt: false, win: false };
    assert_eq!(on_key_message(&mut st, KeyMessage::Down, 162, &reg), None);
    assert_eq!(on_key_message(&mut st, KeyMessage::Down, 18, &reg), None);
    assert!(st.ctrl && st.alt);
    assert_eq!(on_key_message(&mut st, KeyMessage::Down, 0x31, &reg), Some(s("all_default")));
    assert!(!st.ctrl && !st.alt && !st.shift && !st.win);
    assert_eq!(on_key_message(&mut st, KeyMessage::Down, 0x31, &reg), None);
    assert_eq!(on_key_message(&mut st, KeyMessage::Down, 17, &reg), None);
    assert_eq!(on_key_message(&mut st, KeyMessage::Up, 163, &reg), None);
    assert!(!st.ctrl);
    assert_eq!(on_key_message(&mut st, KeyMessage::Other, 91, &reg), None);
    assert!(!st.win);
}

#[test]
fn menu_sections_and_items() {
    let mut c = two_monitor_config();
    c.monitors[0].1.inputs = pairs(&[("Laptop", 0x1B), ("Desk", 0x0F), ("Console", 0x12)]);
    c.monitors[0].1.hidden_inputs = vec![0x12];
    let mut b = display(1, "B", Some("Generic PnP"), None);
    b.available_inputs = pairs(&[("HDMI-1", 0x11), ("DP-1", 0x0F)]);
    let ds = vec![display(0, "A", Some("Dell"), Some(0x0F)), b, display(2, "C", None, Some(0x11))];
    let menu = build_menu(&c, &ds);
    assert_eq!(menu.monitors.len(), 3);
    assert_eq!(menu.monitors[0].header, "Left — DP-1");
    let labels: Vec<&str> = menu.monitors[0].entries.iter().map(|e| e.label.as_str()).collect();
    assert_eq!(labels, vec!["Desk", "Laptop"]);
    assert!(menu.monitors[0].entries[0].checked);
    assert!(!menu.monitors[0].entries[1].checked);
    assert!(matches!(menu.monitors[0].entries[1].action, TrayAction::SwitchInput { monitor_idx: 0, input_code: 0x1B }));
    assert_eq!(menu.monitors[1].header, "Generic PnP — Unknown");
    let labels: Vec<&str> = menu.monitors[1].entries.iter().map(|e| e.label.as_str()).collect();
    assert_eq!(labels, vec!["HDMI-1", "DP-1"]);
    assert_eq!(menu.monitors[2].header, "C — HDMI-1");
    let labels: Vec<&str> = menu.monitors[2].entries.iter().map(|e| e.label.as_str()).collect();
    assert_eq!(labels, vec!["HDMI-1", "HDMI-2", "DP-1", "DP-2"]);
    assert!(menu.monitors[2].entries[0].checked);
    assert!(menu.apply_defaults.enabled);
    assert_eq!(menu.apply_defaults.label, "Apply Default Inputs");
    assert!(matches!(menu.apply_defaults.action, TrayAction::SetAllDefault));
    assert_eq!(menu.settings.label, "Settings...");
    assert!(menu.settings.enabled && matches!(menu.settings.action, TrayAction::OpenSettings));
    assert_eq!(menu.exit.label, "Exit");
    assert!(menu.exit.enabled && matches!(menu.exit.action, TrayAction::Exit));
}

#[test]
fn names_equal_to_the_id_are_not_shown() {
    let mut c = AppConfig::default();
    c.monitors.push((s("ID7"), monitor("  ID7 ", None)));
    let ds = vec![display(0, "ID7", Some("Model"), None)];
    let menu = build_menu(&c, &ds);
    assert_eq!(menu.monitors[0].header, "Model — Unknown");
    assert!(!menu.apply_defaults.enabled);
}

#[test]
fn tooltip_texts() {
    let c = two_monitor_config();
    assert_eq!(build_tooltip(&c, &Vec::new()), "Monitor Ctrl");
    let ds = vec![display(0, "A", Some("Dell"), Some(0x11)), display(1, "B", Some("Generic PnP"), Some(0x0F))];
    assert_eq!(build_tooltip(&c, &ds), "Monitor Ctrl\nLeft: HDMI-1 | Generic PnP: DP-1 ✓ defaults");
    let ds = vec![display(0, "A", Some("Dell"), Some(0x12))];
    assert_eq!(build_tooltip(&c, &ds), "Monitor Ctrl\nLeft: HDMI-2");
    let none = AppConfig::default();
    let ds = vec![display(0, "A", None, None)];
    assert_eq!(build_tooltip(&none, &ds), "Monitor Ctrl\nA: Unknown");
}

#[test]
fn tray_actions() {
    let c = two_monitor_config();
    let ds = vec![display(0, "A", None, None)];
    assert_eq!(handle_tray_action(&TrayAction::SwitchInput { monitor_idx: 0, input_code: 0x12 }, &c, &ds), vec![(0, 0x12)]);
    assert!(handle_tray_action(&TrayAction::SwitchInput { monitor_idx: 1, input_code: 0x12 }, &c, &ds).is_empty());
    assert_eq!(handle_tray_action(&TrayAction::SetAllDefault, &c, &ds), vec![(0, 0x11)]);
    assert!(handle_tray_action(&TrayAction::Exit, &c, &ds).is_empty());
    assert!(handle_tray_action(&TrayAction::OpenSettings, &c, &ds).is_empty());
}

#[test]
fn tray_icon_pixels() {
    let rgba = monitor_icon_rgba();
    assert_eq!(rgba.len(), 32 * 32 * 4);
    let px = |x: usize, y: usize| -> [u8; 4] {
        let p = (y * 32 + x) * 4;
        [rgba[p], rgba[p + 1], rgba[p + 2], rgba[p + 3]]
    };
    assert_eq!(px(0, 0), [0, 0, 0, 0]);
    assert_eq!(px(1, 1), [58, 58, 58, 255]);
    assert_eq!(px(3, 3), [12, 22, 38, 255]);
    assert_eq!(px(5, 5), [91, 164, 207, 255]);
    assert_eq!(px(5, 12), [26, 107, 154, 255]);
    assert_eq!(px(10, 12), [12, 22, 38, 255]);
    assert_eq!(px(15, 23), [78, 78, 78, 255]);
    assert_eq!(px(8, 27), [78, 78, 78, 255]);
    assert_eq!(px(31, 31), [0, 0, 0, 0]);
}
