use monitor_ctrl::config::{AppConfig, CycleHotkey, DirectHotkey, MonitorConfig};
use monitor_ctrl::ddc::DdcDisplay;
use monitor_ctrl::hotkeys::parse_combo;
use monitor_ctrl::settings::{
    add_input_row, build_input_edits, display_name_of, has_unknown_inputs, label_of, label_or,
    monitor_metas, set_input_visible,
    settings_outcome, HotkeyCapture, InputEdit, KeyPress, MonitorMeta, SettingsApp, SettingsMsg,
    SettingsOutcome,
};

fn s(x: &str) -> String {
    x.to_string()
}

fn pairs(v: &[(&str, u8)]) -> Vec<(String, u8)> {
    v.iter().map(|(l, c)| (l.to_string(), *c)).collect()
}

fn meta(id: &str, inputs: &[(&str, u8)]) -> MonitorMeta {
    MonitorMeta { backend_id: s(id), display_name: format!("{id} model"), available_inputs: pairs(inputs) }
}

fn app(config: AppConfig, monitors: Vec<MonitorMeta>) -> SettingsApp {
    let (tx, _rx) = std::sync::mpsc::channel();
    SettingsApp::new(config, monitors, tx, s("exit"))
}

fn rows(edits: &[InputEdit]) -> Vec<(String, u8, String)> {
    edits.iter().map(|e| (e.label.clone(), e.code, e.hex_str.clone())).collect()
}

#[test]
fn initial_rows_come_from_config_then_ddc_then_standard() {
    let mut c = AppConfig::default();
    c.monitors.push((s("A"), MonitorConfig {
        name: s("Left"),
        default_input: None,
        inputs: pairs(&[("Laptop", 0x1B), ("Desk", 0x0F)]),
        hidden_inputs: Vec::new(),
    }));
    let e = build_input_edits(&c, &meta("A", &[("HDMI-1", 0x11), ("HDMI-2", 0x12)]));
    assert_eq!(rows(&e), vec![(s("Desk"), 0x0F, s("0x0F")), (s("Laptop"), 0x1B, s("0x1B"))]);
    let e = build_input_edits(&c, &meta("B", &[("HDMI-2", 0x12), ("HDMI-1", 0x11)]));
    assert_eq!(rows(&e), vec![(s("HDMI-1"), 0x11, s("0x11")), (s("HDMI-2"), 0x12, s("0x12"))]);
    let e = build_input_edits(&c, &meta("B", &[("HDMI-1", 0x11)]));
    assert_eq!(e.len(), 29);
    assert_eq!(rows(&e[..1]), vec![(s("VGA-1"), 0x01, s("0x01"))]);
}

#[test]
fn new_window_state() {
    let mut c = AppConfig::default();
    c.cycle_hotkeys.push(CycleHotkey { monitor_id: s("A"), input_a: 1, input_b: 2, hotkey: s("") });
    let a = app(c, vec![meta("A", &[]), meta("B", &[("X", 0x31), ("Y", 0x30)])]);
    assert_eq!(a.input_edits.len(), 2);
    assert_eq!(a.input_edits[1].0, "B");
    assert_eq!(a.input_edits[1].1[0].label, "Y");
    assert_eq!(a.cycle_hotkey_errors, vec![s("")]);
    assert!(a.direct_hotkey_errors.is_empty());
    assert_eq!(a.captures_cycle.len(), 1);
    assert!(!a.capture_general.listening);
    assert!(a.hotkey_errors.is_empty());
    assert_eq!(a.exit_item_id, "exit");
}

#[test]
fn inputs_offered_for_a_monitor() {
    let a = app(AppConfig::default(), vec![meta("B", &[("X", 0x31), ("Y", 0x30)])]);
    assert_eq!(a.inputs_for("B"), pairs(&[("Y", 0x30), ("X", 0x31)]));
    assert_eq!(a.inputs_for("Q").len(), 29);
}

#[test]
fn checking_hotkeys_gates_saving() {
    let mut c = AppConfig::default();
    c.hotkeys.bindings.push((s("all_default"), s("Ctrl+Alt+0")));
    c.cycle_hotkeys.push(CycleHotkey { monitor_id: s("A"), input_a: 1, input_b: 2, hotkey: s("Ctrl+Q+") });
    c.direct_hotkeys.push(DirectHotkey { monitor_id: s("A"), input: 1, hotkey: s("") });
    let mut a = app(c, Vec::new());
    a.validate_hotkeys();
    assert!(a.hotkey_errors.is_empty());
    assert_eq!(a.cycle_hotkey_errors, vec![s("unknown key: ''")]);
    assert_eq!(a.direct_hotkey_errors, vec![s("")]);
    assert!(!a.can_save());
    a.config.cycle_hotkeys[0].hotkey = s("Ctrl+Q");
    a.config.hotkeys.bindings[0].1 = s("Alt");
    a.validate_hotkeys();
    assert_eq!(a.hotkey_errors, vec![(s("all_default"), s("no key code in hotkey: 'Alt'"))]);
    assert!(!a.can_save());
    a.config.hotkeys.bindings[0].1 = s("");
    a.validate_hotkeys();
    assert!(a.can_save());
}

#[test]
fn capture_writes_combos_that_read_back() {
    let mut cap = HotkeyCapture { listening: true };
    let mut combo = s("old");
    assert!(!cap.on_key(&KeyPress::Letter(0), true, false, false, &mut combo));
    assert!(cap.listening);
    assert!(cap.on_key(&KeyPress::Letter(0), true, true, false, &mut combo));
    assert_eq!(combo, "Ctrl+Alt+A");
    assert!(!cap.listening);
    let c = parse_combo(&combo).ok().unwrap();
    assert_eq!((c.vk, c.ctrl, c.alt, c.shift, c.win), (0x41, true, true, false, false));
    let mut cap = HotkeyCapture { listening: true };
    assert!(cap.on_key(&KeyPress::Function(3), false, false, true, &mut combo));
    assert_eq!(combo, "Shift+F3");
    let mut cap = HotkeyCapture { listening: true };
    assert!(cap.on_key(&KeyPress::Digit(9), true, true, true, &mut combo));
    assert_eq!(combo, "Ctrl+Alt+Shift+9");
    let c = parse_combo(&combo).ok().unwrap();
    assert_eq!((c.vk, c.ctrl, c.alt, c.shift), (0x39, true, true, true));
    let mut cap = HotkeyCapture { listening: true };
    assert!(cap.on_key(&KeyPress::Function(12), true, false, false, &mut combo));
    assert_eq!(parse_combo(&combo).ok().unwrap().vk, 0x7B);
}

#[test]
fn capture_escape_and_other_keys() {
    let mut cap = HotkeyCapture { listening: true };
    let mut combo = s("Ctrl+Alt+1");
    assert!(!cap.on_key(&KeyPress::Other, true, true, true, &mut combo));
    assert!(cap.listening);
    assert!(!cap.on_key(&KeyPress::Escape, true, true, true, &mut combo));
    assert!(!cap.listening);
    assert!(!cap.on_key(&KeyPress::Letter(1), true, true, true, &mut combo));
    assert_eq!(combo, "Ctrl+Alt+1");
}

#[test]
fn outcome_of_a_session() {
    let mut saved = AppConfig::default();
    saved.monitors.push((s("x:edp"), MonitorConfig { name: s("p"), default_input: None, inputs: Vec::new(), hidden_inputs: Vec::new() }));
    saved.monitors.push((s("DELL"), MonitorConfig { name: s("d"), default_input: None, inputs: Vec::new(), hidden_inputs: Vec::new() }));
    match settings_outcome(vec![SettingsMsg::Closed, SettingsMsg::Saved(saved)]) {
        SettingsOutcome::Saved(c) => {
            assert_eq!(c.monitors.len(), 1);
            assert_eq!(c.monitors[0].0, "DELL");
        }
        _ => panic!("expected a saved configuration"),
    }
    assert!(matches!(
        settings_outcome(vec![SettingsMsg::Saved(AppConfig::default()), SettingsMsg::ExitRequested]),
        SettingsOutcome::ExitRequested
    ));
    assert!(matches!(settings_outcome(vec![SettingsMsg::Closed]), SettingsOutcome::Cancelled));
    assert!(matches!(settings_outcome(Vec::new()), SettingsOutcome::Cancelled));
}

#[test]
fn saving_writes_rows_back() {
    let mut c = AppConfig::default();
    c.monitors.push((s("A"), MonitorConfig { name: s("Left"), default_input: Some(0x11), inputs: Vec::new(), hidden_inputs: vec![0x12] }));
    let mut a = app(c, vec![meta("A", &[("HDMI-1", 0x11), ("HDMI-2", 0x12)]), meta("B", &[("X", 0x31), ("Y", 0x32)])]);
    a.input_edits[0].1[1].label = s("HDMI-1");
    a.save_input_edits();
    assert_eq!(a.config.monitors.len(), 2);
    assert_eq!(a.config.monitors[0].1.inputs, pairs(&[("HDMI-1", 0x12)]));
    assert_eq!(a.config.monitors[0].1.name, "Left");
    assert_eq!(a.config.monitors[0].1.hidden_inputs, vec![0x12]);
    assert_eq!(a.config.monitors[1].0, "B");
    assert_eq!(a.config.monitors[1].1.inputs, pairs(&[("X", 0x31), ("Y", 0x32)]));
    assert_eq!(a.config.monitors[1].1.name, "");
}

#[test]
fn editing_rows() {
    let m = meta("A", &[("Input 0x31", 0x31), ("HDMI-1", 0x11)]);
    assert!(has_unknown_inputs(&m));
    assert!(!has_unknown_inputs(&meta("B", &[("HDMI-1", 0x11)])));
    let mut e = InputEdit { label: s("mine"), code: 0x11, hex_str: s("0x1b") };
    e.apply_hex_text();
    assert_eq!(e.code, 0x1B);
    e.hex_str = s("nope");
    e.apply_hex_text();
    assert_eq!(e.code, 0x1B);
    e.reset(&m);
    assert_eq!((e.label.as_str(), e.code, e.hex_str.as_str()), ("USB-C", 0x1B, "0x1B"));
    e.code = 0x31;
    e.reset(&m);
    assert_eq!(e.label, "Input 0x31");
    e.code = 0x11;
    e.reset(&m);
    assert_eq!(e.label, "HDMI-1");
    let mut rows_v = vec![InputEdit { label: s("a"), code: 1, hex_str: s("0x01") }];
    add_input_row(&mut rows_v);
    assert_eq!((rows_v[1].label.as_str(), rows_v[1].code, rows_v[1].hex_str.as_str()), ("Input-2", 0x11, "0x11"));
}

#[test]
fn showing_and_hiding_inputs() {
    let mut hidden = vec![0x11, 0x12, 0x11];
    set_input_visible(&mut hidden, 0x13, false);
    assert_eq!(hidden, vec![0x11, 0x12, 0x11, 0x13]);
    set_input_visible(&mut hidden, 0x12, false);
    assert_eq!(hidden, vec![0x11, 0x12, 0x11, 0x13]);
    set_input_visible(&mut hidden, 0x11, true);
    assert_eq!(hidden, vec![0x12, 0x13]);
}

#[test]
fn editing_hotkey_lists() {
    let mut a = app(AppConfig::default(), vec![meta("A", &[("P", 0x0F), ("Q", 0x1B)]), meta("B", &[])]);
    a.add_cycle_hotkey();
    assert_eq!(a.config.cycle_hotkeys.len(), 1);
    let ch = &a.config.cycle_hotkeys[0];
    assert_eq!((ch.monitor_id.as_str(), ch.input_a, ch.input_b, ch.hotkey.as_str()), ("A", 0x0F, 0x1B, ""));
    a.select_cycle_monitor(0, "B");
    let ch = &a.config.cycle_hotkeys[0];
    assert_eq!((ch.monitor_id.as_str(), ch.input_a, ch.input_b), ("B", 0x01, 0x02));
    a.add_direct_hotkey();
    assert_eq!(a.config.direct_hotkeys[0].input, 0x0F);
    a.select_direct_monitor(0, "Z");
    assert_eq!(a.config.direct_hotkeys[0].input, 0x01);
    assert_eq!(a.direct_hotkey_errors.len(), 1);
    a.remove_cycle_hotkey(0);
    assert!(a.config.cycle_hotkeys.is_empty());
    assert!(a.cycle_hotkey_errors.is_empty());
    assert!(a.captures_cycle.is_empty());
    a.remove_direct_hotkey(0);
    assert!(a.config.direct_hotkeys.is_empty());
    let mut empty = app(AppConfig::default(), Vec::new());
    empty.add_cycle_hotkey();
    let ch = &empty.config.cycle_hotkeys[0];
    assert_eq!((ch.monitor_id.as_str(), ch.input_a, ch.input_b), ("", 0x01, 0x02));
}

#[test]
fn removing_a_hotkey_removes_its_message() {
    let mut a = app(AppConfig::default(), vec![meta("A", &[])]);
    a.add_cycle_hotkey();
    a.add_cycle_hotkey();
    a.add_cycle_hotkey();
    a.config.cycle_hotkeys[0].hotkey = s("Ctrl+Alt+Q");
    a.config.cycle_hotkeys[1].hotkey = s("Ctrl+Nope");
    a.config.cycle_hotkeys[2].hotkey = s("Ctrl+Alt");
    a.validate_hotkeys();
    assert_eq!(
        a.cycle_hotkey_errors,
        vec![s(""), s("unknown key: 'NOPE'"), s("no key code in hotkey: 'Ctrl+Alt'")]
    );
    a.remove_cycle_hotkey(1);
    assert_eq!(a.cycle_hotkey_errors, vec![s(""), s("no key code in hotkey: 'Ctrl+Alt'")]);
    assert_eq!(a.captures_cycle.len(), 2);

    a.add_direct_hotkey();
    a.add_direct_hotkey();
    a.config.direct_hotkeys[0].hotkey = s("Shift+");
    a.config.direct_hotkeys[1].hotkey = s("Shift+F4");
    a.validate_hotkeys();
    assert_eq!(a.direct_hotkey_errors, vec![s("unknown key: ''"), s("")]);
    a.remove_direct_hotkey(0);
    assert_eq!(a.direct_hotkey_errors, vec![s("")]);
    assert_eq!(a.config.direct_hotkeys[0].hotkey, "Shift+F4");
    // The cycle hotkey "Ctrl+Alt" still names no key.
    assert!(!a.can_save());
}

#[test]
fn monitor_entries_and_general_binding() {
    let mut c = AppConfig::default();
    c.monitors.push((s("A"), MonitorConfig { name: s("A"), default_input: Some(1), inputs: Vec::new(), hidden_inputs: Vec::new() }));
    let mut a = app(c, vec![meta("A", &[]), meta("B", &[])]);
    a.prepare_monitor_entry(0);
    assert_eq!(a.config.monitors[0].1.name, "A model");
    assert_eq!(a.config.monitors[0].1.default_input, Some(1));
    a.prepare_monitor_entry(1);
    assert_eq!(a.config.monitors[1].0, "B");
    assert_eq!(a.config.monitors[1].1.name, "B model");
    a.ensure_general_binding();
    a.ensure_general_binding();
    assert_eq!(a.config.hotkeys.bindings, vec![(s("all_default"), s(""))]);
}

#[test]
fn metas_from_displays() {
    let ds = vec![
        DdcDisplay { index: 0, backend_id: s("A"), model_name: Some(s("Dell")), current_input: None, available_inputs: pairs(&[("HDMI-1", 0x11)]) },
        DdcDisplay { index: 1, backend_id: s("B"), model_name: None, current_input: Some(1), available_inputs: Vec::new() },
    ];
    let ms = monitor_metas(&ds);
    assert_eq!(ms.len(), 2);
    assert_eq!(ms[0].display_name, "Dell");
    assert_eq!(ms[0].available_inputs, pairs(&[("HDMI-1", 0x11)]));
    assert_eq!(ms[1].display_name, "B");
}

#[test]
fn picker_labels_and_monitor_names() {
    let inputs = pairs(&[("A", 0x11), ("B", 0x0F), ("C", 0x11)]);
    assert_eq!(label_of(&inputs, 0x11), Some(s("A")));
    assert_eq!(label_of(&inputs, 0x12), None);
    assert_eq!(label_or(&inputs, 0x0F, "?"), "B");
    assert_eq!(label_or(&inputs, 0x00, "None"), "None");
    let ms = vec![meta("X", &[]), meta("Y", &[]), meta("X", &[])];
    assert_eq!(display_name_of(&ms, "Y"), "Y model");
    assert_eq!(display_name_of(&ms, "X"), "X model");
    assert_eq!(display_name_of(&ms, "Z"), "Z");
}

#[test]
fn exit_events() {
    let a = app(AppConfig::default(), Vec::new());
    assert!(a.is_exit_event("exit"));
    assert!(!a.is_exit_event("exit "));
    assert!(!a.is_exit_event(""));
}
