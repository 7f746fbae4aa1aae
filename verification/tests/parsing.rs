use monitor_ctrl::caps::parse_capabilities;
use monitor_ctrl::config::is_internal_id;
use monitor_ctrl::ddc::{input_label, is_internal_display, standard_inputs};
use monitor_ctrl::hotkeys::{parse_combo, parse_hotkey, parse_vk, vk_of_upper, HotkeyError};
use monitor_ctrl::monitors::MonitorInfo;
use monitor_ctrl::settings::{hex_code_string, parse_hex};

fn pairs(v: &[(&str, u8)]) -> Vec<(String, u8)> {
    v.iter().map(|(l, c)| (l.to_string(), *c)).collect()
}

#[test]
fn standard_labels() {
    assert_eq!(input_label(0x11), "HDMI-1");
    assert_eq!(input_label(0x0F), "DP-1");
    assert_eq!(input_label(0x1B), "USB-C");
    assert_eq!(input_label(0x1D), "Thunderbolt");
    assert_eq!(input_label(0x01), "VGA-1");
}

#[test]
fn unknown_codes_get_hex_labels() {
    assert_eq!(input_label(0x00), "Input 0x00");
    assert_eq!(input_label(0x1E), "Input 0x1E");
    assert_eq!(input_label(0x20), "Input 0x20");
    assert_eq!(input_label(0xAB), "Input 0xAB");
    assert_eq!(input_label(0xFF), "Input 0xFF");
}

#[test]
fn every_standard_input_labels_itself() {
    let table = standard_inputs();
    assert_eq!(table.len(), 29);
    for (label, code) in table {
        assert_eq!(input_label(code), label);
    }
}

#[test]
fn capabilities_inputs_and_model() {
    let caps = b"(prot(monitor)type(lcd)model(DELL S2725QC)cmds(01 02 03)vcp(02 10 12 60(1B 11 0F 12) AC))";
    let (inputs, model) = parse_capabilities(caps);
    assert_eq!(inputs, pairs(&[("DP-1", 0x0F), ("HDMI-1", 0x11), ("HDMI-2", 0x12), ("USB-C", 0x1B)]));
    assert_eq!(model, Some("DELL S2725QC".to_string()));
}

#[test]
fn capabilities_case_and_spaces() {
    let caps = b"(MODEL(  U2720Q )VCP( 10 14(05 08 0B) 60(0f 11 1a) ))";
    let (inputs, model) = parse_capabilities(caps);
    assert_eq!(inputs, pairs(&[("DP-1", 0x0F), ("HDMI-1", 0x11), ("DP-3", 0x1A)]));
    assert_eq!(model, Some("U2720Q".to_string()));
}

#[test]
fn capabilities_unknown_codes_and_plus_sign() {
    let caps = b"vcp(60(+1b 31 zz 0x12 101))";
    let (inputs, model) = parse_capabilities(caps);
    assert_eq!(inputs, pairs(&[("USB-C", 0x1B), ("Input 0x31", 0x31)]));
    assert_eq!(model, None);
}

#[test]
fn capabilities_input_feature_without_values() {
    let (inputs, _) = parse_capabilities(b"(vcp(02 60 62))");
    assert!(inputs.is_empty());
}

#[test]
fn capabilities_without_vcp_section() {
    let (inputs, model) = parse_capabilities(b"(prot(monitor)model(X))");
    assert!(inputs.is_empty());
    assert_eq!(model, Some("X".to_string()));
}

#[test]
fn capabilities_oversized_code_is_dropped() {
    // 0x160 does not fit a byte; its value list is then read as plain codes,
    // and the first ")" ends the scan before 0x60 is reached.
    let (inputs, _) = parse_capabilities(b"vcp(160(01) 60(11 12))");
    assert!(inputs.is_empty());
}

#[test]
fn capabilities_not_utf8() {
    let (inputs, model) = parse_capabilities(&[0x28, 0xFF, 0xFE, 0x29]);
    assert!(inputs.is_empty());
    assert_eq!(model, None);
}

#[test]
fn capabilities_empty_model() {
    let (_, model) = parse_capabilities(b"model(   )vcp(60(11))");
    assert_eq!(model, None);
    let (_, model) = parse_capabilities(b"model(abc");
    assert_eq!(model, None);
}

#[test]
fn internal_panels() {
    assert!(is_internal_display("DISPLAY:LVDS-1"));
    assert!(is_internal_display("card0:eDP-1"));
    assert!(is_internal_display("x:Lvds0"));
    assert!(!is_internal_display("DISPLAY\\DELA0BA\\UID256"));
    assert!(is_internal_id("card0:EDP"));
    assert!(!is_internal_id("lvds"));
    for id in ["a:lvds0", "b:EDP", "HDMI-A-1", "x:LvDs"] {
        assert_eq!(is_internal_display(id), is_internal_id(id));
    }
}

#[test]
fn combos_read_their_parts() {
    let c = parse_combo("Ctrl+Alt+1").ok().unwrap();
    assert_eq!((c.vk, c.ctrl, c.alt, c.shift, c.win), (0x31, true, true, false, false));
    let c = parse_combo("Shift+F3").ok().unwrap();
    assert_eq!((c.vk, c.ctrl, c.alt, c.shift, c.win), (0x72, false, false, true, false));
    let c = parse_combo(" Control + Super +z ").ok().unwrap();
    assert_eq!((c.vk, c.ctrl, c.alt, c.shift, c.win), (0x5A, true, false, false, true));
    let c = parse_combo("Ctrl+Alt+Shift+F12").ok().unwrap();
    assert_eq!((c.vk, c.ctrl, c.alt, c.shift, c.win), (0x7B, true, true, true, false));
    let c = parse_combo("Win+F10").ok().unwrap();
    assert_eq!((c.vk, c.win), (0x79, true));
    let c = parse_combo("A+B").ok().unwrap();
    assert_eq!(c.vk, 0x42);
}

#[test]
fn key_names() {
    assert_eq!(parse_vk("0").ok(), Some(0x30));
    assert_eq!(parse_vk("9").ok(), Some(0x39));
    assert_eq!(parse_vk("a").ok(), Some(0x41));
    assert_eq!(parse_vk("Z").ok(), Some(0x5A));
    assert_eq!(parse_vk("f1").ok(), Some(0x70));
    assert_eq!(parse_vk("F9").ok(), Some(0x78));
    assert_eq!(parse_vk("F11").ok(), Some(0x7A));
    assert!(parse_vk("F13").is_err());
    assert!(parse_vk("F0").is_err());
    assert!(parse_vk("Esc").is_err());
    // Unicode case mapping: dotless i uppercases to I.
    assert_eq!(parse_vk("\u{131}").ok(), Some(0x49));
}

#[test]
fn uppercase_key_names() {
    assert_eq!(vk_of_upper("F12".to_string()).ok(), Some(0x7B));
    assert_eq!(vk_of_upper("Q".to_string()).ok(), Some(0x51));
    // Only uppercase names are known here.
    match vk_of_upper("q".to_string()) {
        Err(e) => assert_eq!(e.message(), "unknown key: 'q'"),
        Ok(_) => panic!("lowercase name"),
    }
    match vk_of_upper("SS".to_string()) {
        Err(e) => assert_eq!(e.message(), "unknown key: 'SS'"),
        Ok(_) => panic!("not a key"),
    }
    // German sharp s uppercases to "SS".
    match parse_vk("\u{df}") {
        Err(e) => assert_eq!(e.message(), "unknown key: 'SS'"),
        Ok(_) => panic!("not a key"),
    }
}

#[test]
fn unknown_key_error() {
    match parse_hotkey("ctrl+alt+1") {
        Err(e) => {
            assert!(matches!(e, HotkeyError::UnknownKey(_)));
            assert_eq!(e.message(), "unknown key: 'CTRL'");
        }
        Ok(()) => panic!("lowercase modifier names are not modifiers"),
    }
    match parse_hotkey("Ctrl+") {
        Err(e) => assert_eq!(e.message(), "unknown key: ''"),
        Ok(()) => panic!("an empty part names no key"),
    }
    match parse_hotkey("Alt+\u{e9}") {
        Err(e) => assert_eq!(e.message(), "unknown key: '\u{c9}'"),
        Ok(()) => panic!("not a key"),
    }
}

#[test]
fn missing_key_error() {
    match parse_hotkey("Ctrl+Alt") {
        Err(e) => {
            assert!(matches!(e, HotkeyError::NoKeyCode(_)));
            assert_eq!(e.message(), "no key code in hotkey: 'Ctrl+Alt'");
        }
        Ok(()) => panic!("no key"),
    }
}

#[test]
fn hex_code_text() {
    assert_eq!(hex_code_string(0x0F), "0x0F");
    assert_eq!(hex_code_string(0xAB), "0xAB");
    assert_eq!(parse_hex("0x1B"), Some(0x1B));
    assert_eq!(parse_hex(" 0X0f "), Some(0x0F));
    assert_eq!(parse_hex("0x0x11"), Some(0x11));
    assert_eq!(parse_hex("12"), Some(0x12));
    assert_eq!(parse_hex("+A"), Some(0x0A));
    assert_eq!(parse_hex("1FF"), None);
    assert_eq!(parse_hex("zz"), None);
    assert_eq!(parse_hex(""), None);
    assert_eq!(parse_hex("0x"), None);
}

#[test]
fn hex_text_reads_back() {
    for code in 0..=255u8 {
        assert_eq!(parse_hex(&hex_code_string(code)), Some(code));
    }
}

#[test]
fn monitor_device_ids() {
    let m = MonitorInfo::from_raw("\\\\.\\DISPLAY1".to_string(), (0, 0, 1920, 1080), 1);
    assert_eq!(m.device_id, "DISPLAY1");
    assert_eq!(m.device_name, "\\\\.\\DISPLAY1");
    assert!(m.is_primary);
    let m = MonitorInfo::from_raw("DISPLAY2".to_string(), (1920, 0, 3840, 1080), 2);
    assert_eq!(m.device_id, "DISPLAY2");
    assert!(!m.is_primary);
    assert_eq!(m.rect, (1920, 0, 3840, 1080));
}


#[test]
fn labels_are_distinct_and_generic_outside_the_table() {
    let labels: Vec<String> = (0..=255u8).map(input_label).collect();
    for a in 0..256usize {
        for b in (a + 1)..256usize {
            assert_ne!(labels[a], labels[b]);
        }
        let code = a as u8;
        assert_eq!(labels[a].starts_with("Input 0x"), code == 0 || code > 0x1D);
    }
}

#[test]
fn code_texts_read_back() {
    for code in 0..=255u8 {
        assert_eq!(parse_hex(&hex_code_string(code)), Some(code));
        assert_eq!(parse_hex(&format!("{:x}", code)), Some(code));
    }
}
