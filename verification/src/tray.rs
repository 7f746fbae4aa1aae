//! The tray menu and tooltip, as values: which sections, items, checkmarks
//! and actions the menu shows for the current configuration and displays.

use vstd::prelude::*;
use crate::actions::set_all_default;
use crate::caps::pairs_view;
use crate::config::{AppConfig, MonitorConfig, key_index, lemma_key_pos, position_of};
use crate::ddc::{DdcDisplay, input_label, input_label_spec};
use crate::inputs::{sort_by_code, sorted_by_code};
use crate::text::{
    chars_of, copy_pairs, owned, push_all, push_str, string_of, trim, trimmed,
};

verus! {

/// What a tray menu item does.
pub enum TrayAction {
    SwitchInput { monitor_idx: usize, input_code: u8 },
    SetAllDefault,
    OpenSettings,
    Exit,
}

/// One checkable input item of a monitor's submenu.
pub struct MenuEntry {
    pub label: String,
    pub checked: bool,
    pub action: TrayAction,
}

/// A monitor's submenu: its header and its input items.
pub struct MonitorMenu {
    pub header: String,
    pub entries: Vec<MenuEntry>,
}

/// One of the items that follow the monitor sections.
pub struct FixedItem {
    pub label: String,
    pub enabled: bool,
    pub action: TrayAction,
}

/// The menu and tooltip for the current state: the monitor sections, then
/// Apply Default Inputs, then Settings... and Exit.
pub struct TrayMenu {
    pub monitors: Vec<MonitorMenu>,
    /// Enabled when some monitor has a default input
    pub apply_defaults: FixedItem,
    pub settings: FixedItem,
    /// The item whose event also ends an open settings window
    pub exit: FixedItem,
    pub tooltip: String,
}

// ---------------------------------------------------------------------------
// Names and inputs
// ---------------------------------------------------------------------------

/// The monitor entry of the configuration for a backend id.
pub open spec fn config_for(config: AppConfig, id: Seq<char>) -> Option<MonitorConfig> {
    match key_index(config.monitors@, id) {
        Some(i) => Some(config.monitors@[i].1),
        None => None,
    }
}

/// The name shown for a display: the configured name (trimmed) unless it is
/// empty or just the backend id; else the model name; else the backend id.
pub open spec fn display_name(config: AppConfig, d: DdcDisplay) -> Seq<char> {
    let fallback = match d.model_name {
        Some(m) => m@,
        None => d.backend_id@,
    };
    match config_for(config, d.backend_id@) {
        Some(mc) => {
            let n = trim(mc.name@);
            if n.len() == 0 || n == d.backend_id@ {
                fallback
            } else {
                n
            }
        },
        None => fallback,
    }
}

/// The label of the current input, or "Unknown".
pub open spec fn current_label(d: DdcDisplay) -> Seq<char> {
    match d.current_input {
        Some(c) => input_label_spec(c),
        None => "Unknown"@,
    }
}

/// Last-resort inputs when DDC capabilities are unavailable.
pub open spec fn fallback_table() -> Seq<(Seq<char>, u8)> {
    seq![("HDMI-1"@, 0x11u8), ("HDMI-2"@, 0x12u8), ("DP-1"@, 0x0Fu8), ("DP-2"@, 0x10u8)]
}

/// Input priority: config override (sorted by code) > DDC capabilities (at
/// least two) > the fallback list.
pub open spec fn menu_inputs(config: AppConfig, d: DdcDisplay) -> Seq<(Seq<char>, u8)> {
    match config_for(config, d.backend_id@) {
        Some(mc) => if mc.inputs@.len() > 0 {
            sorted_by_code(pairs_view(mc.inputs@))
        } else if d.available_inputs@.len() >= 2 {
            pairs_view(d.available_inputs@)
        } else {
            fallback_table()
        },
        None => if d.available_inputs@.len() >= 2 {
            pairs_view(d.available_inputs@)
        } else {
            fallback_table()
        },
    }
}

/// The input codes hidden for a display.
pub open spec fn hidden_for(config: AppConfig, d: DdcDisplay) -> Seq<u8> {
    match config_for(config, d.backend_id@) {
        Some(mc) => mc.hidden_inputs@,
        None => Seq::empty(),
    }
}

/// The inputs of `s` whose code is not hidden, in order.
pub open spec fn visible(s: Seq<(Seq<char>, u8)>, hidden: Seq<u8>) -> Seq<(Seq<char>, u8)>
    decreases s.len(),
{
    if s.len() == 0 {
        s
    } else {
        let before = visible(s.drop_last(), hidden);
        if hidden.contains(s.last().1) {
            before
        } else {
            before.push(s.last())
        }
    }
}

/// The view of a menu entry: label, checkmark, and the monitor and input it
/// switches (`None` for other actions).
pub open spec fn entry_view(e: MenuEntry) -> (Seq<char>, bool, Option<(usize, u8)>) {
    (e.label@, e.checked, match e.action {
        TrayAction::SwitchInput { monitor_idx, input_code } => Some((monitor_idx, input_code)),
        _ => None,
    })
}

/// The items of display `idx`'s submenu: each visible input, checked when it
/// is the current one, switching that display to it.
pub open spec fn menu_entries(config: AppConfig, ds: Seq<DdcDisplay>, idx: int) -> Seq<(Seq<char>, bool, Option<(usize, u8)>)> {
    let d = ds[idx];
    visible(menu_inputs(config, d), hidden_for(config, d)).map_values(
        |p: (Seq<char>, u8)| (p.0, d.current_input == Some(p.1), Some((idx as usize, p.1))),
    )
}

/// The header of display `idx`'s submenu: "name — current input".
pub open spec fn menu_header(config: AppConfig, d: DdcDisplay) -> Seq<char> {
    display_name(config, d) + " — "@ + current_label(d)
}

/// Some monitor has a default input configured.
pub open spec fn any_default(config: AppConfig) -> bool {
    exists|i: int| 0 <= i < config.monitors@.len() && (#[trigger] config.monitors@[i]).1.default_input is Some
}

fn fallback_inputs() -> (r: Vec<(String, u8)>)
    ensures
        pairs_view(r@) == fallback_table(),
{
    let r = vec![
        (owned("HDMI-1"), 0x11u8),
        (owned("HDMI-2"), 0x12u8),
        (owned("DP-1"), 0x0Fu8),
        (owned("DP-2"), 0x10u8),
    ];
    assert(pairs_view(r@) =~= fallback_table());
    r
}

/// The entry of the configuration for a backend id.
fn monitor_config<'a>(config: &'a AppConfig, id: &str) -> (r: Option<&'a MonitorConfig>)
    ensures
        match r {
            Some(m) => config_for(*config, id@) == Some(*m),
            None => config_for(*config, id@) is None,
        },
{
    proof {
        lemma_key_pos(config.monitors@, id@, 0);
    }
    match position_of(&config.monitors, id) {
        Some(i) => Some(&config.monitors[i].1),
        None => None,
    }
}

fn name_for(config: &AppConfig, d: &DdcDisplay) -> (r: Vec<char>)
    ensures
        r@ == display_name(*config, *d),
{
    let fallback = match &d.model_name {
        Some(m) => chars_of(m.as_str()),
        None => chars_of(d.backend_id.as_str()),
    };
    match monitor_config(config, d.backend_id.as_str()) {
        Some(mc) => {
            let n = trimmed(&chars_of(mc.name.as_str()));
            let id = chars_of(d.backend_id.as_str());
            let same = crate::text::string_of(&n) == crate::text::string_of(&id);
            if n.len() == 0 || same {
                fallback
            } else {
                n
            }
        },
        None => fallback,
    }
}

fn current_label_of(d: &DdcDisplay) -> (r: String)
    ensures
        r@ == current_label(*d),
{
    match d.current_input {
        Some(c) => input_label(c),
        None => owned("Unknown"),
    }
}

fn inputs_for_menu(config: &AppConfig, d: &DdcDisplay) -> (r: Vec<(String, u8)>)
    ensures
        pairs_view(r@) == menu_inputs(*config, *d),
{
    match monitor_config(config, d.backend_id.as_str()) {
        Some(mc) => {
            if mc.inputs.len() > 0 {
                let copy = copy_pairs(&mc.inputs);
                let sorted = sort_by_code(copy);
                proof {
                    crate::caps::lemma_sorted_pairs_view(mc.inputs@);
                }
                sorted
            } else if d.available_inputs.len() >= 2 {
                copy_pairs(&d.available_inputs)
            } else {
                fallback_inputs()
            }
        },
        None => {
            if d.available_inputs.len() >= 2 {
                copy_pairs(&d.available_inputs)
            } else {
                fallback_inputs()
            }
        },
    }
}

fn contains_code(v: &Vec<u8>, code: u8) -> (r: bool)
    ensures
        r == v@.contains(code),
{
    let mut i: usize = 0;
    while i < v.len()
        invariant
            i <= v.len(),
            forall|j: int| 0 <= j < i ==> v@[j] != code,
        decreases v.len() - i,
    {
        if v[i] == code {
            return true;
        }
        i = i + 1;
    }
    false
}

/// The submenu of display `idx`.
fn monitor_menu(config: &AppConfig, displays: &Vec<DdcDisplay>, idx: usize) -> (r: MonitorMenu)
    requires
        idx < displays.len(),
    ensures
        r.header@ == menu_header(*config, displays@[idx as int]),
        r.entries@.map_values(|e: MenuEntry| entry_view(e)) == menu_entries(*config, displays@, idx as int),
{
    let d = &displays[idx];
    let mut header = name_for(config, d);
    push_str(&mut header, " — ");
    let cur = current_label_of(d);
    push_str(&mut header, cur.as_str());
    let inputs = inputs_for_menu(config, d);
    let empty: Vec<u8> = Vec::new();
    let hidden = match monitor_config(config, d.backend_id.as_str()) {
        Some(mc) => &mc.hidden_inputs,
        None => &empty,
    };
    assert(hidden@ == hidden_for(*config, *d));
    let ghost ins = pairs_view(inputs@);
    let mut entries: Vec<MenuEntry> = Vec::new();
    let mut i: usize = 0;
    let ghost f = |p: (Seq<char>, u8)| (p.0, d.current_input == Some(p.1), Some((idx as usize, p.1)));
    while i < inputs.len()
        invariant
            i <= inputs.len(),
            ins == pairs_view(inputs@),
            hidden@ == hidden_for(*config, *d),
            f == |p: (Seq<char>, u8)| (p.0, d.current_input == Some(p.1), Some((idx as usize, p.1))),
            entries@.map_values(|e: MenuEntry| entry_view(e)) == visible(ins.take(i as int), hidden@).map_values(f),
        decreases inputs.len() - i,
    {
        let code = inputs[i].1;
        assert(ins.take(i + 1).drop_last() =~= ins.take(i as int));
        assert(ins.take(i + 1).last() == (inputs@[i as int].0@, code));
        if !contains_code(hidden, code) {
            let ghost before = entries@;
            let label = inputs[i].0.clone();
            let checked = match d.current_input {
                Some(c) => c == code,
                None => false,
            };
            entries.push(MenuEntry {
                label,
                checked,
                action: TrayAction::SwitchInput { monitor_idx: idx, input_code: code },
            });
            assert(entries@.map_values(|e: MenuEntry| entry_view(e)) =~= before.map_values(
                |e: MenuEntry| entry_view(e),
            ).push(f((inputs@[i as int].0@, code))));
            assert(visible(ins.take(i + 1), hidden@).map_values(f) =~= visible(ins.take(i as int), hidden@).map_values(f).push(f((inputs@[i as int].0@, code))));
        }
        i = i + 1;
    }
    assert(ins.take(i as int) =~= ins);
    MonitorMenu { header: string_of(&header), entries }
}

// ---------------------------------------------------------------------------
// Tooltip
// ---------------------------------------------------------------------------

/// `parts.join(sep)`.
pub open spec fn join(parts: Seq<Seq<char>>, sep: Seq<char>) -> Seq<char>
    decreases parts.len(),
{
    if parts.len() == 0 {
        Seq::empty()
    } else if parts.len() == 1 {
        parts[0]
    } else {
        join(parts.drop_last(), sep) + sep + parts.last()
    }
}

/// "name: input" for one display.
pub open spec fn tooltip_part(config: AppConfig, d: DdcDisplay) -> Seq<char> {
    display_name(config, d) + ": "@ + current_label(d)
}

/// A display is on its configured default, or has none.
pub open spec fn on_default(config: AppConfig, d: DdcDisplay) -> bool {
    match config_for(config, d.backend_id@) {
        Some(mc) => mc.default_input is Some ==> d.current_input == mc.default_input,
        None => true,
    }
}

/// Some default is configured and every display is on its own.
pub open spec fn all_on_default(config: AppConfig, ds: Seq<DdcDisplay>) -> bool {
    any_default(config) && forall|i: int| 0 <= i < ds.len() ==> on_default(config, #[trigger] ds[i])
}

/// The tooltip: "Monitor Ctrl", then each monitor's current input, marked
/// when all monitors are on their defaults.
pub open spec fn tooltip_spec(config: AppConfig, ds: Seq<DdcDisplay>) -> Seq<char> {
    let parts = ds.map_values(|d: DdcDisplay| tooltip_part(config, d));
    if ds.len() == 0 {
        "Monitor Ctrl"@
    } else if all_on_default(config, ds) {
        "Monitor Ctrl\n"@ + join(parts, " | "@) + " ✓ defaults"@
    } else {
        "Monitor Ctrl\n"@ + join(parts, " | "@)
    }
}

fn has_any_default(config: &AppConfig) -> (r: bool)
    ensures
        r == any_default(*config),
{
    let mut i: usize = 0;
    while i < config.monitors.len()
        invariant
            i <= config.monitors.len(),
            forall|j: int| 0 <= j < i ==> (#[trigger] config.monitors@[j]).1.default_input is None,
        decreases config.monitors.len() - i,
    {
        if config.monitors[i].1.default_input.is_some() {
            return true;
        }
        i = i + 1;
    }
    false
}

fn is_on_default(config: &AppConfig, d: &DdcDisplay) -> (r: bool)
    ensures
        r == on_default(*config, *d),
{
    match monitor_config(config, d.backend_id.as_str()) {
        Some(mc) => match mc.default_input {
            Some(x) => d.current_input == Some(x),
            None => true,
        },
        None => true,
    }
}

/// Build a tooltip string showing each monitor's current input, e.g.
/// "Monitor Ctrl\nDell: HDMI-1 | Generic PnP: DP-1".
pub fn build_tooltip(config: &AppConfig, displays: &Vec<DdcDisplay>) -> (r: String)
    ensures
        r@ == tooltip_spec(*config, displays@),
{
    let ghost parts = displays@.map_values(|d: DdcDisplay| tooltip_part(*config, d));
    let mut joined: Vec<char> = Vec::new();
    let mut all_on = true;
    let mut i: usize = 0;
    while i < displays.len()
        invariant
            i <= displays.len(),
            parts == displays@.map_values(|d: DdcDisplay| tooltip_part(*config, d)),
            joined@ == join(parts.take(i as int), " | "@),
            all_on == forall|j: int| 0 <= j < i ==> on_default(*config, #[trigger] displays@[j]),
        decreases displays.len() - i,
    {
        let d = &displays[i];
        let mut part = name_for(config, d);
        push_str(&mut part, ": ");
        let cur = current_label_of(d);
        push_str(&mut part, cur.as_str());
        assert(part@ == parts[i as int]);
        assert(parts.take(i + 1).drop_last() =~= parts.take(i as int));
        if i > 0 {
            push_str(&mut joined, " | ");
        } else {
            assert(joined@ =~= Seq::<char>::empty());
            assert(parts.take(1) =~= seq![parts[0]]);
        }
        push_all(&mut joined, &part);
        if !is_on_default(config, d) {
            all_on = false;
        }
        i = i + 1;
    }
    assert(parts.take(i as int) =~= parts);
    let mut out = chars_of("Monitor Ctrl");
    if displays.len() == 0 {
        return string_of(&out);
    }
    push_str(&mut out, "\n");
    push_all(&mut out, &joined);
    let marked = has_any_default(config) && all_on;
    if marked {
        push_str(&mut out, " ✓ defaults");
    }
    proof {
        reveal_strlit("Monitor Ctrl\n");
        reveal_strlit("Monitor Ctrl");
        reveal_strlit("\n");
        assert("Monitor Ctrl"@ + "\n"@ =~= "Monitor Ctrl\n"@);
    }
    string_of(&out)
}

// ---------------------------------------------------------------------------
// The whole menu
// ---------------------------------------------------------------------------

/// The menu for the current configuration and displays.
pub fn build_menu(config: &AppConfig, displays: &Vec<DdcDisplay>) -> (r: TrayMenu)
    ensures
        r.monitors@.len() == displays@.len(),
        forall|i: int|
            0 <= i < displays@.len() ==> {
                &&& (#[trigger] r.monitors@[i]).header@ == menu_header(*config, displays@[i])
                &&& r.monitors@[i].entries@.map_values(|e: MenuEntry| entry_view(e)) == menu_entries(
                    *config,
                    displays@,
                    i,
                )
            },
        r.apply_defaults.label@ == "Apply Default Inputs"@,
        r.apply_defaults.enabled == any_default(*config),
        r.apply_defaults.action is SetAllDefault,
        r.settings.label@ == "Settings..."@,
        r.settings.enabled,
        r.settings.action is OpenSettings,
        r.exit.label@ == "Exit"@,
        r.exit.enabled,
        r.exit.action is Exit,
        r.tooltip@ == tooltip_spec(*config, displays@),
{
    let mut monitors: Vec<MonitorMenu> = Vec::new();
    let mut i: usize = 0;
    while i < displays.len()
        invariant
            i <= displays.len(),
            monitors@.len() == i,
            forall|j: int|
                0 <= j < i ==> {
                    &&& (#[trigger] monitors@[j]).header@ == menu_header(*config, displays@[j])
                    &&& monitors@[j].entries@.map_values(|e: MenuEntry| entry_view(e))
                        == menu_entries(*config, displays@, j)
                },
        decreases displays.len() - i,
    {
        let m = monitor_menu(config, displays, i);
        monitors.push(m);
        i = i + 1;
    }
    TrayMenu {
        monitors,
        apply_defaults: FixedItem {
            label: owned("Apply Default Inputs"),
            enabled: has_any_default(config),
            action: TrayAction::SetAllDefault,
        },
        settings: FixedItem { label: owned("Settings..."), enabled: true, action: TrayAction::OpenSettings },
        exit: FixedItem { label: owned("Exit"), enabled: true, action: TrayAction::Exit },
        tooltip: build_tooltip(config, displays),
    }
}

/// The switches a tray action asks for: one input for one display, or every
/// display's default; other actions switch nothing.
pub open spec fn tray_plan(action: TrayAction, config: AppConfig, ds: Seq<DdcDisplay>) -> Seq<(usize, u8)> {
    match action {
        TrayAction::SwitchInput { monitor_idx, input_code } => if monitor_idx < ds.len() {
            seq![(monitor_idx, input_code)]
        } else {
            Seq::empty()
        },
        TrayAction::SetAllDefault => crate::actions::default_plan(config, ds, ds.len() as int),
        _ => Seq::empty(),
    }
}

/// The switches the tray action `action` asks for.
pub fn handle_tray_action(action: &TrayAction, config: &AppConfig, displays: &Vec<DdcDisplay>) -> (r: Vec<(usize, u8)>)
    ensures
        r@ == tray_plan(*action, *config, displays@),
{
    match action {
        TrayAction::SwitchInput { monitor_idx, input_code } => {
            if *monitor_idx < displays.len() {
                vec![(*monitor_idx, *input_code)]
            } else {
                Vec::new()
            }
        },
        TrayAction::SetAllDefault => set_all_default(config, displays),
        _ => Vec::new(),
    }
}

// ---------------------------------------------------------------------------
// The fallback icon
// ---------------------------------------------------------------------------

/// A filled rectangle of the icon: corners (inclusive) and RGBA colour.
pub open spec fn in_box(x: int, y: int, x0: int, y0: int, x1: int, y1: int) -> bool {
    x0 <= x <= x1 && y0 <= y <= y1
}

/// The colour of pixel (x, y) of the 32×32 monitor icon: bezel, dark
/// screen, screen glow with a highlight band, a dark window, and the stand;
/// later shapes paint over earlier ones, the rest is transparent.
pub open spec fn icon_pixel(x: int, y: int) -> (u8, u8, u8, u8) {
    if in_box(x, y, 8, 26, 23, 27) || in_box(x, y, 14, 22, 17, 25) {
        (78, 78, 78, 255)
    } else if in_box(x, y, 6, 10, 22, 17) {
        (12, 22, 38, 255)
    } else if in_box(x, y, 4, 4, 27, 8) {
        (91, 164, 207, 255)
    } else if in_box(x, y, 4, 4, 27, 18) {
        (26, 107, 154, 255)
    } else if in_box(x, y, 3, 3, 28, 19) {
        (12, 22, 38, 255)
    } else if in_box(x, y, 1, 1, 30, 21) {
        (58, 58, 58, 255)
    } else {
        (0, 0, 0, 0)
    }
}

/// The colour of the pixel at `p` in row-major order.
pub open spec fn icon_pixel_at(p: int) -> (u8, u8, u8, u8) {
    icon_pixel(p % 32, p / 32)
}

fn pixel_color(x: usize, y: usize) -> (r: (u8, u8, u8, u8))
    ensures
        r == icon_pixel(x as int, y as int),
{
    let inb = |x0: usize, y0: usize, x1: usize, y1: usize| -> (b: bool)
        ensures
            b == in_box(x as int, y as int, x0 as int, y0 as int, x1 as int, y1 as int),
        { x0 <= x && x <= x1 && y0 <= y && y <= y1 };
    if inb(8, 26, 23, 27) || inb(14, 22, 17, 25) {
        (78, 78, 78, 255)
    } else if inb(6, 10, 22, 17) {
        (12, 22, 38, 255)
    } else if inb(4, 4, 27, 8) {
        (91, 164, 207, 255)
    } else if inb(4, 4, 27, 18) {
        (26, 107, 154, 255)
    } else if inb(3, 3, 28, 19) {
        (12, 22, 38, 255)
    } else if inb(1, 1, 30, 21) {
        (58, 58, 58, 255)
    } else {
        (0, 0, 0, 0)
    }
}

/// Generate a 32×32 RGBA monitor icon programmatically: four bytes per
/// pixel, rows from the top.
pub fn monitor_icon_rgba() -> (r: Vec<u8>)
    ensures
        r@.len() == 4096,
        forall|p: int|
            0 <= p < 1024 ==> {
                let c = icon_pixel_at(p);
                &&& #[trigger] r@[4 * p] == c.0
                &&& r@[4 * p + 1] == c.1
                &&& r@[4 * p + 2] == c.2
                &&& r@[4 * p + 3] == c.3
            },
{
    let mut buf: Vec<u8> = Vec::new();
    let mut p: usize = 0;
    while p < 1024
        invariant
            p <= 1024,
            buf@.len() == 4 * p,
            forall|q: int|
                0 <= q < p ==> {
                    let c = icon_pixel_at(q);
                    &&& #[trigger] buf@[4 * q] == c.0
                    &&& buf@[4 * q + 1] == c.1
                    &&& buf@[4 * q + 2] == c.2
                    &&& buf@[4 * q + 3] == c.3
                },
        decreases 1024 - p,
    {
        let c = pixel_color(p % 32, p / 32);
        let ghost before = buf@;
        buf.push(c.0);
        buf.push(c.1);
        buf.push(c.2);
        buf.push(c.3);
        proof {
            assert(buf@ =~= before + seq![c.0, c.1, c.2, c.3]);
            assert forall|q: int| 0 <= q < p + 1 implies {
                let d = icon_pixel_at(q);
                &&& #[trigger] buf@[4 * q] == d.0
                &&& buf@[4 * q + 1] == d.1
                &&& buf@[4 * q + 2] == d.2
                &&& buf@[4 * q + 3] == d.3
            } by {
                if q < p {
                    assert(before[4 * q] == icon_pixel_at(q).0);
                    assert(buf@[4 * q] == before[4 * q]);
                    assert(buf@[4 * q + 1] == before[4 * q + 1]);
                    assert(buf@[4 * q + 2] == before[4 * q + 2]);
                    assert(buf@[4 * q + 3] == before[4 * q + 3]);
                } else {
                    assert(q == p);
                    assert(icon_pixel_at(q) == icon_pixel(p as int % 32, p as int / 32));
                }
            }
        }
        p = p + 1;
    }
    buf
}

} // verus!
