//! The settings window's state and rules: the edit buffers it starts from,
//! checking hotkeys before a save, writing the buffers back, and capturing a
//! key combo. Drawing the window is the caller's part.

use vstd::prelude::*;
use crate::caps::pairs_view;
use crate::config::{AppConfig, CycleHotkey, DirectHotkey, MonitorConfig, key_index, lemma_key_pos, position_of};
use crate::ddc::{input_label, input_label_spec, standard_inputs, standard_table};
use crate::hotkeys::{combo_spec, error_message, parse_hotkey, HotkeyErrorView};
use crate::inputs::{sort_by_code, sorted_by_code};
use crate::numbers::{hex2, hex_u8, parse_hex_u8, push_hex2};
use crate::tray::config_for;
use crate::text::{
    chars_of, copy_pairs, match_at, matches_at, owned, string_of, strip_all, trim, trim_start_matches,
    trimmed,
};

verus! {

/// The std channel sender the window reports through.
#[verifier::external_type_specification]
#[verifier::external_body]
#[verifier::reject_recursive_types(T)]
pub struct ExSender<T>(std::sync::mpsc::Sender<T>);

/// DDC-discovered info about a monitor, passed into the settings window.
#[derive(Clone)]
pub struct MonitorMeta {
    pub backend_id: String,
    /// Model name from DDC capabilities, or fallback to backend_id
    pub display_name: String,
    /// Inputs discovered from DDC capabilities string (empty = unknown)
    pub available_inputs: Vec<(String, u8)>,
}

/// What the window reports back.
pub enum SettingsMsg {
    Saved(AppConfig),
    Closed,
    ExitRequested,
}

/// Outcome of a settings session.
pub enum SettingsOutcome {
    /// User clicked Save — contains the updated config.
    Saved(AppConfig),
    /// User closed/cancelled without saving.
    Cancelled,
    /// User triggered Exit from the tray while settings was open.
    ExitRequested,
}

/// One row in the inputs editor.
pub struct InputEdit {
    pub label: String,
    pub code: u8,
    pub hex_str: String,
}

/// The selected settings tab.
pub enum Tab {
    General,
    Monitors,
    Hotkeys,
}

/// State for a single hotkey capture button.
pub struct HotkeyCapture {
    pub listening: bool,
}

// ---------------------------------------------------------------------------
// Hex codes as the editor shows and reads them
// ---------------------------------------------------------------------------

/// `format!("0x{:02X}", code)`.
pub open spec fn hex_code_text(code: u8) -> Seq<char> {
    "0x"@ + hex2(code)
}

pub fn hex_code_string(code: u8) -> (r: String)
    ensures
        r@ == hex_code_text(code),
{
    let mut v = chars_of("0x");
    push_hex2(&mut v, code);
    string_of(&v)
}

/// What the code column reads: trimmed, `0x`/`0X` prefixes dropped, then
/// read as a hexadecimal byte.
pub open spec fn parse_hex_spec(s: Seq<char>) -> Option<u8> {
    hex_u8(strip_all(strip_all(trim(s), "0x"@), "0X"@))
}

/// Reads the text of the code column.
pub fn parse_hex(s: &str) -> (r: Option<u8>)
    ensures
        r == parse_hex_spec(s@),
{
    let t = trimmed(&chars_of(s));
    let a = trim_start_matches(t, "0x");
    let b = trim_start_matches(a, "0X");
    parse_hex_u8(&b)
}

// ---------------------------------------------------------------------------
// The input edit buffers
// ---------------------------------------------------------------------------

/// A row as (label, code, code text).
pub open spec fn edit_view(e: InputEdit) -> (Seq<char>, u8, Seq<char>) {
    (e.label@, e.code, e.hex_str@)
}

pub open spec fn edits_view(s: Seq<InputEdit>) -> Seq<(Seq<char>, u8, Seq<char>)> {
    s.map_values(|e: InputEdit| edit_view(e))
}

/// Fresh rows for labelled inputs, the code text written from the code.
pub open spec fn fresh_edits(s: Seq<(Seq<char>, u8)>) -> Seq<(Seq<char>, u8, Seq<char>)> {
    s.map_values(|p: (Seq<char>, u8)| (p.0, p.1, hex_code_text(p.1)))
}

/// Where a monitor's rows come from: its configured inputs, else the DDC
/// list (when it has at least two), else the standard table.
pub open spec fn edit_source(config: AppConfig, meta: MonitorMeta) -> Seq<(Seq<char>, u8)> {
    let ddc_or_standard = if meta.available_inputs@.len() >= 2 {
        pairs_view(meta.available_inputs@)
    } else {
        standard_table()
    };
    match config_for(config, meta.backend_id@) {
        Some(mc) => if mc.inputs@.len() > 0 {
            pairs_view(mc.inputs@)
        } else {
            ddc_or_standard
        },
        None => ddc_or_standard,
    }
}

/// The initial rows of a monitor, sorted by code.
pub open spec fn initial_edits(config: AppConfig, meta: MonitorMeta) -> Seq<(Seq<char>, u8, Seq<char>)> {
    fresh_edits(sorted_by_code(edit_source(config, meta)))
}

/// The standard table as owned strings.
pub fn standard_input_list() -> (r: Vec<(String, u8)>)
    ensures
        pairs_view(r@) == standard_table(),
{
    let t = standard_inputs();
    let mut r: Vec<(String, u8)> = Vec::new();
    let mut i: usize = 0;
    while i < t.len()
        invariant
            t@.len() == standard_table().len(),
            forall|j: int|
                0 <= j < t@.len() ==> (#[trigger] t@[j]).0@ == standard_table()[j].0 && t@[j].1
                    == standard_table()[j].1,
            i <= t.len(),
            pairs_view(r@) == standard_table().take(i as int),
        decreases t.len() - i,
    {
        let ghost before = r@;
        r.push((owned(t[i].0), t[i].1));
        assert(pairs_view(r@) =~= pairs_view(before).push((t@[i as int].0@, t@[i as int].1)));
        assert(standard_table().take(i + 1) =~= standard_table().take(i as int).push(standard_table()[i as int]));
        i = i + 1;
    }
    assert(standard_table().take(i as int) =~= standard_table());
    r
}

fn edits_from(pairs: &Vec<(String, u8)>) -> (r: Vec<InputEdit>)
    ensures
        edits_view(r@) == fresh_edits(pairs_view(pairs@)),
{
    let mut r: Vec<InputEdit> = Vec::new();
    let mut i: usize = 0;
    while i < pairs.len()
        invariant
            i <= pairs.len(),
            edits_view(r@) == fresh_edits(pairs_view(pairs@.take(i as int))),
        decreases pairs.len() - i,
    {
        let ghost before = r@;
        let code = pairs[i].1;
        r.push(InputEdit { label: pairs[i].0.clone(), code, hex_str: hex_code_string(code) });
        assert(pairs@.take(i + 1) =~= pairs@.take(i as int).push(pairs@[i as int]));
        assert(edits_view(r@) =~= edits_view(before).push((pairs@[i as int].0@, code, hex_code_text(code))));
        assert(fresh_edits(pairs_view(pairs@.take(i + 1))) =~= fresh_edits(pairs_view(pairs@.take(i as int))).push(
            (pairs@[i as int].0@, code, hex_code_text(code)),
        ));
        i = i + 1;
    }
    assert(pairs@.take(i as int) =~= pairs@);
    r
}

/// Build the initial input edit buffer for a monitor from whatever is stored
/// in the config.
pub fn build_input_edits(config: &AppConfig, meta: &MonitorMeta) -> (r: Vec<InputEdit>)
    ensures
        edits_view(r@) == initial_edits(*config, *meta),
{
    proof {
        lemma_key_pos(config.monitors@, meta.backend_id@, 0);
    }
    let from_config = match position_of(&config.monitors, meta.backend_id.as_str()) {
        Some(i) => if config.monitors[i].1.inputs.len() > 0 {
            Some(copy_pairs(&config.monitors[i].1.inputs))
        } else {
            None
        },
        None => None,
    };
    let source = match from_config {
        Some(v) => v,
        None => if meta.available_inputs.len() >= 2 {
            copy_pairs(&meta.available_inputs)
        } else {
            standard_input_list()
        },
    };
    let ghost src = source@;
    assert(pairs_view(src) == edit_source(*config, *meta));
    let sorted = sort_by_code(source);
    proof {
        crate::caps::lemma_sorted_pairs_view(src);
    }
    edits_from(&sorted)
}

// ---------------------------------------------------------------------------
// The window's state
// ---------------------------------------------------------------------------

pub struct SettingsApp {
    pub config: AppConfig,
    pub monitors: Vec<MonitorMeta>,
    pub tx: std::sync::mpsc::Sender<SettingsMsg>,
    /// action id and error message, for each binding whose combo is refused
    pub hotkey_errors: Vec<(String, String)>,
    /// Per-index error messages for cycle hotkey combos
    pub cycle_hotkey_errors: Vec<String>,
    /// Per-index error messages for direct hotkey combos
    pub direct_hotkey_errors: Vec<String>,
    /// Menu item ID of the tray Exit item — watched each frame to detect exit intent
    pub exit_item_id: String,
    /// Per-monitor input edit buffers (backend_id and rows).
    pub input_edits: Vec<(String, Vec<InputEdit>)>,
    /// Currently selected settings tab
    pub selected_tab: Tab,
    /// Capture state for the General tab "Apply Default Inputs" hotkey
    pub capture_general: HotkeyCapture,
    /// Capture state per cycle hotkey (parallel to config.cycle_hotkeys)
    pub captures_cycle: Vec<HotkeyCapture>,
    /// Capture state per direct hotkey (parallel to config.direct_hotkeys)
    pub captures_direct: Vec<HotkeyCapture>,
}

/// The last of the first `n` metas whose backend id is `id`.
pub open spec fn last_with(ms: Seq<MonitorMeta>, id: Seq<char>, n: int) -> Option<int>
    decreases n,
{
    if n <= 0 {
        None
    } else if ms[n - 1].backend_id@ == id {
        Some(n - 1)
    } else {
        last_with(ms, id, n - 1)
    }
}

/// The edit buffers hold, for every monitor id, the initial rows of the
/// last monitor with that id among the first `n`, and nothing else.
pub open spec fn buffers_for(
    e: Seq<(String, Vec<InputEdit>)>,
    config: AppConfig,
    ms: Seq<MonitorMeta>,
    n: int,
) -> bool {
    &&& crate::config::distinct_keys(e)
    &&& forall|k: int|
        0 <= k < e.len() ==> match last_with(ms, (#[trigger] e[k]).0@, n) {
            Some(j) => edits_view(e[k].1@) == initial_edits(config, ms[j]),
            None => false,
        }
    &&& forall|j: int| 0 <= j < n ==> key_index(e, (#[trigger] ms[j]).backend_id@) is Some
}

pub proof fn lemma_last_with_bounds(ms: Seq<MonitorMeta>, id: Seq<char>, n: int)
    requires
        n <= ms.len(),
    ensures
        match last_with(ms, id, n) {
            Some(j) => 0 <= j < n && ms[j].backend_id@ == id,
            None => forall|j: int| 0 <= j < n ==> ms[j].backend_id@ != id,
        },
    decreases n,
{
    if n > 0 && ms[n - 1].backend_id@ != id {
        lemma_last_with_bounds(ms, id, n - 1);
    }
}

fn empty_strings(n: usize) -> (r: Vec<String>)
    ensures
        r@.len() == n,
        forall|i: int| 0 <= i < n ==> (#[trigger] r@[i])@.len() == 0,
{
    let mut r: Vec<String> = Vec::new();
    let mut i: usize = 0;
    while i < n
        invariant
            i <= n,
            r@.len() == i,
            forall|j: int| 0 <= j < i ==> (#[trigger] r@[j])@.len() == 0,
        decreases n - i,
    {
        r.push(String::new());
        i = i + 1;
    }
    r
}

fn idle_captures(n: usize) -> (r: Vec<HotkeyCapture>)
    ensures
        r@.len() == n,
        forall|i: int| 0 <= i < n ==> !(#[trigger] r@[i]).listening,
{
    let mut r: Vec<HotkeyCapture> = Vec::new();
    let mut i: usize = 0;
    while i < n
        invariant
            i <= n,
            r@.len() == i,
            forall|j: int| 0 <= j < i ==> !(#[trigger] r@[j]).listening,
        decreases n - i,
    {
        r.push(HotkeyCapture { listening: false });
        i = i + 1;
    }
    r
}

impl SettingsApp {
    pub fn new(
        config: AppConfig,
        monitors: Vec<MonitorMeta>,
        tx: std::sync::mpsc::Sender<SettingsMsg>,
        exit_item_id: String,
    ) -> (r: Self)
        ensures
            r.config == config,
            r.monitors == monitors,
            r.tx == tx,
            r.exit_item_id == exit_item_id,
            r.hotkey_errors@.len() == 0,
            r.cycle_hotkey_errors@.len() == config.cycle_hotkeys@.len(),
            r.direct_hotkey_errors@.len() == config.direct_hotkeys@.len(),
            forall|i: int| 0 <= i < r.cycle_hotkey_errors@.len() ==> (#[trigger] r.cycle_hotkey_errors@[i])@.len() == 0,
            forall|i: int| 0 <= i < r.direct_hotkey_errors@.len() ==> (#[trigger] r.direct_hotkey_errors@[i])@.len() == 0,
            buffers_for(r.input_edits@, config, monitors@, monitors@.len() as int),
            r.selected_tab is General,
            !r.capture_general.listening,
            r.captures_cycle@.len() == config.cycle_hotkeys@.len(),
            r.captures_direct@.len() == config.direct_hotkeys@.len(),
            forall|i: int| 0 <= i < r.captures_cycle@.len() ==> !(#[trigger] r.captures_cycle@[i]).listening,
            forall|i: int| 0 <= i < r.captures_direct@.len() ==> !(#[trigger] r.captures_direct@[i]).listening,
    {
        let mut input_edits: Vec<(String, Vec<InputEdit>)> = Vec::new();
        let mut i: usize = 0;
        while i < monitors.len()
            invariant
                i <= monitors.len(),
                buffers_for(input_edits@, config, monitors@, i as int),
            decreases monitors.len() - i,
        {
            let meta = &monitors[i];
            let edits = build_input_edits(&config, meta);
            let ghost before = input_edits@;
            let ghost id = meta.backend_id@;
            proof {
                lemma_key_pos(before, id, 0);
            }
            match position_of(&input_edits, meta.backend_id.as_str()) {
                Some(k) => {
                    input_edits.set(k, (meta.backend_id.clone(), edits));
                    proof {
                        assert forall|q: int| 0 <= q < input_edits@.len() implies match last_with(
                            monitors@,
                            (#[trigger] input_edits@[q]).0@,
                            i + 1,
                        ) {
                            Some(j) => edits_view(input_edits@[q].1@) == initial_edits(config, monitors@[j]),
                            None => false,
                        } by {
                            if q != k {
                                assert(input_edits@[q] == before[q]);
                                assert(before[q].0@ != id);
                            }
                        }
                        assert forall|j: int| 0 <= j < i + 1 implies key_index(
                            input_edits@,
                            (#[trigger] monitors@[j]).backend_id@,
                        ) is Some by {
                            lemma_key_pos(input_edits@, monitors@[j].backend_id@, 0);
                            if j < i {
                                lemma_key_pos(before, monitors@[j].backend_id@, 0);
                                let p = key_index(before, monitors@[j].backend_id@)->Some_0;
                                assert(input_edits@[p].0@ == before[p].0@);
                            } else {
                                assert(input_edits@[k as int].0@ == id);
                            }
                        }
                    }
                },
                None => {
                    input_edits.push((meta.backend_id.clone(), edits));
                    proof {
                        assert forall|q: int| 0 <= q < input_edits@.len() implies match last_with(
                            monitors@,
                            (#[trigger] input_edits@[q]).0@,
                            i + 1,
                        ) {
                            Some(j) => edits_view(input_edits@[q].1@) == initial_edits(config, monitors@[j]),
                            None => false,
                        } by {
                            if q < before.len() {
                                assert(input_edits@[q] == before[q]);
                                assert(before[q].0@ != id);
                            }
                        }
                        assert forall|j: int| 0 <= j < i + 1 implies key_index(
                            input_edits@,
                            (#[trigger] monitors@[j]).backend_id@,
                        ) is Some by {
                            lemma_key_pos(input_edits@, monitors@[j].backend_id@, 0);
                            if j < i {
                                lemma_key_pos(before, monitors@[j].backend_id@, 0);
                                let p = key_index(before, monitors@[j].backend_id@)->Some_0;
                                assert(input_edits@[p].0@ == before[p].0@);
                            } else {
                                assert(input_edits@[before.len() as int].0@ == id);
                            }
                        }
                    }
                },
            }
            i = i + 1;
        }
        let cycle_len = config.cycle_hotkeys.len();
        let direct_len = config.direct_hotkeys.len();
        SettingsApp {
            config,
            monitors,
            tx,
            hotkey_errors: Vec::new(),
            cycle_hotkey_errors: empty_strings(cycle_len),
            direct_hotkey_errors: empty_strings(direct_len),
            exit_item_id,
            input_edits,
            selected_tab: Tab::General,
            capture_general: HotkeyCapture { listening: false },
            captures_cycle: idle_captures(cycle_len),
            captures_direct: idle_captures(direct_len),
        }
    }
}

// ---------------------------------------------------------------------------
// Inputs offered for a monitor
// ---------------------------------------------------------------------------

/// The first meta at or after `i` whose backend id is `id`.
pub open spec fn meta_pos(ms: Seq<MonitorMeta>, id: Seq<char>, i: int) -> Option<int>
    decreases ms.len() - i,
{
    if i < 0 || i >= ms.len() {
        None
    } else if ms[i].backend_id@ == id {
        Some(i)
    } else {
        meta_pos(ms, id, i + 1)
    }
}

pub proof fn lemma_meta_pos(ms: Seq<MonitorMeta>, id: Seq<char>, i: int)
    requires
        0 <= i,
    ensures
        match meta_pos(ms, id, i) {
            Some(k) => i <= k < ms.len() && ms[k].backend_id@ == id,
            None => forall|j: int| i <= j < ms.len() ==> ms[j].backend_id@ != id,
        },
    decreases ms.len() - i,
{
    if i < ms.len() && ms[i].backend_id@ != id {
        lemma_meta_pos(ms, id, i + 1);
    }
}

/// The rows of an edit buffer as (label, code).
pub open spec fn edit_pairs(s: Seq<InputEdit>) -> Seq<(Seq<char>, u8)> {
    s.map_values(|e: InputEdit| (e.label@, e.code))
}

/// Inputs to show for a monitor: its edit buffer when not empty, else its
/// DDC list when it has at least two, else the standard table.
pub open spec fn inputs_for_spec(app: SettingsApp, id: Seq<char>) -> Seq<(Seq<char>, u8)> {
    let fallback = match meta_pos(app.monitors@, id, 0) {
        Some(m) => if app.monitors@[m].available_inputs@.len() >= 2 {
            pairs_view(app.monitors@[m].available_inputs@)
        } else {
            standard_table()
        },
        None => standard_table(),
    };
    match key_index(app.input_edits@, id) {
        Some(k) => if app.input_edits@[k].1@.len() > 0 {
            edit_pairs(app.input_edits@[k].1@)
        } else {
            fallback
        },
        None => fallback,
    }
}

fn pairs_of_edits(edits: &Vec<InputEdit>) -> (r: Vec<(String, u8)>)
    ensures
        pairs_view(r@) == edit_pairs(edits@),
{
    let mut r: Vec<(String, u8)> = Vec::new();
    let mut i: usize = 0;
    while i < edits.len()
        invariant
            i <= edits.len(),
            pairs_view(r@) == edit_pairs(edits@.take(i as int)),
        decreases edits.len() - i,
    {
        let ghost before = r@;
        r.push((edits[i].label.clone(), edits[i].code));
        assert(pairs_view(r@) =~= pairs_view(before).push((edits@[i as int].label@, edits@[i as int].code)));
        assert(edits@.take(i + 1) =~= edits@.take(i as int).push(edits@[i as int]));
        assert(edit_pairs(edits@.take(i + 1)) =~= edit_pairs(edits@.take(i as int)).push(
            (edits@[i as int].label@, edits@[i as int].code),
        ));
        i = i + 1;
    }
    assert(edits@.take(i as int) =~= edits@);
    r
}

impl SettingsApp {
    /// Returns inputs to show for a monitor (edit buffer > DDC > standard fallback).
    pub fn inputs_for(&self, backend_id: &str) -> (r: Vec<(String, u8)>)
        ensures
            pairs_view(r@) == inputs_for_spec(*self, backend_id@),
    {
        proof {
            lemma_key_pos(self.input_edits@, backend_id@, 0);
        }
        if let Some(k) = position_of(&self.input_edits, backend_id) {
            if self.input_edits[k].1.len() > 0 {
                return pairs_of_edits(&self.input_edits[k].1);
            }
        }
        let ghost fallback = match meta_pos(self.monitors@, backend_id@, 0) {
            Some(q) => if self.monitors@[q].available_inputs@.len() >= 2 {
                pairs_view(self.monitors@[q].available_inputs@)
            } else {
                standard_table()
            },
            None => standard_table(),
        };
        assert(inputs_for_spec(*self, backend_id@) == fallback);
        let mut m: usize = 0;
        while m < self.monitors.len()
            invariant
                m <= self.monitors.len(),
                inputs_for_spec(*self, backend_id@) == fallback,
                fallback == match meta_pos(self.monitors@, backend_id@, 0) {
                    Some(q) => if self.monitors@[q].available_inputs@.len() >= 2 {
                        pairs_view(self.monitors@[q].available_inputs@)
                    } else {
                        standard_table()
                    },
                    None => standard_table(),
                },
                meta_pos(self.monitors@, backend_id@, 0) == meta_pos(self.monitors@, backend_id@, m as int),
            decreases self.monitors.len() - m,
        {
            if crate::text::str_eq(self.monitors[m].backend_id.as_str(), backend_id) {
                if self.monitors[m].available_inputs.len() >= 2 {
                    return copy_pairs(&self.monitors[m].available_inputs);
                }
                return standard_input_list();
            }
            m = m + 1;
        }
        standard_input_list()
    }
}

// ---------------------------------------------------------------------------
// Checking hotkeys
// ---------------------------------------------------------------------------

/// The message shown under a combo: empty when the combo is empty or reads.
pub open spec fn error_text(combo: Seq<char>) -> Seq<char> {
    if combo.len() == 0 {
        Seq::empty()
    } else {
        match combo_spec(combo) {
            Ok(_) => Seq::empty(),
            Err(e) => error_message(e),
        }
    }
}

/// `(action, message)` for each of the first `n` bindings whose combo is
/// not empty and does not read.
pub open spec fn binding_errors(b: Seq<(String, String)>, n: int) -> Seq<(Seq<char>, Seq<char>)>
    decreases n,
{
    if n <= 0 {
        Seq::empty()
    } else {
        let before = binding_errors(b, n - 1);
        if error_text(b[n - 1].1@).len() > 0 {
            before.push((b[n - 1].0@, error_text(b[n - 1].1@)))
        } else {
            before
        }
    }
}

/// The message under a combo.
pub fn combo_error(combo: &str) -> (r: String)
    ensures
        r@ == error_text(combo@),
{
    if combo.is_empty() {
        return String::new();
    }
    match parse_hotkey(combo) {
        Ok(()) => String::new(),
        Err(e) => e.message(),
    }
}

pub open spec fn errors_view(v: Seq<(String, String)>) -> Seq<(Seq<char>, Seq<char>)> {
    v.map_values(|p: (String, String)| (p.0@, p.1@))
}

/// The error messages are those of the configuration's combos.
pub open spec fn validated(app: SettingsApp) -> bool {
    &&& errors_view(app.hotkey_errors@) == binding_errors(
        app.config.hotkeys.bindings@,
        app.config.hotkeys.bindings@.len() as int,
    )
    &&& app.cycle_hotkey_errors@.len() == app.config.cycle_hotkeys@.len()
    &&& forall|i: int|
        0 <= i < app.cycle_hotkey_errors@.len() ==> (#[trigger] app.cycle_hotkey_errors@[i])@ == error_text(
            app.config.cycle_hotkeys@[i].hotkey@,
        )
    &&& app.direct_hotkey_errors@.len() == app.config.direct_hotkeys@.len()
    &&& forall|i: int|
        0 <= i < app.direct_hotkey_errors@.len() ==> (#[trigger] app.direct_hotkey_errors@[i])@ == error_text(
            app.config.direct_hotkeys@[i].hotkey@,
        )
}

/// No hotkey error is shown.
pub open spec fn save_allowed(app: SettingsApp) -> bool {
    &&& app.hotkey_errors@.len() == 0
    &&& forall|i: int| 0 <= i < app.cycle_hotkey_errors@.len() ==> (#[trigger] app.cycle_hotkey_errors@[i])@.len() == 0
    &&& forall|i: int|
        0 <= i < app.direct_hotkey_errors@.len() ==> (#[trigger] app.direct_hotkey_errors@[i])@.len() == 0
}

/// Every combo of the configuration is empty or reads.
pub open spec fn combos_read(c: AppConfig) -> bool {
    &&& forall|i: int|
        0 <= i < c.hotkeys.bindings@.len() ==> (#[trigger] c.hotkeys.bindings@[i]).1@.len() == 0 || combo_spec(
            c.hotkeys.bindings@[i].1@,
        ) is Ok
    &&& forall|i: int|
        0 <= i < c.cycle_hotkeys@.len() ==> (#[trigger] c.cycle_hotkeys@[i]).hotkey@.len() == 0 || combo_spec(
            c.cycle_hotkeys@[i].hotkey@,
        ) is Ok
    &&& forall|i: int|
        0 <= i < c.direct_hotkeys@.len() ==> (#[trigger] c.direct_hotkeys@[i]).hotkey@.len() == 0 || combo_spec(
            c.direct_hotkeys@[i].hotkey@,
        ) is Ok
}

impl SettingsApp {
    /// Recomputes every hotkey error message from the configuration; the
    /// configuration and everything else is left as it was.
    pub fn validate_hotkeys(&mut self)
        ensures
            validated(*final(self)),
            final(self).config == old(self).config,
            final(self).monitors == old(self).monitors,
            final(self).input_edits == old(self).input_edits,
            final(self).exit_item_id == old(self).exit_item_id,
            final(self).tx == old(self).tx,
            final(self).selected_tab == old(self).selected_tab,
            final(self).capture_general == old(self).capture_general,
            final(self).captures_cycle == old(self).captures_cycle,
            final(self).captures_direct == old(self).captures_direct,
    {
        let mut errs: Vec<(String, String)> = Vec::new();
        let b = &self.config.hotkeys.bindings;
        let mut i: usize = 0;
        while i < b.len()
            invariant
                i <= b.len(),
                errors_view(errs@) == binding_errors(b@, i as int),
            decreases b.len() - i,
        {
            let msg = combo_error(b[i].1.as_str());
            if !msg.as_str().is_empty() {
                let ghost before = errs@;
                errs.push((b[i].0.clone(), msg));
                assert(errors_view(errs@) =~= errors_view(before).push((b@[i as int].0@, error_text(b@[i as int].1@))));
            }
            i = i + 1;
        }
        let mut cyc: Vec<String> = Vec::new();
        let cs = &self.config.cycle_hotkeys;
        let mut j: usize = 0;
        while j < cs.len()
            invariant
                j <= cs.len(),
                cyc@.len() == j,
                forall|q: int| 0 <= q < j ==> (#[trigger] cyc@[q])@ == error_text(cs@[q].hotkey@),
            decreases cs.len() - j,
        {
            cyc.push(combo_error(cs[j].hotkey.as_str()));
            j = j + 1;
        }
        let mut dir: Vec<String> = Vec::new();
        let ds = &self.config.direct_hotkeys;
        let mut k: usize = 0;
        while k < ds.len()
            invariant
                k <= ds.len(),
                dir@.len() == k,
                forall|q: int| 0 <= q < k ==> (#[trigger] dir@[q])@ == error_text(ds@[q].hotkey@),
            decreases ds.len() - k,
        {
            dir.push(combo_error(ds[k].hotkey.as_str()));
            k = k + 1;
        }
        self.hotkey_errors = errs;
        self.cycle_hotkey_errors = cyc;
        self.direct_hotkey_errors = dir;
    }

    /// Saving is allowed when no hotkey error is shown.
    pub fn can_save(&self) -> (r: bool)
        ensures
            r == save_allowed(*self),
    {
        if self.hotkey_errors.len() > 0 {
            return false;
        }
        let mut i: usize = 0;
        while i < self.cycle_hotkey_errors.len()
            invariant
                i <= self.cycle_hotkey_errors.len(),
                forall|q: int| 0 <= q < i ==> (#[trigger] self.cycle_hotkey_errors@[q])@.len() == 0,
            decreases self.cycle_hotkey_errors.len() - i,
        {
            if !self.cycle_hotkey_errors[i].as_str().is_empty() {
                return false;
            }
            i = i + 1;
        }
        let mut j: usize = 0;
        while j < self.direct_hotkey_errors.len()
            invariant
                j <= self.direct_hotkey_errors.len(),
                forall|q: int| 0 <= q < j ==> (#[trigger] self.direct_hotkey_errors@[q])@.len() == 0,
            decreases self.direct_hotkey_errors.len() - j,
        {
            if !self.direct_hotkey_errors[j].as_str().is_empty() {
                return false;
            }
            j = j + 1;
        }
        true
    }
}

// ---------------------------------------------------------------------------
// Capturing a combo from key presses
// ---------------------------------------------------------------------------

/// A key press as the capture button sees it.
pub enum KeyPress {
    Escape,
    /// `A` + n, for n < 26
    Letter(u8),
    /// `0` + n, for n < 10
    Digit(u8),
    /// F1..F12
    Function(u8),
    Other,
}

/// The token a key stands for in a combo string, if it can be bound.
pub open spec fn key_token_spec(k: KeyPress) -> Option<Seq<char>> {
    match k {
        KeyPress::Letter(n) => if n < 26 {
            Some(seq![((65 + n) as u8) as char])
        } else {
            None
        },
        KeyPress::Digit(n) => if n < 10 {
            Some(seq![((48 + n) as u8) as char])
        } else {
            None
        },
        KeyPress::Function(n) => if 1 <= n <= 12 {
            Some(seq!['F'] + crate::numbers::dec_text(n as nat))
        } else {
            None
        },
        _ => None,
    }
}

/// F1..F12.
pub open spec fn function_key(k: KeyPress) -> bool {
    k matches KeyPress::Function(n) && 1 <= n <= 12
}

/// The token of a key that can be bound.
pub fn key_token(k: &KeyPress) -> (r: Option<String>)
    ensures
        match r {
            Some(t) => key_token_spec(*k) == Some(t@),
            None => key_token_spec(*k) is None,
        },
{
    match k {
        KeyPress::Letter(n) => if *n < 26 {
            let v = vec![(65 + *n) as char];
            Some(string_of(&v))
        } else {
            None
        },
        KeyPress::Digit(n) => if *n < 10 {
            let v = vec![(48 + *n) as char];
            Some(string_of(&v))
        } else {
            None
        },
        KeyPress::Function(n) => if 1 <= *n && *n <= 12 {
            let mut v = vec!['F'];
            crate::numbers::push_dec(&mut v, *n as usize);
            Some(string_of(&v))
        } else {
            None
        },
        _ => None,
    }
}

pub fn is_function_key(k: &KeyPress) -> (r: bool)
    ensures
        r == function_key(*k),
{
    match k {
        KeyPress::Function(n) => 1 <= *n && *n <= 12,
        _ => false,
    }
}

/// The combo string a capture writes: the held modifiers, then the key.
pub open spec fn combo_text(ctrl: bool, alt: bool, shift: bool, token: Seq<char>) -> Seq<char> {
    (if ctrl { "Ctrl+"@ } else { Seq::empty() }) + (if alt { "Alt+"@ } else { Seq::empty() }) + (
    if shift { "Shift+"@ } else { Seq::empty() }) + token
}

/// How many of the three modifiers are held.
pub open spec fn modifier_count(ctrl: bool, alt: bool, shift: bool) -> int {
    (if ctrl { 1int } else { 0 }) + (if alt { 1int } else { 0 }) + (if shift { 1int } else { 0 })
}

impl HotkeyCapture {
    /// One key press while the button may be listening. Escape stops
    /// listening; a bindable key with enough modifiers (one for F-keys, two
    /// otherwise, which blocks Ctrl+V and the like) becomes the combo and
    /// stops listening. Returns whether the combo changed.
    pub fn on_key(&mut self, key: &KeyPress, ctrl: bool, alt: bool, shift: bool, combo: &mut String) -> (changed: bool)
        ensures
            !old(self).listening ==> !changed && *final(self) == *old(self) && *final(combo) == *old(combo),
            old(self).listening && *key is Escape ==> !changed && !final(self).listening && *final(combo) == *old(combo),
            old(self).listening && !(*key is Escape) ==> match key_token_spec(*key) {
                Some(t) => if modifier_count(ctrl, alt, shift) >= (if function_key(*key) { 1int } else { 2 }) {
                    &&& changed
                    &&& !final(self).listening
                    &&& final(combo)@ == combo_text(ctrl, alt, shift, t)
                } else {
                    !changed && final(self).listening && *final(combo) == *old(combo)
                },
                None => !changed && final(self).listening && *final(combo) == *old(combo),
            },
    {
        if !self.listening {
            return false;
        }
        if let KeyPress::Escape = key {
            self.listening = false;
            return false;
        }
        let token = match key_token(key) {
            Some(t) => t,
            None => return false,
        };
        let count: u8 = (if ctrl { 1u8 } else { 0 }) + (if alt { 1u8 } else { 0 }) + (if shift { 1u8 } else { 0 });
        let required: u8 = if is_function_key(key) { 1 } else { 2 };
        if count < required {
            return false;
        }
        let mut v: Vec<char> = Vec::new();
        if ctrl {
            crate::text::push_str(&mut v, "Ctrl+");
        }
        if alt {
            crate::text::push_str(&mut v, "Alt+");
        }
        if shift {
            crate::text::push_str(&mut v, "Shift+");
        }
        crate::text::push_str(&mut v, token.as_str());
        proof {
            assert(v@ =~= combo_text(ctrl, alt, shift, token@));
        }
        *combo = string_of(&v);
        self.listening = false;
        true
    }
}

// ---------------------------------------------------------------------------
// After the window closes
// ---------------------------------------------------------------------------

/// `c` is `orig` with `prune_stale` applied.
pub open spec fn pruned(c: AppConfig, orig: AppConfig) -> bool {
    &&& c.monitors@ == crate::config::external_monitors(orig.monitors@)
    &&& c.hotkeys.bindings@ == crate::config::kept_bindings(orig.hotkeys.bindings@)
    &&& c.cycle_hotkeys == orig.cycle_hotkeys
    &&& c.direct_hotkeys == orig.direct_hotkeys
    &&& c.start_at_login == orig.start_at_login
}

/// The position of the last `Saved` message among the first `n`.
pub open spec fn last_saved(msgs: Seq<SettingsMsg>, n: int) -> Option<int>
    decreases n,
{
    if n <= 0 {
        None
    } else if msgs[n - 1] is Saved {
        Some(n - 1)
    } else {
        last_saved(msgs, n - 1)
    }
}

/// The outcome the messages give: an exit request wins; else the last saved
/// configuration (pruned); else the session was cancelled.
pub open spec fn outcome_spec(msgs: Seq<SettingsMsg>, r: SettingsOutcome) -> bool {
    if exists|i: int| 0 <= i < msgs.len() && #[trigger] msgs[i] is ExitRequested {
        r is ExitRequested
    } else {
        match last_saved(msgs, msgs.len() as int) {
            Some(i) => r matches SettingsOutcome::Saved(c) && pruned(c, msgs[i]->Saved_0),
            None => r is Cancelled,
        }
    }
}

/// Folds the messages the window sent into its outcome.
pub fn settings_outcome(msgs: Vec<SettingsMsg>) -> (r: SettingsOutcome)
    ensures
        outcome_spec(msgs@, r),
{
    let ghost all = msgs@;
    let mut rest = msgs;
    let mut outcome = SettingsOutcome::Cancelled;
    let n = rest.len();
    let mut i: usize = 0;
    while i < n
        invariant
            n == all.len(),
            all == msgs@,
            i <= n,
            rest@ == all.skip(i as int),
            forall|j: int| 0 <= j < i ==> !(#[trigger] all[j] is ExitRequested),
            match last_saved(all, i as int) {
                Some(j) => outcome matches SettingsOutcome::Saved(c) && pruned(c, all[j]->Saved_0),
                None => outcome is Cancelled,
            },
        decreases n - i,
    {
        let msg = rest.remove(0);
        assert(msg == all[i as int]);
        assert(rest@ =~= all.skip(i + 1));
        match msg {
            SettingsMsg::ExitRequested => {
                assert(all[i as int] is ExitRequested);
                return SettingsOutcome::ExitRequested;
            },
            SettingsMsg::Saved(cfg) => {
                let mut cfg = cfg;
                cfg.prune_stale();
                outcome = SettingsOutcome::Saved(cfg);
            },
            SettingsMsg::Closed => {},
        }
        i = i + 1;
    }
    outcome
}

// ---------------------------------------------------------------------------
// Editing in the window
// ---------------------------------------------------------------------------

/// Some DDC-reported input has only a generic `Input 0x..` label.
pub open spec fn unknown_inputs(meta: MonitorMeta) -> bool {
    exists|i: int|
        0 <= i < meta.available_inputs@.len() && match_at(
            (#[trigger] meta.available_inputs@[i]).0@,
            "Input 0x"@,
            0,
        )
}

/// Whether the monitor's DDC list holds inputs with generic labels.
pub fn has_unknown_inputs(meta: &MonitorMeta) -> (r: bool)
    ensures
        r == unknown_inputs(*meta),
{
    let prefix = chars_of("Input 0x");
    let mut i: usize = 0;
    while i < meta.available_inputs.len()
        invariant
            prefix@ == "Input 0x"@,
            i <= meta.available_inputs.len(),
            forall|j: int|
                0 <= j < i ==> !match_at((#[trigger] meta.available_inputs@[j]).0@, "Input 0x"@, 0),
        decreases meta.available_inputs.len() - i,
    {
        let label = chars_of(meta.available_inputs[i].0.as_str());
        if matches_at(&label, &prefix, 0) {
            return true;
        }
        i = i + 1;
    }
    false
}

impl InputEdit {
    /// Takes the code from the code text when it reads as a byte.
    pub fn apply_hex_text(&mut self)
        ensures
            final(self).label == old(self).label,
            final(self).hex_str == old(self).hex_str,
            final(self).code == match parse_hex_spec(old(self).hex_str@) {
                Some(c) => c,
                None => old(self).code,
            },
    {
        if let Some(c) = parse_hex(self.hex_str.as_str()) {
            self.code = c;
        }
    }

    /// Resets the row to the detected label of its code: the monitor's own
    /// label for it, else the standard label, else `Input 0xHH`.
    pub fn reset(&mut self, meta: &MonitorMeta)
        ensures
            final(self).code == old(self).code,
            final(self).hex_str@ == hex_code_text(old(self).code),
            final(self).label@ == match detected_label(meta.available_inputs@, old(self).code, 0) {
                Some(l) => l,
                None => input_label_spec(old(self).code),
            },
    {
        let found = detected(meta, self.code);
        self.label = match found {
            Some(l) => l,
            None => input_label(self.code),
        };
        self.hex_str = hex_code_string(self.code);
    }
}

fn detected(meta: &MonitorMeta, code: u8) -> (r: Option<String>)
    ensures
        match r {
            Some(l) => detected_label(meta.available_inputs@, code, 0) == Some(l@),
            None => detected_label(meta.available_inputs@, code, 0) is None,
        },
{
    label_of(&meta.available_inputs, code)
}

/// The label of the first input with code `code`.
pub fn label_of(inputs: &Vec<(String, u8)>, code: u8) -> (r: Option<String>)
    ensures
        match r {
            Some(l) => detected_label(inputs@, code, 0) == Some(l@),
            None => detected_label(inputs@, code, 0) is None,
        },
{
    let mut i: usize = 0;
    while i < inputs.len()
        invariant
            i <= inputs.len(),
            detected_label(inputs@, code, 0) == detected_label(inputs@, code, i as int),
        decreases inputs.len() - i,
    {
        if inputs[i].1 == code {
            return Some(inputs[i].0.clone());
        }
        i = i + 1;
    }
    None
}

/// The text an input picker shows for `code`: the label of the first input
/// with that code, else `fallback` ("None" or "?").
pub fn label_or(inputs: &Vec<(String, u8)>, code: u8, fallback: &str) -> (r: String)
    ensures
        r@ == match detected_label(inputs@, code, 0) {
            Some(l) => l,
            None => fallback@,
        },
{
    match label_of(inputs, code) {
        Some(l) => l,
        None => owned(fallback),
    }
}

/// The name shown for a monitor id: the display name of the first monitor
/// with that id, else the id itself.
pub open spec fn shown_name(ms: Seq<MonitorMeta>, id: Seq<char>) -> Seq<char> {
    match meta_pos(ms, id, 0) {
        Some(k) => ms[k].display_name@,
        None => id,
    }
}

pub fn display_name_of(monitors: &Vec<MonitorMeta>, id: &str) -> (r: String)
    ensures
        r@ == shown_name(monitors@, id@),
{
    let mut m: usize = 0;
    while m < monitors.len()
        invariant
            m <= monitors.len(),
            meta_pos(monitors@, id@, 0) == meta_pos(monitors@, id@, m as int),
        decreases monitors.len() - m,
    {
        if crate::text::str_eq(monitors[m].backend_id.as_str(), id) {
            return monitors[m].display_name.clone();
        }
        m = m + 1;
    }
    owned(id)
}

impl SettingsApp {
    /// Whether a tray menu event (by its item id) is the Exit item, which
    /// closes the window and ends the program.
    pub fn is_exit_event(&self, item_id: &str) -> (r: bool)
        ensures
            r == (item_id@ == self.exit_item_id@),
    {
        crate::text::str_eq(item_id, self.exit_item_id.as_str())
    }
}

/// The label of the first input at or after `i` with code `code`.
pub open spec fn detected_label(s: Seq<(String, u8)>, code: u8, i: int) -> Option<Seq<char>>
    decreases s.len() - i,
{
    if i < 0 || i >= s.len() {
        None
    } else if s[i].1 == code {
        Some(s[i].0@)
    } else {
        detected_label(s, code, i + 1)
    }
}

/// `s` without any `code`, in order (`retain(|c| c != code)`).
pub open spec fn without(s: Seq<u8>, code: u8) -> Seq<u8>
    decreases s.len(),
{
    if s.len() == 0 {
        s
    } else if s.last() == code {
        without(s.drop_last(), code)
    } else {
        without(s.drop_last(), code).push(s.last())
    }
}

/// Shows (`visible`) or hides an input code in the tray menu.
pub fn set_input_visible(hidden: &mut Vec<u8>, code: u8, visible: bool)
    ensures
        visible ==> final(hidden)@ == without(old(hidden)@, code),
        !visible && old(hidden)@.contains(code) ==> final(hidden)@ == old(hidden)@,
        !visible && !old(hidden)@.contains(code) ==> final(hidden)@ == old(hidden)@.push(code),
{
    if visible {
        let ghost s = hidden@;
        let mut kept: Vec<u8> = Vec::new();
        let mut i: usize = 0;
        while i < hidden.len()
            invariant
                hidden@ == s,
                i <= hidden.len(),
                kept@ == without(s.take(i as int), code),
            decreases hidden.len() - i,
        {
            assert(s.take(i + 1).drop_last() =~= s.take(i as int));
            assert(s.take(i + 1).last() == s[i as int]);
            if hidden[i] != code {
                kept.push(hidden[i]);
            }
            i = i + 1;
        }
        assert(s.take(i as int) =~= s);
        *hidden = kept;
    } else {
        let mut i: usize = 0;
        while i < hidden.len()
            invariant
                !visible,
                hidden@ == old(hidden)@,
                i <= hidden.len(),
                forall|j: int| 0 <= j < i ==> hidden@[j] != code,
            decreases hidden.len() - i,
        {
            if hidden[i] == code {
                return;
            }
            i = i + 1;
        }
        hidden.push(code);
    }
}

/// Adds a row "Input-{n+1}" on code 0x11.
pub fn add_input_row(edits: &mut Vec<InputEdit>)
    requires
        old(edits)@.len() < usize::MAX,
    ensures
        final(edits)@.len() == old(edits)@.len() + 1,
        final(edits)@.drop_last() == old(edits)@,
        final(edits)@.last().label@ == "Input-"@ + crate::numbers::dec_text((old(edits)@.len() + 1) as nat),
        final(edits)@.last().code == 0x11,
        final(edits)@.last().hex_str@ == "0x11"@,
{
    let mut label = chars_of("Input-");
    crate::numbers::push_dec(&mut label, edits.len() + 1);
    let ghost before = edits@;
    edits.push(InputEdit { label: string_of(&label), code: 0x11, hex_str: owned("0x11") });
    assert(edits@.drop_last() =~= before);
}

/// The code of the `k`-th offered input, or `default` when there are fewer.
pub open spec fn nth_code(s: Seq<(Seq<char>, u8)>, k: int, default: u8) -> u8 {
    if k < s.len() {
        s[k].1
    } else {
        default
    }
}

/// `v` resized to `n`, new places holding empty messages (`Vec::resize`).
pub open spec fn resized(old_v: Seq<String>, new_v: Seq<String>, n: int) -> bool {
    &&& new_v.len() == n
    &&& forall|i: int| 0 <= i < n && i < old_v.len() ==> #[trigger] new_v[i] == old_v[i]
    &&& forall|i: int| old_v.len() <= i < n ==> (#[trigger] new_v[i])@.len() == 0
}

fn resize_messages(v: &mut Vec<String>, n: usize)
    ensures
        resized(old(v)@, final(v)@, n as int),
{
    if v.len() > n {
        while v.len() > n
            invariant
                n <= v@.len() <= old(v)@.len(),
                forall|i: int| 0 <= i < v@.len() ==> #[trigger] v@[i] == old(v)@[i],
            decreases v.len(),
        {
            v.pop();
        }
    } else {
        while v.len() < n
            invariant
                old(v)@.len() <= v@.len() <= n,
                forall|i: int| 0 <= i < old(v)@.len() ==> #[trigger] v@[i] == old(v)@[i],
                forall|i: int| old(v)@.len() <= i < v@.len() ==> (#[trigger] v@[i])@.len() == 0,
            decreases n - v.len(),
        {
            v.push(String::new());
        }
    }
}

/// The first monitor's id, or the empty string.
pub open spec fn first_monitor_id(ms: Seq<MonitorMeta>) -> Seq<char> {
    if ms.len() > 0 {
        ms[0].backend_id@
    } else {
        Seq::empty()
    }
}

impl SettingsApp {
    /// The monitor's configuration entry as the Monitors tab shows it: one
    /// is made (named after the monitor) when missing, and a name that is
    /// just the device id is replaced by the display name.
    pub fn prepare_monitor_entry(&mut self, meta_idx: usize)
        requires
            meta_idx < old(self).monitors@.len(),
        ensures
            ({
                let meta = old(self).monitors@[meta_idx as int];
                let ms = old(self).config.monitors@;
                let ns = final(self).config.monitors@;
                match key_index(ms, meta.backend_id@) {
                    Some(i) => {
                        &&& ns.len() == ms.len()
                        &&& forall|j: int| 0 <= j < ns.len() && j != i ==> ns[j] == ms[j]
                        &&& ns[i].0 == ms[i].0
                        &&& ns[i].1.default_input == ms[i].1.default_input
                        &&& ns[i].1.inputs == ms[i].1.inputs
                        &&& ns[i].1.hidden_inputs == ms[i].1.hidden_inputs
                        &&& ns[i].1.name@ == if ms[i].1.name@ == meta.backend_id@ {
                            meta.display_name@
                        } else {
                            ms[i].1.name@
                        }
                    },
                    None => {
                        &&& ns.len() == ms.len() + 1
                        &&& ns.drop_last() == ms
                        &&& ns.last().0@ == meta.backend_id@
                        &&& ns.last().1.name@ == meta.display_name@
                        &&& ns.last().1.default_input is None
                        &&& ns.last().1.inputs@.len() == 0
                        &&& ns.last().1.hidden_inputs@.len() == 0
                    },
                }
            }),
            final(self).config.hotkeys == old(self).config.hotkeys,
            final(self).config.cycle_hotkeys == old(self).config.cycle_hotkeys,
            final(self).config.direct_hotkeys == old(self).config.direct_hotkeys,
            final(self).config.start_at_login == old(self).config.start_at_login,
            final(self).monitors == old(self).monitors,
            final(self).input_edits == old(self).input_edits,
    {
        let id = self.monitors[meta_idx].backend_id.clone();
        let display_name = self.monitors[meta_idx].display_name.clone();
        proof {
            lemma_key_pos(self.config.monitors@, id@, 0);
        }
        let existed = position_of(&self.config.monitors, id.as_str()).is_some();
        let mon = self.config.monitor_mut(id.as_str());
        if !existed {
            mon.name = display_name.clone();
        }
        if mon.name == id {
            mon.name = display_name;
        }
    }

    /// Makes sure the "all_default" binding exists (empty when new).
    pub fn ensure_general_binding(&mut self)
        ensures
            ({
                let b = old(self).config.hotkeys.bindings@;
                let nb = final(self).config.hotkeys.bindings@;
                match key_index(b, "all_default"@) {
                    Some(_) => nb == b,
                    None => nb.len() == b.len() + 1 && nb.drop_last() == b && nb.last().0@ == "all_default"@
                        && nb.last().1@.len() == 0,
                }
            }),
            final(self).config.monitors == old(self).config.monitors,
            final(self).config.cycle_hotkeys == old(self).config.cycle_hotkeys,
            final(self).config.direct_hotkeys == old(self).config.direct_hotkeys,
            final(self).config.start_at_login == old(self).config.start_at_login,
    {
        if position_of(&self.config.hotkeys.bindings, "all_default").is_none() {
            let ghost before = self.config.hotkeys.bindings@;
            self.config.hotkeys.bindings.push((owned("all_default"), String::new()));
            assert(self.config.hotkeys.bindings@.drop_last() =~= before);
        }
    }

    /// Adds a cycle hotkey for the first monitor, between its first two
    /// offered inputs (0x11 and 0x0F when fewer are offered).
    pub fn add_cycle_hotkey(&mut self)
        ensures
            ({
                let first = first_monitor_id(old(self).monitors@);
                let ins = inputs_for_spec(*old(self), first);
                let cs = final(self).config.cycle_hotkeys@;
                &&& cs.len() == old(self).config.cycle_hotkeys@.len() + 1
                &&& cs.drop_last() == old(self).config.cycle_hotkeys@
                &&& cs.last().monitor_id@ == first
                &&& cs.last().input_a == nth_code(ins, 0, 0x11)
                &&& cs.last().input_b == nth_code(ins, 1, 0x0F)
                &&& cs.last().hotkey@.len() == 0
            }),
            final(self).cycle_hotkey_errors@.len() == old(self).cycle_hotkey_errors@.len() + 1,
            final(self).cycle_hotkey_errors@.drop_last() == old(self).cycle_hotkey_errors@,
            final(self).cycle_hotkey_errors@.last()@.len() == 0,
            final(self).captures_cycle@.len() == old(self).captures_cycle@.len() + 1,
            final(self).captures_cycle@.drop_last() == old(self).captures_cycle@,
            !final(self).captures_cycle@.last().listening,
            final(self).config.monitors == old(self).config.monitors,
            final(self).config.direct_hotkeys == old(self).config.direct_hotkeys,
            final(self).monitors == old(self).monitors,
            final(self).input_edits == old(self).input_edits,
    {
        let first_id = if self.monitors.len() > 0 {
            self.monitors[0].backend_id.clone()
        } else {
            String::new()
        };
        let inputs = self.inputs_for(first_id.as_str());
        let a = if inputs.len() > 0 {
            inputs[0].1
        } else {
            0x11
        };
        let b = if inputs.len() > 1 {
            inputs[1].1
        } else {
            0x0F
        };
        let ghost before = (self.config.cycle_hotkeys@, self.cycle_hotkey_errors@, self.captures_cycle@);
        self.config.cycle_hotkeys.push(CycleHotkey { monitor_id: first_id, input_a: a, input_b: b, hotkey: String::new() });
        self.cycle_hotkey_errors.push(String::new());
        self.captures_cycle.push(HotkeyCapture { listening: false });
        assert(self.config.cycle_hotkeys@.drop_last() =~= before.0);
        assert(self.cycle_hotkey_errors@.drop_last() =~= before.1);
        assert(self.captures_cycle@.drop_last() =~= before.2);
    }

    /// Removes cycle hotkey `idx` with its message and capture state.
    pub fn remove_cycle_hotkey(&mut self, idx: usize)
        requires
            idx < old(self).config.cycle_hotkeys@.len(),
        ensures
            final(self).config.cycle_hotkeys@ == old(self).config.cycle_hotkeys@.remove(idx as int),
            idx < old(self).cycle_hotkey_errors@.len() ==> resized(
                old(self).cycle_hotkey_errors@.remove(idx as int),
                final(self).cycle_hotkey_errors@,
                old(self).config.cycle_hotkeys@.len() - 1,
            ),
            idx >= old(self).cycle_hotkey_errors@.len() ==> resized(
                old(self).cycle_hotkey_errors@,
                final(self).cycle_hotkey_errors@,
                old(self).config.cycle_hotkeys@.len() - 1,
            ),
            old(self).cycle_hotkey_errors@.len() == old(self).config.cycle_hotkeys@.len()
                ==> final(self).cycle_hotkey_errors@ == old(self).cycle_hotkey_errors@.remove(idx as int),
            idx < old(self).captures_cycle@.len() ==> final(self).captures_cycle@ == old(self).captures_cycle@.remove(idx as int),
            idx >= old(self).captures_cycle@.len() ==> final(self).captures_cycle@ == old(self).captures_cycle@,
            final(self).config.monitors == old(self).config.monitors,
            final(self).config.direct_hotkeys == old(self).config.direct_hotkeys,
    {
        self.config.cycle_hotkeys.remove(idx);
        if idx < self.cycle_hotkey_errors.len() {
            self.cycle_hotkey_errors.remove(idx);
        }
        let n = self.config.cycle_hotkeys.len();
        resize_messages(&mut self.cycle_hotkey_errors, n);
        if idx < self.captures_cycle.len() {
            self.captures_cycle.remove(idx);
        }
    }

    /// Points cycle hotkey `idx` at monitor `mid` and its first two offered
    /// inputs (0x11 and 0x0F when fewer are offered).
    pub fn select_cycle_monitor(&mut self, idx: usize, mid: &str)
        requires
            idx < old(self).config.cycle_hotkeys@.len(),
        ensures
            ({
                let ins = inputs_for_spec(*old(self), mid@);
                let cs = final(self).config.cycle_hotkeys@;
                &&& cs.len() == old(self).config.cycle_hotkeys@.len()
                &&& forall|j: int| 0 <= j < cs.len() && j != idx ==> cs[j] == old(self).config.cycle_hotkeys@[j]
                &&& cs[idx as int].monitor_id@ == mid@
                &&& cs[idx as int].input_a == nth_code(ins, 0, 0x11)
                &&& cs[idx as int].input_b == nth_code(ins, 1, 0x0F)
                &&& cs[idx as int].hotkey == old(self).config.cycle_hotkeys@[idx as int].hotkey
            }),
            final(self).config.monitors == old(self).config.monitors,
            final(self).config.direct_hotkeys == old(self).config.direct_hotkeys,
            final(self).monitors == old(self).monitors,
            final(self).input_edits == old(self).input_edits,
    {
        let inputs = self.inputs_for(mid);
        let a = if inputs.len() > 0 {
            inputs[0].1
        } else {
            0x11
        };
        let b = if inputs.len() > 1 {
            inputs[1].1
        } else {
            0x0F
        };
        self.config.cycle_hotkeys[idx].monitor_id = owned(mid);
        self.config.cycle_hotkeys[idx].input_a = a;
        self.config.cycle_hotkeys[idx].input_b = b;
    }

    /// Adds a direct hotkey for the first monitor and its first offered
    /// input (0x11 when none is offered).
    pub fn add_direct_hotkey(&mut self)
        ensures
            ({
                let first = first_monitor_id(old(self).monitors@);
                let ins = inputs_for_spec(*old(self), first);
                let ds = final(self).config.direct_hotkeys@;
                &&& ds.len() == old(self).config.direct_hotkeys@.len() + 1
                &&& ds.drop_last() == old(self).config.direct_hotkeys@
                &&& ds.last().monitor_id@ == first
                &&& ds.last().input == nth_code(ins, 0, 0x11)
                &&& ds.last().hotkey@.len() == 0
            }),
            final(self).direct_hotkey_errors@.len() == old(self).direct_hotkey_errors@.len() + 1,
            final(self).direct_hotkey_errors@.drop_last() == old(self).direct_hotkey_errors@,
            final(self).direct_hotkey_errors@.last()@.len() == 0,
            final(self).captures_direct@.len() == old(self).captures_direct@.len() + 1,
            final(self).captures_direct@.drop_last() == old(self).captures_direct@,
            !final(self).captures_direct@.last().listening,
            final(self).config.monitors == old(self).config.monitors,
            final(self).config.cycle_hotkeys == old(self).config.cycle_hotkeys,
            final(self).monitors == old(self).monitors,
            final(self).input_edits == old(self).input_edits,
    {
        let first_id = if self.monitors.len() > 0 {
            self.monitors[0].backend_id.clone()
        } else {
            String::new()
        };
        let inputs = self.inputs_for(first_id.as_str());
        let input = if inputs.len() > 0 {
            inputs[0].1
        } else {
            0x11
        };
        let ghost before = (self.config.direct_hotkeys@, self.direct_hotkey_errors@, self.captures_direct@);
        self.config.direct_hotkeys.push(DirectHotkey { monitor_id: first_id, input, hotkey: String::new() });
        self.direct_hotkey_errors.push(String::new());
        self.captures_direct.push(HotkeyCapture { listening: false });
        assert(self.config.direct_hotkeys@.drop_last() =~= before.0);
        assert(self.direct_hotkey_errors@.drop_last() =~= before.1);
        assert(self.captures_direct@.drop_last() =~= before.2);
    }

    /// Removes direct hotkey `idx` with its message and capture state.
    pub fn remove_direct_hotkey(&mut self, idx: usize)
        requires
            idx < old(self).config.direct_hotkeys@.len(),
        ensures
            final(self).config.direct_hotkeys@ == old(self).config.direct_hotkeys@.remove(idx as int),
            idx < old(self).direct_hotkey_errors@.len() ==> resized(
                old(self).direct_hotkey_errors@.remove(idx as int),
                final(self).direct_hotkey_errors@,
                old(self).config.direct_hotkeys@.len() - 1,
            ),
            idx >= old(self).direct_hotkey_errors@.len() ==> resized(
                old(self).direct_hotkey_errors@,
                final(self).direct_hotkey_errors@,
                old(self).config.direct_hotkeys@.len() - 1,
            ),
            old(self).direct_hotkey_errors@.len() == old(self).config.direct_hotkeys@.len()
                ==> final(self).direct_hotkey_errors@ == old(self).direct_hotkey_errors@.remove(idx as int),
            idx < old(self).captures_direct@.len() ==> final(self).captures_direct@ == old(self).captures_direct@.remove(idx as int),
            idx >= old(self).captures_direct@.len() ==> final(self).captures_direct@ == old(self).captures_direct@,
            final(self).config.monitors == old(self).config.monitors,
            final(self).config.cycle_hotkeys == old(self).config.cycle_hotkeys,
    {
        self.config.direct_hotkeys.remove(idx);
        if idx < self.direct_hotkey_errors.len() {
            self.direct_hotkey_errors.remove(idx);
        }
        let n = self.config.direct_hotkeys.len();
        resize_messages(&mut self.direct_hotkey_errors, n);
        if idx < self.captures_direct.len() {
            self.captures_direct.remove(idx);
        }
    }

    /// Points direct hotkey `idx` at monitor `mid` and its first offered
    /// input (0x11 when none is offered).
    pub fn select_direct_monitor(&mut self, idx: usize, mid: &str)
        requires
            idx < old(self).config.direct_hotkeys@.len(),
        ensures
            ({
                let ins = inputs_for_spec(*old(self), mid@);
                let ds = final(self).config.direct_hotkeys@;
                &&& ds.len() == old(self).config.direct_hotkeys@.len()
                &&& forall|j: int| 0 <= j < ds.len() && j != idx ==> ds[j] == old(self).config.direct_hotkeys@[j]
                &&& ds[idx as int].monitor_id@ == mid@
                &&& ds[idx as int].input == nth_code(ins, 0, 0x11)
                &&& ds[idx as int].hotkey == old(self).config.direct_hotkeys@[idx as int].hotkey
            }),
            final(self).config.monitors == old(self).config.monitors,
            final(self).config.cycle_hotkeys == old(self).config.cycle_hotkeys,
            final(self).monitors == old(self).monitors,
            final(self).input_edits == old(self).input_edits,
    {
        let inputs = self.inputs_for(mid);
        let input = if inputs.len() > 0 {
            inputs[0].1
        } else {
            0x11
        };
        self.config.direct_hotkeys[idx].monitor_id = owned(mid);
        self.config.direct_hotkeys[idx].input = input;
    }
}

// ---------------------------------------------------------------------------
// Saving: the edit buffers written back into the configuration
// ---------------------------------------------------------------------------

/// A monitor entry as (name, default input, inputs, hidden codes).
pub open spec fn monitor_view(m: MonitorConfig) -> (Seq<char>, Option<u8>, Seq<(Seq<char>, u8)>, Seq<u8>) {
    (m.name@, m.default_input, pairs_view(m.inputs@), m.hidden_inputs@)
}

pub open spec fn monitors_view(ms: Seq<(String, MonitorConfig)>) -> Seq<
    (Seq<char>, (Seq<char>, Option<u8>, Seq<(Seq<char>, u8)>, Seq<u8>)),
> {
    ms.map_values(|p: (String, MonitorConfig)| (p.0@, monitor_view(p.1)))
}

/// The first position at or after `i` whose key is `key`.
pub open spec fn view_key_pos<V>(s: Seq<(Seq<char>, V)>, key: Seq<char>, i: int) -> Option<int>
    decreases s.len() - i,
{
    if i < 0 || i >= s.len() {
        None
    } else if s[i].0 == key {
        Some(i)
    } else {
        view_key_pos(s, key, i + 1)
    }
}

/// `collect::<HashMap<_, _>>()` of the first `n` rows: a label seen again
/// takes the later code.
pub open spec fn collected(edits: Seq<InputEdit>, n: int) -> Seq<(Seq<char>, u8)>
    decreases n,
{
    if n <= 0 {
        Seq::empty()
    } else {
        let before = collected(edits, n - 1);
        let e = edits[n - 1];
        match view_key_pos(before, e.label@, 0) {
            Some(p) => before.update(p, (e.label@, e.code)),
            None => before.push((e.label@, e.code)),
        }
    }
}

/// The monitors with `key`'s inputs set to `ins`; a missing entry is added
/// with no name, default or hidden inputs.
pub open spec fn with_inputs(
    mv: Seq<(Seq<char>, (Seq<char>, Option<u8>, Seq<(Seq<char>, u8)>, Seq<u8>))>,
    key: Seq<char>,
    ins: Seq<(Seq<char>, u8)>,
) -> Seq<(Seq<char>, (Seq<char>, Option<u8>, Seq<(Seq<char>, u8)>, Seq<u8>))> {
    match view_key_pos(mv, key, 0) {
        Some(i) => mv.update(i, (key, (mv[i].1.0, mv[i].1.1, ins, mv[i].1.3))),
        None => mv.push((key, (Seq::empty(), None, ins, Seq::empty()))),
    }
}

/// The monitors after the first `n` buffers are written back.
pub open spec fn synced(
    mv: Seq<(Seq<char>, (Seq<char>, Option<u8>, Seq<(Seq<char>, u8)>, Seq<u8>))>,
    e: Seq<(String, Vec<InputEdit>)>,
    n: int,
) -> Seq<(Seq<char>, (Seq<char>, Option<u8>, Seq<(Seq<char>, u8)>, Seq<u8>))>
    decreases n,
{
    if n <= 0 {
        mv
    } else {
        with_inputs(synced(mv, e, n - 1), e[n - 1].0@, collected(e[n - 1].1@, e[n - 1].1@.len() as int))
    }
}

pub proof fn lemma_view_key_pos<V>(s: Seq<(Seq<char>, V)>, key: Seq<char>, i: int)
    requires
        0 <= i,
    ensures
        match view_key_pos(s, key, i) {
            Some(p) => i <= p < s.len() && s[p].0 == key,
            None => forall|j: int| i <= j < s.len() ==> s[j].0 != key,
        },
    decreases s.len() - i,
{
    if i < s.len() && s[i].0 != key {
        lemma_view_key_pos(s, key, i + 1);
    }
}

/// Writing the edit buffers back changes only inputs: every monitor entry
/// already there keeps its id, name, default input and hidden inputs, and
/// entries are only ever added after them.
pub proof fn saving_keeps_other_monitor_settings(
    mv: Seq<(Seq<char>, (Seq<char>, Option<u8>, Seq<(Seq<char>, u8)>, Seq<u8>))>,
    e: Seq<(String, Vec<InputEdit>)>,
    n: int,
)
    ensures
        synced(mv, e, n).len() >= mv.len(),
        forall|i: int|
            0 <= i < mv.len() ==> {
                let after = #[trigger] synced(mv, e, n)[i];
                &&& after.0 == mv[i].0
                &&& after.1.0 == mv[i].1.0
                &&& after.1.1 == mv[i].1.1
                &&& after.1.3 == mv[i].1.3
            },
    decreases n,
{
    if n > 0 {
        saving_keeps_other_monitor_settings(mv, e, n - 1);
        let before = synced(mv, e, n - 1);
        let key = e[n - 1].0@;
        lemma_view_key_pos(before, key, 0);
    }
}

proof fn lemma_pairs_key_pos(v: Seq<(String, u8)>, key: Seq<char>, i: int)
    ensures
        crate::config::key_pos(v, key, i) == view_key_pos(pairs_view(v), key, i),
    decreases v.len() - i,
{
    if 0 <= i < v.len() {
        lemma_pairs_key_pos(v, key, i + 1);
    }
}

proof fn lemma_monitors_key_pos(v: Seq<(String, MonitorConfig)>, key: Seq<char>, i: int)
    ensures
        crate::config::key_pos(v, key, i) == view_key_pos(monitors_view(v), key, i),
    decreases v.len() - i,
{
    if 0 <= i < v.len() {
        lemma_monitors_key_pos(v, key, i + 1);
    }
}

/// The rows collected into one input per label.
fn collect_edits(edits: &Vec<InputEdit>) -> (r: Vec<(String, u8)>)
    ensures
        pairs_view(r@) == collected(edits@, edits@.len() as int),
{
    let mut out: Vec<(String, u8)> = Vec::new();
    let mut i: usize = 0;
    while i < edits.len()
        invariant
            i <= edits.len(),
            pairs_view(out@) == collected(edits@, i as int),
        decreases edits.len() - i,
    {
        let e = &edits[i];
        proof {
            lemma_pairs_key_pos(out@, e.label@, 0);
            lemma_key_pos(out@, e.label@, 0);
        }
        let ghost before = out@;
        match position_of(&out, e.label.as_str()) {
            Some(p) => {
                out.set(p, (e.label.clone(), e.code));
                assert(pairs_view(out@) =~= pairs_view(before).update(p as int, (e.label@, e.code)));
            },
            None => {
                out.push((e.label.clone(), e.code));
                assert(pairs_view(out@) =~= pairs_view(before).push((e.label@, e.code)));
            },
        }
        i = i + 1;
    }
    out
}

impl SettingsApp {
    /// Writes every edit buffer back into its monitor's configured inputs
    /// (done when the user saves).
    pub fn save_input_edits(&mut self)
        ensures
            monitors_view(final(self).config.monitors@) == synced(
                monitors_view(old(self).config.monitors@),
                old(self).input_edits@,
                old(self).input_edits@.len() as int,
            ),
            final(self).config.hotkeys == old(self).config.hotkeys,
            final(self).config.cycle_hotkeys == old(self).config.cycle_hotkeys,
            final(self).config.direct_hotkeys == old(self).config.direct_hotkeys,
            final(self).config.start_at_login == old(self).config.start_at_login,
            final(self).input_edits == old(self).input_edits,
            final(self).monitors == old(self).monitors,
            final(self).config.monitors@.len() >= old(self).config.monitors@.len(),
            forall|i: int|
                0 <= i < old(self).config.monitors@.len() ==> {
                    let after = #[trigger] final(self).config.monitors@[i];
                    let before = old(self).config.monitors@[i];
                    &&& after.0@ == before.0@
                    &&& after.1.name@ == before.1.name@
                    &&& after.1.default_input == before.1.default_input
                    &&& after.1.hidden_inputs@ == before.1.hidden_inputs@
                },
    {
        let ghost start = monitors_view(self.config.monitors@);
        let mut i: usize = 0;
        while i < self.input_edits.len()
            invariant
                i <= self.input_edits.len(),
                self.input_edits == old(self).input_edits,
                self.monitors == old(self).monitors,
                self.config.hotkeys == old(self).config.hotkeys,
                self.config.cycle_hotkeys == old(self).config.cycle_hotkeys,
                self.config.direct_hotkeys == old(self).config.direct_hotkeys,
                self.config.start_at_login == old(self).config.start_at_login,
                start == monitors_view(old(self).config.monitors@),
                monitors_view(self.config.monitors@) == synced(start, self.input_edits@, i as int),
            decreases self.input_edits.len() - i,
        {
            let inputs = collect_edits(&self.input_edits[i].1);
            let id = self.input_edits[i].0.clone();
            let ghost before = self.config.monitors@;
            proof {
                lemma_monitors_key_pos(before, id@, 0);
                lemma_key_pos(before, id@, 0);
            }
            let mon = self.config.monitor_mut(id.as_str());
            mon.inputs = inputs;
            proof {
                let after = self.config.monitors@;
                let ins = collected(self.input_edits@[i as int].1@, self.input_edits@[i as int].1@.len() as int);
                match crate::config::key_index(before, id@) {
                    Some(k) => {
                        assert(monitors_view(after) =~= monitors_view(before).update(
                            k,
                            (id@, (before[k].1.name@, before[k].1.default_input, ins, before[k].1.hidden_inputs@)),
                        ));
                    },
                    None => {
                        assert(after.last().1.name@ =~= Seq::<char>::empty());
                        assert(after.last().1.hidden_inputs@ =~= Seq::<u8>::empty());
                        assert(after.drop_last() == before);
                        assert(after[before.len() as int] == after.last());
                        assert(monitors_view(after) =~= monitors_view(before).push(
                            (id@, (Seq::<char>::empty(), None::<u8>, ins, Seq::<u8>::empty())),
                        ));
                    },
                }
            }
            i = i + 1;
        }
        proof {
            let n = self.input_edits@.len() as int;
            saving_keeps_other_monitor_settings(start, self.input_edits@, n);
            let fin = self.config.monitors@;
            let orig = old(self).config.monitors@;
            assert(monitors_view(fin).len() == fin.len());
            assert forall|i: int| 0 <= i < orig.len() implies {
                let after = #[trigger] fin[i];
                let before = orig[i];
                &&& after.0@ == before.0@
                &&& after.1.name@ == before.1.name@
                &&& after.1.default_input == before.1.default_input
                &&& after.1.hidden_inputs@ == before.1.hidden_inputs@
            } by {
                assert(monitors_view(fin)[i] == synced(start, self.input_edits@, n)[i]);
                assert(start[i] == (orig[i].0@, monitor_view(orig[i].1)));
                assert(monitors_view(fin)[i] == (fin[i].0@, monitor_view(fin[i].1)));
            }
        }
    }
}

/// What the settings window is told about each display: its backend id, its
/// model name (or the backend id), and its DDC input list.
pub fn monitor_metas(displays: &Vec<crate::ddc::DdcDisplay>) -> (r: Vec<MonitorMeta>)
    ensures
        r@.len() == displays@.len(),
        forall|i: int|
            0 <= i < r@.len() ==> {
                &&& (#[trigger] r@[i]).backend_id == displays@[i].backend_id
                &&& r@[i].display_name == match displays@[i].model_name {
                    Some(m) => m,
                    None => displays@[i].backend_id,
                }
                &&& r@[i].available_inputs@ == displays@[i].available_inputs@
            },
{
    let mut r: Vec<MonitorMeta> = Vec::new();
    let mut i: usize = 0;
    while i < displays.len()
        invariant
            i <= displays.len(),
            r@.len() == i,
            forall|j: int|
                0 <= j < i ==> {
                    &&& (#[trigger] r@[j]).backend_id == displays@[j].backend_id
                    &&& r@[j].display_name == match displays@[j].model_name {
                        Some(m) => m,
                        None => displays@[j].backend_id,
                    }
                    &&& r@[j].available_inputs@ == displays@[j].available_inputs@
                },
        decreases displays.len() - i,
    {
        let d = &displays[i];
        let display_name = match &d.model_name {
            Some(m) => m.clone(),
            None => d.backend_id.clone(),
        };
        r.push(MonitorMeta {
            backend_id: d.backend_id.clone(),
            display_name,
            available_inputs: copy_pairs(&d.available_inputs),
        });
        i = i + 1;
    }
    r
}

} // verus!
