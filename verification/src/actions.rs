//! What the program does in answer to a hotkey or a tray click, and how it
//! keeps track of each monitor's current input: each decision is a plan of
//! `(display position, input code)` switches for the caller to send.

use vstd::prelude::*;
use crate::config::{AppConfig, CycleHotkey, DirectHotkey, key_index, lemma_key_pos, position_of};
use crate::ddc::DdcDisplay;
use crate::hotkeys::{HotkeyError, HotkeyErrorView, HotkeyRegistry, combo_spec, Registration};
use crate::numbers::{dec_parse, dec_text, parse_u8, parse_usize, push_dec};
use crate::text::{chars_of, find_in, match_at, matches_at, str_eq, string_of, sub_vec};

verus! {

// ---------------------------------------------------------------------------
// Looking things up
// ---------------------------------------------------------------------------

/// The first display at or after `i` whose backend id is `id`.
pub open spec fn display_pos(ds: Seq<DdcDisplay>, id: Seq<char>, i: int) -> Option<int>
    decreases ds.len() - i,
{
    if i < 0 || i >= ds.len() {
        None
    } else if ds[i].backend_id@ == id {
        Some(i)
    } else {
        display_pos(ds, id, i + 1)
    }
}

pub proof fn lemma_display_pos(ds: Seq<DdcDisplay>, id: Seq<char>, i: int)
    requires
        0 <= i,
    ensures
        match display_pos(ds, id, i) {
            Some(k) => i <= k < ds.len() && ds[k].backend_id@ == id,
            None => forall|j: int| i <= j < ds.len() ==> ds[j].backend_id@ != id,
        },
    decreases ds.len() - i,
{
    if i < ds.len() && ds[i].backend_id@ != id {
        lemma_display_pos(ds, id, i + 1);
    }
}

/// The position of the display with backend id `id`.
pub fn display_position(ds: &Vec<DdcDisplay>, id: &str) -> (r: Option<usize>)
    ensures
        match r {
            Some(k) => display_pos(ds@, id@, 0) == Some(k as int),
            None => display_pos(ds@, id@, 0) is None,
        },
{
    let mut i: usize = 0;
    while i < ds.len()
        invariant
            i <= ds.len(),
            display_pos(ds@, id@, 0) == display_pos(ds@, id@, i as int),
        decreases ds.len() - i,
    {
        if str_eq(ds[i].backend_id.as_str(), id) {
            return Some(i);
        }
        i = i + 1;
    }
    None
}

/// The configured default input of the monitor with id `id`.
pub open spec fn monitor_default(config: AppConfig, id: Seq<char>) -> Option<u8> {
    match key_index(config.monitors@, id) {
        Some(i) => config.monitors@[i].1.default_input,
        None => None,
    }
}

fn default_of(config: &AppConfig, id: &str) -> (r: Option<u8>)
    ensures
        r == monitor_default(*config, id@),
{
    proof {
        lemma_key_pos(config.monitors@, id@, 0);
    }
    match position_of(&config.monitors, id) {
        Some(i) => config.monitors[i].1.default_input,
        None => None,
    }
}

// ---------------------------------------------------------------------------
// Apply Default Inputs
// ---------------------------------------------------------------------------

/// For the first `n` displays, in order: each one whose monitor has a
/// configured default goes to that default.
pub open spec fn default_plan(config: AppConfig, ds: Seq<DdcDisplay>, n: int) -> Seq<(usize, u8)>
    decreases n,
{
    if n <= 0 {
        Seq::empty()
    } else {
        let before = default_plan(config, ds, n - 1);
        match monitor_default(config, ds[n - 1].backend_id@) {
            Some(x) => before.push(((n - 1) as usize, x)),
            None => before,
        }
    }
}

/// Sends every monitor that has a configured default input to it.
pub fn set_all_default(config: &AppConfig, displays: &Vec<DdcDisplay>) -> (r: Vec<(usize, u8)>)
    ensures
        r@ == default_plan(*config, displays@, displays@.len() as int),
{
    let mut plan: Vec<(usize, u8)> = Vec::new();
    let mut i: usize = 0;
    while i < displays.len()
        invariant
            i <= displays.len(),
            plan@ == default_plan(*config, displays@, i as int),
        decreases displays.len() - i,
    {
        match default_of(config, displays[i].backend_id.as_str()) {
            Some(x) => plan.push((i, x)),
            None => {},
        }
        i = i + 1;
    }
    plan
}

// ---------------------------------------------------------------------------
// Hotkey actions
// ---------------------------------------------------------------------------

/// `s` begins with `p`.
pub open spec fn starts_with(s: Seq<char>, p: Seq<char>) -> bool {
    match_at(s, p, 0)
}

/// The input a cycle hotkey switches to: the other of its two inputs, or,
/// when the monitor is on neither, its configured default, else the first.
pub open spec fn cycle_next(current: Option<u8>, a: u8, b: u8, fallback: Option<u8>) -> u8 {
    match current {
        Some(c) => if c == a {
            b
        } else if c == b {
            a
        } else {
            match fallback {
                Some(f) => f,
                None => a,
            }
        },
        None => match fallback {
            Some(f) => f,
            None => a,
        },
    }
}

/// The switch a direct hotkey asks for.
pub open spec fn direct_plan(dh: DirectHotkey, ds: Seq<DdcDisplay>) -> Seq<(usize, u8)> {
    match display_pos(ds, dh.monitor_id@, 0) {
        Some(d) => seq![(d as usize, dh.input)],
        None => Seq::empty(),
    }
}

/// The switch a cycle hotkey asks for.
pub open spec fn cycle_plan(config: AppConfig, ch: CycleHotkey, ds: Seq<DdcDisplay>) -> Seq<(usize, u8)> {
    match display_pos(ds, ch.monitor_id@, 0) {
        Some(d) => seq![
            (d as usize, cycle_next(
                ds[d].current_input,
                ch.input_a,
                ch.input_b,
                monitor_default(config, ch.monitor_id@),
            )),
        ],
        None => Seq::empty(),
    }
}

/// The switch a legacy `mon{n}_{code}` action asks for: monitor `n`
/// (counted from 1) to decimal code `code`.
pub open spec fn legacy_plan(rest: Seq<char>, ds: Seq<DdcDisplay>) -> Seq<(usize, u8)> {
    match crate::text::find(rest, seq!['_']) {
        None => Seq::empty(),
        Some(k) => match (dec_parse(rest.take(k), usize::MAX as int), dec_parse(rest.skip(k + 1), 255)) {
            (Some(n), Some(code)) => {
                let idx = if n >= 1 { n - 1 } else { 0 };
                if idx < ds.len() {
                    seq![(idx as usize, code as u8)]
                } else {
                    Seq::empty()
                }
            },
            _ => Seq::empty(),
        },
    }
}

/// The switches a hotkey action id asks for.
pub open spec fn hotkey_plan(action: Seq<char>, config: AppConfig, ds: Seq<DdcDisplay>) -> Seq<(usize, u8)> {
    if action == "all_default"@ {
        default_plan(config, ds, ds.len() as int)
    } else if starts_with(action, "direct_"@) {
        match dec_parse(action.skip("direct_"@.len() as int), usize::MAX as int) {
            Some(idx) => if idx < config.direct_hotkeys@.len() {
                direct_plan(config.direct_hotkeys@[idx], ds)
            } else {
                Seq::empty()
            },
            None => Seq::empty(),
        }
    } else if starts_with(action, "cycle_"@) {
        match dec_parse(action.skip("cycle_"@.len() as int), usize::MAX as int) {
            Some(idx) => if idx < config.cycle_hotkeys@.len() {
                cycle_plan(config, config.cycle_hotkeys@[idx], ds)
            } else {
                Seq::empty()
            },
            None => Seq::empty(),
        }
    } else if starts_with(action, "mon"@) {
        legacy_plan(action.skip("mon"@.len() as int), ds)
    } else {
        Seq::empty()
    }
}

/// The position just past prefix `p` when `v` starts with it.
fn strip_prefix(v: &Vec<char>, p: &str) -> (r: Option<usize>)
    ensures
        match r {
            Some(k) => starts_with(v@, p@) && k == p@.len(),
            None => !starts_with(v@, p@),
        },
{
    let pv = chars_of(p);
    if matches_at(v, &pv, 0) {
        Some(pv.len())
    } else {
        None
    }
}

/// The switches the hotkey action id `action` asks for.
pub fn handle_hotkey_action(action: &str, config: &AppConfig, displays: &Vec<DdcDisplay>) -> (r: Vec<(usize, u8)>)
    ensures
        r@ == hotkey_plan(action@, *config, displays@),
{
    if str_eq(action, "all_default") {
        return set_all_default(config, displays);
    }
    let a = chars_of(action);
    if let Some(k) = strip_prefix(&a, "direct_") {
        let rest = sub_vec(&a, k, a.len());
        assert(rest@ =~= action@.skip(k as int));
        if let Some(idx) = parse_usize(&rest) {
            if idx < config.direct_hotkeys.len() {
                let dh = &config.direct_hotkeys[idx];
                if let Some(d) = display_position(displays, dh.monitor_id.as_str()) {
                    return vec![(d, dh.input)];
                }
            }
        }
        return Vec::new();
    }
    if let Some(k) = strip_prefix(&a, "cycle_") {
        let rest = sub_vec(&a, k, a.len());
        assert(rest@ =~= action@.skip(k as int));
        if let Some(idx) = parse_usize(&rest) {
            if idx < config.cycle_hotkeys.len() {
                let ch = &config.cycle_hotkeys[idx];
                if let Some(d) = display_position(displays, ch.monitor_id.as_str()) {
                    proof {
                        lemma_display_pos(displays@, ch.monitor_id@, 0);
                    }
                    let next = match displays[d].current_input {
                        Some(c) if c == ch.input_a => ch.input_b,
                        Some(c) if c == ch.input_b => ch.input_a,
                        _ => match default_of(config, ch.monitor_id.as_str()) {
                            Some(f) => f,
                            None => ch.input_a,
                        },
                    };
                    return vec![(d, next)];
                }
            }
        }
        return Vec::new();
    }
    if let Some(k) = strip_prefix(&a, "mon") {
        let rest = sub_vec(&a, k, a.len());
        assert(rest@ =~= action@.skip(k as int));
        let underscore = vec!['_'];
        assert(underscore@ =~= seq!['_']);
        assert(hotkey_plan(action@, *config, displays@) == legacy_plan(rest@, displays@));
        if let Some(u) = find_in(&rest, &underscore, 0) {
            proof {
                crate::text::lemma_find_from(rest@, underscore@, 0);
            }
            let first = sub_vec(&rest, 0, u);
            let second = sub_vec(&rest, u + 1, rest.len());
            assert(first@ =~= rest@.take(u as int));
            assert(second@ =~= rest@.skip(u + 1));
            match (parse_usize(&first), parse_u8(&second)) {
                (Some(n), Some(code)) => {
                    let idx = if n >= 1 {
                        n - 1
                    } else {
                        0
                    };
                    if idx < displays.len() {
                        return vec![(idx, code)];
                    }
                },
                _ => {},
            }
        }
        return Vec::new();
    }
    Vec::new()
}

// ---------------------------------------------------------------------------
// Keeping track of current inputs
// ---------------------------------------------------------------------------

/// `ds` with display `idx` now on input `code`; nothing else changes.
pub open spec fn on_input(old_ds: Seq<DdcDisplay>, new_ds: Seq<DdcDisplay>, idx: int, code: Option<u8>) -> bool {
    &&& new_ds.len() == old_ds.len()
    &&& new_ds[idx].current_input == code
    &&& new_ds[idx].index == old_ds[idx].index
    &&& new_ds[idx].backend_id == old_ds[idx].backend_id
    &&& new_ds[idx].model_name == old_ds[idx].model_name
    &&& new_ds[idx].available_inputs == old_ds[idx].available_inputs
    &&& forall|j: int| 0 <= j < new_ds.len() && j != idx ==> new_ds[j] == old_ds[j]
}

/// Records that display `idx` was switched to `code`.
pub fn record_input(displays: &mut Vec<DdcDisplay>, idx: usize, code: u8)
    requires
        idx < old(displays).len(),
    ensures
        on_input(old(displays)@, final(displays)@, idx as int, Some(code)),
{
    displays[idx].current_input = Some(code);
}

/// After a poll: each display whose reading came back takes it as its
/// current input; the result says whether any current input changed.
pub fn apply_input_readings(displays: &mut Vec<DdcDisplay>, readings: &Vec<Option<u8>>) -> (changed: bool)
    requires
        old(displays).len() == readings.len(),
    ensures
        final(displays)@.len() == old(displays)@.len(),
        forall|i: int|
            0 <= i < readings@.len() ==> {
                &&& (#[trigger] final(displays)@[i]).current_input == match readings@[i] {
                    Some(x) => Some(x),
                    None => old(displays)@[i].current_input,
                }
                &&& final(displays)@[i].index == old(displays)@[i].index
                &&& final(displays)@[i].backend_id == old(displays)@[i].backend_id
                &&& final(displays)@[i].model_name == old(displays)@[i].model_name
                &&& final(displays)@[i].available_inputs == old(displays)@[i].available_inputs
            },
        changed == exists|i: int|
            0 <= i < readings@.len() && #[trigger] readings@[i] is Some && old(displays)@[i].current_input
                != readings@[i],
{
    let mut changed = false;
    let mut i: usize = 0;
    while i < readings.len()
        invariant
            displays@.len() == readings@.len(),
            old(displays)@.len() == readings@.len(),
            i <= readings.len(),
            forall|j: int|
                0 <= j < i ==> {
                    &&& (#[trigger] displays@[j]).current_input == match readings@[j] {
                        Some(x) => Some(x),
                        None => old(displays)@[j].current_input,
                    }
                    &&& displays@[j].index == old(displays)@[j].index
                    &&& displays@[j].backend_id == old(displays)@[j].backend_id
                    &&& displays@[j].model_name == old(displays)@[j].model_name
                    &&& displays@[j].available_inputs == old(displays)@[j].available_inputs
                },
            forall|j: int| i <= j < readings@.len() ==> #[trigger] displays@[j] == old(displays)@[j],
            changed == exists|j: int|
                0 <= j < i && #[trigger] readings@[j] is Some && old(displays)@[j].current_input
                    != readings@[j],
        decreases readings.len() - i,
    {
        if let Some(actual) = readings[i] {
            if displays[i].current_input != Some(actual) {
                displays[i].current_input = Some(actual);
                changed = true;
            }
        }
        i = i + 1;
    }
    changed
}

// ---------------------------------------------------------------------------
// Registering the configured hotkeys
// ---------------------------------------------------------------------------

/// `(combo, action)` requests from the first `n` bindings with a combo.
pub open spec fn binding_requests(b: Seq<(String, String)>, n: int) -> Seq<(Seq<char>, Seq<char>)>
    decreases n,
{
    if n <= 0 {
        Seq::empty()
    } else {
        let before = binding_requests(b, n - 1);
        if b[n - 1].1@.len() > 0 {
            before.push((b[n - 1].1@, b[n - 1].0@))
        } else {
            before
        }
    }
}

/// `(combo, "cycle_{i}")` requests from the first `n` cycle hotkeys with a combo.
pub open spec fn cycle_requests(cs: Seq<CycleHotkey>, n: int) -> Seq<(Seq<char>, Seq<char>)>
    decreases n,
{
    if n <= 0 {
        Seq::empty()
    } else {
        let before = cycle_requests(cs, n - 1);
        if cs[n - 1].hotkey@.len() > 0 {
            before.push((cs[n - 1].hotkey@, "cycle_"@ + dec_text((n - 1) as nat)))
        } else {
            before
        }
    }
}

/// `(combo, "direct_{i}")` requests from the first `n` direct hotkeys with a combo.
pub open spec fn direct_requests(ds: Seq<DirectHotkey>, n: int) -> Seq<(Seq<char>, Seq<char>)>
    decreases n,
{
    if n <= 0 {
        Seq::empty()
    } else {
        let before = direct_requests(ds, n - 1);
        if ds[n - 1].hotkey@.len() > 0 {
            before.push((ds[n - 1].hotkey@, "direct_"@ + dec_text((n - 1) as nat)))
        } else {
            before
        }
    }
}

/// Everything the configuration asks to bind: the named bindings, then the
/// cycle hotkeys, then the direct hotkeys; empty combos are left out.
pub open spec fn hotkey_requests(c: AppConfig) -> Seq<(Seq<char>, Seq<char>)> {
    binding_requests(c.hotkeys.bindings@, c.hotkeys.bindings@.len() as int) + cycle_requests(
        c.cycle_hotkeys@,
        c.cycle_hotkeys@.len() as int,
    ) + direct_requests(c.direct_hotkeys@, c.direct_hotkeys@.len() as int)
}

/// The requests whose combo reads, as `(combo, action)` bindings.
pub open spec fn accepted(reqs: Seq<(Seq<char>, Seq<char>)>) -> Seq<(crate::hotkeys::ParsedCombo, Seq<char>)>
    decreases reqs.len(),
{
    if reqs.len() == 0 {
        Seq::empty()
    } else {
        let before = accepted(reqs.drop_last());
        match combo_spec(reqs.last().0) {
            Ok(c) => before.push((c, reqs.last().1)),
            Err(_) => before,
        }
    }
}

/// The requests whose combo does not read, with the reason.
pub open spec fn rejected(reqs: Seq<(Seq<char>, Seq<char>)>) -> Seq<(Seq<char>, Seq<char>, HotkeyErrorView)>
    decreases reqs.len(),
{
    if reqs.len() == 0 {
        Seq::empty()
    } else {
        let before = rejected(reqs.drop_last());
        match combo_spec(reqs.last().0) {
            Ok(_) => before,
            Err(e) => before.push((reqs.last().0, reqs.last().1, e)),
        }
    }
}

/// A registry's bindings as `(combo, action)`.
pub open spec fn registry_view(regs: Seq<Registration>) -> Seq<(crate::hotkeys::ParsedCombo, Seq<char>)> {
    regs.map_values(|r: Registration| (r.combo, r.action@))
}

/// A refused binding as `(combo, action, reason)`.
pub open spec fn failure_view(f: (String, String, HotkeyError)) -> (Seq<char>, Seq<char>, HotkeyErrorView) {
    (f.0@, f.1@, f.2.view())
}

fn action_name(prefix: &str, idx: usize) -> (r: String)
    ensures
        r@ == prefix@ + dec_text(idx as nat),
{
    let mut v = chars_of(prefix);
    push_dec(&mut v, idx);
    string_of(&v)
}

/// The `(combo, action)` pairs the configuration asks to bind.
pub fn hotkey_request_list(config: &AppConfig) -> (r: Vec<(String, String)>)
    ensures
        r@.map_values(|p: (String, String)| (p.0@, p.1@)) == hotkey_requests(*config),
{
    let mut out: Vec<(String, String)> = Vec::new();
    let b = &config.hotkeys.bindings;
    let mut i: usize = 0;
    while i < b.len()
        invariant
            b == &config.hotkeys.bindings,
            i <= b.len(),
            out@.map_values(|p: (String, String)| (p.0@, p.1@)) == binding_requests(b@, i as int),
        decreases b.len() - i,
    {
        if !b[i].1.as_str().is_empty() {
            let ghost before = out@;
            out.push((b[i].1.clone(), b[i].0.clone()));
            assert(out@.map_values(|p: (String, String)| (p.0@, p.1@)) =~= before.map_values(
                |p: (String, String)| (p.0@, p.1@),
            ).push((b@[i as int].1@, b@[i as int].0@)));
        }
        i = i + 1;
    }
    let ghost part1 = out@.map_values(|p: (String, String)| (p.0@, p.1@));
    let cs = &config.cycle_hotkeys;
    let mut j: usize = 0;
    proof {
        assert(part1 + cycle_requests(cs@, 0) =~= part1);
    }
    while j < cs.len()
        invariant
            cs == &config.cycle_hotkeys,
            j <= cs.len(),
            out@.map_values(|p: (String, String)| (p.0@, p.1@)) == part1 + cycle_requests(cs@, j as int),
        decreases cs.len() - j,
    {
        if !cs[j].hotkey.as_str().is_empty() {
            let ghost before = out@;
            let name = action_name("cycle_", j);
            out.push((cs[j].hotkey.clone(), name));
            assert(out@.map_values(|p: (String, String)| (p.0@, p.1@)) =~= before.map_values(
                |p: (String, String)| (p.0@, p.1@),
            ).push((cs@[j as int].hotkey@, "cycle_"@ + dec_text(j as nat))));
            assert(part1 + cycle_requests(cs@, j + 1) =~= (part1 + cycle_requests(cs@, j as int)).push(
                (cs@[j as int].hotkey@, "cycle_"@ + dec_text(j as nat)),
            ));
        }
        j = j + 1;
    }
    let ghost part2 = out@.map_values(|p: (String, String)| (p.0@, p.1@));
    let ds = &config.direct_hotkeys;
    let mut k: usize = 0;
    proof {
        assert(part2 + direct_requests(ds@, 0) =~= part2);
    }
    while k < ds.len()
        invariant
            ds == &config.direct_hotkeys,
            k <= ds.len(),
            out@.map_values(|p: (String, String)| (p.0@, p.1@)) == part2 + direct_requests(ds@, k as int),
        decreases ds.len() - k,
    {
        if !ds[k].hotkey.as_str().is_empty() {
            let ghost before = out@;
            let name = action_name("direct_", k);
            out.push((ds[k].hotkey.clone(), name));
            assert(out@.map_values(|p: (String, String)| (p.0@, p.1@)) =~= before.map_values(
                |p: (String, String)| (p.0@, p.1@),
            ).push((ds@[k as int].hotkey@, "direct_"@ + dec_text(k as nat))));
            assert(part2 + direct_requests(ds@, k + 1) =~= (part2 + direct_requests(ds@, k as int)).push(
                (ds@[k as int].hotkey@, "direct_"@ + dec_text(k as nat)),
            ));
        }
        k = k + 1;
    }
    out
}

/// Registers every hotkey of the configuration; returns the ones refused
/// as `(combo, action, reason)`.
pub fn register_hotkeys(registry: &mut HotkeyRegistry, config: &AppConfig) -> (failures: Vec<(String, String, HotkeyError)>)
    ensures
        registry_view(final(registry).registrations@) == registry_view(old(registry).registrations@)
            + accepted(hotkey_requests(*config)),
        failures@.map_values(|f: (String, String, HotkeyError)| failure_view(f)) == rejected(
            hotkey_requests(*config),
        ),
{
    let reqs = hotkey_request_list(config);
    let ghost rs = hotkey_requests(*config);
    let ghost start = registry_view(registry.registrations@);
    let mut failures: Vec<(String, String, HotkeyError)> = Vec::new();
    let mut i: usize = 0;
    proof {
        assert(reqs@.map_values(|p: (String, String)| (p.0@, p.1@)).len() == reqs@.len());
        assert(rs.take(0) =~= Seq::<(Seq<char>, Seq<char>)>::empty());
        assert(start + accepted(rs.take(0)) =~= start);
    }
    while i < reqs.len()
        invariant
            rs == hotkey_requests(*config),
            reqs@.map_values(|p: (String, String)| (p.0@, p.1@)) == rs,
            i <= reqs.len(),
            registry_view(registry.registrations@) == start + accepted(rs.take(i as int)),
            failures@.map_values(|f: (String, String, HotkeyError)| failure_view(f)) == rejected(
                rs.take(i as int),
            ),
        decreases reqs.len() - i,
    {
        let ghost req = rs[i as int];
        assert(reqs@.map_values(|p: (String, String)| (p.0@, p.1@))[i as int] == req);
        assert(rs.take(i + 1).drop_last() =~= rs.take(i as int));
        assert(rs.take(i + 1).last() == req);
        let ghost before_regs = registry.registrations@;
        let ghost before_fail = failures@;
        let combo = &reqs[i].0;
        let action = &reqs[i].1;
        match registry.register(combo.as_str(), action.as_str()) {
            Ok(()) => {
                assert(registry_view(registry.registrations@) =~= registry_view(before_regs).push(
                    (registry.registrations@.last().combo, action@),
                ));
            },
            Err(e) => {
                failures.push((combo.clone(), action.clone(), e));
                assert(failures@.map_values(|f: (String, String, HotkeyError)| failure_view(f))
                    =~= before_fail.map_values(|f: (String, String, HotkeyError)| failure_view(f)).push(
                    (req.0, req.1, combo_spec(req.0)->Err_0),
                ));
            },
        }
        i = i + 1;
    }
    assert(rs.take(reqs.len() as int) =~= rs);
    failures
}

} // verus!
