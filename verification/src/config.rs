//! The persistent configuration: monitors keyed by device id, hotkey
//! bindings, and the rules that keep it tidy.
//!
//! Keyed collections are vectors of `(key, value)` entries; `wf` states that
//! no key occurs twice, and every operation here keeps that.

use vstd::prelude::*;
use crate::text::{ascii_lowercase, chars_of, contains, find_in, lower, str_eq};

verus! {

/// The settings of one monitor.
#[derive(Clone)]
pub struct MonitorConfig {
    /// User-visible name
    pub name: String,
    /// VCP code for the default input
    pub default_input: Option<u8>,
    /// Known inputs: label and VCP code, one entry per label
    pub inputs: Vec<(String, u8)>,
    /// VCP codes of inputs the user has chosen to hide from the tray menu
    pub hidden_inputs: Vec<u8>,
}

/// A hotkey that switches a monitor directly to one specific input.
#[derive(Clone)]
pub struct DirectHotkey {
    /// backend_id of the monitor to control
    pub monitor_id: String,
    /// VCP input code to switch to
    pub input: u8,
    /// Key combo string, e.g. "Ctrl+Alt+1"
    pub hotkey: String,
}

/// A hotkey that cycles a single monitor between two inputs.
#[derive(Clone)]
pub struct CycleHotkey {
    /// backend_id of the monitor to control
    pub monitor_id: String,
    /// First input VCP code
    pub input_a: u8,
    /// Second input VCP code
    pub input_b: u8,
    /// Key combo string, e.g. "Ctrl+Alt+F1"
    pub hotkey: String,
}

/// Action id and key combo string, e.g. ("all_default", "Ctrl+Alt+1").
#[derive(Clone)]
pub struct HotkeyConfig {
    pub bindings: Vec<(String, String)>,
}

/// The whole configuration.
#[derive(Clone)]
pub struct AppConfig {
    /// keyed by monitor device-id string
    pub monitors: Vec<(String, MonitorConfig)>,
    pub hotkeys: HotkeyConfig,
    /// Input-cycle hotkeys
    pub cycle_hotkeys: Vec<CycleHotkey>,
    /// Direct per-input hotkeys (keyed by monitor_id, not index)
    pub direct_hotkeys: Vec<DirectHotkey>,
    /// whether to start at login
    pub start_at_login: bool,
}

// ---------------------------------------------------------------------------
// Keyed entries
// ---------------------------------------------------------------------------

/// The first position at or after `i` whose key is `key`.
pub open spec fn key_pos<V>(s: Seq<(String, V)>, key: Seq<char>, i: int) -> Option<int>
    decreases s.len() - i,
{
    if i < 0 || i >= s.len() {
        None
    } else if s[i].0@ == key {
        Some(i)
    } else {
        key_pos(s, key, i + 1)
    }
}

/// The position of the entry with key `key`.
pub open spec fn key_index<V>(s: Seq<(String, V)>, key: Seq<char>) -> Option<int> {
    key_pos(s, key, 0)
}

/// No key occurs twice.
pub open spec fn distinct_keys<V>(s: Seq<(String, V)>) -> bool {
    forall|i: int, j: int| 0 <= i < j < s.len() ==> s[i].0@ != s[j].0@
}

pub proof fn lemma_key_pos<V>(s: Seq<(String, V)>, key: Seq<char>, i: int)
    requires
        0 <= i,
    ensures
        match key_pos(s, key, i) {
            Some(k) => i <= k < s.len() && s[k].0@ == key && forall|j: int|
                i <= j < k ==> s[j].0@ != key,
            None => forall|j: int| i <= j < s.len() ==> s[j].0@ != key,
        },
    decreases s.len() - i,
{
    if i < s.len() && s[i].0@ != key {
        lemma_key_pos(s, key, i + 1);
    }
}

/// Where the entry with key `key` stands in `s`.
pub fn position_of<V>(s: &Vec<(String, V)>, key: &str) -> (r: Option<usize>)
    ensures
        match r {
            Some(k) => key_index(s@, key@) == Some(k as int),
            None => key_index(s@, key@) is None,
        },
{
    let mut i: usize = 0;
    while i < s.len()
        invariant
            i <= s.len(),
            key_pos(s@, key@, 0) == key_pos(s@, key@, i as int),
        decreases s.len() - i,
    {
        if str_eq(s[i].0.as_str(), key) {
            return Some(i);
        }
        i = i + 1;
    }
    None
}

// ---------------------------------------------------------------------------
// Defaults
// ---------------------------------------------------------------------------

impl MonitorConfig {
    /// An unnamed monitor with no default, no known inputs and none hidden.
    pub open spec fn is_empty_default(&self) -> bool {
        &&& self.name@.len() == 0
        &&& self.default_input is None
        &&& self.inputs@.len() == 0
        &&& self.hidden_inputs@.len() == 0
    }
}

impl Default for MonitorConfig {
    fn default() -> (r: Self)
        ensures
            r.is_empty_default(),
    {
        MonitorConfig {
            name: String::new(),
            default_input: None,
            inputs: Vec::new(),
            hidden_inputs: Vec::new(),
        }
    }
}

impl Default for HotkeyConfig {
    fn default() -> (r: Self)
        ensures
            r.bindings@.len() == 0,
    {
        HotkeyConfig { bindings: Vec::new() }
    }
}

impl AppConfig {
    /// Every keyed collection holds each key once.
    pub open spec fn wf(&self) -> bool {
        &&& distinct_keys(self.monitors@)
        &&& distinct_keys(self.hotkeys.bindings@)
        &&& forall|i: int|
            0 <= i < self.monitors@.len() ==> distinct_keys(#[trigger] self.monitors@[i].1.inputs@)
    }

    /// The configuration of a fresh install: nothing configured.
    pub open spec fn is_empty_default(&self) -> bool {
        &&& self.monitors@.len() == 0
        &&& self.hotkeys.bindings@.len() == 0
        &&& self.cycle_hotkeys@.len() == 0
        &&& self.direct_hotkeys@.len() == 0
        &&& !self.start_at_login
    }
}

impl Default for AppConfig {
    fn default() -> (r: Self)
        ensures
            r.is_empty_default(),
            r.wf(),
    {
        AppConfig {
            monitors: Vec::new(),
            hotkeys: HotkeyConfig::default(),
            cycle_hotkeys: Vec::new(),
            direct_hotkeys: Vec::new(),
            start_at_login: false,
        }
    }
}

// ---------------------------------------------------------------------------
// Internal panels and stale entries
// ---------------------------------------------------------------------------

/// A device id of an internal LVDS/eDP panel (ASCII case ignored).
pub open spec fn internal_id(id: Seq<char>) -> bool {
    contains(lower(id), ":lvds"@) || contains(lower(id), ":edp"@)
}

/// Whether `id` names an internal panel, which DDC never controls.
pub fn is_internal_id(id: &str) -> (r: bool)
    ensures
        r == internal_id(id@),
{
    let lower_id = ascii_lowercase(&chars_of(id));
    let lvds = chars_of(":lvds");
    let edp = chars_of(":edp");
    find_in(&lower_id, &lvds, 0).is_some() || find_in(&lower_id, &edp, 0).is_some()
}

/// The monitor entries that are kept: those of external monitors, in order.
pub open spec fn external_monitors(s: Seq<(String, MonitorConfig)>) -> Seq<(String, MonitorConfig)>
    decreases s.len(),
{
    if s.len() == 0 {
        s
    } else {
        let kept = external_monitors(s.drop_last());
        if internal_id(s.last().0@) {
            kept
        } else {
            kept.push(s.last())
        }
    }
}

/// The bindings that are kept: only the one for "all_default".
pub open spec fn kept_bindings(s: Seq<(String, String)>) -> Seq<(String, String)>
    decreases s.len(),
{
    if s.len() == 0 {
        s
    } else {
        let kept = kept_bindings(s.drop_last());
        if s.last().0@ == "all_default"@ {
            kept.push(s.last())
        } else {
            kept
        }
    }
}

/// What is kept is a subsequence: every kept entry comes from the input.
pub proof fn lemma_external_monitors_from(s: Seq<(String, MonitorConfig)>)
    ensures
        forall|i: int|
            0 <= i < external_monitors(s).len() ==> s.contains(#[trigger] external_monitors(s)[i])
                && !internal_id(external_monitors(s)[i].0@),
        external_monitors(s).len() <= s.len(),
    decreases s.len(),
{
    if s.len() > 0 {
        lemma_external_monitors_from(s.drop_last());
        let kept = external_monitors(s.drop_last());
        assert forall|i: int|
            0 <= i < external_monitors(s).len() implies s.contains(
            #[trigger] external_monitors(s)[i],
        ) && !internal_id(external_monitors(s)[i].0@) by {
            if i < kept.len() {
                let k = choose|k: int| 0 <= k < s.drop_last().len() && s.drop_last()[k] == kept[i];
                assert(s[k] == kept[i]);
            } else {
                assert(s[s.len() - 1] == s.last());
            }
        }
    }
}

/// Every kept binding comes from the input.
pub proof fn lemma_kept_bindings_from(s: Seq<(String, String)>)
    ensures
        forall|i: int| 0 <= i < kept_bindings(s).len() ==> s.contains(#[trigger] kept_bindings(s)[i]),
    decreases s.len(),
{
    if s.len() > 0 {
        lemma_kept_bindings_from(s.drop_last());
        let kept = kept_bindings(s.drop_last());
        assert forall|i: int| 0 <= i < kept_bindings(s).len() implies s.contains(#[trigger] kept_bindings(s)[i]) by {
            if i < kept.len() {
                let k = choose|k: int| 0 <= k < s.drop_last().len() && s.drop_last()[k] == kept[i];
                assert(s[k] == kept[i]);
            } else {
                assert(s[s.len() - 1] == s.last());
            }
        }
    }
}

proof fn lemma_external_distinct(s: Seq<(String, MonitorConfig)>)
    requires
        distinct_keys(s),
    ensures
        distinct_keys(external_monitors(s)),
    decreases s.len(),
{
    if s.len() > 0 {
        let init = s.drop_last();
        assert(distinct_keys(init));
        lemma_external_distinct(init);
        lemma_external_monitors_from(init);
        let kept = external_monitors(init);
        if !internal_id(s.last().0@) {
            assert forall|i: int, j: int| 0 <= i < j < kept.len() + 1 implies kept.push(s.last())[i].0@ != kept.push(
                s.last(),
            )[j].0@ by {
                if j == kept.len() {
                    let k = choose|k: int| 0 <= k < init.len() && init[k] == kept[i];
                    assert(s[k] == kept[i]);
                    assert(s[s.len() - 1] == s.last());
                }
            }
        }
    }
}

proof fn lemma_kept_distinct(s: Seq<(String, String)>)
    requires
        distinct_keys(s),
    ensures
        distinct_keys(kept_bindings(s)),
    decreases s.len(),
{
    if s.len() > 0 {
        let init = s.drop_last();
        assert(distinct_keys(init));
        lemma_kept_distinct(init);
        lemma_kept_bindings_from(init);
        let kept = kept_bindings(init);
        if s.last().0@ == "all_default"@ {
            assert forall|i: int, j: int| 0 <= i < j < kept.len() + 1 implies kept.push(s.last())[i].0@ != kept.push(
                s.last(),
            )[j].0@ by {
                if j == kept.len() {
                    let k = choose|k: int| 0 <= k < init.len() && init[k] == kept[i];
                    assert(s[k] == kept[i]);
                    assert(s[s.len() - 1] == s.last());
                }
            }
        }
    }
}

impl AppConfig {
    /// Remove config entries that shouldn't persist:
    /// - Internal LVDS/eDP panel entries (never controllable via DDC)
    /// - Legacy index-based hotkey bindings (mon{n}_{code} format) that are
    ///   now superseded by `direct_hotkeys`
    pub fn prune_stale(&mut self)
        ensures
            final(self).monitors@ == external_monitors(old(self).monitors@),
            final(self).hotkeys.bindings@ == kept_bindings(old(self).hotkeys.bindings@),
            final(self).cycle_hotkeys == old(self).cycle_hotkeys,
            final(self).direct_hotkeys == old(self).direct_hotkeys,
            final(self).start_at_login == old(self).start_at_login,
            old(self).wf() ==> final(self).wf(),
    {
        proof {
            if self.wf() {
                lemma_external_distinct(self.monitors@);
                lemma_kept_distinct(self.hotkeys.bindings@);
                lemma_external_monitors_from(self.monitors@);
            }
        }
        let ghost s = self.monitors@;
        let mut rest: Vec<(String, MonitorConfig)> = Vec::new();
        std::mem::swap(&mut rest, &mut self.monitors);
        let mut kept: Vec<(String, MonitorConfig)> = Vec::new();
        let n = rest.len();
        let mut i: usize = 0;
        proof {
            assert(s.skip(0) =~= s);
            assert(s.take(0) =~= Seq::<(String, MonitorConfig)>::empty());
        }
        while i < n
            invariant
                n == s.len(),
                i <= n,
                rest@ == s.skip(i as int),
                kept@ == external_monitors(s.take(i as int)),
            decreases n - i,
        {
            let entry = rest.remove(0);
            assert(entry == s[i as int]);
            assert(rest@ =~= s.skip(i + 1));
            assert(s.take(i + 1).drop_last() =~= s.take(i as int));
            assert(s.take(i + 1).last() == entry);
            if !is_internal_id(entry.0.as_str()) {
                kept.push(entry);
            }
            i = i + 1;
        }
        assert(s.take(n as int) =~= s);
        self.monitors = kept;

        let ghost b = self.hotkeys.bindings@;
        let mut rest_b: Vec<(String, String)> = Vec::new();
        std::mem::swap(&mut rest_b, &mut self.hotkeys.bindings);
        let mut kept_b: Vec<(String, String)> = Vec::new();
        let nb = rest_b.len();
        let mut j: usize = 0;
        proof {
            assert(b.skip(0) =~= b);
            assert(b.take(0) =~= Seq::<(String, String)>::empty());
        }
        while j < nb
            invariant
                nb == b.len(),
                j <= nb,
                rest_b@ == b.skip(j as int),
                kept_b@ == kept_bindings(b.take(j as int)),
            decreases nb - j,
        {
            let entry = rest_b.remove(0);
            assert(entry == b[j as int]);
            assert(rest_b@ =~= b.skip(j + 1));
            assert(b.take(j + 1).drop_last() =~= b.take(j as int));
            assert(b.take(j + 1).last() == entry);
            let keep = str_eq(entry.0.as_str(), "all_default");
            if keep {
                kept_b.push(entry);
            }
            j = j + 1;
        }
        assert(b.take(nb as int) =~= b);
        self.hotkeys.bindings = kept_b;
    }
}

impl AppConfig {
    /// Get or insert a default MonitorConfig for a device id.
    pub fn monitor_mut(&mut self, device_id: &str) -> (r: &mut MonitorConfig)
        ensures
            match key_index(old(self).monitors@, device_id@) {
                Some(i) => {
                    &&& *r == old(self).monitors@[i].1
                    &&& final(self).monitors@ == old(self).monitors@.update(
                        i,
                        (old(self).monitors@[i].0, *final(r)),
                    )
                },
                None => {
                    &&& r.is_empty_default()
                    &&& final(self).monitors@.len() == old(self).monitors@.len() + 1
                    &&& final(self).monitors@.drop_last() == old(self).monitors@
                    &&& final(self).monitors@.last().0@ == device_id@
                    &&& final(self).monitors@.last().1 == *final(r)
                },
            },
            final(self).hotkeys == old(self).hotkeys,
            final(self).cycle_hotkeys == old(self).cycle_hotkeys,
            final(self).direct_hotkeys == old(self).direct_hotkeys,
            final(self).start_at_login == old(self).start_at_login,
            distinct_keys(old(self).monitors@) ==> distinct_keys(final(self).monitors@),
    {
        proof {
            lemma_key_pos(self.monitors@, device_id@, 0);
        }
        let i = match position_of(&self.monitors, device_id) {
            Some(i) => i,
            None => {
                let key = crate::text::owned(device_id);
                self.monitors.push((key, MonitorConfig::default()));
                self.monitors.len() - 1
            },
        };
        &mut self.monitors[i].1
    }
}

} // verus!
