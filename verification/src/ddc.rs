//! DDC/CI monitor knowledge: the standard input codes of VCP feature 0x60,
//! their labels, and the parser for a monitor's capabilities string.

use vstd::prelude::*;
use crate::numbers::{hex2, push_hex2};
use crate::text::{ascii_lowercase, chars_of, contains, find_in, lower, owned, string_of};

verus! {

/// VCP feature code for Input Source Select.
pub const VCP_INPUT: u8 = 0x60;

/// The standard input codes of VCP 0x60 and their labels, in table order.
pub open spec fn standard_table() -> Seq<(Seq<char>, u8)> {
    seq![
        ("VGA-1"@, 0x01u8),
        ("VGA-2"@, 0x02u8),
        ("DVI-1"@, 0x03u8),
        ("DVI-2"@, 0x04u8),
        ("Composite-1"@, 0x05u8),
        ("Composite-2"@, 0x06u8),
        ("S-Video-1"@, 0x07u8),
        ("S-Video-2"@, 0x08u8),
        ("Tuner-1"@, 0x09u8),
        ("Tuner-2"@, 0x0Au8),
        ("Tuner-3"@, 0x0Bu8),
        ("Component-1"@, 0x0Cu8),
        ("Component-2"@, 0x0Du8),
        ("Component-3"@, 0x0Eu8),
        ("DP-1"@, 0x0Fu8),
        ("DP-2"@, 0x10u8),
        ("HDMI-1"@, 0x11u8),
        ("HDMI-2"@, 0x12u8),
        ("HDMI-3"@, 0x13u8),
        ("HDMI-4"@, 0x14u8),
        ("HDMI-5"@, 0x15u8),
        ("HDMI-6"@, 0x16u8),
        ("HDMI-7"@, 0x17u8),
        ("HDMI-8"@, 0x18u8),
        ("HDMI-9"@, 0x19u8),
        ("DP-3"@, 0x1Au8),
        ("USB-C"@, 0x1Bu8),
        ("USB-C-2"@, 0x1Cu8),
        ("Thunderbolt"@, 0x1Du8),
    ]
}

/// The label of the first entry of `t` with code `code`.
pub open spec fn label_in(t: Seq<(Seq<char>, u8)>, code: u8) -> Option<Seq<char>>
    decreases t.len(),
{
    if t.len() == 0 {
        None
    } else if t[0].1 == code {
        Some(t[0].0)
    } else {
        label_in(t.drop_first(), code)
    }
}

/// The label shown for an input code: its standard name, or `Input 0xHH`.
pub open spec fn input_label_spec(code: u8) -> Seq<char> {
    match label_in(standard_table(), code) {
        Some(l) => l,
        None => "Input 0x"@ + hex2(code),
    }
}

/// Common VCP 0x60 input codes (MCCS standard and the widely used reserved
/// range), used as a label lookup table.
pub fn standard_inputs() -> (r: Vec<(&'static str, u8)>)
    ensures
        r@.len() == standard_table().len(),
        forall|i: int|
            0 <= i < r@.len() ==> (#[trigger] r@[i]).0@ == standard_table()[i].0 && r@[i].1
                == standard_table()[i].1,
{
    vec![
        ("VGA-1", 0x01),
        ("VGA-2", 0x02),
        ("DVI-1", 0x03),
        ("DVI-2", 0x04),
        ("Composite-1", 0x05),
        ("Composite-2", 0x06),
        ("S-Video-1", 0x07),
        ("S-Video-2", 0x08),
        ("Tuner-1", 0x09),
        ("Tuner-2", 0x0A),
        ("Tuner-3", 0x0B),
        ("Component-1", 0x0C),
        ("Component-2", 0x0D),
        ("Component-3", 0x0E),
        ("DP-1", 0x0F),
        ("DP-2", 0x10),
        ("HDMI-1", 0x11),
        ("HDMI-2", 0x12),
        ("HDMI-3", 0x13),
        ("HDMI-4", 0x14),
        ("HDMI-5", 0x15),
        ("HDMI-6", 0x16),
        ("HDMI-7", 0x17),
        ("HDMI-8", 0x18),
        ("HDMI-9", 0x19),
        ("DP-3", 0x1A),
        ("USB-C", 0x1B),
        ("USB-C-2", 0x1C),
        ("Thunderbolt", 0x1D),
    ]
}

/// Human-readable label for a VCP input code.
pub fn input_label(code: u8) -> (r: String)
    ensures
        r@ == input_label_spec(code),
{
    let table = standard_inputs();
    let ghost t = standard_table();
    let mut i: usize = 0;
    proof {
        assert(t.skip(0) =~= t);
    }
    while i < table.len()
        invariant
            t == standard_table(),
            table@.len() == t.len(),
            forall|j: int|
                0 <= j < table@.len() ==> (#[trigger] table@[j]).0@ == t[j].0 && table@[j].1
                    == t[j].1,
            i <= table.len(),
            label_in(t, code) == label_in(t.skip(i as int), code),
        decreases table.len() - i,
    {
        assert(t.skip(i as int)[0] == t[i as int]);
        if table[i].1 == code {
            return owned(table[i].0);
        }
        assert(t.skip(i as int).drop_first() =~= t.skip(i + 1));
        i = i + 1;
    }
    assert(t.skip(i as int).len() == 0);
    let mut v = chars_of("Input 0x");
    push_hex2(&mut v, code);
    string_of(&v)
}


/// A DDC/CI display as the program tracks it; the device handle itself is
/// kept by the caller, at the same position.
pub struct DdcDisplay {
    pub index: usize,
    /// Stable string key used in config
    pub backend_id: String,
    /// Human-readable model name if the capabilities string reported one
    pub model_name: Option<String>,
    pub current_input: Option<u8>,
    /// Inputs actually listed in the monitor's DDC capabilities string.
    /// Empty if capabilities were unavailable — callers should fall back.
    pub available_inputs: Vec<(String, u8)>,
}

/// A backend id of an internal panel display (ASCII case ignored).
pub open spec fn internal_display(id: Seq<char>) -> bool {
    contains(lower(id), ":lvds"@) || contains(lower(id), ":edp"@) || contains(lower(id), ":lvds0"@)
}

/// Returns true for internal panel displays that don't support DDC/CI input
/// switching; enumeration skips them.
pub fn is_internal_display(backend_id: &str) -> (r: bool)
    ensures
        r == internal_display(backend_id@),
{
    let lower_id = ascii_lowercase(&chars_of(backend_id));
    find_in(&lower_id, &chars_of(":lvds"), 0).is_some() || find_in(&lower_id, &chars_of(":edp"), 0).is_some()
        || find_in(&lower_id, &chars_of(":lvds0"), 0).is_some()
}

} // verus!
