//! Connected monitors as Windows describes them.

use vstd::prelude::*;
use crate::text::{chars_of, string_of, strip_all, trim_start_matches};

verus! {

/// High-level description of a connected monitor.
pub struct MonitorInfo {
    /// Windows device name, e.g. `\\.\DISPLAY1`
    pub device_name: String,
    /// Unique device-path id (used as config key)
    pub device_id: String,
    /// Bounding rect in virtual screen coords
    pub rect: (i32, i32, i32, i32),
    /// Is this the primary monitor?
    pub is_primary: bool,
}

/// The config key of a device name: the name without its leading `\\.\`
/// prefixes.
pub open spec fn device_id_spec(name: Seq<char>) -> Seq<char> {
    strip_all(name, "\\\\.\\"@)
}

impl MonitorInfo {
    /// The description of a monitor from what `GetMonitorInfoW` reports:
    /// its device name, its rectangle and its flags (bit 0: primary).
    pub fn from_raw(device_name: String, rect: (i32, i32, i32, i32), flags: u32) -> (r: Self)
        ensures
            r.device_name == device_name,
            r.device_id@ == device_id_spec(device_name@),
            r.rect == rect,
            r.is_primary == (flags & 1 != 0),
    {
        let id = trim_start_matches(chars_of(device_name.as_str()), "\\\\.\\");
        MonitorInfo {
            device_id: string_of(&id),
            device_name,
            rect,
            is_primary: flags & 1 != 0,
        }
    }
}

} // verus!
