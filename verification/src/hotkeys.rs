//! Hotkey combos: reading "Ctrl+Alt+F1" into a key code and modifiers, the
//! registry of bound combos, and the keyboard-hook decision of which action a
//! key event fires.

use vstd::prelude::*;
use crate::text::{
    chars_of, owned, split_at_char, split_on, string_of, string_of_range, trim, trim_bounds,
    upper,
};

verus! {

// ---------------------------------------------------------------------------
// Key names
// ---------------------------------------------------------------------------

/// What `str::to_uppercase` returns for a string (Unicode case mapping).
pub uninterp spec fn unicode_upper(s: Seq<char>) -> Seq<char>;

/// `str::to_uppercase`. Claimed: the result is a function of the string
/// alone (Unicode case mapping, which no locale changes).
#[verifier::external_body]
fn to_uppercase(s: &str) -> (r: String)
    ensures
        r@ == unicode_upper(s@),
{
    s.to_uppercase()
}

/// Every character is ASCII.
pub open spec fn ascii_text(s: Seq<char>) -> bool {
    forall|i: int| 0 <= i < s.len() ==> #[trigger] s[i] <= '\u{7f}'
}

/// The uppercase of a key name: ASCII uppercase for ASCII text, which is
/// what the Unicode mapping gives there; the Unicode mapping otherwise.
pub open spec fn key_upper(s: Seq<char>) -> Seq<char> {
    if ascii_text(s) {
        upper(s)
    } else {
        unicode_upper(s)
    }
}

fn all_ascii(v: &Vec<char>) -> (r: bool)
    ensures
        r == ascii_text(v@),
{
    let mut i: usize = 0;
    while i < v.len()
        invariant
            i <= v.len(),
            forall|j: int| 0 <= j < i ==> #[trigger] v@[j] <= '\u{7f}',
        decreases v.len() - i,
    {
        if v[i] > '\u{7f}' {
            return false;
        }
        i = i + 1;
    }
    true
}

fn ascii_upper_char(c: char) -> (r: char)
    ensures
        r == crate::text::upper_char(c),
{
    if 'a' <= c && c <= 'z' {
        let b: u8 = (c as u8) - 32;
        b as char
    } else {
        c
    }
}

/// The uppercase of a key name.
fn uppercase_name(s: &str) -> (r: String)
    ensures
        r@ == key_upper(s@),
{
    let v = chars_of(s);
    if !all_ascii(&v) {
        return to_uppercase(s);
    }
    let mut out: Vec<char> = Vec::new();
    let mut i: usize = 0;
    while i < v.len()
        invariant
            i <= v.len(),
            out@ == upper(v@.take(i as int)),
        decreases v.len() - i,
    {
        let c = ascii_upper_char(v[i]);
        out.push(c);
        assert(upper(v@.take(i + 1)) =~= upper(v@.take(i as int)).push(c));
        i = i + 1;
    }
    assert(v@.take(i as int) =~= v@);
    string_of(&out)
}

/// The virtual-key code of a key name, as written in uppercase: `0`-`9`
/// (0x30-0x39), `A`-`Z` (0x41-0x5A) and `F1`-`F12` (0x70-0x7B).
pub open spec fn vk_of(t: Seq<char>) -> Option<u32> {
    if t.len() == 1 && (('0' <= t[0] && t[0] <= '9') || ('A' <= t[0] && t[0] <= 'Z')) {
        Some(t[0] as u32)
    } else if t.len() == 2 && t[0] == 'F' && '1' <= t[1] && t[1] <= '9' {
        Some((0x6F + (t[1] as u32 - '0' as u32)) as u32)
    } else if t.len() == 3 && t[0] == 'F' && t[1] == '1' && '0' <= t[2] && t[2] <= '2' {
        Some((0x79 + (t[2] as u32 - '0' as u32)) as u32)
    } else {
        None
    }
}

/// Why a combo string was refused.
pub enum HotkeyError {
    /// A part that names no modifier and no key; holds the part uppercased.
    UnknownKey(String),
    /// No part names a key; holds the whole combo string.
    NoKeyCode(String),
}

/// The view of a `HotkeyError`: which kind, and its text.
pub enum HotkeyErrorView {
    UnknownKey(Seq<char>),
    NoKeyCode(Seq<char>),
}

impl HotkeyError {
    pub open spec fn view(&self) -> HotkeyErrorView {
        match self {
            HotkeyError::UnknownKey(s) => HotkeyErrorView::UnknownKey(s@),
            HotkeyError::NoKeyCode(s) => HotkeyErrorView::NoKeyCode(s@),
        }
    }

    /// The message shown to the user for this error.
    pub fn message(&self) -> (r: String)
        ensures
            r@ == error_message(self.view()),
    {
        let (head, body) = match self {
            HotkeyError::UnknownKey(s) => ("unknown key: '", s),
            HotkeyError::NoKeyCode(s) => ("no key code in hotkey: '", s),
        };
        let mut out = chars_of(head);
        let b = chars_of(body.as_str());
        let mut i: usize = 0;
        let ghost start = out@;
        while i < b.len()
            invariant
                i <= b.len(),
                out@ == start + b@.take(i as int),
            decreases b.len() - i,
        {
            out.push(b[i]);
            assert(b@.take(i + 1) =~= b@.take(i as int).push(b@[i as int]));
            i = i + 1;
        }
        assert(b@.take(i as int) =~= b@);
        out.push('\'');
        proof {
            reveal_strlit("'");
            assert(out@ =~= start + b@ + "'"@);
        }
        string_of(&out)
    }
}

/// The message text of an error.
pub open spec fn error_message(e: HotkeyErrorView) -> Seq<char> {
    match e {
        HotkeyErrorView::UnknownKey(s) => "unknown key: '"@ + s + "'"@,
        HotkeyErrorView::NoKeyCode(s) => "no key code in hotkey: '"@ + s + "'"@,
    }
}

fn key_code(t: &Vec<char>) -> (r: Option<u32>)
    ensures
        r == vk_of(t@),
{
    if t.len() == 1 && (('0' <= t[0] && t[0] <= '9') || ('A' <= t[0] && t[0] <= 'Z')) {
        Some(t[0] as u32)
    } else if t.len() == 2 && t[0] == 'F' && '1' <= t[1] && t[1] <= '9' {
        Some(0x6F + (t[1] as u32 - '0' as u32))
    } else if t.len() == 3 && t[0] == 'F' && t[1] == '1' && '0' <= t[2] && t[2] <= '2' {
        Some(0x79 + (t[2] as u32 - '0' as u32))
    } else {
        None
    }
}

/// The virtual-key code of a key name already in uppercase; the error holds
/// the name.
pub fn vk_of_upper(up: String) -> (r: Result<u32, HotkeyError>)
    ensures
        match vk_of(up@) {
            Some(k) => r == Ok::<u32, HotkeyError>(k),
            None => r matches Err(e) && e.view() == HotkeyErrorView::UnknownKey(up@),
        },
{
    let t = chars_of(up.as_str());
    match key_code(&t) {
        Some(k) => Ok(k),
        None => Err(HotkeyError::UnknownKey(up)),
    }
}

/// The virtual-key code of a key name, case-insensitively.
pub fn parse_vk(s: &str) -> (r: Result<u32, HotkeyError>)
    ensures
        match vk_of(key_upper(s@)) {
            Some(k) => r == Ok::<u32, HotkeyError>(k),
            None => r matches Err(e) && e.view() == HotkeyErrorView::UnknownKey(key_upper(s@)),
        },
{
    vk_of_upper(uppercase_name(s))
}

// ---------------------------------------------------------------------------
// Combos
// ---------------------------------------------------------------------------

/// A key code with the modifiers held together with it.
pub struct ParsedCombo {
    pub vk: u32,
    pub ctrl: bool,
    pub alt: bool,
    pub shift: bool,
    pub win: bool,
}

/// What a combo has named so far, part by part.
pub struct ComboParts {
    pub vk: Option<u32>,
    pub ctrl: bool,
    pub alt: bool,
    pub shift: bool,
    pub win: bool,
}

/// Reads the `+`-separated parts in order: modifier names set their flag, any
/// other part must name a key (the last one named wins); the first part that
/// names nothing stops the reading with that part uppercased.
pub open spec fn combo_fold(parts: Seq<Seq<char>>, st: ComboParts) -> Result<ComboParts, Seq<char>>
    decreases parts.len(),
{
    if parts.len() == 0 {
        Ok(st)
    } else {
        let p = trim(parts[0]);
        let rest = parts.drop_first();
        if p == "Ctrl"@ || p == "Control"@ {
            combo_fold(rest, ComboParts { ctrl: true, ..st })
        } else if p == "Alt"@ {
            combo_fold(rest, ComboParts { alt: true, ..st })
        } else if p == "Shift"@ {
            combo_fold(rest, ComboParts { shift: true, ..st })
        } else if p == "Win"@ || p == "Super"@ {
            combo_fold(rest, ComboParts { win: true, ..st })
        } else {
            match vk_of(key_upper(p)) {
                Some(k) => combo_fold(rest, ComboParts { vk: Some(k), ..st }),
                None => Err(key_upper(p)),
            }
        }
    }
}

/// Nothing named yet.
pub open spec fn no_parts() -> ComboParts {
    ComboParts { vk: None, ctrl: false, alt: false, shift: false, win: false }
}

/// What reading a combo string gives.
pub open spec fn combo_spec(s: Seq<char>) -> Result<ParsedCombo, HotkeyErrorView> {
    match combo_fold(split_on(s, '+'), no_parts()) {
        Err(u) => Err(HotkeyErrorView::UnknownKey(u)),
        Ok(st) => match st.vk {
            None => Err(HotkeyErrorView::NoKeyCode(s)),
            Some(vk) => Ok(
                ParsedCombo { vk, ctrl: st.ctrl, alt: st.alt, shift: st.shift, win: st.win },
            ),
        },
    }
}

/// The view of a parse result.
pub open spec fn combo_result_view(r: Result<ParsedCombo, HotkeyError>) -> Result<
    ParsedCombo,
    HotkeyErrorView,
> {
    match r {
        Ok(c) => Ok(c),
        Err(e) => Err(e.view()),
    }
}

fn chars_eq(v: &Vec<char>, s: &str) -> (r: bool)
    ensures
        r == (v@ == s@),
{
    let a = string_of(v);
    let b = owned(s);
    a == b
}

/// Reads a combo string such as "Ctrl+Alt+1".
pub fn parse_combo(combo: &str) -> (r: Result<ParsedCombo, HotkeyError>)
    ensures
        combo_result_view(r) == combo_spec(combo@),
{
    let text = chars_of(combo);
    let parts = split_at_char(&text, '+');
    let ghost ps = split_on(text@, '+');
    let mut ctrl = false;
    let mut alt = false;
    let mut shift = false;
    let mut win = false;
    let mut vk: Option<u32> = None;
    let mut i: usize = 0;
    proof {
        assert(ps.skip(0) =~= ps);
    }
    while i < parts.len()
        invariant
            ps == split_on(combo@, '+'),
            parts@.len() == ps.len(),
            forall|k: int| 0 <= k < parts@.len() ==> #[trigger] parts@[k]@ == ps[k],
            i <= parts.len(),
            combo_fold(ps, no_parts()) == combo_fold(
                ps.skip(i as int),
                ComboParts { vk, ctrl, alt, shift, win },
            ),
        decreases parts.len() - i,
    {
        let ghost tail = ps.skip(i as int);
        assert(tail[0] == ps[i as int]);
        assert(tail.drop_first() =~= ps.skip(i + 1));
        let piece = &parts[i];
        let (a, b) = trim_bounds(piece, 0, piece.len());
        assert(piece@.subrange(0, piece@.len() as int) =~= piece@);
        let part = crate::text::sub_vec(piece, a, b);
        if chars_eq(&part, "Ctrl") || chars_eq(&part, "Control") {
            ctrl = true;
        } else if chars_eq(&part, "Alt") {
            alt = true;
        } else if chars_eq(&part, "Shift") {
            shift = true;
        } else if chars_eq(&part, "Win") || chars_eq(&part, "Super") {
            win = true;
        } else {
            let name = string_of(&part);
            match parse_vk(name.as_str()) {
                Ok(k) => {
                    vk = Some(k);
                },
                Err(e) => {
                    return Err(e);
                },
            }
        }
        i = i + 1;
    }
    assert(ps.skip(i as int).len() == 0);
    match vk {
        Some(vk) => Ok(ParsedCombo { vk, ctrl, alt, shift, win }),
        None => Err(HotkeyError::NoKeyCode(owned(combo))),
    }
}

/// Checks a combo string; the error says why it is refused.
pub fn parse_hotkey(combo: &str) -> (r: Result<(), HotkeyError>)
    ensures
        match combo_spec(combo@) {
            Ok(_) => r is Ok,
            Err(e) => r matches Err(x) && x.view() == e,
        },
{
    match parse_combo(combo) {
        Ok(_) => Ok(()),
        Err(e) => Err(e),
    }
}

// ---------------------------------------------------------------------------
// Registered combos
// ---------------------------------------------------------------------------

/// A combo bound to an action id.
pub struct Registration {
    pub combo: ParsedCombo,
    pub action: String,
}

/// The combos currently bound, in the order they were registered.
pub struct HotkeyRegistry {
    pub registrations: Vec<Registration>,
}

impl HotkeyRegistry {
    pub fn new() -> (r: Self)
        ensures
            r.registrations@.len() == 0,
    {
        HotkeyRegistry { registrations: Vec::new() }
    }

    /// Binds `combo` to `action`; a combo that does not read leaves the
    /// registry as it was.
    pub fn register(&mut self, combo: &str, action: &str) -> (r: Result<(), HotkeyError>)
        ensures
            match combo_spec(combo@) {
                Ok(c) => {
                    &&& r is Ok
                    &&& final(self).registrations@.len() == old(self).registrations@.len() + 1
                    &&& final(self).registrations@.drop_last() == old(self).registrations@
                    &&& final(self).registrations@.last().combo == c
                    &&& final(self).registrations@.last().action@ == action@
                },
                Err(e) => {
                    &&& r matches Err(x) && x.view() == e
                    &&& final(self).registrations@ == old(self).registrations@
                },
            },
    {
        let parsed = parse_combo(combo);
        match parsed {
            Ok(c) => {
                let ghost before = self.registrations@;
                self.registrations.push(Registration { combo: c, action: owned(action) });
                assert(self.registrations@.drop_last() =~= before);
                Ok(())
            },
            Err(e) => Err(e),
        }
    }

    pub fn unregister_all(&mut self)
        ensures
            final(self).registrations@.len() == 0,
    {
        self.registrations = Vec::new();
    }
}

// ---------------------------------------------------------------------------
// The keyboard hook's decisions
// ---------------------------------------------------------------------------

/// Which modifier keys are held, as the hook has seen them go down and up.
pub struct ModifierState {
    pub ctrl: bool,
    pub shift: bool,
    pub alt: bool,
    pub win: bool,
}

/// The kind of a low-level keyboard message.
pub enum KeyMessage {
    /// WM_KEYDOWN or WM_SYSKEYDOWN
    Down,
    /// WM_KEYUP or WM_SYSKEYUP
    Up,
    /// Any other message
    Other,
}

pub open spec fn is_shift_key(vk: u32) -> bool {
    vk == 160 || vk == 161 || vk == 16
}

pub open spec fn is_ctrl_key(vk: u32) -> bool {
    vk == 162 || vk == 163 || vk == 17
}

pub open spec fn is_alt_key(vk: u32) -> bool {
    vk == 164 || vk == 165 || vk == 18
}

pub open spec fn is_win_key(vk: u32) -> bool {
    vk == 91 || vk == 92 || vk == 21
}

/// The modifier state after a message for key `vk`: a modifier going down
/// sets its flag, going up clears it.
pub open spec fn modifiers_after(m: ModifierState, msg: KeyMessage, vk: u32) -> ModifierState {
    match msg {
        KeyMessage::Down => {
            if is_shift_key(vk) {
                ModifierState { shift: true, ..m }
            } else if is_ctrl_key(vk) {
                ModifierState { ctrl: true, ..m }
            } else if is_alt_key(vk) {
                ModifierState { alt: true, ..m }
            } else if is_win_key(vk) {
                ModifierState { win: true, ..m }
            } else {
                m
            }
        },
        KeyMessage::Up => {
            if is_shift_key(vk) {
                ModifierState { shift: false, ..m }
            } else if is_ctrl_key(vk) {
                ModifierState { ctrl: false, ..m }
            } else if is_alt_key(vk) {
                ModifierState { alt: false, ..m }
            } else if is_win_key(vk) {
                ModifierState { win: false, ..m }
            } else {
                m
            }
        },
        KeyMessage::Other => m,
    }
}

/// Nothing held.
pub open spec fn no_modifiers() -> ModifierState {
    ModifierState { ctrl: false, shift: false, alt: false, win: false }
}

/// A combo is exactly key `vk` with modifiers `m`.
pub open spec fn combo_matches(c: ParsedCombo, vk: u32, m: ModifierState) -> bool {
    c.vk == vk && c.ctrl == m.ctrl && c.shift == m.shift && c.alt == m.alt && c.win == m.win
}

/// The first registration at or after `i` that key `vk` with `m` fires.
pub open spec fn first_match(regs: Seq<Registration>, vk: u32, m: ModifierState, i: int) -> Option<int>
    decreases regs.len() - i,
{
    if i < 0 || i >= regs.len() {
        None
    } else if combo_matches(regs[i].combo, vk, m) {
        Some(i)
    } else {
        first_match(regs, vk, m, i + 1)
    }
}

pub proof fn lemma_first_match(regs: Seq<Registration>, vk: u32, m: ModifierState, i: int)
    requires
        0 <= i,
    ensures
        match first_match(regs, vk, m, i) {
            Some(k) => i <= k < regs.len() && combo_matches(regs[k].combo, vk, m) && forall|j: int|
                i <= j < k ==> !combo_matches(#[trigger] regs[j].combo, vk, m),
            None => forall|j: int| i <= j < regs.len() ==> !combo_matches(regs[j].combo, vk, m),
        },
    decreases regs.len() - i,
{
    if i < regs.len() && !combo_matches(regs[i].combo, vk, m) {
        lemma_first_match(regs, vk, m, i + 1);
    }
}

/// Handles one keyboard message: tracks the modifiers and, on a key going
/// down, finds the first registered combo it completes. When one fires, its
/// action is returned (the message is then swallowed) and every modifier is
/// treated as released.
pub fn on_key_message(state: &mut ModifierState, msg: KeyMessage, vk: u32, registry: &HotkeyRegistry) -> (r: Option<String>)
    ensures
        ({
            let m = modifiers_after(*old(state), msg, vk);
            match msg {
                KeyMessage::Down => match first_match(registry.registrations@, vk, m, 0) {
                    Some(i) => {
                        &&& r matches Some(a) && a@ == registry.registrations@[i].action@
                        &&& *final(state) == no_modifiers()
                    },
                    None => r is None && *final(state) == m,
                },
                _ => r is None && *final(state) == m,
            }
        }),
{
    let down = match msg {
        KeyMessage::Down => true,
        _ => false,
    };
    let up = match msg {
        KeyMessage::Up => true,
        _ => false,
    };
    if down || up {
        let set = down;
        if vk == 160 || vk == 161 || vk == 16 {
            state.shift = set;
        } else if vk == 162 || vk == 163 || vk == 17 {
            state.ctrl = set;
        } else if vk == 164 || vk == 165 || vk == 18 {
            state.alt = set;
        } else if vk == 91 || vk == 92 || vk == 21 {
            state.win = set;
        }
    }
    if !down {
        return None;
    }
    let ghost m = *state;
    assert(m == modifiers_after(*old(state), msg, vk));
    let regs = &registry.registrations;
    let mut i: usize = 0;
    while i < regs.len()
        invariant
            *state == m,
            m == modifiers_after(*old(state), msg, vk),
            msg is Down,
            regs@ == registry.registrations@,
            i <= regs.len(),
            first_match(regs@, vk, m, 0) == first_match(regs@, vk, m, i as int),
        decreases regs.len() - i,
    {
        let c = &regs[i].combo;
        if c.vk == vk && c.ctrl == state.ctrl && c.shift == state.shift && c.alt == state.alt
            && c.win == state.win {
            let action = regs[i].action.clone();
            state.ctrl = false;
            state.shift = false;
            state.alt = false;
            state.win = false;
            return Some(action);
        }
        i = i + 1;
    }
    None
}

} // verus!
