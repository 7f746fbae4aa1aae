//! Properties that relate several operations of the library.

use vstd::prelude::*;
use crate::actions::{cycle_next, cycle_plan, direct_plan, hotkey_plan, starts_with};
use crate::config::{AppConfig, MonitorConfig, external_monitors, internal_id, kept_bindings};
use crate::ddc::internal_display;
use crate::hotkeys::{
    KeyMessage, ModifierState, ParsedCombo, Registration, combo_matches, first_match, lemma_first_match,
    modifiers_after, no_modifiers,
};
use crate::numbers::{dec_parse, dec_text, lemma_dec_round_trip};
use crate::text::{contains, find, find_from, lemma_find_from, lower, match_at};

verus! {

/// A cycle hotkey flips between its two inputs: from either one it goes to
/// the other, so pressing it twice comes back.
pub proof fn cycle_alternates(a: u8, b: u8, fallback: Option<u8>)
    ensures
        cycle_next(Some(a), a, b, fallback) == b,
        cycle_next(Some(b), a, b, fallback) == a,
        cycle_next(Some(cycle_next(Some(a), a, b, fallback)), a, b, fallback) == a,
{
}

/// Pruning twice prunes no more than pruning once.
pub proof fn prune_is_idempotent(ms: Seq<(String, MonitorConfig)>, bs: Seq<(String, String)>)
    ensures
        external_monitors(external_monitors(ms)) == external_monitors(ms),
        kept_bindings(kept_bindings(bs)) == kept_bindings(bs),
{
    lemma_external_idem(ms);
    lemma_kept_idem(bs);
}

proof fn lemma_external_idem(ms: Seq<(String, MonitorConfig)>)
    ensures
        external_monitors(external_monitors(ms)) == external_monitors(ms),
    decreases ms.len(),
{
    if ms.len() > 0 {
        let init = ms.drop_last();
        lemma_external_idem(init);
        let k = external_monitors(init);
        if !internal_id(ms.last().0@) {
            assert(k.push(ms.last()).drop_last() =~= k);
        }
    }
}

proof fn lemma_kept_idem(bs: Seq<(String, String)>)
    ensures
        kept_bindings(kept_bindings(bs)) == kept_bindings(bs),
    decreases bs.len(),
{
    if bs.len() > 0 {
        let init = bs.drop_last();
        lemma_kept_idem(init);
        let k = kept_bindings(init);
        if bs.last().0@ == "all_default"@ {
            assert(k.push(bs.last()).drop_last() =~= k);
        }
    }
}

/// After pruning no internal panel and no binding but "all_default" is left.
pub proof fn prune_leaves_no_stale_entries(ms: Seq<(String, MonitorConfig)>, bs: Seq<(String, String)>)
    ensures
        forall|i: int|
            0 <= i < external_monitors(ms).len() ==> !internal_id((#[trigger] external_monitors(ms)[i]).0@),
        forall|i: int|
            0 <= i < kept_bindings(bs).len() ==> (#[trigger] kept_bindings(bs)[i]).0@ == "all_default"@,
{
    crate::config::lemma_external_monitors_from(ms);
    lemma_kept_all_default(bs);
}

proof fn lemma_kept_all_default(bs: Seq<(String, String)>)
    ensures
        forall|i: int|
            0 <= i < kept_bindings(bs).len() ==> (#[trigger] kept_bindings(bs)[i]).0@ == "all_default"@,
    decreases bs.len(),
{
    if bs.len() > 0 {
        lemma_kept_all_default(bs.drop_last());
        let k = kept_bindings(bs.drop_last());
        assert forall|i: int| 0 <= i < kept_bindings(bs).len() implies (#[trigger] kept_bindings(
            bs,
        )[i]).0@ == "all_default"@ by {
            if i < k.len() {
                assert(kept_bindings(bs)[i] == k[i]);
            }
        }
    }
}

/// The display filter and the config filter name the same internal panels:
/// `:lvds0` adds nothing, as it contains `:lvds`.
pub proof fn internal_filters_agree(id: Seq<char>)
    ensures
        internal_display(id) == internal_id(id),
{
    let l = lower(id);
    if contains(l, ":lvds0"@) {
        reveal_strlit(":lvds0");
        reveal_strlit(":lvds");
        lemma_find_from(l, ":lvds0"@, 0);
        let k = find(l, ":lvds0"@)->Some_0;
        assert(l.subrange(k, k + 5) =~= ":lvds"@) by {
            assert(l.subrange(k, k + 6) == ":lvds0"@);
            assert forall|j: int| 0 <= j < 5 implies l.subrange(k, k + 5)[j] == ":lvds"@[j] by {
                assert(l.subrange(k, k + 5)[j] == l.subrange(k, k + 6)[j]);
            }
        }
        assert(match_at(l, ":lvds"@, k));
        lemma_find_from(l, ":lvds"@, 0);
    }
}

/// The action id bound for cycle hotkey `i` ("cycle_{i}") is dispatched to
/// cycle hotkey `i`.
pub proof fn cycle_action_reaches_its_hotkey(config: AppConfig, ds: Seq<crate::ddc::DdcDisplay>, i: usize)
    requires
        i < config.cycle_hotkeys@.len(),
    ensures
        hotkey_plan("cycle_"@ + dec_text(i as nat), config, ds) == cycle_plan(
            config,
            config.cycle_hotkeys@[i as int],
            ds,
        ),
{
    let a = "cycle_"@ + dec_text(i as nat);
    reveal_strlit("cycle_");
    reveal_strlit("direct_");
    reveal_strlit("all_default");
    crate::numbers::lemma_dec_text_value(i as nat);
    assert(a[0] == 'c');
    assert(a != "all_default"@);
    assert(!starts_with(a, "direct_"@)) by {
        if starts_with(a, "direct_"@) {
            assert(a.subrange(0, 7)[0] == a[0]);
        }
    }
    assert(a.subrange(0, 6) =~= "cycle_"@);
    assert(a.skip(6) =~= dec_text(i as nat));
    lemma_dec_round_trip(i);
}

/// The action id bound for direct hotkey `i` ("direct_{i}") is dispatched to
/// direct hotkey `i`.
pub proof fn direct_action_reaches_its_hotkey(config: AppConfig, ds: Seq<crate::ddc::DdcDisplay>, i: usize)
    requires
        i < config.direct_hotkeys@.len(),
    ensures
        hotkey_plan("direct_"@ + dec_text(i as nat), config, ds) == direct_plan(
            config.direct_hotkeys@[i as int],
            ds,
        ),
{
    let a = "direct_"@ + dec_text(i as nat);
    reveal_strlit("direct_");
    reveal_strlit("all_default");
    crate::numbers::lemma_dec_text_value(i as nat);
    assert(a[0] == 'd');
    assert(a != "all_default"@);
    assert(a.subrange(0, 7) =~= "direct_"@);
    assert(a.skip(7) =~= dec_text(i as nat));
    lemma_dec_round_trip(i);
}

proof fn lemma_hex_digit(d: int)
    requires
        0 <= d < 16,
    ensures
        crate::text::is_hex(crate::numbers::hex_digit_upper(d)),
        crate::text::hex_val(crate::numbers::hex_digit_upper(d)) == d,
        !crate::text::is_ws(crate::numbers::hex_digit_upper(d)),
        crate::numbers::hex_digit_upper(d) != 'x',
        crate::numbers::hex_digit_upper(d) != 'X',
        crate::numbers::hex_digit_upper(d) != '+',
{
    let c = crate::numbers::hex_digit_upper(d);
    if d < 10 {
        assert(c as int == d + 48);
    } else {
        assert(c as int == d + 55);
    }
}

/// The code text the inputs editor writes ("0xHH") reads back as the code.
pub proof fn hex_text_round_trip(code: u8)
    ensures
        crate::settings::parse_hex_spec(crate::settings::hex_code_text(code)) == Some(code),
{
    let h = crate::numbers::hex2(code);
    let hi = code as int / 16;
    let lo = code as int % 16;
    lemma_hex_digit(hi);
    lemma_hex_digit(lo);
    reveal_strlit("0x");
    reveal_strlit("0X");
    let t = "0x"@ + h;
    assert(t[0] == '0');
    assert(!crate::text::is_ws(t[0]));
    assert(crate::text::skip_ws(t) == t);
    assert(t.last() == h[1]);
    assert(crate::text::skip_ws_end(t) == t);
    assert(crate::text::trim(t) == t);
    assert(t.subrange(0, 2) =~= "0x"@);
    assert(t.skip(2) =~= h);
    assert(!match_at(h, "0x"@, 0)) by {
        if match_at(h, "0x"@, 0) {
            assert(h.subrange(0, 2)[1] == h[1]);
        }
    }
    assert(crate::text::strip_all(h, "0x"@) == h);
    assert(crate::text::strip_all(t, "0x"@) == h);
    assert(!match_at(h, "0X"@, 0)) by {
        if match_at(h, "0X"@, 0) {
            assert(h.subrange(0, 2)[1] == h[1]);
        }
    }
    assert(crate::text::strip_all(h, "0X"@) == h);
    assert(crate::numbers::unsigned_digits(h) == h);
    assert(crate::numbers::all_hex(h));
    assert(h.drop_last() =~= seq![h[0]]);
    assert(seq![h[0]].drop_last() =~= Seq::<char>::empty());
    assert(crate::numbers::hex_value(Seq::<char>::empty()) == 0);
    assert(seq![h[0]].last() == h[0]);
    assert(crate::numbers::hex_value(seq![h[0]]) == crate::numbers::hex_value(Seq::<char>::empty()) * 16
        + crate::text::hex_val(h[0]));
    assert(h[0] == crate::numbers::hex_digit_upper(hi));
    assert(crate::numbers::hex_value(seq![h[0]]) == hi);
    assert(crate::numbers::hex_value(h) == hi * 16 + lo);
}

proof fn lemma_hex_digit_lower(d: int)
    requires
        0 <= d < 16,
    ensures
        crate::text::is_hex(crate::numbers::hex_digit_lower(d)),
        crate::text::hex_val(crate::numbers::hex_digit_lower(d)) == d,
        !crate::text::is_ws(crate::numbers::hex_digit_lower(d)),
        crate::numbers::hex_digit_lower(d) != '+',
        d > 0 ==> crate::numbers::hex_digit_lower(d) != '0',
{
    let c = crate::numbers::hex_digit_lower(d);
    if d < 10 {
        assert(c as int == d + 48);
    } else {
        assert(c as int == d + 87);
    }
}

/// Lowercase hexadecimal without the `0x` prefix (`format!("{:x}", code)`)
/// also reads back as the code in the code column.
pub proof fn lowercase_hex_reads_back(code: u8)
    ensures
        crate::settings::parse_hex_spec(crate::numbers::hex_lower(code)) == Some(code),
{
    let t = crate::numbers::hex_lower(code);
    let hi = code as int / 16;
    let lo = code as int % 16;
    lemma_hex_digit_lower(hi);
    lemma_hex_digit_lower(lo);
    if code < 16 {
        lemma_hex_digit_lower(code as int);
    }
    reveal_strlit("0x");
    reveal_strlit("0X");
    assert(!crate::text::is_ws(t[0]));
    assert(crate::text::skip_ws(t) == t);
    assert(!crate::text::is_ws(t.last()));
    assert(crate::text::skip_ws_end(t) == t);
    assert(crate::text::trim(t) == t);
    assert(!match_at(t, "0x"@, 0)) by {
        if match_at(t, "0x"@, 0) {
            assert(t.subrange(0, 2)[0] == t[0]);
            assert(t.subrange(0, 2)[1] == t[1]);
        }
    }
    assert(crate::text::strip_all(t, "0x"@) == t);
    assert(!match_at(t, "0X"@, 0)) by {
        if match_at(t, "0X"@, 0) {
            assert(t.subrange(0, 2)[0] == t[0]);
            assert(t.subrange(0, 2)[1] == t[1]);
        }
    }
    assert(crate::text::strip_all(t, "0X"@) == t);
    assert(crate::numbers::unsigned_digits(t) == t);
    assert(crate::numbers::all_hex(t));
    assert(crate::numbers::hex_value(Seq::<char>::empty()) == 0);
    if code < 16 {
        assert(t.drop_last() =~= Seq::<char>::empty());
        assert(crate::numbers::hex_value(t) == lo);
    } else {
        assert(t.drop_last() =~= seq![t[0]]);
        assert(seq![t[0]].drop_last() =~= Seq::<char>::empty());
        assert(seq![t[0]].last() == t[0]);
        assert(crate::numbers::hex_value(seq![t[0]]) == hi);
        assert(crate::numbers::hex_value(t) == hi * 16 + lo);
    }
}

// ---------------------------------------------------------------------------
// A captured combo reads back as what was pressed
// ---------------------------------------------------------------------------

/// No character of `s` is `c`.
pub open spec fn free_of(s: Seq<char>, c: char) -> bool {
    forall|i: int| 0 <= i < s.len() ==> s[i] != c
}

proof fn lemma_split_single(s: Seq<char>, sep: char)
    requires
        free_of(s, sep),
    ensures
        crate::text::split_on(s, sep) == seq![s],
    decreases s.len(),
{
    if s.len() > 0 {
        lemma_split_single(s.drop_first(), sep);
        assert(seq![s[0]] + s.drop_first() =~= s);
    } else {
        assert(s =~= Seq::<char>::empty());
    }
}

proof fn lemma_split_cons(p: Seq<char>, sep: char, rest: Seq<char>)
    requires
        free_of(p, sep),
    ensures
        crate::text::split_on(p + seq![sep] + rest, sep) == seq![p] + crate::text::split_on(rest, sep),
    decreases p.len(),
{
    let s = p + seq![sep] + rest;
    if p.len() == 0 {
        assert(s.drop_first() =~= rest);
        assert(p =~= Seq::<char>::empty());
    } else {
        lemma_split_cons(p.drop_first(), sep, rest);
        assert(s.drop_first() =~= p.drop_first() + seq![sep] + rest);
        crate::text::lemma_split_len(rest, false, sep);
        assert(seq![p[0]] + p.drop_first() =~= p);
        assert((seq![p.drop_first()] + crate::text::split_on(rest, sep)).update(
            0,
            seq![p[0]] + p.drop_first(),
        ) =~= seq![p] + crate::text::split_on(rest, sep));
    }
}

/// What a token of the capture button looks like.
proof fn lemma_token_facts(k: crate::settings::KeyPress)
    requires
        crate::settings::key_token_spec(k) is Some,
    ensures
        ({
            let t = crate::settings::key_token_spec(k)->Some_0;
            &&& free_of(t, '+')
            &&& t.len() >= 1
            &&& crate::text::trim(t) == t
            &&& crate::hotkeys::key_upper(t) == t
            &&& crate::hotkeys::vk_of(t) is Some
            &&& t != "Ctrl"@ && t != "Control"@ && t != "Alt"@ && t != "Shift"@ && t != "Win"@ && t != "Super"@
        }),
{
    reveal_strlit("Ctrl");
    reveal_strlit("Control");
    reveal_strlit("Alt");
    reveal_strlit("Shift");
    reveal_strlit("Win");
    reveal_strlit("Super");
    let t = crate::settings::key_token_spec(k)->Some_0;
    match k {
        crate::settings::KeyPress::Letter(n) => {
            assert(t[0] as int == 65 + n);
        },
        crate::settings::KeyPress::Digit(n) => {
            assert(t[0] as int == 48 + n);
        },
        crate::settings::KeyPress::Function(n) => {
            if n < 10 {
                assert(dec_text(n as nat) == seq![crate::numbers::dec_digit(n as int)]);
                assert(crate::numbers::dec_digit(n as int) as int == n + 48);
                assert(t =~= seq!['F', crate::numbers::dec_digit(n as int)]);
            } else {
                assert(dec_text(1) == seq![crate::numbers::dec_digit(1)]);
                assert(dec_text(n as nat) == dec_text(1).push(crate::numbers::dec_digit(n - 10)));
                assert(crate::numbers::dec_digit(1) as int == 49);
                assert(crate::numbers::dec_digit(n - 10) as int == n - 10 + 48);
                assert(t =~= seq!['F', crate::numbers::dec_digit(1), crate::numbers::dec_digit(n - 10)]);
            }
        },
        _ => {},
    }
    assert(!crate::text::is_ws(t[0]));
    assert(!crate::text::is_ws(t.last()));
    assert(crate::text::skip_ws(t) == t);
    assert(crate::text::skip_ws_end(t) == t);
    assert(crate::hotkeys::ascii_text(t));
    assert(crate::text::upper(t) =~= t);
}

/// A combo written by the capture button reads back as exactly the key that
/// was pressed with the modifiers that were held.
pub proof fn captured_combo_reads_back(key: crate::settings::KeyPress, ctrl: bool, alt: bool, shift: bool)
    requires
        crate::settings::key_token_spec(key) is Some,
    ensures
        ({
            let t = crate::settings::key_token_spec(key)->Some_0;
            &&& crate::hotkeys::vk_of(t) is Some
            &&& crate::hotkeys::combo_spec(crate::settings::combo_text(ctrl, alt, shift, t)) == Ok::<
                crate::hotkeys::ParsedCombo,
                crate::hotkeys::HotkeyErrorView,
            >(
                crate::hotkeys::ParsedCombo {
                    vk: crate::hotkeys::vk_of(t)->Some_0,
                    ctrl,
                    alt,
                    shift,
                    win: false,
                },
            )
        }),
{
    let t = crate::settings::key_token_spec(key)->Some_0;
    lemma_token_facts(key);
    reveal_strlit("Ctrl+");
    reveal_strlit("Alt+");
    reveal_strlit("Shift+");
    reveal_strlit("Ctrl");
    reveal_strlit("Alt");
    reveal_strlit("Shift");
    reveal_strlit("Control");
    let c = "Ctrl"@;
    let a = "Alt"@;
    let sh = "Shift"@;
    assert("Ctrl+"@ =~= c + seq!['+']);
    assert("Alt+"@ =~= a + seq!['+']);
    assert("Shift+"@ =~= sh + seq!['+']);
    assert(free_of(c, '+'));
    assert(free_of(a, '+'));
    assert(free_of(sh, '+'));
    let p3 = if shift { sh + seq!['+'] + t } else { t };
    let p2 = if alt { a + seq!['+'] + p3 } else { p3 };
    let p1 = if ctrl { c + seq!['+'] + p2 } else { p2 };
    assert(crate::settings::combo_text(ctrl, alt, shift, t) =~= p1);
    lemma_split_single(t, '+');
    let q3 = if shift { seq![sh, t] } else { seq![t] };
    if shift {
        lemma_split_cons(sh, '+', t);
    }
    assert(crate::text::split_on(p3, '+') =~= q3);
    let q2 = if alt { seq![a] + q3 } else { q3 };
    if alt {
        lemma_split_cons(a, '+', p3);
    }
    assert(crate::text::split_on(p2, '+') =~= q2);
    let q1 = if ctrl { seq![c] + q2 } else { q2 };
    if ctrl {
        lemma_split_cons(c, '+', p2);
    }
    assert(crate::text::split_on(p1, '+') =~= q1);
    assert(crate::text::trim(c) == c) by {
        assert(!crate::text::is_ws(c[0]));
        assert(!crate::text::is_ws(c.last()));
    }
    assert(crate::text::trim(a) == a) by {
        assert(!crate::text::is_ws(a[0]));
        assert(!crate::text::is_ws(a.last()));
    }
    assert(crate::text::trim(sh) == sh) by {
        assert(!crate::text::is_ws(sh[0]));
        assert(!crate::text::is_ws(sh.last()));
    }
    let vk = crate::hotkeys::vk_of(t)->Some_0;
    let st0 = crate::hotkeys::no_parts();
    let st1 = crate::hotkeys::ComboParts { ctrl: ctrl, ..st0 };
    let st2 = crate::hotkeys::ComboParts { alt: alt, ..st1 };
    let st3 = crate::hotkeys::ComboParts { shift: shift, ..st2 };
    let st4 = crate::hotkeys::ComboParts { vk: Some(vk), ..st3 };
    assert(seq![t].drop_first() =~= Seq::<Seq<char>>::empty());
    assert(crate::hotkeys::combo_fold(seq![t], st3) == crate::hotkeys::combo_fold(
        Seq::<Seq<char>>::empty(),
        st4,
    ));
    assert(crate::hotkeys::combo_fold(q3, st2) == Ok::<crate::hotkeys::ComboParts, Seq<char>>(st4)) by {
        if shift {
            assert(q3.drop_first() =~= seq![t]);
        }
    }
    assert(crate::hotkeys::combo_fold(q2, st1) == Ok::<crate::hotkeys::ComboParts, Seq<char>>(st4)) by {
        if alt {
            assert(q2.drop_first() =~= q3);
        }
    }
    assert(crate::hotkeys::combo_fold(q1, st0) == Ok::<crate::hotkeys::ComboParts, Seq<char>>(st4)) by {
        if ctrl {
            assert(q1.drop_first() =~= q2);
        }
    }
}

// ---------------------------------------------------------------------------
// Labels
// ---------------------------------------------------------------------------

proof fn lemma_label_in_consecutive(t: Seq<(Seq<char>, u8)>, base: int, i: int)
    requires
        0 <= i < t.len(),
        forall|j: int| 0 <= j < t.len() ==> (#[trigger] t[j]).1 == base + j,
    ensures
        crate::ddc::label_in(t, t[i].1) == Some(t[i].0),
    decreases i,
{
    if i > 0 {
        let r = t.drop_first();
        assert forall|j: int| 0 <= j < r.len() implies (#[trigger] r[j]).1 == (base + 1) + j by {
            assert(r[j] == t[j + 1]);
        }
        lemma_label_in_consecutive(r, base + 1, i - 1);
        assert(r[i - 1] == t[i]);
    }
}

/// Every entry of the standard table is labelled by its own name.
pub proof fn standard_inputs_label_themselves(i: int)
    requires
        0 <= i < crate::ddc::standard_table().len(),
    ensures
        crate::ddc::input_label_spec(crate::ddc::standard_table()[i].1) == crate::ddc::standard_table()[i].0,
{
    let t = crate::ddc::standard_table();
    assert forall|j: int| 0 <= j < t.len() implies (#[trigger] t[j]).1 == 1 + j by {
    }
    lemma_label_in_consecutive(t, 1, i);
}

proof fn lemma_label_in_outside(t: Seq<(Seq<char>, u8)>, base: int, code: u8)
    requires
        forall|j: int| 0 <= j < t.len() ==> (#[trigger] t[j]).1 == base + j,
        code < base || code >= base + t.len(),
    ensures
        crate::ddc::label_in(t, code) is None,
    decreases t.len(),
{
    if t.len() > 0 {
        let r = t.drop_first();
        assert forall|j: int| 0 <= j < r.len() implies (#[trigger] r[j]).1 == (base + 1) + j by {
            assert(r[j] == t[j + 1]);
        }
        assert(t[0].1 == base);
        lemma_label_in_outside(r, base + 1, code);
    }
}

/// Codes outside the standard table (0 and above 0x1D) are labelled
/// `Input 0xHH`.
pub proof fn unlisted_codes_get_generic_labels(code: u8)
    requires
        code == 0 || code > 0x1D,
    ensures
        crate::ddc::input_label_spec(code) == "Input 0x"@ + crate::numbers::hex2(code),
{
    let t = crate::ddc::standard_table();
    assert forall|j: int| 0 <= j < t.len() implies (#[trigger] t[j]).1 == 1 + j by {
    }
    lemma_label_in_outside(t, 1, code);
}

/// A number that tells the standard labels apart: the length, the first
/// and last characters, and the sixth character when there is one.
spec fn label_key(l: Seq<char>) -> int {
    l.len() * 0x1000000 + (l[0] as int) * 0x10000 + (l.last() as int) * 0x100 + if l.len() > 5 {
        l[5] as int
    } else {
        0
    }
}

proof fn lemma_standard_labels_apart()
    ensures
        forall|i: int, j: int|
            0 <= i < j < crate::ddc::standard_table().len() ==> label_key(
                #[trigger] crate::ddc::standard_table()[i].0,
            ) != label_key(#[trigger] crate::ddc::standard_table()[j].0),
        forall|i: int|
            0 <= i < crate::ddc::standard_table().len() ==> (#[trigger] crate::ddc::standard_table()[i].0).len()
                > 0 && crate::ddc::standard_table()[i].0[0] != 'I',
        forall|i: int|
            0 <= i < crate::ddc::standard_table().len() ==> (#[trigger] crate::ddc::standard_table()[i]).1
                == 1 + i,
{
    reveal_strlit("VGA-1");
    reveal_strlit("VGA-2");
    reveal_strlit("DVI-1");
    reveal_strlit("DVI-2");
    reveal_strlit("Composite-1");
    reveal_strlit("Composite-2");
    reveal_strlit("S-Video-1");
    reveal_strlit("S-Video-2");
    reveal_strlit("Tuner-1");
    reveal_strlit("Tuner-2");
    reveal_strlit("Tuner-3");
    reveal_strlit("Component-1");
    reveal_strlit("Component-2");
    reveal_strlit("Component-3");
    reveal_strlit("DP-1");
    reveal_strlit("DP-2");
    reveal_strlit("HDMI-1");
    reveal_strlit("HDMI-2");
    reveal_strlit("HDMI-3");
    reveal_strlit("HDMI-4");
    reveal_strlit("HDMI-5");
    reveal_strlit("HDMI-6");
    reveal_strlit("HDMI-7");
    reveal_strlit("HDMI-8");
    reveal_strlit("HDMI-9");
    reveal_strlit("DP-3");
    reveal_strlit("USB-C");
    reveal_strlit("USB-C-2");
    reveal_strlit("Thunderbolt");
}

/// The label of a code: its table entry for codes 0x01..=0x1D, else the
/// generic `Input 0xHH`.
proof fn lemma_label_cases(code: u8)
    ensures
        1 <= code <= 0x1D ==> crate::ddc::input_label_spec(code) == crate::ddc::standard_table()[code - 1].0,
        !(1 <= code <= 0x1D) ==> crate::ddc::input_label_spec(code) == "Input 0x"@ + crate::numbers::hex2(code),
{
    lemma_standard_labels_apart();
    if 1 <= code <= 0x1D {
        let t = crate::ddc::standard_table();
        assert(t[code - 1].1 == code);
        standard_inputs_label_themselves(code - 1);
    } else {
        unlisted_codes_get_generic_labels(code);
    }
}

/// Two different input codes never share a label.
pub proof fn input_labels_are_distinct(c1: u8, c2: u8)
    requires
        c1 != c2,
    ensures
        crate::ddc::input_label_spec(c1) != crate::ddc::input_label_spec(c2),
{
    lemma_standard_labels_apart();
    lemma_label_cases(c1);
    lemma_label_cases(c2);
    reveal_strlit("Input 0x");
    let l1 = crate::ddc::input_label_spec(c1);
    let l2 = crate::ddc::input_label_spec(c2);
    let std1 = 1 <= c1 <= 0x1D;
    let std2 = 1 <= c2 <= 0x1D;
    if std1 && std2 {
        if c1 < c2 {
            assert(label_key(l1) != label_key(l2));
        } else {
            assert(label_key(l2) != label_key(l1));
        }
    } else if !std1 && !std2 {
        if l1 == l2 {
            let h1 = crate::numbers::hex2(c1);
            let h2 = crate::numbers::hex2(c2);
            assert(l1[8] == h1[0] && l2[8] == h2[0]);
            assert(l1[9] == h1[1] && l2[9] == h2[1]);
            lemma_hex_digit(c1 as int / 16);
            lemma_hex_digit(c1 as int % 16);
            lemma_hex_digit(c2 as int / 16);
            lemma_hex_digit(c2 as int % 16);
            assert(c1 as int == (c1 as int / 16) * 16 + c1 as int % 16);
            assert(c2 as int == (c2 as int / 16) * 16 + c2 as int % 16);
        }
    } else {
        assert(std1 ==> l1[0] != 'I' && l2[0] == 'I');
        assert(std2 ==> l2[0] != 'I' && l1[0] == 'I');
    }
}

/// The generic `Input 0x..` label is given exactly to code 0 and to the
/// codes above 0x1D.
pub proof fn generic_label_exactly_outside_table(code: u8)
    ensures
        match_at(crate::ddc::input_label_spec(code), "Input 0x"@, 0) <==> (code == 0 || code > 0x1D),
{
    lemma_standard_labels_apart();
    lemma_label_cases(code);
    reveal_strlit("Input 0x");
    let l = crate::ddc::input_label_spec(code);
    if code == 0 || code > 0x1D {
        assert(l.subrange(0, 8) =~= "Input 0x"@);
    } else {
        assert(l[0] != 'I');
        if match_at(l, "Input 0x"@, 0) {
            assert(l.subrange(0, 8)[0] == l[0]);
        }
    }
}

// ---------------------------------------------------------------------------
// Saving is allowed exactly when every combo reads
// ---------------------------------------------------------------------------

proof fn lemma_error_text_empty(combo: Seq<char>)
    ensures
        crate::settings::error_text(combo).len() == 0 <==> (combo.len() == 0 || crate::hotkeys::combo_spec(
            combo,
        ) is Ok),
{
    reveal_strlit("unknown key: '");
    reveal_strlit("no key code in hotkey: '");
}

proof fn lemma_binding_errors_empty(b: Seq<(String, String)>, n: int)
    requires
        0 <= n <= b.len(),
    ensures
        crate::settings::binding_errors(b, n).len() == 0 <==> forall|j: int|
            0 <= j < n ==> crate::settings::error_text((#[trigger] b[j]).1@).len() == 0,
    decreases n,
{
    if n > 0 {
        lemma_binding_errors_empty(b, n - 1);
    }
}

/// Once the hotkeys are checked, the window lets the user save exactly when
/// every combo of the configuration is empty or reads.
pub proof fn save_allowed_iff_combos_read(app: crate::settings::SettingsApp)
    requires
        crate::settings::validated(app),
    ensures
        crate::settings::save_allowed(app) <==> crate::settings::combos_read(app.config),
{
    let c = app.config;
    let b = c.hotkeys.bindings@;
    lemma_binding_errors_empty(b, b.len() as int);
    assert(app.hotkey_errors@.len() == crate::settings::errors_view(app.hotkey_errors@).len());
    assert forall|i: int| 0 <= i < b.len() implies (crate::settings::error_text((#[trigger] b[i]).1@).len() == 0
        <==> (b[i].1@.len() == 0 || crate::hotkeys::combo_spec(b[i].1@) is Ok)) by {
        lemma_error_text_empty(b[i].1@);
    }
    assert forall|i: int| 0 <= i < c.cycle_hotkeys@.len() implies (
    (#[trigger] app.cycle_hotkey_errors@[i])@.len() == 0 <==> (c.cycle_hotkeys@[i].hotkey@.len() == 0
        || crate::hotkeys::combo_spec(c.cycle_hotkeys@[i].hotkey@) is Ok)) by {
        lemma_error_text_empty(c.cycle_hotkeys@[i].hotkey@);
    }
    assert forall|i: int| 0 <= i < c.direct_hotkeys@.len() implies (
    (#[trigger] app.direct_hotkey_errors@[i])@.len() == 0 <==> (c.direct_hotkeys@[i].hotkey@.len() == 0
        || crate::hotkeys::combo_spec(c.direct_hotkeys@[i].hotkey@) is Ok)) by {
        lemma_error_text_empty(c.direct_hotkeys@[i].hotkey@);
    }
    let part1 = app.hotkey_errors@.len() == 0;
    let read1 = forall|i: int|
        0 <= i < b.len() ==> (#[trigger] b[i]).1@.len() == 0 || crate::hotkeys::combo_spec(b[i].1@) is Ok;
    assert(part1 <==> read1);
    let part2 = forall|i: int|
        0 <= i < app.cycle_hotkey_errors@.len() ==> (#[trigger] app.cycle_hotkey_errors@[i])@.len() == 0;
    let read2 = forall|i: int|
        0 <= i < c.cycle_hotkeys@.len() ==> (#[trigger] c.cycle_hotkeys@[i]).hotkey@.len() == 0
            || crate::hotkeys::combo_spec(c.cycle_hotkeys@[i].hotkey@) is Ok;
    assert(part2 <==> read2) by {
        if part2 {
            assert forall|i: int| 0 <= i < c.cycle_hotkeys@.len() implies (#[trigger] c.cycle_hotkeys@[i]).hotkey@.len()
                == 0 || crate::hotkeys::combo_spec(c.cycle_hotkeys@[i].hotkey@) is Ok by {
                assert(app.cycle_hotkey_errors@[i]@.len() == 0);
            }
        }
        if read2 {
            assert forall|i: int| 0 <= i < app.cycle_hotkey_errors@.len() implies (
            #[trigger] app.cycle_hotkey_errors@[i])@.len() == 0 by {
                assert(c.cycle_hotkeys@[i].hotkey@.len() == 0 || crate::hotkeys::combo_spec(
                    c.cycle_hotkeys@[i].hotkey@,
                ) is Ok);
            }
        }
    }
    let part3 = forall|i: int|
        0 <= i < app.direct_hotkey_errors@.len() ==> (#[trigger] app.direct_hotkey_errors@[i])@.len() == 0;
    let read3 = forall|i: int|
        0 <= i < c.direct_hotkeys@.len() ==> (#[trigger] c.direct_hotkeys@[i]).hotkey@.len() == 0
            || crate::hotkeys::combo_spec(c.direct_hotkeys@[i].hotkey@) is Ok;
    assert(part3 <==> read3) by {
        if part3 {
            assert forall|i: int| 0 <= i < c.direct_hotkeys@.len() implies (#[trigger] c.direct_hotkeys@[i]).hotkey@.len()
                == 0 || crate::hotkeys::combo_spec(c.direct_hotkeys@[i].hotkey@) is Ok by {
                assert(app.direct_hotkey_errors@[i]@.len() == 0);
            }
        }
        if read3 {
            assert forall|i: int| 0 <= i < app.direct_hotkey_errors@.len() implies (
            #[trigger] app.direct_hotkey_errors@[i])@.len() == 0 by {
                assert(c.direct_hotkeys@[i].hotkey@.len() == 0 || crate::hotkeys::combo_spec(
                    c.direct_hotkeys@[i].hotkey@,
                ) is Ok);
            }
        }
    }
}

// ---------------------------------------------------------------------------
// Apply Default Inputs
// ---------------------------------------------------------------------------

proof fn lemma_default_plan(config: AppConfig, ds: Seq<crate::ddc::DdcDisplay>, n: int)
    requires
        0 <= n <= ds.len() <= usize::MAX,
    ensures
        ({
            let plan = crate::actions::default_plan(config, ds, n);
            &&& forall|k: int|
                0 <= k < plan.len() ==> {
                    &&& (#[trigger] plan[k]).0 < n
                    &&& crate::actions::monitor_default(config, ds[plan[k].0 as int].backend_id@) == Some(
                        plan[k].1,
                    )
                }
            &&& forall|i: int|
                0 <= i < n ==> match crate::actions::monitor_default(config, (#[trigger] ds[i]).backend_id@) {
                    Some(x) => exists|k: int| 0 <= k < plan.len() && plan[k] == (i as usize, x),
                    None => forall|k: int| 0 <= k < plan.len() ==> plan[k].0 != i,
                }
        }),
    decreases n,
{
    if n > 0 {
        lemma_default_plan(config, ds, n - 1);
        let before = crate::actions::default_plan(config, ds, n - 1);
        let plan = crate::actions::default_plan(config, ds, n);
        let last = crate::actions::monitor_default(config, ds[n - 1].backend_id@);
        assert(last is None ==> plan == before);
        assert(last is Some ==> plan == before.push(((n - 1) as usize, last->Some_0)));
        assert(plan.len() >= before.len());
        assert forall|k: int| 0 <= k < before.len() implies plan[k] == before[k] by {
        }
        assert(plan.len() > before.len() ==> plan[before.len() as int] == ((n - 1) as usize, last->Some_0));
        assert(plan.len() <= before.len() + 1);
        assert forall|i: int| 0 <= i < n implies match crate::actions::monitor_default(
            config,
            (#[trigger] ds[i]).backend_id@,
        ) {
            Some(x) => exists|k: int| 0 <= k < plan.len() && plan[k] == (i as usize, x),
            None => forall|k: int| 0 <= k < plan.len() ==> plan[k].0 != i,
        } by {
            if i < n - 1 {
                match crate::actions::monitor_default(config, ds[i].backend_id@) {
                    Some(x) => {
                        let k = choose|k: int| 0 <= k < before.len() && before[k] == (i as usize, x);
                        assert(plan[k] == before[k]);
                    },
                    None => {
                        assert forall|k: int| 0 <= k < plan.len() implies plan[k].0 != i by {
                            if k < before.len() {
                                assert(plan[k] == before[k]);
                            } else {
                                assert(k == before.len());
                                assert(plan[k].0 == (n - 1) as usize);
                            }
                        }
                    },
                }
            } else {
                match crate::actions::monitor_default(config, ds[i].backend_id@) {
                    Some(x) => {
                        assert(plan[before.len() as int] == (i as usize, x));
                    },
                    None => {
                        assert(plan == before);
                    },
                }
            }
        }
    }
}

/// Apply Default Inputs sends every display whose monitor has a configured
/// default to exactly that default, once, and touches no other display.
pub proof fn defaults_plan_is_exact(config: AppConfig, ds: Seq<crate::ddc::DdcDisplay>)
    requires
        ds.len() <= usize::MAX,
    ensures
        ({
            let plan = crate::actions::default_plan(config, ds, ds.len() as int);
            &&& forall|k: int|
                0 <= k < plan.len() ==> {
                    &&& (#[trigger] plan[k]).0 < ds.len()
                    &&& crate::actions::monitor_default(config, ds[plan[k].0 as int].backend_id@) == Some(
                        plan[k].1,
                    )
                }
            &&& forall|i: int|
                0 <= i < ds.len() ==> match crate::actions::monitor_default(config, (#[trigger] ds[i]).backend_id@) {
                    Some(x) => exists|k: int| 0 <= k < plan.len() && plan[k] == (i as usize, x),
                    None => forall|k: int| 0 <= k < plan.len() ==> plan[k].0 != i,
                }
            &&& forall|k: int, l: int| 0 <= k < l < plan.len() ==> plan[k].0 < plan[l].0
        }),
{
    lemma_default_plan(config, ds, ds.len() as int);
    lemma_default_plan_ordered(config, ds, ds.len() as int);
}

proof fn lemma_default_plan_ordered(config: AppConfig, ds: Seq<crate::ddc::DdcDisplay>, n: int)
    requires
        0 <= n <= ds.len() <= usize::MAX,
    ensures
        ({
            let plan = crate::actions::default_plan(config, ds, n);
            &&& forall|k: int| 0 <= k < plan.len() ==> (#[trigger] plan[k]).0 < n
            &&& forall|k: int, l: int| 0 <= k < l < plan.len() ==> plan[k].0 < plan[l].0
        }),
    decreases n,
{
    if n > 0 {
        lemma_default_plan_ordered(config, ds, n - 1);
        let before = crate::actions::default_plan(config, ds, n - 1);
        let plan = crate::actions::default_plan(config, ds, n);
        let last = crate::actions::monitor_default(config, ds[n - 1].backend_id@);
        assert(last is None ==> plan == before);
        assert(last is Some ==> plan == before.push(((n - 1) as usize, last->Some_0)));
        assert(plan.len() <= before.len() + 1);
        assert(plan.len() > before.len() ==> plan[before.len() as int].0 == (n - 1) as usize);
        assert forall|k: int| 0 <= k < plan.len() implies (#[trigger] plan[k]).0 < n by {
            if k < before.len() {
                assert(plan[k] == before[k]);
            }
        }
        assert forall|k: int, l: int| 0 <= k < l < plan.len() implies plan[k].0 < plan[l].0 by {
            assert(plan[k] == before[k]);
            if l < before.len() {
                assert(plan[l] == before[l]);
            } else {
                assert(l == before.len());
                assert(before[k].0 < n - 1);
            }
        }
    }
}

// ---------------------------------------------------------------------------
// The tray menu
// ---------------------------------------------------------------------------

proof fn lemma_visible_members(s: Seq<(Seq<char>, u8)>, hidden: Seq<u8>)
    ensures
        ({
            let v = crate::tray::visible(s, hidden);
            &&& forall|k: int|
                0 <= k < v.len() ==> !hidden.contains((#[trigger] v[k]).1) && exists|j: int|
                    0 <= j < s.len() && s[j] == v[k]
            &&& forall|j: int|
                0 <= j < s.len() && !hidden.contains((#[trigger] s[j]).1) ==> exists|k: int|
                    0 <= k < v.len() && v[k] == s[j]
        }),
    decreases s.len(),
{
    if s.len() > 0 {
        let init = s.drop_last();
        lemma_visible_members(init, hidden);
        let before = crate::tray::visible(init, hidden);
        let v = crate::tray::visible(s, hidden);
        assert forall|k: int| 0 <= k < v.len() implies !hidden.contains((#[trigger] v[k]).1) && exists|j: int|
            0 <= j < s.len() && s[j] == v[k] by {
            if k < before.len() {
                assert(v[k] == before[k]);
                let j = choose|j: int| 0 <= j < init.len() && init[j] == before[k];
                assert(s[j] == init[j]);
            } else {
                assert(v[k] == s.last());
                assert(s[s.len() - 1] == v[k]);
            }
        }
        assert forall|j: int| 0 <= j < s.len() && !hidden.contains((#[trigger] s[j]).1) implies exists|k: int|
            0 <= k < v.len() && v[k] == s[j] by {
            if j < init.len() {
                assert(init[j] == s[j]);
                let k = choose|k: int| 0 <= k < before.len() && before[k] == init[j];
                assert(v[k] == before[k]);
            } else {
                assert(v[before.len() as int] == s[j]);
            }
        }
    }
}

/// A display's tray submenu offers exactly its inputs that are not hidden,
/// each switching that display to that input, and checks exactly the entries
/// of the input the display is on.
pub proof fn menu_offers_unhidden_inputs_and_checks_current(
    config: AppConfig,
    ds: Seq<crate::ddc::DdcDisplay>,
    idx: int,
)
    requires
        0 <= idx < ds.len() <= usize::MAX,
    ensures
        ({
            let es = crate::tray::menu_entries(config, ds, idx);
            let ins = crate::tray::menu_inputs(config, ds[idx]);
            let hidden = crate::tray::hidden_for(config, ds[idx]);
            &&& forall|k: int|
                0 <= k < es.len() ==> {
                    let code = (#[trigger] es[k]).2->Some_0.1;
                    &&& es[k].2 == Some((idx as usize, code))
                    &&& !hidden.contains(code)
                    &&& (es[k].1 <==> ds[idx].current_input == Some(code))
                    &&& exists|j: int| 0 <= j < ins.len() && ins[j] == (es[k].0, code)
                }
            &&& forall|j: int|
                0 <= j < ins.len() && !hidden.contains((#[trigger] ins[j]).1) ==> exists|k: int|
                    0 <= k < es.len() && es[k].0 == ins[j].0 && es[k].2 == Some((idx as usize, ins[j].1))
        }),
{
    let d = ds[idx];
    let ins = crate::tray::menu_inputs(config, d);
    let hidden = crate::tray::hidden_for(config, d);
    let v = crate::tray::visible(ins, hidden);
    let es = crate::tray::menu_entries(config, ds, idx);
    lemma_visible_members(ins, hidden);
    assert(es.len() == v.len());
    assert forall|k: int| 0 <= k < es.len() implies es[k] == (
    v[k].0,
    d.current_input == Some(v[k].1),
    Some((idx as usize, v[k].1)),
    ) by {}
    assert forall|k: int| 0 <= k < es.len() implies {
        let code = (#[trigger] es[k]).2->Some_0.1;
        &&& es[k].2 == Some((idx as usize, code))
        &&& !hidden.contains(code)
        &&& (es[k].1 <==> ds[idx].current_input == Some(code))
        &&& exists|j: int| 0 <= j < ins.len() && ins[j] == (es[k].0, code)
    } by {
        assert(es[k] == (v[k].0, d.current_input == Some(v[k].1), Some((idx as usize, v[k].1))));
        assert(!hidden.contains(v[k].1));
        let j = choose|j: int| 0 <= j < ins.len() && ins[j] == v[k];
        assert(ins[j] == (es[k].0, v[k].1));
    }
    assert forall|j: int| 0 <= j < ins.len() && !hidden.contains((#[trigger] ins[j]).1) implies exists|k: int|
        0 <= k < es.len() && es[k].0 == ins[j].0 && es[k].2 == Some((idx as usize, ins[j].1)) by {
        let k = choose|k: int| 0 <= k < v.len() && v[k] == ins[j];
        assert(es[k] == (v[k].0, d.current_input == Some(v[k].1), Some((idx as usize, v[k].1))));
    }
}

// ---------------------------------------------------------------------------
// The keyboard hook's modifier tracking
// ---------------------------------------------------------------------------

/// The held modifiers as (shift, ctrl, alt, win).
pub open spec fn flags(m: ModifierState) -> (bool, bool, bool, bool) {
    (m.shift, m.ctrl, m.alt, m.win)
}

/// Exactly Ctrl+Alt+`k`.
pub open spec fn ctrl_alt(k: u32) -> ParsedCombo {
    ParsedCombo { vk: k, ctrl: true, alt: true, shift: false, win: false }
}

/// One of the Win32 virtual keys of Shift, Ctrl, Alt or Win.
pub open spec fn modifier_vk(vk: u32) -> bool {
    vk == 0xA0 || vk == 0xA1 || vk == 0x10 || vk == 0xA2 || vk == 0xA3 || vk == 0x11 || vk == 0xA4 || vk
        == 0xA5 || vk == 0x12 || vk == 0x5B || vk == 0x5C || vk == 0x15
}

/// The hook tracks the Win32 modifier keys: the left, right and generic
/// virtual keys of Shift (0xA0, 0xA1, 0x10), Ctrl (0xA2, 0xA3, 0x11), Alt
/// (0xA4, 0xA5, 0x12) and Win (0x5B, 0x5C, 0x15) set their flag on a key
/// going down and clear it on the key going up; any other key, and any other
/// message, leaves the flags as they were.
pub proof fn modifier_keys_are_tracked(m: ModifierState, vk: u32)
    ensures
        ({
            let down = flags(modifiers_after(m, KeyMessage::Down, vk));
            let up = flags(modifiers_after(m, KeyMessage::Up, vk));
            &&& (vk == 0xA0 || vk == 0xA1 || vk == 0x10) ==> down == (true, m.ctrl, m.alt, m.win) && up == (
            false,
            m.ctrl,
            m.alt,
            m.win,
            )
            &&& (vk == 0xA2 || vk == 0xA3 || vk == 0x11) ==> down == (m.shift, true, m.alt, m.win) && up == (
            m.shift,
            false,
            m.alt,
            m.win,
            )
            &&& (vk == 0xA4 || vk == 0xA5 || vk == 0x12) ==> down == (m.shift, m.ctrl, true, m.win) && up == (
            m.shift,
            m.ctrl,
            false,
            m.win,
            )
            &&& (vk == 0x5B || vk == 0x5C || vk == 0x15) ==> down == (m.shift, m.ctrl, m.alt, true) && up == (
            m.shift,
            m.ctrl,
            m.alt,
            false,
            )
            &&& !modifier_vk(vk) ==> down == flags(m) && up == flags(m)
            &&& flags(modifiers_after(m, KeyMessage::Other, vk)) == flags(m)
        }),
{
}

/// With nothing held, pressing any Ctrl key, then any Alt key, then a key
/// `k` that is no modifier fires the first registration bound to exactly
/// Ctrl+Alt+`k`, and only registrations bound to Ctrl+Alt+`k` can fire.
pub proof fn ctrl_alt_combo_fires(regs: Seq<Registration>, c: u32, a: u32, k: u32)
    requires
        c == 0xA2 || c == 0xA3 || c == 0x11,
        a == 0xA4 || a == 0xA5 || a == 0x12,
        !modifier_vk(k),
    ensures
        ({
            let m1 = modifiers_after(no_modifiers(), KeyMessage::Down, c);
            let m2 = modifiers_after(m1, KeyMessage::Down, a);
            let m3 = modifiers_after(m2, KeyMessage::Down, k);
            &&& m3.ctrl && m3.alt && !m3.shift && !m3.win
            &&& (exists|i: int|
                0 <= i < regs.len() && (#[trigger] regs[i]).combo == ctrl_alt(k)) ==> first_match(regs, k, m3, 0) is Some
            &&& match first_match(regs, k, m3, 0) {
                Some(i) => regs[i].combo == ctrl_alt(k),
                None => true,
            }
        }),
{
    let m1 = modifiers_after(no_modifiers(), KeyMessage::Down, c);
    let m2 = modifiers_after(m1, KeyMessage::Down, a);
    let m3 = modifiers_after(m2, KeyMessage::Down, k);
    modifier_keys_are_tracked(no_modifiers(), c);
    modifier_keys_are_tracked(m1, a);
    modifier_keys_are_tracked(m2, k);
    lemma_first_match(regs, k, m3, 0);
    if exists|i: int|
        0 <= i < regs.len() && (#[trigger] regs[i]).combo == ctrl_alt(k) {
        let i = choose|i: int|
            0 <= i < regs.len() && (#[trigger] regs[i]).combo == ctrl_alt(k);
        assert(combo_matches(regs[i].combo, k, m3));
    }
}

// ---------------------------------------------------------------------------
// Cycle hotkeys off their two inputs
// ---------------------------------------------------------------------------

proof fn lemma_first_display(ds: Seq<crate::ddc::DdcDisplay>, id: Seq<char>, d: int, i: int)
    requires
        0 <= i <= d < ds.len(),
        ds[d].backend_id@ == id,
        forall|j: int| 0 <= j < d ==> (#[trigger] ds[j]).backend_id@ != id,
    ensures
        crate::actions::display_pos(ds, id, i) == Some(d),
    decreases d - i,
{
    if i < d {
        lemma_first_display(ds, id, d, i + 1);
    }
}

/// A cycle hotkey for a connected monitor switches it to the other of its
/// two inputs when it is on one of them; when it is on neither, or its input
/// is unknown, it switches to the monitor's configured default input when
/// the configuration has one, and to the first input only when it has none.
pub proof fn cycle_switch_target(config: AppConfig, ch: crate::config::CycleHotkey, ds: Seq<crate::ddc::DdcDisplay>, d: int)
    requires
        0 <= d < ds.len() <= usize::MAX,
        ds[d].backend_id@ == ch.monitor_id@,
        forall|j: int| 0 <= j < d ==> (#[trigger] ds[j]).backend_id@ != ch.monitor_id@,
        crate::config::distinct_keys(config.monitors@),
    ensures
        ({
            let plan = cycle_plan(config, ch, ds);
            let cur = ds[d].current_input;
            &&& plan.len() == 1
            &&& plan[0].0 == d as usize
            &&& cur == Some(ch.input_a) ==> plan[0].1 == ch.input_b
            &&& cur == Some(ch.input_b) && ch.input_a != ch.input_b ==> plan[0].1 == ch.input_a
            &&& cur != Some(ch.input_a) && cur != Some(ch.input_b) ==> {
                &&& forall|k: int|
                    0 <= k < config.monitors@.len() && (#[trigger] config.monitors@[k]).0@ == ch.monitor_id@
                        ==> plan[0].1 == match config.monitors@[k].1.default_input {
                        Some(x) => x,
                        None => ch.input_a,
                    }
                &&& (forall|k: int|
                    0 <= k < config.monitors@.len() ==> (#[trigger] config.monitors@[k]).0@ != ch.monitor_id@)
                    ==> plan[0].1 == ch.input_a
            }
        }),
{
    lemma_first_display(ds, ch.monitor_id@, d, 0);
    crate::config::lemma_key_pos(config.monitors@, ch.monitor_id@, 0);
}

// ---------------------------------------------------------------------------
// Labels, stated by family
// ---------------------------------------------------------------------------

/// The digit character of `n` (0..=9).
pub open spec fn digit(n: int) -> char {
    ((n + 48) as u8) as char
}

/// The standard labels of VCP 0x60 by MCCS family: VGA-1/2 (0x01, 0x02),
/// DVI-1/2 (0x03, 0x04), Composite-1/2 (0x05, 0x06), S-Video-1/2 (0x07,
/// 0x08), Tuner-1..3 (0x09..=0x0B), Component-1..3 (0x0C..=0x0E), DP-1/2
/// (0x0F, 0x10), HDMI-1..9 (0x11..=0x19), DP-3 (0x1A), USB-C (0x1B),
/// USB-C-2 (0x1C) and Thunderbolt (0x1D).
pub proof fn standard_labels_by_family(code: u8)
    ensures
        ({
            let l = crate::ddc::input_label_spec(code);
            &&& 0x01 <= code <= 0x02 ==> l == "VGA-"@.push(digit(code as int))
            &&& 0x03 <= code <= 0x04 ==> l == "DVI-"@.push(digit(code - 0x02))
            &&& 0x05 <= code <= 0x06 ==> l == "Composite-"@.push(digit(code - 0x04))
            &&& 0x07 <= code <= 0x08 ==> l == "S-Video-"@.push(digit(code - 0x06))
            &&& 0x09 <= code <= 0x0B ==> l == "Tuner-"@.push(digit(code - 0x08))
            &&& 0x0C <= code <= 0x0E ==> l == "Component-"@.push(digit(code - 0x0B))
            &&& 0x0F <= code <= 0x10 ==> l == "DP-"@.push(digit(code - 0x0E))
            &&& 0x11 <= code <= 0x19 ==> l == "HDMI-"@.push(digit(code - 0x10))
            &&& code == 0x1A ==> l == "DP-3"@
            &&& code == 0x1B ==> l == "USB-C"@
            &&& code == 0x1C ==> l == "USB-C-2"@
            &&& code == 0x1D ==> l == "Thunderbolt"@
        }),
{
    reveal_strlit("VGA-1");
    reveal_strlit("VGA-2");
    reveal_strlit("DVI-1");
    reveal_strlit("DVI-2");
    reveal_strlit("Composite-1");
    reveal_strlit("Composite-2");
    reveal_strlit("S-Video-1");
    reveal_strlit("S-Video-2");
    reveal_strlit("Tuner-1");
    reveal_strlit("Tuner-2");
    reveal_strlit("Tuner-3");
    reveal_strlit("Component-1");
    reveal_strlit("Component-2");
    reveal_strlit("Component-3");
    reveal_strlit("DP-1");
    reveal_strlit("DP-2");
    reveal_strlit("HDMI-1");
    reveal_strlit("HDMI-2");
    reveal_strlit("HDMI-3");
    reveal_strlit("HDMI-4");
    reveal_strlit("HDMI-5");
    reveal_strlit("HDMI-6");
    reveal_strlit("HDMI-7");
    reveal_strlit("HDMI-8");
    reveal_strlit("HDMI-9");
    reveal_strlit("DP-3");
    reveal_strlit("USB-C");
    reveal_strlit("USB-C-2");
    reveal_strlit("Thunderbolt");
    reveal_strlit("VGA-");
    reveal_strlit("DVI-");
    reveal_strlit("Composite-");
    reveal_strlit("S-Video-");
    reveal_strlit("Tuner-");
    reveal_strlit("Component-");
    reveal_strlit("DP-");
    reveal_strlit("HDMI-");
    lemma_label_cases(code);
    let t = crate::ddc::standard_table();
    if 1 <= code <= 0x1D {
        let l = t[code - 1].0;
        assert(crate::ddc::input_label_spec(code) == l);

        if code <= 0x02 {
            assert(l =~= "VGA-"@.push(digit(code as int)));
        } else if code <= 0x04 {
            assert(l =~= "DVI-"@.push(digit(code - 0x02)));
        } else if code <= 0x06 {
            assert(l =~= "Composite-"@.push(digit(code - 0x04)));
        } else if code <= 0x08 {
            assert(l =~= "S-Video-"@.push(digit(code - 0x06)));
        } else if code <= 0x0B {
            assert(l =~= "Tuner-"@.push(digit(code - 0x08)));
        } else if code <= 0x0E {
            assert(l =~= "Component-"@.push(digit(code - 0x0B)));
        } else if code <= 0x10 {
            assert(l =~= "DP-"@.push(digit(code - 0x0E)));
        } else if code <= 0x19 {
            assert(l =~= "HDMI-"@.push(digit(code - 0x10)));
        }
    }
}

// ---------------------------------------------------------------------------
// The fallback inputs of the tray menu
// ---------------------------------------------------------------------------

/// When a display has no configured inputs and fewer than two inputs from
/// its capabilities, the tray offers HDMI-1, HDMI-2, DP-1 and DP-2, each
/// under the standard label of its own code.
pub proof fn fallback_inputs_carry_their_standard_labels(config: AppConfig, d: crate::ddc::DdcDisplay)
    requires
        d.available_inputs@.len() < 2,
        match crate::tray::config_for(config, d.backend_id@) {
            Some(mc) => mc.inputs@.len() == 0,
            None => true,
        },
    ensures
        ({
            let ins = crate::tray::menu_inputs(config, d);
            &&& ins.len() == 4
            &&& forall|j: int| 0 <= j < ins.len() ==> (#[trigger] ins[j]).0 == crate::ddc::input_label_spec(ins[j].1)
            &&& ins[0].1 == 0x11 && ins[1].1 == 0x12 && ins[2].1 == 0x0F && ins[3].1 == 0x10
        }),
{
    let ins = crate::tray::menu_inputs(config, d);
    assert(ins == crate::tray::fallback_table());
    standard_inputs_label_themselves(0x10);
    standard_inputs_label_themselves(0x11);
    standard_inputs_label_themselves(0x0E);
    standard_inputs_label_themselves(0x0F);
    lemma_standard_labels_apart();
    assert forall|j: int| 0 <= j < ins.len() implies (#[trigger] ins[j]).0 == crate::ddc::input_label_spec(ins[j].1) by {
        let t = crate::ddc::standard_table();
        reveal_strlit("HDMI-1");
        reveal_strlit("HDMI-2");
        reveal_strlit("DP-1");
        reveal_strlit("DP-2");
        if j == 0 {
            assert(ins[j] == t[0x10]);
        } else if j == 1 {
            assert(ins[j] == t[0x11]);
        } else if j == 2 {
            assert(ins[j] == t[0x0E]);
        } else {
            assert(ins[j] == t[0x0F]);
        }
    }
}

// ---------------------------------------------------------------------------
// Looking up a monitor's settings
// ---------------------------------------------------------------------------

/// With no id repeated, the settings the actions and the menu use for a
/// monitor are those of the configuration entry with its id, and there are
/// none when no entry has it.
pub proof fn monitor_lookup_reads_its_entry(config: AppConfig, id: Seq<char>)
    requires
        crate::config::distinct_keys(config.monitors@),
    ensures
        forall|k: int|
            0 <= k < config.monitors@.len() && (#[trigger] config.monitors@[k]).0@ == id ==> {
                &&& crate::actions::monitor_default(config, id) == config.monitors@[k].1.default_input
                &&& crate::tray::config_for(config, id) == Some(config.monitors@[k].1)
            },
        (forall|k: int| 0 <= k < config.monitors@.len() ==> (#[trigger] config.monitors@[k]).0@ != id) ==> {
            &&& crate::actions::monitor_default(config, id) is None
            &&& crate::tray::config_for(config, id) is None
        },
{
    crate::config::lemma_key_pos(config.monitors@, id, 0);
}

// ---------------------------------------------------------------------------
// Key names and their Win32 virtual-key codes
// ---------------------------------------------------------------------------

/// The key names a combo accepts and their Win32 virtual-key codes: a digit
/// `0`-`9` is 0x30-0x39, a letter `A`-`Z` is 0x41-0x5A, `F1`-`F12` are
/// 0x70-0x7B; nothing else of one to three characters in that form names a
/// key, and no name of another length does.
pub proof fn key_names_use_win32_codes(n: int)
    ensures
        0 <= n < 10 ==> crate::hotkeys::vk_of(seq![((n + 0x30) as u8) as char]) == Some((0x30 + n) as u32),
        0 <= n < 26 ==> crate::hotkeys::vk_of(seq![((n + 0x41) as u8) as char]) == Some((0x41 + n) as u32),
        1 <= n <= 12 ==> crate::hotkeys::vk_of(seq!['F'] + dec_text(n as nat)) == Some((0x6F + n) as u32),
        forall|t: Seq<char>| #[trigger] crate::hotkeys::vk_of(t) is Some ==> 1 <= t.len() <= 3,
{
    if 1 <= n <= 12 {
        crate::numbers::lemma_dec_text_value(n as nat);
        if n < 10 {
            assert(dec_text(n as nat) == seq![crate::numbers::dec_digit(n)]);
            assert(crate::numbers::dec_digit(n) as int == n + 48);
            assert(seq!['F'] + dec_text(n as nat) =~= seq!['F', crate::numbers::dec_digit(n)]);
        } else {
            assert(dec_text(1) == seq![crate::numbers::dec_digit(1)]);
            assert(dec_text(n as nat) == dec_text(1).push(crate::numbers::dec_digit(n - 10)));
            assert(crate::numbers::dec_digit(1) as int == 49);
            assert(crate::numbers::dec_digit(n - 10) as int == n - 10 + 48);
            assert(seq!['F'] + dec_text(n as nat) =~= seq!['F', crate::numbers::dec_digit(1), crate::numbers::dec_digit(n - 10)]);
        }
    }
}

// ---------------------------------------------------------------------------
// Modifier names
// ---------------------------------------------------------------------------

proof fn lemma_fold_keeps_flags(parts: Seq<Seq<char>>, st: crate::hotkeys::ComboParts)
    ensures
        match crate::hotkeys::combo_fold(parts, st) {
            Ok(r) => (st.ctrl ==> r.ctrl) && (st.win ==> r.win) && (st.alt ==> r.alt) && (st.shift ==> r.shift),
            Err(_) => true,
        },
    decreases parts.len(),
{
    if parts.len() > 0 {
        let p = crate::text::trim(parts[0]);
        let rest = parts.drop_first();
        lemma_fold_keeps_flags(rest, crate::hotkeys::ComboParts { ctrl: true, ..st });
        lemma_fold_keeps_flags(rest, crate::hotkeys::ComboParts { alt: true, ..st });
        lemma_fold_keeps_flags(rest, crate::hotkeys::ComboParts { shift: true, ..st });
        lemma_fold_keeps_flags(rest, crate::hotkeys::ComboParts { win: true, ..st });
        match crate::hotkeys::vk_of(crate::hotkeys::key_upper(p)) {
            Some(k) => lemma_fold_keeps_flags(rest, crate::hotkeys::ComboParts { vk: Some(k), ..st }),
            None => {},
        }
    }
}

proof fn lemma_leading_name(name: Seq<char>, s: Seq<char>)
    requires
        free_of(name, '+'),
        name.len() > 0,
        !crate::text::is_ws(name[0]),
        !crate::text::is_ws(name.last()),
    ensures
        crate::text::split_on(name + "+"@ + s, '+') == seq![name] + crate::text::split_on(s, '+'),
        crate::text::trim(name) == name,
{
    reveal_strlit("+");
    assert("+"@ =~= seq!['+']);
    lemma_split_cons(name, '+', s);
}

/// `Control` reads as `Ctrl` and `Super` as `Win`: a combo that reads with
/// one name reads the same with the other, holding that modifier.
pub proof fn modifier_name_synonyms(s: Seq<char>)
    ensures
        crate::hotkeys::combo_spec("Ctrl+"@ + s) is Ok <==> crate::hotkeys::combo_spec("Control+"@ + s) is Ok,
        crate::hotkeys::combo_spec("Ctrl+"@ + s) is Ok ==> crate::hotkeys::combo_spec("Control+"@ + s)
            == crate::hotkeys::combo_spec("Ctrl+"@ + s) && crate::hotkeys::combo_spec("Ctrl+"@ + s)->Ok_0.ctrl,
        crate::hotkeys::combo_spec("Win+"@ + s) is Ok <==> crate::hotkeys::combo_spec("Super+"@ + s) is Ok,
        crate::hotkeys::combo_spec("Win+"@ + s) is Ok ==> crate::hotkeys::combo_spec("Super+"@ + s)
            == crate::hotkeys::combo_spec("Win+"@ + s) && crate::hotkeys::combo_spec("Win+"@ + s)->Ok_0.win,
{
    reveal_strlit("Ctrl+");
    reveal_strlit("Control+");
    reveal_strlit("Win+");
    reveal_strlit("Super+");
    reveal_strlit("Ctrl");
    reveal_strlit("Control");
    reveal_strlit("Win");
    reveal_strlit("Super");
    reveal_strlit("Alt");
    reveal_strlit("Shift");
    reveal_strlit("+");
    let rest = crate::text::split_on(s, '+');
    let st0 = crate::hotkeys::no_parts();
    lemma_leading_name("Ctrl"@, s);
    lemma_leading_name("Control"@, s);
    lemma_leading_name("Win"@, s);
    lemma_leading_name("Super"@, s);
    assert("Ctrl+"@ + s =~= "Ctrl"@ + "+"@ + s);
    assert("Control+"@ + s =~= "Control"@ + "+"@ + s);
    assert("Win+"@ + s =~= "Win"@ + "+"@ + s);
    assert("Super+"@ + s =~= "Super"@ + "+"@ + s);
    assert((seq!["Ctrl"@] + rest).drop_first() =~= rest);
    assert((seq!["Control"@] + rest).drop_first() =~= rest);
    assert((seq!["Win"@] + rest).drop_first() =~= rest);
    assert((seq!["Super"@] + rest).drop_first() =~= rest);
    let stc = crate::hotkeys::ComboParts { ctrl: true, ..st0 };
    let stw = crate::hotkeys::ComboParts { win: true, ..st0 };
    assert(crate::hotkeys::combo_fold(seq!["Ctrl"@] + rest, st0) == crate::hotkeys::combo_fold(rest, stc));
    assert(crate::hotkeys::combo_fold(seq!["Control"@] + rest, st0) == crate::hotkeys::combo_fold(rest, stc));
    assert(crate::hotkeys::combo_fold(seq!["Win"@] + rest, st0) == crate::hotkeys::combo_fold(rest, stw));
    assert(crate::hotkeys::combo_fold(seq!["Super"@] + rest, st0) == crate::hotkeys::combo_fold(rest, stw));
    lemma_fold_keeps_flags(rest, stc);
    lemma_fold_keeps_flags(rest, stw);
}

// ---------------------------------------------------------------------------
// What pruning and hiding keep
// ---------------------------------------------------------------------------

/// Pruning keeps every monitor that is not an internal panel, and the
/// "all_default" binding.
pub proof fn pruning_keeps_external_monitors(ms: Seq<(String, MonitorConfig)>, bs: Seq<(String, String)>)
    ensures
        forall|i: int| 0 <= i < ms.len() && !internal_id((#[trigger] ms[i]).0@) ==> external_monitors(ms).contains(ms[i]),
        forall|i: int| 0 <= i < bs.len() && (#[trigger] bs[i]).0@ == "all_default"@ ==> kept_bindings(bs).contains(bs[i]),
    decreases ms.len() + bs.len(),
{
    if ms.len() > 0 {
        pruning_keeps_external_monitors(ms.drop_last(), bs);
        let k = external_monitors(ms.drop_last());
        assert forall|i: int| 0 <= i < ms.len() && !internal_id((#[trigger] ms[i]).0@) implies external_monitors(ms).contains(ms[i]) by {
            if i < ms.len() - 1 {
                assert(ms.drop_last()[i] == ms[i]);
                let q = choose|q: int| 0 <= q < k.len() && k[q] == ms[i];
                if !internal_id(ms.last().0@) {
                    assert(external_monitors(ms)[q] == k[q]);
                }
            } else {
                assert(external_monitors(ms)[k.len() as int] == ms[i]);
            }
        }
    }
    if bs.len() > 0 {
        pruning_keeps_external_monitors(ms, bs.drop_last());
        let k = kept_bindings(bs.drop_last());
        assert forall|i: int| 0 <= i < bs.len() && (#[trigger] bs[i]).0@ == "all_default"@ implies kept_bindings(bs).contains(bs[i]) by {
            if i < bs.len() - 1 {
                assert(bs.drop_last()[i] == bs[i]);
                let q = choose|q: int| 0 <= q < k.len() && k[q] == bs[i];
                if bs.last().0@ == "all_default"@ {
                    assert(kept_bindings(bs)[q] == k[q]);
                }
            } else {
                assert(kept_bindings(bs)[k.len() as int] == bs[i]);
            }
        }
    }
}

/// Showing an input removes every occurrence of its code from the hidden
/// list and keeps every other code.
pub proof fn showing_an_input_removes_only_its_code(s: Seq<u8>, code: u8)
    ensures
        !crate::settings::without(s, code).contains(code),
        forall|x: u8| x != code ==> (s.contains(x) <==> #[trigger] crate::settings::without(s, code).contains(x)),
    decreases s.len(),
{
    if s.len() > 0 {
        let init = s.drop_last();
        showing_an_input_removes_only_its_code(init, code);
        let w = crate::settings::without(init, code);
        assert forall|x: u8| x != code implies (s.contains(x) <==> #[trigger] crate::settings::without(s, code).contains(x)) by {
            if s.contains(x) {
                let i = choose|i: int| 0 <= i < s.len() && s[i] == x;
                if i < s.len() - 1 {
                    assert(init[i] == x);
                    assert(init.contains(x));
                    assert(crate::settings::without(init, code).contains(x));
                    let q = choose|q: int| 0 <= q < w.len() && w[q] == x;
                    if s.last() != code {
                        assert(crate::settings::without(s, code)[q] == x);
                    }
                } else {
                    assert(crate::settings::without(s, code) == w.push(x));
                    assert(crate::settings::without(s, code)[w.len() as int] == x);
                }
            }
            if crate::settings::without(s, code).contains(x) {
                let q = choose|q: int| 0 <= q < crate::settings::without(s, code).len() && crate::settings::without(s, code)[q] == x;
                if s.last() == code || q < w.len() {
                    if s.last() != code {
                        assert(crate::settings::without(s, code)[q] == w[q]);
                    }
                    assert(crate::settings::without(init, code).contains(x));
                    let i = choose|i: int| 0 <= i < init.len() && init[i] == x;
                    assert(s[i] == x);
                } else {
                    assert(s[s.len() - 1] == x);
                }
            }
        }
        if s.last() != code {
            assert forall|q: int| 0 <= q < crate::settings::without(s, code).len() implies crate::settings::without(s, code)[q] != code by {
                if q < w.len() {
                    assert(crate::settings::without(s, code)[q] == w[q]);
                }
            }
        }
    }
}

// ---------------------------------------------------------------------------
// Collecting the input rows when saving
// ---------------------------------------------------------------------------

/// No label occurs twice.
pub open spec fn labels_unique(r: Seq<(Seq<char>, u8)>) -> bool {
    forall|p: int, q: int| 0 <= p < q < r.len() ==> (#[trigger] r[p]).0 != (#[trigger] r[q]).0
}

/// The label of each of the first `n` rows occurs.
pub open spec fn rows_present(edits: Seq<crate::settings::InputEdit>, n: int, r: Seq<(Seq<char>, u8)>) -> bool {
    forall|j: int| 0 <= j < n ==> exists|p: int| 0 <= p < r.len() && r[p].0 == (#[trigger] edits[j]).label@
}

/// Row `j` is the last of the first `n` rows with label `l`.
pub open spec fn last_row_with(edits: Seq<crate::settings::InputEdit>, n: int, j: int, l: Seq<char>) -> bool {
    &&& 0 <= j < n
    &&& edits[j].label@ == l
    &&& forall|j2: int| j < j2 < n ==> (#[trigger] edits[j2]).label@ != l
}

/// Entry `p` carries the code of the last of the first `n` rows with its
/// label.
pub open spec fn has_last_code(edits: Seq<crate::settings::InputEdit>, n: int, r: Seq<(Seq<char>, u8)>, p: int) -> bool {
    exists|j: int| #[trigger] last_row_with(edits, n, j, r[p].0) && r[p].1 == edits[j].code
}

/// Each label carries the code of the last of the first `n` rows with it.
pub open spec fn last_codes(edits: Seq<crate::settings::InputEdit>, n: int, r: Seq<(Seq<char>, u8)>) -> bool {
    forall|p: int| 0 <= p < r.len() ==> #[trigger] has_last_code(edits, n, r, p)
}

proof fn lemma_collect_update(
    edits: Seq<crate::settings::InputEdit>,
    n: int,
    before: Seq<(Seq<char>, u8)>,
    r: Seq<(Seq<char>, u8)>,
    pos: int,
)
    requires
        0 < n <= edits.len(),
        labels_unique(before),
        rows_present(edits, n - 1, before),
        last_codes(edits, n - 1, before),
        0 <= pos < before.len(),
        before[pos].0 == edits[n - 1].label@,
        r == before.update(pos, (edits[n - 1].label@, edits[n - 1].code)),
    ensures
        labels_unique(r),
        rows_present(edits, n, r),
        last_codes(edits, n, r),
{
    let l = edits[n - 1].label@;
    assert forall|p: int| 0 <= p < r.len() implies (#[trigger] r[p]).0 == before[p].0 by {}
    assert(labels_unique(r)) by {
        assert forall|p: int, q: int| 0 <= p < q < r.len() implies (#[trigger] r[p]).0 != (#[trigger] r[q]).0 by {
            assert(r[p].0 == before[p].0 && r[q].0 == before[q].0);
        }
    }
    assert(rows_present(edits, n, r)) by {
        assert forall|j: int| 0 <= j < n implies exists|p: int| 0 <= p < r.len() && r[p].0 == (#[trigger] edits[j]).label@ by {
            if j < n - 1 {
                let p = choose|p: int| 0 <= p < before.len() && before[p].0 == edits[j].label@;
                assert(r[p].0 == before[p].0);
            } else {
                assert(r[pos].0 == l);
            }
        }
    }
    assert(last_codes(edits, n, r)) by {
        assert forall|p: int| 0 <= p < r.len() implies #[trigger] has_last_code(edits, n, r, p) by {
            if p == pos {
                assert(last_row_with(edits, n, n - 1, r[p].0));
            } else {
                assert(r[p] == before[p]);
                assert(0 <= p < before.len());
                assert(has_last_code(edits, n - 1, before, p));
                let j = choose|j: int| #[trigger] last_row_with(edits, n - 1, j, before[p].0) && before[p].1 == edits[j].code;
                assert(before[p].0 != before[pos].0);
                assert(last_row_with(edits, n, j, r[p].0));
            }
        }
    }
}

proof fn lemma_collect_push(
    edits: Seq<crate::settings::InputEdit>,
    n: int,
    before: Seq<(Seq<char>, u8)>,
    r: Seq<(Seq<char>, u8)>,
)
    requires
        0 < n <= edits.len(),
        labels_unique(before),
        rows_present(edits, n - 1, before),
        last_codes(edits, n - 1, before),
        forall|p: int| 0 <= p < before.len() ==> (#[trigger] before[p]).0 != edits[n - 1].label@,
        r == before.push((edits[n - 1].label@, edits[n - 1].code)),
    ensures
        labels_unique(r),
        rows_present(edits, n, r),
        last_codes(edits, n, r),
{
    let l = edits[n - 1].label@;
    assert forall|p: int| 0 <= p < before.len() implies (#[trigger] r[p]) == before[p] by {}
    assert(labels_unique(r)) by {
        assert forall|p: int, q: int| 0 <= p < q < r.len() implies (#[trigger] r[p]).0 != (#[trigger] r[q]).0 by {
            assert(r[p] == before[p]);
            if q < before.len() {
                assert(r[q] == before[q]);
            }
        }
    }
    assert(rows_present(edits, n, r)) by {
        assert forall|j: int| 0 <= j < n implies exists|p: int| 0 <= p < r.len() && r[p].0 == (#[trigger] edits[j]).label@ by {
            if j < n - 1 {
                let p = choose|p: int| 0 <= p < before.len() && before[p].0 == edits[j].label@;
                assert(r[p] == before[p]);
            } else {
                assert(r[before.len() as int].0 == l);
            }
        }
    }
    assert(last_codes(edits, n, r)) by {
        assert forall|p: int| 0 <= p < r.len() implies #[trigger] has_last_code(edits, n, r, p) by {
            if p == before.len() {
                assert(last_row_with(edits, n, n - 1, r[p].0));
            } else {
                assert(r[p] == before[p]);
                assert(has_last_code(edits, n - 1, before, p));
                let j = choose|j: int| #[trigger] last_row_with(edits, n - 1, j, before[p].0) && before[p].1 == edits[j].code;
                assert(last_row_with(edits, n, j, r[p].0));
            }
        }
    }
}

/// Saving collects a monitor's input rows as a map from label to code: each
/// label occurs once, every row's label is there, and each label carries the
/// code of the last row with that label.
pub proof fn collected_rows_keep_the_last_code(edits: Seq<crate::settings::InputEdit>, n: int)
    requires
        0 <= n <= edits.len(),
    ensures
        labels_unique(crate::settings::collected(edits, n)),
        rows_present(edits, n, crate::settings::collected(edits, n)),
        last_codes(edits, n, crate::settings::collected(edits, n)),
    decreases n,
{
    if n > 0 {
        collected_rows_keep_the_last_code(edits, n - 1);
        let before = crate::settings::collected(edits, n - 1);
        let l = edits[n - 1].label@;
        crate::settings::lemma_view_key_pos(before, l, 0);
        match crate::settings::view_key_pos(before, l, 0) {
            Some(pos) => lemma_collect_update(edits, n, before, crate::settings::collected(edits, n), pos),
            None => lemma_collect_push(edits, n, before, crate::settings::collected(edits, n)),
        }
    }
}

} // verus!
