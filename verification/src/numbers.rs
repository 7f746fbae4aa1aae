//! Reading and writing numbers as text: hexadecimal and decimal values as
//! `from_str_radix` and `parse` read them, and the forms the program prints.

use vstd::prelude::*;
use crate::text::{hex_digit_value, hex_val, is_hex, is_hex_digit};

verus! {

// ---------------------------------------------------------------------------
// Values of digit strings
// ---------------------------------------------------------------------------

/// A decimal digit.
pub open spec fn is_dec(c: char) -> bool {
    '0' <= c && c <= '9'
}

pub open spec fn all_hex(s: Seq<char>) -> bool {
    forall|i: int| 0 <= i < s.len() ==> is_hex(#[trigger] s[i])
}

pub open spec fn all_dec(s: Seq<char>) -> bool {
    forall|i: int| 0 <= i < s.len() ==> is_dec(#[trigger] s[i])
}

/// The value of a string of hexadecimal digits.
pub open spec fn hex_value(s: Seq<char>) -> int
    decreases s.len(),
{
    if s.len() == 0 {
        0
    } else {
        hex_value(s.drop_last()) * 16 + hex_val(s.last())
    }
}

/// The value of a string of decimal digits.
pub open spec fn dec_value(s: Seq<char>) -> int
    decreases s.len(),
{
    if s.len() == 0 {
        0
    } else {
        dec_value(s.drop_last()) * 10 + ((s.last() as int) - ('0' as int))
    }
}

/// The digits that `from_str_radix` reads for an unsigned type: a leading
/// `+` is dropped when something follows it.
pub open spec fn unsigned_digits(s: Seq<char>) -> Seq<char> {
    if s.len() > 1 && s[0] == '+' {
        s.drop_first()
    } else {
        s
    }
}

/// `u8::from_str_radix(s, 16)`.
pub open spec fn hex_u8(s: Seq<char>) -> Option<u8> {
    let d = unsigned_digits(s);
    if d.len() == 0 || !all_hex(d) || hex_value(d) > 255 {
        None
    } else {
        Some(hex_value(d) as u8)
    }
}

/// `s.parse()` for an unsigned integer type whose largest value is `max`.
pub open spec fn dec_parse(s: Seq<char>, max: int) -> Option<int> {
    let d = unsigned_digits(s);
    if d.len() == 0 || !all_dec(d) || dec_value(d) > max {
        None
    } else {
        Some(dec_value(d))
    }
}

pub proof fn lemma_hex_value_nonneg(s: Seq<char>)
    requires
        all_hex(s),
    ensures
        hex_value(s) >= 0,
    decreases s.len(),
{
    if s.len() > 0 {
        lemma_hex_value_nonneg(s.drop_last());
    }
}

pub proof fn lemma_dec_value_nonneg(s: Seq<char>)
    requires
        all_dec(s),
    ensures
        dec_value(s) >= 0,
    decreases s.len(),
{
    if s.len() > 0 {
        lemma_dec_value_nonneg(s.drop_last());
    }
}

/// The value of the hexadecimal digits `v[from..to]`, or `None` when it is
/// more than 255.
pub fn hex_run_value(v: &Vec<char>, from: usize, to: usize) -> (r: Option<u8>)
    requires
        from <= to <= v.len(),
        all_hex(v@.subrange(from as int, to as int)),
    ensures
        match r {
            Some(b) => hex_value(v@.subrange(from as int, to as int)) == b as int,
            None => hex_value(v@.subrange(from as int, to as int)) > 255,
        },
{
    let mut acc: u32 = 0;
    let mut over = false;
    let mut i = from;
    while i < to
        invariant
            from <= i <= to <= v.len(),
            all_hex(v@.subrange(from as int, to as int)),
            !over ==> acc == hex_value(v@.subrange(from as int, i as int)) && acc <= 255,
            over ==> hex_value(v@.subrange(from as int, i as int)) > 255,
        decreases to - i,
    {
        assert(v@.subrange(from as int, to as int)[i - from] == v@[i as int]);
        let d = hex_digit_value(v[i]);
        proof {
            assert(v@.subrange(from as int, i + 1).drop_last() =~= v@.subrange(from as int, i as int));
            assert(v@.subrange(from as int, i + 1).last() == v@[i as int]);
        }
        if !over {
            acc = acc * 16 + d;
            if acc > 255 {
                over = true;
            }
        }
        i = i + 1;
    }
    if over {
        None
    } else {
        Some(acc as u8)
    }
}

/// The decimal value of `v[from..to]`, or `None` when it is more than `max`.
fn dec_run_value(v: &Vec<char>, from: usize, to: usize, max: usize) -> (r: Option<usize>)
    requires
        from <= to <= v.len(),
        all_dec(v@.subrange(from as int, to as int)),
    ensures
        match r {
            Some(n) => dec_value(v@.subrange(from as int, to as int)) == n as int && n <= max,
            None => dec_value(v@.subrange(from as int, to as int)) > max,
        },
{
    let mut acc: u128 = 0;
    let mut over = false;
    let mut i = from;
    while i < to
        invariant
            from <= i <= to <= v.len(),
            all_dec(v@.subrange(from as int, to as int)),
            !over ==> acc == dec_value(v@.subrange(from as int, i as int)) && acc <= max,
            over ==> dec_value(v@.subrange(from as int, i as int)) > max,
        decreases to - i,
    {
        assert(v@.subrange(from as int, to as int)[i - from] == v@[i as int]);
        let c = v[i];
        let d: u128 = (c as u32 - '0' as u32) as u128;
        proof {
            assert(v@.subrange(from as int, i + 1).drop_last() =~= v@.subrange(from as int, i as int));
            assert(v@.subrange(from as int, i + 1).last() == v@[i as int]);
        }
        if !over {
            acc = acc * 10 + d;
            if acc > max as u128 {
                over = true;
            }
        }
        i = i + 1;
    }
    if over {
        None
    } else {
        Some(acc as usize)
    }
}

fn all_hex_in(v: &Vec<char>, from: usize, to: usize) -> (r: bool)
    requires
        from <= to <= v.len(),
    ensures
        r == all_hex(v@.subrange(from as int, to as int)),
{
    let mut i = from;
    while i < to
        invariant
            from <= i <= to <= v.len(),
            forall|j: int| from <= j < i ==> is_hex(#[trigger] v@[j]),
        decreases to - i,
    {
        if !is_hex_digit(v[i]) {
            assert(v@.subrange(from as int, to as int)[i - from] == v@[i as int]);
            return false;
        }
        i = i + 1;
    }
    assert forall|j: int| 0 <= j < to - from implies is_hex(
        #[trigger] v@.subrange(from as int, to as int)[j],
    ) by {
        assert(v@.subrange(from as int, to as int)[j] == v@[from + j]);
    }
    true
}

fn all_dec_in(v: &Vec<char>, from: usize, to: usize) -> (r: bool)
    requires
        from <= to <= v.len(),
    ensures
        r == all_dec(v@.subrange(from as int, to as int)),
{
    let mut i = from;
    while i < to
        invariant
            from <= i <= to <= v.len(),
            forall|j: int| from <= j < i ==> is_dec(#[trigger] v@[j]),
        decreases to - i,
    {
        if !('0' <= v[i] && v[i] <= '9') {
            assert(v@.subrange(from as int, to as int)[i - from] == v@[i as int]);
            return false;
        }
        i = i + 1;
    }
    assert forall|j: int| 0 <= j < to - from implies is_dec(
        #[trigger] v@.subrange(from as int, to as int)[j],
    ) by {
        assert(v@.subrange(from as int, to as int)[j] == v@[from + j]);
    }
    true
}

/// `u8::from_str_radix(s, 16).ok()`.
pub fn parse_hex_u8(v: &Vec<char>) -> (r: Option<u8>)
    ensures
        r == hex_u8(v@),
{
    let from: usize = if v.len() > 1 && v[0] == '+' {
        1
    } else {
        0
    };
    proof {
        assert(unsigned_digits(v@) =~= v@.subrange(from as int, v.len() as int));
    }
    if from == v.len() || !all_hex_in(v, from, v.len()) {
        return None;
    }
    hex_run_value(v, from, v.len())
}

/// `s.parse::<usize>().ok()`.
pub fn parse_usize(v: &Vec<char>) -> (r: Option<usize>)
    ensures
        match r {
            Some(n) => dec_parse(v@, usize::MAX as int) == Some(n as int),
            None => dec_parse(v@, usize::MAX as int) is None,
        },
{
    let from: usize = if v.len() > 1 && v[0] == '+' {
        1
    } else {
        0
    };
    proof {
        assert(unsigned_digits(v@) =~= v@.subrange(from as int, v.len() as int));
    }
    if from == v.len() || !all_dec_in(v, from, v.len()) {
        return None;
    }
    dec_run_value(v, from, v.len(), usize::MAX)
}

/// `s.parse::<u8>().ok()`.
pub fn parse_u8(v: &Vec<char>) -> (r: Option<u8>)
    ensures
        match r {
            Some(n) => dec_parse(v@, 255) == Some(n as int),
            None => dec_parse(v@, 255) is None,
        },
{
    let from: usize = if v.len() > 1 && v[0] == '+' {
        1
    } else {
        0
    };
    proof {
        assert(unsigned_digits(v@) =~= v@.subrange(from as int, v.len() as int));
    }
    if from == v.len() || !all_dec_in(v, from, v.len()) {
        return None;
    }
    match dec_run_value(v, from, v.len(), 255) {
        Some(n) => Some(n as u8),
        None => None,
    }
}

// ---------------------------------------------------------------------------
// Writing numbers
// ---------------------------------------------------------------------------

/// The decimal digit character for `d < 10`.
pub open spec fn dec_digit(d: int) -> char {
    ((d + 48) as u8) as char
}

/// `format!("{}", n)`.
pub open spec fn dec_text(n: nat) -> Seq<char>
    decreases n,
{
    if n < 10 {
        seq![dec_digit(n as int)]
    } else {
        dec_text(n / 10).push(dec_digit((n % 10) as int))
    }
}

/// The uppercase hexadecimal digit character for `d < 16`.
pub open spec fn hex_digit_upper(d: int) -> char {
    if d < 10 {
        ((d + 48) as u8) as char
    } else {
        ((d + 55) as u8) as char
    }
}

/// The lowercase hexadecimal digit of `d` (`0`-`9`, `a`-`f`).
pub open spec fn hex_digit_lower(d: int) -> char {
    if d < 10 {
        ((d + 48) as u8) as char
    } else {
        ((d + 87) as u8) as char
    }
}

/// `format!("{:x}", b)`: lowercase hexadecimal digits, no padding.
pub open spec fn hex_lower(b: u8) -> Seq<char> {
    if b < 16 {
        seq![hex_digit_lower(b as int)]
    } else {
        seq![hex_digit_lower(b as int / 16), hex_digit_lower(b as int % 16)]
    }
}

/// `format!("{:02X}", b)`: two uppercase hexadecimal digits.
pub open spec fn hex2(b: u8) -> Seq<char> {
    seq![hex_digit_upper(b as int / 16), hex_digit_upper(b as int % 16)]
}

fn hex_digit_char(d: u8) -> (c: char)
    requires
        d < 16,
    ensures
        c == hex_digit_upper(d as int),
{
    if d < 10 {
        (d + 48) as char
    } else {
        (d + 55) as char
    }
}

/// Appends `format!("{:02X}", b)` to `out`.
pub fn push_hex2(out: &mut Vec<char>, b: u8)
    ensures
        final(out)@ == old(out)@ + hex2(b),
{
    let hi = hex_digit_char(b / 16);
    let lo = hex_digit_char(b % 16);
    out.push(hi);
    out.push(lo);
    assert(final(out)@ =~= old(out)@ + hex2(b));
}

/// Appends `format!("{}", n)` to `out`.
pub fn push_dec(out: &mut Vec<char>, n: usize)
    ensures
        final(out)@ == old(out)@ + dec_text(n as nat),
    decreases n,
{
    if n >= 10 {
        push_dec(out, n / 10);
    }
    let d: u8 = (n % 10) as u8;
    out.push((d + 48) as char);
    proof {
        if n >= 10 {
            assert(final(out)@ =~= old(out)@ + dec_text(n as nat));
        } else {
            assert(final(out)@ =~= old(out)@ + dec_text(n as nat));
        }
    }
}

/// Written decimal numbers read back as the same number.
pub proof fn lemma_dec_text_value(n: nat)
    ensures
        dec_text(n).len() >= 1,
        all_dec(dec_text(n)),
        dec_value(dec_text(n)) == n,
        dec_text(n)[0] != '+',
    decreases n,
{
    let d = (n % 10) as int;
    assert(dec_digit(d) as int == d + 48);
    if n >= 10 {
        lemma_dec_text_value(n / 10);
        let t = dec_text(n / 10);
        assert(dec_text(n).drop_last() =~= t);
        assert(dec_text(n).last() == dec_digit(d));
        assert((n / 10) * 10 + d == n);
        assert(dec_value(dec_text(n)) == dec_value(t) * 10 + d);
        assert forall|i: int| 0 <= i < dec_text(n).len() implies is_dec(#[trigger] dec_text(n)[i]) by {
            if i < t.len() {
                assert(dec_text(n)[i] == t[i]);
            }
        }
    } else {
        assert(dec_text(n).drop_last() =~= Seq::<char>::empty());
        assert(dec_value(Seq::<char>::empty()) == 0);
        assert(dec_value(dec_text(n)) == d);
    }
}

/// `parse` reads back what `format!("{}")` wrote.
pub proof fn lemma_dec_round_trip(n: usize)
    ensures
        dec_parse(dec_text(n as nat), usize::MAX as int) == Some(n as int),
{
    lemma_dec_text_value(n as nat);
    assert(unsigned_digits(dec_text(n as nat)) == dec_text(n as nat));
}

} // verus!
