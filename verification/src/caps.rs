//! The monitor's DDC capabilities string: its model name and the input codes
//! that it lists for VCP feature 0x60.

use vstd::prelude::*;
use vstd::utf8::{decode_utf8, valid_utf8};
use crate::ddc::{input_label, input_label_spec, VCP_INPUT};
use crate::inputs::{
    first_above, lemma_first_above_bounds, lemma_sorted_len, sort_by_code, sorted_by_code,
};
use crate::numbers::{all_hex, hex_run_value, hex_u8, hex_value, parse_hex_u8};
use crate::text::{
    ascii_lowercase, chars_of, find, find_from, find_in, is_hex, is_hex_digit, is_ws, lower,
    skip_whitespace, skip_ws, split_at_whitespace, split_ws, string_of_range, sub_vec, trim,
    trim_bounds,
};

verus! {

// ---------------------------------------------------------------------------
// What the parser reads
// ---------------------------------------------------------------------------

/// Extract `model(NAME)`: the trimmed text between the first `model(`
/// (in any ASCII case) and the next `)`, when it is not empty.
pub open spec fn model_spec(caps: Seq<char>) -> Option<Seq<char>> {
    match find(lower(caps), "model("@) {
        None => None,
        Some(k) => {
            let start = k + "model("@.len();
            match find_from(caps, seq![')'], start) {
                None => None,
                Some(e) => {
                    let name = trim(caps.subrange(start, e));
                    if name.len() == 0 {
                        None
                    } else {
                        Some(name)
                    }
                },
            }
        },
    }
}

/// The content of a parenthesised block whose `(` lies before `s`, at
/// nesting `depth`: everything up to the `)` that closes it.
pub open spec fn paren_body(s: Seq<char>, depth: nat) -> Seq<char>
    decreases s.len(),
{
    if s.len() == 0 {
        s
    } else if s[0] == '(' {
        seq!['('] + paren_body(s.drop_first(), depth + 1)
    } else if s[0] == ')' {
        if depth <= 1 {
            Seq::<char>::empty()
        } else {
            seq![')'] + paren_body(s.drop_first(), (depth - 1) as nat)
        }
    } else {
        seq![s[0]] + paren_body(s.drop_first(), depth)
    }
}

/// The number of leading hexadecimal digits of `s`.
pub open spec fn hex_run(s: Seq<char>) -> nat
    decreases s.len(),
{
    if s.len() > 0 && is_hex(s[0]) {
        1 + hex_run(s.drop_first())
    } else {
        0
    }
}

/// The number of characters of `s` before its first `)`.
pub open spec fn until_close(s: Seq<char>) -> nat
    decreases s.len(),
{
    if s.len() == 0 || s[0] == ')' {
        0
    } else {
        1 + until_close(s.drop_first())
    }
}

/// The bytes read from whitespace-separated hexadecimal pieces; pieces that
/// do not read as a byte are skipped.
pub open spec fn hex_values(pieces: Seq<Seq<char>>) -> Seq<u8>
    decreases pieces.len(),
{
    if pieces.len() == 0 {
        Seq::<u8>::empty()
    } else {
        let rest = hex_values(pieces.drop_first());
        match hex_u8(pieces[0]) {
            Some(b) => seq![b] + rest,
            None => rest,
        }
    }
}

/// Where scanning resumes after a skipped value list: past its `)`, or at
/// the end when the list is not closed.
pub open spec fn after_list(body: Seq<char>) -> Seq<char> {
    let m = until_close(body);
    if m < body.len() {
        body.skip(m as int + 1)
    } else {
        body.skip(m as int)
    }
}

/// The allowed values of feature 0x60 in a `vcp(...)` section.
/// Grammar: `HH` or `HH(VV VV ...)`, separated by whitespace. The scan skips
/// whitespace, reads a run of hex digits as a feature code (a run worth more
/// than a byte is dropped), skips a value list that follows another code,
/// and stops at a `)` or the end. A stray character is skipped.
pub open spec fn vcp_scan(s: Seq<char>) -> Seq<u8>
    decreases s.len(),
    via vcp_scan_decreases
{
    let t = skip_ws(s);
    let k = hex_run(t);
    if k == 0 {
        if t.len() == 0 || t[0] == ')' {
            Seq::<u8>::empty()
        } else {
            vcp_scan(t.drop_first())
        }
    } else {
        let rest = t.skip(k as int);
        let value = hex_value(t.take(k as int));
        if value > 255 {
            vcp_scan(rest)
        } else if rest.len() > 0 && rest[0] == '(' {
            let body = rest.drop_first();
            if value == VCP_INPUT as int {
                hex_values(split_ws(body.take(until_close(body) as int)))
            } else {
                vcp_scan(after_list(body))
            }
        } else if value == VCP_INPUT as int {
            Seq::<u8>::empty()
        } else {
            vcp_scan(rest)
        }
    }
}

pub proof fn lemma_skip_ws_suffix(s: Seq<char>)
    ensures
        skip_ws(s).len() <= s.len(),
        skip_ws(s) == s.skip(s.len() - skip_ws(s).len()),
    decreases s.len(),
{
    if s.len() > 0 && is_ws(s[0]) {
        lemma_skip_ws_suffix(s.drop_first());
        assert(s.drop_first().skip(s.drop_first().len() - skip_ws(s).len()) =~= s.skip(
            s.len() - skip_ws(s).len(),
        ));
    } else {
        assert(s.skip(0) =~= s);
    }
}

pub proof fn lemma_hex_run_le(s: Seq<char>)
    ensures
        hex_run(s) <= s.len(),
    decreases s.len(),
{
    if s.len() > 0 && is_hex(s[0]) {
        lemma_hex_run_le(s.drop_first());
    }
}

pub proof fn lemma_until_close_le(s: Seq<char>)
    ensures
        until_close(s) <= s.len(),
    decreases s.len(),
{
    if s.len() > 0 && s[0] != ')' {
        lemma_until_close_le(s.drop_first());
    }
}

#[via_fn]
proof fn vcp_scan_decreases(s: Seq<char>) {
    lemma_skip_ws_suffix(s);
    let t = skip_ws(s);
    lemma_hex_run_le(t);
    let k = hex_run(t);
    if k > 0 {
        let rest = t.skip(k as int);
        if rest.len() > 0 {
            lemma_until_close_le(rest.drop_first());
        }
    }
}


// ---------------------------------------------------------------------------
// The parser
// ---------------------------------------------------------------------------

/// Extract the content inside the block whose `(` stands just before
/// `v[from]` (excluding the closing paren). Handles nesting.
fn extract_paren_block(v: &Vec<char>, from: usize) -> (r: Vec<char>)
    requires
        1 <= from <= v.len(),
    ensures
        r@ == paren_body(v@.skip(from as int), 1),
{
    let mut r: Vec<char> = Vec::new();
    let mut depth: usize = 1;
    let mut i = from;
    while i < v.len()
        invariant
            1 <= from <= i <= v.len(),
            1 <= depth <= i - from + 1,
            paren_body(v@.skip(from as int), 1) == r@ + paren_body(v@.skip(i as int), depth as nat),
        decreases v.len() - i,
    {
        let c = v[i];
        let ghost tail = v@.skip(i as int);
        assert(tail[0] == c);
        assert(tail.drop_first() =~= v@.skip(i + 1));
        if c == '(' {
            assert(i - from + 1 < usize::MAX);
            depth = depth + 1;
            r.push(c);
            assert(r@ + paren_body(v@.skip(i + 1), depth as nat) =~= old_r_plus(r@, c, paren_body(v@.skip(i + 1), depth as nat)));
        } else if c == ')' {
            if depth == 1 {
                assert(paren_body(tail, 1) == Seq::<char>::empty());
                assert(r@ + Seq::<char>::empty() =~= r@);
                return r;
            }
            depth = depth - 1;
            r.push(c);
            assert(r@ + paren_body(v@.skip(i + 1), depth as nat) =~= old_r_plus(r@, c, paren_body(v@.skip(i + 1), depth as nat)));
        } else {
            r.push(c);
            assert(r@ + paren_body(v@.skip(i + 1), depth as nat) =~= old_r_plus(r@, c, paren_body(v@.skip(i + 1), depth as nat)));
        }
        i = i + 1;
    }
    assert(v@.skip(i as int).len() == 0);
    assert(r@ + v@.skip(i as int) =~= r@);
    r
}

/// `r` is `prefix.push(c)`: regroups `prefix.push(c) + rest` as `prefix + ([c] + rest)`.
spec fn old_r_plus(r: Seq<char>, c: char, rest: Seq<char>) -> Seq<char> {
    r.drop_last() + (seq![c] + rest)
}

/// The bytes read from the whitespace-separated pieces of `v[from..to]`.
fn hex_values_in(v: &Vec<char>, from: usize, to: usize) -> (r: Vec<u8>)
    requires
        from <= to <= v.len(),
    ensures
        r@ == hex_values(split_ws(v@.subrange(from as int, to as int))),
{
    let part = sub_vec(v, from, to);
    let pieces = split_at_whitespace(&part);
    let ghost ps = split_ws(part@);
    let mut out: Vec<u8> = Vec::new();
    let mut i: usize = 0;
    proof {
        assert(ps.skip(0) =~= ps);
        assert(out@ + hex_values(ps) =~= hex_values(ps));
    }
    while i < pieces.len()
        invariant
            ps == split_ws(part@),
            pieces@.len() == ps.len(),
            forall|k: int| 0 <= k < pieces@.len() ==> #[trigger] pieces@[k]@ == ps[k],
            i <= pieces.len(),
            hex_values(ps) == out@ + hex_values(ps.skip(i as int)),
        decreases pieces.len() - i,
    {
        let ghost tail = ps.skip(i as int);
        assert(tail[0] == ps[i as int]);
        assert(tail.drop_first() =~= ps.skip(i + 1));
        let b = parse_hex_u8(&pieces[i]);
        match b {
            Some(x) => {
                out.push(x);
                assert(hex_values(tail) == seq![x] + hex_values(ps.skip(i + 1)));
                assert(out@ + hex_values(ps.skip(i + 1)) =~= out@.drop_last() + (seq![x] + hex_values(ps.skip(i + 1))));
            },
            None => {},
        }
        i = i + 1;
    }
    assert(ps.skip(i as int).len() == 0);
    assert(out@ + Seq::<u8>::empty() =~= out@);
    out
}

/// The end of the run of hexadecimal digits that starts at `v[p1]`.
fn hex_run_end(v: &Vec<char>, p1: usize) -> (p2: usize)
    requires
        p1 <= v.len(),
    ensures
        p1 <= p2 <= v.len(),
        hex_run(v@.skip(p1 as int)) == p2 - p1,
        all_hex(v@.subrange(p1 as int, p2 as int)),
        v@.skip(p1 as int).take(p2 - p1) == v@.subrange(p1 as int, p2 as int),
        v@.skip(p1 as int).skip(p2 - p1) == v@.skip(p2 as int),
{
    let n = v.len();
    let mut p2 = p1;
    proof {
        assert(v@.skip(p1 as int).skip(0) =~= v@.skip(p1 as int));
    }
    while p2 < n && is_hex_digit(v[p2])
        invariant
            n == v.len(),
            p1 <= p2 <= n,
            hex_run(v@.skip(p1 as int)) == (p2 - p1) + hex_run(v@.skip(p2 as int)),
            forall|j: int| p1 <= j < p2 ==> is_hex(#[trigger] v@[j]),
        decreases n - p2,
    {
        assert(v@.skip(p2 as int)[0] == v@[p2 as int]);
        assert(v@.skip(p2 as int).drop_first() =~= v@.skip(p2 + 1));
        p2 = p2 + 1;
    }
    proof {
        if p2 < n {
            assert(v@.skip(p2 as int)[0] == v@[p2 as int]);
        }
        assert(hex_run(v@.skip(p2 as int)) == 0);
        assert(v@.skip(p1 as int).take(p2 - p1) =~= v@.subrange(p1 as int, p2 as int));
        assert(v@.skip(p1 as int).skip(p2 - p1) =~= v@.skip(p2 as int));
        assert forall|j: int| 0 <= j < p2 - p1 implies is_hex(
            #[trigger] v@.subrange(p1 as int, p2 as int)[j],
        ) by {
            assert(v@.subrange(p1 as int, p2 as int)[j] == v@[p1 + j]);
        }
    }
    p2
}

/// The position of the first `)` at or after `v[b]`, or the end.
fn close_end(v: &Vec<char>, b: usize) -> (e: usize)
    requires
        b <= v.len(),
    ensures
        b <= e <= v.len(),
        until_close(v@.skip(b as int)) == e - b,
        v@.skip(b as int).take(e - b) == v@.subrange(b as int, e as int),
        e < v.len() ==> v@.skip(b as int).skip(e - b + 1) == v@.skip(e + 1),
        e == v.len() ==> v@.skip(b as int).skip(e - b) == v@.skip(e as int),
{
    let n = v.len();
    let mut e = b;
    proof {
        assert(v@.skip(b as int).skip(0) =~= v@.skip(b as int));
    }
    while e < n && v[e] != ')'
        invariant
            n == v.len(),
            b <= e <= n,
            until_close(v@.skip(b as int)) == (e - b) + until_close(v@.skip(e as int)),
        decreases n - e,
    {
        assert(v@.skip(e as int)[0] == v@[e as int]);
        assert(v@.skip(e as int).drop_first() =~= v@.skip(e + 1));
        e = e + 1;
    }
    proof {
        if e < n {
            assert(v@.skip(e as int)[0] == v@[e as int]);
            assert(v@.skip(b as int).skip(e - b + 1) =~= v@.skip(e + 1));
        } else {
            assert(v@.skip(b as int).skip(e - b) =~= v@.skip(e as int));
        }
        assert(until_close(v@.skip(e as int)) == 0);
        assert(v@.skip(b as int).take(e - b) =~= v@.subrange(b as int, e as int));
    }
    e
}

/// The allowed values for feature 0x60 in `v[from..]`, a `vcp(...)` section.
fn vcp_input_codes(v: &Vec<char>, from: usize) -> (r: Vec<u8>)
    requires
        from <= v.len(),
    ensures
        r@ == vcp_scan(v@.skip(from as int)),
{
    let n = v.len();
    let mut pos = from;
    loop
        invariant
            n == v.len(),
            from <= pos <= n,
            vcp_scan(v@.skip(from as int)) == vcp_scan(v@.skip(pos as int)),
        decreases n - pos,
    {
        let ghost s = v@.skip(pos as int);
        let p1 = skip_whitespace(v, pos);
        let ghost t = v@.skip(p1 as int);
        assert(skip_ws(s) == t);
        let p2 = hex_run_end(v, p1);
        if p2 == p1 {
            if p1 == n {
                assert(vcp_scan(s) == Seq::<u8>::empty());
                return Vec::new();
            }
            assert(t[0] == v@[p1 as int]);
            if v[p1] == ')' {
                assert(vcp_scan(s) == Seq::<u8>::empty());
                return Vec::new();
            }
            assert(t.drop_first() =~= v@.skip(p1 + 1));
            assert(vcp_scan(s) == vcp_scan(v@.skip(p1 + 1)));
            pos = p1 + 1;
        } else {
            let ghost rest = v@.skip(p2 as int);
            match hex_run_value(v, p1, p2) {
                None => {
                    assert(vcp_scan(s) == vcp_scan(rest));
                    pos = p2;
                },
                Some(code) => {
                    if p2 < n && v[p2] == '(' {
                        assert(rest[0] == v@[p2 as int]);
                        let b = p2 + 1;
                        assert(rest.drop_first() =~= v@.skip(b as int));
                        let e = close_end(v, b);
                        if code == VCP_INPUT {
                            assert(vcp_scan(s) == hex_values(split_ws(v@.subrange(b as int, e as int))));
                            return hex_values_in(v, b, e);
                        }
                        if e < n {
                            assert(vcp_scan(s) == vcp_scan(v@.skip(e + 1)));
                            pos = e + 1;
                        } else {
                            assert(vcp_scan(s) == vcp_scan(v@.skip(e as int)));
                            pos = e;
                        }
                    } else {
                        proof {
                            if p2 < n {
                                assert(rest[0] == v@[p2 as int]);
                            }
                        }
                        if code == VCP_INPUT {
                            assert(vcp_scan(s) == Seq::<u8>::empty());
                            return Vec::new();
                        }
                        assert(vcp_scan(s) == vcp_scan(rest));
                        pos = p2;
                    }
                },
            }
        }
    }
}

/// The `(label, code)` pairs for a list of input codes.
pub open spec fn labelled(codes: Seq<u8>) -> Seq<(Seq<char>, u8)> {
    codes.map_values(|c: u8| (input_label_spec(c), c))
}

/// The view of a list of labelled inputs.
pub open spec fn pairs_view(v: Seq<(String, u8)>) -> Seq<(Seq<char>, u8)> {
    v.map_values(|p: (String, u8)| (p.0@, p.1))
}

/// The input codes a capabilities string lists for VCP 0x60, sorted by code,
/// each with its label; empty when there is no `vcp(` section.
pub open spec fn input_codes_spec(caps: Seq<char>) -> Seq<(Seq<char>, u8)> {
    match find(lower(caps), "vcp("@) {
        None => Seq::empty(),
        Some(p) => sorted_by_code(labelled(vcp_scan(paren_body(caps.skip(p + "vcp("@.len()), 1)))),
    }
}

/// `labelled(codes)` with the labels as strings.
fn label_codes(codes: &Vec<u8>) -> (r: Vec<(String, u8)>)
    ensures
        pairs_view(r@) == labelled(codes@),
{
    let mut r: Vec<(String, u8)> = Vec::new();
    let mut i: usize = 0;
    while i < codes.len()
        invariant
            i <= codes.len(),
            pairs_view(r@) == labelled(codes@.take(i as int)),
        decreases codes.len() - i,
    {
        let c = codes[i];
        let label = input_label(c);
        let ghost before = r@;
        r.push((label, c));
        assert(pairs_view(r@) =~= pairs_view(before).push((input_label_spec(c), c)));
        assert(labelled(codes@.take(i + 1)) =~= labelled(codes@.take(i as int)).push((input_label_spec(c), c)));
        assert(codes@.take(i + 1) =~= codes@.take(i as int).push(c));
        assert(pairs_view(r@) =~= labelled(codes@.take(i + 1)));
        i = i + 1;
    }
    assert(codes@.take(i as int) =~= codes@);
    r
}

/// Sorting commutes with viewing the labels.
pub proof fn lemma_sorted_pairs_view(s: Seq<(String, u8)>)
    ensures
        pairs_view(sorted_by_code(s)) == sorted_by_code(pairs_view(s)),
    decreases s.len(),
{
    if s.len() > 0 {
        let init = s.drop_last();
        lemma_sorted_pairs_view(init);
        let t = sorted_by_code(init);
        lemma_sorted_len(init);
        lemma_first_above_view(t, s.last().1);
        lemma_first_above_bounds(t, s.last().1);
        assert(pairs_view(s).drop_last() =~= pairs_view(init));
        let pos = first_above(t, s.last().1);
        assert(pairs_view(t.insert(pos, s.last())) =~= pairs_view(t).insert(
            pos,
            (s.last().0@, s.last().1),
        ));
    }
}

proof fn lemma_first_above_view(t: Seq<(String, u8)>, k: u8)
    ensures
        first_above(pairs_view(t), k) == first_above(t, k),
    decreases t.len(),
{
    if t.len() > 0 {
        assert(pairs_view(t).drop_first() =~= pairs_view(t.drop_first()));
        lemma_first_above_view(t.drop_first(), k);
    }
}

/// Extract `model(NAME)` from a capabilities string.
fn parse_model(caps: &Vec<char>) -> (r: Option<String>)
    ensures
        match r {
            Some(name) => model_spec(caps@) == Some(name@),
            None => model_spec(caps@) is None,
        },
{
    let lower_caps = ascii_lowercase(caps);
    let pat = chars_of("model(");
    let k = match find_in(&lower_caps, &pat, 0) {
        Some(k) => k,
        None => return None,
    };
    proof {
        crate::text::lemma_find_from(lower_caps@, pat@, 0);
        assert(crate::text::match_at(lower_caps@, pat@, k as int));
        assert(lower_caps@.len() == caps@.len());
        assert(k + pat@.len() <= caps@.len());
        assert(k + pat.len() <= caps.len());
    }
    let start = k + pat.len();
    let close = chars_of(")");
    proof {
        reveal_strlit(")");
        assert(close@ =~= seq![')']);
    }
    let e = match find_in(caps, &close, start) {
        Some(e) => e,
        None => return None,
    };
    proof {
        crate::text::lemma_find_from(caps@, close@, start as int);
    }
    let (a, b) = trim_bounds(caps, start, e);
    if a == b {
        return None;
    }
    Some(string_of_range(caps, a, b))
}

/// Parse the `vcp(...)` section and extract the allowed values for VCP 0x60,
/// sorted by code.
fn parse_input_codes(caps: &Vec<char>) -> (r: Vec<(String, u8)>)
    ensures
        pairs_view(r@) == input_codes_spec(caps@),
{
    let lower_caps = ascii_lowercase(caps);
    let pat = chars_of("vcp(");
    let p = match find_in(&lower_caps, &pat, 0) {
        Some(p) => p,
        None => return Vec::new(),
    };
    proof {
        crate::text::lemma_find_from(lower_caps@, pat@, 0);
        assert(crate::text::match_at(lower_caps@, pat@, p as int));
        assert(lower_caps@.len() == caps@.len());
        assert(p + pat@.len() <= caps@.len());
        assert(p + pat.len() <= caps.len());
        reveal_strlit("vcp(");
    }
    let section = extract_paren_block(caps, p + pat.len());
    let codes = vcp_input_codes(&section, 0);
    assert(section@.skip(0) =~= section@);
    let labels = label_codes(&codes);
    let sorted = sort_by_code(labels);
    proof {
        lemma_sorted_pairs_view(labels@);
    }
    sorted
}

/// `std::str::from_utf8(bytes).ok()`.
#[verifier::external_body]
fn utf8_text(bytes: &[u8]) -> (r: Option<&str>)
    ensures
        r is Some <==> valid_utf8(bytes@),
        r matches Some(s) ==> s@ == decode_utf8(bytes@),
{
    std::str::from_utf8(bytes).ok()
}

/// The input list and model name a raw capabilities string gives: both
/// empty when the bytes are not UTF-8.
pub fn parse_capabilities(raw: &[u8]) -> (r: (Vec<(String, u8)>, Option<String>))
    ensures
        !valid_utf8(raw@) ==> r.0@.len() == 0 && r.1 is None,
        valid_utf8(raw@) ==> pairs_view(r.0@) == input_codes_spec(decode_utf8(raw@)) && match r.1 {
            Some(name) => model_spec(decode_utf8(raw@)) == Some(name@),
            None => model_spec(decode_utf8(raw@)) is None,
        },
{
    let text = match utf8_text(raw) {
        Some(t) => t,
        None => return (Vec::new(), None),
    };
    let caps = chars_of(text);
    let model = parse_model(&caps);
    let inputs = parse_input_codes(&caps);
    (inputs, model)
}

} // verus!
