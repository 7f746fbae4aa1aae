//! Lists of labelled inputs `(label, VCP code)`: ordering them by code.

use vstd::prelude::*;

verus! {

/// How many leading entries of `s` have a code of at most `k`.
pub open spec fn first_above<T>(s: Seq<(T, u8)>, k: u8) -> int
    decreases s.len(),
{
    if s.len() == 0 {
        0
    } else if s[0].1 > k {
        0
    } else {
        1 + first_above(s.drop_first(), k)
    }
}

/// `x` inserted after every leading entry whose code is at most its own.
pub open spec fn insert_by_code<T>(s: Seq<(T, u8)>, x: (T, u8)) -> Seq<(T, u8)> {
    s.insert(first_above(s, x.1), x)
}

/// `sort_by_key(|(_, c)| *c)`: a stable sort by code, as insertion sort
/// builds it.
pub open spec fn sorted_by_code<T>(s: Seq<(T, u8)>) -> Seq<(T, u8)>
    decreases s.len(),
{
    if s.len() == 0 {
        s
    } else {
        insert_by_code(sorted_by_code(s.drop_last()), s.last())
    }
}

/// Codes never decrease along `s`.
pub open spec fn codes_ascending<T>(s: Seq<(T, u8)>) -> bool {
    forall|i: int, j: int| 0 <= i <= j < s.len() ==> s[i].1 <= s[j].1
}

pub proof fn lemma_first_above_bounds<T>(s: Seq<(T, u8)>, k: u8)
    ensures
        0 <= first_above(s, k) <= s.len(),
        forall|i: int| 0 <= i < first_above(s, k) ==> s[i].1 <= k,
        first_above(s, k) < s.len() ==> s[first_above(s, k)].1 > k,
    decreases s.len(),
{
    if s.len() > 0 && s[0].1 <= k {
        lemma_first_above_bounds(s.drop_first(), k);
        assert forall|i: int| 0 <= i < first_above(s, k) implies s[i].1 <= k by {
            if i > 0 {
                assert(s[i] == s.drop_first()[i - 1]);
            }
        }
    }
}

pub proof fn lemma_sorted_len<T>(s: Seq<(T, u8)>)
    ensures
        sorted_by_code(s).len() == s.len(),
    decreases s.len(),
{
    if s.len() > 0 {
        lemma_sorted_len(s.drop_last());
        lemma_first_above_bounds(sorted_by_code(s.drop_last()), s.last().1);
    }
}

proof fn lemma_insert_ascending<T>(t: Seq<(T, u8)>, x: (T, u8))
    requires
        codes_ascending(t),
    ensures
        codes_ascending(insert_by_code(t, x)),
{
    lemma_first_above_bounds(t, x.1);
    let p = first_above(t, x.1);
    let r = insert_by_code(t, x);
    assert forall|i: int, j: int| 0 <= i <= j < r.len() implies r[i].1 <= r[j].1 by {
        if i < p {
            if j < p {
                assert(r[i] == t[i] && r[j] == t[j]);
            } else if j == p {
                assert(r[i] == t[i]);
            } else {
                assert(r[i] == t[i] && r[j] == t[j - 1]);
            }
        } else if i == p {
            if j > p {
                assert(r[j] == t[j - 1]);
                assert(t[p].1 > x.1);
                assert(t[p].1 <= t[j - 1].1);
            }
        } else {
            assert(r[i] == t[i - 1] && r[j] == t[j - 1]);
        }
    }
}

/// Sorting by code yields codes in ascending order and keeps every entry
/// (the same multiset).
pub proof fn sort_by_code_sorts<T>(s: Seq<(T, u8)>)
    ensures
        codes_ascending(sorted_by_code(s)),
        sorted_by_code(s).to_multiset() == s.to_multiset(),
    decreases s.len(),
{
    broadcast use vstd::seq_lib::to_multiset_insert, vstd::seq_lib::to_multiset_build;

    if s.len() == 0 {
    } else {
        let init = s.drop_last();
        sort_by_code_sorts(init);
        lemma_first_above_bounds(sorted_by_code(init), s.last().1);
        lemma_insert_ascending(sorted_by_code(init), s.last());
        assert(init.push(s.last()) =~= s);
    }
}

/// The entries of `v`, stably sorted by code.
pub fn sort_by_code(v: Vec<(String, u8)>) -> (r: Vec<(String, u8)>)
    ensures
        r@ == sorted_by_code(v@),
{
    let ghost s = v@;
    let mut rest = v;
    let mut r: Vec<(String, u8)> = Vec::new();
    let mut i: usize = 0;
    let n = rest.len();
    proof {
        assert(s.take(0) =~= Seq::<(String, u8)>::empty());
        assert(s.skip(0) =~= s);
    }
    while i < n
        invariant
            n == s.len(),
            i <= n,
            rest@ == s.skip(i as int),
            r@ == sorted_by_code(s.take(i as int)),
        decreases n - i,
    {
        let x = rest.remove(0);
        assert(x == s[i as int]);
        assert(rest@ =~= s.skip(i + 1));
        let ghost prev = r@;
        let mut j: usize = 0;
        proof {
            assert(prev.skip(0) =~= prev);
        }
        while j < r.len() && r[j].1 <= x.1
            invariant
                r@ == prev,
                j <= r.len(),
                first_above(prev, x.1) == j + first_above(prev.skip(j as int), x.1),
            decreases r.len() - j,
        {
            assert(prev.skip(j as int).drop_first() =~= prev.skip(j + 1));
            j = j + 1;
        }
        assert(first_above(prev.skip(j as int), x.1) == 0);
        r.insert(j, x);
        proof {
            assert(s.take(i + 1).drop_last() =~= s.take(i as int));
            assert(s.take(i + 1).last() == x);
        }
        i = i + 1;
    }
    assert(s.take(n as int) =~= s);
    r
}

} // verus!
