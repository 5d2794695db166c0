//! Small integer helpers shared by the planners.

use vstd::prelude::*;

verus! {

/// The least multiple of `a` that is not below `v`.
pub open spec fn aligned(v: int, a: int) -> int
    recommends
        a > 0,
{
    (v + a - 1) / a * a
}

/// The quotient `v / a` rounded up.
pub open spec fn ceil_div(v: int, a: int) -> int
    recommends
        a > 0,
{
    (v + a - 1) / a
}

/// Rounding up gives a multiple of `a` in the window `v <= r < v + a`.
pub proof fn lemma_aligned(v: int, a: int)
    requires
        v >= 0,
        a > 0,
    ensures
        v <= aligned(v, a) < v + a,
        aligned(v, a) % a == 0,
        v % a == 0 ==> aligned(v, a) == v,
{
    let q = (v + a - 1) / a;
    vstd::arithmetic::div_mod::lemma_fundamental_div_mod(v + a - 1, a);
    assert(v + a - 1 == a * q + (v + a - 1) % a);
    assert(a * q == q * a) by (nonlinear_arith);
    vstd::arithmetic::div_mod::lemma_mod_multiples_basic(q, a);
    if v % a == 0 {
        vstd::arithmetic::div_mod::lemma_fundamental_div_mod(v, a);
        let p = v / a;
        assert(v == a * p);
        assert(q == p) by {
            vstd::arithmetic::div_mod::lemma_fundamental_div_mod_converse(v + a - 1, a, p, a - 1);
        }
    }
}

/// `x` cut off at the largest `usize`.
pub open spec fn sat_usize(x: int) -> usize {
    if x > usize::MAX {
        usize::MAX
    } else {
        x as usize
    }
}

/// `x` cut off at the largest `u64`.
pub open spec fn sat_u64(x: int) -> u64 {
    if x > u64::MAX {
        u64::MAX
    } else {
        x as u64
    }
}

/// `x` cut off at the largest `u128`.
pub open spec fn sat_u128(x: int) -> u128 {
    if x > u128::MAX {
        u128::MAX
    } else {
        x as u128
    }
}

/// The product, cut off at the largest `usize`.
pub fn saturating_product(a: usize, b: usize) -> (r: usize)
    ensures
        r == sat_usize(a * b),
{
    match a.checked_mul(b) {
        Some(p) => p,
        None => usize::MAX,
    }
}

/// Nanoseconds cut off at the largest `u64`.
pub fn clamp_ns(ns: u128) -> (r: u64)
    ensures
        r == sat_u64(ns as int),
{
    if ns > u64::MAX as u128 {
        u64::MAX
    } else {
        ns as u64
    }
}

/// The least multiple of `a` that is not below `v`, if it is a `usize`.
pub fn next_multiple(v: usize, a: usize) -> (r: Option<usize>)
    requires
        a > 0,
    ensures
        match r {
            Some(r) => r == aligned(v as int, a as int),
            None => aligned(v as int, a as int) > usize::MAX,
        },
{
    proof {
        lemma_aligned(v as int, a as int);
    }
    let rest: usize = v % a;
    if rest == 0 {
        return Some(v);
    }
    proof {
        let q = v as int / a as int;
        vstd::arithmetic::div_mod::lemma_fundamental_div_mod(v as int, a as int);
        assert((q + 1) * a == a * q + a) by (nonlinear_arith);
        vstd::arithmetic::div_mod::lemma_fundamental_div_mod_converse(
            v + a - 1,
            a as int,
            q + 1,
            rest - 1,
        );
    }
    v.checked_add(a - rest)
}

/// A quotient rounded up is the least number of pieces that hold everything.
pub proof fn law_pieces_hold_everything(v: int, a: int)
    requires
        v >= 0,
        a > 0,
    ensures
        (ceil_div(v, a) - 1) * a < v || v == 0,
        v <= ceil_div(v, a) * a,
        v == 0 ==> ceil_div(v, a) == 0,
        ceil_div(v, a) * a == aligned(v, a),
{
    lemma_aligned(v, a);
    let q = ceil_div(v, a);
    assert((q - 1) * a == q * a - a) by (nonlinear_arith);
    if v == 0 {
        vstd::arithmetic::div_mod::lemma_fundamental_div_mod_converse(a - 1, a, 0, a - 1);
    }
}

/// Cutting off keeps what fits and gives the limit for what does not.
pub proof fn law_cut_off_numbers_are_the_nearest(x: int, y: int)
    requires
        0 <= x <= y,
    ensures
        x <= usize::MAX ==> sat_usize(x) == x,
        x <= u64::MAX ==> sat_u64(x) == x,
        x <= u128::MAX ==> sat_u128(x) == x,
        sat_usize(x) <= x && sat_u64(x) <= x && sat_u128(x) <= x,
        sat_usize(x) <= sat_usize(y) && sat_u64(x) <= sat_u64(y) && sat_u128(x) <= sat_u128(y),
        x >= usize::MAX ==> sat_usize(x) == usize::MAX,
        x >= u64::MAX ==> sat_u64(x) == u64::MAX,
        x >= u128::MAX ==> sat_u128(x) == u128::MAX,
{
}

} // verus!
