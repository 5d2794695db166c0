//! Repeatable test data.

use vstd::prelude::*;

verus! {

/// Value `i` of a repeating pattern.
pub open spec fn pattern_value(i: int, mul: int, plus: int, modulus: int, bias: int) -> int {
    (i * mul + plus) % modulus - bias
}

/// The first `len` values of a repeating pattern.
pub fn pattern(len: usize, mul: usize, plus: usize, modulus: usize, bias: i8) -> (out: Vec<i8>)
    requires
        0 < modulus <= 128,
        0 <= bias,
        len * mul + plus <= usize::MAX,
    ensures
        out@.len() == len,
        forall|i: int|
            0 <= i < len ==> #[trigger] out@[i] == pattern_value(
                i,
                mul as int,
                plus as int,
                modulus as int,
                bias as int,
            ),
{
    let mut out: Vec<i8> = Vec::new();
    let mut i: usize = 0;
    while i < len
        invariant
            i <= len,
            0 < modulus <= 128,
            0 <= bias,
            len * mul + plus <= usize::MAX,
            out@.len() == i,
            forall|j: int|
                0 <= j < i ==> #[trigger] out@[j] == pattern_value(
                    j,
                    mul as int,
                    plus as int,
                    modulus as int,
                    bias as int,
                ),
        decreases len - i,
    {
        assert(0 <= i * mul <= len * mul) by (nonlinear_arith)
            requires
                i <= len,
        ;
        let r: usize = (i * mul + plus) % modulus;
        out.push(r as i8 - bias);
        i = i + 1;
    }
    out
}

/// The multiplier of the congruential generator.
pub const LCG_MUL: u64 = 6364136223846793005;

/// The increment of the congruential generator.
pub const LCG_ADD: u64 = 1442695040888963407;

/// The state after `seed`.
pub open spec fn lcg_after(seed: u64) -> int {
    (seed * LCG_MUL + LCG_ADD) % 0x1_0000_0000_0000_0000
}

/// Advances the congruential generator and gives the upper half of its state.
pub fn lcg_next(seed: &mut u64) -> (r: u32)
    ensures
        *final(seed) == lcg_after(*old(seed)),
        r == *final(seed) as int / 0x1_0000_0000,
{
    let start: u64 = *seed;
    assert(start * LCG_MUL <= 0xffff_ffff_ffff_ffff * 6364136223846793005int) by (nonlinear_arith)
        requires
            start <= 0xffff_ffff_ffff_ffff,
            LCG_MUL == 6364136223846793005int,
    ;
    let wide: u128 = start as u128 * LCG_MUL as u128 + LCG_ADD as u128;
    let next: u64 = (wide % 0x1_0000_0000_0000_0000u128) as u64;
    *seed = next;
    (next / 0x1_0000_0000) as u32
}

/// The shift generator's state after `s`.
pub open spec fn xorshift_after(s: u64) -> u64 {
    let a = s ^ (s << 13u64);
    let b = a ^ (a >> 7u64);
    b ^ (b << 17u64)
}

/// Advances the shift generator.
pub fn xorshift_next(s: &mut u64) -> (r: u64)
    ensures
        *final(s) == xorshift_after(*old(s)),
        r == *final(s),
{
    let a: u64 = *s ^ (*s << 13u64);
    let b: u64 = a ^ (a >> 7u64);
    let c: u64 = b ^ (b << 17u64);
    *s = c;
    c
}

/// The shift generator loses nothing: it never runs into zero from elsewhere.
pub proof fn law_shift_generator_never_stops(s: u64)
    ensures
        (xorshift_after(s) == 0) == (s == 0),
{
    assert(({
        let a = s ^ (s << 13u64);
        let b = a ^ (a >> 7u64);
        b ^ (b << 17u64)
    } == 0) == (s == 0)) by (bit_vector);
}

/// A pattern repeats after `modulus` values, stays within its range, starts at
/// `plus`, and goes on by `mul` but for whole turns.
pub proof fn law_patterns_repeat(i: int, mul: int, plus: int, modulus: int, bias: int)
    requires
        modulus > 0,
    ensures
        -bias <= pattern_value(i, mul, plus, modulus, bias) < modulus - bias,
        pattern_value(i + modulus, mul, plus, modulus, bias) == pattern_value(
            i,
            mul,
            plus,
            modulus,
            bias,
        ),
        pattern_value(0, mul, plus, modulus, bias) == plus % modulus - bias,
        (pattern_value(i + 1, mul, plus, modulus, bias) - pattern_value(
            i,
            mul,
            plus,
            modulus,
            bias,
        ) - mul) % modulus == 0,
{
    assert(0 * mul == 0) by (nonlinear_arith);
    assert((i + modulus) * mul + plus == modulus * mul + (i * mul + plus)) by (nonlinear_arith);
    vstd::arithmetic::div_mod::lemma_mod_multiples_vanish(mul, i * mul + plus, modulus);
    let x = i * mul + plus;
    let y = (i + 1) * mul + plus;
    assert(y == x + mul) by (nonlinear_arith)
        requires
            x == i * mul + plus,
            y == (i + 1) * mul + plus,
    ;
    vstd::arithmetic::div_mod::lemma_fundamental_div_mod(x, modulus);
    vstd::arithmetic::div_mod::lemma_fundamental_div_mod(y, modulus);
    let turns = x / modulus - y / modulus;
    assert(y % modulus - x % modulus - mul == turns * modulus) by (nonlinear_arith)
        requires
            x == modulus * (x / modulus) + x % modulus,
            y == modulus * (y / modulus) + y % modulus,
            y == x + mul,
            turns == x / modulus - y / modulus,
    ;
    vstd::arithmetic::div_mod::lemma_mod_multiples_basic(turns, modulus);
}

/// Two seeds that differ by `d` are followed by seeds that differ by `d` times the
/// multiplier, but for whole turns; zero is followed by the increment.
pub proof fn law_seeds_keep_their_distance(a: u64, b: u64)
    ensures
        (lcg_after(a) - lcg_after(b) - (a - b) * 6364136223846793005) % 0x1_0000_0000_0000_0000
            == 0,
        lcg_after(0) == 1442695040888963407,
        0 <= lcg_after(a) <= u64::MAX,
{
    let m = 0x1_0000_0000_0000_0000int;
    let x = a * LCG_MUL + LCG_ADD;
    let y = b * LCG_MUL + LCG_ADD;
    let d = (a - b) * LCG_MUL;
    assert(x - y == d) by (nonlinear_arith)
        requires
            x == a * LCG_MUL + LCG_ADD,
            y == b * LCG_MUL + LCG_ADD,
            d == (a - b) * LCG_MUL,
    ;
    vstd::arithmetic::div_mod::lemma_fundamental_div_mod(x, m);
    vstd::arithmetic::div_mod::lemma_fundamental_div_mod(y, m);
    assert(x % m - y % m - d == (y / m - x / m) * m);
    vstd::arithmetic::div_mod::lemma_mod_multiples_basic(y / m - x / m, m);
}

/// A step of the shift generator can be undone, so no two states are followed by the
/// same one.
pub proof fn law_shift_generator_can_be_undone(s: u64)
    ensures
        ({
            let r = xorshift_after(s);
            let b = r ^ (r << 17u64) ^ (r << 34u64) ^ (r << 51u64);
            let a = b ^ (b >> 7u64) ^ (b >> 14u64) ^ (b >> 21u64) ^ (b >> 28u64) ^ (b >> 35u64) ^ (b
                >> 42u64) ^ (b >> 49u64) ^ (b >> 56u64) ^ (b >> 63u64);
            a ^ (a << 13u64) ^ (a << 26u64) ^ (a << 39u64) ^ (a << 52u64) == s
        }),
{
    assert(({
        let x = s ^ (s << 13u64);
        let y = x ^ (x >> 7u64);
        let r = y ^ (y << 17u64);
        let b = r ^ (r << 17u64) ^ (r << 34u64) ^ (r << 51u64);
        let a = b ^ (b >> 7u64) ^ (b >> 14u64) ^ (b >> 21u64) ^ (b >> 28u64) ^ (b >> 35u64) ^ (b
            >> 42u64) ^ (b >> 49u64) ^ (b >> 56u64) ^ (b >> 63u64);
        a ^ (a << 13u64) ^ (a << 26u64) ^ (a << 39u64) ^ (a << 52u64) == s
    })) by (bit_vector);
}

} // verus!
