//! Four-bit values, two to a byte, and the weight order of the four-bit kernels.

use vstd::arithmetic::div_mod::{
    lemma_fundamental_div_mod, lemma_fundamental_div_mod_converse,
};
use vstd::prelude::*;

verus! {

/// The low four bits of a value, read without a sign.
pub open spec fn low4(v: i8) -> int {
    v as int % 16
}

/// Four bits read with a sign.
pub open spec fn signed4(nibble: int) -> int {
    if nibble >= 8 {
        nibble - 16
    } else {
        nibble
    }
}

/// The four bits at an index, the low half of each byte first.
pub open spec fn nibble_at(bytes: Seq<u8>, index: int) -> int {
    if index % 2 == 0 {
        bytes[index / 2] as int % 16
    } else {
        bytes[index / 2] as int / 16
    }
}

/// A value of four bits is read back as it was.
pub proof fn law_nibble_is_read_back(v: i8)
    requires
        -8 <= v <= 7,
    ensures
        signed4(low4(v)) == v,
{
}

fn nibble_of(v: i8) -> (r: u8)
    ensures
        r == low4(v),
        r < 16,
{
    ((v as i16 + 128) % 16) as u8
}

/// Puts a value at an index and leaves all others alone.
pub fn put_nibble(dst: &mut Vec<u8>, index: usize, value: i8)
    requires
        index / 2 < old(dst)@.len(),
    ensures
        final(dst)@.len() == old(dst)@.len(),
        nibble_at(final(dst)@, index as int) == low4(value),
        forall|i: int|
            0 <= i < 2 * old(dst)@.len() && i != index ==> #[trigger] nibble_at(final(dst)@, i)
                == nibble_at(old(dst)@, i),
{
    let nibble: u8 = nibble_of(value);
    let at: usize = index / 2;
    let byte: u8 = dst[at];
    if index % 2 == 0 {
        dst[at] = byte / 16 * 16 + nibble;
    } else {
        dst[at] = byte % 16 + nibble * 16;
    }
    proof {
        assert forall|i: int| 0 <= i < 2 * old(dst)@.len() && i != index implies #[trigger] nibble_at(
            dst@,
            i,
        ) == nibble_at(old(dst)@, i) by {
            if i / 2 == index as int / 2 {
                assert(i % 2 != index as int % 2);
            }
        }
    }
}

/// Packs values in their order.
pub fn pack_activation(a: &[i8]) -> (packed: Vec<u8>)
    requires
        a@.len() % 2 == 0,
    ensures
        packed@.len() == a@.len() / 2,
        forall|i: int| 0 <= i < a@.len() ==> #[trigger] nibble_at(packed@, i) == low4(a@[i]),
{
    let mut packed: Vec<u8> = Vec::new();
    let mut i: usize = 0;
    let len: usize = a.len();
    while i < len
        invariant
            len == a@.len(),
            len % 2 == 0,
            i % 2 == 0,
            i <= len,
            packed@.len() == i / 2,
            forall|j: int| 0 <= j < i ==> #[trigger] nibble_at(packed@, j) == low4(a@[j]),
        decreases len - i,
    {
        let lo: u8 = nibble_of(a[i]);
        let hi: u8 = nibble_of(a[i + 1]);
        let ghost before = packed@;
        packed.push(lo + hi * 16);
        proof {
            assert forall|j: int| 0 <= j < i + 2 implies #[trigger] nibble_at(packed@, j) == low4(
                a@[j],
            ) by {
                if j < i {
                    assert(packed@[j / 2] == before[j / 2]);
                    assert(nibble_at(before, j) == low4(a@[j]));
                } else {
                    assert(j / 2 == i / 2);
                }
            }
        }
        i = i + 2;
    }
    packed
}

/// Where the kernel wants the weight of input `kk` and output `c`: blocks of 64
/// outputs, then blocks of 32 inputs, then the outputs and the inputs of a block.
pub open spec fn packed_index(k: int, kk: int, c: int) -> int {
    ((c / 64 * (k / 32) + kk / 32) * 64 + c % 64) * 32 + kk % 32
}

/// The weight, in input-major order, that the kernel wants at an index.
pub open spec fn packed_source(k: int, n: int, e: int) -> int {
    let block = e / 2048;
    let c = block / (k / 32) * 64 + e / 32 % 64;
    let kk = block % (k / 32) * 32 + e % 32;
    kk * n + c
}

/// Every weight has one place, and it is the one that the kernel reads it from.
pub proof fn law_weight_is_where_the_kernel_reads(k: int, n: int, kk: int, c: int)
    requires
        k > 0,
        k % 32 == 0,
        0 <= kk < k,
        0 <= c < n,
        n % 64 == 0,
    ensures
        packed_source(k, n, packed_index(k, kk, c)) == kk * n + c,
        0 <= packed_index(k, kk, c) < k * n,
{
    let kt = k / 32;
    let (cb, cl, kb, kl) = (c / 64, c % 64, kk / 32, kk % 32);
    let block = cb * kt + kb;
    let row = block * 64 + cl;
    let e = row * 32 + kl;
    assert(e == packed_index(k, kk, c));
    assert(0 <= kb < kt);
    assert(cb * kt >= 0) by (nonlinear_arith)
        requires
            cb >= 0,
            kt >= 0,
    ;
    assert(e / 32 == row && e % 32 == kl);
    assert(row / 64 == block && row % 64 == cl);
    assert(e / 2048 == block);
    lemma_fundamental_div_mod_converse(block, kt, cb, kb);
    let nb = n / 64;
    assert(block + 1 <= nb * kt) by (nonlinear_arith)
        requires
            block == cb * kt + kb,
            kb + 1 <= kt,
            cb + 1 <= nb,
            kt > 0,
    ;
    assert(nb * kt * 2048 == k * n) by (nonlinear_arith)
        requires
            k == 32 * kt,
            n == 64 * nb,
    ;
}

/// The source of a place lies within the weights.
proof fn lemma_source_within(k: int, n: int, e: int)
    requires
        k > 0,
        k % 32 == 0,
        n % 64 == 0,
        0 <= e < k * n,
    ensures
        ({
            let block = e / 2048;
            let c = block / (k / 32) * 64 + e / 32 % 64;
            let kk = block % (k / 32) * 32 + e % 32;
            &&& 0 <= c < n
            &&& 0 <= kk < k
            &&& 0 <= kk * n
            &&& kk * n + c < k * n
        }),
{
    let kt = k / 32;
    let nb = n / 64;
    let block = e / 2048;
    assert(nb * kt * 2048 == k * n) by (nonlinear_arith)
        requires
            k == 32 * kt,
            n == 64 * nb,
    ;
    assert(block < nb * kt);
    lemma_fundamental_div_mod(block, kt);
    let q = block / kt;
    assert(kt * q == q * kt) by (nonlinear_arith);
    assert(0 <= q < nb) by (nonlinear_arith)
        requires
            q * kt + block % kt < nb * kt,
            0 <= block % kt,
            block == q * kt + block % kt,
            block >= 0,
            kt > 0,
            block % kt < kt,
    ;
    let c = q * 64 + e / 32 % 64;
    let kk = block % kt * 32 + e % 32;
    assert(0 <= kk * n && kk * n + n <= k * n) by (nonlinear_arith)
        requires
            0 <= kk,
            kk + 1 <= k,
            n >= 0,
    ;
}

/// Packs input-major weights in the kernel's order.
pub fn pack_weights_kn(b_kn: &[i8], k: usize, n: usize) -> (packed: Vec<u8>)
    requires
        k > 0,
        k % 32 == 0,
        n % 64 == 0,
        b_kn@.len() == k * n,
    ensures
        packed@.len() == k * n / 2,
        forall|e: int|
            0 <= e < k * n ==> #[trigger] nibble_at(packed@, e) == low4(
                b_kn@[packed_source(k as int, n as int, e)],
            ),
{
    let total: usize = b_kn.len();
    let kt: usize = k / 32;
    let mut ordered: Vec<i8> = Vec::new();
    let mut e: usize = 0;
    while e < total
        invariant
            k > 0,
            k % 32 == 0,
            n % 64 == 0,
            kt == k / 32,
            total == b_kn@.len() == k * n,
            e <= total,
            ordered@.len() == e,
            forall|j: int|
                0 <= j < e ==> #[trigger] ordered@[j] == b_kn@[packed_source(k as int, n as int, j)],
        decreases total - e,
    {
        proof {
            lemma_source_within(k as int, n as int, e as int);
        }
        let block: usize = e / 2048;
        let c: usize = block / kt * 64 + e / 32 % 64;
        let kk: usize = block % kt * 32 + e % 32;
        ordered.push(b_kn[kk * n + c]);
        e = e + 1;
    }
    proof {
        let kk = k as int / 32;
        let nn = n as int / 64;
        assert(k * n == 2 * (1024 * (kk * nn))) by (nonlinear_arith)
            requires
                k == 32 * kk,
                n == 64 * nn,
        ;
    }
    pack_activation(ordered.as_slice())
}

/// The low four bits of a value are what is left of it beyond whole sixteens, and
/// read with a sign they lie from -8 to 7.
pub proof fn law_four_bits_are_kept(v: i8, nibble: int)
    requires
        0 <= nibble < 16,
    ensures
        0 <= low4(v) < 16,
        (v - low4(v)) % 16 == 0,
        -8 <= signed4(nibble) <= 7,
        signed4(nibble) == nibble || signed4(nibble) == nibble - 16,
{
}

/// A byte holds two values, the first in its low half.
pub proof fn law_bytes_hold_two_values_low_first(bytes: Seq<u8>, i: int)
    requires
        0 <= i < bytes.len(),
    ensures
        0 <= nibble_at(bytes, 2 * i) < 16,
        0 <= nibble_at(bytes, 2 * i + 1) < 16,
        bytes[i] as int == nibble_at(bytes, 2 * i) + 16 * nibble_at(bytes, 2 * i + 1),
{
    assert((2 * i) / 2 == i && (2 * i + 1) / 2 == i);
}

/// Packed weights lie in blocks of 32 inputs by 64 columns: the next input is the
/// next value, the next column of a block is 32 values on, the next 32 inputs are
/// one block on, and the next 64 columns come after all inputs of these.
pub proof fn law_packed_weights_lie_in_blocks(k: int, kk: int, c: int)
    requires
        k > 0,
        k % 32 == 0,
        kk >= 0,
        c >= 0,
    ensures
        packed_index(k, 0, 0) == 0,
        kk % 32 < 31 ==> packed_index(k, kk + 1, c) == packed_index(k, kk, c) + 1,
        c % 64 < 63 ==> packed_index(k, kk, c + 1) == packed_index(k, kk, c) + 32,
        packed_index(k, kk + 32, c) == packed_index(k, kk, c) + 2048,
        packed_index(k, kk, c + 64) == packed_index(k, kk, c) + 64 * k,
{
    let per = k / 32;
    assert(0 * per == 0) by (nonlinear_arith);
    assert((c / 64 + 1) * per == c / 64 * per + per) by (nonlinear_arith);
    assert((c + 64) / 64 == c / 64 + 1);
    assert((kk + 32) / 32 == kk / 32 + 1);
    assert((kk + 32) % 32 == kk % 32);
    assert((c + 64) % 64 == c % 64);
    if kk % 32 < 31 {
        assert((kk + 1) / 32 == kk / 32 && (kk + 1) % 32 == kk % 32 + 1);
    }
    if c % 64 < 63 {
        assert((c + 1) / 64 == c / 64 && (c + 1) % 64 == c % 64 + 1);
    }
    assert(32 * per == k);
}

/// Packed weights hold each weight where the kernel looks for it.
pub proof fn law_packed_weights_hold_every_weight(
    b_kn: &[i8],
    k: usize,
    n: usize,
    packed: Vec<u8>,
    kk: int,
    c: int,
)
    requires
        call_ensures(pack_weights_kn, (b_kn, k, n), packed),
        k > 0,
        k % 32 == 0,
        n % 64 == 0,
        0 <= kk < k,
        0 <= c < n,
    ensures
        nibble_at(
            packed@,
            c / 64 * (64 * k) + kk / 32 * 2048 + c % 64 * 32 + kk % 32,
        ) == low4(b_kn@[kk * n + c]),
{
    law_weight_is_where_the_kernel_reads(k as int, n as int, kk, c);
    let (q, per) = (c / 64, k as int / 32);
    assert(k == 32 * per);
    assert(((q * per + kk / 32) * 64 + c % 64) * 32 + kk % 32 == q * (64 * (32 * per)) + kk / 32
        * 2048 + c % 64 * 32 + kk % 32) by (nonlinear_arith);
    assert(packed_index(k as int, kk, c) == c / 64 * (64 * k) + kk / 32 * 2048 + c % 64 * 32 + kk
        % 32);
}

/// A packed row holds its values two to a byte, in order.
pub proof fn law_packed_rows_hold_their_values(a: &[i8], packed: Vec<u8>, i: int)
    requires
        call_ensures(pack_activation, (a,), packed),
        a@.len() % 2 == 0,
        0 <= i < packed@.len(),
    ensures
        2 * packed@.len() == a@.len(),
        packed@[i] as int == low4(a@[2 * i]) + 16 * low4(a@[2 * i + 1]),
{
    law_bytes_hold_two_values_low_first(packed@, i);
}

} // verus!
