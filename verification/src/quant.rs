//! Layouts of quantized weights, and the integer sums over them.

use crate::keys::DecodeWeightKind;
use crate::route::{block_bytes, bytes_per_block, quantized_bytes, VALUES_PER_BLOCK};
use vstd::arithmetic::div_mod::{
    lemma_fundamental_div_mod, lemma_fundamental_div_mod_converse,
};
use vstd::prelude::*;

verus! {

/// Values from which on a matrix is decoded by several threads.
pub const PARALLEL_DEQUANT_MIN_VALUES: usize = 1048576;

/// Whether a matrix is decoded by several threads.
pub fn decodes_in_parallel(wanted: bool, values: usize) -> (r: bool)
    ensures
        r == (wanted && values >= 1048576),
{
    wanted && values >= PARALLEL_DEQUANT_MIN_VALUES
}

/// A single-precision pattern without its sign. Among finite values, larger
/// magnitudes have larger patterns.
pub open spec fn magnitude(bits: u32) -> u32 {
    bits % 0x8000_0000u32
}

/// Whether a single-precision pattern stands for a finite value.
pub open spec fn is_finite_pattern(bits: u32) -> bool {
    magnitude(bits) < 0x7f80_0000
}

/// The largest magnitude among single-precision patterns, from which a row's
/// scale is made. A row that holds a value which is not finite has none.
pub fn max_abs_finite(bits: &[u32]) -> (r: Option<u32>)
    ensures
        match r {
            Some(max) => {
                &&& forall|i: int|
                    0 <= i < bits@.len() ==> is_finite_pattern(#[trigger] bits@[i]) && magnitude(
                        bits@[i],
                    ) <= max
                &&& if bits@.len() == 0 {
                    max == 0
                } else {
                    exists|i: int| 0 <= i < bits@.len() && magnitude(#[trigger] bits@[i]) == max
                }
            },
            None => exists|i: int|
                0 <= i < bits@.len() && !is_finite_pattern(#[trigger] bits@[i]),
        },
{
    let mut max: u32 = 0;
    let mut i: usize = 0;
    while i < bits.len()
        invariant
            i <= bits@.len(),
            forall|j: int|
                0 <= j < i ==> is_finite_pattern(#[trigger] bits@[j]) && magnitude(bits@[j]) <= max,
            if i == 0 {
                max == 0
            } else {
                exists|j: int| 0 <= j < i && magnitude(#[trigger] bits@[j]) == max
            },
        decreases bits@.len() - i,
    {
        let size: u32 = bits[i] % 0x8000_0000u32;
        assert(size == magnitude(bits@[i as int]));
        if size >= 0x7f80_0000 {
            return None;
        }
        if i == 0 || size > max {
            max = size;
        }
        i = i + 1;
    }
    Some(max)
}

/// How a quantized matrix is read and what comes of it.
#[derive(Clone, Copy, Debug, PartialEq, Eq, Structural)]
pub struct QuantLayout {
    /// Bytes of a quantized row.
    pub row_bytes: usize,
    /// Quantization groups of a row.
    pub groups: usize,
    /// Values that share a scale.
    pub group_size: usize,
    /// Values of the matrix.
    pub values: usize,
    /// Scales of the matrix.
    pub scales: usize,
}

/// A matrix of `n` rows of `k` values, cut into groups of `group_size`.
pub open spec fn layout_of(kind: DecodeWeightKind, k: int, n: int, group_size: int) -> QuantLayout {
    QuantLayout {
        row_bytes: (k / 256 * block_bytes(kind)) as usize,
        groups: (k / group_size) as usize,
        group_size: group_size as usize,
        values: (n * k) as usize,
        scales: (k / group_size * n) as usize,
    }
}

/// Whether groups can be read: they are multiples of `unit` and divide a row.
pub open spec fn groups_fit(k: int, group_size: int, unit: int) -> bool {
    group_size > 0 && group_size % unit == 0 && k % group_size == 0
}

/// Whether decoded rows fill the matrix: a row is a whole number of blocks, or
/// there is none.
pub open spec fn rows_fill(k: int, n: int) -> bool {
    k % 256 == 0 || n == 0
}

/// Whether rows have bytes to be read from: a row of at least one block has, and
/// one that is shorter has none, so that a matrix of such rows has no bytes either.
pub open spec fn rows_have_bytes(k: int, n: int, len: int) -> bool {
    k >= 256 || len > 0 || n * k > usize::MAX
}

fn plan_layout(kind: DecodeWeightKind, k: usize, n: usize, len: usize, group_size: usize) -> (r:
    Option<QuantLayout>)
    requires
        rows_have_bytes(k as int, n as int, len as int),
        k == 0 || (group_size > 0 && k % group_size == 0),
    ensures
        r == (if len == quantized_bytes(kind, k as int, n as int) && n * k <= usize::MAX {
            Some(layout_of(kind, k as int, n as int, group_size as int))
        } else {
            None
        }),
{
    let blocks: usize = k / VALUES_PER_BLOCK;
    let per: usize = bytes_per_block(kind);
    proof {
        let (q, b, nn) = (blocks as int, per as int, n as int);
        assert(nn * q * b == nn * (q * b)) by (nonlinear_arith);
        assert(0 <= q * b <= 256 * q) by (nonlinear_arith)
            requires
                0 <= b <= 256,
                q >= 0,
        ;
    }
    let row_bytes: usize = blocks * per;
    let expected: usize = match n.checked_mul(row_bytes) {
        Some(v) => v,
        None => return None,
    };
    if len != expected {
        return None;
    }
    let values: usize = match n.checked_mul(k) {
        Some(v) => v,
        None => return None,
    };
    assert(k >= 256) by {
        assert(n * 0 == 0) by (nonlinear_arith);
    }
    let groups: usize = k / group_size;
    proof {
        lemma_fundamental_div_mod(k as int, group_size as int);
        let (g, s) = (groups as int, group_size as int);
        assert(g * n <= n * k) by (nonlinear_arith)
            requires
                k == s * g,
                s > 0,
                g >= 0,
                n >= 0,
        ;
        assert(g * n >= 0) by (nonlinear_arith)
            requires
                g >= 0,
                n >= 0,
        ;
    }
    Some(QuantLayout { row_bytes, groups, group_size, values, scales: groups * n })
}

/// Plans eight-bit weights with one scale per row. Rows that are no whole number
/// of blocks are taken only where a Q4_K matrix is decoded by several threads,
/// which leave zeros behind the last block of a row.
pub fn prepare_w8a8(kind: DecodeWeightKind, k: usize, n: usize, len: usize) -> (r: Option<
    QuantLayout,
>)
    requires
        rows_have_bytes(k as int, n as int, len as int),
    ensures
        r == (if len == quantized_bytes(kind, k as int, n as int) && n * k <= usize::MAX && (
        rows_fill(k as int, n as int) || (kind == DecodeWeightKind::Q4K && n * k
            >= PARALLEL_DEQUANT_MIN_VALUES)) {
            Some(layout_of(kind, k as int, n as int, k as int))
        } else {
            None
        }),
{
    let layout = match plan_layout(kind, k, n, len, k) {
        Some(layout) => layout,
        None => return None,
    };
    let padded = kind == DecodeWeightKind::Q4K && decodes_in_parallel(true, layout.values);
    if k % VALUES_PER_BLOCK == 0 || n == 0 || padded {
        Some(layout)
    } else {
        None
    }
}

/// Plans eight-bit weights with one scale per group.
pub fn prepare_grouped_w8a8(
    kind: DecodeWeightKind,
    k: usize,
    n: usize,
    group_size: usize,
    len: usize,
) -> (r: Option<QuantLayout>)
    requires
        groups_fit(k as int, group_size as int, 512) ==> rows_have_bytes(
            k as int,
            n as int,
            len as int,
        ),
    ensures
        r == (if groups_fit(k as int, group_size as int, 512) && len == quantized_bytes(
            kind,
            k as int,
            n as int,
        ) && n * k <= usize::MAX {
            Some(layout_of(kind, k as int, n as int, group_size as int))
        } else {
            None
        }),
{
    if group_size == 0 || group_size % 512 != 0 || k % group_size != 0 {
        return None;
    }
    plan_layout(kind, k, n, len, group_size)
}

/// Plans four-bit weights with one scale per row.
pub fn prepare_q4_k_w4a4(k: usize, n: usize, len: usize) -> (r: Option<QuantLayout>)
    requires
        rows_have_bytes(k as int, n as int, len as int),
    ensures
        r == (if len == quantized_bytes(DecodeWeightKind::Q4K, k as int, n as int) && n * k
            <= usize::MAX && rows_fill(k as int, n as int) {
            Some(layout_of(DecodeWeightKind::Q4K, k as int, n as int, k as int))
        } else {
            None
        }),
{
    if k % VALUES_PER_BLOCK != 0 && n != 0 {
        return None;
    }
    plan_layout(DecodeWeightKind::Q4K, k, n, len, k)
}

/// Plans four-bit weights with one scale per group. A row that is to be
/// transformed first must have a power of two of values.
pub fn prepare_q4_k_grouped_w4a4(
    k: usize,
    n: usize,
    group_size: usize,
    hadamard: bool,
    len: usize,
) -> (r: Option<QuantLayout>)
    requires
        groups_fit(k as int, group_size as int, 32) ==> rows_have_bytes(
            k as int,
            n as int,
            len as int,
        ),
    ensures
        r == (if groups_fit(k as int, group_size as int, 32) && len == quantized_bytes(
            DecodeWeightKind::Q4K,
            k as int,
            n as int,
        ) && n * k <= usize::MAX && rows_fill(k as int, n as int) && (hadamard && n > 0 ==> is_power_of_two(k as int)) {
            Some(layout_of(DecodeWeightKind::Q4K, k as int, n as int, group_size as int))
        } else {
            None
        }),
{
    if group_size == 0 || group_size % 32 != 0 || k % group_size != 0 {
        return None;
    }
    if k % VALUES_PER_BLOCK != 0 && n != 0 {
        return None;
    }
    if hadamard && n > 0 && !power_of_two(k) {
        return None;
    }
    plan_layout(DecodeWeightKind::Q4K, k, n, len, group_size)
}

/// Plans the four-bit quantization of one activation row, in groups.
pub fn quantize_symmetric_i4_grouped(len: usize, group_size: usize, hadamard: bool) -> (r: Option<
    usize,
>)
    ensures
        r == (if group_size > 0 && len % group_size == 0 && (hadamard ==> is_power_of_two(
            len as int,
        )) {
            Some((len / group_size) as usize)
        } else {
            None
        }),
{
    if group_size == 0 || len % group_size != 0 {
        return None;
    }
    if hadamard && !power_of_two(len) {
        return None;
    }
    Some(len / group_size)
}

/// Where the values of one group of one output channel start, groups outermost.
pub open spec fn group_start(n: int, group_size: int, group: int, channel: int) -> int {
    (group * n + channel) * group_size
}

/// Where the scale of one group of one output channel stands.
pub open spec fn scale_index(n: int, group: int, channel: int) -> int {
    group * n + channel
}

/// Where a weight stands once its matrix is grouped.
pub open spec fn grouped_index(n: int, group_size: int, channel: int, kk: int) -> int {
    group_start(n, group_size, kk / group_size, channel) + kk % group_size
}

/// Where the scale and the values of one group of one output channel stand.
pub fn grouped_place(layout: &QuantLayout, n: usize, group: usize, channel: usize) -> (r: (
    usize,
    usize,
))
    requires
        group < layout.groups,
        channel < n,
        layout.groups * n * layout.group_size <= usize::MAX,
        layout.group_size > 0,
    ensures
        r.0 == scale_index(n as int, group as int, channel as int),
        r.1 == group_start(n as int, layout.group_size as int, group as int, channel as int),
        r.1 + layout.group_size <= layout.groups * n * layout.group_size,
{
    proof {
        let (gs, g, c, nn, size) = (
            layout.groups as int,
            group as int,
            channel as int,
            n as int,
            layout.group_size as int,
        );
        assert(g * nn + c + 1 <= gs * nn) by (nonlinear_arith)
            requires
                g + 1 <= gs,
                c + 1 <= nn,
                nn >= 0,
        ;
        assert(g * nn >= 0) by (nonlinear_arith)
            requires
                g >= 0,
                nn >= 0,
        ;
        let at = g * nn + c;
        assert(at * size + size <= gs * nn * size) by (nonlinear_arith)
            requires
                at + 1 <= gs * nn,
                size > 0,
        ;
        assert(at <= at * size) by (nonlinear_arith)
            requires
                at >= 0,
                size >= 1,
        ;
    }
    let at: usize = group * n + channel;
    (at, at * layout.group_size)
}

/// No two weights share a place: channel and position can be read off it.
pub proof fn law_grouped_places_are_distinct(n: int, group_size: int, channel: int, kk: int)
    requires
        n > 0,
        group_size > 0,
        0 <= channel < n,
        kk >= 0,
    ensures
        ({
            let at = grouped_index(n, group_size, channel, kk);
            &&& at / group_size % n == channel
            &&& at / group_size / n * group_size + at % group_size == kk
        }),
{
    let g = kk / group_size;
    let rest = kk % group_size;
    let row = g * n + channel;
    lemma_fundamental_div_mod(kk, group_size);
    let at = row * group_size + rest;
    lemma_fundamental_div_mod_converse(at, group_size, row, rest);
    lemma_fundamental_div_mod_converse(row, n, g, channel);
    assert(group_size * g == g * group_size) by (nonlinear_arith);
}

/// Takes `len` values from `k0` on out of every row.
pub fn slice_rows<T: Copy>(values: &[T], rows: usize, k: usize, k0: usize, len: usize) -> (out: Vec<
    T,
>)
    requires
        values@.len() == rows * k,
        k0 + len <= k,
    ensures
        out@.len() == rows * len,
        forall|row: int, i: int|
            #![trigger out@[row * len + i]]
            0 <= row < rows && 0 <= i < len ==> out@[row * len + i] == values@[row * k + k0 + i],
{
    let total: usize = values.len();
    let mut out: Vec<T> = Vec::new();
    let mut row: usize = 0;
    assert(0 * len == 0) by (nonlinear_arith);
    while row < rows
        invariant
            total == values@.len() == rows * k,
            k0 + len <= k,
            row <= rows,
            out@.len() == row * len,
            forall|r: int, i: int|
                #![trigger out@[r * len + i]]
                0 <= r < row && 0 <= i < len ==> out@[r * len + i] == values@[r * k
                    + k0 + i],
        decreases rows - row,
    {
        let ghost before = out@;
        let mut i: usize = 0;
        while i < len
            invariant
                total == values@.len() == rows * k,
                k0 + len <= k,
                row < rows,
                i <= len,
                before.len() == row * len,
                out@.len() == row * len + i,
                forall|j: int| 0 <= j < before.len() ==> #[trigger] out@[j] == before[j],
                forall|j: int|
                    0 <= j < i ==> #[trigger] out@[row * len + j] == values@[row * k + k0
                        + j],
            decreases len - i,
        {
            proof {
                assert(0 <= row * k && row * k + k <= rows * k) by (nonlinear_arith)
                    requires
                        row + 1 <= rows,
                        k >= 0,
                        row >= 0,
                ;
            }
            out.push(values[row * k + k0 + i]);
            i = i + 1;
        }
        proof {
            assert((row + 1) * len == row * len + len) by (nonlinear_arith);
            assert forall|r: int, i: int|
                #![trigger out@[r * len + i]]
                0 <= r < row + 1 && 0 <= i < len implies out@[r * len + i]
                == values@[r * k + k0 + i] by {
                if r < row {
                    assert(0 <= r * len && r * len + len <= row * len)
                        by (nonlinear_arith)
                        requires
                            0 <= r,
                            r + 1 <= row,
                            len >= 0,
                    ;
                    assert(out@[r * len + i] == before[r * len + i]);
                }
            }
        }
        row = row + 1;
    }
    out
}

/// The rows of a matrix, filled up from `k` to `kp` values.
pub open spec fn padded_value<T>(values: Seq<T>, k: int, kp: int, zero: T, i: int) -> T {
    if i % kp < k {
        values[i / kp * k + i % kp]
    } else {
        zero
    }
}

/// Fills the rows of a matrix up from `k` to `kp` values.
pub fn pad_k<T: Copy>(values: &[T], rows: usize, k: usize, kp: usize, zero: T) -> (out: Vec<T>)
    requires
        values@.len() == rows * k,
        0 < k <= kp,
        rows * kp <= usize::MAX,
    ensures
        out@.len() == rows * kp,
        forall|i: int|
            0 <= i < out@.len() ==> #[trigger] out@[i] == padded_value(
                values@,
                k as int,
                kp as int,
                zero,
                i,
            ),
{
    let mut out: Vec<T> = Vec::new();
    let mut row: usize = 0;
    let total: usize = values.len();
    assert(0 * kp == 0) by (nonlinear_arith);
    while row < rows
        invariant
            row <= rows,
            total == values@.len() == rows * k,
            0 < k <= kp,
            out@.len() == row * kp,
            forall|i: int|
                0 <= i < out@.len() ==> #[trigger] out@[i] == padded_value(
                    values@,
                    k as int,
                    kp as int,
                    zero,
                    i,
                ),
        decreases rows - row,
    {
        let mut c: usize = 0;
        while c < kp
            invariant
                row < rows,
                c <= kp,
                total == values@.len() == rows * k,
                0 < k <= kp,
                out@.len() == row * kp + c,
                forall|i: int|
                    0 <= i < out@.len() ==> #[trigger] out@[i] == padded_value(
                        values@,
                        k as int,
                        kp as int,
                        zero,
                        i,
                    ),
            decreases kp - c,
        {
            proof {
                lemma_fundamental_div_mod_converse(
                    row * kp + c,
                    kp as int,
                    row as int,
                    c as int,
                );
                assert(row * k >= 0 && row * k + k <= rows * k) by (nonlinear_arith)
                    requires
                        row + 1 <= rows,
                        k >= 0,
                        row >= 0,
                ;
            }
            if c < k {
                out.push(values[row * k + c]);
            } else {
                out.push(zero);
            }
            c = c + 1;
        }
        assert((row + 1) * kp == row * kp + kp) by (nonlinear_arith);
        row = row + 1;
    }
    out
}

/// The sum of products of two rows that start at `a0` and `b0`.
pub open spec fn dot(a: Seq<i8>, a0: int, b: Seq<i8>, b0: int, len: int) -> int
    decreases len,
{
    if len <= 0 {
        0
    } else {
        dot(a, a0, b, b0, len - 1) + a[a0 + len - 1] * b[b0 + len - 1]
    }
}

/// Rows that are filled up with zeros have the same product as before: padding K
/// is exact.
pub proof fn law_padding_keeps_products(
    a: Seq<i8>,
    b: Seq<i8>,
    pa: Seq<i8>,
    pb: Seq<i8>,
    k: int,
    kp: int,
    row: int,
    col: int,
    len: int,
)
    requires
        0 < k <= kp,
        row >= 0,
        col >= 0,
        0 <= len <= kp,
        pa.len() >= (row + 1) * kp,
        pb.len() >= (col + 1) * kp,
        forall|i: int| 0 <= i < pa.len() ==> #[trigger] pa[i] == padded_value(a, k, kp, 0i8, i),
        forall|i: int| 0 <= i < pb.len() ==> #[trigger] pb[i] == padded_value(b, k, kp, 0i8, i),
    ensures
        dot(pa, row * kp, pb, col * kp, len) == dot(
            a,
            row * k,
            b,
            col * k,
            if len < k {
                len
            } else {
                k
            },
        ),
    decreases len,
{
    if len > 0 {
        law_padding_keeps_products(a, b, pa, pb, k, kp, row, col, len - 1);
        let c = len - 1;
        lemma_padded_at(a, pa, k, kp, row, c);
        lemma_padded_at(b, pb, k, kp, col, c);
        if c >= k {
            assert(pa[row * kp + c] * pb[col * kp + c] == 0);
        }
    }
}

proof fn lemma_padded_at(a: Seq<i8>, pa: Seq<i8>, k: int, kp: int, row: int, c: int)
    requires
        0 < k <= kp,
        row >= 0,
        0 <= c < kp,
        pa.len() >= (row + 1) * kp,
        forall|i: int| 0 <= i < pa.len() ==> #[trigger] pa[i] == padded_value(a, k, kp, 0i8, i),
    ensures
        pa[row * kp + c] == (if c < k {
            a[row * k + c]
        } else {
            0i8
        }),
{
    lemma_fundamental_div_mod_converse(row * kp + c, kp, row, c);
    assert((row + 1) * kp == row * kp + kp) by (nonlinear_arith);
    assert(row * kp >= 0) by (nonlinear_arith)
        requires
            row >= 0,
            kp >= 0,
    ;
}

/// The sum over `workers` cores of what stands at `at` in each core's part.
pub open spec fn parts_sum(partials: Seq<i32>, stride: int, at: int, workers: int) -> int
    decreases workers,
{
    if workers <= 0 {
        0
    } else {
        parts_sum(partials, stride, at, workers - 1) + partials[(workers - 1) * stride + at]
    }
}

/// A number brought into 32 bits by leaving out multiples of two to the 32.
pub open spec fn wrap32(x: int) -> int {
    (x + 0x8000_0000) % 0x1_0000_0000 - 0x8000_0000
}

proof fn lemma_wrap_step(x: int, y: int)
    ensures
        wrap32(wrap32(x) + y) == wrap32(x + y),
        -0x8000_0000 <= wrap32(x) <= 0x7fff_ffff,
{
}

/// A number that is within 32 bits already stays as it is, so sums of parts are
/// exact wherever the whole sum fits, whatever the sums on the way.
pub proof fn law_partial_sums_are_exact(partials: Seq<i32>, stride: int, at: int, workers: int)
    requires
        i32::MIN <= parts_sum(partials, stride, at, workers) <= i32::MAX,
    ensures
        wrap32(parts_sum(partials, stride, at, workers)) == parts_sum(
            partials,
            stride,
            at,
            workers,
        ),
{
}

/// Adds up one row of the parts that the cores computed over their share of K.
/// Part `w` starts at `w * stride`.
pub fn sum_partials(
    partials: &[i32],
    workers: usize,
    stride: usize,
    row: usize,
    n: usize,
) -> (out: Vec<i32>)
    requires
        partials@.len() == workers * stride,
        (row + 1) * n <= stride,
    ensures
        out@.len() == n,
        forall|c: int|
            0 <= c < n ==> #[trigger] out@[c] == wrap32(
                parts_sum(partials@, stride as int, row * n + c, workers as int),
            ),
{
    let total: usize = partials.len();
    let mut out: Vec<i32> = Vec::new();
    assert((row + 1) * n == row * n + n) by (nonlinear_arith);
    assert(row * n >= 0) by (nonlinear_arith);
    while out.len() < n
        invariant
            total == partials@.len() == workers * stride,
            row * n + n <= stride,
            row * n >= 0,
            out@.len() <= n,
            forall|c: int|
                0 <= c < out@.len() ==> #[trigger] out@[c] == wrap32(
                    parts_sum(partials@, stride as int, row * n + c, workers as int),
                ),
        decreases n - out@.len(),
    {
        let at: usize = row * n + out.len();
        let mut acc: i32 = 0;
        let mut w: usize = 0;
        while w < workers
            invariant
                total == partials@.len() == workers * stride,
                w <= workers,
                at < stride,
                acc == wrap32(parts_sum(partials@, stride as int, at as int, w as int)),
            decreases workers - w,
        {
            proof {
                assert(w * stride >= 0 && w * stride + stride <= workers * stride)
                    by (nonlinear_arith)
                    requires
                        w + 1 <= workers,
                        stride >= 0,
                        w >= 0,
                ;
                lemma_wrap_step(
                    parts_sum(partials@, stride as int, at as int, w as int),
                    partials@[w * stride + at] as int,
                );
            }
            acc = acc.wrapping_add(partials[w * stride + at]);
            w = w + 1;
        }
        out.push(acc);
    }
    out
}

/// The product over all of K is the sum of the products over its slices.
pub proof fn law_k_slices_add_up(a: Seq<i8>, a0: int, b: Seq<i8>, b0: int, cut: int, len: int)
    requires
        0 <= cut <= len,
    ensures
        dot(a, a0, b, b0, len) == dot(a, a0, b, b0, cut) + dot(
            a,
            a0 + cut,
            b,
            b0 + cut,
            len - cut,
        ),
    decreases len,
{
    if len > cut {
        law_k_slices_add_up(a, a0, b, b0, cut, len - 1);
        assert(a0 + cut + (len - cut) - 1 == a0 + len - 1);
        assert(b0 + cut + (len - cut) - 1 == b0 + len - 1);
    }
}

/// Powers of two.
pub open spec fn is_power_of_two(n: int) -> bool
    decreases n,
{
    if n <= 1 {
        n == 1
    } else {
        n % 2 == 0 && is_power_of_two(n / 2)
    }
}

/// Whether a number is a power of two.
pub fn power_of_two(n: usize) -> (r: bool)
    ensures
        r == is_power_of_two(n as int),
{
    if n == 0 {
        return false;
    }
    let mut left: usize = n;
    while left > 1
        invariant
            left > 0,
            is_power_of_two(left as int) == is_power_of_two(n as int),
        decreases left,
    {
        if left % 2 != 0 {
            return false;
        }
        left = left / 2;
    }
    true
}

/// A magnitude is what is left of a pattern without its sign: it is the same for a
/// value and its negative, and a pattern is finite where its exponent is not all ones.
pub proof fn law_magnitudes_have_no_sign(bits: u32)
    ensures
        magnitude(bits) < 0x8000_0000,
        bits < 0x8000_0000 ==> magnitude(bits) == bits,
        bits >= 0x8000_0000 ==> magnitude(bits) == bits - 0x8000_0000,
        is_finite_pattern(bits) <==> bits as int / 0x80_0000 % 256 != 255,
{
}

/// Numbers of 32 bits stand for themselves, and two sums that differ by a whole turn
/// wrap to the same number.
pub proof fn law_wrapped_sums(x: int, turns: int)
    ensures
        i32::MIN <= wrap32(x) <= i32::MAX,
        i32::MIN <= x <= i32::MAX ==> wrap32(x) == x,
        wrap32(x + turns * 0x1_0000_0000) == wrap32(x),
{
    vstd::arithmetic::div_mod::lemma_mod_multiples_vanish(
        turns,
        x + 0x8000_0000,
        0x1_0000_0000,
    );
    assert(0x1_0000_0000 * turns + (x + 0x8000_0000) == x + turns * 0x1_0000_0000 + 0x8000_0000)
        by (nonlinear_arith);
}

/// The powers of two are one and what doubling makes of them.
pub proof fn law_powers_of_two_come_from_doubling(n: int)
    ensures
        is_power_of_two(1),
        n < 1 ==> !is_power_of_two(n),
        n >= 1 ==> is_power_of_two(2 * n) == is_power_of_two(n),
        n >= 1 ==> !is_power_of_two(2 * n + 1),
{
}

/// The partial products of some workers and of those after them add up to those of
/// all; the share of one worker is its own value.
pub proof fn law_partial_products_add_up(
    partials: Seq<i32>,
    stride: int,
    at: int,
    first: int,
    rest: int,
)
    requires
        first >= 0,
        rest >= 0,
    ensures
        parts_sum(partials, stride, at, first + rest) == parts_sum(partials, stride, at, first)
            + parts_sum(partials, stride, first * stride + at, rest),
        parts_sum(partials, stride, at, 1) == partials[at],
    decreases rest,
{
    reveal_with_fuel(parts_sum, 2);
    assert(0 * stride == 0) by (nonlinear_arith);
    if rest > 0 {
        law_partial_products_add_up(partials, stride, at, first, rest - 1);
        assert((first + rest - 1) * stride + at == (rest - 1) * stride + (first * stride + at))
            by (nonlinear_arith);
    }
}

/// The product of one value by one value is their product; longer ones are built
/// from these.
pub proof fn law_shortest_products(a: Seq<i8>, a0: int, b: Seq<i8>, b0: int)
    ensures
        dot(a, a0, b, b0, 0) == 0,
        dot(a, a0, b, b0, 1) == a[a0] * b[b0],
{
    reveal_with_fuel(dot, 2);
}

/// A layout counts the matrix: the groups of a row make up the row, each group of
/// each row has one scale, and the rows make up the bytes of the matrix.
pub proof fn law_layouts_count_the_matrix(
    kind: DecodeWeightKind,
    k: int,
    n: int,
    group_size: int,
)
    requires
        0 <= k <= usize::MAX,
        0 <= n <= usize::MAX,
        n * k <= usize::MAX,
        0 < group_size <= usize::MAX,
        k % group_size == 0,
        n > 0,
        k % 256 == 0,
        k / 256 * block_bytes(kind) <= usize::MAX,
    ensures
        ({
            let l = layout_of(kind, k, n, group_size);
            &&& l.group_size == group_size
            &&& l.groups * l.group_size == k
            &&& l.scales == l.groups * n
            &&& l.scales * l.group_size == l.values
            &&& l.values == n * k
            &&& l.row_bytes * 256 == k * (if kind == DecodeWeightKind::Q4K {
                144
            } else {
                210int
            })
            &&& n * l.row_bytes == quantized_bytes(kind, k, n)
        }),
{
    let g = k / group_size;
    lemma_fundamental_div_mod(k, group_size);
    lemma_fundamental_div_mod(k, 256);
    assert(group_size * g == g * group_size) by (nonlinear_arith);
    assert(0 <= g <= k) by (nonlinear_arith)
        requires
            group_size * g == k,
            group_size > 0,
            k >= 0,
    ;
    assert(0 <= g * n <= n * k) by (nonlinear_arith)
        requires
            0 <= g <= k,
            n > 0,
    ;
    assert(g * n * group_size == n * k) by (nonlinear_arith)
        requires
            g * group_size == k,
    ;
    let blocks = k / 256;
    let bytes = block_bytes(kind) as int;
    assert(n * (blocks * bytes) == n * blocks * bytes) by (nonlinear_arith);
    assert(blocks * bytes * 256 == k * bytes) by (nonlinear_arith)
        requires
            256 * blocks == k,
    ;
    assert(blocks * bytes >= 0) by (nonlinear_arith)
        requires
            blocks >= 0,
            bytes >= 0,
    ;
}

/// Groups fit exactly where they are whole units and the row is whole groups.
pub proof fn law_fitting_groups_are_whole_units(k: int, group_size: int, unit: int, units: int, groups: int)
    requires
        unit > 0,
        units > 0,
        groups >= 0,
    ensures
        groups_fit(groups * (units * unit), units * unit, unit),
        groups_fit(k, group_size, unit) ==> group_size > 0 && group_size == group_size / unit
            * unit && k == k / group_size * group_size,
        !groups_fit(k, 0, unit),
{
    assert(units * unit > 0) by (nonlinear_arith)
        requires
            unit > 0,
            units > 0,
    ;
    vstd::arithmetic::div_mod::lemma_mod_multiples_basic(units, unit);
    vstd::arithmetic::div_mod::lemma_mod_multiples_basic(groups, units * unit);
    lemma_fundamental_div_mod(group_size, unit);
    assert(unit * (group_size / unit) == group_size / unit * unit) by (nonlinear_arith);
    if group_size > 0 {
        lemma_fundamental_div_mod(k, group_size);
        assert(group_size * (k / group_size) == k / group_size * group_size) by (nonlinear_arith);
    }
}

/// Only rows of whole blocks fill their blocks; a matrix without rows has none to fill.
pub proof fn law_filled_rows_are_whole_blocks(k: int, n: int)
    ensures
        rows_fill(k, n) <==> n == 0 || k == k / 256 * 256,
{
}

/// Groups follow each other as their scales do: the channels of one group of rows
/// side by side, and one such group after the other.
pub proof fn law_groups_follow_their_scales(n: int, group_size: int, group: int, channel: int)
    ensures
        group_start(n, group_size, group, channel) == scale_index(n, group, channel) * group_size,
        scale_index(n, 0, 0) == 0,
        scale_index(n, group, channel + 1) == scale_index(n, group, channel) + 1,
        scale_index(n, group + 1, 0) == scale_index(n, group, n),
{
    assert(0 * n == 0) by (nonlinear_arith);
    assert((group + 1) * n == group * n + n) by (nonlinear_arith);
}

/// Padded rows begin with their own values and end with zeros.
pub proof fn law_padded_rows_begin_with_their_values<T>(
    values: Seq<T>,
    k: int,
    kp: int,
    zero: T,
    row: int,
    c: int,
)
    requires
        0 < k <= kp,
        row >= 0,
        0 <= c < kp,
    ensures
        c < k ==> padded_value(values, k, kp, zero, row * kp + c) == values[row * k + c],
        c >= k ==> padded_value(values, k, kp, zero, row * kp + c) == zero,
{
    lemma_fundamental_div_mod_converse(row * kp + c, kp, row, c);
}

/// Grouped weights are laid out only where the groups are whole multiples of 512 and
/// make up the rows, and each group of each row has a scale.
pub proof fn law_grouped_layouts_have_a_scale_for_each_group(
    kind: DecodeWeightKind,
    k: usize,
    n: usize,
    group_size: usize,
    len: usize,
    r: Option<QuantLayout>,
)
    requires
        call_ensures(prepare_grouped_w8a8, (kind, k, n, group_size, len), r),
        n > 0,
        k > 0,
        k as int / 256 * 210 <= usize::MAX,
    ensures
        r matches Some(l) ==> {
            &&& group_size % 512 == 0 && k % group_size == 0
            &&& l.group_size == group_size
            &&& l.groups * group_size == k
            &&& l.scales == l.groups * n
            &&& l.values == n * k
            &&& n * l.row_bytes == len
        },
{
    if r is Some {
        let (kk, g) = (k as int, group_size as int);
        lemma_fundamental_div_mod(kk, g);
        lemma_fundamental_div_mod(g, 512);
        let t = kk / g;
        let u = g / 512;
        assert(g * t == 256 * (2 * u * t)) by (nonlinear_arith)
            requires
                g == 512 * u,
        ;
        assert(kk == 256 * (2 * u * t));
        assert(kk % 256 == 0);
        let blocks = kk / 256;
        assert(blocks * block_bytes(kind) <= blocks * 210) by (nonlinear_arith)
            requires
                blocks >= 0,
                block_bytes(kind) <= 210,
        ;
        law_layouts_count_the_matrix(kind, kk, n as int, g);
    }
}

} // verus!
