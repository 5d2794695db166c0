//! Argument checks and plans of the C interface.
//!
//! Pointers come as addresses, and an address of zero is a null pointer. A plan
//! says which weights a call is about; the caches and routes say what is done
//! with them.

use crate::decode_m1::M1Target;
use crate::keys::{
    decode_kind, kind_of_code, ConcatKey, DecodePairKey, DecodeTripleKey, DecodeWeightKey,
    DecodeWeightKind,
};
use crate::mtile::{is_tile_height, tile_height_supported, MtileTarget, MTILE_GROUPED_ROWS};
use crate::plan::{column_chunks, is_column_cut, is_row_cut, ColumnChunk, RowChunk};
use crate::route::{expected_bytes, quantized_bytes, VALUES_PER_BLOCK};
use crate::settings::{hilo_applies, hilo_needed, HiloMode};
use crate::status::{STATUS_INVALID_ARGUMENT, STATUS_OK};
use vstd::prelude::*;

verus! {

/// The bit pattern of the least single-precision value that is not finite.
pub const SINGLE_INFINITY_BITS: u32 = 0x7f80_0000;

/// Whether a single-precision bit pattern is a finite value above zero. Patterns
/// of positive values grow with the value; a set sign bit lies above them all.
pub open spec fn is_positive_finite(bits: u32) -> bool {
    0 < bits < SINGLE_INFINITY_BITS
}

/// Whether all scales, given by their bit patterns, are finite and above zero.
pub fn scales_are_positive(bits: &[u32]) -> (r: bool)
    ensures
        r == (forall|i: int| 0 <= i < bits@.len() ==> is_positive_finite(#[trigger] bits@[i])),
{
    let mut i: usize = 0;
    while i < bits.len()
        invariant
            i <= bits@.len(),
            forall|j: int| 0 <= j < i ==> is_positive_finite(#[trigger] bits@[j]),
        decreases bits@.len() - i,
    {
        if bits[i] == 0 || bits[i] >= SINGLE_INFINITY_BITS {
            assert(!is_positive_finite(bits@[i as int]));
            return false;
        }
        i = i + 1;
    }
    true
}

/// Eight-bit weights with their scales and the buffer for their product.
#[derive(Clone, Copy, Debug, PartialEq, Eq, Structural)]
pub struct W8Matrix {
    pub weights: usize,
    pub scales: usize,
    pub output: usize,
    pub n: usize,
}

/// Quantized weights with the buffer for their product.
#[derive(Clone, Copy, Debug, PartialEq, Eq, Structural)]
pub struct QMatrix {
    pub weights: usize,
    pub bytes: usize,
    pub kind: u32,
    pub output: usize,
    pub n: usize,
}

/// What the projections of one call share.
#[derive(Clone, Copy, Debug, PartialEq, Eq, Structural)]
pub struct Shared {
    pub context: usize,
    pub activations: usize,
    pub k: usize,
}

impl Shared {
    /// No null pointer and no empty row.
    pub open spec fn valid(self) -> bool {
        self.context != 0 && self.activations != 0 && self.k > 0
    }

    fn check(&self) -> (r: bool)
        ensures
            r == self.valid(),
    {
        self.context != 0 && self.activations != 0 && self.k > 0
    }
}

impl W8Matrix {
    /// No null pointer, no empty side, and a size that can be counted.
    pub open spec fn valid(self, k: usize) -> bool {
        self.weights != 0 && self.scales != 0 && self.output != 0 && self.n > 0 && k * self.n
            <= usize::MAX
    }

    /// The identity of the weights: one byte each.
    pub open spec fn key(self, k: usize) -> DecodeWeightKey {
        DecodeWeightKey {
            address: self.weights,
            bytes: (k * self.n) as usize,
            k,
            n: self.n,
            kind: DecodeWeightKind::Q4K,
        }
    }

    fn check(&self, k: usize) -> (r: Option<DecodeWeightKey>)
        ensures
            r == (if self.valid(k) {
                Some(self.key(k))
            } else {
                None
            }),
    {
        if self.weights == 0 || self.scales == 0 || self.output == 0 || self.n == 0 {
            return None;
        }
        match k.checked_mul(self.n) {
            Some(bytes) => Some(
                DecodeWeightKey {
                    address: self.weights,
                    bytes,
                    k,
                    n: self.n,
                    kind: DecodeWeightKind::Q4K,
                },
            ),
            None => None,
        }
    }
}

impl QMatrix {
    /// No null pointer, no empty side, and a known format.
    pub open spec fn valid(self) -> bool {
        self.weights != 0 && self.output != 0 && self.n > 0 && kind_of_code(self.kind) is Some
    }

    /// The identity of the weights.
    pub open spec fn key(self, k: usize) -> DecodeWeightKey {
        DecodeWeightKey {
            address: self.weights,
            bytes: self.bytes,
            k,
            n: self.n,
            kind: kind_of_code(self.kind)->0,
        }
    }

    fn check(&self, k: usize) -> (r: Option<DecodeWeightKey>)
        ensures
            r == (if self.valid() {
                Some(self.key(k))
            } else {
                None
            }),
    {
        if self.weights == 0 || self.output == 0 || self.n == 0 {
            return None;
        }
        match decode_kind(self.kind) {
            Some(kind) => Some(
                DecodeWeightKey { address: self.weights, bytes: self.bytes, k, n: self.n, kind },
            ),
            None => None,
        }
    }
}

/// A refusal of unusable arguments.
pub open spec fn refused<T>() -> Result<T, i32> {
    Err(STATUS_INVALID_ARGUMENT)
}

/// Plans one row times eight-bit weights.
pub fn rocknpu_matmul_w8a8_f32_f32_m1(shared: &Shared, matrix: &W8Matrix) -> (r: Result<
    M1Target,
    i32,
>)
    ensures
        r == (if shared.valid() && matrix.valid(shared.k) {
            Ok(M1Target::Single(matrix.key(shared.k)))
        } else {
            refused()
        }),
{
    if !shared.check() {
        return Err(STATUS_INVALID_ARGUMENT);
    }
    match matrix.check(shared.k) {
        Some(key) => Ok(M1Target::Single(key)),
        None => Err(STATUS_INVALID_ARGUMENT),
    }
}

/// Plans one row times two eight-bit matrices.
pub fn rocknpu_matmul_w8a8_pair_f32_f32_m1(
    shared: &Shared,
    first: &W8Matrix,
    second: &W8Matrix,
) -> (r: Result<M1Target, i32>)
    ensures
        r == (if shared.valid() && first.valid(shared.k) && second.valid(shared.k) {
            Ok(
                M1Target::Pair(
                    DecodePairKey { first: first.key(shared.k), second: second.key(shared.k) },
                ),
            )
        } else {
            refused()
        }),
{
    if !shared.check() {
        return Err(STATUS_INVALID_ARGUMENT);
    }
    match (first.check(shared.k), second.check(shared.k)) {
        (Some(first), Some(second)) => Ok(M1Target::Pair(DecodePairKey { first, second })),
        _ => Err(STATUS_INVALID_ARGUMENT),
    }
}

/// Plans one row times three eight-bit matrices.
pub fn rocknpu_matmul_w8a8_triple_f32_f32_m1(
    shared: &Shared,
    first: &W8Matrix,
    second: &W8Matrix,
    third: &W8Matrix,
) -> (r: Result<M1Target, i32>)
    ensures
        r == (if shared.valid() && first.valid(shared.k) && second.valid(shared.k) && third.valid(
            shared.k,
        ) {
            Ok(
                M1Target::Triple(
                    DecodeTripleKey {
                        first: first.key(shared.k),
                        second: second.key(shared.k),
                        third: third.key(shared.k),
                    },
                ),
            )
        } else {
            refused()
        }),
{
    if !shared.check() {
        return Err(STATUS_INVALID_ARGUMENT);
    }
    match (first.check(shared.k), second.check(shared.k), third.check(shared.k)) {
        (Some(first), Some(second), Some(third)) => Ok(
            M1Target::Triple(DecodeTripleKey { first, second, third }),
        ),
        _ => Err(STATUS_INVALID_ARGUMENT),
    }
}

/// Plans one row times two quantized matrices.
pub fn rocknpu_matmul_q_pair_f32_f32_m1(shared: &Shared, first: &QMatrix, second: &QMatrix) -> (r:
    Result<M1Target, i32>)
    ensures
        r == (if shared.valid() && first.valid() && second.valid() {
            Ok(
                M1Target::Pair(
                    DecodePairKey { first: first.key(shared.k), second: second.key(shared.k) },
                ),
            )
        } else {
            refused()
        }),
{
    if !shared.check() {
        return Err(STATUS_INVALID_ARGUMENT);
    }
    match (first.check(shared.k), second.check(shared.k)) {
        (Some(first), Some(second)) => Ok(M1Target::Pair(DecodePairKey { first, second })),
        _ => Err(STATUS_INVALID_ARGUMENT),
    }
}

/// Plans one row times three quantized matrices.
pub fn rocknpu_matmul_q_triple_f32_f32_m1(
    shared: &Shared,
    first: &QMatrix,
    second: &QMatrix,
    third: &QMatrix,
) -> (r: Result<M1Target, i32>)
    ensures
        r == (if shared.valid() && first.valid() && second.valid() && third.valid() {
            Ok(
                M1Target::Triple(
                    DecodeTripleKey {
                        first: first.key(shared.k),
                        second: second.key(shared.k),
                        third: third.key(shared.k),
                    },
                ),
            )
        } else {
            refused()
        }),
{
    if !shared.check() {
        return Err(STATUS_INVALID_ARGUMENT);
    }
    match (first.check(shared.k), second.check(shared.k), third.check(shared.k)) {
        (Some(first), Some(second), Some(third)) => Ok(
            M1Target::Triple(DecodeTripleKey { first, second, third }),
        ),
        _ => Err(STATUS_INVALID_ARGUMENT),
    }
}

/// A tile call with the sizes of its buffers.
pub struct TileCall {
    pub target: MtileTarget,
    pub a_len: usize,
    pub out_lens: Vec<usize>,
}

/// Plans sixteen rows times eight-bit weights.
pub fn rocknpu_matmul_w8a8_f32_f32_m16(shared: &Shared, matrix: &W8Matrix) -> (r: Result<
    TileCall,
    i32,
>)
    ensures
        match r {
            Ok(call) => {
                &&& shared.valid()
                &&& matrix.valid(shared.k)
                &&& call.target == (MtileTarget::Tile {
                    key: matrix.key(shared.k),
                    m: MTILE_GROUPED_ROWS,
                })
                &&& call.a_len == 16 * shared.k
                &&& call.out_lens@ == seq![(16 * matrix.n) as usize]
                &&& 16 * matrix.n <= usize::MAX
            },
            Err(status) => {
                &&& status == STATUS_INVALID_ARGUMENT
                &&& !(shared.valid() && matrix.valid(shared.k) && 16 * shared.k <= usize::MAX && 16
                    * matrix.n <= usize::MAX)
            },
        },
{
    if !shared.check() {
        return Err(STATUS_INVALID_ARGUMENT);
    }
    let key = match matrix.check(shared.k) {
        Some(key) => key,
        None => return Err(STATUS_INVALID_ARGUMENT),
    };
    match (MTILE_GROUPED_ROWS.checked_mul(shared.k), MTILE_GROUPED_ROWS.checked_mul(matrix.n)) {
        (Some(a_len), Some(out_len)) => {
            let out_lens: Vec<usize> = vec![out_len];
            assert(out_lens@ =~= seq![out_len]);
            Ok(
                TileCall {
                    target: MtileTarget::Tile { key, m: MTILE_GROUPED_ROWS },
                    a_len,
                    out_lens,
                },
            )
        },
        _ => Err(STATUS_INVALID_ARGUMENT),
    }
}

/// Plans a batch of rows times two quantized matrices.
pub fn rocknpu_matmul_q_pair_f32_f32_mtile(
    shared: &Shared,
    m: usize,
    first: &QMatrix,
    second: &QMatrix,
) -> (r: Result<TileCall, i32>)
    ensures
        match r {
            Ok(call) => {
                &&& shared.valid()
                &&& m > 0
                &&& first.valid()
                &&& second.valid()
                &&& call.target == (MtileTarget::PairPool {
                    pair: DecodePairKey {
                        first: first.key(shared.k),
                        second: second.key(shared.k),
                    },
                    m,
                })
                &&& call.a_len == m * shared.k
                &&& call.out_lens@.len() == 2
                &&& call.out_lens@[0] == m * first.n
                &&& call.out_lens@[1] == m * second.n
            },
            Err(status) => {
                &&& status == STATUS_INVALID_ARGUMENT
                &&& !(shared.valid() && m > 0 && first.valid() && second.valid() && m * shared.k
                    <= usize::MAX && m * first.n <= usize::MAX && m * second.n <= usize::MAX)
            },
        },
{
    if !shared.check() || m == 0 {
        return Err(STATUS_INVALID_ARGUMENT);
    }
    let pair = match (first.check(shared.k), second.check(shared.k)) {
        (Some(first), Some(second)) => DecodePairKey { first, second },
        _ => return Err(STATUS_INVALID_ARGUMENT),
    };
    match (m.checked_mul(shared.k), m.checked_mul(first.n), m.checked_mul(second.n)) {
        (Some(a_len), Some(out1), Some(out2)) => {
            let out_lens: Vec<usize> = vec![out1, out2];
            Ok(TileCall { target: MtileTarget::PairPool { pair, m }, a_len, out_lens })
        },
        _ => Err(STATUS_INVALID_ARGUMENT),
    }
}

/// The arguments of a half-precision product.
#[derive(Clone, Copy, Debug, PartialEq, Eq, Structural)]
pub struct HalfCall {
    pub context: usize,
    pub weights: usize,
    pub activations: usize,
    pub output: usize,
    pub m: usize,
    pub k: usize,
    pub n: usize,
}

/// Elements of the three buffers of a product.
#[derive(Clone, Copy, Debug, PartialEq, Eq, Structural)]
pub struct ProductSizes {
    pub a_len: usize,
    pub b_len: usize,
    pub out_len: usize,
}

impl HalfCall {
    /// No null pointer, no empty dimension, and sizes that can be counted.
    pub open spec fn valid(self) -> bool {
        &&& self.context != 0
        &&& self.weights != 0
        &&& self.activations != 0
        &&& self.output != 0
        &&& self.m > 0
        &&& self.k > 0
        &&& self.n > 0
        &&& self.m * self.k <= usize::MAX
        &&& self.n * self.k <= usize::MAX
        &&& self.m * self.n <= usize::MAX
    }
}

/// Plans C[M,N] = A[M,K] x B[N,K]^T with half-precision weights.
pub fn rocknpu_matmul_f16_f32_f32(call: &HalfCall) -> (r: Result<ProductSizes, i32>)
    ensures
        r == (if call.valid() {
            Ok(
                ProductSizes {
                    a_len: (call.m * call.k) as usize,
                    b_len: (call.n * call.k) as usize,
                    out_len: (call.m * call.n) as usize,
                },
            )
        } else {
            refused()
        }),
{
    if call.context == 0 || call.weights == 0 || call.activations == 0 || call.output == 0
        || call.m == 0 || call.k == 0 || call.n == 0 {
        return Err(STATUS_INVALID_ARGUMENT);
    }
    match (
        call.m.checked_mul(call.k),
        call.n.checked_mul(call.k),
        call.m.checked_mul(call.n),
    ) {
        (Some(a_len), Some(b_len), Some(out_len)) => Ok(ProductSizes { a_len, b_len, out_len }),
        _ => Err(STATUS_INVALID_ARGUMENT),
    }
}

/// Plans the preparation of quantized weights ahead of their first use.
pub fn rocknpu_prewarm_quantized_m16(
    context: usize,
    weights: usize,
    weights_bytes: usize,
    quant_kind: u32,
    k: usize,
    n: usize,
) -> (r: Result<DecodeWeightKey, i32>)
    ensures
        r == (match kind_of_code(quant_kind) {
            Some(kind) => if context != 0 && weights != 0 && k > 0 && n > 0 && k % VALUES_PER_BLOCK
                == 0 && weights_bytes == quantized_bytes(kind, k as int, n as int) {
                Ok(DecodeWeightKey { address: weights, bytes: weights_bytes, k, n, kind })
            } else {
                refused()
            },
            None => refused(),
        }),
{
    if context == 0 || weights == 0 || k == 0 || n == 0 {
        return Err(STATUS_INVALID_ARGUMENT);
    }
    let kind = match decode_kind(quant_kind) {
        Some(kind) => kind,
        None => return Err(STATUS_INVALID_ARGUMENT),
    };
    if k % VALUES_PER_BLOCK != 0 {
        return Err(STATUS_INVALID_ARGUMENT);
    }
    match expected_bytes(kind, k, n) {
        Some(bytes) => {
            if bytes == weights_bytes {
                Ok(DecodeWeightKey { address: weights, bytes: weights_bytes, k, n, kind })
            } else {
                Err(STATUS_INVALID_ARGUMENT)
            }
        },
        None => Err(STATUS_INVALID_ARGUMENT),
    }
}

/// Plans a wide single-row product as column chunks of at most `chunk_n`
/// columns, each of them a call of its own that starts at `start` columns, at
/// `start * k` weights and at `start` scales. The first chunk that fails ends
/// the call.
pub fn rocknpu_matmul_w8a8_f32_f32_m1_nsplit(
    shared: &Shared,
    matrix: &W8Matrix,
    chunk_n: usize,
) -> (r: Result<Vec<ColumnChunk>, i32>)
    ensures
        match r {
            Ok(chunks) => {
                &&& shared.valid()
                &&& matrix.weights != 0 && matrix.scales != 0 && matrix.output != 0
                &&& matrix.n > 0 && chunk_n > 0
                &&& chunk_n % 32 == 0 && matrix.n % 32 == 0
                &&& is_column_cut(chunks@, matrix.n as int, chunk_n as int)
            },
            Err(status) => {
                &&& status == STATUS_INVALID_ARGUMENT
                &&& !(shared.valid() && matrix.weights != 0 && matrix.scales != 0 && matrix.output
                    != 0 && matrix.n > 0 && chunk_n > 0 && chunk_n % 32 == 0 && matrix.n % 32 == 0)
            },
        },
{
    if !shared.check() || matrix.weights == 0 || matrix.scales == 0 || matrix.output == 0
        || matrix.n == 0 || chunk_n == 0 || chunk_n % 32 != 0 || matrix.n % 32 != 0 {
        return Err(STATUS_INVALID_ARGUMENT);
    }
    Ok(column_chunks(matrix.n, chunk_n))
}

impl W8Matrix {
    /// The buffers of a matrix with `k` inputs end within the address space.
    pub open spec fn addressable(self, k: int) -> bool {
        &&& self.weights + self.n * k <= usize::MAX
        &&& self.scales + self.n * 4 <= usize::MAX
        &&& self.output + self.n * 4 <= usize::MAX
    }

    /// Checks that the buffers of a matrix with `k` inputs end within the address
    /// space.
    pub fn ends_in_memory(&self, k: usize) -> (r: bool)
        ensures
            r == self.addressable(k as int),
    {
        match (self.n.checked_mul(k), self.n.checked_mul(4)) {
            (Some(weights), Some(row)) => {
                self.weights.checked_add(weights).is_some() && self.scales.checked_add(
                    row,
                ).is_some() && self.output.checked_add(row).is_some()
            },
            _ => false,
        }
    }
}

/// The call of one column chunk: its weights, scales and results lie behind
/// those of the columns before it.
pub fn chunk_matrix(matrix: &W8Matrix, k: usize, chunk: ColumnChunk) -> (r: W8Matrix)
    requires
        chunk.start + chunk.len <= matrix.n,
        matrix.addressable(k as int),
    ensures
        r.weights == matrix.weights + chunk.start * k,
        r.scales == matrix.scales + chunk.start * 4,
        r.output == matrix.output + chunk.start * 4,
        r.n == chunk.len,
{
    assert(chunk.start * k <= matrix.n * k) by (nonlinear_arith)
        requires
            chunk.start <= matrix.n,
    ;
    W8Matrix {
        weights: matrix.weights + chunk.start * k,
        scales: matrix.scales + chunk.start * 4,
        output: matrix.output + chunk.start * 4,
        n: chunk.len,
    }
}

/// The arguments of a gated feed-forward step over eight-bit weights.
#[derive(Clone, Copy, Debug, PartialEq, Eq, Structural)]
pub struct SwigluCall {
    pub context: usize,
    pub gate_weights: usize,
    pub gate_scales: usize,
    pub up_weights: usize,
    pub up_scales: usize,
    pub down_weights: usize,
    pub down_scales: usize,
    pub activations: usize,
    pub output: usize,
    pub projection_k: usize,
    pub ffn_n: usize,
    pub output_n: usize,
}

/// What is left to do of a gated feed-forward step.
#[derive(Clone, Copy, Debug, PartialEq, Eq, Structural)]
pub enum SwigluStage {
    /// Project the activations through both gating and up weights.
    GateUp,
    /// Gate the values, and project them through the down weights.
    GateDown,
    /// Nothing: the call is over.
    Done { status: i32 },
}

impl SwigluCall {
    /// No null pointer, no empty dimension, and sizes that can be counted.
    pub open spec fn valid(self) -> bool {
        &&& self.context != 0
        &&& self.gate_weights != 0
        &&& self.gate_scales != 0
        &&& self.up_weights != 0
        &&& self.up_scales != 0
        &&& self.down_weights != 0
        &&& self.down_scales != 0
        &&& self.activations != 0
        &&& self.output != 0
        &&& self.projection_k > 0
        &&& self.ffn_n > 0
        &&& self.output_n > 0
        &&& self.projection_k * self.ffn_n <= usize::MAX
        &&& self.ffn_n * self.output_n <= usize::MAX
    }
}

/// Starts a gated feed-forward step.
pub fn rocknpu_matmul_w8a8_swiglu_down_f32(call: &SwigluCall) -> (stage: SwigluStage)
    ensures
        stage == (if call.valid() {
            SwigluStage::GateUp
        } else {
            (SwigluStage::Done { status: STATUS_INVALID_ARGUMENT })
        }),
{
    if call.context == 0 || call.gate_weights == 0 || call.gate_scales == 0 || call.up_weights == 0
        || call.up_scales == 0 || call.down_weights == 0 || call.down_scales == 0
        || call.activations == 0 || call.output == 0 || call.projection_k == 0 || call.ffn_n == 0
        || call.output_n == 0 {
        return SwigluStage::Done { status: STATUS_INVALID_ARGUMENT };
    }
    match (call.projection_k.checked_mul(call.ffn_n), call.ffn_n.checked_mul(call.output_n)) {
        (Some(_), Some(_)) => SwigluStage::GateUp,
        _ => SwigluStage::Done { status: STATUS_INVALID_ARGUMENT },
    }
}

/// The stage after a projection of a gated feed-forward step came back with
/// `status`.
pub open spec fn swiglu_after(stage: SwigluStage, status: i32) -> SwigluStage {
    match stage {
        SwigluStage::GateUp => if status == STATUS_OK {
            SwigluStage::GateDown
        } else {
            SwigluStage::Done { status }
        },
        SwigluStage::GateDown => SwigluStage::Done { status },
        SwigluStage::Done { status: over } => SwigluStage::Done { status: over },
    }
}

/// Goes on with a gated feed-forward step once a projection is through with
/// `status`: a failure ends it, and the down projection has the last word.
pub fn swiglu_next(stage: SwigluStage, status: i32) -> (next: SwigluStage)
    ensures
        next == swiglu_after(stage, status),
{
    match stage {
        SwigluStage::GateUp => {
            if status == STATUS_OK {
                SwigluStage::GateDown
            } else {
                SwigluStage::Done { status }
            }
        },
        SwigluStage::GateDown => SwigluStage::Done { status },
        SwigluStage::Done { status: over } => SwigluStage::Done { status: over },
    }
}

impl SwigluCall {
    /// The projection of the activations through gating and up weights, with the
    /// buffers that take the results.
    pub open spec fn gate_up(self, gate_out: usize, up_out: usize) -> (Shared, W8Matrix, W8Matrix) {
        (
            Shared { context: self.context, activations: self.activations, k: self.projection_k },
            W8Matrix {
                weights: self.gate_weights,
                scales: self.gate_scales,
                output: gate_out,
                n: self.ffn_n,
            },
            W8Matrix {
                weights: self.up_weights,
                scales: self.up_scales,
                output: up_out,
                n: self.ffn_n,
            },
        )
    }

    /// The projection of the gated values through the down weights, into the
    /// output of the call.
    pub open spec fn down(self, gated: usize) -> (Shared, W8Matrix) {
        (
            Shared { context: self.context, activations: gated, k: self.ffn_n },
            W8Matrix {
                weights: self.down_weights,
                scales: self.down_scales,
                output: self.output,
                n: self.output_n,
            },
        )
    }

    /// The call of the first stage.
    pub fn gate_up_call(&self, gate_out: usize, up_out: usize) -> (r: (Shared, W8Matrix, W8Matrix))
        ensures
            r == self.gate_up(gate_out, up_out),
    {
        (
            Shared { context: self.context, activations: self.activations, k: self.projection_k },
            W8Matrix {
                weights: self.gate_weights,
                scales: self.gate_scales,
                output: gate_out,
                n: self.ffn_n,
            },
            W8Matrix {
                weights: self.up_weights,
                scales: self.up_scales,
                output: up_out,
                n: self.ffn_n,
            },
        )
    }

    /// The call of the second stage.
    pub fn down_call(&self, gated: usize) -> (r: (Shared, W8Matrix))
        ensures
            r == self.down(gated),
    {
        (
            Shared { context: self.context, activations: gated, k: self.ffn_n },
            W8Matrix {
                weights: self.down_weights,
                scales: self.down_scales,
                output: self.output,
                n: self.output_n,
            },
        )
    }
}

/// Both projections of a gated step that was taken are taken: the pair of gating
/// and up weights over the activations, and the down weights over as many gated
/// values as the pair has columns.
pub proof fn law_gated_projections_are_taken(
    call: SwigluCall,
    gate_out: usize,
    up_out: usize,
    gated: usize,
)
    requires
        call.valid(),
        gate_out != 0,
        up_out != 0,
        gated != 0,
    ensures
        ({
            let (shared, gate, up) = call.gate_up(gate_out, up_out);
            &&& shared.valid()
            &&& gate.valid(shared.k)
            &&& up.valid(shared.k)
            &&& gate.n == call.down(gated).0.k
            &&& up.n == call.down(gated).0.k
            &&& call.down(gated).0.valid()
            &&& call.down(gated).1.valid(call.ffn_n)
            &&& call.down(gated).1.output == call.output
        }),
{
}

/// A gated step whose first projection fails ends with that status and runs
/// nothing else; where it succeeds, the down projection has the last word.
pub proof fn law_gated_step_stops_at_failure(pair_status: i32, down_status: i32)
    ensures
        pair_status != STATUS_OK ==> swiglu_after(SwigluStage::GateUp, pair_status) == (
        SwigluStage::Done { status: pair_status }),
        pair_status == STATUS_OK ==> swiglu_after(
            swiglu_after(SwigluStage::GateUp, pair_status),
            down_status,
        ) == (SwigluStage::Done { status: down_status }),
{
}

/// The arguments of joined projections, but for what the arrays hold.
#[derive(Clone, Copy, Debug, PartialEq, Eq, Structural)]
pub struct ConcatCall {
    pub context: usize,
    pub count: usize,
    pub weights: usize,
    pub bytes: usize,
    pub kinds: usize,
    pub ns: usize,
    pub activations: usize,
    pub outputs: usize,
    pub m: usize,
    pub k: usize,
}

/// The way joined projections take.
#[derive(Clone, Copy, Debug, PartialEq, Eq, Structural)]
pub enum ConcatRoute {
    /// The call is refused.
    Refused { status: i32 },
    /// Rows and their residuals are stacked to `rows` rows, the stack is run
    /// with its own plan, and the two halves of each result are added.
    Hilo { rows: usize },
    /// The rows are cut into tiles, and each tile is run with its own plan.
    Rows,
    /// The 128 rows are run as two halves of 64 rows each.
    Halves,
    /// The projections run as one tile.
    Run,
}

impl ConcatCall {
    /// One to four projections, no null pointer, no empty dimension, and an
    /// activation buffer that can be counted twice over.
    pub open spec fn valid(self) -> bool {
        &&& self.context != 0
        &&& 1 <= self.count <= 4
        &&& self.weights != 0
        &&& self.bytes != 0
        &&& self.kinds != 0
        &&& self.ns != 0
        &&& self.activations != 0
        &&& self.outputs != 0
        &&& self.m > 0
        &&& self.k > 0
        &&& 2 * (self.m * self.k) <= usize::MAX
    }
}

/// The way joined projections take. `plain` says that the rows must not be
/// stacked with their residuals, because they already are or have none.
pub open spec fn concat_route(mode: HiloMode, call: ConcatCall, plain: bool) -> ConcatRoute {
    let (m, k) = (call.m as int, call.k as int);
    if !call.valid() {
        ConcatRoute::Refused { status: STATUS_INVALID_ARGUMENT }
    } else if hilo_applies(mode, m, k, m * k, plain) {
        ConcatRoute::Hilo { rows: (2 * m) as usize }
    } else if !is_tile_height(m) {
        ConcatRoute::Rows
    } else if m == 128 && k > 2048 {
        ConcatRoute::Halves
    } else {
        ConcatRoute::Run
    }
}

/// Decides the way joined projections take.
pub fn rocknpu_matmul_q_concat_f32_f32_mtile(
    mode: HiloMode,
    call: &ConcatCall,
    plain: bool,
) -> (r: ConcatRoute)
    ensures
        r == concat_route(mode, *call, plain),
{
    if call.context == 0 || call.count < 1 || call.count > 4 || call.weights == 0 || call.bytes == 0
        || call.kinds == 0 || call.ns == 0 || call.activations == 0 || call.outputs == 0 || call.m
        == 0 || call.k == 0 {
        return ConcatRoute::Refused { status: STATUS_INVALID_ARGUMENT };
    }
    let a_len: usize = match call.m.checked_mul(call.k) {
        Some(a_len) => a_len,
        None => return ConcatRoute::Refused { status: STATUS_INVALID_ARGUMENT },
    };
    if a_len > usize::MAX / 2 {
        return ConcatRoute::Refused { status: STATUS_INVALID_ARGUMENT };
    }
    if hilo_needed(mode, call.m, call.k, a_len, plain) {
        assert(call.m <= call.m * call.k) by (nonlinear_arith)
            requires
                call.k > 0,
        ;
        return ConcatRoute::Hilo { rows: 2 * call.m };
    }
    if !tile_height_supported(call.m) {
        return ConcatRoute::Rows;
    }
    if call.m == 128 && call.k > 2048 {
        ConcatRoute::Halves
    } else {
        ConcatRoute::Run
    }
}

/// Every member can be projected: it is usable, and its result can be counted.
pub open spec fn members_valid(members: Seq<QMatrix>, m: usize) -> bool {
    forall|i: int|
        0 <= i < members.len() ==> (#[trigger] members[i]).valid() && m * members[i].n <= usize::MAX
}

/// Plans joined projections whose arrays have been read.
pub fn concat_members(members: &[QMatrix], m: usize, k: usize) -> (r: Result<TileCall, i32>)
    ensures
        match r {
            Ok(call) => {
                &&& members_valid(members@, m)
                &&& call.target matches MtileTarget::Concat { joined, m: rows }
                &&& rows == m
                &&& joined@ == members@.map_values(|q: QMatrix| q.key(k))
                &&& call.a_len == m * k
                &&& call.out_lens@.len() == members@.len()
                &&& forall|i: int|
                    0 <= i < members@.len() ==> #[trigger] call.out_lens@[i] == m * members@[i].n
            },
            Err(status) => {
                &&& status == STATUS_INVALID_ARGUMENT
                &&& !(members_valid(members@, m) && m * k <= usize::MAX)
            },
        },
{
    let a_len: usize = match m.checked_mul(k) {
        Some(a_len) => a_len,
        None => return Err(STATUS_INVALID_ARGUMENT),
    };
    let mut keys: Vec<DecodeWeightKey> = Vec::new();
    let mut out_lens: Vec<usize> = Vec::new();
    let mut i: usize = 0;
    while i < members.len()
        invariant
            i <= members@.len(),
            keys@.len() == i,
            out_lens@.len() == i,
            forall|j: int|
                0 <= j < i ==> {
                    &&& (#[trigger] members@[j]).valid()
                    &&& keys@[j] == members@[j].key(k)
                    &&& out_lens@[j] == m * members@[j].n
                },
        decreases members@.len() - i,
    {
        let key = match members[i].check(k) {
            Some(key) => key,
            None => {
                assert(!members@[i as int].valid());
                return Err(STATUS_INVALID_ARGUMENT);
            },
        };
        let len: usize = match m.checked_mul(members[i].n) {
            Some(len) => len,
            None => {
                assert(m * members@[i as int].n > usize::MAX);
                return Err(STATUS_INVALID_ARGUMENT);
            },
        };
        keys.push(key);
        out_lens.push(len);
        i = i + 1;
    }
    let joined = ConcatKey { members: keys };
    assert(joined@ =~= members@.map_values(|q: QMatrix| q.key(k)));
    Ok(TileCall { target: MtileTarget::Concat { joined, m }, a_len, out_lens })
}

/// How many results of a stacked run are added before a null output stops it,
/// and the status to end with.
pub fn stacked_outputs(outputs: &[usize]) -> (r: (usize, i32))
    ensures
        r.0 <= outputs@.len(),
        forall|i: int| 0 <= i < r.0 ==> #[trigger] outputs@[i] != 0,
        r.1 == (if r.0 == outputs@.len() {
            STATUS_OK
        } else {
            STATUS_INVALID_ARGUMENT
        }),
        r.0 < outputs@.len() ==> outputs@[r.0 as int] == 0,
{
    let mut i: usize = 0;
    while i < outputs.len()
        invariant
            i <= outputs@.len(),
            forall|j: int| 0 <= j < i ==> #[trigger] outputs@[j] != 0,
        decreases outputs@.len() - i,
    {
        if outputs[i] == 0 {
            return (i, STATUS_INVALID_ARGUMENT);
        }
        i = i + 1;
    }
    (i, STATUS_OK)
}

/// The pieces of joined projections need no further cut of the same kind: a stack
/// is not stacked again, a tile is not cut into rows again, and a half is not
/// halved again.
pub proof fn law_joined_pieces_are_not_cut_again(
    mode: HiloMode,
    call: ConcatCall,
    plain: bool,
    chunks: Seq<RowChunk>,
    i: int,
)
    requires
        is_row_cut(chunks, call.m as int),
        0 <= i < chunks.len(),
    ensures
        !(concat_route(mode, call, true) is Hilo),
        !(concat_route(mode, ConcatCall { m: chunks[i].tile, ..call }, plain) is Rows),
        !(concat_route(mode, ConcatCall { m: 64, ..call }, plain) is Halves),
{
}

/// A scale is usable where its sign is clear, its exponent is not all ones, and it is
/// not zero.
pub proof fn law_usable_scales(bits: u32)
    ensures
        is_positive_finite(bits) <==> bits != 0 && bits < 0x8000_0000 && bits as int / 0x80_0000
            != 255,
        is_positive_finite(bits) ==> crate::quant::is_finite_pattern(bits),
{
}

/// A null pointer or an empty side is never taken, and nothing else is refused of a
/// call but what cannot be counted.
pub proof fn law_nulls_and_empty_sides_are_refused(
    shared: Shared,
    w8: W8Matrix,
    q: QMatrix,
    half: HalfCall,
)
    ensures
        shared.valid() <==> shared.context != 0 && shared.activations != 0 && shared.k != 0,
        w8.valid(shared.k) <==> w8.weights != 0 && w8.scales != 0 && w8.output != 0 && w8.n != 0
            && w8.n * shared.k <= usize::MAX,
        q.valid() <==> q.weights != 0 && q.output != 0 && q.n != 0 && (q.kind == 4 || q.kind == 6),
        half.valid() <==> half.context != 0 && half.weights != 0 && half.activations != 0
            && half.output != 0 && half.m != 0 && half.k != 0 && half.n != 0 && half.k * half.m
            <= usize::MAX && half.k * half.n <= usize::MAX && half.n * half.m <= usize::MAX,
{
    assert(w8.n * shared.k == shared.k * w8.n) by (nonlinear_arith);
    assert(half.k * half.m == half.m * half.k) by (nonlinear_arith);
    assert(half.k * half.n == half.n * half.k) by (nonlinear_arith);
    assert(half.n * half.m == half.m * half.n) by (nonlinear_arith);
}

/// A gated step and joined projections refuse every null pointer and empty side too;
/// one to four projections can be joined.
pub proof fn law_long_calls_refuse_nulls(gated: SwigluCall, joined: ConcatCall)
    ensures
        gated.valid() <==> gated.context != 0 && gated.gate_weights != 0 && gated.gate_scales != 0
            && gated.up_weights != 0 && gated.up_scales != 0 && gated.down_weights != 0
            && gated.down_scales != 0 && gated.activations != 0 && gated.output != 0
            && gated.projection_k != 0 && gated.ffn_n != 0 && gated.output_n != 0 && gated.ffn_n
            * gated.projection_k <= usize::MAX && gated.output_n * gated.ffn_n <= usize::MAX,
        joined.valid() <==> joined.context != 0 && 1 <= joined.count <= 4 && joined.weights != 0
            && joined.bytes != 0 && joined.kinds != 0 && joined.ns != 0 && joined.activations != 0
            && joined.outputs != 0 && joined.m != 0 && joined.k != 0 && joined.k * joined.m
            + joined.k * joined.m <= usize::MAX,
{
    assert(gated.ffn_n * gated.projection_k == gated.projection_k * gated.ffn_n)
        by (nonlinear_arith);
    assert(gated.output_n * gated.ffn_n == gated.ffn_n * gated.output_n) by (nonlinear_arith);
    assert(joined.k * joined.m == joined.m * joined.k) by (nonlinear_arith);
}

/// Weights are known by where they lie, how long they are, their shape and their
/// format. Eight-bit weights take a byte each.
pub proof fn law_weights_are_known_by_their_own_parts(w8: W8Matrix, q: QMatrix, k: usize)
    ensures
        w8.valid(k) ==> w8.key(k).bytes == w8.n * k,
        w8.key(k).address == w8.weights,
        w8.key(k).k == k,
        w8.key(k).n == w8.n,
        w8.key(k).kind == DecodeWeightKind::Q4K,
        q.key(k).address == q.weights,
        q.key(k).bytes == q.bytes,
        q.key(k).k == k,
        q.key(k).n == q.n,
        q.kind == 4 ==> q.key(k).kind == DecodeWeightKind::Q4K,
        q.kind == 6 ==> q.key(k).kind == DecodeWeightKind::Q6K,
{
    assert(w8.n * k == k * w8.n) by (nonlinear_arith);
}

/// A gated step projects the activations through the gating and through the up
/// weights, each with its own scales into its own buffer, and the gated values
/// through the down weights into the output of the call.
pub proof fn law_gated_steps_use_their_own_weights(
    call: SwigluCall,
    gate_out: usize,
    up_out: usize,
    gated: usize,
)
    ensures
        ({
            let (shared, gate, up) = call.gate_up(gate_out, up_out);
            let (after, down) = call.down(gated);
            &&& shared.context == call.context && after.context == call.context
            &&& shared.activations == call.activations && after.activations == gated
            &&& shared.k == call.projection_k && after.k == call.ffn_n
            &&& gate.weights == call.gate_weights && gate.scales == call.gate_scales
            &&& gate.output == gate_out && gate.n == call.ffn_n
            &&& up.weights == call.up_weights && up.scales == call.up_scales
            &&& up.output == up_out && up.n == call.ffn_n
            &&& down.weights == call.down_weights && down.scales == call.down_scales
            &&& down.output == call.output && down.n == call.output_n
        }),
{
}

/// A gated step goes on only after success, which is zero, and stays over once it is.
pub proof fn law_gated_steps_end_once(status: i32, over: i32)
    ensures
        swiglu_after(SwigluStage::GateUp, status) is GateDown <==> status == 0,
        swiglu_after(SwigluStage::GateDown, status) == (SwigluStage::Done { status }),
        swiglu_after(SwigluStage::Done { status: over }, status) == (SwigluStage::Done {
            status: over,
        }),
{
}

/// Joined projections are refused where the call is unusable and only there. What is
/// stacked has more than one row, none of its own residuals and twice the rows; what
/// runs at once has the height of a tile, and 128 rows of a K beyond 2048 are halved.
pub proof fn law_ways_of_joined_projections(mode: HiloMode, call: ConcatCall, plain: bool)
    ensures
        ({
            let way = concat_route(mode, call, plain);
            let tall = call.m == 4 || call.m == 8 || call.m == 12 || call.m == 16 || call.m == 32
                || call.m == 48 || call.m == 64 || call.m == 128;
            &&& way is Refused <==> !call.valid()
            &&& way is Refused ==> way->status == -1
            &&& way is Hilo ==> !plain && mode != HiloMode::Off && call.m >= 2 && way->rows == 2
                * call.m
            &&& call.valid() && !plain && call.m >= 2 && mode == HiloMode::All ==> way is Hilo
            &&& call.valid() && !plain && call.m >= 2 && mode == HiloMode::WideK ==> (way is Hilo
                <==> call.k > 4096)
            &&& way is Rows ==> !tall
            &&& way is Halves ==> call.m == 128 && call.k > 2048
            &&& way is Run ==> tall && !(call.m == 128 && call.k > 2048)
        }),
{
    if call.valid() {
        assert(call.m <= call.m * call.k) by (nonlinear_arith)
            requires
                call.k > 0,
        ;
    }
}

/// Members are usable together where each of them is by itself.
pub proof fn law_members_are_usable_one_by_one(
    members: Seq<QMatrix>,
    rest: Seq<QMatrix>,
    q: QMatrix,
    m: usize,
)
    ensures
        members_valid(seq![q], m) <==> q.valid() && q.n * m <= usize::MAX,
        members_valid(members + rest, m) <==> members_valid(members, m) && members_valid(rest, m),
{
    assert(q.n * m == m * q.n) by (nonlinear_arith);
    assert(seq![q][0] == q);
    let all = members + rest;
    if members_valid(all, m) {
        assert forall|i: int| 0 <= i < members.len() implies (#[trigger] members[i]).valid() && m
            * members[i].n <= usize::MAX by {
            assert(all[i] == members[i]);
        }
        assert forall|i: int| 0 <= i < rest.len() implies (#[trigger] rest[i]).valid() && m
            * rest[i].n <= usize::MAX by {
            assert(all[members.len() + i] == rest[i]);
        }
    }
    if members_valid(members, m) && members_valid(rest, m) {
        assert forall|i: int| 0 <= i < all.len() implies (#[trigger] all[i]).valid() && m
            * all[i].n <= usize::MAX by {
            if i < members.len() {
                assert(all[i] == members[i]);
            } else {
                assert(all[i] == rest[i - members.len()]);
            }
        }
    }
}

/// What is refused comes with the status of an invalid argument, which is minus one.
pub proof fn law_refusals_have_one_status<T>()
    ensures
        refused::<T>() is Err,
        refused::<T>()->Err_0 == -1,
{
}

/// Calls on two and on three matrices are about these matrices in their order, and
/// all of them share the activations and K of the call.
pub proof fn law_joined_calls_keep_the_order_of_their_matrices(
    shared: Shared,
    a: W8Matrix,
    b: W8Matrix,
    c: W8Matrix,
    two: Result<M1Target, i32>,
    three: Result<M1Target, i32>,
)
    requires
        call_ensures(rocknpu_matmul_w8a8_pair_f32_f32_m1, (&shared, &a, &b), two),
        call_ensures(rocknpu_matmul_w8a8_triple_f32_f32_m1, (&shared, &a, &b, &c), three),
    ensures
        three is Ok ==> two is Ok,
        two matches Ok(t) ==> {
            &&& t matches M1Target::Pair(key)
            &&& key.first.address == a.weights && key.first.n == a.n && key.first.k == shared.k
            &&& key.second.address == b.weights && key.second.n == b.n && key.second.k == shared.k
        },
        three matches Ok(t) ==> {
            &&& t matches M1Target::Triple(key)
            &&& key.first.address == a.weights && key.first.n == a.n
            &&& key.second.address == b.weights && key.second.n == b.n
            &&& key.third.address == c.weights && key.third.n == c.n && key.third.k == shared.k
        },
        two matches Err(e) ==> e == -1,
        three matches Err(e) ==> e == -1,
{
}

/// The same holds of quantized matrices, each in its own format.
pub proof fn law_joined_quantized_calls_keep_the_order_of_their_matrices(
    shared: Shared,
    a: QMatrix,
    b: QMatrix,
    c: QMatrix,
    two: Result<M1Target, i32>,
    three: Result<M1Target, i32>,
)
    requires
        call_ensures(rocknpu_matmul_q_pair_f32_f32_m1, (&shared, &a, &b), two),
        call_ensures(rocknpu_matmul_q_triple_f32_f32_m1, (&shared, &a, &b, &c), three),
    ensures
        three is Ok ==> two is Ok,
        two matches Ok(t) ==> {
            &&& t matches M1Target::Pair(key)
            &&& key.first.address == a.weights && key.first.bytes == a.bytes && key.first.n == a.n
            &&& key.second.address == b.weights && key.second.bytes == b.bytes && key.second.n
                == b.n
            &&& key.first.kind == DecodeWeightKind::Q4K <==> a.kind == 4
            &&& key.second.kind == DecodeWeightKind::Q4K <==> b.kind == 4
        },
        three matches Ok(t) ==> {
            &&& t matches M1Target::Triple(key)
            &&& key.first.address == a.weights && key.first.n == a.n
            &&& key.second.address == b.weights && key.second.n == b.n
            &&& key.third.address == c.weights && key.third.n == c.n
            &&& key.third.kind == DecodeWeightKind::Q4K <==> c.kind == 4
        },
{
}

/// The buffers of a half-precision product have as many elements as their sides say,
/// and every usable call gets them.
pub proof fn law_half_products_have_their_sizes(call: HalfCall, r: Result<ProductSizes, i32>)
    requires
        call_ensures(rocknpu_matmul_f16_f32_f32, (&call,), r),
    ensures
        r is Ok <==> call.valid(),
        r matches Ok(sizes) ==> {
            &&& sizes.a_len == call.m * call.k
            &&& sizes.b_len == call.n * call.k
            &&& sizes.out_len == call.m * call.n
        },
        r matches Err(e) ==> e == -1,
{
}

/// Weights that are prepared ahead are those of the call, and only whole blocks of a
/// known format are.
pub proof fn law_prepared_ahead_are_whole_blocks(
    context: usize,
    weights: usize,
    bytes: usize,
    kind: u32,
    k: usize,
    n: usize,
    r: Result<DecodeWeightKey, i32>,
)
    requires
        call_ensures(rocknpu_prewarm_quantized_m16, (context, weights, bytes, kind, k, n), r),
    ensures
        r matches Ok(key) ==> {
            &&& key.address == weights && key.bytes == bytes && key.k == k && key.n == n
            &&& kind == 4 || kind == 6
            &&& k % 256 == 0 && k > 0 && n > 0
            &&& context != 0 && weights != 0
            &&& kind == 4 ==> bytes == n * (k as int / 256) * 144
            &&& kind == 6 ==> bytes == n * (k as int / 256) * 210
        },
        r matches Err(e) ==> e == -1,
{
}

} // verus!
