//! The way a quantized matrix product takes: which kernel runs it, and where it
//! is cut or stacked first.

use crate::arith::{aligned, lemma_aligned, next_multiple};
use crate::decode_m1::{m1_accepts, M1Target};
use crate::decode_w4::{w4_accepts, W4Target, W4_MAX_K, W4_MAX_N};
use crate::keys::{
    DecodeWeightKey, DecodeWeightKind, GroupedKey, GroupedW4Key, Int8DecodeSplit, PoolW4Key,
};
use crate::mtile::{
    execute_padded_k_mtile, is_tile_height, mtile_accepts, padded_target, tile_height_supported,
    MtileTarget, MTILE_CORE_K, MTILE_GROUPED_ROWS, MTILE_MAX_N, MTILE_POOL_MAX_K, MTILE_POOL_MIN_N,
    MTILE_WIDE_MIN_N,
};
use crate::plan::{is_row_cut, split_wide_mtile, wide_split, RowChunk, WideSplit};
use crate::settings::{
    hilo_applies, hilo_needed, pick_qo_group, pick_w4_group, qo_group, w4_group, RouteSettings,
};
use crate::status::STATUS_INVALID_ARGUMENT;
use vstd::prelude::*;

verus! {

/// Weights that one quantized block holds.
pub const VALUES_PER_BLOCK: usize = 256;

/// Bytes of a Q4_K block.
pub const Q4_K_BLOCK_BYTES: usize = 144;

/// Bytes of a Q6_K block.
pub const Q6_K_BLOCK_BYTES: usize = 210;

/// Bytes of one block.
pub open spec fn block_bytes(kind: DecodeWeightKind) -> usize {
    match kind {
        DecodeWeightKind::Q4K => Q4_K_BLOCK_BYTES,
        DecodeWeightKind::Q6K => Q6_K_BLOCK_BYTES,
    }
}

/// Bytes of one block.
pub fn bytes_per_block(kind: DecodeWeightKind) -> (r: usize)
    ensures
        r == block_bytes(kind),
{
    match kind {
        DecodeWeightKind::Q4K => Q4_K_BLOCK_BYTES,
        DecodeWeightKind::Q6K => Q6_K_BLOCK_BYTES,
    }
}

/// Bytes of `n` quantized rows of `k` weights.
pub open spec fn quantized_bytes(kind: DecodeWeightKind, k: int, n: int) -> int {
    n * (k / VALUES_PER_BLOCK as int) * block_bytes(kind)
}

/// Bytes of `n` quantized rows of `k` weights, if they can be counted.
pub fn expected_bytes(kind: DecodeWeightKind, k: usize, n: usize) -> (r: Option<usize>)
    ensures
        match r {
            Some(bytes) => bytes == quantized_bytes(kind, k as int, n as int),
            None => quantized_bytes(kind, k as int, n as int) > usize::MAX,
        },
{
    let blocks_per_row: usize = k / VALUES_PER_BLOCK;
    match n.checked_mul(blocks_per_row) {
        Some(blocks) => blocks.checked_mul(bytes_per_block(kind)),
        None => {
            assert(quantized_bytes(kind, k as int, n as int) > usize::MAX) by (nonlinear_arith)
                requires
                    n * blocks_per_row > usize::MAX,
                    blocks_per_row == k as int / 256,
                    quantized_bytes(kind, k as int, n as int) == n * (k as int / 256)
                        * block_bytes(kind),
                    block_bytes(kind) >= 144,
            ;
            None
        },
    }
}

/// The arguments of a quantized matrix product. An address of zero is a null
/// pointer.
#[derive(Clone, Copy, Debug, PartialEq, Eq, Structural)]
pub struct QuantCall {
    pub context: usize,
    pub weights: usize,
    pub weights_bytes: usize,
    pub activations: usize,
    pub output: usize,
    pub m: usize,
    pub k: usize,
    pub n: usize,
}

/// What the context can do in four bits.
#[derive(Clone, Copy, Debug, PartialEq, Eq, Structural)]
pub struct W4Ability {
    pub enabled: bool,
    pub pool: bool,
}

/// The way a product takes.
pub enum QuantRoute {
    /// The call is refused.
    Refused { status: i32 },
    /// Rows and their residuals are stacked to `rows` rows, the stack is run
    /// with its own plan, and the two halves of the result are added.
    Hilo { rows: usize },
    /// The rows are cut into tiles, and each tile is run with its own plan.
    Rows,
    /// The product is cut in halves or column chunks, and each piece is run with
    /// its own plan.
    Wide { split: WideSplit },
    /// One row in four bits.
    W4 { w4: W4Target },
    /// One row in eight bits.
    Decode { decode: M1Target },
    /// A prompt tile; `padded` says that K is filled up with zeros first.
    Tile { tile: MtileTarget, padded: bool },
    /// A resident half-precision layout.
    Prefill { prefill: DecodeWeightKey },
    /// One half-precision product with nothing kept.
    Direct,
}

impl QuantCall {
    /// The identity of the weights.
    pub open spec fn key(self, kind: DecodeWeightKind) -> DecodeWeightKey {
        DecodeWeightKey {
            address: self.weights,
            bytes: self.weights_bytes,
            k: self.k,
            n: self.n,
            kind,
        }
    }

    /// No null pointer, no empty dimension, whole blocks, and buffers whose sizes
    /// can be counted and agree.
    pub open spec fn valid(self, kind: DecodeWeightKind) -> bool {
        &&& self.context != 0
        &&& self.weights != 0
        &&& self.activations != 0
        &&& self.output != 0
        &&& self.m > 0
        &&& self.k > 0
        &&& self.n > 0
        &&& self.k % VALUES_PER_BLOCK == 0
        &&& self.m * self.k <= usize::MAX
        &&& self.n * self.k <= usize::MAX
        &&& self.m * self.n <= usize::MAX
        &&& self.weights_bytes == quantized_bytes(kind, self.k as int, self.n as int)
    }

    /// Checks the arguments.
    pub fn check(&self, kind: DecodeWeightKind) -> (r: bool)
        ensures
            r == self.valid(kind),
    {
        if self.context == 0 || self.weights == 0 || self.activations == 0 || self.output == 0
            || self.m == 0 || self.k == 0 || self.n == 0 || self.k % VALUES_PER_BLOCK != 0 {
            return false;
        }
        let counted = self.m.checked_mul(self.k).is_some() && self.n.checked_mul(self.k).is_some()
            && self.m.checked_mul(self.n).is_some();
        counted && match expected_bytes(kind, self.k, self.n) {
            Some(bytes) => self.weights_bytes == bytes,
            None => false,
        }
    }

    fn weight_key(&self, kind: DecodeWeightKind) -> (key: DecodeWeightKey)
        ensures
            key == self.key(kind),
    {
        DecodeWeightKey {
            address: self.weights,
            bytes: self.weights_bytes,
            k: self.k,
            n: self.n,
            kind,
        }
    }
}

/// Whether a single row runs in four bits.
pub open spec fn runs_in_four_bits(
    s: RouteSettings,
    w4: W4Ability,
    kind: DecodeWeightKind,
    k: int,
    n: int,
) -> bool {
    &&& kind == DecodeWeightKind::Q4K
    &&& w4.enabled
    &&& s.w4a4_scope.includes(k, n)
    &&& k <= W4_MAX_K
    &&& n % 64 == 0
    &&& n <= W4_MAX_N
}

/// The route of a single row.
pub open spec fn row_route(
    s: RouteSettings,
    w4: W4Ability,
    kind: DecodeWeightKind,
    call: QuantCall,
) -> QuantRoute {
    let key = call.key(kind);
    if runs_in_four_bits(s, w4, kind, call.k as int, call.n as int) {
        QuantRoute::W4 {
            w4: match w4_group(s.w4a4_group, call.k as int) {
                Some(g) => if g == call.k && w4.pool {
                    W4Target::Pool(PoolW4Key { key, hadamard: s.w4a4_hadamard })
                } else {
                    W4Target::Grouped(
                        GroupedW4Key { key, group_size: g, hadamard: s.w4a4_hadamard },
                    )
                },
                None => W4Target::Plain(key),
            },
        }
    } else {
        QuantRoute::Decode { decode: M1Target::Single(key) }
    }
}

/// Whether K is filled up with zeros to a multiple of 512.
pub open spec fn takes_padded(s: RouteSettings, m: int, k: int, n: int) -> bool {
    &&& is_tile_height(m)
    &&& k % 512 != 0
    &&& aligned(k, 512) <= MTILE_POOL_MAX_K
    &&& n % 32 == 0
    &&& n <= MTILE_MAX_N
    &&& s.native_routes()
    &&& s.native_mtile_down
}

/// Whether K is cut across the cores.
pub open spec fn takes_k_split(s: RouteSettings, m: int, k: int, n: int) -> bool {
    &&& is_tile_height(m)
    &&& MTILE_CORE_K < k <= MTILE_POOL_MAX_K
    &&& k % 512 == 0
    &&& n % 32 == 0
    &&& n <= MTILE_MAX_N
    &&& s.native_mtile
    &&& s.native_mtile_down
    &&& s.mtile_persist
    &&& s.mtile_mc
    &&& s.tile_shape(k, n)
}

/// Whether one core's K limit and the tile width take the shape.
pub open spec fn fits_core(s: RouteSettings, k: int, n: int) -> bool {
    &&& k <= MTILE_CORE_K
    &&& k % 512 == 0
    &&& n % 32 == 0
    &&& n <= MTILE_MAX_N
    &&& s.tile_shape(k, n)
}

/// Whether the shape runs as a native tile of another height than sixteen.
pub open spec fn takes_native(s: RouteSettings, m: int, k: int, n: int) -> bool {
    &&& is_tile_height(m)
    &&& m != MTILE_GROUPED_ROWS
    &&& s.native_mtile
    &&& s.mtile_persist
    &&& fits_core(s, k, n)
}

/// The route of a batch of rows that is neither stacked nor cut.
pub open spec fn batch_route(
    s: RouteSettings,
    kind: DecodeWeightKind,
    call: QuantCall,
) -> QuantRoute {
    let key = call.key(kind);
    let (m, k, n) = (call.m as int, call.k as int, call.n as int);
    if takes_padded(s, m, k, n) {
        QuantRoute::Tile { tile: padded_target(key, call.m), padded: true }
    } else if takes_k_split(s, m, k, n) {
        QuantRoute::Tile {
            tile: MtileTarget::Pool { key, m: call.m, split: Int8DecodeSplit::K },
            padded: false,
        }
    } else if takes_native(s, m, k, n) {
        QuantRoute::Tile {
            tile: if s.mtile_mc && n >= MTILE_POOL_MIN_N {
                MtileTarget::Pool { key, m: call.m, split: Int8DecodeSplit::N }
            } else {
                MtileTarget::Tile { key, m: call.m }
            },
            padded: false,
        }
    } else if m == MTILE_GROUPED_ROWS && fits_core(s, k, n) {
        QuantRoute::Tile {
            tile: match qo_group(s.mtile_qo_group, k, n) {
                Some(g) => if s.mtile_mc {
                    MtileTarget::GroupedPool { grouped: GroupedKey { key, group_size: g } }
                } else {
                    MtileTarget::Grouped { grouped: GroupedKey { key, group_size: g } }
                },
                None => if s.mtile_mc && n >= MTILE_WIDE_MIN_N {
                    MtileTarget::Pool { key, m: call.m, split: Int8DecodeSplit::N }
                } else {
                    MtileTarget::Tile { key, m: call.m }
                },
            },
            padded: false,
        }
    } else if s.prefill_cache {
        QuantRoute::Prefill { prefill: key }
    } else {
        QuantRoute::Direct
    }
}

/// The way a product takes. `plain` says that the rows must not be stacked with
/// their residuals, because they already are or have none.
pub open spec fn quant_route(
    s: RouteSettings,
    w4: W4Ability,
    kind: DecodeWeightKind,
    call: QuantCall,
    plain: bool,
) -> QuantRoute {
    let (m, k, n) = (call.m as int, call.k as int, call.n as int);
    if !call.valid(kind) {
        QuantRoute::Refused { status: STATUS_INVALID_ARGUMENT }
    } else if m == 1 {
        row_route(s, w4, kind, call)
    } else if s.native_routes() && hilo_applies(s.prefill_hilo, m, k, m * k, plain) {
        QuantRoute::Hilo { rows: (2 * m) as usize }
    } else if s.native_routes() && !is_tile_height(m) {
        QuantRoute::Rows
    } else if s.native_routes() && wide_split(m, k, n, call.weights_bytes as int)
        != WideSplit::Whole {
        QuantRoute::Wide { split: wide_split(m, k, n, call.weights_bytes as int) }
    } else {
        batch_route(s, kind, call)
    }
}

fn route_row(
    s: &RouteSettings,
    w4: W4Ability,
    kind: DecodeWeightKind,
    call: &QuantCall,
) -> (r: QuantRoute)
    ensures
        r == row_route(*s, w4, kind, *call),
{
    let key = call.weight_key(kind);
    if kind == DecodeWeightKind::Q4K && w4.enabled && s.w4a4_scope.contains(call.k, call.n)
        && call.k <= W4_MAX_K && call.n % 64 == 0 && call.n <= W4_MAX_N {
        match pick_w4_group(s.w4a4_group, call.k) {
            Some(g) => {
                if g == call.k && w4.pool {
                    QuantRoute::W4 {
                        w4: W4Target::Pool(PoolW4Key { key, hadamard: s.w4a4_hadamard }),
                    }
                } else {
                    QuantRoute::W4 {
                        w4: W4Target::Grouped(
                            GroupedW4Key { key, group_size: g, hadamard: s.w4a4_hadamard },
                        ),
                    }
                }
            },
            None => QuantRoute::W4 { w4: W4Target::Plain(key) },
        }
    } else {
        QuantRoute::Decode { decode: M1Target::Single(key) }
    }
}

fn route_batch(s: &RouteSettings, kind: DecodeWeightKind, call: &QuantCall) -> (r: QuantRoute)
    requires
        call.valid(kind),
    ensures
        r == batch_route(*s, kind, *call),
{
    let key = call.weight_key(kind);
    let (m, k, n): (usize, usize, usize) = (call.m, call.k, call.n);
    let tiled = tile_height_supported(m);
    let columns = n % 32 == 0 && n <= MTILE_MAX_N;
    if tiled && k % 512 != 0 && columns && s.native_mtile_routes_enabled() && s.native_mtile_down {
        if let Some(kp) = next_multiple(k, 512) {
            if kp <= MTILE_POOL_MAX_K {
                let a_len: usize = m * k;
                if let Ok(tile) = execute_padded_k_mtile(&key, m, a_len) {
                    return QuantRoute::Tile { tile, padded: true };
                }
            }
        }
    }
    if tiled && k > MTILE_CORE_K && k <= MTILE_POOL_MAX_K && k % 512 == 0 && columns
        && s.native_mtile && s.native_mtile_down && s.mtile_persist && s.mtile_mc
        && s.tile_shape_enabled(k, n) {
        return QuantRoute::Tile {
            tile: MtileTarget::Pool { key, m, split: Int8DecodeSplit::K },
            padded: false,
        };
    }
    let fits = k <= MTILE_CORE_K && k % 512 == 0 && columns && s.tile_shape_enabled(k, n);
    if tiled && m != MTILE_GROUPED_ROWS && s.native_mtile && s.mtile_persist && fits {
        let tile = if s.mtile_mc && n >= MTILE_POOL_MIN_N {
            MtileTarget::Pool { key, m, split: Int8DecodeSplit::N }
        } else {
            MtileTarget::Tile { key, m }
        };
        return QuantRoute::Tile { tile, padded: false };
    }
    if m == MTILE_GROUPED_ROWS && fits {
        let tile = match pick_qo_group(s.mtile_qo_group, k, n) {
            Some(g) => {
                let grouped = GroupedKey { key, group_size: g };
                if s.mtile_mc {
                    MtileTarget::GroupedPool { grouped }
                } else {
                    MtileTarget::Grouped { grouped }
                }
            },
            None => {
                if s.mtile_mc && n >= MTILE_WIDE_MIN_N {
                    MtileTarget::Pool { key, m, split: Int8DecodeSplit::N }
                } else {
                    MtileTarget::Tile { key, m }
                }
            },
        };
        return QuantRoute::Tile { tile, padded: false };
    }
    if s.prefill_cache {
        QuantRoute::Prefill { prefill: key }
    } else {
        QuantRoute::Direct
    }
}

/// Decides the way a product takes.
pub fn route_quantized(
    s: &RouteSettings,
    w4: W4Ability,
    kind: DecodeWeightKind,
    call: &QuantCall,
    plain: bool,
) -> (r: QuantRoute)
    ensures
        r == quant_route(*s, w4, kind, *call, plain),
{
    if !call.check(kind) {
        return QuantRoute::Refused { status: STATUS_INVALID_ARGUMENT };
    }
    if call.m == 1 {
        return route_row(s, w4, kind, call);
    }
    if s.native_mtile_routes_enabled() {
        let a_len: usize = call.m * call.k;
        if hilo_needed(s.prefill_hilo, call.m, call.k, a_len, plain) {
            assert(2 * call.m <= call.m * call.k) by (nonlinear_arith)
                requires
                    call.k >= 256,
                    call.m > 0,
            ;
            return QuantRoute::Hilo { rows: 2 * call.m };
        }
        if !tile_height_supported(call.m) {
            return QuantRoute::Rows;
        }
        let split = split_wide_mtile(call.m, call.k, call.n, call.weights_bytes);
        if split != WideSplit::Whole {
            return QuantRoute::Wide { split };
        }
    }
    route_batch(s, kind, call)
}

/// Runs C[M,N] = A[M,K] x B[N,K]^T with Q4_K weights: decides the way the
/// product takes.
pub fn rocknpu_matmul_q4_k_f32_f32(
    s: &RouteSettings,
    w4: W4Ability,
    call: &QuantCall,
    plain: bool,
) -> (r: QuantRoute)
    ensures
        r == quant_route(*s, w4, DecodeWeightKind::Q4K, *call, plain),
{
    route_quantized(s, w4, DecodeWeightKind::Q4K, call, plain)
}

/// Runs C[M,N] = A[M,K] x B[N,K]^T with Q6_K weights: decides the way the
/// product takes.
pub fn rocknpu_matmul_q6_k_f32_f32(
    s: &RouteSettings,
    w4: W4Ability,
    call: &QuantCall,
    plain: bool,
) -> (r: QuantRoute)
    ensures
        r == quant_route(*s, w4, DecodeWeightKind::Q6K, *call, plain),
{
    route_quantized(s, w4, DecodeWeightKind::Q6K, call, plain)
}

/// A stack of rows and residuals is not stacked again.
pub proof fn law_a_stack_is_not_stacked(
    s: RouteSettings,
    w4: W4Ability,
    kind: DecodeWeightKind,
    call: QuantCall,
)
    ensures
        !(quant_route(s, w4, kind, call, true) is Hilo),
{
}

/// A tile of a row cut is not cut into rows again, and is high enough for the
/// rows it stands for.
pub proof fn law_row_tiles_are_not_cut_again(
    s: RouteSettings,
    w4: W4Ability,
    kind: DecodeWeightKind,
    call: QuantCall,
    chunks: Seq<RowChunk>,
    i: int,
    plain: bool,
)
    requires
        quant_route(s, w4, kind, call, plain) is Rows,
        is_row_cut(chunks, call.m as int),
        0 <= i < chunks.len(),
    ensures
        chunks[i].rows <= chunks[i].tile,
        !(quant_route(s, w4, kind, QuantCall { m: chunks[i].tile, ..call }, plain) is Rows),
{
}

/// A 64-row half is not cut in halves again, and a column chunk that fits a tile
/// is not cut at all.
pub proof fn law_wide_pieces_are_not_cut_again(
    s: RouteSettings,
    w4: W4Ability,
    kind: DecodeWeightKind,
    call: QuantCall,
    piece: QuantCall,
    plain: bool,
)
    requires
        quant_route(s, w4, kind, call, plain) is Wide,
        piece.k == call.k,
        quant_route(s, w4, kind, call, plain)->split is Halves ==> piece.m == 64,
        quant_route(s, w4, kind, call, plain)->split is Columns ==> piece.m == call.m && 0 < piece.n
            <= quant_route(s, w4, kind, call, plain)->split->per,
    ensures
        quant_route(s, w4, kind, call, plain)->split is Halves ==> quant_route(
            s,
            w4,
            kind,
            piece,
            plain,
        ) != (QuantRoute::Wide { split: WideSplit::Halves }),
        quant_route(s, w4, kind, call, plain)->split is Columns ==> !(quant_route(
            s,
            w4,
            kind,
            piece,
            plain,
        ) is Wide),
{
    if quant_route(s, w4, kind, call, plain)->split is Columns {
        crate::plan::law_chunks_fit_a_tile(call.n as int);
    }
}

/// A tile that a product is sent to takes it, except for one single group over
/// all of K, which the grouped tiles refuse.
pub proof fn law_routed_tiles_are_taken(
    s: RouteSettings,
    w4: W4Ability,
    kind: DecodeWeightKind,
    call: QuantCall,
    plain: bool,
    a_len: usize,
    direct_enabled: bool,
)
    requires
        quant_route(s, w4, kind, call, plain) is Tile,
        s.mtile_qo_group != Some(2048usize),
        a_len == call.m * (if quant_route(s, w4, kind, call, plain)->padded {
            aligned(call.k as int, 512)
        } else {
            call.k as int
        }),
    ensures
        mtile_accepts(
            quant_route(s, w4, kind, call, plain)->tile,
            a_len,
            seq![(call.m * call.n) as usize],
            direct_enabled,
        ),
{
    let tile = quant_route(s, w4, kind, call, plain)->tile;
    let outs = seq![(call.m * call.n) as usize];
    assert(outs.len() == 1 && outs[0] == call.m * call.n);
    lemma_aligned(call.k as int, 512);
    match tile {
        MtileTarget::Grouped { grouped } | MtileTarget::GroupedPool { grouped } => {
            let g = grouped.group_size;
            assert(g == 512 || g == 1024 || g == 1536 || g == 2048);
            assert(2048int % 1536 == 512);
            assert(2048int / 512 == 4 && 2048int / 1024 == 2);
        },
        _ => {},
    }
}

/// A four-bit call that a row is sent to takes it.
pub proof fn law_routed_four_bit_rows_are_taken(
    s: RouteSettings,
    w4: W4Ability,
    kind: DecodeWeightKind,
    call: QuantCall,
    plain: bool,
)
    requires
        quant_route(s, w4, kind, call, plain) is W4,
    ensures
        w4_accepts(quant_route(s, w4, kind, call, plain)->w4, call.k as int, call.n as int),
{
}

/// An eight-bit row is taken exactly where K comes in multiples of 512, the
/// columns in multiples of 32, and there are no more than 8192 of them.
pub proof fn law_routed_rows_are_taken(
    s: RouteSettings,
    w4: W4Ability,
    kind: DecodeWeightKind,
    call: QuantCall,
    plain: bool,
)
    requires
        quant_route(s, w4, kind, call, plain) is Decode,
    ensures
        m1_accepts(
            quant_route(s, w4, kind, call, plain)->decode,
            call.k as int,
            seq![call.n],
        ) == (call.k % 512 == 0 && call.n % 32 == 0 && call.n <= 8192),
{
    let target = quant_route(s, w4, kind, call, plain)->decode;
    assert(target.members()[0] == call.key(kind));
    assert(seq![call.n][0] == call.n);
}

/// Where no row runs in four bits, both formats take the same way.
pub proof fn law_formats_take_the_same_way(
    s: RouteSettings,
    q4: QuantCall,
    q6: QuantCall,
    plain: bool,
    pool: bool,
)
    requires
        q4.valid(DecodeWeightKind::Q4K),
        q6.valid(DecodeWeightKind::Q6K),
        q4.m == q6.m,
        q4.k == q6.k,
        q4.n == q6.n,
    ensures
        ({
            let off = W4Ability { enabled: false, pool };
            let a = quant_route(s, off, DecodeWeightKind::Q4K, q4, plain);
            let b = quant_route(s, off, DecodeWeightKind::Q6K, q6, plain);
            &&& a is Hilo == b is Hilo
            &&& a is Rows == b is Rows
            &&& a is Wide == b is Wide
            &&& a is Decode == b is Decode
            &&& a is Tile == b is Tile
            &&& a is Tile ==> a->padded == b->padded
            &&& a is Prefill == b is Prefill
            &&& a is Direct == b is Direct
        }),
{
    let n = q4.n as int;
    let blocks = q4.k as int / 256;
    lemma_rows_share_bytes(n, blocks * 144);
    lemma_rows_share_bytes(n, blocks * 210);
    assert(n * blocks * 144 == n * (blocks * 144)) by (nonlinear_arith);
    assert(n * blocks * 210 == n * (blocks * 210)) by (nonlinear_arith);
}

proof fn lemma_rows_share_bytes(n: int, row: int)
    requires
        n > 0,
    ensures
        (n * row) % n == 0,
{
    vstd::arithmetic::div_mod::lemma_mod_multiples_basic(row, n);
    assert(n * row == row * n) by (nonlinear_arith);
}

/// A product is refused exactly where a pointer is null, a dimension is empty, K is
/// no whole number of blocks, a buffer cannot be counted, or the weights are not
/// as many bytes as their blocks take: 144 for 256 weights of Q4_K, 210 of Q6_K.
pub proof fn law_refused_products(
    s: RouteSettings,
    w4: W4Ability,
    kind: DecodeWeightKind,
    call: QuantCall,
    plain: bool,
)
    ensures
        quant_route(s, w4, kind, call, plain) is Refused <==> {
            ||| call.context == 0 || call.weights == 0 || call.activations == 0 || call.output == 0
            ||| call.m == 0 || call.k == 0 || call.n == 0
            ||| call.k % 256 != 0
            ||| call.m * call.k > usize::MAX || call.n * call.k > usize::MAX || call.m * call.n
                > usize::MAX
            ||| call.weights_bytes != call.n * (call.k as int / 256) * (if kind
                == DecodeWeightKind::Q4K {
                144int
            } else {
                210
            })
        },
        quant_route(s, w4, kind, call, plain) is Refused ==> quant_route(s, w4, kind, call, plain)
            == (QuantRoute::Refused { status: STATUS_INVALID_ARGUMENT }),
{
}

/// A product runs in four bits only as a single Q4_K row, where the context can do
/// it and the scope includes the shape; so never where the scope is empty, and
/// within a scope other than all only for K of 2048.
pub proof fn law_four_bits_only_within_the_scope(
    s: RouteSettings,
    w4: W4Ability,
    kind: DecodeWeightKind,
    call: QuantCall,
    plain: bool,
)
    requires
        quant_route(s, w4, kind, call, plain) is W4,
    ensures
        s.w4a4_scope.includes(call.k as int, call.n as int),
        s.w4a4_scope != crate::settings::W4Scope::Nothing,
        s.w4a4_scope == crate::settings::W4Scope::Kv ==> call.k == 2048 && call.n == 256,
        s.w4a4_scope == crate::settings::W4Scope::Ffn ==> call.k == 2048 && call.n == 5632,
        s.w4a4_scope == crate::settings::W4Scope::Proj2048 ==> call.k == 2048 && call.n == 2048,
        s.w4a4_scope == crate::settings::W4Scope::Attn ==> call.k == 2048 && (call.n == 256
            || call.n == 2048),
        w4.enabled,
        kind == DecodeWeightKind::Q4K,
        call.m == 1,
        call.k <= 10752,
        call.n <= 8192,
        call.n % 64 == 0,
{
}

/// Every single row runs in four bits where it may, and in eight bits otherwise;
/// rows of Q6_K always run in eight bits.
pub proof fn law_single_rows_take_the_fewest_bits(
    s: RouteSettings,
    w4: W4Ability,
    kind: DecodeWeightKind,
    call: QuantCall,
    plain: bool,
)
    requires
        call.valid(kind),
    ensures
        call.m == 1 <==> quant_route(s, w4, kind, call, plain) is W4 || quant_route(
            s,
            w4,
            kind,
            call,
            plain,
        ) is Decode,
        call.m == 1 && kind == DecodeWeightKind::Q4K && w4.enabled && s.w4a4_scope.includes(
            call.k as int,
            call.n as int,
        ) && call.k <= 10752 && call.n <= 8192 && call.n % 64 == 0 ==> quant_route(
            s,
            w4,
            kind,
            call,
            plain,
        ) is W4,
        call.m == 1 && (kind == DecodeWeightKind::Q6K || !w4.enabled) ==> quant_route(
            s,
            w4,
            kind,
            call,
            plain,
        ) is Decode,
{
}

/// Four-bit rows run on the call's own weights. A group that fills K runs on the
/// pool where there is one, any other group on its own, and rows are transformed
/// exactly where that is switched on.
pub proof fn law_four_bit_rows_run_on_their_own_weights(
    s: RouteSettings,
    w4: W4Ability,
    kind: DecodeWeightKind,
    call: QuantCall,
    plain: bool,
)
    requires
        quant_route(s, w4, kind, call, plain) is W4,
    ensures
        ({
            let target = quant_route(s, w4, kind, call, plain)->w4;
            let group = w4_group(s.w4a4_group, call.k as int);
            let key = match target {
                W4Target::Plain(key) => key,
                W4Target::Grouped(g) => g.key,
                W4Target::Pool(p) => p.key,
            };
            &&& key.address == call.weights && key.bytes == call.weights_bytes
            &&& key.k == call.k && key.n == call.n && key.kind == kind
            &&& target is Plain <==> group is None
            &&& target is Pool <==> group == Some(call.k) && w4.pool
            &&& target matches W4Target::Grouped(g) ==> Some(g.group_size) == s.w4a4_group
                && g.hadamard == s.w4a4_hadamard
            &&& target matches W4Target::Pool(p) ==> p.hadamard == s.w4a4_hadamard
        }),
{
}

/// Whatever keeps weights resident keeps the call's own: the same address, size,
/// shape and format, but for a K that is filled up to the next multiple of 512.
pub proof fn law_products_run_on_their_own_weights(
    s: RouteSettings,
    w4: W4Ability,
    kind: DecodeWeightKind,
    call: QuantCall,
    plain: bool,
)
    ensures
        ({
            let route = quant_route(s, w4, kind, call, plain);
            let own = |key: DecodeWeightKey|
                key.address == call.weights && key.bytes == call.weights_bytes && key.n == call.n
                    && key.kind == kind;
            &&& route matches QuantRoute::Decode { decode } ==> decode is Single && own(decode->Single_0)
                && decode->Single_0.k == call.k
            &&& route matches QuantRoute::Prefill { prefill } ==> own(prefill) && prefill.k
                == call.k
            &&& route matches QuantRoute::Tile { tile, padded } ==> {
                &&& tile.spec_rows() == call.m
                &&& !padded ==> tile.spec_k() == call.k
                &&& padded ==> tile.spec_k() % 512 == 0 && call.k < tile.spec_k() < call.k + 512
                &&& match tile {
                    MtileTarget::Tile { key, .. } => own(key),
                    MtileTarget::Pool { key, .. } => own(key),
                    MtileTarget::Grouped { grouped } => own(grouped.key),
                    MtileTarget::GroupedPool { grouped } => own(grouped.key),
                    _ => false,
                }
            }
        }),
{
    lemma_aligned(call.k as int, 512);
}

/// The cores share K exactly where one core does not take it: a tile that shares K
/// has more than 4096 of it and no more than three times that, any other tile at
/// most 4096.
pub proof fn law_long_k_is_shared_by_the_cores(
    s: RouteSettings,
    w4: W4Ability,
    kind: DecodeWeightKind,
    call: QuantCall,
    plain: bool,
)
    requires
        quant_route(s, w4, kind, call, plain) is Tile,
    ensures
        ({
            let tile = quant_route(s, w4, kind, call, plain)->tile;
            let k = tile.spec_k();
            let shares_k = tile matches MtileTarget::Pool { split, .. } && split
                == Int8DecodeSplit::K;
            &&& shares_k <==> k > 4096
            &&& k <= 12288
            &&& k % 512 == 0
            &&& call.n % 32 == 0 && call.n <= 8192
            &&& is_tile_height(call.m as int)
        }),
{
    lemma_aligned(call.k as int, 512);
}

/// Prompt batches run as tiles only where the switches say so: a filled-up K and a
/// long K need the native routes for down projections, a tile of other than
/// sixteen rows needs the native tiles, and every tile whose K is not filled up
/// needs its shape to be enabled.
pub proof fn law_tiles_need_their_switches(
    s: RouteSettings,
    w4: W4Ability,
    kind: DecodeWeightKind,
    call: QuantCall,
    plain: bool,
)
    requires
        quant_route(s, w4, kind, call, plain) is Tile,
    ensures
        s.w8_mtile,
        ({
            let padded = quant_route(s, w4, kind, call, plain)->padded;
            let tile = quant_route(s, w4, kind, call, plain)->tile;
            &&& padded <==> call.k % 512 != 0
            &&& padded ==> s.native_routes() && s.native_mtile_down
            &&& !padded ==> s.tile_shape(call.k as int, call.n as int)
            &&& call.m != 16 || call.k > 4096 ==> s.native_mtile && s.mtile_persist
            &&& call.k > 4096 ==> s.native_mtile_down && s.mtile_mc
            &&& tile is Pool || tile is GroupedPool ==> s.mtile_mc
            &&& tile is Grouped || tile is GroupedPool ==> call.m == 16 && call.k == 2048 && call.n
                == 2048
        }),
{
    lemma_aligned(call.k as int, 512);
}

/// Tiles are spread over the cores where they are wide enough and more than one
/// core is used: from 768 columns on, and for sixteen rows of a K that is not
/// filled up from 2048 on.
pub proof fn law_wide_tiles_are_spread(
    s: RouteSettings,
    w4: W4Ability,
    kind: DecodeWeightKind,
    call: QuantCall,
    plain: bool,
)
    requires
        quant_route(s, w4, kind, call, plain) is Tile,
    ensures
        ({
            let tile = quant_route(s, w4, kind, call, plain)->tile;
            let padded = quant_route(s, w4, kind, call, plain)->padded;
            let wide: int = if call.m == 16 && !padded {
                2048
            } else {
                768
            };
            tile.spec_k() <= 4096 ==> {
                &&& tile is Tile ==> !s.mtile_mc || call.n < wide
                &&& tile is Pool ==> call.n >= wide
            }
        }),
{
    lemma_aligned(call.k as int, 512);
}

/// Sixteen rows of a square 2048 projection run in the groups that were asked for.
pub proof fn law_square_projections_run_in_groups(
    s: RouteSettings,
    w4: W4Ability,
    kind: DecodeWeightKind,
    call: QuantCall,
    plain: bool,
)
    requires
        quant_route(s, w4, kind, call, plain) is Tile,
        call.m == 16,
    ensures
        ({
            let tile = quant_route(s, w4, kind, call, plain)->tile;
            let group = qo_group(s.mtile_qo_group, call.k as int, call.n as int);
            &&& tile is Grouped || tile is GroupedPool <==> group is Some
            &&& tile is GroupedPool <==> group is Some && s.mtile_mc
            &&& tile matches MtileTarget::Grouped { grouped } ==> Some(grouped.group_size) == group
            &&& tile matches MtileTarget::GroupedPool { grouped } ==> Some(grouped.group_size)
                == group
        }),
{
    lemma_aligned(call.k as int, 512);
}

/// Whether half-precision layouts are kept decides between the two half-precision
/// ways and nothing else: what runs in fewer bits does so either way.
pub proof fn law_kept_layouts_only_replace_direct_products(
    s: RouteSettings,
    w4: W4Ability,
    kind: DecodeWeightKind,
    call: QuantCall,
    plain: bool,
)
    ensures
        ({
            let kept = quant_route(
                RouteSettings { prefill_cache: true, ..s },
                w4,
                kind,
                call,
                plain,
            );
            let direct = quant_route(
                RouteSettings { prefill_cache: false, ..s },
                w4,
                kind,
                call,
                plain,
            );
            &&& !(kept is Direct)
            &&& !(direct is Prefill)
            &&& kept is Prefill <==> direct is Direct
            &&& !(kept is Prefill) ==> kept == direct
        }),
{
}

/// Batches are stacked, cut into rows or cut in pieces only on the native routes,
/// in this order: rows and their residuals are stacked to twice as many rows, a
/// height that the device does not run is cut into tiles, and then what is too
/// wide, or too long for 128 rows, is cut in pieces.
pub proof fn law_batches_are_prepared_for_the_device(
    s: RouteSettings,
    w4: W4Ability,
    kind: DecodeWeightKind,
    call: QuantCall,
    plain: bool,
)
    requires
        call.valid(kind),
    ensures
        ({
            let route = quant_route(s, w4, kind, call, plain);
            let prepared = route is Hilo || route is Rows || route is Wide;
            let stacked = s.native_routes() && !plain && call.m > 1 && (s.prefill_hilo
                == crate::settings::HiloMode::All || (s.prefill_hilo
                == crate::settings::HiloMode::WideK && call.k > 4096));
            let runs = is_tile_height(call.m as int);
            &&& prepared ==> s.native_routes() && call.m > 1
            &&& route is Hilo <==> stacked
            &&& route matches QuantRoute::Hilo { rows } ==> rows == 2 * call.m
            &&& route is Rows <==> s.native_routes() && call.m > 1 && !stacked && !runs
            &&& route is Wide ==> !stacked && runs
            &&& s.native_routes() && !stacked && runs && call.m == 128 && (2048 < call.k <= 4096
                || call.k > 6144) ==> route == (QuantRoute::Wide { split: WideSplit::Halves })
            &&& s.native_routes() && !stacked && runs && call.n > 8192 && call.n % 32 == 0
                ==> route is Wide
        }),
{
    let n = call.n as int;
    let blocks = call.k as int / 256;
    lemma_rows_share_bytes(n, blocks * 144);
    lemma_rows_share_bytes(n, blocks * 210);
    assert(n * blocks * 144 == n * (blocks * 144)) by (nonlinear_arith);
    assert(n * blocks * 210 == n * (blocks * 210)) by (nonlinear_arith);
    assert(2 * call.m <= call.m * call.k) by (nonlinear_arith)
        requires
            call.k >= 2,
            call.m > 0,
    ;
}

/// Every sixteen-row tile whose shape is enabled runs as a tile, and on the native
/// routes so does every other height: nothing that the tiles take falls back to
/// half precision.
pub proof fn law_enabled_shapes_run_as_tiles(
    s: RouteSettings,
    w4: W4Ability,
    kind: DecodeWeightKind,
    call: QuantCall,
)
    requires
        call.valid(kind),
        is_tile_height(call.m as int),
        call.k % 512 == 0,
        call.n % 32 == 0,
        call.n <= 8192,
        call.k <= 4096,
        call.m == 128 ==> call.k <= 2048,
        s.tile_shape(call.k as int, call.n as int),
        call.m == 16 || (s.native_mtile && s.mtile_persist),
    ensures
        quant_route(s, w4, kind, call, true) is Tile,
{
}

/// What was prepared ahead is what a sixteen-row call runs on, where no groups are
/// asked for.
pub proof fn law_prepared_ahead_is_what_runs(
    s: RouteSettings,
    w4: W4Ability,
    kind: DecodeWeightKind,
    call: QuantCall,
    plain: bool,
    shape_enabled: bool,
)
    requires
        call.m == 16,
        s.mtile_qo_group is None,
        quant_route(s, w4, kind, call, plain) is Tile,
        crate::mtile::prewarm_target(call.key(kind), shape_enabled, s.mtile_mc) is Some,
    ensures
        crate::mtile::same_weights(
            quant_route(s, w4, kind, call, plain)->tile,
            crate::mtile::prewarm_target(call.key(kind), shape_enabled, s.mtile_mc)->0,
        ),
{
}

/// A K beyond one core's 4096, up to 12288, runs cut along K across the cores where
/// the shape and the switches for it are on.
pub proof fn law_enabled_long_k_runs_as_tiles(
    s: RouteSettings,
    w4: W4Ability,
    kind: DecodeWeightKind,
    call: QuantCall,
)
    requires
        call.valid(kind),
        is_tile_height(call.m as int),
        call.k % 512 == 0,
        call.n % 32 == 0,
        call.n <= 8192,
        4096 < call.k <= 12288,
        call.m == 128 ==> call.k <= 6144,
        s.tile_shape(call.k as int, call.n as int),
        s.native_mtile && s.native_mtile_down && s.mtile_persist && s.mtile_mc,
    ensures
        ({
            let way = quant_route(s, w4, kind, call, true);
            &&& way is Tile && !way->padded
            &&& way->tile matches MtileTarget::Pool { key, m, split }
            &&& key.address == call.weights && key.k == call.k && key.n == call.n
            &&& m == call.m
            &&& split == Int8DecodeSplit::K
        }),
{
}

/// A K of whole blocks that is no multiple of 512 is filled up and runs as a tile
/// where the native routes and down projections are on.
pub proof fn law_uneven_k_is_filled_up(
    s: RouteSettings,
    w4: W4Ability,
    kind: DecodeWeightKind,
    call: QuantCall,
)
    requires
        call.valid(kind),
        is_tile_height(call.m as int),
        call.k % 512 != 0,
        call.k <= 12032,
        call.n % 32 == 0,
        call.n <= 8192,
        call.m == 128 ==> call.k <= 2048 || 4096 < call.k <= 6144,
        s.native_routes() && s.native_mtile_down,
    ensures
        ({
            let way = quant_route(s, w4, kind, call, true);
            &&& way is Tile && way->padded
            &&& call.k < way->tile.spec_k() < call.k + 512
            &&& way->tile.spec_k() % 512 == 0
        }),
{
    lemma_aligned(call.k as int, 512);
}

/// A product is sent to four bits only where the scope has its shape, and each of
/// the two entries sends weights of its own format.
pub proof fn law_entries_send_four_bits_within_the_scope(
    s: RouteSettings,
    w4: W4Ability,
    call: QuantCall,
    plain: bool,
    four: QuantRoute,
    six: QuantRoute,
)
    requires
        call_ensures(rocknpu_matmul_q4_k_f32_f32, (&s, w4, &call, plain), four),
        call_ensures(rocknpu_matmul_q6_k_f32_f32, (&s, w4, &call, plain), six),
    ensures
        four is W4 ==> s.w4a4_scope.includes(call.k as int, call.n as int) && w4.enabled
            && s.w4a4_scope != crate::settings::W4Scope::Nothing,
        !(six is W4),
        four matches QuantRoute::Prefill { prefill } ==> prefill.kind == DecodeWeightKind::Q4K,
        six matches QuantRoute::Prefill { prefill } ==> prefill.kind == DecodeWeightKind::Q6K,
        four is Decode ==> (four->decode matches M1Target::Single(key) && key.kind
            == DecodeWeightKind::Q4K),
        six is Decode ==> (six->decode matches M1Target::Single(key) && key.kind
            == DecodeWeightKind::Q6K),
{
}

} // verus!
