//! Running a cut product piece by piece.
//!
//! Pieces run in order, and the first one that fails ends the call. What each
//! piece is called with, and where its results go, follows from its index.

use crate::arith::{aligned, ceil_div, lemma_aligned};
use crate::keys::DecodeWeightKind;
use crate::mtile::MTILE_MAX_N;
use crate::plan::{
    chunk_columns, half_offsets, is_column_cut, is_row_cut, law_chunks_fit_a_tile,
    lemma_ceil_steps, lemma_row_fits, wide_split, ColumnChunk, CopyRange, RowChunk, WideSplit,
};
use crate::route::{block_bytes, QuantCall};
use crate::status::STATUS_OK;
use vstd::prelude::*;

verus! {

/// What is due of a cut call.
#[derive(Clone, Copy, Debug, PartialEq, Eq, Structural)]
pub enum PieceStage {
    /// Run this piece.
    Run { index: usize },
    /// Nothing: the call is over.
    Done { status: i32 },
}

/// The first stage of a call that is cut into `count` pieces.
pub open spec fn piece_first(count: int) -> PieceStage {
    if count > 0 {
        PieceStage::Run { index: 0 }
    } else {
        PieceStage::Done { status: STATUS_OK }
    }
}

/// The stage after piece `index` came back with `status`.
pub open spec fn piece_after(count: int, index: int, status: i32) -> PieceStage {
    if status != STATUS_OK {
        PieceStage::Done { status }
    } else if index + 1 < count {
        PieceStage::Run { index: (index + 1) as usize }
    } else {
        PieceStage::Done { status: STATUS_OK }
    }
}

/// Starts a call that is cut into `count` pieces.
pub fn first_piece(count: usize) -> (stage: PieceStage)
    ensures
        stage == piece_first(count as int),
{
    if count > 0 {
        PieceStage::Run { index: 0 }
    } else {
        PieceStage::Done { status: STATUS_OK }
    }
}

/// Goes on with a cut call once piece `index` came back with `status`.
pub fn next_piece(index: usize, count: usize, status: i32) -> (stage: PieceStage)
    ensures
        stage == piece_after(count as int, index as int, status),
{
    if status != STATUS_OK {
        PieceStage::Done { status }
    } else if index < count && index + 1 < count {
        PieceStage::Run { index: index + 1 }
    } else {
        PieceStage::Done { status: STATUS_OK }
    }
}

/// The stage after pieces came back with these statuses, one after the other.
pub open spec fn pieces_after(count: int, statuses: Seq<i32>) -> PieceStage
    decreases statuses.len(),
{
    if statuses.len() == 0 {
        piece_first(count)
    } else {
        match pieces_after(count, statuses.drop_last()) {
            PieceStage::Run { index } => piece_after(count, index as int, statuses.last()),
            PieceStage::Done { status } => PieceStage::Done { status },
        }
    }
}

/// While all pieces succeed they run in order, each once, and the call succeeds
/// after the last.
pub proof fn law_pieces_run_in_order(count: int, statuses: Seq<i32>)
    requires
        statuses.len() <= count <= usize::MAX,
        forall|i: int| 0 <= i < statuses.len() ==> #[trigger] statuses[i] == STATUS_OK,
    ensures
        pieces_after(count, statuses) == (if statuses.len() < count {
            PieceStage::Run { index: statuses.len() as usize }
        } else {
            (PieceStage::Done { status: STATUS_OK })
        }),
    decreases statuses.len(),
{
    if statuses.len() > 0 {
        law_pieces_run_in_order(count, statuses.drop_last());
        assert(statuses[statuses.len() - 1] == STATUS_OK);
    }
}

/// The first piece that fails ends the call with its status, and no piece runs
/// after it.
pub proof fn law_first_failure_ends_the_call(count: int, statuses: Seq<i32>, failed: int)
    requires
        0 <= failed < statuses.len(),
        failed < count <= usize::MAX,
        forall|i: int| 0 <= i < failed ==> #[trigger] statuses[i] == STATUS_OK,
        statuses[failed] != STATUS_OK,
    ensures
        pieces_after(count, statuses) == (PieceStage::Done { status: statuses[failed] }),
    decreases statuses.len(),
{
    let before = statuses.drop_last();
    if failed == statuses.len() - 1 {
        law_pieces_run_in_order(count, before);
    } else {
        law_first_failure_ends_the_call(count, before, failed);
    }
}

/// Column chunk `index` of `n` columns in runs of `per`.
pub open spec fn chunk_at(n: int, per: int, index: int) -> ColumnChunk {
    ColumnChunk {
        start: (index * per) as usize,
        len: (if n - index * per < per {
            n - index * per
        } else {
            per
        }) as usize,
    }
}

/// How many pieces a split product has.
pub open spec fn wide_count(n: int, split: WideSplit) -> int {
    match split {
        WideSplit::Whole => 1,
        WideSplit::Halves => 2,
        WideSplit::Columns { per, .. } => ceil_div(n, per as int),
    }
}

/// Piece `index` of a split product.
///
/// A half is 64 rows of the activations and of the output. A column chunk has its
/// own weight rows and writes to `buffer`, from where its columns are moved into
/// the output.
pub open spec fn wide_piece(
    call: QuantCall,
    split: WideSplit,
    buffer: usize,
    index: int,
) -> QuantCall {
    match split {
        WideSplit::Whole => call,
        WideSplit::Halves => QuantCall {
            activations: (call.activations + 4 * (index * 64 * call.k)) as usize,
            output: (call.output + 4 * (index * 64 * call.n)) as usize,
            m: 64,
            ..call
        },
        WideSplit::Columns { per, row_bytes } => {
            let chunk = chunk_at(call.n as int, per as int, index);
            QuantCall {
                weights: (call.weights + chunk.start * row_bytes) as usize,
                weights_bytes: (chunk.len * row_bytes) as usize,
                output: buffer,
                n: chunk.len,
                ..call
            }
        },
    }
}

impl QuantCall {
    /// The buffers of a call end within the address space.
    pub open spec fn addressable(self) -> bool {
        &&& self.activations + 4 * (self.m * self.k) <= usize::MAX
        &&& self.output + 4 * (self.m * self.n) <= usize::MAX
        &&& self.weights + self.weights_bytes <= usize::MAX
    }
}

/// The end of `rows * width` single-precision values behind an address, if it lies
/// within the address space.
fn end_of(address: usize, rows: usize, width: usize) -> (r: Option<usize>)
    ensures
        match r {
            Some(end) => end == address + 4 * (rows * width),
            None => address + 4 * (rows * width) > usize::MAX,
        },
{
    match rows.checked_mul(width) {
        Some(values) => match values.checked_mul(4) {
            Some(bytes) => address.checked_add(bytes),
            None => None,
        },
        None => None,
    }
}

impl QuantCall {
    /// Checks that the buffers of a call end within the address space.
    pub fn ends_in_memory(&self) -> (r: bool)
        ensures
            r == self.addressable(),
    {
        end_of(self.activations, self.m, self.k).is_some() && end_of(
            self.output,
            self.m,
            self.n,
        ).is_some() && self.weights.checked_add(self.weights_bytes).is_some()
    }
}

/// Counts the pieces of a split product.
pub fn count_wide_pieces(n: usize, split: WideSplit) -> (count: usize)
    requires
        split matches WideSplit::Columns { per, .. } ==> per > 0,
    ensures
        count == wide_count(n as int, split),
{
    match split {
        WideSplit::Whole => 1,
        WideSplit::Halves => 2,
        WideSplit::Columns { per, row_bytes: _ } => {
            if n == 0 {
                proof {
                    lemma_ceil_steps(0, per as int);
                }
                0
            } else {
                proof {
                    crate::plan::lemma_ceil_minus_one(n as int, per as int);
                    lemma_ceil_steps(n as int, per as int);
                    assert((n - 1) as int / per as int <= n - 1) by (nonlinear_arith)
                        requires
                            n >= 1,
                            per >= 1,
                    ;
                }
                (n - 1) / per + 1
            }
        },
    }
}

/// Column chunk `index` of `n` columns in runs of `per`.
pub fn column_chunk(n: usize, per: usize, index: usize) -> (chunk: ColumnChunk)
    requires
        per > 0,
        index < ceil_div(n as int, per as int),
    ensures
        chunk == chunk_at(n as int, per as int, index as int),
        chunk.start == index * per,
        0 < chunk.len <= per,
        chunk.start + chunk.len <= n,
{
    proof {
        lemma_ceil_steps(n as int, per as int);
        assert((index * per) < n);
    }
    let start: usize = index * per;
    let left: usize = n - start;
    let len: usize = if left < per {
        left
    } else {
        per
    };
    ColumnChunk { start, len }
}

/// The call of piece `index` of a split product.
pub fn wide_piece_call(call: &QuantCall, split: WideSplit, buffer: usize, index: usize) -> (r:
    QuantCall)
    requires
        call.n > 0,
        call.addressable(),
        split == wide_split(call.m as int, call.k as int, call.n as int, call.weights_bytes as int),
        index < wide_count(call.n as int, split),
    ensures
        r == wide_piece(*call, split, buffer, index as int),
{
    match split {
        WideSplit::Whole => *call,
        WideSplit::Halves => {
            let (a, out): (usize, usize) = half_offsets(index, call.k, call.n);
            proof {
                lemma_half_within(index as int, call.k as int);
                lemma_half_within(index as int, call.n as int);
            }
            QuantCall {
                context: call.context,
                weights: call.weights,
                weights_bytes: call.weights_bytes,
                activations: call.activations + 4 * a,
                output: call.output + 4 * out,
                m: 64,
                k: call.k,
                n: call.n,
            }
        },
        WideSplit::Columns { per, row_bytes } => {
            proof {
                law_chunks_fit_a_tile(call.n as int);
            }
            let chunk = column_chunk(call.n, per, index);
            proof {
                lemma_rows_within(
                    call.n as int,
                    call.weights_bytes as int,
                    chunk.start as int,
                    chunk.len as int,
                );
            }
            QuantCall {
                context: call.context,
                weights: call.weights + chunk.start * row_bytes,
                weights_bytes: chunk.len * row_bytes,
                activations: call.activations,
                output: buffer,
                m: call.m,
                k: call.k,
                n: chunk.len,
            }
        },
    }
}

proof fn lemma_half_within(half: int, side: int)
    requires
        0 <= half < 2,
        side >= 0,
    ensures
        0 <= half * 64 * side <= 64 * side,
{
    assert(0 <= half * 64 * side <= 64 * side) by (nonlinear_arith)
        requires
            0 <= half < 2,
            side >= 0,
    ;
}

proof fn lemma_rows_within(n: int, bytes: int, start: int, len: int)
    requires
        n > 0,
        bytes >= 0,
        bytes % n == 0,
        0 <= start,
        0 <= len,
        start + len <= n,
    ensures
        0 <= start * (bytes / n) <= bytes,
        0 <= len * (bytes / n) <= bytes,
        start * (bytes / n) + len * (bytes / n) <= bytes,
        bytes / n >= 0,
        bytes == n * (bytes / n),
{
    let row = bytes / n;
    vstd::arithmetic::div_mod::lemma_fundamental_div_mod(bytes, n);
    assert(row >= 0) by (nonlinear_arith)
        requires
            bytes >= 0,
            n > 0,
            row == bytes / n,
    ;
    assert(start * row + len * row <= n * row && start * row >= 0 && len * row >= 0)
        by (nonlinear_arith)
        requires
            start + len <= n,
            row >= 0,
            start >= 0,
            len >= 0,
    ;
}

/// A product that is wider than a tile runs in as few chunks as a tile's width
/// allows, from the first column on and without a gap. Every chunk is a whole
/// number of 32-column blocks and fits a tile.
#[verifier::spinoff_prover]
#[verifier::rlimit(50)]
pub proof fn law_wide_chunks_cover_columns(n: int, index: int)
    requires
        MTILE_MAX_N < n <= usize::MAX,
        n % 32 == 0,
        0 <= index < ceil_div(n, chunk_columns(n)),
    ensures
        ceil_div(n, chunk_columns(n)) == ceil_div(n, MTILE_MAX_N as int),
        ({
            let chunk = chunk_at(n, chunk_columns(n), index);
            let end = chunk.start + chunk.len;
            &&& index == 0 ==> chunk.start == 0
            &&& 0 < chunk.len <= MTILE_MAX_N
            &&& chunk.len % 32 == 0
            &&& if index + 1 < ceil_div(n, chunk_columns(n)) {
                end == chunk_at(n, chunk_columns(n), index + 1).start
            } else {
                end == n
            }
        }),
{
    let per = chunk_columns(n);
    law_chunks_fit_a_tile(n);
    lemma_chunk_count(n);
    lemma_ceil_steps(n, per);
    assert((index * per) < n);
    assert((index + 1) * per == index * per + per) by (nonlinear_arith);
    assert(((index + 1) * per) < n <==> index + 1 < ceil_div(n, per));
    assert(index * per >= 0) by (nonlinear_arith)
        requires
            index >= 0,
            per > 0,
    ;
    let blocks = per / 32;
    assert(per == 32 * blocks);
    assert(index * per == 32 * (index * blocks)) by (nonlinear_arith)
        requires
            per == 32 * blocks,
    ;
    if index == 0 {
        assert(0 * per == 0) by (nonlinear_arith);
    }
}

proof fn lemma_chunk_count(n: int)
    requires
        n > 8192,
        n % 32 == 0,
    ensures
        ceil_div(n, chunk_columns(n)) == ceil_div(n, 8192),
{
    let blocks = n / 32;
    let c = ceil_div(n, 8192);
    let p = ceil_div(blocks, c);
    assert(n == 32 * blocks);
    lemma_aligned(n, 8192);
    assert(c >= 2);
    assert(256 * (c - 1) < blocks <= 256 * c);
    lemma_aligned(blocks, c);
    assert(p * c == aligned(blocks, c));
    assert(blocks <= p * c < blocks + c);
    assert(p > 0) by (nonlinear_arith)
        requires
            p * c >= blocks,
            blocks > 0,
            c >= 2,
    ;
    assert((c - 1) * p < blocks) by {
        assert((c - 1) * p == p * c - p) by (nonlinear_arith);
        if c - 1 <= 256 {
            assert(c * ((c - 1) * p) < c * blocks) by (nonlinear_arith)
                requires
                    p * c <= blocks + c - 1,
                    256 * (c - 1) < blocks,
                    0 <= c - 1 <= 256,
                    c >= 2,
            ;
            assert((c - 1) * p < blocks) by (nonlinear_arith)
                requires
                    c * ((c - 1) * p) < c * blocks,
                    c >= 2,
            ;
        } else {
            assert(p <= 256) by (nonlinear_arith)
                requires
                    p * c < blocks + c,
                    blocks <= 256 * c,
                    c > 0,
            ;
            assert((c - 1) * p <= (c - 1) * 256) by (nonlinear_arith)
                requires
                    p <= 256,
                    c >= 2,
            ;
        }
    }
    let per = p * 32;
    assert(per == chunk_columns(n));
    lemma_ceil_steps(n, per);
    let count = ceil_div(n, per);
    assert((c - 1) * per == 32 * ((c - 1) * p)) by (nonlinear_arith)
        requires
            per == p * 32,
    ;
    assert(c * per == 32 * (p * c)) by (nonlinear_arith)
        requires
            per == p * 32,
    ;
    assert(((c - 1) * per) < n);
    assert(!((c * per) < n));
}

/// The pieces of a product that was taken are products that can be taken: their
/// sizes agree, and nothing is null.
pub proof fn law_wide_pieces_are_valid(
    call: QuantCall,
    kind: DecodeWeightKind,
    buffer: usize,
    index: int,
)
    requires
        call.valid(kind),
        call.addressable(),
        buffer != 0,
        ({
            let split = wide_split(
                call.m as int,
                call.k as int,
                call.n as int,
                call.weights_bytes as int,
            );
            0 <= index < wide_count(call.n as int, split)
        }),
    ensures
        ({
            let split = wide_split(
                call.m as int,
                call.k as int,
                call.n as int,
                call.weights_bytes as int,
            );
            wide_piece(call, split, buffer, index).valid(kind)
        }),
{
    let (m, k, n) = (call.m as int, call.k as int, call.n as int);
    let split = wide_split(m, k, n, call.weights_bytes as int);
    let piece = wide_piece(call, split, buffer, index);
    match split {
        WideSplit::Whole => {},
        WideSplit::Halves => {
            lemma_half_within(index, k);
            lemma_half_within(index, n);
        },
        WideSplit::Columns { per, row_bytes } => {
            law_chunks_fit_a_tile(n);
            lemma_ceil_steps(n, per as int);
            assert((index * per) < n);
            assert(index * per >= 0) by (nonlinear_arith)
                requires
                    index >= 0,
                    per > 0,
            ;
            let chunk = chunk_at(n, per as int, index);
            lemma_rows_within(n, call.weights_bytes as int, chunk.start as int, chunk.len as int);
            let q = k / 256;
            let b = block_bytes(kind) as int;
            let (row, len) = (row_bytes as int, chunk.len as int);
            assert(n * q * b == n * (q * b)) by (nonlinear_arith);
            assert(row == q * b) by (nonlinear_arith)
                requires
                    n * row == n * (q * b),
                    n > 0,
            ;
            assert(len * row == len * q * b) by (nonlinear_arith)
                requires
                    row == q * b,
            ;
            assert(len * k <= n * k && m * len <= m * n) by (nonlinear_arith)
                requires
                    0 <= len <= n,
                    k >= 0,
                    m >= 0,
            ;
        },
    }
}

/// The two halves of a 128-row product fill its output: row `row` is row
/// `row % 64` of half `row / 64`, and its activations are the row's own.
pub proof fn law_halves_fill_output(call: QuantCall, buffer: usize, row: int, kk: int, col: int)
    requires
        call.m == 128,
        call.addressable(),
        0 <= row < 128,
        0 <= kk < call.k,
        0 <= col < call.n,
    ensures
        ({
            let half = wide_piece(call, WideSplit::Halves, buffer, row / 64);
            &&& half.m == 64
            &&& half.output + 4 * (row % 64 * call.n + col) == call.output + 4 * (row * call.n
                + col)
            &&& half.activations + 4 * (row % 64 * call.k + kk) == call.activations + 4 * (row
                * call.k + kk)
        }),
{
    let (k, n) = (call.k as int, call.n as int);
    lemma_half_within(row / 64, k);
    lemma_half_within(row / 64, n);
    assert(row / 64 * 64 * n + row % 64 * n == row * n) by (nonlinear_arith)
        requires
            row == row / 64 * 64 + row % 64,
    ;
    assert(row / 64 * 64 * k + row % 64 * k == row * k) by (nonlinear_arith)
        requires
            row == row / 64 * 64 + row % 64,
    ;
}

/// Addresses of a row: of its activations, and of its results in each output.
pub struct RowAddresses {
    pub activations: usize,
    pub outputs: Vec<usize>,
}

/// Whether row `row` has addresses.
pub open spec fn row_addressable(
    activations: int,
    outputs: Seq<usize>,
    ns: Seq<usize>,
    k: int,
    row: int,
) -> bool {
    &&& outputs.len() == ns.len()
    &&& activations + 4 * (row * k) <= usize::MAX
    &&& forall|i: int|
        0 <= i < outputs.len() ==> #[trigger] outputs[i] + 4 * (row * ns[i]) <= usize::MAX
}

/// Checks that row `row` has addresses.
pub fn row_in_memory(
    activations: usize,
    outputs: &[usize],
    ns: &[usize],
    k: usize,
    row: usize,
) -> (r: bool)
    ensures
        r == row_addressable(activations as int, outputs@, ns@, k as int, row as int),
{
    if outputs.len() != ns.len() || end_of(activations, row, k).is_none() {
        return false;
    }
    let mut i: usize = 0;
    while i < outputs.len()
        invariant
            i <= outputs@.len() == ns@.len(),
            forall|j: int|
                0 <= j < i ==> #[trigger] outputs@[j] + 4 * (row * ns@[j]) <= usize::MAX,
        decreases outputs@.len() - i,
    {
        if end_of(outputs[i], row, ns[i]).is_none() {
            assert(outputs@[i as int] + 4 * (row * ns@[i as int]) > usize::MAX);
            return false;
        }
        i = i + 1;
    }
    true
}

/// Where the end of all rows has addresses, every row has.
pub proof fn law_earlier_rows_have_addresses(
    activations: int,
    outputs: Seq<usize>,
    ns: Seq<usize>,
    k: int,
    rows: int,
    row: int,
)
    requires
        row_addressable(activations, outputs, ns, k, rows),
        0 <= row <= rows,
        k >= 0,
    ensures
        row_addressable(activations, outputs, ns, k, row),
{
    assert(row * k <= rows * k) by (nonlinear_arith)
        requires
            row <= rows,
            k >= 0,
    ;
    assert forall|i: int| 0 <= i < outputs.len() implies #[trigger] outputs[i] + 4 * (row * ns[i])
        <= usize::MAX by {
        let n = ns[i] as int;
        assert(row * n <= rows * n) by (nonlinear_arith)
            requires
                row <= rows,
                n >= 0,
        ;
        assert(outputs[i] + 4 * (rows * ns[i]) <= usize::MAX);
    }
}

/// Four times a product behind an address.
fn behind(address: usize, row: usize, width: usize) -> (r: usize)
    requires
        address + 4 * (row * width) <= usize::MAX,
    ensures
        r == address + 4 * (row * width),
{
    proof {
        assert(row * width >= 0) by (nonlinear_arith)
            requires
                row >= 0,
                width >= 0,
        ;
    }
    address + 4 * (row * width)
}

/// Finds the addresses of a row of single-precision values. A tile that needs no
/// filling up reads and writes from there on.
pub fn row_addresses(
    activations: usize,
    outputs: &[usize],
    ns: &[usize],
    k: usize,
    row: usize,
) -> (r: RowAddresses)
    requires
        row_addressable(activations as int, outputs@, ns@, k as int, row as int),
    ensures
        r.activations == activations + 4 * (row * k),
        r.outputs@.len() == outputs@.len(),
        forall|i: int|
            0 <= i < outputs@.len() ==> #[trigger] r.outputs@[i] == outputs@[i] + 4 * (row * ns@[i]),
{
    let mut shifted: Vec<usize> = Vec::new();
    let mut i: usize = 0;
    while i < outputs.len()
        invariant
            i <= outputs@.len(),
            shifted@.len() == i,
            row_addressable(activations as int, outputs@, ns@, k as int, row as int),
            forall|j: int|
                0 <= j < i ==> #[trigger] shifted@[j] == outputs@[j] + 4 * (row * ns@[j]),
        decreases outputs@.len() - i,
    {
        assert(outputs@[i as int] + 4 * (row * ns@[i as int]) <= usize::MAX);
        shifted.push(behind(outputs[i], row, ns[i]));
        i = i + 1;
    }
    RowAddresses { activations: behind(activations, row, k), outputs: shifted }
}

/// Finds the addresses of one half of a 128-row tile with several outputs.
pub fn half_addresses(
    activations: usize,
    outputs: &[usize],
    ns: &[usize],
    k: usize,
    half: usize,
) -> (r: RowAddresses)
    requires
        half < 2,
        row_addressable(activations as int, outputs@, ns@, k as int, 128),
    ensures
        r.activations == activations + 4 * (half * 64 * k),
        r.outputs@.len() == outputs@.len(),
        forall|i: int|
            0 <= i < outputs@.len() ==> #[trigger] r.outputs@[i] == outputs@[i] + 4 * (half * 64
                * ns@[i]),
{
    let mut shifted: Vec<usize> = Vec::new();
    let mut i: usize = 0;
    while i < outputs.len()
        invariant
            half < 2,
            i <= outputs@.len(),
            shifted@.len() == i,
            row_addressable(activations as int, outputs@, ns@, k as int, 128),
            forall|j: int|
                0 <= j < i ==> #[trigger] shifted@[j] == outputs@[j] + 4 * (half * 64 * ns@[j]),
        decreases outputs@.len() - i,
    {
        assert(outputs@[i as int] + 4 * (128 * ns@[i as int]) <= usize::MAX);
        let (_, out): (usize, usize) = half_offsets(half, k, ns[i]);
        proof {
            lemma_half_within(half as int, ns@[i as int] as int);
        }
        shifted.push(outputs[i] + 4 * out);
        i = i + 1;
    }
    let (a, _): (usize, usize) = half_offsets(half, k, 0);
    proof {
        lemma_half_within(half as int, k as int);
    }
    RowAddresses { activations: activations + 4 * a, outputs: shifted }
}

/// Whether a chunk's tile is filled up with zero rows.
pub fn needs_filling(chunk: RowChunk) -> (r: bool)
    ensures
        r == (chunk.tile != chunk.rows),
{
    chunk.tile != chunk.rows
}

/// What a chunk's tile holds: the chunk's rows, and zeros behind them.
pub open spec fn tile_values<T>(values: Seq<T>, chunk: RowChunk, k: int, zero: T) -> Seq<T> {
    Seq::new(
        (chunk.tile * k) as nat,
        |i: int|
            if i < chunk.rows * k {
                values[chunk.row * k + i]
            } else {
                zero
            },
    )
}

/// Fills a chunk's tile: the chunk's rows of `values`, and zero rows behind them.
pub fn fill_tile<T: Copy>(values: &[T], chunk: RowChunk, k: usize, zero: T) -> (out: Vec<T>)
    requires
        chunk.rows <= chunk.tile,
        (chunk.row + chunk.rows) * k <= values@.len(),
        chunk.tile * k <= usize::MAX,
    ensures
        out@ == tile_values(values@, chunk, k as int, zero),
        out@.len() == chunk.tile * k,
{
    let mut out: Vec<T> = Vec::new();
    let available: usize = values.len();
    proof {
        let (row, rows, tile, kk) = (
            chunk.row as int,
            chunk.rows as int,
            chunk.tile as int,
            k as int,
        );
        assert((row + rows) * kk == row * kk + rows * kk) by (nonlinear_arith);
        assert(0 <= row * kk && 0 <= rows * kk <= tile * kk) by (nonlinear_arith)
            requires
                0 <= row,
                0 <= rows <= tile,
                kk >= 0,
        ;
    }
    let start: usize = chunk.row * k;
    let filled: usize = chunk.rows * k;
    let total: usize = chunk.tile * k;
    while out.len() < total
        invariant
            start == chunk.row * k,
            filled == chunk.rows * k,
            total == chunk.tile * k,
            start + filled <= available == values@.len(),
            out@.len() <= total,
            forall|i: int|
                0 <= i < out@.len() ==> #[trigger] out@[i] == tile_values(
                    values@,
                    chunk,
                    k as int,
                    zero,
                )[i],
        decreases total - out@.len(),
    {
        let i: usize = out.len();
        if i < filled {
            out.push(values[start + i]);
        } else {
            out.push(zero);
        }
    }
    assert(out@ =~= tile_values(values@, chunk, k as int, zero));
    out
}

/// The move of a chunk's results into an output of `n` columns: the tile's leading
/// rows go to the chunk's rows. What the zero rows gave is left behind.
pub open spec fn row_move(chunk: RowChunk, n: int) -> CopyRange {
    CopyRange { src: 0, dst: (chunk.row * n) as usize, len: (chunk.rows * n) as usize }
}

/// Finds the move of a chunk's results into an output of `n` columns.
pub fn row_copy(chunk: RowChunk, n: usize) -> (mv: CopyRange)
    requires
        (chunk.row + chunk.rows) * n <= usize::MAX,
    ensures
        mv == row_move(chunk, n as int),
        mv.src == 0,
        mv.dst == chunk.row * n,
        mv.len == chunk.rows * n,
{
    proof {
        let (row, rows, nn) = (chunk.row as int, chunk.rows as int, n as int);
        assert((row + rows) * nn == row * nn + rows * nn) by (nonlinear_arith);
        assert(0 <= row * nn && 0 <= rows * nn) by (nonlinear_arith)
            requires
                0 <= row,
                0 <= rows,
                nn >= 0,
        ;
    }
    CopyRange { src: 0, dst: chunk.row * n, len: chunk.rows * n }
}

/// A tile's leading rows are the chunk's rows, in order, and the others are zero.
pub proof fn law_tile_holds_its_rows<T>(
    values: Seq<T>,
    chunk: RowChunk,
    k: int,
    zero: T,
    row: int,
    kk: int,
)
    requires
        0 <= row < chunk.tile,
        0 <= kk < k,
    ensures
        0 <= row * k + kk < tile_values(values, chunk, k, zero).len(),
        tile_values(values, chunk, k, zero)[row * k + kk] == (if row < chunk.rows {
            values[(chunk.row + row) * k + kk]
        } else {
            zero
        }),
{
    lemma_row_fits(row, chunk.tile as int, k);
    assert((chunk.row + row) * k == chunk.row * k + row * k) by (nonlinear_arith);
    if row < chunk.rows {
        lemma_row_fits(row, chunk.rows as int, k);
    } else {
        assert(chunk.rows * k <= row * k) by (nonlinear_arith)
            requires
                chunk.rows <= row,
                k >= 0,
        ;
    }
}

/// Over all chunks of a row cut, each row's results land in that row of the
/// output exactly once, from the matching row of the chunk's tile, and nothing is
/// written behind the last row.
pub proof fn law_row_results_land_once(
    chunks: Seq<RowChunk>,
    m: int,
    n: int,
    row: int,
    col: int,
)
    requires
        is_row_cut(chunks, m),
        0 <= row < m,
        0 <= col < n,
        m * n <= usize::MAX,
    ensures
        ({
            let i = row / 128;
            let mv = row_move(chunks[i], n);
            let at = row * n + col;
            &&& 0 <= i < chunks.len()
            &&& mv.dst <= at < mv.dst + mv.len
            &&& mv.src + (at - mv.dst) == (row - chunks[i].row) * n + col
            &&& 0 <= row - chunks[i].row < chunks[i].rows
        }),
        forall|j: int|
            0 <= j < chunks.len() ==> {
                let mv = row_move(#[trigger] chunks[j], n);
                &&& mv.dst + mv.len <= m * n
                &&& mv.dst <= row * n + col < mv.dst + mv.len ==> j == row / 128
            },
{
    let i = row / 128;
    assert(0 <= i < chunks.len());
    lemma_row_fits(row, m, n);
    lemma_move_within(chunks[i], m, n);
    let first = chunks[i].row as int;
    assert(row * n == first * n + (row - first) * n) by (nonlinear_arith);
    lemma_row_fits(row - first, chunks[i].rows as int, n);
    assert forall|j: int| 0 <= j < chunks.len() implies {
        let mv = row_move(#[trigger] chunks[j], n);
        &&& mv.dst + mv.len <= m * n
        &&& mv.dst <= row * n + col < mv.dst + mv.len ==> j == row / 128
    } by {
        lemma_move_within(chunks[j], m, n);
        let (start, rows) = (chunks[j].row as int, chunks[j].rows as int);
        if start * n <= row * n + col < start * n + rows * n {
            assert(start <= row) by (nonlinear_arith)
                requires
                    start * n <= row * n + col,
                    0 <= col < n,
            ;
            assert(row < start + rows) by (nonlinear_arith)
                requires
                    row * n + col < start * n + rows * n,
                    0 <= col < n,
            ;
        }
    }
}

proof fn lemma_move_within(chunk: RowChunk, m: int, n: int)
    requires
        chunk.row + chunk.rows <= m,
        n >= 0,
        m * n <= usize::MAX,
    ensures
        row_move(chunk, n).dst == chunk.row * n,
        row_move(chunk, n).len == chunk.rows * n,
        chunk.row * n + chunk.rows * n <= m * n,
{
    let (row, rows) = (chunk.row as int, chunk.rows as int);
    assert((row + rows) * n == row * n + rows * n) by (nonlinear_arith);
    assert((row + rows) * n <= m * n) by (nonlinear_arith)
        requires
            row + rows <= m,
            n >= 0,
    ;
    assert(0 <= row * n && 0 <= rows * n) by (nonlinear_arith)
        requires
            0 <= row,
            0 <= rows,
            n >= 0,
    ;
}

/// The chunks of a column cut are the chunks at their indices.
pub proof fn law_chunks_are_found_by_index(chunks: Seq<ColumnChunk>, n: int, per: int, index: int)
    requires
        per > 0,
        0 <= n <= usize::MAX,
        is_column_cut(chunks, n, per),
        0 <= index < chunks.len(),
    ensures
        chunks[index] == chunk_at(n, per, index),
{
}

/// Column chunks read their own weight rows: the piece of a column finds the
/// column's weights where the whole call has them, and the last piece ends where
/// the call's weights end. Everything else is the call's own, but for the output,
/// which is the buffer.
pub proof fn law_column_pieces_read_their_own_weights(call: QuantCall, buffer: usize, col: int)
    requires
        call.addressable(),
        0 <= col < call.n,
        wide_split(call.m as int, call.k as int, call.n as int, call.weights_bytes as int)
            is Columns,
    ensures
        ({
            let split = wide_split(
                call.m as int,
                call.k as int,
                call.n as int,
                call.weights_bytes as int,
            );
            let (per, row) = (split->per as int, split->row_bytes as int);
            let i = col / per;
            let piece = wide_piece(call, split, buffer, i);
            &&& 0 <= i < wide_count(call.n as int, split)
            &&& 0 <= col - i * per < piece.n
            &&& piece.n <= per
            &&& piece.weights + (col - i * per) * row == call.weights + col * row
            &&& piece.weights_bytes == piece.n * row
            &&& piece.weights + piece.weights_bytes <= call.weights + call.weights_bytes
            &&& i + 1 == wide_count(call.n as int, split) ==> piece.weights + piece.weights_bytes
                == call.weights + call.weights_bytes
            &&& i + 1 < wide_count(call.n as int, split) ==> piece.n == per
            &&& row * call.n == call.weights_bytes
            &&& piece.output == buffer
            &&& piece.context == call.context
            &&& piece.activations == call.activations
            &&& piece.m == call.m && piece.k == call.k
        }),
{
    let n = call.n as int;
    let bytes = call.weights_bytes as int;
    let split = wide_split(call.m as int, call.k as int, n, bytes);
    law_chunks_fit_a_tile(n);
    crate::arith::lemma_aligned(call.k as int, 512);
    let (per, row) = (split->per as int, split->row_bytes as int);
    lemma_rows_within(n, bytes, 0, n);
    assert(bytes / n <= bytes) by (nonlinear_arith)
        requires
            bytes >= 0,
            n >= 1,
    ;
    let i = col / per;
    vstd::arithmetic::div_mod::lemma_fundamental_div_mod(col, per);
    assert(per * i == i * per) by (nonlinear_arith);
    assert(i >= 0) by (nonlinear_arith)
        requires
            col >= 0,
            per > 0,
            i == col / per,
    ;
    lemma_ceil_steps(n, per);
    assert((i * per) < n);
    assert(i * per >= 0) by (nonlinear_arith)
        requires
            i >= 0,
            per > 0,
    ;
    assert((i + 1) * per == i * per + per) by (nonlinear_arith);
    assert(((i + 1) * per) < n <==> i + 1 < ceil_div(n, per));
    let chunk = chunk_at(n, per, i);
    lemma_rows_within(n, bytes, chunk.start as int, chunk.len as int);
    let start = i * per;
    assert(start * row + (col - start) * row == col * row) by (nonlinear_arith);
    assert(row * n == n * row) by (nonlinear_arith);
    if !(i + 1 < ceil_div(n, per)) {
        assert(chunk.start + chunk.len == n);
        assert(start * row + (n - start) * row == n * row) by (nonlinear_arith);
    }
}

/// A call that is not cut is one piece, the call itself; a call of 128 rows that is
/// halved has two, which differ from it in their rows alone.
pub proof fn law_uncut_calls_are_one_piece(call: QuantCall, buffer: usize, half: int)
    requires
        0 <= half < 2,
        call.m == 128,
        call.addressable(),
    ensures
        wide_count(call.n as int, WideSplit::Whole) == 1,
        wide_piece(call, WideSplit::Whole, buffer, 0) == call,
        wide_count(call.n as int, WideSplit::Halves) == 2,
        wide_piece(call, WideSplit::Halves, buffer, half) == (QuantCall {
            activations: (call.activations + half * (256 * call.k)) as usize,
            output: (call.output + half * (256 * call.n)) as usize,
            m: 64,
            ..call
        }),
{
    let (k, n) = (call.k as int, call.n as int);
    assert(4 * (half * 64 * k) == half * (256 * k)) by (nonlinear_arith);
    assert(4 * (half * 64 * n) == half * (256 * n)) by (nonlinear_arith);
}

/// A call's buffers are counted to their ends, four bytes for each activation and
/// output.
pub proof fn law_buffers_end_in_memory(call: QuantCall)
    ensures
        call.addressable() <==> {
            &&& call.activations + (call.m * call.k) * 4 <= usize::MAX
            &&& call.output + (call.m * call.n) * 4 <= usize::MAX
            &&& call.weights + call.weights_bytes <= usize::MAX
        },
{
}

/// A row that has addresses lies within the buffers of all rows before its end:
/// its activations behind `row * k` values, its results behind `row * n` of each
/// output.
pub proof fn law_rows_have_addresses_of_their_own(
    activations: int,
    outputs: Seq<usize>,
    ns: Seq<usize>,
    k: int,
    row: int,
    i: int,
)
    requires
        row_addressable(activations, outputs, ns, k, row),
        0 <= i < outputs.len(),
    ensures
        outputs.len() == ns.len(),
        activations + row * k * 4 <= usize::MAX,
        outputs[i] + row * ns[i] * 4 <= usize::MAX,
{
    assert(outputs[i] + 4 * (row * ns[i]) <= usize::MAX);
}

/// A call that runs a piece of the columns reads the weight rows of these columns:
/// column by column they are those of the whole call.
pub proof fn law_piece_calls_read_their_own_weight_rows(
    call: QuantCall,
    split: WideSplit,
    buffer: usize,
    index: usize,
    r: QuantCall,
    col: int,
)
    requires
        call_ensures(wide_piece_call, (&call, split, buffer, index), r),
        call.addressable(),
        split == wide_split(call.m as int, call.k as int, call.n as int, call.weights_bytes as int),
        split is Columns,
        0 <= col < call.n,
        index == col / (split->per as int),
    ensures
        r.weights + (col - index * split->per) * split->row_bytes == call.weights + col
            * split->row_bytes,
        0 <= col - index * split->per < r.n,
        r.weights_bytes == r.n * split->row_bytes,
        r.activations == call.activations,
        r.output == buffer,
{
    law_column_pieces_read_their_own_weights(call, buffer, col);
}

} // verus!
