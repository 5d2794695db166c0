//! Cutting projections into pieces that the NPU takes.

use crate::arith::{aligned, ceil_div, lemma_aligned, next_multiple};
use crate::mtile::{is_tile_height, MTILE_MAX_N, MTILE_MAX_ROWS};
use vstd::prelude::*;

verus! {

/// Some rows of a batch and the tile they run in. Rows of the tile beyond
/// `rows` are zero.
#[derive(Clone, Copy, Debug, PartialEq, Eq, Structural)]
pub struct RowChunk {
    pub row: usize,
    pub rows: usize,
    pub tile: usize,
}

/// A run of output columns.
#[derive(Clone, Copy, Debug, PartialEq, Eq, Structural)]
pub struct ColumnChunk {
    pub start: usize,
    pub len: usize,
}

/// A run of elements to move from one buffer to another.
#[derive(Clone, Copy, Debug, PartialEq, Eq, Structural)]
pub struct CopyRange {
    pub src: usize,
    pub dst: usize,
    pub len: usize,
}

/// Whether `tile` is the least supported height that holds `rows` rows.
pub open spec fn is_tile_for(tile: int, rows: int) -> bool {
    &&& is_tile_height(tile)
    &&& tile >= rows
    &&& forall|h: int| #[trigger] is_tile_height(h) && h >= rows ==> tile <= h
}

/// The least supported height that holds `rows` rows.
pub fn tile_height_for(rows: usize) -> (tile: usize)
    requires
        rows <= MTILE_MAX_ROWS,
    ensures
        is_tile_for(tile as int, rows as int),
{
    if rows <= 4 {
        4
    } else if rows <= 8 {
        8
    } else if rows <= 12 {
        12
    } else if rows <= 16 {
        16
    } else if rows <= 32 {
        32
    } else if rows <= 48 {
        48
    } else if rows <= 64 {
        64
    } else {
        128
    }
}

/// The cut of `m` rows: full 128-row tiles from the top, and a tail in the least
/// tile that holds it.
pub open spec fn is_row_cut(chunks: Seq<RowChunk>, m: int) -> bool {
    &&& chunks.len() == ceil_div(m, 128)
    &&& forall|i: int|
        0 <= i < chunks.len() ==> {
            &&& (#[trigger] chunks[i]).row == 128 * i
            &&& chunks[i].rows == (if m - 128 * i < 128 {
                m - 128 * i
            } else {
                128
            })
            &&& is_tile_for(chunks[i].tile as int, chunks[i].rows as int)
        }
}

/// Cuts `m` rows into native tiles.
pub fn run_mtile_row_chunks(m: usize) -> (chunks: Vec<RowChunk>)
    ensures
        is_row_cut(chunks@, m as int),
{
    let mut chunks: Vec<RowChunk> = Vec::new();
    let mut row: usize = 0;
    while row < m
        invariant
            row <= m,
            row == 128 * chunks@.len() || row == m,
            row < m ==> row == 128 * chunks@.len(),
            chunks@.len() <= ceil_div(m as int, 128),
            row == m ==> chunks@.len() == ceil_div(m as int, 128),
            forall|i: int|
                0 <= i < chunks@.len() ==> {
                    &&& (#[trigger] chunks@[i]).row == 128 * i
                    &&& chunks@[i].rows == (if m - 128 * i < 128 {
                        m - 128 * i
                    } else {
                        128
                    })
                    &&& is_tile_for(chunks@[i].tile as int, chunks@[i].rows as int)
                },
        decreases m - row,
    {
        let left: usize = m - row;
        let rows: usize = if left < MTILE_MAX_ROWS {
            left
        } else {
            MTILE_MAX_ROWS
        };
        let tile: usize = tile_height_for(rows);
        chunks.push(RowChunk { row, rows, tile });
        row = row + rows;
    }
    chunks
}

/// Every row of the batch lies in exactly one chunk.
pub proof fn law_rows_are_cut_once(chunks: Seq<RowChunk>, m: int, row: int)
    requires
        is_row_cut(chunks, m),
        0 <= row < m,
    ensures
        exists|i: int|
            0 <= i < chunks.len() && (#[trigger] chunks[i]).row <= row < chunks[i].row
                + chunks[i].rows,
        forall|i: int, j: int|
            #![trigger chunks[i], chunks[j]]
            0 <= i < chunks.len() && 0 <= j < chunks.len() && chunks[i].row <= row
                < chunks[i].row + chunks[i].rows && chunks[j].row <= row < chunks[j].row
                + chunks[j].rows ==> i == j,
{
    let i = row / 128;
    assert(chunks[i].row <= row < chunks[i].row + chunks[i].rows);
}

/// Only the last chunk can be smaller than its tile, and no chunk holds more
/// rows than its tile has.
pub proof fn law_only_the_tail_is_padded(chunks: Seq<RowChunk>, m: int, i: int)
    requires
        is_row_cut(chunks, m),
        0 <= i < chunks.len(),
    ensures
        0 < chunks[i].rows <= chunks[i].tile,
        i < chunks.len() - 1 ==> chunks[i].rows == chunks[i].tile,
{
    assert(is_tile_height(128));
}

/// The cut of `n` columns into runs of `per`, the last one shorter if need be.
pub open spec fn is_column_cut(chunks: Seq<ColumnChunk>, n: int, per: int) -> bool {
    &&& chunks.len() == ceil_div(n, per)
    &&& forall|i: int|
        0 <= i < chunks.len() ==> {
            &&& (#[trigger] chunks[i]).start == i * per
            &&& chunks[i].len == (if n - i * per < per {
                n - i * per
            } else {
                per
            })
        }
}

/// Cuts `n` columns into runs of `per`.
pub fn column_chunks(n: usize, per: usize) -> (chunks: Vec<ColumnChunk>)
    requires
        per > 0,
    ensures
        is_column_cut(chunks@, n as int, per as int),
{
    let mut chunks: Vec<ColumnChunk> = Vec::new();
    let mut start: usize = 0;
    proof {
        lemma_ceil_steps(n as int, per as int);
        assert(0 * per == 0) by (nonlinear_arith);
    }
    while start < n
        invariant
            per > 0,
            start <= n,
            start < n ==> start == chunks@.len() * per,
            start == n ==> chunks@.len() == ceil_div(n as int, per as int),
            forall|i: int| 0 <= i ==> (#[trigger] (i * per) < n <==> i < ceil_div(n as int, per as int)),
            forall|i: int|
                0 <= i < chunks@.len() ==> {
                    &&& (#[trigger] chunks@[i]).start == i * per
                    &&& chunks@[i].len == (if n - i * per < per {
                        n - i * per
                    } else {
                        per as int
                    })
                },
        decreases n - start,
    {
        let left: usize = n - start;
        let len: usize = if left < per {
            left
        } else {
            per
        };
        let ghost i = chunks@.len() as int;
        chunks.push(ColumnChunk { start, len });
        start = start + len;
        proof {
            assert((i + 1) * per == i * per + per) by (nonlinear_arith);
            assert(i * per < n);
            assert(((i + 1) * per) < n <==> (i + 1) < ceil_div(n as int, per as int));
        }
    }
    chunks
}

/// `i * per` stays below `n` exactly for the chunk indices.
pub proof fn lemma_ceil_steps(n: int, per: int)
    requires
        n >= 0,
        per > 0,
    ensures
        forall|i: int| 0 <= i ==> (#[trigger] (i * per) < n <==> i < ceil_div(n, per)),
        ceil_div(n, per) >= 0,
        n == 0 ==> ceil_div(n, per) == 0,
{
    let c = ceil_div(n, per);
    lemma_aligned(n, per);
    assert(c * per == aligned(n, per));
    assert(c >= 0) by (nonlinear_arith)
        requires
            c * per >= 0,
            per > 0,
    ;
    assert forall|i: int| 0 <= i implies (#[trigger] (i * per) < n <==> i < c) by {
        if i < c {
            assert((i + 1) * per <= c * per) by (nonlinear_arith)
                requires
                    i + 1 <= c,
                    per > 0,
            ;
            assert((i + 1) * per == i * per + per) by (nonlinear_arith);
        } else {
            assert(i * per >= c * per) by (nonlinear_arith)
                requires
                    i >= c,
                    per > 0,
            ;
        }
    }
    if n == 0 {
        assert(0 * per == 0) by (nonlinear_arith);
        assert(!((0 * per) < n));
    }
}

/// Every column lies in exactly one chunk, and each chunk has a column.
pub proof fn law_columns_are_cut_once(chunks: Seq<ColumnChunk>, n: int, per: int, col: int)
    requires
        per > 0,
        is_column_cut(chunks, n, per),
        0 <= col < n,
    ensures
        exists|i: int|
            0 <= i < chunks.len() && (#[trigger] chunks[i]).start <= col < chunks[i].start
                + chunks[i].len,
        forall|i: int, j: int|
            #![trigger chunks[i], chunks[j]]
            0 <= i < chunks.len() && 0 <= j < chunks.len() && chunks[i].start <= col
                < chunks[i].start + chunks[i].len && chunks[j].start <= col < chunks[j].start
                + chunks[j].len ==> i == j,
        forall|i: int| 0 <= i < chunks.len() ==> 0 < (#[trigger] chunks[i]).len <= per,
{
    lemma_ceil_steps(n, per);
    let q = col / per;
    vstd::arithmetic::div_mod::lemma_fundamental_div_mod(col, per);
    assert(per * q == q * per) by (nonlinear_arith);
    assert(q >= 0) by (nonlinear_arith)
        requires
            col >= 0,
            per > 0,
            q == col / per,
    ;
    assert((q * per) < n);
    assert(chunks[q].start <= col < chunks[q].start + chunks[q].len);
    assert forall|i: int, j: int|
        #![trigger chunks[i], chunks[j]]
        0 <= i < chunks.len() && 0 <= j < chunks.len() && chunks[i].start <= col < chunks[i].start
            + chunks[i].len && chunks[j].start <= col < chunks[j].start
            + chunks[j].len implies i == j by {
        if i < j {
            assert((i + 1) * per <= j * per) by (nonlinear_arith)
                requires
                    i + 1 <= j,
                    per > 0,
            ;
            assert((i + 1) * per == i * per + per) by (nonlinear_arith);
        }
        if j < i {
            assert((j + 1) * per <= i * per) by (nonlinear_arith)
                requires
                    j + 1 <= i,
                    per > 0,
            ;
            assert((j + 1) * per == j * per + per) by (nonlinear_arith);
        }
    }
    assert forall|i: int| 0 <= i < chunks.len() implies 0 < (#[trigger] chunks[i]).len <= per by {
        assert((i * per) < n);
    }
}

/// How a prompt-batch projection is cut when the tile kernels cannot take it in
/// one piece.
#[derive(Clone, Copy, Debug, PartialEq, Eq, Structural)]
pub enum WideSplit {
    /// It is taken as it is.
    Whole,
    /// Two halves of 64 rows each.
    Halves,
    /// Column chunks of `per` weight rows, each `row_bytes` bytes long.
    Columns { per: usize, row_bytes: usize },
}

/// The cut of a projection.
///
/// Tiles taller than 64 rows allow at most 2048 K per core, so a 128-row tile
/// whose padded K is neither within that nor cut into three such core slices
/// (above 4096 and up to 6144) runs as two halves. Projections wider than one
/// tile run as column chunks of equal numbers of 32-column blocks.
pub open spec fn wide_split(m: int, k: int, n: int, weights_bytes: int) -> WideSplit {
    let kp = aligned(k, 512);
    if m == 128 && kp > 2048 && !(4096 < kp <= 3 * 2048) {
        WideSplit::Halves
    } else if n > MTILE_MAX_N && n % 32 == 0 && weights_bytes % n == 0 {
        WideSplit::Columns {
            per: chunk_columns(n) as usize,
            row_bytes: (weights_bytes / n) as usize,
        }
    } else {
        WideSplit::Whole
    }
}

/// Columns of a chunk: the 32-column blocks shared evenly over as few chunks as
/// a tile's width allows.
pub open spec fn chunk_columns(n: int) -> int {
    ceil_div(n / 32, ceil_div(n, MTILE_MAX_N as int)) * 32
}

/// A chunk is a whole number of 32-column blocks, not empty, and fits a tile.
pub proof fn law_chunks_fit_a_tile(n: int)
    requires
        n > MTILE_MAX_N,
        n % 32 == 0,
    ensures
        chunk_columns(n) % 32 == 0,
        0 < chunk_columns(n) <= MTILE_MAX_N,
        chunk_columns(n) < n,
{
    let blocks = n / 32;
    let c = ceil_div(n, 8192);
    assert(n == 32 * blocks);
    lemma_aligned(n, 8192);
    assert(c * 8192 >= n);
    assert(c >= 2);
    assert(256 * c >= blocks);
    let per = ceil_div(blocks, c);
    lemma_aligned(blocks, c);
    assert(per * c >= blocks && per * c < blocks + c);
    assert(per <= 256) by (nonlinear_arith)
        requires
            per * c < blocks + c,
            blocks <= 256 * c,
            c >= 2,
    ;
    assert(per > 0) by (nonlinear_arith)
        requires
            per * c >= blocks,
            blocks > 0,
            c >= 2,
    ;
}

/// The pieces of a cut projection need no further cut of the same kind: halves
/// are 64 rows high, and column chunks are no wider than a tile.
pub proof fn law_pieces_are_not_cut_again(m: int, k: int, n: int, bytes: int, piece_bytes: int)
    requires
        m > 0,
        k > 0,
        n > 0,
    ensures
        wide_split(m, k, n, bytes) == WideSplit::Halves ==> !(wide_split(64, k, n, bytes)
            is Halves),
        wide_split(m, k, n, bytes) is Columns ==> forall|cols: int|
            0 < cols <= chunk_columns(n) ==> #[trigger] wide_split(m, k, cols, piece_bytes)
                == WideSplit::Whole,
{
    if wide_split(m, k, n, bytes) is Columns {
        law_chunks_fit_a_tile(n);
    }
}

/// Decides how a prompt-batch projection is cut.
pub fn split_wide_mtile(m: usize, k: usize, n: usize, weights_bytes: usize) -> (r: WideSplit)
    requires
        n > 0,
    ensures
        r == wide_split(m as int, k as int, n as int, weights_bytes as int),
{
    let long_k = match next_multiple(k, 512) {
        Some(kp) => kp > 2048 && !(kp > 4096 && kp <= 3 * 2048),
        None => true,
    };
    if m == 128 && long_k {
        return WideSplit::Halves;
    }
    if n > MTILE_MAX_N && n % 32 == 0 && weights_bytes % n == 0 {
        proof {
            law_chunks_fit_a_tile(n as int);
            lemma_aligned(n as int, 8192);
        }
        let blocks: usize = n / 32;
        let chunks: usize = (n - 1) / MTILE_MAX_N + 1;
        let per: usize = (blocks - 1) / chunks + 1;
        proof {
            lemma_ceil_minus_one(n as int, 8192);
            lemma_ceil_minus_one(blocks as int, chunks as int);
        }
        WideSplit::Columns { per: per * 32, row_bytes: weights_bytes / n }
    } else {
        WideSplit::Whole
    }
}

/// Rounding a quotient up without going past the dividend.
pub proof fn lemma_ceil_minus_one(v: int, a: int)
    requires
        v > 0,
        a > 0,
    ensures
        (v - 1) / a + 1 == ceil_div(v, a),
{
    vstd::arithmetic::div_mod::lemma_div_plus_one(v - 1, a);
    assert(v - 1 + a == v + a - 1);
}

/// Where one half of a 128-row tile starts in the activations and in the output.
pub fn half_offsets(half: usize, k: usize, n: usize) -> (r: (usize, usize))
    requires
        half < 2,
        128 * k <= usize::MAX,
        128 * n <= usize::MAX,
    ensures
        r.0 == half * 64 * k,
        r.1 == half * 64 * n,
{
    proof {
        assert(half == 0 ==> half * 64 * k == 0 && half * 64 * n == 0) by (nonlinear_arith);
        assert(half == 1 ==> half * 64 * k == 64 * k && half * 64 * n == 64 * n)
            by (nonlinear_arith);
    }
    if half == 0 {
        (0, 0)
    } else {
        (64 * k, 64 * n)
    }
}

/// Moves of one column chunk: row by row from a buffer of `cols` columns into an
/// output of `n` columns, from column `start` on.
pub open spec fn column_moves(m: int, n: int, start: int, cols: int) -> Seq<CopyRange> {
    Seq::new(
        m as nat,
        |row: int|
            CopyRange {
                src: (row * cols) as usize,
                dst: (row * n + start) as usize,
                len: cols as usize,
            },
    )
}

/// Lists the moves of one column chunk.
pub fn column_copies(m: usize, n: usize, start: usize, cols: usize) -> (moves: Vec<CopyRange>)
    requires
        start + cols <= n,
        m * n <= usize::MAX,
    ensures
        moves@ == column_moves(m as int, n as int, start as int, cols as int),
{
    let mut moves: Vec<CopyRange> = Vec::new();
    let mut row: usize = 0;
    while row < m
        invariant
            row <= m,
            start + cols <= n,
            m * n <= usize::MAX,
            moves@ =~= column_moves(row as int, n as int, start as int, cols as int),
        decreases m - row,
    {
        proof {
            lemma_row_fits(row as int, m as int, n as int);
            assert(row * cols <= row * n) by (nonlinear_arith)
                requires
                    cols <= n,
                    row >= 0,
            ;
        }
        moves.push(CopyRange { src: row * cols, dst: row * n + start, len: cols });
        row = row + 1;
    }
    moves
}

/// A whole row below `m` lies within `m * n`.
pub proof fn lemma_row_fits(row: int, m: int, n: int)
    requires
        0 <= row < m,
        n >= 0,
    ensures
        0 <= row * n,
        row * n + n <= m * n,
{
    assert(0 <= row * n) by (nonlinear_arith)
        requires
            row >= 0,
            n >= 0,
    ;
    assert((row + 1) * n <= m * n) by (nonlinear_arith)
        requires
            row + 1 <= m,
            n >= 0,
    ;
    assert((row + 1) * n == row * n + n) by (nonlinear_arith);
}

/// Over all column chunks every output element is written exactly once, and from
/// the matching place of its chunk's buffer.
pub proof fn law_column_moves_fill_output(
    chunks: Seq<ColumnChunk>,
    m: int,
    n: int,
    per: int,
    row: int,
    col: int,
)
    requires
        per > 0,
        n > 0,
        is_column_cut(chunks, n, per),
        0 <= row < m,
        0 <= col < n,
        m * n <= usize::MAX,
    ensures
        exists|i: int| {
            &&& 0 <= i < chunks.len()
            &&& #[trigger] moves_write(chunks[i], m, n, row, col)
        },
        forall|i: int, j: int, r: int|
            #![trigger moves_touch(chunks[i], m, n, r, row * n + col), chunks[j]]
            0 <= i < chunks.len() && 0 <= r < m && moves_touch(chunks[i], m, n, r, row * n + col)
                && 0 <= j < chunks.len() && moves_write(chunks[j], m, n, row, col) ==> i == j && r
                == row,
{
    law_columns_are_cut_once(chunks, n, per, col);
    let i = choose|i: int|
        0 <= i < chunks.len() && (#[trigger] chunks[i]).start <= col < chunks[i].start
            + chunks[i].len;
    lemma_row_fits(row, m, n);
    assert(row * chunks[i].len <= row * n) by (nonlinear_arith)
        requires
            row >= 0,
            0 <= chunks[i].len <= n,
    ;
    assert(moves_write(chunks[i], m, n, row, col));
    assert forall|a: int, j: int, r: int|
        #![trigger moves_touch(chunks[a], m, n, r, row * n + col), chunks[j]]
        0 <= a < chunks.len() && 0 <= r < m && moves_touch(chunks[a], m, n, r, row * n + col) && 0
            <= j < chunks.len() && moves_write(chunks[j], m, n, row, col) implies a == j && r
        == row by {
        lemma_row_fits(r, m, n);
        assert(chunks[a].start + chunks[a].len <= n) by {
            lemma_ceil_steps(n, per);
            assert((a * per) < n);
        }
        lemma_same_row(row, col, r, chunks[a].start as int, chunks[a].len as int, n);
    }
}

/// A position determines its row.
proof fn lemma_same_row(row: int, col: int, r: int, start: int, len: int, n: int)
    requires
        0 <= col < n,
        0 <= start,
        start + len <= n,
        r * n + start <= row * n + col < r * n + start + len,
    ensures
        r == row,
        start <= col < start + len,
{
    if r < row {
        assert((r + 1) * n <= row * n) by (nonlinear_arith)
            requires
                r + 1 <= row,
                n > 0,
        ;
        assert((r + 1) * n == r * n + n) by (nonlinear_arith);
    }
    if row < r {
        assert((row + 1) * n <= r * n) by (nonlinear_arith)
            requires
                row + 1 <= r,
                n > 0,
        ;
        assert((row + 1) * n == row * n + n) by (nonlinear_arith);
    }
}

/// Whether the chunk's move of row `row` fills output element `(row, col)` from
/// the chunk's own element `(row, col - start)`.
pub open spec fn moves_write(chunk: ColumnChunk, m: int, n: int, row: int, col: int) -> bool {
    let mv = column_moves(m, n, chunk.start as int, chunk.len as int)[row];
    &&& mv.dst <= row * n + col < mv.dst + mv.len
    &&& mv.src + (row * n + col - mv.dst) == row * chunk.len + (col - chunk.start)
    &&& chunk.start <= col < chunk.start + chunk.len
}

/// Whether the chunk's move of row `r` writes the output position.
pub open spec fn moves_touch(chunk: ColumnChunk, m: int, n: int, r: int, at: int) -> bool {
    let mv = column_moves(m, n, chunk.start as int, chunk.len as int)[r];
    mv.dst <= at < mv.dst + mv.len
}

/// A run of columns that one core computed for all rows.
#[derive(Clone, Copy, Debug, PartialEq, Eq, Structural)]
pub struct WorkerSlice {
    pub n0: usize,
    pub nsub: usize,
}

/// A run of one joined member's output row inside a core's block.
#[derive(Clone, Copy, Debug, PartialEq, Eq, Structural)]
pub struct MemberCopy {
    /// Which member.
    pub member: usize,
    /// Which activation row, and so which activation scale.
    pub row: usize,
    /// First value in the core's block.
    pub src: usize,
    /// First element in the member's output.
    pub dst: usize,
    /// First weight scale among the joined columns.
    pub scale: usize,
    /// Number of elements.
    pub len: usize,
}

/// First joined column of a member.
pub open spec fn member_start(ns: Seq<usize>, member: int) -> int
    decreases member,
{
    if member <= 0 {
        0
    } else {
        member_start(ns, member - 1) + ns[member - 1]
    }
}

/// First joined column that a member and a slice share.
pub open spec fn overlap_lo(ns: Seq<usize>, slice: WorkerSlice, member: int) -> int {
    if member_start(ns, member) > slice.n0 {
        member_start(ns, member)
    } else {
        slice.n0 as int
    }
}

/// One past the last joined column that a member and a slice share.
pub open spec fn overlap_hi(ns: Seq<usize>, slice: WorkerSlice, member: int) -> int {
    if member_start(ns, member) + ns[member] < slice.n0 + slice.nsub {
        member_start(ns, member) + ns[member]
    } else {
        slice.n0 + slice.nsub
    }
}

/// The run of one member's row inside a slice.
pub open spec fn member_move(
    ns: Seq<usize>,
    slice: WorkerSlice,
    member: int,
    row: int,
) -> MemberCopy {
    let lo = overlap_lo(ns, slice, member);
    let hi = overlap_hi(ns, slice, member);
    MemberCopy {
        member: member as usize,
        row: row as usize,
        src: (row * slice.nsub + (lo - slice.n0)) as usize,
        dst: (row * ns[member] + (lo - member_start(ns, member))) as usize,
        scale: lo as usize,
        len: (hi - lo) as usize,
    }
}

/// All runs of a slice, member by member and row by row. Members that share no
/// column with the slice have none.
pub open spec fn member_moves(
    ns: Seq<usize>,
    slice: WorkerSlice,
    m: int,
    members: int,
) -> Seq<MemberCopy>
    decreases members,
{
    if members <= 0 {
        Seq::empty()
    } else {
        let before = member_moves(ns, slice, m, members - 1);
        if overlap_lo(ns, slice, members - 1) < overlap_hi(ns, slice, members - 1) {
            before + Seq::new(m as nat, |row: int| member_move(ns, slice, members - 1, row))
        } else {
            before
        }
    }
}

/// Member starts never decrease, and end at the joined width.
pub proof fn lemma_member_starts(ns: Seq<usize>, i: int, j: int)
    requires
        0 <= i <= j <= ns.len(),
    ensures
        0 <= member_start(ns, i) <= member_start(ns, j),
        i < j ==> member_start(ns, i) + ns[i] <= member_start(ns, j),
    decreases j,
{
    if i < j {
        lemma_member_starts(ns, i, j - 1);
    } else if i > 0 {
        lemma_member_starts(ns, i - 1, i - 1);
    }
}

/// Lists where each value of a core's block goes when the joined columns are
/// handed back to their members.
pub fn concat_copies(ns: &[usize], slice: WorkerSlice, m: usize) -> (moves: Vec<MemberCopy>)
    requires
        slice.n0 + slice.nsub <= member_start(ns@, ns@.len() as int),
        m * member_start(ns@, ns@.len() as int) <= usize::MAX,
        member_start(ns@, ns@.len() as int) <= usize::MAX,
    ensures
        moves@ == member_moves(ns@, slice, m as int, ns@.len() as int),
{
    let ghost total = member_start(ns@, ns@.len() as int);
    let end: usize = slice.n0 + slice.nsub;
    let mut moves: Vec<MemberCopy> = Vec::new();
    let mut start: usize = 0;
    let mut member: usize = 0;
    while member < ns.len()
        invariant
            member <= ns@.len(),
            total == member_start(ns@, ns@.len() as int),
            end == slice.n0 + slice.nsub,
            end <= total,
            m * total <= usize::MAX,
            total <= usize::MAX,
            start == member_start(ns@, member as int),
            moves@ == member_moves(ns@, slice, m as int, member as int),
        decreases ns@.len() - member,
    {
        let n: usize = ns[member];
        proof {
            lemma_member_starts(ns@, member as int, ns@.len() as int);
            lemma_member_starts(ns@, member as int, member + 1);
            lemma_member_starts(ns@, member + 1, ns@.len() as int);
        }
        let stop: usize = start + n;
        let lo: usize = if start > slice.n0 {
            start
        } else {
            slice.n0
        };
        let hi: usize = if stop < end {
            stop
        } else {
            end
        };
        if lo < hi {
            let ghost before = moves@;
            let mut row: usize = 0;
            while row < m
                invariant
                    row <= m,
                    member < ns@.len(),
                    n == ns@[member as int],
                    start == member_start(ns@, member as int),
                    start + n <= total,
                    stop == start + n,
                    end == slice.n0 + slice.nsub,
                    end <= total,
                    m * total <= usize::MAX,
                    lo == overlap_lo(ns@, slice, member as int),
                    hi == overlap_hi(ns@, slice, member as int),
                    slice.n0 <= lo < hi,
                    start <= lo,
                    hi <= stop,
                    hi <= end,
                    moves@ =~= before + Seq::new(
                        row as nat,
                        |r: int| member_move(ns@, slice, member as int, r),
                    ),
                decreases m - row,
            {
                proof {
                    lemma_row_fits(row as int, m as int, total);
                    assert(row * slice.nsub <= row * total) by (nonlinear_arith)
                        requires
                            row >= 0,
                            slice.nsub <= total,
                    ;
                    assert(row * n <= row * total) by (nonlinear_arith)
                        requires
                            row >= 0,
                            n <= total,
                    ;
                }
                moves.push(
                    MemberCopy {
                        member,
                        row,
                        src: row * slice.nsub + (lo - slice.n0),
                        dst: row * n + (lo - start),
                        scale: lo,
                        len: hi - lo,
                    },
                );
                row = row + 1;
            }
        }
        start = stop;
        member = member + 1;
    }
    moves
}

/// Where a member's element lies in a slice: the member, the row, and the column
/// within the member.
pub open spec fn slice_holds(
    ns: Seq<usize>,
    slice: WorkerSlice,
    member: int,
    col: int,
) -> bool {
    slice.n0 <= member_start(ns, member) + col < slice.n0 + slice.nsub
}

/// Each element of a member's output whose joined column the slice holds is
/// written by one of the slice's moves, from its row and column of the core's
/// block and with its own column's scale.
pub proof fn law_slice_delivers_its_columns(
    ns: Seq<usize>,
    slice: WorkerSlice,
    m: int,
    member: int,
    row: int,
    col: int,
)
    requires
        0 <= member < ns.len(),
        0 <= row < m,
        0 <= col < ns[member],
        slice_holds(ns, slice, member, col),
        ns.len() <= usize::MAX,
        m * member_start(ns, ns.len() as int) <= usize::MAX,
        member_start(ns, ns.len() as int) <= usize::MAX,
        slice.n0 + slice.nsub <= member_start(ns, ns.len() as int),
    ensures
        exists|i: int| {
            &&& 0 <= i < member_moves(ns, slice, m, ns.len() as int).len()
            &&& #[trigger] delivers(
                member_moves(ns, slice, m, ns.len() as int)[i],
                ns,
                slice,
                member,
                row,
                col,
            )
        },
{
    let total = member_start(ns, ns.len() as int);
    lemma_member_starts(ns, member, ns.len() as int);
    lemma_member_starts(ns, member, member + 1);
    lemma_member_starts(ns, member + 1, ns.len() as int);
    let mv = member_move(ns, slice, member, row);
    let lo = overlap_lo(ns, slice, member);
    lemma_row_fits(row, m, total);
    assert(0 <= row * slice.nsub <= row * total) by (nonlinear_arith)
        requires
            row >= 0,
            0 <= slice.nsub <= total,
    ;
    assert(0 <= row * ns[member] <= row * total) by (nonlinear_arith)
        requires
            row >= 0,
            0 <= ns[member] <= total,
    ;
    assert(m <= usize::MAX) by (nonlinear_arith)
        requires
            m * total <= usize::MAX,
            total >= 1,
            m >= 0,
    ;
    assert(delivers(mv, ns, slice, member, row, col));
    lemma_move_is_listed(ns, slice, m, ns.len() as int, member, row);
    let moves = member_moves(ns, slice, m, ns.len() as int);
    let i = choose|i: int| 0 <= i < moves.len() && #[trigger] moves[i] == mv;
    assert(delivers(moves[i], ns, slice, member, row, col));
}

/// Whether a move writes the member's element `(row, col)` from the right place
/// of the core's block and with the right scale.
pub open spec fn delivers(
    mv: MemberCopy,
    ns: Seq<usize>,
    slice: WorkerSlice,
    member: int,
    row: int,
    col: int,
) -> bool {
    let at = row * ns[member] + col;
    &&& mv.member == member
    &&& mv.row == row
    &&& mv.dst <= at < mv.dst + mv.len
    &&& mv.src + (at - mv.dst) == row * slice.nsub + (member_start(ns, member) + col - slice.n0)
    &&& mv.scale + (at - mv.dst) == member_start(ns, member) + col
}

proof fn lemma_move_is_listed(
    ns: Seq<usize>,
    slice: WorkerSlice,
    m: int,
    members: int,
    member: int,
    row: int,
)
    requires
        0 <= member < members <= ns.len(),
        0 <= row < m,
        overlap_lo(ns, slice, member) < overlap_hi(ns, slice, member),
    ensures
        exists|i: int|
            0 <= i < member_moves(ns, slice, m, members).len() && #[trigger] member_moves(
                ns,
                slice,
                m,
                members,
            )[i] == member_move(ns, slice, member, row),
    decreases members,
{
    let before = member_moves(ns, slice, m, members - 1);
    let moves = member_moves(ns, slice, m, members);
    if member == members - 1 {
        assert(moves[before.len() + row] == member_move(ns, slice, member, row));
    } else {
        lemma_move_is_listed(ns, slice, m, members - 1, member, row);
        let i = choose|i: int|
            0 <= i < before.len() && #[trigger] before[i] == member_move(ns, slice, member, row);
        assert(moves[i] == before[i]);
    }
}

/// A slice's moves stay within the slice: whatever element a move writes, the
/// slice holds that element's joined column. So cores with disjoint slices never
/// write the same element.
pub proof fn law_slice_writes_only_its_columns(
    ns: Seq<usize>,
    slice: WorkerSlice,
    m: int,
    members: int,
    i: int,
    at: int,
)
    requires
        0 <= members <= ns.len() <= usize::MAX,
        0 <= i < member_moves(ns, slice, m, members).len(),
        m >= 0,
        m * member_start(ns, ns.len() as int) <= usize::MAX,
        member_start(ns, ns.len() as int) <= usize::MAX,
        slice.n0 + slice.nsub <= member_start(ns, ns.len() as int),
        ({
            let mv = member_moves(ns, slice, m, members)[i];
            mv.dst <= at < mv.dst + mv.len
        }),
    ensures
        ({
            let mv = member_moves(ns, slice, m, members)[i];
            &&& 0 <= mv.member < members
            &&& 0 <= mv.row < m
            &&& 0 <= at - mv.row * ns[mv.member as int] < ns[mv.member as int]
            &&& slice_holds(
                ns,
                slice,
                mv.member as int,
                at - mv.row * ns[mv.member as int],
            )
        }),
    decreases members,
{
    if members > 0 {
        let before = member_moves(ns, slice, m, members - 1);
        if i < before.len() {
            law_slice_writes_only_its_columns(ns, slice, m, members - 1, i, at);
        } else {
            let member = members - 1;
            let row = i - before.len();
            let total = member_start(ns, ns.len() as int);
            lemma_member_starts(ns, member, ns.len() as int);
            lemma_member_starts(ns, member + 1, ns.len() as int);
            lemma_member_starts(ns, member, member + 1);
            lemma_row_fits(row, m, total);
            assert(0 <= row * ns[member] <= row * total) by (nonlinear_arith)
                requires
                    row >= 0,
                    0 <= ns[member] <= total,
            ;
            assert(m <= usize::MAX) by (nonlinear_arith)
                requires
                    m * total <= usize::MAX,
                    total >= 1,
                    m >= 0,
            ;
            assert(member_moves(ns, slice, m, members)[i] == member_move(ns, slice, member, row));
        }
    }
}

/// The tile for some rows: up to sixteen rows the next multiple of four, up to 64
/// the next multiple of sixteen, and 128 beyond.
pub proof fn law_tiles_are_the_next_height(tile: int, rows: int)
    requires
        0 < rows <= 128,
        is_tile_for(tile, rows),
    ensures
        rows <= 16 ==> tile % 4 == 0 && rows <= tile < rows + 4,
        16 < rows <= 64 ==> tile % 16 == 0 && rows <= tile < rows + 16,
        64 < rows ==> tile == 128,
{
    crate::mtile::law_tile_heights(tile);
    if rows <= 16 {
        let next = aligned(rows, 4);
        lemma_aligned(rows, 4);
        crate::mtile::law_tile_heights(next);
        assert(is_tile_height(next) && next >= rows);
        assert(tile <= next);
    } else if rows <= 64 {
        let next = aligned(rows, 16);
        lemma_aligned(rows, 16);
        crate::mtile::law_tile_heights(next);
        assert(is_tile_height(next) && next >= rows);
        assert(tile <= next);
    } else {
        assert(is_tile_height(128));
    }
}

/// A projection runs as two halves exactly where it has 128 rows and a core would
/// get more than 2048 of K: alone with K up to 4096, or as one of three that share
/// a longer one. Otherwise it is cut in columns exactly where it is wider than a
/// tile, in blocks of 32, and its weight rows are equally long.
pub proof fn law_cuts_of_a_projection(m: int, k: int, n: int, bytes: int)
    requires
        k >= 0,
        n > 0,
        0 <= bytes <= usize::MAX,
        n <= usize::MAX,
    ensures
        wide_split(m, k, n, bytes) is Halves <==> m == 128 && (2048 < k <= 4096 || k > 6144),
        wide_split(m, k, n, bytes) is Columns <==> {
            &&& !(m == 128 && (2048 < k <= 4096 || k > 6144))
            &&& n > 8192
            &&& n % 32 == 0
            &&& bytes % n == 0
        },
        wide_split(m, k, n, bytes) is Columns ==> {
            &&& wide_split(m, k, n, bytes)->row_bytes * n == bytes
            &&& wide_split(m, k, n, bytes)->per % 32 == 0
            &&& 0 < wide_split(m, k, n, bytes)->per <= 8192
        },
{
    lemma_aligned(k, 512);
    vstd::arithmetic::div_mod::lemma_fundamental_div_mod(bytes, n);
    let row = bytes / n;
    assert(n * row == row * n) by (nonlinear_arith);
    assert(0 <= row <= bytes) by (nonlinear_arith)
        requires
            row == bytes / n,
            bytes >= 0,
            n >= 1,
    ;
    if wide_split(m, k, n, bytes) is Columns {
        law_chunks_fit_a_tile(n);
    }
}

/// The joined columns of a member start where those of the member before it end.
pub proof fn law_members_follow_each_other(ns: Seq<usize>, member: int)
    requires
        0 <= member < ns.len(),
    ensures
        member_start(ns, 0) == 0,
        member_start(ns, member + 1) - member_start(ns, member) == ns[member],
{
}

/// Rows are cut from the top: every tile but the last is 128 full rows, each starts
/// where the one before ends, and the last one ends with the rows.
pub proof fn law_row_chunks_follow_each_other(m: usize, chunks: Vec<RowChunk>, i: int)
    requires
        call_ensures(run_mtile_row_chunks, (m,), chunks),
        0 <= i < chunks@.len(),
    ensures
        chunks@[0].row == 0,
        1 <= chunks@[i].rows <= chunks@[i].tile <= 128,
        is_tile_height(chunks@[i].tile as int),
        i + 1 < chunks@.len() ==> chunks@[i].rows == 128 && chunks@[i + 1].row == chunks@[i].row
            + 128,
        i + 1 == chunks@.len() ==> chunks@[i].row + chunks@[i].rows == m,
{
    let (all, n) = (chunks@, m as int);
    lemma_ceil_steps(n, 128);
    assert((i * 128) < n <==> i < ceil_div(n, 128));
    assert(((i + 1) * 128) < n <==> i + 1 < ceil_div(n, 128));
    assert(all[i].row == 128 * i);
    assert(all[0].row == 128 * 0);
    assert(is_tile_height(128));
    if i + 1 < all.len() {
        assert(all[i + 1].row == 128 * (i + 1));
    }
}

/// Columns are cut from the first on: every run but the last has `per` columns, each
/// starts where the one before ends, and the last one ends with the columns.
pub proof fn law_column_chunks_follow_each_other(
    n: usize,
    per: usize,
    chunks: Vec<ColumnChunk>,
    i: int,
)
    requires
        call_ensures(column_chunks, (n, per), chunks),
        per > 0,
        0 <= i < chunks@.len(),
    ensures
        chunks@[0].start == 0,
        1 <= chunks@[i].len <= per,
        i + 1 < chunks@.len() ==> chunks@[i].len == per && chunks@[i + 1].start == chunks@[i].start
            + per,
        i + 1 == chunks@.len() ==> chunks@[i].start + chunks@[i].len == n,
{
    let (all, p) = (chunks@, per as int);
    lemma_ceil_steps(n as int, p);
    assert((i * p) < n <==> i < ceil_div(n as int, p));
    assert(((i + 1) * p) < n <==> i + 1 < ceil_div(n as int, p));
    assert((i + 1) * p == i * p + p) by (nonlinear_arith);
    assert(0 * p == 0) by (nonlinear_arith);
    assert(all[i].start == i * p);
    assert(all[0].start == 0 * p);
    if i + 1 < all.len() {
        assert(all[i + 1].start == (i + 1) * p);
    }
}

} // verus!
