//! Running the tiles of a convolution, one job each.

use crate::arith::ceil_div;
use crate::bytes::halves_seq;
use crate::conv::{
    volume4, Conv2dSpec, ConvExecutionTiming, ConvSizes, PreparedConv, PreparedRun, TileTiming,
};
use crate::conv_layout::{
    gather_output_tile, gathered, native_cube, scattered, tile_logical, zero_cells,
};
use crate::conv_tiles::{
    encode_next, lemma_step_keeps, state_ok, EncodeStage, Encoding, OcTile, TileState,
};
use vstd::prelude::*;

verus! {

/// An output once a tile is gathered into it.
pub open spec fn gather_into(
    before: Seq<u16>,
    src: Seq<u8>,
    oc: int,
    spatial: int,
    tile: OcTile,
) -> Seq<u16> {
    Seq::new(
        before.len(),
        |i: int|
            gathered(
                before,
                src,
                spatial,
                tile.oc0 as int,
                tile_logical(oc, tile.oc0 as int, tile.channels as int),
                i,
            ) as u16,
    )
}

/// An output of `oc` channels in which nothing is gathered yet.
pub open spec fn blank_output(oc: int, spatial: int) -> Seq<u16> {
    Seq::new((oc * spatial) as nat, |i: int| 0u16)
}

/// The output after the first `count` tiles, each gathered from what the device
/// wrote for it.
pub open spec fn output_after(
    oc: int,
    spatial: int,
    tiles: Seq<OcTile>,
    cubes: Seq<Seq<u8>>,
    count: int,
) -> Seq<u16>
    decreases count,
{
    if count <= 0 {
        blank_output(oc, spatial)
    } else {
        gather_into(
            output_after(oc, spatial, tiles, cubes, count - 1),
            cubes[count - 1],
            oc,
            spatial,
            tiles[count - 1],
        )
    }
}

/// Bytes that the device must have written for a tile to be gathered.
pub open spec fn tile_bytes(oc: int, spatial: int, tile: OcTile) -> int {
    16 * spatial * ceil_div(tile_logical(oc, tile.oc0 as int, tile.channels as int), 8)
}

/// A run over encoded tiles: the output so far, the times so far, and the tile
/// that is due.
pub struct ConvRun {
    pub oc: usize,
    pub spatial: usize,
    pub tiles: Vec<OcTile>,
    pub next: usize,
    pub out: Vec<u16>,
    pub timing: ConvExecutionTiming,
}

impl ConvRun {
    /// The output has a value for every channel and position, and the due tile is
    /// not behind the last.
    pub open spec fn wf(&self) -> bool {
        &&& self.out@.len() == self.oc * self.spatial
        &&& self.next <= self.tiles@.len()
    }

    /// Starts a run. There is one job for each tile, and the output buffer is not
    /// cleared: the device overwrites it.
    pub fn new(oc: usize, spatial: usize, tiles: Vec<OcTile>, timing: ConvExecutionTiming) -> (r:
        Self)
        requires
            oc * spatial <= usize::MAX,
        ensures
            r.wf(),
            r.oc == oc,
            r.spatial == spatial,
            r.tiles@ == tiles@,
            r.next == 0,
            r.out@ == blank_output(oc as int, spatial as int),
            r.timing == (ConvExecutionTiming {
                output_clear_ns: 0,
                jobs_submitted: tiles@.len() as usize,
                ..timing
            }),
    {
        let mut out: Vec<u16> = Vec::new();
        let total: usize = oc * spatial;
        while out.len() < total
            invariant
                total == oc * spatial,
                out@.len() <= total,
                forall|i: int| 0 <= i < out@.len() ==> #[trigger] out@[i] == 0,
            decreases total - out@.len(),
        {
            out.push(0);
        }
        assert(out@ =~= blank_output(oc as int, spatial as int));
        let jobs: usize = tiles.len();
        let mut timing = timing;
        timing.output_clear_ns = 0;
        timing.jobs_submitted = jobs;
        ConvRun { oc, spatial, tiles, next: 0, out, timing }
    }

    /// The tile that is due, if one is left.
    pub fn due(&self) -> (r: Option<OcTile>)
        ensures
            r == (if self.next < self.tiles@.len() {
                Some(self.tiles@[self.next as int])
            } else {
                None
            }),
    {
        if self.next < self.tiles.len() {
            Some(self.tiles[self.next])
        } else {
            None
        }
    }

    /// Takes what the device wrote for the due tile.
    pub fn finish_tile(&mut self, src: &[u8], spent: TileTiming)
        requires
            old(self).wf(),
            old(self).next < old(self).tiles@.len(),
            tile_bytes(
                old(self).oc as int,
                old(self).spatial as int,
                old(self).tiles@[old(self).next as int],
            ) <= src@.len(),
            old(self).timing.accounted() + spent.regcmd_write_ns + spent.submit_ns + spent.wait_ns
                + spent.gather_ns <= u128::MAX,
        ensures
            final(self).wf(),
            final(self).oc == old(self).oc,
            final(self).spatial == old(self).spatial,
            final(self).tiles@ == old(self).tiles@,
            final(self).next == old(self).next + 1,
            final(self).out@ == gather_into(
                old(self).out@,
                src@,
                old(self).oc as int,
                old(self).spatial as int,
                old(self).tiles@[old(self).next as int],
            ),
            final(self).timing == (ConvExecutionTiming {
                regcmd_write_ns: (old(self).timing.regcmd_write_ns + spent.regcmd_write_ns) as u128,
                submit_ns: (old(self).timing.submit_ns + spent.submit_ns) as u128,
                wait_ns: (old(self).timing.wait_ns + spent.wait_ns) as u128,
                gather_ns: (old(self).timing.gather_ns + spent.gather_ns) as u128,
                ..old(self).timing
            }),
    {
        let count: usize = self.tiles.len();
        assert(self.next < count);
        let tile = self.tiles[self.next];
        let ghost before = self.out@;
        gather_output_tile(src, self.oc, self.spatial, tile.channels, tile.oc0, &mut self.out);
        proof {
            let after = gather_into(before, src@, self.oc as int, self.spatial as int, tile);
            assert forall|i: int| 0 <= i < self.out@.len() implies #[trigger] self.out@[i]
                == after[i] by {}
            assert(self.out@ =~= after);
        }
        self.timing.book_tile(spent);
        self.next = self.next + 1;
    }
}

/// Where a plan stands after these answers of the encoder.
pub open spec fn plan_after(poc: int, answers: Seq<Encoding>) -> TileState
    decreases answers.len(),
{
    if answers.len() == 0 {
        TileState { poc, stage: EncodeStage::Full, tiles: Seq::empty() }
    } else {
        encode_next(plan_after(poc, answers.drop_last()), answers.last())
    }
}

/// A convolution whose whole descriptor is encoded runs as one job, and one whose
/// whole descriptor was refused runs as several, if at all.
pub proof fn law_jobs_follow_the_first_answer(poc: int, answers: Seq<Encoding>)
    requires
        0 < poc <= usize::MAX,
        poc % 16 == 0,
        answers.len() > 0,
    ensures
        state_ok(plan_after(poc, answers)),
        !(plan_after(poc, answers).stage is Full),
        answers[0] == Encoding::Encoded ==> plan_after(poc, answers).stage is Done && plan_after(
            poc,
            answers,
        ).tiles.len() == 1,
        answers[0] != Encoding::Encoded && plan_after(poc, answers).stage is Done ==> plan_after(
            poc,
            answers,
        ).tiles.len() > 1,
    decreases answers.len(),
{
    let before = plan_after(poc, answers.drop_last());
    if answers.len() == 1 {
        assert(answers.drop_last() =~= Seq::<Encoding>::empty());
        assert(plan_after(poc, Seq::<Encoding>::empty()).stage is Full);
    } else {
        law_jobs_follow_the_first_answer(poc, answers.drop_last());
    }
    lemma_step_keeps(before, answers.last());
    if let EncodeStage::Emit { width, .. } = before.stage {
        if before.tiles.len() == 0 {
            assert(0 * width == 0) by (nonlinear_arith);
        }
    }
}

/// The bytes of the native weight cube. `place` says where the encoder wants each
/// weight in a cube of so many padded output and input channels.
pub open spec fn weight_cube(
    s: Conv2dSpec,
    pic: int,
    poc: int,
    place: spec_fn(int, int, int) -> usize,
    weights: Seq<u16>,
) -> Seq<u8> {
    let index = Seq::new(weights.len(), |j: int| place(poc, pic, j));
    halves_seq(
        scattered(
            zero_cells(volume4(poc, pic, s.kh as int, s.kw as int)),
            index,
            weights,
            weights.len() as int,
        ),
    )
}

/// Streamed and prepared execution of a convolution agree. They pad to the same
/// channel counts and take the same sizes; so input and weights are laid out in
/// the same cubes, the encoder's answers lead to the same tiles, and what the
/// device wrote for these is gathered to the same output.
pub proof fn law_prepared_run_equals_streamed_run(
    s: Conv2dSpec,
    sizes: ConvSizes,
    prepared: PreparedConv,
    run: PreparedRun,
    input: Seq<u16>,
    weights: Seq<u16>,
    place: spec_fn(int, int, int) -> usize,
    answers: Seq<Encoding>,
    cubes: Seq<Seq<u8>>,
)
    requires
        sizes.of(s),
        prepared.spec == s,
        prepared.plan.of(s),
        run.of(prepared),
    ensures
        sizes.pic == prepared.plan.pic,
        sizes.poc == prepared.plan.poc,
        sizes.wt_bytes == prepared.plan.wt_bytes,
        sizes.in_bytes == run.in_bytes,
        sizes.out_bytes == run.out_bytes,
        sizes.oh == run.oh,
        sizes.ow == run.ow,
        halves_seq(native_cube(input, s.ic as int, sizes.pic as int, s.ih * s.iw)) == halves_seq(
            native_cube(input, s.ic as int, prepared.plan.pic as int, s.ih * s.iw),
        ),
        weight_cube(s, sizes.pic as int, sizes.poc as int, place, weights) == weight_cube(
            s,
            prepared.plan.pic as int,
            prepared.plan.poc as int,
            place,
            weights,
        ),
        plan_after(sizes.poc as int, answers) == plan_after(prepared.plan.poc as int, answers),
        ({
            let streamed = plan_after(sizes.poc as int, answers).tiles;
            let resident = plan_after(prepared.plan.poc as int, answers).tiles;
            let count = streamed.len() as int;
            output_after(s.oc as int, sizes.oh * sizes.ow, streamed, cubes, count) == output_after(
                s.oc as int,
                run.oh * run.ow,
                resident,
                cubes,
                count,
            )
        }),
{
}

/// The output of a run has one value for every channel and position.
pub proof fn law_run_fills_the_output_shape(
    oc: int,
    spatial: int,
    tiles: Seq<OcTile>,
    cubes: Seq<Seq<u8>>,
    count: int,
)
    requires
        oc >= 0,
        spatial >= 0,
    ensures
        output_after(oc, spatial, tiles, cubes, count).len() == oc * spatial,
    decreases count,
{
    if count > 0 {
        law_run_fills_the_output_shape(oc, spatial, tiles, cubes, count - 1);
    }
    assert(oc * spatial >= 0) by (nonlinear_arith)
        requires
            oc >= 0,
            spatial >= 0,
    ;
}

/// A tile that is gathered sets its own channels from its cube and leaves the others,
/// and the output starts out as zeros.
pub proof fn law_tiles_set_their_own_channels(
    before: Seq<u16>,
    src: Seq<u8>,
    oc: int,
    spatial: int,
    tile: OcTile,
    channel: int,
    pos: int,
)
    requires
        0 <= pos < spatial,
        0 <= channel < oc,
        before.len() == oc * spatial,
    ensures
        ({
            let after = gather_into(before, src, oc, spatial, tile);
            let at = channel * spatial + pos;
            let c = channel - tile.oc0;
            let e = c / 8 * spatial * 8 + pos * 8 + c % 8;
            &&& 0 <= at < oc * spatial
            &&& after.len() == before.len()
            &&& blank_output(oc, spatial)[at] == 0
            &&& !(tile.oc0 <= channel < tile.oc0 + tile.channels) ==> after[at] == before[at]
            &&& tile.oc0 <= channel < tile.oc0 + tile.channels && 0 <= e && 2 * e + 2 <= src.len()
                ==> after[at] == crate::bytes::le_value(src.subrange(2 * e, 2 * e + 2))
        }),
{
    let at = channel * spatial + pos;
    let c = channel - tile.oc0;
    let e = c / 8 * spatial * 8 + pos * 8 + c % 8;
    assert(0 <= at < oc * spatial) by (nonlinear_arith)
        requires
            at == channel * spatial + pos,
            0 <= pos < spatial,
            0 <= channel < oc,
    ;
    crate::conv_layout::law_gathered_channels_are_the_tiles_own(
        before,
        src,
        spatial,
        tile.oc0 as int,
        tile_logical(oc, tile.oc0 as int, tile.channels as int),
        channel,
        pos,
    );
    if 0 <= e && 2 * e + 2 <= src.len() {
        reveal_with_fuel(crate::bytes::byte_range, 3);
        crate::bytes::law_read_bytes_are_written_back(src.subrange(2 * e, 2 * e + 2));
    }
}

} // verus!
