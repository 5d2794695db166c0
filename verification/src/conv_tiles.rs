//! The cut of a convolution into tiles of output channels.
//!
//! The register encoder says whether a descriptor fits the on-chip buffer. Where
//! the whole convolution does not, the widest tile that does is looked for, in
//! steps of sixteen channels. Tiles are independent, and native weights lie
//! contiguously by whole groups of sixteen channels, so nothing is packed anew.

use crate::arith::ceil_div;
use crate::conv::{refuses, ConvError};
use vstd::prelude::*;

verus! {

/// Channels of a weight group.
pub const OC_GROUP: usize = 16;

/// A run of output channels.
#[derive(Debug, Clone, Copy, PartialEq, Eq, Structural)]
pub struct OcTile {
    pub oc0: usize,
    pub channels: usize,
}

/// What the encoder made of a descriptor.
#[derive(Debug, Clone, Copy, PartialEq, Eq, Structural)]
pub enum Encoding {
    Encoded,
    CbufUnsupported,
    Failed,
}

/// The descriptor that is due to be encoded.
#[derive(Debug, Clone, Copy, PartialEq, Eq, Structural)]
pub enum EncodeStage {
    /// The whole convolution.
    Full,
    /// A tile of `channels` channels at the start, to see whether it fits.
    Probe { channels: usize },
    /// The next tile.
    Emit { width: usize, tile: OcTile },
    /// Nothing: the encoder's answer to the whole convolution is the error.
    Refused,
    /// Nothing: the encoder's last answer is the error.
    Failed,
    /// Nothing: all tiles are encoded.
    Done,
}

/// The next width to try below `channels`.
pub open spec fn narrower(channels: int) -> EncodeStage {
    if channels - 16 >= 16 {
        EncodeStage::Probe { channels: (channels - 16) as usize }
    } else {
        EncodeStage::Refused
    }
}

/// The tile from `oc0` on, of at most `width` channels.
pub open spec fn tile_from(poc: int, width: int, oc0: int) -> OcTile {
    OcTile {
        oc0: oc0 as usize,
        channels: (if poc - oc0 < width {
            poc - oc0
        } else {
            width
        }) as usize,
    }
}

/// Tiles so far, and what is due.
pub struct TilePlan {
    pub poc: usize,
    pub stage: EncodeStage,
    pub tiles: Vec<OcTile>,
}

/// Tiles so far, and what is due.
#[verifier::ext_equal]
pub struct TileState {
    pub poc: int,
    pub stage: EncodeStage,
    pub tiles: Seq<OcTile>,
}

impl View for TilePlan {
    type V = TileState;

    open spec fn view(&self) -> TileState {
        TileState { poc: self.poc as int, stage: self.stage, tiles: self.tiles@ }
    }
}

/// What follows the encoder's answer.
pub open spec fn encode_next(s: TileState, answer: Encoding) -> TileState {
    match s.stage {
        EncodeStage::Full => match answer {
            Encoding::Encoded => TileState {
                stage: EncodeStage::Done,
                tiles: seq![OcTile { oc0: 0, channels: s.poc as usize }],
                ..s
            },
            Encoding::CbufUnsupported => TileState { stage: narrower(s.poc), ..s },
            Encoding::Failed => TileState { stage: EncodeStage::Failed, ..s },
        },
        EncodeStage::Probe { channels } => if answer == Encoding::Encoded {
            TileState {
                stage: EncodeStage::Emit {
                    width: channels,
                    tile: tile_from(s.poc, channels as int, 0),
                },
                ..s
            }
        } else {
            TileState { stage: narrower(channels as int), ..s }
        },
        EncodeStage::Emit { width, tile } => if answer == Encoding::Encoded {
            let next = tile.oc0 + tile.channels;
            TileState {
                tiles: s.tiles.push(tile),
                stage: if next < s.poc {
                    EncodeStage::Emit { width, tile: tile_from(s.poc, width as int, next) }
                } else {
                    EncodeStage::Done
                },
                ..s
            }
        } else {
            TileState { stage: EncodeStage::Failed, ..s }
        },
        _ => s,
    }
}

/// Tile `i` of a cut into runs of `width` channels.
pub open spec fn tile_at(poc: int, width: int, i: int) -> OcTile {
    tile_from(poc, width, i * width)
}

/// The first tiles of a cut into runs of `width` channels.
pub open spec fn is_tile_prefix(tiles: Seq<OcTile>, poc: int, width: int) -> bool {
    forall|i: int| 0 <= i < tiles.len() ==> #[trigger] tiles[i] == tile_at(poc, width, i)
}

/// Where a plan can stand.
pub open spec fn state_ok(s: TileState) -> bool {
    &&& 0 < s.poc <= usize::MAX
    &&& s.poc % 16 == 0
    &&& match s.stage {
        EncodeStage::Full => s.tiles.len() == 0,
        EncodeStage::Probe { channels } => {
            &&& s.tiles.len() == 0
            &&& 16 <= channels < s.poc
            &&& channels % 16 == 0
        },
        EncodeStage::Emit { width, tile } => {
            &&& 16 <= width < s.poc
            &&& width % 16 == 0
            &&& is_tile_prefix(s.tiles, s.poc, width as int)
            &&& tile == tile_at(s.poc, width as int, s.tiles.len() as int)
            &&& s.tiles.len() * width < s.poc
        },
        EncodeStage::Done => exists|width: int| is_whole_cut(s.tiles, s.poc, width),
        _ => true,
    }
}

/// All channels, cut into runs of `width` with a shorter last one if need be.
pub open spec fn is_whole_cut(tiles: Seq<OcTile>, poc: int, width: int) -> bool {
    &&& 16 <= width <= poc
    &&& width % 16 == 0
    &&& tiles.len() == ceil_div(poc, width)
    &&& is_tile_prefix(tiles, poc, width)
}

impl TilePlan {
    /// What a plan keeps to.
    pub open spec fn wf(&self) -> bool {
        state_ok(self@)
    }

    /// Starts with the whole convolution.
    pub fn new(poc: usize) -> (r: Self)
        requires
            poc > 0,
            poc % 16 == 0,
        ensures
            r.wf(),
            r@ == (TileState { poc: poc as int, stage: EncodeStage::Full, tiles: Seq::empty() }),
    {
        TilePlan { poc, stage: EncodeStage::Full, tiles: Vec::new() }
    }

    fn narrow(&mut self, channels: usize)
        ensures
            *final(self) == (TilePlan { stage: narrower(channels as int), ..*old(self) }),
    {
        self.stage = if channels >= 32 {
            EncodeStage::Probe { channels: channels - OC_GROUP }
        } else {
            EncodeStage::Refused
        };
    }

    /// Takes the encoder's answer to the descriptor that was due.
    pub fn step(&mut self, answer: Encoding)
        requires
            old(self).wf(),
        ensures
            final(self).wf(),
            final(self)@ == encode_next(old(self)@, answer),
    {
        proof {
            lemma_step_keeps(self@, answer);
        }
        match self.stage {
            EncodeStage::Full => match answer {
                Encoding::Encoded => {
                    self.tiles.push(OcTile { oc0: 0, channels: self.poc });
                    self.stage = EncodeStage::Done;
                    assert(self.tiles@ =~= seq![OcTile { oc0: 0, channels: self.poc }]);
                },
                Encoding::CbufUnsupported => {
                    let poc: usize = self.poc;
                    self.narrow(poc);
                },
                Encoding::Failed => {
                    self.stage = EncodeStage::Failed;
                },
            },
            EncodeStage::Probe { channels } => {
                if answer == Encoding::Encoded {
                    self.stage = EncodeStage::Emit {
                        width: channels,
                        tile: OcTile { oc0: 0, channels },
                    };
                } else {
                    self.narrow(channels);
                }
            },
            EncodeStage::Emit { width, tile } => {
                if answer == Encoding::Encoded {
                    let next: usize = tile.oc0 + tile.channels;
                    self.tiles.push(tile);
                    if next < self.poc {
                        let left: usize = self.poc - next;
                        let channels: usize = if left < width {
                            left
                        } else {
                            width
                        };
                        self.stage = EncodeStage::Emit {
                            width,
                            tile: OcTile { oc0: next, channels },
                        };
                    } else {
                        self.stage = EncodeStage::Done;
                    }
                } else {
                    self.stage = EncodeStage::Failed;
                }
            },
            _ => {},
        }
    }
}

/// Every answer leads from where a plan can stand to where it can stand, and the
/// tile that is due lies within the channels.
pub proof fn lemma_step_keeps(s: TileState, answer: Encoding)
    requires
        state_ok(s),
    ensures
        state_ok(encode_next(s, answer)),
        s.stage matches EncodeStage::Emit { width, tile } ==> tile.oc0 + tile.channels <= s.poc
            && tile.channels > 0,
{
    let after = encode_next(s, answer);
    match s.stage {
        EncodeStage::Full => {
            if answer == Encoding::Encoded {
                let poc = s.poc;
                assert(ceil_div(poc, poc) == 1) by {
                    vstd::arithmetic::div_mod::lemma_fundamental_div_mod_converse(
                        poc + poc - 1,
                        poc,
                        1,
                        poc - 1,
                    );
                }
                assert(0 * poc == 0) by (nonlinear_arith);
                assert(after.tiles[0] == tile_at(poc, poc, 0));
                assert(is_whole_cut(after.tiles, poc, poc));
            }
        },
        EncodeStage::Emit { width, tile } => {
            let w = width as int;
            let i = s.tiles.len() as int;
            assert(tile.oc0 == i * w);
            assert(i * w >= 0) by (nonlinear_arith)
                requires
                    i >= 0,
                    w >= 0,
            ;
            if answer == Encoding::Encoded {
                let next = tile.oc0 + tile.channels;
                assert((i + 1) * w == i * w + w) by (nonlinear_arith);
                if next < s.poc {
                    assert(next == (i + 1) * w);
                    assert(after.tiles.len() * width == (i + 1) * w);
                } else {
                    assert(i * w < s.poc <= (i + 1) * w);
                    assert(ceil_div(s.poc, w) == i + 1) by {
                        vstd::arithmetic::div_mod::lemma_fundamental_div_mod_converse(
                            s.poc + w - 1,
                            w,
                            i + 1,
                            s.poc + w - 1 - (i + 1) * w,
                        );
                    }
                    assert(is_whole_cut(after.tiles, s.poc, w));
                }
            }
        },
        _ => {},
    }
}

/// A finished plan covers every channel exactly once.
pub proof fn law_tiles_cover_channels_once(s: TileState, channel: int)
    requires
        state_ok(s),
        s.stage == EncodeStage::Done,
        0 <= channel < s.poc,
    ensures
        exists|i: int|
            0 <= i < s.tiles.len() && covers(#[trigger] s.tiles[i], channel) && forall|j: int|
                0 <= j < s.tiles.len() && covers(#[trigger] s.tiles[j], channel) ==> j == i,
{
    let w = choose|width: int| is_whole_cut(s.tiles, s.poc, width);
    let i = channel / w;
    vstd::arithmetic::div_mod::lemma_fundamental_div_mod(channel, w);
    assert(w * i == i * w) by (nonlinear_arith);
    let count = ceil_div(s.poc, w);
    vstd::arithmetic::div_mod::lemma_fundamental_div_mod(s.poc + w - 1, w);
    assert(w * count == count * w) by (nonlinear_arith);
    assert(0 <= i < count) by (nonlinear_arith)
        requires
            channel == i * w + channel % w,
            0 <= channel % w < w,
            0 <= channel < s.poc,
            s.poc <= count * w,
            w > 0,
    ;
    assert(i * w >= 0) by (nonlinear_arith)
        requires
            i >= 0,
            w >= 0,
    ;
    assert(s.tiles[i] == tile_at(s.poc, w, i));
    assert(covers(s.tiles[i], channel));
    assert forall|j: int| 0 <= j < s.tiles.len() && covers(#[trigger] s.tiles[j], channel) implies j
        == i by {
        assert(s.tiles[j] == tile_at(s.poc, w, j));
        assert(j * w >= 0) by (nonlinear_arith)
            requires
                j >= 0,
                w >= 0,
        ;
        assert(j * w < s.poc) by (nonlinear_arith)
            requires
                j <= count - 1,
                count * w < s.poc + w,
                w > 0,
        ;
        vstd::arithmetic::div_mod::lemma_fundamental_div_mod_converse(
            channel,
            w,
            j,
            channel - j * w,
        );
    }
}

/// A tile holds a channel.
pub open spec fn covers(tile: OcTile, channel: int) -> bool {
    tile.oc0 <= channel < tile.oc0 + tile.channels
}

/// Every tile of a finished plan is a whole number of weight groups, and starts
/// at one.
pub proof fn law_tiles_are_whole_groups(s: TileState, i: int)
    requires
        state_ok(s),
        s.stage == EncodeStage::Done,
        0 <= i < s.tiles.len(),
    ensures
        s.tiles[i].oc0 % 16 == 0,
        s.tiles[i].channels % 16 == 0,
{
    let w = choose|width: int| is_whole_cut(s.tiles, s.poc, width);
    assert(s.tiles[i] == tile_at(s.poc, w, i));
    let g = w / 16;
    assert(i * w == 16 * (i * g)) by (nonlinear_arith)
        requires
            w == 16 * g,
    ;
    assert(i * w >= 0) by (nonlinear_arith)
        requires
            i >= 0,
            w >= 0,
    ;
    let count = ceil_div(s.poc, w);
    vstd::arithmetic::div_mod::lemma_fundamental_div_mod(s.poc + w - 1, w);
    assert(w * count == count * w) by (nonlinear_arith);
    assert(i * w < s.poc) by (nonlinear_arith)
        requires
            i <= count - 1,
            count * w < s.poc + w,
            w > 0,
    ;
}

/// Where a tile's weights start: `elements` half-precision values after the
/// start of all weights.
pub fn tile_weights_dma(weights_dma: u64, elements: usize) -> (r: Result<u64, ConvError>)
    ensures
        match r {
            Ok(at) => at == weights_dma + 2 * elements && 2 * elements <= usize::MAX,
            Err(e) => if 2 * elements > usize::MAX {
                refuses(e, "Conv weight tile offset overflow"@)
            } else {
                weights_dma + 2 * elements > u64::MAX && e == ConvError::AddressAbove32Bit(u64::MAX)
            },
        },
{
    match elements.checked_mul(2) {
        Some(bytes) => match weights_dma.checked_add(bytes as u64) {
            Some(at) => Ok(at),
            None => Err(ConvError::AddressAbove32Bit(u64::MAX)),
        },
        None => Err(ConvError::InvalidInput("Conv weight tile offset overflow")),
    }
}

/// The task that runs a register command list.
pub fn tile_task(regcmd_dma: u64, ops: usize) -> (r: Result<crate::uapi::Task, ConvError>)
    requires
        ops <= u32::MAX,
    ensures
        r == (if regcmd_dma <= u32::MAX {
            Ok(crate::uapi::Task { regcmd: regcmd_dma as u32, regcmd_count: ops as u32 })
        } else {
            Err(ConvError::AddressAbove32Bit(regcmd_dma))
        }),
{
    if regcmd_dma <= u32::MAX as u64 {
        Ok(crate::uapi::Task { regcmd: regcmd_dma as u32, regcmd_count: ops as u32 })
    } else {
        Err(ConvError::AddressAbove32Bit(regcmd_dma))
    }
}

/// The search for a tile starts at the widest one below the whole and goes down by
/// one group of sixteen at each refusal, so the first width that is taken is the
/// widest that fits. Where not even one group fits, the whole was refused for good.
pub proof fn law_the_widest_tile_that_fits_is_taken(s: TileState, answer: Encoding)
    requires
        state_ok(s),
    ensures
        s.stage is Full && answer == Encoding::CbufUnsupported ==> {
            let next = encode_next(s, answer).stage;
            if s.poc >= 32 {
                next is Probe && next->Probe_channels == s.poc - 16
            } else {
                next is Refused
            }
        },
        s.stage is Probe && answer != Encoding::Encoded ==> {
            let next = encode_next(s, answer).stage;
            if s.stage->Probe_channels >= 32 {
                next is Probe && next->Probe_channels == s.stage->Probe_channels - 16
            } else {
                next is Refused
            }
        },
        s.stage is Probe && answer == Encoding::Encoded ==> {
            let next = encode_next(s, answer).stage;
            next is Emit && next->width == s.stage->Probe_channels && next->tile.oc0 == 0
                && next->tile.channels == s.stage->Probe_channels
        },
{
}

/// Tiles follow each other without a gap, each as wide as the first but for the
/// last, and a tile that is not encoded ends the plan.
pub proof fn law_tiles_follow_each_other(s: TileState, answer: Encoding)
    requires
        state_ok(s),
        s.stage is Emit,
    ensures
        ({
            let after = encode_next(s, answer);
            let tile = s.stage->tile;
            let end = tile.oc0 + tile.channels;
            if answer != Encoding::Encoded {
                after.stage is Failed && after.tiles == s.tiles
            } else {
                &&& after.tiles.len() == s.tiles.len() + 1
                &&& after.tiles.last() == tile
                &&& after.tiles.drop_last() =~= s.tiles
                &&& end >= s.poc ==> end == s.poc && after.stage is Done
                &&& end < s.poc ==> {
                    &&& after.stage is Emit
                    &&& after.stage->width == s.stage->width
                    &&& after.stage->tile.oc0 == end
                    &&& after.stage->tile.channels <= s.stage->width
                    &&& after.stage->tile.channels == s.stage->width
                        || after.stage->tile.oc0 + after.stage->tile.channels == s.poc
                }
            }
        }),
{
    lemma_step_keeps(s, answer);
}

/// A convolution whose whole descriptor is encoded is one tile of all channels,
/// an error that is not about room ends the plan, and a plan that is over stays as
/// it is.
pub proof fn law_plans_end(s: TileState, answer: Encoding)
    ensures
        s.stage is Full && answer == Encoding::Encoded && 0 <= s.poc <= usize::MAX ==> {
            let after = encode_next(s, answer);
            &&& after.stage is Done
            &&& after.tiles.len() == 1
            &&& after.tiles[0].oc0 == 0
            &&& after.tiles[0].channels == s.poc
        },
        s.stage is Full && answer == Encoding::Failed ==> encode_next(s, answer).stage is Failed,
        s.stage is Done || s.stage is Refused || s.stage is Failed ==> encode_next(s, answer) == s,
        encode_next(s, answer).poc == s.poc,
{
}

} // verus!
