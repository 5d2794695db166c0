//! Native layouts of convolution data.
//!
//! A native feature cube is NC1HWC2 with C2 = 8: channel planes of eight, then
//! positions, then the channels of the plane. Host data is channel-major.

use crate::arith::ceil_div;
use crate::bytes::{get_u16, half_bytes, halves_seq, le_value, words_bytes, words_seq};
use crate::conv::{
    input_len, law_last_window_ends_within_padding, volume, volume4, weights_len, Conv2dSpec,
    ConvError,
};
use vstd::arithmetic::div_mod::{
    lemma_fundamental_div_mod, lemma_fundamental_div_mod_converse,
};
use vstd::prelude::*;

verus! {

/// Where a channel's value at a position stands in a native cube.
pub open spec fn native_index(spatial: int, channel: int, pos: int) -> int {
    channel / 8 * spatial * 8 + channel % 8 + pos * 8
}

/// The channel whose value stands at index `e` of a native cube.
pub open spec fn native_channel(spatial: int, e: int) -> int {
    e / (spatial * 8) * 8 + e % 8
}

/// The position whose value stands at index `e` of a native cube.
pub open spec fn native_pos(spatial: int, e: int) -> int {
    e % (spatial * 8) / 8
}

/// Index, channel and position determine each other: no two values share a place.
pub proof fn law_native_places_are_distinct(spatial: int, channel: int, pos: int)
    requires
        channel >= 0,
        0 <= pos < spatial,
    ensures
        native_channel(spatial, native_index(spatial, channel, pos)) == channel,
        native_pos(spatial, native_index(spatial, channel, pos)) == pos,
        native_index(spatial, channel, pos) >= 0,
{
    let plane = channel / 8;
    let inner = channel % 8;
    let e = native_index(spatial, channel, pos);
    let per = spatial * 8;
    let rest = inner + pos * 8;
    assert(plane * spatial * 8 == plane * per) by (nonlinear_arith)
        requires
            per == spatial * 8,
    ;
    assert(e == plane * per + rest);
    assert(0 <= rest < per);
    assert(plane * per >= 0) by (nonlinear_arith)
        requires
            plane >= 0,
            per >= 0,
    ;
    lemma_fundamental_div_mod_converse(e, per, plane, rest);
    assert(e % 8 == inner) by {
        let whole = plane * spatial + pos;
        assert(plane * spatial * 8 + pos * 8 == whole * 8) by (nonlinear_arith)
            requires
                whole == plane * spatial + pos,
        ;
        assert(e == whole * 8 + inner);
    }
    assert(rest / 8 == pos);
}

/// What stands at index `e` of the native cube of channel-major data: padding
/// channels hold zero.
pub open spec fn cube_value(data: Seq<u16>, channels: int, spatial: int, e: int) -> u16 {
    let c = native_channel(spatial, e);
    if c < channels {
        data[c * spatial + native_pos(spatial, e)]
    } else {
        0
    }
}

/// The native cube of channel-major data.
pub open spec fn native_cube(data: Seq<u16>, channels: int, padded: int, spatial: int) -> Seq<u16> {
    Seq::new((padded * spatial) as nat, |e: int| cube_value(data, channels, spatial, e))
}

/// A place of the cube in terms of its plane, position and channel of the plane.
proof fn lemma_place(spatial: int, plane: int, pos: int, inner: int)
    requires
        plane >= 0,
        0 <= pos < spatial,
        0 <= inner < 8,
    ensures
        native_channel(spatial, (plane * spatial + pos) * 8 + inner) == plane * 8 + inner,
        native_pos(spatial, (plane * spatial + pos) * 8 + inner) == pos,
{
    let c = plane * 8 + inner;
    law_native_places_are_distinct(spatial, c, pos);
    assert(c / 8 == plane && c % 8 == inner);
    assert((plane * spatial + pos) * 8 + inner == plane * spatial * 8 + inner + pos * 8)
        by (nonlinear_arith);
}

/// A value of channel-major data lies within it.
proof fn lemma_value_within(c: int, channels: int, pos: int, spatial: int)
    requires
        0 <= c < channels,
        0 <= pos < spatial,
    ensures
        0 <= c * spatial + pos < channels * spatial,
        c * spatial >= 0,
{
    assert(c * spatial >= 0) by (nonlinear_arith)
        requires
            c >= 0,
            spatial >= 0,
    ;
    assert(c * spatial + spatial <= channels * spatial) by (nonlinear_arith)
        requires
            c + 1 <= channels,
            spatial >= 0,
    ;
}

/// Lays channel-major values out as a native cube.
pub fn native_values(data: &[u16], channels: usize, padded: usize, spatial: usize) -> (out: Vec<u16>)
    requires
        padded % 8 == 0,
        channels <= padded,
        data@.len() == channels * spatial,
        padded * spatial <= usize::MAX,
    ensures
        out@ == native_cube(data@, channels as int, padded as int, spatial as int),
{
    let planes: usize = padded / 8;
    let mut out: Vec<u16> = Vec::new();
    let mut plane: usize = 0;
    proof {
        assert(0 * spatial == 0) by (nonlinear_arith);
    }
    while plane < planes
        invariant
            planes * 8 == padded,
            channels <= padded,
            plane <= planes,
            data@.len() == channels * spatial,
            padded * spatial <= usize::MAX,
            out@.len() == plane * spatial * 8,
            forall|e: int|
                0 <= e < out@.len() ==> #[trigger] out@[e] == cube_value(
                    data@,
                    channels as int,
                    spatial as int,
                    e,
                ),
        decreases planes - plane,
    {
        let mut pos: usize = 0;
        while pos < spatial
            invariant
                planes * 8 == padded,
                channels <= padded,
                plane < planes,
                pos <= spatial,
                data@.len() == channels * spatial,
                padded * spatial <= usize::MAX,
                out@.len() == (plane * spatial + pos) * 8,
                forall|e: int|
                    0 <= e < out@.len() ==> #[trigger] out@[e] == cube_value(
                        data@,
                        channels as int,
                        spatial as int,
                        e,
                    ),
            decreases spatial - pos,
        {
            let mut inner: usize = 0;
            while inner < 8
                invariant
                    planes * 8 == padded,
                    channels <= padded,
                    plane < planes,
                    pos < spatial,
                    inner <= 8,
                    data@.len() == channels * spatial,
                    padded * spatial <= usize::MAX,
                    out@.len() == (plane * spatial + pos) * 8 + inner,
                    forall|e: int|
                        0 <= e < out@.len() ==> #[trigger] out@[e] == cube_value(
                            data@,
                            channels as int,
                            spatial as int,
                            e,
                        ),
                decreases 8 - inner,
            {
                let c: usize = plane * 8 + inner;
                proof {
                    lemma_place(spatial as int, plane as int, pos as int, inner as int);
                }
                let value: u16 = if c < channels {
                    proof {
                        lemma_value_within(c as int, channels as int, pos as int, spatial as int);
                        lemma_value_within(c as int, padded as int, pos as int, spatial as int);
                    }
                    data[c * spatial + pos]
                } else {
                    0
                };
                out.push(value);
                inner = inner + 1;
            }
            assert((plane * spatial + pos) * 8 + 8 == (plane * spatial + (pos + 1)) * 8)
                by (nonlinear_arith);
            pos = pos + 1;
        }
        assert((plane * spatial + spatial) * 8 == (plane + 1) * spatial * 8) by (nonlinear_arith);
        plane = plane + 1;
    }
    proof {
        assert(planes * spatial * 8 == padded * spatial) by (nonlinear_arith)
            requires
                planes * 8 == padded,
        ;
        assert(out@ =~= native_cube(data@, channels as int, padded as int, spatial as int));
    }
    out
}

/// Lays an input out as the bytes of its native cube.
pub fn pack_input_native(input: &[u16], spec: Conv2dSpec, pic: usize) -> (out: Vec<u8>)
    requires
        pic % 8 == 0,
        spec.ic <= pic,
        spec.ih * spec.iw <= usize::MAX,
        input@.len() == spec.ic * (spec.ih * spec.iw),
        pic * (spec.ih * spec.iw) <= usize::MAX,
    ensures
        out@ == halves_seq(
            native_cube(input@, spec.ic as int, pic as int, spec.ih * spec.iw),
        ),
{
    let spatial: usize = spec.ih * spec.iw;
    half_bytes(native_values(input, spec.ic, pic, spatial).as_slice())
}

/// The bytes of the native cube of a packed input hold each value at its place.
pub proof fn law_packed_value_is_at_its_place(
    input: Seq<u16>,
    channels: int,
    padded: int,
    spatial: int,
    c: int,
    pos: int,
)
    requires
        0 <= c < channels <= padded,
        padded % 8 == 0,
        0 <= pos < spatial,
        input.len() == channels * spatial,
    ensures
        ({
            let e = native_index(spatial, c, pos);
            let bytes = halves_seq(native_cube(input, channels, padded, spatial));
            &&& 0 <= 2 * e && 2 * e + 2 <= bytes.len()
            &&& le_value(bytes.subrange(2 * e, 2 * e + 2)) == input[c * spatial + pos]
        }),
{
    let e = native_index(spatial, c, pos);
    law_native_places_are_distinct(spatial, c, pos);
    lemma_place_within(spatial, c, padded, pos);
    let cube = native_cube(input, channels, padded, spatial);
    crate::bytes::law_half_is_read_back(cube, e);
}

/// A place of a channel within whole planes lies within the cube.
proof fn lemma_place_within(spatial: int, c: int, padded: int, pos: int)
    requires
        0 <= c < padded,
        padded % 8 == 0,
        0 <= pos < spatial,
    ensures
        0 <= native_index(spatial, c, pos) < padded * spatial,
{
    let plane = c / 8;
    assert(plane * 8 + 8 <= padded);
    assert(plane * spatial * 8 + spatial * 8 <= padded * spatial) by (nonlinear_arith)
        requires
            plane * 8 + 8 <= padded,
            spatial >= 0,
    ;
    assert(plane * spatial * 8 >= 0) by (nonlinear_arith)
        requires
            plane >= 0,
            spatial >= 0,
    ;
}

/// Channels of a tile that an output still has.
pub open spec fn tile_logical(oc: int, oc0: int, tile_channels: int) -> int {
    let left = if oc > oc0 {
        oc - oc0
    } else {
        0
    };
    if left < tile_channels {
        left
    } else {
        tile_channels
    }
}

/// What an output holds at `i` once a tile is gathered into it: the tile's own
/// channels come from the tile's cube, all others stay.
pub open spec fn gathered(
    before: Seq<u16>,
    src: Seq<u8>,
    spatial: int,
    oc0: int,
    logical: int,
    i: int,
) -> nat {
    let c = i / spatial - oc0;
    if 0 <= c < logical {
        let e = native_index(spatial, c, i % spatial);
        le_value(src.subrange(2 * e, 2 * e + 2))
    } else {
        before[i] as nat
    }
}

/// Copies a tile's channels out of the bytes of its native cube.
pub fn gather_output_tile(
    src: &[u8],
    oc: usize,
    spatial: usize,
    tile_channels: usize,
    oc0: usize,
    dst: &mut Vec<u16>,
)
    requires
        16 * spatial * ceil_div(tile_logical(oc as int, oc0 as int, tile_channels as int), 8)
            <= src@.len(),
        old(dst)@.len() == oc * spatial,
    ensures
        final(dst)@.len() == old(dst)@.len(),
        forall|i: int|
            0 <= i < final(dst)@.len() ==> (#[trigger] final(dst)@[i]) as nat == gathered(
                old(dst)@,
                src@,
                spatial as int,
                oc0 as int,
                tile_logical(oc as int, oc0 as int, tile_channels as int),
                i,
            ),
{
    let left: usize = oc.saturating_sub(oc0);
    let logical: usize = if left < tile_channels {
        left
    } else {
        tile_channels
    };
    let src_len: usize = src.len();
    let dst_len: usize = dst.len();
    let ghost before = dst@;
    let ghost planes = ceil_div(logical as int, 8);
    let mut local: usize = 0;
    proof {
        assert forall|i: int| 0 <= i < dst@.len() implies (#[trigger] dst@[i]) as nat == gathered(
            before,
            src@,
            spatial as int,
            oc0 as int,
            0,
            i,
        ) by {}
    }
    while local < logical
        invariant
            planes == ceil_div(logical as int, 8),
            16 * spatial * planes <= src_len == src@.len(),
            dst@.len() == oc * spatial == dst_len,
            before.len() == dst@.len(),
            local <= logical,
            logical <= tile_channels,
            logical > 0 ==> oc0 + logical <= oc,
            forall|i: int|
                0 <= i < dst@.len() ==> (#[trigger] dst@[i]) as nat == gathered(
                    before,
                    src@,
                    spatial as int,
                    oc0 as int,
                    local as int,
                    i,
                ),
        decreases logical - local,
    {
        let out_c: usize = oc0 + local;
        let plane: usize = local / 8;
        let ghost start = dst@;
        let mut pos: usize = 0;
        while pos < spatial
            invariant
                planes == ceil_div(logical as int, 8),
                16 * spatial * planes <= src_len == src@.len(),
                dst@.len() == oc * spatial == dst_len,
                before.len() == dst@.len(),
                start.len() == dst@.len(),
                local < logical,
                logical <= tile_channels,
                oc0 + logical <= oc,
                out_c == oc0 + local,
                plane == local / 8,
                pos <= spatial,
                forall|i: int|
                    0 <= i < dst@.len() ==> (#[trigger] dst@[i]) as nat == (if out_c * spatial <= i
                        < out_c * spatial + pos {
                        let e = native_index(spatial as int, local as int, i - out_c * spatial);
                        le_value(src@.subrange(2 * e, 2 * e + 2))
                    } else {
                        start[i] as nat
                    }),
            decreases spatial - pos,
        {
            proof {
                lemma_value_within(out_c as int, oc as int, pos as int, spatial as int);
                lemma_place_within(
                    spatial as int,
                    local as int,
                    planes * 8,
                    pos as int,
                );
                assert(2 * (planes * 8 * spatial) == 16 * spatial * planes) by (nonlinear_arith);
                let at = native_index(spatial as int, local as int, pos as int);
                assert(at <= usize::MAX);
                assert(plane * spatial >= 0) by (nonlinear_arith)
                    requires
                        plane >= 0,
                        spatial >= 0,
                ;
                assert(plane * spatial * 8 <= at);
            }
            let e: usize = plane * spatial * 8 + local % 8 + pos * 8;
            dst[out_c * spatial + pos] = get_u16(src, 2 * e);
            pos = pos + 1;
        }
        proof {
            assert forall|i: int| 0 <= i < dst@.len() implies (#[trigger] dst@[i]) as nat
                == gathered(before, src@, spatial as int, oc0 as int, local + 1, i) by {
                assert(spatial > 0) by {
                    assert(oc * 0 == 0) by (nonlinear_arith);
                }
                lemma_fundamental_div_mod(i, spatial as int);
                let q = i / spatial as int;
                let r = i % spatial as int;
                assert(spatial * q == q * spatial) by (nonlinear_arith);
                if q == out_c {
                    assert(out_c * spatial <= i < out_c * spatial + spatial);
                    assert(i - out_c * spatial == r);
                } else {
                    if out_c * spatial <= i < out_c * spatial + spatial {
                        lemma_fundamental_div_mod_converse(
                            i,
                            spatial as int,
                            out_c as int,
                            i - out_c * spatial,
                        );
                    }
                    assert(dst@[i] == start[i]);
                }
            }
        }
        local = local + 1;
    }
}

/// A cube that holds a whole output gives it back: what was laid out natively is
/// gathered unchanged.
pub proof fn law_gather_undoes_layout(
    data: Seq<u16>,
    oc: int,
    padded: int,
    spatial: int,
    before: Seq<u16>,
    i: int,
)
    requires
        0 < oc <= padded,
        padded % 8 == 0,
        spatial > 0,
        data.len() == oc * spatial,
        0 <= i < oc * spatial,
    ensures
        gathered(
            before,
            halves_seq(native_cube(data, oc, padded, spatial)),
            spatial,
            0,
            tile_logical(oc, 0, padded),
            i,
        ) == data[i],
{
    let c = i / spatial;
    let pos = i % spatial;
    lemma_fundamental_div_mod(i, spatial);
    assert(spatial * c == c * spatial) by (nonlinear_arith);
    assert(0 <= c < oc) by (nonlinear_arith)
        requires
            i == c * spatial + pos,
            0 <= pos < spatial,
            0 <= i < oc * spatial,
    ;
    law_packed_value_is_at_its_place(data, oc, padded, spatial, c, pos);
}

/// The output channel, input channel, kernel row and kernel column of weight `j`.
#[derive(Debug, Clone, Copy, PartialEq, Eq, Structural)]
pub struct WeightPlace {
    pub oc: usize,
    pub ic: usize,
    pub ky: usize,
    pub kx: usize,
}

/// Where a weight stands in host order.
pub open spec fn weight_index(s: Conv2dSpec, p: WeightPlace) -> int {
    ((p.oc * s.ic + p.ic) * s.kh + p.ky) * s.kw + p.kx
}

/// The place of weight `j` in host order.
pub fn weight_place(s: Conv2dSpec, j: usize) -> (p: WeightPlace)
    requires
        s.ic > 0,
        s.kh > 0,
        s.kw > 0,
    ensures
        weight_index(s, p) == j,
        ((p.oc * s.ic + p.ic) * s.kh + p.ky) * s.kw + p.kx == j,
        p.ic < s.ic,
        p.ky < s.kh,
        p.kx < s.kw,
{
    let kx: usize = j % s.kw;
    let rows: usize = j / s.kw;
    let ky: usize = rows % s.kh;
    let planes: usize = rows / s.kh;
    let ic: usize = planes % s.ic;
    let oc: usize = planes / s.ic;
    proof {
        lemma_fundamental_div_mod(j as int, s.kw as int);
        lemma_fundamental_div_mod(rows as int, s.kh as int);
        lemma_fundamental_div_mod(planes as int, s.ic as int);
        assert(s.ic * oc == oc * s.ic) by (nonlinear_arith);
        assert(s.kh * planes == planes * s.kh) by (nonlinear_arith);
        assert(s.kw * rows == rows * s.kw) by (nonlinear_arith);
    }
    WeightPlace { oc, ic, ky, kx }
}

/// `cells` once the first `count` values are put at their indices, later ones
/// over earlier ones.
pub open spec fn scattered(cells: Seq<u16>, index: Seq<usize>, values: Seq<u16>, count: int) -> Seq<
    u16,
>
    decreases count,
{
    if count <= 0 {
        cells
    } else {
        scattered(cells, index, values, count - 1).update(
            index[count - 1] as int,
            values[count - 1],
        )
    }
}

/// Cells that hold zeros.
pub open spec fn zero_cells(count: int) -> Seq<u16> {
    Seq::new(count as nat, |i: int| 0u16)
}

/// Lays weights out as the bytes of their native cube of `cells` values: weight
/// `j` goes to `index[j]`, and all that no weight goes to is zero.
pub fn pack_weights_native(weights: &[u16], index: &[usize], cells: usize) -> (out: Vec<u8>)
    requires
        index@.len() == weights@.len(),
        forall|j: int| 0 <= j < index@.len() ==> #[trigger] index@[j] < cells,
    ensures
        out@ == halves_seq(
            scattered(zero_cells(cells as int), index@, weights@, weights@.len() as int),
        ),
{
    let mut cube: Vec<u16> = Vec::new();
    let mut i: usize = 0;
    while i < cells
        invariant
            i <= cells,
            cube@ == zero_cells(i as int),
        decreases cells - i,
    {
        cube.push(0);
        i = i + 1;
        assert(cube@ =~= zero_cells(i as int));
    }
    let mut j: usize = 0;
    while j < weights.len()
        invariant
            j <= weights@.len(),
            index@.len() == weights@.len(),
            cube@.len() == cells,
            forall|j: int| 0 <= j < index@.len() ==> #[trigger] index@[j] < cells,
            cube@ == scattered(zero_cells(cells as int), index@, weights@, j as int),
        decreases weights@.len() - j,
    {
        cube[index[j]] = weights[j];
        j = j + 1;
    }
    half_bytes(cube.as_slice())
}

/// Where no two weights share a place, each weight is found at its own.
pub proof fn law_packed_weights_are_at_their_places(
    cells: Seq<u16>,
    index: Seq<usize>,
    values: Seq<u16>,
    count: int,
    j: int,
)
    requires
        0 <= j < count <= index.len(),
        index.len() == values.len(),
        forall|a: int| 0 <= a < index.len() ==> #[trigger] index[a] < cells.len(),
        forall|a: int, b: int|
            #![trigger index[a], index[b]]
            0 <= a < b < index.len() ==> index[a] != index[b],
    ensures
        scattered(cells, index, values, count).len() == cells.len(),
        scattered(cells, index, values, count)[index[j] as int] == values[j],
    decreases count,
{
    lemma_scattered_len(cells, index, values, count - 1);
    if j < count - 1 {
        law_packed_weights_are_at_their_places(cells, index, values, count - 1, j);
        assert(index[j] != index[count - 1]);
    }
}

proof fn lemma_scattered_len(cells: Seq<u16>, index: Seq<usize>, values: Seq<u16>, count: int)
    requires
        count <= index.len(),
        forall|a: int| 0 <= a < index.len() ==> #[trigger] index[a] < cells.len(),
    ensures
        scattered(cells, index, values, count).len() == cells.len(),
    decreases count,
{
    if count > 0 {
        lemma_scattered_len(cells, index, values, count - 1);
        assert(index[count - 1] < cells.len());
    }
}

/// The image of a register command buffer: the commands, then zeros.
pub open spec fn regcmd_image(ops: Seq<u64>, len: int) -> Seq<u8> {
    words_seq(ops) + Seq::new((len - 8 * ops.len()) as nat, |i: int| 0u8)
}

/// Writes register commands into a buffer of `len` bytes.
pub fn write_regcmd(ops: &[u64], len: usize) -> (r: Result<Vec<u8>, ConvError>)
    ensures
        match r {
            Ok(out) => {
                &&& 8 * ops@.len() <= len
                &&& out@ == regcmd_image(ops@, len as int)
                &&& out@.len() == len
            },
            Err(e) => {
                &&& 8 * ops@.len() > len
                &&& e matches ConvError::Internal(m)
                &&& m@ == "regcmd BO too small"@
            },
        },
{
    let fits = match ops.len().checked_mul(8) {
        Some(bytes) => bytes <= len,
        None => false,
    };
    if !fits {
        return Err(ConvError::Internal("regcmd BO too small"));
    }
    let mut out: Vec<u8> = words_bytes(ops);
    while out.len() < len
        invariant
            8 * ops@.len() <= out@.len() <= len,
            words_seq(ops@).len() == 8 * ops@.len(),
            out@ == regcmd_image(ops@, out@.len() as int),
        decreases len - out@.len(),
    {
        out.push(0);
        assert(out@ =~= regcmd_image(ops@, out@.len() as int));
    }
    Ok(out)
}

/// One product of a convolution: which input value meets which weight.
#[derive(Debug, Clone, Copy, PartialEq, Eq, Structural)]
pub struct Tap {
    pub input: usize,
    pub weight: usize,
}

/// The input row or column that a kernel step meets, if it is not padding.
pub open spec fn met(out: int, stride: int, step: int, pad: int, side: int) -> Option<int> {
    let at = out * stride + step - pad;
    if 0 <= at < side {
        Some(at)
    } else {
        None
    }
}

/// The product of step `j` of an output value, if that step meets the input.
pub open spec fn tap_at(s: Conv2dSpec, oc: int, oy: int, ox: int, j: int) -> Option<Tap> {
    let kx = j % s.kw as int;
    let ky = j / s.kw as int % s.kh as int;
    let ic = j / s.kw as int / s.kh as int;
    match (
        met(oy, s.stride_y as int, ky, s.pad_top as int, s.ih as int),
        met(ox, s.stride_x as int, kx, s.pad_left as int, s.iw as int),
    ) {
        (Some(y), Some(x)) => Some(
            Tap {
                input: ((ic * s.ih + y) * s.iw + x) as usize,
                weight: (((oc * s.ic + ic) * s.kh + ky) * s.kw + kx) as usize,
            },
        ),
        _ => None,
    }
}

/// The products of the first `count` steps of an output value, in order.
pub open spec fn taps_upto(s: Conv2dSpec, oc: int, oy: int, ox: int, count: int) -> Seq<Tap>
    decreases count,
{
    if count <= 0 {
        Seq::empty()
    } else {
        match tap_at(s, oc, oy, ox, count - 1) {
            Some(tap) => taps_upto(s, oc, oy, ox, count - 1).push(tap),
            None => taps_upto(s, oc, oy, ox, count - 1),
        }
    }
}

/// The products that make up one output value, in the order in which they are
/// added up.
pub fn taps(s: Conv2dSpec, oc: usize, oy: usize, ox: usize) -> (out: Vec<Tap>)
    requires
        s.valid(),
        s.countable(),
        input_len(s) <= usize::MAX,
        weights_len(s) <= usize::MAX,
        oc < s.oc,
        oy < s.spec_output_h(),
        ox < s.spec_output_w(),
    ensures
        out@ == taps_upto(
            s,
            oc as int,
            oy as int,
            ox as int,
            volume(s.ic as int, s.kh as int, s.kw as int),
        ),
        forall|i: int|
            0 <= i < out@.len() ==> (#[trigger] out@[i]).input < input_len(s) && out@[i].weight
                < weights_len(s),
{
    let mut out: Vec<Tap> = Vec::new();
    proof {
        law_last_window_ends_within_padding(s);
        lemma_window(oy as int, s.spec_output_h(), s.stride_y as int);
        lemma_window(ox as int, s.spec_output_w(), s.stride_x as int);
        lemma_step_count(s);
    }
    let steps: usize = s.ic * s.kh * s.kw;
    let mut j: usize = 0;
    while j < steps
        invariant
            s.valid(),
            s.countable(),
            input_len(s) <= usize::MAX,
            weights_len(s) <= usize::MAX,
            oc < s.oc,
            0 <= oy * s.stride_y,
            oy * s.stride_y + s.kh <= s.ih + 2 * s.pad_top,
            0 <= ox * s.stride_x,
            ox * s.stride_x + s.kw <= s.iw + 2 * s.pad_left,
            j <= steps,
            steps == volume(s.ic as int, s.kh as int, s.kw as int),
            out@ == taps_upto(s, oc as int, oy as int, ox as int, j as int),
            forall|i: int|
                0 <= i < out@.len() ==> (#[trigger] out@[i]).input < input_len(s) && out@[i].weight
                    < weights_len(s),
        decreases steps - j,
    {
        let kx: usize = j % s.kw;
        let rows: usize = j / s.kw;
        let ky: usize = rows % s.kh;
        let ic: usize = rows / s.kh;
        proof {
            lemma_step(s, j as int);
        }
        let yy: usize = oy * s.stride_y + ky;
        let xx: usize = ox * s.stride_x + kx;
        if yy >= s.pad_top && xx >= s.pad_left {
            let y: usize = yy - s.pad_top;
            let x: usize = xx - s.pad_left;
            if y < s.ih && x < s.iw {
                proof {
                    lemma_index3(ic as int, y as int, x as int, s.ic as int, s.ih as int, s.iw as int);
                    lemma_index4(
                        oc as int,
                        ic as int,
                        ky as int,
                        kx as int,
                        s.oc as int,
                        s.ic as int,
                        s.kh as int,
                        s.kw as int,
                    );
                }
                out.push(
                    Tap {
                        input: (ic * s.ih + y) * s.iw + x,
                        weight: ((oc * s.ic + ic) * s.kh + ky) * s.kw + kx,
                    },
                );
            }
        }
        j = j + 1;
    }
    out
}

/// A window of the output starts no later than the last one.
proof fn lemma_window(out: int, count: int, stride: int)
    requires
        0 <= out < count,
        1 <= stride <= 2,
    ensures
        0 <= out * stride <= (count - 1) * stride,
{
    assert(0 <= out * stride <= (count - 1) * stride) by (nonlinear_arith)
        requires
            0 <= out <= count - 1,
            stride >= 0,
    ;
}

/// There are no more steps than weights.
proof fn lemma_step_count(s: Conv2dSpec)
    requires
        s.valid(),
        weights_len(s) <= usize::MAX,
    ensures
        0 <= s.ic * s.kh <= volume(s.ic as int, s.kh as int, s.kw as int) <= usize::MAX,
{
    let (a, b, c, d) = (s.oc as int, s.ic as int, s.kh as int, s.kw as int);
    let v = b * c * d;
    assert(a * b * c * d == a * v) by (nonlinear_arith)
        requires
            v == b * c * d,
    ;
    assert(b * c >= 0) by (nonlinear_arith)
        requires
            b >= 0,
            c >= 0,
    ;
    assert(v >= b * c) by (nonlinear_arith)
        requires
            v == b * c * d,
            b * c >= 0,
            d >= 1,
    ;
    assert(a * v >= v) by (nonlinear_arith)
        requires
            a >= 1,
            v >= 0,
    ;
}

/// The parts of a step lie within their sides.
proof fn lemma_step(s: Conv2dSpec, j: int)
    requires
        s.valid(),
        0 <= j < volume(s.ic as int, s.kh as int, s.kw as int),
    ensures
        0 <= j % (s.kw as int) < s.kw,
        0 <= j / (s.kw as int) % (s.kh as int) < s.kh,
        0 <= j / (s.kw as int) / (s.kh as int) < s.ic,
{
    let (b, c, d) = (s.ic as int, s.kh as int, s.kw as int);
    let rows = j / d;
    lemma_fundamental_div_mod(j, d);
    assert(0 <= rows < b * c) by (nonlinear_arith)
        requires
            j == d * rows + j % d,
            0 <= j % d < d,
            0 <= j < b * c * d,
    ;
    lemma_fundamental_div_mod(rows, c);
    let q = rows / c;
    assert(0 <= q < b) by (nonlinear_arith)
        requires
            rows == c * q + rows % c,
            0 <= rows % c < c,
            0 <= rows < b * c,
    ;
}

/// An index into a cube lies within it, with all its parts.
proof fn lemma_index3(a: int, b: int, c: int, na: int, nb: int, nc: int)
    requires
        0 <= a < na,
        0 <= b < nb,
        0 <= c < nc,
    ensures
        0 <= a * nb <= a * nb + b <= (a * nb + b) * nc <= (a * nb + b) * nc + c < volume(
            na,
            nb,
            nc,
        ),
{
    lemma_value_within(a, na, b, nb);
    let row = a * nb + b;
    lemma_value_within(row, na * nb, c, nc);
    assert(row <= row * nc) by (nonlinear_arith)
        requires
            row >= 0,
            nc >= 1,
    ;
}

/// An index into a four-sided block lies within it, with all its parts.
proof fn lemma_index4(
    a: int,
    b: int,
    c: int,
    d: int,
    na: int,
    nb: int,
    nc: int,
    nd: int,
)
    requires
        0 <= a < na,
        0 <= b < nb,
        0 <= c < nc,
        0 <= d < nd,
    ensures
        0 <= a * nb <= a * nb + b <= (a * nb + b) * nc <= (a * nb + b) * nc + c <= ((a * nb + b)
            * nc + c) * nd <= ((a * nb + b) * nc + c) * nd + d < volume4(na, nb, nc, nd),
{
    lemma_index3(a, b, c, na, nb, nc);
    let row = (a * nb + b) * nc + c;
    lemma_value_within(row, na * nb * nc, d, nd);
    assert(row <= row * nd) by (nonlinear_arith)
        requires
            row >= 0,
            nd >= 1,
    ;
}

/// A number that is put together from a quotient and a rest is taken apart again.
proof fn lemma_taken_apart(q: int, r: int, d: int)
    requires
        0 <= r < d,
    ensures
        (q * d + r) / d == q,
        (q * d + r) % d == r,
{
    lemma_fundamental_div_mod_converse(q * d + r, d, q, r);
}

/// The parts of a place among four sides are read off its number.
proof fn lemma_place_parts(plane: int, ky: int, kx: int, kh: int, kw: int)
    requires
        plane >= 0,
        0 <= ky < kh,
        0 <= kx < kw,
    ensures
        ((plane * kh + ky) * kw + kx) % kw == kx,
        ((plane * kh + ky) * kw + kx) / kw % kh == ky,
        ((plane * kh + ky) * kw + kx) / kw / kh == plane,
        ((plane * kh + ky) * kw + kx) / (kh * kw) == plane,
        kh * kw > 0,
{
    let w = (plane * kh + ky) * kw + kx;
    lemma_taken_apart(plane * kh + ky, kx, kw);
    lemma_taken_apart(plane, ky, kh);
    let rest = ky * kw + kx;
    assert(w == plane * (kh * kw) + rest) by (nonlinear_arith)
        requires
            w == (plane * kh + ky) * kw + kx,
            rest == ky * kw + kx,
    ;
    assert(0 <= rest < kh * kw) by (nonlinear_arith)
        requires
            rest == ky * kw + kx,
            0 <= ky,
            ky + 1 <= kh,
            0 <= kx < kw,
    ;
    lemma_taken_apart(plane, rest, kh * kw);
}

/// The product of a step, if it has one, names the weight of that step.
proof fn lemma_tap(s: Conv2dSpec, oc: int, oy: int, ox: int, j: int)
    requires
        s.valid(),
        input_len(s) <= usize::MAX,
        weights_len(s) <= usize::MAX,
        0 <= oc < s.oc,
        0 <= j < s.ic * s.kh * s.kw,
        tap_at(s, oc, oy, ox, j) is Some,
    ensures
        ({
            let t = tap_at(s, oc, oy, ox, j)->0;
            let (w, x) = (t.weight as int, t.input as int);
            let channel = w / (s.kh * s.kw) - oc * s.ic;
            &&& w == oc * (s.ic * s.kh * s.kw) + j
            &&& 0 <= channel < s.ic
            &&& x / (s.ih * s.iw) == channel
            &&& x / (s.iw as int) % (s.ih as int) == oy * s.stride_y + w / (s.kw as int) % (
            s.kh as int) - s.pad_top
            &&& x % (s.iw as int) == ox * s.stride_x + w % (s.kw as int) - s.pad_left
        }),
{
    lemma_step(s, j);
    let (kh, kw) = (s.kh as int, s.kw as int);
    let kx = j % kw;
    let rows = j / kw;
    let ky = rows % kh;
    let ic = rows / kh;
    let y = oy * s.stride_y + ky - s.pad_top;
    let x = ox * s.stride_x + kx - s.pad_left;
    lemma_index3(ic, y, x, s.ic as int, s.ih as int, s.iw as int);
    lemma_index4(oc, ic, ky, kx, s.oc as int, s.ic as int, kh, kw);
    let plane = oc * s.ic + ic;
    lemma_place_parts(plane, ky, kx, kh, kw);
    lemma_place_parts(ic, y, x, s.ih as int, s.iw as int);
    lemma_fundamental_div_mod(j, kw);
    lemma_fundamental_div_mod(rows, kh);
    let n = s.ic as int;
    assert((plane * kh + ky) * kw + kx == oc * (n * kh * kw) + j) by (nonlinear_arith)
        requires
            plane == oc * n + ic,
            j == kw * rows + kx,
            rows == kh * ic + ky,
    ;
}

/// Each product of an output value pairs a weight of that output channel with an
/// input value of the same input channel, and the input's row and column are those
/// that the window puts under the weight's row and column.
pub proof fn law_taps_pair_weights_with_their_inputs(
    s: Conv2dSpec,
    oc: int,
    oy: int,
    ox: int,
    count: int,
    i: int,
)
    requires
        s.valid(),
        input_len(s) <= usize::MAX,
        weights_len(s) <= usize::MAX,
        0 <= oc < s.oc,
        0 <= count <= s.ic * s.kh * s.kw,
        0 <= i < taps_upto(s, oc, oy, ox, count).len(),
    ensures
        ({
            let t = taps_upto(s, oc, oy, ox, count)[i];
            let (w, x) = (t.weight as int, t.input as int);
            let channel = w / (s.kh * s.kw) - oc * s.ic;
            &&& 0 <= channel < s.ic
            &&& x / (s.ih * s.iw) == channel
            &&& x / (s.iw as int) % (s.ih as int) == oy * s.stride_y + w / (s.kw as int) % (
            s.kh as int) - s.pad_top
            &&& x % (s.iw as int) == ox * s.stride_x + w % (s.kw as int) - s.pad_left
            &&& w < oc * (s.ic * s.kh * s.kw) + count
        }),
    decreases count,
{
    if count > 0 {
        let before = taps_upto(s, oc, oy, ox, count - 1);
        if i < before.len() {
            law_taps_pair_weights_with_their_inputs(s, oc, oy, ox, count - 1, i);
        } else {
            lemma_tap(s, oc, oy, ox, count - 1);
        }
    }
}

/// The products of an output value go through the weights in order, none of them
/// twice, and no input value of a window is used twice.
pub proof fn law_taps_use_nothing_twice(
    s: Conv2dSpec,
    oc: int,
    oy: int,
    ox: int,
    count: int,
    i: int,
    j: int,
)
    requires
        s.valid(),
        input_len(s) <= usize::MAX,
        weights_len(s) <= usize::MAX,
        0 <= oc < s.oc,
        0 <= count <= s.ic * s.kh * s.kw,
        0 <= i < j < taps_upto(s, oc, oy, ox, count).len(),
    ensures
        taps_upto(s, oc, oy, ox, count)[i].weight < taps_upto(s, oc, oy, ox, count)[j].weight,
        taps_upto(s, oc, oy, ox, count)[i].input != taps_upto(s, oc, oy, ox, count)[j].input,
    decreases count,
{
    let taps = taps_upto(s, oc, oy, ox, count);
    if count > 0 {
        let before = taps_upto(s, oc, oy, ox, count - 1);
        if j < before.len() {
            law_taps_use_nothing_twice(s, oc, oy, ox, count - 1, i, j);
        } else {
            law_taps_pair_weights_with_their_inputs(s, oc, oy, ox, count - 1, i);
            lemma_tap(s, oc, oy, ox, count - 1);
            law_taps_pair_weights_with_their_inputs(s, oc, oy, ox, count, i);
            law_taps_pair_weights_with_their_inputs(s, oc, oy, ox, count, j);
            let (kh, kw) = (s.kh as int, s.kw as int);
            let (a, b) = (taps[i].weight as int, taps[j].weight as int);
            if taps[i].input == taps[j].input {
                vstd::arithmetic::div_mod::lemma_div_denominator(a, kw, kh);
                vstd::arithmetic::div_mod::lemma_div_denominator(b, kw, kh);
                assert(kw * kh == kh * kw) by (nonlinear_arith);
                lemma_fundamental_div_mod(a, kw);
                lemma_fundamental_div_mod(b, kw);
                lemma_fundamental_div_mod(a / kw, kh);
                lemma_fundamental_div_mod(b / kw, kh);
                assert(a == b);
            }
        }
    }
}

/// Every weight of the output channel that the window puts over an input value is
/// multiplied with it: nothing within the input is left out.
pub proof fn law_taps_leave_nothing_out(
    s: Conv2dSpec,
    oc: int,
    oy: int,
    ox: int,
    ic: int,
    ky: int,
    kx: int,
)
    requires
        s.valid(),
        input_len(s) <= usize::MAX,
        weights_len(s) <= usize::MAX,
        0 <= oc < s.oc,
        0 <= ic < s.ic,
        0 <= ky < s.kh,
        0 <= kx < s.kw,
        0 <= oy * s.stride_y + ky - s.pad_top < s.ih,
        0 <= ox * s.stride_x + kx - s.pad_left < s.iw,
    ensures
        exists|i: int|
            0 <= i < taps_upto(s, oc, oy, ox, s.ic * s.kh * s.kw).len() && (#[trigger] taps_upto(
                s,
                oc,
                oy,
                ox,
                s.ic * s.kh * s.kw,
            )[i]).weight == ((oc * s.ic + ic) * s.kh + ky) * s.kw + kx,
{
    let (kh, kw) = (s.kh as int, s.kw as int);
    let j = (ic * kh + ky) * kw + kx;
    let all = s.ic * s.kh * s.kw;
    lemma_place_parts(ic, ky, kx, kh, kw);
    lemma_index3(ic, ky, kx, s.ic as int, kh, kw);
    assert(tap_at(s, oc, oy, ox, j) is Some);
    lemma_tap(s, oc, oy, ox, j);
    let t = tap_at(s, oc, oy, ox, j)->0;
    let n = s.ic as int;
    assert(((oc * n + ic) * kh + ky) * kw + kx == oc * (n * kh * kw) + j) by (nonlinear_arith)
        requires
            j == (ic * kh + ky) * kw + kx,
    ;
    lemma_tap_is_listed(s, oc, oy, ox, j, all);
}

proof fn lemma_tap_is_listed(s: Conv2dSpec, oc: int, oy: int, ox: int, j: int, count: int)
    requires
        0 <= j < count,
        tap_at(s, oc, oy, ox, j) is Some,
    ensures
        exists|i: int|
            0 <= i < taps_upto(s, oc, oy, ox, count).len() && #[trigger] taps_upto(
                s,
                oc,
                oy,
                ox,
                count,
            )[i] == tap_at(s, oc, oy, ox, j)->0,
    decreases count,
{
    let t = tap_at(s, oc, oy, ox, j)->0;
    let before = taps_upto(s, oc, oy, ox, count - 1);
    let after = taps_upto(s, oc, oy, ox, count);
    if j == count - 1 {
        assert(after[before.len() as int] == t);
    } else {
        lemma_tap_is_listed(s, oc, oy, ox, j, count - 1);
        let i = choose|i: int| 0 <= i < before.len() && #[trigger] before[i] == t;
        assert(after[i] == t);
    }
}

/// The weight that stands at a place is the one that the convolution multiplies
/// there: a product with that weight meets the input channel of the place, in the
/// row and the column that the window puts under it. Weights lie with the kernel
/// columns innermost and the output channels outermost.
pub proof fn law_packed_weights_meet_their_inputs(
    s: Conv2dSpec,
    p: WeightPlace,
    oy: int,
    ox: int,
    i: int,
)
    requires
        s.valid(),
        input_len(s) <= usize::MAX,
        weights_len(s) <= usize::MAX,
        p.oc < s.oc,
        p.ic < s.ic,
        p.ky < s.kh,
        p.kx < s.kw,
        0 <= i < taps_upto(s, p.oc as int, oy, ox, s.ic * s.kh * s.kw).len(),
        taps_upto(s, p.oc as int, oy, ox, s.ic * s.kh * s.kw)[i].weight == weight_index(s, p),
    ensures
        ({
            let x = taps_upto(s, p.oc as int, oy, ox, s.ic * s.kh * s.kw)[i].input as int;
            &&& x / (s.ih * s.iw) == p.ic
            &&& x / (s.iw as int) % (s.ih as int) == oy * s.stride_y + p.ky - s.pad_top
            &&& x % (s.iw as int) == ox * s.stride_x + p.kx - s.pad_left
        }),
{
    law_taps_pair_weights_with_their_inputs(
        s,
        p.oc as int,
        oy,
        ox,
        s.ic * s.kh * s.kw,
        i,
    );
    lemma_index3(
        p.oc as int,
        p.ic as int,
        p.ky as int,
        s.oc as int,
        s.ic as int,
        s.kh as int,
    );
    lemma_place_parts(
        p.oc * s.ic + p.ic,
        p.ky as int,
        p.kx as int,
        s.kh as int,
        s.kw as int,
    );
}

/// The place of a weight follows from its number alone: kernel columns run
/// innermost, then kernel rows, input channels and output channels.
pub proof fn law_weights_lie_kernel_columns_innermost(s: Conv2dSpec, p: WeightPlace, j: int)
    requires
        p.ic < s.ic,
        p.ky < s.kh,
        p.kx < s.kw,
        weight_index(s, p) == j,
    ensures
        p.kx == j % (s.kw as int),
        p.ky == j / (s.kw as int) % (s.kh as int),
        p.ic == j / (s.kw as int) / (s.kh as int) % (s.ic as int),
        p.oc == j / (s.kw as int) / (s.kh as int) / (s.ic as int),
{
    let (oc, ic, ky, kx) = (p.oc as int, p.ic as int, p.ky as int, p.kx as int);
    assert(oc * s.ic >= 0) by (nonlinear_arith)
        requires
            oc >= 0,
    ;
    lemma_place_parts(oc * s.ic + ic, ky, kx, s.kh as int, s.kw as int);
    lemma_taken_apart(oc, ic, s.ic as int);
}

/// A native cube starts with the first channel at the first position. The channels
/// of a plane of eight stand side by side, the next position follows after eight
/// values, and the next plane after all positions.
pub proof fn law_native_cubes_are_planes_of_eight(spatial: int, channel: int, pos: int)
    requires
        channel >= 0,
    ensures
        native_index(spatial, 0, 0) == 0,
        channel % 8 != 7 ==> native_index(spatial, channel + 1, pos) == native_index(
            spatial,
            channel,
            pos,
        ) + 1,
        native_index(spatial, channel, pos + 1) == native_index(spatial, channel, pos) + 8,
        native_index(spatial, channel + 8, pos) == native_index(spatial, channel, pos) + 8
            * spatial,
{
    assert(0int / 8 * spatial * 8 == 0) by (nonlinear_arith);
    assert((channel + 8) / 8 == channel / 8 + 1 && (channel + 8) % 8 == channel % 8);
    let plane = channel / 8;
    assert((plane + 1) * spatial * 8 == plane * spatial * 8 + spatial * 8) by (nonlinear_arith);
    if channel % 8 != 7 {
        assert((channel + 1) / 8 == plane && (channel + 1) % 8 == channel % 8 + 1);
    }
}

/// A native cube holds the data and nothing else: the value of each channel at
/// each position, and zeros in the channels that only fill it up.
pub proof fn law_native_cube_holds_the_data(
    data: Seq<u16>,
    channels: int,
    padded: int,
    spatial: int,
    c: int,
    pos: int,
)
    requires
        0 <= channels <= padded,
        padded % 8 == 0,
        data.len() == channels * spatial,
        0 <= c < padded,
        0 <= pos < spatial,
    ensures
        native_cube(data, channels, padded, spatial).len() == padded * spatial,
        0 <= c / 8 * spatial * 8 + pos * 8 + c % 8 < padded * spatial,
        native_cube(data, channels, padded, spatial)[c / 8 * spatial * 8 + pos * 8 + c % 8] == (
        if c < channels {
            data[c * spatial + pos]
        } else {
            0
        }),
{
    law_native_places_are_distinct(spatial, c, pos);
    lemma_place_within(spatial, c, padded, pos);
    lemma_value_within(c, padded, pos, spatial);
}

/// A tile has as many channels of an output as the output still has from there on,
/// and no more than the tile is wide.
pub proof fn law_tiles_end_with_the_output(oc: int, oc0: int, tile_channels: int)
    requires
        oc >= 0,
        oc0 >= 0,
        tile_channels >= 0,
    ensures
        ({
            let logical = tile_logical(oc, oc0, tile_channels);
            &&& 0 <= logical <= tile_channels
            &&& oc0 <= oc ==> oc0 + logical <= oc
            &&& oc0 + tile_channels <= oc ==> logical == tile_channels
            &&& oc0 <= oc < oc0 + tile_channels ==> oc0 + logical == oc
            &&& oc <= oc0 ==> logical == 0
        }),
{
}

/// Gathering a tile puts each channel of the tile's cube into its own channel of
/// the output, position by position, and leaves all other channels alone.
pub proof fn law_gathered_channels_are_the_tiles_own(
    before: Seq<u16>,
    src: Seq<u8>,
    spatial: int,
    oc0: int,
    logical: int,
    channel: int,
    pos: int,
)
    requires
        0 <= pos < spatial,
        channel >= 0,
        oc0 >= 0,
        logical >= 0,
    ensures
        ({
            let c = channel - oc0;
            let e = c / 8 * spatial * 8 + pos * 8 + c % 8;
            gathered(before, src, spatial, oc0, logical, channel * spatial + pos) == (if oc0
                <= channel < oc0 + logical {
                le_value(src.subrange(2 * e, 2 * e + 2))
            } else {
                before[channel * spatial + pos] as nat
            })
        }),
{
    lemma_taken_apart(channel, pos, spatial);
}

/// A place that no weight goes to keeps what it held.
pub proof fn law_other_cells_stay(
    cells: Seq<u16>,
    index: Seq<usize>,
    values: Seq<u16>,
    count: int,
    at: int,
)
    requires
        0 <= count <= index.len(),
        0 <= at < cells.len(),
        forall|a: int| 0 <= a < index.len() ==> #[trigger] index[a] < cells.len(),
        forall|a: int| 0 <= a < count ==> #[trigger] index[a] != at,
    ensures
        scattered(cells, index, values, count)[at] == cells[at],
    decreases count,
{
    if count > 0 {
        lemma_scattered_len(cells, index, values, count - 1);
        law_other_cells_stay(cells, index, values, count - 1, at);
        assert(index[count - 1] != at);
    }
}

/// Weights are laid out in a cube of zeros.
pub proof fn law_empty_cells_are_zero(count: int, at: int)
    requires
        0 <= at < count,
    ensures
        zero_cells(count).len() == count,
        zero_cells(count)[at] == 0,
{
}

/// A command buffer holds its commands from the start on, eight bytes each and in
/// order.
pub proof fn law_commands_are_read_back(ops: Seq<u64>, len: int, i: int)
    requires
        8 * ops.len() <= len,
        0 <= i < ops.len(),
    ensures
        regcmd_image(ops, len).len() == len,
        le_value(regcmd_image(ops, len).subrange(8 * i, 8 * i + 8)) == ops[i],
{
    crate::bytes::lemma_words_len(ops);
    crate::bytes::law_words_are_read_back(ops, i);
    assert(regcmd_image(ops, len).subrange(8 * i, 8 * i + 8) =~= words_seq(ops).subrange(
        8 * i,
        8 * i + 8,
    ));
}

/// A command buffer holds zeros behind its commands.
pub proof fn law_commands_end_in_zeros(ops: Seq<u64>, len: int, at: int)
    requires
        8 * ops.len() <= at < len,
    ensures
        regcmd_image(ops, len).len() == len,
        regcmd_image(ops, len)[at] == 0,
{
    crate::bytes::lemma_words_len(ops);
}

/// The products that are listed pair an input value and a weight of one input
/// channel, at the row and column that the kernel covers there.
pub proof fn law_listed_products_are_of_one_channel(
    s: Conv2dSpec,
    oc: usize,
    oy: usize,
    ox: usize,
    out: Vec<Tap>,
    i: int,
)
    requires
        call_ensures(taps, (s, oc, oy, ox), out),
        s.valid(),
        input_len(s) <= usize::MAX,
        weights_len(s) <= usize::MAX,
        oc < s.oc,
        0 <= i < out@.len(),
    ensures
        ({
            let (w, x) = (out@[i].weight as int, out@[i].input as int);
            &&& x / (s.ih * s.iw) == w / (s.kh * s.kw) - oc * s.ic
            &&& x / (s.iw as int) % (s.ih as int) == oy * s.stride_y + w / (s.kw as int) % (
            s.kh as int) - s.pad_top
            &&& x % (s.iw as int) == ox * s.stride_x + w % (s.kw as int) - s.pad_left
        }),
{
    let count = s.ic * s.kh * s.kw;
    assert(count >= 0) by (nonlinear_arith)
        requires
            count == s.ic * s.kh * s.kw,
    ;
    law_taps_pair_weights_with_their_inputs(s, oc as int, oy as int, ox as int, count, i);
}

/// The place of a weight is where it lies in the host's order, the kernel column
/// innermost, and no two weights have one place.
pub proof fn law_weights_have_their_own_places(
    s: Conv2dSpec,
    j: usize,
    other: usize,
    p: WeightPlace,
    q: WeightPlace,
)
    requires
        call_ensures(weight_place, (s, j), p),
        call_ensures(weight_place, (s, other), q),
        s.ic > 0,
        s.kh > 0,
        s.kw > 0,
    ensures
        p.kx == j as int % (s.kw as int),
        p.ky == j as int / (s.kw as int) % (s.kh as int),
        p.ic == j as int / (s.kw as int) / (s.kh as int) % (s.ic as int),
        p.oc == j as int / (s.kw as int) / (s.kh as int) / (s.ic as int),
        p == q ==> j == other,
{
    law_weights_lie_kernel_columns_innermost(s, p, j as int);
}

} // verus!
