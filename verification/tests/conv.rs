use half::f16;
use rocknpu::conv::{
    align_up, check_dma, execute_prepared, plan_execute, prepare_weights, validate, validate_spec,
    Conv2dSpec, ConvError, ConvExecutionTiming, ConvScratchStats, PreparedConv, Scratch, Slot,
    TileTiming,
};
use rocknpu::conv_layout::{
    gather_output_tile, native_values, pack_input_native, pack_weights_native, taps, weight_place,
    write_regcmd, Tap, WeightPlace,
};
use rocknpu::conv_tiles::{tile_task, tile_weights_dma, EncodeStage, Encoding, OcTile, TilePlan};

fn spec() -> Conv2dSpec {
    Conv2dSpec {
        ic: 1,
        ih: 8,
        iw: 8,
        oc: 2,
        kh: 5,
        kw: 5,
        pad_top: 2,
        pad_left: 2,
        stride_y: 1,
        stride_x: 1,
    }
}

fn cpu(s: Conv2dSpec, input: &[f16], weights: &[f16]) -> Vec<f32> {
    let mut out = Vec::new();
    for oc in 0..s.oc {
        for oy in 0..s.output_h() {
            for ox in 0..s.output_w() {
                let mut acc = 0.0f32;
                for tap in taps(s, oc, oy, ox) {
                    acc += input[tap.input].to_f32() * weights[tap.weight].to_f32();
                }
                out.push(acc);
            }
        }
    }
    out
}

#[test]
fn cpu_shape_and_padding_math() {
    let s = spec();
    let a = vec![f16::ONE; 64];
    let w = vec![f16::ONE; 2 * 25];
    let o = cpu(s, &a, &w);
    assert_eq!(o.len(), 2 * 64);
    assert_eq!(o[3 * 8 + 3], 25.0);
    assert_eq!(o[0], 9.0);
}

#[test]
fn windows_step_by_the_stride() {
    let s = Conv2dSpec { kh: 3, kw: 3, pad_top: 1, pad_left: 0, stride_y: 2, stride_x: 2, ..spec() };
    assert_eq!((s.output_h(), s.output_w()), (4, 3));
    let first = taps(s, 1, 0, 0);
    assert_eq!(first.len(), 6);
    assert_eq!(first[0], Tap { input: 0, weight: 9 + 3 });
}

fn refused(e: ConvError) -> String {
    e.message()
}

#[test]
fn shapes_are_checked_in_order() {
    assert!(validate_spec(spec()).is_ok());
    let dims = "invalid fp16 Conv2D input: nonzero dimensions, IH>=4, and stride 1..=2 required";
    for bad in [
        Conv2dSpec { ic: 0, ..spec() },
        Conv2dSpec { ih: 3, ..spec() },
        Conv2dSpec { stride_x: 3, ..spec() },
        Conv2dSpec { kw: 0, ..spec() },
    ] {
        assert_eq!(refused(validate_spec(bad).unwrap_err()), dims);
    }
    let wide = Conv2dSpec { kw: 13, ..spec() };
    assert_eq!(
        refused(validate_spec(wide).unwrap_err()),
        "invalid fp16 Conv2D input: kernel exceeds padded input"
    );
    assert!(validate(spec(), 64, 50).is_ok());
    assert_eq!(
        refused(validate(spec(), 63, 50).unwrap_err()),
        "invalid fp16 Conv2D input: input/weight length mismatch"
    );
    assert!(validate(spec(), 64, 51).is_err());
    assert_eq!(align_up(33, 32).unwrap(), 64);
    assert_eq!(
        refused(align_up(usize::MAX, 32).unwrap_err()),
        "invalid fp16 Conv2D input: alignment overflow"
    );
}

#[test]
fn cubes_are_sized_by_padded_channels() {
    let sizes = plan_execute(spec(), 64, 50).unwrap();
    assert_eq!((sizes.pic, sizes.poc, sizes.oh, sizes.ow), (32, 16, 8, 8));
    assert_eq!((sizes.in_bytes, sizes.wt_bytes, sizes.out_bytes), (4096, 25600, 2048));
    let plan = prepare_weights(spec(), 50).unwrap();
    assert_eq!((plan.pic, plan.poc, plan.wt_bytes), (32, 16, 25600));
    assert_eq!(
        refused(prepare_weights(spec(), 49).unwrap_err()),
        "invalid fp16 Conv2D input: weight length mismatch"
    );
    let huge = Conv2dSpec { ic: usize::MAX / 25, oc: 26, ..spec() };
    assert_eq!(
        refused(prepare_weights(huge, 49).unwrap_err()),
        "invalid fp16 Conv2D input: weight length overflow"
    );
    let prepared = PreparedConv { device_fd: 3, spec: spec(), plan };
    let run = execute_prepared(&prepared, 3, 64).unwrap();
    assert_eq!((run.oh, run.ow, run.in_bytes, run.out_bytes), (8, 8, 4096, 2048));
    assert_eq!(
        refused(execute_prepared(&prepared, 4, 64).unwrap_err()),
        "invalid fp16 Conv2D input: prepared Conv weights belong to a different Rocket fd"
    );
    assert_eq!(
        refused(execute_prepared(&prepared, 3, 65).unwrap_err()),
        "invalid fp16 Conv2D input: input length mismatch"
    );
}

#[test]
fn buffers_end_within_32_bits() {
    assert_eq!(check_dma(0xffff_f000, 4096).unwrap(), 0xffff_ffff);
    assert_eq!(
        refused(check_dma(0xffff_f000, 4097).unwrap_err()),
        "Rocket BO IOVA 0x100000000 exceeds 32-bit Conv regcmd field"
    );
    assert_eq!(check_dma(7, 0).unwrap(), 7);
    let e = check_dma(u64::MAX, 2).unwrap_err();
    assert!(matches!(e, ConvError::AddressAbove32Bit(u64::MAX)));
}

#[test]
fn working_buffers_only_grow() {
    let mut scratch = Scratch::new();
    assert_eq!(scratch.missing(Slot::Input, 0), Some(1));
    assert_eq!(scratch.missing(Slot::Input, 100), Some(100));
    assert!(scratch.ensure(Slot::Input, 100, 0).is_ok());
    assert_eq!(scratch.missing(Slot::Input, 60), None);
    assert_eq!(scratch.missing(Slot::Input, 101), Some(101));
    assert!(scratch.ensure(Slot::Input, 101, u64::MAX).is_err());
    assert!(scratch.ensure(Slot::Input, 101, 0).is_ok());
    assert!(scratch.ensure(Slot::Output, 5, 0).is_ok());
    assert_eq!(
        scratch.stats(),
        ConvScratchStats {
            allocations: 3,
            grows: 1,
            regcmd_bytes: 0,
            input_bytes: 101,
            weight_bytes: 0,
            output_bytes: 5,
        }
    );
}

#[test]
fn times_add_up() {
    let mut t = ConvExecutionTiming::new();
    t.scratch_ns = 1;
    t.total_ns = 20;
    let tile = TileTiming { regcmd_write_ns: 1, submit_ns: 2, wait_ns: 3, gather_ns: 4 };
    t.book_tile(tile);
    assert_eq!(t.accounted_ns(), 11);
    assert_eq!(t.overhead_ns(), 9);
    t.book_tile(tile);
    assert_eq!(t.overhead_ns(), 0);
}

#[test]
fn inputs_are_laid_out_by_planes_of_eight() {
    let data: Vec<u16> = (1..=18).collect();
    let cube = native_values(&data, 9, 16, 2);
    assert_eq!(cube.len(), 32);
    assert_eq!(&cube[..8], &[1, 3, 5, 7, 9, 11, 13, 15]);
    assert_eq!(cube[8], 2);
    assert_eq!(cube[16], 17);
    assert_eq!(cube[17], 0);
    let s = Conv2dSpec { ic: 9, ih: 2, iw: 1, ..spec() };
    let bytes = pack_input_native(&data, s, 16);
    assert_eq!(bytes.len(), 64);
    assert_eq!(bytes[16..18], [2, 0]);
}

#[test]
fn gathering_undoes_the_layout() {
    let data: Vec<u16> = (100..100 + 18 * 3).collect();
    let cube: Vec<u8> = native_values(&data, 18, 32, 3).iter().flat_map(|v| v.to_le_bytes()).collect();
    let mut out = vec![0u16; 54];
    gather_output_tile(&cube, 18, 3, 16, 0, &mut out);
    assert_eq!(&out[..48], &data[..48]);
    assert_eq!(&out[48..], &[0; 6]);
    gather_output_tile(&cube[16 * 3 * 2..], 18, 3, 16, 16, &mut out);
    assert_eq!(out, data);
    out[48..].fill(0);
    gather_output_tile(&cube[96..96 + 48], 18, 3, 16, 16, &mut out);
    assert_eq!(out, data);
    gather_output_tile(&[], 18, 3, 16, 32, &mut out);
    assert_eq!(out, data);
}

#[test]
fn weights_go_where_the_index_says() {
    let s = Conv2dSpec { ic: 2, oc: 2, kh: 2, kw: 3, ..spec() };
    assert_eq!(weight_place(s, 0), WeightPlace { oc: 0, ic: 0, ky: 0, kx: 0 });
    assert_eq!(weight_place(s, 23), WeightPlace { oc: 1, ic: 1, ky: 1, kx: 2 });
    let bytes = pack_weights_native(&[7, 8], &[3, 1], 4);
    assert_eq!(bytes, vec![0, 0, 8, 0, 0, 0, 7, 0]);
}

#[test]
fn commands_are_followed_by_zeros() {
    let bytes = write_regcmd(&[0x0102], 16).unwrap();
    assert_eq!(bytes, vec![2, 1, 0, 0, 0, 0, 0, 0, 0, 0, 0, 0, 0, 0, 0, 0]);
    assert_eq!(
        refused(write_regcmd(&[1, 2, 3], 16).unwrap_err()),
        "fp16 Conv2D executor invariant failed: regcmd BO too small"
    );
}

fn plan_with(poc: usize, widest: usize) -> TilePlan {
    let mut plan = TilePlan::new(poc);
    loop {
        let channels = match plan.stage {
            EncodeStage::Full => poc,
            EncodeStage::Probe { channels } => channels,
            EncodeStage::Emit { tile, .. } => tile.channels,
            _ => return plan,
        };
        plan.step(if channels <= widest { Encoding::Encoded } else { Encoding::CbufUnsupported });
    }
}

#[test]
fn tiles_cover_all_channels() {
    let plan = plan_with(80, 32);
    assert_eq!(plan.stage, EncodeStage::Done);
    assert_eq!(
        plan.tiles,
        vec![
            OcTile { oc0: 0, channels: 32 },
            OcTile { oc0: 32, channels: 32 },
            OcTile { oc0: 64, channels: 16 },
        ]
    );
    assert_eq!(plan_with(80, 80).tiles, vec![OcTile { oc0: 0, channels: 80 }]);
    assert_eq!(plan_with(80, 0).stage, EncodeStage::Refused);
    assert_eq!(plan_with(16, 0).stage, EncodeStage::Refused);
    let mut plan = TilePlan::new(32);
    plan.step(Encoding::Failed);
    assert_eq!(plan.stage, EncodeStage::Failed);
    let mut plan = TilePlan::new(32);
    plan.step(Encoding::CbufUnsupported);
    assert_eq!(plan.stage, EncodeStage::Probe { channels: 16 });
    plan.step(Encoding::Encoded);
    plan.step(Encoding::Failed);
    assert_eq!(plan.stage, EncodeStage::Failed);
}

#[test]
fn tiles_start_at_their_weights() {
    assert_eq!(tile_weights_dma(100, 8).unwrap(), 116);
    assert_eq!(
        refused(tile_weights_dma(100, usize::MAX).unwrap_err()),
        "invalid fp16 Conv2D input: Conv weight tile offset overflow"
    );
    assert!(tile_weights_dma(u64::MAX, 1).is_err());
    let task = tile_task(0x1000, 12).unwrap();
    assert_eq!((task.regcmd, task.regcmd_count), (0x1000, 12));
    assert!(tile_task(1 << 32, 12).is_err());
}
