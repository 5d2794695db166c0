use rocknpu::capi::{
    rocknpu_matmul_w8a8_f32_f32_m1, rocknpu_matmul_w8a8_pair_f32_f32_m1, Shared, SwigluCall,
    W8Matrix,
};
use rocknpu::compare::reference_nk;
use rocknpu::conv::{ConvExecutionTiming, TileTiming};
use rocknpu::conv_layout::native_values;
use rocknpu::conv_run::ConvRun;
use rocknpu::conv_tiles::{Encoding, OcTile, TilePlan};
use rocknpu::counters::DecodeCounters;
use rocknpu::decode_m1::{
    CachedW8A8Weight, M1Cache, M1Event, M1Report, M1Stage, M1Target,
};
use rocknpu::join::{join_parts, member_columns};
use rocknpu::keys::{
    ConcatKey, DecodeChoice, DecodePairKey, DecodeTripleKey, DecodeWeightKey, DecodeWeightKind,
    GroupedKey, Int8DecodeSplit, Resident,
};
use rocknpu::mtile::MtileTarget;
use rocknpu::pieces::{
    column_chunk, count_wide_pieces, fill_tile, first_piece, half_addresses, needs_filling,
    next_piece, row_addresses, row_copy, row_in_memory, wide_piece_call, PieceStage,
};
use rocknpu::plan::{
    column_copies, run_mtile_row_chunks, split_wide_mtile, ColumnChunk, CopyRange, MemberCopy,
    RowChunk, WideSplit,
};
use rocknpu::profile::{M1CallTimes, PoolStats};
use rocknpu::route::{expected_bytes, QuantCall};
use rocknpu::status::{STATUS_EXECUTION_ERROR, STATUS_OK};

fn statuses(count: usize, results: &[i32]) -> (Vec<usize>, i32) {
    let mut ran = Vec::new();
    let mut stage = first_piece(count);
    loop {
        match stage {
            PieceStage::Done { status } => return (ran, status),
            PieceStage::Run { index } => {
                ran.push(index);
                stage = next_piece(index, count, results[index]);
            }
        }
    }
}

#[test]
fn pieces_run_until_one_fails() {
    assert_eq!(statuses(3, &[0, 0, 0]), (vec![0, 1, 2], STATUS_OK));
    assert_eq!(statuses(3, &[0, -2, 0]), (vec![0, 1], -2));
    assert_eq!(statuses(3, &[0, 0, -1]), (vec![0, 1, 2], -1));
    assert_eq!(statuses(0, &[]), (vec![], STATUS_OK));
    assert_eq!(next_piece(0, 2, STATUS_EXECUTION_ERROR), PieceStage::Done {
        status: STATUS_EXECUTION_ERROR,
    });
}

fn call(m: usize, k: usize, n: usize) -> QuantCall {
    QuantCall {
        context: 1,
        weights: 1000,
        weights_bytes: expected_bytes(DecodeWeightKind::Q4K, k, n).unwrap(),
        activations: 5000,
        output: 9000,
        m,
        k,
        n,
    }
}

#[test]
fn halves_are_sixty_four_rows_each() {
    let whole = call(128, 2560, 64);
    let split = split_wide_mtile(128, 2560, 64, whole.weights_bytes);
    assert_eq!(split, WideSplit::Halves);
    assert_eq!(count_wide_pieces(64, split), 2);
    assert!(whole.ends_in_memory());
    assert_eq!(wide_piece_call(&whole, split, 7, 0), QuantCall { m: 64, ..whole });
    assert_eq!(
        wide_piece_call(&whole, split, 7, 1),
        QuantCall {
            m: 64,
            activations: 5000 + 4 * 64 * 2560,
            output: 9000 + 4 * 64 * 64,
            ..whole
        }
    );
    assert!(!QuantCall { output: usize::MAX, ..whole }.ends_in_memory());
}

#[test]
fn wide_products_run_as_few_even_chunks() {
    let whole = call(4, 256, 8960);
    let split = split_wide_mtile(4, 256, 8960, whole.weights_bytes);
    assert_eq!(split, WideSplit::Columns { per: 4480, row_bytes: 144 });
    assert_eq!(count_wide_pieces(8960, split), 2);
    assert_eq!(
        wide_piece_call(&whole, split, 7, 1),
        QuantCall {
            weights: 1000 + 4480 * 144,
            weights_bytes: 4480 * 144,
            output: 7,
            n: 4480,
            ..whole
        }
    );
    let chunk = column_chunk(8960, 4480, 1);
    assert_eq!(chunk, ColumnChunk { start: 4480, len: 4480 });
    assert_eq!(
        column_copies(2, 8960, chunk.start, chunk.len)[1],
        CopyRange { src: 4480, dst: 8960 + 4480, len: 4480 }
    );
    let whole = call(4, 256, 16416);
    let split = split_wide_mtile(4, 256, 16416, whole.weights_bytes);
    assert_eq!(count_wide_pieces(16416, split), 3);
    let widths: Vec<usize> = (0..3).map(|i| wide_piece_call(&whole, split, 7, i).n).collect();
    assert_eq!(widths, vec![5472, 5472, 5472]);
}

#[test]
fn the_tail_is_filled_with_zero_rows() {
    let chunks = run_mtile_row_chunks(130);
    assert_eq!(chunks.len(), 2);
    assert!(!needs_filling(chunks[0]));
    assert!(needs_filling(chunks[1]));
    assert_eq!(chunks[1], RowChunk { row: 128, rows: 2, tile: 4 });
    let values: Vec<i32> = (0..130 * 3).collect();
    let tile = fill_tile(&values, chunks[1], 3, 0);
    assert_eq!(tile, vec![384, 385, 386, 387, 388, 389, 0, 0, 0, 0, 0, 0]);
    assert_eq!(row_copy(chunks[0], 5), CopyRange { src: 0, dst: 0, len: 640 });
    assert_eq!(row_copy(chunks[1], 5), CopyRange { src: 0, dst: 640, len: 10 });
}

#[test]
fn rows_have_their_own_addresses() {
    let at = row_addresses(1000, &[2000, 3000], &[5, 7], 3, 128);
    assert_eq!(at.activations, 1000 + 4 * 128 * 3);
    assert_eq!(at.outputs, vec![2000 + 4 * 128 * 5, 3000 + 4 * 128 * 7]);
    let at = half_addresses(1000, &[2000, 3000], &[5, 7], 3, 1);
    assert_eq!(at.activations, 1000 + 4 * 64 * 3);
    assert_eq!(at.outputs, vec![2000 + 4 * 64 * 5, 3000 + 4 * 64 * 7]);
    assert_eq!(half_addresses(1000, &[2000], &[5], 3, 0).outputs, vec![2000]);
    assert!(row_in_memory(1000, &[2000, 3000], &[5, 7], 3, 128));
    assert!(!row_in_memory(1000, &[2000], &[5, 7], 3, 128));
    assert!(!row_in_memory(1000, &[usize::MAX - 1], &[1], 3, 1));
    assert!(!row_in_memory(1000, &[0], &[usize::MAX], 3, 2));
}

#[test]
fn a_gated_step_hands_its_columns_on() {
    let call = SwigluCall {
        context: 1,
        gate_weights: 10,
        gate_scales: 11,
        up_weights: 12,
        up_scales: 13,
        down_weights: 14,
        down_scales: 15,
        activations: 16,
        output: 17,
        projection_k: 512,
        ffn_n: 64,
        output_n: 32,
    };
    let (shared, gate, up) = call.gate_up_call(100, 200);
    assert_eq!(shared, Shared { context: 1, activations: 16, k: 512 });
    assert_eq!(gate, W8Matrix { weights: 10, scales: 11, output: 100, n: 64 });
    assert_eq!(up, W8Matrix { weights: 12, scales: 13, output: 200, n: 64 });
    assert!(rocknpu_matmul_w8a8_pair_f32_f32_m1(&shared, &gate, &up).is_ok());
    let (shared, down) = call.down_call(100);
    assert_eq!(shared, Shared { context: 1, activations: 100, k: 64 });
    assert_eq!(down, W8Matrix { weights: 14, scales: 15, output: 17, n: 32 });
    assert!(rocknpu_matmul_w8a8_f32_f32_m1(&shared, &down).is_ok());
}

#[test]
fn joined_members_keep_columns_and_scales() {
    let a = [1i8, -2];
    let parts: [&[i8]; 3] = [&[1, 2, 3, 4], &[5, 6], &[7, 8, 9, 1]];
    let scales: [&[u32]; 3] = [&[10, 11], &[12], &[13, 14]];
    let ns = [2usize, 1, 2];
    let joined = join_parts(&parts);
    let joined_scales = join_parts(&scales);
    assert_eq!(joined, vec![1, 2, 3, 4, 5, 6, 7, 8, 9, 1]);
    assert_eq!(joined_scales, vec![10, 11, 12, 13, 14]);
    let moves = member_columns(&ns);
    assert_eq!(
        moves[1],
        MemberCopy { member: 1, row: 0, src: 2, dst: 0, scale: 2, len: 1 }
    );
    let fused = reference_nk(&a, &joined, 2, 0, 2, 5);
    for copy in moves {
        let alone = reference_nk(&a, parts[copy.member], 2, 0, 2, ns[copy.member]);
        assert_eq!(&fused[copy.src..copy.src + copy.len], alone.as_slice());
        assert_eq!(&joined_scales[copy.scale..copy.scale + copy.len], scales[copy.member]);
    }
}

fn key(address: usize, n: usize) -> DecodeWeightKey {
    DecodeWeightKey { address, bytes: 9, k: 512, n, kind: DecodeWeightKind::Q4K }
}

#[test]
fn redundant_residents_are_let_go_once() {
    let mut cache = M1Cache::new(false);
    let mut counters = DecodeCounters::new();
    let choice = DecodeChoice { split: Int8DecodeSplit::N, workers: 1 };
    let resident = |handle: u64| Resident { handle, resident_bytes: 1 };
    let cached = |handle: u64| CachedW8A8Weight { prepared: resident(handle), choice };
    let (one, two, three) = (key(1, 32), key(2, 64), key(3, 32));
    let store = |cache: &mut M1Cache, counters: &mut DecodeCounters, target, handle: u64| {
        let event = M1Event::Prepared { resident: Some(resident(handle)) };
        cache.step_releasing(counters, &target, M1Stage::Prepare { choice }, event).1
    };
    assert_eq!(store(&mut cache, &mut counters, M1Target::Single(one), 5), vec![]);
    let pair = M1Target::Pair(DecodePairKey { first: two, second: three });
    assert_eq!(store(&mut cache, &mut counters, pair, 6), vec![]);
    let triple = M1Target::Triple(DecodeTripleKey { first: one, second: two, third: three });
    let stage = M1Stage::Execute { cached: cached(7), hit: false, overlap: None };
    let failed = M1Event::Executed { report: None };
    assert_eq!(cache.step_releasing(&mut counters, &triple, stage, failed).1, vec![]);
    let ran = || M1Event::Executed {
        report: Some(M1Report {
            stats: PoolStats { npu_tasks: 1, wall_ns: 1, workers: vec![] },
            times: M1CallTimes { quant_ns: 0, rescale_ns: 0, total_ns: 1 },
        }),
    };
    let (next, released) = cache.step_releasing(&mut counters, &triple, stage, ran());
    assert_eq!(next, M1Stage::Done { status: STATUS_OK });
    assert_eq!(released, vec![resident(5), resident(6)]);
    assert_eq!(cache.step_releasing(&mut counters, &triple, stage, ran()).1, vec![]);
    let widths: Vec<usize> = triple.output_columns().iter().map(|copy| copy.len).collect();
    assert_eq!(widths, vec![32, 64, 32]);
}

#[test]
fn targets_know_their_rows() {
    let tile = MtileTarget::Tile { key: key(1, 32), m: 8 };
    assert_eq!((tile.rows(), tile.k(), tile.group()), (8, 512, None));
    let grouped = MtileTarget::Grouped { grouped: GroupedKey { key: key(1, 32), group_size: 256 } };
    assert_eq!((grouped.rows(), grouped.k(), grouped.group()), (16, 512, Some(256)));
    let joined = ConcatKey { members: vec![key(1, 32), key(2, 64)] };
    let joined = MtileTarget::Concat { joined, m: 4 };
    assert_eq!((joined.rows(), joined.k(), joined.group()), (4, 512, None));
}

#[test]
fn tiles_of_a_convolution_fill_its_output() {
    let mut plan = TilePlan::new(32);
    plan.step(Encoding::CbufUnsupported);
    plan.step(Encoding::Encoded);
    plan.step(Encoding::Encoded);
    plan.step(Encoding::Encoded);
    assert_eq!(
        plan.tiles,
        vec![OcTile { oc0: 0, channels: 16 }, OcTile { oc0: 16, channels: 16 }]
    );
    let data: Vec<u16> = (100..100 + 18 * 3).collect();
    let cube: Vec<u8> =
        native_values(&data, 18, 32, 3).iter().flat_map(|v| v.to_le_bytes()).collect();
    let mut timing = ConvExecutionTiming::new();
    timing.output_clear_ns = 9;
    let mut run = ConvRun::new(18, 3, plan.tiles, timing);
    assert_eq!(run.timing.jobs_submitted, 2);
    assert_eq!(run.timing.output_clear_ns, 0);
    let spent = TileTiming { regcmd_write_ns: 1, submit_ns: 2, wait_ns: 3, gather_ns: 4 };
    assert_eq!(run.due(), Some(OcTile { oc0: 0, channels: 16 }));
    run.finish_tile(&cube, spent);
    assert_eq!(run.due(), Some(OcTile { oc0: 16, channels: 16 }));
    run.finish_tile(&cube[96..144], spent);
    assert_eq!(run.due(), None);
    assert_eq!(run.out, data);
    assert_eq!(run.timing.accounted_ns(), 20);
    assert_eq!(run.timing.wait_ns, 6);
}
