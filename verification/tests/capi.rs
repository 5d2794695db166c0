use rocknpu::capi::{
    chunk_matrix, concat_members, rocknpu_matmul_f16_f32_f32, rocknpu_matmul_q_concat_f32_f32_mtile,
    rocknpu_matmul_q_pair_f32_f32_m1, rocknpu_matmul_q_pair_f32_f32_mtile,
    rocknpu_matmul_q_triple_f32_f32_m1, rocknpu_matmul_w8a8_f32_f32_m1,
    rocknpu_matmul_w8a8_f32_f32_m16, rocknpu_matmul_w8a8_f32_f32_m1_nsplit,
    rocknpu_matmul_w8a8_pair_f32_f32_m1, rocknpu_matmul_w8a8_swiglu_down_f32,
    rocknpu_matmul_w8a8_triple_f32_f32_m1, rocknpu_prewarm_quantized_m16, scales_are_positive,
    stacked_outputs, swiglu_next, ConcatCall, ConcatRoute, HalfCall, ProductSizes, QMatrix, Shared,
    SwigluCall, SwigluStage, W8Matrix,
};
use rocknpu::decode_m1::M1Target;
use rocknpu::keys::{DecodeWeightKey, DecodeWeightKind};
use rocknpu::mtile::MtileTarget;
use rocknpu::plan::ColumnChunk;
use rocknpu::settings::HiloMode;
use rocknpu::status::{STATUS_EXECUTION_ERROR, STATUS_INVALID_ARGUMENT, STATUS_OK};

const SHARED: Shared = Shared { context: 1, activations: 2, k: 512 };

fn w8(weights: usize, n: usize) -> W8Matrix {
    W8Matrix { weights, scales: 7, output: 8, n }
}

fn q(weights: usize, kind: u32, n: usize) -> QMatrix {
    QMatrix { weights, bytes: 99, kind, output: 8, n }
}

#[test]
fn matmul_rejects_null_context_before_pointer_access() {
    let call = HalfCall { context: 0, weights: 0, activations: 0, output: 0, m: 4, k: 32, n: 16 };
    let status = rocknpu_matmul_f16_f32_f32(&call).unwrap_err();
    assert_eq!(status, STATUS_INVALID_ARGUMENT);
}

#[test]
fn half_products_count_their_buffers() {
    let call = HalfCall { context: 1, weights: 1, activations: 1, output: 1, m: 4, k: 32, n: 16 };
    assert_eq!(
        rocknpu_matmul_f16_f32_f32(&call),
        Ok(ProductSizes { a_len: 128, b_len: 512, out_len: 64 })
    );
    let huge = HalfCall { m: usize::MAX, ..call };
    assert_eq!(rocknpu_matmul_f16_f32_f32(&huge), Err(STATUS_INVALID_ARGUMENT));
}

#[test]
fn scales_must_be_finite_and_above_zero() {
    let bits = |v: &[f32]| v.iter().map(|x| x.to_bits()).collect::<Vec<u32>>();
    assert!(scales_are_positive(&bits(&[1.0, f32::MIN_POSITIVE, 1.0e-45, f32::MAX])));
    assert!(!scales_are_positive(&bits(&[1.0, 0.0])));
    assert!(!scales_are_positive(&bits(&[-0.0])));
    assert!(!scales_are_positive(&bits(&[-1.0])));
    assert!(!scales_are_positive(&bits(&[f32::INFINITY])));
    assert!(!scales_are_positive(&bits(&[f32::NAN])));
    assert!(scales_are_positive(&[]));
}

#[test]
fn eight_bit_rows_are_keyed_by_their_bytes() {
    let key = |address: usize, n: usize| DecodeWeightKey {
        address,
        bytes: 512 * n,
        k: 512,
        n,
        kind: DecodeWeightKind::Q4K,
    };
    assert_eq!(
        rocknpu_matmul_w8a8_f32_f32_m1(&SHARED, &w8(64, 32)),
        Ok(M1Target::Single(key(64, 32)))
    );
    match rocknpu_matmul_w8a8_pair_f32_f32_m1(&SHARED, &w8(64, 32), &w8(128, 64)) {
        Ok(M1Target::Pair(pair)) => {
            assert_eq!(pair.first, key(64, 32));
            assert_eq!(pair.second, key(128, 64));
        }
        other => panic!("{other:?}"),
    }
    match rocknpu_matmul_w8a8_triple_f32_f32_m1(&SHARED, &w8(64, 32), &w8(128, 64), &w8(256, 96)) {
        Ok(M1Target::Triple(triple)) => assert_eq!(triple.third, key(256, 96)),
        other => panic!("{other:?}"),
    }
    let refused = Err(STATUS_INVALID_ARGUMENT);
    assert_eq!(rocknpu_matmul_w8a8_f32_f32_m1(&SHARED, &w8(0, 32)), refused);
    assert_eq!(rocknpu_matmul_w8a8_f32_f32_m1(&SHARED, &w8(64, 0)), refused);
    assert_eq!(rocknpu_matmul_w8a8_f32_f32_m1(&SHARED, &w8(64, usize::MAX)), refused);
    assert_eq!(
        rocknpu_matmul_w8a8_f32_f32_m1(&Shared { k: 0, ..SHARED }, &w8(64, 32)),
        refused
    );
    assert_eq!(
        rocknpu_matmul_w8a8_pair_f32_f32_m1(&SHARED, &w8(64, 32), &w8(0, 32)),
        refused
    );
}

#[test]
fn quantized_rows_need_a_known_format() {
    match rocknpu_matmul_q_pair_f32_f32_m1(&SHARED, &q(64, 4, 32), &q(96, 6, 32)) {
        Ok(M1Target::Pair(pair)) => {
            assert_eq!(pair.first.kind, DecodeWeightKind::Q4K);
            assert_eq!(pair.second.kind, DecodeWeightKind::Q6K);
            assert_eq!(pair.first.bytes, 99);
        }
        other => panic!("{other:?}"),
    }
    assert_eq!(
        rocknpu_matmul_q_pair_f32_f32_m1(&SHARED, &q(64, 5, 32), &q(96, 6, 32)),
        Err(STATUS_INVALID_ARGUMENT)
    );
    assert!(rocknpu_matmul_q_triple_f32_f32_m1(&SHARED, &q(1, 4, 1), &q(2, 4, 1), &q(3, 6, 1)).is_ok());
    assert_eq!(
        rocknpu_matmul_q_triple_f32_f32_m1(&SHARED, &q(1, 4, 1), &q(2, 4, 1), &q(0, 6, 1)),
        Err(STATUS_INVALID_ARGUMENT)
    );
}

#[test]
fn tile_calls_count_their_buffers() {
    let call = rocknpu_matmul_w8a8_f32_f32_m16(&SHARED, &w8(64, 32)).ok().unwrap();
    assert_eq!(call.a_len, 16 * 512);
    assert_eq!(call.out_lens, vec![16 * 32]);
    match call.target {
        MtileTarget::Tile { m, .. } => assert_eq!(m, 16),
        _ => panic!("no tile"),
    }
    let call = rocknpu_matmul_q_pair_f32_f32_mtile(&SHARED, 4, &q(1, 4, 32), &q(2, 6, 64)).ok().unwrap();
    assert_eq!(call.a_len, 4 * 512);
    assert_eq!(call.out_lens, vec![128, 256]);
    assert!(rocknpu_matmul_q_pair_f32_f32_mtile(&SHARED, 0, &q(1, 4, 32), &q(2, 6, 64)).is_err());
    assert!(rocknpu_matmul_q_pair_f32_f32_mtile(&SHARED, usize::MAX, &q(1, 4, 32), &q(2, 6, 64)).is_err());
}

#[test]
fn preparation_checks_the_byte_count() {
    let key = rocknpu_prewarm_quantized_m16(1, 64, 8 * 2 * 210, 6, 2048, 2).unwrap();
    assert_eq!(key.kind, DecodeWeightKind::Q6K);
    let refused = Err(STATUS_INVALID_ARGUMENT);
    assert_eq!(rocknpu_prewarm_quantized_m16(0, 64, 3360, 6, 2048, 2), refused);
    assert_eq!(rocknpu_prewarm_quantized_m16(1, 64, 3361, 6, 2048, 2), refused);
    assert_eq!(rocknpu_prewarm_quantized_m16(1, 64, 3360, 7, 2048, 2), refused);
    assert_eq!(rocknpu_prewarm_quantized_m16(1, 64, 3360, 6, 2049, 2), refused);
}

#[test]
fn wide_rows_run_in_chunks() {
    let chunks = rocknpu_matmul_w8a8_f32_f32_m1_nsplit(&SHARED, &w8(1000, 96), 64).unwrap();
    let starts: Vec<(usize, usize)> = chunks.iter().map(|c| (c.start, c.len)).collect();
    assert_eq!(starts, vec![(0, 64), (64, 32)]);
    let second = chunk_matrix(&w8(1000, 96), 512, ColumnChunk { start: 64, len: 32 });
    assert_eq!(second, W8Matrix { weights: 1000 + 64 * 512, scales: 7 + 256, output: 8 + 256, n: 32 });
    for (n, chunk) in [(96, 0), (96, 40), (100, 64)] {
        assert_eq!(
            rocknpu_matmul_w8a8_f32_f32_m1_nsplit(&SHARED, &w8(1000, n), chunk).err(),
            Some(STATUS_INVALID_ARGUMENT)
        );
    }
}

#[test]
fn gated_steps_stop_at_the_first_failure() {
    let call = SwigluCall {
        context: 1,
        gate_weights: 1,
        gate_scales: 1,
        up_weights: 1,
        up_scales: 1,
        down_weights: 1,
        down_scales: 1,
        activations: 1,
        output: 1,
        projection_k: 512,
        ffn_n: 64,
        output_n: 32,
    };
    assert_eq!(rocknpu_matmul_w8a8_swiglu_down_f32(&call), SwigluStage::GateUp);
    let bad = SwigluCall { down_scales: 0, ..call };
    let done = SwigluStage::Done { status: STATUS_INVALID_ARGUMENT };
    assert_eq!(rocknpu_matmul_w8a8_swiglu_down_f32(&bad), done);
    let bad = SwigluCall { output_n: usize::MAX, ..call };
    assert_eq!(rocknpu_matmul_w8a8_swiglu_down_f32(&bad), done);
    assert_eq!(swiglu_next(SwigluStage::GateUp, STATUS_OK), SwigluStage::GateDown);
    let failed = SwigluStage::Done { status: STATUS_EXECUTION_ERROR };
    assert_eq!(swiglu_next(SwigluStage::GateUp, STATUS_EXECUTION_ERROR), failed);
    assert_eq!(swiglu_next(SwigluStage::GateDown, STATUS_EXECUTION_ERROR), failed);
    assert_eq!(swiglu_next(failed, STATUS_OK), failed);
}

fn concat(m: usize, k: usize) -> ConcatCall {
    ConcatCall {
        context: 1,
        count: 2,
        weights: 1,
        bytes: 1,
        kinds: 1,
        ns: 1,
        activations: 1,
        outputs: 1,
        m,
        k,
    }
}

#[test]
fn joined_projections_are_cut_like_single_ones() {
    let route = |call: &ConcatCall, mode: HiloMode, plain: bool| {
        rocknpu_matmul_q_concat_f32_f32_mtile(mode, call, plain)
    };
    assert_eq!(route(&concat(4, 2048), HiloMode::Off, false), ConcatRoute::Run);
    assert_eq!(route(&concat(5, 2048), HiloMode::Off, false), ConcatRoute::Rows);
    assert_eq!(route(&concat(128, 4096), HiloMode::Off, false), ConcatRoute::Halves);
    assert_eq!(route(&concat(64, 4096), HiloMode::Off, false), ConcatRoute::Run);
    assert_eq!(route(&concat(4, 2048), HiloMode::All, false), ConcatRoute::Hilo { rows: 8 });
    assert_eq!(route(&concat(8, 2048), HiloMode::All, true), ConcatRoute::Run);
    let refused = ConcatRoute::Refused { status: STATUS_INVALID_ARGUMENT };
    assert_eq!(route(&ConcatCall { count: 5, ..concat(4, 512) }, HiloMode::Off, false), refused);
    assert_eq!(route(&ConcatCall { count: 0, ..concat(4, 512) }, HiloMode::Off, false), refused);
    assert_eq!(route(&ConcatCall { ns: 0, ..concat(4, 512) }, HiloMode::Off, false), refused);
    assert_eq!(route(&concat(0, 512), HiloMode::Off, false), refused);
    assert_eq!(route(&concat(usize::MAX, 512), HiloMode::Off, false), refused);
}

#[test]
fn joined_members_are_keyed_in_order() {
    let call = concat_members(&[q(64, 4, 32), q(96, 6, 64)], 4, 512).ok().unwrap();
    assert_eq!(call.a_len, 2048);
    assert_eq!(call.out_lens, vec![128, 256]);
    match call.target {
        MtileTarget::Concat { joined, m } => {
            assert_eq!(m, 4);
            assert_eq!(joined.members.len(), 2);
            assert_eq!(joined.members[1].address, 96);
            assert_eq!(joined.members[1].kind, DecodeWeightKind::Q6K);
        }
        _ => panic!("not joined"),
    }
    assert!(concat_members(&[q(64, 4, 32), q(96, 3, 64)], 4, 512).is_err());
    assert!(concat_members(&[q(64, 4, 0)], 4, 512).is_err());
    assert!(concat_members(&[q(0, 4, 32)], 4, 512).is_err());
    assert!(concat_members(&[q(64, 4, usize::MAX)], 4, 512).is_err());
    assert_eq!(stacked_outputs(&[1, 2]), (2, STATUS_OK));
    assert_eq!(stacked_outputs(&[1, 0, 3]), (1, STATUS_INVALID_ARGUMENT));
}
