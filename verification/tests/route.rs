use rocknpu::decode_m1::{m1_start, M1Stage, M1Target};
use rocknpu::decode_w4::W4Target;
use rocknpu::keys::{DecodeWeightKey, DecodeWeightKind, Int8DecodeSplit};
use rocknpu::mtile::{mtile_start, MtileStage, MtileTarget};
use rocknpu::plan::WideSplit;
use rocknpu::route::{
    expected_bytes, rocknpu_matmul_q4_k_f32_f32, rocknpu_matmul_q6_k_f32_f32, QuantCall, QuantRoute,
    W4Ability, Q4_K_BLOCK_BYTES, Q6_K_BLOCK_BYTES,
};
use rocknpu::settings::{HiloMode, MtileScope, RouteSettings, W4Scope};
use rocknpu::status::STATUS_INVALID_ARGUMENT;

const NO_W4: W4Ability = W4Ability { enabled: false, pool: false };

fn off() -> RouteSettings {
    RouteSettings {
        native_mtile: false,
        native_mtile_down: false,
        mtile_persist: false,
        mtile_mc: false,
        w8_mtile: false,
        w8_mtile_scope: MtileScope::All,
        mtile_qo_group: None,
        w4a4_scope: W4Scope::Nothing,
        w4a4_group: None,
        w4a4_hadamard: false,
        prefill_cache: false,
        prefill_hilo: HiloMode::Off,
    }
}

fn native() -> RouteSettings {
    RouteSettings {
        native_mtile: true,
        native_mtile_down: true,
        mtile_persist: true,
        mtile_mc: true,
        w8_mtile: true,
        ..off()
    }
}

fn call(kind: DecodeWeightKind, m: usize, k: usize, n: usize) -> QuantCall {
    QuantCall {
        context: 1,
        weights: 4096,
        weights_bytes: expected_bytes(kind, k, n).unwrap(),
        activations: 2,
        output: 3,
        m,
        k,
        n,
    }
}

fn q4(s: &RouteSettings, w4: W4Ability, m: usize, k: usize, n: usize) -> QuantRoute {
    rocknpu_matmul_q4_k_f32_f32(s, w4, &call(DecodeWeightKind::Q4K, m, k, n), false)
}

fn q6(s: &RouteSettings, m: usize, k: usize, n: usize) -> QuantRoute {
    rocknpu_matmul_q6_k_f32_f32(s, NO_W4, &call(DecodeWeightKind::Q6K, m, k, n), false)
}

#[test]
fn q4_k_block_size_matches_ggml_abi() {
    assert_eq!(core::mem::size_of::<llama_gguf::tensor::quant::BlockQ4K>(), 144);
    assert_eq!(Q4_K_BLOCK_BYTES, 144);
}

#[test]
fn q6_k_block_size_matches_ggml_abi() {
    assert_eq!(core::mem::size_of::<llama_gguf::tensor::quant::BlockQ6K>(), 210);
    assert_eq!(Q6_K_BLOCK_BYTES, 210);
}

#[test]
fn weight_bytes_count_whole_blocks() {
    assert_eq!(expected_bytes(DecodeWeightKind::Q4K, 512, 3), Some(864));
    assert_eq!(expected_bytes(DecodeWeightKind::Q6K, 512, 3), Some(1260));
    assert_eq!(expected_bytes(DecodeWeightKind::Q6K, usize::MAX, usize::MAX), None);
}

#[test]
fn unusable_arguments_are_refused() {
    let good = call(DecodeWeightKind::Q4K, 4, 512, 32);
    let bad = vec![
        QuantCall { context: 0, ..good },
        QuantCall { weights: 0, ..good },
        QuantCall { activations: 0, ..good },
        QuantCall { output: 0, ..good },
        QuantCall { m: 0, ..good },
        QuantCall { k: 0, ..good },
        QuantCall { n: 0, ..good },
        QuantCall { k: 500, ..good },
        QuantCall { weights_bytes: good.weights_bytes + 1, ..good },
        QuantCall { m: usize::MAX, ..good },
    ];
    for c in bad {
        match rocknpu_matmul_q4_k_f32_f32(&off(), NO_W4, &c, false) {
            QuantRoute::Refused { status } => assert_eq!(status, STATUS_INVALID_ARGUMENT),
            _ => panic!("taken"),
        }
    }
    match rocknpu_matmul_q4_k_f32_f32(&off(), NO_W4, &good, false) {
        QuantRoute::Direct => {}
        _ => panic!("not direct"),
    }
}

#[test]
fn single_rows_decode() {
    match q6(&native(), 1, 2048, 2048) {
        QuantRoute::Decode { decode: M1Target::Single(key) } => {
            assert_eq!(key.kind, DecodeWeightKind::Q6K);
            assert_eq!(
                m1_start(&M1Target::Single(key), 2048, &[2048]),
                M1Stage::Quantize
            );
        }
        _ => panic!("no row"),
    }
    match q6(&native(), 1, 256, 2048) {
        QuantRoute::Decode { decode } => assert_eq!(
            m1_start(&decode, 256, &[2048]),
            M1Stage::Done { status: STATUS_INVALID_ARGUMENT }
        ),
        _ => panic!("no row"),
    }
}

#[test]
fn four_bit_rows_follow_their_group() {
    let w4 = W4Ability { enabled: true, pool: true };
    let s = RouteSettings { w4a4_scope: W4Scope::All, ..off() };
    match q4(&s, w4, 1, 2048, 2048) {
        QuantRoute::W4 { w4: W4Target::Plain(key) } => assert_eq!(key.k, 2048),
        _ => panic!("not plain"),
    }
    let s = RouteSettings { w4a4_group: Some(512), w4a4_hadamard: true, ..s };
    match q4(&s, w4, 1, 2048, 2048) {
        QuantRoute::W4 { w4: W4Target::Grouped(g) } => {
            assert_eq!(g.group_size, 512);
            assert!(g.hadamard);
        }
        _ => panic!("not grouped"),
    }
    let s = RouteSettings { w4a4_group: Some(2048), ..s };
    match q4(&s, w4, 1, 2048, 2048) {
        QuantRoute::W4 { w4: W4Target::Pool(p) } => assert!(p.hadamard),
        _ => panic!("not pooled"),
    }
    match q4(&s, W4Ability { pool: false, ..w4 }, 1, 2048, 2048) {
        QuantRoute::W4 { w4: W4Target::Grouped(g) } => assert_eq!(g.group_size, 2048),
        _ => panic!("not grouped"),
    }
    match q4(&s, w4, 1, 2048, 96) {
        QuantRoute::Decode { .. } => {}
        _ => panic!("96 columns are no multiple of 64"),
    }
    match rocknpu_matmul_q6_k_f32_f32(&s, w4, &call(DecodeWeightKind::Q6K, 1, 2048, 2048), false) {
        QuantRoute::Decode { .. } => {}
        _ => panic!("Q6_K rows stay in eight bits"),
    }
}

#[test]
fn batches_are_stacked_once() {
    let s = RouteSettings { prefill_hilo: HiloMode::All, ..native() };
    match q4(&s, NO_W4, 4, 2048, 2048) {
        QuantRoute::Hilo { rows } => assert_eq!(rows, 8),
        _ => panic!("not stacked"),
    }
    let again = rocknpu_matmul_q4_k_f32_f32(&s, NO_W4, &call(DecodeWeightKind::Q4K, 8, 2048, 2048), true);
    match again {
        QuantRoute::Tile { .. } => {}
        _ => panic!("stacked again"),
    }
}

#[test]
fn other_heights_are_cut_into_rows() {
    match q4(&native(), NO_W4, 5, 2048, 2048) {
        QuantRoute::Rows => {}
        _ => panic!("not cut"),
    }
    match q4(&off(), NO_W4, 5, 2048, 2048) {
        QuantRoute::Direct => {}
        _ => panic!("cut"),
    }
}

#[test]
fn wide_products_are_cut() {
    match q4(&native(), NO_W4, 128, 4096, 2048) {
        QuantRoute::Wide { split } => assert_eq!(split, WideSplit::Halves),
        _ => panic!("not cut"),
    }
    match q4(&native(), NO_W4, 4, 512, 8960) {
        QuantRoute::Wide { split } => {
            assert_eq!(split, WideSplit::Columns { per: 4480, row_bytes: 288 })
        }
        _ => panic!("not cut"),
    }
}

fn tile(route: QuantRoute) -> (MtileTarget, bool) {
    match route {
        QuantRoute::Tile { tile, padded } => (tile, padded),
        _ => panic!("no tile"),
    }
}

fn split_of(t: &MtileTarget) -> Option<Int8DecodeSplit> {
    match t {
        MtileTarget::Pool { split, .. } => Some(*split),
        _ => None,
    }
}

#[test]
fn tiles_are_pooled_by_shape_and_taken() {
    let (t, padded) = tile(q4(&native(), NO_W4, 4, 2048, 2048));
    assert_eq!(split_of(&t), Some(Int8DecodeSplit::N));
    assert!(!padded);
    assert_eq!(mtile_start(&t, 4 * 2048, &[4 * 2048], true), MtileStage::Quantize);
    let (t, _) = tile(q4(&native(), NO_W4, 4, 2048, 256));
    assert_eq!(split_of(&t), None);
    assert_eq!(mtile_start(&t, 4 * 2048, &[4 * 256], true), MtileStage::Quantize);
    let (t, _) = tile(q6(&native(), 32, 5632, 2048));
    assert_eq!(split_of(&t), Some(Int8DecodeSplit::K));
    assert_eq!(mtile_start(&t, 32 * 5632, &[32 * 2048], true), MtileStage::Quantize);
    let (t, padded) = tile(q6(&native(), 4, 8960, 2048));
    assert!(padded);
    assert_eq!(split_of(&t), Some(Int8DecodeSplit::K));
    assert_eq!(mtile_start(&t, 4 * 9216, &[4 * 2048], true), MtileStage::Quantize);
    let (t, padded) = tile(q6(&native(), 4, 256, 2048));
    assert!(padded);
    match t {
        MtileTarget::Pool { key, split, .. } => {
            assert_eq!(key.k, 512);
            assert_eq!(split, Int8DecodeSplit::N);
        }
        _ => panic!("not pooled"),
    }
}

#[test]
fn sixteen_rows_have_their_own_way() {
    let s = RouteSettings { w8_mtile: true, ..off() };
    match tile(q4(&s, NO_W4, 16, 2048, 2048)).0 {
        MtileTarget::Tile { m, .. } => assert_eq!(m, 16),
        _ => panic!("no tile"),
    }
    let mc = RouteSettings { mtile_mc: true, ..s };
    assert_eq!(split_of(&tile(q4(&mc, NO_W4, 16, 2048, 2048)).0), Some(Int8DecodeSplit::N));
    assert_eq!(split_of(&tile(q4(&mc, NO_W4, 16, 2048, 1024)).0), None);
    let grouped = RouteSettings { mtile_qo_group: Some(512), ..s };
    match tile(q4(&grouped, NO_W4, 16, 2048, 2048)).0 {
        MtileTarget::Grouped { grouped } => assert_eq!(grouped.group_size, 512),
        _ => panic!("not grouped"),
    }
    let pooled = RouteSettings { mtile_qo_group: Some(512), ..mc };
    let t = tile(q4(&pooled, NO_W4, 16, 2048, 2048)).0;
    assert_eq!(mtile_start(&t, 16 * 2048, &[16 * 2048], false), MtileStage::Quantize);
    let one = RouteSettings { mtile_qo_group: Some(2048), ..mc };
    let t = tile(q4(&one, NO_W4, 16, 2048, 2048)).0;
    assert_eq!(
        mtile_start(&t, 16 * 2048, &[16 * 2048], false),
        MtileStage::Done { status: STATUS_INVALID_ARGUMENT }
    );
}

#[test]
fn what_is_left_goes_to_half_precision() {
    let s = RouteSettings { prefill_cache: true, ..off() };
    match q4(&s, NO_W4, 16, 2048, 2048) {
        QuantRoute::Prefill { prefill } => assert_eq!(
            prefill,
            DecodeWeightKey {
                address: 4096,
                bytes: 2048 * 8 * 144,
                k: 2048,
                n: 2048,
                kind: DecodeWeightKind::Q4K
            }
        ),
        _ => panic!("no prefill"),
    }
}
