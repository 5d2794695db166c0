use rocknpu::keys::{
    ConcatKey, DecodeChoice, DecodePairKey, DecodeWeightKey, DecodeWeightKind, GroupedKey,
    Int8DecodeSplit, Resident,
};
use rocknpu::mtile::{
    execute_padded_k_mtile, joined_width, mtile_start, prepare_request, tile_height_supported,
    MtileCache, MtileEntry, MtileEvent, MtileRun, MtileStage, MtileTarget, PrewarmStage, WeightSizes,
};
use rocknpu::plan::{
    column_chunks, column_copies, concat_copies, half_offsets, run_mtile_row_chunks,
    split_wide_mtile, tile_height_for, WideSplit, WorkerSlice,
};
use rocknpu::prefill::{PrefillCache, PrefillEvent, PrefillStage};
use rocknpu::profile::{MtileReport, PrefillPrepareStats, WorkerStageNs};
use rocknpu::status::{STATUS_EXECUTION_ERROR, STATUS_INVALID_ARGUMENT, STATUS_OK};

fn key(address: usize, k: usize, n: usize) -> DecodeWeightKey {
    DecodeWeightKey { address, bytes: 9, k, n, kind: DecodeWeightKind::Q4K }
}

fn entry(parts: usize, direct: bool) -> MtileEntry {
    MtileEntry { handle: 4, resident_bytes: 100, parts, direct, workers: 3 }
}

fn report(k_slices: usize) -> MtileReport {
    MtileReport {
        total_ns: 50,
        k_slices,
        workers: vec![WorkerStageNs { submit_ns: 3, ..WorkerStageNs::none() }],
        rescale_ns: 6,
    }
}

fn sizes(weights: usize, scales: usize) -> Option<WeightSizes> {
    Some(WeightSizes { weights, scales, second_weights: 0, second_scales: 0 })
}

#[test]
fn tile_heights_are_listed() {
    let taken: Vec<usize> = (0..200).filter(|&m| tile_height_supported(m)).collect();
    assert_eq!(taken, vec![4, 8, 12, 16, 32, 48, 64, 128]);
}

#[test]
fn tile_calls_are_checked() {
    let refused = MtileStage::Done { status: STATUS_INVALID_ARGUMENT };
    let tile = MtileTarget::Tile { key: key(1, 512, 64), m: 4 };
    assert_eq!(mtile_start(&tile, 2048, &[256], false), MtileStage::Quantize);
    assert_eq!(mtile_start(&tile, 2047, &[256], false), refused);
    let tall = MtileTarget::Tile { key: key(1, 512, 64), m: 5 };
    assert_eq!(mtile_start(&tall, 2560, &[320], false), refused);
    let narrow = MtileTarget::Pool { key: key(1, 512, 736), m: 4, split: Int8DecodeSplit::N };
    assert_eq!(mtile_start(&narrow, 2048, &[4 * 736], false), refused);
    let short = MtileTarget::Pool { key: key(1, 512, 1024), m: 4, split: Int8DecodeSplit::K };
    assert_eq!(mtile_start(&short, 2048, &[4096], false), refused);
    let joined = || ConcatKey { members: vec![key(1, 512, 64), key(2, 512, 32)] };
    let concat = MtileTarget::Concat { joined: joined(), m: 4 };
    assert_eq!(mtile_start(&concat, 2048, &[256, 128], true), MtileStage::Quantize);
    assert_eq!(mtile_start(&concat, 2048, &[256, 128], false), refused);
    assert_eq!(joined_width(&joined().members), Some(96));
}

#[test]
fn second_tile_call_finds_the_weights() {
    let mut cache = MtileCache::new(true);
    let target = MtileTarget::Tile { key: key(1, 512, 64), m: 4 };
    let event = MtileEvent::Quantized { ok: true, quant_ns: 1 };
    let stage = cache.step(&target, true, MtileStage::Quantize, event);
    assert_eq!(stage, MtileStage::Weights);
    let event = MtileEvent::Weights { sizes: sizes(512 * 64, 64), prepare_ns: 7 };
    let stage = cache.step(&target, true, stage, event);
    assert_eq!(stage, MtileStage::Prepare { prepare_ns: 7 });
    let event = MtileEvent::Prepared { entry: Some(entry(1, false)), pack_ns: 8 };
    let stage = cache.step(&target, true, stage, event);
    let running = MtileStage::Execute { entry: entry(1, false), run: MtileRun::Persistent, part: 0 };
    assert_eq!(stage, running);
    let event = MtileEvent::Executed { report: Some(report(1)) };
    assert_eq!(cache.step(&target, true, stage, event), MtileStage::Done { status: STATUS_OK });
    let event = MtileEvent::Quantized { ok: true, quant_ns: 1 };
    assert_eq!(cache.step(&target, true, MtileStage::Quantize, event), running);
    let profile = cache.profile.unwrap();
    assert_eq!((profile.calls, profile.cache_hits, profile.cache_misses), (1, 1, 1));
    assert_eq!(profile.quant_ns, 2);
    assert_eq!((profile.weight_prepare_ns, profile.weight_pack_ns), (7, 8));
    assert_eq!(profile.stages.submit_ns, 3);
    assert_eq!(profile.rescale_ns, 6);
}

#[test]
fn tiles_without_kept_buffers_have_sixteen_rows() {
    let mut cache = MtileCache::new(false);
    let target = MtileTarget::Tile { key: key(1, 512, 64), m: 4 };
    let event = MtileEvent::Prepared { entry: Some(entry(1, false)), pack_ns: 0 };
    let end = cache.step(&target, false, MtileStage::Prepare { prepare_ns: 0 }, event);
    assert_eq!(end, MtileStage::Done { status: STATUS_INVALID_ARGUMENT });
    let event = MtileEvent::Prepared { entry: None, pack_ns: 0 };
    let end = cache.step(&target, true, MtileStage::Prepare { prepare_ns: 0 }, event);
    assert_eq!(end, MtileStage::Done { status: STATUS_EXECUTION_ERROR });
}

#[test]
fn groups_run_one_after_the_other() {
    let mut cache = MtileCache::new(false);
    let grouped = GroupedKey { key: key(1, 1536, 64), group_size: 512 };
    let target = MtileTarget::Grouped { grouped };
    let event = MtileEvent::Prepared { entry: Some(entry(3, false)), pack_ns: 0 };
    let mut stage = cache.step(&target, true, MtileStage::Prepare { prepare_ns: 0 }, event);
    let mut parts = Vec::new();
    while let MtileStage::Execute { part, .. } = stage {
        parts.push(part);
        stage = cache.step(&target, true, stage, MtileEvent::Executed { report: Some(report(1)) });
    }
    assert_eq!(parts, vec![0, 1, 2]);
    assert_eq!(stage, MtileStage::Done { status: STATUS_OK });
}

#[test]
fn requests_say_how_weights_are_laid_out() {
    let pair = DecodePairKey { first: key(1, 512, 2048), second: key(2, 512, 2048) };
    let r = prepare_request(&MtileTarget::PairPool { pair, m: 4 }, true);
    assert_eq!((r.k, r.n, r.parts, r.direct), (512, 2048, 2, false));
    assert_eq!(r.pool, Some(DecodeChoice { split: Int8DecodeSplit::N, workers: 3 }));
    let joined = ConcatKey { members: vec![key(1, 512, 32), key(2, 512, 32)] };
    let r = prepare_request(&MtileTarget::Concat { joined, m: 4 }, false);
    assert_eq!((r.n, r.direct), (64, true));
    assert_eq!(r.pool, Some(DecodeChoice { split: Int8DecodeSplit::N, workers: 2 }));
}

#[test]
fn short_rows_are_padded() {
    let t = execute_padded_k_mtile(&key(1, 8960, 2048), 4, 4 * 8960).ok().unwrap();
    match t {
        MtileTarget::Pool { key, split, .. } => {
            assert_eq!(key.k, 9216);
            assert_eq!(split, Int8DecodeSplit::K);
        }
        _ => panic!("not pooled"),
    }
    assert_eq!(
        execute_padded_k_mtile(&key(1, 8960, 2048), 4, 5).err(),
        Some(STATUS_INVALID_ARGUMENT)
    );
}

#[test]
fn prepared_ahead_is_reused() {
    let mut cache = MtileCache::new(false);
    let k = key(1, 2048, 256);
    let target = match cache.prewarm_start(&k, true, true) {
        PrewarmStage::Weights { target } => target,
        _ => panic!("nothing due"),
    };
    match cache.prewarm_weights(&k, target, Some((2048 * 256, 256))) {
        PrewarmStage::Prepare { target } => {
            match cache.prewarm_prepared(&target, Some(entry(1, false))) {
                PrewarmStage::Done { status } => assert_eq!(status, STATUS_OK),
                _ => panic!("not done"),
            }
        }
        _ => panic!("not prepared"),
    }
    match cache.prewarm_start(&k, true, true) {
        PrewarmStage::Done { status } => assert_eq!(status, STATUS_OK),
        _ => panic!("prepared again"),
    }
    match cache.prewarm_start(&key(1, 512, 256), true, true) {
        PrewarmStage::Done { status } => assert_eq!(status, STATUS_OK),
        _ => panic!("other shapes are left alone"),
    }
}

#[test]
fn rows_are_cut_into_tiles() {
    let cut = |m: usize| -> Vec<(usize, usize, usize)> {
        run_mtile_row_chunks(m).iter().map(|c| (c.row, c.rows, c.tile)).collect()
    };
    assert_eq!(cut(5), vec![(0, 5, 8)]);
    assert_eq!(cut(300), vec![(0, 128, 128), (128, 128, 128), (256, 44, 48)]);
    assert_eq!(tile_height_for(65), 128);
    assert_eq!(cut(0), vec![]);
}

#[test]
fn wide_products_are_cut_evenly() {
    assert_eq!(split_wide_mtile(4, 512, 8192, 8192 * 288), WideSplit::Whole);
    assert_eq!(
        split_wide_mtile(4, 512, 20000, 20000 * 288),
        WideSplit::Columns { per: 6688, row_bytes: 288 }
    );
    assert_eq!(split_wide_mtile(128, 2304, 64, 64), WideSplit::Halves);
    assert_eq!(split_wide_mtile(128, 5632, 64, 64), WideSplit::Whole);
    assert_eq!(split_wide_mtile(128, 2048, 64, 64), WideSplit::Whole);
    assert_eq!(half_offsets(1, 512, 32), (64 * 512, 64 * 32));
    let chunks: Vec<(usize, usize)> = column_chunks(100, 32).iter().map(|c| (c.start, c.len)).collect();
    assert_eq!(chunks, vec![(0, 32), (32, 32), (64, 32), (96, 4)]);
}

#[test]
fn column_chunks_fill_the_output() {
    let n = 5;
    let mut out = vec![0usize; 2 * n];
    for chunk in column_chunks(n, 2) {
        for mv in column_copies(2, n, chunk.start, chunk.len) {
            for i in 0..mv.len {
                out[mv.dst + i] += 1;
                assert!(mv.src + i < 2 * chunk.len);
            }
        }
    }
    assert_eq!(out, vec![1; 10]);
}

#[test]
fn joined_columns_go_back_to_their_members() {
    let ns = [64, 32];
    let mut outs = vec![vec![0usize; 128], vec![0usize; 64]];
    for slice in [WorkerSlice { n0: 0, nsub: 32 }, WorkerSlice { n0: 32, nsub: 64 }] {
        for mv in concat_copies(&ns, slice, 2) {
            for i in 0..mv.len {
                outs[mv.member][mv.dst + i] += 1;
            }
        }
    }
    assert_eq!(outs, vec![vec![1; 128], vec![1; 64]]);
}

fn stats() -> PrefillPrepareStats {
    PrefillPrepareStats {
        resident_bytes: 10,
        prepare_wall_ns: 30,
        worker_total_ns_max: 20,
        plan_ns_max: 1,
        layout_ns_max: 1,
        alloc_mmap_ns_max: 1,
        prep_ns_max: 1,
        zero_ns_max: 1,
        tile_pack_ns_max: 1,
        fini_ns_max: 1,
        pack_ns_max: 1,
        pack_ns_sum: 1,
    }
}

fn prepare(cache: &mut PrefillCache, k: &DecodeWeightKey, m: usize, stage: PrefillStage, handle: u64) {
    let event = PrefillEvent::Decoded { values: k.k * k.n, dequant_ns: 1 };
    let stage = cache.step(k, m, stage, event);
    assert_eq!(stage, PrefillStage::Prepare);
    let resident = Resident { handle, resident_bytes: 10 };
    let event = PrefillEvent::Prepared { share_ns: 1, call_ns: 40, result: Some((resident, stats())) };
    let stage = cache.step(k, m, stage, event);
    assert_eq!(stage, PrefillStage::Execute { prepared: resident });
    let event = PrefillEvent::Executed { convert_ns: 1, ok: true, execute_ns: 1, copy_ns: 1 };
    assert_eq!(cache.step(k, m, stage, event), PrefillStage::Done { status: STATUS_OK });
}

#[test]
fn layouts_are_kept_per_row_count() {
    let mut cache = PrefillCache::new(true);
    let k = key(1, 256, 4);
    assert_eq!(cache.start(&k, 4), PrefillStage::CreatePool);
    let event = PrefillEvent::PoolCreated { ok: true, ns: 2 };
    let stage = cache.step(&k, 4, PrefillStage::CreatePool, event);
    assert_eq!(stage, PrefillStage::Decode);
    prepare(&mut cache, &k, 4, stage, 1);
    let kept = Resident { handle: 1, resident_bytes: 10 };
    assert_eq!(cache.start(&k, 4), PrefillStage::Execute { prepared: kept });
    assert_eq!(cache.start(&k, 8), PrefillStage::Release { old: kept });
    let stage = cache.step(&k, 8, PrefillStage::Release { old: kept }, PrefillEvent::Released { ok: true });
    assert_eq!(stage, PrefillStage::Decode);
    prepare(&mut cache, &k, 8, stage, 2);
    let profile = cache.profile.unwrap();
    assert_eq!((profile.cache_hits, profile.cache_misses), (1, 2));
    assert_eq!(profile.prepare_call_overhead_ns(), 20);
    assert_eq!(profile.prepare_pool_residual_ns(), 20);
    let failed = PrefillStage::Done { status: STATUS_EXECUTION_ERROR };
    let event = PrefillEvent::PoolCreated { ok: false, ns: 0 };
    assert_eq!(cache.step(&k, 8, PrefillStage::CreatePool, event), failed);
    let event = PrefillEvent::Decoded { values: 3, dequant_ns: 1 };
    assert_eq!(
        cache.step(&k, 8, PrefillStage::Decode, event),
        PrefillStage::Done { status: STATUS_INVALID_ARGUMENT }
    );
}
