use rocknpu::context::{
    rocknpu_context_decode_cache_stats, rocknpu_context_set_overlap, rocknpu_device_count,
    ContextEnv, RockNpuContext, RockNpuDecodeCacheStats,
};
use rocknpu::counters::DecodeCounters;
use rocknpu::decode_m1::{m1_start, M1Event, M1Report, M1Stage, M1Target, OverlapToken};
use rocknpu::decode_w4::{w4_start, W4Event, W4Report, W4Stage, W4Target};
use rocknpu::keys::{
    DecodeChoice, DecodePairKey, DecodeTripleKey, DecodeWeightKey, DecodeWeightKind, GroupedW4Key,
    Int8DecodeSplit, PoolW4Key, Resident,
};
use rocknpu::profile::{M1CallTimes, M1ProfileKind, PoolStats, WorkerStageNs};
use rocknpu::status::{STATUS_EXECUTION_ERROR, STATUS_INVALID_ARGUMENT, STATUS_OK};

fn key(address: usize, k: usize, n: usize) -> DecodeWeightKey {
    DecodeWeightKey { address, bytes: 9, k, n, kind: DecodeWeightKind::Q4K }
}

fn context(profiled: bool, w4: bool) -> RockNpuContext {
    let flag = |on: bool| if on { Some("1".to_string()) } else { None };
    let env = ContextEnv {
        w4a4: flag(w4),
        prefill_profile: flag(profiled),
        mtile_profile: flag(profiled),
        m1_profile: flag(profiled),
    };
    RockNpuContext::create(&env, true, true, true).unwrap()
}

fn report() -> M1Report {
    M1Report {
        stats: PoolStats {
            npu_tasks: 2,
            wall_ns: 70,
            workers: vec![WorkerStageNs { wait_ns: 5, ..WorkerStageNs::none() }],
        },
        times: M1CallTimes { quant_ns: 10, rescale_ns: 15, total_ns: 100 },
    }
}

const CHOICE: DecodeChoice = DecodeChoice { split: Int8DecodeSplit::N, workers: 2 };

fn run(c: &mut RockNpuContext, target: &M1Target, handle: u64) -> (M1Stage, bool) {
    let stage = M1Stage::Quantize;
    let mut stage = c.m1.step(&mut c.counters, target, stage, M1Event::Quantized { ok: true });
    if stage == M1Stage::Weights {
        let sizes = Some((target.k() * target.joined_n().unwrap(), target.joined_n().unwrap()));
        let event = M1Event::Weights { sizes, pool_workers: 3 };
        stage = c.m1.step(&mut c.counters, target, stage, event);
        let resident = Resident { handle, resident_bytes: 1000 };
        let event = match stage {
            M1Stage::Tune => M1Event::Tuned { winner: Some((CHOICE, resident)) },
            M1Stage::Prepare { .. } => M1Event::Prepared { resident: Some(resident) },
            other => panic!("{other:?}"),
        };
        stage = c.m1.step(&mut c.counters, target, stage, event);
    }
    let hit = match stage {
        M1Stage::Execute { hit, .. } => hit,
        other => panic!("{other:?}"),
    };
    let event = M1Event::Executed { report: Some(report()) };
    (c.m1.step(&mut c.counters, target, stage, event), hit)
}

#[test]
fn calls_are_checked_before_any_work() {
    let single = M1Target::Single(key(1, 512, 64));
    assert_eq!(m1_start(&single, 512, &[64]), M1Stage::Quantize);
    let refused = M1Stage::Done { status: STATUS_INVALID_ARGUMENT };
    assert_eq!(m1_start(&single, 511, &[64]), refused);
    assert_eq!(m1_start(&single, 512, &[63]), refused);
    assert_eq!(m1_start(&M1Target::Single(key(1, 500, 64)), 500, &[64]), refused);
    assert_eq!(m1_start(&M1Target::Single(key(1, 512, 40)), 512, &[40]), refused);
    assert_eq!(m1_start(&M1Target::Single(key(1, 512, 8224)), 512, &[8224]), refused);
    let pair = M1Target::Pair(DecodePairKey { first: key(1, 512, 64), second: key(2, 1024, 64) });
    assert_eq!(m1_start(&pair, 512, &[64, 64]), refused);
    let pair = M1Target::Pair(DecodePairKey { first: key(1, 512, 64), second: key(2, 512, 32) });
    assert_eq!(m1_start(&pair, 512, &[64, 32]), M1Stage::Quantize);
}

#[test]
fn second_call_finds_the_weights() {
    let mut c = context(true, false);
    let target = M1Target::Single(key(1, 512, 64));
    let (end, hit) = run(&mut c, &target, 7);
    assert_eq!(end, M1Stage::Done { status: STATUS_OK });
    assert!(!hit);
    let (end, hit) = run(&mut c, &target, 8);
    assert_eq!(end, M1Stage::Done { status: STATUS_OK });
    assert!(hit);
    let stats = c.decode_cache_stats();
    assert_eq!(
        stats,
        RockNpuDecodeCacheStats {
            hits: 1,
            misses: 1,
            entries: 1,
            resident_bytes: 1000,
            hit_ns: 100,
            miss_ns: 100,
            tuned_shapes: 1,
            worker1_calls: 0,
            worker2_calls: 2,
            worker3_calls: 0,
            ksplit_calls: 0,
        }
    );
    let lines = c.closing_report(false).m1.unwrap();
    assert_eq!(lines.len(), 1);
    assert_eq!(lines[0].key.kind, M1ProfileKind::Single);
    assert_eq!(lines[0].shape.calls, 1);
    assert_eq!(lines[0].shape.stages.wait_ns, 5);
    assert_eq!(lines[0].other_ns, 5);
    assert_eq!(M1ProfileKind::Single.as_str(), "single");
    assert_eq!(M1ProfileKind::Pair.as_str(), "pair");
    assert_eq!(M1ProfileKind::Triple.as_str(), "triple");
}

#[test]
fn choice_of_a_shape_is_kept() {
    let mut c = context(false, false);
    run(&mut c, &M1Target::Single(key(1, 512, 64)), 7);
    let other = M1Target::Single(key(2, 512, 64));
    let stage = c.m1.step(&mut c.counters, &other, M1Stage::Quantize, M1Event::Quantized { ok: true });
    let event = M1Event::Weights { sizes: Some((512 * 64, 64)), pool_workers: 3 };
    let stage = c.m1.step(&mut c.counters, &other, stage, event);
    assert_eq!(stage, M1Stage::Prepare { choice: CHOICE });
}

#[test]
fn wide_pairs_need_no_trial() {
    let mut c = context(false, false);
    let pair = M1Target::Pair(DecodePairKey { first: key(1, 512, 8192), second: key(2, 512, 4096) });
    let stage = c.m1.step(&mut c.counters, &pair, M1Stage::Quantize, M1Event::Quantized { ok: true });
    let sizes = Some((512 * 12288, 12288));
    let stage = c.m1.step(&mut c.counters, &pair, stage, M1Event::Weights { sizes, pool_workers: 2 });
    assert_eq!(
        stage,
        M1Stage::Prepare { choice: DecodeChoice { split: Int8DecodeSplit::N, workers: 2 } }
    );
}

#[test]
fn failures_keep_what_is_resident() {
    let mut c = context(false, false);
    let target = M1Target::Single(key(1, 512, 64));
    let stage = c.m1.step(&mut c.counters, &target, M1Stage::Quantize, M1Event::Quantized { ok: false });
    assert_eq!(stage, M1Stage::Done { status: STATUS_INVALID_ARGUMENT });
    let event = M1Event::Weights { sizes: None, pool_workers: 3 };
    let stage = c.m1.step(&mut c.counters, &target, M1Stage::Weights, event);
    assert_eq!(stage, M1Stage::Done { status: STATUS_INVALID_ARGUMENT });
    let stage = c.m1.step(&mut c.counters, &target, M1Stage::Tune, M1Event::Tuned { winner: None });
    assert_eq!(stage, M1Stage::Done { status: STATUS_EXECUTION_ERROR });
    assert_eq!(c.decode_cache_stats().entries, 0);
    run(&mut c, &target, 7);
    let stage = c.m1.step(&mut c.counters, &target, M1Stage::Quantize, M1Event::Quantized { ok: true });
    let stage = c.m1.step(&mut c.counters, &target, stage, M1Event::Executed { report: None });
    assert_eq!(stage, M1Stage::Done { status: STATUS_EXECUTION_ERROR });
    assert_eq!(c.decode_cache_stats().entries, 1);
}

#[test]
fn triple_takes_the_place_of_its_parts() {
    let mut c = context(false, false);
    let (a, b, d) = (key(1, 512, 64), key(2, 512, 64), key(3, 512, 64));
    run(&mut c, &M1Target::Single(a), 1);
    run(&mut c, &M1Target::Pair(DecodePairKey { first: b, second: d }), 2);
    run(&mut c, &M1Target::Single(b), 3);
    assert_eq!(c.decode_cache_stats().entries, 3);
    let triple = M1Target::Triple(DecodeTripleKey { first: a, second: b, third: d });
    run(&mut c, &triple, 4);
    let stats = c.decode_cache_stats();
    assert_eq!(stats.entries, 2);
    assert_eq!(stats.resident_bytes, 2000);
    assert!(run(&mut c, &M1Target::Single(b), 5).1);
    assert!(!run(&mut c, &M1Target::Single(a), 6).1);
}

#[test]
fn callback_runs_beside_one_projection() {
    let mut c = context(false, false);
    let token = OverlapToken { callback: 5, user_data: 6 };
    assert_eq!(rocknpu_context_set_overlap(1, 5, 6), Ok(Some(token)));
    assert_eq!(rocknpu_context_set_overlap(1, 0, 6), Ok(None));
    assert_eq!(rocknpu_context_set_overlap(0, 5, 6), Err(STATUS_INVALID_ARGUMENT));
    let target = M1Target::Single(key(1, 512, 64));
    run(&mut c, &target, 7);
    c.set_overlap(Some(token));
    let stage = c.m1.step(&mut c.counters, &target, M1Stage::Quantize, M1Event::Quantized { ok: true });
    match stage {
        M1Stage::Execute { overlap, .. } => assert_eq!(overlap, Some(token)),
        other => panic!("{other:?}"),
    }
    let stage = c.m1.step(&mut c.counters, &target, M1Stage::Quantize, M1Event::Quantized { ok: true });
    match stage {
        M1Stage::Execute { overlap, .. } => assert_eq!(overlap, None),
        other => panic!("{other:?}"),
    }
}

#[test]
fn contexts_need_a_device_and_a_pool() {
    let env = || ContextEnv {
        w4a4: Some("1".to_string()),
        prefill_profile: None,
        mtile_profile: None,
        m1_profile: None,
    };
    assert!(RockNpuContext::create(&env(), false, true, true).is_none());
    assert!(RockNpuContext::create(&env(), true, false, true).is_none());
    let c = RockNpuContext::create(&env(), true, true, false).unwrap();
    assert!(c.w4_ability().enabled);
    assert!(!c.w4_ability().pool);
    assert!(RockNpuContext::wants_w4_pool(&env()));
    assert_eq!(c.counters, DecodeCounters::new());
    assert_eq!(rocknpu_device_count(true), 1);
    assert_eq!(rocknpu_device_count(false), 0);
    assert_eq!(rocknpu_context_decode_cache_stats(1, 1), STATUS_OK);
    assert_eq!(rocknpu_context_decode_cache_stats(0, 1), STATUS_INVALID_ARGUMENT);
    assert_eq!(rocknpu_context_decode_cache_stats(1, 0), STATUS_INVALID_ARGUMENT);
}

fn run_w4(c: &mut RockNpuContext, target: &W4Target, scales: usize, saturated: usize) -> bool {
    let key = target.key();
    let mut stage = w4_start(target, c.w4a4_pool, key.k, key.n);
    stage = c.w4.step(&mut c.counters, target, stage, W4Event::Quantized { scales: Some(scales) });
    if stage == W4Stage::Weights {
        let event = W4Event::Weights { scales: Some(scales * key.n) };
        stage = c.w4.step(&mut c.counters, target, stage, event);
        let resident = Resident { handle: 3, resident_bytes: 500 };
        let event = match stage {
            W4Stage::Tune => W4Event::Tuned { winner: Some((3, resident)) },
            W4Stage::Prepare { .. } => W4Event::Prepared { resident: Some(resident) },
            other => panic!("{other:?}"),
        };
        stage = c.w4.step(&mut c.counters, target, stage, event);
    }
    let hit = match stage {
        W4Stage::Execute { hit, .. } => hit,
        other => panic!("{other:?}"),
    };
    let report = W4Report {
        values: scales * key.n,
        saturated_outputs: saturated,
        elapsed_ns: 40,
    };
    let end = c.w4.step(&mut c.counters, target, stage, W4Event::Executed { report: Some(report) });
    assert_eq!(end, W4Stage::Done { status: STATUS_OK });
    hit
}

#[test]
fn four_bit_calls_are_cached_and_counted() {
    let mut c = context(false, true);
    let plain = W4Target::Plain(key(1, 2048, 64));
    let grouped = W4Target::Grouped(GroupedW4Key {
        key: key(1, 2048, 64),
        group_size: 512,
        hadamard: false,
    });
    let pool = W4Target::Pool(PoolW4Key { key: key(1, 2048, 64), hadamard: true });
    assert!(!run_w4(&mut c, &plain, 1, 0));
    assert!(run_w4(&mut c, &plain, 1, 3));
    assert!(!run_w4(&mut c, &grouped, 4, 0));
    assert!(!run_w4(&mut c, &pool, 1, 0));
    assert!(run_w4(&mut c, &pool, 1, 2));
    let stats = c.decode_cache_stats();
    assert_eq!((stats.hits, stats.misses, stats.entries), (2, 3, 3));
    assert_eq!(stats.resident_bytes, 1500);
    assert_eq!(stats.tuned_shapes, 1);
    assert_eq!(stats.worker3_calls, 2);
    let summary = c.closing_report(true).w4.unwrap();
    assert_eq!(summary.calls, 5);
    assert_eq!(summary.saturated_calls, 2);
    assert_eq!(summary.saturated_outputs, 5);
    assert_eq!(summary.pool_cache_entries, 1);
    assert!(c.closing_report(false).w4.is_none());
}

#[test]
fn four_bit_calls_are_checked() {
    let refused = W4Stage::Done { status: STATUS_INVALID_ARGUMENT };
    assert_eq!(w4_start(&W4Target::Plain(key(1, 2048, 96)), true, 2048, 96), refused);
    assert_eq!(w4_start(&W4Target::Plain(key(1, 10784, 64)), true, 10784, 64), refused);
    assert_eq!(w4_start(&W4Target::Plain(key(1, 2048, 64)), true, 2047, 64), refused);
    let pool = W4Target::Pool(PoolW4Key { key: key(1, 2048, 64), hadamard: true });
    let failed = W4Stage::Done { status: STATUS_EXECUTION_ERROR };
    assert_eq!(w4_start(&pool, false, 2048, 64), failed);
    assert_eq!(w4_start(&pool, true, 2048, 64), W4Stage::Quantize { out_len: 64 });
    let mut c = context(false, true);
    let end = c.w4.step(
        &mut c.counters,
        &pool,
        W4Stage::Quantize { out_len: 63 },
        W4Event::Quantized { scales: Some(1) },
    );
    assert_eq!(end, refused);
}
