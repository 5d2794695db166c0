use rocknpu::keys::{DecodeChoice, Int8DecodeSplit, Resident};
use rocknpu::split::{split_n, split_n_active, SplitError};
use rocknpu::tuning::{
    decode_worker_candidates, median, select_decode_worker_index, sorted, TuneAction, TuneEvent,
    Tuner,
};

#[test]
fn decode_worker_selector_ignores_noise_level_gain() {
    assert_eq!(select_decode_worker_index(&[450, 446, 447]), Some(0));
}

#[test]
fn decode_worker_selector_accepts_material_two_worker_gain() {
    assert_eq!(select_decode_worker_index(&[1598, 985, 1200]), Some(1));
}

#[test]
fn decode_worker_selector_accepts_material_three_worker_gain() {
    assert_eq!(select_decode_worker_index(&[3960, 2220, 1647]), Some(2));
}

#[test]
fn decode_worker_selector_requires_nonempty_samples() {
    assert_eq!(select_decode_worker_index(&[]), None);
}

#[test]
fn median_is_the_upper_middle() {
    assert_eq!(median(&[5, 1, 9]), 5);
    assert_eq!(median(&[4, 1, 9, 7]), 7);
    assert_eq!(sorted(&[3, 1, 2, 3]), vec![1, 2, 3, 3]);
}

fn choice(split: Int8DecodeSplit, workers: usize) -> DecodeChoice {
    DecodeChoice { split, workers }
}

#[test]
fn candidates_grow_with_the_effective_workers() {
    let n = Int8DecodeSplit::N;
    let k = Int8DecodeSplit::K;
    let found = decode_worker_candidates(&[Some(2), Some(3)], &[Some(2), Some(3)], 2048, false);
    assert_eq!(found, Some(vec![choice(n, 1), choice(n, 2), choice(n, 3)]));
    let found = decode_worker_candidates(&[Some(2), Some(2)], &[Some(2), Some(3)], 5632, false);
    assert_eq!(
        found,
        Some(vec![choice(n, 1), choice(n, 2), choice(k, 2), choice(k, 3)])
    );
    let found = decode_worker_candidates(&[Some(2), Some(2)], &[Some(2), Some(3)], 5632, true);
    assert_eq!(found, Some(vec![choice(n, 1), choice(n, 2)]));
    assert_eq!(decode_worker_candidates(&[None], &[Some(2)], 2048, false), None);
}

fn resident(handle: u64) -> Resident {
    Resident { handle, resident_bytes: 10 }
}

#[test]
fn each_candidate_is_timed_three_times_and_the_loser_is_let_go() {
    let n = Int8DecodeSplit::N;
    let mut tuner = Tuner::new(vec![choice(n, 1), choice(n, 2)]);
    tuner.step(TuneEvent::Prepared { resident: Some(resident(1)) });
    tuner.step(TuneEvent::Prepared { resident: Some(resident(2)) });
    let mut runs = Vec::new();
    while let TuneAction::Run { prepared } = tuner.action() {
        runs.push(prepared.handle);
        let ns = if prepared.handle == 1 { 1000 } else { 400 };
        tuner.step(TuneEvent::Ran { elapsed_ns: Some(ns) });
    }
    assert_eq!(tuner.medians(), vec![1000, 400]);
    assert_eq!(runs, vec![1, 2, 1, 2, 2, 1, 1, 2]);
    match tuner.action() {
        TuneAction::Release { prepared } => assert_eq!(prepared.handle, 1),
        other => panic!("{other:?}"),
    }
    tuner.step(TuneEvent::Released { ok: true });
    match tuner.action() {
        TuneAction::Finish { winner: Some((won, prepared)) } => {
            assert_eq!(won, choice(n, 2));
            assert_eq!(prepared, resident(2));
        }
        other => panic!("{other:?}"),
    }
}

#[test]
fn failed_trial_lets_go_of_everything() {
    let n = Int8DecodeSplit::N;
    let mut tuner = Tuner::new(vec![choice(n, 1), choice(n, 2)]);
    tuner.step(TuneEvent::Prepared { resident: Some(resident(1)) });
    tuner.step(TuneEvent::Prepared { resident: None });
    match tuner.action() {
        TuneAction::Release { prepared } => assert_eq!(prepared, resident(1)),
        other => panic!("{other:?}"),
    }
    tuner.step(TuneEvent::Released { ok: true });
    match tuner.action() {
        TuneAction::Finish { winner } => assert!(winner.is_none()),
        other => panic!("{other:?}"),
    }
}

#[test]
fn columns_are_split_in_whole_blocks() {
    assert_eq!(split_n(5632, 3, 32), Ok(vec![(0, 1888), (1888, 1888), (3776, 1856)]));
    assert_eq!(split_n(5632, 3, 64), Ok(vec![(0, 1920), (1920, 1856), (3776, 1856)]));
    assert_eq!(split_n(40, 2, 32), Err(SplitError::Unaligned));
    assert_eq!(split_n(0, 2, 32), Err(SplitError::Unaligned));
    assert_eq!(split_n(64, 0, 32), Err(SplitError::Unaligned));
    assert_eq!(split_n(64, 3, 32), Err(SplitError::TooFewBlocks));
    assert_eq!(split_n_active(64, 3), vec![32, 32]);
}
