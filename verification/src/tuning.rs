//! Choosing how many cores a projection is spread over, by trial.

use crate::arith::sat_u128;
use crate::keys::{DecodeChoice, Int8DecodeSplit, Resident};
use vstd::prelude::*;

verus! {

/// Longest K that is never cut along K.
pub const TUNE_MAX_WHOLE_K: usize = 4096;

/// A later candidate must be this much faster, in percent.
pub const REQUIRED_IMPROVEMENT_PERCENT: u128 = 5;

/// Timed rounds per candidate.
pub const TUNE_ROUNDS: usize = 3;

/// Whether asking for one more worker really employs more of them than any
/// smaller request did. Entry `i` is what a request for `i + 2` workers employs.
pub open spec fn raises(effective: Seq<Option<usize>>, i: int) -> bool {
    &&& effective[i] matches Some(e) && e > 1
    &&& forall|j: int|
        0 <= j < i ==> (#[trigger] effective[j] matches Some(e) ==> e < effective[i]->0)
}

/// The requests among the first `upto` that employ more workers than all before.
pub open spec fn rising(
    effective: Seq<Option<usize>>,
    split: Int8DecodeSplit,
    upto: int,
) -> Seq<DecodeChoice>
    decreases upto,
{
    if upto <= 0 {
        Seq::empty()
    } else if raises(effective, upto - 1) {
        rising(effective, split, upto - 1).push(
            DecodeChoice { split, workers: (upto + 1) as usize },
        )
    } else {
        rising(effective, split, upto - 1)
    }
}

/// Whether the pool could say for every request how many workers it employs.
pub open spec fn all_known(effective: Seq<Option<usize>>) -> bool {
    forall|i: int| 0 <= i < effective.len() ==> (#[trigger] effective[i]) is Some
}

/// The candidates: one worker, then the rising requests along N, then, for a
/// long K that may be cut, the rising requests along K.
pub open spec fn candidates(
    effective_n: Seq<Option<usize>>,
    effective_k: Seq<Option<usize>>,
    cut_k: bool,
) -> Seq<DecodeChoice> {
    let along_n = seq![DecodeChoice { split: Int8DecodeSplit::N, workers: 1 }] + rising(
        effective_n,
        Int8DecodeSplit::N,
        effective_n.len() as int,
    );
    if cut_k {
        along_n + rising(effective_k, Int8DecodeSplit::K, effective_k.len() as int)
    } else {
        along_n
    }
}

/// Appends the rising requests; `false` if the pool could not say.
fn push_rising(
    choices: &mut Vec<DecodeChoice>,
    effective: &[Option<usize>],
    split: Int8DecodeSplit,
) -> (ok: bool)
    requires
        effective@.len() < usize::MAX - 2,
    ensures
        ok == all_known(effective@),
        ok ==> final(choices)@ == old(choices)@ + rising(
            effective@,
            split,
            effective@.len() as int,
        ),
{
    let ghost before = choices@;
    let mut last: usize = 1;
    let mut i: usize = 0;
    while i < effective.len()
        invariant
            i <= effective@.len(),
            effective@.len() < usize::MAX - 2,
            last >= 1,
            last > 1 ==> exists|j: int| 0 <= j < i && #[trigger] effective@[j] == Some(last),
            forall|j: int|
                0 <= j < i ==> (#[trigger] effective@[j] matches Some(e) && (e <= last)),
            choices@ == before + rising(effective@, split, i as int),
        decreases effective@.len() - i,
    {
        match effective[i] {
            Some(e) => {
                if e > last {
                    assert(raises(effective@, i as int));
                    choices.push(DecodeChoice { split, workers: i + 2 });
                    last = e;
                    assert(effective@[i as int] == Some(last));
                } else {
                    proof {
                        if last > 1 {
                            let j = choose|j: int|
                                0 <= j < i && #[trigger] effective@[j] == Some(last);
                            assert(effective@[j] matches Some(x) && x >= e);
                        }
                        assert(!raises(effective@, i as int));
                    }
                }
                assert(choices@ =~= before + rising(effective@, split, i + 1));
            },
            None => {
                assert(effective@[i as int] is None);
                return false;
            },
        }
        i = i + 1;
    }
    true
}

/// Lists the worker choices worth trying. `None` if the pool could not say how
/// many workers one of the requests employs.
pub fn decode_worker_candidates(
    effective_n: &[Option<usize>],
    effective_k: &[Option<usize>],
    k: usize,
    force_n_split: bool,
) -> (r: Option<Vec<DecodeChoice>>)
    requires
        effective_n@.len() < usize::MAX - 2,
        effective_k@.len() < usize::MAX - 2,
    ensures
        ({
            let cut_k = k > TUNE_MAX_WHOLE_K && !force_n_split;
            match r {
                Some(c) => all_known(effective_n@) && (cut_k ==> all_known(effective_k@)) && c@
                    == candidates(effective_n@, effective_k@, cut_k),
                None => !all_known(effective_n@) || (cut_k && !all_known(effective_k@)),
            }
        }),
{
    let mut choices: Vec<DecodeChoice> = Vec::new();
    choices.push(DecodeChoice { split: Int8DecodeSplit::N, workers: 1 });
    assert(choices@ =~= seq![DecodeChoice { split: Int8DecodeSplit::N, workers: 1 }]);
    if !push_rising(&mut choices, effective_n, Int8DecodeSplit::N) {
        return None;
    }
    if k > TUNE_MAX_WHOLE_K && !force_n_split {
        if !push_rising(&mut choices, effective_k, Int8DecodeSplit::K) {
            return None;
        }
    }
    Some(choices)
}

/// Whether a candidate's median is at least five percent below the one it would
/// replace.
pub open spec fn improves(candidate: u128, selected: u128) -> bool {
    sat_u128(candidate * 100) <= sat_u128(selected * (100 - REQUIRED_IMPROVEMENT_PERCENT))
}

/// The candidate selected among the first `upto`: the first one, until a later
/// one improves on it.
pub open spec fn selected(medians: Seq<u128>, upto: int) -> int
    decreases upto,
{
    if upto <= 1 {
        0
    } else {
        let before = selected(medians, upto - 1);
        if improves(medians[upto - 1], medians[before]) {
            upto - 1
        } else {
            before
        }
    }
}

/// The product, cut off at the largest `u128`.
fn saturating_mul_u128(a: u128, b: u128) -> (r: u128)
    ensures
        r == sat_u128(a * b),
{
    match a.checked_mul(b) {
        Some(p) => p,
        None => u128::MAX,
    }
}

/// Selects a candidate by its median time; `None` if there are none.
pub fn select_decode_worker_index(medians: &[u128]) -> (r: Option<usize>)
    ensures
        match r {
            Some(i) => i < medians@.len() && i == selected(medians@, medians@.len() as int),
            None => medians@.len() == 0,
        },
{
    if medians.len() == 0 {
        return None;
    }
    let mut best: usize = 0;
    let mut i: usize = 1;
    while i < medians.len()
        invariant
            1 <= i <= medians@.len(),
            best < i,
            best == selected(medians@, i as int),
        decreases medians@.len() - i,
    {
        let candidate: u128 = saturating_mul_u128(medians[i], 100);
        let required: u128 = saturating_mul_u128(
            medians[best],
            100 - REQUIRED_IMPROVEMENT_PERCENT,
        );
        if candidate <= required {
            best = i;
        }
        i = i + 1;
    }
    Some(best)
}

/// The selected candidate is one of the candidates; its median is never above
/// the first one's, and where it is not the first it is at least five percent
/// below. Medians so large that a hundredfold leaves `u128` are left out.
pub proof fn law_selection_is_a_material_gain(medians: Seq<u128>, upto: int)
    requires
        1 <= upto <= medians.len(),
        forall|i: int| 0 <= i < medians.len() ==> #[trigger] medians[i] * 100 <= u128::MAX,
    ensures
        0 <= selected(medians, upto) < upto,
        medians[selected(medians, upto)] <= medians[0],
        selected(medians, upto) != 0 ==> medians[selected(medians, upto)] * 100 <= medians[0] * 95,
    decreases upto,
{
    if upto > 1 {
        law_selection_is_a_material_gain(medians, upto - 1);
        let before = selected(medians, upto - 1);
        assert(medians[upto - 1] * 100 <= u128::MAX);
        assert(medians[before] * 100 <= u128::MAX);
    }
}

/// No candidate after the selected one would have improved on it.
pub proof fn law_nothing_later_improves(medians: Seq<u128>, upto: int, later: int)
    requires
        1 <= upto <= medians.len(),
        selected(medians, upto) < later < upto,
    ensures
        !improves(medians[later], medians[selected(medians, upto)]),
    decreases upto,
{
    if later < upto - 1 {
        law_nothing_later_improves(medians, upto - 1, later);
    }
}

/// Values in ascending order.
pub open spec fn ascending(s: Seq<u128>) -> bool {
    forall|i: int, j: int| 0 <= i <= j < s.len() ==> s[i] <= s[j]
}

/// Whether `r` stands in the middle of the values once they are sorted; of two
/// middle values it is the upper one.
pub open spec fn is_median(values: Seq<u128>, r: u128) -> bool {
    exists|s: Seq<u128>|
        #![trigger s.to_multiset()]
        ascending(s) && s.to_multiset() == values.to_multiset() && s.len() == values.len() && r
            == s[(values.len() / 2) as int]
}

/// The values in ascending order.
pub fn sorted(values: &[u128]) -> (r: Vec<u128>)
    ensures
        ascending(r@),
        r@.to_multiset() == values@.to_multiset(),
        r@.len() == values@.len(),
{
    let mut r: Vec<u128> = Vec::new();
    let mut i: usize = 0;
    proof {
        assert(values@.take(0) =~= Seq::<u128>::empty());
        assert(r@ =~= Seq::<u128>::empty());
    }
    while i < values.len()
        invariant
            i <= values@.len(),
            ascending(r@),
            r@.len() == i,
            r@.to_multiset() == values@.take(i as int).to_multiset(),
        decreases values@.len() - i,
    {
        let v: u128 = values[i];
        let mut at: usize = 0;
        while at < r.len() && r[at] <= v
            invariant
                at <= r@.len(),
                forall|j: int| 0 <= j < at ==> r@[j] <= v,
            decreases r@.len() - at,
        {
            at = at + 1;
        }
        let ghost before = r@;
        r.insert(at, v);
        proof {
            broadcast use vstd::seq_lib::group_to_multiset_ensures;

            assert(r@ =~= before.insert(at as int, v));
            assert(before.insert(at as int, v).to_multiset() =~= before.to_multiset().insert(v))
                by {
                vstd::seq_lib::to_multiset_insert(before, at as int, v);
            }
            assert(values@.take(i + 1) =~= values@.take(i as int).push(v));
            assert(values@.take(i + 1).to_multiset() =~= values@.take(i as int).to_multiset().insert(
                v,
            ));
            assert forall|a: int, b: int| 0 <= a <= b < r@.len() implies r@[a] <= r@[b] by {
                let a0 = if a < at { a } else { a - 1 };
                let b0 = if b < at { b } else { b - 1 };
                if a != at {
                    assert(r@[a] == before[a0]);
                }
                if b != at {
                    assert(r@[b] == before[b0]);
                }
            }
        }
        i = i + 1;
    }
    assert(values@.take(values@.len() as int) =~= values@);
    r
}

/// The value in the middle; of two middle values the upper one.
pub fn median(values: &[u128]) -> (r: u128)
    requires
        values@.len() > 0,
    ensures
        is_median(values@, r),
{
    let s: Vec<u128> = sorted(values);
    let r: u128 = s[values.len() / 2];
    assert(is_median(values@, r)) by {
        assert(s@.to_multiset() == values@.to_multiset());
    }
    r
}

/// Values have one median.
pub proof fn law_median_is_unique(values: Seq<u128>, a: u128, b: u128)
    requires
        is_median(values, a),
        is_median(values, b),
    ensures
        a == b,
{
    let s = choose|s: Seq<u128>|
        #![trigger s.to_multiset()]
        ascending(s) && s.to_multiset() == values.to_multiset() && s.len() == values.len() && a
            == s[(values.len() / 2) as int];
    let t = choose|s: Seq<u128>|
        #![trigger s.to_multiset()]
        ascending(s) && s.to_multiset() == values.to_multiset() && s.len() == values.len() && b
            == s[(values.len() / 2) as int];
    let leq = |x: u128, y: u128| x <= y;
    assert(vstd::relations::total_ordering(leq));
    assert(vstd::relations::sorted_by(s, leq));
    assert(vstd::relations::sorted_by(t, leq));
    vstd::seq_lib::lemma_sorted_unique(s, t, leq);
}

/// Which candidate the timed run `t` of `count` candidates is for: rounds go up,
/// down, and up again, so that no candidate always runs first.
pub open spec fn timed_candidate(count: int, t: int) -> int
    recommends
        count > 0,
{
    if (t / count) % 2 == 0 {
        t % count
    } else {
        count - 1 - t % count
    }
}

/// The timed runs of a candidate.
pub open spec fn runs_of(count: int, candidate: int) -> Seq<int> {
    seq![candidate, 2 * count - 1 - candidate, 2 * count + candidate]
}

/// Each candidate is timed exactly three times, once per round.
pub proof fn law_each_candidate_is_timed_thrice(count: int, t: int, candidate: int)
    requires
        count > 0,
        0 <= t < 3 * count,
        0 <= candidate < count,
    ensures
        0 <= timed_candidate(count, t) < count,
        timed_candidate(count, t) == candidate <==> runs_of(count, candidate).contains(t),
{
    let q = t / count;
    let r = t % count;
    vstd::arithmetic::div_mod::lemma_fundamental_div_mod(t, count);
    assert(0 <= q < 3) by (nonlinear_arith)
        requires
            0 <= t < 3 * count,
            count > 0,
            q == t / count,
    ;
    assert(q == 0 ==> count * q == 0) by (nonlinear_arith);
    assert(q == 1 ==> count * q == count) by (nonlinear_arith);
    assert(q == 2 ==> count * q == 2 * count) by (nonlinear_arith);
    let s = runs_of(count, candidate);
    assert(s[0] == candidate && s[1] == 2 * count - 1 - candidate && s[2] == 2 * count + candidate);
    if timed_candidate(count, t) == candidate {
        if q == 0 {
            assert(s[0] == t);
        } else if q == 1 {
            assert(s[1] == t);
        } else {
            assert(s[2] == t);
        }
    }
}

/// How far a trial has come.
#[derive(Clone, Copy, Debug, PartialEq, Eq, Structural)]
pub enum TunePhase {
    /// Candidates are made resident one after the other.
    Preparing,
    /// Each is run once without being timed; `next` is due.
    Warming { next: usize },
    /// The timed run `next` is due.
    Timing { next: usize },
    /// The trial failed; what is resident is let go, `next` first.
    Aborting { next: usize },
    /// The losers are let go; candidate `next` is looked at.
    Keeping { winner: usize, next: usize },
    /// The trial is over.
    Finished { kept: Option<usize> },
}

/// The outside work that a trial needs.
#[derive(Clone, Copy, Debug)]
pub enum TuneAction {
    /// Make the weights resident under this choice.
    Prepare { choice: DecodeChoice },
    /// Run these resident weights, and say how long it took.
    Run { prepared: Resident },
    /// Let go of these resident weights.
    Release { prepared: Resident },
    /// Nothing: this choice won, or the trial failed.
    Finish { winner: Option<(DecodeChoice, Resident)> },
}

/// The outcome of outside work.
#[derive(Clone, Copy, Debug)]
pub enum TuneEvent {
    /// The resident weights.
    Prepared { resident: Option<Resident> },
    /// How many nanoseconds the run took.
    Ran { elapsed_ns: Option<u128> },
    /// Whether the weights are gone.
    Released { ok: bool },
}

/// A trial of worker choices.
pub struct Tuner {
    pub candidates: Vec<DecodeChoice>,
    pub prepared: Vec<Resident>,
    pub samples: Vec<u128>,
    pub phase: TunePhase,
}

/// What a [`Tuner`] holds.
#[verifier::ext_equal]
pub struct TunerState {
    pub candidates: Seq<DecodeChoice>,
    pub prepared: Seq<Resident>,
    pub samples: Seq<u128>,
    pub phase: TunePhase,
}

impl View for Tuner {
    type V = TunerState;

    open spec fn view(&self) -> TunerState {
        TunerState {
            candidates: self.candidates@,
            prepared: self.prepared@,
            samples: self.samples@,
            phase: self.phase,
        }
    }
}

/// The three samples of a candidate.
pub open spec fn samples_of(samples: Seq<u128>, count: int, candidate: int) -> Seq<u128> {
    seq![
        samples[candidate],
        samples[2 * count - 1 - candidate],
        samples[2 * count + candidate],
    ]
}

/// Whether these are the candidates' medians.
pub open spec fn are_medians(samples: Seq<u128>, count: int, medians: Seq<u128>) -> bool {
    &&& medians.len() == count
    &&& forall|i: int|
        0 <= i < count ==> is_median(samples_of(samples, count, i), #[trigger] medians[i])
}

impl TunerState {
    /// A trial that can go on: what is resident belongs to the leading
    /// candidates, and no index runs past its list.
    pub open spec fn wf(self) -> bool {
        let count = self.candidates.len();
        &&& 0 < count
        &&& count * 3 <= usize::MAX
        &&& self.prepared.len() <= count
        &&& match self.phase {
            TunePhase::Preparing => self.prepared.len() < count && self.samples.len() == 0,
            TunePhase::Warming { next } => self.prepared.len() == count && next < count
                && self.samples.len() == 0,
            TunePhase::Timing { next } => self.prepared.len() == count && next < 3 * count
                && self.samples.len() == next,
            TunePhase::Aborting { next } => next < self.prepared.len(),
            TunePhase::Keeping { winner, next } => self.prepared.len() == count && winner < count
                && next < count && next != winner,
            TunePhase::Finished { kept } => kept matches Some(w) ==> w < count
                && self.prepared.len() == count,
        }
    }

    /// The work that is due.
    pub open spec fn action(self) -> TuneAction {
        match self.phase {
            TunePhase::Preparing => TuneAction::Prepare {
                choice: self.candidates[self.prepared.len() as int],
            },
            TunePhase::Warming { next } => TuneAction::Run { prepared: self.prepared[next as int] },
            TunePhase::Timing { next } => TuneAction::Run {
                prepared: self.prepared[timed_candidate(
                    self.candidates.len() as int,
                    next as int,
                )],
            },
            TunePhase::Aborting { next } => TuneAction::Release {
                prepared: self.prepared[next as int],
            },
            TunePhase::Keeping { next, .. } => TuneAction::Release {
                prepared: self.prepared[next as int],
            },
            TunePhase::Finished { kept } => TuneAction::Finish {
                winner: match kept {
                    Some(w) => Some((self.candidates[w as int], self.prepared[w as int])),
                    None => None,
                },
            },
        }
    }

    /// The trial has failed: everything resident is to be let go.
    pub open spec fn aborted(self) -> TunerState {
        TunerState {
            phase: if self.prepared.len() == 0 {
                TunePhase::Finished { kept: None }
            } else {
                TunePhase::Aborting { next: 0 }
            },
            ..self
        }
    }

    /// The losers from candidate `next` on are to be let go.
    pub open spec fn keeping(self, winner: int, next: int) -> TunerState {
        let skip = if next == winner {
            next + 1
        } else {
            next
        };
        TunerState {
            phase: if skip < self.candidates.len() {
                TunePhase::Keeping { winner: winner as usize, next: skip as usize }
            } else {
                TunePhase::Finished { kept: Some(winner as usize) }
            },
            ..self
        }
    }
}

/// Whether an event takes a trial from one state to the next.
///
/// An event that does not answer the due work changes nothing.
pub open spec fn tune_steps(s: TunerState, event: TuneEvent, t: TunerState) -> bool {
    let count = s.candidates.len();
    match (s.phase, event) {
        (TunePhase::Preparing, TuneEvent::Prepared { resident }) => match resident {
            Some(r) => t == (TunerState {
                prepared: s.prepared.push(r),
                phase: if s.prepared.len() + 1 == count {
                    TunePhase::Warming { next: 0 }
                } else {
                    TunePhase::Preparing
                },
                ..s
            }),
            None => t == s.aborted(),
        },
        (TunePhase::Warming { next }, TuneEvent::Ran { elapsed_ns }) => match elapsed_ns {
            Some(_) => t == (TunerState {
                phase: if next + 1 == count {
                    TunePhase::Timing { next: 0 }
                } else {
                    TunePhase::Warming { next: (next + 1) as usize }
                },
                ..s
            }),
            None => t == s.aborted(),
        },
        (TunePhase::Timing { next }, TuneEvent::Ran { elapsed_ns }) => match elapsed_ns {
            Some(ns) => {
                let samples = s.samples.push(ns);
                if next + 1 < 3 * count {
                    t == (TunerState {
                        samples,
                        phase: TunePhase::Timing { next: (next + 1) as usize },
                        ..s
                    })
                } else {
                    exists|medians: Seq<u128>|
                        #[trigger] are_medians(samples, count as int, medians) && t == (
                        TunerState { samples, ..s }).keeping(selected(medians, count as int), 0)
                }
            },
            None => t == s.aborted(),
        },
        (TunePhase::Aborting { next }, TuneEvent::Released { ok }) => t == (TunerState {
            phase: if next + 1 == s.prepared.len() {
                TunePhase::Finished { kept: None }
            } else {
                TunePhase::Aborting { next: (next + 1) as usize }
            },
            ..s
        }),
        (TunePhase::Keeping { winner, next }, TuneEvent::Released { ok }) => if ok {
            t == s.keeping(winner as int, next + 1)
        } else {
            t == (TunerState { phase: TunePhase::Finished { kept: None }, ..s })
        },
        _ => t == s,
    }
}

impl Tuner {
    /// A trial of the candidates, with nothing resident yet.
    pub fn new(candidates: Vec<DecodeChoice>) -> (t: Tuner)
        requires
            0 < candidates@.len(),
            candidates@.len() * 3 <= usize::MAX,
        ensures
            t@.wf(),
            t@ == (TunerState {
                candidates: candidates@,
                prepared: Seq::empty(),
                samples: Seq::empty(),
                phase: TunePhase::Preparing,
            }),
    {
        let t = Tuner {
            candidates,
            prepared: Vec::new(),
            samples: Vec::new(),
            phase: TunePhase::Preparing,
        };
        assert(t@ =~= (TunerState {
            candidates: candidates@,
            prepared: Seq::empty(),
            samples: Seq::empty(),
            phase: TunePhase::Preparing,
        }));
        t
    }

    /// The work that is due.
    pub fn action(&self) -> (a: TuneAction)
        requires
            self@.wf(),
        ensures
            a == self@.action(),
    {
        match self.phase {
            TunePhase::Preparing => TuneAction::Prepare {
                choice: self.candidates[self.prepared.len()],
            },
            TunePhase::Warming { next } => TuneAction::Run { prepared: self.prepared[next] },
            TunePhase::Timing { next } => {
                let count: usize = self.candidates.len();
                let place: usize = next % count;
                let round: usize = next / count;
                let index: usize = if round % 2 == 0 {
                    place
                } else {
                    count - 1 - place
                };
                TuneAction::Run { prepared: self.prepared[index] }
            },
            TunePhase::Aborting { next } => TuneAction::Release { prepared: self.prepared[next] },
            TunePhase::Keeping { winner: _, next } => TuneAction::Release {
                prepared: self.prepared[next],
            },
            TunePhase::Finished { kept } => TuneAction::Finish {
                winner: match kept {
                    Some(w) => Some((self.candidates[w], self.prepared[w])),
                    None => None,
                },
            },
        }
    }

    fn abort(&mut self)
        ensures
            final(self)@ == old(self)@.aborted(),
    {
        if self.prepared.len() == 0 {
            self.phase = TunePhase::Finished { kept: None };
        } else {
            self.phase = TunePhase::Aborting { next: 0 };
        }
    }

    fn keep(&mut self, winner: usize, next: usize)
        requires
            winner < old(self).candidates@.len(),
            next <= old(self).candidates@.len(),
        ensures
            final(self)@ == old(self)@.keeping(winner as int, next as int),
    {
        let count: usize = self.candidates.len();
        let skip: usize = if next == winner {
            next + 1
        } else {
            next
        };
        if skip < count {
            self.phase = TunePhase::Keeping { winner, next: skip };
        } else {
            self.phase = TunePhase::Finished { kept: Some(winner) };
        }
    }

    /// The candidates' medians once all runs are timed.
    pub fn medians(&self) -> (medians: Vec<u128>)
        requires
            0 < self.candidates@.len(),
            self.candidates@.len() * 3 <= usize::MAX,
            self.samples@.len() == 3 * self.candidates@.len(),
        ensures
            are_medians(self.samples@, self.candidates@.len() as int, medians@),
    {
        let count: usize = self.candidates.len();
        let mut medians: Vec<u128> = Vec::new();
        let mut i: usize = 0;
        while i < count
            invariant
                i <= count,
                count == self.candidates@.len(),
                count * 3 <= usize::MAX,
                self.samples@.len() == 3 * count,
                medians@.len() == i,
                forall|j: int|
                    0 <= j < i ==> is_median(
                        samples_of(self.samples@, count as int, j),
                        #[trigger] medians@[j],
                    ),
            decreases count - i,
        {
            let mut own: Vec<u128> = Vec::new();
            own.push(self.samples[i]);
            own.push(self.samples[2 * count - 1 - i]);
            own.push(self.samples[2 * count + i]);
            assert(own@ =~= samples_of(self.samples@, count as int, i as int));
            medians.push(median(own.as_slice()));
            i = i + 1;
        }
        medians
    }

    /// Advances the trial by one event.
    pub fn step(&mut self, event: TuneEvent)
        requires
            old(self)@.wf(),
        ensures
            tune_steps(old(self)@, event, final(self)@),
            final(self)@.wf(),
    {
        let count: usize = self.candidates.len();
        match self.phase {
            TunePhase::Preparing => match event {
                TuneEvent::Prepared { resident } => match resident {
                    Some(r) => {
                        self.prepared.push(r);
                        if self.prepared.len() == count {
                            self.phase = TunePhase::Warming { next: 0 };
                        }
                    },
                    None => self.abort(),
                },
                _ => {},
            },
            TunePhase::Warming { next } => match event {
                TuneEvent::Ran { elapsed_ns } => match elapsed_ns {
                    Some(_) => {
                        self.phase = if next + 1 == count {
                            TunePhase::Timing { next: 0 }
                        } else {
                            TunePhase::Warming { next: next + 1 }
                        };
                    },
                    None => self.abort(),
                },
                _ => {},
            },
            TunePhase::Timing { next } => match event {
                TuneEvent::Ran { elapsed_ns } => match elapsed_ns {
                    Some(ns) => {
                        self.samples.push(ns);
                        if next + 1 < TUNE_ROUNDS * count {
                            self.phase = TunePhase::Timing { next: next + 1 };
                        } else {
                            let medians: Vec<u128> = self.medians();
                            match select_decode_worker_index(medians.as_slice()) {
                                Some(winner) => {
                                    assert(are_medians(
                                        self.samples@,
                                        count as int,
                                        medians@,
                                    ));
                                    self.keep(winner, 0);
                                },
                                None => {},
                            }
                        }
                    },
                    None => self.abort(),
                },
                _ => {},
            },
            TunePhase::Aborting { next } => match event {
                TuneEvent::Released { ok: _ } => {
                    self.phase = if next + 1 == self.prepared.len() {
                        TunePhase::Finished { kept: None }
                    } else {
                        TunePhase::Aborting { next: next + 1 }
                    };
                },
                _ => {},
            },
            TunePhase::Keeping { winner, next } => match event {
                TuneEvent::Released { ok } => {
                    if ok {
                        self.keep(winner, next + 1);
                    } else {
                        self.phase = TunePhase::Finished { kept: None };
                    }
                },
                _ => {},
            },
            TunePhase::Finished { kept: _ } => {},
        }
    }
}

/// A trial never lets go of its winner, and while it lets go of losers it asks
/// for each of them in turn.
pub proof fn law_winner_is_never_released(s: TunerState, ok: bool, t: TunerState)
    requires
        s.wf(),
        s.phase is Keeping,
        tune_steps(s, TuneEvent::Released { ok }, t),
    ensures
        s.phase matches TunePhase::Keeping { winner, next } && {
            &&& s.action() == (TuneAction::Release { prepared: s.prepared[next as int] })
            &&& next != winner
            &&& ok ==> match t.phase {
                TunePhase::Keeping { winner: w, next: n } => w == winner && n > next && (n == next
                    + 1 || (n == next + 2 && winner == next + 1)),
                TunePhase::Finished { kept: w } => w == Some(winner) && (next + 1
                    == s.candidates.len() || (next + 2 == s.candidates.len() && winner == next
                    + 1)),
                _ => false,
            }
        },
{
}

/// A failed trial lets go of everything that was made resident, in order.
pub proof fn law_failed_trial_releases_all(s: TunerState, ok: bool, t: TunerState)
    requires
        s.wf(),
        s.phase is Aborting,
        tune_steps(s, TuneEvent::Released { ok }, t),
    ensures
        s.phase matches TunePhase::Aborting { next } && {
            &&& s.action() == (TuneAction::Release { prepared: s.prepared[next as int] })
            &&& if next + 1 < s.prepared.len() {
                t.phase == (TunePhase::Aborting { next: (next + 1) as usize })
            } else {
                t.phase == (TunePhase::Finished { kept: None })
            }
        },
{
}

/// The requests worth trying employ more workers than any smaller request does:
/// each listed one does, none is missing, and they are listed by rising size.
pub proof fn law_requests_worth_trying(
    effective: Seq<Option<usize>>,
    split: Int8DecodeSplit,
    upto: int,
    i: int,
)
    requires
        0 <= upto <= effective.len(),
        effective.len() < usize::MAX - 2,
        0 <= i < rising(effective, split, upto).len(),
    ensures
        ({
            let choice = rising(effective, split, upto)[i];
            let asked = choice.workers - 2;
            &&& choice.split == split
            &&& 0 <= asked < upto
            &&& effective[asked] is Some && effective[asked]->0 > 1
            &&& forall|j: int|
                0 <= j < asked && (#[trigger] effective[j]) is Some ==> effective[j]->0
                    < effective[asked]->0
            &&& forall|j: int|
                0 <= j < i ==> (#[trigger] rising(effective, split, upto)[j]).workers
                    < choice.workers
        }),
    decreases upto,
{
    if upto > 0 {
        let before = rising(effective, split, upto - 1);
        if i < before.len() {
            law_requests_worth_trying(effective, split, upto - 1, i);
        } else {
            assert forall|j: int| 0 <= j < i implies (#[trigger] rising(
                effective,
                split,
                upto,
            )[j]).workers < upto + 1 by {
                law_requests_worth_trying(effective, split, upto - 1, j);
                assert(before[j] == rising(effective, split, upto)[j]);
            }
        }
    }
}

/// A request that employs more than one worker, and more than every smaller one,
/// is worth trying.
pub proof fn law_no_rising_request_is_missed(
    effective: Seq<Option<usize>>,
    split: Int8DecodeSplit,
    upto: int,
    asked: int,
)
    requires
        0 <= asked < upto <= effective.len(),
        effective.len() < usize::MAX - 2,
        effective[asked] is Some,
        effective[asked]->0 > 1,
        forall|j: int|
            0 <= j < asked && (#[trigger] effective[j]) is Some ==> effective[j]->0
                < effective[asked]->0,
    ensures
        exists|i: int|
            0 <= i < rising(effective, split, upto).len() && (#[trigger] rising(
                effective,
                split,
                upto,
            )[i]).workers == asked + 2,
    decreases upto,
{
    let before = rising(effective, split, upto - 1);
    let after = rising(effective, split, upto);
    if asked == upto - 1 {
        assert(raises(effective, asked));
        assert(after[before.len() as int].workers == asked + 2);
    } else {
        law_no_rising_request_is_missed(effective, split, upto - 1, asked);
        let i = choose|i: int| 0 <= i < before.len() && (#[trigger] before[i]).workers == asked + 2;
        assert(after[i] == before[i]);
    }
}

/// A trial starts with one worker along N, goes on with the requests along N, and
/// tries those along K last, and only where K may be cut.
pub proof fn law_trials_start_with_one_worker(
    effective_n: Seq<Option<usize>>,
    effective_k: Seq<Option<usize>>,
    cut_k: bool,
)
    ensures
        ({
            let all = candidates(effective_n, effective_k, cut_k);
            let n = rising(effective_n, Int8DecodeSplit::N, effective_n.len() as int);
            let k = rising(effective_k, Int8DecodeSplit::K, effective_k.len() as int);
            &&& all[0] == (DecodeChoice { split: Int8DecodeSplit::N, workers: 1 })
            &&& all.len() == 1 + n.len() + (if cut_k {
                k.len() as int
            } else {
                0
            })
            &&& forall|i: int| 0 <= i < n.len() ==> #[trigger] n[i] == all[i + 1]
            &&& cut_k ==> forall|i: int|
                0 <= i < k.len() ==> #[trigger] k[i] == all[n.len() + 1 + i]
        }),
{
}

/// A candidate replaces another exactly where it takes at most 95 of every 100
/// nanoseconds, as long as a hundredfold can be counted.
pub proof fn law_replacing_needs_five_percent(candidate: u128, selected: u128)
    requires
        candidate * 100 <= u128::MAX,
        selected * 100 <= u128::MAX,
    ensures
        improves(candidate, selected) <==> 20 * candidate <= 19 * selected,
{
}

/// The selected candidate improved on the one that was selected before it, and the
/// first one is selected until another improves on it.
pub proof fn law_each_replacement_improves(medians: Seq<u128>, upto: int)
    requires
        1 <= upto <= medians.len(),
    ensures
        selected(medians, 1) == 0,
        0 <= selected(medians, upto) < upto,
        selected(medians, upto) > 0 ==> improves(
            medians[selected(medians, upto)],
            medians[selected(medians, selected(medians, upto))],
        ),
    decreases upto,
{
    if upto > 1 {
        law_each_replacement_improves(medians, upto - 1);
    }
}

/// Rounds mirror each other: the second runs the candidates in reverse, the third
/// as the first, which runs them in order.
pub proof fn law_rounds_mirror_each_other(count: int, t: int)
    requires
        count > 0,
        0 <= t < count,
    ensures
        timed_candidate(count, t) == t,
        timed_candidate(count, 2 * count - 1 - t) == t,
        timed_candidate(count, 2 * count + t) == t,
{
    vstd::arithmetic::div_mod::lemma_fundamental_div_mod_converse(t, count, 0, t);
    vstd::arithmetic::div_mod::lemma_fundamental_div_mod_converse(
        2 * count - 1 - t,
        count,
        1,
        count - 1 - t,
    );
    vstd::arithmetic::div_mod::lemma_fundamental_div_mod_converse(2 * count + t, count, 2, t);
}

/// The samples of a candidate are those of its own runs, one from each round.
pub proof fn law_samples_belong_to_their_candidates(samples: Seq<u128>, count: int, t: int)
    requires
        count > 0,
        0 <= t < 3 * count,
        samples.len() == 3 * count,
    ensures
        samples_of(samples, count, timed_candidate(count, t)).len() == 3,
        samples_of(samples, count, timed_candidate(count, t))[t / count] == samples[t],
{
    let q = t / count;
    vstd::arithmetic::div_mod::lemma_fundamental_div_mod(t, count);
    assert(0 <= q < 3) by (nonlinear_arith)
        requires
            0 <= t < 3 * count,
            count > 0,
            q == t / count,
    ;
    assert(q == 0 ==> count * q == 0) by (nonlinear_arith);
    assert(q == 1 ==> count * q == count) by (nonlinear_arith);
    assert(q == 2 ==> count * q == 2 * count) by (nonlinear_arith);
}

/// A trial prepares each candidate under its own choice, warms each one up, and
/// times them; what wins is the candidate together with its own resident weights.
pub proof fn law_trials_work_on_their_own_candidates(s: TunerState)
    requires
        s.wf(),
    ensures
        s.phase is Preparing ==> s.action() == (TuneAction::Prepare {
            choice: s.candidates[s.prepared.len() as int],
        }),
        s.phase matches TunePhase::Warming { next } ==> s.action() == (TuneAction::Run {
            prepared: s.prepared[next as int],
        }),
        s.phase matches TunePhase::Timing { next } ==> (next < s.candidates.len() ==> s.action() == (
        TuneAction::Run { prepared: s.prepared[next as int] })),
        s.phase matches TunePhase::Finished { kept } ==> match kept {
            Some(w) => s.action() == (TuneAction::Finish {
                winner: Some((s.candidates[w as int], s.prepared[w as int])),
            }),
            None => s.action() == (TuneAction::Finish { winner: None }),
        },
{
    if let TunePhase::Timing { next } = s.phase {
        if next < s.candidates.len() {
            law_rounds_mirror_each_other(s.candidates.len() as int, next as int);
        }
    }
}

/// A trial goes through its phases in order: it prepares until all candidates are
/// resident, warms each up once, times three runs of each, and ends with the
/// selected candidate. A preparation or run that fails ends it without a winner.
pub proof fn law_trials_go_through_their_phases(s: TunerState, event: TuneEvent, t: TunerState)
    requires
        s.wf(),
        tune_steps(s, event, t),
    ensures
        t.candidates == s.candidates,
        s.phase is Preparing && event is Prepared && event->Prepared_resident is Some ==> {
            &&& t.prepared.len() == s.prepared.len() + 1
            &&& t.prepared.last() == event->Prepared_resident->0
            &&& t.prepared.len() == s.candidates.len() ==> t.phase == (TunePhase::Warming {
                next: 0,
            })
            &&& t.prepared.len() < s.candidates.len() ==> t.phase is Preparing
        },
        s.phase is Warming && event is Ran && event->elapsed_ns is Some ==> {
            &&& t.samples == s.samples && t.prepared == s.prepared
            &&& s.phase->Warming_next + 1 < s.candidates.len() ==> t.phase == (TunePhase::Warming {
                next: (s.phase->Warming_next + 1) as usize,
            })
            &&& s.phase->Warming_next + 1 == s.candidates.len() ==> t.phase
                == (TunePhase::Timing { next: 0 })
        },
        s.phase is Timing && event is Ran && event->elapsed_ns is Some ==> {
            &&& t.samples == s.samples.push(event->elapsed_ns->0)
            &&& t.prepared == s.prepared
            &&& t.samples.len() < 3 * s.candidates.len() ==> t.phase == (TunePhase::Timing {
                next: t.samples.len() as usize,
            })
            &&& t.samples.len() == 3 * s.candidates.len() ==> exists|medians: Seq<u128>| {
                &&& #[trigger] are_medians(t.samples, s.candidates.len() as int, medians)
                &&& match t.phase {
                    TunePhase::Keeping { winner, .. } => winner == selected(
                        medians,
                        s.candidates.len() as int,
                    ),
                    TunePhase::Finished { kept } => kept is Some && kept->0 == selected(
                        medians,
                        s.candidates.len() as int,
                    ),
                    _ => false,
                }
            }
        },
        (s.phase is Preparing && event is Prepared && event->Prepared_resident is None)
            || ((s.phase is Warming || s.phase is Timing) && event is Ran && event->elapsed_ns
            is None) ==> {
            &&& t.prepared == s.prepared
            &&& s.prepared.len() == 0 ==> t.phase == (TunePhase::Finished { kept: None })
            &&& s.prepared.len() > 0 ==> t.phase == (TunePhase::Aborting { next: 0 })
        },
{
    let count = s.candidates.len() as int;
    if s.phase is Timing && event is Ran && event->elapsed_ns is Some {
        let samples = s.samples.push(event->elapsed_ns->0);
        if samples.len() == 3 * count {
            let medians = choose|medians: Seq<u128>|
                #[trigger] are_medians(samples, count, medians) && t == (TunerState {
                    samples,
                    ..s
                }).keeping(selected(medians, count), 0);
            law_each_replacement_improves(medians, count);
            assert(are_medians(t.samples, count, medians));
        }
    }
}

/// After the timing, everything but the winner is let go: the first candidate that
/// is looked at is the first that did not win, and a trial of one candidate is
/// over at once.
pub proof fn law_losers_are_let_go_from_the_first(s: TunerState, winner: int)
    requires
        0 <= winner < s.candidates.len() <= usize::MAX,
    ensures
        s.candidates.len() == 1 ==> s.keeping(winner, 0).phase == (TunePhase::Finished {
            kept: Some(winner as usize),
        }),
        s.candidates.len() > 1 ==> s.keeping(winner, 0).phase == (TunePhase::Keeping {
            winner: winner as usize,
            next: if winner == 0 {
                1
            } else {
                0
            },
        }),
{
}

/// All is known where nothing is open.
pub proof fn law_known_requests(effective: Seq<Option<usize>>, more: Option<usize>)
    ensures
        all_known(Seq::<Option<usize>>::empty()),
        all_known(effective.push(more)) <==> all_known(effective) && more is Some,
{
    let all = effective.push(more);
    if all_known(all) {
        assert(all[effective.len() as int] == more);
        assert forall|i: int| 0 <= i < effective.len() implies (#[trigger] effective[i]) is Some by {
            assert(all[i] == effective[i]);
        }
    }
    if all_known(effective) && more is Some {
        assert forall|i: int| 0 <= i < all.len() implies (#[trigger] all[i]) is Some by {
            if i < effective.len() {
                assert(all[i] == effective[i]);
            }
        }
    }
}

} // verus!
