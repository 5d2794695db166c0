//! Single-row W8A8 projections: one, two or three weight matrices that share
//! one activation row, run as one prepared NPU matmul.
//!
//! A call advances through [`M1Stage`]s. Each stage names the outside work that
//! is due; the caller does it and reports back with an [`M1Event`].

use crate::arith::{sat_usize, saturating_product};
use crate::counters::DecodeCounters;
use crate::keys::{
    DecodeChoice, DecodePairKey, DecodeTripleKey, DecodeWeightKey, Int8DecodeSplit, Resident,
    ShapeKey,
};
use crate::join::{member_columns, whole_slice};
use crate::plan::{member_moves, member_start, MemberCopy};
use crate::profile::{
    shape_or_empty, shape_profile_after, M1CallTimes, M1Profile, M1ProfileKey, M1ProfileKind,
    M1ShapeProfile, PoolStats,
};
use crate::status::{STATUS_EXECUTION_ERROR, STATUS_INVALID_ARGUMENT, STATUS_OK};
use crate::table::Table;
use vstd::prelude::*;

verus! {

/// Widest single projection.
pub const M1_MAX_N: usize = 8192;

/// Widest sum of joined projections.
pub const M1_MAX_JOINED_N: usize = 16384;

/// Prepared weights together with the worker choice they were prepared for.
#[derive(Clone, Copy, Debug, PartialEq, Eq, Structural)]
pub struct CachedW8A8Weight {
    pub prepared: Resident,
    pub choice: DecodeChoice,
}

/// A host callback that waits to run beside the next projection.
#[derive(Clone, Copy, Debug, PartialEq, Eq, Structural)]
pub struct OverlapToken {
    pub callback: usize,
    pub user_data: usize,
}

/// The weights that one call projects through.
#[derive(Clone, Copy, Debug, PartialEq, Eq, Structural)]
pub enum M1Target {
    Single(DecodeWeightKey),
    Pair(DecodePairKey),
    Triple(DecodeTripleKey),
}

impl M1Target {
    /// Length of the shared activation row.
    pub open spec fn spec_k(self) -> usize {
        match self {
            M1Target::Single(key) => key.k,
            M1Target::Pair(key) => key.first.k,
            M1Target::Triple(key) => key.first.k,
        }
    }

    /// The member matrices in column order.
    pub open spec fn members(self) -> Seq<DecodeWeightKey> {
        match self {
            M1Target::Single(key) => seq![key],
            M1Target::Pair(key) => seq![key.first, key.second],
            M1Target::Triple(key) => seq![key.first, key.second, key.third],
        }
    }

    /// Columns of each member, in order.
    pub open spec fn widths(self) -> Seq<usize> {
        match self {
            M1Target::Single(key) => seq![key.n],
            M1Target::Pair(key) => seq![key.first.n, key.second.n],
            M1Target::Triple(key) => seq![key.first.n, key.second.n, key.third.n],
        }
    }

    /// Number of joined output columns.
    pub open spec fn total_n(self) -> int {
        match self {
            M1Target::Single(key) => key.n as int,
            M1Target::Pair(key) => key.first.n + key.second.n,
            M1Target::Triple(key) => key.first.n + key.second.n + key.third.n,
        }
    }

    /// Widest column sum the kernel takes.
    pub open spec fn limit(self) -> int {
        if self is Single {
            M1_MAX_N as int
        } else {
            M1_MAX_JOINED_N as int
        }
    }

    /// The kind that the call is profiled under.
    pub open spec fn profile_kind(self) -> M1ProfileKind {
        match self {
            M1Target::Single(_) => M1ProfileKind::Single,
            M1Target::Pair(_) => M1ProfileKind::Pair,
            M1Target::Triple(_) => M1ProfileKind::Triple,
        }
    }

    /// Length of the shared activation row.
    pub fn k(&self) -> (k: usize)
        ensures
            k == self.spec_k(),
    {
        match self {
            M1Target::Single(key) => key.k,
            M1Target::Pair(key) => key.first.k,
            M1Target::Triple(key) => key.first.k,
        }
    }

    /// Lists which joined columns and scales each member's output comes from. The
    /// members' weights and scales are joined in the same order.
    pub fn output_columns(&self) -> (moves: Vec<MemberCopy>)
        requires
            self.total_n() <= usize::MAX,
        ensures
            moves@ == member_moves(
                self.widths(),
                whole_slice(self.widths()),
                1,
                self.widths().len() as int,
            ),
    {
        let widths: Vec<usize> = match self {
            M1Target::Single(key) => vec![key.n],
            M1Target::Pair(key) => vec![key.first.n, key.second.n],
            M1Target::Triple(key) => vec![key.first.n, key.second.n, key.third.n],
        };
        assert(widths@ =~= self.widths());
        proof {
            reveal_with_fuel(member_start, 4);
        }
        member_columns(widths.as_slice())
    }

    /// Number of joined output columns, if it is a `usize`.
    pub fn joined_n(&self) -> (n: Option<usize>)
        ensures
            match n {
                Some(n) => n == self.total_n(),
                None => self.total_n() > usize::MAX,
            },
    {
        match self {
            M1Target::Single(key) => Some(key.n),
            M1Target::Pair(key) => key.first.n.checked_add(key.second.n),
            M1Target::Triple(key) => match key.first.n.checked_add(key.second.n) {
                Some(n) => n.checked_add(key.third.n),
                None => None,
            },
        }
    }
}

/// What a call must look like to be taken.
///
/// All members share K, a multiple of 512. Every member's columns come in
/// multiples of 32 and fill an output buffer of their own. The columns together
/// stay within the kernel's limit.
pub open spec fn m1_accepts(target: M1Target, a_len: int, out_lens: Seq<usize>) -> bool {
    &&& forall|i: int|
        0 <= i < target.members().len() ==> {
            &&& (#[trigger] target.members()[i]).k == target.spec_k()
            &&& target.members()[i].n % 32 == 0
        }
    &&& a_len == target.spec_k()
    &&& target.spec_k() % 512 == 0
    &&& out_lens.len() == target.members().len()
    &&& forall|i: int| 0 <= i < out_lens.len() ==> #[trigger] out_lens[i] == target.members()[i].n
    &&& target.total_n() <= target.limit()
}

/// Decides whether a call is taken, before any outside work.
pub fn m1_start(target: &M1Target, a_len: usize, out_lens: &[usize]) -> (stage: M1Stage)
    ensures
        stage == (if m1_accepts(*target, a_len as int, out_lens@) {
            M1Stage::Quantize
        } else {
            (M1Stage::Done { status: STATUS_INVALID_ARGUMENT })
        }),
{
    let k: usize = target.k();
    let members_ok = match target {
        M1Target::Single(key) => {
            proof {
                assert(target.members()[0] == key);
            }
            out_lens.len() == 1 && out_lens[0] == key.n && key.n % 32 == 0
        },
        M1Target::Pair(key) => {
            proof {
                assert(target.members()[0] == key.first && target.members()[1] == key.second);
            }
            out_lens.len() == 2 && out_lens[0] == key.first.n && out_lens[1] == key.second.n
                && key.second.k == k && key.first.n % 32 == 0 && key.second.n % 32 == 0
        },
        M1Target::Triple(key) => {
            proof {
                assert(target.members()[0] == key.first && target.members()[1] == key.second
                    && target.members()[2] == key.third);
            }
            out_lens.len() == 3 && out_lens[0] == key.first.n && out_lens[1] == key.second.n
                && out_lens[2] == key.third.n && key.second.k == k && key.third.k == k
                && key.first.n % 32 == 0 && key.second.n % 32 == 0 && key.third.n % 32 == 0
        },
    };
    let limit: usize = match target {
        M1Target::Single(_) => M1_MAX_N,
        _ => M1_MAX_JOINED_N,
    };
    let width_ok = match target.joined_n() {
        Some(n) => n <= limit,
        None => false,
    };
    if members_ok && width_ok && a_len == k && k % 512 == 0 {
        M1Stage::Quantize
    } else {
        M1Stage::Done { status: STATUS_INVALID_ARGUMENT }
    }
}

/// The outside work that is due.
#[derive(Clone, Copy, Debug, PartialEq, Eq, Structural)]
pub enum M1Stage {
    /// Quantize the activation row.
    Quantize,
    /// Produce eight-bit weights and their scales on the host.
    Weights,
    /// Make the weights resident under this choice.
    Prepare { choice: DecodeChoice },
    /// Try the candidate choices and keep the best one resident.
    Tune,
    /// Run the resident weights, with the callback beside them, and rescale.
    Execute { cached: CachedW8A8Weight, hit: bool, overlap: Option<OverlapToken> },
    /// Nothing: the call is over.
    Done { status: i32 },
}

/// What a finished execution reports.
pub struct M1Report {
    pub stats: PoolStats,
    pub times: M1CallTimes,
}

/// The outcome of outside work.
pub enum M1Event {
    /// Whether all activations were finite and are now quantized.
    Quantized { ok: bool },
    /// Lengths of the host weights and of their scales, and the size of the pool.
    Weights { sizes: Option<(usize, usize)>, pool_workers: usize },
    /// The resident weights.
    Prepared { resident: Option<Resident> },
    /// The choice that won, and its resident weights.
    Tuned { winner: Option<(DecodeChoice, Resident)> },
    /// What the execution reported.
    Executed { report: Option<M1Report> },
}

/// Resident single-row weights and what is known about them.
pub struct M1Cache {
    pub choices: Table<ShapeKey, DecodeChoice>,
    pub singles: Table<DecodeWeightKey, CachedW8A8Weight>,
    pub pairs: Table<DecodePairKey, CachedW8A8Weight>,
    pub triples: Table<DecodeTripleKey, CachedW8A8Weight>,
    pub overlap: Option<OverlapToken>,
    pub profile: Option<M1Profile>,
}

/// What an [`M1Cache`] holds.
#[verifier::ext_equal]
pub struct M1State {
    pub choices: Map<ShapeKey, DecodeChoice>,
    pub singles: Map<DecodeWeightKey, CachedW8A8Weight>,
    pub pairs: Map<DecodePairKey, CachedW8A8Weight>,
    pub triples: Map<DecodeTripleKey, CachedW8A8Weight>,
    pub overlap: Option<OverlapToken>,
    pub profile: Option<Map<M1ProfileKey, M1ShapeProfile>>,
}

impl View for M1Cache {
    type V = M1State;

    open spec fn view(&self) -> M1State {
        M1State {
            choices: self.choices@,
            singles: self.singles@,
            pairs: self.pairs@,
            triples: self.triples@,
            overlap: self.overlap,
            profile: match self.profile {
                Some(p) => Some(p.shapes@),
                None => None,
            },
        }
    }
}

impl M1State {
    /// Nothing resident, nothing tuned, no callback; an empty account if calls are
    /// booked.
    pub open spec fn empty(profiled: bool) -> M1State {
        M1State {
            choices: Map::empty(),
            singles: Map::empty(),
            pairs: Map::empty(),
            triples: Map::empty(),
            overlap: None,
            profile: if profiled {
                Some(Map::empty())
            } else {
                None
            },
        }
    }

    /// The resident weights of a target.
    pub open spec fn cached(self, target: M1Target) -> Option<CachedW8A8Weight> {
        match target {
            M1Target::Single(key) => if self.singles.dom().contains(key) {
                Some(self.singles[key])
            } else {
                None
            },
            M1Target::Pair(key) => if self.pairs.dom().contains(key) {
                Some(self.pairs[key])
            } else {
                None
            },
            M1Target::Triple(key) => if self.triples.dom().contains(key) {
                Some(self.triples[key])
            } else {
                None
            },
        }
    }

    /// With resident weights stored for a target.
    pub open spec fn with_cached(self, target: M1Target, cached: CachedW8A8Weight) -> M1State {
        match target {
            M1Target::Single(key) => M1State { singles: self.singles.insert(key, cached), ..self },
            M1Target::Pair(key) => M1State { pairs: self.pairs.insert(key, cached), ..self },
            M1Target::Triple(key) => M1State { triples: self.triples.insert(key, cached), ..self },
        }
    }

    /// With the worker choice of a shape stored.
    pub open spec fn with_choice(self, shape: ShapeKey, choice: DecodeChoice) -> M1State {
        M1State { choices: self.choices.insert(shape, choice), ..self }
    }

    /// Without the entries that a joined triple makes redundant: its first member
    /// alone, and the pair of its second and third.
    pub open spec fn without_redundant(self, target: M1Target) -> M1State {
        match target {
            M1Target::Triple(key) => M1State {
                singles: self.singles.remove(key.first),
                pairs: self.pairs.remove(
                    DecodePairKey { first: key.second, second: key.third },
                ),
                ..self
            },
            _ => self,
        }
    }

    /// What is resident for the entries that a joined triple makes redundant.
    pub open spec fn redundant(self, target: M1Target) -> Seq<Resident> {
        match target {
            M1Target::Triple(key) => {
                let pair = DecodePairKey { first: key.second, second: key.third };
                (match self.cached(M1Target::Single(key.first)) {
                    Some(cached) => seq![cached.prepared],
                    None => Seq::empty(),
                }) + (match self.cached(M1Target::Pair(pair)) {
                    Some(cached) => seq![cached.prepared],
                    None => Seq::empty(),
                })
            },
            _ => Seq::empty(),
        }
    }

    /// With the callback taken.
    pub open spec fn without_overlap(self) -> M1State {
        M1State { overlap: None, ..self }
    }

    /// With one call booked, if calls are profiled.
    pub open spec fn with_profile(
        self,
        target: M1Target,
        choice: DecodeChoice,
        report: M1Report,
    ) -> M1State {
        let key = M1ProfileKey {
            kind: target.profile_kind(),
            k: target.spec_k(),
            n: target.total_n() as usize,
        };
        match self.profile {
            Some(shapes) => M1State {
                profile: Some(
                    shapes.insert(
                        key,
                        shape_profile_after(
                            shape_or_empty(shapes, key),
                            choice,
                            report.stats,
                            report.times,
                        ),
                    ),
                ),
                ..self
            },
            None => self,
        }
    }
}

/// The shape under which a target's worker choice is remembered.
pub open spec fn m1_shape(target: M1Target) -> ShapeKey {
    ShapeKey { k: target.spec_k(), n: target.total_n() as usize }
}

/// Whether host weights have the lengths that a joined target needs.
///
/// A single matrix is handed on as it is.
pub open spec fn m1_weights_fit(target: M1Target, weights: usize, scales: usize) -> bool {
    target is Single || (weights == sat_usize(target.total_n() * target.spec_k()) && scales
        == target.total_n())
}

/// The choice that needs no trial: pairs too wide for one core go to up to three.
pub open spec fn m1_fixed_choice(target: M1Target, pool_workers: usize) -> Option<DecodeChoice> {
    if target is Pair && target.total_n() > M1_MAX_N {
        Some(
            DecodeChoice {
                split: Int8DecodeSplit::N,
                workers: if pool_workers < 3 {
                    pool_workers
                } else {
                    3
                },
            },
        )
    } else {
        None
    }
}

/// Everything a call can change, and the work that is due next.
pub struct M1Step {
    pub state: M1State,
    pub counters: DecodeCounters,
    pub stage: M1Stage,
}

/// The step into execution: the waiting callback goes with it.
pub open spec fn m1_execute(
    s: M1State,
    c: DecodeCounters,
    cached: CachedW8A8Weight,
    hit: bool,
) -> M1Step {
    M1Step {
        state: s.without_overlap(),
        counters: c,
        stage: M1Stage::Execute { cached, hit, overlap: s.overlap },
    }
}

/// The step after weights became resident: the choice and the weights are
/// remembered and the miss is counted.
pub open spec fn m1_store(
    s: M1State,
    c: DecodeCounters,
    target: M1Target,
    choice: DecodeChoice,
    prepared: Resident,
) -> M1Step {
    let cached = CachedW8A8Weight { prepared, choice };
    m1_execute(
        s.with_choice(m1_shape(target), choice).with_cached(target, cached),
        c.after_miss(),
        cached,
        false,
    )
}

/// The end of a call.
pub open spec fn m1_done(s: M1State, c: DecodeCounters, status: i32) -> M1Step {
    M1Step { state: s, counters: c, stage: M1Stage::Done { status } }
}

/// What an event does to a call.
///
/// An event that does not answer the stage changes nothing.
pub open spec fn m1_next(
    s: M1State,
    c: DecodeCounters,
    target: M1Target,
    stage: M1Stage,
    event: M1Event,
) -> M1Step {
    match (stage, event) {
        (M1Stage::Quantize, M1Event::Quantized { ok }) => if !ok {
            m1_done(s, c, STATUS_INVALID_ARGUMENT)
        } else {
            match s.cached(target) {
                Some(cached) => m1_execute(s, c.after_hit(), cached, true),
                None => M1Step { state: s, counters: c, stage: M1Stage::Weights },
            }
        },
        (M1Stage::Weights, M1Event::Weights { sizes, pool_workers }) => match sizes {
            None => m1_done(s, c, STATUS_INVALID_ARGUMENT),
            Some((weights, scales)) => if !m1_weights_fit(target, weights, scales) {
                m1_done(s, c, STATUS_INVALID_ARGUMENT)
            } else {
                let stage = if s.choices.dom().contains(m1_shape(target)) {
                    M1Stage::Prepare { choice: s.choices[m1_shape(target)] }
                } else {
                    match m1_fixed_choice(target, pool_workers) {
                        Some(choice) => M1Stage::Prepare { choice },
                        None => M1Stage::Tune,
                    }
                };
                M1Step { state: s, counters: c, stage }
            },
        },
        (M1Stage::Prepare { choice }, M1Event::Prepared { resident }) => match resident {
            None => m1_done(s, c, STATUS_EXECUTION_ERROR),
            Some(resident) => m1_store(s, c, target, choice, resident),
        },
        (M1Stage::Tune, M1Event::Tuned { winner }) => match winner {
            None => m1_done(s, c, STATUS_EXECUTION_ERROR),
            Some((choice, resident)) => m1_store(s, c, target, choice, resident),
        },
        (M1Stage::Execute { cached, hit, overlap }, M1Event::Executed { report }) => match report {
            None => m1_done(s, c, STATUS_EXECUTION_ERROR),
            Some(report) => {
                let kept = s.without_redundant(target);
                m1_done(
                    if hit {
                        kept.with_profile(target, cached.choice, report)
                    } else {
                        kept
                    },
                    c.after_choice(cached.choice).after_elapsed(hit, report.times.total_ns),
                    STATUS_OK,
                )
            },
        },
        _ => M1Step { state: s, counters: c, stage },
    }
}

/// The resident weights that an event lets go: those that a finished run has made
/// redundant.
pub open spec fn m1_released(
    s: M1State,
    target: M1Target,
    stage: M1Stage,
    event: M1Event,
) -> Seq<Resident> {
    match (stage, event) {
        (M1Stage::Execute { .. }, M1Event::Executed { report: Some(_) }) => s.redundant(target),
        _ => Seq::empty(),
    }
}

impl M1Cache {
    /// No key occurs twice in any table.
    pub open spec fn wf(&self) -> bool {
        &&& self.choices.wf()
        &&& self.singles.wf()
        &&& self.pairs.wf()
        &&& self.triples.wf()
        &&& (self.profile matches Some(p) ==> p.wf())
    }

    /// Nothing resident, nothing tuned; `profiled` says whether calls are booked.
    pub fn new(profiled: bool) -> (cache: Self)
        ensures
            cache.wf(),
            cache@ == M1State::empty(profiled),
    {
        M1Cache {
            choices: Table::new(),
            singles: Table::new(),
            pairs: Table::new(),
            triples: Table::new(),
            overlap: None,
            profile: if profiled {
                Some(M1Profile::new())
            } else {
                None
            },
        }
    }

    fn lookup(&self, target: &M1Target) -> (r: Option<CachedW8A8Weight>)
        requires
            self.wf(),
        ensures
            r == self@.cached(*target),
    {
        let found = match target {
            M1Target::Single(key) => self.singles.get(key),
            M1Target::Pair(key) => self.pairs.get(key),
            M1Target::Triple(key) => self.triples.get(key),
        };
        match found {
            Some(cached) => Some(*cached),
            None => None,
        }
    }

    fn store(
        &mut self,
        counters: &mut DecodeCounters,
        target: &M1Target,
        choice: DecodeChoice,
        prepared: Resident,
    ) -> (stage: M1Stage)
        requires
            old(self).wf(),
            target.total_n() <= usize::MAX,
        ensures
            final(self).wf(),
            (M1Step { state: final(self)@, counters: *final(counters), stage }) == m1_store(
                old(self)@,
                *old(counters),
                *target,
                choice,
                prepared,
            ),
    {
        let cached = CachedW8A8Weight { prepared, choice };
        let n: usize = match target.joined_n() {
            Some(n) => n,
            None => 0,
        };
        self.choices.insert(ShapeKey { k: target.k(), n }, choice);
        match target {
            M1Target::Single(key) => {
                self.singles.insert(*key, cached);
            },
            M1Target::Pair(key) => {
                self.pairs.insert(*key, cached);
            },
            M1Target::Triple(key) => {
                self.triples.insert(*key, cached);
            },
        }
        counters.count_miss();
        let overlap = self.overlap.take();
        M1Stage::Execute { cached, hit: false, overlap }
    }

    /// Advances a call by one event.
    pub fn step(
        &mut self,
        counters: &mut DecodeCounters,
        target: &M1Target,
        stage: M1Stage,
        event: M1Event,
    ) -> (next: M1Stage)
        requires
            old(self).wf(),
            target.total_n() <= usize::MAX,
        ensures
            final(self).wf(),
            (M1Step { state: final(self)@, counters: *final(counters), stage: next }) == m1_next(
                old(self)@,
                *old(counters),
                *target,
                stage,
                event,
            ),
    {
        let n: usize = match target.joined_n() {
            Some(n) => n,
            None => 0,
        };
        let shape = ShapeKey { k: target.k(), n };
        match stage {
            M1Stage::Quantize => match event {
                M1Event::Quantized { ok } => {
                    if !ok {
                        return M1Stage::Done { status: STATUS_INVALID_ARGUMENT };
                    }
                    match self.lookup(target) {
                        Some(cached) => {
                            counters.count_hit();
                            let overlap = self.overlap.take();
                            M1Stage::Execute { cached, hit: true, overlap }
                        },
                        None => M1Stage::Weights,
                    }
                },
                _ => stage,
            },
            M1Stage::Weights => match event {
                M1Event::Weights { sizes, pool_workers } => match sizes {
                    None => M1Stage::Done { status: STATUS_INVALID_ARGUMENT },
                    Some((weights, scales)) => {
                        let single = matches!(target, M1Target::Single(_));
                        if !single && (weights != saturating_product(n, target.k()) || scales
                            != n) {
                            return M1Stage::Done { status: STATUS_INVALID_ARGUMENT };
                        }
                        match self.choices.get(&shape) {
                            Some(choice) => M1Stage::Prepare { choice: *choice },
                            None => {
                                let pair = matches!(target, M1Target::Pair(_));
                                if pair && n > M1_MAX_N {
                                    let workers: usize = if pool_workers < 3 {
                                        pool_workers
                                    } else {
                                        3
                                    };
                                    M1Stage::Prepare {
                                        choice: DecodeChoice { split: Int8DecodeSplit::N, workers },
                                    }
                                } else {
                                    M1Stage::Tune
                                }
                            },
                        }
                    },
                },
                _ => stage,
            },
            M1Stage::Prepare { choice } => match event {
                M1Event::Prepared { resident } => match resident {
                    None => M1Stage::Done { status: STATUS_EXECUTION_ERROR },
                    Some(resident) => self.store(counters, target, choice, resident),
                },
                _ => stage,
            },
            M1Stage::Tune => match event {
                M1Event::Tuned { winner } => match winner {
                    None => M1Stage::Done { status: STATUS_EXECUTION_ERROR },
                    Some((choice, resident)) => self.store(counters, target, choice, resident),
                },
                _ => stage,
            },
            M1Stage::Execute { cached, hit, overlap: _ } => match event {
                M1Event::Executed { report } => match report {
                    None => M1Stage::Done { status: STATUS_EXECUTION_ERROR },
                    Some(report) => {
                        self.finish(counters, target, cached, hit, &report);
                        M1Stage::Done { status: STATUS_OK }
                    },
                },
                _ => stage,
            },
            M1Stage::Done { status: _ } => stage,
        }
    }

    /// What is resident for the entries that a target makes redundant.
    fn find_redundant(&self, target: &M1Target) -> (r: Vec<Resident>)
        requires
            self.wf(),
        ensures
            r@ == self@.redundant(*target),
    {
        let mut found: Vec<Resident> = Vec::new();
        if let M1Target::Triple(key) = target {
            if let Some(cached) = self.singles.get(&key.first) {
                found.push(cached.prepared);
            }
            let pair = DecodePairKey { first: key.second, second: key.third };
            if let Some(cached) = self.pairs.get(&pair) {
                found.push(cached.prepared);
            }
        }
        assert(found@ =~= self@.redundant(*target));
        found
    }

    /// Advances a call by one event, and names the resident weights that are to be
    /// let go because the call made them redundant.
    pub fn step_releasing(
        &mut self,
        counters: &mut DecodeCounters,
        target: &M1Target,
        stage: M1Stage,
        event: M1Event,
    ) -> (r: (M1Stage, Vec<Resident>))
        requires
            old(self).wf(),
            target.total_n() <= usize::MAX,
        ensures
            final(self).wf(),
            (M1Step { state: final(self)@, counters: *final(counters), stage: r.0 }) == m1_next(
                old(self)@,
                *old(counters),
                *target,
                stage,
                event,
            ),
            r.1@ == m1_released(old(self)@, *target, stage, event),
    {
        let ran = match (&stage, &event) {
            (M1Stage::Execute { .. }, M1Event::Executed { report: Some(_) }) => true,
            _ => false,
        };
        let released: Vec<Resident> = if ran {
            self.find_redundant(target)
        } else {
            Vec::new()
        };
        let next = self.step(counters, target, stage, event);
        (next, released)
    }

    fn finish(
        &mut self,
        counters: &mut DecodeCounters,
        target: &M1Target,
        cached: CachedW8A8Weight,
        hit: bool,
        report: &M1Report,
    )
        requires
            old(self).wf(),
            target.total_n() <= usize::MAX,
        ensures
            final(self).wf(),
            final(self)@ == (if hit {
                old(self)@.without_redundant(*target).with_profile(
                    *target,
                    cached.choice,
                    *report,
                )
            } else {
                old(self)@.without_redundant(*target)
            }),
            *final(counters) == old(counters).after_choice(cached.choice).after_elapsed(
                hit,
                report.times.total_ns,
            ),
    {
        let n: usize = match target.joined_n() {
            Some(n) => n,
            None => 0,
        };
        counters.count_choice(cached.choice);
        if let M1Target::Triple(key) = target {
            let _ = self.singles.remove(&key.first);
            let _ = self.pairs.remove(&DecodePairKey { first: key.second, second: key.third });
        }
        counters.count_elapsed(hit, report.times.total_ns);
        if hit {
            let kind = match target {
                M1Target::Single(_) => M1ProfileKind::Single,
                M1Target::Pair(_) => M1ProfileKind::Pair,
                M1Target::Triple(_) => M1ProfileKind::Triple,
            };
            let key = M1ProfileKey { kind, k: target.k(), n };
            match self.profile.take() {
                Some(mut profile) => {
                    profile.record(key, cached.choice, &report.stats, &report.times);
                    self.profile = Some(profile);
                },
                None => {},
            }
        }
    }
}

/// Weights that one call made resident are found by the next call for the same
/// target, which runs them under the same choice without preparing anything.
pub proof fn law_second_call_hits(
    s: M1State,
    c: DecodeCounters,
    target: M1Target,
    choice: DecodeChoice,
    prepared: Resident,
    report: M1Report,
    c2: DecodeCounters,
)
    ensures
        ({
            let stored = m1_next(
                s,
                c,
                target,
                M1Stage::Prepare { choice },
                M1Event::Prepared { resident: Some(prepared) },
            );
            let ran = m1_next(
                stored.state,
                stored.counters,
                target,
                stored.stage,
                M1Event::Executed { report: Some(report) },
            );
            let again = m1_next(
                ran.state,
                c2,
                target,
                M1Stage::Quantize,
                M1Event::Quantized { ok: true },
            );
            &&& ran.stage == (M1Stage::Done { status: STATUS_OK })
            &&& again.stage == (M1Stage::Execute {
                cached: CachedW8A8Weight { prepared, choice },
                hit: true,
                overlap: None,
            })
            &&& again.counters == c2.after_hit()
        }),
{
}

/// A shape is tuned once: after a choice was stored, other weights of the same
/// shape are prepared under it.
pub proof fn law_choice_is_kept(
    s: M1State,
    c: DecodeCounters,
    first: M1Target,
    choice: DecodeChoice,
    prepared: Resident,
    other: M1Target,
    weights: usize,
    scales: usize,
    pool_workers: usize,
    c2: DecodeCounters,
)
    requires
        m1_shape(first) == m1_shape(other),
        m1_weights_fit(other, weights, scales),
    ensures
        ({
            let stored = m1_next(
                s,
                c,
                first,
                M1Stage::Tune,
                M1Event::Tuned { winner: Some((choice, prepared)) },
            );
            m1_next(
                stored.state,
                c2,
                other,
                M1Stage::Weights,
                M1Event::Weights { sizes: Some((weights, scales)), pool_workers },
            ).stage == (M1Stage::Prepare { choice })
        }),
{
}

/// The step at which a call fails changes nothing: what was resident stays, and so
/// do the choices and all counters.
pub proof fn law_failure_keeps_residents(
    s: M1State,
    c: DecodeCounters,
    target: M1Target,
    stage: M1Stage,
    event: M1Event,
)
    requires
        !(stage is Done),
        m1_next(s, c, target, stage, event).stage matches M1Stage::Done { status } && status
            != STATUS_OK,
    ensures
        m1_next(s, c, target, stage, event).state == s,
        m1_next(s, c, target, stage, event).counters == c,
{
}

/// Once a triple has run, its first member alone and the pair of its other two
/// members are no longer resident, and nothing else has left the tables.
pub proof fn law_triple_replaces_parts(
    s: M1State,
    c: DecodeCounters,
    key: DecodeTripleKey,
    cached: CachedW8A8Weight,
    hit: bool,
    overlap: Option<OverlapToken>,
    report: M1Report,
)
    ensures
        ({
            let next = m1_next(
                s,
                c,
                M1Target::Triple(key),
                M1Stage::Execute { cached, hit, overlap },
                M1Event::Executed { report: Some(report) },
            );
            let pair = DecodePairKey { first: key.second, second: key.third };
            &&& next.state.cached(M1Target::Single(key.first)) is None
            &&& next.state.cached(M1Target::Pair(pair)) is None
            &&& next.state.triples == s.triples
            &&& next.state.choices == s.choices
            &&& forall|other: DecodeWeightKey|
                other != key.first ==> #[trigger] next.state.cached(M1Target::Single(other))
                    == s.cached(M1Target::Single(other))
            &&& forall|other: DecodePairKey|
                other != pair ==> #[trigger] next.state.cached(M1Target::Pair(other)) == s.cached(
                    M1Target::Pair(other),
                )
        }),
{
}

/// An event lets go of resident weights exactly where their entries leave the
/// tables: an entry that is gone after the step was let go, and nothing is let go
/// but what such an entry held.
pub proof fn law_released_entries_are_gone(
    s: M1State,
    c: DecodeCounters,
    target: M1Target,
    stage: M1Stage,
    event: M1Event,
    other: M1Target,
    i: int,
)
    ensures
        ({
            let next = m1_next(s, c, target, stage, event).state;
            let released = m1_released(s, target, stage, event);
            &&& s.cached(other) is Some && next.cached(other) is None ==> released.contains(
                s.cached(other)->0.prepared,
            )
            &&& 0 <= i < released.len() ==> exists|gone: M1Target| {
                &&& next.cached(gone) is None
                &&& (#[trigger] s.cached(gone)) is Some
                &&& s.cached(gone)->0.prepared == released[i]
            }
        }),
{
    let next = m1_next(s, c, target, stage, event).state;
    let released = m1_released(s, target, stage, event);
    if let M1Target::Triple(key) = target {
        let first = M1Target::Single(key.first);
        let pair = M1Target::Pair(DecodePairKey { first: key.second, second: key.third });
        if s.cached(other) is Some && next.cached(other) is None {
            assert(other == first || other == pair);
            if other == first {
                assert(released[0] == s.cached(first)->0.prepared);
            } else {
                assert(released[released.len() - 1] == s.cached(pair)->0.prepared);
            }
        }
        if 0 <= i < released.len() {
            assert(next.cached(first) is None && next.cached(pair) is None);
            if s.cached(first) is Some && i == 0 {
                assert(s.cached(first)->0.prepared == released[i]);
            } else {
                assert(s.cached(pair)->0.prepared == released[i]);
            }
        }
    }
}

/// The waiting callback runs beside at most one projection: the step into
/// execution takes it along and leaves none behind, and no other step touches it.
pub proof fn law_overlap_runs_once(
    s: M1State,
    c: DecodeCounters,
    target: M1Target,
    stage: M1Stage,
    event: M1Event,
)
    requires
        !(stage is Execute),
    ensures
        m1_next(s, c, target, stage, event).stage matches M1Stage::Execute { overlap, .. }
            ==> overlap == s.overlap && m1_next(s, c, target, stage, event).state.overlap is None,
        !(m1_next(s, c, target, stage, event).stage is Execute) ==> m1_next(
            s,
            c,
            target,
            stage,
            event,
        ).state.overlap == s.overlap,
{
}

/// The members of a target stand in the order in which they were named, all with
/// the target's K, and their columns are counted together.
pub proof fn law_members_stand_in_order(target: M1Target)
    ensures
        target.members().len() == target.widths().len(),
        forall|i: int|
            0 <= i < target.widths().len() ==> #[trigger] target.widths()[i]
                == target.members()[i].n,
        target.total_n() == member_start(target.widths(), target.widths().len() as int),
        target.members()[0].k == target.spec_k(),
        target matches M1Target::Single(key) ==> target.members() =~= seq![key],
        target matches M1Target::Pair(key) ==> target.members() =~= seq![key.first, key.second],
        target matches M1Target::Triple(key) ==> target.members() =~= seq![
            key.first,
            key.second,
            key.third,
        ],
        target.profile_kind() == M1ProfileKind::Single <==> target is Single,
        target.profile_kind() == M1ProfileKind::Pair <==> target is Pair,
        target.profile_kind() == M1ProfileKind::Triple <==> target is Triple,
{
    reveal_with_fuel(member_start, 4);
}

/// A single row is taken exactly where K comes in multiples of 512 and the columns
/// in blocks of 32, at most 8192 of them, and the buffers fit.
pub proof fn law_taken_rows(key: DecodeWeightKey, a_len: int, out: usize)
    ensures
        m1_accepts(M1Target::Single(key), a_len, seq![out]) <==> {
            &&& key.k == a_len
            &&& key.k % 512 == 0
            &&& key.n == out
            &&& key.n % 32 == 0
            &&& key.n <= 8192
        },
{
    let target = M1Target::Single(key);
    assert(target.members()[0] == key);
    assert(seq![out][0] == out);
}

/// Joined rows are taken exactly where all members share a K in multiples of 512,
/// come in blocks of 32 columns, no more than 16384 together, and the buffers fit.
pub proof fn law_taken_joined_rows(
    pair: DecodePairKey,
    triple: DecodeTripleKey,
    a_len: int,
    x: usize,
    y: usize,
    z: usize,
)
    ensures
        m1_accepts(M1Target::Pair(pair), a_len, seq![x, y]) <==> {
            &&& pair.first.k == a_len && pair.second.k == a_len
            &&& a_len % 512 == 0
            &&& pair.first.n == x && pair.second.n == y
            &&& x % 32 == 0 && y % 32 == 0
            &&& x + y <= 16384
        },
        m1_accepts(M1Target::Triple(triple), a_len, seq![x, y, z]) <==> {
            &&& triple.first.k == a_len && triple.second.k == a_len && triple.third.k == a_len
            &&& a_len % 512 == 0
            &&& triple.first.n == x && triple.second.n == y && triple.third.n == z
            &&& x % 32 == 0 && y % 32 == 0 && z % 32 == 0
            &&& x + y + z <= 16384
        },
{
    let two = M1Target::Pair(pair);
    let three = M1Target::Triple(triple);
    assert(two.members()[0] == pair.first && two.members()[1] == pair.second);
    assert(three.members()[0] == triple.first && three.members()[1] == triple.second
        && three.members()[2] == triple.third);
    assert(seq![x, y][0] == x && seq![x, y][1] == y);
    assert(seq![x, y, z][0] == x && seq![x, y, z][1] == y && seq![x, y, z][2] == z);
}

/// Host weights of joined members are taken where there is one value for each
/// column and row and one scale for each column.
pub proof fn law_joined_host_weights(target: M1Target, weights: usize, scales: usize)
    requires
        target.total_n() * target.spec_k() <= usize::MAX,
    ensures
        !(target is Single) ==> (m1_weights_fit(target, weights, scales) <==> weights
            == target.total_n() * target.spec_k() && scales == target.total_n()),
        target is Single ==> m1_weights_fit(target, weights, scales),
{
    assert(target.total_n() * target.spec_k() >= 0) by (nonlinear_arith)
        requires
            target.total_n() >= 0,
    ;
}

/// No trial is needed exactly for pairs of more than 8192 columns: they are spread
/// along N over as many cores as there are, up to three.
pub proof fn law_wide_pairs_need_no_trial(target: M1Target, pool_workers: usize)
    ensures
        m1_fixed_choice(target, pool_workers) is Some <==> target is Pair && target.total_n()
            > 8192,
        m1_fixed_choice(target, pool_workers) is Some ==> {
            let choice = m1_fixed_choice(target, pool_workers)->0;
            &&& choice.split == Int8DecodeSplit::N
            &&& choice.workers <= 3 && choice.workers <= pool_workers
            &&& choice.workers == 3 || choice.workers == pool_workers
        },
{
}

/// Weights that are not resident are prepared under the choice that is known for
/// their shape; where none is known a wide pair takes its own, and everything else
/// is tried out.
pub proof fn law_unknown_shapes_are_tried_out(
    s: M1State,
    c: DecodeCounters,
    target: M1Target,
    weights: usize,
    scales: usize,
    pool_workers: usize,
)
    requires
        target.total_n() <= usize::MAX,
        m1_weights_fit(target, weights, scales),
    ensures
        ({
            let next = m1_next(
                s,
                c,
                target,
                M1Stage::Weights,
                M1Event::Weights { sizes: Some((weights, scales)), pool_workers },
            );
            let shape = ShapeKey { k: target.spec_k(), n: target.total_n() as usize };
            &&& next.state == s && next.counters == c
            &&& s.choices.dom().contains(shape) ==> next.stage == (M1Stage::Prepare {
                choice: s.choices[shape],
            })
            &&& !s.choices.dom().contains(shape) && target is Pair && target.total_n() > 8192
                ==> next.stage is Prepare && next.stage->Prepare_choice.split == Int8DecodeSplit::N
            &&& !s.choices.dom().contains(shape) && !(target is Pair && target.total_n() > 8192)
                ==> next.stage is Tune
        }),
{
}

/// Resident weights are found under their own key, and storing them changes
/// nothing for any other target.
pub proof fn law_resident_rows_are_kept_apart(
    s: M1State,
    stored: M1Target,
    other: M1Target,
    cached: CachedW8A8Weight,
)
    ensures
        s.with_cached(stored, cached).cached(stored) == Some(cached),
        stored != other ==> s.with_cached(stored, cached).cached(other) == s.cached(other),
        s.with_cached(stored, cached).choices == s.choices,
        s.with_cached(stored, cached).overlap == s.overlap,
        s.with_cached(stored, cached).profile == s.profile,
        M1State::empty(true).cached(other) is None && M1State::empty(false).cached(other) is None,
        M1State::empty(true).profile is Some && M1State::empty(false).profile is None,
        M1State::empty(true).overlap is None && M1State::empty(false).overlap is None,
{
}

/// Weights that became resident are kept under the choice they were prepared for,
/// that choice is remembered for their shape alone, and one miss is counted.
pub proof fn law_prepared_rows_are_kept(
    s: M1State,
    c: DecodeCounters,
    target: M1Target,
    choice: DecodeChoice,
    prepared: Resident,
    shape: ShapeKey,
)
    requires
        target.total_n() <= usize::MAX,
        c.misses < usize::MAX,
    ensures
        ({
            let next = m1_next(
                s,
                c,
                target,
                M1Stage::Prepare { choice },
                M1Event::Prepared { resident: Some(prepared) },
            );
            let tuned = m1_next(
                s,
                c,
                target,
                M1Stage::Tune,
                M1Event::Tuned { winner: Some((choice, prepared)) },
            );
            let own = shape.k == target.spec_k() && shape.n == target.total_n();
            &&& next == tuned
            &&& next.state.cached(target) == Some(CachedW8A8Weight { prepared, choice })
            &&& own ==> next.state.choices.dom().contains(shape) && next.state.choices[shape]
                == choice
            &&& !own ==> next.state.choices.dom().contains(shape) == s.choices.dom().contains(shape)
            &&& !own && s.choices.dom().contains(shape) ==> next.state.choices[shape]
                == s.choices[shape]
            &&& next.counters.misses == c.misses + 1
            &&& next.counters.hits == c.hits
            &&& next.stage is Execute && !next.stage->hit && next.stage->cached.choice == choice
                && next.stage->cached.prepared == prepared
        }),
{
}

/// A finished call is counted under the choice it ran with and its time is booked
/// on hits or misses; only a hit goes on the account of its kind and shape.
pub proof fn law_finished_rows_are_counted(
    s: M1State,
    c: DecodeCounters,
    target: M1Target,
    cached: CachedW8A8Weight,
    hit: bool,
    overlap: Option<OverlapToken>,
    report: M1Report,
    key: M1ProfileKey,
)
    requires
        target.total_n() <= usize::MAX,
    ensures
        ({
            let next = m1_next(
                s,
                c,
                target,
                M1Stage::Execute { cached, hit, overlap },
                M1Event::Executed { report: Some(report) },
            );
            let own = key.kind == target.profile_kind() && key.k == target.spec_k() && key.n
                == target.total_n();
            &&& next.stage == (M1Stage::Done { status: STATUS_OK })
            &&& next.counters == c.after_choice(cached.choice).after_elapsed(
                hit,
                report.times.total_ns,
            )
            &&& !hit ==> next.state.profile == s.profile
            &&& s.profile is None ==> next.state.profile is None
            &&& hit && s.profile is Some ==> {
                &&& next.state.profile is Some
                &&& own ==> next.state.profile->0[key] == shape_profile_after(
                    shape_or_empty(s.profile->0, key),
                    cached.choice,
                    report.stats,
                    report.times,
                )
                &&& !own ==> shape_or_empty(next.state.profile->0, key) == shape_or_empty(
                    s.profile->0,
                    key,
                )
            }
        }),
{
}

/// A step that fails ends the call: values that cannot be quantized, and weights
/// that are missing or of the wrong length, are refused; a failed preparation,
/// trial or run is an execution error.
pub proof fn law_failed_rows_tell_why(
    s: M1State,
    c: DecodeCounters,
    target: M1Target,
    weights: usize,
    scales: usize,
    pool_workers: usize,
    choice: DecodeChoice,
    cached: CachedW8A8Weight,
    hit: bool,
    overlap: Option<OverlapToken>,
)
    ensures
        m1_next(s, c, target, M1Stage::Quantize, M1Event::Quantized { ok: false }).stage
            == (M1Stage::Done { status: STATUS_INVALID_ARGUMENT }),
        m1_next(
            s,
            c,
            target,
            M1Stage::Weights,
            M1Event::Weights { sizes: None, pool_workers },
        ).stage == (M1Stage::Done { status: STATUS_INVALID_ARGUMENT }),
        !m1_weights_fit(target, weights, scales) ==> m1_next(
            s,
            c,
            target,
            M1Stage::Weights,
            M1Event::Weights { sizes: Some((weights, scales)), pool_workers },
        ).stage == (M1Stage::Done { status: STATUS_INVALID_ARGUMENT }),
        m1_next(
            s,
            c,
            target,
            M1Stage::Prepare { choice },
            M1Event::Prepared { resident: None },
        ).stage == (M1Stage::Done { status: STATUS_EXECUTION_ERROR }),
        m1_next(s, c, target, M1Stage::Tune, M1Event::Tuned { winner: None }).stage
            == (M1Stage::Done { status: STATUS_EXECUTION_ERROR }),
        m1_next(
            s,
            c,
            target,
            M1Stage::Execute { cached, hit, overlap },
            M1Event::Executed { report: None },
        ).stage == (M1Stage::Done { status: STATUS_EXECUTION_ERROR }),
{
}

/// A quantized row whose weights are resident runs them at once and counts a hit;
/// one whose weights are not goes to the host weights and counts nothing yet.
pub proof fn law_resident_rows_run_at_once(s: M1State, c: DecodeCounters, target: M1Target)
    requires
        c.hits < usize::MAX,
    ensures
        ({
            let next = m1_next(s, c, target, M1Stage::Quantize, M1Event::Quantized { ok: true });
            if s.cached(target) is Some {
                &&& next.stage is Execute && next.stage->hit
                &&& next.stage->cached == s.cached(target)->0
                &&& next.counters.hits == c.hits + 1 && next.counters.misses == c.misses
            } else {
                next.stage is Weights && next.state == s && next.counters == c
            }
        }),
{
}

/// Events that do not answer the stage change nothing, and a call that is over
/// stays over.
pub proof fn law_stray_row_events_change_nothing(
    s: M1State,
    c: DecodeCounters,
    target: M1Target,
    stage: M1Stage,
    event: M1Event,
)
    requires
        !(stage is Quantize && event is Quantized),
        !(stage is Weights && event is Weights),
        !(stage is Prepare && event is Prepared),
        !(stage is Tune && event is Tuned),
        !(stage is Execute && event is Executed),
    ensures
        m1_next(s, c, target, stage, event) == (M1Step { state: s, counters: c, stage }),
        m1_released(s, target, stage, event).len() == 0,
{
}

/// Only a triple takes the place of others: a run of one matrix or of a pair leaves
/// all resident weights where they are and lets nothing go.
pub proof fn law_only_triples_replace(
    s: M1State,
    c: DecodeCounters,
    target: M1Target,
    cached: CachedW8A8Weight,
    hit: bool,
    overlap: Option<OverlapToken>,
    report: M1Report,
)
    requires
        !(target is Triple),
    ensures
        ({
            let stage = M1Stage::Execute { cached, hit, overlap };
            let event = M1Event::Executed { report: Some(report) };
            let next = m1_next(s, c, target, stage, event).state;
            &&& next.singles == s.singles
            &&& next.pairs == s.pairs
            &&& next.triples == s.triples
            &&& next.choices == s.choices
            &&& next.overlap == s.overlap
            &&& m1_released(s, target, stage, event).len() == 0
        }),
{
}

/// What a triple lets go is the weights of its first member and those of the pair of
/// the others, in this order, as far as they were resident.
pub proof fn law_triples_let_go_of_their_parts(
    s: M1State,
    key: DecodeTripleKey,
    cached: CachedW8A8Weight,
    hit: bool,
    overlap: Option<OverlapToken>,
    report: M1Report,
)
    ensures
        ({
            let stage = M1Stage::Execute { cached, hit, overlap };
            let event = M1Event::Executed { report: Some(report) };
            let gone = m1_released(s, M1Target::Triple(key), stage, event);
            let alone = s.cached(M1Target::Single(key.first));
            let pair = s.cached(
                M1Target::Pair(DecodePairKey { first: key.second, second: key.third }),
            );
            &&& alone is Some && pair is Some ==> gone == seq![alone->0.prepared, pair->0.prepared]
            &&& alone is Some && pair is None ==> gone == seq![alone->0.prepared]
            &&& alone is None && pair is Some ==> gone == seq![pair->0.prepared]
            &&& alone is None && pair is None ==> gone.len() == 0
        }),
{
}

} // verus!
