//! Single-row W4A4 projections.
//!
//! Weights are quantized to four bits per row, per group along K, or per row
//! with the whole row as one group spread over a worker pool. A call advances
//! through [`W4Stage`]s in the same way as an eight-bit call.

use crate::arith::{sat_usize, saturating_product};
use crate::counters::DecodeCounters;
use crate::keys::{DecodeWeightKey, GroupedW4Key, PoolW4Key, Resident, ShapeKey};
use crate::status::{STATUS_EXECUTION_ERROR, STATUS_INVALID_ARGUMENT, STATUS_OK};
use crate::table::Table;
use vstd::prelude::*;

verus! {

/// Longest row of the ungrouped four-bit kernel.
pub const W4_MAX_K: usize = 10752;

/// Widest four-bit projection.
pub const W4_MAX_N: usize = 8192;

/// Four-bit weights in the worker pool.
#[derive(Clone, Copy, Debug, PartialEq, Eq, Structural)]
pub struct CachedPoolW4A4Weight {
    pub prepared: Resident,
    pub workers: usize,
}

/// The weights that one four-bit call projects through.
#[derive(Clone, Copy, Debug, PartialEq, Eq, Structural)]
pub enum W4Target {
    /// One scale per row, on one core.
    Plain(DecodeWeightKey),
    /// One scale per group of a row, on one core.
    Grouped(GroupedW4Key),
    /// One scale per row, in the worker pool.
    Pool(PoolW4Key),
}

impl W4Target {
    /// The weight matrix.
    pub open spec fn spec_key(self) -> DecodeWeightKey {
        match self {
            W4Target::Plain(key) => key,
            W4Target::Grouped(g) => g.key,
            W4Target::Pool(p) => p.key,
        }
    }

    /// The weight matrix.
    pub fn key(&self) -> (key: DecodeWeightKey)
        ensures
            key == self.spec_key(),
    {
        match self {
            W4Target::Plain(key) => *key,
            W4Target::Grouped(g) => g.key,
            W4Target::Pool(p) => p.key,
        }
    }
}

/// What a call must look like to be taken. A pool call is looked at only once
/// its activations are quantized.
pub open spec fn w4_accepts(target: W4Target, a_len: int, out_len: int) -> bool {
    let key = target.spec_key();
    match target {
        W4Target::Plain(_) => {
            &&& a_len == key.k
            &&& out_len == key.n
            &&& key.k % 32 == 0
            &&& key.k <= W4_MAX_K
            &&& key.n % 64 == 0
            &&& key.n <= W4_MAX_N
        },
        W4Target::Grouped(g) => {
            &&& a_len == key.k
            &&& out_len == key.n
            &&& g.group_size > 0
            &&& g.group_size % 32 == 0
            &&& key.k % g.group_size == 0
            &&& key.n % 64 == 0
            &&& key.n <= W4_MAX_N
        },
        W4Target::Pool(_) => true,
    }
}

/// Groups of a grouped target, by whole group sizes.
pub open spec fn w4_groups(g: GroupedW4Key) -> int
    recommends
        g.group_size > 0,
{
    g.key.k as int / g.group_size as int
}

/// Whether the quantized activations have the scales that the target needs.
pub open spec fn w4_activations_fit(target: W4Target, scales: usize, out_len: usize) -> bool {
    match target {
        W4Target::Plain(_) => true,
        W4Target::Grouped(g) => scales == w4_groups(g),
        W4Target::Pool(p) => scales == 1 && out_len == p.key.n,
    }
}

/// Whether the host weights have the scales that the target needs.
pub open spec fn w4_weights_fit(target: W4Target, scales: usize) -> bool {
    match target {
        W4Target::Plain(_) => true,
        W4Target::Grouped(g) => scales == sat_usize(w4_groups(g) * g.key.n),
        W4Target::Pool(p) => scales == p.key.n,
    }
}

/// Whether an execution handed back as many values as the target needs.
pub open spec fn w4_values_fit(target: W4Target, values: usize) -> bool {
    match target {
        W4Target::Grouped(g) => values == sat_usize(w4_groups(g) * g.key.n),
        _ => true,
    }
}

/// The outside work that is due.
#[derive(Clone, Copy, Debug, PartialEq, Eq, Structural)]
pub enum W4Stage {
    /// Quantize the activation row; the output buffer has this length.
    Quantize { out_len: usize },
    /// Produce four-bit weights and their scales on the host.
    Weights,
    /// Make the weights resident, on that many pool workers or on one core.
    Prepare { workers: Option<usize> },
    /// Try the candidate worker counts and keep the best one resident.
    Tune,
    /// Run the resident weights and rescale.
    Execute { prepared: Resident, workers: Option<usize>, hit: bool },
    /// Nothing: the call is over.
    Done { status: i32 },
}

/// What a finished execution reports.
#[derive(Clone, Copy, Debug, PartialEq, Eq, Structural)]
pub struct W4Report {
    pub values: usize,
    pub saturated_outputs: usize,
    pub elapsed_ns: u128,
}

/// The outcome of outside work.
#[derive(Clone, Copy, Debug)]
pub enum W4Event {
    /// How many activation scales came out, if all activations were finite.
    Quantized { scales: Option<usize> },
    /// How many weight scales came out.
    Weights { scales: Option<usize> },
    /// The resident weights.
    Prepared { resident: Option<Resident> },
    /// The worker count that won, and its resident weights.
    Tuned { winner: Option<(usize, Resident)> },
    /// What the execution reported.
    Executed { report: Option<W4Report> },
}

/// Resident four-bit weights and their counters.
pub struct W4Cache {
    pub plain: Table<DecodeWeightKey, Resident>,
    pub grouped: Table<GroupedW4Key, Resident>,
    pub pool: Table<PoolW4Key, CachedPoolW4A4Weight>,
    pub workers: Table<ShapeKey, usize>,
    pub calls: usize,
    pub saturated_calls: usize,
    pub saturated_outputs: usize,
}

/// What a [`W4Cache`] holds.
#[verifier::ext_equal]
pub struct W4State {
    pub plain: Map<DecodeWeightKey, Resident>,
    pub grouped: Map<GroupedW4Key, Resident>,
    pub pool: Map<PoolW4Key, CachedPoolW4A4Weight>,
    pub workers: Map<ShapeKey, usize>,
    pub calls: usize,
    pub saturated_calls: usize,
    pub saturated_outputs: usize,
}

impl View for W4Cache {
    type V = W4State;

    open spec fn view(&self) -> W4State {
        W4State {
            plain: self.plain@,
            grouped: self.grouped@,
            pool: self.pool@,
            workers: self.workers@,
            calls: self.calls,
            saturated_calls: self.saturated_calls,
            saturated_outputs: self.saturated_outputs,
        }
    }
}

impl W4State {
    /// Nothing resident, nothing counted.
    pub open spec fn empty() -> W4State {
        W4State {
            plain: Map::empty(),
            grouped: Map::empty(),
            pool: Map::empty(),
            workers: Map::empty(),
            calls: 0,
            saturated_calls: 0,
            saturated_outputs: 0,
        }
    }

    /// The resident weights of a target, with the workers they were prepared for.
    pub open spec fn cached(self, target: W4Target) -> Option<(Resident, Option<usize>)> {
        match target {
            W4Target::Plain(key) => if self.plain.dom().contains(key) {
                Some((self.plain[key], None))
            } else {
                None
            },
            W4Target::Grouped(key) => if self.grouped.dom().contains(key) {
                Some((self.grouped[key], None))
            } else {
                None
            },
            W4Target::Pool(key) => if self.pool.dom().contains(key) {
                Some((self.pool[key].prepared, Some(self.pool[key].workers)))
            } else {
                None
            },
        }
    }

    /// With resident weights stored. A pool target's worker count is remembered
    /// under its shape as well.
    pub open spec fn with_cached(
        self,
        target: W4Target,
        prepared: Resident,
        workers: usize,
    ) -> W4State {
        match target {
            W4Target::Plain(key) => W4State { plain: self.plain.insert(key, prepared), ..self },
            W4Target::Grouped(key) => W4State {
                grouped: self.grouped.insert(key, prepared),
                ..self
            },
            W4Target::Pool(key) => W4State {
                pool: self.pool.insert(key, CachedPoolW4A4Weight { prepared, workers }),
                workers: self.workers.insert(w4_shape(target), workers),
                ..self
            },
        }
    }

    /// With one executed call counted.
    pub open spec fn after_call(self, saturated: usize) -> W4State {
        W4State {
            calls: sat_usize(self.calls + 1),
            saturated_calls: if saturated != 0 {
                sat_usize(self.saturated_calls + 1)
            } else {
                self.saturated_calls
            },
            saturated_outputs: sat_usize(self.saturated_outputs + saturated),
            ..self
        }
    }
}

/// The shape under which a target's worker count is remembered.
pub open spec fn w4_shape(target: W4Target) -> ShapeKey {
    ShapeKey { k: target.spec_key().k, n: target.spec_key().n }
}

/// Everything a call can change, and the work that is due next.
pub struct W4Step {
    pub state: W4State,
    pub counters: DecodeCounters,
    pub stage: W4Stage,
}

/// The first stage of a call. A pool target needs the pool.
pub open spec fn w4_first(
    target: W4Target,
    pool_present: bool,
    a_len: usize,
    out_len: usize,
) -> W4Stage {
    if target is Pool && !pool_present {
        W4Stage::Done { status: STATUS_EXECUTION_ERROR }
    } else if w4_accepts(target, a_len as int, out_len as int) {
        W4Stage::Quantize { out_len }
    } else {
        W4Stage::Done { status: STATUS_INVALID_ARGUMENT }
    }
}

/// The step after weights became resident.
pub open spec fn w4_store(
    s: W4State,
    c: DecodeCounters,
    target: W4Target,
    prepared: Resident,
    workers: Option<usize>,
) -> W4Step {
    W4Step {
        state: s.with_cached(
            target,
            prepared,
            if workers is Some {
                workers->0
            } else {
                1
            },
        ),
        counters: c.after_miss(),
        stage: W4Stage::Execute { prepared, workers, hit: false },
    }
}

/// The end of a call.
pub open spec fn w4_done(s: W4State, c: DecodeCounters, status: i32) -> W4Step {
    W4Step { state: s, counters: c, stage: W4Stage::Done { status } }
}

/// What an event does to a call.
///
/// An event that does not answer the stage changes nothing.
pub open spec fn w4_next(
    s: W4State,
    c: DecodeCounters,
    target: W4Target,
    stage: W4Stage,
    event: W4Event,
) -> W4Step {
    match (stage, event) {
        (W4Stage::Quantize { out_len }, W4Event::Quantized { scales }) => match scales {
            None => w4_done(s, c, STATUS_INVALID_ARGUMENT),
            Some(scales) => if !w4_activations_fit(target, scales, out_len) {
                w4_done(s, c, STATUS_INVALID_ARGUMENT)
            } else {
                match s.cached(target) {
                    Some((prepared, workers)) => W4Step {
                        state: s,
                        counters: c.after_hit(),
                        stage: W4Stage::Execute { prepared, workers, hit: true },
                    },
                    None => W4Step { state: s, counters: c, stage: W4Stage::Weights },
                }
            },
        },
        (W4Stage::Weights, W4Event::Weights { scales }) => match scales {
            None => w4_done(s, c, STATUS_INVALID_ARGUMENT),
            Some(scales) => if !w4_weights_fit(target, scales) {
                w4_done(s, c, STATUS_INVALID_ARGUMENT)
            } else {
                W4Step {
                    state: s,
                    counters: c,
                    stage: if !(target is Pool) {
                        W4Stage::Prepare { workers: None }
                    } else if s.workers.dom().contains(w4_shape(target)) {
                        W4Stage::Prepare { workers: Some(s.workers[w4_shape(target)]) }
                    } else {
                        W4Stage::Tune
                    },
                }
            },
        },
        (W4Stage::Prepare { workers }, W4Event::Prepared { resident }) => match resident {
            None => w4_done(s, c, STATUS_EXECUTION_ERROR),
            Some(resident) => w4_store(s, c, target, resident, workers),
        },
        (W4Stage::Tune, W4Event::Tuned { winner }) => match winner {
            None => w4_done(s, c, STATUS_EXECUTION_ERROR),
            Some((workers, resident)) => w4_store(s, c, target, resident, Some(workers)),
        },
        (W4Stage::Execute { prepared, workers, hit }, W4Event::Executed { report }) => match report {
            None => w4_done(s, c, STATUS_EXECUTION_ERROR),
            Some(report) => if !w4_values_fit(target, report.values) {
                w4_done(s, c, STATUS_EXECUTION_ERROR)
            } else {
                w4_done(
                    s.after_call(report.saturated_outputs),
                    (match workers {
                        Some(workers) => c.after_worker_call(workers),
                        None => c,
                    }).after_elapsed(hit, report.elapsed_ns),
                    STATUS_OK,
                )
            },
        },
        _ => W4Step { state: s, counters: c, stage },
    }
}

/// Whether `groups * n`, with whole groups of a row, is the given count.
fn grouped_count_is(g: &GroupedW4Key, count: usize) -> (r: bool)
    requires
        g.group_size > 0,
    ensures
        r == (count == sat_usize(w4_groups(*g) * g.key.n)),
{
    let groups: usize = g.key.k / g.group_size;
    count == saturating_product(groups, g.key.n)
}

/// Decides whether a call is taken, before any outside work.
pub fn w4_start(
    target: &W4Target,
    pool_present: bool,
    a_len: usize,
    out_len: usize,
) -> (stage: W4Stage)
    ensures
        stage == w4_first(*target, pool_present, a_len, out_len),
{
    let key = target.key();
    let accepted = match target {
        W4Target::Plain(_) => a_len == key.k && out_len == key.n && key.k % 32 == 0 && key.k
            <= W4_MAX_K && key.n % 64 == 0 && key.n <= W4_MAX_N,
        W4Target::Grouped(g) => a_len == key.k && out_len == key.n && g.group_size > 0
            && g.group_size % 32 == 0 && key.k % g.group_size == 0 && key.n % 64 == 0 && key.n
            <= W4_MAX_N,
        W4Target::Pool(_) => {
            if !pool_present {
                return W4Stage::Done { status: STATUS_EXECUTION_ERROR };
            }
            true
        },
    };
    if accepted {
        W4Stage::Quantize { out_len }
    } else {
        W4Stage::Done { status: STATUS_INVALID_ARGUMENT }
    }
}

impl W4Cache {
    /// No key occurs twice in any table.
    pub open spec fn wf(&self) -> bool {
        &&& self.plain.wf()
        &&& self.grouped.wf()
        &&& self.pool.wf()
        &&& self.workers.wf()
    }

    /// Nothing resident, nothing counted.
    pub fn new() -> (cache: Self)
        ensures
            cache.wf(),
            cache@ == W4State::empty(),
    {
        W4Cache {
            plain: Table::new(),
            grouped: Table::new(),
            pool: Table::new(),
            workers: Table::new(),
            calls: 0,
            saturated_calls: 0,
            saturated_outputs: 0,
        }
    }

    fn lookup(&self, target: &W4Target) -> (r: Option<(Resident, Option<usize>)>)
        requires
            self.wf(),
        ensures
            r == self@.cached(*target),
    {
        match target {
            W4Target::Plain(key) => match self.plain.get(key) {
                Some(prepared) => Some((*prepared, None)),
                None => None,
            },
            W4Target::Grouped(key) => match self.grouped.get(key) {
                Some(prepared) => Some((*prepared, None)),
                None => None,
            },
            W4Target::Pool(key) => match self.pool.get(key) {
                Some(cached) => Some((cached.prepared, Some(cached.workers))),
                None => None,
            },
        }
    }

    fn store(
        &mut self,
        counters: &mut DecodeCounters,
        target: &W4Target,
        prepared: Resident,
        workers: Option<usize>,
    ) -> (stage: W4Stage)
        requires
            old(self).wf(),
        ensures
            final(self).wf(),
            (W4Step { state: final(self)@, counters: *final(counters), stage }) == w4_store(
                old(self)@,
                *old(counters),
                *target,
                prepared,
                workers,
            ),
    {
        match target {
            W4Target::Plain(key) => {
                self.plain.insert(*key, prepared);
            },
            W4Target::Grouped(key) => {
                self.grouped.insert(*key, prepared);
            },
            W4Target::Pool(key) => {
                let count: usize = match workers {
                    Some(count) => count,
                    None => 1,
                };
                self.pool.insert(*key, CachedPoolW4A4Weight { prepared, workers: count });
                self.workers.insert(ShapeKey { k: key.key.k, n: key.key.n }, count);
            },
        }
        counters.count_miss();
        W4Stage::Execute { prepared, workers, hit: false }
    }

    /// Advances a call by one event.
    pub fn step(
        &mut self,
        counters: &mut DecodeCounters,
        target: &W4Target,
        stage: W4Stage,
        event: W4Event,
    ) -> (next: W4Stage)
        requires
            old(self).wf(),
            *target matches W4Target::Grouped(g) ==> g.group_size > 0,
        ensures
            final(self).wf(),
            (W4Step { state: final(self)@, counters: *final(counters), stage: next }) == w4_next(
                old(self)@,
                *old(counters),
                *target,
                stage,
                event,
            ),
    {
        match stage {
            W4Stage::Quantize { out_len } => match event {
                W4Event::Quantized { scales } => match scales {
                    None => W4Stage::Done { status: STATUS_INVALID_ARGUMENT },
                    Some(scales) => {
                        let fit = match target {
                            W4Target::Plain(_) => true,
                            W4Target::Grouped(g) => scales == g.key.k / g.group_size,
                            W4Target::Pool(p) => scales == 1 && out_len == p.key.n,
                        };
                        if !fit {
                            return W4Stage::Done { status: STATUS_INVALID_ARGUMENT };
                        }
                        match self.lookup(target) {
                            Some((prepared, workers)) => {
                                counters.count_hit();
                                W4Stage::Execute { prepared, workers, hit: true }
                            },
                            None => W4Stage::Weights,
                        }
                    },
                },
                _ => stage,
            },
            W4Stage::Weights => match event {
                W4Event::Weights { scales } => match scales {
                    None => W4Stage::Done { status: STATUS_INVALID_ARGUMENT },
                    Some(scales) => {
                        let fit = match target {
                            W4Target::Plain(_) => true,
                            W4Target::Grouped(g) => grouped_count_is(g, scales),
                            W4Target::Pool(p) => scales == p.key.n,
                        };
                        if !fit {
                            return W4Stage::Done { status: STATUS_INVALID_ARGUMENT };
                        }
                        match target {
                            W4Target::Pool(p) => {
                                match self.workers.get(&ShapeKey { k: p.key.k, n: p.key.n }) {
                                    Some(workers) => W4Stage::Prepare { workers: Some(*workers) },
                                    None => W4Stage::Tune,
                                }
                            },
                            _ => W4Stage::Prepare { workers: None },
                        }
                    },
                },
                _ => stage,
            },
            W4Stage::Prepare { workers } => match event {
                W4Event::Prepared { resident } => match resident {
                    None => W4Stage::Done { status: STATUS_EXECUTION_ERROR },
                    Some(resident) => self.store(counters, target, resident, workers),
                },
                _ => stage,
            },
            W4Stage::Tune => match event {
                W4Event::Tuned { winner } => match winner {
                    None => W4Stage::Done { status: STATUS_EXECUTION_ERROR },
                    Some((workers, resident)) => self.store(
                        counters,
                        target,
                        resident,
                        Some(workers),
                    ),
                },
                _ => stage,
            },
            W4Stage::Execute { prepared: _, workers, hit } => match event {
                W4Event::Executed { report } => match report {
                    None => W4Stage::Done { status: STATUS_EXECUTION_ERROR },
                    Some(report) => {
                        let fit = match target {
                            W4Target::Grouped(g) => grouped_count_is(g, report.values),
                            _ => true,
                        };
                        if !fit {
                            return W4Stage::Done { status: STATUS_EXECUTION_ERROR };
                        }
                        self.calls = self.calls.saturating_add(1);
                        if let Some(workers) = workers {
                            counters.count_worker_call(workers);
                        }
                        if report.saturated_outputs != 0 {
                            self.saturated_calls = self.saturated_calls.saturating_add(1);
                            self.saturated_outputs = self.saturated_outputs.saturating_add(
                                report.saturated_outputs,
                            );
                        }
                        counters.count_elapsed(hit, report.elapsed_ns);
                        W4Stage::Done { status: STATUS_OK }
                    },
                },
                _ => stage,
            },
            W4Stage::Done { status: _ } => stage,
        }
    }
}

/// Weights that one call made resident are found by the next call for the same
/// target.
pub proof fn law_second_w4_call_hits(
    s: W4State,
    c: DecodeCounters,
    target: W4Target,
    workers: Option<usize>,
    prepared: Resident,
    report: W4Report,
    scales: usize,
    out_len: usize,
    c2: DecodeCounters,
)
    requires
        target is Pool == (workers is Some),
        w4_values_fit(target, report.values),
        w4_activations_fit(target, scales, out_len),
    ensures
        ({
            let stored = w4_next(
                s,
                c,
                target,
                W4Stage::Prepare { workers },
                W4Event::Prepared { resident: Some(prepared) },
            );
            let ran = w4_next(
                stored.state,
                stored.counters,
                target,
                stored.stage,
                W4Event::Executed { report: Some(report) },
            );
            let again = w4_next(
                ran.state,
                c2,
                target,
                W4Stage::Quantize { out_len },
                W4Event::Quantized { scales: Some(scales) },
            );
            &&& ran.stage == (W4Stage::Done { status: STATUS_OK })
            &&& again.stage == (W4Stage::Execute { prepared, workers, hit: true })
            &&& again.counters == c2.after_hit()
        }),
{
}

/// The step at which a call fails leaves the caches and all counters as they were.
pub proof fn law_w4_failure_keeps_residents(
    s: W4State,
    c: DecodeCounters,
    target: W4Target,
    stage: W4Stage,
    event: W4Event,
)
    requires
        !(stage is Done),
        w4_next(s, c, target, stage, event).stage matches W4Stage::Done { status } && status
            != STATUS_OK,
    ensures
        w4_next(s, c, target, stage, event).state == s,
        w4_next(s, c, target, stage, event).counters == c,
{
}

/// A four-bit row is taken exactly where the buffers fit, columns come in blocks
/// of 64 up to 8192, and K comes in blocks of 32 up to 10752 or in whole groups of
/// such blocks.
pub proof fn law_taken_four_bit_rows(key: DecodeWeightKey, g: GroupedW4Key, a_len: int, out: int)
    ensures
        w4_accepts(W4Target::Plain(key), a_len, out) <==> {
            &&& key.k == a_len && key.n == out
            &&& key.k % 32 == 0 && key.k <= 10752
            &&& key.n % 64 == 0 && key.n <= 8192
        },
        w4_accepts(W4Target::Grouped(g), a_len, out) <==> {
            &&& g.key.k == a_len && g.key.n == out
            &&& g.group_size != 0 && g.group_size % 32 == 0 && g.key.k % g.group_size == 0
            &&& g.key.n % 64 == 0 && g.key.n <= 8192
        },
{
}

/// Scales belong to whole groups of a row: one for each group of the activations,
/// one for each group and column of the weights, and one value of the result for
/// each group and column. A row that is one group has one scale.
pub proof fn law_four_bit_scales(
    target: W4Target,
    scales: usize,
    values: usize,
    out_len: usize,
)
    requires
        target matches W4Target::Grouped(g) ==> g.group_size > 0 && g.key.k % g.group_size == 0
            && g.key.k * g.key.n <= usize::MAX,
    ensures
        target matches W4Target::Grouped(g) ==> {
            &&& w4_activations_fit(target, scales, out_len) <==> scales * g.group_size == g.key.k
            &&& w4_weights_fit(target, scales) <==> scales * g.group_size == g.key.k * g.key.n
            &&& w4_values_fit(target, values) <==> values * g.group_size == g.key.k * g.key.n
        },
        target matches W4Target::Pool(p) ==> {
            &&& w4_activations_fit(target, scales, out_len) <==> scales == 1 && out_len == p.key.n
            &&& w4_weights_fit(target, scales) <==> scales == p.key.n
            &&& w4_values_fit(target, values)
        },
        target is Plain ==> w4_activations_fit(target, scales, out_len) && w4_weights_fit(
            target,
            scales,
        ) && w4_values_fit(target, values),
{
    if let W4Target::Grouped(g) = target {
        let (k, n, size) = (g.key.k as int, g.key.n as int, g.group_size as int);
        vstd::arithmetic::div_mod::lemma_fundamental_div_mod(k, size);
        let q = k / size;
        assert(q * size == k) by (nonlinear_arith)
            requires
                k == size * q,
        ;
        assert(q * n * size == k * n) by (nonlinear_arith)
            requires
                k == q * size,
        ;
        assert(0 <= q * n <= k * n) by (nonlinear_arith)
            requires
                k == q * size,
                size >= 1,
                n >= 0,
                k >= 0,
        ;
        let x = scales as int;
        assert(x * size == q * size ==> x == q) by (nonlinear_arith)
            requires
                size > 0,
        ;
        assert(x * size == q * n * size ==> x == q * n) by (nonlinear_arith)
            requires
                size > 0,
        ;
        let v = values as int;
        assert(v * size == q * n * size ==> v == q * n) by (nonlinear_arith)
            requires
                size > 0,
        ;
    }
}

/// A call starts where it is taken; a pool call needs the pool and is looked at
/// once its activations are quantized.
pub proof fn law_four_bit_calls_start(
    target: W4Target,
    pool_present: bool,
    a_len: usize,
    out_len: usize,
)
    ensures
        target is Pool && !pool_present ==> w4_first(target, pool_present, a_len, out_len)
            == (W4Stage::Done { status: STATUS_EXECUTION_ERROR }),
        target is Pool && pool_present ==> w4_first(target, pool_present, a_len, out_len)
            == (W4Stage::Quantize { out_len }),
        !(target is Pool) ==> w4_first(target, pool_present, a_len, out_len) == (if w4_accepts(
            target,
            a_len as int,
            out_len as int,
        ) {
            W4Stage::Quantize { out_len }
        } else {
            (W4Stage::Done { status: STATUS_INVALID_ARGUMENT })
        }),
{
}

/// Resident weights are found under their own key, with the workers they were
/// prepared for, and storing them changes nothing for any other target.
pub proof fn law_resident_four_bit_weights_are_kept_apart(
    s: W4State,
    stored: W4Target,
    other: W4Target,
    prepared: Resident,
    workers: usize,
    shape: ShapeKey,
)
    ensures
        ({
            let t = s.with_cached(stored, prepared, workers);
            let own = stored is Pool && shape.k == stored.spec_key().k && shape.n
                == stored.spec_key().n;
            &&& t.cached(stored) == Some((prepared, if stored is Pool {
                Some(workers)
            } else {
                None
            }))
            &&& other != stored ==> t.cached(other) == s.cached(other)
            &&& own ==> t.workers.dom().contains(shape) && t.workers[shape] == workers
            &&& !own ==> t.workers.dom().contains(shape) == s.workers.dom().contains(shape)
            &&& !own && s.workers.dom().contains(shape) ==> t.workers[shape] == s.workers[shape]
            &&& t.calls == s.calls && t.saturated_calls == s.saturated_calls && t.saturated_outputs
                == s.saturated_outputs
        }),
        W4State::empty().cached(other) is None,
        W4State::empty().calls == 0 && W4State::empty().saturated_calls == 0
            && W4State::empty().saturated_outputs == 0,
{
}

/// A target names its own weight matrix, and the shape of that matrix is what
/// workers are remembered under.
pub proof fn law_four_bit_targets_name_their_matrix(key: DecodeWeightKey, size: usize, h: bool)
    ensures
        W4Target::Plain(key).spec_key() == key,
        W4Target::Grouped(GroupedW4Key { key, group_size: size, hadamard: h }).spec_key() == key,
        W4Target::Pool(PoolW4Key { key, hadamard: h }).spec_key() == key,
        w4_shape(W4Target::Pool(PoolW4Key { key, hadamard: h })) == (ShapeKey {
            k: key.k,
            n: key.n,
        }),
{
}

/// An executed call is one call more; it counts as saturated exactly where an
/// output was, and all such outputs are counted.
pub proof fn law_saturated_outputs_are_counted(s: W4State, saturated: usize)
    requires
        s.calls < usize::MAX,
        s.saturated_calls < usize::MAX,
        s.saturated_outputs + saturated <= usize::MAX,
    ensures
        s.after_call(saturated).calls - s.calls == 1,
        s.after_call(saturated).saturated_calls - s.saturated_calls == (if saturated > 0 {
            1int
        } else {
            0
        }),
        s.after_call(saturated).saturated_outputs - s.saturated_outputs == saturated,
        s.after_call(saturated).plain == s.plain && s.after_call(saturated).grouped == s.grouped
            && s.after_call(saturated).pool == s.pool && s.after_call(saturated).workers
            == s.workers,
{
}

/// Weights that are not resident are made on the host and prepared: on one core as
/// they are, in the pool with the workers that are known for the shape, and after
/// a trial where none are.
pub proof fn law_four_bit_weights_are_prepared(
    s: W4State,
    c: DecodeCounters,
    target: W4Target,
    scales: usize,
)
    requires
        w4_weights_fit(target, scales),
    ensures
        ({
            let next = w4_next(
                s,
                c,
                target,
                W4Stage::Weights,
                W4Event::Weights { scales: Some(scales) },
            );
            let shape = ShapeKey { k: target.spec_key().k, n: target.spec_key().n };
            &&& next.state == s && next.counters == c
            &&& !(target is Pool) ==> next.stage == (W4Stage::Prepare { workers: None })
            &&& target is Pool && s.workers.dom().contains(shape) ==> next.stage
                == (W4Stage::Prepare { workers: Some(s.workers[shape]) })
            &&& target is Pool && !s.workers.dom().contains(shape) ==> next.stage is Tune
        }),
{
}

/// Prepared weights are kept and run at once, and one miss is counted; a trial's
/// winner is kept with the workers that won.
pub proof fn law_prepared_four_bit_weights_are_kept(
    s: W4State,
    c: DecodeCounters,
    target: W4Target,
    prepared: Resident,
    workers: usize,
)
    requires
        c.misses < usize::MAX,
    ensures
        ({
            let next = w4_next(
                s,
                c,
                target,
                W4Stage::Tune,
                W4Event::Tuned { winner: Some((workers, prepared)) },
            );
            let known = w4_next(
                s,
                c,
                target,
                W4Stage::Prepare { workers: Some(workers) },
                W4Event::Prepared { resident: Some(prepared) },
            );
            &&& next == known
            &&& next.stage == (W4Stage::Execute { prepared, workers: Some(workers), hit: false })
            &&& next.state == s.with_cached(target, prepared, workers)
            &&& next.counters.misses == c.misses + 1 && next.counters.hits == c.hits
        }),
        ({
            let next = w4_next(
                s,
                c,
                target,
                W4Stage::Prepare { workers: None },
                W4Event::Prepared { resident: Some(prepared) },
            );
            &&& next.stage == (W4Stage::Execute { prepared, workers: None, hit: false })
            &&& (next.state.cached(target) matches Some(kept) && kept.0 == prepared)
            &&& next.state == s.with_cached(target, prepared, 1)
        }),
{
}

/// A finished call is counted under the workers it ran on, if it ran in the pool,
/// and its time is booked on hits or misses.
pub proof fn law_finished_four_bit_rows_are_counted(
    s: W4State,
    c: DecodeCounters,
    target: W4Target,
    prepared: Resident,
    workers: Option<usize>,
    hit: bool,
    report: W4Report,
)
    requires
        w4_values_fit(target, report.values),
    ensures
        ({
            let next = w4_next(
                s,
                c,
                target,
                W4Stage::Execute { prepared, workers, hit },
                W4Event::Executed { report: Some(report) },
            );
            &&& next.stage == (W4Stage::Done { status: STATUS_OK })
            &&& next.state == s.after_call(report.saturated_outputs)
            &&& workers is None ==> next.counters == c.after_elapsed(hit, report.elapsed_ns)
            &&& workers is Some ==> next.counters == c.after_worker_call(
                workers->0,
            ).after_elapsed(hit, report.elapsed_ns)
        }),
{
}

/// A step that fails ends the call: activations and weights that are missing or
/// have the wrong number of scales are refused; a failed preparation, trial or
/// run, and a result of the wrong length, is an execution error.
pub proof fn law_failed_four_bit_rows_tell_why(
    s: W4State,
    c: DecodeCounters,
    target: W4Target,
    scales: usize,
    out_len: usize,
    workers: Option<usize>,
    prepared: Resident,
    hit: bool,
    report: W4Report,
)
    ensures
        w4_next(s, c, target, W4Stage::Quantize { out_len }, W4Event::Quantized { scales: None })
            == w4_done(s, c, STATUS_INVALID_ARGUMENT),
        !w4_activations_fit(target, scales, out_len) ==> w4_next(
            s,
            c,
            target,
            W4Stage::Quantize { out_len },
            W4Event::Quantized { scales: Some(scales) },
        ) == w4_done(s, c, STATUS_INVALID_ARGUMENT),
        w4_next(s, c, target, W4Stage::Weights, W4Event::Weights { scales: None }) == w4_done(
            s,
            c,
            STATUS_INVALID_ARGUMENT,
        ),
        !w4_weights_fit(target, scales) ==> w4_next(
            s,
            c,
            target,
            W4Stage::Weights,
            W4Event::Weights { scales: Some(scales) },
        ) == w4_done(s, c, STATUS_INVALID_ARGUMENT),
        w4_next(s, c, target, W4Stage::Prepare { workers }, W4Event::Prepared { resident: None })
            == w4_done(s, c, STATUS_EXECUTION_ERROR),
        w4_next(s, c, target, W4Stage::Tune, W4Event::Tuned { winner: None }) == w4_done(
            s,
            c,
            STATUS_EXECUTION_ERROR,
        ),
        w4_next(
            s,
            c,
            target,
            W4Stage::Execute { prepared, workers, hit },
            W4Event::Executed { report: None },
        ) == w4_done(s, c, STATUS_EXECUTION_ERROR),
        !w4_values_fit(target, report.values) ==> w4_next(
            s,
            c,
            target,
            W4Stage::Execute { prepared, workers, hit },
            W4Event::Executed { report: Some(report) },
        ) == w4_done(s, c, STATUS_EXECUTION_ERROR),
        w4_done(s, c, STATUS_OK).stage == (W4Stage::Done { status: STATUS_OK }),
        w4_done(s, c, STATUS_EXECUTION_ERROR).stage == (W4Stage::Done {
            status: STATUS_EXECUTION_ERROR,
        }),
        w4_done(s, c, STATUS_OK).state == s && w4_done(s, c, STATUS_OK).counters == c,
{
}

} // verus!
