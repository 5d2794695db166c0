//! Time accounts of the decode, prompt-tile and prefill paths.
//!
//! Every account saturates.

use crate::arith::{sat_u128, sat_usize};
use crate::keys::{DecodeChoice, Int8DecodeSplit};
use crate::table::{keys_distinct, Table, TableKey};
use vstd::prelude::*;

verus! {

/// What one core spent in each stage of one execution.
#[derive(Clone, Copy, Debug, PartialEq, Eq, Structural)]
pub struct WorkerStageNs {
    pub alloc_ns: u128,
    pub input_stage_ns: u128,
    pub partial_stage_ns: u128,
    pub regcmd_stage_ns: u128,
    pub output_fini_ns: u128,
    pub submit_ns: u128,
    pub wait_ns: u128,
    pub host_accum_ns: u128,
}

/// Stage by stage sum of two accounts.
pub open spec fn stage_sum(a: WorkerStageNs, b: WorkerStageNs) -> WorkerStageNs {
    WorkerStageNs {
        alloc_ns: sat_u128(a.alloc_ns + b.alloc_ns),
        input_stage_ns: sat_u128(a.input_stage_ns + b.input_stage_ns),
        partial_stage_ns: sat_u128(a.partial_stage_ns + b.partial_stage_ns),
        regcmd_stage_ns: sat_u128(a.regcmd_stage_ns + b.regcmd_stage_ns),
        output_fini_ns: sat_u128(a.output_fini_ns + b.output_fini_ns),
        submit_ns: sat_u128(a.submit_ns + b.submit_ns),
        wait_ns: sat_u128(a.wait_ns + b.wait_ns),
        host_accum_ns: sat_u128(a.host_accum_ns + b.host_accum_ns),
    }
}

/// The account after all the cores' stages were added to it.
pub open spec fn stages_after(start: WorkerStageNs, workers: Seq<WorkerStageNs>) -> WorkerStageNs
    decreases workers.len(),
{
    if workers.len() == 0 {
        start
    } else {
        stage_sum(stages_after(start, workers.drop_last()), workers.last())
    }
}

/// An account with nothing on it.
pub open spec fn no_stages() -> WorkerStageNs {
    WorkerStageNs {
        alloc_ns: 0,
        input_stage_ns: 0,
        partial_stage_ns: 0,
        regcmd_stage_ns: 0,
        output_fini_ns: 0,
        submit_ns: 0,
        wait_ns: 0,
        host_accum_ns: 0,
    }
}

impl WorkerStageNs {
    /// An account with nothing on it.
    pub fn none() -> (r: Self)
        ensures
            r == no_stages(),
    {
        WorkerStageNs {
            alloc_ns: 0,
            input_stage_ns: 0,
            partial_stage_ns: 0,
            regcmd_stage_ns: 0,
            output_fini_ns: 0,
            submit_ns: 0,
            wait_ns: 0,
            host_accum_ns: 0,
        }
    }

    /// Adds every core's stages to this account.
    pub fn with_workers(self, workers: &Vec<WorkerStageNs>) -> (r: WorkerStageNs)
        ensures
            r == stages_after(self, workers@),
    {
        let mut acc = self;
        let mut i: usize = 0;
        assert(workers@.take(0) =~= Seq::<WorkerStageNs>::empty());
        while i < workers.len()
            invariant
                i <= workers@.len(),
                acc == stages_after(self, workers@.take(i as int)),
            decreases workers@.len() - i,
        {
            let w = workers[i];
            proof {
                assert(workers@.take(i + 1).drop_last() =~= workers@.take(i as int));
                assert(workers@.take(i + 1).last() == w);
            }
            acc = WorkerStageNs {
                alloc_ns: acc.alloc_ns.saturating_add(w.alloc_ns),
                input_stage_ns: acc.input_stage_ns.saturating_add(w.input_stage_ns),
                partial_stage_ns: acc.partial_stage_ns.saturating_add(w.partial_stage_ns),
                regcmd_stage_ns: acc.regcmd_stage_ns.saturating_add(w.regcmd_stage_ns),
                output_fini_ns: acc.output_fini_ns.saturating_add(w.output_fini_ns),
                submit_ns: acc.submit_ns.saturating_add(w.submit_ns),
                wait_ns: acc.wait_ns.saturating_add(w.wait_ns),
                host_accum_ns: acc.host_accum_ns.saturating_add(w.host_accum_ns),
            };
            i = i + 1;
        }
        assert(workers@.take(workers@.len() as int) =~= workers@);
        acc
    }
}

/// What one pool execution reported.
pub struct PoolStats {
    pub npu_tasks: usize,
    pub wall_ns: u128,
    pub workers: Vec<WorkerStageNs>,
}

/// How many projections a single-row call ran at once.
#[derive(Clone, Copy, Debug, PartialEq, Eq, Hash, Structural)]
pub enum M1ProfileKind {
    Single,
    Pair,
    Triple,
}

impl M1ProfileKind {
    /// Position in reports: single, pair, triple.
    pub open spec fn rank(self) -> int {
        match self {
            M1ProfileKind::Single => 0,
            M1ProfileKind::Pair => 1,
            M1ProfileKind::Triple => 2,
        }
    }

    /// Position in reports: single, pair, triple.
    fn ordinal(self) -> (r: u8)
        ensures
            r == self.rank(),
    {
        match self {
            M1ProfileKind::Single => 0,
            M1ProfileKind::Pair => 1,
            M1ProfileKind::Triple => 2,
        }
    }

    /// The name used in reports.
    pub fn as_str(self) -> (r: &'static str)
        ensures
            r@ == (match self {
                M1ProfileKind::Single => "single"@,
                M1ProfileKind::Pair => "pair"@,
                M1ProfileKind::Triple => "triple"@,
            }),
    {
        match self {
            M1ProfileKind::Single => "single",
            M1ProfileKind::Pair => "pair",
            M1ProfileKind::Triple => "triple",
        }
    }
}

/// The account that a call is booked on.
#[derive(Clone, Copy, Debug, PartialEq, Eq, Hash, Structural)]
pub struct M1ProfileKey {
    pub kind: M1ProfileKind,
    pub k: usize,
    pub n: usize,
}

impl View for M1ProfileKey {
    type V = M1ProfileKey;

    open spec fn view(&self) -> M1ProfileKey {
        *self
    }
}

impl TableKey for M1ProfileKey {
    fn same(&self, other: &Self) -> (r: bool) {
        *self == *other
    }
}

/// Order of report lines: by kind, then K, then N.
pub open spec fn key_before_or_same(a: M1ProfileKey, b: M1ProfileKey) -> bool {
    ||| a.kind.rank() < b.kind.rank()
    ||| a.kind.rank() == b.kind.rank() && a.k < b.k
    ||| a.kind.rank() == b.kind.rank() && a.k == b.k && a.n <= b.n
}

impl M1ProfileKey {
    fn not_after(&self, other: &M1ProfileKey) -> (r: bool)
        ensures
            r == key_before_or_same(*self, *other),
    {
        let a: u8 = self.kind.ordinal();
        let b: u8 = other.kind.ordinal();
        a < b || (a == b && (self.k < other.k || (self.k == other.k && self.n <= other.n)))
    }
}

/// The account of one single-row shape.
#[derive(Clone, Copy, Debug, PartialEq, Eq, Structural)]
pub struct M1ShapeProfile {
    pub calls: usize,
    pub npu_tasks: usize,
    pub worker1_calls: usize,
    pub worker2_calls: usize,
    pub worker3_calls: usize,
    pub ksplit_calls: usize,
    pub quant_ns: u128,
    pub execute_wall_ns: u128,
    pub stages: WorkerStageNs,
    pub rescale_ns: u128,
    pub total_ns: u128,
}

/// The account before any call.
pub open spec fn empty_shape_profile() -> M1ShapeProfile {
    M1ShapeProfile {
        calls: 0,
        npu_tasks: 0,
        worker1_calls: 0,
        worker2_calls: 0,
        worker3_calls: 0,
        ksplit_calls: 0,
        quant_ns: 0,
        execute_wall_ns: 0,
        stages: no_stages(),
        rescale_ns: 0,
        total_ns: 0,
    }
}

/// Which of the three per-core counters a worker count falls on, if any.
///
/// A count of zero is booked with the single-core calls.
pub open spec fn worker_slot(workers: usize) -> Option<int> {
    let slot = if workers == 0 {
        0
    } else {
        workers - 1
    };
    if slot < 3 {
        Some(slot)
    } else {
        None
    }
}

/// One more call on a per-core counter if the slot is its own.
pub open spec fn bumped(count: usize, hit: bool) -> usize {
    if hit {
        sat_usize(count + 1)
    } else {
        count
    }
}

/// What one call reports.
pub struct M1CallTimes {
    pub quant_ns: u128,
    pub rescale_ns: u128,
    pub total_ns: u128,
}

/// The account after one more call.
pub open spec fn shape_profile_after(
    p: M1ShapeProfile,
    choice: DecodeChoice,
    stats: PoolStats,
    times: M1CallTimes,
) -> M1ShapeProfile {
    M1ShapeProfile {
        calls: sat_usize(p.calls + 1),
        npu_tasks: sat_usize(p.npu_tasks + stats.npu_tasks),
        worker1_calls: bumped(p.worker1_calls, worker_slot(choice.workers) == Some(0int)),
        worker2_calls: bumped(p.worker2_calls, worker_slot(choice.workers) == Some(1int)),
        worker3_calls: bumped(p.worker3_calls, worker_slot(choice.workers) == Some(2int)),
        ksplit_calls: bumped(p.ksplit_calls, choice.split == Int8DecodeSplit::K),
        quant_ns: sat_u128(p.quant_ns + times.quant_ns),
        execute_wall_ns: sat_u128(p.execute_wall_ns + stats.wall_ns),
        stages: stages_after(p.stages, stats.workers@),
        rescale_ns: sat_u128(p.rescale_ns + times.rescale_ns),
        total_ns: sat_u128(p.total_ns + times.total_ns),
    }
}

/// One line of the single-row report.
#[derive(Clone, Copy, Debug, PartialEq, Eq, Structural)]
pub struct M1ReportLine {
    pub key: M1ProfileKey,
    pub shape: M1ShapeProfile,
    pub other_ns: u128,
}

/// What is left of the total once quantizing, executing and rescaling are taken out.
pub open spec fn other_ns(shape: M1ShapeProfile) -> u128 {
    let accounted = sat_u128(shape.quant_ns + shape.execute_wall_ns + shape.rescale_ns);
    if shape.total_ns > accounted {
        (shape.total_ns - accounted) as u128
    } else {
        0
    }
}

/// Accounts of the single-row path, one per kind and shape.
pub struct M1Profile {
    pub shapes: Table<M1ProfileKey, M1ShapeProfile>,
}

/// The account under a key, empty if there is none yet.
pub open spec fn shape_or_empty(
    m: Map<M1ProfileKey, M1ShapeProfile>,
    key: M1ProfileKey,
) -> M1ShapeProfile {
    if m.dom().contains(key) {
        m[key]
    } else {
        empty_shape_profile()
    }
}

/// One line per account, ordered by kind, then K, then N.
pub open spec fn is_m1_report(
    shapes: Map<M1ProfileKey, M1ShapeProfile>,
    lines: Seq<M1ReportLine>,
) -> bool {
    &&& lines.len() == shapes.dom().len()
    &&& forall|i: int|
        0 <= i < lines.len() ==> {
            &&& shapes.dom().contains((#[trigger] lines[i]).key)
            &&& shapes[lines[i].key] == lines[i].shape
            &&& lines[i].other_ns == other_ns(lines[i].shape)
        }
    &&& forall|i: int, j: int|
        #![trigger lines[i], lines[j]]
        0 <= i < j < lines.len() ==> key_before_or_same(lines[i].key, lines[j].key)
            && lines[i].key != lines[j].key
}

impl M1Profile {
    /// Each shape has one account.
    pub open spec fn wf(&self) -> bool {
        self.shapes.wf()
    }

    /// No accounts yet.
    pub fn new() -> (p: Self)
        ensures
            p.wf(),
            p.shapes@ == Map::<M1ProfileKey, M1ShapeProfile>::empty(),
    {
        M1Profile { shapes: Table::new() }
    }

    /// Books one call.
    pub fn record(
        &mut self,
        key: M1ProfileKey,
        choice: DecodeChoice,
        stats: &PoolStats,
        times: &M1CallTimes,
    )
        requires
            old(self).wf(),
        ensures
            final(self).wf(),
            final(self).shapes@ == old(self).shapes@.insert(
                key,
                shape_profile_after(
                    shape_or_empty(old(self).shapes@, key),
                    choice,
                    *stats,
                    *times,
                ),
            ),
    {
        let p = match self.shapes.get(&key) {
            Some(p) => *p,
            None => M1ShapeProfile {
                calls: 0,
                npu_tasks: 0,
                worker1_calls: 0,
                worker2_calls: 0,
                worker3_calls: 0,
                ksplit_calls: 0,
                quant_ns: 0,
                execute_wall_ns: 0,
                stages: WorkerStageNs::none(),
                rescale_ns: 0,
                total_ns: 0,
            },
        };
        let next = M1ShapeProfile {
            calls: p.calls.saturating_add(1),
            npu_tasks: p.npu_tasks.saturating_add(stats.npu_tasks),
            worker1_calls: if choice.workers <= 1 {
                p.worker1_calls.saturating_add(1)
            } else {
                p.worker1_calls
            },
            worker2_calls: if choice.workers == 2 {
                p.worker2_calls.saturating_add(1)
            } else {
                p.worker2_calls
            },
            worker3_calls: if choice.workers == 3 {
                p.worker3_calls.saturating_add(1)
            } else {
                p.worker3_calls
            },
            ksplit_calls: if choice.split == Int8DecodeSplit::K {
                p.ksplit_calls.saturating_add(1)
            } else {
                p.ksplit_calls
            },
            quant_ns: p.quant_ns.saturating_add(times.quant_ns),
            execute_wall_ns: p.execute_wall_ns.saturating_add(stats.wall_ns),
            stages: p.stages.with_workers(&stats.workers),
            rescale_ns: p.rescale_ns.saturating_add(times.rescale_ns),
            total_ns: p.total_ns.saturating_add(times.total_ns),
        };
        self.shapes.insert(key, next);
    }

    /// One line per account, ordered by kind, then K, then N.
    pub fn report(&self) -> (lines: Vec<M1ReportLine>)
        requires
            self.wf(),
        ensures
            is_m1_report(self.shapes@, lines@),
    {
        let total: usize = self.shapes.len();
        let mut lines: Vec<M1ReportLine> = Vec::new();
        let mut i: usize = 0;
        while i < total
            invariant
                self.wf(),
                total == self.shapes.rows().len(),
                total == self.shapes@.dom().len(),
                i <= total,
                lines@.len() == i,
                forall|a: int|
                    0 <= a < lines@.len() ==> exists|r: int|
                        0 <= r < i && self.shapes.rows()[r] == ((#[trigger] lines@[a]).key, lines@[a].shape),
                forall|a: int|
                    0 <= a < lines@.len() ==> (#[trigger] lines@[a]).other_ns == other_ns(
                        lines@[a].shape,
                    ),
                forall|a: int, b: int|
                    #![trigger lines@[a], lines@[b]]
                    0 <= a < b < lines@.len() ==> key_before_or_same(lines@[a].key, lines@[b].key)
                        && lines@[a].key != lines@[b].key,
            decreases total - i,
        {
            let row = self.shapes.row(i);
            let key = row.0;
            let shape = row.1;
            let accounted: u128 = shape.quant_ns.saturating_add(
                shape.execute_wall_ns,
            ).saturating_add(shape.rescale_ns);
            let line = M1ReportLine {
                key,
                shape,
                other_ns: shape.total_ns.saturating_sub(accounted),
            };
            let ghost before = lines@;
            proof {
                assert forall|a: int| 0 <= a < before.len() implies (#[trigger] before[a]).key
                    != key by {
                    let r = choose|r: int|
                        0 <= r < i && self.shapes.rows()[r] == (before[a].key, before[a].shape);
                    assert(keys_distinct(self.shapes.rows()));
                    if before[a].key == key {
                        assert(self.shapes.rows()[r].0 == self.shapes.rows()[i as int].0);
                    }
                }
            }
            let mut at: usize = 0;
            while at < lines.len() && lines[at].key.not_after(&key)
                invariant
                    lines@ == before,
                    at <= lines@.len(),
                    forall|a: int|
                        0 <= a < at ==> key_before_or_same((#[trigger] before[a]).key, key),
                decreases lines@.len() - at,
            {
                at = at + 1;
            }
            lines.insert(at, line);
            let ghost after = lines@;
            proof {
                assert(after =~= before.insert(at as int, line));
                assert forall|a: int| 0 <= a < after.len() implies exists|r: int|
                    0 <= r < i + 1 && self.shapes.rows()[r] == ((#[trigger] after[a]).key, after[a].shape) by {
                    if a == at {
                        assert(self.shapes.rows()[i as int] == (after[a].key, after[a].shape));
                    } else {
                        let b = if a < at { a } else { a - 1 };
                        assert(after[a] == before[b]);
                        let r = choose|r: int|
                            0 <= r < i && self.shapes.rows()[r] == (before[b].key, before[b].shape);
                        assert(self.shapes.rows()[r] == (after[a].key, after[a].shape));
                    }
                }
                assert forall|a: int, b: int|
                    #![trigger after[a], after[b]]
                    0 <= a < b < after.len() implies key_before_or_same(after[a].key, after[b].key)
                    && after[a].key != after[b].key by {
                    let a0 = if a < at { a } else { a - 1 };
                    let b0 = if b < at { b } else { b - 1 };
                    if a != at {
                        assert(after[a] == before[a0]);
                    }
                    if b != at {
                        assert(after[b] == before[b0]);
                    }
                    if a == at {
                        assert(!key_before_or_same(before[at as int].key, key));
                        assert(key_before_or_same(key, before[at as int].key));
                        if b0 > at {
                            assert(key_before_or_same(before[at as int].key, before[b0].key));
                        }
                    }
                }
                assert forall|a: int| 0 <= a < after.len() implies (#[trigger] after[a]).other_ns
                    == other_ns(after[a].shape) by {
                    if a != at {
                        let b = if a < at { a } else { a - 1 };
                        assert(after[a] == before[b]);
                    }
                }
            }
            i = i + 1;
        }
        proof {
            assert forall|a: int| 0 <= a < lines@.len() implies {
                &&& self.shapes@.dom().contains((#[trigger] lines@[a]).key)
                &&& self.shapes@[lines@[a].key] == lines@[a].shape
            } by {
                let r = choose|r: int|
                    0 <= r < i && self.shapes.rows()[r] == (lines@[a].key, lines@[a].shape);
                crate::table::lemma_rows_lookup(self.shapes.rows(), r);
            }
        }
        lines
    }
}

/// The account of the prompt-tile path.
#[derive(Clone, Copy, Debug, PartialEq, Eq, Structural)]
pub struct MtileProfile {
    pub calls: usize,
    pub ksplit_calls: usize,
    pub cache_hits: usize,
    pub cache_misses: usize,
    pub weight_prepare_ns: u128,
    pub weight_pack_ns: u128,
    pub quant_ns: u128,
    pub stages: WorkerStageNs,
    pub execute_total_ns: u128,
    pub rescale_ns: u128,
}

/// What one tile execution reported.
pub struct MtileReport {
    pub total_ns: u128,
    pub k_slices: usize,
    pub workers: Vec<WorkerStageNs>,
    pub rescale_ns: u128,
}

impl MtileProfile {
    /// An account with nothing on it.
    pub open spec fn empty() -> Self {
        MtileProfile {
            calls: 0,
            ksplit_calls: 0,
            cache_hits: 0,
            cache_misses: 0,
            weight_prepare_ns: 0,
            weight_pack_ns: 0,
            quant_ns: 0,
            stages: no_stages(),
            execute_total_ns: 0,
            rescale_ns: 0,
        }
    }

    /// An account with nothing on it.
    pub fn new() -> (p: Self)
        ensures
            p == Self::empty(),
    {
        MtileProfile {
            calls: 0,
            ksplit_calls: 0,
            cache_hits: 0,
            cache_misses: 0,
            weight_prepare_ns: 0,
            weight_pack_ns: 0,
            quant_ns: 0,
            stages: WorkerStageNs::none(),
            execute_total_ns: 0,
            rescale_ns: 0,
        }
    }

    /// With one quantization booked.
    pub open spec fn after_quant(self, ns: u128) -> Self {
        MtileProfile { quant_ns: sat_u128(self.quant_ns + ns), ..self }
    }

    /// With lookups booked that found their weights resident.
    pub open spec fn after_hit(self, weights: usize) -> Self {
        MtileProfile { cache_hits: sat_usize(self.cache_hits + weights), ..self }
    }

    /// With lookups booked that had to make their weights resident.
    pub open spec fn after_miss(self, weights: usize, prepare_ns: u128, pack_ns: u128) -> Self {
        MtileProfile {
            cache_misses: sat_usize(self.cache_misses + weights),
            weight_prepare_ns: sat_u128(self.weight_prepare_ns + prepare_ns),
            weight_pack_ns: sat_u128(self.weight_pack_ns + pack_ns),
            ..self
        }
    }

    /// With one execution booked. Only single-core runs are looked at for K slices.
    pub open spec fn after_run(self, weights: usize, single_core: bool, report: MtileReport) -> Self {
        MtileProfile {
            calls: sat_usize(self.calls + weights),
            ksplit_calls: bumped(self.ksplit_calls, single_core && report.k_slices > 1),
            stages: stages_after(self.stages, report.workers@),
            execute_total_ns: sat_u128(self.execute_total_ns + report.total_ns),
            rescale_ns: sat_u128(self.rescale_ns + report.rescale_ns),
            ..self
        }
    }

    /// Books one quantization.
    pub fn count_quant(&mut self, ns: u128)
        ensures
            *final(self) == old(self).after_quant(ns),
    {
        self.quant_ns = self.quant_ns.saturating_add(ns);
    }

    /// Books lookups that found their weights resident.
    pub fn count_hit(&mut self, weights: usize)
        ensures
            *final(self) == old(self).after_hit(weights),
    {
        self.cache_hits = self.cache_hits.saturating_add(weights);
    }

    /// Books lookups that had to make their weights resident.
    pub fn count_miss(&mut self, weights: usize, prepare_ns: u128, pack_ns: u128)
        ensures
            *final(self) == old(self).after_miss(weights, prepare_ns, pack_ns),
    {
        self.cache_misses = self.cache_misses.saturating_add(weights);
        self.weight_prepare_ns = self.weight_prepare_ns.saturating_add(prepare_ns);
        self.weight_pack_ns = self.weight_pack_ns.saturating_add(pack_ns);
    }

    /// Books one execution.
    pub fn count_run(&mut self, weights: usize, single_core: bool, report: &MtileReport)
        ensures
            *final(self) == old(self).after_run(weights, single_core, *report),
    {
        self.calls = self.calls.saturating_add(weights);
        if single_core && report.k_slices > 1 {
            self.ksplit_calls = self.ksplit_calls.saturating_add(1);
        }
        self.stages = self.stages.with_workers(&report.workers);
        self.execute_total_ns = self.execute_total_ns.saturating_add(report.total_ns);
        self.rescale_ns = self.rescale_ns.saturating_add(report.rescale_ns);
    }
}

/// What making prefill weights resident reported: wall time, the slowest
/// worker's time in each phase, and the packing time of all workers together.
#[derive(Clone, Copy, Debug, PartialEq, Eq, Structural)]
pub struct PrefillPrepareStats {
    pub resident_bytes: usize,
    pub prepare_wall_ns: u128,
    pub worker_total_ns_max: u128,
    pub plan_ns_max: u128,
    pub layout_ns_max: u128,
    pub alloc_mmap_ns_max: u128,
    pub prep_ns_max: u128,
    pub zero_ns_max: u128,
    pub tile_pack_ns_max: u128,
    pub fini_ns_max: u128,
    pub pack_ns_max: u128,
    pub pack_ns_sum: u128,
}

/// The account of the prefill path.
#[derive(Clone, Copy, Debug, PartialEq, Eq, Structural)]
pub struct PrefillProfile {
    pub cache_hits: usize,
    pub cache_misses: usize,
    pub resident_bytes: usize,
    pub pool_create_ns: u128,
    pub dequant_ns: u128,
    pub host_to_arc_ns: u128,
    pub prepare_call_ns: u128,
    pub prepare_pool_wall_ns: u128,
    pub prepare_worker_critical_ns: u128,
    pub plan_critical_ns: u128,
    pub layout_critical_ns: u128,
    pub alloc_mmap_critical_ns: u128,
    pub prep_critical_ns: u128,
    pub zero_critical_ns: u128,
    pub tile_pack_critical_ns: u128,
    pub fini_critical_ns: u128,
    pub pack_critical_ns: u128,
    pub pack_worker_sum_ns: u128,
    pub activation_convert_ns: u128,
    pub execute_ns: u128,
    pub output_copy_ns: u128,
}

impl PrefillProfile {
    /// An account with nothing on it.
    pub open spec fn empty() -> Self {
        PrefillProfile {
            cache_hits: 0,
            cache_misses: 0,
            resident_bytes: 0,
            pool_create_ns: 0,
            dequant_ns: 0,
            host_to_arc_ns: 0,
            prepare_call_ns: 0,
            prepare_pool_wall_ns: 0,
            prepare_worker_critical_ns: 0,
            plan_critical_ns: 0,
            layout_critical_ns: 0,
            alloc_mmap_critical_ns: 0,
            prep_critical_ns: 0,
            zero_critical_ns: 0,
            tile_pack_critical_ns: 0,
            fini_critical_ns: 0,
            pack_critical_ns: 0,
            pack_worker_sum_ns: 0,
            activation_convert_ns: 0,
            execute_ns: 0,
            output_copy_ns: 0,
        }
    }

    /// An account with nothing on it.
    pub fn new() -> (p: Self)
        ensures
            p == Self::empty(),
    {
        PrefillProfile {
            cache_hits: 0,
            cache_misses: 0,
            resident_bytes: 0,
            pool_create_ns: 0,
            dequant_ns: 0,
            host_to_arc_ns: 0,
            prepare_call_ns: 0,
            prepare_pool_wall_ns: 0,
            prepare_worker_critical_ns: 0,
            plan_critical_ns: 0,
            layout_critical_ns: 0,
            alloc_mmap_critical_ns: 0,
            prep_critical_ns: 0,
            zero_critical_ns: 0,
            tile_pack_critical_ns: 0,
            fini_critical_ns: 0,
            pack_critical_ns: 0,
            pack_worker_sum_ns: 0,
            activation_convert_ns: 0,
            execute_ns: 0,
            output_copy_ns: 0,
        }
    }

    /// With a lookup booked that found its layout resident.
    pub open spec fn after_hit(self) -> Self {
        PrefillProfile { cache_hits: sat_usize(self.cache_hits + 1), ..self }
    }

    /// With a lookup booked that did not.
    pub open spec fn after_miss(self) -> Self {
        PrefillProfile { cache_misses: sat_usize(self.cache_misses + 1), ..self }
    }

    /// With a weight layout made resident.
    pub open spec fn after_prepare(self, call_ns: u128, stats: PrefillPrepareStats) -> Self {
        PrefillProfile {
            resident_bytes: sat_usize(self.resident_bytes + stats.resident_bytes),
            prepare_call_ns: sat_u128(self.prepare_call_ns + call_ns),
            prepare_pool_wall_ns: sat_u128(self.prepare_pool_wall_ns + stats.prepare_wall_ns),
            prepare_worker_critical_ns: sat_u128(self.prepare_worker_critical_ns + stats.worker_total_ns_max),
            plan_critical_ns: sat_u128(self.plan_critical_ns + stats.plan_ns_max),
            layout_critical_ns: sat_u128(self.layout_critical_ns + stats.layout_ns_max),
            alloc_mmap_critical_ns: sat_u128(self.alloc_mmap_critical_ns + stats.alloc_mmap_ns_max),
            prep_critical_ns: sat_u128(self.prep_critical_ns + stats.prep_ns_max),
            zero_critical_ns: sat_u128(self.zero_critical_ns + stats.zero_ns_max),
            tile_pack_critical_ns: sat_u128(self.tile_pack_critical_ns + stats.tile_pack_ns_max),
            fini_critical_ns: sat_u128(self.fini_critical_ns + stats.fini_ns_max),
            pack_critical_ns: sat_u128(self.pack_critical_ns + stats.pack_ns_max),
            pack_worker_sum_ns: sat_u128(self.pack_worker_sum_ns + stats.pack_ns_sum),
            ..self
        }
    }

    /// Books a lookup that found its layout resident.
    pub fn count_hit(&mut self)
        ensures
            *final(self) == old(self).after_hit(),
    {
        self.cache_hits = self.cache_hits.saturating_add(1);
    }

    /// Books a lookup that did not.
    pub fn count_miss(&mut self)
        ensures
            *final(self) == old(self).after_miss(),
    {
        self.cache_misses = self.cache_misses.saturating_add(1);
    }

    /// Books a weight layout made resident.
    pub fn count_prepare(&mut self, call_ns: u128, stats: &PrefillPrepareStats)
        ensures
            *final(self) == old(self).after_prepare(call_ns, *stats),
    {
        self.resident_bytes = self.resident_bytes.saturating_add(stats.resident_bytes);
        self.prepare_call_ns = self.prepare_call_ns.saturating_add(call_ns);
        self.prepare_pool_wall_ns = self.prepare_pool_wall_ns.saturating_add(stats.prepare_wall_ns);
        self.prepare_worker_critical_ns = self.prepare_worker_critical_ns.saturating_add(stats.worker_total_ns_max);
        self.plan_critical_ns = self.plan_critical_ns.saturating_add(stats.plan_ns_max);
        self.layout_critical_ns = self.layout_critical_ns.saturating_add(stats.layout_ns_max);
        self.alloc_mmap_critical_ns = self.alloc_mmap_critical_ns.saturating_add(stats.alloc_mmap_ns_max);
        self.prep_critical_ns = self.prep_critical_ns.saturating_add(stats.prep_ns_max);
        self.zero_critical_ns = self.zero_critical_ns.saturating_add(stats.zero_ns_max);
        self.tile_pack_critical_ns = self.tile_pack_critical_ns.saturating_add(stats.tile_pack_ns_max);
        self.fini_critical_ns = self.fini_critical_ns.saturating_add(stats.fini_ns_max);
        self.pack_critical_ns = self.pack_critical_ns.saturating_add(stats.pack_ns_max);
        self.pack_worker_sum_ns = self.pack_worker_sum_ns.saturating_add(stats.pack_ns_sum);
    }

    /// Time that the caller of the preparation waited beyond the pool's own wall time.
    pub fn prepare_call_overhead_ns(&self) -> (r: u128)
        ensures
            r == (if self.prepare_call_ns > self.prepare_pool_wall_ns {
                self.prepare_call_ns - self.prepare_pool_wall_ns
            } else {
                0
            }),
    {
        self.prepare_call_ns.saturating_sub(self.prepare_pool_wall_ns)
    }

    /// Pool wall time beyond its slowest worker.
    pub fn prepare_pool_residual_ns(&self) -> (r: u128)
        ensures
            r == (if self.prepare_pool_wall_ns > self.prepare_worker_critical_ns {
                self.prepare_pool_wall_ns - self.prepare_worker_critical_ns
            } else {
                0
            }),
    {
        self.prepare_pool_wall_ns.saturating_sub(self.prepare_worker_critical_ns)
    }
}

/// Two accounts are added stage by stage, as long as no sum is cut off.
pub proof fn law_stages_are_added_one_by_one(a: WorkerStageNs, b: WorkerStageNs)
    requires
        a.alloc_ns + b.alloc_ns <= u128::MAX,
        a.input_stage_ns + b.input_stage_ns <= u128::MAX,
        a.partial_stage_ns + b.partial_stage_ns <= u128::MAX,
        a.regcmd_stage_ns + b.regcmd_stage_ns <= u128::MAX,
        a.output_fini_ns + b.output_fini_ns <= u128::MAX,
        a.submit_ns + b.submit_ns <= u128::MAX,
        a.wait_ns + b.wait_ns <= u128::MAX,
        a.host_accum_ns + b.host_accum_ns <= u128::MAX,
    ensures
        stage_sum(a, b).alloc_ns - a.alloc_ns == b.alloc_ns,
        stage_sum(a, b).input_stage_ns - a.input_stage_ns == b.input_stage_ns,
        stage_sum(a, b).partial_stage_ns - a.partial_stage_ns == b.partial_stage_ns,
        stage_sum(a, b).regcmd_stage_ns - a.regcmd_stage_ns == b.regcmd_stage_ns,
        stage_sum(a, b).output_fini_ns - a.output_fini_ns == b.output_fini_ns,
        stage_sum(a, b).submit_ns - a.submit_ns == b.submit_ns,
        stage_sum(a, b).wait_ns - a.wait_ns == b.wait_ns,
        stage_sum(a, b).host_accum_ns - a.host_accum_ns == b.host_accum_ns,
        no_stages().alloc_ns == 0,
        no_stages().input_stage_ns == 0,
        no_stages().partial_stage_ns == 0,
        no_stages().regcmd_stage_ns == 0,
        no_stages().output_fini_ns == 0,
        no_stages().submit_ns == 0,
        no_stages().wait_ns == 0,
        no_stages().host_accum_ns == 0,
{
}

/// The cores' times are booked one after the other, each of them once.
pub proof fn law_every_core_is_booked(
    start: WorkerStageNs,
    before: Seq<WorkerStageNs>,
    last: WorkerStageNs,
)
    ensures
        stages_after(start, Seq::empty()) == start,
        stages_after(start, before.push(last)) == stage_sum(stages_after(start, before), last),
{
    assert(before.push(last).drop_last() =~= before);
}

/// A call on one, two or three cores counts on the counter of its own number of
/// cores and on no other; calls on more cores count on none.
pub proof fn law_worker_counters(workers: usize, count: usize, hit: bool)
    ensures
        worker_slot(workers) == Some(0int) <==> workers <= 1,
        worker_slot(workers) == Some(1int) <==> workers == 2,
        worker_slot(workers) == Some(2int) <==> workers == 3,
        worker_slot(workers) is None <==> workers > 3,
        !hit ==> bumped(count, hit) == count,
        hit && count < usize::MAX ==> bumped(count, hit) == count + 1,
        bumped(usize::MAX, hit) == usize::MAX,
{
}

/// A booked call is one call more, with its own tasks and times, on the counter of
/// its cores, and on that of K splits exactly where it shares K.
pub proof fn law_calls_are_booked_once(
    p: M1ShapeProfile,
    choice: DecodeChoice,
    stats: PoolStats,
    times: M1CallTimes,
)
    requires
        p.calls < usize::MAX,
        p.npu_tasks + stats.npu_tasks <= usize::MAX,
        p.worker1_calls < usize::MAX,
        p.worker2_calls < usize::MAX,
        p.worker3_calls < usize::MAX,
        p.ksplit_calls < usize::MAX,
        p.quant_ns + times.quant_ns <= u128::MAX,
        p.execute_wall_ns + stats.wall_ns <= u128::MAX,
        p.rescale_ns + times.rescale_ns <= u128::MAX,
        p.total_ns + times.total_ns <= u128::MAX,
    ensures
        ({
            let q = shape_profile_after(p, choice, stats, times);
            &&& q.calls - p.calls == 1
            &&& q.npu_tasks - p.npu_tasks == stats.npu_tasks
            &&& (q.worker1_calls - p.worker1_calls == 1) == (choice.workers <= 1)
            &&& (q.worker2_calls - p.worker2_calls == 1) == (choice.workers == 2)
            &&& (q.worker3_calls - p.worker3_calls == 1) == (choice.workers == 3)
            &&& choice.workers <= 3 ==> (q.worker1_calls + q.worker2_calls + q.worker3_calls) - (
            p.worker1_calls + p.worker2_calls + p.worker3_calls) == 1
            &&& choice.workers > 3 ==> q.worker1_calls == p.worker1_calls && q.worker2_calls
                == p.worker2_calls && q.worker3_calls == p.worker3_calls
            &&& q.ksplit_calls - p.ksplit_calls == (if choice.split == Int8DecodeSplit::K {
                1int
            } else {
                0
            })
            &&& q.quant_ns - p.quant_ns == times.quant_ns
            &&& q.execute_wall_ns - p.execute_wall_ns == stats.wall_ns
            &&& q.rescale_ns - p.rescale_ns == times.rescale_ns
            &&& q.total_ns - p.total_ns == times.total_ns
            &&& q.stages == stages_after(p.stages, stats.workers@)
        }),
        empty_shape_profile().calls == 0 && empty_shape_profile().total_ns == 0,
        empty_shape_profile().stages == no_stages(),
{
}

/// Quantizing, executing, rescaling and the rest make up the whole time of a
/// shape, unless the parts are longer than the whole.
pub proof fn law_parts_of_the_time_make_up_the_whole(shape: M1ShapeProfile)
    ensures
        shape.quant_ns + shape.execute_wall_ns + shape.rescale_ns <= shape.total_ns
            ==> shape.quant_ns + shape.execute_wall_ns + shape.rescale_ns + other_ns(shape)
            == shape.total_ns,
        shape.quant_ns + shape.execute_wall_ns + shape.rescale_ns >= shape.total_ns ==> other_ns(
            shape,
        ) == 0,
{
}

/// Report lines are ordered like the words of a list: by kind from single to
/// triple, then by K, then by N, and any two accounts have an order.
pub proof fn law_report_lines_have_one_order(a: M1ProfileKey, b: M1ProfileKey, c: M1ProfileKey)
    ensures
        key_before_or_same(a, b) || key_before_or_same(b, a),
        key_before_or_same(a, b) && key_before_or_same(b, a) ==> a == b,
        key_before_or_same(a, b) && key_before_or_same(b, c) ==> key_before_or_same(a, c),
        a.kind == M1ProfileKind::Single && b.kind != M1ProfileKind::Single ==> !key_before_or_same(
            b,
            a,
        ),
        a.kind == M1ProfileKind::Pair && b.kind == M1ProfileKind::Triple ==> !key_before_or_same(
            b,
            a,
        ),
        a.kind == b.kind && a.k < b.k ==> !key_before_or_same(b, a),
        a.kind == b.kind && a.k == b.k && a.n < b.n ==> !key_before_or_same(b, a),
{
}

/// What a tile call books changes its own lines of the account and no others:
/// quantizing, lookups that hit, lookups that miss, and runs.
pub proof fn law_tile_accounts_grow_by_what_happened(
    p: MtileProfile,
    ns: u128,
    pack: u128,
    weights: usize,
    one_core: bool,
    report: MtileReport,
)
    requires
        p.calls + weights <= usize::MAX,
        p.ksplit_calls < usize::MAX,
        p.cache_hits + weights <= usize::MAX,
        p.cache_misses + weights <= usize::MAX,
        p.quant_ns + ns <= u128::MAX,
        p.weight_prepare_ns + ns <= u128::MAX,
        p.weight_pack_ns + pack <= u128::MAX,
        p.execute_total_ns + report.total_ns <= u128::MAX,
        p.rescale_ns + report.rescale_ns <= u128::MAX,
    ensures
        p.after_quant(ns).quant_ns - p.quant_ns == ns,
        (MtileProfile { quant_ns: p.quant_ns, ..p.after_quant(ns) }) == p,
        p.after_hit(weights).cache_hits - p.cache_hits == weights,
        (MtileProfile { cache_hits: p.cache_hits, ..p.after_hit(weights) }) == p,
        p.after_miss(weights, ns, pack).cache_misses - p.cache_misses == weights,
        p.after_miss(weights, ns, pack).weight_prepare_ns - p.weight_prepare_ns == ns,
        p.after_miss(weights, ns, pack).weight_pack_ns - p.weight_pack_ns == pack,
        (MtileProfile {
            cache_misses: p.cache_misses,
            weight_prepare_ns: p.weight_prepare_ns,
            weight_pack_ns: p.weight_pack_ns,
            ..p.after_miss(weights, ns, pack)
        }) == p,
        ({
            let q = p.after_run(weights, one_core, report);
            &&& q.calls - p.calls == weights
            &&& q.ksplit_calls - p.ksplit_calls == (if one_core && report.k_slices > 1 {
                1int
            } else {
                0
            })
            &&& q.execute_total_ns - p.execute_total_ns == report.total_ns
            &&& q.rescale_ns - p.rescale_ns == report.rescale_ns
            &&& q.stages == stages_after(p.stages, report.workers@)
            &&& q.cache_hits == p.cache_hits && q.cache_misses == p.cache_misses
            &&& q.quant_ns == p.quant_ns && q.weight_prepare_ns == p.weight_prepare_ns
                && q.weight_pack_ns == p.weight_pack_ns
        }),
        MtileProfile::empty().calls == 0 && MtileProfile::empty().cache_hits == 0
            && MtileProfile::empty().cache_misses == 0,
        MtileProfile::empty().stages == no_stages(),
{
}

/// What a prefill call books changes its own lines of the account and no others.
pub proof fn law_prefill_accounts_grow_by_what_happened(
    p: PrefillProfile,
    call_ns: u128,
    stats: PrefillPrepareStats,
)
    ensures
        p.cache_hits < usize::MAX ==> p.after_hit().cache_hits - p.cache_hits == 1,
        (PrefillProfile { cache_hits: p.cache_hits, ..p.after_hit() }) == p,
        p.cache_misses < usize::MAX ==> p.after_miss().cache_misses - p.cache_misses == 1,
        (PrefillProfile { cache_misses: p.cache_misses, ..p.after_miss() }) == p,
        p.resident_bytes + stats.resident_bytes <= usize::MAX ==> p.after_prepare(
            call_ns,
            stats,
        ).resident_bytes - p.resident_bytes == stats.resident_bytes,
        p.prepare_call_ns + call_ns <= u128::MAX ==> p.after_prepare(call_ns, stats).prepare_call_ns
            - p.prepare_call_ns == call_ns,
        p.prepare_pool_wall_ns + stats.prepare_wall_ns <= u128::MAX ==> p.after_prepare(call_ns, stats).prepare_pool_wall_ns - p.prepare_pool_wall_ns
            == stats.prepare_wall_ns,
        p.prepare_worker_critical_ns + stats.worker_total_ns_max <= u128::MAX ==> p.after_prepare(call_ns, stats).prepare_worker_critical_ns - p.prepare_worker_critical_ns
            == stats.worker_total_ns_max,
        p.plan_critical_ns + stats.plan_ns_max <= u128::MAX ==> p.after_prepare(call_ns, stats).plan_critical_ns - p.plan_critical_ns
            == stats.plan_ns_max,
        p.layout_critical_ns + stats.layout_ns_max <= u128::MAX ==> p.after_prepare(call_ns, stats).layout_critical_ns - p.layout_critical_ns
            == stats.layout_ns_max,
        p.alloc_mmap_critical_ns + stats.alloc_mmap_ns_max <= u128::MAX ==> p.after_prepare(call_ns, stats).alloc_mmap_critical_ns - p.alloc_mmap_critical_ns
            == stats.alloc_mmap_ns_max,
        p.prep_critical_ns + stats.prep_ns_max <= u128::MAX ==> p.after_prepare(call_ns, stats).prep_critical_ns - p.prep_critical_ns
            == stats.prep_ns_max,
        p.zero_critical_ns + stats.zero_ns_max <= u128::MAX ==> p.after_prepare(call_ns, stats).zero_critical_ns - p.zero_critical_ns
            == stats.zero_ns_max,
        p.tile_pack_critical_ns + stats.tile_pack_ns_max <= u128::MAX ==> p.after_prepare(call_ns, stats).tile_pack_critical_ns - p.tile_pack_critical_ns
            == stats.tile_pack_ns_max,
        p.fini_critical_ns + stats.fini_ns_max <= u128::MAX ==> p.after_prepare(call_ns, stats).fini_critical_ns - p.fini_critical_ns
            == stats.fini_ns_max,
        p.pack_critical_ns + stats.pack_ns_max <= u128::MAX ==> p.after_prepare(call_ns, stats).pack_critical_ns - p.pack_critical_ns
            == stats.pack_ns_max,
        p.pack_worker_sum_ns + stats.pack_ns_sum <= u128::MAX ==> p.after_prepare(call_ns, stats).pack_worker_sum_ns - p.pack_worker_sum_ns
            == stats.pack_ns_sum,
        p.after_prepare(call_ns, stats).cache_hits == p.cache_hits,
        p.after_prepare(call_ns, stats).cache_misses == p.cache_misses,
        PrefillProfile::empty().resident_bytes == 0 && PrefillProfile::empty().cache_hits == 0,
{
}

/// Accounts start with nothing on them.
pub proof fn law_new_accounts_are_empty()
    ensures
        ({
            let none = no_stages();
            let shape = empty_shape_profile();
            &&& shape.calls == 0 && shape.npu_tasks == 0 && shape.worker1_calls == 0
            &&& shape.worker2_calls == 0 && shape.worker3_calls == 0 && shape.ksplit_calls == 0
            &&& shape.quant_ns == 0 && shape.execute_wall_ns == 0 && shape.rescale_ns == 0
            &&& shape.total_ns == 0 && shape.stages == none
            &&& stage_sum(none, none) == none
        }),
        ({
            let tile = MtileProfile::empty();
            &&& tile.calls == 0 && tile.ksplit_calls == 0 && tile.cache_hits == 0
            &&& tile.cache_misses == 0 && tile.weight_prepare_ns == 0 && tile.weight_pack_ns == 0
            &&& tile.quant_ns == 0 && tile.execute_total_ns == 0 && tile.rescale_ns == 0
            &&& tile.stages == no_stages()
        }),
        ({
            let p = PrefillProfile::empty();
            &&& p.cache_hits == 0 && p.cache_misses == 0 && p.resident_bytes == 0
            &&& p.pool_create_ns == 0 && p.dequant_ns == 0 && p.host_to_arc_ns == 0
            &&& p.prepare_call_ns == 0 && p.prepare_pool_wall_ns == 0
            &&& p.prepare_worker_critical_ns == 0 && p.plan_critical_ns == 0
            &&& p.layout_critical_ns == 0 && p.alloc_mmap_critical_ns == 0
            &&& p.prep_critical_ns == 0 && p.zero_critical_ns == 0 && p.tile_pack_critical_ns == 0
            &&& p.fini_critical_ns == 0 && p.pack_critical_ns == 0 && p.pack_worker_sum_ns == 0
            &&& p.activation_convert_ns == 0 && p.execute_ns == 0 && p.output_copy_ns == 0
        }),
{
}

/// A report has a line for every account, each with the account of its key, and no
/// key has two lines.
pub proof fn law_reports_tell_every_account(
    shapes: Map<M1ProfileKey, M1ShapeProfile>,
    lines: Seq<M1ReportLine>,
    i: int,
    j: int,
)
    requires
        is_m1_report(shapes, lines),
        0 <= i < lines.len(),
        0 <= j < lines.len(),
    ensures
        lines.len() == shapes.dom().len(),
        shapes.dom().contains(lines[i].key),
        lines[i].shape == shapes[lines[i].key],
        lines[i].other_ns == other_ns(lines[i].shape),
        lines[i].key == lines[j].key ==> i == j,
        i < j ==> key_before_or_same(lines[i].key, lines[j].key),
{
    if i < j {
        assert(key_before_or_same(lines[i].key, lines[j].key));
    }
    if j < i {
        assert(key_before_or_same(lines[j].key, lines[i].key));
    }
}

} // verus!
