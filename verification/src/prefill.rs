//! Prefill with cached half-precision weight layouts.
//!
//! One layout per weight matrix stays resident, packed for an exact number of
//! activation rows. Another row count replaces it, so changing prompt lengths
//! cannot multiply the resident footprint.

use crate::arith::{sat_u128, sat_usize, saturating_product};
use crate::keys::{DecodeWeightKey, Resident};
use crate::profile::{PrefillPrepareStats, PrefillProfile};
use crate::status::{STATUS_EXECUTION_ERROR, STATUS_INVALID_ARGUMENT, STATUS_OK};
use crate::table::Table;
use vstd::prelude::*;

verus! {

/// A resident layout and the row count it was packed for.
#[derive(Clone, Copy, Debug, PartialEq, Eq, Structural)]
pub struct PrefillEntry {
    pub m: usize,
    pub prepared: Resident,
}

/// The outside work that is due.
#[derive(Clone, Copy, Debug, PartialEq, Eq, Structural)]
pub enum PrefillStage {
    /// Start the worker pool.
    CreatePool,
    /// Let go of a layout that was packed for another row count.
    Release { old: Resident },
    /// Decode the weights on the host.
    Decode,
    /// Make the decoded weights resident.
    Prepare,
    /// Convert the activations, run, and copy the result out.
    Execute { prepared: Resident },
    /// Nothing: the call is over.
    Done { status: i32 },
}

/// The outcome of outside work.
#[derive(Clone, Copy, Debug)]
pub enum PrefillEvent {
    /// Whether the pool runs.
    PoolCreated { ok: bool, ns: u128 },
    /// Whether the old layout is gone.
    Released { ok: bool },
    /// How many values the host decoded.
    Decoded { values: usize, dequant_ns: u128 },
    /// The resident layout.
    Prepared { share_ns: u128, call_ns: u128, result: Option<(Resident, PrefillPrepareStats)> },
    /// Whether the run succeeded.
    Executed { convert_ns: u128, ok: bool, execute_ns: u128, copy_ns: u128 },
}

/// Resident layouts and their account.
pub struct PrefillCache {
    pub pool_ready: bool,
    pub layouts: Table<DecodeWeightKey, PrefillEntry>,
    pub profile: Option<PrefillProfile>,
}

/// What a [`PrefillCache`] holds.
#[verifier::ext_equal]
pub struct PrefillState {
    pub pool_ready: bool,
    pub layouts: Map<DecodeWeightKey, PrefillEntry>,
    pub profile: Option<PrefillProfile>,
}

impl View for PrefillCache {
    type V = PrefillState;

    open spec fn view(&self) -> PrefillState {
        PrefillState {
            pool_ready: self.pool_ready,
            layouts: self.layouts@,
            profile: self.profile,
        }
    }
}

impl PrefillState {
    /// No pool, nothing resident; an empty account if calls are booked.
    pub open spec fn empty(profiled: bool) -> PrefillState {
        PrefillState {
            pool_ready: false,
            layouts: Map::empty(),
            profile: if profiled {
                Some(PrefillProfile::empty())
            } else {
                None
            },
        }
    }

    /// With a booking on the account, if calls are profiled.
    pub open spec fn booked(self, f: spec_fn(PrefillProfile) -> PrefillProfile) -> PrefillState {
        PrefillState {
            profile: match self.profile {
                Some(p) => Some(f(p)),
                None => None,
            },
            ..self
        }
    }
}

/// Everything a call can change, and the work that is due next.
pub struct PrefillStep {
    pub state: PrefillState,
    pub stage: PrefillStage,
}

/// The end of a call.
pub open spec fn prefill_done(s: PrefillState, status: i32) -> PrefillStep {
    PrefillStep { state: s, stage: PrefillStage::Done { status } }
}

/// The step past a missing layout.
pub open spec fn prefill_miss(s: PrefillState) -> PrefillStep {
    PrefillStep {
        state: s.booked(|p: PrefillProfile| p.after_miss()),
        stage: PrefillStage::Decode,
    }
}

/// Looking a layout up once the pool runs. A layout for another row count leaves
/// the table at once.
pub open spec fn prefill_lookup(s: PrefillState, key: DecodeWeightKey, m: usize) -> PrefillStep {
    if !s.layouts.dom().contains(key) {
        prefill_miss(s)
    } else if s.layouts[key].m != m {
        PrefillStep {
            state: PrefillState { layouts: s.layouts.remove(key), ..s },
            stage: PrefillStage::Release { old: s.layouts[key].prepared },
        }
    } else {
        PrefillStep {
            state: s.booked(|p: PrefillProfile| p.after_hit()),
            stage: PrefillStage::Execute { prepared: s.layouts[key].prepared },
        }
    }
}

/// The first stage of a call.
pub open spec fn prefill_first(s: PrefillState, key: DecodeWeightKey, m: usize) -> PrefillStep {
    if s.pool_ready {
        prefill_lookup(s, key, m)
    } else {
        PrefillStep { state: s, stage: PrefillStage::CreatePool }
    }
}

/// What an event does to a call.
///
/// An event that does not answer the stage changes nothing.
pub open spec fn prefill_next(
    s: PrefillState,
    key: DecodeWeightKey,
    m: usize,
    stage: PrefillStage,
    event: PrefillEvent,
) -> PrefillStep {
    match (stage, event) {
        (PrefillStage::CreatePool, PrefillEvent::PoolCreated { ok, ns }) => if ok {
            prefill_lookup(
                (PrefillState { pool_ready: true, ..s }).booked(
                    |p: PrefillProfile|
                        PrefillProfile { pool_create_ns: sat_u128(p.pool_create_ns + ns), ..p },
                ),
                key,
                m,
            )
        } else {
            prefill_done(s, STATUS_EXECUTION_ERROR)
        },
        (PrefillStage::Release { old }, PrefillEvent::Released { ok }) => if ok {
            prefill_miss(s)
        } else {
            prefill_done(s, STATUS_EXECUTION_ERROR)
        },
        (PrefillStage::Decode, PrefillEvent::Decoded { values, dequant_ns }) => {
            let booked = s.booked(
                |p: PrefillProfile|
                    PrefillProfile { dequant_ns: sat_u128(p.dequant_ns + dequant_ns), ..p },
            );
            if values == sat_usize(key.k * key.n) {
                PrefillStep { state: booked, stage: PrefillStage::Prepare }
            } else {
                prefill_done(booked, STATUS_INVALID_ARGUMENT)
            }
        },
        (PrefillStage::Prepare, PrefillEvent::Prepared { share_ns, call_ns, result }) => {
            let shared = s.booked(
                |p: PrefillProfile|
                    PrefillProfile { host_to_arc_ns: sat_u128(p.host_to_arc_ns + share_ns), ..p },
            );
            match result {
                None => prefill_done(shared, STATUS_EXECUTION_ERROR),
                Some((prepared, stats)) => {
                    let booked = shared.booked(|p: PrefillProfile| p.after_prepare(call_ns, stats));
                    PrefillStep {
                        state: PrefillState {
                            layouts: booked.layouts.insert(key, PrefillEntry { m, prepared }),
                            ..booked
                        },
                        stage: PrefillStage::Execute { prepared },
                    }
                },
            }
        },
        (
            PrefillStage::Execute { prepared },
            PrefillEvent::Executed { convert_ns, ok, execute_ns, copy_ns },
        ) => {
            let converted = s.booked(
                |p: PrefillProfile|
                    PrefillProfile {
                        activation_convert_ns: sat_u128(p.activation_convert_ns + convert_ns),
                        ..p
                    },
            );
            if ok {
                prefill_done(
                    converted.booked(
                        |p: PrefillProfile|
                            PrefillProfile {
                                execute_ns: sat_u128(p.execute_ns + execute_ns),
                                output_copy_ns: sat_u128(p.output_copy_ns + copy_ns),
                                ..p
                            },
                    ),
                    STATUS_OK,
                )
            } else {
                prefill_done(converted, STATUS_EXECUTION_ERROR)
            }
        },
        _ => PrefillStep { state: s, stage },
    }
}

impl PrefillCache {
    /// No key occurs twice.
    pub open spec fn wf(&self) -> bool {
        self.layouts.wf()
    }

    /// No pool, nothing resident; `profiled` says whether calls are booked.
    pub fn new(profiled: bool) -> (cache: Self)
        ensures
            cache.wf(),
            cache@ == PrefillState::empty(profiled),
    {
        PrefillCache {
            pool_ready: false,
            layouts: Table::new(),
            profile: if profiled {
                Some(PrefillProfile::new())
            } else {
                None
            },
        }
    }

    fn miss(&mut self) -> (stage: PrefillStage)
        requires
            old(self).wf(),
        ensures
            final(self).wf(),
            (PrefillStep { state: final(self)@, stage }) == prefill_miss(old(self)@),
    {
        if let Some(mut p) = self.profile {
            p.count_miss();
            self.profile = Some(p);
        }
        PrefillStage::Decode
    }

    fn lookup(&mut self, key: &DecodeWeightKey, m: usize) -> (stage: PrefillStage)
        requires
            old(self).wf(),
        ensures
            final(self).wf(),
            (PrefillStep { state: final(self)@, stage }) == prefill_lookup(old(self)@, *key, m),
    {
        let at: Option<PrefillEntry> = match self.layouts.get(key) {
            Some(entry) => Some(*entry),
            None => None,
        };
        match at {
            None => self.miss(),
            Some(entry) => {
                if entry.m != m {
                    let _ = self.layouts.remove(key);
                    PrefillStage::Release { old: entry.prepared }
                } else {
                    if let Some(mut p) = self.profile {
                        p.count_hit();
                        self.profile = Some(p);
                    }
                    PrefillStage::Execute { prepared: entry.prepared }
                }
            },
        }
    }

    /// The first stage of a call.
    pub fn start(&mut self, key: &DecodeWeightKey, m: usize) -> (stage: PrefillStage)
        requires
            old(self).wf(),
        ensures
            final(self).wf(),
            (PrefillStep { state: final(self)@, stage }) == prefill_first(old(self)@, *key, m),
    {
        if self.pool_ready {
            self.lookup(key, m)
        } else {
            PrefillStage::CreatePool
        }
    }

    /// Advances a call by one event.
    pub fn step(
        &mut self,
        key: &DecodeWeightKey,
        m: usize,
        stage: PrefillStage,
        event: PrefillEvent,
    ) -> (next: PrefillStage)
        requires
            old(self).wf(),
        ensures
            final(self).wf(),
            (PrefillStep { state: final(self)@, stage: next }) == prefill_next(
                old(self)@,
                *key,
                m,
                stage,
                event,
            ),
    {
        match stage {
            PrefillStage::CreatePool => match event {
                PrefillEvent::PoolCreated { ok, ns } => {
                    if !ok {
                        return PrefillStage::Done { status: STATUS_EXECUTION_ERROR };
                    }
                    self.pool_ready = true;
                    if let Some(mut p) = self.profile {
                        p.pool_create_ns = p.pool_create_ns.saturating_add(ns);
                        self.profile = Some(p);
                    }
                    self.lookup(key, m)
                },
                _ => stage,
            },
            PrefillStage::Release { old: _ } => match event {
                PrefillEvent::Released { ok } => {
                    if ok {
                        self.miss()
                    } else {
                        PrefillStage::Done { status: STATUS_EXECUTION_ERROR }
                    }
                },
                _ => stage,
            },
            PrefillStage::Decode => match event {
                PrefillEvent::Decoded { values, dequant_ns } => {
                    if let Some(mut p) = self.profile {
                        p.dequant_ns = p.dequant_ns.saturating_add(dequant_ns);
                        self.profile = Some(p);
                    }
                    if values == saturating_product(key.k, key.n) {
                        PrefillStage::Prepare
                    } else {
                        PrefillStage::Done { status: STATUS_INVALID_ARGUMENT }
                    }
                },
                _ => stage,
            },
            PrefillStage::Prepare => match event {
                PrefillEvent::Prepared { share_ns, call_ns, result } => {
                    if let Some(mut p) = self.profile {
                        p.host_to_arc_ns = p.host_to_arc_ns.saturating_add(share_ns);
                        self.profile = Some(p);
                    }
                    match result {
                        None => PrefillStage::Done { status: STATUS_EXECUTION_ERROR },
                        Some((prepared, stats)) => {
                            if let Some(mut p) = self.profile {
                                p.count_prepare(call_ns, &stats);
                                self.profile = Some(p);
                            }
                            self.layouts.insert(*key, PrefillEntry { m, prepared });
                            PrefillStage::Execute { prepared }
                        },
                    }
                },
                _ => stage,
            },
            PrefillStage::Execute { prepared: _ } => match event {
                PrefillEvent::Executed { convert_ns, ok, execute_ns, copy_ns } => {
                    if let Some(mut p) = self.profile {
                        p.activation_convert_ns = p.activation_convert_ns.saturating_add(convert_ns);
                        if ok {
                            p.execute_ns = p.execute_ns.saturating_add(execute_ns);
                            p.output_copy_ns = p.output_copy_ns.saturating_add(copy_ns);
                        }
                        self.profile = Some(p);
                    }
                    if ok {
                        PrefillStage::Done { status: STATUS_OK }
                    } else {
                        PrefillStage::Done { status: STATUS_EXECUTION_ERROR }
                    }
                },
                _ => stage,
            },
            PrefillStage::Done { status: _ } => stage,
        }
    }
}

/// The table never holds more than one layout per weight matrix, and after a
/// successful preparation that layout is packed for the row count of the call.
pub proof fn law_one_layout_per_matrix(
    s: PrefillState,
    key: DecodeWeightKey,
    m: usize,
    prepared: Resident,
    stats: PrefillPrepareStats,
    share_ns: u128,
    call_ns: u128,
)
    ensures
        ({
            let next = prefill_next(
                s,
                key,
                m,
                PrefillStage::Prepare,
                PrefillEvent::Prepared { share_ns, call_ns, result: Some((prepared, stats)) },
            );
            &&& next.state.layouts == s.layouts.insert(key, PrefillEntry { m, prepared })
            &&& prefill_lookup(next.state, key, m).stage == (PrefillStage::Execute { prepared })
            &&& next.state.layouts.dom() == s.layouts.dom().insert(key)
        }),
{
}

/// A call with another row count takes the old layout out of the table and asks
/// for its release before anything new is made resident.
pub proof fn law_other_row_count_replaces(
    s: PrefillState,
    key: DecodeWeightKey,
    old: PrefillEntry,
    m: usize,
)
    requires
        s.layouts.dom().contains(key),
        s.layouts[key] == old,
        old.m != m,
    ensures
        prefill_lookup(s, key, m).stage == (PrefillStage::Release { old: old.prepared }),
        !prefill_lookup(s, key, m).state.layouts.dom().contains(key),
        prefill_lookup(s, key, m).state.layouts == s.layouts.remove(key),
{
}

/// A layout is run where it is resident for the row count of the call; it is
/// decoded where there is none, and one for another row count is let go first.
pub proof fn law_layouts_are_for_exact_row_counts(s: PrefillState, key: DecodeWeightKey, m: usize)
    ensures
        ({
            let next = prefill_lookup(s, key, m);
            let there = s.layouts.dom().contains(key);
            &&& next.stage is Execute <==> there && s.layouts[key].m == m
            &&& next.stage is Release <==> there && s.layouts[key].m != m
            &&& next.stage is Decode <==> !there
            &&& next.stage matches PrefillStage::Execute { prepared } ==> prepared
                == s.layouts[key].prepared && next.state.layouts == s.layouts
            &&& next.stage is Decode ==> next.state.layouts == s.layouts
            &&& next.state.pool_ready == s.pool_ready
            &&& s.profile is None ==> next.state.profile is None
            &&& s.profile is Some ==> next.state.profile == Some(
                if next.stage is Execute {
                    s.profile->0.after_hit()
                } else if next.stage is Decode {
                    s.profile->0.after_miss()
                } else {
                    s.profile->0
                },
            )
        }),
{
}

/// No call goes on before the pool runs: the first stage makes it where there is
/// none, and a pool that cannot be made ends the call.
pub proof fn law_calls_wait_for_the_pool(
    s: PrefillState,
    key: DecodeWeightKey,
    m: usize,
    ns: u128,
)
    ensures
        !s.pool_ready ==> prefill_first(s, key, m).stage is CreatePool && prefill_first(
            s,
            key,
            m,
        ).state == s,
        s.pool_ready ==> prefill_first(s, key, m) == prefill_lookup(s, key, m),
        prefill_next(
            s,
            key,
            m,
            PrefillStage::CreatePool,
            PrefillEvent::PoolCreated { ok: false, ns },
        ) == (PrefillStep {
            state: s,
            stage: PrefillStage::Done { status: STATUS_EXECUTION_ERROR },
        }),
        ({
            let next = prefill_next(
                s,
                key,
                m,
                PrefillStage::CreatePool,
                PrefillEvent::PoolCreated { ok: true, ns },
            );
            &&& next.state.pool_ready
            &&& next.stage == prefill_lookup(s, key, m).stage
            &&& next.state.layouts == prefill_lookup(s, key, m).state.layouts
            &&& s.profile is Some && s.profile->0.pool_create_ns + ns <= u128::MAX
                ==> next.state.profile->0.pool_create_ns - s.profile->0.pool_create_ns == ns
        }),
        !PrefillState::empty(true).pool_ready && !PrefillState::empty(false).pool_ready,
        PrefillState::empty(true).layouts.dom().is_empty(),
        PrefillState::empty(true).profile is Some && PrefillState::empty(false).profile is None,
{
}

/// A layout that was let go is decoded anew; where letting go fails the call ends
/// with nothing resident for the matrix.
pub proof fn law_released_layouts_are_decoded_anew(
    s: PrefillState,
    key: DecodeWeightKey,
    m: usize,
    old: Resident,
)
    ensures
        prefill_next(
            s,
            key,
            m,
            PrefillStage::Release { old },
            PrefillEvent::Released { ok: true },
        ).stage is Decode,
        prefill_next(
            s,
            key,
            m,
            PrefillStage::Release { old },
            PrefillEvent::Released { ok: true },
        ).state.layouts == s.layouts,
        prefill_next(
            s,
            key,
            m,
            PrefillStage::Release { old },
            PrefillEvent::Released { ok: false },
        ) == (PrefillStep {
            state: s,
            stage: PrefillStage::Done { status: STATUS_EXECUTION_ERROR },
        }),
{
}

/// Decoded weights go on exactly where there is one value for each row and column,
/// and are refused otherwise; either way nothing becomes resident.
pub proof fn law_decoded_weights_are_whole(
    s: PrefillState,
    key: DecodeWeightKey,
    m: usize,
    values: usize,
    ns: u128,
)
    requires
        key.n * key.k <= usize::MAX,
    ensures
        ({
            let next = prefill_next(
                s,
                key,
                m,
                PrefillStage::Decode,
                PrefillEvent::Decoded { values, dequant_ns: ns },
            );
            &&& values == key.n * key.k ==> next.stage is Prepare
            &&& values != key.n * key.k ==> next.stage == (PrefillStage::Done {
                status: STATUS_INVALID_ARGUMENT,
            })
            &&& next.state.layouts == s.layouts
            &&& s.profile is Some && s.profile->0.dequant_ns + ns <= u128::MAX
                ==> next.state.profile->0.dequant_ns - s.profile->0.dequant_ns == ns
        }),
{
    assert(key.k * key.n == key.n * key.k) by (nonlinear_arith);
}

/// A failed preparation or run is an execution error and changes no layout; a run
/// that succeeds ends the call well and keeps the layout.
pub proof fn law_runs_keep_their_layouts(
    s: PrefillState,
    key: DecodeWeightKey,
    m: usize,
    prepared: Resident,
    a: u128,
    b: u128,
    c: u128,
    ok: bool,
)
    ensures
        ({
            let failed = prefill_next(
                s,
                key,
                m,
                PrefillStage::Prepare,
                PrefillEvent::Prepared { share_ns: a, call_ns: b, result: None },
            );
            &&& failed.stage == (PrefillStage::Done { status: STATUS_EXECUTION_ERROR })
            &&& failed.state.layouts == s.layouts
        }),
        ({
            let ran = prefill_next(
                s,
                key,
                m,
                PrefillStage::Execute { prepared },
                PrefillEvent::Executed { convert_ns: a, ok, execute_ns: b, copy_ns: c },
            );
            &&& ran.stage == (PrefillStage::Done {
                status: if ok {
                    STATUS_OK
                } else {
                    STATUS_EXECUTION_ERROR
                },
            })
            &&& ran.state.layouts == s.layouts
            &&& s.profile is Some && s.profile->0.activation_convert_ns + a <= u128::MAX
                ==> ran.state.profile->0.activation_convert_ns
                - s.profile->0.activation_convert_ns == a
            &&& s.profile is Some && s.profile->0.execute_ns + b <= u128::MAX
                ==> ran.state.profile->0.execute_ns - s.profile->0.execute_ns == (if ok {
                b as int
            } else {
                0
            })
            &&& s.profile is Some && s.profile->0.output_copy_ns + c <= u128::MAX
                ==> ran.state.profile->0.output_copy_ns - s.profile->0.output_copy_ns == (if ok {
                c as int
            } else {
                0
            })
        }),
{
}

/// Events that do not answer the stage change nothing, and a call that is over
/// stays over.
pub proof fn law_stray_prefill_events_change_nothing(
    s: PrefillState,
    key: DecodeWeightKey,
    m: usize,
    stage: PrefillStage,
    event: PrefillEvent,
)
    requires
        !(stage is CreatePool && event is PoolCreated),
        !(stage is Release && event is Released),
        !(stage is Decode && event is Decoded),
        !(stage is Prepare && event is Prepared),
        !(stage is Execute && event is Executed),
    ensures
        prefill_next(s, key, m, stage, event) == (PrefillStep { state: s, stage }),
{
}

/// A layout that was prepared is kept for its matrix and row count, is run at once,
/// and leaves the layouts of other matrices alone. Handing the weights over is booked.
pub proof fn law_prepared_layouts_are_kept(
    s: PrefillState,
    key: DecodeWeightKey,
    other: DecodeWeightKey,
    m: usize,
    prepared: Resident,
    stats: PrefillPrepareStats,
    share_ns: u128,
    call_ns: u128,
)
    ensures
        ({
            let next = prefill_next(
                s,
                key,
                m,
                PrefillStage::Prepare,
                PrefillEvent::Prepared { share_ns, call_ns, result: Some((prepared, stats)) },
            );
            &&& next.stage == (PrefillStage::Execute { prepared })
            &&& next.state.layouts.dom().contains(key)
            &&& next.state.layouts[key] == (PrefillEntry { m, prepared })
            &&& other != key ==> next.state.layouts.dom().contains(other)
                == s.layouts.dom().contains(other)
            &&& other != key && s.layouts.dom().contains(other) ==> next.state.layouts[other]
                == s.layouts[other]
            &&& next.state.pool_ready == s.pool_ready
            &&& s.profile is None ==> next.state.profile is None
            &&& s.profile is Some && s.profile->0.host_to_arc_ns + share_ns <= u128::MAX
                && s.profile->0.prepare_call_ns + call_ns <= u128::MAX ==> {
                &&& next.state.profile is Some
                &&& next.state.profile->0.host_to_arc_ns == s.profile->0.host_to_arc_ns + share_ns
                &&& next.state.profile->0.prepare_call_ns == s.profile->0.prepare_call_ns + call_ns
                &&& next.state.profile->0.cache_hits == s.profile->0.cache_hits
                &&& next.state.profile->0.cache_misses == s.profile->0.cache_misses
            }
        }),
{
}

/// A layout that is there counts as a hit; one that is missing counts as a miss, and
/// one for another row count does once it is gone.
pub proof fn law_layout_lookups_are_counted(s: PrefillState, key: DecodeWeightKey, m: usize, old: Resident)
    requires
        s.profile is Some,
        s.profile->0.cache_hits < usize::MAX,
        s.profile->0.cache_misses < usize::MAX,
    ensures
        ({
            let p = s.profile->0;
            let found = prefill_lookup(s, key, m);
            let released = prefill_next(
                s,
                key,
                m,
                PrefillStage::Release { old },
                PrefillEvent::Released { ok: true },
            );
            let (hits, misses) = (
                found.state.profile->0.cache_hits - p.cache_hits,
                found.state.profile->0.cache_misses - p.cache_misses,
            );
            &&& found.stage is Execute ==> hits == 1 && misses == 0
            &&& found.stage is Decode ==> hits == 0 && misses == 1
            &&& found.stage is Release ==> hits == 0 && misses == 0
            &&& released.state.profile->0.cache_misses == p.cache_misses + 1
            &&& released.state.profile->0.cache_hits == p.cache_hits
        }),
{
}

} // verus!
