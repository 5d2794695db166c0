//! Prompt-batch W8A8 projections: a tile of several activation rows against
//! resident eight-bit weights.
//!
//! A call advances through [`MtileStage`]s. Each stage names the outside work
//! that is due; the caller does it and reports back with an [`MtileEvent`].

use crate::arith::{aligned, next_multiple, sat_u128, sat_usize, saturating_product};
use crate::keys::{
    ConcatKey, DecodeChoice, DecodePairKey, DecodeWeightKey, GroupedKey, Int8DecodeSplit,
};
use crate::profile::{MtileProfile, MtileReport};
use crate::status::{STATUS_EXECUTION_ERROR, STATUS_INVALID_ARGUMENT, STATUS_OK};
use crate::table::Table;
use vstd::prelude::*;

verus! {

/// Tallest tile.
pub const MTILE_MAX_ROWS: usize = 128;

/// Projections at least this wide split N across the three NPU cores, 256 or
/// more columns each. Narrower ones run on one core.
pub const MTILE_POOL_MIN_N: usize = 768;

/// Widest projection of one call.
pub const MTILE_MAX_N: usize = 8192;

/// Longest K that one core takes.
pub const MTILE_CORE_K: usize = 4096;

/// Longest K that three cores take together.
pub const MTILE_POOL_MAX_K: usize = 12288;

/// Narrowest pair and narrowest grouped projection of the pool.
pub const MTILE_WIDE_MIN_N: usize = 2048;

/// The one K above a core's limit that a single core still takes, in slices.
pub const MTILE_SLICED_K: usize = 5632;

/// Rows of a grouped tile.
pub const MTILE_GROUPED_ROWS: usize = 16;

/// Tile heights that the NPU executes directly.
pub open spec fn is_tile_height(m: int) -> bool {
    m == 4 || m == 8 || m == 12 || m == 16 || m == 32 || m == 48 || m == 64 || m == 128
}

/// Whether the NPU executes tiles of this height directly.
pub fn tile_height_supported(m: usize) -> (r: bool)
    ensures
        r == is_tile_height(m as int),
{
    m == 4 || m == 8 || m == 12 || m == 16 || m == 32 || m == 48 || m == 64 || m == 128
}

/// The weights and the tile of one call.
pub enum MtileTarget {
    /// One matrix on one core.
    Tile { key: DecodeWeightKey, m: usize },
    /// One matrix across the cores.
    Pool { key: DecodeWeightKey, m: usize, split: Int8DecodeSplit },
    /// Two equally shaped matrices across the cores, submitted together.
    PairPool { pair: DecodePairKey, m: usize },
    /// Matrices joined along N, submitted directly.
    Concat { joined: ConcatKey, m: usize },
    /// One matrix quantized in groups along K, on one core.
    Grouped { grouped: GroupedKey },
    /// One matrix quantized in groups along K, across the cores.
    GroupedPool { grouped: GroupedKey },
}

/// Columns of joined members together.
pub open spec fn joined_columns(members: Seq<DecodeWeightKey>) -> int
    decreases members.len(),
{
    if members.len() == 0 {
        0
    } else {
        joined_columns(members.drop_last()) + members.last().n
    }
}

/// Whole groups along K.
pub open spec fn group_count(key: GroupedKey) -> int
    recommends
        key.group_size > 0,
{
    key.key.k as int / key.group_size as int
}

/// What a call must look like to be taken.
pub open spec fn mtile_accepts(
    target: MtileTarget,
    a_len: usize,
    out_lens: Seq<usize>,
    direct_enabled: bool,
) -> bool {
    match target {
        MtileTarget::Tile { key, m } => {
            &&& is_tile_height(m as int)
            &&& a_len == m * key.k
            &&& out_lens.len() == 1
            &&& out_lens[0] == m * key.n
            &&& key.k <= MTILE_CORE_K || key.k == MTILE_SLICED_K
            &&& key.k % 512 == 0
            &&& key.n % 32 == 0
            &&& key.n <= MTILE_MAX_N
        },
        MtileTarget::Pool { key, m, split } => {
            &&& is_tile_height(m as int)
            &&& a_len == m * key.k
            &&& out_lens.len() == 1
            &&& out_lens[0] == m * key.n
            &&& key.k > 0
            &&& key.k % 512 == 0
            &&& key.n > 0
            &&& key.n % 32 == 0
            &&& key.n <= MTILE_MAX_N
            &&& match split {
                Int8DecodeSplit::N => key.k <= MTILE_CORE_K && key.n >= MTILE_POOL_MIN_N,
                Int8DecodeSplit::K => MTILE_CORE_K < key.k <= MTILE_POOL_MAX_K,
            }
        },
        MtileTarget::PairPool { pair: key, m } => {
            &&& is_tile_height(m as int)
            &&& key.first.k == key.second.k
            &&& key.first.n == key.second.n
            &&& 0 < key.first.k <= MTILE_CORE_K
            &&& key.first.k % 512 == 0
            &&& MTILE_WIDE_MIN_N <= key.first.n <= MTILE_MAX_N
            &&& key.first.n % 32 == 0
            &&& a_len == m * key.first.k
            &&& out_lens.len() == 2
            &&& out_lens[0] == m * key.first.n
            &&& out_lens[1] == m * key.first.n
        },
        MtileTarget::Concat { joined: key, m } => {
            &&& is_tile_height(m as int)
            &&& key@.len() > 0
            &&& out_lens.len() == key@.len()
            &&& direct_enabled
            &&& forall|i: int|
                0 <= i < key@.len() ==> (#[trigger] key@[i]).k == key@[0].k && key@[i].n % 32 == 0
            &&& key@[0].k > 0
            &&& key@[0].k % 512 == 0
            &&& key@[0].k <= (if m > 64 {
                2048int
            } else {
                4096int
            })
            &&& 96 <= joined_columns(key@) <= 3 * MTILE_MAX_N
            &&& a_len == sat_usize(m * key@[0].k)
            &&& forall|i: int|
                0 <= i < key@.len() ==> #[trigger] out_lens[i] == sat_usize(m * key@[i].n)
        },
        MtileTarget::Grouped { grouped: key } => grouped_accepts(key, a_len, out_lens),
        MtileTarget::GroupedPool { grouped: key } => {
            &&& grouped_accepts(key, a_len, out_lens)
            &&& MTILE_WIDE_MIN_N <= key.key.n <= MTILE_MAX_N
            &&& key.key.n % 32 == 0
        },
    }
}

/// What a grouped call must look like: two or more whole groups per row, each a
/// multiple of 512 that one core takes, and a tile of sixteen rows.
pub open spec fn grouped_accepts(key: GroupedKey, a_len: usize, out_lens: Seq<usize>) -> bool {
    &&& group_count(key) >= 2
    &&& key.group_size % 512 == 0
    &&& key.key.k % key.group_size == 0
    &&& key.group_size <= MTILE_CORE_K
    &&& a_len == MTILE_GROUPED_ROWS * key.key.k
    &&& out_lens.len() == 1
    &&& out_lens[0] == MTILE_GROUPED_ROWS * key.key.n
}

/// Prepared tile weights. A grouped entry has one part per group.
#[derive(Clone, Copy, Debug, PartialEq, Eq, Structural)]
pub struct MtileEntry {
    pub handle: u64,
    pub resident_bytes: usize,
    pub parts: usize,
    pub direct: bool,
    pub workers: usize,
}

/// How resident tile weights are run.
#[derive(Clone, Copy, Debug, PartialEq, Eq, Structural)]
pub enum MtileRun {
    /// On one core, with K in slices.
    Sliced,
    /// On one core, with scratch buffers that are kept.
    Persistent,
    /// On one core, with scratch buffers of its own.
    Single,
    /// Across the cores, each core's block handed straight to the caller.
    Direct,
    /// Across the cores, collected into one result.
    Pooled,
    /// Two matrices across the cores in one batch.
    PairBatch,
}

/// The outside work that is due.
#[derive(Clone, Copy, Debug, PartialEq, Eq, Structural)]
pub enum MtileStage {
    /// Quantize the activation rows.
    Quantize,
    /// Produce eight-bit weights and their scales on the host.
    Weights,
    /// Make the weights resident.
    Prepare { prepare_ns: u128 },
    /// Run one part of the resident weights and rescale.
    Execute { entry: MtileEntry, run: MtileRun, part: usize },
    /// Nothing: the call is over.
    Done { status: i32 },
}

/// Lengths of the host weights and scales; the second pair is for pair targets.
#[derive(Clone, Copy, Debug, PartialEq, Eq, Structural)]
pub struct WeightSizes {
    pub weights: usize,
    pub scales: usize,
    pub second_weights: usize,
    pub second_scales: usize,
}

/// The outcome of outside work.
pub enum MtileEvent {
    /// Whether all activations were finite and are now quantized.
    Quantized { ok: bool, quant_ns: u128 },
    /// The host weights.
    Weights { sizes: Option<WeightSizes>, prepare_ns: u128 },
    /// The resident weights.
    Prepared { entry: Option<MtileEntry>, pack_ns: u128 },
    /// What the run of the current part reported.
    Executed { report: Option<MtileReport> },
}

/// Resident tile weights and their account.
pub struct MtileCache {
    pub tiles: Table<DecodeWeightKey, MtileEntry>,
    pub pools: Table<DecodeWeightKey, MtileEntry>,
    pub pair_pools: Table<DecodePairKey, MtileEntry>,
    pub concats: Table<ConcatKey, MtileEntry>,
    pub grouped: Table<GroupedKey, MtileEntry>,
    pub grouped_pools: Table<GroupedKey, MtileEntry>,
    pub profile: Option<MtileProfile>,
}

/// What an [`MtileCache`] holds.
#[verifier::ext_equal]
pub struct MtileState {
    pub tiles: Map<DecodeWeightKey, MtileEntry>,
    pub pools: Map<DecodeWeightKey, MtileEntry>,
    pub pair_pools: Map<DecodePairKey, MtileEntry>,
    pub concats: Map<Seq<DecodeWeightKey>, MtileEntry>,
    pub grouped: Map<GroupedKey, MtileEntry>,
    pub grouped_pools: Map<GroupedKey, MtileEntry>,
    pub profile: Option<MtileProfile>,
}

impl View for MtileCache {
    type V = MtileState;

    open spec fn view(&self) -> MtileState {
        MtileState {
            tiles: self.tiles@,
            pools: self.pools@,
            pair_pools: self.pair_pools@,
            concats: self.concats@,
            grouped: self.grouped@,
            grouped_pools: self.grouped_pools@,
            profile: self.profile,
        }
    }
}

/// The entry under a key, if there is one.
pub open spec fn found<K, V>(m: Map<K, V>, key: K) -> Option<V> {
    if m.dom().contains(key) {
        Some(m[key])
    } else {
        None
    }
}

impl MtileState {
    /// Nothing resident; an empty account if calls are booked.
    pub open spec fn empty(profiled: bool) -> MtileState {
        MtileState {
            tiles: Map::empty(),
            pools: Map::empty(),
            pair_pools: Map::empty(),
            concats: Map::empty(),
            grouped: Map::empty(),
            grouped_pools: Map::empty(),
            profile: if profiled {
                Some(MtileProfile::empty())
            } else {
                None
            },
        }
    }

    /// The resident weights of a target.
    pub open spec fn cached(self, target: MtileTarget) -> Option<MtileEntry> {
        match target {
            MtileTarget::Tile { key, .. } => found(self.tiles, key),
            MtileTarget::Pool { key, .. } => found(self.pools, key),
            MtileTarget::PairPool { pair: key, .. } => found(self.pair_pools, key),
            MtileTarget::Concat { joined: key, .. } => found(self.concats, key@),
            MtileTarget::Grouped { grouped: key } => found(self.grouped, key),
            MtileTarget::GroupedPool { grouped: key } => found(self.grouped_pools, key),
        }
    }

    /// With resident weights stored for a target.
    pub open spec fn with_cached(self, target: MtileTarget, entry: MtileEntry) -> MtileState {
        match target {
            MtileTarget::Tile { key, .. } => MtileState {
                tiles: self.tiles.insert(key, entry),
                ..self
            },
            MtileTarget::Pool { key, .. } => MtileState {
                pools: self.pools.insert(key, entry),
                ..self
            },
            MtileTarget::PairPool { pair: key, .. } => MtileState {
                pair_pools: self.pair_pools.insert(key, entry),
                ..self
            },
            MtileTarget::Concat { joined: key, .. } => MtileState {
                concats: self.concats.insert(key@, entry),
                ..self
            },
            MtileTarget::Grouped { grouped: key } => MtileState {
                grouped: self.grouped.insert(key, entry),
                ..self
            },
            MtileTarget::GroupedPool { grouped: key } => MtileState {
                grouped_pools: self.grouped_pools.insert(key, entry),
                ..self
            },
        }
    }

    /// With a booking on the account, if calls are profiled.
    pub open spec fn booked(self, f: spec_fn(MtileProfile) -> MtileProfile) -> MtileState {
        MtileState {
            profile: match self.profile {
                Some(p) => Some(f(p)),
                None => None,
            },
            ..self
        }
    }
}

/// How many matrices a call counts for.
pub open spec fn matrices(target: MtileTarget) -> usize {
    if target is PairPool {
        2
    } else {
        1
    }
}

/// Whether a target runs on one core.
pub open spec fn on_one_core(target: MtileTarget) -> bool {
    target is Tile || target is Grouped
}

/// Parts that the resident weights of a target have.
pub open spec fn part_count(target: MtileTarget) -> int {
    match target {
        MtileTarget::Grouped { grouped: key } => group_count(key),
        MtileTarget::GroupedPool { grouped: key } => group_count(key),
        _ => 1,
    }
}

/// Whether the host weights have the lengths that a target needs.
///
/// A plain tile's weights are handed on as they are.
pub open spec fn mtile_weights_fit(target: MtileTarget, sizes: WeightSizes) -> bool {
    match target {
        MtileTarget::Tile { .. } => true,
        MtileTarget::Pool { key, .. } => sizes.weights == sat_usize(key.n * key.k) && sizes.scales
            == key.n,
        MtileTarget::PairPool { pair: key, .. } => {
            &&& sizes.weights == sat_usize(key.first.n * key.first.k)
            &&& sizes.second_weights == sat_usize(key.first.n * key.first.k)
            &&& sizes.scales == key.first.n
            &&& sizes.second_scales == key.first.n
        },
        MtileTarget::Concat { joined: key, .. } => {
            &&& sizes.weights == sat_usize(joined_columns(key@) * key@[0].k)
            &&& sizes.scales == joined_columns(key@)
        },
        MtileTarget::Grouped { grouped: key } => grouped_weights_fit(key, sizes),
        MtileTarget::GroupedPool { grouped: key } => grouped_weights_fit(key, sizes),
    }
}

/// A grouped matrix has one scale per group and output channel.
pub open spec fn grouped_weights_fit(key: GroupedKey, sizes: WeightSizes) -> bool {
    sizes.weights == sat_usize(key.key.n * key.key.k) && sizes.scales == sat_usize(
        group_count(key) * key.key.n,
    )
}

/// How resident weights are run, or the status that ends the call.
///
/// On one core a K beyond the core's limit runs in slices and needs a tile of
/// sixteen rows; other tiles need kept scratch buffers unless they have sixteen
/// rows. Joined weights must have been prepared for direct submission.
pub open spec fn mtile_run(
    target: MtileTarget,
    entry: MtileEntry,
    persistent: bool,
) -> Result<MtileRun, i32> {
    match target {
        MtileTarget::Tile { key, m } => if key.k > MTILE_CORE_K {
            if m == MTILE_GROUPED_ROWS {
                Ok(MtileRun::Sliced)
            } else {
                Err(STATUS_INVALID_ARGUMENT)
            }
        } else if persistent {
            Ok(MtileRun::Persistent)
        } else if m == MTILE_GROUPED_ROWS {
            Ok(MtileRun::Single)
        } else {
            Err(STATUS_INVALID_ARGUMENT)
        },
        MtileTarget::Pool { .. } => Ok(
            if entry.direct {
                MtileRun::Direct
            } else {
                MtileRun::Pooled
            },
        ),
        MtileTarget::PairPool { .. } => Ok(MtileRun::PairBatch),
        MtileTarget::Concat { .. } => if entry.direct {
            Ok(MtileRun::Direct)
        } else {
            Err(STATUS_EXECUTION_ERROR)
        },
        MtileTarget::Grouped { grouped: key } => if entry.parts != group_count(key) {
            Err(STATUS_EXECUTION_ERROR)
        } else if persistent {
            Ok(MtileRun::Persistent)
        } else {
            Ok(MtileRun::Single)
        },
        MtileTarget::GroupedPool { grouped: key } => if entry.parts != group_count(key) {
            Err(STATUS_EXECUTION_ERROR)
        } else {
            Ok(MtileRun::Pooled)
        },
    }
}

/// Everything a call can change, and the work that is due next.
pub struct MtileStep {
    pub state: MtileState,
    pub stage: MtileStage,
}

/// The step into execution, or to the status that forbids it.
pub open spec fn mtile_execute(
    s: MtileState,
    target: MtileTarget,
    entry: MtileEntry,
    persistent: bool,
) -> MtileStep {
    MtileStep {
        state: s,
        stage: match mtile_run(target, entry, persistent) {
            Ok(run) => MtileStage::Execute { entry, run, part: 0 },
            Err(status) => MtileStage::Done { status },
        },
    }
}

/// The end of a call.
pub open spec fn mtile_done(s: MtileState, status: i32) -> MtileStep {
    MtileStep { state: s, stage: MtileStage::Done { status } }
}

/// What an event does to a call.
///
/// An event that does not answer the stage changes nothing.
pub open spec fn mtile_next(
    s: MtileState,
    target: MtileTarget,
    persistent: bool,
    stage: MtileStage,
    event: MtileEvent,
) -> MtileStep {
    match (stage, event) {
        (MtileStage::Quantize, MtileEvent::Quantized { ok, quant_ns }) => if !ok {
            mtile_done(s, STATUS_INVALID_ARGUMENT)
        } else {
            let timed = s.booked(|p: MtileProfile| p.after_quant(quant_ns));
            match timed.cached(target) {
                Some(entry) => mtile_execute(
                    timed.booked(|p: MtileProfile| p.after_hit(matrices(target))),
                    target,
                    entry,
                    persistent,
                ),
                None => MtileStep { state: timed, stage: MtileStage::Weights },
            }
        },
        (MtileStage::Weights, MtileEvent::Weights { sizes, prepare_ns }) => match sizes {
            None => mtile_done(s, STATUS_INVALID_ARGUMENT),
            Some(sizes) => if mtile_weights_fit(target, sizes) {
                MtileStep { state: s, stage: MtileStage::Prepare { prepare_ns } }
            } else {
                mtile_done(s, STATUS_INVALID_ARGUMENT)
            },
        },
        (MtileStage::Prepare { prepare_ns }, MtileEvent::Prepared { entry, pack_ns }) => match entry {
            None => mtile_done(s, STATUS_EXECUTION_ERROR),
            Some(entry) => mtile_execute(
                s.with_cached(target, entry).booked(
                    |p: MtileProfile|
                        if target is Concat {
                            p.after_miss(1, sat_u128(prepare_ns + pack_ns), 0)
                        } else {
                            p.after_miss(matrices(target), prepare_ns, pack_ns)
                        },
                ),
                target,
                entry,
                persistent,
            ),
        },
        (MtileStage::Execute { entry, run, part }, MtileEvent::Executed { report }) => match report {
            None => mtile_done(s, STATUS_EXECUTION_ERROR),
            Some(report) => {
                let booked = s.booked(
                    |p: MtileProfile| p.after_run(matrices(target), on_one_core(target), report),
                );
                if part + 1 < part_count(target) {
                    MtileStep {
                        state: booked,
                        stage: MtileStage::Execute { entry, run, part: (part + 1) as usize },
                    }
                } else {
                    mtile_done(booked, STATUS_OK)
                }
            },
        },
        _ => MtileStep { state: s, stage },
    }
}

impl MtileTarget {
    /// A grouped target names a group size, and a joined one has a member.
    pub open spec fn wf(self) -> bool {
        match self {
            MtileTarget::Grouped { grouped: key } => key.group_size > 0,
            MtileTarget::GroupedPool { grouped: key } => key.group_size > 0,
            MtileTarget::Concat { joined: key, .. } => key@.len() > 0,
            _ => true,
        }
    }

    /// Rows of the tile.
    pub open spec fn spec_rows(self) -> usize {
        match self {
            MtileTarget::Tile { m, .. } => m,
            MtileTarget::Pool { m, .. } => m,
            MtileTarget::PairPool { m, .. } => m,
            MtileTarget::Concat { m, .. } => m,
            MtileTarget::Grouped { .. } => MTILE_GROUPED_ROWS,
            MtileTarget::GroupedPool { .. } => MTILE_GROUPED_ROWS,
        }
    }

    /// Length of an activation row.
    pub open spec fn spec_k(self) -> usize {
        match self {
            MtileTarget::Tile { key, .. } => key.k,
            MtileTarget::Pool { key, .. } => key.k,
            MtileTarget::PairPool { pair, .. } => pair.first.k,
            MtileTarget::Concat { joined, .. } => joined@[0].k,
            MtileTarget::Grouped { grouped } => grouped.key.k,
            MtileTarget::GroupedPool { grouped } => grouped.key.k,
        }
    }

    /// Values of a row that share a scale, where a row has several scales.
    pub open spec fn spec_group(self) -> Option<usize> {
        match self {
            MtileTarget::Grouped { grouped } => Some(grouped.group_size),
            MtileTarget::GroupedPool { grouped } => Some(grouped.group_size),
            _ => None,
        }
    }

    /// Rows of the tile.
    pub fn rows(&self) -> (m: usize)
        ensures
            m == self.spec_rows(),
    {
        match self {
            MtileTarget::Tile { m, .. } => *m,
            MtileTarget::Pool { m, .. } => *m,
            MtileTarget::PairPool { m, .. } => *m,
            MtileTarget::Concat { m, .. } => *m,
            MtileTarget::Grouped { .. } => MTILE_GROUPED_ROWS,
            MtileTarget::GroupedPool { .. } => MTILE_GROUPED_ROWS,
        }
    }

    /// Length of an activation row.
    pub fn k(&self) -> (k: usize)
        requires
            self.wf(),
        ensures
            k == self.spec_k(),
    {
        match self {
            MtileTarget::Tile { key, .. } => key.k,
            MtileTarget::Pool { key, .. } => key.k,
            MtileTarget::PairPool { pair, .. } => pair.first.k,
            MtileTarget::Concat { joined, .. } => joined.members[0].k,
            MtileTarget::Grouped { grouped } => grouped.key.k,
            MtileTarget::GroupedPool { grouped } => grouped.key.k,
        }
    }

    /// Values of a row that share a scale, where a row has several scales.
    pub fn group(&self) -> (g: Option<usize>)
        ensures
            g == self.spec_group(),
    {
        match self {
            MtileTarget::Grouped { grouped } => Some(grouped.group_size),
            MtileTarget::GroupedPool { grouped } => Some(grouped.group_size),
            _ => None,
        }
    }
}

/// Columns of the members together, if they are a `usize`.
pub fn joined_width(members: &Vec<DecodeWeightKey>) -> (n: Option<usize>)
    ensures
        match n {
            Some(n) => n == joined_columns(members@),
            None => joined_columns(members@) > usize::MAX,
        },
{
    let mut total: usize = 0;
    let mut i: usize = 0;
    assert(members@.take(0) =~= Seq::<DecodeWeightKey>::empty());
    while i < members.len()
        invariant
            i <= members@.len(),
            total == joined_columns(members@.take(i as int)),
        decreases members@.len() - i,
    {
        proof {
            assert(members@.take(i + 1).drop_last() =~= members@.take(i as int));
            assert(members@.take(i + 1).last() == members@[i as int]);
            lemma_joined_prefix(members@, i + 1);
        }
        match total.checked_add(members[i].n) {
            Some(next) => {
                total = next;
            },
            None => {
                return None;
            },
        }
        i = i + 1;
    }
    assert(members@.take(members@.len() as int) =~= members@);
    Some(total)
}

/// A prefix of the members has no more columns than all of them.
pub proof fn lemma_joined_prefix(members: Seq<DecodeWeightKey>, i: int)
    requires
        0 <= i <= members.len(),
    ensures
        0 <= joined_columns(members.take(i)) <= joined_columns(members),
    decreases members.len(),
{
    if i == members.len() {
        assert(members.take(i) =~= members);
        if members.len() > 0 {
            lemma_joined_prefix(members.drop_last(), members.len() - 1);
            assert(members.drop_last().take(members.len() - 1) =~= members.drop_last());
        }
    } else {
        lemma_joined_prefix(members.drop_last(), i);
        assert(members.drop_last().take(i) =~= members.take(i));
    }
}

/// `m * n` if it is a `usize` and equal to the given length.
fn is_product(len: usize, m: usize, n: usize) -> (r: bool)
    ensures
        r == (len == m * n),
{
    match m.checked_mul(n) {
        Some(p) => len == p,
        None => false,
    }
}

fn grouped_fits(key: &GroupedKey, a_len: usize, out_lens: &[usize]) -> (r: bool)
    requires
        key.group_size > 0,
    ensures
        r == grouped_accepts(*key, a_len, out_lens@),
{
    let groups: usize = key.key.k / key.group_size;
    groups >= 2 && key.group_size % 512 == 0 && key.key.k % key.group_size == 0 && key.group_size
        <= MTILE_CORE_K && is_product(a_len, MTILE_GROUPED_ROWS, key.key.k) && out_lens.len() == 1
        && is_product(out_lens[0], MTILE_GROUPED_ROWS, key.key.n)
}

fn concat_fits(
    key: &ConcatKey,
    m: usize,
    a_len: usize,
    out_lens: &[usize],
    direct_enabled: bool,
) -> (r: bool)
    ensures
        r == mtile_accepts(
            (MtileTarget::Concat { joined: *key, m }),
            a_len,
            out_lens@,
            direct_enabled,
        ),
{
    if !tile_height_supported(m) || key.members.len() == 0 || out_lens.len() != key.members.len()
        || !direct_enabled {
        return false;
    }
    let k: usize = key.members[0].k;
    let mut i: usize = 0;
    while i < key.members.len()
        invariant
            i <= key@.len(),
            key@.len() == out_lens@.len(),
            key@.len() > 0,
            k == key@[0].k,
            forall|j: int| 0 <= j < i ==> (#[trigger] key@[j]).k == k && key@[j].n % 32 == 0,
            forall|j: int| 0 <= j < i ==> #[trigger] out_lens@[j] == sat_usize(m * key@[j].n),
        decreases key@.len() - i,
    {
        let member = key.members[i];
        if member.k != k || member.n % 32 != 0 {
            assert(key@[i as int].k != key@[0].k || key@[i as int].n % 32 != 0);
            return false;
        }
        if out_lens[i] != saturating_product(m, member.n) {
            assert(out_lens@[i as int] != sat_usize(m * key@[i as int].n));
            return false;
        }
        i = i + 1;
    }
    let limit: usize = if m > 64 {
        2048
    } else {
        4096
    };
    let width_ok = match joined_width(&key.members) {
        Some(n) => n >= 96 && n <= 3 * MTILE_MAX_N,
        None => false,
    };
    width_ok && k > 0 && k % 512 == 0 && k <= limit && a_len == saturating_product(m, k)
}

/// Decides whether a call is taken, before any outside work.
pub fn mtile_start(
    target: &MtileTarget,
    a_len: usize,
    out_lens: &[usize],
    direct_enabled: bool,
) -> (stage: MtileStage)
    requires
        !(target is Concat) ==> target.wf(),
    ensures
        stage == (if mtile_accepts(*target, a_len, out_lens@, direct_enabled) {
            MtileStage::Quantize
        } else {
            (MtileStage::Done { status: STATUS_INVALID_ARGUMENT })
        }),
{
    let accepted = match target {
        MtileTarget::Tile { key, m } => tile_height_supported(*m) && is_product(a_len, *m, key.k)
            && out_lens.len() == 1 && is_product(out_lens[0], *m, key.n) && (key.k <= MTILE_CORE_K
            || key.k == MTILE_SLICED_K) && key.k % 512 == 0 && key.n % 32 == 0 && key.n
            <= MTILE_MAX_N,
        MtileTarget::Pool { key, m, split } => tile_height_supported(*m) && is_product(
            a_len,
            *m,
            key.k,
        ) && out_lens.len() == 1 && is_product(out_lens[0], *m, key.n) && key.k > 0 && key.k % 512
            == 0 && key.n > 0 && key.n % 32 == 0 && key.n <= MTILE_MAX_N && match split {
            Int8DecodeSplit::N => key.k <= MTILE_CORE_K && key.n >= MTILE_POOL_MIN_N,
            Int8DecodeSplit::K => key.k > MTILE_CORE_K && key.k <= MTILE_POOL_MAX_K,
        },
        MtileTarget::PairPool { pair: key, m } => tile_height_supported(*m) && key.first.k
            == key.second.k && key.first.n == key.second.n && key.first.k > 0 && key.first.k
            <= MTILE_CORE_K && key.first.k % 512 == 0 && key.first.n >= MTILE_WIDE_MIN_N
            && key.first.n <= MTILE_MAX_N && key.first.n % 32 == 0 && is_product(
            a_len,
            *m,
            key.first.k,
        ) && out_lens.len() == 2 && is_product(out_lens[0], *m, key.first.n) && is_product(
            out_lens[1],
            *m,
            key.first.n,
        ),
        MtileTarget::Concat { joined: key, m } => concat_fits(key, *m, a_len, out_lens, direct_enabled),
        MtileTarget::Grouped { grouped: key } => grouped_fits(key, a_len, out_lens),
        MtileTarget::GroupedPool { grouped: key } => grouped_fits(key, a_len, out_lens) && key.key.n
            >= MTILE_WIDE_MIN_N && key.key.n <= MTILE_MAX_N && key.key.n % 32 == 0,
    };
    if accepted {
        MtileStage::Quantize
    } else {
        MtileStage::Done { status: STATUS_INVALID_ARGUMENT }
    }
}

fn grouped_sizes_fit(key: &GroupedKey, sizes: &WeightSizes) -> (r: bool)
    requires
        key.group_size > 0,
    ensures
        r == grouped_weights_fit(*key, *sizes),
{
    let groups: usize = key.key.k / key.group_size;
    sizes.weights == saturating_product(key.key.n, key.key.k) && sizes.scales == saturating_product(
        groups,
        key.key.n,
    )
}

fn sizes_fit(target: &MtileTarget, sizes: &WeightSizes) -> (r: bool)
    requires
        target.wf(),
    ensures
        r == mtile_weights_fit(*target, *sizes),
{
    match target {
        MtileTarget::Tile { .. } => true,
        MtileTarget::Pool { key, .. } => sizes.weights == saturating_product(key.n, key.k)
            && sizes.scales == key.n,
        MtileTarget::PairPool { pair: key, .. } => {
            let need: usize = saturating_product(key.first.n, key.first.k);
            sizes.weights == need && sizes.second_weights == need && sizes.scales == key.first.n
                && sizes.second_scales == key.first.n
        },
        MtileTarget::Concat { joined: key, .. } => match joined_width(&key.members) {
            Some(n) => sizes.weights == saturating_product(n, key.members[0].k) && sizes.scales
                == n,
            None => false,
        },
        MtileTarget::Grouped { grouped: key } => grouped_sizes_fit(key, sizes),
        MtileTarget::GroupedPool { grouped: key } => grouped_sizes_fit(key, sizes),
    }
}

fn choose_run(target: &MtileTarget, entry: &MtileEntry, persistent: bool) -> (r: Result<
    MtileRun,
    i32,
>)
    requires
        target.wf(),
    ensures
        r == mtile_run(*target, *entry, persistent),
{
    match target {
        MtileTarget::Tile { key, m } => {
            if key.k > MTILE_CORE_K {
                if *m == MTILE_GROUPED_ROWS {
                    Ok(MtileRun::Sliced)
                } else {
                    Err(STATUS_INVALID_ARGUMENT)
                }
            } else if persistent {
                Ok(MtileRun::Persistent)
            } else if *m == MTILE_GROUPED_ROWS {
                Ok(MtileRun::Single)
            } else {
                Err(STATUS_INVALID_ARGUMENT)
            }
        },
        MtileTarget::Pool { .. } => {
            if entry.direct {
                Ok(MtileRun::Direct)
            } else {
                Ok(MtileRun::Pooled)
            }
        },
        MtileTarget::PairPool { .. } => Ok(MtileRun::PairBatch),
        MtileTarget::Concat { .. } => {
            if entry.direct {
                Ok(MtileRun::Direct)
            } else {
                Err(STATUS_EXECUTION_ERROR)
            }
        },
        MtileTarget::Grouped { grouped: key } => {
            if entry.parts != key.key.k / key.group_size {
                Err(STATUS_EXECUTION_ERROR)
            } else if persistent {
                Ok(MtileRun::Persistent)
            } else {
                Ok(MtileRun::Single)
            }
        },
        MtileTarget::GroupedPool { grouped: key } => {
            if entry.parts != key.key.k / key.group_size {
                Err(STATUS_EXECUTION_ERROR)
            } else {
                Ok(MtileRun::Pooled)
            }
        },
    }
}

fn first_part(target: &MtileTarget, entry: MtileEntry, persistent: bool) -> (stage: MtileStage)
    requires
        target.wf(),
    ensures
        forall|s: MtileState|
            #![trigger mtile_execute(s, *target, entry, persistent)]
            mtile_execute(s, *target, entry, persistent) == (MtileStep { state: s, stage }),
{
    match choose_run(target, &entry, persistent) {
        Ok(run) => MtileStage::Execute { entry, run, part: 0 },
        Err(status) => MtileStage::Done { status },
    }
}

impl MtileCache {
    /// No key occurs twice in any table.
    pub open spec fn wf(&self) -> bool {
        &&& self.tiles.wf()
        &&& self.pools.wf()
        &&& self.pair_pools.wf()
        &&& self.concats.wf()
        &&& self.grouped.wf()
        &&& self.grouped_pools.wf()
    }

    /// Nothing resident; `profiled` says whether calls are booked.
    pub fn new(profiled: bool) -> (cache: Self)
        ensures
            cache.wf(),
            cache@ == MtileState::empty(profiled),
    {
        MtileCache {
            tiles: Table::new(),
            pools: Table::new(),
            pair_pools: Table::new(),
            concats: Table::new(),
            grouped: Table::new(),
            grouped_pools: Table::new(),
            profile: if profiled {
                Some(MtileProfile::new())
            } else {
                None
            },
        }
    }

    fn lookup(&self, target: &MtileTarget) -> (r: Option<MtileEntry>)
        requires
            self.wf(),
        ensures
            r == self@.cached(*target),
    {
        let at = match target {
            MtileTarget::Tile { key, .. } => self.tiles.get(key),
            MtileTarget::Pool { key, .. } => self.pools.get(key),
            MtileTarget::PairPool { pair: key, .. } => self.pair_pools.get(key),
            MtileTarget::Concat { joined: key, .. } => self.concats.get(key),
            MtileTarget::Grouped { grouped: key } => self.grouped.get(key),
            MtileTarget::GroupedPool { grouped: key } => self.grouped_pools.get(key),
        };
        match at {
            Some(entry) => Some(*entry),
            None => None,
        }
    }

    fn store(&mut self, target: &MtileTarget, entry: MtileEntry)
        requires
            old(self).wf(),
        ensures
            final(self).wf(),
            final(self)@ == old(self)@.with_cached(*target, entry),
    {
        match target {
            MtileTarget::Tile { key, .. } => {
                self.tiles.insert(*key, entry);
            },
            MtileTarget::Pool { key, .. } => {
                self.pools.insert(*key, entry);
            },
            MtileTarget::PairPool { pair: key, .. } => {
                self.pair_pools.insert(*key, entry);
            },
            MtileTarget::Concat { joined: key, .. } => {
                self.concats.insert(key.copy(), entry);
            },
            MtileTarget::Grouped { grouped: key } => {
                self.grouped.insert(*key, entry);
            },
            MtileTarget::GroupedPool { grouped: key } => {
                self.grouped_pools.insert(*key, entry);
            },
        }
    }

    /// Advances a call by one event. `persistent` says whether scratch buffers
    /// are kept between calls.
    pub fn step(
        &mut self,
        target: &MtileTarget,
        persistent: bool,
        stage: MtileStage,
        event: MtileEvent,
    ) -> (next: MtileStage)
        requires
            old(self).wf(),
            target.wf(),
        ensures
            final(self).wf(),
            (MtileStep { state: final(self)@, stage: next }) == mtile_next(
                old(self)@,
                *target,
                persistent,
                stage,
                event,
            ),
    {
        let count: usize = match target {
            MtileTarget::PairPool { .. } => 2,
            _ => 1,
        };
        match stage {
            MtileStage::Quantize => match event {
                MtileEvent::Quantized { ok, quant_ns } => {
                    if !ok {
                        return MtileStage::Done { status: STATUS_INVALID_ARGUMENT };
                    }
                    if let Some(mut p) = self.profile {
                        p.count_quant(quant_ns);
                        self.profile = Some(p);
                    }
                    match self.lookup(target) {
                        Some(entry) => {
                            if let Some(mut p) = self.profile {
                                p.count_hit(count);
                                self.profile = Some(p);
                            }
                            first_part(target, entry, persistent)
                        },
                        None => MtileStage::Weights,
                    }
                },
                _ => stage,
            },
            MtileStage::Weights => match event {
                MtileEvent::Weights { sizes, prepare_ns } => match sizes {
                    None => MtileStage::Done { status: STATUS_INVALID_ARGUMENT },
                    Some(sizes) => {
                        if sizes_fit(target, &sizes) {
                            MtileStage::Prepare { prepare_ns }
                        } else {
                            MtileStage::Done { status: STATUS_INVALID_ARGUMENT }
                        }
                    },
                },
                _ => stage,
            },
            MtileStage::Prepare { prepare_ns } => match event {
                MtileEvent::Prepared { entry, pack_ns } => match entry {
                    None => MtileStage::Done { status: STATUS_EXECUTION_ERROR },
                    Some(entry) => {
                        self.store(target, entry);
                        if let Some(mut p) = self.profile {
                            match target {
                                MtileTarget::Concat { .. } => {
                                    p.count_miss(1, prepare_ns.saturating_add(pack_ns), 0);
                                },
                                _ => {
                                    p.count_miss(count, prepare_ns, pack_ns);
                                },
                            }
                            self.profile = Some(p);
                        }
                        first_part(target, entry, persistent)
                    },
                },
                _ => stage,
            },
            MtileStage::Execute { entry, run, part } => match event {
                MtileEvent::Executed { report } => match report {
                    None => MtileStage::Done { status: STATUS_EXECUTION_ERROR },
                    Some(report) => {
                        let one_core = match target {
                            MtileTarget::Tile { .. } => true,
                            MtileTarget::Grouped { .. } => true,
                            _ => false,
                        };
                        if let Some(mut p) = self.profile {
                            p.count_run(count, one_core, &report);
                            self.profile = Some(p);
                        }
                        let parts: usize = match target {
                            MtileTarget::Grouped { grouped: key } => key.key.k / key.group_size,
                            MtileTarget::GroupedPool { grouped: key } => key.key.k / key.group_size,
                            _ => 1,
                        };
                        if part < parts && part + 1 < parts {
                            MtileStage::Execute { entry, run, part: part + 1 }
                        } else {
                            MtileStage::Done { status: STATUS_OK }
                        }
                    },
                },
                _ => stage,
            },
            MtileStage::Done { status: _ } => stage,
        }
    }
}

/// Whether two targets ask for the same resident weights. The height of the tile
/// and the axis that the cores share are no part of what is resident.
pub open spec fn same_weights(a: MtileTarget, b: MtileTarget) -> bool {
    match (a, b) {
        (MtileTarget::Tile { key: a, .. }, MtileTarget::Tile { key: b, .. }) => a == b,
        (MtileTarget::Pool { key: a, .. }, MtileTarget::Pool { key: b, .. }) => a == b,
        (MtileTarget::PairPool { pair: a, .. }, MtileTarget::PairPool { pair: b, .. }) => a == b,
        (MtileTarget::Concat { joined: a, .. }, MtileTarget::Concat { joined: b, .. }) => a@ == b@,
        (MtileTarget::Grouped { grouped: a }, MtileTarget::Grouped { grouped: b }) => a == b,
        (MtileTarget::GroupedPool { grouped: a }, MtileTarget::GroupedPool { grouped: b }) => a
            == b,
        _ => false,
    }
}

/// Weights that one call made resident are found by the next call for the same
/// weights, whatever the height of its tile.
pub proof fn law_second_tile_hits(
    s: MtileState,
    target: MtileTarget,
    second: MtileTarget,
    entry: MtileEntry,
    persistent: bool,
    prepare_ns: u128,
    pack_ns: u128,
    quant_ns: u128,
)
    requires
        same_weights(target, second),
    ensures
        ({
            let stored = mtile_next(
                s,
                target,
                persistent,
                MtileStage::Prepare { prepare_ns },
                MtileEvent::Prepared { entry: Some(entry), pack_ns },
            );
            let again = mtile_next(
                stored.state,
                second,
                persistent,
                MtileStage::Quantize,
                MtileEvent::Quantized { ok: true, quant_ns },
            );
            &&& stored.state.cached(second) == Some(entry)
            &&& again.stage == mtile_execute(stored.state, second, entry, persistent).stage
            &&& !(again.stage is Weights)
        }),
{
}

/// A grouped call runs its groups in order, each exactly once: after `part` runs
/// the next due part is `part + 1`, and the call is over after the last group.
pub proof fn law_groups_run_in_order(
    s: MtileState,
    target: MtileTarget,
    persistent: bool,
    entry: MtileEntry,
    run: MtileRun,
    part: usize,
    report: MtileReport,
)
    requires
        part < part_count(target),
    ensures
        ({
            let next = mtile_next(
                s,
                target,
                persistent,
                MtileStage::Execute { entry, run, part },
                MtileEvent::Executed { report: Some(report) },
            );
            if part + 1 == part_count(target) {
                next.stage == (MtileStage::Done { status: STATUS_OK })
            } else {
                next.stage == (MtileStage::Execute { entry, run, part: (part + 1) as usize })
            }
        }),
{
}

/// How weights are to be made resident.
#[derive(Clone, Copy, Debug, PartialEq, Eq, Structural)]
pub struct PrepareRequest {
    /// Row length of each part.
    pub k: usize,
    /// Output columns of each part.
    pub n: usize,
    /// Parts that are prepared one after the other.
    pub parts: usize,
    /// The pool workers and the axis they share, or one core.
    pub pool: Option<DecodeChoice>,
    /// Whether the weights are laid out for direct submission.
    pub direct: bool,
}

/// The request for a target's weights.
///
/// Joined matrices take a worker per 32 columns, up to three.
pub open spec fn mtile_request(target: MtileTarget, direct_enabled: bool) -> PrepareRequest {
    match target {
        MtileTarget::Tile { key, .. } => PrepareRequest {
            k: key.k,
            n: key.n,
            parts: 1,
            pool: None,
            direct: false,
        },
        MtileTarget::Pool { key, split, .. } => PrepareRequest {
            k: key.k,
            n: key.n,
            parts: 1,
            pool: Some(DecodeChoice { split, workers: 3 }),
            direct: direct_enabled,
        },
        MtileTarget::PairPool { pair: key, .. } => PrepareRequest {
            k: key.first.k,
            n: key.first.n,
            parts: 2,
            pool: Some(DecodeChoice { split: Int8DecodeSplit::N, workers: 3 }),
            direct: false,
        },
        MtileTarget::Concat { joined: key, .. } => PrepareRequest {
            k: key@[0].k,
            n: joined_columns(key@) as usize,
            parts: 1,
            pool: Some(
                DecodeChoice {
                    split: Int8DecodeSplit::N,
                    workers: if joined_columns(key@) / 32 < 3 {
                        (joined_columns(key@) / 32) as usize
                    } else {
                        3
                    },
                },
            ),
            direct: true,
        },
        MtileTarget::Grouped { grouped: key } => PrepareRequest {
            k: key.group_size,
            n: key.key.n,
            parts: group_count(key) as usize,
            pool: None,
            direct: false,
        },
        MtileTarget::GroupedPool { grouped: key } => PrepareRequest {
            k: key.group_size,
            n: key.key.n,
            parts: group_count(key) as usize,
            pool: Some(DecodeChoice { split: Int8DecodeSplit::N, workers: 3 }),
            direct: false,
        },
    }
}

/// Says how a target's weights are to be made resident.
pub fn prepare_request(target: &MtileTarget, direct_enabled: bool) -> (r: PrepareRequest)
    requires
        target.wf(),
        *target matches MtileTarget::Concat { joined: key, .. } ==> joined_columns(key@) <= usize::MAX,
    ensures
        r == mtile_request(*target, direct_enabled),
{
    match target {
        MtileTarget::Tile { key, .. } => PrepareRequest {
            k: key.k,
            n: key.n,
            parts: 1,
            pool: None,
            direct: false,
        },
        MtileTarget::Pool { key, split, .. } => PrepareRequest {
            k: key.k,
            n: key.n,
            parts: 1,
            pool: Some(DecodeChoice { split: *split, workers: 3 }),
            direct: direct_enabled,
        },
        MtileTarget::PairPool { pair: key, .. } => PrepareRequest {
            k: key.first.k,
            n: key.first.n,
            parts: 2,
            pool: Some(DecodeChoice { split: Int8DecodeSplit::N, workers: 3 }),
            direct: false,
        },
        MtileTarget::Concat { joined: key, .. } => {
            proof {
                lemma_joined_prefix(key@, 0);
            }
            let n: usize = match joined_width(&key.members) {
                Some(n) => n,
                None => 0,
            };
            let blocks: usize = n / 32;
            let workers: usize = if blocks < 3 {
                blocks
            } else {
                3
            };
            PrepareRequest {
                k: key.members[0].k,
                n,
                parts: 1,
                pool: Some(DecodeChoice { split: Int8DecodeSplit::N, workers }),
                direct: true,
            }
        },
        MtileTarget::Grouped { grouped: key } => PrepareRequest {
            k: key.group_size,
            n: key.key.n,
            parts: key.key.k / key.group_size,
            pool: None,
            direct: false,
        },
        MtileTarget::GroupedPool { grouped: key } => PrepareRequest {
            k: key.group_size,
            n: key.key.n,
            parts: key.key.k / key.group_size,
            pool: Some(DecodeChoice { split: Int8DecodeSplit::N, workers: 3 }),
            direct: false,
        },
    }
}

/// The target for a K that is no multiple of 512: the same matrix with K padded
/// up, cut along K beyond one core's limit, along N where it is wide enough, and
/// on one core otherwise.
pub open spec fn padded_target(key: DecodeWeightKey, m: usize) -> MtileTarget {
    let padded = DecodeWeightKey { k: aligned(key.k as int, 512) as usize, ..key };
    if padded.k > MTILE_CORE_K {
        MtileTarget::Pool { key: padded, m, split: Int8DecodeSplit::K }
    } else if key.n >= MTILE_POOL_MIN_N {
        MtileTarget::Pool { key: padded, m, split: Int8DecodeSplit::N }
    } else {
        MtileTarget::Tile { key: padded, m }
    }
}

/// Plans a projection whose K is padded with zeros to a multiple of 512.
///
/// Activations that do not fill `m` rows of the unpadded K are refused.
pub fn execute_padded_k_mtile(key: &DecodeWeightKey, m: usize, a_len: usize) -> (r: Result<
    MtileTarget,
    i32,
>)
    requires
        aligned(key.k as int, 512) <= usize::MAX,
    ensures
        r == (if a_len == m * key.k {
            Ok(padded_target(*key, m))
        } else {
            Err::<MtileTarget, i32>(STATUS_INVALID_ARGUMENT)
        }),
{
    if !is_product(a_len, m, key.k) {
        return Err(STATUS_INVALID_ARGUMENT);
    }
    let kp: usize = match next_multiple(key.k, 512) {
        Some(kp) => kp,
        None => 0,
    };
    let padded = DecodeWeightKey {
        address: key.address,
        bytes: key.bytes,
        k: kp,
        n: key.n,
        kind: key.kind,
    };
    if kp > MTILE_CORE_K {
        Ok(MtileTarget::Pool { key: padded, m, split: Int8DecodeSplit::K })
    } else if key.n >= MTILE_POOL_MIN_N {
        Ok(MtileTarget::Pool { key: padded, m, split: Int8DecodeSplit::N })
    } else {
        Ok(MtileTarget::Tile { key: padded, m })
    }
}

/// Shapes that are worth preparing ahead of their first use.
pub open spec fn prewarm_shape(k: int, n: int) -> bool {
    (k == 2048 && (n == 256 || n == 2048 || n == 5632)) || (k == 5632 && n == 2048)
}

/// Where a matrix is prepared ahead of its first use, if at all.
pub open spec fn prewarm_target(
    key: DecodeWeightKey,
    shape_enabled: bool,
    multicore: bool,
) -> Option<MtileTarget> {
    if !prewarm_shape(key.k as int, key.n as int) || !shape_enabled {
        None
    } else if multicore && key.n >= MTILE_WIDE_MIN_N {
        Some(
            MtileTarget::Pool {
                key,
                m: MTILE_GROUPED_ROWS,
                split: if key.k > MTILE_CORE_K {
                    Int8DecodeSplit::K
                } else {
                    Int8DecodeSplit::N
                },
            },
        )
    } else {
        Some(MtileTarget::Tile { key, m: MTILE_GROUPED_ROWS })
    }
}

/// The outside work that preparing ahead needs.
pub enum PrewarmStage {
    /// Produce eight-bit weights and their scales on the host.
    Weights { target: MtileTarget },
    /// Make the weights resident, not for direct submission.
    Prepare { target: MtileTarget },
    /// Nothing: the call is over.
    Done { status: i32 },
}

/// The first stage of preparing ahead: nothing is due for a shape that is left
/// alone, nor for weights that are resident already.
pub open spec fn prewarm_first(s: MtileState, target: Option<MtileTarget>) -> PrewarmStage {
    match target {
        Some(target) => if s.cached(target) is Some {
            PrewarmStage::Done { status: STATUS_OK }
        } else {
            PrewarmStage::Weights { target }
        },
        None => PrewarmStage::Done { status: STATUS_OK },
    }
}

impl MtileCache {
    /// Starts preparing a matrix ahead of its first use.
    pub fn prewarm_start(
        &self,
        key: &DecodeWeightKey,
        shape_enabled: bool,
        multicore: bool,
    ) -> (stage: PrewarmStage)
        requires
            self.wf(),
        ensures
            stage == prewarm_first(self@, prewarm_target(*key, shape_enabled, multicore)),
    {
        let supported = (key.k == 2048 && (key.n == 256 || key.n == 2048 || key.n == 5632)) || (
        key.k == 5632 && key.n == 2048);
        if !supported || !shape_enabled {
            return PrewarmStage::Done { status: STATUS_OK };
        }
        let target = if multicore && key.n >= MTILE_WIDE_MIN_N {
            let split = if key.k > MTILE_CORE_K {
                Int8DecodeSplit::K
            } else {
                Int8DecodeSplit::N
            };
            MtileTarget::Pool { key: *key, m: MTILE_GROUPED_ROWS, split }
        } else {
            MtileTarget::Tile { key: *key, m: MTILE_GROUPED_ROWS }
        };
        match self.lookup(&target) {
            Some(_) => PrewarmStage::Done { status: STATUS_OK },
            None => PrewarmStage::Weights { target },
        }
    }

    /// Takes the host weights of a matrix that is prepared ahead.
    pub fn prewarm_weights(
        &self,
        key: &DecodeWeightKey,
        target: MtileTarget,
        sizes: Option<(usize, usize)>,
    ) -> (stage: PrewarmStage)
        ensures
            stage == (match sizes {
                Some((weights, scales)) => if weights == sat_usize(key.n * key.k) && scales
                    == key.n {
                    PrewarmStage::Prepare { target }
                } else {
                    PrewarmStage::Done { status: STATUS_INVALID_ARGUMENT }
                },
                None => PrewarmStage::Done { status: STATUS_INVALID_ARGUMENT },
            }),
    {
        match sizes {
            Some((weights, scales)) => {
                if weights == saturating_product(key.n, key.k) && scales == key.n {
                    PrewarmStage::Prepare { target }
                } else {
                    PrewarmStage::Done { status: STATUS_INVALID_ARGUMENT }
                }
            },
            None => PrewarmStage::Done { status: STATUS_INVALID_ARGUMENT },
        }
    }

    /// Takes the resident weights of a matrix that is prepared ahead. Nothing is
    /// booked on the account.
    pub fn prewarm_prepared(
        &mut self,
        target: &MtileTarget,
        entry: Option<MtileEntry>,
    ) -> (stage: PrewarmStage)
        requires
            old(self).wf(),
        ensures
            final(self).wf(),
            match entry {
                Some(entry) => final(self)@ == old(self)@.with_cached(*target, entry) && stage == (
                PrewarmStage::Done { status: STATUS_OK }),
                None => final(self)@ == old(self)@ && stage == (PrewarmStage::Done {
                    status: STATUS_EXECUTION_ERROR,
                }),
            },
    {
        match entry {
            Some(entry) => {
                self.store(target, entry);
                PrewarmStage::Done { status: STATUS_OK }
            },
            None => PrewarmStage::Done { status: STATUS_EXECUTION_ERROR },
        }
    }
}

/// Repeated preparation reuses what is resident: after weights were prepared
/// ahead, preparing them again asks for no work, and the first tile call hits.
pub proof fn law_prewarm_is_reused(
    s: MtileState,
    key: DecodeWeightKey,
    shape_enabled: bool,
    multicore: bool,
    target: MtileTarget,
    entry: MtileEntry,
    quant_ns: u128,
    persistent: bool,
)
    requires
        prewarm_target(key, shape_enabled, multicore) == Some(target),
    ensures
        prewarm_first(
            s.with_cached(target, entry),
            prewarm_target(key, shape_enabled, multicore),
        ) == (PrewarmStage::Done { status: STATUS_OK }),
        !(mtile_next(
            s.with_cached(target, entry),
            target,
            persistent,
            MtileStage::Quantize,
            MtileEvent::Quantized { ok: true, quant_ns },
        ).stage is Weights),
{
}

/// Tiles are four to sixteen rows high in steps of four, up to 64 in steps of
/// sixteen, or 128.
pub proof fn law_tile_heights(m: int)
    ensures
        is_tile_height(m) <==> {
            ||| 0 < m <= 16 && m % 4 == 0
            ||| 16 < m <= 64 && m % 16 == 0
            ||| m == 128
        },
{
}

/// The weights of a target that is spread over the cores are made resident along
/// the axis that the target names: a pool goes by its own split, and everything
/// else that is spread goes along N. What runs on one core asks for no pool.
pub proof fn law_weights_are_cut_along_the_targets_axis(target: MtileTarget, direct_enabled: bool)
    ensures
        ({
            let pool = mtile_request(target, direct_enabled).pool;
            match target {
                MtileTarget::Pool { key, m, split } => pool is Some && pool->0.split == split,
                MtileTarget::Tile { .. } => pool is None,
                MtileTarget::Grouped { .. } => pool is None,
                _ => pool is Some && pool->0.split == Int8DecodeSplit::N,
            }
        }),
{
}

/// No core gets more of K than it takes: where the cores share K, three times a
/// core's 4096 hold it; otherwise every core has all of K, and that is no more
/// than 4096. One K of 5632 runs on a single core in slices.
pub proof fn law_no_core_gets_more_than_it_takes(
    target: MtileTarget,
    a_len: usize,
    out_lens: Seq<usize>,
    direct_enabled: bool,
)
    requires
        target.wf(),
        mtile_accepts(target, a_len, out_lens, direct_enabled),
    ensures
        ({
            let r = mtile_request(target, direct_enabled);
            &&& r.pool is Some ==> r.pool->0.workers == 3
            &&& r.pool is Some && r.pool->0.split == Int8DecodeSplit::K ==> {
                &&& r.k <= r.pool->0.workers * 4096
                &&& r.k > 4096
            }
            &&& r.pool is Some && r.pool->0.split == Int8DecodeSplit::N ==> {
                &&& r.k <= 4096
                &&& r.n >= r.pool->0.workers * 32
            }
            &&& r.pool is None ==> r.k <= 4096 || r.k == 5632
            &&& r.k % 512 == 0
        }),
{
}

/// The parts of a target's weights are the whole matrix: together they cover the
/// activation rows and the output columns of every call that is taken.
pub proof fn law_parts_cover_the_call(
    target: MtileTarget,
    a_len: usize,
    out_lens: Seq<usize>,
    direct_enabled: bool,
)
    requires
        target.wf(),
        mtile_accepts(target, a_len, out_lens, direct_enabled),
    ensures
        ({
            let r = mtile_request(target, direct_enabled);
            let m = target.spec_rows();
            &&& a_len == m * target.spec_k()
            &&& if target is PairPool {
                &&& r.parts == 2
                &&& m * r.k == a_len
                &&& out_lens.len() == 2
                &&& out_lens[0] == m * r.n
                &&& out_lens[1] == m * r.n
            } else {
                &&& m * (r.k * r.parts) == a_len
                &&& m * r.n == crate::plan::member_start(out_lens, out_lens.len() as int)
                &&& out_lens.len() == 1 ==> out_lens[0] == m * r.n
            }
        }),
{
    let r = mtile_request(target, direct_enabled);
    match target {
        MtileTarget::Concat { joined, m } => {
            let members = joined@;
            lemma_no_cut_off(m as int, members[0].k as int);
            lemma_joined_outputs(members, out_lens, m as int, members.len() as int);
            assert(members.take(members.len() as int) =~= members);
            reveal_with_fuel(crate::plan::member_start, 2);
            assert(m * (r.k * 1) == m * r.k) by (nonlinear_arith);
        },
        MtileTarget::Grouped { grouped } | MtileTarget::GroupedPool { grouped } => {
            let (k, g) = (grouped.key.k as int, grouped.group_size as int);
            vstd::arithmetic::div_mod::lemma_fundamental_div_mod(k, g);
            assert(g * (k / g) == k);
            reveal_with_fuel(crate::plan::member_start, 2);
        },
        MtileTarget::PairPool { .. } => {},
        _ => {
            reveal_with_fuel(crate::plan::member_start, 2);
            assert(r.k * 1 == r.k);
        },
    }
}

proof fn lemma_no_cut_off(m: int, width: int)
    requires
        0 <= m <= 128,
        0 <= width <= 24576,
    ensures
        0 <= m * width <= usize::MAX,
        sat_usize(m * width) == m * width,
{
    assert(0 <= m * width <= 128 * 24576) by (nonlinear_arith)
        requires
            0 <= m <= 128,
            0 <= width <= 24576,
    ;
}

proof fn lemma_joined_outputs(
    members: Seq<DecodeWeightKey>,
    out_lens: Seq<usize>,
    m: int,
    count: int,
)
    requires
        0 <= m <= 128,
        0 <= count <= members.len() == out_lens.len(),
        joined_columns(members) <= 24576,
        forall|i: int|
            0 <= i < members.len() ==> #[trigger] out_lens[i] == sat_usize(m * members[i].n),
    ensures
        m * joined_columns(members.take(count)) == crate::plan::member_start(out_lens, count),
    decreases count,
{
    if count > 0 {
        lemma_joined_outputs(members, out_lens, m, count - 1);
        assert(members.take(count).drop_last() =~= members.take(count - 1));
        assert(members.take(count).last() == members[count - 1]);
        lemma_joined_prefix(members, count);
        lemma_joined_prefix(members, count - 1);
        let (before, n) = (joined_columns(members.take(count - 1)), members[count - 1].n as int);
        lemma_no_cut_off(m, n);
        assert(out_lens[count - 1] == sat_usize(m * members[count - 1].n));
        assert(m * (before + n) == m * before + m * n) by (nonlinear_arith);
    } else {
        assert(members.take(0) =~= Seq::<DecodeWeightKey>::empty());
        assert(m * 0 == 0) by (nonlinear_arith);
    }
}

/// The columns of joined members are counted one member after the other.
pub proof fn law_joined_columns_add_up(members: Seq<DecodeWeightKey>, ns: Seq<usize>)
    requires
        ns.len() == members.len(),
        forall|i: int| 0 <= i < ns.len() ==> #[trigger] ns[i] == members[i].n,
    ensures
        joined_columns(members) == crate::plan::member_start(ns, ns.len() as int),
    decreases members.len(),
{
    if members.len() > 0 {
        let last = members.len() - 1;
        law_joined_columns_add_up(members.drop_last(), ns.drop_last());
        lemma_same_starts(ns.drop_last(), ns, last);
        assert(ns[last] == members[last].n);
    }
}

proof fn lemma_same_starts(a: Seq<usize>, b: Seq<usize>, count: int)
    requires
        0 <= count <= a.len(),
        count <= b.len(),
        forall|i: int| 0 <= i < count ==> #[trigger] a[i] == b[i],
    ensures
        crate::plan::member_start(a, count) == crate::plan::member_start(b, count),
    decreases count,
{
    if count > 0 {
        lemma_same_starts(a, b, count - 1);
        assert(a[count - 1] == b[count - 1]);
    }
}

/// Host weights that are taken fill the parts that are asked for: one value for
/// each of their columns and rows, and one scale for each column of each part.
pub proof fn law_host_weights_fill_the_parts(
    target: MtileTarget,
    a_len: usize,
    out_lens: Seq<usize>,
    direct_enabled: bool,
    sizes: WeightSizes,
)
    requires
        target.wf(),
        !(target is Tile),
        mtile_accepts(target, a_len, out_lens, direct_enabled),
        match target {
            MtileTarget::Grouped { grouped } => grouped.key.n * grouped.key.k <= usize::MAX,
            MtileTarget::GroupedPool { grouped } => grouped.key.n * grouped.key.k <= usize::MAX,
            _ => true,
        },
    ensures
        ({
            let r = mtile_request(target, direct_enabled);
            let fits = if target is PairPool {
                &&& sizes.weights == r.k * r.n
                &&& sizes.second_weights == r.k * r.n
                &&& sizes.scales == r.n
                &&& sizes.second_scales == r.n
            } else {
                &&& sizes.weights == r.k * r.n * r.parts
                &&& sizes.scales == r.n * r.parts
            };
            mtile_weights_fit(target, sizes) <==> fits
        }),
{
    let r = mtile_request(target, direct_enabled);
    let (k, n, parts) = (r.k as int, r.n as int, r.parts as int);
    assert(k * n == n * k) by (nonlinear_arith);
    match target {
        MtileTarget::Grouped { grouped } | MtileTarget::GroupedPool { grouped } => {
            let (kk, g) = (grouped.key.k as int, grouped.group_size as int);
            vstd::arithmetic::div_mod::lemma_fundamental_div_mod(kk, g);
            assert(k * n * parts == n * kk) by (nonlinear_arith)
                requires
                    kk == k * parts,
            ;
            assert(parts * n == n * parts) by (nonlinear_arith);
            assert(n * parts <= n * kk) by (nonlinear_arith)
                requires
                    kk == k * parts,
                    k >= 1,
                    n >= 0,
                    parts >= 0,
            ;
        },
        _ => {
            assert(k * n * 1 == k * n && n * 1 == n);
            assert(n * k <= 24576 * 12288) by (nonlinear_arith)
                requires
                    0 <= n <= 24576,
                    0 <= k <= 12288,
            ;
        },
    }
}

/// Direct submission is asked for where a pool may use it, and always for joined
/// matrices, which are taken only where it is enabled; never otherwise.
pub proof fn law_direct_submission_is_asked_for(
    target: MtileTarget,
    a_len: usize,
    out_lens: Seq<usize>,
    direct_enabled: bool,
)
    requires
        mtile_accepts(target, a_len, out_lens, direct_enabled),
    ensures
        mtile_request(target, direct_enabled).direct == (direct_enabled && (target is Pool
            || target is Concat)),
{
}

/// A call is taken exactly where its tile has a height of the device, activations
/// and outputs fill whole rows, K comes in multiples of 512 and columns in
/// multiples of 32, and the cores have room for it.
pub proof fn law_taken_tiles(
    key: DecodeWeightKey,
    m: usize,
    split: Int8DecodeSplit,
    a_len: usize,
    out: usize,
    direct_enabled: bool,
)
    ensures
        ({
            let tile = MtileTarget::Tile { key, m };
            let pool = MtileTarget::Pool { key, m, split };
            let shape = {
                &&& is_tile_height(m as int)
                &&& m * key.k == a_len
                &&& m * key.n == out
                &&& key.k % 512 == 0
                &&& key.n % 32 == 0
                &&& key.n <= 8192
            };
            &&& mtile_accepts(tile, a_len, seq![out], direct_enabled) <==> shape && (key.k <= 4096
                || key.k == 5632)
            &&& mtile_accepts(pool, a_len, seq![out], direct_enabled) <==> shape && key.k > 0
                && key.n > 0 && (if split == Int8DecodeSplit::K {
                4096 < key.k <= 12288
            } else {
                key.k <= 4096 && key.n >= 768
            })
        }),
{
    assert(seq![out][0] == out);
}

/// A pair is taken exactly where its two matrices have the same shape, that shape
/// is at least 2048 columns wide, and one core takes its K.
pub proof fn law_taken_pairs(
    pair: DecodePairKey,
    m: usize,
    a_len: usize,
    first: usize,
    second: usize,
    direct_enabled: bool,
)
    ensures
        mtile_accepts(
            MtileTarget::PairPool { pair, m },
            a_len,
            seq![first, second],
            direct_enabled,
        ) <==> {
            &&& is_tile_height(m as int)
            &&& pair.second.k == pair.first.k
            &&& pair.second.n == pair.first.n
            &&& m * pair.first.k == a_len
            &&& m * pair.first.n == first
            &&& m * pair.second.n == second
            &&& 1 <= pair.first.k <= 4096 && pair.first.k % 512 == 0
            &&& 2048 <= pair.first.n <= 8192 && pair.first.n % 32 == 0
        },
{
    assert(seq![first, second][0] == first && seq![first, second][1] == second);
}

/// A joined call is taken exactly where all members share K and come in blocks of
/// 32 columns, 96 to 24576 of them together; K is at most 4096, and half of that
/// for tiles of more than 64 rows.
pub proof fn law_taken_joins(
    joined: ConcatKey,
    m: usize,
    a_len: usize,
    out_lens: Seq<usize>,
    direct_enabled: bool,
)
    requires
        joined@.len() == out_lens.len(),
        joined@.len() > 0,
    ensures
        mtile_accepts(MtileTarget::Concat { joined, m }, a_len, out_lens, direct_enabled) <==> {
            let k = joined@[0].k;
            &&& direct_enabled
            &&& is_tile_height(m as int)
            &&& 1 <= k <= 4096 && k % 512 == 0
            &&& m > 64 ==> k <= 2048
            &&& 96 <= joined_columns(joined@) <= 24576
            &&& m * k == a_len
            &&& forall|i: int|
                0 <= i < out_lens.len() ==> {
                    &&& (#[trigger] joined@[i]).k == k
                    &&& joined@[i].n % 32 == 0
                    &&& m * joined@[i].n == out_lens[i]
                }
        },
{
    let members = joined@;
    let count = members.len() as int;
    let k = members[0].k;
    if joined_columns(members) <= 24576 && is_tile_height(m as int) {
        assert forall|i: int| 0 <= i < count implies sat_usize(m * (#[trigger] members[i]).n) == m
            * members[i].n by {
            lemma_member_columns(members, i);
            lemma_no_cut_off(m as int, members[i].n as int);
        }
    }
    if k <= 4096 && is_tile_height(m as int) {
        lemma_no_cut_off(m as int, k as int);
    }
    let taken = mtile_accepts(MtileTarget::Concat { joined, m }, a_len, out_lens, direct_enabled);
    if taken {
        assert forall|i: int| 0 <= i < out_lens.len() implies {
            &&& (#[trigger] joined@[i]).k == k
            &&& joined@[i].n % 32 == 0
            &&& m * joined@[i].n == out_lens[i]
        } by {
            assert(out_lens[i] == sat_usize(m * members[i].n));
        }
    } else if joined_columns(members) <= 24576 && is_tile_height(m as int) && k <= 4096 {
        if forall|i: int|
            0 <= i < out_lens.len() ==> {
                &&& (#[trigger] joined@[i]).k == k
                &&& joined@[i].n % 32 == 0
                &&& m * joined@[i].n == out_lens[i]
            } {
            assert forall|i: int| 0 <= i < count implies #[trigger] out_lens[i] == sat_usize(
                m * members[i].n,
            ) by {
                assert(m * joined@[i].n == out_lens[i]);
            }
        }
    }
}

proof fn lemma_member_columns(members: Seq<DecodeWeightKey>, i: int)
    requires
        0 <= i < members.len(),
    ensures
        members[i].n <= joined_columns(members),
    decreases members.len(),
{
    lemma_joined_prefix(members, members.len() - 1);
    assert(members.take(members.len() - 1) =~= members.drop_last());
    if i < members.len() - 1 {
        lemma_member_columns(members.drop_last(), i);
    }
}

/// A grouped call is taken exactly where K is two or more whole groups, each a
/// multiple of 512 that one core takes, for sixteen rows; across the cores it must
/// also be 2048 to 8192 columns wide, in blocks of 32.
pub proof fn law_taken_groups(grouped: GroupedKey, a_len: usize, out: usize, direct_enabled: bool)
    requires
        grouped.group_size > 0,
    ensures
        ({
            let (k, n, g) = (grouped.key.k, grouped.key.n, grouped.group_size);
            let shape = {
                &&& k >= 2 * g
                &&& k % g == 0
                &&& g % 512 == 0
                &&& g <= 4096
                &&& 16 * k == a_len
                &&& 16 * n == out
            };
            &&& mtile_accepts(
                MtileTarget::Grouped { grouped },
                a_len,
                seq![out],
                direct_enabled,
            ) <==> shape
            &&& mtile_accepts(
                MtileTarget::GroupedPool { grouped },
                a_len,
                seq![out],
                direct_enabled,
            ) <==> shape && 2048 <= n <= 8192 && n % 32 == 0
        }),
{
    assert(seq![out][0] == out);
    let (k, g) = (grouped.key.k as int, grouped.group_size as int);
    vstd::arithmetic::div_mod::lemma_fundamental_div_mod(k, g);
    let q = k / g;
    assert(q >= 2 <==> k >= 2 * g) by (nonlinear_arith)
        requires
            k == g * q + k % g,
            0 <= k % g < g,
    ;
}

/// A target's rows share one scale each, unless its K is cut into groups: such a
/// target has sixteen rows and the scales of its groups.
pub proof fn law_grouped_targets_have_sixteen_rows(target: MtileTarget)
    ensures
        target.spec_group() is Some <==> target is Grouped || target is GroupedPool,
        target.spec_group() is Some ==> target.spec_rows() == 16,
        target matches MtileTarget::Grouped { grouped } ==> {
            &&& target.spec_group() == Some(grouped.group_size)
            &&& target.spec_k() == grouped.key.k
        },
        target matches MtileTarget::GroupedPool { grouped } ==> {
            &&& target.spec_group() == Some(grouped.group_size)
            &&& target.spec_k() == grouped.key.k
        },
{
}

/// Resident weights run the way they were made for: what is on one core runs
/// there, in slices exactly where K is beyond a core's 4096; joined matrices run
/// directly or not at all, and a pool directly where it was laid out for it.
pub proof fn law_weights_run_as_they_were_made(
    target: MtileTarget,
    entry: MtileEntry,
    persistent: bool,
)
    ensures
        ({
            let run = mtile_run(target, entry, persistent);
            match target {
                MtileTarget::Tile { key, m } => {
                    &&& run is Ok <==> m == 16 || (persistent && key.k <= 4096)
                    &&& run is Err ==> run->Err_0 == -1
                    &&& run is Ok && key.k > 4096 ==> run->Ok_0 == MtileRun::Sliced
                    &&& run is Ok && key.k <= 4096 ==> run->Ok_0 == (if persistent {
                        MtileRun::Persistent
                    } else {
                        MtileRun::Single
                    })
                },
                MtileTarget::Pool { .. } => {
                    &&& run is Ok
                    &&& run->Ok_0 == MtileRun::Direct <==> entry.direct
                    &&& run->Ok_0 == MtileRun::Pooled <==> !entry.direct
                },
                MtileTarget::PairPool { .. } => run is Ok && run->Ok_0 == MtileRun::PairBatch,
                MtileTarget::Concat { .. } => {
                    &&& run is Ok <==> entry.direct
                    &&& run is Ok ==> run->Ok_0 == MtileRun::Direct
                    &&& run is Err ==> run->Err_0 == -3
                },
                MtileTarget::Grouped { grouped } => {
                    &&& run is Ok <==> entry.parts == grouped.key.k as int
                        / grouped.group_size as int
                    &&& run is Ok ==> run->Ok_0 == (if persistent {
                        MtileRun::Persistent
                    } else {
                        MtileRun::Single
                    })
                    &&& run is Err ==> run->Err_0 == -3
                },
                MtileTarget::GroupedPool { grouped } => {
                    &&& run is Ok <==> entry.parts == grouped.key.k as int
                        / grouped.group_size as int
                    &&& run is Ok ==> run->Ok_0 == MtileRun::Pooled
                    &&& run is Err ==> run->Err_0 == -3
                },
            }
        }),
{
}

/// Weights that were made as asked are run: a call that is taken ends in an error
/// after preparing only on one core, for a tile of other than sixteen rows that
/// keeps no scratch buffers or whose K needs slices.
pub proof fn law_prepared_weights_are_run(
    target: MtileTarget,
    a_len: usize,
    out_lens: Seq<usize>,
    direct_enabled: bool,
    entry: MtileEntry,
    persistent: bool,
)
    requires
        target.wf(),
        mtile_accepts(target, a_len, out_lens, direct_enabled),
        entry.parts == mtile_request(target, direct_enabled).parts,
        entry.direct == mtile_request(target, direct_enabled).direct,
        target matches MtileTarget::Tile { key, m } ==> m == 16 || (persistent && key.k <= 4096),
    ensures
        mtile_run(target, entry, persistent) is Ok,
{
}

/// A call has as many runs as its weights have parts, but for a pair, whose two
/// parts run together.
pub proof fn law_parts_are_run_one_by_one(target: MtileTarget, direct_enabled: bool)
    requires
        target.wf(),
    ensures
        part_count(target) * matrices(target) == mtile_request(target, direct_enabled).parts,
        matrices(target) == 2 <==> target is PairPool,
        matrices(target) == 1 || matrices(target) == 2,
        on_one_core(target) <==> mtile_request(target, direct_enabled).pool is None,
{
    match target {
        MtileTarget::Grouped { grouped } | MtileTarget::GroupedPool { grouped } => {
            let (k, g) = (grouped.key.k as int, grouped.group_size as int);
            assert(0 <= k / g <= k) by (nonlinear_arith)
                requires
                    k >= 0,
                    g >= 1,
            ;
            assert(part_count(target) == k / g && matrices(target) == 1);
            assert((k / g) * 1 == k / g) by (nonlinear_arith);
        },
        _ => {},
    }
}

/// Resident weights are found under their own target kind and key, and storing
/// them changes nothing for any other.
pub proof fn law_resident_tiles_are_kept_apart(
    s: MtileState,
    stored: MtileTarget,
    other: MtileTarget,
    entry: MtileEntry,
)
    ensures
        s.with_cached(stored, entry).cached(stored) == Some(entry),
        ({
            let same = match (stored, other) {
                (MtileTarget::Tile { key: a, .. }, MtileTarget::Tile { key: b, .. }) => a == b,
                (MtileTarget::Pool { key: a, .. }, MtileTarget::Pool { key: b, .. }) => a == b,
                (MtileTarget::PairPool { pair: a, .. }, MtileTarget::PairPool { pair: b, .. }) => a
                    == b,
                (MtileTarget::Concat { joined: a, .. }, MtileTarget::Concat { joined: b, .. }) => a@
                    == b@,
                (MtileTarget::Grouped { grouped: a }, MtileTarget::Grouped { grouped: b }) => a
                    == b,
                (
                    MtileTarget::GroupedPool { grouped: a },
                    MtileTarget::GroupedPool { grouped: b },
                ) => a == b,
                _ => false,
            };
            s.with_cached(stored, entry).cached(other) == (if same {
                Some(entry)
            } else {
                s.cached(other)
            })
        }),
        s.with_cached(stored, entry).profile == s.profile,
        MtileState::empty(true).cached(other) is None,
        MtileState::empty(false).cached(other) is None,
        MtileState::empty(true).profile is Some,
        MtileState::empty(false).profile is None,
{
}

/// A step that fails ends the call with its status and makes nothing resident:
/// values that cannot be quantized, and weights that are missing or of the wrong
/// length, are refused; a failed preparation or run is an execution error.
pub proof fn law_failed_tiles_make_nothing_resident(
    s: MtileState,
    target: MtileTarget,
    persistent: bool,
    time: u128,
    sizes: WeightSizes,
    entry: MtileEntry,
    run: MtileRun,
    part: usize,
)
    ensures
        mtile_next(
            s,
            target,
            persistent,
            MtileStage::Quantize,
            MtileEvent::Quantized { ok: false, quant_ns: time },
        ) == (MtileStep { state: s, stage: MtileStage::Done { status: STATUS_INVALID_ARGUMENT } }),
        mtile_next(
            s,
            target,
            persistent,
            MtileStage::Weights,
            MtileEvent::Weights { sizes: None, prepare_ns: time },
        ) == (MtileStep { state: s, stage: MtileStage::Done { status: STATUS_INVALID_ARGUMENT } }),
        !mtile_weights_fit(target, sizes) ==> mtile_next(
            s,
            target,
            persistent,
            MtileStage::Weights,
            MtileEvent::Weights { sizes: Some(sizes), prepare_ns: time },
        ) == (MtileStep { state: s, stage: MtileStage::Done { status: STATUS_INVALID_ARGUMENT } }),
        mtile_next(
            s,
            target,
            persistent,
            MtileStage::Prepare { prepare_ns: time },
            MtileEvent::Prepared { entry: None, pack_ns: time },
        ) == (MtileStep { state: s, stage: MtileStage::Done { status: STATUS_EXECUTION_ERROR } }),
        mtile_next(
            s,
            target,
            persistent,
            MtileStage::Execute { entry, run, part },
            MtileEvent::Executed { report: None },
        ) == (MtileStep { state: s, stage: MtileStage::Done { status: STATUS_EXECUTION_ERROR } }),
{
}

/// Weights that are not resident are made on the host, prepared and kept, and the
/// first part is due after; what was resident before stays so.
pub proof fn law_missing_weights_are_made_once(
    s: MtileState,
    target: MtileTarget,
    other: MtileTarget,
    persistent: bool,
    quant_ns: u128,
    prepare_ns: u128,
    pack_ns: u128,
    sizes: WeightSizes,
    entry: MtileEntry,
)
    requires
        s.cached(target) is None,
        mtile_weights_fit(target, sizes),
    ensures
        ({
            let quantized = mtile_next(
                s,
                target,
                persistent,
                MtileStage::Quantize,
                MtileEvent::Quantized { ok: true, quant_ns },
            );
            let made = mtile_next(
                quantized.state,
                target,
                persistent,
                quantized.stage,
                MtileEvent::Weights { sizes: Some(sizes), prepare_ns },
            );
            let kept = mtile_next(
                made.state,
                target,
                persistent,
                made.stage,
                MtileEvent::Prepared { entry: Some(entry), pack_ns },
            );
            &&& quantized.stage is Weights
            &&& made.stage is Prepare
            &&& kept.state.cached(target) == Some(entry)
            &&& kept.state.cached(other) == Some(entry) || kept.state.cached(other) == s.cached(
                other,
            )
            &&& mtile_run(target, entry, persistent) is Ok ==> kept.stage
                == (MtileStage::Execute {
                entry,
                run: mtile_run(target, entry, persistent)->Ok_0,
                part: 0,
            })
            &&& mtile_run(target, entry, persistent) is Err ==> kept.stage == (MtileStage::Done {
                status: mtile_run(target, entry, persistent)->Err_0,
            })
        }),
{
}

/// Events that do not answer the stage change nothing, and a call that is over
/// stays over.
pub proof fn law_stray_tile_events_change_nothing(
    s: MtileState,
    target: MtileTarget,
    persistent: bool,
    stage: MtileStage,
    event: MtileEvent,
)
    requires
        !(stage is Quantize && event is Quantized),
        !(stage is Weights && event is Weights),
        !(stage is Prepare && event is Prepared),
        !(stage is Execute && event is Executed),
    ensures
        mtile_next(s, target, persistent, stage, event) == (MtileStep { state: s, stage }),
{
}

/// A K that is filled up becomes the least multiple of 512 that holds it, on the
/// same weights, and wherever three cores can take the result it is taken.
pub proof fn law_padded_targets_are_taken(key: DecodeWeightKey, m: usize, direct_enabled: bool)
    requires
        is_tile_height(m as int),
        0 < key.k,
        aligned(key.k as int, 512) <= 12288,
        0 < key.n <= 8192,
        key.n % 32 == 0,
    ensures
        ({
            let target = padded_target(key, m);
            let kp = target.spec_k();
            &&& kp % 512 == 0
            &&& key.k <= kp < key.k + 512
            &&& target.spec_rows() == m
            &&& mtile_accepts(target, (m * kp) as usize, seq![(m * key.n) as usize], direct_enabled)
            &&& target is Tile ==> key.n < 768
            &&& target matches MtileTarget::Pool { key: padded, .. } ==> padded.address
                == key.address && padded.bytes == key.bytes && padded.n == key.n && padded.kind
                == key.kind
            &&& target matches MtileTarget::Tile { key: padded, .. } ==> padded.address
                == key.address && padded.bytes == key.bytes && padded.n == key.n && padded.kind
                == key.kind
        }),
{
    crate::arith::lemma_aligned(key.k as int, 512);
    let kp = aligned(key.k as int, 512);
    assert(m * kp <= 128 * 12288) by (nonlinear_arith)
        requires
            0 <= m <= 128,
            0 <= kp <= 12288,
    ;
    assert(m * kp >= 0 && m * key.n >= 0) by (nonlinear_arith)
        requires
            kp >= 0,
    ;
    assert(m * key.n <= 128 * 8192) by (nonlinear_arith)
        requires
            0 <= m <= 128,
            0 <= key.n <= 8192,
    ;
    assert(seq![(m * key.n) as usize][0] == m * key.n);
}

/// Weights are prepared ahead exactly for the four shapes that are worth it, as
/// sixteen-row tiles that the same call would take, and across the cores where
/// they are wide enough and more than one core is used.
pub proof fn law_prepared_ahead(
    key: DecodeWeightKey,
    shape_enabled: bool,
    multicore: bool,
    direct_enabled: bool,
)
    ensures
        ({
            let target = prewarm_target(key, shape_enabled, multicore);
            let shape = {
                ||| key.k == 2048 && key.n == 256
                ||| key.k == 2048 && key.n == 2048
                ||| key.k == 2048 && key.n == 5632
                ||| key.k == 5632 && key.n == 2048
            };
            &&& target is Some <==> shape_enabled && shape
            &&& target is Some ==> {
                &&& target->0.spec_rows() == 16
                &&& mtile_accepts(
                    target->0,
                    (16 * key.k) as usize,
                    seq![(16 * key.n) as usize],
                    direct_enabled,
                )
                &&& target->0 is Pool <==> multicore && key.n >= 2048
                &&& target->0 is Pool || target->0 is Tile
                &&& target->0 is Pool ==> target->0->Pool_key == key
                &&& target->0 is Tile ==> target->0->Tile_key == key
            }
        }),
{
    assert(seq![(16 * key.n) as usize][0] == (16 * key.n) as usize);
}

/// Preparing ahead asks for work exactly where a target is not resident yet.
pub proof fn law_preparing_ahead_is_done_once(s: MtileState, target: MtileTarget)
    ensures
        s.cached(target) is None ==> prewarm_first(s, Some(target)) == (PrewarmStage::Weights {
            target,
        }),
        s.cached(target) is Some ==> prewarm_first(s, Some(target)) == (PrewarmStage::Done {
            status: 0,
        }),
        prewarm_first(s, None) == (PrewarmStage::Done { status: 0 }),
{
}

/// A target has the K and the groups of its own weights.
pub proof fn law_targets_have_the_sizes_of_their_weights(target: MtileTarget)
    ensures
        target matches MtileTarget::Tile { key, .. } ==> target.spec_k() == key.k,
        target matches MtileTarget::Pool { key, .. } ==> target.spec_k() == key.k,
        target matches MtileTarget::PairPool { pair, .. } ==> target.spec_k() == pair.first.k,
        target matches MtileTarget::Concat { joined, .. } ==> target.spec_k() == joined@[0].k,
        target matches MtileTarget::Grouped { grouped } ==> target.spec_k() == grouped.key.k
            && target.spec_group() == Some(grouped.group_size),
        target matches MtileTarget::GroupedPool { grouped } ==> target.spec_k() == grouped.key.k
            && target.spec_group() == Some(grouped.group_size),
        target is Tile || target is Pool || target is PairPool || target is Concat
            ==> target.spec_group() is None,
{
}

/// Tiles are booked only where calls are profiled: quantizing with the time it took,
/// weights that were there as hits, weights that were made as misses with all the
/// time they took, and each part that ran.
pub proof fn law_tiles_are_booked(
    s: MtileState,
    target: MtileTarget,
    persistent: bool,
    quant_ns: u128,
    prepare_ns: u128,
    pack_ns: u128,
    entry: MtileEntry,
    run: MtileRun,
    part: usize,
    report: MtileReport,
)
    requires
        s.profile is Some,
        s.profile->0.quant_ns + quant_ns <= u128::MAX,
        s.profile->0.cache_hits + 2 <= usize::MAX,
        s.profile->0.cache_misses + 2 <= usize::MAX,
        s.profile->0.weight_prepare_ns + prepare_ns + pack_ns <= u128::MAX,
        s.profile->0.weight_pack_ns + pack_ns <= u128::MAX,
    ensures
        ({
            let p = s.profile->0;
            let pair: int = if target is PairPool {
                2
            } else {
                1
            };
            let quantized = mtile_next(
                s,
                target,
                persistent,
                MtileStage::Quantize,
                MtileEvent::Quantized { ok: true, quant_ns },
            );
            let made = mtile_next(
                s,
                target,
                persistent,
                MtileStage::Prepare { prepare_ns },
                MtileEvent::Prepared { entry: Some(entry), pack_ns },
            );
            let ran = mtile_next(
                s,
                target,
                persistent,
                MtileStage::Execute { entry, run, part },
                MtileEvent::Executed { report: Some(report) },
            );
            let (q, w) = (quantized.state.profile->0, made.state.profile->0);
            &&& quantized.state.profile is Some && made.state.profile is Some
            &&& q.quant_ns == p.quant_ns + quant_ns
            &&& q.cache_misses == p.cache_misses
            &&& quantized.stage is Execute ==> q.cache_hits == p.cache_hits + pair
            &&& quantized.stage is Weights ==> q.cache_hits == p.cache_hits
            &&& w.cache_hits == p.cache_hits
            &&& w.cache_misses == p.cache_misses + pair
            &&& w.weight_prepare_ns + w.weight_pack_ns == p.weight_prepare_ns + p.weight_pack_ns
                + prepare_ns + pack_ns
            &&& !(target is Concat) ==> w.weight_pack_ns == p.weight_pack_ns + pack_ns
            &&& target is Concat ==> w.weight_pack_ns == p.weight_pack_ns
            &&& ran.state.profile == Some(
                p.after_run(matrices(target), target is Tile || target is Grouped, report),
            )
        }),
{
}

/// Without an account nothing is booked.
pub proof fn law_unprofiled_tiles_are_not_booked(
    s: MtileState,
    target: MtileTarget,
    persistent: bool,
    stage: MtileStage,
    event: MtileEvent,
)
    requires
        s.profile is None,
    ensures
        mtile_next(s, target, persistent, stage, event).state.profile is None,
{
}

/// Three workers share the weights of a pool. Joined weights of fewer than three
/// blocks of 32 columns go to one worker for each block.
pub proof fn law_workers_have_whole_blocks(target: MtileTarget, direct_enabled: bool)
    requires
        target matches MtileTarget::Concat { joined, .. } ==> 0 <= joined_columns(joined@)
            <= usize::MAX,
    ensures
        ({
            let r = mtile_request(target, direct_enabled);
            &&& r.pool is Some && !(target is Concat) ==> r.pool->0.workers == 3
            &&& target matches MtileTarget::Concat { joined, .. } ==> {
                let workers = r.pool->0.workers;
                &&& r.n == joined_columns(joined@)
                &&& workers <= 3
                &&& 32 * workers <= r.n
                &&& workers < 3 ==> r.n < 32 * (workers + 1)
            }
        }),
{
}

/// What is asked for a pool is the target's own: its matrix, cut along the target's
/// own axis, for three workers.
pub proof fn law_pool_requests_are_the_targets_own(
    target: MtileTarget,
    direct_enabled: bool,
    r: PrepareRequest,
)
    requires
        call_ensures(prepare_request, (&target, direct_enabled), r),
    ensures
        target matches MtileTarget::Pool { key, m, split } ==> {
            &&& r.pool is Some && r.pool->0.split == split && r.pool->0.workers == 3
            &&& r.k == key.k && r.n == key.n && r.parts == 1
            &&& r.direct == direct_enabled
        },
        target matches MtileTarget::Tile { key, m } ==> r.pool is None && r.k == key.k && r.n
            == key.n && r.parts == 1 && !r.direct,
{
}

} // verus!
