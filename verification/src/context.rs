//! The state behind a context handle, and what it reports about itself.

use crate::arith::sat_usize;
use crate::counters::DecodeCounters;
use crate::decode_m1::{CachedW8A8Weight, M1Cache, M1State, OverlapToken};
use crate::decode_w4::{CachedPoolW4A4Weight, W4Cache, W4State};
use crate::keys::Resident;
use crate::mtile::{MtileCache, MtileState};
use crate::prefill::{PrefillCache, PrefillState};
use crate::profile::{is_m1_report, M1ReportLine, MtileProfile, PrefillProfile};
use crate::route::W4Ability;
use crate::settings::{env_enabled, held, lent, switched_on};
use crate::status::{STATUS_INVALID_ARGUMENT, STATUS_OK};
use crate::table::{keys_distinct, lemma_rows_dom, rows_map, Table, TableKey};
use vstd::prelude::*;

verus! {

/// Something that takes up NPU memory.
pub trait Occupies {
    /// Bytes that are taken up.
    spec fn occupied(&self) -> nat;

    /// Bytes that are taken up.
    fn resident_bytes(&self) -> (n: usize)
        ensures
            n == self.occupied(),
    ;
}

impl Occupies for Resident {
    open spec fn occupied(&self) -> nat {
        self.resident_bytes as nat
    }

    fn resident_bytes(&self) -> (n: usize) {
        self.resident_bytes
    }
}

impl Occupies for CachedW8A8Weight {
    open spec fn occupied(&self) -> nat {
        self.prepared.resident_bytes as nat
    }

    fn resident_bytes(&self) -> (n: usize) {
        self.prepared.resident_bytes
    }
}

impl Occupies for CachedPoolW4A4Weight {
    open spec fn occupied(&self) -> nat {
        self.prepared.resident_bytes as nat
    }

    fn resident_bytes(&self) -> (n: usize) {
        self.prepared.resident_bytes
    }
}

/// Bytes that all values of a map take up together.
pub open spec fn total_occupied<K, V: Occupies>(m: Map<K, V>) -> nat
    decreases m.dom().len(),
{
    if m.dom().finite() && m.dom().len() > 0 {
        let key = m.dom().choose();
        m[key].occupied() + total_occupied(m.remove(key))
    } else {
        0
    }
}

/// Any entry may be counted first.
pub proof fn lemma_total_remove<K, V: Occupies>(m: Map<K, V>, key: K)
    requires
        m.dom().finite(),
        m.dom().contains(key),
    ensures
        total_occupied(m) == m[key].occupied() + total_occupied(m.remove(key)),
    decreases m.dom().len(),
{
    let first = m.dom().choose();
    if m.dom().len() == 0 {
        assert(m.dom() =~= Set::<K>::empty());
    }
    assert(m.dom().contains(first));
    if key != first {
        let without_first = m.remove(first);
        let without_key = m.remove(key);
        lemma_total_remove(without_first, key);
        lemma_total_remove(without_key, first);
        assert(without_first.remove(key) =~= without_key.remove(first));
    }
}

/// A new entry adds what it takes up.
pub proof fn law_resident_bytes_add_up<K, V: Occupies>(m: Map<K, V>, key: K, value: V)
    requires
        m.dom().finite(),
        !m.dom().contains(key),
    ensures
        total_occupied(m.insert(key, value)) == total_occupied(m) + value.occupied(),
{
    let after = m.insert(key, value);
    lemma_total_remove(after, key);
    assert(after.remove(key) =~= m);
}

/// Adds what a table takes up to `start`, cut off at the largest `usize`.
fn add_resident_bytes<K: TableKey, V: Occupies>(table: &Table<K, V>, start: usize) -> (n: usize)
    requires
        table.wf(),
    ensures
        n == sat_usize(start + total_occupied(table@)),
        table@.dom().finite(),
{
    let count: usize = table.len();
    let ghost rows = table.rows();
    let mut sum: usize = start;
    let mut i: usize = 0;
    proof {
        assert(rows.take(0) =~= Seq::<(K::V, V)>::empty());
        assert(rows_map(rows.take(0)).dom() =~= Set::<K::V>::empty());
    }
    while i < count
        invariant
            i <= count,
            count == rows.len(),
            rows == table.rows(),
            keys_distinct(rows),
            rows_map(rows.take(i as int)).dom().finite(),
            sum == sat_usize(start + total_occupied(rows_map(rows.take(i as int)))),
        decreases count - i,
    {
        let row = table.row(i);
        proof {
            let before = rows.take(i as int);
            let after = rows.take(i + 1);
            assert(after.drop_last() =~= before);
            assert(after.last() == rows[i as int]);
            let key = rows[i as int].0;
            lemma_rows_dom(before, key);
            if rows_map(before).dom().contains(key) {
                let j = choose|j: int| 0 <= j < before.len() && #[trigger] before[j].0 == key;
                assert(rows[j].0 == rows[i as int].0);
            }
            law_resident_bytes_add_up(rows_map(before), key, rows[i as int].1);
        }
        sum = sum.saturating_add(row.1.resident_bytes());
        i = i + 1;
    }
    proof {
        assert(rows.take(count as int) =~= rows);
    }
    sum
}

/// The account of the decode caches.
#[derive(Clone, Copy, Debug, PartialEq, Eq, Structural)]
pub struct RockNpuDecodeCacheStats {
    pub hits: usize,
    pub misses: usize,
    pub entries: usize,
    pub resident_bytes: usize,
    pub hit_ns: u64,
    pub miss_ns: u64,
    pub tuned_shapes: usize,
    pub worker1_calls: usize,
    pub worker2_calls: usize,
    pub worker3_calls: usize,
    pub ksplit_calls: usize,
}

/// The state behind a context handle.
pub struct RockNpuContext {
    pub prefill: PrefillCache,
    pub mtile: MtileCache,
    pub m1: M1Cache,
    pub w4: W4Cache,
    pub counters: DecodeCounters,
    pub w4a4_enabled: bool,
    pub w4a4_pool: bool,
}

/// The variables that a context looks at once, when it is made.
pub struct ContextEnv {
    pub w4a4: Option<String>,
    pub prefill_profile: Option<String>,
    pub mtile_profile: Option<String>,
    pub m1_profile: Option<String>,
}

/// Closing figures of the four-bit path.
#[derive(Clone, Copy, Debug, PartialEq, Eq, Structural)]
pub struct W4Summary {
    pub calls: usize,
    pub cache_entries: usize,
    pub grouped_cache_entries: usize,
    pub pool_cache_entries: usize,
    pub tuned_shapes: usize,
    pub saturated_calls: usize,
    pub saturated_outputs: usize,
}

/// What a context has to say when it goes.
pub struct ClosingReport {
    pub w4: Option<W4Summary>,
    pub m1: Option<Vec<M1ReportLine>>,
    pub mtile: Option<MtileProfile>,
    pub prefill: Option<PrefillProfile>,
}

/// How many entries the decode caches hold together.
pub open spec fn decode_entries(m1: M1State, w4: W4State) -> nat {
    m1.singles.dom().len() + m1.pairs.dom().len() + m1.triples.dom().len() + w4.plain.dom().len()
        + w4.grouped.dom().len() + w4.pool.dom().len()
}

/// Bytes that the decode caches take up together.
pub open spec fn decode_resident_bytes(m1: M1State, w4: W4State) -> nat {
    total_occupied(m1.singles) + total_occupied(m1.pairs) + total_occupied(m1.triples)
        + total_occupied(w4.plain) + total_occupied(w4.grouped) + total_occupied(w4.pool)
}

/// How many usable devices there are: the default one counts if it opens.
pub fn rocknpu_device_count(opens: bool) -> (n: usize)
    ensures
        n == (if opens {
            1int
        } else {
            0int
        }),
{
    if opens {
        1
    } else {
        0
    }
}

impl RockNpuContext {
    /// No key occurs twice in any table.
    pub open spec fn wf(&self) -> bool {
        self.prefill.wf() && self.mtile.wf() && self.m1.wf() && self.w4.wf()
    }

    /// Whether a four-bit worker pool is worth opening.
    pub fn wants_w4_pool(env: &ContextEnv) -> (r: bool)
        ensures
            r == switched_on(held(env.w4a4), false),
    {
        env_enabled(lent(&env.w4a4))
    }

    /// Makes an empty context, if both the device and its eight-bit pool opened.
    /// A four-bit pool that did not open is done without.
    pub fn create(env: &ContextEnv, device: bool, decode_pool: bool, w4_pool: bool) -> (r: Option<
        RockNpuContext,
    >)
        ensures
            r is Some == (device && decode_pool),
            r matches Some(c) ==> {
                &&& c.wf()
                &&& c.w4a4_enabled == switched_on(held(env.w4a4), false)
                &&& c.w4a4_pool == (c.w4a4_enabled && w4_pool)
                &&& c.m1@ == M1State::empty(switched_on(held(env.m1_profile), false))
                &&& c.w4@ == W4State::empty()
                &&& c.mtile@ == MtileState::empty(switched_on(held(env.mtile_profile), false))
                &&& c.prefill@ == PrefillState::empty(
                    switched_on(held(env.prefill_profile), false),
                )
                &&& c.counters == DecodeCounters::zero()
            },
    {
        if !device || !decode_pool {
            return None;
        }
        let w4a4_enabled = Self::wants_w4_pool(env);
        let c = RockNpuContext {
            prefill: PrefillCache::new(env_enabled(lent(&env.prefill_profile))),
            mtile: MtileCache::new(env_enabled(lent(&env.mtile_profile))),
            m1: M1Cache::new(env_enabled(lent(&env.m1_profile))),
            w4: W4Cache::new(),
            counters: DecodeCounters::new(),
            w4a4_enabled,
            w4a4_pool: w4a4_enabled && w4_pool,
        };
        Some(c)
    }

    /// What the context can do in four bits.
    pub fn w4_ability(&self) -> (r: W4Ability)
        ensures
            r == (W4Ability { enabled: self.w4a4_enabled, pool: self.w4a4_pool }),
    {
        W4Ability { enabled: self.w4a4_enabled, pool: self.w4a4_pool }
    }

    /// The account of the decode caches.
    pub fn decode_cache_stats(&self) -> (r: RockNpuDecodeCacheStats)
        requires
            self.wf(),
        ensures
            r == (RockNpuDecodeCacheStats {
                hits: self.counters.hits,
                misses: self.counters.misses,
                entries: sat_usize(decode_entries(self.m1@, self.w4@) as int),
                resident_bytes: sat_usize(decode_resident_bytes(self.m1@, self.w4@) as int),
                hit_ns: self.counters.hit_ns,
                miss_ns: self.counters.miss_ns,
                tuned_shapes: sat_usize(
                    (self.m1@.choices.dom().len() + self.w4@.workers.dom().len()) as int,
                ),
                worker1_calls: self.counters.worker1_calls,
                worker2_calls: self.counters.worker2_calls,
                worker3_calls: self.counters.worker3_calls,
                ksplit_calls: self.counters.ksplit_calls,
            }),
    {
        let singles: usize = add_resident_bytes(&self.m1.singles, 0);
        let pairs: usize = add_resident_bytes(&self.m1.pairs, singles);
        let triples: usize = add_resident_bytes(&self.m1.triples, pairs);
        let plain: usize = add_resident_bytes(&self.w4.plain, triples);
        let grouped: usize = add_resident_bytes(&self.w4.grouped, plain);
        let resident_bytes: usize = add_resident_bytes(&self.w4.pool, grouped);
        let entries: usize = self.m1.singles.len().saturating_add(
            self.m1.pairs.len(),
        ).saturating_add(self.m1.triples.len()).saturating_add(
            self.w4.plain.len(),
        ).saturating_add(self.w4.grouped.len()).saturating_add(self.w4.pool.len());
        RockNpuDecodeCacheStats {
            hits: self.counters.hits,
            misses: self.counters.misses,
            entries,
            resident_bytes,
            hit_ns: self.counters.hit_ns,
            miss_ns: self.counters.miss_ns,
            tuned_shapes: self.m1.choices.len().saturating_add(self.w4.workers.len()),
            worker1_calls: self.counters.worker1_calls,
            worker2_calls: self.counters.worker2_calls,
            worker3_calls: self.counters.worker3_calls,
            ksplit_calls: self.counters.ksplit_calls,
        }
    }

    /// Puts a host callback beside the next single-row projection; none clears it.
    pub fn set_overlap(&mut self, overlap: Option<OverlapToken>)
        requires
            old(self).wf(),
        ensures
            final(self).wf(),
            *final(self) == (RockNpuContext {
                m1: M1Cache { overlap, ..old(self).m1 },
                ..*old(self)
            }),
    {
        self.m1.overlap = overlap;
    }

    /// The closing figures of the four-bit path, where there were calls.
    pub open spec fn w4_summary(w4: W4State) -> Option<W4Summary> {
        if w4.calls != 0 {
            Some(
                W4Summary {
                    calls: w4.calls,
                    cache_entries: w4.plain.dom().len() as usize,
                    grouped_cache_entries: w4.grouped.dom().len() as usize,
                    pool_cache_entries: w4.pool.dom().len() as usize,
                    tuned_shapes: w4.workers.dom().len() as usize,
                    saturated_calls: w4.saturated_calls,
                    saturated_outputs: w4.saturated_outputs,
                },
            )
        } else {
            None
        }
    }

    /// What the context has to say when it goes. `w4_trace` asks for the closing
    /// figures of the four-bit path.
    pub fn closing_report(&self, w4_trace: bool) -> (r: ClosingReport)
        requires
            self.wf(),
        ensures
            r.w4 == (if w4_trace {
                Self::w4_summary(self.w4@)
            } else {
                None
            }),
            r.m1 is Some == self.m1.profile is Some,
            self.m1.profile matches Some(p) ==> is_m1_report(p.shapes@, r.m1->0@),
            r.mtile == self.mtile.profile,
            r.prefill == self.prefill.profile,
    {
        let w4 = if w4_trace && self.w4.calls != 0 {
            Some(
                W4Summary {
                    calls: self.w4.calls,
                    cache_entries: self.w4.plain.len(),
                    grouped_cache_entries: self.w4.grouped.len(),
                    pool_cache_entries: self.w4.pool.len(),
                    tuned_shapes: self.w4.workers.len(),
                    saturated_calls: self.w4.saturated_calls,
                    saturated_outputs: self.w4.saturated_outputs,
                },
            )
        } else {
            None
        };
        let m1 = match &self.m1.profile {
            Some(p) => Some(p.report()),
            None => None,
        };
        ClosingReport { w4, m1, mtile: self.mtile.profile, prefill: self.prefill.profile }
    }
}

/// Checks the arguments of a request for cache statistics.
pub fn rocknpu_context_decode_cache_stats(context: usize, out: usize) -> (status: i32)
    ensures
        status == (if context != 0 && out != 0 {
            STATUS_OK
        } else {
            STATUS_INVALID_ARGUMENT
        }),
{
    if context == 0 || out == 0 {
        STATUS_INVALID_ARGUMENT
    } else {
        STATUS_OK
    }
}

/// Reads the arguments of a request for host work beside the next projection. A
/// null callback asks for none.
pub fn rocknpu_context_set_overlap(context: usize, callback: usize, user_data: usize) -> (r: Result<
    Option<OverlapToken>,
    i32,
>)
    ensures
        r == (if context == 0 {
            Err(STATUS_INVALID_ARGUMENT)
        } else if callback == 0 {
            Ok(None)
        } else {
            Ok(Some(OverlapToken { callback, user_data }))
        }),
{
    if context == 0 {
        return Err(STATUS_INVALID_ARGUMENT);
    }
    if callback == 0 {
        Ok(None)
    } else {
        Ok(Some(OverlapToken { callback, user_data }))
    }
}

/// What is resident takes up the bytes it was made with, whatever it is kept under,
/// and nothing takes up nothing.
pub proof fn law_resident_weights_take_up_their_bytes<K>(
    r: Resident,
    w8: CachedW8A8Weight,
    w4: CachedPoolW4A4Weight,
    empty: Map<K, Resident>,
)
    requires
        empty == Map::<K, Resident>::empty(),
    ensures
        r.occupied() == r.resident_bytes,
        w8.occupied() == w8.prepared.occupied(),
        w4.occupied() == w4.prepared.occupied(),
        total_occupied(empty) == 0,
{
    assert(empty.dom() =~= Set::<K>::empty());
}

/// Each weight that becomes resident in one of the decode caches is one more entry,
/// and its bytes are added; what was learned about shapes is no entry.
pub proof fn law_decode_caches_count_what_they_hold(
    m1: M1State,
    w4: W4State,
    single: crate::keys::DecodeWeightKey,
    pair: crate::keys::DecodePairKey,
    triple: crate::keys::DecodeTripleKey,
    weight: CachedW8A8Weight,
    choices: Map<crate::keys::ShapeKey, crate::keys::DecodeChoice>,
)
    requires
        m1.singles.dom().finite() && !m1.singles.dom().contains(single),
        m1.pairs.dom().finite() && !m1.pairs.dom().contains(pair),
        m1.triples.dom().finite() && !m1.triples.dom().contains(triple),
    ensures
        ({
            let with = M1State { singles: m1.singles.insert(single, weight), ..m1 };
            &&& decode_entries(with, w4) == decode_entries(m1, w4) + 1
            &&& decode_resident_bytes(with, w4) == decode_resident_bytes(m1, w4)
                + weight.prepared.resident_bytes
        }),
        ({
            let with = M1State { pairs: m1.pairs.insert(pair, weight), ..m1 };
            &&& decode_entries(with, w4) == decode_entries(m1, w4) + 1
            &&& decode_resident_bytes(with, w4) == decode_resident_bytes(m1, w4)
                + weight.prepared.resident_bytes
        }),
        ({
            let with = M1State { triples: m1.triples.insert(triple, weight), ..m1 };
            &&& decode_entries(with, w4) == decode_entries(m1, w4) + 1
            &&& decode_resident_bytes(with, w4) == decode_resident_bytes(m1, w4)
                + weight.prepared.resident_bytes
        }),
        decode_entries(M1State { choices, ..m1 }, w4) == decode_entries(m1, w4),
{
    law_resident_bytes_add_up(m1.singles, single, weight);
    law_resident_bytes_add_up(m1.pairs, pair, weight);
    law_resident_bytes_add_up(m1.triples, triple, weight);
}

/// The same holds of the caches of four-bit weights.
pub proof fn law_four_bit_caches_count_what_they_hold(
    m1: M1State,
    w4: W4State,
    key: crate::keys::DecodeWeightKey,
    grouped: crate::keys::GroupedW4Key,
    pool: crate::keys::PoolW4Key,
    weight: Resident,
    pooled: CachedPoolW4A4Weight,
    workers: Map<crate::keys::ShapeKey, usize>,
)
    requires
        w4.plain.dom().finite() && !w4.plain.dom().contains(key),
        w4.grouped.dom().finite() && !w4.grouped.dom().contains(grouped),
        w4.pool.dom().finite() && !w4.pool.dom().contains(pool),
    ensures
        ({
            let with = W4State { plain: w4.plain.insert(key, weight), ..w4 };
            &&& decode_entries(m1, with) == decode_entries(m1, w4) + 1
            &&& decode_resident_bytes(m1, with) == decode_resident_bytes(m1, w4)
                + weight.resident_bytes
        }),
        ({
            let with = W4State { grouped: w4.grouped.insert(grouped, weight), ..w4 };
            &&& decode_entries(m1, with) == decode_entries(m1, w4) + 1
            &&& decode_resident_bytes(m1, with) == decode_resident_bytes(m1, w4)
                + weight.resident_bytes
        }),
        ({
            let with = W4State { pool: w4.pool.insert(pool, pooled), ..w4 };
            &&& decode_entries(m1, with) == decode_entries(m1, w4) + 1
            &&& decode_resident_bytes(m1, with) == decode_resident_bytes(m1, w4)
                + pooled.prepared.resident_bytes
        }),
        decode_entries(m1, W4State { workers, ..w4 }) == decode_entries(m1, w4),
{
    law_resident_bytes_add_up(w4.plain, key, weight);
    law_resident_bytes_add_up(w4.grouped, grouped, weight);
    law_resident_bytes_add_up(w4.pool, pool, pooled);
}

/// Empty caches hold nothing.
pub proof fn law_new_caches_hold_nothing(profiled: bool)
    ensures
        decode_entries(M1State::empty(profiled), W4State::empty()) == 0,
        decode_resident_bytes(M1State::empty(profiled), W4State::empty()) == 0,
        RockNpuContext::w4_summary(W4State::empty()) is None,
{
    let (m1, w4) = (M1State::empty(profiled), W4State::empty());
    assert(m1.singles.dom() =~= Set::empty());
    assert(m1.pairs.dom() =~= Set::empty());
    assert(m1.triples.dom() =~= Set::empty());
    assert(w4.plain.dom() =~= Set::empty());
    assert(w4.grouped.dom() =~= Set::empty());
    assert(w4.pool.dom() =~= Set::empty());
}

/// The closing figures of the four-bit path are there after the first call, and each
/// is about its own table or counter.
pub proof fn law_closing_figures_are_of_their_own_tables(w4: W4State)
    requires
        w4.plain.dom().len() <= usize::MAX,
        w4.grouped.dom().len() <= usize::MAX,
        w4.pool.dom().len() <= usize::MAX,
        w4.workers.dom().len() <= usize::MAX,
    ensures
        RockNpuContext::w4_summary(w4) is Some <==> w4.calls > 0,
        RockNpuContext::w4_summary(w4) matches Some(f) ==> {
            &&& f.calls == w4.calls
            &&& f.cache_entries == w4.plain.dom().len()
            &&& f.grouped_cache_entries == w4.grouped.dom().len()
            &&& f.pool_cache_entries == w4.pool.dom().len()
            &&& f.tuned_shapes == w4.workers.dom().len()
            &&& f.saturated_calls == w4.saturated_calls
            &&& f.saturated_outputs == w4.saturated_outputs
        },
{
}

/// The account of the decode caches tells its own counters, all entries and all
/// bytes, and the shapes that were tuned.
pub proof fn law_cache_statistics_tell_their_own_counters(
    c: RockNpuContext,
    r: RockNpuDecodeCacheStats,
)
    requires
        call_ensures(RockNpuContext::decode_cache_stats, (&c,), r),
        decode_entries(c.m1@, c.w4@) <= usize::MAX,
        decode_resident_bytes(c.m1@, c.w4@) <= usize::MAX,
        c.m1@.choices.dom().len() + c.w4@.workers.dom().len() <= usize::MAX,
    ensures
        r.hits == c.counters.hits && r.misses == c.counters.misses,
        r.hit_ns == c.counters.hit_ns && r.miss_ns == c.counters.miss_ns,
        r.worker1_calls == c.counters.worker1_calls,
        r.worker2_calls == c.counters.worker2_calls,
        r.worker3_calls == c.counters.worker3_calls,
        r.ksplit_calls == c.counters.ksplit_calls,
        r.entries == decode_entries(c.m1@, c.w4@),
        r.resident_bytes == decode_resident_bytes(c.m1@, c.w4@),
        r.tuned_shapes == c.m1@.choices.dom().len() + c.w4@.workers.dom().len(),
{
}

/// A null callback clears the host work; any other is kept with its own data.
pub proof fn law_host_work_is_the_callers_own(
    context: usize,
    callback: usize,
    user_data: usize,
    r: Result<Option<OverlapToken>, i32>,
)
    requires
        call_ensures(rocknpu_context_set_overlap, (context, callback, user_data), r),
    ensures
        r is Ok <==> context != 0,
        r matches Ok(work) ==> (work is None <==> callback == 0),
        r matches Ok(Some(work)) ==> work.callback == callback && work.user_data == user_data,
        r matches Err(e) ==> e == -1,
{
}

} // verus!
