//! The order of operations of a fast Walsh-Hadamard transform.
//!
//! The transform runs in stages of doubling width. A stage replaces the values at
//! `lo` and `hi` by their sum and their difference, for every pair of places that
//! lie `width` apart within blocks of twice the width.

use crate::quant::{is_power_of_two, power_of_two};
use vstd::arithmetic::div_mod::{
    lemma_fundamental_div_mod, lemma_fundamental_div_mod_converse,
};
use vstd::prelude::*;

verus! {

/// Two places whose values are replaced by their sum and their difference.
#[derive(Clone, Copy, Debug, PartialEq, Eq, Structural)]
pub struct Butterfly {
    pub lo: usize,
    pub hi: usize,
}

/// Pair `t` of the stage of a width.
pub open spec fn pair_at(width: int, t: int) -> Butterfly {
    let lo = t / width * (2 * width) + t % width;
    Butterfly { lo: lo as usize, hi: (lo + width) as usize }
}

/// The pairs of one stage.
pub open spec fn stage_pairs(len: int, width: int) -> Seq<Butterfly> {
    Seq::new((len / 2) as nat, |t: int| pair_at(width, t))
}

/// The pairs of all stages from a width on.
pub open spec fn pairs_from(len: int, width: int) -> Seq<Butterfly>
    decreases
            if width < len {
                len - width
            } else {
                0
            },
{
    if 0 < width < len {
        stage_pairs(len, width) + pairs_from(len, 2 * width)
    } else {
        Seq::empty()
    }
}

/// Halving a length by a width that divides it.
proof fn lemma_blocks(len: int, width: int, t: int)
    requires
        width > 0,
        len % (2 * width) == 0,
        0 <= t < len / 2,
    ensures
        0 <= t / width * (2 * width) + t % width,
        t / width * (2 * width) + t % width + width < len,
{
    let q = t / width;
    let r = t % width;
    let span = 2 * width;
    lemma_fundamental_div_mod(t, width);
    lemma_fundamental_div_mod(len, span);
    let blocks = len / span;
    assert(len == span * blocks);
    assert(len / 2 == width * blocks) by {
        assert(span * blocks == 2 * (width * blocks)) by (nonlinear_arith)
            requires
                span == 2 * width,
        ;
    }
    assert(q < blocks) by (nonlinear_arith)
        requires
            width * q + r < width * blocks,
            r >= 0,
            width > 0,
    ;
    assert(q * span + span <= span * blocks) by (nonlinear_arith)
        requires
            q + 1 <= blocks,
            span > 0,
    ;
    assert(q * span >= 0) by (nonlinear_arith)
        requires
            q >= 0,
            span > 0,
    ;
}

/// Doubling a width that is a power of two below a power of two keeps dividing it.
proof fn lemma_width_divides(len: int, width: int)
    requires
        is_power_of_two(len),
        is_power_of_two(width),
        width < len,
    ensures
        len % (2 * width) == 0,
        is_power_of_two(2 * width),
    decreases width,
{
    assert(is_power_of_two(2 * width)) by {
        assert((2 * width) / 2 == width);
    }
    if width == 1 {
    } else {
        let (l, w) = (len / 2, width / 2);
        assert(w < l);
        lemma_width_divides(l, w);
        assert(2 * w == width);
        lemma_fundamental_div_mod(l, width);
        let c = l / width;
        assert(len == 2 * l);
        assert(2 * (width * c) == (2 * width) * c) by (nonlinear_arith);
        lemma_fundamental_div_mod_converse(len, 2 * width, c, 0);
    }
}

/// The pairs of a transform of `len` values in order, or none for a length that
/// is no power of two.
pub fn fwht_pairs(len: usize) -> (r: Option<Vec<Butterfly>>)
    ensures
        match r {
            Some(pairs) => is_power_of_two(len as int) && pairs@ == pairs_from(len as int, 1),
            None => !is_power_of_two(len as int),
        },
{
    if !power_of_two(len) {
        return None;
    }
    let half: usize = len / 2;
    let mut pairs: Vec<Butterfly> = Vec::new();
    let mut width: usize = 1;
    assert(pairs@ + pairs_from(len as int, 1) =~= pairs_from(len as int, 1));
    while width < len
        invariant
            is_power_of_two(len as int),
            is_power_of_two(width as int),
            0 < width <= len,
            half == len / 2,
            pairs@ + pairs_from(len as int, width as int) == pairs_from(len as int, 1),
        decreases len - width,
    {
        proof {
            lemma_width_divides(len as int, width as int);
            lemma_fundamental_div_mod(len as int, 2 * width as int);
            assert(2 * width <= len) by {
                let q = len as int / (2 * width as int);
                assert(q >= 1) by (nonlinear_arith)
                    requires
                        len == 2 * width * q,
                        len > 0,
                        width > 0,
                ;
                assert(2 * width * q >= 2 * width) by (nonlinear_arith)
                    requires
                        q >= 1,
                        width > 0,
                ;
            }
        }
        let ghost before = pairs@;
        let mut t: usize = 0;
        while t < half
            invariant
                0 < width < len,
                len as int % (2 * width) == 0,
                half == len / 2,
                t <= half,
                pairs@ == before + stage_pairs(len as int, width as int).take(t as int),
            decreases half - t,
        {
            proof {
                lemma_blocks(len as int, width as int, t as int);
                let q = t as int / width as int;
                assert(q * (2 * width) >= 0) by (nonlinear_arith)
                    requires
                        q >= 0,
                        width > 0,
                ;
                assert(q * (2 * width) == q * width * 2) by (nonlinear_arith);
                assert(q * width >= 0) by (nonlinear_arith)
                    requires
                        q >= 0,
                        width > 0,
                ;
            }
            let q: usize = t / width;
            let lo: usize = q * width * 2 + t % width;
            pairs.push(Butterfly { lo, hi: lo + width });
            proof {
                let stage = stage_pairs(len as int, width as int);
                assert(stage.take(t + 1) =~= stage.take(t as int).push(stage[t as int]));
                assert(stage[t as int] == pair_at(width as int, t as int));
                assert(pairs@ =~= before + stage.take(t + 1));
            }
            t = t + 1;
        }
        proof {
            let stage = stage_pairs(len as int, width as int);
            assert(stage.take(half as int) =~= stage);
            assert(before + (stage + pairs_from(len as int, 2 * width as int)) =~= (before + stage)
                + pairs_from(len as int, 2 * width as int));
        }
        width = 2 * width;
    }
    assert(pairs@ =~= pairs@ + pairs_from(len as int, width as int));
    Some(pairs)
}

/// Values once the first `count` pairs have been worked on.
pub open spec fn transformed(v: Seq<int>, pairs: Seq<Butterfly>, count: int) -> Seq<int>
    decreases count,
{
    if count <= 0 {
        v
    } else {
        let u = transformed(v, pairs, count - 1);
        let p = pairs[count - 1];
        let (a, b) = (u[p.lo as int], u[p.hi as int]);
        u.update(p.lo as int, a + b).update(p.hi as int, a - b)
    }
}

/// The sum of the products of the first `len` values.
pub open spec fn inner(a: Seq<int>, b: Seq<int>, len: int) -> int
    decreases len,
{
    if len <= 0 {
        0
    } else {
        inner(a, b, len - 1) + a[len - 1] * b[len - 1]
    }
}

/// The sum of the products of the values at the first `count` pairs of a stage.
pub open spec fn pairs_inner(a: Seq<int>, b: Seq<int>, width: int, count: int) -> int
    decreases count,
{
    if count <= 0 {
        0
    } else {
        let p = pair_at(width, count - 1);
        pairs_inner(a, b, width, count - 1) + a[p.lo as int] * b[p.lo as int] + a[p.hi as int]
            * b[p.hi as int]
    }
}

/// Which pair of a stage a place belongs to.
pub open spec fn slot_of(width: int, i: int) -> int {
    i / (2 * width) * width + i % width
}

/// Both places of a pair belong to that pair and to no other.
proof fn lemma_slots(len: int, width: int, t: int)
    requires
        width > 0,
        len % (2 * width) == 0,
        0 <= t < len / 2,
        len <= usize::MAX,
    ensures
        ({
            let p = pair_at(width, t);
            &&& p.lo + width == p.hi
            &&& p.hi < len
            &&& slot_of(width, p.lo as int) == t
            &&& slot_of(width, p.hi as int) == t
        }),
{
    lemma_blocks(len, width, t);
    let q = t / width;
    let r = t % width;
    let span = 2 * width;
    let lo = q * span + r;
    lemma_fundamental_div_mod(t, width);
    lemma_fundamental_div_mod_converse(lo, span, q, r);
    lemma_fundamental_div_mod_converse(lo + width, span, q, r + width);
    assert(q * span + r == (2 * q) * width + r) by (nonlinear_arith)
        requires
            span == 2 * width,
    ;
    assert(q * span + r + width == (2 * q + 1) * width + r) by (nonlinear_arith)
        requires
            span == 2 * width,
    ;
    lemma_fundamental_div_mod_converse(lo, width, 2 * q, r);
    lemma_fundamental_div_mod_converse(lo + width, width, 2 * q + 1, r);
    assert(width * q == q * width) by (nonlinear_arith);
}

/// The length does not change.
proof fn lemma_transformed_len(v: Seq<int>, len: int, width: int, count: int)
    requires
        width > 0,
        len % (2 * width) == 0,
        v.len() == len <= usize::MAX,
        0 <= count <= len / 2,
    ensures
        transformed(v, stage_pairs(len, width), count).len() == v.len(),
    decreases count,
{
    if count > 0 {
        lemma_transformed_len(v, len, width, count - 1);
        lemma_slots(len, width, count - 1);
    }
}

/// Within a stage, places whose pair has not been worked on are as they were.
proof fn lemma_untouched(v: Seq<int>, len: int, width: int, count: int, i: int)
    requires
        width > 0,
        len % (2 * width) == 0,
        v.len() == len <= usize::MAX,
        0 <= count <= len / 2,
        0 <= i < len,
        slot_of(width, i) >= count,
    ensures
        transformed(v, stage_pairs(len, width), count)[i] == v[i],
    decreases count,
{
    if count > 0 {
        lemma_untouched(v, len, width, count - 1, i);
        lemma_slots(len, width, count - 1);
        lemma_transformed_len(v, len, width, count - 1);
    }
}

/// Changing two places changes the sum of products by what changes there.
proof fn lemma_inner_update(a: Seq<int>, b: Seq<int>, i: int, x: int, y: int, len: int)
    requires
        a.len() == b.len(),
        0 <= i < a.len(),
        0 <= len <= a.len(),
    ensures
        inner(a.update(i, x), b.update(i, y), len) == inner(a, b, len) + (if i < len {
            x * y - a[i] * b[i]
        } else {
            0
        }),
    decreases len,
{
    if len > 0 {
        lemma_inner_update(a, b, i, x, y, len - 1);
    }
}

/// Each pair of a stage doubles its own share of the sum of products.
proof fn lemma_stage_doubles(a: Seq<int>, b: Seq<int>, len: int, width: int, count: int)
    requires
        width > 0,
        len % (2 * width) == 0,
        a.len() == len,
        b.len() == len,
        len <= usize::MAX,
        0 <= count <= len / 2,
    ensures
        inner(
            transformed(a, stage_pairs(len, width), count),
            transformed(b, stage_pairs(len, width), count),
            len,
        ) == inner(a, b, len) + pairs_inner(a, b, width, count),
    decreases count,
{
    if count > 0 {
        let pairs = stage_pairs(len, width);
        lemma_stage_doubles(a, b, len, width, count - 1);
        lemma_slots(len, width, count - 1);
        let p = pair_at(width, count - 1);
        assert(pairs[count - 1] == p);
        let (lo, hi) = (p.lo as int, p.hi as int);
        lemma_untouched(a, len, width, count - 1, lo);
        lemma_untouched(a, len, width, count - 1, hi);
        lemma_untouched(b, len, width, count - 1, lo);
        lemma_untouched(b, len, width, count - 1, hi);
        lemma_transformed_len(a, len, width, count - 1);
        lemma_transformed_len(b, len, width, count - 1);
        let ua = transformed(a, pairs, count - 1);
        let ub = transformed(b, pairs, count - 1);
        let (a0, a1, b0, b1) = (ua[lo], ua[hi], ub[lo], ub[hi]);
        lemma_inner_update(ua, ub, lo, a0 + a1, b0 + b1, len);
        let va = ua.update(lo, a0 + a1);
        let vb = ub.update(lo, b0 + b1);
        lemma_inner_update(va, vb, hi, a0 - a1, b0 - b1, len);
        assert((a0 + a1) * (b0 + b1) + (a0 - a1) * (b0 - b1) == 2 * (a0 * b0) + 2 * (a1 * b1))
            by (nonlinear_arith);
    }
}

/// The sum of products over the places from `from` to `to`.
pub open spec fn inner_range(a: Seq<int>, b: Seq<int>, from: int, to: int) -> int
    decreases to - from,
{
    if to <= from {
        0
    } else {
        inner_range(a, b, from, to - 1) + a[to - 1] * b[to - 1]
    }
}

proof fn lemma_range_joins(a: Seq<int>, b: Seq<int>, from: int, to: int)
    requires
        0 <= from <= to,
    ensures
        inner(a, b, to) == inner(a, b, from) + inner_range(a, b, from, to),
    decreases to - from,
{
    if from < to {
        lemma_range_joins(a, b, from, to - 1);
    }
}

/// The pairs of whole blocks, and of the first `o` places of the next one.
proof fn lemma_pairs_cover(a: Seq<int>, b: Seq<int>, len: int, width: int, q: int, o: int)
    requires
        width > 0,
        len % (2 * width) == 0,
        len <= usize::MAX,
        q >= 0,
        0 <= o <= width,
        q * width + o <= len / 2,
    ensures
        pairs_inner(a, b, width, q * width + o) == inner(a, b, q * (2 * width)) + inner_range(
            a,
            b,
            q * (2 * width),
            q * (2 * width) + o,
        ) + inner_range(a, b, q * (2 * width) + width, q * (2 * width) + width + o),
    decreases q, o,
{
    let base = q * (2 * width);
    assert(q * width >= 0) by (nonlinear_arith)
        requires
            q >= 0,
            width > 0,
    ;
    if o > 0 {
        lemma_pairs_cover(a, b, len, width, q, o - 1);
        let t = q * width + o - 1;
        lemma_slots(len, width, t);
        lemma_blocks(len, width, t);
        lemma_fundamental_div_mod_converse(t, width, q, o - 1);
        assert(pair_at(width, t).lo == base + o - 1);
    } else if q > 0 {
        assert((q - 1) * width + width == q * width) by (nonlinear_arith);
        lemma_pairs_cover(a, b, len, width, q - 1, width);
        let prev = (q - 1) * (2 * width);
        assert(prev + width + width == base) by (nonlinear_arith)
            requires
                prev == (q - 1) * (2 * width),
                base == q * (2 * width),
        ;
        assert(prev >= 0) by (nonlinear_arith)
            requires
                prev == (q - 1) * (2 * width),
                q >= 1,
                width > 0,
        ;
        lemma_range_joins(a, b, prev, prev + width);
        lemma_range_joins(a, b, prev + width, base);
    } else {
        assert(base == 0) by (nonlinear_arith)
            requires
                q == 0,
                base == q * (2 * width),
        ;
        assert(q * width == 0) by (nonlinear_arith)
            requires
                q == 0,
        ;
    }
}

/// The pairs of a stage hold every place once.
proof fn lemma_stage_is_whole(a: Seq<int>, b: Seq<int>, len: int, width: int)
    requires
        width > 0,
        len > 0,
        len % (2 * width) == 0,
        len <= usize::MAX,
    ensures
        pairs_inner(a, b, width, len / 2) == inner(a, b, len),
{
    let span = 2 * width;
    lemma_fundamental_div_mod(len, span);
    let q = len / span;
    assert(span * q == 2 * (q * width)) by (nonlinear_arith)
        requires
            span == 2 * width,
    ;
    assert(q >= 0) by (nonlinear_arith)
        requires
            len == span * q,
            len > 0,
            span > 0,
    ;
    assert(q * (2 * width) == span * q) by (nonlinear_arith)
        requires
            span == 2 * width,
    ;
    lemma_pairs_cover(a, b, len, width, q, 0);
}

/// Working on two runs of pairs is working on one after the other.
proof fn lemma_runs(v: Seq<int>, first: Seq<Butterfly>, second: Seq<Butterfly>, count: int)
    requires
        0 <= count <= second.len(),
    ensures
        transformed(v, first + second, first.len() + count) == transformed(
            transformed(v, first, first.len() as int),
            second,
            count,
        ),
    decreases count,
{
    if count > 0 {
        lemma_runs(v, first, second, count - 1);
        assert((first + second)[first.len() + count - 1] == second[count - 1]);
    } else {
        lemma_prefix(v, first, second, first.len() as int);
    }
}

proof fn lemma_prefix(v: Seq<int>, first: Seq<Butterfly>, second: Seq<Butterfly>, count: int)
    requires
        0 <= count <= first.len(),
    ensures
        transformed(v, first + second, count) == transformed(v, first, count),
    decreases count,
{
    if count > 0 {
        lemma_prefix(v, first, second, count - 1);
        assert((first + second)[count - 1] == first[count - 1]);
    }
}

/// Transformed values have the sum of products that the values had, times their
/// number: up to that factor the transform keeps sums of products.
pub proof fn law_transform_keeps_products(a: Seq<int>, b: Seq<int>, len: int)
    requires
        is_power_of_two(len),
        len <= usize::MAX,
        a.len() == len,
        b.len() == len,
    ensures
        ({
            let pairs = pairs_from(len, 1);
            inner(
                transformed(a, pairs, pairs.len() as int),
                transformed(b, pairs, pairs.len() as int),
                len,
            ) == len * inner(a, b, len)
        }),
{
    lemma_stages(a, b, len, 1);
}

proof fn lemma_stages(a: Seq<int>, b: Seq<int>, len: int, width: int)
    requires
        is_power_of_two(len),
        is_power_of_two(width),
        width <= len,
        len <= usize::MAX,
        a.len() == len,
        b.len() == len,
    ensures
        ({
            let pairs = pairs_from(len, width);
            width * inner(
                transformed(a, pairs, pairs.len() as int),
                transformed(b, pairs, pairs.len() as int),
                len,
            ) == len * inner(a, b, len)
        }),
    decreases len - width,
{
    let pairs = pairs_from(len, width);
    if width < len {
        lemma_width_divides(len, width);
        lemma_fundamental_div_mod(len, 2 * width);
        let q = len / (2 * width);
        assert(2 * width <= len) by (nonlinear_arith)
            requires
                len == 2 * width * q,
                len > 0,
                width > 0,
        ;
        let stage = stage_pairs(len, width);
        let rest = pairs_from(len, 2 * width);
        assert(pairs == stage + rest);
        lemma_runs(a, stage, rest, rest.len() as int);
        lemma_runs(b, stage, rest, rest.len() as int);
        let sa = transformed(a, stage, stage.len() as int);
        let sb = transformed(b, stage, stage.len() as int);
        lemma_transformed_len(a, len, width, len / 2);
        lemma_transformed_len(b, len, width, len / 2);
        lemma_stage_doubles(a, b, len, width, len / 2);
        lemma_stage_is_whole(a, b, len, width);
        lemma_stages(sa, sb, len, 2 * width);
        let end = inner(
            transformed(sa, rest, rest.len() as int),
            transformed(sb, rest, rest.len() as int),
            len,
        );
        let start = inner(a, b, len);
        assert(width * end == len * start) by (nonlinear_arith)
            requires
                2 * width * end == len * (2 * start),
        ;
    }
}

/// A stage pairs each value whose place is in an even run of `width` places with the
/// one `width` places further on, and pairs it once.
pub proof fn law_stages_pair_values_at_their_width(len: int, width: int, i: int)
    requires
        width > 0,
        len % (2 * width) == 0,
        0 <= i < len <= usize::MAX,
        i / width % 2 == 0,
    ensures
        ({
            let t = i / (2 * width) * width + i % width;
            &&& 0 <= t < stage_pairs(len, width).len()
            &&& stage_pairs(len, width)[t].lo == i
            &&& stage_pairs(len, width)[t].hi == i + width
            &&& i + width < len
        }),
{
    let span = 2 * width;
    let q = i / width / 2;
    let r = i % width;
    lemma_fundamental_div_mod(i, width);
    assert(i / width == 2 * q);
    assert(i == q * span + r) by (nonlinear_arith)
        requires
            i == width * (i / width) + r,
            i / width == 2 * q,
            span == 2 * width,
    ;
    lemma_fundamental_div_mod_converse(i, span, q, r);
    let t = q * width + r;
    lemma_fundamental_div_mod_converse(t, width, q, r);
    lemma_fundamental_div_mod(len, span);
    let c = len / span;
    assert(q < c) by (nonlinear_arith)
        requires
            q * span + r < span * c,
            r >= 0,
            span > 0,
    ;
    assert(len / 2 == width * c) by (nonlinear_arith)
        requires
            len == span * c,
            span == 2 * width,
    ;
    assert(t < width * c) by (nonlinear_arith)
        requires
            t == q * width + r,
            r < width,
            q < c,
            width > 0,
    ;
    assert(q >= 0) by (nonlinear_arith)
        requires
            q == i / width / 2,
            i >= 0,
            width > 0,
    ;
    assert(t >= 0) by (nonlinear_arith)
        requires
            t == q * width + r,
            q >= 0,
            width > 0,
            r >= 0,
    ;
    lemma_blocks(len, width, t);
}

/// The stages follow each other from width one on, and each is twice as wide as the
/// one before; the last one joins the two halves.
pub proof fn law_stages_double_in_width(len: int, width: int)
    requires
        0 < width < len,
    ensures
        stage_pairs(len, width).len() == len / 2,
        pairs_from(len, width) == stage_pairs(len, width) + pairs_from(len, 2 * width),
        2 * width >= len ==> pairs_from(len, 2 * width).len() == 0,
{
}

/// A butterfly leaves the sum of its two values in the first place and their
/// difference in the second, and no other value changes.
pub proof fn law_butterflies_add_and_subtract(v: Seq<int>, p: Butterfly, i: int)
    requires
        p.lo < p.hi < v.len(),
        0 <= i < v.len(),
    ensures
        ({
            let u = transformed(v, seq![p], 1);
            &&& u.len() == v.len()
            &&& u[p.lo as int] == v[p.lo as int] + v[p.hi as int]
            &&& u[p.hi as int] == v[p.lo as int] - v[p.hi as int]
            &&& i != p.lo && i != p.hi ==> u[i] == v[i]
        }),
{
    reveal_with_fuel(transformed, 2);
}

} // verus!
