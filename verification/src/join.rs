//! Matrices that are joined along their output columns.
//!
//! The members' weight rows, and their scales, stand one member after the other.
//! The columns of the joined product are handed back in the same order.

use crate::plan::{
    concat_copies, delivers, law_slice_delivers_its_columns, lemma_member_starts, member_move,
    member_moves, member_start, slice_holds, MemberCopy, WorkerSlice,
};
use crate::quant::dot;
use vstd::prelude::*;

verus! {

/// The values of all parts, one part after the other.
pub open spec fn joined<T>(parts: Seq<Seq<T>>) -> Seq<T>
    decreases parts.len(),
{
    if parts.len() == 0 {
        Seq::empty()
    } else {
        joined(parts.drop_last()) + parts.last()
    }
}

/// What the parts hold.
pub open spec fn held_parts<T>(parts: Seq<&[T]>) -> Seq<Seq<T>> {
    Seq::new(parts.len(), |i: int| parts[i]@)
}

/// Joins parts one after the other.
pub fn join_parts<T: Copy>(parts: &[&[T]]) -> (out: Vec<T>)
    ensures
        out@ == joined(held_parts(parts@)),
{
    let mut out: Vec<T> = Vec::new();
    let ghost whole = held_parts(parts@);
    let mut i: usize = 0;
    assert(whole.take(0) =~= Seq::<Seq<T>>::empty());
    while i < parts.len()
        invariant
            i <= parts@.len(),
            whole == held_parts(parts@),
            out@ == joined(whole.take(i as int)),
        decreases parts@.len() - i,
    {
        let part: &[T] = parts[i];
        let ghost before = out@;
        let mut j: usize = 0;
        while j < part.len()
            invariant
                j <= part@.len(),
                out@ == before + part@.take(j as int),
            decreases part@.len() - j,
        {
            out.push(part[j]);
            j = j + 1;
            assert(out@ =~= before + part@.take(j as int));
        }
        proof {
            assert(part@.take(j as int) =~= part@);
            let next = whole.take(i + 1);
            assert(next.drop_last() =~= whole.take(i as int));
            assert(next.last() == part@);
        }
        i = i + 1;
    }
    assert(whole.take(i as int) =~= whole);
    out
}

/// Every part has `unit` values for each of its columns.
pub open spec fn parts_fit<T>(parts: Seq<Seq<T>>, ns: Seq<usize>, unit: int) -> bool {
    &&& parts.len() == ns.len()
    &&& forall|i: int| 0 <= i < parts.len() ==> (#[trigger] parts[i]).len() == ns[i] * unit
}

/// A column's values stand behind those of all columns before it.
pub proof fn lemma_joined_place<T>(
    parts: Seq<Seq<T>>,
    ns: Seq<usize>,
    unit: int,
    upto: int,
    member: int,
    e: int,
)
    requires
        unit >= 0,
        parts_fit(parts, ns, unit),
        0 <= upto <= parts.len(),
    ensures
        joined(parts.take(upto)).len() == member_start(ns, upto) * unit,
        0 <= member < upto && 0 <= e < parts[member].len() ==> {
            &&& 0 <= member_start(ns, member) * unit + e < joined(parts.take(upto)).len()
            &&& joined(parts.take(upto))[member_start(ns, member) * unit + e] == parts[member][e]
        },
    decreases upto,
{
    if upto > 0 {
        let some = parts.take(upto);
        assert(some.drop_last() =~= parts.take(upto - 1));
        lemma_joined_place(parts, ns, unit, upto - 1, member, e);
        let (start, n) = (member_start(ns, upto - 1), ns[upto - 1] as int);
        assert((start + n) * unit == start * unit + n * unit) by (nonlinear_arith);
        assert(parts[upto - 1].len() == n * unit);
        if 0 <= member < upto && 0 <= e < parts[member].len() {
            lemma_member_starts(ns, member, upto - 1);
            let own = member_start(ns, member);
            assert(own * unit >= 0) by (nonlinear_arith)
                requires
                    own >= 0,
                    unit >= 0,
            ;
            if member < upto - 1 {
                assert(own * unit + ns[member] * unit <= start * unit) by (nonlinear_arith)
                    requires
                        own + ns[member] <= start,
                        unit >= 0,
                ;
            }
        }
    } else {
        assert(parts.take(0) =~= Seq::<Seq<T>>::empty());
        assert(0 * unit == 0) by (nonlinear_arith);
    }
}

/// One core's slice over all joined columns.
pub open spec fn whole_slice(ns: Seq<usize>) -> WorkerSlice {
    WorkerSlice { n0: 0, nsub: member_start(ns, ns.len() as int) as usize }
}

/// Lists which joined columns and scales each member's output comes from, for one
/// activation row.
pub fn member_columns(ns: &[usize]) -> (moves: Vec<MemberCopy>)
    requires
        member_start(ns@, ns@.len() as int) <= usize::MAX,
    ensures
        moves@ == member_moves(ns@, whole_slice(ns@), 1, ns@.len() as int),
{
    let mut total: usize = 0;
    let mut i: usize = 0;
    while i < ns.len()
        invariant
            i <= ns@.len(),
            member_start(ns@, ns@.len() as int) <= usize::MAX,
            total == member_start(ns@, i as int),
        decreases ns@.len() - i,
    {
        proof {
            lemma_member_starts(ns@, i + 1, ns@.len() as int);
        }
        total = total + ns[i];
        i = i + 1;
    }
    concat_copies(ns, WorkerSlice { n0: 0, nsub: total }, 1)
}

/// Every listed move of one row is the move of its member: all of the member's
/// columns, from where they stand among the joined ones.
proof fn lemma_moves_of_a_row(ns: Seq<usize>, members: int, i: int)
    requires
        0 <= members <= ns.len() <= usize::MAX,
        member_start(ns, ns.len() as int) <= usize::MAX,
        0 <= i < member_moves(ns, whole_slice(ns), 1, members).len(),
    ensures
        ({
            let mv = member_moves(ns, whole_slice(ns), 1, members)[i];
            &&& 0 <= mv.member < members
            &&& mv.row == 0
            &&& mv.src == member_start(ns, mv.member as int)
            &&& mv.scale == member_start(ns, mv.member as int)
            &&& mv.dst == 0
            &&& mv.len == ns[mv.member as int]
        }),
    decreases members,
{
    if members > 0 {
        let slice = whole_slice(ns);
        let before = member_moves(ns, slice, 1, members - 1);
        if i < before.len() {
            lemma_moves_of_a_row(ns, members - 1, i);
        } else {
            let member = members - 1;
            lemma_member_starts(ns, member, ns.len() as int);
            lemma_member_starts(ns, member, member + 1);
            lemma_member_starts(ns, member + 1, ns.len() as int);
            assert(0 * ns[member] == 0 && 0 * slice.nsub == 0) by (nonlinear_arith);
            assert(member_moves(ns, slice, 1, members)[i] == member_move(ns, slice, member, 0));
        }
    }
}

/// The products of a joined matrix are its members' own: each column of a member's
/// output is read from a joined column that holds the same sum of products as the
/// member alone, and it is scaled by the member's own scale.
pub proof fn law_joined_columns_are_the_members_own<S>(
    a: Seq<i8>,
    weights: Seq<Seq<i8>>,
    scales: Seq<Seq<S>>,
    ns: Seq<usize>,
    k: int,
    member: int,
    col: int,
)
    requires
        k >= 0,
        parts_fit(weights, ns, k),
        parts_fit(scales, ns, 1),
        0 <= member < ns.len() <= usize::MAX,
        0 <= col < ns[member],
        member_start(ns, ns.len() as int) <= usize::MAX,
    ensures
        ({
            let moves = member_moves(ns, whole_slice(ns), 1, ns.len() as int);
            &&& exists|i: int|
                0 <= i < moves.len() && #[trigger] moves[i].member == member && moves[i].dst <= col
                    < moves[i].dst + moves[i].len
            &&& forall|i: int|
                0 <= i < moves.len() && #[trigger] moves[i].member == member ==> {
                    &&& moves[i].dst <= col < moves[i].dst + moves[i].len
                    &&& dot(a, 0, joined(weights), (moves[i].src + (col - moves[i].dst)) * k, k)
                        == dot(a, 0, weights[member], col * k, k)
                    &&& joined(scales)[moves[i].scale + (col - moves[i].dst)]
                        == scales[member][col]
                }
        }),
{
    let count = ns.len() as int;
    let slice = whole_slice(ns);
    let moves = member_moves(ns, slice, 1, count);
    lemma_member_starts(ns, member, count);
    assert(slice_holds(ns, slice, member, col));
    law_slice_delivers_its_columns(ns, slice, 1, member, 0, col);
    let found = choose|i: int|
        0 <= i < moves.len() && #[trigger] delivers(moves[i], ns, slice, member, 0, col);
    assert(0 * ns[member] == 0) by (nonlinear_arith);
    assert(moves[found].member == member);
    lemma_same_products(a, weights, ns, k, member, col, k);
    lemma_joined_place(scales, ns, 1, count, member, col);
    assert(scales.take(count) =~= scales);
    assert forall|i: int| 0 <= i < moves.len() && #[trigger] moves[i].member == member implies {
        &&& moves[i].dst <= col < moves[i].dst + moves[i].len
        &&& dot(a, 0, joined(weights), (moves[i].src + (col - moves[i].dst)) * k, k) == dot(
            a,
            0,
            weights[member],
            col * k,
            k,
        )
        &&& joined(scales)[moves[i].scale + (col - moves[i].dst)] == scales[member][col]
    } by {
        lemma_moves_of_a_row(ns, count, i);
    }
}

proof fn lemma_same_products(
    a: Seq<i8>,
    weights: Seq<Seq<i8>>,
    ns: Seq<usize>,
    k: int,
    member: int,
    col: int,
    len: int,
)
    requires
        0 <= len <= k,
        parts_fit(weights, ns, k),
        0 <= member < ns.len(),
        0 <= col < ns[member],
    ensures
        dot(a, 0, joined(weights), (member_start(ns, member) + col) * k, len) == dot(
            a,
            0,
            weights[member],
            col * k,
            len,
        ),
    decreases len,
{
    if len > 0 {
        lemma_same_products(a, weights, ns, k, member, col, len - 1);
        let count = ns.len() as int;
        let (start, n) = (member_start(ns, member), ns[member] as int);
        let e = col * k + len - 1;
        assert((start + col) * k == start * k + col * k) by (nonlinear_arith);
        assert(0 <= col * k && col * k + k <= n * k) by (nonlinear_arith)
            requires
                0 <= col,
                col + 1 <= n,
                k >= 0,
        ;
        lemma_joined_place(weights, ns, k, count, member, e);
        assert(weights.take(count) =~= weights);
    }
}

/// Parts are joined in order, each behind those before it.
pub proof fn law_parts_are_joined_in_order<T>(parts: Seq<Seq<T>>, part: Seq<T>)
    ensures
        joined(Seq::<Seq<T>>::empty()).len() == 0,
        joined(seq![part]) == part,
        joined(parts.push(part)) == joined(parts) + part,
{
    reveal_with_fuel(joined, 2);
    assert(parts.push(part).drop_last() =~= parts);
    assert(seq![part].drop_last() =~= Seq::<Seq<T>>::empty());
    assert(Seq::<T>::empty() + part =~= part);
}

/// A slice that is the whole starts with the first member and ends with the last.
pub proof fn law_whole_slices_hold_every_member(ns: Seq<usize>)
    requires
        member_start(ns, ns.len() as int) <= usize::MAX,
    ensures
        whole_slice(ns).n0 == member_start(ns, 0),
        whole_slice(ns).n0 + whole_slice(ns).nsub == member_start(ns, ns.len() as int),
{
    crate::plan::lemma_member_starts(ns, 0, ns.len() as int);
}

/// The parts that are held are the parts themselves, one by one.
pub proof fn law_held_parts_are_the_parts<T>(parts: Seq<&[T]>, i: int)
    requires
        0 <= i < parts.len(),
    ensures
        held_parts(parts).len() == parts.len(),
        held_parts(parts)[i] == parts[i]@,
{
}

} // verus!
