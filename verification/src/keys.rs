//! Identities of quantized weights and of the shapes they are run at.

use crate::table::TableKey;
use vstd::prelude::*;

verus! {

/// Quantization format of a weight matrix.
#[derive(Clone, Copy, Debug, PartialEq, Eq, Hash, Structural)]
pub enum DecodeWeightKind {
    Q4K,
    Q6K,
}

/// One immutable weight matrix: where its bytes lie, and its logical shape.
#[derive(Clone, Copy, Debug, PartialEq, Eq, Hash, Structural)]
pub struct DecodeWeightKey {
    pub address: usize,
    pub bytes: usize,
    pub k: usize,
    pub n: usize,
    pub kind: DecodeWeightKind,
}

/// Two projections of one activation.
#[derive(Clone, Copy, Debug, PartialEq, Eq, Hash, Structural)]
pub struct DecodePairKey {
    pub first: DecodeWeightKey,
    pub second: DecodeWeightKey,
}

/// Three projections of one activation.
#[derive(Clone, Copy, Debug, PartialEq, Eq, Hash, Structural)]
pub struct DecodeTripleKey {
    pub first: DecodeWeightKey,
    pub second: DecodeWeightKey,
    pub third: DecodeWeightKey,
}

/// Up to four projections of one activation, in column order.
pub struct ConcatKey {
    pub members: Vec<DecodeWeightKey>,
}

/// A weight matrix that is quantized in groups along K.
#[derive(Clone, Copy, Debug, PartialEq, Eq, Hash, Structural)]
pub struct GroupedKey {
    pub key: DecodeWeightKey,
    pub group_size: usize,
}

/// A weight matrix in four bits, in groups along K.
#[derive(Clone, Copy, Debug, PartialEq, Eq, Hash, Structural)]
pub struct GroupedW4Key {
    pub key: DecodeWeightKey,
    pub group_size: usize,
    pub hadamard: bool,
}

/// A weight matrix in four bits with one group over all of K.
#[derive(Clone, Copy, Debug, PartialEq, Eq, Hash, Structural)]
pub struct PoolW4Key {
    pub key: DecodeWeightKey,
    pub hadamard: bool,
}

/// The shape by which worker choices are remembered.
#[derive(Clone, Copy, Debug, PartialEq, Eq, Hash, Structural)]
pub struct ShapeKey {
    pub k: usize,
    pub n: usize,
}

/// The axis along which a projection is cut across NPU cores.
#[derive(Clone, Copy, Debug, PartialEq, Eq, Hash, Structural)]
pub enum Int8DecodeSplit {
    N,
    K,
}

/// How a projection is spread over the cores.
#[derive(Clone, Copy, Debug, PartialEq, Eq, Structural)]
pub struct DecodeChoice {
    pub split: Int8DecodeSplit,
    pub workers: usize,
}

/// Weights that lie prepared in NPU memory.
#[derive(Clone, Copy, Debug, PartialEq, Eq, Structural)]
pub struct Resident {
    pub handle: u64,
    pub resident_bytes: usize,
}

impl View for DecodeWeightKey {
    type V = DecodeWeightKey;

    open spec fn view(&self) -> DecodeWeightKey {
        *self
    }
}

impl View for DecodePairKey {
    type V = DecodePairKey;

    open spec fn view(&self) -> DecodePairKey {
        *self
    }
}

impl View for DecodeTripleKey {
    type V = DecodeTripleKey;

    open spec fn view(&self) -> DecodeTripleKey {
        *self
    }
}

impl View for GroupedKey {
    type V = GroupedKey;

    open spec fn view(&self) -> GroupedKey {
        *self
    }
}

impl View for GroupedW4Key {
    type V = GroupedW4Key;

    open spec fn view(&self) -> GroupedW4Key {
        *self
    }
}

impl View for PoolW4Key {
    type V = PoolW4Key;

    open spec fn view(&self) -> PoolW4Key {
        *self
    }
}

impl View for ShapeKey {
    type V = ShapeKey;

    open spec fn view(&self) -> ShapeKey {
        *self
    }
}

impl View for ConcatKey {
    type V = Seq<DecodeWeightKey>;

    open spec fn view(&self) -> Seq<DecodeWeightKey> {
        self.members@
    }
}

impl TableKey for DecodeWeightKey {
    fn same(&self, other: &Self) -> (r: bool) {
        *self == *other
    }
}

impl TableKey for DecodePairKey {
    fn same(&self, other: &Self) -> (r: bool) {
        *self == *other
    }
}

impl TableKey for DecodeTripleKey {
    fn same(&self, other: &Self) -> (r: bool) {
        *self == *other
    }
}

impl TableKey for GroupedKey {
    fn same(&self, other: &Self) -> (r: bool) {
        *self == *other
    }
}

impl TableKey for GroupedW4Key {
    fn same(&self, other: &Self) -> (r: bool) {
        *self == *other
    }
}

impl TableKey for PoolW4Key {
    fn same(&self, other: &Self) -> (r: bool) {
        *self == *other
    }
}

impl TableKey for ShapeKey {
    fn same(&self, other: &Self) -> (r: bool) {
        *self == *other
    }
}

impl TableKey for ConcatKey {
    fn same(&self, other: &Self) -> (r: bool) {
        if self.members.len() != other.members.len() {
            return false;
        }
        let mut i: usize = 0;
        while i < self.members.len()
            invariant
                i <= self.members@.len(),
                self.members@.len() == other.members@.len(),
                forall|j: int| 0 <= j < i ==> self.members@[j] == other.members@[j],
            decreases self.members@.len() - i,
        {
            if self.members[i] != other.members[i] {
                return false;
            }
            i = i + 1;
        }
        assert(self@ =~= other@);
        true
    }
}

impl ConcatKey {
    /// The same members again.
    pub fn copy(&self) -> (r: ConcatKey)
        ensures
            r@ == self@,
    {
        let mut members: Vec<DecodeWeightKey> = Vec::new();
        let mut i: usize = 0;
        while i < self.members.len()
            invariant
                i <= self.members@.len(),
                members@ == self.members@.take(i as int),
            decreases self.members@.len() - i,
        {
            members.push(self.members[i]);
            assert(members@ =~= self.members@.take(i + 1));
            i = i + 1;
        }
        assert(members@ =~= self.members@);
        ConcatKey { members }
    }
}

/// The kind that the numeric code of the C interface stands for.
pub open spec fn kind_of_code(code: u32) -> Option<DecodeWeightKind> {
    if code == 4 {
        Some(DecodeWeightKind::Q4K)
    } else if code == 6 {
        Some(DecodeWeightKind::Q6K)
    } else {
        None
    }
}

/// Reads the numeric kind code: 4 is Q4_K, 6 is Q6_K, anything else is unknown.
pub fn decode_kind(code: u32) -> (r: Option<DecodeWeightKind>)
    ensures
        r == kind_of_code(code),
{
    if code == 4 {
        Some(DecodeWeightKind::Q4K)
    } else if code == 6 {
        Some(DecodeWeightKind::Q6K)
    } else {
        None
    }
}

/// Four stands for `Q4_K` and six for `Q6_K`; no other number stands for a format,
/// and no two numbers stand for one.
pub proof fn law_format_codes(code: u32, other: u32)
    ensures
        kind_of_code(code) is Some <==> code == 4 || code == 6,
        kind_of_code(code) == Some(DecodeWeightKind::Q4K) <==> code == 4,
        kind_of_code(code) is Some && kind_of_code(code) == kind_of_code(other) ==> code == other,
{
}

/// Two identities are the same only where all their parts are: nothing about the
/// weights, how they were grouped or whether they were rotated is left out.
pub proof fn law_identities_leave_nothing_out(
    a: DecodeWeightKey,
    b: DecodeWeightKey,
    ga: GroupedKey,
    gb: GroupedKey,
    wa: GroupedW4Key,
    wb: GroupedW4Key,
    pa: PoolW4Key,
    pb: PoolW4Key,
    sa: ShapeKey,
    sb: ShapeKey,
)
    ensures
        a@ == b@ <==> a.address == b.address && a.bytes == b.bytes && a.k == b.k && a.n == b.n
            && a.kind == b.kind,
        ga@ == gb@ <==> ga.key@ == gb.key@ && ga.group_size == gb.group_size,
        wa@ == wb@ <==> wa.key@ == wb.key@ && wa.group_size == wb.group_size && wa.hadamard
            == wb.hadamard,
        pa@ == pb@ <==> pa.key@ == pb.key@ && pa.hadamard == pb.hadamard,
        sa@ == sb@ <==> sa.k == sb.k && sa.n == sb.n,
{
}

/// Joined identities are the same only where their members are, one by one and in
/// order.
pub proof fn law_joined_identities_keep_their_order(
    p: DecodePairKey,
    q: DecodePairKey,
    t: DecodeTripleKey,
    u: DecodeTripleKey,
    c: ConcatKey,
    d: ConcatKey,
)
    ensures
        p@ == q@ <==> p.first@ == q.first@ && p.second@ == q.second@,
        t@ == u@ <==> t.first@ == u.first@ && t.second@ == u.second@ && t.third@ == u.third@,
        c@ == d@ <==> c.members@.len() == d.members@.len() && (forall|i: int|
            0 <= i < c.members@.len() ==> #[trigger] c.members@[i] == d.members@[i]),
{
    if c.members@.len() == d.members@.len() && (forall|i: int|
        0 <= i < c.members@.len() ==> #[trigger] c.members@[i] == d.members@[i]) {
        assert(c.members@ =~= d.members@);
    }
}

} // verus!
