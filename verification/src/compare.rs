//! Reference products, and checks of what the device computed against them.

use crate::quant::{dot, slice_rows};
use vstd::prelude::*;

verus! {

/// A product of up to `k` pairs of eight-bit values stays within bounds.
proof fn lemma_dot_bound(a: Seq<i8>, a0: int, b: Seq<i8>, b0: int, len: int)
    requires
        len >= 0,
    ensures
        -16384 * len <= dot(a, a0, b, b0, len) <= 16384 * len,
    decreases len,
{
    if len > 0 {
        lemma_dot_bound(a, a0, b, b0, len - 1);
        let (x, y) = (a[a0 + len - 1] as int, b[b0 + len - 1] as int);
        assert(-16384 <= x * y <= 16384) by (nonlinear_arith)
            requires
                -128 <= x <= 127,
                -128 <= y <= 127,
        ;
    }
}

/// One row times the rows of an output-major matrix, over the values from `k0`
/// on. More than 131071 values could go beyond 32 bits.
pub fn reference_nk(a: &[i8], b_nk: &[i8], k: usize, k0: usize, len: usize, n: usize) -> (out: Vec<
    i32,
>)
    requires
        a@.len() == k,
        b_nk@.len() == n * k,
        k0 + len <= k,
        len <= 131071,
    ensures
        out@.len() == n,
        forall|c: int|
            0 <= c < n ==> #[trigger] out@[c] == dot(a@, k0 as int, b_nk@, c * k + k0, len as int),
{
    let total: usize = b_nk.len();
    let mut out: Vec<i32> = Vec::new();
    while out.len() < n
        invariant
            a@.len() == k,
            total == b_nk@.len() == n * k,
            k0 + len <= k,
            len <= 131071,
            out@.len() <= n,
            forall|c: int|
                0 <= c < out@.len() ==> #[trigger] out@[c] == dot(
                    a@,
                    k0 as int,
                    b_nk@,
                    c * k + k0,
                    len as int,
                ),
        decreases n - out@.len(),
    {
        let c: usize = out.len();
        proof {
            assert(0 <= c * k && c * k + k <= n * k) by (nonlinear_arith)
                requires
                    c + 1 <= n,
                    k >= 0,
                    c >= 0,
            ;
        }
        let start: usize = c * k + k0;
        let mut sum: i32 = 0;
        let mut i: usize = 0;
        while i < len
            invariant
                a@.len() == k,
                total == b_nk@.len() == n * k,
                c * k + k <= n * k,
                start == c * k + k0,
                k0 + len <= k,
                len <= 131071,
                i <= len,
                sum == dot(a@, k0 as int, b_nk@, start as int, i as int),
            decreases len - i,
        {
            proof {
                lemma_dot_bound(a@, k0 as int, b_nk@, start as int, i as int);
                lemma_dot_bound(a@, k0 as int, b_nk@, start as int, i + 1);
                let (x, y) = (a@[k0 + i] as int, b_nk@[start + i] as int);
                assert(-16384 <= x * y <= 16384) by (nonlinear_arith)
                    requires
                        -128 <= x <= 127,
                        -128 <= y <= 127,
                ;
            }
            sum = sum + a[k0 + i] as i32 * b_nk[start + i] as i32;
            i = i + 1;
        }
        out.push(sum);
    }
    out
}

/// The sum of products of a row with a column of an input-major matrix.
pub open spec fn dot_kn(a: Seq<i8>, b: Seq<i8>, n: int, c: int, len: int) -> int
    decreases len,
{
    if len <= 0 {
        0
    } else {
        dot_kn(a, b, n, c, len - 1) + a[len - 1] * b[(len - 1) * n + c]
    }
}

proof fn lemma_dot_kn_bound(a: Seq<i8>, b: Seq<i8>, n: int, c: int, len: int)
    requires
        len >= 0,
    ensures
        -16384 * len <= dot_kn(a, b, n, c, len) <= 16384 * len,
    decreases len,
{
    if len > 0 {
        lemma_dot_kn_bound(a, b, n, c, len - 1);
        let (x, y) = (a[len - 1] as int, b[(len - 1) * n + c] as int);
        assert(-16384 <= x * y <= 16384) by (nonlinear_arith)
            requires
                -128 <= x <= 127,
                -128 <= y <= 127,
        ;
    }
}

/// One row times the columns of an input-major matrix.
pub fn cpu_reference(a: &[i8], b_kn: &[i8], k: usize, n: usize) -> (out: Vec<i32>)
    requires
        a@.len() == k,
        b_kn@.len() == k * n,
        k <= 131071,
    ensures
        out@.len() == n,
        forall|c: int|
            0 <= c < n ==> #[trigger] out@[c] == dot_kn(a@, b_kn@, n as int, c, k as int),
{
    let total: usize = b_kn.len();
    let mut out: Vec<i32> = Vec::new();
    while out.len() < n
        invariant
            a@.len() == k,
            total == b_kn@.len() == k * n,
            k <= 131071,
            out@.len() <= n,
            forall|c: int|
                0 <= c < out@.len() ==> #[trigger] out@[c] == dot_kn(
                    a@,
                    b_kn@,
                    n as int,
                    c,
                    k as int,
                ),
        decreases n - out@.len(),
    {
        let c: usize = out.len();
        let mut sum: i32 = 0;
        let mut i: usize = 0;
        while i < k
            invariant
                a@.len() == k,
                total == b_kn@.len() == k * n,
                k <= 131071,
                c < n,
                i <= k,
                sum == dot_kn(a@, b_kn@, n as int, c as int, i as int),
            decreases k - i,
        {
            proof {
                lemma_dot_kn_bound(a@, b_kn@, n as int, c as int, i as int);
                lemma_dot_kn_bound(a@, b_kn@, n as int, c as int, i + 1);
                assert(0 <= i * n && i * n + n <= k * n) by (nonlinear_arith)
                    requires
                        i + 1 <= k,
                        n >= 0,
                        i >= 0,
                ;
                let (x, y) = (a@[i as int] as int, b_kn@[i * n + c] as int);
                assert(-16384 <= x * y <= 16384) by (nonlinear_arith)
                    requires
                        -128 <= x <= 127,
                        -128 <= y <= 127,
                ;
            }
            sum = sum + a[i] as i32 * b_kn[i * n + c] as i32;
            i = i + 1;
        }
        out.push(sum);
    }
    out
}

/// The products of one row, group by group, if each fits sixteen bits.
pub fn cpu_grouped_reference(a: &[i8], b_nk: &[i8], k: usize, n: usize, group: usize) -> (r: Option<
    Vec<i16>,
>)
    requires
        a@.len() == k,
        b_nk@.len() == n * k,
        0 < group <= 131071,
        k % group == 0,
        k / group * n <= usize::MAX,
    ensures
        match r {
            Some(out) => {
                &&& out@.len() == k / group * n
                &&& forall|i: int|
                    0 <= i < out@.len() ==> #[trigger] out@[i] == grouped_product(
                        a@,
                        b_nk@,
                        k as int,
                        n as int,
                        group as int,
                        i,
                    )
            },
            None => exists|i: int|
                0 <= i < k / group * n && !(i16::MIN <= #[trigger] grouped_product(
                    a@,
                    b_nk@,
                    k as int,
                    n as int,
                    group as int,
                    i,
                ) <= i16::MAX),
        },
{
    let groups: usize = k / group;
    let mut out: Vec<i16> = Vec::new();
    let mut g: usize = 0;
    assert(0 * n == 0) by (nonlinear_arith);
    while g < groups
        invariant
            a@.len() == k,
            b_nk@.len() == n * k,
            0 < group <= 131071,
            k % group == 0,
            groups == k / group,
            groups * n <= usize::MAX,
            g <= groups,
            out@.len() == g * n,
            forall|i: int|
                0 <= i < out@.len() ==> #[trigger] out@[i] == grouped_product(
                    a@,
                    b_nk@,
                    k as int,
                    n as int,
                    group as int,
                    i,
                ),
        decreases groups - g,
    {
        proof {
            vstd::arithmetic::div_mod::lemma_fundamental_div_mod(k as int, group as int);
            assert(g * group + group <= k && g * group >= 0) by (nonlinear_arith)
                requires
                    g + 1 <= groups,
                    k == group * groups,
                    group > 0,
                    g >= 0,
            ;
        }
        let sums: Vec<i32> = reference_nk(a, b_nk, k, g * group, group, n);
        let mut c: usize = 0;
        while c < n
            invariant
                n > 0 ==> groups * n <= usize::MAX,
                g < groups,
                c <= n,
                groups == k / group,
                sums@.len() == n,
                forall|c: int|
                    0 <= c < n ==> #[trigger] sums@[c] == dot(
                        a@,
                        g * group,
                        b_nk@,
                        c * k + g * group,
                        group as int,
                    ),
                out@.len() == g * n + c,
                forall|i: int|
                    0 <= i < out@.len() ==> #[trigger] out@[i] == grouped_product(
                        a@,
                        b_nk@,
                        k as int,
                        n as int,
                        group as int,
                        i,
                    ),
            decreases n - c,
        {
            proof {
                vstd::arithmetic::div_mod::lemma_fundamental_div_mod_converse(
                    g * n + c,
                    n as int,
                    g as int,
                    c as int,
                );
                assert(g * n >= 0 && g * n + n <= groups * n) by (nonlinear_arith)
                    requires
                        g + 1 <= groups,
                        n >= 0,
                        g >= 0,
                ;
                assert(grouped_product(a@, b_nk@, k as int, n as int, group as int, g * n + c)
                    == sums@[c as int]);
            }
            let sum: i32 = sums[c];
            if sum < -32768 || sum > 32767 {
                return None;
            }
            out.push(sum as i16);
            c = c + 1;
        }
        assert((g + 1) * n == g * n + n) by (nonlinear_arith);
        g = g + 1;
    }
    Some(out)
}

/// Product `i` of a grouped result: groups outermost, then outputs.
pub open spec fn grouped_product(
    a: Seq<i8>,
    b: Seq<i8>,
    k: int,
    n: int,
    group: int,
    i: int,
) -> int {
    let g = i / n;
    let c = i % n;
    dot(a, g * group, b, c * k + g * group, group)
}

/// A place where two results differ.
#[derive(Clone, Copy, Debug, PartialEq, Eq, Structural)]
pub struct Mismatch {
    pub index: usize,
    pub want: i32,
    pub got: i32,
}

/// The first differences among the first `count` places, at most `limit`.
pub open spec fn mismatches_upto(
    expected: Seq<i32>,
    actual: Seq<i32>,
    limit: int,
    count: int,
) -> Seq<Mismatch>
    decreases count,
{
    if count <= 0 {
        Seq::empty()
    } else {
        let before = mismatches_upto(expected, actual, limit, count - 1);
        if expected[count - 1] != actual[count - 1] && before.len() < limit {
            before.push(
                Mismatch {
                    index: (count - 1) as usize,
                    want: expected[count - 1],
                    got: actual[count - 1],
                },
            )
        } else {
            before
        }
    }
}

/// What is wrong with a result.
pub enum Verdict {
    Same,
    Length,
    Different { examples: Vec<Mismatch> },
}

/// How many places two results both have.
pub open spec fn common_len(actual: Seq<i32>, expected: Seq<i32>) -> int {
    if actual.len() < expected.len() {
        actual.len() as int
    } else {
        expected.len() as int
    }
}

/// Two results hold the same values wherever both have one.
pub open spec fn agree(actual: Seq<i32>, expected: Seq<i32>) -> bool {
    forall|i: int| 0 <= i < common_len(actual, expected) ==> #[trigger] expected[i] == actual[i]
}

/// Lists at most `limit` differences, over the places that both results have.
pub fn common_mismatches(actual: &[i32], expected: &[i32], limit: usize) -> (examples: Vec<Mismatch>)
    ensures
        examples@ == mismatches_upto(
            expected@,
            actual@,
            limit as int,
            common_len(actual@, expected@),
        ),
        limit > 0 ==> (examples@.len() == 0 <==> agree(actual@, expected@)),
{
    let len: usize = if actual.len() < expected.len() {
        actual.len()
    } else {
        expected.len()
    };
    let mut examples: Vec<Mismatch> = Vec::new();
    let mut i: usize = 0;
    while i < len
        invariant
            i <= len == common_len(actual@, expected@),
            examples@ == mismatches_upto(expected@, actual@, limit as int, i as int),
            limit > 0 && examples@.len() == 0 ==> forall|j: int|
                0 <= j < i ==> #[trigger] expected@[j] == actual@[j],
            examples@.len() > 0 ==> exists|j: int|
                0 <= j < i && #[trigger] expected@[j] != actual@[j],
        decreases len - i,
    {
        let (want, got): (i32, i32) = (expected[i], actual[i]);
        if want != got && examples.len() < limit {
            examples.push(Mismatch { index: i, want, got });
            assert(expected@[i as int] != actual@[i as int]);
        }
        i = i + 1;
    }
    examples
}

/// Holds a result against what is expected, and shows at most `limit` differences.
/// Results of different lengths are not compared.
pub fn verify(actual: &[i32], expected: &[i32], limit: usize) -> (r: Verdict)
    requires
        limit > 0,
    ensures
        match r {
            Verdict::Same => actual@ == expected@,
            Verdict::Length => actual@.len() != expected@.len(),
            Verdict::Different { examples } => {
                &&& actual@.len() == expected@.len()
                &&& actual@ != expected@
                &&& examples@ == mismatches_upto(
                    expected@,
                    actual@,
                    limit as int,
                    expected@.len() as int,
                )
                &&& examples@.len() > 0
            },
        },
{
    if actual.len() != expected.len() {
        return Verdict::Length;
    }
    let examples: Vec<Mismatch> = common_mismatches(actual, expected, limit);
    if examples.len() == 0 {
        assert(actual@ =~= expected@);
        Verdict::Same
    } else {
        Verdict::Different { examples }
    }
}

/// Holds a result against what is expected over the places that both have, and
/// shows at most `limit` differences. What only the longer one has does not count.
pub fn verify_common(actual: &[i32], expected: &[i32], limit: usize) -> (r: Result<
    (),
    Vec<Mismatch>,
>)
    requires
        limit > 0,
    ensures
        match r {
            Ok(()) => agree(actual@, expected@),
            Err(examples) => {
                &&& !agree(actual@, expected@)
                &&& examples@ == mismatches_upto(
                    expected@,
                    actual@,
                    limit as int,
                    common_len(actual@, expected@),
                )
                &&& examples@.len() > 0
            },
        },
{
    let examples: Vec<Mismatch> = common_mismatches(actual, expected, limit);
    if examples.len() == 0 {
        Ok(())
    } else {
        Err(examples)
    }
}

/// Holds a result against what is expected, its length too, and shows at most
/// `limit` differences over the places that both have. A result that only has the
/// wrong length is refused with none to show.
pub fn verify_exact(actual: &[i32], expected: &[i32], limit: usize) -> (r: Result<
    (),
    Vec<Mismatch>,
>)
    requires
        limit > 0,
    ensures
        match r {
            Ok(()) => actual@ == expected@,
            Err(examples) => {
                &&& actual@ != expected@
                &&& examples@ == mismatches_upto(
                    expected@,
                    actual@,
                    limit as int,
                    common_len(actual@, expected@),
                )
            },
        },
{
    let examples: Vec<Mismatch> = common_mismatches(actual, expected, limit);
    if examples.len() == 0 && actual.len() == expected.len() {
        assert(actual@ =~= expected@);
        Ok(())
    } else {
        Err(examples)
    }
}

/// How many of the first `count` patterns differ.
pub open spec fn differing(a: Seq<u16>, b: Seq<u16>, count: int) -> int
    decreases count,
{
    if count <= 0 {
        0
    } else {
        differing(a, b, count - 1) + if a[count - 1] != b[count - 1] {
            1int
        } else {
            0
        }
    }
}

/// How many bit patterns differ, over the places that both results have.
pub fn mismatch_count(a: &[u16], b: &[u16]) -> (r: usize)
    ensures
        r == differing(
            a@,
            b@,
            if a@.len() < b@.len() {
                a@.len() as int
            } else {
                b@.len() as int
            },
        ),
{
    let len: usize = if a.len() < b.len() {
        a.len()
    } else {
        b.len()
    };
    let mut count: usize = 0;
    let mut i: usize = 0;
    while i < len
        invariant
            i <= len,
            len <= a@.len(),
            len <= b@.len(),
            count <= i,
            count == differing(a@, b@, i as int),
        decreases len - i,
    {
        if a[i] != b[i] {
            count = count + 1;
        }
        i = i + 1;
    }
    count
}

/// What is wrong with a worker's result.
#[derive(Clone, Copy, Debug, PartialEq, Eq, Structural)]
pub enum MergeError {
    /// The worker or its columns are unknown.
    Metadata,
    /// There are too many or too few values.
    Length,
    /// A sum goes beyond 32 bits.
    Overflow,
}

/// Takes a worker's columns into the whole result.
pub fn place_columns(
    values: &mut Vec<i32>,
    worker: usize,
    workers: usize,
    n0: usize,
    nsub: usize,
    output: &[i32],
) -> (r: Result<(), MergeError>)
    ensures
        final(values)@.len() == old(values)@.len(),
        match r {
            Ok(_) => {
                &&& worker < workers
                &&& n0 + nsub <= old(values)@.len()
                &&& output@.len() == nsub
                &&& forall|i: int|
                    0 <= i < final(values)@.len() ==> #[trigger] final(values)@[i] == (if n0 <= i
                        < n0 + nsub {
                        output@[i - n0]
                    } else {
                        old(values)@[i]
                    })
            },
            Err(e) => {
                &&& final(values)@ == old(values)@
                &&& if worker >= workers || n0 + nsub > old(values)@.len() {
                    e == MergeError::Metadata
                } else {
                    output@.len() != nsub && e == MergeError::Length
                }
            },
        },
{
    let total: usize = values.len();
    let within = match n0.checked_add(nsub) {
        Some(end) => end <= total,
        None => false,
    };
    if worker >= workers || !within {
        return Err(MergeError::Metadata);
    }
    if output.len() != nsub {
        return Err(MergeError::Length);
    }
    let ghost before = values@;
    let mut i: usize = 0;
    while i < nsub
        invariant
            i <= nsub,
            output@.len() == nsub,
            n0 + nsub <= total == values@.len(),
            values@.len() == before.len(),
            forall|j: int|
                0 <= j < values@.len() ==> #[trigger] values@[j] == (if n0 <= j < n0 + i {
                    output@[j - n0]
                } else {
                    before[j]
                }),
        decreases nsub - i,
    {
        values[n0 + i] = output[i];
        i = i + 1;
    }
    Ok(())
}

/// `values` with the first `count` of `output` added to them.
pub open spec fn added_upto(values: Seq<i32>, output: Seq<i32>, count: int) -> Seq<i32> {
    Seq::new(
        values.len(),
        |i: int|
            if i < count {
                (values[i] + output[i]) as i32
            } else {
                values[i]
            },
    )
}

/// Adds a worker's share of K to the whole result, up to a sum that does not fit.
pub fn add_partial(values: &mut Vec<i32>, worker: usize, workers: usize, output: &[i32]) -> (r:
    Result<(), MergeError>)
    ensures
        match r {
            Ok(_) => {
                &&& worker < workers
                &&& output@.len() == old(values)@.len()
                &&& final(values)@.len() == old(values)@.len()
                &&& forall|i: int|
                    0 <= i < final(values)@.len() ==> #[trigger] final(values)@[i] == old(
                        values,
                    )@[i] + output@[i]
            },
            Err(e) => if worker >= workers {
                e == MergeError::Metadata && final(values)@ == old(values)@
            } else if output@.len() != old(values)@.len() {
                e == MergeError::Length && final(values)@ == old(values)@
            } else {
                &&& e == MergeError::Overflow
                &&& exists|i: int|
                    0 <= i < output@.len() && !(i32::MIN <= #[trigger] old(values)@[i] + output@[i]
                        <= i32::MAX) && final(values)@ == added_upto(old(values)@, output@, i) && (
                    forall|j: int|
                        0 <= j < i ==> i32::MIN <= old(values)@[j] + #[trigger] output@[j]
                            <= i32::MAX)
            },
        },
{
    if worker >= workers {
        return Err(MergeError::Metadata);
    }
    if output.len() != values.len() {
        return Err(MergeError::Length);
    }
    let ghost before = values@;
    let mut i: usize = 0;
    while i < output.len()
        invariant
            worker < workers,
            i <= output@.len(),
            values@.len() == output@.len(),
            before.len() == values@.len(),
            before == old(values)@,
            forall|j: int|
                0 <= j < values@.len() ==> #[trigger] values@[j] == (if j < i {
                    before[j] + output@[j]
                } else {
                    before[j] as int
                }),
        decreases output@.len() - i,
    {
        match values[i].checked_add(output[i]) {
            Some(sum) => {
                values[i] = sum;
            },
            None => {
                assert(!(i32::MIN <= before[i as int] + output@[i as int] <= i32::MAX));
                assert(values@ =~= added_upto(before, output@, i as int));
                assert forall|j: int| 0 <= j < i implies i32::MIN <= before[j] + #[trigger] output@[j]
                    <= i32::MAX by {
                    assert(values@[j] == before[j] + output@[j]);
                }
                return Err(MergeError::Overflow);
            },
        }
        i = i + 1;
    }
    Ok(())
}

/// Cuts `ksub` values from `k0` on out of every row.
pub fn extract_weight_slice(weights: &[i8], k: usize, n: usize, k0: usize, ksub: usize) -> (out: Vec<
    i8,
>)
    requires
        weights@.len() == n * k,
        k0 + ksub <= k,
    ensures
        out@.len() == n * ksub,
        forall|row: int, i: int|
            #![trigger out@[row * ksub + i]]
            0 <= row < n && 0 <= i < ksub ==> out@[row * ksub + i] == weights@[row * k + k0 + i],
{
    slice_rows(weights, n, k, k0, ksub)
}

/// The place of a quantile among `len` sorted samples.
pub fn percentile_index(len: usize, num: usize, den: usize) -> (i: usize)
    requires
        len > 0,
        den > 0,
        num <= den,
        (len - 1) * num <= usize::MAX,
    ensures
        i == (len - 1) * num / (den as int),
        i < len,
{
    proof {
        let top = (len - 1) * num;
        vstd::arithmetic::div_mod::lemma_fundamental_div_mod(top, den as int);
        let q = top / den as int;
        assert(q <= len - 1) by (nonlinear_arith)
            requires
                top == den * q + top % den as int,
                top % den as int >= 0,
                top == (len - 1) * num,
                num <= den,
                den > 0,
                len >= 1,
        ;
    }
    (len - 1) * num / den
}

/// The rank of a single-precision pattern in the total order of such values.
pub open spec fn total_rank(bits: u32) -> int {
    if bits >= 0x8000_0000 {
        0x7fff_ffff - bits
    } else {
        bits as int
    }
}

fn rank_of(bits: u32) -> (r: i64)
    ensures
        r == total_rank(bits),
{
    if bits >= 0x8000_0000 {
        0x7fff_ffff - bits as i64
    } else {
        bits as i64
    }
}

/// The last of the largest values, by the total order of their patterns.
pub fn argmax(bits: &[u32]) -> (r: Option<usize>)
    ensures
        match r {
            Some(best) => {
                &&& best < bits@.len()
                &&& forall|i: int|
                    0 <= i < bits@.len() ==> total_rank(#[trigger] bits@[i]) <= total_rank(
                        bits@[best as int],
                    )
                &&& forall|i: int|
                    best < i < bits@.len() ==> total_rank(#[trigger] bits@[i]) < total_rank(
                        bits@[best as int],
                    )
            },
            None => bits@.len() == 0,
        },
{
    if bits.len() == 0 {
        return None;
    }
    let mut best: usize = 0;
    let mut i: usize = 1;
    while i < bits.len()
        invariant
            best < i <= bits@.len(),
            forall|j: int|
                0 <= j < i ==> total_rank(#[trigger] bits@[j]) <= total_rank(bits@[best as int]),
            forall|j: int|
                best < j < i ==> total_rank(#[trigger] bits@[j]) < total_rank(bits@[best as int]),
        decreases bits@.len() - i,
    {
        if rank_of(bits[i]) >= rank_of(bits[best]) {
            best = i;
        }
        i = i + 1;
    }
    Some(best)
}

/// Whether a single-precision pattern is not a number.
pub open spec fn is_nan(bits: u32) -> bool {
    0x7f80_0000 < bits < 0x8000_0000 || 0xff80_0000 < bits
}

/// The rank of a single-precision pattern by its value: both zeros rank the same.
pub open spec fn value_rank(bits: u32) -> int {
    if bits >= 0x8000_0000 {
        0x8000_0000 - bits
    } else {
        bits as int
    }
}

/// Whether a value is larger than another. Nothing is larger than what is not a
/// number, nor the other way round.
pub open spec fn larger(bits: u32, than: u32) -> bool {
    !is_nan(bits) && !is_nan(than) && value_rank(bits) > value_rank(than)
}

fn nan(bits: u32) -> (r: bool)
    ensures
        r == is_nan(bits),
{
    (0x7f80_0000 < bits && bits < 0x8000_0000) || 0xff80_0000 < bits
}

fn rank_by_value(bits: u32) -> (r: i64)
    ensures
        r == value_rank(bits),
{
    if bits >= 0x8000_0000 {
        0x8000_0000 - bits as i64
    } else {
        bits as i64
    }
}

fn is_larger(bits: u32, than: u32) -> (r: bool)
    ensures
        r == larger(bits, than),
{
    if nan(bits) || nan(than) {
        return false;
    }
    rank_by_value(bits) > rank_by_value(than)
}

/// The first of the largest values. A row without values gives place zero, and so
/// does one that starts with what is not a number; behind a number such places are
/// passed over.
pub fn argmax_first(bits: &[u32]) -> (best: usize)
    ensures
        bits@.len() == 0 ==> best == 0,
        bits@.len() > 0 ==> best < bits@.len(),
        bits@.len() > 0 && is_nan(bits@[0]) ==> best == 0,
        bits@.len() > 0 && !is_nan(bits@[0]) ==> !is_nan(bits@[best as int]),
        forall|i: int| 0 <= i < bits@.len() ==> !larger(#[trigger] bits@[i], bits@[best as int]),
        forall|i: int|
            0 <= i < best && !is_nan(#[trigger] bits@[i]) ==> larger(bits@[best as int], bits@[i]),
{
    let mut best: usize = 0;
    let mut i: usize = 1;
    while i < bits.len()
        invariant
            1 <= i,
            bits@.len() > 0 ==> i <= bits@.len() && best < i,
            bits@.len() == 0 ==> best == 0,
            bits@.len() > 0 && is_nan(bits@[0]) ==> best == 0,
            bits@.len() > 0 && !is_nan(bits@[0]) ==> !is_nan(bits@[best as int]),
            forall|j: int|
                0 <= j < i && j < bits@.len() ==> !larger(
                    #[trigger] bits@[j],
                    bits@[best as int],
                ),
            forall|j: int|
                0 <= j < best && !is_nan(#[trigger] bits@[j]) ==> larger(
                    bits@[best as int],
                    bits@[j],
                ),
        decreases bits@.len() - i,
    {
        if is_larger(bits[i], bits[best]) {
            best = i;
        }
        i = i + 1;
    }
    best
}

/// The words that four-byte values make up. Bytes behind the last whole word are
/// left out.
pub fn read_whole_words(bytes: &[u8]) -> (words: Vec<u32>)
    ensures
        words@.len() == bytes@.len() / 4,
        forall|i: int|
            0 <= i < words@.len() ==> (#[trigger] words@[i]) as nat == crate::bytes::le_value(
                bytes@.subrange(4 * i, 4 * i + 4),
            ),
{
    let len: usize = bytes.len();
    let count: usize = len / 4;
    let mut words: Vec<u32> = Vec::new();
    let mut i: usize = 0;
    while i < count
        invariant
            len == bytes@.len(),
            count == len / 4,
            i <= count,
            words@.len() == i,
            forall|j: int|
                0 <= j < i ==> (#[trigger] words@[j]) as nat == crate::bytes::le_value(
                    bytes@.subrange(4 * j, 4 * j + 4),
                ),
        decreases count - i,
    {
        words.push(crate::bytes::get_u32(bytes, 4 * i));
        i = i + 1;
    }
    words
}

/// The words that a file of four-byte values holds, if it holds whole ones only.
pub fn read_words(bytes: &[u8]) -> (r: Option<Vec<u32>>)
    ensures
        match r {
            Some(words) => {
                &&& bytes@.len() % 4 == 0
                &&& words@.len() == bytes@.len() / 4
                &&& forall|i: int|
                    0 <= i < words@.len() ==> (#[trigger] words@[i]) as nat
                        == crate::bytes::le_value(bytes@.subrange(4 * i, 4 * i + 4))
            },
            None => bytes@.len() % 4 != 0,
        },
{
    if bytes.len() % 4 != 0 {
        None
    } else {
        Some(read_whole_words(bytes))
    }
}

/// A product over weights that lie input by input is the one over the same weights
/// laid out column by column.
pub proof fn law_both_weight_orders_give_one_product(
    a: Seq<i8>,
    b_kn: Seq<i8>,
    b_nk: Seq<i8>,
    k: int,
    n: int,
    c: int,
    len: int,
)
    requires
        0 <= len <= k,
        0 <= c < n,
        forall|i: int| 0 <= i < k ==> b_kn[i * n + c] == #[trigger] b_nk[c * k + i],
    ensures
        dot_kn(a, b_kn, n, c, len) == dot(a, 0, b_nk, c * k, len),
    decreases len,
{
    if len > 0 {
        law_both_weight_orders_give_one_product(a, b_kn, b_nk, k, n, c, len - 1);
        assert(b_kn[(len - 1) * n + c] == b_nk[c * k + (len - 1)]);
        assert(c * k + len - 1 == c * k + (len - 1));
    }
}

/// Grouped products come group by group, and within a group column by column; each is
/// the product of the same stretch of the row and of the column.
pub proof fn law_grouped_products_come_group_by_group(
    a: Seq<i8>,
    b: Seq<i8>,
    k: int,
    n: int,
    group: int,
    g: int,
    c: int,
)
    requires
        0 <= c < n,
        g >= 0,
    ensures
        grouped_product(a, b, k, n, group, g * n + c) == dot(
            a,
            g * group,
            b,
            c * k + g * group,
            group,
        ),
{
    vstd::arithmetic::div_mod::lemma_fundamental_div_mod_converse(g * n + c, n, g, c);
}

/// Every mismatch that is told is one: its values are those of both sides at its
/// index, they differ, and the indices rise.
pub proof fn law_told_mismatches_are_mismatches(
    expected: Seq<i32>,
    actual: Seq<i32>,
    limit: int,
    count: int,
    i: int,
)
    requires
        count <= usize::MAX,
        0 <= i < mismatches_upto(expected, actual, limit, count).len(),
    ensures
        ({
            let told = mismatches_upto(expected, actual, limit, count);
            &&& told[i].index < count
            &&& told[i].want == expected[told[i].index as int]
            &&& told[i].got == actual[told[i].index as int]
            &&& told[i].want != told[i].got
            &&& i > 0 ==> told[i - 1].index < told[i].index
        }),
    decreases count,
{
    if count > 0 {
        let before = mismatches_upto(expected, actual, limit, count - 1);
        if i < before.len() {
            law_told_mismatches_are_mismatches(expected, actual, limit, count - 1, i);
        } else if i > 0 {
            law_told_mismatches_are_mismatches(expected, actual, limit, count - 1, i - 1);
        }
    }
}

/// No mismatch is passed over before the limit is reached, and never more are told.
pub proof fn law_mismatches_are_told_up_to_the_limit(
    expected: Seq<i32>,
    actual: Seq<i32>,
    limit: int,
    count: int,
    at: int,
)
    requires
        0 <= limit,
        0 <= at < count <= usize::MAX,
        expected[at] != actual[at],
    ensures
        ({
            let told = mismatches_upto(expected, actual, limit, count);
            &&& told.len() <= limit
            &&& told.len() < limit ==> exists|i: int|
                0 <= i < told.len() && (#[trigger] told[i]).index == at
        }),
    decreases count,
{
    let before = mismatches_upto(expected, actual, limit, count - 1);
    let told = mismatches_upto(expected, actual, limit, count);
    lemma_told_within(expected, actual, limit, count);
    if at < count - 1 {
        law_mismatches_are_told_up_to_the_limit(expected, actual, limit, count - 1, at);
        if told.len() < limit {
            let i = choose|i: int| 0 <= i < before.len() && (#[trigger] before[i]).index == at;
            assert(told[i].index == at);
        }
    } else if told.len() < limit {
        assert(told[told.len() - 1].index == at);
    }
}

proof fn lemma_told_within(expected: Seq<i32>, actual: Seq<i32>, limit: int, count: int)
    requires
        0 <= limit,
    ensures
        mismatches_upto(expected, actual, limit, count).len() <= limit,
    decreases count,
{
    if count > 0 {
        lemma_told_within(expected, actual, limit, count - 1);
    }
}

/// Two results are held against each other as far as both go.
pub proof fn law_results_agree_as_far_as_both_go(actual: Seq<i32>, expected: Seq<i32>, i: int)
    ensures
        common_len(actual, expected) <= actual.len(),
        common_len(actual, expected) <= expected.len(),
        common_len(actual, expected) == actual.len() || common_len(actual, expected)
            == expected.len(),
        common_len(actual, expected) == common_len(expected, actual),
        agree(actual, expected) == agree(expected, actual),
        agree(actual, expected) && 0 <= i < actual.len() && i < expected.len() ==> actual[i]
            == expected[i],
        agree(actual, actual),
{
    if agree(actual, expected) {
        assert forall|j: int| 0 <= j < common_len(expected, actual) implies #[trigger] actual[j]
            == expected[j] by {
            assert(expected[j] == actual[j]);
        }
    }
    if agree(expected, actual) {
        assert forall|j: int| 0 <= j < common_len(actual, expected) implies #[trigger] expected[j]
            == actual[j] by {
            assert(actual[j] == expected[j]);
        }
    }
}

/// Differing values are counted one by one: none where all are equal, all where all
/// differ, and the same from both sides.
pub proof fn law_differing_values_are_counted(a: Seq<u16>, b: Seq<u16>, count: int)
    requires
        count >= 0,
    ensures
        0 <= differing(a, b, count) <= count,
        differing(a, b, count) == differing(b, a, count),
        differing(a, b, count) == 0 <==> forall|i: int| 0 <= i < count ==> #[trigger] a[i] == b[i],
        differing(a, b, count) == count <==> forall|i: int|
            0 <= i < count ==> #[trigger] a[i] != b[i],
        differing(a, b, count + 1) - differing(a, b, count) == (if a[count] == b[count] {
            0int
        } else {
            1
        }),
    decreases count,
{
    if count > 0 {
        law_differing_values_are_counted(a, b, count - 1);
        if forall|i: int| 0 <= i < count ==> #[trigger] a[i] == b[i] {
            assert(a[count - 1] == b[count - 1]);
        }
        if forall|i: int| 0 <= i < count ==> #[trigger] a[i] != b[i] {
            assert(a[count - 1] != b[count - 1]);
        }
        if differing(a, b, count) == 0 {
            assert forall|i: int| 0 <= i < count implies #[trigger] a[i] == b[i] by {}
        }
        if differing(a, b, count) == count {
            assert forall|i: int| 0 <= i < count implies #[trigger] a[i] != b[i] by {}
        }
    }
}

/// Adding a partial result changes the values it reaches, each by its own addend, and
/// no others.
pub proof fn law_partial_results_are_added_in_place(
    values: Seq<i32>,
    output: Seq<i32>,
    count: int,
    i: int,
)
    requires
        0 <= i < values.len(),
    ensures
        added_upto(values, output, count).len() == values.len(),
        i >= count ==> added_upto(values, output, count)[i] == values[i],
        i < count && i32::MIN <= values[i] + output[i] <= i32::MAX ==> added_upto(
            values,
            output,
            count,
        )[i] - values[i] == output[i],
{
}

/// A pattern is no number where its exponent is all ones and its fraction is not zero.
pub proof fn law_no_numbers(bits: u32)
    ensures
        is_nan(bits) <==> bits as int / 0x80_0000 % 256 == 255 && bits as int % 0x80_0000 != 0,
{
}

/// The rank over all patterns tells any two apart, puts those with a sign below those
/// without, and goes with the pattern without a sign and against it with one.
pub proof fn law_every_pattern_has_its_rank(a: u32, b: u32)
    ensures
        total_rank(a) == total_rank(b) <==> a == b,
        a >= 0x8000_0000 && b < 0x8000_0000 ==> total_rank(a) < total_rank(b),
        a < b < 0x8000_0000 ==> total_rank(a) < total_rank(b),
        0x8000_0000 <= a < b ==> total_rank(a) > total_rank(b),
{
}

/// The rank by value is nought for both zeros, turns its sign with the value, and
/// grows with the magnitude.
pub proof fn law_ranks_by_value_turn_with_the_sign(bits: u32, other: u32)
    requires
        bits < 0x8000_0000,
        other < 0x8000_0000,
    ensures
        value_rank(0) == 0,
        value_rank((bits + 0x8000_0000) as u32) == -value_rank(bits),
        bits < other <==> value_rank(bits) < value_rank(other),
{
}

/// Being larger is a strict order of numbers: no number is larger than itself, of two
/// numbers of different rank one is larger, and nothing is larger than what is no
/// number, nor the other way round.
pub proof fn law_larger_is_a_strict_order(a: u32, b: u32, c: u32)
    ensures
        !larger(a, a),
        larger(a, b) && larger(b, c) ==> larger(a, c),
        is_nan(a) || is_nan(b) ==> !larger(a, b),
        !is_nan(a) && !is_nan(b) && a < b < 0x8000_0000 ==> larger(b, a),
        !is_nan(a) && !is_nan(b) && 0x8000_0000 <= a < b ==> larger(a, b),
        !is_nan(a) && !is_nan(b) && 0 < a < 0x8000_0000 <= b ==> larger(a, b),
        !larger(0, 0x8000_0000) && !larger(0x8000_0000, 0),
{
}

/// What is read as words is the bytes four by four, and bytes that are no whole words
/// are not read.
pub proof fn law_words_are_four_bytes_each(bytes: &[u8], r: Option<Vec<u32>>, i: int)
    requires
        call_ensures(read_words, (bytes,), r),
    ensures
        r is Some <==> bytes@.len() % 4 == 0,
        r is Some ==> 4 * r->0@.len() == bytes@.len(),
        r is Some && 0 <= i < r->0@.len() ==> r->0@[i] as nat == crate::bytes::le_value(
            bytes@.subrange(4 * i, 4 * i + 4),
        ),
{
}

/// The last of the largest is picked, and the first of the largest by value is.
pub proof fn law_largest_values_are_picked(
    bits: &[u32],
    last: Option<usize>,
    first: usize,
    i: int,
)
    requires
        call_ensures(argmax, (bits,), last),
        call_ensures(argmax_first, (bits,), first),
        0 <= i < bits@.len(),
    ensures
        last is Some && last->0 < bits@.len() && first < bits@.len(),
        total_rank(bits@[i]) <= total_rank(bits@[last->0 as int]),
        i > last->0 ==> bits@[i] != bits@[last->0 as int],
        !larger(bits@[i], bits@[first as int]),
        i < first && !is_nan(bits@[i]) ==> larger(bits@[first as int], bits@[i]),
{
    assert(bits@[i] == bits@[i]);
}

/// A percentile is picked in proportion: the first value for none, the last for all.
pub proof fn law_percentiles_are_in_proportion(len: usize, num: usize, den: usize, at: usize)
    requires
        call_ensures(percentile_index, (len, num, den), at),
        len > 0,
        den > 0,
        num <= den,
    ensures
        at < len,
        num == 0 ==> at == 0,
        num == den ==> at == len - 1,
        at * den <= (len - 1) * num < (at + 1) * den,
{
    let x = (len - 1) * num;
    let d = den as int;
    vstd::arithmetic::div_mod::lemma_fundamental_div_mod(x, d);
    assert(at * den == d * (x / d)) by (nonlinear_arith)
        requires
            at == x / d,
            d == den,
    ;
    assert((at + 1) * den == at * den + den) by (nonlinear_arith);
    if num == 0 {
        assert(x == 0) by (nonlinear_arith)
            requires
                x == (len - 1) * num,
                num == 0,
        ;
        assert(0int / d == 0) by (nonlinear_arith)
            requires
                d > 0,
        ;
    }
    if num == den {
        assert(x == d * (len - 1)) by (nonlinear_arith)
            requires
                x == (len - 1) * num,
                num == den,
                d == den,
        ;
        vstd::arithmetic::div_mod::lemma_div_multiples_vanish(len - 1, d);
    }
}

} // verus!
