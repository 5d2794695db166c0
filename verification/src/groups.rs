//! Products whose K is cut into groups with scales of their own.
//!
//! Weights and activations are quantized group by group. Part `g` of the weights
//! and part `g` of the activations hold group `g` of every row, so one integer
//! product per part gives that group's share of every output.

use crate::compare::grouped_product;
use crate::quant::{dot, group_start, grouped_index, law_k_slices_add_up, scale_index};
use vstd::arithmetic::div_mod::lemma_fundamental_div_mod_converse;
use vstd::prelude::*;

verus! {

/// A run of values.
#[derive(Clone, Copy, Debug, PartialEq, Eq, Structural)]
pub struct PartRange {
    pub start: usize,
    pub len: usize,
}

/// Where part `group` of grouped weights starts.
pub open spec fn part_start(n: int, group_size: int, group: int) -> int {
    group * n * group_size
}

/// Finds part `group` of grouped weights: `n` rows of one group each.
pub fn group_part(n: usize, group_size: usize, group: usize) -> (r: PartRange)
    requires
        (group + 1) * n * group_size <= usize::MAX,
    ensures
        r.start == part_start(n as int, group_size as int, group as int),
        r.len == n * group_size,
        r.start + r.len == part_start(n as int, group_size as int, group + 1),
{
    proof {
        let (nn, size, g) = (n as int, group_size as int, group as int);
        lemma_next_part(nn, size, g);
        assert(nn * size <= (g + 1) * nn * size) by (nonlinear_arith)
            requires
                g >= 0,
                nn >= 0,
                size >= 0,
        ;
        assert(group * (n * group_size) == group * n * group_size) by (nonlinear_arith);
    }
    let len: usize = n * group_size;
    PartRange { start: group * len, len }
}

proof fn lemma_next_part(n: int, group_size: int, group: int)
    requires
        n >= 0,
        group_size >= 0,
        group >= 0,
    ensures
        part_start(n, group_size, group + 1) == part_start(n, group_size, group) + n * group_size,
        part_start(n, group_size, group) >= 0,
        n * group_size >= 0,
{
    assert((group + 1) * n * group_size == group * n * group_size + n * group_size)
        by (nonlinear_arith);
    assert(group * n * group_size >= 0 && n * group_size >= 0) by (nonlinear_arith)
        requires
            n >= 0,
            group_size >= 0,
            group >= 0,
    ;
}

/// Finds the scale of group `group` of row `index`, of `count` rows.
pub fn group_scale(count: usize, group: usize, index: usize) -> (r: usize)
    requires
        index < count,
        (group + 1) * count <= usize::MAX,
    ensures
        r == scale_index(count as int, group as int, index as int),
        r < (group + 1) * count,
{
    assert((group + 1) * count == group * count + count) by (nonlinear_arith);
    assert(group * count >= 0) by (nonlinear_arith);
    group * count + index
}

/// Where value `i` of row `row` stands in a part.
pub open spec fn in_part(group_size: int, row: int, i: int) -> int {
    row * group_size + i
}

/// A part of the activations: group `group` of every row, one row after the other.
pub open spec fn is_activation_part(
    part: Seq<i8>,
    a: Seq<i8>,
    rows: int,
    k: int,
    group_size: int,
    group: int,
) -> bool {
    &&& part.len() == rows * group_size
    &&& forall|row: int, i: int|
        0 <= row < rows && 0 <= i < group_size ==> #[trigger] part[in_part(group_size, row, i)]
            == a[row * k + group * group_size + i]
}

/// Cuts group `group` out of every row of quantized activations.
pub fn activation_part(
    a: &[i8],
    rows: usize,
    k: usize,
    group_size: usize,
    group: usize,
) -> (part: Vec<i8>)
    requires
        a@.len() == rows * k,
        (group + 1) * group_size <= k,
    ensures
        is_activation_part(
            part@,
            a@,
            rows as int,
            k as int,
            group_size as int,
            group as int,
        ),
{
    let total: usize = a.len();
    let mut part: Vec<i8> = Vec::new();
    proof {
        assert((group + 1) * group_size == group * group_size + group_size) by (nonlinear_arith);
        assert(group * group_size >= 0) by (nonlinear_arith);
        assert(0 * group_size == 0) by (nonlinear_arith);
    }
    let offset: usize = group * group_size;
    let mut row: usize = 0;
    while row < rows
        invariant
            total == a@.len() == rows * k,
            offset == group * group_size,
            offset + group_size <= k,
            row <= rows,
            part@.len() == row * group_size,
            forall|r: int, i: int|
                0 <= r < row && 0 <= i < group_size ==> #[trigger] part@[in_part(
                    group_size as int,
                    r,
                    i,
                )] == a@[r * k + group * group_size + i],
        decreases rows - row,
    {
        proof {
            assert(row * k + k <= rows * k && row * k >= 0) by (nonlinear_arith)
                requires
                    row + 1 <= rows,
                    k >= 0,
                    row >= 0,
            ;
        }
        let start: usize = row * k + offset;
        let mut i: usize = 0;
        while i < group_size
            invariant
                total == a@.len(),
                start == row * k + group * group_size,
                start + group_size <= total,
                i <= group_size,
                part@.len() == row * group_size + i,
                forall|r: int, j: int|
                    0 <= r < row && 0 <= j < group_size ==> #[trigger] part@[in_part(
                        group_size as int,
                        r,
                        j,
                    )] == a@[r * k + group * group_size + j],
                forall|j: int|
                    0 <= j < i ==> #[trigger] part@[in_part(group_size as int, row as int, j)]
                        == a@[row * k + group * group_size + j],
            decreases group_size - i,
        {
            let ghost before = part@;
            part.push(a[start + i]);
            proof {
                assert forall|r: int, j: int|
                    0 <= r < row && 0 <= j < group_size implies #[trigger] part@[in_part(
                    group_size as int,
                    r,
                    j,
                )] == a@[r * k + group * group_size + j] by {
                    lemma_in_part(row as int, group_size as int, r, j);
                    assert(before[in_part(group_size as int, r, j)] == a@[r * k + group * group_size
                        + j]);
                }
                assert(row * group_size >= 0) by (nonlinear_arith);
                assert forall|j: int| 0 <= j < i + 1 implies #[trigger] part@[in_part(
                    group_size as int,
                    row as int,
                    j,
                )] == a@[row * k + group * group_size + j] by {
                    if j < i {
                        assert(before[in_part(group_size as int, row as int, j)] == a@[row * k
                            + group * group_size + j]);
                    }
                }
            }
            i = i + 1;
        }
        assert((row + 1) * group_size == row * group_size + group_size) by (nonlinear_arith);
        row = row + 1;
    }
    part
}

proof fn lemma_in_part(rows: int, group_size: int, row: int, i: int)
    requires
        0 <= row < rows,
        0 <= i < group_size,
    ensures
        0 <= in_part(group_size, row, i) < rows * group_size,
{
    assert(0 <= row * group_size && row * group_size + group_size <= rows * group_size)
        by (nonlinear_arith)
        requires
            0 <= row,
            row + 1 <= rows,
            group_size > 0,
    ;
}

/// Grouped weights: every weight of a matrix of `n` rows stands at its grouped
/// place.
pub open spec fn is_grouped(w: Seq<i8>, b: Seq<i8>, n: int, k: int, group_size: int) -> bool {
    &&& w.len() == n * k
    &&& forall|channel: int, kk: int|
        0 <= channel < n && 0 <= kk < k ==> #[trigger] w[grouped_index(n, group_size, channel, kk)]
            == b[channel * k + kk]
}

/// Part `group` of grouped weights.
pub open spec fn weight_part(w: Seq<i8>, n: int, group_size: int, group: int) -> Seq<i8> {
    w.subrange(part_start(n, group_size, group), part_start(n, group_size, group + 1))
}

/// One row of a part starts with the group of that row: parts hold whole groups.
pub proof fn law_parts_hold_whole_groups(n: int, group_size: int, group: int, channel: int)
    requires
        0 <= channel < n,
        group_size > 0,
        group >= 0,
    ensures
        group_start(n, group_size, group, channel) == part_start(n, group_size, group) + in_part(
            group_size,
            channel,
            0,
        ),
        group_start(n, group_size, group, channel) + group_size <= part_start(
            n,
            group_size,
            group + 1,
        ),
{
    lemma_next_part(n, group_size, group);
    assert((group * n + channel) * group_size == group * n * group_size + channel * group_size)
        by (nonlinear_arith);
    lemma_in_part(n, group_size, channel, group_size - 1);
}

/// The integer product of two parts is the group's share of the product of the
/// two matrices, for every output.
pub proof fn law_parts_give_the_group_product(
    a: Seq<i8>,
    b: Seq<i8>,
    a_part: Seq<i8>,
    w: Seq<i8>,
    m: int,
    n: int,
    group_size: int,
    groups: int,
    group: int,
    row: int,
    col: int,
)
    requires
        0 <= row < m,
        0 <= col < n,
        group_size > 0,
        0 <= group < groups,
        is_activation_part(a_part, a, m, groups * group_size, group_size, group),
        is_grouped(w, b, n, groups * group_size, group_size),
    ensures
        dot(
            a_part,
            row * group_size,
            weight_part(w, n, group_size, group),
            col * group_size,
            group_size,
        ) == dot(
            a,
            row * (groups * group_size) + group * group_size,
            b,
            col * (groups * group_size) + group * group_size,
            group_size,
        ),
{
    lemma_part_dot(a, b, a_part, w, m, n, group_size, groups, group, row, col, group_size);
}

proof fn lemma_part_dot(
    a: Seq<i8>,
    b: Seq<i8>,
    a_part: Seq<i8>,
    w: Seq<i8>,
    m: int,
    n: int,
    group_size: int,
    groups: int,
    group: int,
    row: int,
    col: int,
    len: int,
)
    requires
        0 <= row < m,
        0 <= col < n,
        0 <= len <= group_size,
        group_size > 0,
        0 <= group < groups,
        is_activation_part(a_part, a, m, groups * group_size, group_size, group),
        is_grouped(w, b, n, groups * group_size, group_size),
    ensures
        dot(
            a_part,
            row * group_size,
            weight_part(w, n, group_size, group),
            col * group_size,
            len,
        ) == dot(
            a,
            row * (groups * group_size) + group * group_size,
            b,
            col * (groups * group_size) + group * group_size,
            len,
        ),
    decreases len,
{
    if len > 0 {
        lemma_part_dot(a, b, a_part, w, m, n, group_size, groups, group, row, col, len - 1);
        let k = groups * group_size;
        let i = len - 1;
        let kk = group * group_size + i;
        assert(0 <= group * group_size && group * group_size + group_size <= k)
            by (nonlinear_arith)
            requires
                0 <= group,
                group + 1 <= groups,
                group_size > 0,
                k == groups * group_size,
        ;
        lemma_fundamental_div_mod_converse(kk, group_size, group, i);
        assert(a_part[in_part(group_size, row, i)] == a[row * k + group * group_size + i]);
        assert(w[grouped_index(n, group_size, col, kk)] == b[col * k + kk]);
        law_parts_hold_whole_groups(n, group_size, group, col);
        lemma_next_part(n, group_size, group);
        lemma_in_part(n, group_size, col, i);
        let part = weight_part(w, n, group_size, group);
        assert(part_start(n, group_size, group + 1) <= w.len()) by {
            assert((group + 1) * n * group_size <= n * (groups * group_size)) by (nonlinear_arith)
                requires
                    group + 1 <= groups,
                    n > 0,
                    group_size > 0,
            ;
        }
        assert(part[col * group_size + i] == w[grouped_index(n, group_size, col, kk)]);
    }
}

/// The sum of the products of the first `groups` groups of two rows.
pub open spec fn groups_sum(
    a: Seq<i8>,
    a0: int,
    b: Seq<i8>,
    b0: int,
    group_size: int,
    groups: int,
) -> int
    decreases groups,
{
    if groups <= 0 {
        0
    } else {
        let at = (groups - 1) * group_size;
        groups_sum(a, a0, b, b0, group_size, groups - 1) + dot(a, a0 + at, b, b0 + at, group_size)
    }
}

/// The products of all groups add up to the product over all of K.
pub proof fn law_group_products_add_up(
    a: Seq<i8>,
    a0: int,
    b: Seq<i8>,
    b0: int,
    group_size: int,
    groups: int,
)
    requires
        group_size >= 0,
        groups >= 0,
    ensures
        groups_sum(a, a0, b, b0, group_size, groups) == dot(a, a0, b, b0, groups * group_size),
    decreases groups,
{
    if groups > 0 {
        law_group_products_add_up(a, a0, b, b0, group_size, groups - 1);
        let cut = (groups - 1) * group_size;
        assert(groups * group_size == cut + group_size) by (nonlinear_arith)
            requires
                cut == (groups - 1) * group_size,
        ;
        assert(cut >= 0) by (nonlinear_arith)
            requires
                cut == (groups - 1) * group_size,
                groups >= 1,
                group_size >= 0,
        ;
        law_k_slices_add_up(a, a0, b, b0, cut, groups * group_size);
    } else {
        assert(0 * group_size == 0) by (nonlinear_arith);
    }
}

/// The share of one group in a row of the output, `len` values long: the value at
/// `src` of the group's product, times the weight scale at `weight_scale` and the
/// activation scale, is added at `dst`, and so on behind each.
#[derive(Clone, Copy, Debug, PartialEq, Eq, Structural)]
pub struct GroupMove {
    pub src: usize,
    pub weight_scale: usize,
    pub activation_scale: usize,
    pub dst: usize,
    pub len: usize,
}

/// The share of group `group` in output row `row`, where each group has a product
/// of its own.
pub open spec fn group_move(m: int, n: int, group: int, row: int) -> GroupMove {
    GroupMove {
        src: (row * n) as usize,
        weight_scale: scale_index(n, group, 0) as usize,
        activation_scale: scale_index(m, group, row) as usize,
        dst: (row * n) as usize,
        len: n as usize,
    }
}

/// Lists the shares of group `group` in all output rows.
pub fn group_moves(m: usize, n: usize, group: usize) -> (moves: Vec<GroupMove>)
    requires
        m * n <= usize::MAX,
        (group + 1) * n <= usize::MAX,
        (group + 1) * m <= usize::MAX,
    ensures
        moves@ == Seq::new(m as nat, |row: int| group_move(m as int, n as int, group as int, row)),
{
    let mut moves: Vec<GroupMove> = Vec::new();
    proof {
        assert((group + 1) * n == group * n + n) by (nonlinear_arith);
        assert(group * n >= 0) by (nonlinear_arith);
    }
    let weight_scale: usize = group * n;
    let mut row: usize = 0;
    while row < m
        invariant
            m * n <= usize::MAX,
            (group + 1) * m <= usize::MAX,
            weight_scale == scale_index(n as int, group as int, 0),
            row <= m,
            moves@ == Seq::new(
                row as nat,
                |r: int| group_move(m as int, n as int, group as int, r),
            ),
        decreases m - row,
    {
        proof {
            assert(0 <= row * n <= m * n) by (nonlinear_arith)
                requires
                    0 <= row <= m,
                    n >= 0,
            ;
        }
        let start: usize = row * n;
        let activation_scale: usize = group_scale(m, group, row);
        moves.push(GroupMove { src: start, weight_scale, activation_scale, dst: start, len: n });
        row = row + 1;
        assert(moves@ =~= Seq::new(
            row as nat,
            |r: int| group_move(m as int, n as int, group as int, r),
        ));
    }
    moves
}

/// The share of group `group` in the one output row of a product that holds all
/// groups, one after the other.
pub open spec fn row_share(n: int, group: int) -> GroupMove {
    GroupMove {
        src: (group * n) as usize,
        weight_scale: scale_index(n, group, 0) as usize,
        activation_scale: scale_index(1, group, 0) as usize,
        dst: 0,
        len: n as usize,
    }
}

/// Finds the share of group `group` in the one output row of a product that holds
/// all groups, one after the other.
pub fn row_group_move(n: usize, group: usize) -> (r: GroupMove)
    requires
        (group + 1) * n <= usize::MAX,
    ensures
        r == row_share(n as int, group as int),
{
    assert((group + 1) * n == group * n + n) by (nonlinear_arith);
    assert(group * n >= 0) by (nonlinear_arith);
    GroupMove {
        src: group * n,
        weight_scale: group * n,
        activation_scale: group,
        dst: 0,
        len: n,
    }
}

/// What one group adds at place `at` of the output.
pub open spec fn share_at(
    mv: GroupMove,
    product: Seq<int>,
    activation_scales: Seq<int>,
    weight_scales: Seq<int>,
    at: int,
) -> int {
    if mv.dst <= at < mv.dst + mv.len {
        product[mv.src + (at - mv.dst)] * activation_scales[mv.activation_scale as int]
            * weight_scales[mv.weight_scale + (at - mv.dst)]
    } else {
        0
    }
}

/// What the first `count` of some shares add at place `at` of the output.
pub open spec fn shares_at(
    moves: Seq<GroupMove>,
    product: Seq<int>,
    activation_scales: Seq<int>,
    weight_scales: Seq<int>,
    at: int,
    count: int,
) -> int
    decreases count,
{
    if count <= 0 {
        0
    } else {
        shares_at(moves, product, activation_scales, weight_scales, at, count - 1) + share_at(
            moves[count - 1],
            product,
            activation_scales,
            weight_scales,
            at,
        )
    }
}

/// Place `at` of an output that starts at zero, after the first `groups` groups.
pub open spec fn output_at(
    m: int,
    n: int,
    products: Seq<Seq<int>>,
    activation_scales: Seq<int>,
    weight_scales: Seq<int>,
    at: int,
    groups: int,
) -> int
    decreases groups,
{
    if groups <= 0 {
        0
    } else {
        output_at(m, n, products, activation_scales, weight_scales, at, groups - 1) + shares_at(
            Seq::new(m as nat, |row: int| group_move(m, n, groups - 1, row)),
            products[groups - 1],
            activation_scales,
            weight_scales,
            at,
            m,
        )
    }
}

/// The sum over the first `groups` groups of the group's product of two rows,
/// scaled by the activation scale of that group and row and by the weight scale of
/// that group and column.
pub open spec fn scaled_sum(
    a: Seq<i8>,
    b: Seq<i8>,
    activation_scales: Seq<int>,
    weight_scales: Seq<int>,
    m: int,
    n: int,
    k: int,
    group_size: int,
    row: int,
    col: int,
    groups: int,
) -> int
    decreases groups,
{
    if groups <= 0 {
        0
    } else {
        let g = groups - 1;
        scaled_sum(a, b, activation_scales, weight_scales, m, n, k, group_size, row, col, g) + dot(
            a,
            row * k + g * group_size,
            b,
            col * k + g * group_size,
            group_size,
        ) * activation_scales[g * m + row] * weight_scales[g * n + col]
    }
}

/// The products of all groups: each is the integer product of the group's parts.
pub open spec fn are_group_products(
    products: Seq<Seq<int>>,
    a_parts: Seq<Seq<i8>>,
    w: Seq<i8>,
    m: int,
    n: int,
    group_size: int,
    groups: int,
) -> bool {
    forall|g: int, row: int, col: int|
        0 <= g < groups && 0 <= row < m && 0 <= col < n ==> #[trigger] products[g][in_part(
            n,
            row,
            col,
        )] == dot(
            a_parts[g],
            row * group_size,
            weight_part(w, n, group_size, g),
            col * group_size,
            group_size,
        )
}

/// An output of a grouped product is the sum over its groups of the group's
/// integer product, scaled by the activation scale of that group and row and by
/// the weight scale of that group and column.
pub proof fn law_output_is_the_scaled_sum(
    a: Seq<i8>,
    b: Seq<i8>,
    a_parts: Seq<Seq<i8>>,
    w: Seq<i8>,
    products: Seq<Seq<int>>,
    activation_scales: Seq<int>,
    weight_scales: Seq<int>,
    m: int,
    n: int,
    group_size: int,
    groups: int,
    row: int,
    col: int,
    upto: int,
)
    requires
        0 <= row < m,
        0 <= col < n,
        group_size > 0,
        0 <= upto <= groups,
        m * n <= usize::MAX,
        groups * m <= usize::MAX,
        groups * n <= usize::MAX,
        is_grouped(w, b, n, groups * group_size, group_size),
        forall|g: int|
            0 <= g < groups ==> is_activation_part(
                #[trigger] a_parts[g],
                a,
                m,
                groups * group_size,
                group_size,
                g,
            ),
        are_group_products(products, a_parts, w, m, n, group_size, groups),
    ensures
        output_at(m, n, products, activation_scales, weight_scales, row * n + col, upto)
            == scaled_sum(
            a,
            b,
            activation_scales,
            weight_scales,
            m,
            n,
            groups * group_size,
            group_size,
            row,
            col,
            upto,
        ),
    decreases upto,
{
    if upto > 0 {
        law_output_is_the_scaled_sum(
            a,
            b,
            a_parts,
            w,
            products,
            activation_scales,
            weight_scales,
            m,
            n,
            group_size,
            groups,
            row,
            col,
            upto - 1,
        );
        let g = upto - 1;
        assert(is_activation_part(a_parts[g], a, m, groups * group_size, group_size, g));
        law_parts_give_the_group_product(
            a,
            b,
            a_parts[g],
            w,
            m,
            n,
            group_size,
            groups,
            g,
            row,
            col,
        );
        assert((g + 1) * m <= groups * m && (g + 1) * n <= groups * n) by (nonlinear_arith)
            requires
                g + 1 <= groups,
                m >= 0,
                n >= 0,
        ;
        lemma_one_share(m, n, g, products[g], activation_scales, weight_scales, row, col, m);
        assert(products[g][in_part(n, row, col)] == dot(
            a_parts[g],
            row * group_size,
            weight_part(w, n, group_size, g),
            col * group_size,
            group_size,
        ));
    }
}

/// Of all shares of a group just the one of the output's row reaches it.
proof fn lemma_one_share(
    m: int,
    n: int,
    group: int,
    product: Seq<int>,
    activation_scales: Seq<int>,
    weight_scales: Seq<int>,
    row: int,
    col: int,
    count: int,
)
    requires
        0 <= row < m,
        0 <= col < n,
        0 <= group,
        0 <= count <= m,
        m * n <= usize::MAX,
        (group + 1) * m <= usize::MAX,
        (group + 1) * n <= usize::MAX,
    ensures
        shares_at(
            Seq::new(m as nat, |r: int| group_move(m, n, group, r)),
            product,
            activation_scales,
            weight_scales,
            row * n + col,
            count,
        ) == (if row < count {
            product[in_part(n, row, col)] * activation_scales[group * m + row]
                * weight_scales[group * n + col]
        } else {
            0
        }),
    decreases count,
{
    if count > 0 {
        lemma_one_share(
            m,
            n,
            group,
            product,
            activation_scales,
            weight_scales,
            row,
            col,
            count - 1,
        );
        let r = count - 1;
        assert((group + 1) * n == group * n + n && (group + 1) * m == group * m + m)
            by (nonlinear_arith);
        assert(group * n >= 0 && group * m >= 0) by (nonlinear_arith)
            requires
                group >= 0,
                n >= 0,
                m >= 0,
        ;
        assert(0 <= r * n && r * n + n <= m * n) by (nonlinear_arith)
            requires
                0 <= r,
                r + 1 <= m,
                n >= 0,
        ;
        assert(n <= m * n) by (nonlinear_arith)
            requires
                m >= 1,
                n >= 0,
        ;
        let mv = group_move(m, n, group, r);
        assert(mv.dst == r * n && mv.len == n && mv.src == r * n);
        assert(mv.weight_scale == group * n && mv.activation_scale == group * m + r);
        if r < row {
            assert(r * n + n <= row * n) by (nonlinear_arith)
                requires
                    r + 1 <= row,
                    n >= 0,
            ;
        } else if r > row {
            assert(row * n + n <= r * n) by (nonlinear_arith)
                requires
                    row + 1 <= r,
                    n >= 0,
            ;
        }
    }
}

/// The sum of products of two rows whose values are scaled first, each by the
/// scale of its group.
pub open spec fn scaled_dot(
    a: Seq<i8>,
    b: Seq<i8>,
    activation_scales: Seq<int>,
    weight_scales: Seq<int>,
    m: int,
    n: int,
    k: int,
    group_size: int,
    row: int,
    col: int,
    len: int,
) -> int
    decreases len,
{
    if len <= 0 {
        0
    } else {
        let i = len - 1;
        let g = i / group_size;
        scaled_dot(a, b, activation_scales, weight_scales, m, n, k, group_size, row, col, i) + (
        a[row * k + i] * activation_scales[g * m + row]) * (b[col * k + i] * weight_scales[g * n
            + col])
    }
}

/// Scaling the products of the groups is exact: it gives the product of the rows
/// that the scaled values make up.
pub proof fn law_scaled_groups_give_the_product(
    a: Seq<i8>,
    b: Seq<i8>,
    activation_scales: Seq<int>,
    weight_scales: Seq<int>,
    m: int,
    n: int,
    k: int,
    group_size: int,
    row: int,
    col: int,
    groups: int,
)
    requires
        group_size > 0,
        groups >= 0,
    ensures
        scaled_sum(a, b, activation_scales, weight_scales, m, n, k, group_size, row, col, groups)
            == scaled_dot(
            a,
            b,
            activation_scales,
            weight_scales,
            m,
            n,
            k,
            group_size,
            row,
            col,
            groups * group_size,
        ),
    decreases groups,
{
    if groups > 0 {
        law_scaled_groups_give_the_product(
            a,
            b,
            activation_scales,
            weight_scales,
            m,
            n,
            k,
            group_size,
            row,
            col,
            groups - 1,
        );
        lemma_scaled_group(
            a,
            b,
            activation_scales,
            weight_scales,
            m,
            n,
            k,
            group_size,
            row,
            col,
            groups - 1,
            group_size,
        );
        assert(groups * group_size == (groups - 1) * group_size + group_size) by (nonlinear_arith);
    } else {
        assert(0 * group_size == 0) by (nonlinear_arith);
    }
}

proof fn lemma_scaled_group(
    a: Seq<i8>,
    b: Seq<i8>,
    activation_scales: Seq<int>,
    weight_scales: Seq<int>,
    m: int,
    n: int,
    k: int,
    group_size: int,
    row: int,
    col: int,
    group: int,
    len: int,
)
    requires
        group >= 0,
        0 <= len <= group_size,
        group_size > 0,
    ensures
        scaled_dot(
            a,
            b,
            activation_scales,
            weight_scales,
            m,
            n,
            k,
            group_size,
            row,
            col,
            group * group_size + len,
        ) == scaled_dot(
            a,
            b,
            activation_scales,
            weight_scales,
            m,
            n,
            k,
            group_size,
            row,
            col,
            group * group_size,
        ) + dot(a, row * k + group * group_size, b, col * k + group * group_size, len)
            * activation_scales[group * m + row] * weight_scales[group * n + col],
    decreases len,
{
    let at = group * group_size;
    let x = activation_scales[group * m + row];
    let y = weight_scales[group * n + col];
    let before = dot(a, row * k + at, b, col * k + at, len - 1);
    if len > 0 {
        lemma_scaled_group(
            a,
            b,
            activation_scales,
            weight_scales,
            m,
            n,
            k,
            group_size,
            row,
            col,
            group,
            len - 1,
        );
        let i = at + len - 1;
        assert(at >= 0) by (nonlinear_arith)
            requires
                at == group * group_size,
                group >= 0,
                group_size > 0,
        ;
        lemma_fundamental_div_mod_converse(i, group_size, group, len - 1);
        let (p, q) = (a[row * k + i] as int, b[col * k + i] as int);
        assert(row * k + i == row * k + at + len - 1);
        assert(dot(a, row * k + at, b, col * k + at, len) == before + p * q);
        assert((before + p * q) * x * y == before * x * y + (p * x) * (q * y))
            by (nonlinear_arith);
    } else {
        assert(0 * x * y == 0) by (nonlinear_arith);
    }
}

/// Place `col` of a single output row that starts at zero, after the first
/// `groups` groups of a product that holds all of them.
pub open spec fn row_output_at(
    n: int,
    product: Seq<int>,
    activation_scales: Seq<int>,
    weight_scales: Seq<int>,
    col: int,
    groups: int,
) -> int
    decreases groups,
{
    if groups <= 0 {
        0
    } else {
        row_output_at(n, product, activation_scales, weight_scales, col, groups - 1) + share_at(
            row_share(n, groups - 1),
            product,
            activation_scales,
            weight_scales,
            col,
        )
    }
}

/// An output of a single row, whose product holds all groups one after the other,
/// is the sum over the groups of the group's integer product, scaled by the
/// group's activation scale and by the weight scale of that group and column.
pub proof fn law_row_output_is_the_scaled_sum(
    a: Seq<i8>,
    b: Seq<i8>,
    product: Seq<int>,
    activation_scales: Seq<int>,
    weight_scales: Seq<int>,
    n: int,
    k: int,
    group_size: int,
    groups: int,
    col: int,
    upto: int,
)
    requires
        0 <= col < n,
        group_size > 0,
        0 <= upto <= groups,
        groups * n <= usize::MAX,
        forall|i: int|
            0 <= i < groups * n ==> #[trigger] product[i] == grouped_product(
                a,
                b,
                k,
                n,
                group_size,
                i,
            ),
    ensures
        row_output_at(n, product, activation_scales, weight_scales, col, upto) == scaled_sum(
            a,
            b,
            activation_scales,
            weight_scales,
            1,
            n,
            k,
            group_size,
            0,
            col,
            upto,
        ),
    decreases upto,
{
    if upto > 0 {
        law_row_output_is_the_scaled_sum(
            a,
            b,
            product,
            activation_scales,
            weight_scales,
            n,
            k,
            group_size,
            groups,
            col,
            upto - 1,
        );
        let g = upto - 1;
        assert(0 <= g * n && g * n + n <= groups * n && g <= g * n) by (nonlinear_arith)
            requires
                0 <= g,
                g + 1 <= groups,
                n >= 1,
        ;
        assert(0 * k == 0) by (nonlinear_arith);
        lemma_fundamental_div_mod_converse(g * n + col, n, g, col);
        assert(product[g * n + col] == grouped_product(a, b, k, n, group_size, g * n + col));
        let mv = row_share(n, g);
        assert(mv.src == g * n && mv.weight_scale == g * n && mv.activation_scale == g);
    }
}

} // verus!
