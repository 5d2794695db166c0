//! Sharing output columns among NPU cores in whole blocks.

use vstd::prelude::*;

verus! {

/// Why a width cannot be shared.
#[derive(Clone, Copy, Debug, PartialEq, Eq, Structural)]
pub enum SplitError {
    /// The width is zero or no multiple of the block, or there are no workers.
    Unaligned,
    /// There are fewer blocks than workers.
    TooFewBlocks,
}

/// First block of a worker: the leading `blocks % workers` workers have one
/// block more than the others.
pub open spec fn first_block(blocks: int, workers: int, worker: int) -> int
    recommends
        workers > 0,
{
    worker * (blocks / workers) + if worker < blocks % workers {
        worker
    } else {
        blocks % workers
    }
}

/// Number of blocks of a worker.
pub open spec fn own_blocks(blocks: int, workers: int, worker: int) -> int
    recommends
        workers > 0,
{
    blocks / workers + if worker < blocks % workers {
        1int
    } else {
        0
    }
}

/// Blocks follow each other without a gap, and the last worker ends at the end.
pub proof fn lemma_blocks_follow(blocks: int, workers: int, worker: int)
    requires
        blocks >= 0,
        workers > 0,
        0 <= worker < workers,
    ensures
        first_block(blocks, workers, worker + 1) == first_block(blocks, workers, worker)
            + own_blocks(blocks, workers, worker),
        first_block(blocks, workers, 0) == 0,
        first_block(blocks, workers, workers) == blocks,
        own_blocks(blocks, workers, worker) >= 0,
        blocks >= workers ==> own_blocks(blocks, workers, worker) >= 1,
        first_block(blocks, workers, worker) >= 0,
        first_block(blocks, workers, worker) + own_blocks(blocks, workers, worker) <= blocks,
{
    let base = blocks / workers;
    let extra = blocks % workers;
    vstd::arithmetic::div_mod::lemma_fundamental_div_mod(blocks, workers);
    assert((worker + 1) * base == worker * base + base) by (nonlinear_arith);
    assert(0 * base == 0) by (nonlinear_arith);
    assert(workers * base == blocks - extra);
    assert(base >= 0) by (nonlinear_arith)
        requires
            blocks >= 0,
            workers > 0,
            base == blocks / workers,
    ;
    assert(worker * base >= 0) by (nonlinear_arith)
        requires
            worker >= 0,
            base >= 0,
    ;
    assert((worker + 1) * base <= workers * base) by (nonlinear_arith)
        requires
            worker + 1 <= workers,
            base >= 0,
    ;
    if blocks >= workers {
        assert(base >= 1) by (nonlinear_arith)
            requires
                blocks >= workers,
                workers > 0,
                base == blocks / workers,
        ;
    }
}

/// Shares `n` columns in blocks of `block` columns: one run of start and length
/// per worker.
pub fn split_n(n: usize, workers: usize, block: usize) -> (r: Result<
    Vec<(usize, usize)>,
    SplitError,
>)
    requires
        block > 0,
    ensures
        match r {
            Ok(runs) => {
                &&& n > 0 && n % block == 0 && 0 < workers <= n / block
                &&& runs@.len() == workers
                &&& forall|w: int|
                    0 <= w < workers ==> {
                        &&& (#[trigger] runs@[w]).0 == block * first_block(
                            (n / block) as int,
                            workers as int,
                            w,
                        )
                        &&& runs@[w].1 == block * own_blocks(
                            (n / block) as int,
                            workers as int,
                            w,
                        )
                    }
            },
            Err(SplitError::Unaligned) => n == 0 || n % block != 0 || workers == 0,
            Err(SplitError::TooFewBlocks) => n > 0 && n % block == 0 && workers > n / block,
        },
{
    if n == 0 || n % block != 0 || workers == 0 {
        return Err(SplitError::Unaligned);
    }
    let blocks: usize = n / block;
    if blocks < workers {
        return Err(SplitError::TooFewBlocks);
    }
    let base: usize = blocks / workers;
    let extra: usize = blocks % workers;
    let mut runs: Vec<(usize, usize)> = Vec::new();
    let mut start: usize = 0;
    let mut worker: usize = 0;
    proof {
        vstd::arithmetic::div_mod::lemma_fundamental_div_mod(n as int, block as int);
        assert(block * first_block(blocks as int, workers as int, 0) == 0) by {
            lemma_blocks_follow(blocks as int, workers as int, 0);
            assert(block * 0 == 0) by (nonlinear_arith);
        }
    }
    while worker < workers
        invariant
            worker <= workers,
            0 < workers <= blocks,
            block > 0,
            base == blocks / workers,
            extra == blocks % workers,
            n == block * blocks,
            blocks == n / block,
            runs@.len() == worker,
            start == block * first_block(blocks as int, workers as int, worker as int),
            forall|w: int|
                0 <= w < worker ==> {
                    &&& (#[trigger] runs@[w]).0 == block * first_block(
                        blocks as int,
                        workers as int,
                        w,
                    )
                    &&& runs@[w].1 == block * own_blocks(blocks as int, workers as int, w)
                },
        decreases workers - worker,
    {
        let ghost own = own_blocks(blocks as int, workers as int, worker as int);
        let ghost first = first_block(blocks as int, workers as int, worker as int);
        proof {
            lemma_blocks_follow(blocks as int, workers as int, worker as int);
            assert(block * (first + own) == block * first + block * own) by (nonlinear_arith);
            assert(block * (first + own) <= block * blocks) by (nonlinear_arith)
                requires
                    first + own <= blocks,
                    block > 0,
            ;
            assert(block * first >= 0 && block * own >= 0) by (nonlinear_arith)
                requires
                    first >= 0,
                    own >= 0,
                    block > 0,
            ;
            assert(own * block == block * own) by (nonlinear_arith);
        }
        let count: usize = if worker < extra {
            base + 1
        } else {
            base
        };
        let len: usize = count * block;
        runs.push((start, len));
        start = start + len;
        worker = worker + 1;
    }
    Ok(runs)
}

/// Lengths of the runs when no more workers are used than there are 32-column
/// blocks.
pub fn split_n_active(n: usize, workers: usize) -> (lens: Vec<usize>)
    requires
        n >= 32,
        workers > 0,
    ensures
        ({
            let blocks = n as int / 32;
            let active = if workers < blocks {
                workers as int
            } else {
                blocks
            };
            &&& lens@.len() == active
            &&& forall|w: int|
                0 <= w < active ==> #[trigger] lens@[w] == 32 * own_blocks(blocks, active, w)
        }),
{
    let blocks: usize = n / 32;
    let active: usize = if workers < blocks {
        workers
    } else {
        blocks
    };
    let base: usize = blocks / active;
    let extra: usize = blocks % active;
    let mut lens: Vec<usize> = Vec::new();
    let mut worker: usize = 0;
    while worker < active
        invariant
            worker <= active,
            0 < active <= blocks,
            blocks == n / 32,
            base == blocks / active,
            extra == blocks % active,
            lens@.len() == worker,
            forall|w: int|
                0 <= w < worker ==> #[trigger] lens@[w] == 32 * own_blocks(
                    blocks as int,
                    active as int,
                    w,
                ),
        decreases active - worker,
    {
        proof {
            lemma_blocks_follow(blocks as int, active as int, worker as int);
        }
        let count: usize = if worker < extra {
            base + 1
        } else {
            base
        };
        lens.push(count * 32);
        worker = worker + 1;
    }
    lens
}

/// Workers' runs cover every column exactly once.
pub proof fn law_runs_cover_columns_once(
    n: int,
    workers: int,
    block: int,
    runs: Seq<(usize, usize)>,
    col: int,
)
    requires
        block > 0,
        n > 0,
        n % block == 0,
        0 < workers <= n / block,
        runs.len() == workers,
        forall|w: int|
            0 <= w < workers ==> {
                &&& (#[trigger] runs[w]).0 == block * first_block(n / block, workers, w)
                &&& runs[w].1 == block * own_blocks(n / block, workers, w)
            },
        0 <= col < n,
    ensures
        exists|w: int|
            0 <= w < workers && (#[trigger] runs[w]).0 <= col < runs[w].0 + runs[w].1,
        forall|v: int, w: int|
            #![trigger runs[v], runs[w]]
            0 <= v < workers && 0 <= w < workers && runs[v].0 <= col < runs[v].0 + runs[v].1
                && runs[w].0 <= col < runs[w].0 + runs[w].1 ==> v == w,
        forall|w: int| 0 <= w < workers ==> (#[trigger] runs[w]).1 > 0 && runs[w].1 as int % block == 0,
{
    let blocks = n / block;
    vstd::arithmetic::div_mod::lemma_fundamental_div_mod(n, block);
    lemma_run_end(n, workers, block, runs, 0);
    lemma_find_run(n, workers, block, runs, col, workers);
    assert forall|v: int, w: int|
        #![trigger runs[v], runs[w]]
        0 <= v < workers && 0 <= w < workers && runs[v].0 <= col < runs[v].0 + runs[v].1
            && runs[w].0 <= col < runs[w].0 + runs[w].1 implies v == w by {
        if v < w {
            lemma_run_order(n, workers, block, runs, v, w);
        }
        if w < v {
            lemma_run_order(n, workers, block, runs, w, v);
        }
    }
    assert forall|w: int| 0 <= w < workers implies (#[trigger] runs[w]).1 > 0 && runs[w].1 as int % block
        == 0 by {
        lemma_blocks_follow(blocks, workers, w);
        let own = own_blocks(blocks, workers, w);
        assert(block * own > 0) by (nonlinear_arith)
            requires
                own >= 1,
                block > 0,
        ;
        assert(block * own == own * block) by (nonlinear_arith);
        vstd::arithmetic::div_mod::lemma_mod_multiples_basic(own, block);
    }
}

proof fn lemma_run_end(n: int, workers: int, block: int, runs: Seq<(usize, usize)>, w: int)
    requires
        block > 0,
        n > 0,
        n % block == 0,
        0 < workers <= n / block,
        runs.len() == workers,
        forall|w: int|
            0 <= w < workers ==> {
                &&& (#[trigger] runs[w]).0 == block * first_block(n / block, workers, w)
                &&& runs[w].1 == block * own_blocks(n / block, workers, w)
            },
        0 <= w < workers,
    ensures
        runs[w].0 + runs[w].1 == block * first_block(n / block, workers, w + 1),
        block * first_block(n / block, workers, workers) == n,
        block * first_block(n / block, workers, 0) == 0,
{
    let blocks = n / block;
    lemma_blocks_follow(blocks, workers, w);
    vstd::arithmetic::div_mod::lemma_fundamental_div_mod(n, block);
    let f = first_block(blocks, workers, w);
    let o = own_blocks(blocks, workers, w);
    assert(block * (f + o) == block * f + block * o) by (nonlinear_arith);
    assert(block * 0 == 0) by (nonlinear_arith);
}

proof fn lemma_run_order(
    n: int,
    workers: int,
    block: int,
    runs: Seq<(usize, usize)>,
    v: int,
    w: int,
)
    requires
        block > 0,
        n > 0,
        n % block == 0,
        0 < workers <= n / block,
        runs.len() == workers,
        forall|w: int|
            0 <= w < workers ==> {
                &&& (#[trigger] runs[w]).0 == block * first_block(n / block, workers, w)
                &&& runs[w].1 == block * own_blocks(n / block, workers, w)
            },
        0 <= v < w < workers,
    ensures
        runs[v].0 + runs[v].1 <= runs[w].0,
    decreases w - v,
{
    lemma_run_end(n, workers, block, runs, v);
    if w > v + 1 {
        lemma_run_order(n, workers, block, runs, v + 1, w);
        assert(runs[v + 1].0 == runs[v].0 + runs[v].1);
    }
}

proof fn lemma_find_run(
    n: int,
    workers: int,
    block: int,
    runs: Seq<(usize, usize)>,
    col: int,
    upto: int,
)
    requires
        block > 0,
        n > 0,
        n % block == 0,
        0 < workers <= n / block,
        runs.len() == workers,
        forall|w: int|
            0 <= w < workers ==> {
                &&& (#[trigger] runs[w]).0 == block * first_block(n / block, workers, w)
                &&& runs[w].1 == block * own_blocks(n / block, workers, w)
            },
        0 < upto <= workers,
        0 <= col < block * first_block(n / block, workers, upto),
    ensures
        exists|w: int|
            0 <= w < upto && (#[trigger] runs[w]).0 <= col < runs[w].0 + runs[w].1,
    decreases upto,
{
    lemma_run_end(n, workers, block, runs, upto - 1);
    if runs[upto - 1].0 <= col {
        assert(runs[upto - 1].0 <= col < runs[upto - 1].0 + runs[upto - 1].1);
    } else {
        if upto == 1 {
            assert(runs[0].0 == 0);
        }
        lemma_find_run(n, workers, block, runs, col, upto - 1);
        let w = choose|w: int|
            0 <= w < upto - 1 && (#[trigger] runs[w]).0 <= col < runs[w].0 + runs[w].1;
        assert(0 <= w < upto && runs[w].0 <= col < runs[w].0 + runs[w].1);
    }
}

/// Blocks are shared evenly: no worker has more than one block more than another, and
/// the workers that have one more come first.
pub proof fn law_blocks_are_shared_evenly(blocks: int, workers: int, worker: int, later: int)
    requires
        blocks >= 0,
        0 <= worker <= later < workers,
    ensures
        own_blocks(blocks, workers, later) <= own_blocks(blocks, workers, worker)
            <= own_blocks(blocks, workers, later) + 1,
        first_block(blocks, workers, 0) == 0,
        first_block(blocks, workers, worker + 1) == first_block(blocks, workers, worker)
            + own_blocks(blocks, workers, worker),
        first_block(blocks, workers, workers) == blocks,
{
    lemma_blocks_follow(blocks, workers, worker);
}

/// The runs of the workers follow each other from the first column to the last.
pub proof fn law_runs_follow_each_other(
    n: usize,
    workers: usize,
    block: usize,
    r: Result<Vec<(usize, usize)>, SplitError>,
    w: int,
)
    requires
        call_ensures(split_n, (n, workers, block), r),
        block > 0,
        r is Ok,
        0 <= w < workers,
    ensures
        r->Ok_0@.len() == workers,
        r->Ok_0@[0].0 == 0,
        r->Ok_0@[w].1 >= block,
        r->Ok_0@[w].1 as int % (block as int) == 0,
        w + 1 < workers ==> r->Ok_0@[w + 1].0 == r->Ok_0@[w].0 + r->Ok_0@[w].1,
        w + 1 == workers ==> r->Ok_0@[w].0 + r->Ok_0@[w].1 == n,
{
    let runs = r->Ok_0@;
    let blocks = n as int / block as int;
    let (b, k) = (block as int, workers as int);
    lemma_blocks_follow(blocks, k, w);
    lemma_blocks_follow(blocks, k, 0);
    let own = own_blocks(blocks, k, w);
    let first = first_block(blocks, k, w);
    assert(runs[w].1 == b * own && runs[w].0 == b * first);
    assert(runs[0].0 == b * first_block(blocks, k, 0));
    assert(b * 0 == 0) by (nonlinear_arith);
    assert(b * own >= b) by (nonlinear_arith)
        requires
            own >= 1,
            b > 0,
    ;
    vstd::arithmetic::div_mod::lemma_mod_multiples_basic(own, b);
    assert(own * b == b * own) by (nonlinear_arith);
    assert(b * (first + own) == b * first + b * own) by (nonlinear_arith);
    vstd::arithmetic::div_mod::lemma_fundamental_div_mod(n as int, b);
    if w + 1 < workers {
        assert(runs[w + 1].0 == b * first_block(blocks, k, w + 1));
    }
}

} // verus!
