//! Which plan of a multiplication is preferred.

use vstd::prelude::*;
use crate::arith;
use crate::kernels::matmul::plan;
use crate::kernels::matmul::plan::{Field, PlaceKind, Share, Task};
use crate::kernels::matmul::search;

verus! {

/// The tiles of a multiplication hold its rows, columns and inner dimension, with none to spare.
pub proof fn lemma_task_covers(m: int, k: int, n: int, batch: int, split: bool)
    requires
        m >= 1,
        k >= 1,
        n >= 1,
    ensures
        ({
            let t = plan::matmul_task(m, k, n, batch, split);
            &&& 32 * (t.mt - 1) < m <= 32 * t.mt
            &&& 32 * (t.kt - 1) < k <= 32 * t.kt
            &&& 32 * (t.nt - 1) < n <= 32 * t.nt
            &&& t.batch == batch
            &&& t.split_columns == split
        }),
{
    arith::lemma_ceil_div(m, 32);
    arith::lemma_ceil_div(k, 32);
    arith::lemma_ceil_div(n, 32);
}

/// The work of a core counts every tile of its output once for every block of the inner
/// dimension, in every batch: with blocks that divide it, all multiplications of tiles are
/// counted once by their blocks.
pub proof fn lemma_work_counts(s: Share, block_w: int)
    requires
        block_w >= 1,
        s.kt >= 0,
        s.kt % block_w == 0,
    ensures
        plan::share_work(s, block_w) * block_w == s.batches * s.kt * s.per_core_m * s.per_core_n,
{
    let (b, m, n, w) = (s.batches, s.per_core_m, s.per_core_n, block_w);
    let q = s.kt / w;
    assert(q * w == s.kt) by (nonlinear_arith)
        requires
            q == s.kt / w,
            s.kt % w == 0,
            w > 0,
    ;
    assert(b * q * m * n * w == b * (q * w) * m * n) by (nonlinear_arith);
}

/// Where batches are dealt out over groups, and where the output is a single row of tiles, a
/// choice with less work for each core is preferred, whatever else it has. With the same work,
/// groups are preferred that use more cores, and single rows that pad less.
pub proof fn lemma_less_work_preferred(
    a: Share,
    ah: int,
    aw: int,
    ab: int,
    b: Share,
    bh: int,
    bw: int,
    bb: int,
)
    requires
        a.kind == b.kind,
        a.kind == PlaceKind::Batched || a.kind == PlaceKind::SingleRow,
    ensures
        ({
            let better = search::beats(plan::rating(a, ah, aw, ab), plan::rating(b, bh, bw, bb));
            let (mine, other) = (plan::share_work(a, ab), plan::share_work(b, bb));
            &&& mine < other ==> better
            &&& mine > other ==> !better
            &&& mine == other && a.kind == PlaceKind::Batched && a.active > b.active ==> better
            &&& mine == other && a.kind == PlaceKind::Batched && a.active == b.active && a.padding
                < b.padding ==> better
            &&& mine == other && a.kind == PlaceKind::SingleRow && a.padding < b.padding ==> better
            &&& mine == other && a.kind == PlaceKind::SingleRow && a.padding == b.padding
                && a.active > b.active ==> better
        }),
{
}

/// Among grids whose cores compute equally large parts, the one with more cores and wider blocks
/// is preferred; a part of at least sixteen tiles counts no more than one of sixteen.
pub proof fn lemma_wide_grid_preferred(
    a: Share,
    ah: int,
    aw: int,
    ab: int,
    b: Share,
    bh: int,
    bw: int,
    bb: int,
)
    requires
        a.kind == PlaceKind::Grid,
        b.kind == PlaceKind::Grid,
        a.per_core_m * a.per_core_n >= 1,
        a.per_core_m * a.per_core_n == b.per_core_m * b.per_core_n || (a.per_core_m * a.per_core_n
            >= 16 && b.per_core_m * b.per_core_n >= 16),
    ensures
        a.active * ab > b.active * bb ==> search::beats(
            plan::rating(a, ah, aw, ab),
            plan::rating(b, bh, bw, bb),
        ),
        a.active * ab == b.active * bb && a.area < b.area ==> search::beats(
            plan::rating(a, ah, aw, ab),
            plan::rating(b, bh, bw, bb),
        ),
{
    let bias = arith::min2(a.per_core_m * a.per_core_n, 16);
    let (x, y) = (a.active * ab, b.active * bb);
    assert(bias == arith::min2(b.per_core_m * b.per_core_n, 16));
    if x > y {
        assert(x * bias * bias > y * bias * bias) by (nonlinear_arith)
            requires
                x > y,
                bias >= 1,
        ;
    }
}

/// For tall outputs whose cores work alone, larger subblocks are preferred.
pub proof fn lemma_large_subblocks_preferred(
    a: Share,
    ah: int,
    aw: int,
    ab: int,
    b: Share,
    bh: int,
    bw: int,
    bb: int,
)
    requires
        a.kind == PlaceKind::Tall,
        b.kind == PlaceKind::Tall,
        ah * aw > bh * bw,
    ensures
        search::beats(plan::rating(a, ah, aw, ab), plan::rating(b, bh, bw, bb)),
{
}

/// Dealing out batches never makes more work for a core than the plan without groups.
pub proof fn lemma_groups_save_work(t: Task, f: Field)
    requires
        t.mt >= 0,
        t.nt >= 0,
        t.kt >= 0,
        t.batch >= 0,
    ensures
        plan::best_plan(t, f) is Some <==> plan::base_plan(t, f) is Some,
        match (plan::best_plan(t, f), plan::base_plan(t, f)) {
            (Some(p), Some(q)) => p == q || (plan::plan_work_of(p) < plan::plan_work_of(q)
                && p.batch_groups >= 2),
            _ => true,
        },
{
    if let Some(q) = plan::base_plan(t, f) {
        let groups = arith::min2(t.batch, f.available.len() as int);
        let divs = plan::divisor_list(t.kt);
        let baseline = Some(plan::plan_work_of(q));
        let n = f.available.len() as int;
        let valid = plan::direct_valid(t, n, divs, 2, groups, baseline);
        let score = plan::direct_score(t, divs, baseline);
        if let Some(c) = search::best_choice(valid, score) {
            assert(search::is_best(valid, score, c));
            assert(valid(c));
            let s = plan::direct_share(t, baseline, c.a, c.b, c.c);
            let bw = divs[c.d] as int;
            arith::lemma_ceil_div(t.mt, c.b);
            arith::lemma_ceil_div(t.nt, c.c);
            arith::lemma_ceil_div(t.batch, c.a);
            let p = plan::direct_plan(t, f.available, divs, c);
            let (x, m, k) = (s.batches * (s.kt / bw), s.per_core_m, s.per_core_n);
            let max = usize::MAX as int;
            let blocks = arith::min2(x, max);
            assert(blocks * m <= x * m) by (nonlinear_arith)
                requires
                    blocks <= x,
                    m >= 0,
            ;
            let part = arith::min2(blocks * m, max);
            assert(part * k <= x * m * k) by (nonlinear_arith)
                requires
                    part <= x * m,
                    k >= 0,
            ;
            assert(plan::share_work(s, bw) == x * m * k);
            assert(plan::plan_work_of(p) <= plan::share_work(s, bw));
        }
    }
}

} // verus!
