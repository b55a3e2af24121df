//! Which tiles of the operands and of the product the cores work on.

use vstd::prelude::*;
use vstd::arithmetic::div_mod::*;
use crate::convert;
use crate::error;
use crate::hw::CoreCoord;
use crate::kernels::lowering;
use crate::kernels::matmul::plan::Plan;
use crate::kernels::matmul::program;
use crate::kernels::matmul::program::{Job, MatmulEpilogueKind};

verus! {

/// The number of a tile in a matrix that is `cols` tiles wide.
pub open spec fn tile_number(cols: int, row: int, col: int) -> int {
    row * cols + col
}

/// The tile that the reader visits: tile `t` of row `i` of block `b`, by the offset and the
/// strides among its arguments.
pub open spec fn lhs_tile(words: Seq<u32>, b: int, i: int, t: int) -> int {
    words[1] + b * words[4] + i * words[3] + t * words[2]
}

/// The tile of the right operand that the writer visits.
pub open spec fn rhs_tile(words: Seq<u32>, b: int, i: int, t: int) -> int {
    words[1] + b * words[4] + i * words[3] + t * words[2]
}

/// Where the arguments for the output start among those of the writer.
pub open spec fn output_at(job: Job) -> int {
    match job.epilogue {
        MatmulEpilogueKind::Store => 19,
        MatmulEpilogueKind::Top1 => 20,
    }
}

/// The tile of the product that the writer visits: tile `x` of row `y` of the subblock in row
/// `sh` and column `sw` of subblocks.
pub open spec fn output_tile(words: Seq<u32>, o: int, sh: int, sw: int, y: int, x: int) -> int {
    words[o] + sh * words[o + 4] + sw * words[o + 3] + y * words[o + 2] + x * words[o + 1]
}

/// Whether a multiplication is one whose cores got their arguments.
pub open spec fn assigned(job: Job) -> bool {
    let p = job.plan;
    &&& program::sound(p)
    &&& program::stride_limits(p, job.logical_mt, job.logical_nt)
    &&& p.batches_per_group >= 0
    &&& p.batch_groups * p.batches_per_group <= usize::MAX
    &&& p.kt % p.in0_block_w == 0
    &&& p.kt <= usize::MAX
    &&& 0 <= job.logical_mt <= usize::MAX
    &&& 0 <= job.logical_nt <= usize::MAX
    &&& job.refusal() is None
}

/// The rows of cores that share the rows of the product.
pub open spec fn group_rows(p: Plan) -> int {
    program::grid_of(p).len() as int / p.batch_groups
}

/// The place of the core in row `g` and column `c` of the grid in the list of cores.
pub open spec fn place(p: Plan, g: int, c: int) -> int {
    g * program::grid_of(p)[0].len() + c
}

pub open spec fn on_grid(p: Plan, g: int, c: int) -> bool {
    0 <= g < program::grid_of(p).len() && 0 <= c < program::grid_of(p)[0].len()
}

/// The arguments of the core in row `g` and column `c` of the grid.
pub open spec fn reader_of(job: Job, g: int, c: int) -> Seq<u32> {
    job.args()(place(job.plan, g, c)).1
}

pub open spec fn writer_of(job: Job, g: int, c: int) -> Seq<u32> {
    job.args()(place(job.plan, g, c)).0
}

/// Two numbers in a mixed base are the same only digit by digit.
proof fn lemma_digits(w: int, a: int, b: int, c: int, d: int)
    requires
        0 <= b < w,
        0 <= d < w,
        a * w + b == c * w + d,
    ensures
        a == c,
        b == d,
{
    lemma_fundamental_div_mod_converse(a * w + b, w, a, b);
    lemma_fundamental_div_mod_converse(a * w + b, w, c, d);
}

/// A number below `n * w` has a digit below `n` in front of one below `w`.
proof fn lemma_split(n: int, w: int, x: int)
    requires
        w > 0,
        0 <= x < n * w,
    ensures
        0 <= x / w < n,
        0 <= x % w < w,
        (x / w) * w + x % w == x,
{
    lemma_fundamental_div_mod(x, w);
    lemma_mod_bound(x, w);
    let q = x / w;
    assert(q * w == w * q) by (nonlinear_arith);
    assert(0 <= q < n) by (nonlinear_arith)
        requires
            0 <= x < n * w,
            x == w * q + x % w,
            0 <= x % w < w,
    ;
}

/// A digit below `n` in front of one below `w` makes a number below `n * w`.
proof fn lemma_join(n: int, w: int, a: int, b: int)
    requires
        0 <= a < n,
        0 <= b < w,
    ensures
        0 <= a * w + b < n * w,
{
    assert(0 <= a * w + b < n * w) by (nonlinear_arith)
        requires
            0 <= a < n,
            0 <= b < w,
    ;
}

/// The core in row `g` and column `c` of the grid is listed at its place, and works on the row
/// of blocks that it has in its group.
proof fn lemma_place(job: Job, g: int, c: int)
    requires
        assigned(job),
        on_grid(job.plan, g, c),
    ensures
        ({
            let j = place(job.plan, g, c);
            let p = job.plan;
            &&& 0 <= j < job.listed().len()
            &&& job.listed()[j] == program::grid_of(p)[g][c]
            &&& j % job.width() == c
            &&& group_rows(p) > 0
            &&& job.row(j) == g % group_rows(p)
            &&& 0 <= g % group_rows(p) < group_rows(p)
            &&& job.batches(j).start == (g / group_rows(p)) * p.batches_per_group
            &&& job.batches(j).local == p.batches_per_group
            &&& 0 <= g / group_rows(p) < p.batch_groups
            &&& program::reader_refusal(
                p,
                job.row(j),
                job.listed()[j],
                job.logical_mt,
                job.batches(j),
            ) is None
            &&& program::writer_refusal(
                p,
                job.row(j),
                c,
                job.listed()[j],
                job.logical_mt,
                job.logical_nt,
                job.batches(j),
                job.partial(j),
            ) is None
        }),
{
    let p = job.plan;
    let grid = program::grid_of(p);
    let (h, w) = (grid.len() as int, grid[0].len() as int);
    let j = place(p, g, c);
    lemma_join(h, w, g, c);
    lemma_fundamental_div_mod_converse(j, w, g, c);
    let r = group_rows(p);
    let q = p.batch_groups;
    lemma_fundamental_div_mod(h, q);
    assert(h % q == 0);
    assert(r * q == h) by (nonlinear_arith)
        requires
            h == q * r + 0,
    ;
    assert(r > 0) by (nonlinear_arith)
        requires
            r * q == h,
            h > 0,
            q >= 1,
    ;
    lemma_mod_bound(g, r);
    assert(h == q * r) by (nonlinear_arith)
        requires
            r * q == h,
    ;
    lemma_split(q, r, g);
    let s = g / r;
    assert(0 <= s * p.batches_per_group <= q * p.batches_per_group) by (nonlinear_arith)
        requires
            0 <= s < q,
            p.batches_per_group >= 0,
    ;
    assert(p.batches_per_group <= q * p.batches_per_group) by (nonlinear_arith)
        requires
            q >= 1,
            p.batches_per_group >= 0,
    ;
    error::lemma_first_refusal_none(0, job.listed().len() as int, job.checks());
    assert(job.checks()(j) is None);
}

/// The share of a core fits in the matrix.
proof fn lemma_share(job: Job, g: int, c: int)
    requires
        assigned(job),
        on_grid(job.plan, g, c),
    ensures
        ({
            let p = job.plan;
            let row = g % group_rows(p);
            &&& 0 <= row * p.per_core_m
            &&& row * p.per_core_m + p.per_core_m <= p.mt
            &&& 0 <= c * p.per_core_n
            &&& c * p.per_core_n + p.per_core_n <= p.nt
            &&& 0 <= row * p.per_core_m * p.kt <= p.mt * p.kt
            &&& 0 <= row * p.per_core_m * p.nt <= p.mt * p.nt
            &&& 0 <= p.kt / p.in0_block_w <= p.kt
            &&& (p.kt / p.in0_block_w) * p.in0_block_w == p.kt
        }),
{
    let p = job.plan;
    lemma_place(job, g, c);
    let r = group_rows(p);
    let row = g % r;
    let m = p.per_core_m;
    assert(0 <= row * m && row * m + m <= r * m) by (nonlinear_arith)
        requires
            0 <= row < r,
            m >= 1,
    ;
    let (n, w) = (p.per_core_n, program::grid_of(p)[0].len() as int);
    assert(0 <= c * n && c * n + n <= w * n) by (nonlinear_arith)
        requires
            0 <= c < w,
            n >= 1,
    ;
    assert(0 <= row * m * p.kt <= p.mt * p.kt) by (nonlinear_arith)
        requires
            0 <= row * m <= p.mt,
            p.kt >= 0,
    ;
    assert(0 <= row * m * p.nt <= p.mt * p.nt) by (nonlinear_arith)
        requires
            0 <= row * m <= p.mt,
            p.nt >= 0,
    ;
    let bw = p.in0_block_w;
    lemma_fundamental_div_mod(p.kt, bw);
    let q = p.kt / bw;
    assert(q * bw == bw * q) by (nonlinear_arith);
    lemma_div_pos_is_pos(p.kt, bw);
    assert(q <= q * bw) by (nonlinear_arith)
        requires
            q >= 0,
            bw >= 1,
    ;
}

/// The arguments of a reader hold the numbers they stand for.
proof fn lemma_reader_numbers(job: Job, g: int, c: int)
    requires
        assigned(job),
        on_grid(job.plan, g, c),
    ensures
        ({
            let p = job.plan;
            let words = reader_of(job, g, c);
            &&& words[1] == (g % group_rows(p)) * p.per_core_m * p.kt
            &&& words[2] == 1
            &&& words[3] == p.kt
            &&& words[4] == p.in0_block_w
            &&& words[5] == p.in0_block_w
            &&& words[6] == p.per_core_m
            &&& words[7] == p.per_core_m * p.in0_block_w
            &&& words[8] == p.kt / p.in0_block_w
            &&& words[23] == job.logical_mt
            &&& words[24] == p.batches_per_group
            &&& words[25] == (g / group_rows(p)) * p.batches_per_group
            &&& words[26] == job.batch_count
            &&& words[27] == job.logical_mt * p.kt
        }),
{
    let p = job.plan;
    let j = place(p, g, c);
    lemma_place(job, g, c);
    lemma_share(job, g, c);
    let values = program::reader_values(
        p,
        job.row(j),
        job.listed()[j],
        job.logical_mt,
        job.batches(j),
    );
    convert::lemma_narrowed(values, program::reader_names());
    let words = reader_of(job, g, c);
    assert(values.len() == 28);
    assert forall|k: int| 0 <= k < 28 implies #[trigger] words[k] == values[k] by {
        assert(convert::field_words(values)[k] == values[k]);
    }
    lemma_products(p, job.logical_mt, job.logical_nt);
}

/// Products of a plan are machine words.
proof fn lemma_products(p: Plan, logical_mt: int, logical_nt: int)
    requires
        program::sound(p),
        program::stride_limits(p, logical_mt, logical_nt),
        logical_mt >= 0,
        logical_nt >= 0,
    ensures
        0 <= p.per_core_m * p.in0_block_w <= usize::MAX,
        0 <= p.per_core_n * p.in0_block_w <= usize::MAX,
        p.per_core_m <= usize::MAX,
        p.per_core_n <= usize::MAX,
        0 <= logical_mt * p.kt,
        0 <= p.kt * logical_nt,
        0 <= logical_mt * logical_nt,
        0 <= p.in0_block_w * logical_nt <= usize::MAX,
        0 <= p.out_subblock_h * p.nt <= usize::MAX,
        0 <= p.nt <= usize::MAX,
        0 <= p.mt <= usize::MAX,
{
    program::lemma_block_bounds(p);
    assert(0 <= logical_mt * p.kt && 0 <= p.kt * logical_nt && 0 <= logical_mt * logical_nt)
        by (nonlinear_arith)
        requires
            logical_mt >= 0,
            logical_nt >= 0,
            p.kt >= 0,
    ;
    assert(0 <= p.in0_block_w * logical_nt <= 64 * logical_nt) by (nonlinear_arith)
        requires
            1 <= p.in0_block_w <= 64,
            logical_nt >= 0,
    ;
    let w = program::grid_of(p)[0].len() as int;
    let h = group_rows(p);
    assert(0 <= w * p.per_core_n) by (nonlinear_arith)
        requires
            w >= 0,
            p.per_core_n >= 1,
    ;
    lemma_div_pos_is_pos(program::grid_of(p).len() as int, p.batch_groups);
    assert(0 <= h * p.per_core_m) by (nonlinear_arith)
        requires
            h >= 0,
            p.per_core_m >= 1,
    ;
    assert(0 <= p.out_subblock_h * p.nt <= 8 * p.nt) by (nonlinear_arith)
        requires
            1 <= p.out_subblock_h <= 8,
            p.nt >= 0,
    ;
}

/// The tiles that a reader visits are those of its rows of the left operand: tile `t` of row
/// `i` of block `b` is the one in row `i` of the core's share and in column `t` of the block.
/// The blocks stand side by side and make up the whole width.
pub proof fn lemma_reader_tiles(job: Job, g: int, c: int, b: int, i: int, t: int)
    requires
        assigned(job),
        on_grid(job.plan, g, c),
    ensures
        ({
            let p = job.plan;
            let words = reader_of(job, g, c);
            let row = (g % group_rows(p)) * p.per_core_m + i;
            let col = b * words[5] + t;
            &&& words[6] == p.per_core_m
            &&& words[8] * words[5] == p.kt
            &&& words[7] == words[6] * words[5]
            &&& 0 <= b < words[8] && 0 <= i < words[6] && 0 <= t < words[5] ==> {
                &&& 0 <= row < p.mt
                &&& 0 <= col < p.kt
                &&& lhs_tile(words, b, i, t) == tile_number(p.kt, row, col)
            }
        }),
{
    let p = job.plan;
    lemma_reader_numbers(job, g, c);
    lemma_share(job, g, c);
    let w = p.in0_block_w;
    let start = (g % group_rows(p)) * p.per_core_m;
    let blocks = p.kt / w;
    if 0 <= b < blocks && 0 <= i < p.per_core_m && 0 <= t < w {
        lemma_join(blocks, w, b, t);
        assert((start + i) * p.kt == start * p.kt + i * p.kt) by (nonlinear_arith);
    }
}

/// Every tile of the left operand is visited by the readers of a group in every column of the
/// grid.
pub proof fn lemma_lhs_covered(job: Job, group: int, c: int, m: int, k: int)
    requires
        assigned(job),
        0 <= group < job.plan.batch_groups,
        0 <= c < program::grid_of(job.plan)[0].len(),
        0 <= m < job.plan.mt,
        0 <= k < job.plan.kt,
    ensures
        exists|g: int, b: int, i: int, t: int|
            #![trigger lhs_tile(reader_of(job, g, c), b, i, t)]
            {
                let words = reader_of(job, g, c);
                &&& on_grid(job.plan, g, c)
                &&& g / group_rows(job.plan) == group
                &&& 0 <= b < words[8]
                &&& 0 <= i < words[6]
                &&& 0 <= t < words[5]
                &&& lhs_tile(words, b, i, t) == tile_number(job.plan.kt, m, k)
            },
{
    let p = job.plan;
    let (g, i) = lemma_row_owner(job, group, c, m);
    lemma_reader_numbers(job, g, c);
    lemma_share(job, g, c);
    let w = p.in0_block_w;
    lemma_split(p.kt / w, w, k);
    let (b, t) = (k / w, k % w);
    lemma_reader_tiles(job, g, c, b, i, t);
    let words = reader_of(job, g, c);
    assert(lhs_tile(words, b, i, t) == tile_number(p.kt, m, k));
}

/// The row of cores of a group, and the row in its share, that a row of tiles belongs to.
proof fn lemma_row_owner(job: Job, group: int, c: int, m: int) -> (r: (int, int))
    requires
        assigned(job),
        0 <= group < job.plan.batch_groups,
        0 <= c < program::grid_of(job.plan)[0].len(),
        0 <= m < job.plan.mt,
    ensures
        on_grid(job.plan, r.0, c),
        r.0 / group_rows(job.plan) == group,
        0 <= r.1 < job.plan.per_core_m,
        (r.0 % group_rows(job.plan)) * job.plan.per_core_m + r.1 == m,
{
    let p = job.plan;
    let h = program::grid_of(p).len() as int;
    lemma_place(job, 0, c);
    let rows = group_rows(p);
    let q = p.batch_groups;
    lemma_fundamental_div_mod(h, q);
    assert(h == q * rows);
    lemma_split(rows, p.per_core_m, m);
    let (a, i) = (m / p.per_core_m, m % p.per_core_m);
    lemma_join(q, rows, group, a);
    let g = group * rows + a;
    lemma_fundamental_div_mod_converse(g, rows, group, a);
    (g, i)
}

/// No tile of the left operand is visited twice by the readers of a group in one column: where
/// the tiles are the same, so are the cores and the steps.
pub proof fn lemma_lhs_once(
    job: Job,
    c: int,
    g: int,
    b: int,
    i: int,
    t: int,
    h: int,
    d: int,
    j: int,
    u: int,
)
    requires
        assigned(job),
        on_grid(job.plan, g, c),
        on_grid(job.plan, h, c),
        g / group_rows(job.plan) == h / group_rows(job.plan),
        0 <= b < reader_of(job, g, c)[8],
        0 <= i < reader_of(job, g, c)[6],
        0 <= t < reader_of(job, g, c)[5],
        0 <= d < reader_of(job, h, c)[8],
        0 <= j < reader_of(job, h, c)[6],
        0 <= u < reader_of(job, h, c)[5],
        lhs_tile(reader_of(job, g, c), b, i, t) == lhs_tile(reader_of(job, h, c), d, j, u),
    ensures
        g == h,
        b == d,
        i == j,
        t == u,
{
    let p = job.plan;
    let rows = group_rows(p);
    lemma_reader_numbers(job, g, c);
    lemma_reader_numbers(job, h, c);
    lemma_reader_tiles(job, g, c, b, i, t);
    lemma_reader_tiles(job, h, c, d, j, u);
    lemma_place(job, g, c);
    lemma_place(job, h, c);
    let w = p.in0_block_w;
    lemma_digits(
        p.kt,
        (g % rows) * p.per_core_m + i,
        b * w + t,
        (h % rows) * p.per_core_m + j,
        d * w + u,
    );
    lemma_digits(w, b, t, d, u);
    lemma_digits(p.per_core_m, g % rows, i, h % rows, j);
    lemma_fundamental_div_mod(g, rows);
    lemma_fundamental_div_mod(h, rows);
}

/// The arguments of a writer hold the numbers they stand for.
proof fn lemma_writer_numbers(job: Job, g: int, c: int)
    requires
        assigned(job),
        on_grid(job.plan, g, c),
    ensures
        ({
            let p = job.plan;
            let words = writer_of(job, g, c);
            let o = output_at(job);
            let e = o + (if job.epilogue == MatmulEpilogueKind::Top1 {
                14int
            } else {
                13int
            });
            &&& words[1] == c * p.per_core_n
            &&& words[2] == 1
            &&& words[3] == job.logical_nt
            &&& words[4] == p.in0_block_w * job.logical_nt
            &&& words[5] == p.per_core_n
            &&& words[6] == p.in0_block_w
            &&& words[7] == p.per_core_n * p.in0_block_w
            &&& words[8] == p.kt / p.in0_block_w
            &&& words[o] == (g % group_rows(p)) * p.per_core_m * p.nt + c * p.per_core_n
            &&& words[o + 1] == 1
            &&& words[o + 2] == p.nt
            &&& words[o + 3] == p.out_subblock_w
            &&& words[o + 4] == p.out_subblock_h * p.nt
            &&& words[o + 5] == p.out_subblock_w
            &&& words[o + 6] == p.out_subblock_h
            &&& words[o + 7] == p.out_subblock_h * p.out_subblock_w
            &&& words[o + 8] == p.per_core_n / p.out_subblock_w
            &&& words[o + 9] == p.per_core_m / p.out_subblock_h
            &&& words[o + 10] == job.logical_mt
            &&& words[o + 11] == job.logical_nt
            &&& words[e] == p.batches_per_group
            &&& words[e + 1] == (g / group_rows(p)) * p.batches_per_group
            &&& words[e + 2] == job.batch_count
            &&& words[e + 3] == p.kt * job.logical_nt
            &&& words[e + 4] == job.logical_mt * job.logical_nt
            &&& job.epilogue == MatmulEpilogueKind::Top1 ==> words[o + 13] == place(p, g, c)
        }),
{
    let p = job.plan;
    let j = place(p, g, c);
    lemma_place(job, g, c);
    lemma_share(job, g, c);
    let values = program::writer_values(
        p,
        job.row(j),
        c,
        job.listed()[j],
        job.logical_mt,
        job.logical_nt,
        job.batches(j),
        job.partial(j),
    );
    convert::lemma_narrowed(values, program::writer_names(job.partial(j) is Some));
    let words = writer_of(job, g, c);
    assert(program::column_rect(p, job.listed()[j]).len() == 5);
    let n: int = if job.epilogue == MatmulEpilogueKind::Top1 {
        39
    } else {
        37
    };
    assert(values.len() == n);
    assert forall|k: int| 0 <= k < n implies #[trigger] words[k] == values[k] by {
        assert(convert::field_words(values)[k] == values[k]);
    }
    lemma_products(p, job.logical_mt, job.logical_nt);
    assert(0 <= p.out_subblock_h * p.out_subblock_w);
    lemma_div_pos_is_pos(p.per_core_n, p.out_subblock_w);
    lemma_div_pos_is_pos(p.per_core_m, p.out_subblock_h);
    lemma_div_is_ordered_by_denominator(p.per_core_n, 1, p.out_subblock_w);
    lemma_div_is_ordered_by_denominator(p.per_core_m, 1, p.out_subblock_h);
    let (a, b) = (p.per_core_n / 1, p.per_core_m / 1);
    assert(a == p.per_core_n && b == p.per_core_m);
    program::lemma_block_bounds(p);
}

/// The tiles that a writer visits are those of its columns of the right operand, in the rows
/// that match the columns of the left operand that the reader visits: tile `t` of row `i` of
/// block `b` is the one in row `i` of the block and in column `t` of the core's share.
pub proof fn lemma_writer_tiles(job: Job, g: int, c: int, b: int, i: int, t: int)
    requires
        assigned(job),
        on_grid(job.plan, g, c),
    ensures
        ({
            let p = job.plan;
            let words = writer_of(job, g, c);
            let reader = reader_of(job, g, c);
            let row = b * words[6] + i;
            let col = c * p.per_core_n + t;
            &&& words[5] == p.per_core_n
            &&& words[6] == reader[5]
            &&& words[8] == reader[8]
            &&& words[7] == words[6] * words[5]
            &&& 0 <= b < words[8] && 0 <= i < words[6] && 0 <= t < words[5] ==> {
                &&& 0 <= row < p.kt
                &&& 0 <= col < p.nt
                &&& rhs_tile(words, b, i, t) == tile_number(job.logical_nt, row, col)
            }
        }),
{
    let p = job.plan;
    lemma_reader_numbers(job, g, c);
    lemma_writer_numbers(job, g, c);
    lemma_share(job, g, c);
    let w = p.in0_block_w;
    let blocks = p.kt / w;
    let n = p.per_core_n;
    assert(n * w == w * n) by (nonlinear_arith);
    if 0 <= b < blocks && 0 <= i < w && 0 <= t < n {
        lemma_join(blocks, w, b, i);
        let ln = job.logical_nt;
        assert(b * (w * ln) + i * ln == (b * w + i) * ln) by (nonlinear_arith);
    }
}

/// Every tile of the right operand is visited by the writers of every row of the grid.
pub proof fn lemma_rhs_covered(job: Job, g: int, k: int, n: int)
    requires
        assigned(job),
        0 <= g < program::grid_of(job.plan).len(),
        0 <= k < job.plan.kt,
        0 <= n < job.plan.nt,
    ensures
        exists|c: int, b: int, i: int, t: int|
            #![trigger rhs_tile(writer_of(job, g, c), b, i, t)]
            {
                let words = writer_of(job, g, c);
                &&& on_grid(job.plan, g, c)
                &&& 0 <= b < words[8]
                &&& 0 <= i < words[6]
                &&& 0 <= t < words[5]
                &&& rhs_tile(words, b, i, t) == tile_number(job.logical_nt, k, n)
            },
{
    let p = job.plan;
    let width = program::grid_of(p)[0].len() as int;
    lemma_split(width, p.per_core_n, n);
    let (c, t) = (n / p.per_core_n, n % p.per_core_n);
    lemma_share(job, g, c);
    let w = p.in0_block_w;
    lemma_split(p.kt / w, w, k);
    let (b, i) = (k / w, k % w);
    lemma_reader_numbers(job, g, c);
    lemma_writer_numbers(job, g, c);
    lemma_writer_tiles(job, g, c, b, i, t);
    assert(rhs_tile(writer_of(job, g, c), b, i, t) == tile_number(job.logical_nt, k, n));
}

/// The tiles of the product that a writer visits are those of its share: tile `x` of row `y`
/// of a subblock is the one in the rows of the reader's tiles and in the columns of the
/// writer's. The subblocks make up the share.
pub proof fn lemma_output_tiles(job: Job, g: int, c: int, sh: int, sw: int, y: int, x: int)
    requires
        assigned(job),
        on_grid(job.plan, g, c),
    ensures
        ({
            let p = job.plan;
            let words = writer_of(job, g, c);
            let o = output_at(job);
            let row = (g % group_rows(p)) * p.per_core_m + sh * words[o + 6] + y;
            let col = c * p.per_core_n + sw * words[o + 5] + x;
            &&& words[o + 9] * words[o + 6] == p.per_core_m
            &&& words[o + 8] * words[o + 5] == p.per_core_n
            &&& words[o + 7] == words[o + 6] * words[o + 5]
            &&& 0 <= sh < words[o + 9] && 0 <= sw < words[o + 8] && 0 <= y < words[o + 6] && 0 <= x
                < words[o + 5] ==> {
                &&& 0 <= row < p.mt
                &&& 0 <= col < p.nt
                &&& output_tile(words, o, sh, sw, y, x) == tile_number(p.nt, row, col)
            }
        }),
{
    let p = job.plan;
    lemma_writer_numbers(job, g, c);
    lemma_share(job, g, c);
    let (h, w) = (p.out_subblock_h, p.out_subblock_w);
    let (a, b) = (p.per_core_m / h, p.per_core_n / w);
    lemma_fundamental_div_mod(p.per_core_m, h);
    lemma_fundamental_div_mod(p.per_core_n, w);
    assert(a * h == h * a) by (nonlinear_arith);
    assert(b * w == w * b) by (nonlinear_arith);
    let start = (g % group_rows(p)) * p.per_core_m;
    if 0 <= sh < a && 0 <= sw < b && 0 <= y < h && 0 <= x < w {
        lemma_join(a, h, sh, y);
        lemma_join(b, w, sw, x);
        let nt = p.nt;
        assert((start + sh * h + y) * nt == start * nt + sh * (h * nt) + y * nt)
            by (nonlinear_arith);
    }
}

/// Every tile of the product is visited by the writers of every group.
pub proof fn lemma_output_covered(job: Job, group: int, m: int, n: int)
    requires
        assigned(job),
        0 <= group < job.plan.batch_groups,
        0 <= m < job.plan.mt,
        0 <= n < job.plan.nt,
    ensures
        exists|g: int, c: int, sh: int, sw: int, y: int, x: int|
            #![trigger output_tile(writer_of(job, g, c), output_at(job), sh, sw, y, x)]
            {
                let words = writer_of(job, g, c);
                let o = output_at(job);
                &&& on_grid(job.plan, g, c)
                &&& g / group_rows(job.plan) == group
                &&& 0 <= sh < words[o + 9]
                &&& 0 <= sw < words[o + 8]
                &&& 0 <= y < words[o + 6]
                &&& 0 <= x < words[o + 5]
                &&& output_tile(words, o, sh, sw, y, x) == tile_number(
                    job.plan.nt,
                    m,
                    n,
                )
            },
{
    let p = job.plan;
    let o = output_at(job);
    let width = program::grid_of(p)[0].len() as int;
    lemma_split(width, p.per_core_n, n);
    let (c, right) = (n / p.per_core_n, n % p.per_core_n);
    let (g, down) = lemma_row_owner(job, group, c, m);
    let (h, w) = (p.out_subblock_h, p.out_subblock_w);
    lemma_fundamental_div_mod(p.per_core_m, h);
    lemma_fundamental_div_mod(p.per_core_n, w);
    let (a, b) = (p.per_core_m / h, p.per_core_n / w);
    assert(a * h == h * a) by (nonlinear_arith);
    assert(b * w == w * b) by (nonlinear_arith);
    lemma_split(a, h, down);
    lemma_split(b, w, right);
    let (sh, y, sw, x) = (down / h, down % h, right / w, right % w);
    lemma_writer_numbers(job, g, c);
    lemma_output_tiles(job, g, c, sh, sw, y, x);
    let words = writer_of(job, g, c);
    assert(output_tile(words, o, sh, sw, y, x) == tile_number(p.nt, m, n));
}

/// No tile of the product is visited twice by the writers of a group.
pub proof fn lemma_output_once(
    job: Job,
    g: int,
    c: int,
    sh: int,
    sw: int,
    y: int,
    x: int,
    g2: int,
    c2: int,
    sh2: int,
    sw2: int,
    y2: int,
    x2: int,
)
    requires
        assigned(job),
        on_grid(job.plan, g, c),
        on_grid(job.plan, g2, c2),
        g / group_rows(job.plan) == g2 / group_rows(job.plan),
        ({
            let o = output_at(job);
            let (one, two) = (writer_of(job, g, c), writer_of(job, g2, c2));
            &&& 0 <= sh < one[o + 9]
            &&& 0 <= sw < one[o + 8]
            &&& 0 <= y < one[o + 6]
            &&& 0 <= x < one[o + 5]
            &&& 0 <= sh2 < two[o + 9]
            &&& 0 <= sw2 < two[o + 8]
            &&& 0 <= y2 < two[o + 6]
            &&& 0 <= x2 < two[o + 5]
            &&& output_tile(one, o, sh, sw, y, x) == output_tile(two, o, sh2, sw2, y2, x2)
        }),
    ensures
        (g, c, sh, sw, y, x) == (g2, c2, sh2, sw2, y2, x2),
{
    let p = job.plan;
    let rows = group_rows(p);
    lemma_writer_numbers(job, g, c);
    lemma_writer_numbers(job, g2, c2);
    lemma_output_tiles(job, g, c, sh, sw, y, x);
    lemma_output_tiles(job, g2, c2, sh2, sw2, y2, x2);
    lemma_place(job, g, c);
    lemma_place(job, g2, c2);
    let (h, w) = (p.out_subblock_h, p.out_subblock_w);
    let (a, b) = (p.per_core_m / h, p.per_core_n / w);
    lemma_join(a, h, sh, y);
    lemma_join(a, h, sh2, y2);
    lemma_join(b, w, sw, x);
    lemma_join(b, w, sw2, x2);
    lemma_digits(
        p.nt,
        (g % rows) * p.per_core_m + sh * h + y,
        c * p.per_core_n + sw * w + x,
        (g2 % rows) * p.per_core_m + sh2 * h + y2,
        c2 * p.per_core_n + sw2 * w + x2,
    );
    lemma_digits(p.per_core_m, g % rows, sh * h + y, g2 % rows, sh2 * h + y2);
    lemma_digits(p.per_core_n, c, sw * w + x, c2, sw2 * w + x2);
    lemma_digits(h, sh, y, sh2, y2);
    lemma_digits(w, sw, x, sw2, x2);
    lemma_fundamental_div_mod(g, rows);
    lemma_fundamental_div_mod(g2, rows);
}

/// The groups share the batches: each works on as many as the others, from where the one
/// before it ends. Reader and writer of a core work on the same batches, and step from batch
/// to batch by the tiles of one matrix.
pub proof fn lemma_batches_shared(job: Job, g: int, c: int)
    requires
        assigned(job),
        on_grid(job.plan, g, c),
    ensures
        ({
            let p = job.plan;
            let reader = reader_of(job, g, c);
            let writer = writer_of(job, g, c);
            let e = output_at(job) + (if job.epilogue == MatmulEpilogueKind::Top1 {
                14int
            } else {
                13int
            });
            let group = g / group_rows(p);
            &&& reader[24] == writer[e] && reader[25] == writer[e + 1] && reader[26] == writer[e
                + 2]
            &&& reader[26] == job.batch_count
            &&& 0 <= reader[25]
            &&& reader[25] + reader[24] <= p.batch_groups * p.batches_per_group
            &&& group == 0 ==> reader[25] == 0
            &&& g + group_rows(p) < program::grid_of(p).len() ==> reader_of(
                job,
                g + group_rows(p),
                c,
            )[25] == reader[25] + reader[24]
            &&& group == p.batch_groups - 1 ==> reader[25] + reader[24] == p.batch_groups
                * p.batches_per_group
            &&& reader[27] == tile_number(p.kt, job.logical_mt, 0)
            &&& writer[e + 3] == tile_number(job.logical_nt, p.kt, 0)
            &&& writer[e + 4] == tile_number(job.logical_nt, job.logical_mt, 0)
        }),
{
    let p = job.plan;
    lemma_reader_numbers(job, g, c);
    lemma_writer_numbers(job, g, c);
    lemma_place(job, g, c);
    let rows = group_rows(p);
    let group = g / rows;
    let per = p.batches_per_group;
    assert(group * per + per == (group + 1) * per) by (nonlinear_arith);
    assert((group + 1) * per <= p.batch_groups * per) by (nonlinear_arith)
        requires
            group + 1 <= p.batch_groups,
            per >= 0,
    ;
    if g + rows < program::grid_of(p).len() {
        lemma_reader_numbers(job, g + rows, c);
        lemma_fundamental_div_mod(g, rows);
        lemma_mod_bound(g, rows);
        assert(g + rows == (group + 1) * rows + g % rows) by (nonlinear_arith)
            requires
                g == rows * group + g % rows,
        ;
        lemma_fundamental_div_mod_converse(g + rows, rows, group + 1, g % rows);
    }
}

/// Where cores work on their own, each is its own sender and sends to none. Otherwise the
/// left operand is sent along the row by its first core, and the right one along the column
/// by its first core.
pub proof fn lemma_senders(job: Job, g: int, c: int)
    requires
        assigned(job),
        on_grid(job.plan, g, c),
    ensures
        ({
            let p = job.plan;
            let grid = program::grid_of(p);
            let reader = reader_of(job, g, c);
            let writer = writer_of(job, g, c);
            let own = grid[g][c];
            let row_sender = if p.direct_grid is Some {
                own
            } else {
                grid[g][0]
            };
            let col_sender = if p.direct_grid is Some {
                own
            } else {
                grid[0][c]
            };
            &&& reader[19] == row_sender.x && reader[20] == row_sender.y
            &&& writer[14] == col_sender.x && writer[15] == col_sender.y
            &&& p.direct_grid is Some ==> reader[13] == 0 && reader[18] == 0 && writer[13] == 0
            &&& reader[21] != reader[22]
            &&& writer[16] != writer[17]
            &&& reader[21] != writer[16] && reader[21] != writer[17]
            &&& reader[22] != writer[16] && reader[22] != writer[17]
            &&& reader[21] < 4 && reader[22] < 4 && writer[16] < 4 && writer[17] < 4
        }),
{
    let p = job.plan;
    let j = place(p, g, c);
    lemma_place(job, g, c);
    let rv = program::reader_values(
        p,
        job.row(j),
        job.listed()[j],
        job.logical_mt,
        job.batches(j),
    );
    convert::lemma_narrowed(rv, program::reader_names());
    let reader = reader_of(job, g, c);
    assert(rv.len() == 28);
    assert forall|k: int| 0 <= k < 28 implies #[trigger] reader[k] == rv[k] by {
        assert(convert::field_words(rv)[k] == rv[k]);
    }
    let wv = program::writer_values(
        p,
        job.row(j),
        c,
        job.listed()[j],
        job.logical_mt,
        job.logical_nt,
        job.batches(j),
        job.partial(j),
    );
    convert::lemma_narrowed(wv, program::writer_names(job.partial(j) is Some));
    let writer = writer_of(job, g, c);
    assert(program::column_rect(p, job.listed()[j]).len() == 5);
    assert forall|k: int| 0 <= k < 19 implies #[trigger] writer[k] == wv[k] by {
        assert(convert::field_words(wv)[k] == wv[k]);
    }
    if p.direct_grid is None {
        lemma_fundamental_div_mod(program::grid_of(p).len() as int, 1);
        assert(group_rows(p) == program::grid_of(p).len());
        lemma_small_mod(g as nat, group_rows(p) as nat);
    }
}

/// The smallest and the largest of some columns enclose them.
proof fn lemma_enclosed(cols: Seq<u8>, i: int)
    requires
        0 <= i < cols.len(),
    ensures
        program::least(cols) <= cols[i] <= program::greatest(cols),
        cols.contains(program::least(cols)),
        cols.contains(program::greatest(cols)),
    decreases cols.len(),
{
    if cols.len() > 1 {
        let rest = cols.drop_last();
        lemma_enclosed(rest, 0);
        if i < cols.len() - 1 {
            lemma_enclosed(rest, i);
            assert(rest[i] == cols[i]);
        }
        let (a, b) = (program::least(rest), program::greatest(rest));
        let k = choose|k: int| 0 <= k < rest.len() && rest[k] == a;
        let l = choose|l: int| 0 <= l < rest.len() && rest[l] == b;
        assert(cols[k] == a);
        assert(cols[l] == b);
        assert(cols[cols.len() - 1] == cols.last());
    } else {
        assert(cols[0] == cols[i]);
    }
}

/// The columns on one side are those of the list that lie there, but for one.
proof fn lemma_side(cols: Seq<u8>, from: u8, to: int, skip: u8, n: int, x: u8)
    requires
        0 <= n <= cols.len(),
    ensures
        program::side_columns(cols, from, to, skip, n).contains(x) <==> from <= x && x < to && x
            != skip && cols.take(n).contains(x),
    decreases n,
{
    let side = program::side_columns(cols, from, to, skip, n);
    if n > 0 {
        lemma_side(cols, from, to, skip, n - 1, x);
        let before = program::side_columns(cols, from, to, skip, n - 1);
        let last = cols[n - 1];
        let (a, b) = (cols.take(n), cols.take(n - 1));
        assert(a =~= b.push(last));
        assert(a.contains(x) <==> b.contains(x) || x == last) by {
            assert(b.push(last)[n - 1] == last);
            if b.contains(x) {
                let k = choose|k: int| 0 <= k < b.len() && b[k] == x;
                assert(b.push(last)[k] == x);
            }
        }
        if from <= last && last < to && last != skip {
            assert(side == before.push(last));
            assert(side.contains(x) <==> before.contains(x) || x == last) by {
                assert(before.push(last)[before.len() as int] == last);
                if before.contains(x) {
                    let k = choose|k: int| 0 <= k < before.len() && before[k] == x;
                    assert(before.push(last)[k] == x);
                }
            }
        }
    }
}

/// The left operand reaches every other core of the row: a column of the grid but the core's
/// own, which lies west of the memory columns or east of them, is within the rectangle of its
/// side, in the row of the core. Both rectangles start and end at such columns.
pub proof fn lemma_row_receivers(p: Plan, core: CoreCoord, x: u8)
    requires
        p.direct_grid is None,
        p.cols.contains(x),
        x != core.x,
        p.cols.len() <= usize::MAX,
    ensures
        ({
            let west = program::west_rect(p, core);
            let east = program::east_rect(p, core);
            &&& x < 8 ==> west[0] <= x <= west[2] && west[1] == core.y && west[3] == core.y
                && west[4] > 0 && west[2] < 8 && p.cols.contains(west[0] as u8) && p.cols.contains(
                west[2] as u8,
            )
            &&& x >= 10 ==> east[0] <= x <= east[2] && east[1] == core.y && east[3] == core.y
                && east[4] > 0 && east[0] >= 10 && p.cols.contains(east[0] as u8)
                && p.cols.contains(east[2] as u8)
        }),
{
    let n = p.cols.len() as int;
    assert(p.cols.take(n) =~= p.cols);
    lemma_side(p.cols, 0, 8, core.x, n, x);
    lemma_side(p.cols, 10, 256, core.x, n, x);
    let west = program::side_columns(p.cols, 0, 8, core.x, n);
    let east = program::side_columns(p.cols, 10, 256, core.x, n);
    lemma_side_len(p.cols, 0, 8, core.x, n);
    lemma_side_len(p.cols, 10, 256, core.x, n);
    if x < 8 {
        let i = choose|i: int| 0 <= i < west.len() && west[i] == x;
        lemma_enclosed(west, i);
        lemma_side(p.cols, 0, 8, core.x, n, program::least(west));
        lemma_side(p.cols, 0, 8, core.x, n, program::greatest(west));
    }
    if x >= 10 {
        let i = choose|i: int| 0 <= i < east.len() && east[i] == x;
        lemma_enclosed(east, i);
        lemma_side(p.cols, 10, 256, core.x, n, program::least(east));
        lemma_side(p.cols, 10, 256, core.x, n, program::greatest(east));
    }
}

proof fn lemma_side_len(cols: Seq<u8>, from: u8, to: int, skip: u8, n: int)
    requires
        0 <= n <= cols.len(),
    ensures
        program::side_columns(cols, from, to, skip, n).len() <= n,
    decreases n,
{
    if n > 0 {
        lemma_side_len(cols, from, to, skip, n - 1);
    }
}

/// The receivers that the two rectangles count are all other cores of the row, where no column
/// of the grid is listed twice and none holds memory.
pub proof fn lemma_receivers_counted(p: Plan, core: CoreCoord)
    requires
        p.direct_grid is None,
        p.cols.contains(core.x),
        p.cols.no_duplicates(),
        p.cols.len() <= usize::MAX,
        forall|i: int| 0 <= i < p.cols.len() ==> (#[trigger] p.cols[i]) < 8 || p.cols[i] >= 10,
    ensures
        program::west_rect(p, core)[4] + program::east_rect(p, core)[4] == p.cols.len() - 1,
{
    let n = p.cols.len() as int;
    lemma_counts(p.cols, core.x, n);
    lemma_side_len(p.cols, 0, 8, core.x, n);
    lemma_side_len(p.cols, 10, 256, core.x, n);
    assert(p.cols.take(n) =~= p.cols);
}

proof fn lemma_counts(cols: Seq<u8>, skip: u8, n: int)
    requires
        0 <= n <= cols.len(),
        cols.no_duplicates(),
        forall|i: int| 0 <= i < cols.len() ==> (#[trigger] cols[i]) < 8 || cols[i] >= 10,
    ensures
        program::side_columns(cols, 0, 8, skip, n).len() + program::side_columns(
            cols,
            10,
            256,
            skip,
            n,
        ).len() == n - (if cols.take(n).contains(skip) {
            1int
        } else {
            0
        }),
    decreases n,
{
    if n > 0 {
        lemma_counts(cols, skip, n - 1);
        let last = cols[n - 1];
        let (a, b) = (cols.take(n), cols.take(n - 1));
        assert(a =~= b.push(last));
        assert(a.contains(skip) <==> b.contains(skip) || skip == last) by {
            assert(b.push(last)[n - 1] == last);
            if b.contains(skip) {
                let k = choose|k: int| 0 <= k < b.len() && b[k] == skip;
                assert(b.push(last)[k] == skip);
            }
        }
        if last == skip && b.contains(skip) {
            let k = choose|k: int| 0 <= k < b.len() && b[k] == skip;
            assert(cols[k] == skip);
            assert(false);
        }
    }
}

/// The right operand reaches every row below the first: these lie between the last and the
/// first receiver, in the column of the core, and all are counted.
pub proof fn lemma_column_receivers(p: Plan, core: CoreCoord, i: int)
    requires
        p.direct_grid is None,
        0 < i < p.rows.len() <= usize::MAX,
        forall|a: int, b: int| 0 <= a < b < p.rows.len() ==> p.rows[a] < p.rows[b],
    ensures
        ({
            let rect = program::column_rect(p, core);
            &&& rect[0] == core.x && rect[2] == core.x
            &&& rect[3] <= p.rows[i] <= rect[1]
            &&& p.rows[0] < rect[3]
            &&& rect[4] == p.rows.len() - 1
        }),
{
    assert(p.rows.last() == p.rows[p.rows.len() - 1]);
    assert(p.rows[0] < p.rows[1]);
    if i > 1 {
        assert(p.rows[1] < p.rows[i]);
    }
    if i < p.rows.len() - 1 {
        assert(p.rows[i] < p.rows[p.rows.len() - 1]);
    }
}

} // verus!
