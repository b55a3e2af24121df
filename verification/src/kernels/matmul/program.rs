//! The program of a planned matrix multiplication.

use vstd::prelude::*;
use vstd::arithmetic::div_mod::*;
use crate::bytes;
use crate::convert;
use crate::cores;
use crate::dispatch::MathFidelity;
use crate::dram::DType;
use crate::dram::layout;
use crate::error;
use crate::error::Error;
use crate::hw::CoreCoord;
use crate::kernels::kernel::{CoreArgs, RuntimeArgs, RuntimeArgsBuilder};
use crate::kernels::lowering;
use crate::kernels::lowering::{CompileConfig, DynamicArgs, KernelCb, LoweredProgram};
use crate::kernels::matmul::plan;
use crate::kernels::matmul::plan::{MatmulPlan, Plan};
use crate::kernels::matmul::shape::{MatmulOperandView, OperandView};
use crate::text;

verus! {

/// What happens to the product.
#[derive(Clone, Copy, Debug, Hash, PartialEq, Eq, Structural)]
pub enum MatmulEpilogueKind {
    Store,
    Top1,
}

/// Whether a plan is consistent: blocks fit, subblocks divide the share of a
/// core, and the grid is a full rectangle that covers the output.
pub open spec fn sound(p: Plan) -> bool {
    let grid = grid_of(p);
    &&& 1 <= p.in0_block_w <= 64
    &&& 1 <= p.out_subblock_h <= 8
    &&& 1 <= p.out_subblock_w <= 8
    &&& p.out_subblock_h * p.out_subblock_w <= 8
    &&& 1 <= p.per_core_m
    &&& 1 <= p.per_core_n
    &&& p.per_core_m % p.out_subblock_h == 0
    &&& p.per_core_n % p.out_subblock_w == 0
    &&& plan::blocks_fit(p.per_core_m, p.per_core_n, p.in0_block_w)
    &&& 1 <= p.batch_groups
    &&& p.kt >= 0
    &&& grid.len() > 0
    &&& grid.len() % (p.batch_groups as nat) == 0
    &&& grid.len() * grid[0].len() <= usize::MAX
    &&& grid[0].len() > 0
    &&& forall|i: int| 0 <= i < grid.len() ==> (#[trigger] grid[i]).len() == grid[0].len()
    &&& (grid.len() as int / p.batch_groups) * p.per_core_m == p.mt
    &&& grid[0].len() * p.per_core_n == p.nt
    &&& p.direct_grid is None ==> p.batch_groups == 1
}

/// The cores of a plan, row by row.
pub open spec fn grid_of(p: Plan) -> Seq<Seq<CoreCoord>> {
    match p.direct_grid {
        Some(grid) => grid,
        None => Seq::new(
            p.rows.len(),
            |i: int| Seq::new(p.cols.len(), |j: int| CoreCoord { x: p.cols[j], y: p.rows[i] }),
        ),
    }
}

pub fn plan_grid(p: &MatmulPlan) -> (grid: Vec<Vec<CoreCoord>>)
    ensures
        plan::nested(grid@) == grid_of(p@),
{
    let mut out: Vec<Vec<CoreCoord>> = Vec::new();
    match &p.direct_grid {
        Some(grid) => {
            for i in 0..grid.len()
                invariant
                    plan::nested(out@) == plan::nested(grid@).take(i as int),
            {
                let row = cores::copy_cores(grid[i].as_slice(), grid[i].len());
                assert(row@ =~= grid@[i as int]@);
                let ghost rv = row@;
                let ghost whole = plan::nested(grid@);
                out.push(row);
                assert(plan::nested(out@) =~= whole.take(i as int).push(rv));
                assert(whole.take(i + 1) =~= whole.take(i as int).push(whole[i as int]));
            }
            assert(plan::nested(out@) =~= plan::nested(grid@));
        },
        None => {
            let ghost want = grid_of(p@);
            for i in 0..p.rows.len()
                invariant
                    want == grid_of(p@),
                    p.direct_grid is None,
                    plan::nested(out@) == want.take(i as int),
            {
                let y: u8 = p.rows[i];
                let mut row: Vec<CoreCoord> = Vec::new();
                for j in 0..p.cols.len()
                    invariant
                        want == grid_of(p@),
                        p.direct_grid is None,
                        0 <= i < p.rows@.len(),
                        y == p.rows@[i as int],
                        row@ == want[i as int].take(j as int),
                {
                    row.push(CoreCoord { x: p.cols[j], y });
                    assert(row@ =~= want[i as int].take(j + 1));
                }
                assert(row@ =~= want[i as int]);
                let ghost rv = row@;
                out.push(row);
                assert(plan::nested(out@) =~= want.take(i as int).push(rv));
                assert(want.take(i + 1) =~= want.take(i as int).push(want[i as int]));
            }
            assert(plan::nested(out@) =~= want);
        },
    }
    out
}

impl MatmulPlan {
    pub fn out_subblock_num_tiles(&self) -> (r: usize)
        requires
            sound(self@),
        ensures
            r == self.out_subblock_h * self.out_subblock_w,
    {
        self.out_subblock_h * self.out_subblock_w
    }

    pub fn num_blocks(&self) -> (r: usize)
        requires
            self.in0_block_w >= 1,
        ensures
            r == self.kt as int / self.in0_block_w as int,
    {
        self.kt / self.in0_block_w
    }

    pub fn in0_num_subblocks(&self) -> (r: usize)
        requires
            self.out_subblock_h >= 1,
        ensures
            r == self.per_core_m as int / self.out_subblock_h as int,
    {
        self.per_core_m / self.out_subblock_h
    }

    pub fn in1_num_subblocks(&self) -> (r: usize)
        requires
            self.out_subblock_w >= 1,
        ensures
            r == self.per_core_n as int / self.out_subblock_w as int,
    {
        self.per_core_n / self.out_subblock_w
    }

    pub fn in0_block_num_tiles(&self) -> (r: usize)
        requires
            sound(self@),
        ensures
            r == self.per_core_m * self.in0_block_w,
    {
        proof {
            lemma_block_bounds(self@);
        }
        self.per_core_m * self.in0_block_w
    }

    pub fn in0_subblock_num_tiles(&self) -> (r: usize)
        requires
            sound(self@),
        ensures
            r == self.out_subblock_h * self.in0_block_w,
    {
        assert(self.out_subblock_h * self.in0_block_w <= 512) by (nonlinear_arith)
            requires
                self.out_subblock_h <= 8,
                self.in0_block_w <= 64,
        ;
        self.out_subblock_h * self.in0_block_w
    }

    pub fn in1_block_num_tiles(&self) -> (r: usize)
        requires
            sound(self@),
        ensures
            r == self.per_core_n * self.in0_block_w,
    {
        proof {
            lemma_block_bounds(self@);
        }
        self.per_core_n * self.in0_block_w
    }

    pub fn out_block_num_tiles(&self) -> (r: usize)
        requires
            sound(self@),
        ensures
            r == self.per_core_m * self.per_core_n,
    {
        proof {
            lemma_block_bounds(self@);
        }
        self.per_core_m * self.per_core_n
    }

    pub fn cb0_pages(&self) -> (r: usize)
        requires
            sound(self@),
        ensures
            r == 2 * self.per_core_m * self.in0_block_w,
    {
        proof {
            lemma_block_bounds(self@);
            assert(2 * self.per_core_m * self.in0_block_w == 2 * (self.per_core_m
                * self.in0_block_w)) by (nonlinear_arith);
        }
        2 * self.per_core_m * self.in0_block_w
    }

    pub fn cb1_pages(&self) -> (r: usize)
        requires
            sound(self@),
        ensures
            r == 2 * self.per_core_n * self.in0_block_w,
    {
        proof {
            lemma_block_bounds(self@);
            assert(2 * self.per_core_n * self.in0_block_w == 2 * (self.per_core_n
                * self.in0_block_w)) by (nonlinear_arith);
        }
        2 * self.per_core_n * self.in0_block_w
    }

    /// Rows of cores of each group, where every core works on its own.
    pub fn direct_grid_rows_per_batch(&self) -> (r: Option<usize>)
        requires
            self.batch_groups >= 1,
        ensures
            r == (match self.direct_grid {
                Some(grid) => Some((grid@.len() as int / self.batch_groups as int) as usize),
                None => None,
            }),
    {
        match &self.direct_grid {
            Some(grid) => Some(grid.len() / self.batch_groups),
            None => None,
        }
    }
}

pub(crate) proof fn lemma_block_bounds(p: Plan)
    requires
        sound(p),
    ensures
        0 <= p.per_core_m * p.in0_block_w <= 1024,
        0 <= p.per_core_n * p.in0_block_w <= 1024,
        0 <= p.per_core_m * p.per_core_n <= 1024,
        p.per_core_m <= 1024,
        p.per_core_n <= 1024,
{
    let m = p.per_core_m;
    let n = p.per_core_n;
    let w = p.in0_block_w;
    assert(m * w >= m && n * w >= n && m * n >= 1 && m >= 1) by (nonlinear_arith)
        requires
            m >= 1,
            n >= 1,
            w >= 1,
    ;
    assert(2 * m * w * 2048 == 4096 * (m * w)) by (nonlinear_arith);
    assert(2 * n * w * 2048 == 4096 * (n * w)) by (nonlinear_arith);
}

/// The columns among the first `n` that lie from `from` to before `to`, without `skip`.
pub open spec fn side_columns(cols: Seq<u8>, from: u8, to: int, skip: u8, n: int) -> Seq<u8>
    decreases n,
{
    if n <= 0 {
        Seq::empty()
    } else if from <= cols[n - 1] && cols[n - 1] < to && cols[n - 1] != skip {
        side_columns(cols, from, to, skip, n - 1).push(cols[n - 1])
    } else {
        side_columns(cols, from, to, skip, n - 1)
    }
}

pub open spec fn least(s: Seq<u8>) -> u8
    decreases s.len(),
{
    if s.len() <= 1 {
        s[0]
    } else if s.last() < least(s.drop_last()) {
        s.last()
    } else {
        least(s.drop_last())
    }
}

pub open spec fn greatest(s: Seq<u8>) -> u8
    decreases s.len(),
{
    if s.len() <= 1 {
        s[0]
    } else if s.last() > greatest(s.drop_last()) {
        s.last()
    } else {
        greatest(s.drop_last())
    }
}

/// A multicast rectangle in one row: its corners and the number of receivers.
pub open spec fn row_rect(cols: Seq<u8>, y: u8) -> Seq<usize> {
    if cols.len() == 0 {
        seq![0usize, 0usize, 0usize, 0usize, 0usize]
    } else {
        seq![
            least(cols) as usize,
            y as usize,
            greatest(cols) as usize,
            y as usize,
            cols.len() as usize,
        ]
    }
}

fn mcast_rect_args(cols: &Vec<u8>, y: u8) -> (r: [usize; 5])
    ensures
        r@ == row_rect(cols@, y),
{
    let n: usize = cols.len();
    if n == 0 {
        let r: [usize; 5] = [0, 0, 0, 0, 0];
        assert(r@ =~= row_rect(cols@, y));
        return r;
    }
    let mut low: u8 = cols[0];
    let mut high: u8 = cols[0];
    assert(cols@.take(1).len() == 1);
    for i in 1..n
        invariant
            n == cols@.len(),
            1 <= i,
            low == least(cols@.take(i as int)),
            high == greatest(cols@.take(i as int)),
    {
        assert(cols@.take(i + 1).drop_last() =~= cols@.take(i as int));
        let c: u8 = cols[i];
        if c < low {
            low = c;
        }
        if c > high {
            high = c;
        }
    }
    assert(cols@.take(n as int) =~= cols@);
    let r: [usize; 5] = [low as usize, y as usize, high as usize, y as usize, n];
    assert(r@ =~= row_rect(cols@, y));
    r
}

fn columns_between(cols: &Vec<u8>, from: u8, to: u16, skip: u8) -> (r: Vec<u8>)
    ensures
        r@ == side_columns(cols@, from, to as int, skip, cols@.len() as int),
{
    let mut out: Vec<u8> = Vec::new();
    for i in 0..cols.len()
        invariant
            out@ == side_columns(cols@, from, to as int, skip, i as int),
    {
        let c: u8 = cols[i];
        if from <= c && (c as u16) < to && c != skip {
            out.push(c);
        }
    }
    out
}

/// The batches that a core works on.
#[derive(Clone, Copy, Debug, PartialEq, Eq, Structural)]
pub struct BatchRange {
    pub local: usize,
    pub start: usize,
    pub total: usize,
}

/// The receivers of the left operand west of the memory columns.
pub open spec fn west_rect(p: Plan, core: CoreCoord) -> Seq<usize> {
    if p.direct_grid is Some {
        row_rect(Seq::empty(), core.y)
    } else {
        row_rect(side_columns(p.cols, 0, 8, core.x, p.cols.len() as int), core.y)
    }
}

/// The receivers of the left operand east of the memory columns.
pub open spec fn east_rect(p: Plan, core: CoreCoord) -> Seq<usize> {
    if p.direct_grid is Some {
        row_rect(Seq::empty(), core.y)
    } else {
        row_rect(side_columns(p.cols, 10, 256, core.x, p.cols.len() as int), core.y)
    }
}

/// The numbers that the reader of a core gets.
pub open spec fn reader_values(
    p: Plan,
    row: int,
    core: CoreCoord,
    logical_mt: int,
    batches: BatchRange,
) -> Seq<usize> {
    let sender = if p.direct_grid is Some {
        core
    } else {
        grid_of(p)[row][0]
    };
    seq![
        0usize,
        (row * p.per_core_m * p.kt) as usize,
        1usize,
        p.kt as usize,
        p.in0_block_w as usize,
        p.in0_block_w as usize,
        p.per_core_m as usize,
        (p.per_core_m * p.in0_block_w) as usize,
        (p.kt / p.in0_block_w) as usize,
    ] + west_rect(p, core) + east_rect(p, core) + seq![
        sender.x as usize,
        sender.y as usize,
        0usize,
        1usize,
        logical_mt as usize,
        batches.local,
        batches.start,
        batches.total,
        (logical_mt * p.kt) as usize,
    ]
}

/// The names under which the numbers of the reader are refused.
pub open spec fn reader_names() -> Seq<&'static str> {
    seq![
        "",
        "lhs block offset",
        "",
        "lhs row stride",
        "lhs block advance",
        "lhs block width",
        "lhs block height",
        "lhs block tiles",
        "num blocks",
        "",
        "",
        "",
        "",
        "",
        "",
        "",
        "",
        "",
        "",
        "",
        "",
        "",
        "",
        "logical M tiles",
        "local batch count",
        "batch start",
        "total batch count",
        "lhs batch stride",
    ]
}

/// The words that describe an operand to a kernel.
pub open spec fn view_words(v: OperandView) -> Seq<u32> {
    seq![
        v.kind.code(),
        v.rank,
        v.batch_rank,
        v.row_rank,
        v.col_rank,
        v.logical_rows,
        v.logical_cols,
        v.tile_rows,
        v.tiles_per_row,
    ] + v.shape + v.batch_dims + v.row_dims + v.col_dims
}

pub fn append_view_args(args: &mut Vec<u32>, view: &MatmulOperandView)
    ensures
        final(args)@ == old(args)@ + view_words(view@),
{
    let head: [u32; 9] = [
        view.kind.runtime_value(),
        view.rank,
        view.batch_rank,
        view.row_rank,
        view.col_rank,
        view.logical_rows,
        view.logical_cols,
        view.tile_rows,
        view.tiles_per_row,
    ];
    bytes::extend_words(args, &head);
    bytes::extend_words(args, &view.shape);
    bytes::extend_words(args, &view.batch_dims);
    bytes::extend_words(args, &view.row_dims);
    bytes::extend_words(args, &view.col_dims);
    assert(args@ =~= old(args)@ + view_words(view@));
}

/// The arguments of the reader of a core.
pub open spec fn reader_words(
    p: Plan,
    row: int,
    core: CoreCoord,
    logical_mt: int,
    batches: BatchRange,
    lhs: OperandView,
) -> Seq<u32> {
    convert::field_words(reader_values(p, row, core, logical_mt, batches)) + view_words(lhs)
}

/// Why the reader of a core cannot get its arguments.
pub open spec fn reader_refusal(
    p: Plan,
    row: int,
    core: CoreCoord,
    logical_mt: int,
    batches: BatchRange,
) -> Option<error::Refusal> {
    convert::fields_refusal(reader_values(p, row, core, logical_mt, batches), reader_names())
}

/// Whether offsets and strides are machine words.
pub open spec fn stride_limits(p: Plan, logical_mt: int, logical_nt: int) -> bool {
    &&& p.mt * p.kt <= usize::MAX
    &&& p.mt * p.nt + p.nt <= usize::MAX
    &&& p.mt + p.nt <= usize::MAX
    &&& 8 * p.nt <= usize::MAX
    &&& logical_mt * p.kt <= usize::MAX
    &&& p.kt * logical_nt <= usize::MAX
    &&& 64 * logical_nt <= usize::MAX
    &&& logical_mt * logical_nt <= usize::MAX
}

fn product_fits(a: usize, b: usize) -> (r: bool)
    ensures
        r == (a * b <= usize::MAX),
{
    a.checked_mul(b).is_some()
}

/// Tests whether the strides of a plan are machine words.
pub fn within_strides(p: &MatmulPlan, logical_mt: usize, logical_nt: usize) -> (r: bool)
    ensures
        r == stride_limits(p@, logical_mt as int, logical_nt as int),
{
    if !product_fits(p.mt, p.nt) {
        assert(p.mt * p.nt > usize::MAX);
        return false;
    }
    let face: usize = p.mt * p.nt;
    product_fits(p.mt, p.kt) && face.checked_add(p.nt).is_some() && p.mt.checked_add(
        p.nt,
    ).is_some() && product_fits(8, p.nt) && product_fits(logical_mt, p.kt) && product_fits(
        p.kt,
        logical_nt,
    ) && product_fits(64, logical_nt) && product_fits(logical_mt, logical_nt)
}

/// Tests whether the other sizes of a plan are machine words.
pub fn within_words(p: &MatmulPlan) -> (r: bool)
    ensures
        r == (p.batch_groups * p.batches_per_group <= usize::MAX && p.mt * 32 <= usize::MAX && p.kt
            * 32 <= usize::MAX && p.nt * 32 <= usize::MAX),
{
    product_fits(p.batch_groups, p.batches_per_group) && product_fits(p.mt, 32) && product_fits(
        p.kt,
        32,
    ) && product_fits(p.nt, 32)
}

/// Computes the arguments of the reader of a core.
pub fn reader_args(
    p: &MatmulPlan,
    grid: &Vec<Vec<CoreCoord>>,
    row_index: usize,
    core: CoreCoord,
    logical_mt: usize,
    batches: BatchRange,
    lhs_view: &MatmulOperandView,
) -> (r: Result<Vec<u32>, Error>)
    requires
        sound(p@),
        plan::nested(grid@) == grid_of(p@),
        row_index < grid@.len(),
        row_index * p.per_core_m <= p.mt,
        p.mt * p.kt <= usize::MAX,
        logical_mt * p.kt <= usize::MAX,
    ensures
        match r {
            Ok(words) => {
                &&& reader_refusal(p@, row_index as int, core, logical_mt as int, batches) is None
                &&& words@ == reader_words(
                    p@,
                    row_index as int,
                    core,
                    logical_mt as int,
                    batches,
                    lhs_view@,
                )
            },
            Err(e) => reader_refusal(p@, row_index as int, core, logical_mt as int, batches)
                == Some(e@),
        },
{
    let empty: Vec<u8> = Vec::new();
    let direct: bool = p.direct_grid.is_some();
    let west: [usize; 5] = if direct {
        mcast_rect_args(&empty, core.y)
    } else {
        mcast_rect_args(&columns_between(&p.cols, 0, 8, core.x), core.y)
    };
    let east: [usize; 5] = if direct {
        mcast_rect_args(&empty, core.y)
    } else {
        mcast_rect_args(&columns_between(&p.cols, 10, 256, core.x), core.y)
    };
    assert(empty@ =~= Seq::empty());
    proof {
        assert(grid_of(p@)[row_index as int] == grid@[row_index as int]@);
        assert(grid_of(p@)[row_index as int].len() == grid_of(p@)[0].len());
    }
    let sender: CoreCoord = if direct {
        core
    } else {
        grid[row_index][0]
    };
    proof {
        assert(row_index * p.per_core_m * p.kt <= p.mt * p.kt) by (nonlinear_arith)
            requires
                row_index * p.per_core_m <= p.mt,
                p.kt >= 0,
        ;
        assert(row_index * p.per_core_m * p.kt >= 0) by (nonlinear_arith)
            requires
                row_index >= 0,
                p.per_core_m >= 0,
                p.kt >= 0,
        ;
    }
    let offset: usize = row_index * p.per_core_m * p.kt;
    let values: Vec<usize> = vec![
        0,
        offset,
        1,
        p.kt,
        p.in0_block_w,
        p.in0_block_w,
        p.per_core_m,
        p.in0_block_num_tiles(),
        p.num_blocks(),
        west[0],
        west[1],
        west[2],
        west[3],
        west[4],
        east[0],
        east[1],
        east[2],
        east[3],
        east[4],
        sender.x as usize,
        sender.y as usize,
        0,
        1,
        logical_mt,
        batches.local,
        batches.start,
        batches.total,
        logical_mt * p.kt,
    ];
    assert(values@ =~= reader_values(p@, row_index as int, core, logical_mt as int, batches));
    let names: Vec<&str> = vec![
        "",
        "lhs block offset",
        "",
        "lhs row stride",
        "lhs block advance",
        "lhs block width",
        "lhs block height",
        "lhs block tiles",
        "num blocks",
        "",
        "",
        "",
        "",
        "",
        "",
        "",
        "",
        "",
        "",
        "",
        "",
        "",
        "",
        "logical M tiles",
        "local batch count",
        "batch start",
        "total batch count",
        "lhs batch stride",
    ];
    assert(names@ =~= reader_names());
    let mut args = convert::narrow_fields(&values, &names)?;
    append_view_args(&mut args, lhs_view);
    Ok(args)
}

/// The receivers of the right operand: the rows below the first, in the column of the core.
pub open spec fn column_rect(p: Plan, core: CoreCoord) -> Seq<usize> {
    if p.direct_grid is Some || p.rows.len() <= 1 {
        seq![0usize, 0usize, 0usize, 0usize, 0usize]
    } else {
        seq![
            core.x as usize,
            p.rows.last() as usize,
            core.x as usize,
            p.rows[1] as usize,
            (p.rows.len() - 1) as usize,
        ]
    }
}

/// The numbers that the writer of a core gets. With `partial` it writes the
/// largest value and its position instead of the product.
pub open spec fn writer_values(
    p: Plan,
    row: int,
    col: int,
    core: CoreCoord,
    logical_mt: int,
    logical_nt: int,
    batches: BatchRange,
    partial: Option<usize>,
) -> Seq<usize> {
    let sender = if p.direct_grid is Some {
        core
    } else {
        grid_of(p)[0][col]
    };
    let head = seq![
        0usize,
        (col * p.per_core_n) as usize,
        1usize,
        logical_nt as usize,
        (p.in0_block_w * logical_nt) as usize,
        p.per_core_n as usize,
        p.in0_block_w as usize,
        (p.per_core_n * p.in0_block_w) as usize,
        (p.kt / p.in0_block_w) as usize,
    ] + column_rect(p, core) + seq![
        sender.x as usize,
        sender.y as usize,
        2usize,
        3usize,
        0usize,
    ];
    let output = seq![
        (row * p.per_core_m * p.nt + col * p.per_core_n) as usize,
        1usize,
        p.nt as usize,
        p.out_subblock_w as usize,
        (p.out_subblock_h * p.nt) as usize,
        p.out_subblock_w as usize,
        p.out_subblock_h as usize,
        (p.out_subblock_h * p.out_subblock_w) as usize,
        (p.per_core_n / p.out_subblock_w) as usize,
        (p.per_core_m / p.out_subblock_h) as usize,
        logical_mt as usize,
        logical_nt as usize,
        0usize,
    ];
    let tail = seq![
        batches.local,
        batches.start,
        batches.total,
        (p.kt * logical_nt) as usize,
        (logical_mt * logical_nt) as usize,
    ];
    match partial {
        None => head + output + tail,
        Some(id) => head.push(0usize) + output.push(id) + tail,
    }
}

/// The names under which the numbers of the writer are refused.
pub open spec fn writer_names(partial: bool) -> Seq<&'static str> {
    let head = seq![
        "",
        "rhs block offset",
        "",
        "rhs row stride",
        "rhs block advance",
        "rhs block width",
        "rhs block height",
        "rhs block tiles",
        "num blocks",
        "",
        "",
        "",
        "",
        "",
        "",
        "",
        "",
        "",
        "",
    ];
    let output = seq![
        "output tile offset",
        "",
        "output row stride",
        "output next subblock w",
        "output next subblock h",
        "output subblock width",
        "output subblock height",
        "output subblock tiles",
        "output num subblocks w",
        "output num subblocks h",
        "logical M tiles",
        "logical N tiles",
        "",
    ];
    let tail = seq![
        "local batch count",
        "batch start",
        "total batch count",
        "rhs batch stride",
        "output batch stride",
    ];
    if partial {
        head.push("") + output.push("partial tile id") + tail
    } else {
        head + output + tail
    }
}

/// The arguments of the writer of a core.
pub open spec fn writer_words(
    p: Plan,
    row: int,
    col: int,
    core: CoreCoord,
    logical_mt: int,
    logical_nt: int,
    batches: BatchRange,
    partial: Option<usize>,
    rhs: OperandView,
    out: OperandView,
) -> Seq<u32> {
    convert::field_words(
        writer_values(p, row, col, core, logical_mt, logical_nt, batches, partial),
    ) + view_words(rhs) + view_words(out)
}

/// Why the writer of a core cannot get its arguments.
pub open spec fn writer_refusal(
    p: Plan,
    row: int,
    col: int,
    core: CoreCoord,
    logical_mt: int,
    logical_nt: int,
    batches: BatchRange,
    partial: Option<usize>,
) -> Option<error::Refusal> {
    convert::fields_refusal(
        writer_values(p, row, col, core, logical_mt, logical_nt, batches, partial),
        writer_names(partial is Some),
    )
}

fn push_all(out: &mut Vec<usize>, names: &mut Vec<&'static str>, more: &Vec<usize>, labels: &Vec<&'static str>)
    ensures
        final(out)@ == old(out)@ + more@,
        final(names)@ == old(names)@ + labels@,
{
    for i in 0..more.len()
        invariant
            out@ == old(out)@ + more@.take(i as int),
            names@ == old(names)@,
    {
        out.push(more[i]);
        assert(out@ =~= old(out)@ + more@.take(i + 1));
    }
    assert(more@.take(more@.len() as int) =~= more@);
    for i in 0..labels.len()
        invariant
            names@ == old(names)@ + labels@.take(i as int),
            out@ == old(out)@ + more@,
    {
        names.push(labels[i]);
        assert(names@ =~= old(names)@ + labels@.take(i + 1));
    }
    assert(labels@.take(labels@.len() as int) =~= labels@);
}

/// Computes the arguments of the writer of a core.
#[verifier::rlimit(40)]
pub fn writer_args(
    p: &MatmulPlan,
    grid: &Vec<Vec<CoreCoord>>,
    row_index: usize,
    col_index: usize,
    core: CoreCoord,
    logical_mt: usize,
    logical_nt: usize,
    batches: BatchRange,
    rhs_view: &MatmulOperandView,
    output_view: &MatmulOperandView,
    partial: Option<usize>,
) -> (r: Result<Vec<u32>, Error>)
    requires
        sound(p@),
        plan::nested(grid@) == grid_of(p@),
        col_index < grid@[0]@.len(),
        row_index * p.per_core_m <= p.mt,
        col_index * p.per_core_n <= p.nt,
        stride_limits(p@, logical_mt as int, logical_nt as int),
    ensures
        match r {
            Ok(words) => {
                &&& writer_refusal(
                    p@,
                    row_index as int,
                    col_index as int,
                    core,
                    logical_mt as int,
                    logical_nt as int,
                    batches,
                    partial,
                ) is None
                &&& words@ == writer_words(
                    p@,
                    row_index as int,
                    col_index as int,
                    core,
                    logical_mt as int,
                    logical_nt as int,
                    batches,
                    partial,
                    rhs_view@,
                    output_view@,
                )
            },
            Err(e) => writer_refusal(
                p@,
                row_index as int,
                col_index as int,
                core,
                logical_mt as int,
                logical_nt as int,
                batches,
                partial,
            ) == Some(e@),
        },
{
    let direct: bool = p.direct_grid.is_some();
    let height: usize = p.rows.len();
    let rect: [usize; 5] = if direct || height <= 1 {
        [0, 0, 0, 0, 0]
    } else {
        [
            core.x as usize,
            p.rows[height - 1] as usize,
            core.x as usize,
            p.rows[1] as usize,
            height - 1,
        ]
    };
    assert(rect@ =~= column_rect(p@, core));
    assert(grid_of(p@)[0] == grid@[0]@);
    let sender: CoreCoord = if direct {
        core
    } else {
        grid[0][col_index]
    };
    proof {
        let rm = row_index * p.per_core_m;
        assert(rm >= 0) by (nonlinear_arith)
            requires
                rm == row_index * p.per_core_m,
                row_index >= 0,
                p.per_core_m >= 0,
        ;
        assert(0 <= rm * p.nt <= p.mt * p.nt) by (nonlinear_arith)
            requires
                0 <= rm <= p.mt,
                p.nt >= 0,
        ;
        assert(col_index * p.per_core_n >= 0) by (nonlinear_arith);
        assert(0 <= p.in0_block_w * logical_nt <= 64 * logical_nt) by (nonlinear_arith)
            requires
                1 <= p.in0_block_w <= 64,
                logical_nt >= 0,
        ;
        assert(0 <= p.out_subblock_h * p.nt <= 8 * p.nt) by (nonlinear_arith)
            requires
                1 <= p.out_subblock_h <= 8,
                p.nt >= 0,
        ;
    }
    let column_start: usize = col_index * p.per_core_n;
    let out_start: usize = row_index * p.per_core_m * p.nt + column_start;
    let mut values: Vec<usize> = vec![
        0,
        column_start,
        1,
        logical_nt,
        p.in0_block_w * logical_nt,
        p.per_core_n,
        p.in0_block_w,
        p.in1_block_num_tiles(),
        p.num_blocks(),
        rect[0],
        rect[1],
        rect[2],
        rect[3],
        rect[4],
        sender.x as usize,
        sender.y as usize,
        2,
        3,
        0,
    ];
    let mut names: Vec<&'static str> = vec![
        "",
        "rhs block offset",
        "",
        "rhs row stride",
        "rhs block advance",
        "rhs block width",
        "rhs block height",
        "rhs block tiles",
        "num blocks",
        "",
        "",
        "",
        "",
        "",
        "",
        "",
        "",
        "",
        "",
    ];
    if partial.is_some() {
        values.push(0);
        names.push("");
    }
    let mut output: Vec<usize> = vec![
        out_start,
        1,
        p.nt,
        p.out_subblock_w,
        p.out_subblock_h * p.nt,
        p.out_subblock_w,
        p.out_subblock_h,
        p.out_subblock_num_tiles(),
        p.in1_num_subblocks(),
        p.in0_num_subblocks(),
        logical_mt,
        logical_nt,
        0,
    ];
    let mut output_names: Vec<&'static str> = vec![
        "output tile offset",
        "",
        "output row stride",
        "output next subblock w",
        "output next subblock h",
        "output subblock width",
        "output subblock height",
        "output subblock tiles",
        "output num subblocks w",
        "output num subblocks h",
        "logical M tiles",
        "logical N tiles",
        "",
    ];
    if let Some(id) = partial {
        output.push(id);
        output_names.push("partial tile id");
    }
    let tail: Vec<usize> = vec![
        batches.local,
        batches.start,
        batches.total,
        p.kt * logical_nt,
        logical_mt * logical_nt,
    ];
    let tail_names: Vec<&'static str> = vec![
        "local batch count",
        "batch start",
        "total batch count",
        "rhs batch stride",
        "output batch stride",
    ];
    push_all(&mut values, &mut names, &output, &output_names);
    push_all(&mut values, &mut names, &tail, &tail_names);
    assert(values@ =~= writer_values(
        p@,
        row_index as int,
        col_index as int,
        core,
        logical_mt as int,
        logical_nt as int,
        batches,
        partial,
    ));
    assert(names@ =~= writer_names(partial is Some));
    let mut args = convert::narrow_fields(&values, &names)?;
    append_view_args(&mut args, rhs_view);
    append_view_args(&mut args, output_view);
    Ok(args)
}

/// A planned multiplication with its operands.
pub struct Job {
    pub plan: Plan,
    pub logical_mt: int,
    pub logical_nt: int,
    pub batch_count: usize,
    pub lhs: OperandView,
    pub rhs: OperandView,
    pub out: OperandView,
    pub epilogue: MatmulEpilogueKind,
}

impl Job {
    /// Cores in each row of the grid.
    pub open spec fn width(self) -> int {
        grid_of(self.plan)[0].len() as int
    }

    /// Rows of cores in each group.
    pub open spec fn group_rows(self) -> int {
        grid_of(self.plan).len() as int / self.plan.batch_groups
    }

    /// The cores, row by row.
    pub open spec fn listed(self) -> Seq<CoreCoord> {
        Seq::new(
            grid_of(self.plan).len() * grid_of(self.plan)[0].len(),
            |j: int| grid_of(self.plan)[j / self.width()][j % self.width()],
        )
    }

    /// The row of the output that core `j` works on.
    pub open spec fn row(self, j: int) -> int {
        (j / self.width()) % self.group_rows()
    }

    pub open spec fn batches(self, j: int) -> BatchRange {
        BatchRange {
            local: self.plan.batches_per_group as usize,
            start: (((j / self.width()) / self.group_rows()) * self.plan.batches_per_group)
                as usize,
            total: self.batch_count,
        }
    }

    pub open spec fn partial(self, j: int) -> Option<usize> {
        match self.epilogue {
            MatmulEpilogueKind::Store => None,
            MatmulEpilogueKind::Top1 => Some(j as usize),
        }
    }

    /// The arguments of core `j`.
    pub open spec fn args(self) -> spec_fn(int) -> CoreArgs {
        |j: int|
            (
                writer_words(
                    self.plan,
                    self.row(j),
                    j % self.width(),
                    self.listed()[j],
                    self.logical_mt,
                    self.logical_nt,
                    self.batches(j),
                    self.partial(j),
                    self.rhs,
                    self.out,
                ),
                reader_words(
                    self.plan,
                    self.row(j),
                    self.listed()[j],
                    self.logical_mt,
                    self.batches(j),
                    self.lhs,
                ),
                Seq::<u32>::empty(),
            )
    }

    /// Why core `j` cannot get its arguments.
    pub open spec fn checks(self) -> spec_fn(int) -> Option<error::Refusal> {
        |j: int|
            {
                let core = self.listed()[j];
                let reader = reader_refusal(
                    self.plan,
                    self.row(j),
                    core,
                    self.logical_mt,
                    self.batches(j),
                );
                let writer = writer_refusal(
                    self.plan,
                    self.row(j),
                    j % self.width(),
                    core,
                    self.logical_mt,
                    self.logical_nt,
                    self.batches(j),
                    self.partial(j),
                );
                if reader is Some {
                    reader
                } else if writer is Some {
                    writer
                } else {
                    lowering::repeat_checks(self.listed())(j)
                }
            }
    }

    /// Why the cores cannot get their arguments.
    pub open spec fn refusal(self) -> Option<error::Refusal> {
        error::first_refusal(0, self.listed().len() as int, self.checks())
    }

    pub open spec fn dynamic(self) -> DynamicArgs {
        DynamicArgs {
            writer: match self.epilogue {
                MatmulEpilogueKind::Store => seq![0usize, 18usize],
                MatmulEpilogueKind::Top1 => seq![0usize, 18usize, 19usize],
            },
            reader: seq![0usize],
            compute: Seq::empty(),
        }
    }
}

proof fn lemma_word_counts(job: Job, j: int)
    requires
        job.lhs.shape.len() == 8,
        job.lhs.batch_dims.len() == 8,
        job.lhs.row_dims.len() == 8,
        job.lhs.col_dims.len() == 8,
        job.rhs.shape.len() == 8,
        job.rhs.batch_dims.len() == 8,
        job.rhs.row_dims.len() == 8,
        job.rhs.col_dims.len() == 8,
        job.out.shape.len() == 8,
        job.out.batch_dims.len() == 8,
        job.out.row_dims.len() == 8,
        job.out.col_dims.len() == 8,
    ensures
        job.args()(j).0.len() == (if job.epilogue == MatmulEpilogueKind::Top1 {
            121int
        } else {
            119int
        }),
        job.args()(j).1.len() == 69,
        job.args()(j).2.len() == 0,
{
}

/// Computes and packs the arguments of all cores.
#[verifier::rlimit(60)]
pub fn lower_runtime_args(
    p: &MatmulPlan,
    logical_mt: usize,
    logical_nt: usize,
    batch_count: usize,
    lhs_view: &MatmulOperandView,
    rhs_view: &MatmulOperandView,
    output_view: &MatmulOperandView,
    epilogue: MatmulEpilogueKind,
) -> (r: Result<RuntimeArgs, Error>)
    requires
        sound(p@),
        stride_limits(p@, logical_mt as int, logical_nt as int),
        p.batch_groups * p.batches_per_group <= usize::MAX,
    ensures
        ({
            let job = Job {
                plan: p@,
                logical_mt: logical_mt as int,
                logical_nt: logical_nt as int,
                batch_count,
                lhs: lhs_view@,
                rhs: rhs_view@,
                out: output_view@,
                epilogue,
            };
            match r {
                Ok(args) => {
                    &&& job.refusal() is None
                    &&& lowering::assigns(args, job.listed(), job.args(), 4, job.dynamic())
                },
                Err(e) => job.refusal() == Some(e@),
            }
        }),
{
    let ghost job = Job {
        plan: p@,
        logical_mt: logical_mt as int,
        logical_nt: logical_nt as int,
        batch_count,
        lhs: lhs_view@,
        rhs: rhs_view@,
        out: output_view@,
        epilogue,
    };
    let grid = plan_grid(p);
    let ghost g = grid_of(p@);
    let top1: bool = epilogue == MatmulEpilogueKind::Top1;
    let writer_dynamic: Vec<usize> = if top1 {
        vec![0usize, 18usize, 19usize]
    } else {
        vec![0usize, 18usize]
    };
    let reader_dynamic: Vec<usize> = vec![0usize];
    let none: Vec<usize> = Vec::new();
    assert(writer_dynamic@ =~= job.dynamic().writer);
    assert(reader_dynamic@ =~= job.dynamic().reader);
    assert(none@ =~= job.dynamic().compute);
    let mut builder = RuntimeArgsBuilder::new(4, writer_dynamic, reader_dynamic, none);
    let height: usize = grid.len();
    assert(g[0] == grid@[0]@);
    let width: usize = grid[0].len();
    let group_rows: usize = height / p.batch_groups;
    let ghost listed = job.listed();
    let ghost w = width as int;
    assert(listed.take(0) =~= Seq::empty());
    proof {
        lemma_group_rows(p@);
        assert(0 * w == 0);
    }
    for row in 0..height
        invariant
            sound(p@),
            stride_limits(p@, logical_mt as int, logical_nt as int),
            p.batch_groups * p.batches_per_group <= usize::MAX,
            job == (Job {
                plan: p@,
                logical_mt: logical_mt as int,
                logical_nt: logical_nt as int,
                batch_count,
                lhs: lhs_view@,
                rhs: rhs_view@,
                out: output_view@,
                epilogue,
            }),
            g == grid_of(p@),
            plan::nested(grid@) == g,
            height == g.len(),
            w == width == g[0].len(),
            width > 0,
            height * width <= usize::MAX,
            group_rows == job.group_rows(),
            group_rows >= 1,
            height == group_rows * p.batch_groups,
            listed == job.listed(),
            top1 == (epilogue == MatmulEpilogueKind::Top1),
            lowering::collected(builder, listed, job.args(), row * w),
            builder.semaphores == 4,
            builder.writer_dynamic_indices@ == job.dynamic().writer,
            builder.reader_dynamic_indices@ == job.dynamic().reader,
            builder.compute_dynamic_indices@ == job.dynamic().compute,
            forall|j: int| 0 <= j < row * w ==> #[trigger] job.checks()(j) is None,
    {
        let row_index: usize = row % group_rows;
        let group: usize = row / group_rows;
        proof {
            lemma_row_bounds(p@, row as int, group_rows as int);
        }
        let batches = BatchRange {
            local: p.batches_per_group,
            start: group * p.batches_per_group,
            total: batch_count,
        };
        assert(g[row as int] == grid@[row as int]@);
        assert(g[row as int].len() == w);
        for col in 0..width
            invariant
                sound(p@),
                stride_limits(p@, logical_mt as int, logical_nt as int),
                job == (Job {
                    plan: p@,
                    logical_mt: logical_mt as int,
                    logical_nt: logical_nt as int,
                    batch_count,
                    lhs: lhs_view@,
                    rhs: rhs_view@,
                    out: output_view@,
                    epilogue,
                }),
                g == grid_of(p@),
                plan::nested(grid@) == g,
                height == g.len(),
                w == width == g[0].len(),
                width > 0,
                0 <= row < height,
                height * width <= usize::MAX,
                group_rows == job.group_rows(),
                group_rows >= 1,
                row_index == row as int % group_rows as int,
                row_index < height,
                row_index * p.per_core_m <= p.mt,
                group == row as int / group_rows as int,
                batches == (BatchRange {
                    local: p.batches_per_group,
                    start: (group * p.batches_per_group) as usize,
                    total: batch_count,
                }),
                grid@[row as int]@ == g[row as int],
                g[row as int].len() == w,
                g[0] == grid@[0]@,
                listed == job.listed(),
                top1 == (epilogue == MatmulEpilogueKind::Top1),
                lowering::collected(builder, listed, job.args(), row * w + col),
                builder.semaphores == 4,
                builder.writer_dynamic_indices@ == job.dynamic().writer,
                builder.reader_dynamic_indices@ == job.dynamic().reader,
                builder.compute_dynamic_indices@ == job.dynamic().compute,
                forall|j: int| 0 <= j < row * w + col ==> #[trigger] job.checks()(j) is None,
        {
            let core: CoreCoord = grid[row][col];
            let ghost j = row * w + col;
            proof {
                layout::lemma_div_mod(row as int, w, col as int);
                layout::lemma_below(row as int, height as int, w, col as int);
                assert(listed.len() == height * w);
                assert(listed[j] == core);
                error::lemma_first_refusal_skip(0, j, listed.len() as int, job.checks());
                lemma_col_bounds(p@, col as int);
                assert(row * width <= row * width + col);
                assert(row * width >= 0) by (nonlinear_arith);
            }
            let partial: Option<usize> = if top1 {
                Some(row * width + col)
            } else {
                None
            };
            assert(partial == job.partial(j));
            assert(batches == job.batches(j));
            let reader = reader_args(
                p,
                &grid,
                row_index,
                core,
                logical_mt,
                batches,
                lhs_view,
            )?;
            let writer = writer_args(
                p,
                &grid,
                row_index,
                col,
                core,
                logical_mt,
                logical_nt,
                batches,
                rhs_view,
                output_view,
                partial,
            )?;
            let ghost before = builder;
            proof {
                assert(before.core_list@.contains(core) <==> listed.take(j).contains(core));
            }
            builder.add_core(core, writer, reader, Vec::new())?;
            proof {
                assert(job.args()(j).2 =~= Seq::<u32>::empty());
                lowering::lemma_collected_step(before, builder, listed, job.args(), j);
                assert(job.checks()(j) is None);
            }
        }
        assert(row * w + w == (row + 1) * w) by (nonlinear_arith);
    }
    proof {
        let n = listed.len() as int;
        assert(n == height * w);
        assert(n > 0) by (nonlinear_arith)
            requires
                n == height * w,
                height > 0,
                w > 0,
        ;
        error::lemma_first_refusal_none(0, n, job.checks());
        assert forall|j: int| 0 <= j < n implies (#[trigger] job.args()(j)).0.len() == job.args()(
            0,
        ).0.len() && job.args()(j).1.len() == job.args()(0).1.len() && job.args()(j).2.len()
            == job.args()(0).2.len() by {
            lemma_word_counts(job, j);
            lemma_word_counts(job, 0);
        }
        lowering::lemma_collected_done(builder, listed, job.args());
        lemma_word_counts(job, 0);
    }
    let ghost b = builder;
    let args = builder.build()?;
    proof {
        lowering::lemma_assigns(b, args, listed, job.args(), job.dynamic());
    }
    Ok(args)
}

proof fn lemma_group_rows(p: Plan)
    requires
        sound(p),
    ensures
        ({
            let rows = grid_of(p).len() as int / p.batch_groups;
            &&& rows >= 1
            &&& grid_of(p).len() == rows * p.batch_groups
        }),
{
    let h = grid_of(p).len() as int;
    let k = p.batch_groups;
    lemma_fundamental_div_mod(h, k);
    let rows = h / k;
    assert(h == rows * k) by (nonlinear_arith)
        requires
            h == k * rows + 0,
    ;
    assert(rows >= 1) by (nonlinear_arith)
        requires
            h == rows * k,
            h > 0,
            k >= 1,
    ;
}

proof fn lemma_row_bounds(p: Plan, row: int, rows: int)
    requires
        sound(p),
        rows == grid_of(p).len() as int / p.batch_groups,
        rows >= 1,
        grid_of(p).len() == rows * p.batch_groups,
        0 <= row < grid_of(p).len(),
        p.batches_per_group >= 0,
        p.batch_groups * p.batches_per_group <= usize::MAX,
    ensures
        0 <= row % rows < grid_of(p).len(),
        (row % rows) * p.per_core_m <= p.mt,
        0 <= (row / rows) * p.batches_per_group <= usize::MAX,
{
    let g = row / rows;
    let i = row % rows;
    let k = p.batch_groups;
    let m = p.per_core_m;
    let b = p.batches_per_group;
    lemma_fundamental_div_mod(row, rows);
    assert(rows <= rows * k) by (nonlinear_arith)
        requires
            rows >= 1,
            k >= 1,
    ;
    assert(i * m <= rows * m) by (nonlinear_arith)
        requires
            0 <= i < rows,
            m >= 1,
    ;
    assert(0 <= g < k) by (nonlinear_arith)
        requires
            row == rows * g + i,
            0 <= i < rows,
            0 <= row < rows * k,
            rows >= 1,
    ;
    assert(0 <= g * b <= k * b) by (nonlinear_arith)
        requires
            0 <= g < k,
            b >= 0,
    ;
}

proof fn lemma_col_bounds(p: Plan, col: int)
    requires
        sound(p),
        0 <= col < grid_of(p)[0].len(),
    ensures
        col * p.per_core_n <= p.nt,
{
    let w = grid_of(p)[0].len() as int;
    let n = p.per_core_n;
    assert(col * n <= w * n) by (nonlinear_arith)
        requires
            0 <= col < w,
            n >= 1,
    ;
}

/// The kernel sources of a multiplication.
#[derive(Debug)]
pub struct MatmulSources<'a> {
    pub reader_sender: &'a str,
    pub reader_recv: &'a str,
    pub writer_sender: &'a str,
    pub writer_recv: &'a str,
    pub top1_writer: &'a str,
    pub compute: &'a str,
}

fn replace_number(src: &str, token: &str, value: usize) -> (r: String)
    requires
        token@.len() > 0,
    ensures
        r@ == text::replaced(src@, token@, text::dec(value as int)),
{
    text::replace_text(src, token, text::decimal_usize(value).as_str())
}

/// The source of the compute kernel: a template with its sizes filled in.
pub open spec fn compute_text(template: Seq<char>, p: Plan) -> Seq<char> {
    let t1 = text::replaced(template, "@BATCH_COUNT@"@, text::dec(p.batches_per_group));
    let t2 = text::replaced(t1, "@IN0_BLOCK_W@"@, text::dec(p.in0_block_w));
    let t3 = text::replaced(
        t2,
        "@IN0_NUM_SUBBLOCKS@"@,
        text::dec(p.per_core_m / p.out_subblock_h),
    );
    let t4 = text::replaced(
        t3,
        "@IN0_BLOCK_NUM_TILES@"@,
        text::dec(p.per_core_m * p.in0_block_w),
    );
    let t5 = text::replaced(
        t4,
        "@IN0_SUBBLOCK_NUM_TILES@"@,
        text::dec(p.out_subblock_h * p.in0_block_w),
    );
    let t6 = text::replaced(
        t5,
        "@IN1_NUM_SUBBLOCKS@"@,
        text::dec(p.per_core_n / p.out_subblock_w),
    );
    let t7 = text::replaced(
        t6,
        "@IN1_BLOCK_NUM_TILES@"@,
        text::dec(p.per_core_n * p.in0_block_w),
    );
    let t8 = text::replaced(t7, "@IN1_PER_CORE_W@"@, text::dec(p.per_core_n));
    let t9 = text::replaced(t8, "@NUM_BLOCKS@"@, text::dec(p.kt / p.in0_block_w));
    let t10 = text::replaced(t9, "@OUT_SUBBLOCK_H@"@, text::dec(p.out_subblock_h));
    let t11 = text::replaced(t10, "@OUT_SUBBLOCK_W@"@, text::dec(p.out_subblock_w));
    let t12 = text::replaced(
        t11,
        "@OUT_SUBBLOCK_NUM_TILES@"@,
        text::dec(p.out_subblock_h * p.out_subblock_w),
    );
    text::replaced(t12, "@OUT_BLOCK_NUM_TILES@"@, text::dec(p.per_core_m * p.per_core_n))
}

/// Fills the sizes of a plan into the template of the compute kernel.
pub fn compute_src(template: &str, p: &MatmulPlan) -> (r: String)
    requires
        sound(p@),
    ensures
        r@ == compute_text(template@, p@),
{
    proof {
        reveal_strlit("@BATCH_COUNT@");
        reveal_strlit("@IN0_BLOCK_W@");
        reveal_strlit("@IN0_NUM_SUBBLOCKS@");
        reveal_strlit("@IN0_BLOCK_NUM_TILES@");
        reveal_strlit("@IN0_SUBBLOCK_NUM_TILES@");
        reveal_strlit("@IN1_NUM_SUBBLOCKS@");
        reveal_strlit("@IN1_BLOCK_NUM_TILES@");
        reveal_strlit("@IN1_PER_CORE_W@");
        reveal_strlit("@NUM_BLOCKS@");
        reveal_strlit("@OUT_SUBBLOCK_H@");
        reveal_strlit("@OUT_SUBBLOCK_W@");
        reveal_strlit("@OUT_SUBBLOCK_NUM_TILES@");
        reveal_strlit("@OUT_BLOCK_NUM_TILES@");
    }
    let t1 = replace_number(template, "@BATCH_COUNT@", p.batches_per_group);
    let t2 = replace_number(t1.as_str(), "@IN0_BLOCK_W@", p.in0_block_w);
    let t3 = replace_number(t2.as_str(), "@IN0_NUM_SUBBLOCKS@", p.in0_num_subblocks());
    let t4 = replace_number(t3.as_str(), "@IN0_BLOCK_NUM_TILES@", p.in0_block_num_tiles());
    let t5 = replace_number(t4.as_str(), "@IN0_SUBBLOCK_NUM_TILES@", p.in0_subblock_num_tiles());
    let t6 = replace_number(t5.as_str(), "@IN1_NUM_SUBBLOCKS@", p.in1_num_subblocks());
    let t7 = replace_number(t6.as_str(), "@IN1_BLOCK_NUM_TILES@", p.in1_block_num_tiles());
    let t8 = replace_number(t7.as_str(), "@IN1_PER_CORE_W@", p.per_core_n);
    let t9 = replace_number(t8.as_str(), "@NUM_BLOCKS@", p.num_blocks());
    let t10 = replace_number(t9.as_str(), "@OUT_SUBBLOCK_H@", p.out_subblock_h);
    let t11 = replace_number(t10.as_str(), "@OUT_SUBBLOCK_W@", p.out_subblock_w);
    let t12 = replace_number(
        t11.as_str(),
        "@OUT_SUBBLOCK_NUM_TILES@",
        p.out_subblock_num_tiles(),
    );
    replace_number(t12.as_str(), "@OUT_BLOCK_NUM_TILES@", p.out_block_num_tiles())
}

/// The circular buffers of a multiplication.
pub open spec fn matmul_cbs(p: Plan, dtype: DType, epilogue: MatmulEpilogueKind) -> Seq<KernelCb> {
    let out_tiles = (p.per_core_m * p.per_core_n) as usize;
    let b = DType::Float16B;
    let base = seq![
        KernelCb::sized(0, b, (2 * p.per_core_m * p.in0_block_w) as usize),
        KernelCb::sized(1, b, (2 * p.per_core_n * p.in0_block_w) as usize),
        KernelCb::sized(2, b, 1),
        KernelCb::sized(3, b, 1),
        KernelCb::sized(4, dtype, 1),
        KernelCb::sized(16, dtype, out_tiles),
        KernelCb::sized(24, dtype, out_tiles),
    ];
    match epilogue {
        MatmulEpilogueKind::Store => base,
        MatmulEpilogueKind::Top1 => base.push(KernelCb::sized(17, DType::Int32, 1)),
    }
}

/// The name of a multiplication program.
pub open spec fn matmul_name(p: Plan, dtype: DType, epilogue: MatmulEpilogueKind) -> Seq<char> {
    let infix = match epilogue {
        MatmulEpilogueKind::Store => ""@,
        MatmulEpilogueKind::Top1 => "_top1"@,
    };
    "matmul"@ + infix + "_bf16_"@ + dtype.shown() + "_"@ + text::dec(p.mt * 32) + "x"@ + text::dec(
        p.kt * 32,
    ) + "x"@ + text::dec(p.nt * 32)
}

/// Builds the program of a planned multiplication.
pub fn bf16_program(
    p: &MatmulPlan,
    logical_mt: usize,
    logical_nt: usize,
    batch_count: usize,
    lhs_view: &MatmulOperandView,
    rhs_view: &MatmulOperandView,
    output_view: &MatmulOperandView,
    math_fidelity: MathFidelity,
    output_dtype: DType,
    epilogue: MatmulEpilogueKind,
    sources: &MatmulSources<'_>,
) -> (r: Result<LoweredProgram, Error>)
    requires
        sound(p@),
        stride_limits(p@, logical_mt as int, logical_nt as int),
        p.batch_groups * p.batches_per_group <= usize::MAX,
        p.mt * 32 <= usize::MAX,
        p.kt * 32 <= usize::MAX,
        p.nt * 32 <= usize::MAX,
    ensures
        ({
            let job = Job {
                plan: p@,
                logical_mt: logical_mt as int,
                logical_nt: logical_nt as int,
                batch_count,
                lhs: lhs_view@,
                rhs: rhs_view@,
                out: output_view@,
                epilogue,
            };
            let top1 = epilogue == MatmulEpilogueKind::Top1;
            match r {
                Ok(program) => {
                    &&& job.refusal() is None
                    &&& lowering::assigns(
                        program.runtime_args,
                        job.listed(),
                        job.args(),
                        4,
                        job.dynamic(),
                    )
                    &&& program.reader_kernel@ == sources.reader_sender@
                    &&& program.reader_recv_kernel@ == sources.reader_recv@
                    &&& program.writer_kernel@ == if top1 {
                        sources.top1_writer@
                    } else {
                        sources.writer_sender@
                    }
                    &&& program.writer_recv_kernel@ == if top1 {
                        sources.top1_writer@
                    } else {
                        sources.writer_recv@
                    }
                    &&& program.compute_kernel@ == compute_text(sources.compute@, p@)
                    &&& program.name@ == matmul_name(p@, output_dtype, epilogue)
                    &&& program.compile@ == (lowering::Config {
                        cbs: matmul_cbs(p@, output_dtype, epilogue),
                        math_fidelity,
                        approx: false,
                        dst_accum_mode: true,
                        dst_full_sync: true,
                    })
                    &&& match program.grid {
                        Some((rows, cols)) => p.direct_grid is None && rows@ == p.rows@ && cols@
                            == p.cols@,
                        None => p.direct_grid is Some,
                    }
                },
                Err(e) => job.refusal() == Some(e@),
            }
        }),
{
    let b = DType::Float16B;
    let out_tiles: usize = p.out_block_num_tiles();
    let mut cbs: Vec<KernelCb> = Vec::new();
    cbs.push(KernelCb::new(0, b).with_tiles(p.cb0_pages()));
    cbs.push(KernelCb::new(1, b).with_tiles(p.cb1_pages()));
    cbs.push(KernelCb::new(2, b).with_tiles(1));
    cbs.push(KernelCb::new(3, b).with_tiles(1));
    cbs.push(KernelCb::new(4, output_dtype).with_tiles(1));
    cbs.push(KernelCb::new(16, output_dtype).with_tiles(out_tiles));
    cbs.push(KernelCb::new(24, output_dtype).with_tiles(out_tiles));
    let top1: bool = epilogue == MatmulEpilogueKind::Top1;
    if top1 {
        cbs.push(KernelCb::new(17, DType::Int32).with_tiles(1));
    }
    assert(cbs@ =~= matmul_cbs(p@, output_dtype, epilogue));
    let runtime_args = lower_runtime_args(
        p,
        logical_mt,
        logical_nt,
        batch_count,
        lhs_view,
        rhs_view,
        output_view,
        epilogue,
    )?;
    let writer: &str = if top1 {
        sources.top1_writer
    } else {
        sources.writer_sender
    };
    let writer_recv: &str = if top1 {
        sources.top1_writer
    } else {
        sources.writer_recv
    };
    let infix: &str = if top1 {
        "_top1"
    } else {
        ""
    };
    let name = text::cat7(
        "matmul",
        infix,
        "_bf16_",
        output_dtype.name(),
        "_",
        text::decimal_usize(p.mt * 32).as_str(),
        "x",
    ).concat(text::decimal_usize(p.kt * 32).as_str()).concat("x").concat(
        text::decimal_usize(p.nt * 32).as_str(),
    );
    let grid: Option<(Vec<u8>, Vec<u8>)> = if p.direct_grid.is_some() {
        None
    } else {
        Some((bytes::copy(p.rows.as_slice()), bytes::copy(p.cols.as_slice())))
    };
    Ok(
        LoweredProgram {
            reader_kernel: sources.reader_sender.to_owned(),
            compute_kernel: compute_src(sources.compute, p),
            writer_kernel: writer.to_owned(),
            reader_recv_kernel: sources.reader_recv.to_owned(),
            writer_recv_kernel: writer_recv.to_owned(),
            name,
            compile: CompileConfig {
                cbs,
                math_fidelity,
                approx: false,
                dst_accum_mode: true,
                dst_full_sync: true,
            },
            grid,
            runtime_args,
        },
    )
}

} // verus!
