//! How the rows of a reduction are dealt out over the cores.

use vstd::prelude::*;
use vstd::arithmetic::div_mod::*;
use crate::arith;
use crate::error;
use crate::error::Error;
use crate::kernels::kernel;
use crate::text;

verus! {

/// The numbers that the kernel is built for.
#[derive(Clone, Copy, Debug, Hash, PartialEq, Eq, Structural)]
pub struct ReduceKernelShape {
    pub reduce_dim: u32,
    pub reduce_count: u32,
    pub valid_last_width: u32,
    pub output_tiles: u32,
    pub inner_output_tiles: u32,
    pub output_tile_rows_per_prefix: u32,
    pub output_dim0: u32,
    pub output_dim1: u32,
}

/// What one core computes: groups of elements that are combined, and the output
/// tiles that hold the results.
#[derive(Clone, Copy, Debug, PartialEq, Eq, Structural)]
pub struct ReduceCoreRange {
    pub group_offset: u32,
    pub reduce_groups: u32,
    pub output_tile_offset: u32,
    pub output_tiles: u32,
}

impl ReduceKernelShape {
    /// Whether each output tile is one group.
    pub open spec fn flat(self) -> bool {
        self.output_dim0 == 1 && self.output_tile_rows_per_prefix == 1
    }
}

fn is_flat(s: ReduceKernelShape) -> (r: bool)
    ensures
        r == s.flat(),
{
    s.output_dim0 == 1 && s.output_tile_rows_per_prefix == 1
}

/// Why the work cannot be counted.
pub open spec fn partition_refusal(s: ReduceKernelShape) -> Option<error::Refusal> {
    if !s.flat() && s.inner_output_tiles == 0 {
        Some(error::invalid("inner output tile count must be nonzero"@))
    } else {
        None
    }
}

/// The number of pieces that are dealt out: output tiles, or rows of them.
pub open spec fn partitions(s: ReduceKernelShape) -> int {
    if s.flat() {
        s.output_tiles as int
    } else {
        s.output_tiles as int / s.inner_output_tiles as int
    }
}

pub fn reduce_partition_count(shape: ReduceKernelShape) -> (r: Result<u32, Error>)
    ensures
        match r {
            Ok(n) => partition_refusal(shape) is None && n == partitions(shape),
            Err(e) => partition_refusal(shape) == Some(e@),
        },
{
    if is_flat(shape) {
        Ok(shape.output_tiles)
    } else if shape.inner_output_tiles == 0 {
        Err(error::invalid_text("inner output tile count must be nonzero"))
    } else {
        Ok(shape.output_tiles / shape.inner_output_tiles)
    }
}

/// Why a product is refused: it is no 32-bit word.
pub open spec fn product_refusal(a: int, b: int, name: Seq<char>) -> Option<error::Refusal> {
    if a * b > u32::MAX {
        Some(error::invalid(name + " overflow: "@ + text::dec(a) + " * "@ + text::dec(b)))
    } else {
        None
    }
}

fn checked_mul_u32(a: u32, b: u32, name: &str) -> (r: Result<u32, Error>)
    ensures
        match r {
            Ok(p) => product_refusal(a as int, b as int, name@) is None && p == a * b,
            Err(e) => product_refusal(a as int, b as int, name@) == Some(e@),
        },
{
    match a.checked_mul(b) {
        Some(p) => Ok(p),
        None => Err(
            error::invalid_input(
                text::cat5(
                    name,
                    " overflow: ",
                    text::decimal_u32(a).as_str(),
                    " * ",
                    text::decimal_u32(b).as_str(),
                ),
            ),
        ),
    }
}

/// The number of output rows before a row of tiles. The last tiles of a matrix may
/// hold fewer rows.
pub open spec fn rows_before(s: ReduceKernelShape, tile_row: int) -> int {
    let per = s.output_tile_rows_per_prefix as int;
    (tile_row / per) * s.output_dim0 + arith::min2((tile_row % per) * 32, s.output_dim0 as int)
}

/// Why the rows before a row of tiles cannot be counted.
pub open spec fn rows_refusal(s: ReduceKernelShape, tile_row: int) -> Option<error::Refusal> {
    let per = s.output_tile_rows_per_prefix as int;
    let whole = product_refusal(
        tile_row / per,
        s.output_dim0 as int,
        "reduce prefix row offset"@,
    );
    let part = product_refusal(tile_row % per, 32, "output row offset"@);
    if per == 0 {
        Some(error::invalid("matrix reduce requires nonzero output tile rows per prefix"@))
    } else if whole is Some {
        whole
    } else if part is Some {
        part
    } else if rows_before(s, tile_row) > u32::MAX {
        Some(error::invalid("reduce output row offset overflow"@))
    } else {
        None
    }
}

pub fn output_rows_before_tile_row(shape: ReduceKernelShape, tile_row: u32) -> (r: Result<
    u32,
    Error,
>)
    ensures
        match r {
            Ok(n) => rows_refusal(shape, tile_row as int) is None && n == rows_before(
                shape,
                tile_row as int,
            ),
            Err(e) => rows_refusal(shape, tile_row as int) == Some(e@),
        },
{
    let per: u32 = shape.output_tile_rows_per_prefix;
    if per == 0 {
        return Err(
            error::invalid_text("matrix reduce requires nonzero output tile rows per prefix"),
        );
    }
    let whole: u32 = checked_mul_u32(
        tile_row / per,
        shape.output_dim0,
        "reduce prefix row offset",
    )?;
    let part: u32 = checked_mul_u32(tile_row % per, 32, "output row offset")?;
    let rest: u32 = if part < shape.output_dim0 {
        part
    } else {
        shape.output_dim0
    };
    match whole.checked_add(rest) {
        Some(n) => Ok(n),
        None => Err(error::invalid_text("reduce output row offset overflow")),
    }
}

/// Why the range of a core is refused.
pub open spec fn range_refusal(s: ReduceKernelShape, offset: int, count: int) -> Option<
    error::Refusal,
> {
    let inner = s.inner_output_tiles as int;
    let before = rows_before(s, offset);
    let rows = rows_before(s, offset + count) - before;
    if s.flat() {
        None
    } else if product_refusal(offset, inner, "output tile offset"@) is Some {
        product_refusal(offset, inner, "output tile offset"@)
    } else if product_refusal(count, inner, "output tiles"@) is Some {
        product_refusal(count, inner, "output tiles"@)
    } else if rows_refusal(s, offset) is Some {
        rows_refusal(s, offset)
    } else if product_refusal(before, inner, "reduce group offset"@) is Some {
        product_refusal(before, inner, "reduce group offset"@)
    } else if offset + count > u32::MAX {
        Some(error::invalid("reduce tile row range overflow"@))
    } else if rows_refusal(s, offset + count) is Some {
        rows_refusal(s, offset + count)
    } else {
        product_refusal(rows, inner, "reduce group count"@)
    }
}

/// What a core computes that is dealt `count` pieces from `offset` on.
pub open spec fn range_of(s: ReduceKernelShape, offset: int, count: int) -> ReduceCoreRange {
    let inner = s.inner_output_tiles as int;
    let before = rows_before(s, offset);
    let rows = rows_before(s, offset + count) - before;
    if s.flat() {
        ReduceCoreRange {
            group_offset: offset as u32,
            reduce_groups: count as u32,
            output_tile_offset: offset as u32,
            output_tiles: count as u32,
        }
    } else {
        ReduceCoreRange {
            group_offset: (before * inner) as u32,
            reduce_groups: (rows * inner) as u32,
            output_tile_offset: (offset * inner) as u32,
            output_tiles: (count * inner) as u32,
        }
    }
}

/// There are no fewer rows before a later row of tiles.
pub proof fn lemma_rows_grow(s: ReduceKernelShape, a: int, b: int)
    requires
        s.output_tile_rows_per_prefix > 0,
        0 <= a <= b,
    ensures
        0 <= rows_before(s, a) <= rows_before(s, b),
{
    let per = s.output_tile_rows_per_prefix as int;
    let dim = s.output_dim0 as int;
    lemma_fundamental_div_mod(a, per);
    lemma_fundamental_div_mod(b, per);
    lemma_mod_bound(a, per);
    lemma_mod_bound(b, per);
    lemma_div_pos_is_pos(a, per);
    let (p, q) = (a / per, b / per);
    lemma_div_is_ordered(a, b, per);
    assert(p * dim >= 0) by (nonlinear_arith)
        requires
            p >= 0,
            dim >= 0,
    ;
    if p == q {
        assert(a % per <= b % per);
    } else {
        assert(q * dim >= p * dim + dim) by (nonlinear_arith)
            requires
                q >= p + 1,
                dim >= 0,
        ;
    }
}

fn reduce_matrix_core_range(shape: ReduceKernelShape, offset: u32, count: u32) -> (r: Result<
    ReduceCoreRange,
    Error,
>)
    requires
        !shape.flat(),
    ensures
        match r {
            Ok(x) => range_refusal(shape, offset as int, count as int) is None && x == range_of(
                shape,
                offset as int,
                count as int,
            ),
            Err(e) => range_refusal(shape, offset as int, count as int) == Some(e@),
        },
{
    let inner: u32 = shape.inner_output_tiles;
    let output_tile_offset: u32 = checked_mul_u32(offset, inner, "output tile offset")?;
    let output_tiles: u32 = checked_mul_u32(count, inner, "output tiles")?;
    let before: u32 = output_rows_before_tile_row(shape, offset)?;
    let group_offset: u32 = checked_mul_u32(before, inner, "reduce group offset")?;
    let end: u32 = match offset.checked_add(count) {
        Some(e) => e,
        None => {
            return Err(error::invalid_text("reduce tile row range overflow"));
        },
    };
    let after: u32 = output_rows_before_tile_row(shape, end)?;
    proof {
        lemma_rows_grow(shape, offset as int, end as int);
    }
    let rows: u32 = after - before;
    let reduce_groups: u32 = checked_mul_u32(rows, inner, "reduce group count")?;
    Ok(ReduceCoreRange { group_offset, reduce_groups, output_tile_offset, output_tiles })
}

pub fn reduce_core_range(shape: ReduceKernelShape, offset: u32, count: u32) -> (r: Result<
    ReduceCoreRange,
    Error,
>)
    ensures
        match r {
            Ok(x) => range_refusal(shape, offset as int, count as int) is None && x == range_of(
                shape,
                offset as int,
                count as int,
            ),
            Err(e) => range_refusal(shape, offset as int, count as int) == Some(e@),
        },
{
    if is_flat(shape) {
        Ok(
            ReduceCoreRange {
                group_offset: offset,
                reduce_groups: count,
                output_tile_offset: offset,
                output_tiles: count,
            },
        )
    } else {
        reduce_matrix_core_range(shape, offset, count)
    }
}

/// The range of core `i` of `n`.
pub open spec fn core_range(s: ReduceKernelShape, i: int, n: int) -> ReduceCoreRange {
    range_of(
        s,
        kernel::split_offset(partitions(s), i, n),
        kernel::split_count(partitions(s), i, n),
    )
}

pub open spec fn range_checks(s: ReduceKernelShape, n: int) -> spec_fn(int) -> Option<
    error::Refusal,
> {
    |i: int|
        range_refusal(
            s,
            kernel::split_offset(partitions(s), i, n),
            kernel::split_count(partitions(s), i, n),
        )
}

/// Why the ranges of the cores are refused.
pub open spec fn ranges_refusal(s: ReduceKernelShape, n: int) -> Option<error::Refusal> {
    if partition_refusal(s) is Some {
        partition_refusal(s)
    } else {
        error::first_refusal(0, n, range_checks(s, n))
    }
}

/// The ranges of `n` cores.
pub open spec fn ranges_of(s: ReduceKernelShape, n: int) -> Seq<ReduceCoreRange> {
    Seq::new(n as nat, |i: int| core_range(s, i, n))
}

pub fn reduce_core_ranges(shape: ReduceKernelShape, core_count: usize) -> (r: Result<
    Vec<ReduceCoreRange>,
    Error,
>)
    ensures
        match r {
            Ok(v) => ranges_refusal(shape, core_count as int) is None && v@ == ranges_of(
                shape,
                core_count as int,
            ),
            Err(e) => ranges_refusal(shape, core_count as int) == Some(e@),
        },
{
    let pieces: u32 = reduce_partition_count(shape)?;
    let ghost n = core_count as int;
    let ghost checks = range_checks(shape, n);
    let mut out: Vec<ReduceCoreRange> = Vec::new();
    for i in 0..core_count
        invariant
            n == core_count,
            partition_refusal(shape) is None,
            pieces == partitions(shape),
            checks == range_checks(shape, n),
            out@ == ranges_of(shape, n).take(i as int),
            forall|j: int| 0 <= j < i ==> #[trigger] checks(j) is None,
    {
        proof {
            error::lemma_first_refusal_skip(0, i as int, n, checks);
        }
        let (offset, count) = match kernel::split_tile_range(pieces, i, core_count) {
            Ok(x) => x,
            Err(e) => {
                return Err(e);
            },
        };
        assert(checks(i as int) == range_refusal(shape, offset as int, count as int));
        let range = reduce_core_range(shape, offset, count)?;
        out.push(range);
        assert(out@ =~= ranges_of(shape, n).take(i + 1));
    }
    proof {
        error::lemma_first_refusal_none(0, n, checks);
    }
    assert(out@ =~= ranges_of(shape, n));
    Ok(out)
}

/// The ranges of the cores follow each other: the first starts at the first group
/// and at the first tile, and each next one where the one before it ends.
pub proof fn lemma_ranges_follow(s: ReduceKernelShape, i: int, n: int)
    requires
        ranges_refusal(s, n) is None,
        0 <= i,
        i + 1 < n,
    ensures
        core_range(s, 0, n).group_offset == 0,
        core_range(s, 0, n).output_tile_offset == 0,
        core_range(s, i + 1, n).group_offset == core_range(s, i, n).group_offset + core_range(
            s,
            i,
            n,
        ).reduce_groups,
        core_range(s, i + 1, n).output_tile_offset == core_range(s, i, n).output_tile_offset
            + core_range(s, i, n).output_tiles,
{
    let t = partitions(s);
    assert(t >= 0) by {
        if !s.flat() {
            lemma_div_pos_is_pos(s.output_tiles as int, s.inner_output_tiles as int);
        }
    }
    kernel::lemma_split_partitions(t, i, n);
    kernel::lemma_split_partitions(t, i + 1, n);
    kernel::lemma_split_partitions(t, 0, n);
    let checks = range_checks(s, n);
    error::lemma_first_refusal_none(0, n, checks);
    assert(checks(0) is None);
    assert(checks(i) is None);
    assert(checks(i + 1) is None);
    let (a, c) = (kernel::split_offset(t, i, n), kernel::split_count(t, i, n));
    let b = kernel::split_offset(t, i + 1, n);
    assert(b == a + c);
    if s.flat() {
        assert(t <= u32::MAX);
    } else {
        let inner = s.inner_output_tiles as int;
        let per = s.output_tile_rows_per_prefix as int;
        lemma_rows_grow(s, a, b);
        assert(per > 0);
        lemma_div_of0(per);
        lemma_small_mod(0, per as nat);
        assert(rows_before(s, 0) == 0);
        let (x, y) = (rows_before(s, a), rows_before(s, b));
        assert(y * inner == x * inner + (y - x) * inner) by (nonlinear_arith);
        assert(b * inner == a * inner + c * inner) by (nonlinear_arith)
            requires
                b == a + c,
        ;
        assert(x * inner >= 0 && (y - x) * inner >= 0 && a * inner >= 0 && c * inner >= 0)
            by (nonlinear_arith)
            requires
                x >= 0,
                y >= x,
                inner >= 0,
                a >= 0,
                c >= 0,
        ;
    }
}

} // verus!
