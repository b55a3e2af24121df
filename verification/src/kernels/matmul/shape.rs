//! Operands of a general dot product seen as stacks of matrices.

use vstd::prelude::*;
use crate::arith;
use crate::convert;
use crate::dram;
use crate::error;
use crate::error::Error;
use crate::kernels::dims;
use crate::text;

verus! {

/// Largest rank of an operand.
pub const MAX_RANK: usize = 8;

/// How the tiles of an operand are found.
#[derive(Clone, Copy, Debug, Hash, PartialEq, Eq, Structural)]
pub enum MatmulViewKind {
    Contiguous,
    Generic,
    TiledIndexMap,
}

impl MatmulViewKind {
    /// The number by which the kernels know the kind.
    pub open spec fn code(self) -> u32 {
        match self {
            MatmulViewKind::Contiguous => 0,
            MatmulViewKind::Generic => 2,
            MatmulViewKind::TiledIndexMap => 4,
        }
    }

    pub fn runtime_value(self) -> (r: u32)
        ensures
            r == self.code(),
    {
        match self {
            MatmulViewKind::Contiguous => 0,
            MatmulViewKind::Generic => 2,
            MatmulViewKind::TiledIndexMap => 4,
        }
    }
}

/// An operand as a stack of matrices.
#[derive(Clone, Copy, Debug, Hash, PartialEq, Eq)]
pub struct MatmulOperandView {
    pub kind: MatmulViewKind,
    pub rank: u32,
    pub batch_rank: u32,
    pub row_rank: u32,
    pub col_rank: u32,
    pub logical_rows: u32,
    pub logical_cols: u32,
    pub tile_rows: u32,
    pub tiles_per_row: u32,
    pub shape: [u32; 8],
    pub batch_dims: [u32; 8],
    pub row_dims: [u32; 8],
    pub col_dims: [u32; 8],
}

/// What a contract says of an operand view.
pub struct OperandView {
    pub kind: MatmulViewKind,
    pub rank: u32,
    pub batch_rank: u32,
    pub row_rank: u32,
    pub col_rank: u32,
    pub logical_rows: u32,
    pub logical_cols: u32,
    pub tile_rows: u32,
    pub tiles_per_row: u32,
    pub shape: Seq<u32>,
    pub batch_dims: Seq<u32>,
    pub row_dims: Seq<u32>,
    pub col_dims: Seq<u32>,
}

impl View for MatmulOperandView {
    type V = OperandView;

    open spec fn view(&self) -> OperandView {
        OperandView {
            kind: self.kind,
            rank: self.rank,
            batch_rank: self.batch_rank,
            row_rank: self.row_rank,
            col_rank: self.col_rank,
            logical_rows: self.logical_rows,
            logical_cols: self.logical_cols,
            tile_rows: self.tile_rows,
            tiles_per_row: self.tiles_per_row,
            shape: self.shape@,
            batch_dims: self.batch_dims@,
            row_dims: self.row_dims@,
            col_dims: self.col_dims@,
        }
    }
}

/// Whether the tiles of each matrix follow each other: the batch dimensions
/// lead, then comes one row and one column dimension.
pub open spec fn is_contiguous(
    rank: int,
    batch: Seq<usize>,
    row: Seq<usize>,
    col: Seq<usize>,
) -> bool {
    &&& batch == Seq::new(batch.len(), |i: int| i as usize)
    &&& rank == batch.len() + 2
    &&& row == seq![(rank - 2) as usize]
    &&& col == seq![(rank - 1) as usize]
}

/// Whether each output column maps to one source tile: the row dimension is the
/// innermost one, and the column dimension lies before the innermost two.
pub open spec fn is_index_map(
    rank: int,
    batch: Seq<usize>,
    row: Seq<usize>,
    col: Seq<usize>,
) -> bool {
    &&& rank >= 3
    &&& row == seq![(rank - 1) as usize]
    &&& col.len() == 1
    &&& col[0] < rank - 2
    &&& batch == dims::other_dims(seq![col[0], row[0]], rank)
}

pub open spec fn view_kind(
    rank: int,
    batch: Seq<usize>,
    row: Seq<usize>,
    col: Seq<usize>,
) -> MatmulViewKind {
    if is_contiguous(rank, batch, row, col) {
        MatmulViewKind::Contiguous
    } else if is_index_map(rank, batch, row, col) {
        MatmulViewKind::TiledIndexMap
    } else {
        MatmulViewKind::Generic
    }
}

fn counts_up(v: &[usize]) -> (r: bool)
    ensures
        r == (v@ == Seq::new(v@.len(), |i: int| i as usize)),
{
    let ghost want = Seq::new(v@.len(), |i: int| i as usize);
    for i in 0..v.len()
        invariant
            want == Seq::new(v@.len(), |i: int| i as usize),
            forall|j: int| 0 <= j < i ==> v@[j] == want[j],
    {
        if v[i] != i {
            assert(v@[i as int] != want[i as int]);
            return false;
        }
    }
    assert(v@ =~= want);
    true
}

fn is_single(v: &[usize], x: usize) -> (r: bool)
    ensures
        r == (v@ == seq![x]),
{
    let r: bool = v.len() == 1 && v[0] == x;
    proof {
        if r {
            assert(v@ =~= seq![x]);
        }
    }
    r
}

pub fn operand_view_kind(rank: usize, batch_dims: &[usize], row_dims: &[usize], col_dims: &[usize]) -> (r:
    MatmulViewKind)
    ensures
        r == view_kind(rank as int, batch_dims@, row_dims@, col_dims@),
{
    if rank >= 2 && counts_up(batch_dims) && rank - 2 == batch_dims.len() && is_single(
        row_dims,
        rank - 2,
    ) && is_single(col_dims, rank - 1) {
        MatmulViewKind::Contiguous
    } else if is_tiled_index_map_view(rank, batch_dims, row_dims, col_dims) {
        MatmulViewKind::TiledIndexMap
    } else {
        MatmulViewKind::Generic
    }
}

fn is_tiled_index_map_view(
    rank: usize,
    batch_dims: &[usize],
    row_dims: &[usize],
    col_dims: &[usize],
) -> (r: bool)
    ensures
        r == is_index_map(rank as int, batch_dims@, row_dims@, col_dims@),
{
    if rank < 3 || !is_single(row_dims, rank - 1) || col_dims.len() != 1 || col_dims[0] >= rank
        - 2 {
        return false;
    }
    let mut used: Vec<usize> = Vec::new();
    used.push(col_dims[0]);
    used.push(row_dims[0]);
    assert(used@ =~= seq![col_dims@[0], row_dims@[0]]);
    let rest = dims::find_other_dims(used.as_slice(), rank);
    arith::same_usizes(batch_dims, rest.as_slice())
}

/// Why a list does not fit into eight 32-bit words.
pub open spec fn padded_refusal(values: Seq<usize>, name: Seq<char>) -> Option<error::Refusal> {
    if values.len() > 8 {
        Some(
            error::invalid(
                name + " rank "@ + text::dec(values.len() as int) + " exceeds maximum rank 8"@,
            ),
        )
    } else {
        error::first_refusal(0, values.len() as int, dims::narrow_checks(values, name))
    }
}

fn padded_u32_array(values: &[usize], name: &str) -> (r: Result<[u32; 8], Error>)
    ensures
        match r {
            Ok(a) => padded_refusal(values@, name@) is None && a@ == dims::padded(values@),
            Err(e) => padded_refusal(values@, name@) == Some(e@),
        },
{
    let n: usize = values.len();
    if n > MAX_RANK {
        return Err(
            error::invalid_input(
                text::cat4(
                    name,
                    " rank ",
                    text::decimal_usize(n).as_str(),
                    " exceeds maximum rank 8",
                ),
            ),
        );
    }
    let mut out: [u32; 8] = [0; 8];
    for i in 0..n
        invariant
            n == values@.len() <= 8,
            forall|j: int| 0 <= j < i ==> out@[j] == values@[j] as u32,
            forall|j: int| i <= j < 8 ==> out@[j] == 0,
            forall|j: int| 0 <= j < i ==> #[trigger] dims::narrow_checks(values@, name@)(j) is None,
    {
        proof {
            error::lemma_first_refusal_skip(
                0,
                i as int,
                n as int,
                dims::narrow_checks(values@, name@),
            );
        }
        let v: u32 = convert::to_u32(values[i], name)?;
        out[i] = v;
        assert(dims::narrow_checks(values@, name@)(i as int) is None);
    }
    proof {
        error::lemma_first_refusal_none(0, n as int, dims::narrow_checks(values@, name@));
    }
    assert(out@ =~= dims::padded(values@));
    Ok(out)
}

/// An operand with its dimensions sorted into batch, row and column dimensions.
pub struct Operand {
    pub shape: Seq<usize>,
    pub batch: Seq<usize>,
    pub row: Seq<usize>,
    pub col: Seq<usize>,
    pub rows: int,
    pub cols: int,
}

/// The view of an operand.
pub open spec fn view_of(o: Operand) -> OperandView {
    let rank = o.shape.len() as int;
    let stored = dram::tiled_shape(o.shape);
    OperandView {
        kind: view_kind(rank, o.batch, o.row, o.col),
        rank: rank as u32,
        batch_rank: o.batch.len() as u32,
        row_rank: o.row.len() as u32,
        col_rank: o.col.len() as u32,
        logical_rows: o.rows as u32,
        logical_cols: o.cols as u32,
        tile_rows: (stored[rank - 2] / 32) as u32,
        tiles_per_row: (stored[rank - 1] / 32) as u32,
        shape: dims::padded(o.shape),
        batch_dims: dims::padded(o.batch),
        row_dims: dims::padded(o.row),
        col_dims: dims::padded(o.col),
    }
}

/// Why an operand has no view.
pub open spec fn view_refusal(o: Operand) -> Option<error::Refusal> {
    let rank = o.shape.len() as int;
    let stored = dram::tiled_shape(o.shape);
    let tile_rows = stored[rank - 2] as int / 32;
    let tiles_per_row = stored[rank - 1] as int / 32;
    if dram::tiled_shape_refusal(o.shape) is Some {
        dram::tiled_shape_refusal(o.shape)
    } else if rank > u32::MAX {
        convert::u32_refusal(rank, "matmul operand rank"@)
    } else if o.batch.len() > u32::MAX {
        convert::u32_refusal(o.batch.len() as int, "matmul operand batch rank"@)
    } else if o.row.len() > u32::MAX {
        convert::u32_refusal(o.row.len() as int, "matmul operand row rank"@)
    } else if o.col.len() > u32::MAX {
        convert::u32_refusal(o.col.len() as int, "matmul operand column rank"@)
    } else if o.rows > u32::MAX {
        convert::u32_refusal(o.rows, "matmul operand logical rows"@)
    } else if o.cols > u32::MAX {
        convert::u32_refusal(o.cols, "matmul operand logical columns"@)
    } else if tile_rows > u32::MAX {
        convert::u32_refusal(tile_rows, "matmul operand source tile rows"@)
    } else if tiles_per_row > u32::MAX {
        convert::u32_refusal(tiles_per_row, "matmul operand source tiles per row"@)
    } else if padded_refusal(o.shape, "matmul operand shape"@) is Some {
        padded_refusal(o.shape, "matmul operand shape"@)
    } else if padded_refusal(o.batch, "matmul operand batch dimensions"@) is Some {
        padded_refusal(o.batch, "matmul operand batch dimensions"@)
    } else if padded_refusal(o.row, "matmul operand row dimensions"@) is Some {
        padded_refusal(o.row, "matmul operand row dimensions"@)
    } else {
        padded_refusal(o.col, "matmul operand column dimensions"@)
    }
}

/// Sees an operand as a stack of matrices.
pub fn operand_view(
    shape: &[usize],
    batch_dims: &[usize],
    row_dims: &[usize],
    col_dims: &[usize],
    logical_rows: usize,
    logical_cols: usize,
) -> (r: Result<MatmulOperandView, Error>)
    requires
        shape@.len() >= 2,
    ensures
        ({
            let o = Operand {
                shape: shape@,
                batch: batch_dims@,
                row: row_dims@,
                col: col_dims@,
                rows: logical_rows as int,
                cols: logical_cols as int,
            };
            match r {
                Ok(v) => view_refusal(o) is None && v@ == view_of(o),
                Err(e) => view_refusal(o) == Some(e@),
            }
        }),
{
    let stored = dram::tiled_allocation_shape(shape)?;
    let rank: usize = shape.len();
    proof {
        dram::lemma_tiled_shape(shape@);
    }
    let kind = operand_view_kind(rank, batch_dims, row_dims, col_dims);
    Ok(
        MatmulOperandView {
            kind,
            rank: convert::to_u32(rank, "matmul operand rank")?,
            batch_rank: convert::to_u32(batch_dims.len(), "matmul operand batch rank")?,
            row_rank: convert::to_u32(row_dims.len(), "matmul operand row rank")?,
            col_rank: convert::to_u32(col_dims.len(), "matmul operand column rank")?,
            logical_rows: convert::to_u32(logical_rows, "matmul operand logical rows")?,
            logical_cols: convert::to_u32(logical_cols, "matmul operand logical columns")?,
            tile_rows: convert::to_u32(stored[rank - 2] / 32, "matmul operand source tile rows")?,
            tiles_per_row: convert::to_u32(
                stored[rank - 1] / 32,
                "matmul operand source tiles per row",
            )?,
            shape: padded_u32_array(shape, "matmul operand shape")?,
            batch_dims: padded_u32_array(batch_dims, "matmul operand batch dimensions")?,
            row_dims: padded_u32_array(row_dims, "matmul operand row dimensions")?,
            col_dims: padded_u32_array(col_dims, "matmul operand column dimensions")?,
        },
    )
}

/// Dimension lists of one operand of a dot product.
#[derive(Debug)]
pub struct DotGeneralDims {
    pub batch: Vec<usize>,
    pub contract: Vec<usize>,
    pub free: Vec<usize>,
}

/// Why a listed dimension is refused; the batch dimensions come before the contracting ones.
pub open spec fn dim_checks(
    rank: int,
    batch: Seq<i64>,
    contract: Seq<i64>,
    name: Seq<char>,
) -> spec_fn(int) -> Option<error::Refusal> {
    |i: int|
        {
            let all = batch + contract;
            let kind = if i < batch.len() {
                "batching"@
            } else {
                "contracting"@
            };
            if all[i] < 0 {
                Some(
                    error::invalid(
                        "dot_general "@ + name + " "@ + kind + " dimensions must be >= 0"@,
                    ),
                )
            } else if all[i] >= rank {
                Some(
                    error::invalid(
                        "dot_general "@ + name + " "@ + kind + " dimension "@ + text::dec(
                            all[i] as int,
                        ) + " is out of bounds for rank "@ + text::dec(rank),
                    ),
                )
            } else if all.take(i).contains(all[i]) {
                Some(
                    error::invalid(
                        "dot_general "@ + name + " dimension "@ + text::dec(all[i] as int)
                            + " is used more than once"@,
                    ),
                )
            } else {
                None
            }
        }
}

/// Why the dimension lists of an operand are refused.
pub open spec fn dims_refusal(
    rank: int,
    batch: Seq<i64>,
    contract: Seq<i64>,
    name: Seq<char>,
) -> Option<error::Refusal> {
    error::first_refusal(
        0,
        (batch.len() + contract.len()) as int,
        dim_checks(rank, batch, contract, name),
    )
}

/// Dimension numbers as machine words.
pub open spec fn dim_words(v: Seq<i64>) -> Seq<usize> {
    v.map_values(|d: i64| d as usize)
}

/// The dimensions that are neither batch nor contracting ones.
pub open spec fn free_dims(rank: int, batch: Seq<i64>, contract: Seq<i64>) -> Seq<usize> {
    dims::other_dims(dim_words(batch) + dim_words(contract), rank)
}

fn parse_dims(
    rank: usize,
    batch: &[i64],
    contract: &[i64],
    contracting: bool,
    name: &str,
    seen: &mut Vec<usize>,
) -> (r: Result<Vec<usize>, Error>)
    requires
        old(seen)@ == (if contracting {
            dim_words(batch@)
        } else {
            Seq::empty()
        }),
        contracting ==> forall|j: int|
            0 <= j < batch@.len() ==> #[trigger] dim_checks(
                rank as int,
                batch@,
                contract@,
                name@,
            )(j) is None,
    ensures
        ({
            let part = if contracting {
                contract@
            } else {
                batch@
            };
            let all = batch@ + contract@;
            let start = if contracting {
                batch@.len() as int
            } else {
                0
            };
            match r {
                Ok(v) => {
                    &&& v@ == dim_words(part)
                    &&& final(seen)@ == old(seen)@ + dim_words(part)
                    &&& forall|i: int| 0 <= i < v@.len() ==> #[trigger] v@[i] < rank
                    &&& forall|j: int|
                        0 <= j < start + part.len() ==> #[trigger] dim_checks(
                            rank as int,
                            batch@,
                            contract@,
                            name@,
                        )(j) is None
                },
                Err(e) => dims_refusal(rank as int, batch@, contract@, name@) == Some(e@),
            }
        }),
{
    let part: &[i64] = if contracting {
        contract
    } else {
        batch
    };
    let kind: &str = if contracting {
        "contracting"
    } else {
        "batching"
    };
    let ghost all = batch@ + contract@;
    let ghost start = if contracting {
        batch@.len() as int
    } else {
        0
    };
    let ghost checks = dim_checks(rank as int, batch@, contract@, name@);
    let mut out: Vec<usize> = Vec::new();
    for i in 0..part.len()
        invariant
            part@ == (if contracting {
                contract@
            } else {
                batch@
            }),
            kind@ == (if contracting {
                "contracting"@
            } else {
                "batching"@
            }),
            all == batch@ + contract@,
            start == (if contracting {
                batch@.len() as int
            } else {
                0
            }),
            checks == dim_checks(rank as int, batch@, contract@, name@),
            old(seen)@ == (if contracting {
                dim_words(batch@)
            } else {
                Seq::empty()
            }),
            out@ == dim_words(part@.take(i as int)),
            seen@ == old(seen)@ + dim_words(part@.take(i as int)),
            forall|k: int| 0 <= k < out@.len() ==> #[trigger] out@[k] < rank,
            forall|j: int| 0 <= j < start + i ==> #[trigger] checks(j) is None,
    {
        let dim: i64 = part[i];
        let ghost at = start + i;
        proof {
            assert(all[at] == dim);
            error::lemma_first_refusal_skip(
                0,
                at,
                (batch@.len() + contract@.len()) as int,
                checks,
            );
            assert(kind@ == if at < batch@.len() {
                "batching"@
            } else {
                "contracting"@
            });
        }
        if dim < 0 {
            return Err(
                error::invalid_input(
                    text::cat5("dot_general ", name, " ", kind, " dimensions must be >= 0"),
                ),
            );
        }
        if dim as u64 >= rank as u64 {
            return Err(
                error::invalid_input(
                    text::cat5("dot_general ", name, " ", kind, " dimension ").concat(
                        text::decimal_i64(dim).as_str(),
                    ).concat(" is out of bounds for rank ").concat(
                        text::decimal_usize(rank).as_str(),
                    ),
                ),
            );
        }
        let word: usize = dim as usize;
        proof {
            let prefix = all.take(at);
            assert(seen@ =~= dim_words(prefix)) by {
                assert(seen@.len() == at);
                assert forall|k: int| 0 <= k < at implies #[trigger] seen@[k] == dim_words(
                    prefix,
                )[k] by {
                }
            }
            assert forall|k: int| 0 <= k < at implies 0 <= #[trigger] prefix[k] < rank by {
                assert(checks(k) is None);
            }
            assert(seen@.contains(word) <==> prefix.contains(dim)) by {
                if seen@.contains(word) {
                    let k = choose|k: int| 0 <= k < seen@.len() && seen@[k] == word;
                    assert(0 <= prefix[k] < rank);
                    assert(prefix[k] == dim);
                }
                if prefix.contains(dim) {
                    let k = choose|k: int| 0 <= k < prefix.len() && prefix[k] == dim;
                    assert(seen@[k] == word);
                }
            }
        }
        if arith::contains_usize(seen.as_slice(), word) {
            return Err(
                error::invalid_input(
                    text::cat5(
                        "dot_general ",
                        name,
                        " dimension ",
                        text::decimal_i64(dim).as_str(),
                        " is used more than once",
                    ),
                ),
            );
        }
        seen.push(word);
        out.push(word);
        assert(part@.take(i + 1) =~= part@.take(i as int).push(dim));
        assert(out@ =~= dim_words(part@.take(i + 1)));
        assert(seen@ =~= old(seen)@ + dim_words(part@.take(i + 1)));
        assert(checks(at) is None);
    }
    assert(part@.take(part@.len() as int) =~= part@);
    Ok(out)
}

/// Sorts the dimensions of an operand into batch, contracting and free ones.
pub fn dot_general_dims(
    rank: usize,
    batch_dimensions: &[i64],
    contracting_dimensions: &[i64],
    name: &str,
) -> (r: Result<DotGeneralDims, Error>)
    ensures
        match r {
            Ok(d) => {
                &&& dims_refusal(
                    rank as int,
                    batch_dimensions@,
                    contracting_dimensions@,
                    name@,
                ) is None
                &&& d.batch@ == dim_words(batch_dimensions@)
                &&& d.contract@ == dim_words(contracting_dimensions@)
                &&& d.free@ == free_dims(rank as int, batch_dimensions@, contracting_dimensions@)
                &&& forall|i: int| 0 <= i < d.batch@.len() ==> #[trigger] d.batch@[i] < rank
                &&& forall|i: int| 0 <= i < d.contract@.len() ==> #[trigger] d.contract@[i] < rank
                &&& forall|i: int| 0 <= i < d.free@.len() ==> #[trigger] d.free@[i] < rank
            },
            Err(e) => dims_refusal(
                rank as int,
                batch_dimensions@,
                contracting_dimensions@,
                name@,
            ) == Some(e@),
        },
{
    let mut seen: Vec<usize> = Vec::new();
    let batch = parse_dims(
        rank,
        batch_dimensions,
        contracting_dimensions,
        false,
        name,
        &mut seen,
    )?;
    assert(seen@ =~= dim_words(batch_dimensions@));
    let contract = parse_dims(
        rank,
        batch_dimensions,
        contracting_dimensions,
        true,
        name,
        &mut seen,
    )?;
    proof {
        error::lemma_first_refusal_none(
            0,
            (batch_dimensions@.len() + contracting_dimensions@.len()) as int,
            dim_checks(rank as int, batch_dimensions@, contracting_dimensions@, name@),
        );
    }
    let free = dims::find_other_dims(seen.as_slice(), rank);
    Ok(DotGeneralDims { batch, contract, free })
}

/// A general dot product: the shapes of its operands and its result, and the
/// dimensions that are batched and contracted.
pub struct Dot {
    pub lhs: Seq<usize>,
    pub rhs: Seq<usize>,
    pub out: Seq<usize>,
    pub lhs_batch: Seq<i64>,
    pub rhs_batch: Seq<i64>,
    pub lhs_contract: Seq<i64>,
    pub rhs_contract: Seq<i64>,
}

/// Why the `i`-th pair of dimensions does not match.
pub open spec fn match_checks(
    lhs: Seq<usize>,
    rhs: Seq<usize>,
    lhs_dims: Seq<usize>,
    rhs_dims: Seq<usize>,
    what: Seq<char>,
) -> spec_fn(int) -> Option<error::Refusal> {
    |i: int|
        {
            let l = lhs_dims[i] as int;
            let r = rhs_dims[i] as int;
            if lhs[l] != rhs[r] {
                Some(
                    error::invalid(
                        "dot_general "@ + what + " dimensions must match, got lhs dim "@
                            + text::dec(l) + "="@ + text::dec(lhs[l] as int) + " and rhs dim "@
                            + text::dec(r) + "="@ + text::dec(rhs[r] as int),
                    ),
                )
            } else {
                None
            }
        }
}

/// Why pairs of dimensions do not match.
pub open spec fn match_refusal(
    lhs: Seq<usize>,
    rhs: Seq<usize>,
    lhs_dims: Seq<usize>,
    rhs_dims: Seq<usize>,
    what: Seq<char>,
) -> Option<error::Refusal> {
    error::first_refusal(
        0,
        lhs_dims.len() as int,
        match_checks(lhs, rhs, lhs_dims, rhs_dims, what),
    )
}

fn check_matching(
    lhs: &[usize],
    rhs: &[usize],
    lhs_dims: &[usize],
    rhs_dims: &[usize],
    what: &str,
) -> (r: Result<(), Error>)
    requires
        dims::in_shape(lhs@, lhs_dims@),
        dims::in_shape(rhs@, rhs_dims@),
        lhs_dims@.len() == rhs_dims@.len(),
    ensures
        match r {
            Ok(_) => {
                &&& match_refusal(lhs@, rhs@, lhs_dims@, rhs_dims@, what@) is None
                &&& dims::sizes(lhs@, lhs_dims@) == dims::sizes(rhs@, rhs_dims@)
            },
            Err(e) => match_refusal(lhs@, rhs@, lhs_dims@, rhs_dims@, what@) == Some(e@),
        },
{
    let n: usize = lhs_dims.len();
    let ghost checks = match_checks(lhs@, rhs@, lhs_dims@, rhs_dims@, what@);
    for i in 0..n
        invariant
            n == lhs_dims@.len() == rhs_dims@.len(),
            dims::in_shape(lhs@, lhs_dims@),
            dims::in_shape(rhs@, rhs_dims@),
            checks == match_checks(lhs@, rhs@, lhs_dims@, rhs_dims@, what@),
            forall|j: int| 0 <= j < i ==> #[trigger] checks(j) is None,
    {
        assert(lhs_dims@[i as int] < lhs@.len() && rhs_dims@[i as int] < rhs@.len());
        let l: usize = lhs_dims[i];
        let r: usize = rhs_dims[i];
        proof {
            error::lemma_first_refusal_skip(0, i as int, n as int, checks);
        }
        if lhs[l] != rhs[r] {
            return Err(
                error::invalid_input(
                    text::cat7(
                        "dot_general ",
                        what,
                        " dimensions must match, got lhs dim ",
                        text::decimal_usize(l).as_str(),
                        "=",
                        text::decimal_usize(lhs[l]).as_str(),
                        " and rhs dim ",
                    ).concat(text::decimal_usize(r).as_str()).concat("=").concat(
                        text::decimal_usize(rhs[r]).as_str(),
                    ),
                ),
            );
        }
        assert(checks(i as int) is None);
    }
    proof {
        error::lemma_first_refusal_none(0, n as int, checks);
        assert forall|i: int| 0 <= i < n implies #[trigger] dims::sizes(lhs@, lhs_dims@)[i]
            == dims::sizes(rhs@, rhs_dims@)[i] by {
            assert(checks(i) is None);
        }
        assert(dims::sizes(lhs@, lhs_dims@) =~= dims::sizes(rhs@, rhs_dims@));
    }
    Ok(())
}

/// The product of the given dimensions, if it is a machine word.
pub open spec fn dim_product(shape: Seq<usize>, d: Seq<usize>) -> Option<int> {
    arith::checked_product(1, arith::ints(dims::sizes(shape, d)))
}

/// Why dimensions cannot be multiplied.
pub open spec fn product_refusal(shape: Seq<usize>, d: Seq<usize>, name: Seq<char>) -> Option<
    error::Refusal,
> {
    if dim_product(shape, d) is None {
        Some(error::invalid(name + " product overflow"@))
    } else {
        None
    }
}

fn checked_product_of_dims(shape: &[usize], d: &[usize], name: &str) -> (r: Result<usize, Error>)
    requires
        dims::in_shape(shape@, d@),
    ensures
        match r {
            Ok(p) => product_refusal(shape@, d@, name@) is None && dim_product(shape@, d@) == Some(
                p as int,
            ),
            Err(e) => product_refusal(shape@, d@, name@) == Some(e@),
        },
{
    let v = dims::dim_sizes(shape, d);
    assert(v@.take(v@.len() as int) =~= v@);
    match arith::checked_mul_all(1, v.as_slice(), v.len()) {
        Some(p) => Ok(p),
        None => Err(error::invalid_input(text::cat2(name, " product overflow"))),
    }
}

/// `n` dimensions from `from` on.
pub open spec fn dim_range(from: int, n: int) -> Seq<usize> {
    Seq::new(n as nat, |i: int| (from + i) as usize)
}

fn list_dims(from: usize, n: usize) -> (r: Vec<usize>)
    requires
        from + n <= usize::MAX,
    ensures
        r@ == dim_range(from as int, n as int),
{
    let mut out: Vec<usize> = Vec::new();
    for i in 0..n
        invariant
            from + n <= usize::MAX,
            out@ == dim_range(from as int, n as int).take(i as int),
    {
        out.push(from + i);
        assert(out@ =~= dim_range(from as int, n as int).take(i + 1));
    }
    assert(out@ =~= dim_range(from as int, n as int));
    out
}

impl Dot {
    pub open spec fn lhs_free(self) -> Seq<usize> {
        free_dims(self.lhs.len() as int, self.lhs_batch, self.lhs_contract)
    }

    pub open spec fn rhs_free(self) -> Seq<usize> {
        free_dims(self.rhs.len() as int, self.rhs_batch, self.rhs_contract)
    }

    /// The shape that the result must have: batch, free left and free right dimensions.
    pub open spec fn expected_out(self) -> Seq<usize> {
        dims::sizes(self.lhs, dim_words(self.lhs_batch)) + dims::sizes(self.lhs, self.lhs_free())
            + dims::sizes(self.rhs, self.rhs_free())
    }

    pub open spec fn batch_count(self) -> int {
        dim_product(self.lhs, dim_words(self.lhs_batch))->0
    }

    pub open spec fn m(self) -> int {
        dim_product(self.lhs, self.lhs_free())->0
    }

    pub open spec fn k(self) -> int {
        dim_product(self.lhs, dim_words(self.lhs_contract))->0
    }

    pub open spec fn n(self) -> int {
        dim_product(self.rhs, self.rhs_free())->0
    }

    pub open spec fn lhs_operand(self) -> Operand {
        Operand {
            shape: self.lhs,
            batch: dim_words(self.lhs_batch),
            row: self.lhs_free(),
            col: dim_words(self.lhs_contract),
            rows: self.m(),
            cols: self.k(),
        }
    }

    pub open spec fn rhs_operand(self) -> Operand {
        Operand {
            shape: self.rhs,
            batch: dim_words(self.rhs_batch),
            row: dim_words(self.rhs_contract),
            col: self.rhs_free(),
            rows: self.k(),
            cols: self.n(),
        }
    }

    pub open spec fn out_operand(self) -> Operand {
        let nb = self.lhs_batch.len() as int;
        let nf = self.lhs_free().len() as int;
        Operand {
            shape: self.out,
            batch: dim_range(0, nb),
            row: dim_range(nb, nf),
            col: dim_range(nb + nf, self.out.len() - nb - nf),
            rows: self.m(),
            cols: self.n(),
        }
    }

    /// Why ranks, sizes or the numbers of dimensions are refused.
    pub open spec fn form_refusal(self) -> Option<error::Refusal> {
        if !(2 <= self.lhs.len() <= 8) || !(2 <= self.rhs.len() <= 8) || self.out.len() < 2 {
            Some(
                error::invalid(
                    "dot_general matmul requires lhs/rhs ranks in 2..=8 and output rank >= 2, got lhs="@
                        + text::list_text(arith::ints(self.lhs)) + " rhs="@ + text::list_text(
                        arith::ints(self.rhs),
                    ) + " output="@ + text::list_text(arith::ints(self.out)),
                ),
            )
        } else if self.lhs.contains(0) || self.rhs.contains(0) || self.out.contains(0) {
            Some(
                error::invalid(
                    "dot_general matmul zero-sized dimensions are not currently supported"@,
                ),
            )
        } else if self.lhs_batch.len() != self.rhs_batch.len() {
            Some(
                error::invalid(
                    "dot_general lhs/rhs batching dimension counts must match, got "@ + text::dec(
                        self.lhs_batch.len() as int,
                    ) + " and "@ + text::dec(self.rhs_batch.len() as int),
                ),
            )
        } else if self.lhs_contract.len() != self.rhs_contract.len() {
            Some(
                error::invalid(
                    "dot_general lhs/rhs contracting dimension counts must match, got "@
                        + text::dec(self.lhs_contract.len() as int) + " and "@ + text::dec(
                        self.rhs_contract.len() as int,
                    ),
                ),
            )
        } else {
            None
        }
    }

    /// Why dimension lists or sizes that must agree are refused.
    pub open spec fn agreement_refusal(self) -> Option<error::Refusal> {
        let lr = self.lhs.len() as int;
        let rr = self.rhs.len() as int;
        if dims_refusal(lr, self.lhs_batch, self.lhs_contract, "lhs"@) is Some {
            dims_refusal(lr, self.lhs_batch, self.lhs_contract, "lhs"@)
        } else if dims_refusal(rr, self.rhs_batch, self.rhs_contract, "rhs"@) is Some {
            dims_refusal(rr, self.rhs_batch, self.rhs_contract, "rhs"@)
        } else if match_refusal(
            self.lhs,
            self.rhs,
            dim_words(self.lhs_batch),
            dim_words(self.rhs_batch),
            "batch"@,
        ) is Some {
            match_refusal(
                self.lhs,
                self.rhs,
                dim_words(self.lhs_batch),
                dim_words(self.rhs_batch),
                "batch"@,
            )
        } else {
            match_refusal(
                self.lhs,
                self.rhs,
                dim_words(self.lhs_contract),
                dim_words(self.rhs_contract),
                "contracting"@,
            )
        }
    }

    /// Why the sizes of the matrices are refused.
    pub open spec fn size_refusal(self) -> Option<error::Refusal> {
        if dim_product(self.lhs, dim_words(self.lhs_batch)) is None {
            product_refusal(
                self.lhs,
                dim_words(self.lhs_batch),
                "dot_general batch dimensions"@,
            )
        } else if dim_product(self.lhs, self.lhs_free()) is None {
            product_refusal(self.lhs, self.lhs_free(), "lhs free dimensions"@)
        } else if dim_product(self.lhs, dim_words(self.lhs_contract)) is None {
            product_refusal(
                self.lhs,
                dim_words(self.lhs_contract),
                "lhs contracting dimensions"@,
            )
        } else if dim_product(self.rhs, self.rhs_free()) is None {
            product_refusal(self.rhs, self.rhs_free(), "rhs free dimensions"@)
        } else if self.out != self.expected_out() {
            Some(
                error::invalid(
                    "dot_general matmul output shape mismatch: expected shape "@ + text::list_text(
                        arith::ints(self.expected_out()),
                    ) + ", got "@ + text::list_text(arith::ints(self.out)),
                ),
            )
        } else {
            None
        }
    }

    /// Why the dot product is refused.
    pub open spec fn refusal(self) -> Option<error::Refusal> {
        if self.form_refusal() is Some {
            self.form_refusal()
        } else if self.agreement_refusal() is Some {
            self.agreement_refusal()
        } else if self.size_refusal() is Some {
            self.size_refusal()
        } else if view_refusal(self.lhs_operand()) is Some {
            view_refusal(self.lhs_operand())
        } else if view_refusal(self.rhs_operand()) is Some {
            view_refusal(self.rhs_operand())
        } else {
            view_refusal(self.out_operand())
        }
    }
}

/// A dot product as a stack of matrix multiplications.
#[derive(Clone, Copy, Debug)]
pub struct DotGeneralMatmulShape {
    pub batch_count: usize,
    pub m: usize,
    pub k: usize,
    pub n: usize,
    pub lhs_view: MatmulOperandView,
    pub rhs_view: MatmulOperandView,
    pub output_view: MatmulOperandView,
}

/// Sees a dot product as a stack of matrix multiplications.
pub fn dot_general_shape(
    lhs_shape: &[usize],
    rhs_shape: &[usize],
    output_shape: &[usize],
    lhs_batching_dimensions: &[i64],
    rhs_batching_dimensions: &[i64],
    lhs_contracting_dimensions: &[i64],
    rhs_contracting_dimensions: &[i64],
) -> (r: Result<DotGeneralMatmulShape, Error>)
    ensures
        ({
            let d = Dot {
                lhs: lhs_shape@,
                rhs: rhs_shape@,
                out: output_shape@,
                lhs_batch: lhs_batching_dimensions@,
                rhs_batch: rhs_batching_dimensions@,
                lhs_contract: lhs_contracting_dimensions@,
                rhs_contract: rhs_contracting_dimensions@,
            };
            match r {
                Ok(s) => {
                    &&& d.refusal() is None
                    &&& s.batch_count == d.batch_count()
                    &&& s.m == d.m()
                    &&& s.k == d.k()
                    &&& s.n == d.n()
                    &&& s.lhs_view@ == view_of(d.lhs_operand())
                    &&& s.rhs_view@ == view_of(d.rhs_operand())
                    &&& s.output_view@ == view_of(d.out_operand())
                },
                Err(e) => d.refusal() == Some(e@),
            }
        }),
{
    let ghost d = Dot {
        lhs: lhs_shape@,
        rhs: rhs_shape@,
        out: output_shape@,
        lhs_batch: lhs_batching_dimensions@,
        rhs_batch: rhs_batching_dimensions@,
        lhs_contract: lhs_contracting_dimensions@,
        rhs_contract: rhs_contracting_dimensions@,
    };
    if lhs_shape.len() < 2 || lhs_shape.len() > MAX_RANK || rhs_shape.len() < 2 || rhs_shape.len()
        > MAX_RANK || output_shape.len() < 2 {
        return Err(
            error::invalid_input(
                text::cat6(
                    "dot_general matmul requires lhs/rhs ranks in 2..=8 and output rank >= 2, got lhs=",
                    text::shape_text(lhs_shape).as_str(),
                    " rhs=",
                    text::shape_text(rhs_shape).as_str(),
                    " output=",
                    text::shape_text(output_shape).as_str(),
                ),
            ),
        );
    }
    if arith::contains_usize(lhs_shape, 0) || arith::contains_usize(rhs_shape, 0)
        || arith::contains_usize(output_shape, 0) {
        return Err(
            error::invalid_text(
                "dot_general matmul zero-sized dimensions are not currently supported",
            ),
        );
    }
    if lhs_batching_dimensions.len() != rhs_batching_dimensions.len() {
        return Err(
            error::invalid_input(
                text::cat4(
                    "dot_general lhs/rhs batching dimension counts must match, got ",
                    text::decimal_usize(lhs_batching_dimensions.len()).as_str(),
                    " and ",
                    text::decimal_usize(rhs_batching_dimensions.len()).as_str(),
                ),
            ),
        );
    }
    if lhs_contracting_dimensions.len() != rhs_contracting_dimensions.len() {
        return Err(
            error::invalid_input(
                text::cat4(
                    "dot_general lhs/rhs contracting dimension counts must match, got ",
                    text::decimal_usize(lhs_contracting_dimensions.len()).as_str(),
                    " and ",
                    text::decimal_usize(rhs_contracting_dimensions.len()).as_str(),
                ),
            ),
        );
    }
    assert(d.form_refusal() is None);
    let lhs_dims = dot_general_dims(
        lhs_shape.len(),
        lhs_batching_dimensions,
        lhs_contracting_dimensions,
        "lhs",
    )?;
    let rhs_dims = dot_general_dims(
        rhs_shape.len(),
        rhs_batching_dimensions,
        rhs_contracting_dimensions,
        "rhs",
    )?;
    check_matching(
        lhs_shape,
        rhs_shape,
        lhs_dims.batch.as_slice(),
        rhs_dims.batch.as_slice(),
        "batch",
    )?;
    check_matching(
        lhs_shape,
        rhs_shape,
        lhs_dims.contract.as_slice(),
        rhs_dims.contract.as_slice(),
        "contracting",
    )?;
    assert(d.agreement_refusal() is None);
    let batch_count: usize = checked_product_of_dims(
        lhs_shape,
        lhs_dims.batch.as_slice(),
        "dot_general batch dimensions",
    )?;
    let m: usize = checked_product_of_dims(
        lhs_shape,
        lhs_dims.free.as_slice(),
        "lhs free dimensions",
    )?;
    let k: usize = checked_product_of_dims(
        lhs_shape,
        lhs_dims.contract.as_slice(),
        "lhs contracting dimensions",
    )?;
    let n: usize = checked_product_of_dims(
        rhs_shape,
        rhs_dims.free.as_slice(),
        "rhs free dimensions",
    )?;
    let mut expected = dims::dim_sizes(lhs_shape, lhs_dims.batch.as_slice());
    dims::extend_usizes(
        &mut expected,
        dims::dim_sizes(lhs_shape, lhs_dims.free.as_slice()).as_slice(),
    );
    dims::extend_usizes(
        &mut expected,
        dims::dim_sizes(rhs_shape, rhs_dims.free.as_slice()).as_slice(),
    );
    if !arith::same_usizes(output_shape, expected.as_slice()) {
        return Err(
            error::invalid_input(
                text::cat4(
                    "dot_general matmul output shape mismatch: expected shape ",
                    text::shape_text(expected.as_slice()).as_str(),
                    ", got ",
                    text::shape_text(output_shape).as_str(),
                ),
            ),
        );
    }
    assert(d.size_refusal() is None);
    let nb: usize = lhs_dims.batch.len();
    let nf: usize = lhs_dims.free.len();
    let total: usize = output_shape.len();
    assert(total == nb + nf + rhs_dims.free@.len());
    let out_batch = list_dims(0, nb);
    let out_row = list_dims(nb, nf);
    let out_col = list_dims(nb + nf, total - nb - nf);
    let lhs_view = operand_view(
        lhs_shape,
        lhs_dims.batch.as_slice(),
        lhs_dims.free.as_slice(),
        lhs_dims.contract.as_slice(),
        m,
        k,
    )?;
    let rhs_view = operand_view(
        rhs_shape,
        rhs_dims.batch.as_slice(),
        rhs_dims.contract.as_slice(),
        rhs_dims.free.as_slice(),
        k,
        n,
    )?;
    let output_view = operand_view(
        output_shape,
        out_batch.as_slice(),
        out_row.as_slice(),
        out_col.as_slice(),
        m,
        n,
    )?;
    Ok(
        DotGeneralMatmulShape { batch_count, m, k, n, lhs_view, rhs_view, output_view },
    )
}

/// The two contracted dimensions have the same product.
pub proof fn lemma_contracted_sizes_agree(d: Dot)
    requires
        d.refusal() is None,
        dims::in_shape(d.lhs, dim_words(d.lhs_contract)),
        dims::in_shape(d.rhs, dim_words(d.rhs_contract)),
    ensures
        dim_product(d.rhs, dim_words(d.rhs_contract)) == dim_product(
            d.lhs,
            dim_words(d.lhs_contract),
        ),
{
    let checks = match_checks(
        d.lhs,
        d.rhs,
        dim_words(d.lhs_contract),
        dim_words(d.rhs_contract),
        "contracting"@,
    );
    let n = dim_words(d.lhs_contract).len() as int;
    error::lemma_first_refusal_none(0, n, checks);
    let a = dims::sizes(d.lhs, dim_words(d.lhs_contract));
    let b = dims::sizes(d.rhs, dim_words(d.rhs_contract));
    assert forall|i: int| 0 <= i < n implies #[trigger] a[i] == b[i] by {
        assert(checks(i) is None);
    }
    assert(a =~= b);
}

} // verus!
