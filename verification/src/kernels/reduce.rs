//! Reduction of a tensor along one dimension.

use vstd::prelude::*;
use crate::arith;
use crate::convert;
use crate::dram;
use crate::dram::{DType, DramBuffer};
use crate::error;
use crate::error::Error;
use crate::executable::ReduceReducer;
use crate::hw::CoreCoord;
use crate::kernels::common;
use crate::kernels::kernel;
use crate::kernels::reduce::ranges::ReduceKernelShape;
use crate::text;

pub mod meaning;
pub mod program;
pub mod ranges;

verus! {

/// How the kernel combines elements.
#[derive(Clone, Copy, Debug, Hash, PartialEq, Eq, Structural)]
pub enum ReduceOp {
    Sum,
    Max,
    Min,
    And,
    Or,
}

impl ReduceOp {
    /// The operation of a reducer, where there is one.
    pub open spec fn of(reducer: ReduceReducer) -> Option<ReduceOp> {
        match reducer {
            ReduceReducer::Add => Some(ReduceOp::Sum),
            ReduceReducer::Max => Some(ReduceOp::Max),
            ReduceReducer::Min => Some(ReduceOp::Min),
            ReduceReducer::And => Some(ReduceOp::And),
            ReduceReducer::Or => Some(ReduceOp::Or),
            ReduceReducer::Mul => None,
        }
    }

    pub fn from_reducer(reducer: ReduceReducer) -> (r: Result<ReduceOp, Error>)
        ensures
            match r {
                Ok(op) => ReduceOp::of(reducer) == Some(op),
                Err(e) => ReduceOp::of(reducer) is None && e@ == reducer_refusal(),
            },
    {
        match reducer {
            ReduceReducer::Add => Ok(ReduceOp::Sum),
            ReduceReducer::Max => Ok(ReduceOp::Max),
            ReduceReducer::Min => Ok(ReduceOp::Min),
            ReduceReducer::And => Ok(ReduceOp::And),
            ReduceReducer::Or => Ok(ReduceOp::Or),
            ReduceReducer::Mul => Err(
                error::invalid_text(
                    "reduce kernel currently supports add, min, max, and bitwise and/or reducers",
                ),
            ),
        }
    }

    pub open spec fn bitwise(self) -> bool {
        self == ReduceOp::And || self == ReduceOp::Or
    }

    pub fn is_bitwise(self) -> (r: bool)
        ensures
            r == self.bitwise(),
    {
        match self {
            ReduceOp::And | ReduceOp::Or => true,
            _ => false,
        }
    }

    pub open spec fn shown(self) -> Seq<char> {
        match self {
            ReduceOp::Sum => "Sum"@,
            ReduceOp::Max => "Max"@,
            ReduceOp::Min => "Min"@,
            ReduceOp::And => "And"@,
            ReduceOp::Or => "Or"@,
        }
    }

    pub fn name(self) -> (r: &'static str)
        ensures
            r@ == self.shown(),
    {
        match self {
            ReduceOp::Sum => "Sum",
            ReduceOp::Max => "Max",
            ReduceOp::Min => "Min",
            ReduceOp::And => "And",
            ReduceOp::Or => "Or",
        }
    }

    /// The operation of the compute kernel; it does not look at it for bits.
    pub open spec fn pool(self) -> Seq<char> {
        match self {
            ReduceOp::Max => "ckernel::PoolType::MAX"@,
            ReduceOp::Min => "ckernel::PoolType::MIN"@,
            _ => "ckernel::PoolType::SUM"@,
        }
    }

    pub fn cpp_pool_type(self) -> (r: &'static str)
        ensures
            r@ == self.pool(),
    {
        match self {
            ReduceOp::Max => "ckernel::PoolType::MAX",
            ReduceOp::Min => "ckernel::PoolType::MIN",
            _ => "ckernel::PoolType::SUM",
        }
    }

    /// The bits of the single precision number that leaves the others as they are.
    pub open spec fn padding(self) -> u32 {
        match self {
            ReduceOp::Max => 0xff80_0000,
            ReduceOp::Min => 0x7f80_0000,
            _ => 0,
        }
    }

    pub fn padding_identity_bits(self) -> (r: u32)
        ensures
            r == self.padding(),
    {
        match self {
            ReduceOp::Max => 0xff80_0000,
            ReduceOp::Min => 0x7f80_0000,
            _ => 0,
        }
    }

    /// The literal that leaves the other elements as they are.
    pub open spec fn literal(self, dtype: DType) -> Option<Seq<char>> {
        match (self, dtype) {
            (ReduceOp::Sum, DType::Float32) => Some("0.0f"@),
            (ReduceOp::Sum, _) => Some("0"@),
            (ReduceOp::Max, DType::Float32) => Some("(-3.4028234663852886e+38F)"@),
            (ReduceOp::Min, DType::Float32) => Some("3.4028234663852886e+38F"@),
            (ReduceOp::Max, DType::Int32) => Some("(-2147483647 - 1)"@),
            (ReduceOp::Min, DType::Int32) => Some("2147483647"@),
            (ReduceOp::Max, DType::Float16B) => Some("0xff80u"@),
            (ReduceOp::Min, DType::Float16B) => Some("0x7f80u"@),
            (ReduceOp::Max, DType::UInt32) => Some("0"@),
            (ReduceOp::Max, DType::UInt16) => Some("0"@),
            (ReduceOp::Min, DType::UInt32) => Some("0xffffffffu"@),
            (ReduceOp::Min, DType::UInt16) => Some("0xffffu"@),
            _ => None,
        }
    }

    /// Why there is no such literal.
    pub open spec fn literal_refusal(self, dtype: DType) -> Option<error::Refusal> {
        if self.literal(dtype) is Some {
            None
        } else if self.bitwise() {
            Some(error::invalid("bitwise reduce does not use arithmetic identity literals"@))
        } else {
            Some(
                error::invalid(
                    "reduce kernel does not support "@ + self.shown() + " with dtype "@
                        + dtype.shown(),
                ),
            )
        }
    }

    pub fn identity_literal(self, dtype: DType) -> (r: Result<&'static str, Error>)
        ensures
            match r {
                Ok(s) => self.literal(dtype) == Some(s@),
                Err(e) => self.literal_refusal(dtype) == Some(e@),
            },
    {
        match (self, dtype) {
            (ReduceOp::Sum, DType::Float32) => Ok("0.0f"),
            (ReduceOp::Sum, _) => Ok("0"),
            (ReduceOp::Max, DType::Float32) => Ok("(-3.4028234663852886e+38F)"),
            (ReduceOp::Min, DType::Float32) => Ok("3.4028234663852886e+38F"),
            (ReduceOp::Max, DType::Int32) => Ok("(-2147483647 - 1)"),
            (ReduceOp::Min, DType::Int32) => Ok("2147483647"),
            (ReduceOp::Max, DType::Float16B) => Ok("0xff80u"),
            (ReduceOp::Min, DType::Float16B) => Ok("0x7f80u"),
            (ReduceOp::Max, DType::UInt32) => Ok("0"),
            (ReduceOp::Max, DType::UInt16) => Ok("0"),
            (ReduceOp::Min, DType::UInt32) => Ok("0xffffffffu"),
            (ReduceOp::Min, DType::UInt16) => Ok("0xffffu"),
            (ReduceOp::And, _) | (ReduceOp::Or, _) => Err(
                error::invalid_text("bitwise reduce does not use arithmetic identity literals"),
            ),
            _ => Err(
                error::invalid_input(
                    text::cat4(
                        "reduce kernel does not support ",
                        self.name(),
                        " with dtype ",
                        dtype.name(),
                    ),
                ),
            ),
        }
    }
}

pub open spec fn reducer_refusal() -> error::Refusal {
    error::invalid(
        "reduce kernel currently supports add, min, max, and bitwise and/or reducers"@,
    )
}

/// Whether a type holds plain bits.
pub open spec fn holds_bits(dtype: DType) -> bool {
    dtype == DType::Int32 || dtype == DType::UInt32 || dtype == DType::UInt16 || dtype
        == DType::UInt8
}

/// Whether a type holds numbers that the kernel can combine.
pub open spec fn holds_numbers(dtype: DType) -> bool {
    dtype == DType::Float32 || dtype == DType::Float16B || dtype == DType::Int32 || dtype
        == DType::UInt32 || dtype == DType::UInt16
}

/// Why a type is refused.
pub open spec fn dtype_refusal(dtype: DType, op: ReduceOp) -> Option<error::Refusal> {
    if op.bitwise() {
        if holds_bits(dtype) {
            None
        } else {
            Some(error::invalid("bitwise reduce does not support dtype "@ + dtype.shown()))
        }
    } else if holds_numbers(dtype) {
        None
    } else {
        Some(
            error::invalid(
                "reduce kernel currently supports Float32, BF16, UInt16, UInt32, and Int32 inputs, got "@
                    + dtype.shown(),
            ),
        )
    }
}

pub fn validate_reduce_dtype(dtype: DType, op: ReduceOp) -> (r: Result<(), Error>)
    ensures
        match r {
            Ok(_) => dtype_refusal(dtype, op) is None,
            Err(e) => dtype_refusal(dtype, op) == Some(e@),
        },
{
    if op.is_bitwise() {
        return match dtype {
            DType::Int32 | DType::UInt32 | DType::UInt16 | DType::UInt8 => Ok(()),
            _ => Err(
                error::invalid_input(
                    text::cat2("bitwise reduce does not support dtype ", dtype.name()),
                ),
            ),
        };
    }
    match dtype {
        DType::Float32 | DType::Float16B | DType::Int32 | DType::UInt32 | DType::UInt16 => Ok(()),
        _ => Err(
            error::invalid_input(
                text::cat2(
                    "reduce kernel currently supports Float32, BF16, UInt16, UInt32, and Int32 inputs, got ",
                    dtype.name(),
                ),
            ),
        ),
    }
}

/// A checked reduction.
#[derive(Clone, Debug, PartialEq, Eq)]
pub struct ReducePlan {
    pub input_shape: Vec<usize>,
    pub output_shape: Vec<usize>,
    pub output_allocation_shape: Vec<usize>,
    pub shape: ReduceKernelShape,
    pub op: ReduceOp,
    pub dtype: DType,
    pub identity: Option<u32>,
}

/// Why the form of a reduction is refused.
pub open spec fn form_refusal(
    input: Seq<usize>,
    output: Seq<usize>,
    dimensions: Seq<i64>,
) -> Option<error::Refusal> {
    let d = dimensions[0] as int;
    if input.len() < 2 {
        Some(
            error::invalid(
                "reduce kernel requires rank >= 2 input, got "@ + text::list_text(
                    arith::ints(input),
                ),
            ),
        )
    } else if dimensions.len() != 1 {
        Some(
            error::invalid(
                "reduce kernel currently supports exactly one reduction dimension, got "@
                    + text::list_text(text::ints_i64(dimensions)),
            ),
        )
    } else if !(0 <= d <= usize::MAX) {
        Some(error::invalid("reduce dimension must be nonnegative, got "@ + text::dec(d)))
    } else if d >= input.len() {
        Some(
            error::invalid(
                "reduce dimension "@ + text::dec(d) + " is out of range for shape "@
                    + text::list_text(arith::ints(input)),
            ),
        )
    } else if output != input.remove(d) {
        Some(
            error::invalid(
                "reduce output shape mismatch: expected "@ + text::list_text(
                    arith::ints(input.remove(d)),
                ) + ", got "@ + text::list_text(arith::ints(output)),
            ),
        )
    } else {
        None
    }
}

/// The last tile of a row holds so many elements.
pub open spec fn last_width(width: int) -> int {
    if width > 0 && width % 32 == 0 {
        32
    } else {
        width % 32
    }
}

/// The rows of the output's matrices, their columns, and the rows of tiles that
/// each of them takes.
pub open spec fn output_grid(output: Seq<usize>) -> (int, int, int) {
    let n = output.len() as int;
    if n == 1 {
        (1, output[0] as int, 1)
    } else {
        (output[n - 2] as int, output[n - 1] as int, common::tile_grid(output).0)
    }
}

pub open spec fn shape_values(input: Seq<usize>, output: Seq<usize>, d: int) -> Seq<usize> {
    seq![
        d as usize,
        input[d],
        dram::tile_count(output)->0 as usize,
        common::tile_grid(output).1 as usize,
        output_grid(output).2 as usize,
        output_grid(output).0 as usize,
        output_grid(output).1 as usize,
    ]
}

pub open spec fn shape_names() -> Seq<&'static str> {
    seq![
        "reduce dimension",
        "reduce element count",
        "output tile count",
        "inner output tile count",
        "output tile rows per prefix",
        "output dim0",
        "output dim1",
    ]
}

/// Why there is no kernel for a reduction.
pub open spec fn shape_refusal(
    input: Seq<usize>,
    output: Seq<usize>,
    d: int,
    op: ReduceOp,
    identity: Option<u32>,
) -> Option<error::Refusal> {
    if dram::tile_count_refusal(output) is Some {
        dram::tile_count_refusal(output)
    } else if op.bitwise() && identity is None {
        Some(error::invalid("bitwise reduce requires an identity value"@))
    } else {
        convert::fields_refusal(shape_values(input, output, d), shape_names())
    }
}

/// Why there is no plan for a reduction.
pub open spec fn plan_refusal(
    dtype: DType,
    input: Seq<usize>,
    output: Seq<usize>,
    dimensions: Seq<i64>,
    reducer: ReduceReducer,
    identity: Option<u32>,
) -> Option<error::Refusal> {
    let op = ReduceOp::of(reducer);
    if op is None {
        Some(reducer_refusal())
    } else if dtype_refusal(dtype, op->0) is Some {
        dtype_refusal(dtype, op->0)
    } else if form_refusal(input, output, dimensions) is Some {
        form_refusal(input, output, dimensions)
    } else {
        shape_refusal(input, output, dimensions[0] as int, op->0, identity)
    }
}

/// Whether the numbers of a kernel are those of a reduction.
pub open spec fn is_shape(s: ReduceKernelShape, input: Seq<usize>, output: Seq<usize>, d: int) -> bool {
    &&& s.reduce_dim == d
    &&& s.reduce_count == input[d]
    &&& s.valid_last_width == last_width(input.last() as int)
    &&& dram::tile_count(output) == Some(s.output_tiles as int)
    &&& s.inner_output_tiles == common::tile_grid(output).1
    &&& s.output_tile_rows_per_prefix == output_grid(output).2
    &&& s.output_dim0 == output_grid(output).0
    &&& s.output_dim1 == output_grid(output).1
}

fn remove_dim(input: &[usize], d: usize) -> (r: Vec<usize>)
    requires
        d < input@.len(),
    ensures
        r@ == input@.remove(d as int),
{
    let mut out: Vec<usize> = Vec::new();
    let ghost want = input@.remove(d as int);
    for i in 0..input.len()
        invariant
            d < input@.len(),
            want == input@.remove(d as int),
            out@ == want.take(if i <= d {
                i as int
            } else {
                i - 1
            }),
    {
        if i != d {
            out.push(input[i]);
            assert(out@ =~= want.take(if i + 1 <= d {
                i + 1
            } else {
                i as int
            }));
        }
    }
    assert(want.take(input@.len() - 1) =~= want);
    out
}

fn check_form(input_shape: &[usize], output_shape: &[usize], dimensions: &[i64]) -> (r: Result<
    usize,
    Error,
>)
    ensures
        match r {
            Ok(d) => form_refusal(input_shape@, output_shape@, dimensions@) is None && d
                == dimensions@[0],
            Err(e) => form_refusal(input_shape@, output_shape@, dimensions@) == Some(e@),
        },
{
    if input_shape.len() < 2 {
        return Err(
            error::invalid_input(
                text::cat2(
                    "reduce kernel requires rank >= 2 input, got ",
                    text::shape_text(input_shape).as_str(),
                ),
            ),
        );
    }
    if dimensions.len() != 1 {
        return Err(
            error::invalid_input(
                text::cat2(
                    "reduce kernel currently supports exactly one reduction dimension, got ",
                    text::list_i64_text(dimensions).as_str(),
                ),
            ),
        );
    }
    let d: i64 = dimensions[0];
    if d < 0 || d as u64 > usize::MAX as u64 {
        return Err(
            error::invalid_input(
                text::cat2(
                    "reduce dimension must be nonnegative, got ",
                    text::decimal_i64(d).as_str(),
                ),
            ),
        );
    }
    let dim: usize = d as usize;
    if dim >= input_shape.len() {
        return Err(
            error::invalid_input(
                text::cat4(
                    "reduce dimension ",
                    text::decimal_usize(dim).as_str(),
                    " is out of range for shape ",
                    text::shape_text(input_shape).as_str(),
                ),
            ),
        );
    }
    let expected = remove_dim(input_shape, dim);
    if !arith::same_usizes(output_shape, expected.as_slice()) {
        return Err(
            error::invalid_input(
                text::cat4(
                    "reduce output shape mismatch: expected ",
                    text::shape_text(expected.as_slice()).as_str(),
                    ", got ",
                    text::shape_text(output_shape).as_str(),
                ),
            ),
        );
    }
    Ok(dim)
}

fn kernel_shape(
    input_shape: &[usize],
    output_shape: &[usize],
    d: usize,
    op: ReduceOp,
    identity: Option<u32>,
) -> (r: Result<ReduceKernelShape, Error>)
    requires
        d < input_shape@.len(),
        input_shape@.len() >= 2,
        output_shape@ == input_shape@.remove(d as int),
    ensures
        match r {
            Ok(s) => shape_refusal(
                input_shape@,
                output_shape@,
                d as int,
                op,
                identity,
            ) is None && is_shape(s, input_shape@, output_shape@, d as int),
            Err(e) => shape_refusal(input_shape@, output_shape@, d as int, op, identity) == Some(
                e@,
            ),
        },
{
    let (rows, cols) = common::find_tile_grid(output_shape)?;
    let tiles: usize = dram::tiled_shape_tile_count(output_shape)?;
    let n: usize = output_shape.len();
    let width: usize = input_shape[input_shape.len() - 1];
    let last: usize = if width > 0 && width % 32 == 0 {
        32
    } else {
        width % 32
    };
    let (dim0, dim1, prefix_rows) = if n == 1 {
        (1, output_shape[0], 1)
    } else {
        (output_shape[n - 2], output_shape[n - 1], rows)
    };
    if op.is_bitwise() && identity.is_none() {
        return Err(error::invalid_text("bitwise reduce requires an identity value"));
    }
    let values: Vec<usize> = vec![d, input_shape[d], tiles, cols, prefix_rows, dim0, dim1];
    let names: Vec<&'static str> = vec![
        "reduce dimension",
        "reduce element count",
        "output tile count",
        "inner output tile count",
        "output tile rows per prefix",
        "output dim0",
        "output dim1",
    ];
    assert(values@ =~= shape_values(input_shape@, output_shape@, d as int));
    assert(names@ =~= shape_names());
    let w = convert::narrow_fields(&values, &names)?;
    proof {
        convert::lemma_narrowed(values@, names@);
    }
    Ok(
        ReduceKernelShape {
            reduce_dim: w[0],
            reduce_count: w[1],
            valid_last_width: last as u32,
            output_tiles: w[2],
            inner_output_tiles: w[3],
            output_tile_rows_per_prefix: w[4],
            output_dim0: w[5],
            output_dim1: w[6],
        },
    )
}

impl ReducePlan {
    /// Checks a reduction and plans its kernel.
    pub fn new(
        dtype: DType,
        input_shape: &[usize],
        output_shape: &[usize],
        dimensions: &[i64],
        reducer: ReduceReducer,
        identity: Option<u32>,
    ) -> (r: Result<ReducePlan, Error>)
        ensures
            ({
                let refusal = plan_refusal(
                    dtype,
                    input_shape@,
                    output_shape@,
                    dimensions@,
                    reducer,
                    identity,
                );
                match r {
                    Ok(p) => {
                        &&& refusal is None
                        &&& p.input_shape@ == input_shape@
                        &&& p.output_shape@ == output_shape@
                        &&& p.output_allocation_shape@ == dram::tiled_shape(output_shape@)
                        &&& is_shape(p.shape, input_shape@, output_shape@, dimensions@[0] as int)
                        &&& ReduceOp::of(reducer) == Some(p.op)
                        &&& p.dtype == dtype
                        &&& p.identity == identity
                    },
                    Err(e) => refusal == Some(e@),
                }
            }),
    {
        let op = ReduceOp::from_reducer(reducer)?;
        validate_reduce_dtype(dtype, op)?;
        let d: usize = check_form(input_shape, output_shape, dimensions)?;
        let output_allocation_shape = dram::tiled_allocation_shape(output_shape)?;
        let shape = kernel_shape(input_shape, output_shape, d, op, identity)?;
        Ok(
            ReducePlan {
                input_shape: arith::copy_usizes(input_shape),
                output_shape: arith::copy_usizes(output_shape),
                output_allocation_shape,
                shape,
                op,
                dtype,
                identity,
            },
        )
    }
}

/// Why a reduction cannot be run on a tensor.
pub open spec fn request_refusal(available: Seq<CoreCoord>, input: DramBuffer, plan: ReducePlan) -> Option<
    error::Refusal,
> {
    if common::input_refusal("reduce input"@, input, plan.dtype, plan.input_shape@) is Some {
        common::input_refusal("reduce input"@, input, plan.dtype, plan.input_shape@)
    } else if ranges::partition_refusal(plan.shape) is Some {
        ranges::partition_refusal(plan.shape)
    } else {
        kernel::select_refusal(available)
    }
}

/// Checks the tensor of a reduction and chooses the cores.
pub fn reduce(available: &[CoreCoord], input: &DramBuffer, plan: &ReducePlan) -> (r: Result<
    Vec<CoreCoord>,
    Error,
>)
    ensures
        match r {
            Ok(v) => request_refusal(available@, *input, *plan) is None && v@
                == kernel::chosen_cores(available@, ranges::partitions(plan.shape)),
            Err(e) => request_refusal(available@, *input, *plan) == Some(e@),
        },
{
    common::check_input("reduce input", input, plan.dtype, plan.input_shape.as_slice())?;
    let count: u32 = ranges::reduce_partition_count(plan.shape)?;
    kernel::select_worker_cores(available, count as usize)
}

} // verus!
