//! Bitwise reduction of the last dimension.

use vstd::prelude::*;
use crate::arith;
use crate::dram;
use crate::dram::{DType, DramBuffer};
use crate::convert;
use crate::error;
use crate::error::Error;
use crate::executable::ReduceReducer;
use crate::hw::CoreCoord;
use crate::kernels::bitwise;
use crate::kernels::broadcast;
use crate::kernels::common;
use crate::kernels::common::{DramKernel, KernelRequest};
use crate::kernels::dims;
use crate::kernels::kernel;
use crate::kernels::lowering;
use crate::kernels::lowering::{CompileConfig, LoweredProgram};
use crate::kernels::reduce;
use crate::text;

verus! {

/// How bits are combined.
#[derive(Clone, Copy, Debug, Hash, PartialEq, Eq, Structural)]
pub enum BitwiseReduceOp {
    And,
    Or,
}

/// The name of a reducer.
pub open spec fn reducer_name(r: ReduceReducer) -> Seq<char> {
    match r {
        ReduceReducer::Add => "Add"@,
        ReduceReducer::Max => "Max"@,
        ReduceReducer::Min => "Min"@,
        ReduceReducer::Mul => "Mul"@,
        ReduceReducer::And => "And"@,
        ReduceReducer::Or => "Or"@,
    }
}

fn name_reducer(r: ReduceReducer) -> (s: &'static str)
    ensures
        s@ == reducer_name(r),
{
    match r {
        ReduceReducer::Add => "Add",
        ReduceReducer::Max => "Max",
        ReduceReducer::Min => "Min",
        ReduceReducer::Mul => "Mul",
        ReduceReducer::And => "And",
        ReduceReducer::Or => "Or",
    }
}

impl BitwiseReduceOp {
    pub open spec fn of(reducer: ReduceReducer) -> Option<BitwiseReduceOp> {
        match reducer {
            ReduceReducer::And => Some(BitwiseReduceOp::And),
            ReduceReducer::Or => Some(BitwiseReduceOp::Or),
            _ => None,
        }
    }

    pub fn from_reducer(reducer: ReduceReducer) -> (r: Result<BitwiseReduceOp, Error>)
        ensures
            match r {
                Ok(op) => BitwiseReduceOp::of(reducer) == Some(op),
                Err(e) => reducer_refusal(reducer) == Some(e@),
            },
    {
        match reducer {
            ReduceReducer::And => Ok(BitwiseReduceOp::And),
            ReduceReducer::Or => Ok(BitwiseReduceOp::Or),
            _ => Err(
                error::invalid_input(
                    text::cat2(
                        "bitwise reduce supports only and/or reducers, got ",
                        name_reducer(reducer),
                    ),
                ),
            ),
        }
    }

    pub open spec fn code(self) -> u32 {
        match self {
            BitwiseReduceOp::And => 0,
            BitwiseReduceOp::Or => 1,
        }
    }

    pub fn op_value(self) -> (r: u32)
        ensures
            r == self.code(),
    {
        match self {
            BitwiseReduceOp::And => 0,
            BitwiseReduceOp::Or => 1,
        }
    }

    pub open spec fn shown(self) -> Seq<char> {
        match self {
            BitwiseReduceOp::And => "And"@,
            BitwiseReduceOp::Or => "Or"@,
        }
    }

    pub fn name(self) -> (r: &'static str)
        ensures
            r@ == self.shown(),
    {
        match self {
            BitwiseReduceOp::And => "And",
            BitwiseReduceOp::Or => "Or",
        }
    }
}

pub open spec fn reducer_refusal(reducer: ReduceReducer) -> Option<error::Refusal> {
    if BitwiseReduceOp::of(reducer) is Some {
        None
    } else {
        Some(
            error::invalid(
                "bitwise reduce supports only and/or reducers, got "@ + reducer_name(reducer),
            ),
        )
    }
}

/// What the kernel is built for.
#[derive(Clone, Debug, Hash, PartialEq, Eq)]
pub struct BitwiseReduceShape {
    pub input_shape: Vec<u32>,
    pub output_shape: Vec<u32>,
    pub input_tile_rows: u32,
    pub input_tiles_per_row: u32,
    pub output_tile_rows: u32,
    pub output_tiles_per_row: u32,
    pub output_tiles: u32,
}

/// A checked reduction.
#[derive(Clone, Debug, PartialEq, Eq)]
pub struct BitwiseReducePlan {
    pub input_shape: Vec<usize>,
    pub output_allocation_shape: Vec<usize>,
    pub shape: BitwiseReduceShape,
    pub op: BitwiseReduceOp,
    pub dtype: DType,
    pub identity: u32,
}

/// Why the form of a reduction is refused.
pub open spec fn form_refusal(
    dtype: DType,
    input: Seq<usize>,
    output: Seq<usize>,
    dimensions: Seq<i64>,
) -> Option<error::Refusal> {
    let n = input.len() as int;
    if !reduce::holds_bits(dtype) {
        Some(error::invalid("bitwise reduce does not support dtype "@ + dtype.shown()))
    } else if n < 2 {
        Some(
            error::invalid(
                "bitwise reduce requires rank >= 2 input, got "@ + text::list_text(
                    arith::ints(input),
                ),
            ),
        )
    } else if !(dimensions.len() == 1 && dimensions[0] == n - 1) {
        Some(
            error::invalid(
                "bitwise reduce currently supports only the last dimension, got dimensions "@
                    + text::list_text(text::ints_i64(dimensions)) + " for shape "@
                    + text::list_text(arith::ints(input)),
            ),
        )
    } else if output != input.drop_last() {
        Some(
            error::invalid(
                "bitwise reduce output shape mismatch: expected "@ + text::list_text(
                    arith::ints(input.drop_last()),
                ) + ", got "@ + text::list_text(arith::ints(output)),
            ),
        )
    } else {
        None
    }
}

pub open spec fn grid_values(input: Seq<usize>, output: Seq<usize>) -> Seq<usize> {
    seq![
        common::tile_grid(input).0 as usize,
        common::tile_grid(input).1 as usize,
        common::tile_grid(output).0 as usize,
        common::tile_grid(output).1 as usize,
    ]
}

pub open spec fn grid_names() -> Seq<&'static str> {
    seq![
        "bitwise reduce input tile rows",
        "bitwise reduce input tiles per row",
        "bitwise reduce output tile rows",
        "bitwise reduce output tiles per row",
    ]
}

/// Why there is no kernel for a reduction.
pub open spec fn shape_refusal(input: Seq<usize>, output: Seq<usize>) -> Option<error::Refusal> {
    let a = dims::shape_word_refusal(input, "bitwise reduce input shape"@, 16);
    let b = dims::shape_word_refusal(output, "bitwise reduce output shape"@, 16);
    let grid = common::hex_fields_refusal(grid_values(input, output), grid_names());
    if dram::tiled_shape_refusal(input) is Some {
        dram::tiled_shape_refusal(input)
    } else if dram::tiled_shape_refusal(output) is Some {
        dram::tiled_shape_refusal(output)
    } else if a is Some {
        a
    } else if b is Some {
        b
    } else if grid is Some {
        grid
    } else if dram::tile_count_refusal(output) is Some {
        dram::tile_count_refusal(output)
    } else {
        convert::u32_hex_refusal(
            dram::tile_count(output)->0,
            "bitwise reduce output tile count"@,
        )
    }
}

impl BitwiseReduceShape {
    pub open spec fn of(&self, input: Seq<usize>, output: Seq<usize>) -> bool {
        &&& self.input_shape@ == dims::narrowed(input)
        &&& self.output_shape@ == dims::narrowed(output)
        &&& (self.input_tile_rows as int, self.input_tiles_per_row as int) == common::tile_grid(
            input,
        )
        &&& (self.output_tile_rows as int, self.output_tiles_per_row as int) == common::tile_grid(
            output,
        )
        &&& dram::tile_count(output) == Some(self.output_tiles as int)
    }
}

/// Plans the kernel of a reduction.
pub fn bitwise_reduce_shape(input_shape: &[usize], output_shape: &[usize]) -> (r: Result<
    BitwiseReduceShape,
    Error,
>)
    ensures
        match r {
            Ok(s) => shape_refusal(input_shape@, output_shape@) is None && s.of(
                input_shape@,
                output_shape@,
            ),
            Err(e) => shape_refusal(input_shape@, output_shape@) == Some(e@),
        },
{
    let (input_rows, input_cols) = common::find_tile_grid(input_shape)?;
    let (output_rows, output_cols) = common::find_tile_grid(output_shape)?;
    let input_words = dims::u32_shape(input_shape, "bitwise reduce input shape", true)?;
    let output_words = dims::u32_shape(output_shape, "bitwise reduce output shape", true)?;
    let values: Vec<usize> = vec![input_rows, input_cols, output_rows, output_cols];
    let names: Vec<&'static str> = vec![
        "bitwise reduce input tile rows",
        "bitwise reduce input tiles per row",
        "bitwise reduce output tile rows",
        "bitwise reduce output tiles per row",
    ];
    assert(values@ =~= grid_values(input_shape@, output_shape@));
    assert(names@ =~= grid_names());
    let w = common::narrow_hex_fields(&values, &names)?;
    proof {
        common::lemma_narrowed(values@, names@);
    }
    let tiles: usize = dram::tiled_shape_tile_count(output_shape)?;
    let output_tiles: u32 = convert::to_u32_hex(tiles, "bitwise reduce output tile count")?;
    Ok(
        BitwiseReduceShape {
            input_shape: input_words,
            output_shape: output_words,
            input_tile_rows: w[0],
            input_tiles_per_row: w[1],
            output_tile_rows: w[2],
            output_tiles_per_row: w[3],
            output_tiles,
        },
    )
}

/// Why there is no plan for a reduction.
pub open spec fn plan_refusal(
    dtype: DType,
    input: Seq<usize>,
    output: Seq<usize>,
    dimensions: Seq<i64>,
    reducer: ReduceReducer,
) -> Option<error::Refusal> {
    if form_refusal(dtype, input, output, dimensions) is Some {
        form_refusal(dtype, input, output, dimensions)
    } else if dram::tiled_shape_refusal(output) is Some {
        dram::tiled_shape_refusal(output)
    } else if shape_refusal(input, output) is Some {
        shape_refusal(input, output)
    } else {
        reducer_refusal(reducer)
    }
}

fn drop_last_dim(shape: &[usize]) -> (r: Vec<usize>)
    requires
        shape@.len() > 0,
    ensures
        r@ == shape@.drop_last(),
{
    let mut out = arith::copy_usizes(shape);
    out.truncate(shape.len() - 1);
    assert(out@ =~= shape@.drop_last());
    out
}

impl BitwiseReducePlan {
    /// Checks a reduction and plans its kernel.
    pub fn new(
        dtype: DType,
        input_shape: &[usize],
        output_shape: &[usize],
        dimensions: &[i64],
        reducer: ReduceReducer,
        identity: u32,
    ) -> (r: Result<BitwiseReducePlan, Error>)
        ensures
            ({
                let refusal = plan_refusal(
                    dtype,
                    input_shape@,
                    output_shape@,
                    dimensions@,
                    reducer,
                );
                match r {
                    Ok(p) => {
                        &&& refusal is None
                        &&& p.input_shape@ == input_shape@
                        &&& p.output_allocation_shape@ == dram::tiled_shape(output_shape@)
                        &&& p.shape.of(input_shape@, output_shape@)
                        &&& BitwiseReduceOp::of(reducer) == Some(p.op)
                        &&& p.dtype == dtype
                        &&& p.identity == identity
                    },
                    Err(e) => refusal == Some(e@),
                }
            }),
    {
        match dtype {
            DType::Int32 | DType::UInt32 | DType::UInt16 | DType::UInt8 => {},
            _ => {
                return Err(
                    error::invalid_input(
                        text::cat2("bitwise reduce does not support dtype ", dtype.name()),
                    ),
                );
            },
        }
        let n: usize = input_shape.len();
        if n < 2 {
            return Err(
                error::invalid_input(
                    text::cat2(
                        "bitwise reduce requires rank >= 2 input, got ",
                        text::shape_text(input_shape).as_str(),
                    ),
                ),
            );
        }
        if dimensions.len() != 1 || dimensions[0] < 0 || dimensions[0] as u64 != (n - 1) as u64 {
            return Err(
                error::invalid_input(
                    text::cat4(
                        "bitwise reduce currently supports only the last dimension, got dimensions ",
                        text::list_i64_text(dimensions).as_str(),
                        " for shape ",
                        text::shape_text(input_shape).as_str(),
                    ),
                ),
            );
        }
        let expected = drop_last_dim(input_shape);
        if !arith::same_usizes(output_shape, expected.as_slice()) {
            return Err(
                error::invalid_input(
                    text::cat4(
                        "bitwise reduce output shape mismatch: expected ",
                        text::shape_text(expected.as_slice()).as_str(),
                        ", got ",
                        text::shape_text(output_shape).as_str(),
                    ),
                ),
            );
        }
        let output_allocation_shape = dram::tiled_allocation_shape(output_shape)?;
        let shape = bitwise_reduce_shape(input_shape, output_shape)?;
        let op = BitwiseReduceOp::from_reducer(reducer)?;
        Ok(
            BitwiseReducePlan {
                input_shape: arith::copy_usizes(input_shape),
                output_allocation_shape,
                shape,
                op,
                dtype,
                identity,
            },
        )
    }
}

/// What the program depends on.
#[derive(Clone, Debug, Hash, PartialEq, Eq)]
pub struct BitwiseReduceProgramKey {
    pub cores: Vec<CoreCoord>,
    pub dtype: DType,
    pub op: BitwiseReduceOp,
    pub identity: u32,
    pub shape: BitwiseReduceShape,
}

/// The source of the reader.
pub open spec fn reader_text(k: BitwiseReduceProgramKey, body: Seq<char>) -> Seq<char> {
    common::definition("BITWISE_REDUCE_RANK"@, text::dec(k.shape.input_shape@.len() as int))
        + common::definition(
        "BITWISE_REDUCE_INPUT_SHAPE"@,
        text::cpp_array(text::ints_u32(k.shape.input_shape@)),
    ) + common::definition(
        "BITWISE_REDUCE_OUTPUT_SHAPE"@,
        text::cpp_array(text::ints_u32(k.shape.output_shape@)),
    ) + common::definition(
        "BITWISE_REDUCE_INPUT_TILE_ROWS"@,
        text::dec(k.shape.input_tile_rows as int),
    ) + common::definition(
        "BITWISE_REDUCE_INPUT_TILES_PER_ROW"@,
        text::dec(k.shape.input_tiles_per_row as int),
    ) + common::definition(
        "BITWISE_REDUCE_OUTPUT_TILE_ROWS"@,
        text::dec(k.shape.output_tile_rows as int),
    ) + common::definition(
        "BITWISE_REDUCE_OUTPUT_TILES_PER_ROW"@,
        text::dec(k.shape.output_tiles_per_row as int),
    ) + common::definition("BITWISE_REDUCE_OP"@, text::dec(k.op.code() as int))
        + common::definition("BITWISE_REDUCE_IDENTITY"@, text::dec(k.identity as int))
        + common::definition("BITWISE_REDUCE_ELEMENT_TYPE"@, bitwise::unsigned_word(k.dtype))
        + body
}

/// Generates the source of the reader in front of its fixed part.
pub fn bitwise_reduce_reader_source(key: &BitwiseReduceProgramKey, body: &str) -> (r: String)
    requires
        key.shape.input_shape@.len() > 0,
        key.shape.output_shape@.len() > 0,
    ensures
        r@ == reader_text(*key, body@),
{
    let s = &key.shape;
    let rank = text::decimal_usize(s.input_shape.len());
    let mut out = common::defined("BITWISE_REDUCE_RANK", rank.as_str());
    common::define_words(&mut out, "BITWISE_REDUCE_INPUT_SHAPE", &s.input_shape);
    common::define_words(&mut out, "BITWISE_REDUCE_OUTPUT_SHAPE", &s.output_shape);
    common::define_word(&mut out, "BITWISE_REDUCE_INPUT_TILE_ROWS", s.input_tile_rows);
    common::define_word(&mut out, "BITWISE_REDUCE_INPUT_TILES_PER_ROW", s.input_tiles_per_row);
    common::define_word(&mut out, "BITWISE_REDUCE_OUTPUT_TILE_ROWS", s.output_tile_rows);
    common::define_word(&mut out, "BITWISE_REDUCE_OUTPUT_TILES_PER_ROW", s.output_tiles_per_row);
    common::define_word(&mut out, "BITWISE_REDUCE_OP", key.op.op_value());
    common::define_word(&mut out, "BITWISE_REDUCE_IDENTITY", key.identity);
    common::define(
        &mut out,
        "BITWISE_REDUCE_ELEMENT_TYPE",
        bitwise::unsigned_element_type(key.dtype),
    );
    out.append(body);
    out
}

/// Builds the program from the fixed parts of its kernels.
pub fn bitwise_reduce_program(
    key: &BitwiseReduceProgramKey,
    reader_body: &str,
    writer_source: &str,
) -> (r: Result<LoweredProgram, Error>)
    requires
        key.shape.input_shape@.len() > 0,
        key.shape.output_shape@.len() > 0,
    ensures
        match r {
            Ok(p) => {
                &&& lowering::listed_refusal(key.cores@) is None
                &&& p.reader_kernel@ == reader_text(*key, reader_body@)
                &&& p.compute_kernel@ == ""@
                &&& p.writer_kernel@ == writer_source@
                &&& p.is_uniform()
                &&& p.name@ == "bitwise_reduce_"@ + key.op.shown() + "_"@ + key.dtype.shown()
                &&& p.compile@ == lowering::plain_config(broadcast::copy_cbs(key.dtype))
                &&& lowering::assigns(
                    p.runtime_args,
                    key.cores@,
                    common::copied(key.cores@, key.shape.output_tiles, 1),
                    0,
                    common::first_dynamic(1, 1),
                )
            },
            Err(e) => lowering::listed_refusal(key.cores@) == Some(e@),
        },
{
    let args = common::deal_copies(key.cores.as_slice(), key.shape.output_tiles, 1)?;
    Ok(
        LoweredProgram::uniform(
            bitwise_reduce_reader_source(key, reader_body),
            "".to_owned(),
            writer_source.to_owned(),
            text::cat4("bitwise_reduce_", key.op.name(), "_", key.dtype.name()),
            CompileConfig::plain(broadcast::list_copy_cbs(key.dtype)),
            args,
        ),
    )
}

/// Why a reduction cannot be run.
pub open spec fn request_refusal(
    available: Seq<CoreCoord>,
    input: DramBuffer,
    plan: BitwiseReducePlan,
) -> Option<error::Refusal> {
    let checked = common::input_refusal(
        "bitwise reduce input"@,
        input,
        plan.dtype,
        plan.input_shape@,
    );
    if checked is Some {
        checked
    } else {
        kernel::select_refusal(available)
    }
}

/// Checks the tensor of a reduction and chooses the cores.
pub fn reduce(available: &[CoreCoord], input: &DramBuffer, plan: BitwiseReducePlan) -> (r: Result<
    KernelRequest<BitwiseReduceProgramKey>,
    Error,
>)
    ensures
        match r {
            Ok(q) => {
                &&& request_refusal(available@, *input, plan) is None
                &&& q.output_tiles == plan.shape.output_tiles
                &&& q.output_shape == plan.output_allocation_shape
                &&& q.key.shape == plan.shape
                &&& q.key.op == plan.op
                &&& q.key.identity == plan.identity
                &&& q.key.dtype == plan.dtype
                &&& q.key.cores@ == kernel::chosen_cores(available@, q.output_tiles as int)
            },
            Err(e) => request_refusal(available@, *input, plan) == Some(e@),
        },
{
    common::check_input("bitwise reduce input", input, plan.dtype, plan.input_shape.as_slice())?;
    let output_tiles: usize = plan.shape.output_tiles as usize;
    let cores = kernel::select_worker_cores(available, output_tiles)?;
    Ok(
        KernelRequest {
            key: BitwiseReduceProgramKey {
                cores,
                dtype: plan.dtype,
                op: plan.op,
                identity: plan.identity,
                shape: plan.shape,
            },
            output_tiles,
            output_shape: plan.output_allocation_shape,
        },
    )
}

/// The kernel of a reduction with the addresses of one run.
pub fn bitwise_reduce_kernel(input_addr: u64, output_addr: u64, key: BitwiseReduceProgramKey) -> (r:
    Result<DramKernel<BitwiseReduceProgramKey>, Error>)
    ensures
        ({
            let refusal = common::pair_refusal(
                input_addr,
                "bitwise reduce input address"@,
                output_addr,
                "bitwise reduce output address"@,
            );
            match r {
                Ok(k) => {
                    &&& refusal is None
                    &&& k.reader_addrs@ == seq![input_addr as u32]
                    &&& k.output_addr == output_addr
                    &&& k.key == key
                },
                Err(e) => refusal == Some(e@),
            }
        }),
{
    common::pair_kernel(
        input_addr,
        "bitwise reduce input address",
        output_addr,
        "bitwise reduce output address",
        key,
    )
}

} // verus!
