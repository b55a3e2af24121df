//! Operations on two tensors, element by element.

use vstd::prelude::*;
use crate::convert;
use crate::dram;
use crate::dram::{DType, DramBuffer};
use crate::error;
use crate::error::Error;
use crate::executable::CompareDirection;
use crate::hw::CoreCoord;
use crate::kernels::common;
use crate::kernels::common::{KernelRequest, SectionWords};
use crate::kernels::kernel;
use crate::kernels::kernel::{CoreArgs, Kernel};
use crate::kernels::lowering;
use crate::kernels::lowering::{
    CompileConfig,
    Config,
    DynamicArgs,
    LoweredProgram,
    RangeWords,
    Section,
};
use crate::text;

verus! {

/// What is done with the two elements.
#[derive(Clone, Copy, Debug, Hash, PartialEq, Eq, Structural)]
pub enum BinaryEltwiseOp {
    Add,
    Subtract,
    Multiply,
    Divide,
    Power,
    Max,
    Compare(CompareDirection),
}

/// The fixed parts of the compute kernels.
#[derive(Debug)]
pub struct EltwiseSources<'a> {
    pub add: &'a str,
    pub subtract: &'a str,
    pub multiply: &'a str,
    pub divide: &'a str,
    pub power: &'a str,
    pub max: &'a str,
    pub compare: &'a str,
}

/// Whether a type holds floating-point numbers.
pub open spec fn is_float(dtype: DType) -> bool {
    dtype == DType::Float16 || dtype == DType::Float16B || dtype == DType::Float32
}

/// Why an operation has no kernel for a type.
pub open spec fn op_refusal(op: BinaryEltwiseOp, dtype: DType) -> Option<error::Refusal> {
    let floats = " currently supports Float16, Float16B, and Float32 inputs, got "@;
    match op {
        BinaryEltwiseOp::Add | BinaryEltwiseOp::Multiply => None,
        BinaryEltwiseOp::Subtract => if is_float(dtype) || dtype == DType::Int32 {
            None
        } else {
            Some(
                error::invalid(
                    "subtract currently supports Float16, Float16B, Float32, and Int32 inputs, got "@
                        + dtype.shown(),
                ),
            )
        },
        BinaryEltwiseOp::Divide => if is_float(dtype) {
            None
        } else {
            Some(error::invalid("divide"@ + floats + dtype.shown()))
        },
        BinaryEltwiseOp::Power => if is_float(dtype) {
            None
        } else {
            Some(error::invalid("power"@ + floats + dtype.shown()))
        },
        BinaryEltwiseOp::Max => if is_float(dtype) {
            None
        } else {
            Some(error::invalid("max"@ + floats + dtype.shown()))
        },
        BinaryEltwiseOp::Compare(_) => if dtype == DType::Int32 || dtype == DType::Float16B
            || dtype == DType::Float32 {
            None
        } else {
            Some(
                error::invalid(
                    "compare currently supports Float16B, Float32, and Int32 inputs, got "@
                        + dtype.shown(),
                ),
            )
        },
    }
}

/// The source of the compute kernel.
pub open spec fn compute_text<'a>(
    op: BinaryEltwiseOp,
    dtype: DType,
    sources: EltwiseSources<'a>,
) -> Seq<char> {
    match op {
        BinaryEltwiseOp::Add => sources.add@,
        BinaryEltwiseOp::Subtract => sources.subtract@,
        BinaryEltwiseOp::Multiply => sources.multiply@,
        BinaryEltwiseOp::Divide => sources.divide@,
        BinaryEltwiseOp::Power => sources.power@,
        BinaryEltwiseOp::Max => sources.max@,
        BinaryEltwiseOp::Compare(direction) => text::replaced(
            text::replaced(
                sources.compare@,
                "COMPARE_INT32_INPUT"@,
                if dtype == DType::Int32 {
                    "true"@
                } else {
                    "false"@
                },
            ),
            "COMPARE_DIRECTION"@,
            direction.shown(),
        ),
    }
}

fn float_source(op: &str, dtype: DType, source: &str) -> (r: Result<String, Error>)
    ensures
        match r {
            Ok(s) => is_float(dtype) && s@ == source@,
            Err(e) => !is_float(dtype) && e@ == error::invalid(
                op@ + " currently supports Float16, Float16B, and Float32 inputs, got "@
                    + dtype.shown(),
            ),
        },
{
    match dtype {
        DType::Float16 | DType::Float16B | DType::Float32 => Ok(source.to_owned()),
        _ => Err(
            error::invalid_input(
                text::cat3(
                    op,
                    " currently supports Float16, Float16B, and Float32 inputs, got ",
                    dtype.name(),
                ),
            ),
        ),
    }
}

fn subtract_source(dtype: DType, source: &str) -> (r: Result<String, Error>)
    ensures
        match r {
            Ok(s) => op_refusal(BinaryEltwiseOp::Subtract, dtype) is None && s@ == source@,
            Err(e) => op_refusal(BinaryEltwiseOp::Subtract, dtype) == Some(e@),
        },
{
    match dtype {
        DType::Float16 | DType::Float16B | DType::Float32 | DType::Int32 => Ok(source.to_owned()),
        _ => Err(
            error::invalid_input(
                text::cat2(
                    "subtract currently supports Float16, Float16B, Float32, and Int32 inputs, got ",
                    dtype.name(),
                ),
            ),
        ),
    }
}

fn comparison_source<'a>(direction: CompareDirection, dtype: DType, sources: &EltwiseSources<'a>) -> (r:
    Result<String, Error>)
    ensures
        match r {
            Ok(s) => op_refusal(BinaryEltwiseOp::Compare(direction), dtype) is None && s@
                == compute_text(BinaryEltwiseOp::Compare(direction), dtype, *sources),
            Err(e) => op_refusal(BinaryEltwiseOp::Compare(direction), dtype) == Some(e@),
        },
{
    proof {
        reveal_strlit("COMPARE_INT32_INPUT");
        reveal_strlit("COMPARE_DIRECTION");
    }
    let int32_input: &str = match dtype {
        DType::Int32 => "true",
        DType::Float16B | DType::Float32 => "false",
        _ => {
            return Err(
                error::invalid_input(
                    text::cat2(
                        "compare currently supports Float16B, Float32, and Int32 inputs, got ",
                        dtype.name(),
                    ),
                ),
            );
        },
    };
    let typed = text::replace_text(sources.compare, "COMPARE_INT32_INPUT", int32_input);
    Ok(text::replace_text(typed.as_str(), "COMPARE_DIRECTION", direction.variant()))
}

impl BinaryEltwiseOp {
    /// Generates the source of the compute kernel.
    pub fn compute_source<'a>(self, input_dtype: DType, sources: &EltwiseSources<'a>) -> (r: Result<
        String,
        Error,
    >)
        ensures
            match r {
                Ok(s) => op_refusal(self, input_dtype) is None && s@ == compute_text(
                    self,
                    input_dtype,
                    *sources,
                ),
                Err(e) => op_refusal(self, input_dtype) == Some(e@),
            },
    {
        match self {
            BinaryEltwiseOp::Add => Ok(sources.add.to_owned()),
            BinaryEltwiseOp::Subtract => subtract_source(input_dtype, sources.subtract),
            BinaryEltwiseOp::Multiply => Ok(sources.multiply.to_owned()),
            BinaryEltwiseOp::Divide => float_source("divide", input_dtype, sources.divide),
            BinaryEltwiseOp::Power => float_source("power", input_dtype, sources.power),
            BinaryEltwiseOp::Max => float_source("max", input_dtype, sources.max),
            BinaryEltwiseOp::Compare(direction) => comparison_source(
                direction,
                input_dtype,
                sources,
            ),
        }
    }

    /// The word for the operation in the name of its kernel.
    pub open spec fn word(self) -> Seq<char> {
        match self {
            BinaryEltwiseOp::Add => "eltwise_add_"@,
            BinaryEltwiseOp::Subtract => "eltwise_subtract_"@,
            BinaryEltwiseOp::Multiply => "eltwise_multiply_"@,
            BinaryEltwiseOp::Divide => "eltwise_divide_"@,
            BinaryEltwiseOp::Power => "eltwise_power_"@,
            BinaryEltwiseOp::Max => "eltwise_max_"@,
            BinaryEltwiseOp::Compare(direction) => "eltwise_compare_"@ + direction.shown() + "_"@,
        }
    }

    fn kernel_word(self) -> (r: String)
        ensures
            r@ == self.word(),
    {
        match self {
            BinaryEltwiseOp::Add => "eltwise_add_".to_owned(),
            BinaryEltwiseOp::Subtract => "eltwise_subtract_".to_owned(),
            BinaryEltwiseOp::Multiply => "eltwise_multiply_".to_owned(),
            BinaryEltwiseOp::Divide => "eltwise_divide_".to_owned(),
            BinaryEltwiseOp::Power => "eltwise_power_".to_owned(),
            BinaryEltwiseOp::Max => "eltwise_max_".to_owned(),
            BinaryEltwiseOp::Compare(direction) => text::cat3(
                "eltwise_compare_",
                direction.variant(),
                "_",
            ),
        }
    }

    /// The name of the kernel.
    pub fn kernel_name(self, input_dtype: DType, output_dtype: DType) -> (r: String)
        ensures
            r@ == self.word() + input_dtype.shown() + "_"@ + output_dtype.shown(),
    {
        let word = self.kernel_word();
        text::cat4(word.as_str(), input_dtype.name(), "_", output_dtype.name())
    }

    /// The type of the result.
    pub open spec fn result_type(self, input_dtype: DType) -> DType {
        match self {
            BinaryEltwiseOp::Compare(_) => DType::UInt8,
            _ => input_dtype,
        }
    }

    pub fn output_dtype(self, input_dtype: DType) -> (r: DType)
        ensures
            r == self.result_type(input_dtype),
    {
        match self {
            BinaryEltwiseOp::Compare(_) => DType::UInt8,
            _ => input_dtype,
        }
    }
}

/// What the program depends on.
#[derive(Clone, Debug, Hash, PartialEq, Eq)]
pub struct BinaryEltwiseProgramKey {
    pub op: BinaryEltwiseOp,
    pub cores: Vec<CoreCoord>,
    pub tile_count: u32,
    pub input_dtype: DType,
    pub output_dtype: DType,
}

/// The addresses and constants of one run.
#[derive(Clone, Debug)]
pub struct BinaryEltwiseKernel {
    pub lhs_addr: u32,
    pub rhs_addr: u32,
    pub lhs_constant: Option<u32>,
    pub rhs_constant: Option<u32>,
    pub output_addr: u32,
    pub key: BinaryEltwiseProgramKey,
}

/// A constant, or zero in its place.
pub open spec fn constant_word(c: Option<u32>) -> u32 {
    match c {
        Some(word) => word,
        None => 0,
    }
}

fn word_of(c: Option<u32>) -> (r: u32)
    ensures
        r == constant_word(c),
{
    match c {
        Some(word) => word,
        None => 0,
    }
}

impl Kernel for BinaryEltwiseKernel {
    open spec fn reader_arg(&self, core: CoreCoord, index: int) -> Option<u32> {
        if index == 0 {
            Some(self.lhs_addr)
        } else if index == 1 {
            Some(self.rhs_addr)
        } else if index == 4 {
            Some(constant_word(self.lhs_constant))
        } else if index == 5 {
            Some(constant_word(self.rhs_constant))
        } else {
            None
        }
    }

    open spec fn writer_arg(&self, core: CoreCoord, index: int) -> Option<u32> {
        if index == 0 {
            Some(self.output_addr)
        } else {
            None
        }
    }

    open spec fn compute_arg(&self, core: CoreCoord, index: int) -> Option<u32> {
        None
    }

    fn reader_runtime_arg(&self, core: CoreCoord, index: usize) -> (r: Option<u32>) {
        if index == 0 {
            Some(self.lhs_addr)
        } else if index == 1 {
            Some(self.rhs_addr)
        } else if index == 4 {
            Some(word_of(self.lhs_constant))
        } else if index == 5 {
            Some(word_of(self.rhs_constant))
        } else {
            None
        }
    }

    fn writer_runtime_arg(&self, core: CoreCoord, index: usize) -> (r: Option<u32>) {
        if index == 0 {
            Some(self.output_addr)
        } else {
            None
        }
    }

    fn compute_runtime_arg(&self, core: CoreCoord, index: usize) -> (r: Option<u32>) {
        None
    }
}

/// The arguments of each core: the reader gets two addresses, the tile range and
/// two constants.
pub open spec fn core_args(key: BinaryEltwiseProgramKey) -> spec_fn(int) -> CoreArgs {
    common::dealt(
        key.cores@,
        key.tile_count,
        common::ranged(common::zero_words(1)),
        SectionWords {
            head: common::zero_words(2),
            range: RangeWords::OffsetAndCount,
            tail: common::zero_words(2),
        },
        common::counted(),
    )
}

/// Whether results are collected in 32 bits.
pub open spec fn is_wide(dtype: DType) -> bool {
    dtype == DType::Int32 || dtype == DType::UInt32 || dtype == DType::Float32
}

/// Why there is no program.
pub open spec fn program_refusal(key: BinaryEltwiseProgramKey) -> Option<error::Refusal> {
    if lowering::listed_refusal(key.cores@) is Some {
        lowering::listed_refusal(key.cores@)
    } else {
        op_refusal(key.op, key.input_dtype)
    }
}

/// Builds the program from the fixed parts of its kernels.
pub fn eltwise_program<'a>(
    key: &BinaryEltwiseProgramKey,
    reader_source: &str,
    writer_source: &str,
    sources: &EltwiseSources<'a>,
) -> (r: Result<LoweredProgram, Error>)
    ensures
        match r {
            Ok(p) => {
                &&& program_refusal(*key) is None
                &&& p.reader_kernel@ == reader_source@
                &&& p.compute_kernel@ == compute_text(key.op, key.input_dtype, *sources)
                &&& p.writer_kernel@ == writer_source@
                &&& p.is_uniform()
                &&& p.name@ == key.op.word() + key.input_dtype.shown() + "_"@
                    + key.output_dtype.shown()
                &&& p.compile@ == (Config {
                    dst_accum_mode: is_wide(key.input_dtype),
                    ..lowering::plain_config(
                        common::two_input_cbs(key.input_dtype, key.output_dtype),
                    )
                })
                &&& lowering::assigns(
                    p.runtime_args,
                    key.cores@,
                    core_args(*key),
                    0,
                    (DynamicArgs {
                        writer: seq![0usize],
                        reader: seq![0usize, 1usize, 4usize, 5usize],
                        compute: Seq::empty(),
                    }),
                )
            },
            Err(e) => program_refusal(*key) == Some(e@),
        },
{
    let writer = Section::ranged(common::zeros(1));
    let reader = Section {
        head: common::zeros(2),
        range: RangeWords::OffsetAndCount,
        tail: common::zeros(2),
    };
    let compute = Section::counted(Vec::new());
    assert(writer@ == common::ranged(common::zero_words(1))) by {
        assert(writer@.tail =~= Seq::empty());
    }
    assert(compute@ == common::counted()) by {
        assert(compute@.head =~= Seq::empty());
        assert(compute@.tail =~= Seq::empty());
    }
    let writer_dynamic: Vec<usize> = vec![0];
    let reader_dynamic: Vec<usize> = vec![0, 1, 4, 5];
    assert(writer_dynamic@ =~= seq![0usize]);
    assert(reader_dynamic@ =~= seq![0usize, 1usize, 4usize, 5usize]);
    let args = common::deal(
        key.cores.as_slice(),
        key.tile_count,
        &writer,
        &reader,
        &compute,
        writer_dynamic,
        reader_dynamic,
    )?;
    let compute_kernel = key.op.compute_source(key.input_dtype, sources)?;
    let mut compile = CompileConfig::plain(
        common::list_two_input_cbs(key.input_dtype, key.output_dtype),
    );
    compile.dst_accum_mode = match key.input_dtype {
        DType::Int32 | DType::UInt32 | DType::Float32 => true,
        _ => false,
    };
    Ok(
        LoweredProgram::uniform(
            reader_source.to_owned(),
            compute_kernel,
            writer_source.to_owned(),
            key.op.kernel_name(key.input_dtype, key.output_dtype),
            compile,
            args,
        ),
    )
}

/// An operand: a tensor, or one value for all elements.
#[derive(Clone, Copy, Debug)]
pub enum EltwiseInput<'a> {
    Dram(&'a DramBuffer),
    Constant(u32),
}

/// Why an operand is refused.
pub open spec fn operand_refusal<'a>(
    input: EltwiseInput<'a>,
    dtype: DType,
    shape: Seq<usize>,
    name: Seq<char>,
) -> Option<error::Refusal> {
    match input {
        EltwiseInput::Constant(_) => None,
        EltwiseInput::Dram(buffer) => if buffer.dtype != dtype {
            Some(
                error::invalid(
                    name + " requires "@ + dtype.shown() + " input, got "@ + buffer.dtype.shown(),
                ),
            )
        } else {
            common::layout_refusal(name, buffer.shape@, buffer.num_tiles as int, shape)
        },
    }
}

pub fn validate_input<'a>(input: EltwiseInput<'a>, dtype: DType, shape: &[usize], name: &str) -> (r:
    Result<(), Error>)
    ensures
        match r {
            Ok(_) => operand_refusal(input, dtype, shape@, name@) is None,
            Err(e) => operand_refusal(input, dtype, shape@, name@) == Some(e@),
        },
{
    match input {
        EltwiseInput::Constant(_) => Ok(()),
        EltwiseInput::Dram(buffer) => {
            if buffer.dtype != dtype {
                return Err(
                    error::invalid_input(
                        text::cat5(
                            name,
                            " requires ",
                            dtype.name(),
                            " input, got ",
                            buffer.dtype.name(),
                        ),
                    ),
                );
            }
            common::check_layout(name, buffer, shape)
        },
    }
}

/// The address of an operand; a constant has none.
pub open spec fn operand_addr<'a>(input: EltwiseInput<'a>) -> int {
    match input {
        EltwiseInput::Dram(buffer) => buffer.addr as int,
        EltwiseInput::Constant(_) => 0,
    }
}

fn input_addr<'a>(input: EltwiseInput<'a>, name: &str) -> (r: Result<u32, Error>)
    ensures
        match r {
            Ok(a) => a == operand_addr(input) && convert::u32_hex_refusal(
                operand_addr(input),
                name@,
            ) is None,
            Err(e) => convert::u32_hex_refusal(operand_addr(input), name@) == Some(e@),
        },
{
    match input {
        EltwiseInput::Dram(buffer) => convert::address_u32_hex(buffer.addr, name),
        EltwiseInput::Constant(_) => Ok(0),
    }
}

/// The value of a constant operand.
pub open spec fn operand_constant<'a>(input: EltwiseInput<'a>) -> Option<u32> {
    match input {
        EltwiseInput::Dram(_) => None,
        EltwiseInput::Constant(value) => Some(value),
    }
}

fn input_constant<'a>(input: EltwiseInput<'a>) -> (r: Option<u32>)
    ensures
        r == operand_constant(input),
{
    match input {
        EltwiseInput::Dram(_) => None,
        EltwiseInput::Constant(value) => Some(value),
    }
}

/// Why the operation cannot be run.
pub open spec fn request_refusal<'a>(
    available: Seq<CoreCoord>,
    lhs: EltwiseInput<'a>,
    rhs: EltwiseInput<'a>,
    dtype: DType,
    shape: Seq<usize>,
) -> Option<error::Refusal> {
    let left = operand_refusal(lhs, dtype, shape, "lhs"@);
    let right = operand_refusal(rhs, dtype, shape, "rhs"@);
    let left_addr = convert::u32_hex_refusal(operand_addr(lhs), "lhs address"@);
    let right_addr = convert::u32_hex_refusal(operand_addr(rhs), "rhs address"@);
    let count = convert::u32_refusal(dram::tile_count(shape)->0, "tile count"@);
    if dram::tile_count_refusal(shape) is Some {
        dram::tile_count_refusal(shape)
    } else if left is Some {
        left
    } else if right is Some {
        right
    } else if left_addr is Some {
        left_addr
    } else if right_addr is Some {
        right_addr
    } else if count is Some {
        count
    } else {
        kernel::select_refusal(available)
    }
}

/// Checks the operands of the operation and chooses the cores.
pub fn eltwise<'a>(
    available: &[CoreCoord],
    op: BinaryEltwiseOp,
    lhs: EltwiseInput<'a>,
    rhs: EltwiseInput<'a>,
    input_dtype: DType,
    shape: &[usize],
) -> (r: Result<KernelRequest<BinaryEltwiseProgramKey>, Error>)
    ensures
        match r {
            Ok(q) => {
                &&& request_refusal(available@, lhs, rhs, input_dtype, shape@) is None
                &&& dram::tile_count(shape@) == Some(q.output_tiles as int)
                &&& q.output_shape@ == dram::tiled_shape(shape@)
                &&& q.key.op == op
                &&& q.key.tile_count == q.output_tiles
                &&& q.key.input_dtype == input_dtype
                &&& q.key.output_dtype == op.result_type(input_dtype)
                &&& q.key.cores@ == kernel::chosen_cores(available@, q.output_tiles as int)
            },
            Err(e) => request_refusal(available@, lhs, rhs, input_dtype, shape@) == Some(e@),
        },
{
    let output_tiles: usize = dram::tiled_shape_tile_count(shape)?;
    validate_input(lhs, input_dtype, shape, "lhs")?;
    validate_input(rhs, input_dtype, shape, "rhs")?;
    let _lhs_addr: u32 = input_addr(lhs, "lhs address")?;
    let _rhs_addr: u32 = input_addr(rhs, "rhs address")?;
    let tile_count: u32 = convert::to_u32(output_tiles, "tile count")?;
    let cores = kernel::select_worker_cores(available, output_tiles)?;
    let output_shape = dram::tiled_allocation_shape(shape)?;
    Ok(
        KernelRequest {
            key: BinaryEltwiseProgramKey {
                op,
                cores,
                tile_count,
                input_dtype,
                output_dtype: op.output_dtype(input_dtype),
            },
            output_tiles,
            output_shape,
        },
    )
}

/// Why the addresses of one run are refused.
pub open spec fn kernel_refusal<'a>(lhs: EltwiseInput<'a>, rhs: EltwiseInput<'a>, output: u64) -> Option<
    error::Refusal,
> {
    let left = convert::u32_hex_refusal(operand_addr(lhs), "lhs address"@);
    let right = convert::u32_hex_refusal(operand_addr(rhs), "rhs address"@);
    if left is Some {
        left
    } else if right is Some {
        right
    } else {
        convert::u32_hex_refusal(output as int, "output address"@)
    }
}

/// The kernel of the operation with the addresses of one run.
pub fn eltwise_kernel<'a>(
    lhs: EltwiseInput<'a>,
    rhs: EltwiseInput<'a>,
    output_addr: u64,
    key: BinaryEltwiseProgramKey,
) -> (r: Result<BinaryEltwiseKernel, Error>)
    ensures
        match r {
            Ok(k) => {
                &&& kernel_refusal(lhs, rhs, output_addr) is None
                &&& k.lhs_addr == operand_addr(lhs)
                &&& k.rhs_addr == operand_addr(rhs)
                &&& k.lhs_constant == operand_constant(lhs)
                &&& k.rhs_constant == operand_constant(rhs)
                &&& k.output_addr == output_addr
                &&& k.key == key
            },
            Err(e) => kernel_refusal(lhs, rhs, output_addr) == Some(e@),
        },
{
    let lhs_addr: u32 = input_addr(lhs, "lhs address")?;
    let rhs_addr: u32 = input_addr(rhs, "rhs address")?;
    let output_addr: u32 = convert::address_u32_hex(output_addr, "output address")?;
    Ok(
        BinaryEltwiseKernel {
            lhs_addr,
            rhs_addr,
            lhs_constant: input_constant(lhs),
            rhs_constant: input_constant(rhs),
            output_addr,
            key,
        },
    )
}

} // verus!
