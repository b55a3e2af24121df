//! Bitwise operations on two tensors.

use vstd::prelude::*;
use crate::arith;
use crate::convert;
use crate::dram;
use crate::dram::{DType, DramBuffer};
use crate::error;
use crate::error::Error;
use crate::executable::BitwiseBinaryKind;
use crate::hw::CoreCoord;
use crate::kernels::common;
use crate::kernels::common::{DramKernel, KernelRequest};
use crate::kernels::kernel;
use crate::kernels::lowering;
use crate::kernels::lowering::{CompileConfig, LoweredProgram};
use crate::kernels::reduce;
use crate::text;

verus! {

/// What the program depends on.
#[derive(Clone, Debug, Hash, PartialEq, Eq)]
pub struct BitwiseProgramKey {
    pub cores: Vec<CoreCoord>,
    pub dtype: DType,
    pub kind: BitwiseBinaryKind,
    pub tile_count: u32,
}

/// The number by which the kernel knows an operation.
pub open spec fn op_code(kind: BitwiseBinaryKind) -> u32 {
    match kind {
        BitwiseBinaryKind::And => 0,
        BitwiseBinaryKind::Or => 1,
        BitwiseBinaryKind::Xor => 2,
        BitwiseBinaryKind::ShiftLeft => 3,
        BitwiseBinaryKind::ShiftRightLogical => 4,
        BitwiseBinaryKind::ShiftRightArithmetic => 5,
    }
}

pub fn bitwise_op_value(kind: BitwiseBinaryKind) -> (r: u32)
    ensures
        r == op_code(kind),
{
    match kind {
        BitwiseBinaryKind::And => 0,
        BitwiseBinaryKind::Or => 1,
        BitwiseBinaryKind::Xor => 2,
        BitwiseBinaryKind::ShiftLeft => 3,
        BitwiseBinaryKind::ShiftRightLogical => 4,
        BitwiseBinaryKind::ShiftRightArithmetic => 5,
    }
}

/// Different operations have different numbers.
pub proof fn lemma_op_codes_differ(a: BitwiseBinaryKind, b: BitwiseBinaryKind)
    ensures
        op_code(a) == op_code(b) <==> a == b,
{
}

/// The unsigned word of the generated code for an element.
pub open spec fn unsigned_word(dtype: DType) -> Seq<char> {
    match dtype {
        DType::UInt16 => "uint16_t"@,
        DType::UInt8 => "uint8_t"@,
        _ => "uint32_t"@,
    }
}

pub fn unsigned_element_type(dtype: DType) -> (r: &'static str)
    ensures
        r@ == unsigned_word(dtype),
{
    match dtype {
        DType::UInt16 => "uint16_t",
        DType::UInt8 => "uint8_t",
        _ => "uint32_t",
    }
}

/// The signed word of the generated code for an element.
pub open spec fn signed_word(dtype: DType) -> Seq<char> {
    match dtype {
        DType::UInt16 => "int16_t"@,
        DType::UInt8 => "int8_t"@,
        _ => "int32_t"@,
    }
}

pub fn signed_element_type(dtype: DType) -> (r: &'static str)
    ensures
        r@ == signed_word(dtype),
{
    match dtype {
        DType::UInt16 => "int16_t",
        DType::UInt8 => "int8_t",
        _ => "int32_t",
    }
}

/// The bits of an element.
pub open spec fn width_of(dtype: DType) -> u32 {
    match dtype {
        DType::UInt16 => 16,
        DType::UInt8 => 8,
        _ => 32,
    }
}

pub fn bit_width(dtype: DType) -> (r: u32)
    ensures
        r == width_of(dtype),
{
    match dtype {
        DType::UInt16 => 16,
        DType::UInt8 => 8,
        _ => 32,
    }
}

/// The source of the reader, which also combines the elements.
pub open spec fn reader_text(kind: BitwiseBinaryKind, dtype: DType, body: Seq<char>) -> Seq<char> {
    common::definition("BITWISE_OP"@, text::dec(op_code(kind) as int)) + common::definition(
        "BITWISE_ELEMENT_TYPE"@,
        unsigned_word(dtype),
    ) + common::definition("BITWISE_SIGNED_ELEMENT_TYPE"@, signed_word(dtype))
        + common::definition("BITWISE_UNSIGNED_ELEMENT_TYPE"@, unsigned_word(dtype))
        + common::definition("BITWISE_BIT_WIDTH"@, text::dec(width_of(dtype) as int)) + body
}

/// Generates the source of the reader in front of its fixed part.
pub fn bitwise_reader_source(kind: BitwiseBinaryKind, dtype: DType, body: &str) -> (r: String)
    ensures
        r@ == reader_text(kind, dtype, body@),
{
    let op = text::decimal_u32(bitwise_op_value(kind));
    let mut out = common::defined("BITWISE_OP", op.as_str());
    common::define(&mut out, "BITWISE_ELEMENT_TYPE", unsigned_element_type(dtype));
    common::define(&mut out, "BITWISE_SIGNED_ELEMENT_TYPE", signed_element_type(dtype));
    common::define(&mut out, "BITWISE_UNSIGNED_ELEMENT_TYPE", unsigned_element_type(dtype));
    common::define_word(&mut out, "BITWISE_BIT_WIDTH", bit_width(dtype));
    out.append(body);
    out
}

/// Builds the program from the fixed parts of its kernels.
pub fn bitwise_program(key: &BitwiseProgramKey, reader_body: &str, writer_source: &str) -> (r: Result<
    LoweredProgram,
    Error,
>)
    ensures
        match r {
            Ok(p) => {
                &&& lowering::listed_refusal(key.cores@) is None
                &&& p.reader_kernel@ == reader_text(key.kind, key.dtype, reader_body@)
                &&& p.compute_kernel@ == ""@
                &&& p.writer_kernel@ == writer_source@
                &&& p.is_uniform()
                &&& p.name@ == "bitwise_"@ + key.kind.shown() + "_"@ + key.dtype.shown()
                &&& p.compile@ == lowering::plain_config(
                    common::two_input_cbs(key.dtype, key.dtype),
                )
                &&& lowering::assigns(
                    p.runtime_args,
                    key.cores@,
                    common::copied(key.cores@, key.tile_count, 2),
                    0,
                    common::first_dynamic(1, 2),
                )
            },
            Err(e) => lowering::listed_refusal(key.cores@) == Some(e@),
        },
{
    let args = common::deal_copies(key.cores.as_slice(), key.tile_count, 2)?;
    Ok(
        LoweredProgram::uniform(
            bitwise_reader_source(key.kind, key.dtype, reader_body),
            "".to_owned(),
            writer_source.to_owned(),
            text::cat4("bitwise_", key.kind.name(), "_", key.dtype.name()),
            CompileConfig::plain(common::list_two_input_cbs(key.dtype, key.dtype)),
            args,
        ),
    )
}

/// Why the tensors are refused.
pub open spec fn buffers_refusal(
    lhs: DramBuffer,
    rhs: DramBuffer,
    shape: Seq<usize>,
    dtype: DType,
) -> Option<error::Refusal> {
    let stored = dram::tiled_shape(shape);
    let tiles = dram::tile_count(shape)->0;
    if !reduce::holds_bits(dtype) {
        Some(error::invalid("bitwise binary does not support dtype "@ + dtype.shown()))
    } else if lhs.dtype != dtype || rhs.dtype != dtype {
        Some(
            error::invalid(
                "bitwise inputs require "@ + dtype.shown() + ", got "@ + lhs.dtype.shown()
                    + " and "@ + rhs.dtype.shown(),
            ),
        )
    } else if dram::tiled_shape_refusal(shape) is Some {
        dram::tiled_shape_refusal(shape)
    } else if lhs.shape@ != stored || rhs.shape@ != stored {
        Some(
            error::invalid(
                "bitwise allocation shape mismatch: expected "@ + text::list_text(
                    arith::ints(stored),
                ) + ", got lhs "@ + text::list_text(arith::ints(lhs.shape@)) + ", rhs "@
                    + text::list_text(arith::ints(rhs.shape@)),
            ),
        )
    } else if dram::tile_count_refusal(shape) is Some {
        dram::tile_count_refusal(shape)
    } else if lhs.num_tiles != tiles || rhs.num_tiles != tiles {
        Some(
            error::invalid(
                "bitwise tile count mismatch: expected "@ + text::dec(tiles) + ", got lhs "@
                    + text::dec(lhs.num_tiles as int) + ", rhs "@ + text::dec(
                    rhs.num_tiles as int,
                ),
            ),
        )
    } else {
        None
    }
}

pub fn validate(lhs: &DramBuffer, rhs: &DramBuffer, shape: &[usize], dtype: DType) -> (r: Result<
    (),
    Error,
>)
    ensures
        match r {
            Ok(_) => buffers_refusal(*lhs, *rhs, shape@, dtype) is None,
            Err(e) => buffers_refusal(*lhs, *rhs, shape@, dtype) == Some(e@),
        },
{
    match dtype {
        DType::Int32 | DType::UInt32 | DType::UInt16 | DType::UInt8 => {},
        _ => {
            return Err(
                error::invalid_input(
                    text::cat2("bitwise binary does not support dtype ", dtype.name()),
                ),
            );
        },
    }
    if lhs.dtype != dtype || rhs.dtype != dtype {
        return Err(
            error::invalid_input(
                text::cat6(
                    "bitwise inputs require ",
                    dtype.name(),
                    ", got ",
                    lhs.dtype.name(),
                    " and ",
                    rhs.dtype.name(),
                ),
            ),
        );
    }
    let stored = dram::tiled_allocation_shape(shape)?;
    if !arith::same_usizes(lhs.shape.as_slice(), stored.as_slice()) || !arith::same_usizes(
        rhs.shape.as_slice(),
        stored.as_slice(),
    ) {
        return Err(
            error::invalid_input(
                text::cat6(
                    "bitwise allocation shape mismatch: expected ",
                    text::shape_text(stored.as_slice()).as_str(),
                    ", got lhs ",
                    text::shape_text(lhs.shape.as_slice()).as_str(),
                    ", rhs ",
                    text::shape_text(rhs.shape.as_slice()).as_str(),
                ),
            ),
        );
    }
    let tiles: usize = dram::tiled_shape_tile_count(shape)?;
    if lhs.num_tiles != tiles || rhs.num_tiles != tiles {
        return Err(
            error::invalid_input(
                text::cat6(
                    "bitwise tile count mismatch: expected ",
                    text::decimal_usize(tiles).as_str(),
                    ", got lhs ",
                    text::decimal_usize(lhs.num_tiles).as_str(),
                    ", rhs ",
                    text::decimal_usize(rhs.num_tiles).as_str(),
                ),
            ),
        );
    }
    Ok(())
}

/// Why the operation cannot be run.
pub open spec fn request_refusal(
    available: Seq<CoreCoord>,
    lhs: DramBuffer,
    rhs: DramBuffer,
    shape: Seq<usize>,
    dtype: DType,
) -> Option<error::Refusal> {
    let tiles = dram::tile_count(shape)->0;
    if buffers_refusal(lhs, rhs, shape, dtype) is Some {
        buffers_refusal(lhs, rhs, shape, dtype)
    } else if convert::u32_hex_refusal(tiles, "bitwise tile count"@) is Some {
        convert::u32_hex_refusal(tiles, "bitwise tile count"@)
    } else {
        kernel::select_refusal(available)
    }
}

/// Checks the tensors of the operation and chooses the cores.
pub fn bitwise_binary(
    available: &[CoreCoord],
    lhs: &DramBuffer,
    rhs: &DramBuffer,
    shape: &[usize],
    dtype: DType,
    kind: BitwiseBinaryKind,
) -> (r: Result<KernelRequest<BitwiseProgramKey>, Error>)
    ensures
        match r {
            Ok(q) => {
                &&& request_refusal(available@, *lhs, *rhs, shape@, dtype) is None
                &&& dram::tile_count(shape@) == Some(q.output_tiles as int)
                &&& q.output_shape@ == dram::tiled_shape(shape@)
                &&& q.key.tile_count == q.output_tiles
                &&& q.key.dtype == dtype
                &&& q.key.kind == kind
                &&& q.key.cores@ == kernel::chosen_cores(available@, q.output_tiles as int)
            },
            Err(e) => request_refusal(available@, *lhs, *rhs, shape@, dtype) == Some(e@),
        },
{
    validate(lhs, rhs, shape, dtype)?;
    let output_tiles: usize = dram::tiled_shape_tile_count(shape)?;
    let tile_count: u32 = convert::to_u32_hex(output_tiles, "bitwise tile count")?;
    let cores = kernel::select_worker_cores(available, output_tiles)?;
    let output_shape = dram::tiled_allocation_shape(shape)?;
    Ok(
        KernelRequest {
            key: BitwiseProgramKey { cores, dtype, kind, tile_count },
            output_tiles,
            output_shape,
        },
    )
}

pub open spec fn kernel_refusal(lhs: u64, rhs: u64, output: u64) -> Option<error::Refusal> {
    common::triple_refusal(
        lhs,
        "bitwise lhs address"@,
        rhs,
        "bitwise rhs address"@,
        output,
        "bitwise output address"@,
    )
}

/// The kernel of the operation with the addresses of one run.
pub fn bitwise_kernel(lhs_addr: u64, rhs_addr: u64, output_addr: u64, key: BitwiseProgramKey) -> (r:
    Result<DramKernel<BitwiseProgramKey>, Error>)
    ensures
        match r {
            Ok(k) => {
                &&& kernel_refusal(lhs_addr, rhs_addr, output_addr) is None
                &&& k.reader_addrs@ == seq![lhs_addr as u32, rhs_addr as u32]
                &&& k.output_addr == output_addr
                &&& k.key == key
            },
            Err(e) => kernel_refusal(lhs_addr, rhs_addr, output_addr) == Some(e@),
        },
{
    common::triple_kernel(
        lhs_addr,
        "bitwise lhs address",
        rhs_addr,
        "bitwise rhs address",
        output_addr,
        "bitwise output address",
        key,
    )
}

} // verus!
