//! The program of a reduction.

use vstd::prelude::*;
use crate::arith;
use crate::convert;
use crate::dram;
use crate::dram::DType;
use crate::error;
use crate::error::Error;
use crate::hw::CoreCoord;
use crate::kernels::common;
use crate::kernels::common::DramKernel;
use crate::kernels::dims;
use crate::kernels::kernel::{CoreArgs, PerCoreRuntimeArgs};
use crate::kernels::lowering;
use crate::kernels::lowering::{CompileConfig, KernelCb, LoweredProgram};
use crate::kernels::reduce::ranges;
use crate::kernels::reduce::ranges::{ReduceCoreRange, ReduceKernelShape};
use crate::kernels::reduce::{ReduceOp, ReducePlan};
use crate::text;

verus! {

/// What the program of a reduction depends on.
#[derive(Clone, Debug, Hash, PartialEq, Eq)]
pub struct ReduceProgramKey {
    pub cores: Vec<CoreCoord>,
    pub dtype: DType,
    pub op: ReduceOp,
    pub input_shape: Vec<u32>,
    pub output_shape: Vec<u32>,
    pub input_tile_rows: u32,
    pub input_tiles_per_row: u32,
    pub shape: ReduceKernelShape,
    pub identity: Option<u32>,
}

/// Whether whole tiles of a row are combined at once.
pub open spec fn tiled_last(k: ReduceProgramKey) -> bool {
    &&& k.dtype == DType::Float32
    &&& k.op != ReduceOp::Min
    &&& k.shape.reduce_dim == arith::max2(k.input_shape@.len() - 1, 0)
}

pub fn use_tiled_last_dim(key: &ReduceProgramKey) -> (r: bool)
    ensures
        r == tiled_last(*key),
{
    let rank: usize = key.input_shape.len();
    let last: usize = if rank > 0 {
        rank - 1
    } else {
        0
    };
    key.dtype == DType::Float32 && key.op != ReduceOp::Min && key.shape.reduce_dim as usize == last
}

/// The type in which the compute kernel combines elements.
pub open spec fn compute_type(dtype: DType) -> Option<DType> {
    match dtype {
        DType::Float16B => Some(DType::Float32),
        DType::Float32 | DType::Int32 | DType::UInt32 | DType::UInt16 | DType::UInt8 => Some(dtype),
        _ => None,
    }
}

pub open spec fn compute_type_refusal(dtype: DType) -> Option<error::Refusal> {
    if compute_type(dtype) is None {
        Some(error::invalid("reduce compute kernel does not support dtype "@ + dtype.shown()))
    } else {
        None
    }
}

pub fn reduce_compute_dtype(dtype: DType) -> (r: Result<DType, Error>)
    ensures
        match r {
            Ok(d) => compute_type(dtype) == Some(d),
            Err(e) => compute_type_refusal(dtype) == Some(e@),
        },
{
    match dtype {
        DType::Float16B => Ok(DType::Float32),
        DType::Float32 | DType::Int32 | DType::UInt32 | DType::UInt16 | DType::UInt8 => Ok(dtype),
        _ => Err(
            error::invalid_input(
                text::cat2("reduce compute kernel does not support dtype ", dtype.name()),
            ),
        ),
    }
}

/// The name of a type in the compute kernel.
pub open spec fn format_name(dtype: DType) -> Seq<char> {
    match dtype {
        DType::Float32 => "DataFormat::Float32"@,
        DType::Float16B => "DataFormat::Float16_b"@,
        DType::Int32 => "DataFormat::Int32"@,
        DType::UInt32 => "DataFormat::UInt32"@,
        DType::UInt16 => "DataFormat::UInt16"@,
        DType::UInt8 => "DataFormat::UInt8"@,
        _ => "DataFormat::Invalid"@,
    }
}

pub fn data_format(dtype: DType) -> (r: &'static str)
    ensures
        r@ == format_name(dtype),
{
    match dtype {
        DType::Float32 => "DataFormat::Float32",
        DType::Float16B => "DataFormat::Float16_b",
        DType::Int32 => "DataFormat::Int32",
        DType::UInt32 => "DataFormat::UInt32",
        DType::UInt16 => "DataFormat::UInt16",
        DType::UInt8 => "DataFormat::UInt8",
        _ => "DataFormat::Invalid",
    }
}

/// A truth value as the generated code writes it.
pub open spec fn bit(b: bool) -> Seq<char> {
    if b {
        "1"@
    } else {
        "0"@
    }
}

pub fn bool_define(value: bool) -> (r: &'static str)
    ensures
        r@ == bit(value),
{
    if value {
        "1"
    } else {
        "0"
    }
}

/// The type of an element in the generated code.
pub open spec fn element_name(dtype: DType, op: ReduceOp) -> Option<Seq<char>> {
    if op.bitwise() {
        match dtype {
            DType::Int32 | DType::UInt32 => Some("uint32_t"@),
            DType::UInt16 => Some("uint16_t"@),
            DType::UInt8 => Some("uint8_t"@),
            _ => None,
        }
    } else {
        match dtype {
            DType::Float32 => Some("float"@),
            DType::Float16B => Some("uint16_t"@),
            DType::Int32 => Some("int32_t"@),
            DType::UInt32 => Some("uint32_t"@),
            DType::UInt16 => Some("uint16_t"@),
            _ => None,
        }
    }
}

pub open spec fn element_refusal(dtype: DType, op: ReduceOp) -> Option<error::Refusal> {
    if element_name(dtype, op) is Some {
        None
    } else if op.bitwise() {
        Some(error::invalid("bitwise reduce does not support dtype "@ + dtype.shown()))
    } else {
        Some(error::invalid("reduce kernel does not support dtype "@ + dtype.shown()))
    }
}

pub fn reduce_element_type(dtype: DType, op: ReduceOp) -> (r: Result<&'static str, Error>)
    ensures
        match r {
            Ok(s) => element_name(dtype, op) == Some(s@),
            Err(e) => element_refusal(dtype, op) == Some(e@),
        },
{
    if op.is_bitwise() {
        return match dtype {
            DType::Int32 | DType::UInt32 => Ok("uint32_t"),
            DType::UInt16 => Ok("uint16_t"),
            DType::UInt8 => Ok("uint8_t"),
            _ => Err(
                error::invalid_input(
                    text::cat2("bitwise reduce does not support dtype ", dtype.name()),
                ),
            ),
        };
    }
    match dtype {
        DType::Float32 => Ok("float"),
        DType::Float16B => Ok("uint16_t"),
        DType::Int32 => Ok("int32_t"),
        DType::UInt32 => Ok("uint32_t"),
        DType::UInt16 => Ok("uint16_t"),
        _ => Err(
            error::invalid_input(
                text::cat2("reduce kernel does not support dtype ", dtype.name()),
            ),
        ),
    }
}

/// The literal in the generated code that leaves other elements as they are.
pub open spec fn identity_text(k: ReduceProgramKey) -> Seq<char> {
    if k.op.bitwise() {
        text::dec(k.identity->0 as int) + "u"@
    } else {
        k.op.literal(k.dtype)->0
    }
}

pub open spec fn identity_refusal(k: ReduceProgramKey) -> Option<error::Refusal> {
    if k.op.bitwise() {
        if k.identity is None {
            Some(error::invalid("bitwise reduce requires an identity value"@))
        } else {
            None
        }
    } else {
        k.op.literal_refusal(k.dtype)
    }
}

pub fn reduce_identity_literal(key: &ReduceProgramKey) -> (r: Result<String, Error>)
    ensures
        match r {
            Ok(s) => identity_refusal(*key) is None && s@ == identity_text(*key),
            Err(e) => identity_refusal(*key) == Some(e@),
        },
{
    if key.op.is_bitwise() {
        return match key.identity {
            Some(v) => Ok(text::cat2(text::decimal_u32(v).as_str(), "u")),
            None => Err(error::invalid_text("bitwise reduce requires an identity value")),
        };
    }
    let literal = key.op.identity_literal(key.dtype)?;
    Ok(literal.to_owned())
}

/// The source of the reader.
pub open spec fn reader_text(k: ReduceProgramKey, body: Seq<char>) -> Seq<char> {
    common::definition("REDUCE_LAST_DIM_TILED"@, bit(tiled_last(k))) + common::definition(
        "REDUCE_RANK"@,
        text::dec(k.input_shape@.len() as int),
    ) + common::definition("REDUCE_DIMENSION"@, text::dec(k.shape.reduce_dim as int))
        + common::definition(
        "REDUCE_INPUT_SHAPE"@,
        text::cpp_array(text::ints_u32(k.input_shape@)),
    ) + common::definition(
        "REDUCE_OUTPUT_SHAPE"@,
        text::cpp_array(text::ints_u32(k.output_shape@)),
    ) + common::definition("REDUCE_INPUT_TILE_ROWS"@, text::dec(k.input_tile_rows as int))
        + common::definition(
        "REDUCE_INPUT_TILES_PER_ROW"@,
        text::dec(k.input_tiles_per_row as int),
    ) + common::definition(
        "REDUCE_INNER_OUTPUT_TILES"@,
        text::dec(k.shape.inner_output_tiles as int),
    ) + common::definition("REDUCE_IDENTITY"@, identity_text(k)) + common::definition(
        "REDUCE_ELEMENT_TYPE"@,
        element_name(k.dtype, k.op)->0,
    ) + body
}

pub open spec fn reader_refusal(k: ReduceProgramKey) -> Option<error::Refusal> {
    if identity_refusal(k) is Some {
        identity_refusal(k)
    } else {
        element_refusal(k.dtype, k.op)
    }
}

/// Generates the source of the reader in front of its fixed part.
pub fn reduce_reader_source(key: &ReduceProgramKey, body: &str) -> (r: Result<String, Error>)
    ensures
        match r {
            Ok(s) => reader_refusal(*key) is None && s@ == reader_text(*key, body@),
            Err(e) => reader_refusal(*key) == Some(e@),
        },
{
    let identity = reduce_identity_literal(key)?;
    let element = reduce_element_type(key.dtype, key.op)?;
    let mut out = common::defined("REDUCE_LAST_DIM_TILED", bool_define(use_tiled_last_dim(key)));
    let rank = text::decimal_usize(key.input_shape.len());
    common::define(&mut out, "REDUCE_RANK", rank.as_str());
    common::define_word(&mut out, "REDUCE_DIMENSION", key.shape.reduce_dim);
    common::define_words(&mut out, "REDUCE_INPUT_SHAPE", &key.input_shape);
    common::define_words(&mut out, "REDUCE_OUTPUT_SHAPE", &key.output_shape);
    common::define_word(&mut out, "REDUCE_INPUT_TILE_ROWS", key.input_tile_rows);
    common::define_word(&mut out, "REDUCE_INPUT_TILES_PER_ROW", key.input_tiles_per_row);
    common::define_word(&mut out, "REDUCE_INNER_OUTPUT_TILES", key.shape.inner_output_tiles);
    common::define(&mut out, "REDUCE_IDENTITY", identity.as_str());
    common::define(&mut out, "REDUCE_ELEMENT_TYPE", element);
    out.append(body);
    Ok(out)
}

/// The source of the compute kernel: its fixed part with the names filled in.
pub open spec fn compute_text(op: ReduceOp, dtype: DType, tiled: bool, body: Seq<char>) -> Seq<
    char,
> {
    let a = text::replaced(body, "REDUCE_LAST_DIM_TILED"@, bit(tiled));
    let b = text::replaced(a, "REDUCE_DATA_FORMAT"@, format_name(dtype));
    let c = text::replaced(b, "REDUCE_POOL_TYPE"@, op.pool());
    let d = text::replaced(c, "REDUCE_IS_SUM"@, bit(op == ReduceOp::Sum));
    let e = text::replaced(d, "REDUCE_IS_MIN"@, bit(op == ReduceOp::Min));
    let f = text::replaced(e, "REDUCE_IS_OR"@, bit(op == ReduceOp::Or));
    text::replaced(f, "REDUCE_IS_BITWISE"@, bit(op.bitwise()))
}

pub fn reduce_compute_source(op: ReduceOp, compute_dtype: DType, tiled: bool, body: &str) -> (r:
    String)
    ensures
        r@ == compute_text(op, compute_dtype, tiled, body@),
{
    proof {
        reveal_strlit("REDUCE_LAST_DIM_TILED");
        reveal_strlit("REDUCE_DATA_FORMAT");
        reveal_strlit("REDUCE_POOL_TYPE");
        reveal_strlit("REDUCE_IS_SUM");
        reveal_strlit("REDUCE_IS_MIN");
        reveal_strlit("REDUCE_IS_OR");
        reveal_strlit("REDUCE_IS_BITWISE");
    }
    let a = text::replace_text(body, "REDUCE_LAST_DIM_TILED", bool_define(tiled));
    let b = text::replace_text(a.as_str(), "REDUCE_DATA_FORMAT", data_format(compute_dtype));
    let c = text::replace_text(b.as_str(), "REDUCE_POOL_TYPE", op.cpp_pool_type());
    let d = text::replace_text(c.as_str(), "REDUCE_IS_SUM", bool_define(op == ReduceOp::Sum));
    let e = text::replace_text(d.as_str(), "REDUCE_IS_MIN", bool_define(op == ReduceOp::Min));
    let f = text::replace_text(e.as_str(), "REDUCE_IS_OR", bool_define(op == ReduceOp::Or));
    text::replace_text(f.as_str(), "REDUCE_IS_BITWISE", bool_define(op.is_bitwise()))
}

/// The arguments of a core with the given range.
pub open spec fn range_args(k: ReduceProgramKey, x: ReduceCoreRange) -> CoreArgs {
    let s = k.shape;
    let writer = seq![
        0u32,
        x.group_offset,
        x.reduce_groups,
        s.inner_output_tiles,
        x.output_tile_offset,
        x.output_tiles,
        s.output_dim0,
        s.output_dim1,
        s.output_tile_rows_per_prefix,
    ];
    if tiled_last(k) {
        (
            writer,
            seq![
                0u32,
                x.group_offset,
                x.reduce_groups,
                k.input_tiles_per_row,
                s.valid_last_width,
                k.op.padding(),
            ],
            seq![x.reduce_groups, k.input_tiles_per_row],
        )
    } else {
        (
            writer,
            seq![0u32, x.group_offset, x.reduce_groups, s.reduce_count],
            seq![x.reduce_groups, s.reduce_count],
        )
    }
}

/// The arguments of the cores.
pub open spec fn program_args(k: ReduceProgramKey) -> spec_fn(int) -> CoreArgs {
    |j: int| range_args(k, ranges::core_range(k.shape, j, k.cores@.len() as int))
}

/// The most output tiles that one of the ranges has; one where there is none.
pub open spec fn most_tiles(list: Seq<ReduceCoreRange>) -> int
    decreases list.len(),
{
    if list.len() == 0 {
        1
    } else if list.len() == 1 {
        list[0].output_tiles as int
    } else {
        arith::max2(most_tiles(list.drop_last()), list.last().output_tiles as int)
    }
}

fn find_most_tiles(list: &Vec<ReduceCoreRange>) -> (r: u32)
    ensures
        r == most_tiles(list@),
{
    let mut most: u32 = 1;
    for i in 0..list.len()
        invariant
            most == most_tiles(list@.take(i as int)),
    {
        assert(list@.take(i + 1).drop_last() =~= list@.take(i as int));
        let t: u32 = list[i].output_tiles;
        if i == 0 || t > most {
            most = t;
        }
    }
    assert(list@.take(list@.len() as int) =~= list@);
    most
}

fn list_args(key: &ReduceProgramKey, list: &Vec<ReduceCoreRange>) -> (r: Vec<PerCoreRuntimeArgs>)
    ensures
        r@.len() == list@.len(),
        forall|j: int| 0 <= j < list@.len() ==> (#[trigger] r@[j])@ == range_args(*key, list@[j]),
{
    let tiled: bool = use_tiled_last_dim(key);
    let s: ReduceKernelShape = key.shape;
    let mut out: Vec<PerCoreRuntimeArgs> = Vec::new();
    for i in 0..list.len()
        invariant
            tiled == tiled_last(*key),
            s == key.shape,
            out@.len() == i,
            forall|j: int| 0 <= j < i ==> (#[trigger] out@[j])@ == range_args(*key, list@[j]),
    {
        let x: ReduceCoreRange = list[i];
        let writer: Vec<u32> = vec![
            0u32,
            x.group_offset,
            x.reduce_groups,
            s.inner_output_tiles,
            x.output_tile_offset,
            x.output_tiles,
            s.output_dim0,
            s.output_dim1,
            s.output_tile_rows_per_prefix,
        ];
        let reader: Vec<u32> = if tiled {
            vec![
                0u32,
                x.group_offset,
                x.reduce_groups,
                key.input_tiles_per_row,
                s.valid_last_width,
                key.op.padding_identity_bits(),
            ]
        } else {
            vec![0u32, x.group_offset, x.reduce_groups, s.reduce_count]
        };
        let compute: Vec<u32> = if tiled {
            vec![x.reduce_groups, key.input_tiles_per_row]
        } else {
            vec![x.reduce_groups, s.reduce_count]
        };
        let ghost want = range_args(*key, x);
        assert(writer@ =~= want.0);
        assert(reader@ =~= want.1);
        assert(compute@ =~= want.2);
        out.push(PerCoreRuntimeArgs { writer, reader, compute });
    }
    out
}

/// The buffers of the program.
pub open spec fn program_cbs(dtype: DType, compute: DType, tiles: usize) -> Seq<KernelCb> {
    seq![
        KernelCb { compute_dtype: compute, ..KernelCb::double(0, dtype) },
        KernelCb::double(1, dtype),
        KernelCb { compute_dtype: compute, ..KernelCb::double(16, dtype) },
        KernelCb::sized(17, dtype, tiles),
    ]
}

/// Why there is no program for a reduction.
pub open spec fn program_refusal(k: ReduceProgramKey) -> Option<error::Refusal> {
    if ranges::ranges_refusal(k.shape, k.cores@.len() as int) is Some {
        ranges::ranges_refusal(k.shape, k.cores@.len() as int)
    } else if lowering::listed_refusal(k.cores@) is Some {
        lowering::listed_refusal(k.cores@)
    } else if compute_type_refusal(k.dtype) is Some {
        compute_type_refusal(k.dtype)
    } else {
        reader_refusal(k)
    }
}

/// The fixed parts of the kernels.
#[derive(Debug)]
pub struct ReduceSources<'a> {
    pub reader: &'a str,
    pub compute: &'a str,
    pub writer: &'a str,
}

/// Builds the program of a reduction.
pub fn reduce_program(key: &ReduceProgramKey, sources: &ReduceSources<'_>) -> (r: Result<
    LoweredProgram,
    Error,
>)
    ensures
        match r {
            Ok(p) => {
                &&& program_refusal(*key) is None
                &&& p.reader_kernel@ == reader_text(*key, sources.reader@)
                &&& p.compute_kernel@ == compute_text(
                    key.op,
                    compute_type(key.dtype)->0,
                    tiled_last(*key),
                    sources.compute@,
                )
                &&& p.writer_kernel@ == common::definition(
                    "REDUCE_ELEMENT_TYPE"@,
                    element_name(key.dtype, key.op)->0,
                ) + sources.writer@
                &&& p.is_uniform()
                &&& p.name@ == "reduce_"@ + key.op.shown() + "_"@ + key.dtype.shown()
                &&& p.compile@ == (lowering::Config {
                    dst_accum_mode: true,
                    ..lowering::plain_config(
                        program_cbs(
                            key.dtype,
                            compute_type(key.dtype)->0,
                            most_tiles(
                                ranges::ranges_of(key.shape, key.cores@.len() as int),
                            ) as usize,
                        ),
                    )
                })
                &&& lowering::assigns(
                    p.runtime_args,
                    key.cores@,
                    program_args(*key),
                    0,
                    common::first_dynamic(1, 1),
                )
            },
            Err(e) => program_refusal(*key) == Some(e@),
        },
{
    let list = ranges::reduce_core_ranges(key.shape, key.cores.len())?;
    let most: u32 = find_most_tiles(&list);
    let each = list_args(key, &list);
    proof {
        assert forall|j: int| 0 <= j < each@.len() implies (#[trigger] each@[j])@.0.len()
            == each@[0]@.0.len() && each@[j]@.1.len() == each@[0]@.1.len() && each@[j]@.2.len()
            == each@[0]@.2.len() by {
            assert(each@[0]@ == range_args(*key, list@[0]));
        }
        if each@.len() > 0 {
            assert(each@[0]@ == range_args(*key, list@[0]));
        }
    }
    let writer_dynamic = common::index_list(1);
    let reader_dynamic = common::index_list(1);
    let args = lowering::lower_each(
        key.cores.as_slice(),
        &each,
        writer_dynamic,
        reader_dynamic,
    )?;
    proof {
        lowering::lemma_assigns_each(
            args,
            key.cores@,
            each@,
            program_args(*key),
            0,
            common::first_dynamic(1, 1),
        );
    }
    let compute_dtype = reduce_compute_dtype(key.dtype)?;
    let reader = reduce_reader_source(key, sources.reader)?;
    let tiled: bool = use_tiled_last_dim(key);
    let compute = reduce_compute_source(key.op, compute_dtype, tiled, sources.compute);
    let element = reduce_element_type(key.dtype, key.op)?;
    let mut writer = common::defined("REDUCE_ELEMENT_TYPE", element);
    writer.append(sources.writer);
    let cbs: Vec<KernelCb> = vec![
        KernelCb::new(0, key.dtype).with_compute_dtype(compute_dtype),
        KernelCb::new(1, key.dtype),
        KernelCb::new(16, key.dtype).with_compute_dtype(compute_dtype),
        KernelCb::new(17, key.dtype).with_tiles(most as usize),
    ];
    assert(cbs@ =~= program_cbs(key.dtype, compute_dtype, most as usize));
    let mut compile = CompileConfig::plain(cbs);
    compile.dst_accum_mode = true;
    Ok(
        LoweredProgram::uniform(
            reader,
            compute,
            writer,
            text::cat4("reduce_", key.op.name(), "_", key.dtype.name()),
            compile,
            args,
        ),
    )
}

/// Why the key of a reduction is refused.
pub open spec fn key_refusal(plan: ReducePlan) -> Option<error::Refusal> {
    let input = dims::shape_word_refusal(plan.input_shape@, "reduce input shape"@, 10);
    let output = dims::shape_word_refusal(plan.output_shape@, "reduce output shape"@, 10);
    let grid = common::tile_grid(plan.input_shape@);
    if input is Some {
        input
    } else if output is Some {
        output
    } else if convert::u32_refusal(grid.0, "reduce input tile rows"@) is Some {
        convert::u32_refusal(grid.0, "reduce input tile rows"@)
    } else {
        convert::u32_refusal(grid.1, "reduce input tiles per row"@)
    }
}

/// Why the addresses of a reduction or its key are refused.
pub open spec fn kernel_refusal(plan: ReducePlan, input_addr: u64, output_addr: u64) -> Option<
    error::Refusal,
> {
    let addresses = common::pair_refusal(
        input_addr,
        "input address"@,
        output_addr,
        "output address"@,
    );
    if dram::tiled_shape_refusal(plan.input_shape@) is Some {
        dram::tiled_shape_refusal(plan.input_shape@)
    } else if addresses is Some {
        addresses
    } else {
        key_refusal(plan)
    }
}

/// The kernel of a reduction with the addresses of one run.
pub fn reduce_kernel(plan: &ReducePlan, cores: Vec<CoreCoord>, input_addr: u64, output_addr: u64) -> (r:
    Result<DramKernel<ReduceProgramKey>, Error>)
    ensures
        match r {
            Ok(k) => {
                &&& kernel_refusal(*plan, input_addr, output_addr) is None
                &&& k.reader_addrs@ == seq![input_addr as u32]
                &&& k.output_addr == output_addr
                &&& k.key.cores == cores
                &&& k.key.dtype == plan.dtype
                &&& k.key.op == plan.op
                &&& k.key.input_shape@ == dims::narrowed(plan.input_shape@)
                &&& k.key.output_shape@ == dims::narrowed(plan.output_shape@)
                &&& (k.key.input_tile_rows as int, k.key.input_tiles_per_row as int)
                    == common::tile_grid(plan.input_shape@)
                &&& k.key.shape == plan.shape
                &&& k.key.identity == plan.identity
            },
            Err(e) => kernel_refusal(*plan, input_addr, output_addr) == Some(e@),
        },
{
    let (rows, cols) = common::find_tile_grid(plan.input_shape.as_slice())?;
    let pair = common::pair_kernel(
        input_addr,
        "input address",
        output_addr,
        "output address",
        (),
    )?;
    let input_shape = dims::u32_shape(plan.input_shape.as_slice(), "reduce input shape", false)?;
    let output_shape = dims::u32_shape(
        plan.output_shape.as_slice(),
        "reduce output shape",
        false,
    )?;
    let input_tile_rows: u32 = convert::to_u32(rows, "reduce input tile rows")?;
    let input_tiles_per_row: u32 = convert::to_u32(cols, "reduce input tiles per row")?;
    let key = ReduceProgramKey {
        cores,
        dtype: plan.dtype,
        op: plan.op,
        input_shape,
        output_shape,
        input_tile_rows,
        input_tiles_per_row,
        shape: plan.shape,
        identity: plan.identity,
    };
    Ok(DramKernel { reader_addrs: pair.reader_addrs, output_addr: pair.output_addr, key })
}

} // verus!
