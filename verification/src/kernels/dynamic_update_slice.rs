//! Dynamic update: a slice of a tensor exchanged for another tensor, at a place
//! that is only known when the kernel runs.

use vstd::prelude::*;
use crate::arith;
use crate::convert;
use crate::dram;
use crate::dram::{DType, DramBuffer};
use crate::error;
use crate::error::Error;
use crate::hw::CoreCoord;
use crate::kernels::common;
use crate::kernels::common::{DramKernel, KernelRequest};
use crate::kernels::dims;
use crate::kernels::kernel;
use crate::kernels::lowering;
use crate::kernels::lowering::{CompileConfig, KernelCb, LoweredProgram};
use crate::text;

verus! {

/// What the kernel is built for.
#[derive(Clone, Debug, Hash, PartialEq, Eq)]
pub struct DynamicUpdateSliceShape {
    pub operand_shape: Vec<u32>,
    pub update_shape: Vec<u32>,
    pub operand_tile_rows: u32,
    pub operand_tiles_per_row: u32,
    pub update_tile_rows: u32,
    pub update_tiles_per_row: u32,
    pub output_tiles: u32,
}

pub open spec fn grid_values(operand: Seq<usize>, update: Seq<usize>) -> Seq<usize> {
    seq![
        common::tile_grid(operand).0 as usize,
        common::tile_grid(operand).1 as usize,
        common::tile_grid(update).0 as usize,
        common::tile_grid(update).1 as usize,
        dram::tile_count(operand)->0 as usize,
    ]
}

pub open spec fn grid_names() -> Seq<&'static str> {
    seq![
        "dynamic_update_slice operand tile rows",
        "dynamic_update_slice operand tiles per row",
        "dynamic_update_slice update tile rows",
        "dynamic_update_slice update tiles per row",
        "dynamic_update_slice output tile count",
    ]
}

/// Why there is no kernel for an update.
pub open spec fn shape_refusal(operand: Seq<usize>, update: Seq<usize>) -> Option<error::Refusal> {
    let a = dims::shape_word_refusal(operand, "dynamic_update_slice operand shape"@, 16);
    let b = dims::shape_word_refusal(update, "dynamic_update_slice update shape"@, 16);
    if dram::tiled_shape_refusal(operand) is Some {
        dram::tiled_shape_refusal(operand)
    } else if dram::tiled_shape_refusal(update) is Some {
        dram::tiled_shape_refusal(update)
    } else if dram::tile_count_refusal(operand) is Some {
        dram::tile_count_refusal(operand)
    } else if a is Some {
        a
    } else if b is Some {
        b
    } else {
        common::hex_fields_refusal(grid_values(operand, update), grid_names())
    }
}

impl DynamicUpdateSliceShape {
    /// Whether this is the kernel of an update.
    pub open spec fn of(&self, operand: Seq<usize>, update: Seq<usize>) -> bool {
        &&& self.operand_shape@ == dims::narrowed(operand)
        &&& self.update_shape@ == dims::narrowed(update)
        &&& (self.operand_tile_rows as int, self.operand_tiles_per_row as int)
            == common::tile_grid(operand)
        &&& (self.update_tile_rows as int, self.update_tiles_per_row as int) == common::tile_grid(
            update,
        )
        &&& dram::tile_count(operand) == Some(self.output_tiles as int)
    }
}

/// Plans the kernel of an update.
pub fn dynamic_update_slice_shape(operand_shape: &[usize], update_shape: &[usize]) -> (r: Result<
    DynamicUpdateSliceShape,
    Error,
>)
    ensures
        match r {
            Ok(s) => shape_refusal(operand_shape@, update_shape@) is None && s.of(
                operand_shape@,
                update_shape@,
            ),
            Err(e) => shape_refusal(operand_shape@, update_shape@) == Some(e@),
        },
{
    let (operand_rows, operand_cols) = common::find_tile_grid(operand_shape)?;
    let (update_rows, update_cols) = common::find_tile_grid(update_shape)?;
    let tiles: usize = dram::tiled_shape_tile_count(operand_shape)?;
    let operand_words = dims::u32_shape(
        operand_shape,
        "dynamic_update_slice operand shape",
        true,
    )?;
    let update_words = dims::u32_shape(update_shape, "dynamic_update_slice update shape", true)?;
    let values: Vec<usize> = vec![operand_rows, operand_cols, update_rows, update_cols, tiles];
    let names: Vec<&'static str> = vec![
        "dynamic_update_slice operand tile rows",
        "dynamic_update_slice operand tiles per row",
        "dynamic_update_slice update tile rows",
        "dynamic_update_slice update tiles per row",
        "dynamic_update_slice output tile count",
    ];
    assert(values@ =~= grid_values(operand_shape@, update_shape@));
    assert(names@ =~= grid_names());
    let w = common::narrow_hex_fields(&values, &names)?;
    proof {
        common::lemma_narrowed(values@, names@);
    }
    Ok(
        DynamicUpdateSliceShape {
            operand_shape: operand_words,
            update_shape: update_words,
            operand_tile_rows: w[0],
            operand_tiles_per_row: w[1],
            update_tile_rows: w[2],
            update_tiles_per_row: w[3],
            output_tiles: w[4],
        },
    )
}

/// The tensors of an update.
#[derive(Debug)]
pub struct UpdateInputs<'a> {
    pub operand: &'a DramBuffer,
    pub update: &'a DramBuffer,
    pub start_indices: &'a [DramBuffer],
    pub operand_shape: &'a [usize],
    pub update_shape: &'a [usize],
    pub start_indices_shapes: &'a [Vec<usize>],
    pub dtype: DType,
}

/// The name of a start index.
pub open spec fn index_label(i: int) -> Seq<char> {
    "dynamic_update_slice start index "@ + text::dec(i)
}

/// Why the tensors of an update are refused.
pub open spec fn buffers_refusal(u: UpdateInputs<'_>) -> Option<error::Refusal> {
    let rank = u.operand_shape@.len() as int;
    let operand = "dynamic_update_slice operand"@;
    let update = "dynamic_update_slice update"@;
    let index = u.start_indices@[0];
    let index_shape = u.start_indices_shapes@[0]@;
    let a = common::layout_refusal(
        operand,
        u.operand.shape@,
        u.operand.num_tiles as int,
        u.operand_shape@,
    );
    let b = common::layout_refusal(
        update,
        u.update.shape@,
        u.update.num_tiles as int,
        u.update_shape@,
    );
    if rank != 1 {
        Some(
            error::invalid(
                "dynamic_update_slice currently supports rank-1 updates, got rank "@ + text::dec(
                    rank,
                ),
            ),
        )
    } else if u.update_shape@.len() != 1 {
        Some(
            error::invalid(
                "dynamic_update_slice update rank "@ + text::dec(u.update_shape@.len() as int)
                    + " must match operand rank "@ + text::dec(rank),
            ),
        )
    } else if u.start_indices@.len() != 1 || u.start_indices_shapes@.len() != 1 {
        Some(
            error::invalid(
                "dynamic_update_slice requires one scalar start index per rank dimension: rank="@
                    + text::dec(rank) + ", buffers="@ + text::dec(u.start_indices@.len() as int)
                    + ", shapes="@ + text::dec(u.start_indices_shapes@.len() as int),
            ),
        )
    } else if common::type_refusal(operand, u.operand.dtype, u.dtype) is Some {
        common::type_refusal(operand, u.operand.dtype, u.dtype)
    } else if common::type_refusal(update, u.update.dtype, u.dtype) is Some {
        common::type_refusal(update, u.update.dtype, u.dtype)
    } else if u.update_shape@[0] > u.operand_shape@[0] {
        Some(
            error::invalid(
                "dynamic_update_slice update dimension "@ + text::dec(0) + " size "@ + text::dec(
                    u.update_shape@[0] as int,
                ) + " exceeds operand size "@ + text::dec(u.operand_shape@[0] as int),
            ),
        )
    } else if a is Some {
        a
    } else if b is Some {
        b
    } else if common::type_refusal(index_label(0), index.dtype, DType::Int32) is Some {
        common::type_refusal(index_label(0), index.dtype, DType::Int32)
    } else if index_shape.len() != 0 {
        Some(
            error::invalid(
                index_label(0) + " must be scalar, got "@ + text::list_text(
                    arith::ints(index_shape),
                ),
            ),
        )
    } else {
        common::layout_refusal(index_label(0), index.shape@, index.num_tiles as int, index_shape)
    }
}

/// Checks the tensors of an update.
pub fn validate_buffers(u: &UpdateInputs<'_>) -> (r: Result<(), Error>)
    ensures
        match r {
            Ok(_) => buffers_refusal(*u) is None,
            Err(e) => buffers_refusal(*u) == Some(e@),
        },
{
    let rank: usize = u.operand_shape.len();
    if rank != 1 {
        return Err(
            error::invalid_input(
                text::cat2(
                    "dynamic_update_slice currently supports rank-1 updates, got rank ",
                    text::decimal_usize(rank).as_str(),
                ),
            ),
        );
    }
    if u.update_shape.len() != rank {
        return Err(
            error::invalid_input(
                text::cat4(
                    "dynamic_update_slice update rank ",
                    text::decimal_usize(u.update_shape.len()).as_str(),
                    " must match operand rank ",
                    text::decimal_usize(rank).as_str(),
                ),
            ),
        );
    }
    if u.start_indices.len() != rank || u.start_indices_shapes.len() != rank {
        return Err(
            error::invalid_input(
                text::cat6(
                    "dynamic_update_slice requires one scalar start index per rank dimension: rank=",
                    text::decimal_usize(rank).as_str(),
                    ", buffers=",
                    text::decimal_usize(u.start_indices.len()).as_str(),
                    ", shapes=",
                    text::decimal_usize(u.start_indices_shapes.len()).as_str(),
                ),
            ),
        );
    }
    common::check_type("dynamic_update_slice operand", u.operand.dtype, u.dtype)?;
    common::check_type("dynamic_update_slice update", u.update.dtype, u.dtype)?;
    if u.update_shape[0] > u.operand_shape[0] {
        return Err(
            error::invalid_input(
                text::cat6(
                    "dynamic_update_slice update dimension ",
                    text::decimal_usize(0).as_str(),
                    " size ",
                    text::decimal_usize(u.update_shape[0]).as_str(),
                    " exceeds operand size ",
                    text::decimal_usize(u.operand_shape[0]).as_str(),
                ),
            ),
        );
    }
    common::check_layout("dynamic_update_slice operand", u.operand, u.operand_shape)?;
    common::check_layout("dynamic_update_slice update", u.update, u.update_shape)?;
    let label = text::cat2(
        "dynamic_update_slice start index ",
        text::decimal_usize(0).as_str(),
    );
    let index = &u.start_indices[0];
    let index_shape = u.start_indices_shapes[0].as_slice();
    common::check_type(label.as_str(), index.dtype, DType::Int32)?;
    if index_shape.len() != 0 {
        return Err(
            error::invalid_input(
                text::cat3(
                    label.as_str(),
                    " must be scalar, got ",
                    text::shape_text(index_shape).as_str(),
                ),
            ),
        );
    }
    common::check_layout(label.as_str(), index, index_shape)
}

/// What the program of an update depends on.
#[derive(Clone, Debug, Hash, PartialEq, Eq)]
pub struct DynamicUpdateSliceProgramKey {
    pub cores: Vec<CoreCoord>,
    pub dtype: DType,
    pub shape: DynamicUpdateSliceShape,
}

/// The source of the reader.
pub open spec fn reader_text(dtype: DType, s: DynamicUpdateSliceShape, body: Seq<char>) -> Seq<
    char,
> {
    common::definition("DUS_RANK"@, text::dec(s.operand_shape@.len() as int)) + common::definition(
        "DUS_OPERAND_SHAPE"@,
        text::cpp_array(text::ints_u32(s.operand_shape@)),
    ) + common::definition("DUS_UPDATE_SHAPE"@, text::cpp_array(text::ints_u32(s.update_shape@)))
        + common::definition("DUS_OPERAND_TILE_ROWS"@, text::dec(s.operand_tile_rows as int))
        + common::definition(
        "DUS_OPERAND_TILES_PER_ROW"@,
        text::dec(s.operand_tiles_per_row as int),
    ) + common::definition("DUS_UPDATE_TILE_ROWS"@, text::dec(s.update_tile_rows as int))
        + common::definition(
        "DUS_UPDATE_TILES_PER_ROW"@,
        text::dec(s.update_tiles_per_row as int),
    ) + common::definition("DUS_ELEMENT_TYPE"@, common::element_word(dtype)) + body
}

/// Generates the source of the reader in front of its fixed part.
pub fn dynamic_update_slice_reader_source(
    dtype: DType,
    shape: &DynamicUpdateSliceShape,
    body: &str,
) -> (r: String)
    ensures
        r@ == reader_text(dtype, *shape, body@),
{
    let rank = text::decimal_usize(shape.operand_shape.len());
    let mut out = common::defined("DUS_RANK", rank.as_str());
    common::define_words(&mut out, "DUS_OPERAND_SHAPE", &shape.operand_shape);
    common::define_words(&mut out, "DUS_UPDATE_SHAPE", &shape.update_shape);
    common::define_word(&mut out, "DUS_OPERAND_TILE_ROWS", shape.operand_tile_rows);
    common::define_word(&mut out, "DUS_OPERAND_TILES_PER_ROW", shape.operand_tiles_per_row);
    common::define_word(&mut out, "DUS_UPDATE_TILE_ROWS", shape.update_tile_rows);
    common::define_word(&mut out, "DUS_UPDATE_TILES_PER_ROW", shape.update_tiles_per_row);
    common::define(&mut out, "DUS_ELEMENT_TYPE", common::element_type(dtype));
    out.append(body);
    out
}

pub open spec fn program_cbs(dtype: DType) -> Seq<KernelCb> {
    seq![
        KernelCb::double(0, dtype),
        KernelCb::double(1, DType::Int32),
        KernelCb::double(2, dtype),
        KernelCb::double(16, dtype),
    ]
}

/// Builds the program of an update from the fixed parts of its kernels. The reader
/// takes the addresses of the tensor, of the update and of one index for each
/// dimension.
pub fn dynamic_update_slice_program(
    key: &DynamicUpdateSliceProgramKey,
    reader_body: &str,
    writer_source: &str,
) -> (r: Result<LoweredProgram, Error>)
    requires
        8 * key.shape.operand_shape@.len() + 96 <= usize::MAX,
    ensures
        ({
            let rank = key.shape.operand_shape@.len() as int;
            match r {
                Ok(p) => {
                    &&& lowering::listed_refusal(key.cores@) is None
                    &&& p.reader_kernel@ == reader_text(key.dtype, key.shape, reader_body@)
                    &&& p.compute_kernel@ == ""@
                    &&& p.writer_kernel@ == writer_source@
                    &&& p.is_uniform()
                    &&& p.name@ == "dynamic_update_slice_"@ + key.dtype.shown() + "_"@
                        + text::dec(rank)
                    &&& p.compile@ == lowering::plain_config(program_cbs(key.dtype))
                    &&& lowering::assigns(
                        p.runtime_args,
                        key.cores@,
                        common::copied(key.cores@, key.shape.output_tiles, 2 + rank),
                        0,
                        common::first_dynamic(1, 2 + rank),
                    )
                },
                Err(e) => lowering::listed_refusal(key.cores@) == Some(e@),
            }
        }),
{
    let rank: usize = key.shape.operand_shape.len();
    let args = common::deal_copies(key.cores.as_slice(), key.shape.output_tiles, 2 + rank)?;
    let cbs: Vec<KernelCb> = vec![
        KernelCb::new(0, key.dtype),
        KernelCb::new(1, DType::Int32),
        KernelCb::new(2, key.dtype),
        KernelCb::new(16, key.dtype),
    ];
    assert(cbs@ =~= program_cbs(key.dtype));
    Ok(
        LoweredProgram::uniform(
            dynamic_update_slice_reader_source(key.dtype, &key.shape, reader_body),
            "".to_owned(),
            writer_source.to_owned(),
            text::cat4(
                "dynamic_update_slice_",
                key.dtype.name(),
                "_",
                text::decimal_usize(rank).as_str(),
            ),
            CompileConfig::plain(cbs),
            args,
        ),
    )
}

/// Why an update cannot be run.
pub open spec fn request_refusal(available: Seq<CoreCoord>, u: UpdateInputs<'_>) -> Option<
    error::Refusal,
> {
    if buffers_refusal(u) is Some {
        buffers_refusal(u)
    } else if shape_refusal(u.operand_shape@, u.update_shape@) is Some {
        shape_refusal(u.operand_shape@, u.update_shape@)
    } else {
        kernel::select_refusal(available)
    }
}

/// Checks an update and its tensors and chooses the cores.
pub fn dynamic_update_slice(available: &[CoreCoord], inputs: &UpdateInputs<'_>) -> (r: Result<
    KernelRequest<DynamicUpdateSliceProgramKey>,
    Error,
>)
    ensures
        match r {
            Ok(q) => {
                &&& request_refusal(available@, *inputs) is None
                &&& q.key.shape.of(inputs.operand_shape@, inputs.update_shape@)
                &&& q.key.dtype == inputs.dtype
                &&& q.output_tiles == q.key.shape.output_tiles
                &&& q.output_shape@ == dram::tiled_shape(inputs.operand_shape@)
                &&& q.key.cores@ == kernel::chosen_cores(available@, q.output_tiles as int)
            },
            Err(e) => request_refusal(available@, *inputs) == Some(e@),
        },
{
    validate_buffers(inputs)?;
    let shape = dynamic_update_slice_shape(inputs.operand_shape, inputs.update_shape)?;
    let output_tiles: usize = shape.output_tiles as usize;
    let cores = kernel::select_worker_cores(available, output_tiles)?;
    let output_shape = dram::tiled_allocation_shape(inputs.operand_shape)?;
    Ok(
        KernelRequest {
            key: DynamicUpdateSliceProgramKey { cores, dtype: inputs.dtype, shape },
            output_tiles,
            output_shape,
        },
    )
}

/// Why the address of start index `i` is refused.
pub open spec fn index_checks(starts: Seq<DramBuffer>) -> spec_fn(int) -> Option<error::Refusal> {
    |i: int| convert::u32_hex_refusal(starts[i].addr as int, index_label(i) + " address"@)
}

/// Why the addresses of an update are refused.
pub open spec fn kernel_refusal(operand: u64, update: u64, starts: Seq<DramBuffer>, output: u64) -> Option<
    error::Refusal,
> {
    let a = convert::u32_hex_refusal(operand as int, "dynamic_update_slice operand address"@);
    let b = convert::u32_hex_refusal(update as int, "dynamic_update_slice update address"@);
    let each = error::first_refusal(0, starts.len() as int, index_checks(starts));
    if a is Some {
        a
    } else if b is Some {
        b
    } else if each is Some {
        each
    } else {
        convert::u32_hex_refusal(output as int, "dynamic_update_slice output address"@)
    }
}

/// The addresses that the reader takes.
pub open spec fn reader_addrs(operand: u64, update: u64, starts: Seq<DramBuffer>) -> Seq<u32> {
    seq![operand as u32, update as u32] + starts.map_values(|b: DramBuffer| b.addr as u32)
}

/// The kernel of an update with the addresses of one run.
pub fn dynamic_update_slice_kernel(
    operand_addr: u64,
    update_addr: u64,
    start_indices: &[DramBuffer],
    output_addr: u64,
    key: DynamicUpdateSliceProgramKey,
) -> (r: Result<DramKernel<DynamicUpdateSliceProgramKey>, Error>)
    ensures
        ({
            let refusal = kernel_refusal(operand_addr, update_addr, start_indices@, output_addr);
            match r {
                Ok(k) => {
                    &&& refusal is None
                    &&& k.reader_addrs@ == reader_addrs(
                        operand_addr,
                        update_addr,
                        start_indices@,
                    )
                    &&& k.output_addr == output_addr
                    &&& k.key == key
                },
                Err(e) => refusal == Some(e@),
            }
        }),
{
    let operand: u32 = convert::address_u32_hex(
        operand_addr,
        "dynamic_update_slice operand address",
    )?;
    let update: u32 = convert::address_u32_hex(
        update_addr,
        "dynamic_update_slice update address",
    )?;
    let n: usize = start_indices.len();
    let ghost checks = index_checks(start_indices@);
    let ghost rest = start_indices@.map_values(|b: DramBuffer| b.addr as u32);
    let ghost first = seq![operand_addr as u32, update_addr as u32];
    let mut addrs: Vec<u32> = vec![operand, update];
    assert(addrs@ =~= first + rest.take(0));
    for i in 0..n
        invariant
            n == start_indices@.len(),
            checks == index_checks(start_indices@),
            rest == start_indices@.map_values(|b: DramBuffer| b.addr as u32),
            convert::u32_hex_refusal(
                operand_addr as int,
                "dynamic_update_slice operand address"@,
            ) is None,
            convert::u32_hex_refusal(
                update_addr as int,
                "dynamic_update_slice update address"@,
            ) is None,
            addrs@ == first + rest.take(i as int),
            forall|j: int| 0 <= j < i ==> #[trigger] checks(j) is None,
    {
        proof {
            error::lemma_first_refusal_skip(0, i as int, n as int, checks);
        }
        let name = text::cat3(
            "dynamic_update_slice start index ",
            text::decimal_usize(i).as_str(),
            " address",
        );
        let a: u32 = convert::address_u32_hex(start_indices[i].addr, name.as_str())?;
        addrs.push(a);
        assert(checks(i as int) is None);
        assert(addrs@ =~= first + rest.take(i + 1));
    }
    proof {
        error::lemma_first_refusal_none(0, n as int, checks);
    }
    assert(rest.take(n as int) =~= rest);
    let output: u32 = convert::address_u32_hex(
        output_addr,
        "dynamic_update_slice output address",
    )?;
    Ok(DramKernel { reader_addrs: addrs, output_addr: output, key })
}

} // verus!
