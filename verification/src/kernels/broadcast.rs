//! Broadcast: a tensor repeated along the dimensions that it does not have.

use vstd::prelude::*;
use crate::arith;
use crate::dram;
use crate::dram::{DType, DramBuffer};
use crate::error;
use crate::error::Error;
use crate::hw::CoreCoord;
use crate::kernels::common;
use crate::kernels::common::{DramKernel, KernelRequest, PairTiles};
use crate::kernels::dims;
use crate::kernels::kernel;
use crate::kernels::lowering;
use crate::kernels::lowering::{CompileConfig, KernelCb, LoweredProgram};
use crate::text;

verus! {

/// What the kernel is built for.
#[derive(Clone, Debug, Hash, PartialEq, Eq)]
pub struct BroadcastKernelShape {
    pub input_shape: Vec<u32>,
    pub output_shape: Vec<u32>,
    pub broadcast_dimensions: Vec<u32>,
    pub input_tile_rows: u32,
    pub input_tiles_per_row: u32,
    pub output_tile_rows: u32,
    pub output_tiles_per_row: u32,
    pub tile_count: u32,
    pub direct_copy: bool,
}

/// A checked broadcast.
#[derive(Clone, Debug, PartialEq, Eq)]
pub struct BroadcastInDimPlan {
    pub input_shape: Vec<usize>,
    pub output_allocation_shape: Vec<usize>,
    pub kernel_shape: BroadcastKernelShape,
}

/// Why dimension `i` of the input has no place in the output.
pub open spec fn dimension_refusal(
    input: Seq<usize>,
    output: Seq<usize>,
    dimensions: Seq<i64>,
    i: int,
) -> Option<error::Refusal> {
    let d = dimensions[i] as int;
    if !(0 <= d <= usize::MAX) {
        Some(error::invalid("broadcast dimension must be non-negative, got "@ + text::dec(d)))
    } else if d >= output.len() {
        Some(
            error::invalid(
                "broadcast dimension "@ + text::dec(d) + " is out of bounds for output rank "@
                    + text::dec(output.len() as int),
            ),
        )
    } else if i > 0 && d <= dimensions[i - 1] {
        Some(error::invalid("broadcast dimensions must be strictly increasing"@))
    } else if input[i] != output[d] && input[i] != 1 {
        Some(
            error::invalid(
                "broadcast dimension "@ + text::dec(i) + " size "@ + text::dec(input[i] as int)
                    + " is incompatible with output dimension "@ + text::dec(d) + " size "@
                    + text::dec(output[d] as int),
            ),
        )
    } else {
        None
    }
}

pub open spec fn dimension_checks(
    input: Seq<usize>,
    output: Seq<usize>,
    dimensions: Seq<i64>,
) -> spec_fn(int) -> Option<error::Refusal> {
    |i: int| dimension_refusal(input, output, dimensions, i)
}

/// Why a broadcast is refused.
pub open spec fn dimensions_refusal(
    input: Seq<usize>,
    output: Seq<usize>,
    dimensions: Seq<i64>,
) -> Option<error::Refusal> {
    if dimensions.len() != input.len() {
        Some(
            error::invalid(
                "broadcast dimensions length "@ + text::dec(dimensions.len() as int)
                    + " must match input rank "@ + text::dec(input.len() as int),
            ),
        )
    } else {
        error::first_refusal(
            0,
            dimensions.len() as int,
            dimension_checks(input, output, dimensions),
        )
    }
}

/// The place of each input dimension in the output is another one, in the same
/// order, and of the same size unless the input has size one there.
pub proof fn lemma_dimensions_apart(
    input: Seq<usize>,
    output: Seq<usize>,
    dimensions: Seq<i64>,
    i: int,
    j: int,
)
    requires
        dimensions_refusal(input, output, dimensions) is None,
        0 <= i < j < input.len(),
    ensures
        0 <= dimensions[i] < dimensions[j] < output.len(),
        input[i] == output[dimensions[i] as int] || input[i] == 1,
    decreases j - i,
{
    let checks = dimension_checks(input, output, dimensions);
    error::lemma_first_refusal_none(0, dimensions.len() as int, checks);
    assert(checks(i) is None);
    assert(checks(j) is None);
    if i + 1 < j {
        lemma_dimensions_apart(input, output, dimensions, i, j - 1);
        assert(checks(j - 1) is None);
    }
}

pub fn validate_broadcast_dimensions(
    input_shape: &[usize],
    output_shape: &[usize],
    broadcast_dimensions: &[i64],
) -> (r: Result<(), Error>)
    ensures
        match r {
            Ok(_) => dimensions_refusal(input_shape@, output_shape@, broadcast_dimensions@) is None,
            Err(e) => dimensions_refusal(input_shape@, output_shape@, broadcast_dimensions@)
                == Some(e@),
        },
{
    let n: usize = broadcast_dimensions.len();
    if n != input_shape.len() {
        return Err(
            error::invalid_input(
                text::cat4(
                    "broadcast dimensions length ",
                    text::decimal_usize(n).as_str(),
                    " must match input rank ",
                    text::decimal_usize(input_shape.len()).as_str(),
                ),
            ),
        );
    }
    let ghost checks = dimension_checks(input_shape@, output_shape@, broadcast_dimensions@);
    for i in 0..n
        invariant
            n == broadcast_dimensions@.len() == input_shape@.len(),
            checks == dimension_checks(input_shape@, output_shape@, broadcast_dimensions@),
            forall|j: int| 0 <= j < i ==> #[trigger] checks(j) is None,
    {
        proof {
            error::lemma_first_refusal_skip(0, i as int, n as int, checks);
            assert(checks(i as int) == dimension_refusal(
                input_shape@,
                output_shape@,
                broadcast_dimensions@,
                i as int,
            ));
        }
        let d: i64 = broadcast_dimensions[i];
        if d < 0 || d as u64 > usize::MAX as u64 {
            return Err(
                error::invalid_input(
                    text::cat2(
                        "broadcast dimension must be non-negative, got ",
                        text::decimal_i64(d).as_str(),
                    ),
                ),
            );
        }
        let at: usize = d as usize;
        if at >= output_shape.len() {
            return Err(
                error::invalid_input(
                    text::cat4(
                        "broadcast dimension ",
                        text::decimal_usize(at).as_str(),
                        " is out of bounds for output rank ",
                        text::decimal_usize(output_shape.len()).as_str(),
                    ),
                ),
            );
        }
        if i > 0 && d <= broadcast_dimensions[i - 1] {
            return Err(error::invalid_text("broadcast dimensions must be strictly increasing"));
        }
        if input_shape[i] != output_shape[at] && input_shape[i] != 1 {
            let front = text::cat5(
                "broadcast dimension ",
                text::decimal_usize(i).as_str(),
                " size ",
                text::decimal_usize(input_shape[i]).as_str(),
                " is incompatible with output dimension ",
            );
            return Err(
                error::invalid_input(
                    text::cat4(
                        front.as_str(),
                        text::decimal_usize(at).as_str(),
                        " size ",
                        text::decimal_usize(output_shape[at]).as_str(),
                    ),
                ),
            );
        }
    }
    proof {
        error::lemma_first_refusal_none(0, n as int, checks);
    }
    Ok(())
}

/// The tile grids of the kernel, to be narrowed.
pub open spec fn grid_values(input: Seq<usize>, output: Seq<usize>) -> Seq<usize> {
    seq![
        common::tile_grid(input).0 as usize,
        common::tile_grid(input).1 as usize,
        common::tile_grid(output).0 as usize,
        common::tile_grid(output).1 as usize,
        dram::tile_count(output)->0 as usize,
    ]
}

pub open spec fn grid_names() -> Seq<&'static str> {
    seq![
        "input tile rows",
        "input tiles per row",
        "output tile rows",
        "output tiles per row",
        "tile count",
    ]
}

/// Why there is no kernel for a broadcast.
pub open spec fn shape_refusal(
    input: Seq<usize>,
    output: Seq<usize>,
    dimensions: Seq<i64>,
) -> Option<error::Refusal> {
    let words = error::first_refusal(
        0,
        dimensions.len() as int,
        common::index_checks(dimensions, "broadcast dimension"@),
    );
    if common::pair_tiles_refusal(input, output) is Some {
        common::pair_tiles_refusal(input, output)
    } else if dims::shape_word_refusal(input, "input shape"@, 16) is Some {
        dims::shape_word_refusal(input, "input shape"@, 16)
    } else if dims::shape_word_refusal(output, "output shape"@, 16) is Some {
        dims::shape_word_refusal(output, "output shape"@, 16)
    } else if words is Some {
        words
    } else {
        common::hex_fields_refusal(grid_values(input, output), grid_names())
    }
}

/// Whether a broadcast leaves the tensor as it is.
pub open spec fn is_copy(input: Seq<usize>, output: Seq<usize>, dimensions: Seq<i64>) -> bool {
    input == output && forall|i: int| 0 <= i < dimensions.len() ==> #[trigger] dimensions[i] == i
}

impl BroadcastKernelShape {
    /// Whether this is the kernel of the given broadcast.
    pub open spec fn of(
        &self,
        input: Seq<usize>,
        output: Seq<usize>,
        dimensions: Seq<i64>,
    ) -> bool {
        &&& self.input_shape@ == dims::narrowed(input)
        &&& self.output_shape@ == dims::narrowed(output)
        &&& self.broadcast_dimensions@ == common::index_words(dimensions)
        &&& (self.input_tile_rows as int, self.input_tiles_per_row as int) == common::tile_grid(
            input,
        )
        &&& (self.output_tile_rows as int, self.output_tiles_per_row as int) == common::tile_grid(
            output,
        )
        &&& dram::tile_count(output) == Some(self.tile_count as int)
        &&& self.direct_copy == is_copy(input, output, dimensions)
    }
}

fn is_direct_copy_broadcast(
    input_shape: &[usize],
    output_shape: &[usize],
    broadcast_dimensions: &[i64],
) -> (r: bool)
    ensures
        r == is_copy(input_shape@, output_shape@, broadcast_dimensions@),
{
    if !arith::same_usizes(input_shape, output_shape) {
        return false;
    }
    for i in 0..broadcast_dimensions.len()
        invariant
            forall|j: int| 0 <= j < i ==> #[trigger] broadcast_dimensions@[j] == j,
    {
        let d: i64 = broadcast_dimensions[i];
        if d < 0 || d as u64 != i as u64 {
            assert(broadcast_dimensions@[i as int] != i);
            return false;
        }
    }
    true
}

fn grid_words(
    input_shape: &[usize],
    output_shape: &[usize],
    tiles: &PairTiles,
) -> (r: Result<Vec<u32>, Error>)
    requires
        tiles.of(input_shape@, output_shape@),
    ensures
        ({
            let refusal = common::hex_fields_refusal(
                grid_values(input_shape@, output_shape@),
                grid_names(),
            );
            match r {
                Ok(w) => refusal is None && w@.len() == 5 && w@[0] == tiles.input_rows && w@[1]
                    == tiles.input_cols && w@[2] == tiles.output_rows && w@[3]
                    == tiles.output_cols && w@[4] == tiles.tiles,
                Err(e) => refusal == Some(e@),
            }
        }),
{
    let values: Vec<usize> = vec![
        tiles.input_rows,
        tiles.input_cols,
        tiles.output_rows,
        tiles.output_cols,
        tiles.tiles,
    ];
    let names: Vec<&'static str> = vec![
        "input tile rows",
        "input tiles per row",
        "output tile rows",
        "output tiles per row",
        "tile count",
    ];
    assert(values@ =~= grid_values(input_shape@, output_shape@));
    assert(names@ =~= grid_names());
    let words = common::narrow_hex_fields(&values, &names)?;
    proof {
        common::lemma_narrowed(values@, names@);
    }
    Ok(words)
}

pub fn broadcast_kernel_shape(
    input_shape: &[usize],
    output_shape: &[usize],
    broadcast_dimensions: &[i64],
) -> (r: Result<BroadcastKernelShape, Error>)
    ensures
        match r {
            Ok(s) => shape_refusal(input_shape@, output_shape@, broadcast_dimensions@) is None
                && s.of(input_shape@, output_shape@, broadcast_dimensions@),
            Err(e) => shape_refusal(input_shape@, output_shape@, broadcast_dimensions@) == Some(
                e@,
            ),
        },
{
    let tiles = PairTiles::new(input_shape, output_shape)?;
    let input_words = dims::u32_shape(input_shape, "input shape", true)?;
    let output_words = dims::u32_shape(output_shape, "output shape", true)?;
    let dimension_words = common::u32_indices(broadcast_dimensions, "broadcast dimension")?;
    let direct_copy: bool = is_direct_copy_broadcast(
        input_shape,
        output_shape,
        broadcast_dimensions,
    );
    let words = grid_words(input_shape, output_shape, &tiles)?;
    Ok(
        BroadcastKernelShape {
            input_shape: input_words,
            output_shape: output_words,
            broadcast_dimensions: dimension_words,
            input_tile_rows: words[0],
            input_tiles_per_row: words[1],
            output_tile_rows: words[2],
            output_tiles_per_row: words[3],
            tile_count: words[4],
            direct_copy,
        },
    )
}

/// Why there is no plan for a broadcast.
pub open spec fn plan_refusal(
    input: Seq<usize>,
    output: Seq<usize>,
    dimensions: Seq<i64>,
) -> Option<error::Refusal> {
    if dimensions_refusal(input, output, dimensions) is Some {
        dimensions_refusal(input, output, dimensions)
    } else if dram::tiled_shape_refusal(output) is Some {
        dram::tiled_shape_refusal(output)
    } else {
        shape_refusal(input, output, dimensions)
    }
}

impl BroadcastInDimPlan {
    /// Checks a broadcast and plans its kernel.
    pub fn new(
        input_shape: &[usize],
        output_shape: &[usize],
        broadcast_dimensions: &[i64],
    ) -> (r: Result<BroadcastInDimPlan, Error>)
        ensures
            match r {
                Ok(p) => {
                    &&& plan_refusal(input_shape@, output_shape@, broadcast_dimensions@) is None
                    &&& p.input_shape@ == input_shape@
                    &&& p.output_allocation_shape@ == dram::tiled_shape(output_shape@)
                    &&& p.kernel_shape.of(input_shape@, output_shape@, broadcast_dimensions@)
                },
                Err(e) => plan_refusal(input_shape@, output_shape@, broadcast_dimensions@)
                    == Some(e@),
            },
    {
        validate_broadcast_dimensions(input_shape, output_shape, broadcast_dimensions)?;
        let output_allocation_shape = dram::tiled_allocation_shape(output_shape)?;
        let kernel_shape = broadcast_kernel_shape(
            input_shape,
            output_shape,
            broadcast_dimensions,
        )?;
        Ok(
            BroadcastInDimPlan {
                input_shape: arith::copy_usizes(input_shape),
                output_allocation_shape,
                kernel_shape,
            },
        )
    }

    pub fn kernel_shape(&self) -> (r: &BroadcastKernelShape)
        ensures
            *r == self.kernel_shape,
    {
        &self.kernel_shape
    }
}

/// What the program of a broadcast depends on.
#[derive(Clone, Debug, Hash, PartialEq, Eq)]
pub struct BroadcastProgramKey {
    pub cores: Vec<CoreCoord>,
    pub dtype: DType,
    pub shape: BroadcastKernelShape,
}

/// The source of the reader.
pub open spec fn reader_text(dtype: DType, s: BroadcastKernelShape, body: Seq<char>) -> Seq<char> {
    common::definition("BROADCAST_INPUT_RANK"@, text::dec(s.input_shape@.len() as int))
        + common::definition("BROADCAST_OUTPUT_RANK"@, text::dec(s.output_shape@.len() as int))
        + common::definition(
        "BROADCAST_INPUT_SHAPE"@,
        text::cpp_array(text::ints_u32(s.input_shape@)),
    ) + common::definition(
        "BROADCAST_OUTPUT_SHAPE"@,
        text::cpp_array(text::ints_u32(s.output_shape@)),
    ) + common::definition(
        "BROADCAST_DIMENSIONS"@,
        text::cpp_array(text::ints_u32(s.broadcast_dimensions@)),
    ) + common::definition("BROADCAST_INPUT_TILE_ROWS"@, text::dec(s.input_tile_rows as int))
        + common::definition(
        "BROADCAST_INPUT_TILES_PER_ROW"@,
        text::dec(s.input_tiles_per_row as int),
    ) + common::definition("BROADCAST_OUTPUT_TILE_ROWS"@, text::dec(s.output_tile_rows as int))
        + common::definition(
        "BROADCAST_OUTPUT_TILES_PER_ROW"@,
        text::dec(s.output_tiles_per_row as int),
    ) + common::definition("BROADCAST_DIRECT_COPY"@, text::dec(common::flag(s.direct_copy)))
        + common::definition("BROADCAST_ELEMENT_TYPE"@, common::element_word(dtype)) + body
}

/// Generates the source of the reader in front of its fixed part.
pub fn broadcast_reader_source(dtype: DType, shape: &BroadcastKernelShape, body: &str) -> (r:
    String)
    ensures
        r@ == reader_text(dtype, *shape, body@),
{
    let rank = text::decimal_usize(shape.input_shape.len());
    let mut out = common::defined("BROADCAST_INPUT_RANK", rank.as_str());
    let output_rank = text::decimal_usize(shape.output_shape.len());
    common::define(&mut out, "BROADCAST_OUTPUT_RANK", output_rank.as_str());
    common::define_words(&mut out, "BROADCAST_INPUT_SHAPE", &shape.input_shape);
    common::define_words(&mut out, "BROADCAST_OUTPUT_SHAPE", &shape.output_shape);
    common::define_words(&mut out, "BROADCAST_DIMENSIONS", &shape.broadcast_dimensions);
    common::define_word(&mut out, "BROADCAST_INPUT_TILE_ROWS", shape.input_tile_rows);
    common::define_word(&mut out, "BROADCAST_INPUT_TILES_PER_ROW", shape.input_tiles_per_row);
    common::define_word(&mut out, "BROADCAST_OUTPUT_TILE_ROWS", shape.output_tile_rows);
    common::define_word(&mut out, "BROADCAST_OUTPUT_TILES_PER_ROW", shape.output_tiles_per_row);
    common::define_word(&mut out, "BROADCAST_DIRECT_COPY", common::flag_word(shape.direct_copy));
    common::define(&mut out, "BROADCAST_ELEMENT_TYPE", common::element_type(dtype));
    out.append(body);
    out
}

/// The buffers of a kernel that copies: one for what it reads, one for what it writes.
pub open spec fn copy_cbs(dtype: DType) -> Seq<KernelCb> {
    seq![KernelCb::double(0, dtype), KernelCb::double(16, dtype)]
}

pub fn list_copy_cbs(dtype: DType) -> (r: Vec<KernelCb>)
    ensures
        r@ == copy_cbs(dtype),
{
    let r: Vec<KernelCb> = vec![KernelCb::new(0, dtype), KernelCb::new(16, dtype)];
    assert(r@ =~= copy_cbs(dtype));
    r
}

/// Builds the program of a broadcast from the fixed parts of its kernels.
pub fn broadcast_program(key: &BroadcastProgramKey, reader: &str, writer: &str) -> (r: Result<
    LoweredProgram,
    Error,
>)
    ensures
        match r {
            Ok(p) => {
                &&& lowering::listed_refusal(key.cores@) is None
                &&& p.reader_kernel@ == reader_text(key.dtype, key.shape, reader@)
                &&& p.compute_kernel@ == ""@
                &&& p.writer_kernel@ == writer@
                &&& p.is_uniform()
                &&& p.name@ == "broadcast_in_dim_"@ + key.dtype.shown() + "_"@ + text::dec(
                    key.shape.input_shape@.len() as int,
                ) + "_"@ + text::dec(key.shape.output_shape@.len() as int)
                &&& p.compile@ == lowering::plain_config(copy_cbs(key.dtype))
                &&& lowering::assigns(
                    p.runtime_args,
                    key.cores@,
                    common::copied(key.cores@, key.shape.tile_count, 1),
                    0,
                    common::first_dynamic(1, 1),
                )
            },
            Err(e) => lowering::listed_refusal(key.cores@) == Some(e@),
        },
{
    let args = common::deal_copies(key.cores.as_slice(), key.shape.tile_count, 1)?;
    Ok(
        LoweredProgram::uniform(
            broadcast_reader_source(key.dtype, &key.shape, reader),
            "".to_owned(),
            writer.to_owned(),
            text::cat6(
                "broadcast_in_dim_",
                key.dtype.name(),
                "_",
                text::decimal_usize(key.shape.input_shape.len()).as_str(),
                "_",
                text::decimal_usize(key.shape.output_shape.len()).as_str(),
            ),
            CompileConfig::plain(list_copy_cbs(key.dtype)),
            args,
        ),
    )
}

/// Why a broadcast cannot be run.
pub open spec fn request_refusal(
    available: Seq<CoreCoord>,
    input: DramBuffer,
    shape: Seq<usize>,
    dtype: DType,
) -> Option<error::Refusal> {
    if common::input_refusal("broadcast input"@, input, dtype, shape) is Some {
        common::input_refusal("broadcast input"@, input, dtype, shape)
    } else {
        kernel::select_refusal(available)
    }
}

/// Checks the tensor of a broadcast and chooses its cores.
pub fn broadcast_in_dim(
    available: &[CoreCoord],
    input: &DramBuffer,
    plan: BroadcastInDimPlan,
    dtype: DType,
) -> (r: Result<KernelRequest<BroadcastProgramKey>, Error>)
    ensures
        match r {
            Ok(q) => {
                &&& request_refusal(available@, *input, plan.input_shape@, dtype) is None
                &&& q.output_tiles == plan.kernel_shape.tile_count
                &&& q.output_shape == plan.output_allocation_shape
                &&& q.key.shape == plan.kernel_shape
                &&& q.key.dtype == dtype
                &&& q.key.cores@ == kernel::chosen_cores(available@, q.output_tiles as int)
            },
            Err(e) => request_refusal(available@, *input, plan.input_shape@, dtype) == Some(e@),
        },
{
    common::check_input("broadcast input", input, dtype, plan.input_shape.as_slice())?;
    let output_tiles: usize = plan.kernel_shape.tile_count as usize;
    let cores = kernel::select_worker_cores(available, output_tiles)?;
    Ok(
        KernelRequest {
            key: BroadcastProgramKey { cores, dtype, shape: plan.kernel_shape },
            output_tiles,
            output_shape: plan.output_allocation_shape,
        },
    )
}

/// The kernel of a broadcast with the addresses of one run.
pub fn broadcast_kernel(input_addr: u64, output_addr: u64, key: BroadcastProgramKey) -> (r: Result<
    DramKernel<BroadcastProgramKey>,
    Error,
>)
    ensures
        match r {
            Ok(k) => {
                &&& common::pair_refusal(
                    input_addr,
                    "input address"@,
                    output_addr,
                    "output address"@,
                ) is None
                &&& k.reader_addrs@ == seq![input_addr as u32]
                &&& k.output_addr == output_addr
                &&& k.key == key
            },
            Err(e) => common::pair_refusal(
                input_addr,
                "input address"@,
                output_addr,
                "output address"@,
            ) == Some(e@),
        },
{
    common::pair_kernel(input_addr, "input address", output_addr, "output address", key)
}

} // verus!
