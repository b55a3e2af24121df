//! Gather: slices of a tensor along one axis, picked by a list of indices.

use vstd::prelude::*;
use crate::arith;
use crate::convert;
use crate::dram;
use crate::dram::{DType, DramBuffer};
use crate::error;
use crate::error::Error;
use crate::hw::CoreCoord;
use crate::kernels::common;
use crate::kernels::common::{DramKernel, KernelRequest, SectionWords};
use crate::kernels::dims;
use crate::kernels::kernel;
use crate::kernels::lowering;
use crate::kernels::lowering::{CompileConfig, KernelCb, LoweredProgram, RangeWords, Section};
use crate::text;

verus! {

/// How the kernel walks the output: by rows of tiles, or tile by tile.
#[derive(Clone, Copy, Debug, Hash, PartialEq, Eq, Structural)]
pub enum GatherMode {
    Bf16Rows,
    Axis,
}

/// A tensor that stands for a reshaped one: the kernel reads the elements where
/// they lie in the tensor before it was reshaped.
#[derive(Clone, Debug, Hash, PartialEq, Eq)]
pub struct ReshapeSourceView {
    pub source_shape: Vec<usize>,
    pub rows: u32,
    pub cols: u32,
    pub tile_rows: u32,
    pub tiles_per_row: u32,
}

impl ReshapeSourceView {
    pub fn source_shape(&self) -> (r: &[usize])
        ensures
            r@ == self.source_shape@,
    {
        self.source_shape.as_slice()
    }
}

/// What the kernel is built for.
#[derive(Clone, Debug, Hash, PartialEq, Eq)]
pub struct GatherShape {
    pub mode: GatherMode,
    pub axis: u32,
    pub operand_shape: Vec<u32>,
    pub output_shape: Vec<u32>,
    pub operand_source_view: Option<ReshapeSourceView>,
    pub operand_tile_rows: u32,
    pub operand_tiles_per_row: u32,
    pub output_tile_rows: u32,
    pub output_tiles_per_row: u32,
    pub output_tiles: u32,
}

/// The shape in which the elements of the operand lie.
pub open spec fn physical(operand: Seq<usize>, view: Option<ReshapeSourceView>) -> Seq<usize> {
    match view {
        Some(v) => v.source_shape@,
        None => operand,
    }
}

pub open spec fn mode_of(
    operand: Seq<usize>,
    view: Option<ReshapeSourceView>,
    axis: int,
    dtype: DType,
) -> GatherMode {
    if view is None && axis == 0 && operand.len() == 2 && dtype == DType::Float16B {
        GatherMode::Bf16Rows
    } else {
        GatherMode::Axis
    }
}

/// A shape with leading dimensions of size one.
pub open spec fn padded_rank(shape: Seq<usize>, rank: int) -> Seq<usize> {
    Seq::new((rank - shape.len()) as nat, |i: int| 1usize) + shape
}

fn pad_rank(shape: &[usize], rank: usize) -> (r: Vec<usize>)
    requires
        shape@.len() <= rank,
    ensures
        r@ == padded_rank(shape@, rank as int),
{
    let n: usize = rank - shape.len();
    let mut out: Vec<usize> = Vec::new();
    for i in 0..n
        invariant
            out@ == Seq::new(i as nat, |j: int| 1usize),
    {
        out.push(1);
        assert(out@ =~= Seq::new((i + 1) as nat, |j: int| 1usize));
    }
    dims::extend_usizes(&mut out, shape);
    out
}

/// The shapes and the axis as the kernel sees them: with at least three dimensions
/// where it goes tile by tile.
pub open spec fn seen(
    mode: GatherMode,
    operand: Seq<usize>,
    output: Seq<usize>,
    axis: int,
) -> (Seq<usize>, Seq<usize>, int) {
    let rank = arith::max2(operand.len() as int, 3);
    match mode {
        GatherMode::Bf16Rows => (operand, output, axis),
        GatherMode::Axis => (
            padded_rank(operand, rank),
            padded_rank(output, rank),
            axis + rank - operand.len(),
        ),
    }
}

pub open spec fn grid_values(source: Seq<usize>, output: Seq<usize>) -> Seq<usize> {
    seq![
        common::tile_grid(source).0 as usize,
        common::tile_grid(source).1 as usize,
        common::tile_grid(output).0 as usize,
        common::tile_grid(output).1 as usize,
    ]
}

pub open spec fn grid_names() -> Seq<&'static str> {
    seq![
        "gather operand tile rows",
        "gather operand tiles per row",
        "gather output tile rows",
        "gather output tiles per row",
    ]
}

/// Why there is no kernel for a gather.
pub open spec fn shape_refusal(
    operand: Seq<usize>,
    view: Option<ReshapeSourceView>,
    output: Seq<usize>,
    axis: int,
    dtype: DType,
) -> Option<error::Refusal> {
    let source = physical(operand, view);
    let (a, b, x) = seen(mode_of(operand, view, axis, dtype), operand, output, axis);
    if dram::tiled_shape_refusal(source) is Some {
        dram::tiled_shape_refusal(source)
    } else if dram::tiled_shape_refusal(output) is Some {
        dram::tiled_shape_refusal(output)
    } else if convert::u32_hex_refusal(x, "gather axis"@) is Some {
        convert::u32_hex_refusal(x, "gather axis"@)
    } else if dims::shape_word_refusal(a, "gather operand shape"@, 16) is Some {
        dims::shape_word_refusal(a, "gather operand shape"@, 16)
    } else if dims::shape_word_refusal(b, "gather output shape"@, 16) is Some {
        dims::shape_word_refusal(b, "gather output shape"@, 16)
    } else if common::hex_fields_refusal(grid_values(source, output), grid_names()) is Some {
        common::hex_fields_refusal(grid_values(source, output), grid_names())
    } else if dram::tile_count_refusal(output) is Some {
        dram::tile_count_refusal(output)
    } else {
        convert::u32_hex_refusal(dram::tile_count(output)->0, "gather output tile count"@)
    }
}

impl GatherShape {
    /// Whether this is the kernel of a gather.
    pub open spec fn of(
        &self,
        operand: Seq<usize>,
        view: Option<ReshapeSourceView>,
        output: Seq<usize>,
        axis: int,
        dtype: DType,
    ) -> bool {
        let mode = mode_of(operand, view, axis, dtype);
        let (a, b, x) = seen(mode, operand, output, axis);
        &&& self.mode == mode
        &&& self.axis == x
        &&& self.operand_shape@ == dims::narrowed(a)
        &&& self.output_shape@ == dims::narrowed(b)
        &&& self.operand_source_view == view
        &&& (self.operand_tile_rows as int, self.operand_tiles_per_row as int)
            == common::tile_grid(physical(operand, view))
        &&& (self.output_tile_rows as int, self.output_tiles_per_row as int) == common::tile_grid(
            output,
        )
        &&& dram::tile_count(output) == Some(self.output_tiles as int)
    }
}

/// Plans the kernel of a gather.
pub fn gather_shape(
    operand_shape: &[usize],
    operand_source_view: Option<ReshapeSourceView>,
    output_shape: &[usize],
    axis: usize,
    dtype: DType,
) -> (r: Result<GatherShape, Error>)
    requires
        dram::tiled_shape_refusal(physical(operand_shape@, operand_source_view)) is None
            && dram::tiled_shape_refusal(output_shape@) is None && mode_of(
            operand_shape@,
            operand_source_view,
            axis as int,
            dtype,
        ) == GatherMode::Axis ==> {
            let rank = arith::max2(operand_shape@.len() as int, 3);
            output_shape@.len() <= rank && axis + (rank - operand_shape@.len()) <= usize::MAX
        },
    ensures
        ({
            let refusal = shape_refusal(
                operand_shape@,
                operand_source_view,
                output_shape@,
                axis as int,
                dtype,
            );
            match r {
                Ok(s) => refusal is None && s.of(
                    operand_shape@,
                    operand_source_view,
                    output_shape@,
                    axis as int,
                    dtype,
                ),
                Err(e) => refusal == Some(e@),
            }
        }),
{
    let ghost view = operand_source_view;
    let (source_rows, source_cols) = match &operand_source_view {
        Some(v) => common::find_tile_grid(v.source_shape())?,
        None => common::find_tile_grid(operand_shape)?,
    };
    let (output_rows, output_cols) = common::find_tile_grid(output_shape)?;
    let mode = if operand_source_view.is_none() && axis == 0 && operand_shape.len() == 2 && dtype
        == DType::Float16B {
        GatherMode::Bf16Rows
    } else {
        GatherMode::Axis
    };
    let (a, b, x) = match mode {
        GatherMode::Bf16Rows => (
            arith::copy_usizes(operand_shape),
            arith::copy_usizes(output_shape),
            axis,
        ),
        GatherMode::Axis => {
            let n: usize = operand_shape.len();
            let rank: usize = if n > 3 {
                n
            } else {
                3
            };
            (pad_rank(operand_shape, rank), pad_rank(output_shape, rank), axis + (rank - n))
        },
    };
    assert((a@, b@, x as int) == seen(mode, operand_shape@, output_shape@, axis as int));
    let kernel_axis: u32 = convert::to_u32_hex(x, "gather axis")?;
    let operand_words = dims::u32_shape(a.as_slice(), "gather operand shape", true)?;
    let output_words = dims::u32_shape(b.as_slice(), "gather output shape", true)?;
    let values: Vec<usize> = vec![source_rows, source_cols, output_rows, output_cols];
    let names: Vec<&'static str> = vec![
        "gather operand tile rows",
        "gather operand tiles per row",
        "gather output tile rows",
        "gather output tiles per row",
    ];
    assert(values@ =~= grid_values(physical(operand_shape@, view), output_shape@));
    assert(names@ =~= grid_names());
    let w = common::narrow_hex_fields(&values, &names)?;
    proof {
        common::lemma_narrowed(values@, names@);
    }
    let tiles: usize = dram::tiled_shape_tile_count(output_shape)?;
    let output_tiles: u32 = convert::to_u32_hex(tiles, "gather output tile count")?;
    Ok(
        GatherShape {
            mode,
            axis: kernel_axis,
            operand_shape: operand_words,
            output_shape: output_words,
            operand_source_view,
            operand_tile_rows: w[0],
            operand_tiles_per_row: w[1],
            output_tile_rows: w[2],
            output_tiles_per_row: w[3],
            output_tiles,
        },
    )
}

/// What the program of a gather depends on.
#[derive(Clone, Debug, Hash, PartialEq, Eq)]
pub struct GatherProgramKey {
    pub cores: Vec<CoreCoord>,
    pub dtype: DType,
    pub shape: GatherShape,
}

/// The numbers of a view for the generated code; ones where there is none.
pub open spec fn view_numbers(view: Option<ReshapeSourceView>) -> (int, int, int, int) {
    match view {
        Some(v) => (v.rows as int, v.cols as int, v.tile_rows as int, v.tiles_per_row as int),
        None => (1, 1, 1, 1),
    }
}

/// The source of the reader.
pub open spec fn reader_text(dtype: DType, s: GatherShape, body: Seq<char>) -> Seq<char> {
    let v = view_numbers(s.operand_source_view);
    common::definition(
        "GATHER_BF16_ROWS"@,
        text::dec(common::flag(s.mode == GatherMode::Bf16Rows)),
    ) + common::definition("GATHER_RANK"@, text::dec(s.operand_shape@.len() as int))
        + common::definition("GATHER_AXIS"@, text::dec(s.axis as int)) + common::definition(
        "GATHER_OPERAND_SHAPE"@,
        text::cpp_array(text::ints_u32(s.operand_shape@)),
    ) + common::definition(
        "GATHER_OUTPUT_SHAPE"@,
        text::cpp_array(text::ints_u32(s.output_shape@)),
    ) + common::definition(
        "GATHER_OPERAND_RESHAPE_VIEW"@,
        text::dec(common::flag(s.operand_source_view is Some)),
    ) + common::definition("GATHER_SOURCE_ROWS"@, text::dec(v.0)) + common::definition(
        "GATHER_SOURCE_COLS"@,
        text::dec(v.1),
    ) + common::definition("GATHER_SOURCE_TILE_ROWS"@, text::dec(v.2)) + common::definition(
        "GATHER_SOURCE_TILES_PER_ROW"@,
        text::dec(v.3),
    ) + common::definition("GATHER_OPERAND_TILE_ROWS"@, text::dec(s.operand_tile_rows as int))
        + common::definition(
        "GATHER_OPERAND_TILES_PER_ROW"@,
        text::dec(s.operand_tiles_per_row as int),
    ) + common::definition("GATHER_OUTPUT_TILE_ROWS"@, text::dec(s.output_tile_rows as int))
        + common::definition(
        "GATHER_OUTPUT_TILES_PER_ROW"@,
        text::dec(s.output_tiles_per_row as int),
    ) + common::definition("GATHER_ELEMENT_TYPE"@, common::element_word(dtype)) + body
}

/// Generates the source of the reader in front of its fixed part.
pub fn gather_reader_source(dtype: DType, shape: &GatherShape, body: &str) -> (r: String)
    requires
        shape.operand_shape@.len() > 0,
        shape.output_shape@.len() > 0,
    ensures
        r@ == reader_text(dtype, *shape, body@),
{
    let (rows, cols, tile_rows, tiles_per_row) = match &shape.operand_source_view {
        Some(v) => (v.rows, v.cols, v.tile_rows, v.tiles_per_row),
        None => (1, 1, 1, 1),
    };
    let by_rows = text::decimal_u32(common::flag_word(shape.mode == GatherMode::Bf16Rows));
    let mut out = common::defined("GATHER_BF16_ROWS", by_rows.as_str());
    let rank = text::decimal_usize(shape.operand_shape.len());
    common::define(&mut out, "GATHER_RANK", rank.as_str());
    common::define_word(&mut out, "GATHER_AXIS", shape.axis);
    common::define_words(&mut out, "GATHER_OPERAND_SHAPE", &shape.operand_shape);
    common::define_words(&mut out, "GATHER_OUTPUT_SHAPE", &shape.output_shape);
    common::define_word(
        &mut out,
        "GATHER_OPERAND_RESHAPE_VIEW",
        common::flag_word(shape.operand_source_view.is_some()),
    );
    common::define_word(&mut out, "GATHER_SOURCE_ROWS", rows);
    common::define_word(&mut out, "GATHER_SOURCE_COLS", cols);
    common::define_word(&mut out, "GATHER_SOURCE_TILE_ROWS", tile_rows);
    common::define_word(&mut out, "GATHER_SOURCE_TILES_PER_ROW", tiles_per_row);
    common::define_word(&mut out, "GATHER_OPERAND_TILE_ROWS", shape.operand_tile_rows);
    common::define_word(&mut out, "GATHER_OPERAND_TILES_PER_ROW", shape.operand_tiles_per_row);
    common::define_word(&mut out, "GATHER_OUTPUT_TILE_ROWS", shape.output_tile_rows);
    common::define_word(&mut out, "GATHER_OUTPUT_TILES_PER_ROW", shape.output_tiles_per_row);
    common::define(&mut out, "GATHER_ELEMENT_TYPE", common::element_type(dtype));
    out.append(body);
    out
}

/// The pieces of work: rows of tiles, or tiles.
pub open spec fn work_units(s: GatherShape) -> u32 {
    match s.mode {
        GatherMode::Bf16Rows => s.output_tile_rows,
        GatherMode::Axis => s.output_tiles,
    }
}

/// The arguments of the writer: a range of tiles.
pub open spec fn writer_words(s: GatherShape) -> SectionWords {
    SectionWords {
        head: common::zero_words(1),
        range: match s.mode {
            GatherMode::Bf16Rows => RangeWords::ScaledRange(s.output_tiles_per_row),
            GatherMode::Axis => RangeWords::OffsetAndCount,
        },
        tail: Seq::empty(),
    }
}

/// The arguments of the reader.
pub open spec fn reader_words(s: GatherShape) -> SectionWords {
    SectionWords {
        head: common::zero_words(2),
        range: RangeWords::OffsetAndCount,
        tail: match s.mode {
            GatherMode::Bf16Rows => seq![
                s.output_shape@[0],
                s.operand_tiles_per_row,
                s.output_tiles_per_row,
                s.operand_shape@[0],
            ],
            GatherMode::Axis => Seq::empty(),
        },
    }
}

pub open spec fn gather_cbs(dtype: DType) -> Seq<KernelCb> {
    seq![
        KernelCb::double(0, dtype),
        KernelCb::double(1, DType::Int32),
        KernelCb::double(16, dtype),
    ]
}

pub open spec fn program_name(key: GatherProgramKey) -> Seq<char> {
    match key.shape.mode {
        GatherMode::Bf16Rows => "gather_bf16_rows"@,
        GatherMode::Axis => "gather_axis_"@ + key.dtype.shown() + "_"@ + text::dec(
            key.shape.operand_shape@.len() as int,
        ) + "_"@ + text::dec(key.shape.axis as int),
    }
}

/// Where all tiles have a number, so have those of every core.
proof fn lemma_range_fits(tiles: u32, n: int, factor: u32)
    requires
        tiles * factor <= u32::MAX,
    ensures
        forall|j: int|
            0 <= j < n ==> lowering::range_fits(
                RangeWords::ScaledRange(factor),
                (#[trigger] lowering::core_range(tiles, j, n)).0 as int,
                lowering::core_range(tiles, j, n).1 as int,
            ),
{
    assert forall|j: int| 0 <= j < n implies lowering::range_fits(
        RangeWords::ScaledRange(factor),
        (#[trigger] lowering::core_range(tiles, j, n)).0 as int,
        lowering::core_range(tiles, j, n).1 as int,
    ) by {
        kernel::lemma_split_partitions(tiles as int, j, n);
        let (a, c) = (
            kernel::split_offset(tiles as int, j, n),
            kernel::split_count(tiles as int, j, n),
        );
        assert(c >= 0) by {
            vstd::arithmetic::div_mod::lemma_div_pos_is_pos(tiles as int, n);
        }
        assert(a * factor <= tiles * factor && c * factor <= tiles * factor) by (nonlinear_arith)
            requires
                0 <= a <= tiles,
                0 <= c <= tiles,
        ;
    }
}

/// Builds the program of a gather from the fixed parts of its kernels.
pub fn gather_program(key: &GatherProgramKey, reader_body: &str, writer_source: &str) -> (r: Result<
    LoweredProgram,
    Error,
>)
    requires
        key.shape.operand_shape@.len() > 0,
        key.shape.output_shape@.len() > 0,
        key.shape.mode == GatherMode::Bf16Rows ==> key.shape.output_tile_rows
            * key.shape.output_tiles_per_row <= u32::MAX,
    ensures
        match r {
            Ok(p) => {
                &&& lowering::listed_refusal(key.cores@) is None
                &&& p.reader_kernel@ == reader_text(key.dtype, key.shape, reader_body@)
                &&& p.compute_kernel@ == ""@
                &&& p.writer_kernel@ == writer_source@
                &&& p.is_uniform()
                &&& p.name@ == program_name(*key)
                &&& p.compile@ == lowering::plain_config(gather_cbs(key.dtype))
                &&& lowering::assigns(
                    p.runtime_args,
                    key.cores@,
                    common::dealt(
                        key.cores@,
                        work_units(key.shape),
                        writer_words(key.shape),
                        reader_words(key.shape),
                        common::no_words(),
                    ),
                    0,
                    common::first_dynamic(1, 2),
                )
            },
            Err(e) => lowering::listed_refusal(key.cores@) == Some(e@),
        },
{
    let s = &key.shape;
    let (work, writer, tail) = match s.mode {
        GatherMode::Bf16Rows => {
            proof {
                lemma_range_fits(
                    s.output_tile_rows,
                    key.cores@.len() as int,
                    s.output_tiles_per_row,
                );
            }
            let tail: Vec<u32> = vec![
                s.output_shape[0],
                s.operand_tiles_per_row,
                s.output_tiles_per_row,
                s.operand_shape[0],
            ];
            (
                s.output_tile_rows,
                Section {
                    head: common::zeros(1),
                    range: RangeWords::ScaledRange(s.output_tiles_per_row),
                    tail: Vec::new(),
                },
                tail,
            )
        },
        GatherMode::Axis => (s.output_tiles, Section::ranged(common::zeros(1)), Vec::new()),
    };
    assert(tail@ =~= reader_words(key.shape).tail);
    assert(writer@.tail =~= Seq::empty());
    assert(writer@ == writer_words(key.shape));
    let reader = Section { head: common::zeros(2), range: RangeWords::OffsetAndCount, tail };
    let compute = Section::empty();
    assert(compute@ == common::no_words()) by {
        assert(compute@.head =~= Seq::empty());
        assert(compute@.tail =~= Seq::empty());
    }
    let writer_dynamic = common::index_list(1);
    let reader_dynamic = common::index_list(2);
    let args = common::deal(
        key.cores.as_slice(),
        work,
        &writer,
        &reader,
        &compute,
        writer_dynamic,
        reader_dynamic,
    )?;
    let name = match s.mode {
        GatherMode::Bf16Rows => "gather_bf16_rows".to_owned(),
        GatherMode::Axis => text::cat6(
            "gather_axis_",
            key.dtype.name(),
            "_",
            text::decimal_usize(s.operand_shape.len()).as_str(),
            "_",
            text::decimal_u32(s.axis).as_str(),
        ),
    };
    let cbs: Vec<KernelCb> = vec![
        KernelCb::new(0, key.dtype),
        KernelCb::new(1, DType::Int32),
        KernelCb::new(16, key.dtype),
    ];
    assert(cbs@ =~= gather_cbs(key.dtype));
    Ok(
        LoweredProgram::uniform(
            gather_reader_source(key.dtype, s, reader_body),
            "".to_owned(),
            writer_source.to_owned(),
            name,
            CompileConfig::plain(cbs),
            args,
        ),
    )
}

/// Why the tensors of a gather are refused.
pub open spec fn buffers_refusal(
    operand: DramBuffer,
    start: DramBuffer,
    shape: Seq<usize>,
    view: Option<ReshapeSourceView>,
    start_shape: Seq<usize>,
    axis: int,
    dtype: DType,
) -> Option<error::Refusal> {
    let left = common::layout_refusal(
        "gather operand"@,
        operand.shape@,
        operand.num_tiles as int,
        physical(shape, view),
    );
    if shape.len() == 0 {
        Some(error::invalid("gather requires rank >= 1"@))
    } else if axis >= shape.len() {
        Some(
            error::invalid(
                "gather axis "@ + text::dec(axis) + " is out of bounds for operand shape "@
                    + text::list_text(arith::ints(shape)),
            ),
        )
    } else if common::type_refusal("gather operand"@, operand.dtype, dtype) is Some {
        common::type_refusal("gather operand"@, operand.dtype, dtype)
    } else if common::type_refusal("gather start_indices"@, start.dtype, DType::Int32) is Some {
        common::type_refusal("gather start_indices"@, start.dtype, DType::Int32)
    } else if start_shape.len() != 2 || start_shape[1] != 1 {
        Some(
            error::invalid(
                "gather requires start_indices shaped [N, 1], got "@ + text::list_text(
                    arith::ints(start_shape),
                ),
            ),
        )
    } else if left is Some {
        left
    } else {
        common::layout_refusal(
            "gather start_indices"@,
            start.shape@,
            start.num_tiles as int,
            start_shape,
        )
    }
}

pub fn validate_gather_buffers(
    operand: &DramBuffer,
    start_indices: &DramBuffer,
    operand_shape: &[usize],
    operand_source_view: &Option<ReshapeSourceView>,
    start_indices_shape: &[usize],
    axis: usize,
    dtype: DType,
) -> (r: Result<(), Error>)
    ensures
        ({
            let refusal = buffers_refusal(
                *operand,
                *start_indices,
                operand_shape@,
                *operand_source_view,
                start_indices_shape@,
                axis as int,
                dtype,
            );
            match r {
                Ok(_) => refusal is None,
                Err(e) => refusal == Some(e@),
            }
        }),
{
    if operand_shape.len() == 0 {
        return Err(error::invalid_text("gather requires rank >= 1"));
    }
    if axis >= operand_shape.len() {
        return Err(
            error::invalid_input(
                text::cat4(
                    "gather axis ",
                    text::decimal_usize(axis).as_str(),
                    " is out of bounds for operand shape ",
                    text::shape_text(operand_shape).as_str(),
                ),
            ),
        );
    }
    common::check_type("gather operand", operand.dtype, dtype)?;
    common::check_type("gather start_indices", start_indices.dtype, DType::Int32)?;
    if start_indices_shape.len() != 2 || start_indices_shape[1] != 1 {
        return Err(
            error::invalid_input(
                text::cat2(
                    "gather requires start_indices shaped [N, 1], got ",
                    text::shape_text(start_indices_shape).as_str(),
                ),
            ),
        );
    }
    match operand_source_view {
        Some(v) => {
            common::check_layout("gather operand", operand, v.source_shape())?;
        },
        None => {
            common::check_layout("gather operand", operand, operand_shape)?;
        },
    }
    common::check_layout("gather start_indices", start_indices, start_indices_shape)
}

/// What is gathered.
#[derive(Debug)]
pub struct GatherInputs<'a> {
    pub operand: &'a DramBuffer,
    pub start_indices: &'a DramBuffer,
    pub operand_shape: &'a [usize],
    pub start_indices_shape: &'a [usize],
    pub axis: usize,
    pub dtype: DType,
}

/// Why a gather cannot be run.
pub open spec fn request_refusal(
    available: Seq<CoreCoord>,
    g: GatherInputs<'_>,
    view: Option<ReshapeSourceView>,
    output: Seq<usize>,
) -> Option<error::Refusal> {
    let buffers = buffers_refusal(
        *g.operand,
        *g.start_indices,
        g.operand_shape@,
        view,
        g.start_indices_shape@,
        g.axis as int,
        g.dtype,
    );
    let shape = shape_refusal(g.operand_shape@, view, output, g.axis as int, g.dtype);
    if buffers is Some {
        buffers
    } else if dram::tiled_shape_refusal(output) is Some {
        dram::tiled_shape_refusal(output)
    } else if shape is Some {
        shape
    } else {
        kernel::select_refusal(available)
    }
}

/// Checks a gather and its tensors and chooses the cores.
pub fn gather(
    available: &[CoreCoord],
    inputs: &GatherInputs<'_>,
    operand_source_view: Option<ReshapeSourceView>,
    output_shape: &[usize],
) -> (r: Result<KernelRequest<GatherProgramKey>, Error>)
    requires
        buffers_refusal(
            *inputs.operand,
            *inputs.start_indices,
            inputs.operand_shape@,
            operand_source_view,
            inputs.start_indices_shape@,
            inputs.axis as int,
            inputs.dtype,
        ) is None && dram::tiled_shape_refusal(output_shape@) is None && mode_of(
            inputs.operand_shape@,
            operand_source_view,
            inputs.axis as int,
            inputs.dtype,
        ) == GatherMode::Axis ==> output_shape@.len() <= arith::max2(
            inputs.operand_shape@.len() as int,
            3,
        ),
    ensures
        match r {
            Ok(q) => {
                &&& request_refusal(
                    available@,
                    *inputs,
                    operand_source_view,
                    output_shape@,
                ) is None
                &&& q.key.shape.of(
                    inputs.operand_shape@,
                    operand_source_view,
                    output_shape@,
                    inputs.axis as int,
                    inputs.dtype,
                )
                &&& q.key.dtype == inputs.dtype
                &&& q.output_tiles == q.key.shape.output_tiles
                &&& q.output_shape@ == dram::tiled_shape(output_shape@)
                &&& q.key.cores@ == kernel::chosen_cores(
                    available@,
                    work_units(q.key.shape) as int,
                )
            },
            Err(e) => request_refusal(
                available@,
                *inputs,
                operand_source_view,
                output_shape@,
            ) == Some(e@),
        },
{
    validate_gather_buffers(
        inputs.operand,
        inputs.start_indices,
        inputs.operand_shape,
        &operand_source_view,
        inputs.start_indices_shape,
        inputs.axis,
        inputs.dtype,
    )?;
    let allocation = dram::tiled_allocation_shape(output_shape)?;
    let shape = gather_shape(
        inputs.operand_shape,
        operand_source_view,
        output_shape,
        inputs.axis,
        inputs.dtype,
    )?;
    let output_tiles: usize = shape.output_tiles as usize;
    let units: usize = match shape.mode {
        GatherMode::Bf16Rows => shape.output_tile_rows as usize,
        GatherMode::Axis => output_tiles,
    };
    let cores = kernel::select_worker_cores(available, units)?;
    Ok(
        KernelRequest {
            key: GatherProgramKey { cores, dtype: inputs.dtype, shape },
            output_tiles,
            output_shape: allocation,
        },
    )
}

pub open spec fn kernel_refusal(operand: u64, start: u64, output: u64) -> Option<error::Refusal> {
    common::triple_refusal(
        operand,
        "gather operand address"@,
        start,
        "gather start_indices address"@,
        output,
        "gather output address"@,
    )
}

/// The kernel of a gather with the addresses of one run.
pub fn gather_kernel(
    operand_addr: u64,
    start_indices_addr: u64,
    output_addr: u64,
    key: GatherProgramKey,
) -> (r: Result<DramKernel<GatherProgramKey>, Error>)
    ensures
        match r {
            Ok(k) => {
                &&& kernel_refusal(operand_addr, start_indices_addr, output_addr) is None
                &&& k.reader_addrs@ == seq![operand_addr as u32, start_indices_addr as u32]
                &&& k.output_addr == output_addr
                &&& k.key == key
            },
            Err(e) => kernel_refusal(operand_addr, start_indices_addr, output_addr) == Some(e@),
        },
{
    common::triple_kernel(
        operand_addr,
        "gather operand address",
        start_indices_addr,
        "gather start_indices address",
        output_addr,
        "gather output address",
        key,
    )
}

} // verus!
