//! Attention heads: repeating them, and stacking one tensor for each of them.

use vstd::prelude::*;
use crate::arith;
use crate::dram;
use crate::dram::{DType, DramBuffer};
use crate::error;
use crate::error::Error;
use crate::hw::CoreCoord;
use crate::kernels::broadcast;
use crate::kernels::common;
use crate::kernels::common::{DramKernel, KernelRequest, PairTiles};
use crate::kernels::dims;
use crate::kernels::kernel;
use crate::kernels::lowering;
use crate::kernels::lowering::{CompileConfig, LoweredProgram};
use crate::text;

verus! {

/// What the kernel that repeats heads is built for.
#[derive(Clone, Debug, Hash, PartialEq, Eq)]
pub struct RepeatHeadsKernelShape {
    pub input_shape: Vec<u32>,
    pub output_shape: Vec<u32>,
    pub input_tile_rows: u32,
    pub input_tiles_per_row: u32,
    pub output_tile_rows: u32,
    pub output_tiles_per_row: u32,
    pub repeat_factor: u32,
    pub tile_count: u32,
}

/// A checked repetition of heads.
#[derive(Clone, Debug, PartialEq, Eq)]
pub struct RepeatHeadsPlan {
    pub input_shape: Vec<usize>,
    pub output_allocation_shape: Vec<usize>,
    pub kernel_shape: RepeatHeadsKernelShape,
}

/// What the kernel that stacks heads is built for.
#[derive(Clone, Debug, Hash, PartialEq, Eq)]
pub struct StackHeadsKernelShape {
    pub input_shape: Vec<u32>,
    pub output_shape: Vec<u32>,
    pub input_tile_rows: u32,
    pub input_tiles_per_row: u32,
    pub output_tile_rows: u32,
    pub output_tiles_per_row: u32,
    pub head_count: u32,
    pub tile_count: u32,
    pub flatten: bool,
}

/// A checked stack of heads.
#[derive(Clone, Debug, PartialEq, Eq)]
pub struct StackHeadsPlan {
    pub input_shape: Vec<usize>,
    pub output_allocation_shape: Vec<usize>,
    pub kernel_shape: StackHeadsKernelShape,
}

/// Two shapes with an arrow between them.
pub open spec fn arrow(input: Seq<usize>, output: Seq<usize>) -> Seq<char> {
    text::list_text(arith::ints(input)) + " -> "@ + text::list_text(arith::ints(output))
}

fn arrow_text(input: &[usize], output: &[usize]) -> (r: String)
    ensures
        r@ == arrow(input@, output@),
{
    text::cat3(text::shape_text(input).as_str(), " -> ", text::shape_text(output).as_str())
}

/// The tile grids, one more number, and the tiles of the output, to be narrowed.
pub open spec fn grid_values(input: Seq<usize>, output: Seq<usize>, extra: int) -> Seq<usize> {
    seq![
        common::tile_grid(input).0 as usize,
        common::tile_grid(input).1 as usize,
        common::tile_grid(output).0 as usize,
        common::tile_grid(output).1 as usize,
        extra as usize,
        dram::tile_count(output)->0 as usize,
    ]
}

pub open spec fn grid_names(extra: &'static str) -> Seq<&'static str> {
    seq![
        "input tile rows",
        "input tiles per row",
        "output tile rows",
        "output tiles per row",
        extra,
        "tile count",
    ]
}

/// Why two shapes and a number are no kernel.
pub open spec fn words_refusal(
    input: Seq<usize>,
    output: Seq<usize>,
    extra: int,
    extra_name: &'static str,
) -> Option<error::Refusal> {
    if common::pair_tiles_refusal(input, output) is Some {
        common::pair_tiles_refusal(input, output)
    } else if dims::shape_word_refusal(input, "input shape"@, 16) is Some {
        dims::shape_word_refusal(input, "input shape"@, 16)
    } else if dims::shape_word_refusal(output, "output shape"@, 16) is Some {
        dims::shape_word_refusal(output, "output shape"@, 16)
    } else {
        common::hex_fields_refusal(grid_values(input, output, extra), grid_names(extra_name))
    }
}

struct HeadWords {
    input_shape: Vec<u32>,
    output_shape: Vec<u32>,
    grid: Vec<u32>,
}

fn head_words(input: &[usize], output: &[usize], extra: usize, extra_name: &'static str) -> (r:
    Result<HeadWords, Error>)
    ensures
        match r {
            Ok(w) => {
                &&& words_refusal(input@, output@, extra as int, extra_name) is None
                &&& w.input_shape@ == dims::narrowed(input@)
                &&& w.output_shape@ == dims::narrowed(output@)
                &&& w.grid@.len() == 6
                &&& (w.grid@[0] as int, w.grid@[1] as int) == common::tile_grid(input@)
                &&& (w.grid@[2] as int, w.grid@[3] as int) == common::tile_grid(output@)
                &&& w.grid@[4] == extra
                &&& dram::tile_count(output@) == Some(w.grid@[5] as int)
            },
            Err(e) => words_refusal(input@, output@, extra as int, extra_name) == Some(e@),
        },
{
    let tiles = PairTiles::new(input, output)?;
    let input_shape = dims::u32_shape(input, "input shape", true)?;
    let output_shape = dims::u32_shape(output, "output shape", true)?;
    let values: Vec<usize> = vec![
        tiles.input_rows,
        tiles.input_cols,
        tiles.output_rows,
        tiles.output_cols,
        extra,
        tiles.tiles,
    ];
    let names: Vec<&'static str> = vec![
        "input tile rows",
        "input tiles per row",
        "output tile rows",
        "output tiles per row",
        extra_name,
        "tile count",
    ];
    assert(values@ =~= grid_values(input@, output@, extra as int));
    assert(names@ =~= grid_names(extra_name));
    let grid = common::narrow_hex_fields(&values, &names)?;
    proof {
        common::lemma_narrowed(values@, names@);
    }
    Ok(HeadWords { input_shape, output_shape, grid })
}

/// Why heads are not repeated.
pub open spec fn repeat_refusal(input: Seq<usize>, output: Seq<usize>) -> Option<error::Refusal> {
    if input.len() != 3 || output.len() != 3 {
        Some(
            error::invalid(
                "repeat_heads expects rank-3 input and output, got "@ + arrow(input, output),
            ),
        )
    } else if input[0] != output[0] || input[2] != output[2] {
        Some(
            error::invalid(
                "repeat_heads requires matching sequence/head_dim, got "@ + arrow(input, output),
            ),
        )
    } else if input[1] == 0 || output[1] == 0 || output[1] % input[1] != 0 || output[1] < input[1] {
        Some(
            error::invalid(
                "repeat_heads output head count must be a positive multiple of input heads, got "@
                    + arrow(input, output),
            ),
        )
    } else {
        words_refusal(input, output, (output[1] / input[1]) as int, "repeat factor")
    }
}

impl RepeatHeadsKernelShape {
    /// Whether this is the kernel for the given shapes.
    pub open spec fn of(&self, input: Seq<usize>, output: Seq<usize>) -> bool {
        &&& self.input_shape@ == dims::narrowed(input)
        &&& self.output_shape@ == dims::narrowed(output)
        &&& (self.input_tile_rows as int, self.input_tiles_per_row as int) == common::tile_grid(
            input,
        )
        &&& (self.output_tile_rows as int, self.output_tiles_per_row as int) == common::tile_grid(
            output,
        )
        &&& self.repeat_factor == output[1] / input[1]
        &&& dram::tile_count(output) == Some(self.tile_count as int)
    }
}

/// Each head of the input stands in the output as often as the factor says.
pub proof fn lemma_heads_repeated(input: Seq<usize>, output: Seq<usize>, s: RepeatHeadsKernelShape)
    requires
        repeat_refusal(input, output) is None,
        s.of(input, output),
    ensures
        s.repeat_factor >= 1,
        s.repeat_factor * input[1] == output[1],
{
    let (a, b) = (output[1] as int, input[1] as int);
    vstd::arithmetic::div_mod::lemma_fundamental_div_mod(a, b);
    assert(a / b >= 1) by (nonlinear_arith)
        requires
            a == b * (a / b),
            a > 0,
            b > 0,
    ;
    assert(b * (a / b) == (a / b) * b) by (nonlinear_arith);
}

pub fn repeat_heads_kernel_shape(input_shape: &[usize], output_shape: &[usize]) -> (r: Result<
    RepeatHeadsKernelShape,
    Error,
>)
    ensures
        match r {
            Ok(s) => repeat_refusal(input_shape@, output_shape@) is None && s.of(
                input_shape@,
                output_shape@,
            ),
            Err(e) => repeat_refusal(input_shape@, output_shape@) == Some(e@),
        },
{
    if input_shape.len() != 3 || output_shape.len() != 3 {
        return Err(
            error::invalid_input(
                text::cat2(
                    "repeat_heads expects rank-3 input and output, got ",
                    arrow_text(input_shape, output_shape).as_str(),
                ),
            ),
        );
    }
    if input_shape[0] != output_shape[0] || input_shape[2] != output_shape[2] {
        return Err(
            error::invalid_input(
                text::cat2(
                    "repeat_heads requires matching sequence/head_dim, got ",
                    arrow_text(input_shape, output_shape).as_str(),
                ),
            ),
        );
    }
    if input_shape[1] == 0 || output_shape[1] == 0 || output_shape[1] % input_shape[1] != 0
        || output_shape[1] < input_shape[1] {
        return Err(
            error::invalid_input(
                text::cat2(
                    "repeat_heads output head count must be a positive multiple of input heads, got ",
                    arrow_text(input_shape, output_shape).as_str(),
                ),
            ),
        );
    }
    let factor: usize = output_shape[1] / input_shape[1];
    let w = head_words(input_shape, output_shape, factor, "repeat factor")?;
    Ok(
        RepeatHeadsKernelShape {
            input_tile_rows: w.grid[0],
            input_tiles_per_row: w.grid[1],
            output_tile_rows: w.grid[2],
            output_tiles_per_row: w.grid[3],
            repeat_factor: w.grid[4],
            tile_count: w.grid[5],
            input_shape: w.input_shape,
            output_shape: w.output_shape,
        },
    )
}

impl RepeatHeadsPlan {
    /// Checks a repetition of heads and plans its kernel.
    pub fn new(input_shape: &[usize], output_shape: &[usize]) -> (r: Result<
        RepeatHeadsPlan,
        Error,
    >)
        ensures
            match r {
                Ok(p) => {
                    &&& repeat_refusal(input_shape@, output_shape@) is None
                    &&& p.input_shape@ == input_shape@
                    &&& p.output_allocation_shape@ == dram::tiled_shape(output_shape@)
                    &&& p.kernel_shape.of(input_shape@, output_shape@)
                },
                Err(e) => repeat_refusal(input_shape@, output_shape@) == Some(e@),
            },
    {
        let kernel_shape = repeat_heads_kernel_shape(input_shape, output_shape)?;
        let output_allocation_shape = dram::tiled_allocation_shape(output_shape)?;
        Ok(
            RepeatHeadsPlan {
                input_shape: arith::copy_usizes(input_shape),
                output_allocation_shape,
                kernel_shape,
            },
        )
    }

    pub fn kernel_shape(&self) -> (r: &RepeatHeadsKernelShape)
        ensures
            *r == self.kernel_shape,
    {
        &self.kernel_shape
    }
}

/// The shape that a stack of heads has: with a dimension for the heads, or with
/// the heads side by side.
pub open spec fn stacked_shape(input: Seq<usize>, head_count: int, flatten: bool) -> Seq<usize> {
    if flatten {
        seq![input[0], (head_count * input[1]) as usize]
    } else {
        seq![input[0], head_count as usize, input[1]]
    }
}

/// Why heads are not stacked.
pub open spec fn stack_refusal(
    input: Seq<usize>,
    output: Seq<usize>,
    head_count: int,
    flatten: bool,
) -> Option<error::Refusal> {
    if input.len() != 2 {
        Some(
            error::invalid(
                "stack_heads expects rank-2 inputs, got "@ + text::list_text(arith::ints(input)),
            ),
        )
    } else if head_count < 2 {
        Some(
            error::invalid(
                "stack_heads requires at least two heads, got "@ + text::dec(head_count),
            ),
        )
    } else if flatten && input[1] % 32 != 0 {
        Some(
            error::invalid(
                "flattened stack_heads requires input cols to be tile-aligned, got "@
                    + text::list_text(arith::ints(input)),
            ),
        )
    } else if output != stacked_shape(input, head_count, flatten) {
        Some(
            error::invalid(
                "stack_heads output shape mismatch: expected "@ + text::list_text(
                    arith::ints(stacked_shape(input, head_count, flatten)),
                ) + ", got "@ + text::list_text(arith::ints(output)),
            ),
        )
    } else {
        words_refusal(input, output, head_count, "head count")
    }
}

impl StackHeadsKernelShape {
    /// Whether this is the kernel for the given shapes.
    pub open spec fn of(
        &self,
        input: Seq<usize>,
        output: Seq<usize>,
        head_count: int,
        flatten: bool,
    ) -> bool {
        &&& self.input_shape@ == dims::narrowed(input)
        &&& self.output_shape@ == dims::narrowed(output)
        &&& (self.input_tile_rows as int, self.input_tiles_per_row as int) == common::tile_grid(
            input,
        )
        &&& (self.output_tile_rows as int, self.output_tiles_per_row as int) == common::tile_grid(
            output,
        )
        &&& self.head_count == head_count
        &&& dram::tile_count(output) == Some(self.tile_count as int)
        &&& self.flatten == flatten
    }
}

pub fn stack_heads_kernel_shape(
    input_shape: &[usize],
    output_shape: &[usize],
    head_count: usize,
    flatten: bool,
) -> (r: Result<StackHeadsKernelShape, Error>)
    requires
        flatten && input_shape@.len() == 2 ==> head_count * input_shape@[1] <= usize::MAX,
    ensures
        match r {
            Ok(s) => stack_refusal(input_shape@, output_shape@, head_count as int, flatten) is None
                && s.of(input_shape@, output_shape@, head_count as int, flatten),
            Err(e) => stack_refusal(input_shape@, output_shape@, head_count as int, flatten)
                == Some(e@),
        },
{
    if input_shape.len() != 2 {
        return Err(
            error::invalid_input(
                text::cat2(
                    "stack_heads expects rank-2 inputs, got ",
                    text::shape_text(input_shape).as_str(),
                ),
            ),
        );
    }
    if head_count < 2 {
        return Err(
            error::invalid_input(
                text::cat2(
                    "stack_heads requires at least two heads, got ",
                    text::decimal_usize(head_count).as_str(),
                ),
            ),
        );
    }
    let expected: Vec<usize> = if flatten {
        if input_shape[1] % 32 != 0 {
            return Err(
                error::invalid_input(
                    text::cat2(
                        "flattened stack_heads requires input cols to be tile-aligned, got ",
                        text::shape_text(input_shape).as_str(),
                    ),
                ),
            );
        }
        let cols: usize = head_count * input_shape[1];
        vec![input_shape[0], cols]
    } else {
        vec![input_shape[0], head_count, input_shape[1]]
    };
    assert(expected@ =~= stacked_shape(input_shape@, head_count as int, flatten));
    if !arith::same_usizes(output_shape, expected.as_slice()) {
        return Err(
            error::invalid_input(
                text::cat4(
                    "stack_heads output shape mismatch: expected ",
                    text::shape_text(expected.as_slice()).as_str(),
                    ", got ",
                    text::shape_text(output_shape).as_str(),
                ),
            ),
        );
    }
    let w = head_words(input_shape, output_shape, head_count, "head count")?;
    Ok(
        StackHeadsKernelShape {
            input_tile_rows: w.grid[0],
            input_tiles_per_row: w.grid[1],
            output_tile_rows: w.grid[2],
            output_tiles_per_row: w.grid[3],
            head_count: w.grid[4],
            tile_count: w.grid[5],
            flatten,
            input_shape: w.input_shape,
            output_shape: w.output_shape,
        },
    )
}

impl StackHeadsPlan {
    /// Checks a stack of heads and plans its kernel.
    pub fn new(
        input_shape: &[usize],
        output_shape: &[usize],
        head_count: usize,
        flatten: bool,
    ) -> (r: Result<StackHeadsPlan, Error>)
        requires
            flatten && input_shape@.len() == 2 ==> head_count * input_shape@[1] <= usize::MAX,
        ensures
            match r {
                Ok(p) => {
                    &&& stack_refusal(
                        input_shape@,
                        output_shape@,
                        head_count as int,
                        flatten,
                    ) is None
                    &&& p.input_shape@ == input_shape@
                    &&& p.output_allocation_shape@ == dram::tiled_shape(output_shape@)
                    &&& p.kernel_shape.of(input_shape@, output_shape@, head_count as int, flatten)
                },
                Err(e) => stack_refusal(input_shape@, output_shape@, head_count as int, flatten)
                    == Some(e@),
            },
    {
        let kernel_shape = stack_heads_kernel_shape(
            input_shape,
            output_shape,
            head_count,
            flatten,
        )?;
        let output_allocation_shape = dram::tiled_allocation_shape(output_shape)?;
        Ok(
            StackHeadsPlan {
                input_shape: arith::copy_usizes(input_shape),
                output_allocation_shape,
                kernel_shape,
            },
        )
    }

    pub fn kernel_shape(&self) -> (r: &StackHeadsKernelShape)
        ensures
            *r == self.kernel_shape,
    {
        &self.kernel_shape
    }
}

#[derive(Clone, Debug, Hash, PartialEq, Eq)]
pub struct RepeatHeadsProgramKey {
    pub cores: Vec<CoreCoord>,
    pub dtype: DType,
    pub shape: RepeatHeadsKernelShape,
}

#[derive(Clone, Debug, Hash, PartialEq, Eq)]
pub struct StackHeadsProgramKey {
    pub cores: Vec<CoreCoord>,
    pub dtype: DType,
    pub shape: StackHeadsKernelShape,
}

/// The source of the reader that repeats heads.
pub open spec fn repeat_text(dtype: DType, s: RepeatHeadsKernelShape, body: Seq<char>) -> Seq<
    char,
> {
    common::definition("REPEAT_INPUT_SHAPE"@, text::cpp_array(text::ints_u32(s.input_shape@)))
        + common::definition(
        "REPEAT_OUTPUT_SHAPE"@,
        text::cpp_array(text::ints_u32(s.output_shape@)),
    ) + common::definition("REPEAT_INPUT_TILE_ROWS"@, text::dec(s.input_tile_rows as int))
        + common::definition(
        "REPEAT_INPUT_TILES_PER_ROW"@,
        text::dec(s.input_tiles_per_row as int),
    ) + common::definition("REPEAT_OUTPUT_TILE_ROWS"@, text::dec(s.output_tile_rows as int))
        + common::definition(
        "REPEAT_OUTPUT_TILES_PER_ROW"@,
        text::dec(s.output_tiles_per_row as int),
    ) + common::definition("REPEAT_FACTOR"@, text::dec(s.repeat_factor as int))
        + common::definition("REPEAT_ELEMENT_TYPE"@, common::element_word(dtype)) + body
}

pub fn repeat_heads_reader_source(dtype: DType, shape: &RepeatHeadsKernelShape, body: &str) -> (r:
    String)
    ensures
        r@ == repeat_text(dtype, *shape, body@),
{
    let input = text::cpp_u32_array(shape.input_shape.as_slice());
    let mut out = common::defined("REPEAT_INPUT_SHAPE", input.as_str());
    common::define_words(&mut out, "REPEAT_OUTPUT_SHAPE", &shape.output_shape);
    common::define_word(&mut out, "REPEAT_INPUT_TILE_ROWS", shape.input_tile_rows);
    common::define_word(&mut out, "REPEAT_INPUT_TILES_PER_ROW", shape.input_tiles_per_row);
    common::define_word(&mut out, "REPEAT_OUTPUT_TILE_ROWS", shape.output_tile_rows);
    common::define_word(&mut out, "REPEAT_OUTPUT_TILES_PER_ROW", shape.output_tiles_per_row);
    common::define_word(&mut out, "REPEAT_FACTOR", shape.repeat_factor);
    common::define(&mut out, "REPEAT_ELEMENT_TYPE", common::element_type(dtype));
    out.append(body);
    out
}

/// The source of the reader that stacks heads.
pub open spec fn stack_text(dtype: DType, s: StackHeadsKernelShape, body: Seq<char>) -> Seq<char> {
    common::definition("STACK_INPUT_SHAPE"@, text::cpp_array(text::ints_u32(s.input_shape@)))
        + common::definition(
        "STACK_OUTPUT_SHAPE"@,
        text::cpp_array(text::ints_u32(s.output_shape@)),
    ) + common::definition("STACK_INPUT_TILE_ROWS"@, text::dec(s.input_tile_rows as int))
        + common::definition(
        "STACK_INPUT_TILES_PER_ROW"@,
        text::dec(s.input_tiles_per_row as int),
    ) + common::definition("STACK_OUTPUT_TILE_ROWS"@, text::dec(s.output_tile_rows as int))
        + common::definition(
        "STACK_OUTPUT_TILES_PER_ROW"@,
        text::dec(s.output_tiles_per_row as int),
    ) + common::definition("STACK_HEAD_COUNT"@, text::dec(s.head_count as int))
        + common::definition("STACK_FLATTEN"@, text::dec(common::flag(s.flatten)))
        + common::definition("STACK_ELEMENT_TYPE"@, common::element_word(dtype)) + body
}

pub fn stack_heads_reader_source(dtype: DType, shape: &StackHeadsKernelShape, body: &str) -> (r:
    String)
    ensures
        r@ == stack_text(dtype, *shape, body@),
{
    let input = text::cpp_u32_array(shape.input_shape.as_slice());
    let mut out = common::defined("STACK_INPUT_SHAPE", input.as_str());
    common::define_words(&mut out, "STACK_OUTPUT_SHAPE", &shape.output_shape);
    common::define_word(&mut out, "STACK_INPUT_TILE_ROWS", shape.input_tile_rows);
    common::define_word(&mut out, "STACK_INPUT_TILES_PER_ROW", shape.input_tiles_per_row);
    common::define_word(&mut out, "STACK_OUTPUT_TILE_ROWS", shape.output_tile_rows);
    common::define_word(&mut out, "STACK_OUTPUT_TILES_PER_ROW", shape.output_tiles_per_row);
    common::define_word(&mut out, "STACK_HEAD_COUNT", shape.head_count);
    common::define_word(&mut out, "STACK_FLATTEN", common::flag_word(shape.flatten));
    common::define(&mut out, "STACK_ELEMENT_TYPE", common::element_type(dtype));
    out.append(body);
    out
}

/// Builds the program that repeats heads from the fixed parts of its kernels.
pub fn repeat_heads_program(key: &RepeatHeadsProgramKey, reader: &str, writer: &str) -> (r: Result<
    LoweredProgram,
    Error,
>)
    ensures
        match r {
            Ok(p) => {
                &&& lowering::listed_refusal(key.cores@) is None
                &&& p.reader_kernel@ == repeat_text(key.dtype, key.shape, reader@)
                &&& p.compute_kernel@ == ""@
                &&& p.writer_kernel@ == writer@
                &&& p.is_uniform()
                &&& p.name@ == "repeat_heads_"@ + key.dtype.shown()
                &&& p.compile@ == lowering::plain_config(broadcast::copy_cbs(key.dtype))
                &&& lowering::assigns(
                    p.runtime_args,
                    key.cores@,
                    common::copied(key.cores@, key.shape.tile_count, 1),
                    0,
                    common::first_dynamic(1, 1),
                )
            },
            Err(e) => lowering::listed_refusal(key.cores@) == Some(e@),
        },
{
    let args = common::deal_copies(key.cores.as_slice(), key.shape.tile_count, 1)?;
    Ok(
        LoweredProgram::uniform(
            repeat_heads_reader_source(key.dtype, &key.shape, reader),
            "".to_owned(),
            writer.to_owned(),
            text::cat2("repeat_heads_", key.dtype.name()),
            CompileConfig::plain(broadcast::list_copy_cbs(key.dtype)),
            args,
        ),
    )
}

/// Builds the program that stacks heads from the fixed parts of its kernels.
pub fn stack_heads_program(key: &StackHeadsProgramKey, reader: &str, writer: &str) -> (r: Result<
    LoweredProgram,
    Error,
>)
    requires
        8 * key.shape.head_count + 64 <= usize::MAX,
    ensures
        match r {
            Ok(p) => {
                &&& lowering::listed_refusal(key.cores@) is None
                &&& p.reader_kernel@ == stack_text(key.dtype, key.shape, reader@)
                &&& p.compute_kernel@ == ""@
                &&& p.writer_kernel@ == writer@
                &&& p.is_uniform()
                &&& p.name@ == "stack_heads_"@ + key.dtype.shown() + "_"@ + text::dec(
                    key.shape.head_count as int,
                ) + "_"@ + text::dec(common::flag(key.shape.flatten))
                &&& p.compile@ == lowering::plain_config(broadcast::copy_cbs(key.dtype))
                &&& lowering::assigns(
                    p.runtime_args,
                    key.cores@,
                    common::copied(key.cores@, key.shape.tile_count, key.shape.head_count as int),
                    0,
                    common::first_dynamic(1, key.shape.head_count as int),
                )
            },
            Err(e) => lowering::listed_refusal(key.cores@) == Some(e@),
        },
{
    let heads: usize = key.shape.head_count as usize;
    let args = common::deal_copies(key.cores.as_slice(), key.shape.tile_count, heads)?;
    Ok(
        LoweredProgram::uniform(
            stack_heads_reader_source(key.dtype, &key.shape, reader),
            "".to_owned(),
            writer.to_owned(),
            text::cat6(
                "stack_heads_",
                key.dtype.name(),
                "_",
                text::decimal_u32(key.shape.head_count).as_str(),
                "_",
                text::decimal_u32(common::flag_word(key.shape.flatten)).as_str(),
            ),
            CompileConfig::plain(broadcast::list_copy_cbs(key.dtype)),
            args,
        ),
    )
}

/// Why heads cannot be repeated on a tensor.
pub open spec fn repeat_request_refusal(
    available: Seq<CoreCoord>,
    input: DramBuffer,
    shape: Seq<usize>,
    dtype: DType,
) -> Option<error::Refusal> {
    if common::input_refusal("repeat_heads input"@, input, dtype, shape) is Some {
        common::input_refusal("repeat_heads input"@, input, dtype, shape)
    } else {
        kernel::select_refusal(available)
    }
}

/// Checks the tensor whose heads are repeated and chooses the cores.
pub fn repeat_heads(
    available: &[CoreCoord],
    input: &DramBuffer,
    plan: RepeatHeadsPlan,
    dtype: DType,
) -> (r: Result<KernelRequest<RepeatHeadsProgramKey>, Error>)
    ensures
        match r {
            Ok(q) => {
                &&& repeat_request_refusal(available@, *input, plan.input_shape@, dtype) is None
                &&& q.output_tiles == plan.kernel_shape.tile_count
                &&& q.output_shape == plan.output_allocation_shape
                &&& q.key.shape == plan.kernel_shape
                &&& q.key.dtype == dtype
                &&& q.key.cores@ == kernel::chosen_cores(available@, q.output_tiles as int)
            },
            Err(e) => repeat_request_refusal(available@, *input, plan.input_shape@, dtype) == Some(
                e@,
            ),
        },
{
    common::check_input("repeat_heads input", input, dtype, plan.input_shape.as_slice())?;
    let output_tiles: usize = plan.kernel_shape.tile_count as usize;
    let cores = kernel::select_worker_cores(available, output_tiles)?;
    Ok(
        KernelRequest {
            key: RepeatHeadsProgramKey { cores, dtype, shape: plan.kernel_shape },
            output_tiles,
            output_shape: plan.output_allocation_shape,
        },
    )
}

/// The kernel that repeats heads with the addresses of one run.
pub fn repeat_heads_kernel(
    input_addr: u64,
    output_addr: u64,
    key: RepeatHeadsProgramKey,
) -> (r: Result<DramKernel<RepeatHeadsProgramKey>, Error>)
    ensures
        match r {
            Ok(k) => {
                &&& common::pair_refusal(
                    input_addr,
                    "input address"@,
                    output_addr,
                    "output address"@,
                ) is None
                &&& k.reader_addrs@ == seq![input_addr as u32]
                &&& k.output_addr == output_addr
                &&& k.key == key
            },
            Err(e) => common::pair_refusal(
                input_addr,
                "input address"@,
                output_addr,
                "output address"@,
            ) == Some(e@),
        },
{
    common::pair_kernel(input_addr, "input address", output_addr, "output address", key)
}

/// The name of input `i` of an operation.
pub open spec fn input_label(op: Seq<char>, i: int) -> Seq<char> {
    op + " input "@ + text::dec(i)
}

/// Why input `i` of a list is refused.
pub open spec fn input_checks<'a>(
    op: Seq<char>,
    inputs: Seq<&'a DramBuffer>,
    dtype: DType,
    shape: Seq<usize>,
) -> spec_fn(int) -> Option<error::Refusal> {
    |i: int| common::input_refusal(input_label(op, i), *inputs[i], dtype, shape)
}

/// Why heads cannot be stacked from tensors.
pub open spec fn stack_request_refusal<'a>(
    available: Seq<CoreCoord>,
    inputs: Seq<&'a DramBuffer>,
    shape: Seq<usize>,
    head_count: int,
    dtype: DType,
) -> Option<error::Refusal> {
    let each = error::first_refusal(
        0,
        inputs.len() as int,
        input_checks("stack_heads"@, inputs, dtype, shape),
    );
    if inputs.len() != head_count {
        Some(
            error::invalid(
                "stack_heads expected "@ + text::dec(head_count) + " inputs, got "@ + text::dec(
                    inputs.len() as int,
                ),
            ),
        )
    } else if dram::tile_count_refusal(shape) is Some {
        dram::tile_count_refusal(shape)
    } else if each is Some {
        each
    } else {
        kernel::select_refusal(available)
    }
}

/// Checks the tensors that are stacked and chooses the cores.
pub fn stack_heads<'a>(
    available: &[CoreCoord],
    inputs: &[&'a DramBuffer],
    plan: StackHeadsPlan,
    dtype: DType,
) -> (r: Result<KernelRequest<StackHeadsProgramKey>, Error>)
    ensures
        ({
            let refusal = stack_request_refusal(
                available@,
                inputs@,
                plan.input_shape@,
                plan.kernel_shape.head_count as int,
                dtype,
            );
            match r {
                Ok(q) => {
                    &&& refusal is None
                    &&& q.output_tiles == plan.kernel_shape.tile_count
                    &&& q.output_shape == plan.output_allocation_shape
                    &&& q.key.shape == plan.kernel_shape
                    &&& q.key.dtype == dtype
                    &&& q.key.cores@ == kernel::chosen_cores(available@, q.output_tiles as int)
                },
                Err(e) => refusal == Some(e@),
            }
        }),
{
    let head_count: usize = plan.kernel_shape.head_count as usize;
    let n: usize = inputs.len();
    if n != head_count {
        return Err(
            error::invalid_input(
                text::cat4(
                    "stack_heads expected ",
                    text::decimal_usize(head_count).as_str(),
                    " inputs, got ",
                    text::decimal_usize(n).as_str(),
                ),
            ),
        );
    }
    let _tiles: usize = dram::tiled_shape_tile_count(plan.input_shape.as_slice())?;
    let ghost checks = input_checks("stack_heads"@, inputs@, dtype, plan.input_shape@);
    for i in 0..n
        invariant
            n == inputs@.len(),
            checks == input_checks("stack_heads"@, inputs@, dtype, plan.input_shape@),
            n == plan.kernel_shape.head_count,
            dram::tile_count_refusal(plan.input_shape@) is None,
            forall|j: int| 0 <= j < i ==> #[trigger] checks(j) is None,
    {
        proof {
            error::lemma_first_refusal_skip(0, i as int, n as int, checks);
        }
        let label = text::cat3("stack_heads", " input ", text::decimal_usize(i).as_str());
        common::check_input(label.as_str(), inputs[i], dtype, plan.input_shape.as_slice())?;
        assert(checks(i as int) is None);
    }
    proof {
        error::lemma_first_refusal_none(0, n as int, checks);
    }
    let output_tiles: usize = plan.kernel_shape.tile_count as usize;
    let cores = kernel::select_worker_cores(available, output_tiles)?;
    Ok(
        KernelRequest {
            key: StackHeadsProgramKey { cores, dtype, shape: plan.kernel_shape },
            output_tiles,
            output_shape: plan.output_allocation_shape,
        },
    )
}

/// The kernel that stacks heads with the addresses of one run.
pub fn stack_heads_kernel<'a>(
    inputs: &[&'a DramBuffer],
    output_addr: u64,
    key: StackHeadsProgramKey,
) -> (r: Result<DramKernel<StackHeadsProgramKey>, Error>)
    ensures
        match r {
            Ok(k) => {
                &&& common::inputs_refusal(inputs@, output_addr) is None
                &&& k.reader_addrs@ == common::input_addrs(inputs@)
                &&& k.output_addr == output_addr
                &&& k.key == key
            },
            Err(e) => common::inputs_refusal(inputs@, output_addr) == Some(e@),
        },
{
    common::inputs_kernel(inputs, output_addr, key)
}

} // verus!
