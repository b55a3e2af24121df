//! Padding: a tensor with further elements around it and between its elements.

use vstd::prelude::*;
use crate::arith;
use crate::dram;
use crate::dram::{DType, DramBuffer};
use crate::error;
use crate::error::Error;
use crate::hw::CoreCoord;
use crate::kernels::common;
use crate::kernels::common::{DramKernel, KernelRequest, PairTiles};
use crate::kernels::dims;
use crate::kernels::kernel;
use crate::kernels::lowering;
use crate::kernels::lowering::{CompileConfig, LoweredProgram};
use crate::text;

verus! {

/// What the kernel is built for.
#[derive(Clone, Debug, Hash, PartialEq, Eq)]
pub struct PadKernelShape {
    pub input_shape: Vec<u32>,
    pub output_shape: Vec<u32>,
    pub edge_padding_low: Vec<u32>,
    pub interior_padding: Vec<u32>,
    pub input_tile_rows: u32,
    pub input_tiles_per_row: u32,
    pub output_tile_rows: u32,
    pub output_tiles_per_row: u32,
    pub tile_count: u32,
    pub direct_copy: bool,
}

/// A checked padding.
#[derive(Clone, Debug, PartialEq, Eq)]
pub struct PadPlan {
    pub input_shape: Vec<usize>,
    pub output_allocation_shape: Vec<usize>,
    pub kernel_shape: PadKernelShape,
}

/// A padding as a contract speaks of it.
pub struct Padding {
    pub input: Seq<usize>,
    pub output: Seq<usize>,
    pub low: Seq<i64>,
    pub high: Seq<i64>,
    pub interior: Seq<i64>,
}

/// The size of a padded dimension: what is before it, its elements with what is
/// between each two of them, and what is after it.
pub open spec fn padded_size(size: int, low: int, high: int, interior: int) -> int {
    low + size + arith::max2(size - 1, 0) * interior + high
}

/// Why a number of further elements is refused.
pub open spec fn amount_refusal(v: i64, name: Seq<char>, d: int) -> Option<error::Refusal> {
    if 0 <= v <= usize::MAX {
        None
    } else {
        Some(
            error::invalid(
                "pad "@ + name + " "@ + text::dec(d) + " must be non-negative, got "@ + text::dec(
                    v as int,
                ),
            ),
        )
    }
}

impl Padding {
    pub open spec fn size(self, d: int) -> int {
        padded_size(
            self.input[d] as int,
            self.low[d] as int,
            self.high[d] as int,
            self.interior[d] as int,
        )
    }

    /// Why dimension `d` is refused.
    pub open spec fn checks(self) -> spec_fn(int) -> Option<error::Refusal> {
        |d: int|
            if amount_refusal(self.low[d], "edge_padding_low"@, d) is Some {
                amount_refusal(self.low[d], "edge_padding_low"@, d)
            } else if amount_refusal(self.high[d], "edge_padding_high"@, d) is Some {
                amount_refusal(self.high[d], "edge_padding_high"@, d)
            } else if amount_refusal(self.interior[d], "interior_padding"@, d) is Some {
                amount_refusal(self.interior[d], "interior_padding"@, d)
            } else if self.size(d) > usize::MAX {
                Some(
                    error::invalid("pad output dimension "@ + text::dec(d) + " overflow"@),
                )
            } else if self.output[d] != self.size(d) {
                Some(
                    error::invalid(
                        "pad output dimension "@ + text::dec(d) + " mismatch: expected "@
                            + text::dec(self.size(d)) + ", got "@ + text::dec(
                            self.output[d] as int,
                        ),
                    ),
                )
            } else {
                None
            }
    }

    /// Why the form of a padding is refused.
    pub open spec fn form_refusal(self) -> Option<error::Refusal> {
        let rank = self.input.len() as int;
        if self.output.len() != rank {
            Some(
                error::invalid(
                    "pad output rank "@ + text::dec(self.output.len() as int)
                        + " must match input rank "@ + text::dec(rank),
                ),
            )
        } else if self.low.len() != rank || self.high.len() != rank || self.interior.len()
            != rank {
            Some(
                error::invalid(
                    "pad attribute lengths must match rank "@ + text::dec(rank) + ": low="@
                        + text::dec(self.low.len() as int) + ", high="@ + text::dec(
                        self.high.len() as int,
                    ) + ", interior="@ + text::dec(self.interior.len() as int),
                ),
            )
        } else {
            error::first_refusal(0, rank, self.checks())
        }
    }

    /// Whether the padding leaves the tensor as it is.
    pub open spec fn is_copy(self) -> bool {
        &&& self.input == self.output
        &&& forall|i: int| 0 <= i < self.low.len() ==> #[trigger] self.low[i] == 0
        &&& forall|i: int| 0 <= i < self.interior.len() ==> #[trigger] self.interior[i] == 0
    }

    pub open spec fn grid_values(self) -> Seq<usize> {
        seq![
            common::tile_grid(self.input).0 as usize,
            common::tile_grid(self.input).1 as usize,
            common::tile_grid(self.output).0 as usize,
            common::tile_grid(self.output).1 as usize,
            dram::tile_count(self.output)->0 as usize,
        ]
    }

    /// Why there is no kernel for a padding.
    pub open spec fn shape_refusal(self) -> Option<error::Refusal> {
        let low = error::first_refusal(
            0,
            self.low.len() as int,
            common::index_checks(self.low, "edge padding low"@),
        );
        let interior = error::first_refusal(
            0,
            self.interior.len() as int,
            common::index_checks(self.interior, "interior padding"@),
        );
        if common::pair_tiles_refusal(self.input, self.output) is Some {
            common::pair_tiles_refusal(self.input, self.output)
        } else if low is Some {
            low
        } else if interior is Some {
            interior
        } else if dims::shape_word_refusal(self.input, "pad input shape"@, 16) is Some {
            dims::shape_word_refusal(self.input, "pad input shape"@, 16)
        } else if dims::shape_word_refusal(self.output, "pad output shape"@, 16) is Some {
            dims::shape_word_refusal(self.output, "pad output shape"@, 16)
        } else {
            common::hex_fields_refusal(self.grid_values(), grid_names())
        }
    }

    /// Why there is no plan for a padding.
    pub open spec fn refusal(self) -> Option<error::Refusal> {
        if self.form_refusal() is Some {
            self.form_refusal()
        } else if dram::tiled_shape_refusal(self.output) is Some {
            dram::tiled_shape_refusal(self.output)
        } else {
            self.shape_refusal()
        }
    }
}

pub open spec fn grid_names() -> Seq<&'static str> {
    seq![
        "pad input tile rows",
        "pad input tiles per row",
        "pad output tile rows",
        "pad output tiles per row",
        "pad tile count",
    ]
}

/// A dimension that is padded nowhere keeps its size, and one that is padded is no
/// smaller.
pub proof fn lemma_padded_size(size: int, low: int, high: int, interior: int)
    requires
        size >= 0,
        low >= 0,
        high >= 0,
        interior >= 0,
    ensures
        padded_size(size, 0, 0, 0) == size,
        padded_size(size, low, high, interior) >= size + low + high,
{
    assert(arith::max2(size - 1, 0) * 0 == 0);
    assert(arith::max2(size - 1, 0) * interior >= 0) by (nonlinear_arith)
        requires
            arith::max2(size - 1, 0) >= 0,
            interior >= 0,
    ;
}

fn check_amount(v: i64, name: &str, d: usize) -> (r: Result<usize, Error>)
    ensures
        match r {
            Ok(n) => amount_refusal(v, name@, d as int) is None && n == v,
            Err(e) => amount_refusal(v, name@, d as int) == Some(e@),
        },
{
    if v < 0 || v as u64 > usize::MAX as u64 {
        return Err(
            error::invalid_input(
                text::cat6(
                    "pad ",
                    name,
                    " ",
                    text::decimal_usize(d).as_str(),
                    " must be non-negative, got ",
                    text::decimal_i64(v).as_str(),
                ),
            ),
        );
    }
    Ok(v as usize)
}

fn find_padded_size(size: usize, low: usize, high: usize, interior: usize) -> (r: Option<usize>)
    ensures
        match r {
            Some(n) => n == padded_size(size as int, low as int, high as int, interior as int),
            None => padded_size(size as int, low as int, high as int, interior as int)
                > usize::MAX,
        },
{
    let gaps: usize = if size > 0 {
        size - 1
    } else {
        0
    };
    assert(gaps * interior >= 0) by (nonlinear_arith)
        requires
            gaps >= 0,
            interior >= 0,
    ;
    let between: usize = match gaps.checked_mul(interior) {
        Some(n) => n,
        None => {
            return None;
        },
    };
    let a: usize = match low.checked_add(size) {
        Some(n) => n,
        None => {
            return None;
        },
    };
    let b: usize = match a.checked_add(between) {
        Some(n) => n,
        None => {
            return None;
        },
    };
    b.checked_add(high)
}

/// Checks the form of a padding.
pub fn validate_pad(
    input_shape: &[usize],
    output_shape: &[usize],
    edge_padding_low: &[i64],
    edge_padding_high: &[i64],
    interior_padding: &[i64],
) -> (r: Result<(), Error>)
    ensures
        ({
            let p = Padding {
                input: input_shape@,
                output: output_shape@,
                low: edge_padding_low@,
                high: edge_padding_high@,
                interior: interior_padding@,
            };
            match r {
                Ok(_) => p.form_refusal() is None,
                Err(e) => p.form_refusal() == Some(e@),
            }
        }),
{
    let ghost p = Padding {
        input: input_shape@,
        output: output_shape@,
        low: edge_padding_low@,
        high: edge_padding_high@,
        interior: interior_padding@,
    };
    let rank: usize = input_shape.len();
    if output_shape.len() != rank {
        return Err(
            error::invalid_input(
                text::cat4(
                    "pad output rank ",
                    text::decimal_usize(output_shape.len()).as_str(),
                    " must match input rank ",
                    text::decimal_usize(rank).as_str(),
                ),
            ),
        );
    }
    if edge_padding_low.len() != rank || edge_padding_high.len() != rank
        || interior_padding.len() != rank {
        let front = text::cat4(
            "pad attribute lengths must match rank ",
            text::decimal_usize(rank).as_str(),
            ": low=",
            text::decimal_usize(edge_padding_low.len()).as_str(),
        );
        return Err(
            error::invalid_input(
                text::cat5(
                    front.as_str(),
                    ", high=",
                    text::decimal_usize(edge_padding_high.len()).as_str(),
                    ", interior=",
                    text::decimal_usize(interior_padding.len()).as_str(),
                ),
            ),
        );
    }
    let ghost checks = p.checks();
    for d in 0..rank
        invariant
            rank == input_shape@.len() == output_shape@.len(),
            rank == edge_padding_low@.len() == edge_padding_high@.len(),
            rank == interior_padding@.len(),
            p == (Padding {
                input: input_shape@,
                output: output_shape@,
                low: edge_padding_low@,
                high: edge_padding_high@,
                interior: interior_padding@,
            }),
            checks == p.checks(),
            forall|j: int| 0 <= j < d ==> #[trigger] checks(j) is None,
    {
        proof {
            error::lemma_first_refusal_skip(0, d as int, rank as int, checks);
            assert(checks(d as int) is Some || checks(d as int) is None);
        }
        let low: usize = check_amount(edge_padding_low[d], "edge_padding_low", d)?;
        let high: usize = check_amount(edge_padding_high[d], "edge_padding_high", d)?;
        let interior: usize = check_amount(interior_padding[d], "interior_padding", d)?;
        match find_padded_size(input_shape[d], low, high, interior) {
            None => {
                return Err(
                    error::invalid_input(
                        text::cat3(
                            "pad output dimension ",
                            text::decimal_usize(d).as_str(),
                            " overflow",
                        ),
                    ),
                );
            },
            Some(expected) => {
                if output_shape[d] != expected {
                    return Err(
                        error::invalid_input(
                            text::cat6(
                                "pad output dimension ",
                                text::decimal_usize(d).as_str(),
                                " mismatch: expected ",
                                text::decimal_usize(expected).as_str(),
                                ", got ",
                                text::decimal_usize(output_shape[d]).as_str(),
                            ),
                        ),
                    );
                }
            },
        }
    }
    proof {
        error::lemma_first_refusal_none(0, rank as int, checks);
    }
    Ok(())
}

impl PadKernelShape {
    /// Whether this is the kernel of a padding.
    pub open spec fn of(&self, p: Padding) -> bool {
        &&& self.input_shape@ == dims::narrowed(p.input)
        &&& self.output_shape@ == dims::narrowed(p.output)
        &&& self.edge_padding_low@ == common::index_words(p.low)
        &&& self.interior_padding@ == common::index_words(p.interior)
        &&& (self.input_tile_rows as int, self.input_tiles_per_row as int) == common::tile_grid(
            p.input,
        )
        &&& (self.output_tile_rows as int, self.output_tiles_per_row as int) == common::tile_grid(
            p.output,
        )
        &&& dram::tile_count(p.output) == Some(self.tile_count as int)
        &&& self.direct_copy == p.is_copy()
    }
}

fn all_zero(v: &[i64]) -> (r: bool)
    ensures
        r == forall|i: int| 0 <= i < v@.len() ==> #[trigger] v@[i] == 0,
{
    for i in 0..v.len()
        invariant
            forall|j: int| 0 <= j < i ==> #[trigger] v@[j] == 0,
    {
        if v[i] != 0 {
            assert(v@[i as int] != 0);
            return false;
        }
    }
    true
}

/// Plans the kernel of a padding.
pub fn pad_kernel_shape(
    input_shape: &[usize],
    output_shape: &[usize],
    edge_padding_low: &[i64],
    interior_padding: &[i64],
) -> (r: Result<PadKernelShape, Error>)
    ensures
        ({
            let p = Padding {
                input: input_shape@,
                output: output_shape@,
                low: edge_padding_low@,
                high: Seq::empty(),
                interior: interior_padding@,
            };
            match r {
                Ok(s) => p.shape_refusal() is None && s.of(p),
                Err(e) => p.shape_refusal() == Some(e@),
            }
        }),
{
    let ghost p = Padding {
        input: input_shape@,
        output: output_shape@,
        low: edge_padding_low@,
        high: Seq::empty(),
        interior: interior_padding@,
    };
    let tiles = PairTiles::new(input_shape, output_shape)?;
    let low = common::u32_indices(edge_padding_low, "edge padding low")?;
    let interior = common::u32_indices(interior_padding, "interior padding")?;
    let direct_copy: bool = arith::same_usizes(input_shape, output_shape) && all_zero(
        edge_padding_low,
    ) && all_zero(interior_padding);
    let input_words = dims::u32_shape(input_shape, "pad input shape", true)?;
    let output_words = dims::u32_shape(output_shape, "pad output shape", true)?;
    let values: Vec<usize> = vec![
        tiles.input_rows,
        tiles.input_cols,
        tiles.output_rows,
        tiles.output_cols,
        tiles.tiles,
    ];
    let names: Vec<&'static str> = vec![
        "pad input tile rows",
        "pad input tiles per row",
        "pad output tile rows",
        "pad output tiles per row",
        "pad tile count",
    ];
    assert(values@ =~= p.grid_values());
    assert(names@ =~= grid_names());
    let w = common::narrow_hex_fields(&values, &names)?;
    proof {
        common::lemma_narrowed(values@, names@);
    }
    Ok(
        PadKernelShape {
            input_shape: input_words,
            output_shape: output_words,
            edge_padding_low: low,
            interior_padding: interior,
            input_tile_rows: w[0],
            input_tiles_per_row: w[1],
            output_tile_rows: w[2],
            output_tiles_per_row: w[3],
            tile_count: w[4],
            direct_copy,
        },
    )
}

impl PadPlan {
    /// Checks a padding and plans its kernel.
    pub fn new(
        input_shape: &[usize],
        output_shape: &[usize],
        edge_padding_low: &[i64],
        edge_padding_high: &[i64],
        interior_padding: &[i64],
    ) -> (r: Result<PadPlan, Error>)
        ensures
            ({
                let p = Padding {
                    input: input_shape@,
                    output: output_shape@,
                    low: edge_padding_low@,
                    high: edge_padding_high@,
                    interior: interior_padding@,
                };
                match r {
                    Ok(plan) => {
                        &&& p.refusal() is None
                        &&& plan.input_shape@ == input_shape@
                        &&& plan.output_allocation_shape@ == dram::tiled_shape(output_shape@)
                        &&& plan.kernel_shape.of(p)
                    },
                    Err(e) => p.refusal() == Some(e@),
                }
            }),
    {
        validate_pad(
            input_shape,
            output_shape,
            edge_padding_low,
            edge_padding_high,
            interior_padding,
        )?;
        let output_allocation_shape = dram::tiled_allocation_shape(output_shape)?;
        let kernel_shape = pad_kernel_shape(
            input_shape,
            output_shape,
            edge_padding_low,
            interior_padding,
        )?;
        Ok(
            PadPlan {
                input_shape: arith::copy_usizes(input_shape),
                output_allocation_shape,
                kernel_shape,
            },
        )
    }

    pub fn kernel_shape(&self) -> (r: &PadKernelShape)
        ensures
            *r == self.kernel_shape,
    {
        &self.kernel_shape
    }
}

/// What the program of a padding depends on.
#[derive(Clone, Debug, Hash, PartialEq, Eq)]
pub struct PadProgramKey {
    pub cores: Vec<CoreCoord>,
    pub dtype: DType,
    pub shape: PadKernelShape,
}

/// The source of the reader.
pub open spec fn reader_text(dtype: DType, s: PadKernelShape, body: Seq<char>) -> Seq<char> {
    common::definition("PAD_RANK"@, text::dec(s.input_shape@.len() as int)) + common::definition(
        "PAD_INPUT_SHAPE"@,
        text::cpp_array(text::ints_u32(s.input_shape@)),
    ) + common::definition("PAD_OUTPUT_SHAPE"@, text::cpp_array(text::ints_u32(s.output_shape@)))
        + common::definition(
        "PAD_EDGE_PADDING_LOW"@,
        text::cpp_array(text::ints_u32(s.edge_padding_low@)),
    ) + common::definition(
        "PAD_INTERIOR_PADDING"@,
        text::cpp_array(text::ints_u32(s.interior_padding@)),
    ) + common::definition("PAD_INPUT_TILE_ROWS"@, text::dec(s.input_tile_rows as int))
        + common::definition("PAD_INPUT_TILES_PER_ROW"@, text::dec(s.input_tiles_per_row as int))
        + common::definition("PAD_OUTPUT_TILE_ROWS"@, text::dec(s.output_tile_rows as int))
        + common::definition(
        "PAD_OUTPUT_TILES_PER_ROW"@,
        text::dec(s.output_tiles_per_row as int),
    ) + common::definition("PAD_DIRECT_COPY"@, text::dec(common::flag(s.direct_copy)))
        + common::definition("PAD_ELEMENT_TYPE"@, common::element_word(dtype)) + body
}

/// Generates the source of the reader in front of its fixed part.
pub fn pad_reader_source(dtype: DType, shape: &PadKernelShape, body: &str) -> (r: String)
    ensures
        r@ == reader_text(dtype, *shape, body@),
{
    let rank = text::decimal_usize(shape.input_shape.len());
    let mut out = common::defined("PAD_RANK", rank.as_str());
    common::define_words(&mut out, "PAD_INPUT_SHAPE", &shape.input_shape);
    common::define_words(&mut out, "PAD_OUTPUT_SHAPE", &shape.output_shape);
    common::define_words(&mut out, "PAD_EDGE_PADDING_LOW", &shape.edge_padding_low);
    common::define_words(&mut out, "PAD_INTERIOR_PADDING", &shape.interior_padding);
    common::define_word(&mut out, "PAD_INPUT_TILE_ROWS", shape.input_tile_rows);
    common::define_word(&mut out, "PAD_INPUT_TILES_PER_ROW", shape.input_tiles_per_row);
    common::define_word(&mut out, "PAD_OUTPUT_TILE_ROWS", shape.output_tile_rows);
    common::define_word(&mut out, "PAD_OUTPUT_TILES_PER_ROW", shape.output_tiles_per_row);
    common::define_word(&mut out, "PAD_DIRECT_COPY", common::flag_word(shape.direct_copy));
    common::define(&mut out, "PAD_ELEMENT_TYPE", common::element_type(dtype));
    out.append(body);
    out
}

/// Builds the program of a padding from the fixed parts of its kernels.
pub fn pad_program(key: &PadProgramKey, reader_body: &str, writer_source: &str) -> (r: Result<
    LoweredProgram,
    Error,
>)
    ensures
        match r {
            Ok(p) => {
                &&& lowering::listed_refusal(key.cores@) is None
                &&& p.reader_kernel@ == reader_text(key.dtype, key.shape, reader_body@)
                &&& p.compute_kernel@ == ""@
                &&& p.writer_kernel@ == writer_source@
                &&& p.is_uniform()
                &&& p.name@ == "pad_"@ + key.dtype.shown() + "_"@ + text::dec(
                    key.shape.input_shape@.len() as int,
                )
                &&& p.compile@ == lowering::plain_config(
                    common::two_input_cbs(key.dtype, key.dtype),
                )
                &&& lowering::assigns(
                    p.runtime_args,
                    key.cores@,
                    common::copied(key.cores@, key.shape.tile_count, 2),
                    0,
                    common::first_dynamic(1, 2),
                )
            },
            Err(e) => lowering::listed_refusal(key.cores@) == Some(e@),
        },
{
    let args = common::deal_copies(key.cores.as_slice(), key.shape.tile_count, 2)?;
    Ok(
        LoweredProgram::uniform(
            pad_reader_source(key.dtype, &key.shape, reader_body),
            "".to_owned(),
            writer_source.to_owned(),
            text::cat4(
                "pad_",
                key.dtype.name(),
                "_",
                text::decimal_usize(key.shape.input_shape.len()).as_str(),
            ),
            CompileConfig::plain(common::list_two_input_cbs(key.dtype, key.dtype)),
            args,
        ),
    )
}

/// Why the tensor with the padding value is refused.
pub open spec fn value_refusal(b: DramBuffer, dtype: DType) -> Option<error::Refusal> {
    let scalar = dram::tiled_shape(Seq::empty());
    if common::type_refusal("pad padding value"@, b.dtype, dtype) is Some {
        common::type_refusal("pad padding value"@, b.dtype, dtype)
    } else if b.shape@ != scalar {
        Some(
            error::invalid(
                "pad padding value must be scalar allocation "@ + text::list_text(
                    arith::ints(scalar),
                ) + ", got "@ + text::list_text(arith::ints(b.shape@)),
            ),
        )
    } else if b.num_tiles != 1 {
        Some(
            error::invalid(
                "pad padding value must contain one tile, got "@ + text::dec(b.num_tiles as int),
            ),
        )
    } else {
        None
    }
}

pub fn validate_padding_value(buffer: &DramBuffer, dtype: DType) -> (r: Result<(), Error>)
    ensures
        match r {
            Ok(_) => value_refusal(*buffer, dtype) is None,
            Err(e) => value_refusal(*buffer, dtype) == Some(e@),
        },
{
    common::check_type("pad padding value", buffer.dtype, dtype)?;
    let none: Vec<usize> = Vec::new();
    assert(none@ =~= Seq::empty());
    let scalar = dram::tiled_allocation_shape(none.as_slice())?;
    if !arith::same_usizes(buffer.shape.as_slice(), scalar.as_slice()) {
        return Err(
            error::invalid_input(
                text::cat4(
                    "pad padding value must be scalar allocation ",
                    text::shape_text(scalar.as_slice()).as_str(),
                    ", got ",
                    text::shape_text(buffer.shape.as_slice()).as_str(),
                ),
            ),
        );
    }
    if buffer.num_tiles != 1 {
        return Err(
            error::invalid_input(
                text::cat2(
                    "pad padding value must contain one tile, got ",
                    text::decimal_usize(buffer.num_tiles).as_str(),
                ),
            ),
        );
    }
    Ok(())
}

/// Why a padding cannot be run.
pub open spec fn request_refusal(
    available: Seq<CoreCoord>,
    input: DramBuffer,
    value: DramBuffer,
    shape: Seq<usize>,
    dtype: DType,
) -> Option<error::Refusal> {
    if common::input_refusal("pad input"@, input, dtype, shape) is Some {
        common::input_refusal("pad input"@, input, dtype, shape)
    } else if value_refusal(value, dtype) is Some {
        value_refusal(value, dtype)
    } else {
        kernel::select_refusal(available)
    }
}

/// Checks the tensors of a padding and chooses the cores.
pub fn pad(
    available: &[CoreCoord],
    input: &DramBuffer,
    padding_value: &DramBuffer,
    plan: PadPlan,
    dtype: DType,
) -> (r: Result<KernelRequest<PadProgramKey>, Error>)
    ensures
        ({
            let refusal = request_refusal(
                available@,
                *input,
                *padding_value,
                plan.input_shape@,
                dtype,
            );
            match r {
                Ok(q) => {
                    &&& refusal is None
                    &&& q.output_tiles == plan.kernel_shape.tile_count
                    &&& q.output_shape == plan.output_allocation_shape
                    &&& q.key.shape == plan.kernel_shape
                    &&& q.key.dtype == dtype
                    &&& q.key.cores@ == kernel::chosen_cores(available@, q.output_tiles as int)
                },
                Err(e) => refusal == Some(e@),
            }
        }),
{
    common::check_input("pad input", input, dtype, plan.input_shape.as_slice())?;
    validate_padding_value(padding_value, dtype)?;
    let output_tiles: usize = plan.kernel_shape.tile_count as usize;
    let cores = kernel::select_worker_cores(available, output_tiles)?;
    Ok(
        KernelRequest {
            key: PadProgramKey { cores, dtype, shape: plan.kernel_shape },
            output_tiles,
            output_shape: plan.output_allocation_shape,
        },
    )
}

pub open spec fn kernel_refusal(input: u64, value: u64, output: u64) -> Option<error::Refusal> {
    common::triple_refusal(
        input,
        "pad input address"@,
        value,
        "pad padding value address"@,
        output,
        "pad output address"@,
    )
}

/// The kernel of a padding with the addresses of one run.
pub fn pad_kernel(input_addr: u64, value_addr: u64, output_addr: u64, key: PadProgramKey) -> (r:
    Result<DramKernel<PadProgramKey>, Error>)
    ensures
        match r {
            Ok(k) => {
                &&& kernel_refusal(input_addr, value_addr, output_addr) is None
                &&& k.reader_addrs@ == seq![input_addr as u32, value_addr as u32]
                &&& k.output_addr == output_addr
                &&& k.key == key
            },
            Err(e) => kernel_refusal(input_addr, value_addr, output_addr) == Some(e@),
        },
{
    common::triple_kernel(
        input_addr,
        "pad input address",
        value_addr,
        "pad padding value address",
        output_addr,
        "pad output address",
        key,
    )
}

} // verus!
