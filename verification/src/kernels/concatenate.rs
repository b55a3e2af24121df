//! Concatenation of tensors along one of the last two dimensions.

use vstd::prelude::*;
use crate::arith;
use crate::convert;
use crate::dram;
use crate::dram::{DType, DramBuffer};
use crate::error;
use crate::error::Error;
use crate::hw::CoreCoord;
use crate::kernels::broadcast;
use crate::kernels::common;
use crate::kernels::common::{DramKernel, SectionWords};
use crate::kernels::heads;
use crate::kernels::kernel;
use crate::kernels::lowering;
use crate::kernels::lowering::{CompileConfig, LoweredProgram, RangeWords, Section};
use crate::text;

verus! {

/// The dimension along which tensors are put together.
#[derive(Clone, Copy, Debug, Hash, PartialEq, Eq, Structural)]
pub enum ConcatenateAxis {
    Rows,
    Cols,
}

impl ConcatenateAxis {
    pub open spec fn shown(self) -> Seq<char> {
        match self {
            ConcatenateAxis::Rows => "Rows"@,
            ConcatenateAxis::Cols => "Cols"@,
        }
    }

    pub fn name(self) -> (r: &'static str)
        ensures
            r@ == self.shown(),
    {
        match self {
            ConcatenateAxis::Rows => "Rows",
            ConcatenateAxis::Cols => "Cols",
        }
    }
}

/// One tensor of a concatenation, and where it starts in the output.
#[derive(Clone, Debug, Hash, PartialEq, Eq)]
pub struct ConcatenateInputShape {
    pub rows: u32,
    pub cols: u32,
    pub tile_rows: u32,
    pub tiles_per_row: u32,
    pub concat_offset: u32,
}

impl ConcatenateInputShape {
    pub open spec fn words(&self) -> Seq<u32> {
        seq![self.rows, self.cols, self.tile_rows, self.tiles_per_row, self.concat_offset]
    }
}

/// What the kernel is built for.
#[derive(Clone, Debug, Hash, PartialEq, Eq)]
pub struct ConcatenateKernelShape {
    pub axis: ConcatenateAxis,
    pub output_rows: u32,
    pub output_cols: u32,
    pub output_tile_rows: u32,
    pub output_tiles_per_row: u32,
    pub tile_count: u32,
    pub inputs: Vec<ConcatenateInputShape>,
}

pub open spec fn shapes_view(s: Seq<Vec<usize>>) -> Seq<Seq<usize>> {
    s.map_values(|v: Vec<usize>| v@)
}

/// The axis of a dimension, where it is one of the last two.
pub open spec fn axis_of(rank: int, dimension: int) -> Option<ConcatenateAxis> {
    if dimension == rank - 1 {
        Some(ConcatenateAxis::Cols)
    } else if rank >= 2 && dimension == rank - 2 {
        Some(ConcatenateAxis::Rows)
    } else {
        None
    }
}

pub open spec fn axis_refusal(rank: int, dimension: int) -> Option<error::Refusal> {
    if axis_of(rank, dimension) is Some {
        None
    } else if rank == 1 {
        Some(
            error::invalid(
                "concatenate rank-1 tensors require dimension 0, got "@ + text::dec(dimension),
            ),
        )
    } else {
        Some(
            error::invalid(
                "concatenate currently supports dimensions "@ + text::dec(rank - 2) + " and "@
                    + text::dec(rank - 1) + " for rank-"@ + text::dec(rank) + " tensors, got "@
                    + text::dec(dimension),
            ),
        )
    }
}

fn find_axis(rank: usize, dimension: usize) -> (r: Result<ConcatenateAxis, Error>)
    requires
        rank >= 1,
    ensures
        match r {
            Ok(a) => axis_refusal(rank as int, dimension as int) is None && axis_of(
                rank as int,
                dimension as int,
            ) == Some(a),
            Err(e) => axis_refusal(rank as int, dimension as int) == Some(e@),
        },
{
    if dimension == rank - 1 {
        Ok(ConcatenateAxis::Cols)
    } else if rank >= 2 && dimension == rank - 2 {
        Ok(ConcatenateAxis::Rows)
    } else if rank == 1 {
        Err(
            error::invalid_input(
                text::cat2(
                    "concatenate rank-1 tensors require dimension 0, got ",
                    text::decimal_usize(dimension).as_str(),
                ),
            ),
        )
    } else {
        let front = text::cat4(
            "concatenate currently supports dimensions ",
            text::decimal_usize(rank - 2).as_str(),
            " and ",
            text::decimal_usize(rank - 1).as_str(),
        );
        Err(
            error::invalid_input(
                text::cat5(
                    front.as_str(),
                    " for rank-",
                    text::decimal_usize(rank).as_str(),
                    " tensors, got ",
                    text::decimal_usize(dimension).as_str(),
                ),
            ),
        )
    }
}

/// The sizes of the first `n` tensors along the dimension, added up: where tensor
/// `n` starts.
pub open spec fn start_of(shapes: Seq<Seq<usize>>, dimension: int, n: int) -> int
    decreases n,
{
    if n <= 0 {
        0
    } else {
        start_of(shapes, dimension, n - 1) + shapes[n - 1][dimension]
    }
}

/// Whether a tensor agrees with the output in all other dimensions.
pub open spec fn agrees(input: Seq<usize>, output: Seq<usize>, dimension: int) -> bool {
    forall|d: int| 0 <= d < output.len() && d != dimension ==> input[d] == #[trigger] output[d]
}

/// Why tensor `i` is refused.
pub open spec fn input_checks(shapes: Seq<Seq<usize>>, output: Seq<usize>, dimension: int) -> spec_fn(
    int,
) -> Option<error::Refusal> {
    |i: int|
        if shapes[i].len() != output.len() {
            Some(
                error::invalid(
                    "concatenate input "@ + text::dec(i) + " rank "@ + text::dec(
                        shapes[i].len() as int,
                    ) + " must match output rank "@ + text::dec(output.len() as int),
                ),
            )
        } else if !agrees(shapes[i], output, dimension) {
            Some(
                error::invalid(
                    "concatenate input "@ + text::dec(i) + " shape "@ + text::list_text(
                        arith::ints(shapes[i]),
                    ) + " does not match output shape "@ + text::list_text(arith::ints(output))
                        + " outside dimension "@ + text::dec(dimension),
                ),
            )
        } else if start_of(shapes, dimension, i + 1) > usize::MAX {
            Some(error::invalid("concatenate output dimension overflow"@))
        } else {
            None
        }
}

/// Why the form of a concatenation is refused.
pub open spec fn form_refusal(
    shapes: Seq<Seq<usize>>,
    output: Seq<usize>,
    dimension: int,
) -> Option<error::Refusal> {
    let n = shapes.len() as int;
    let each = error::first_refusal(0, n, input_checks(shapes, output, dimension));
    if n < 2 {
        Some(error::invalid("concatenate requires at least two input tensors"@))
    } else if axis_refusal(output.len() as int, dimension) is Some {
        axis_refusal(output.len() as int, dimension)
    } else if each is Some {
        each
    } else if start_of(shapes, dimension, n) != output[dimension] {
        Some(
            error::invalid(
                "concatenate output dimension "@ + text::dec(dimension)
                    + " mismatch: input dimensions sum to "@ + text::dec(
                    start_of(shapes, dimension, n),
                ) + ", output shape is "@ + text::list_text(arith::ints(output)),
            ),
        )
    } else {
        None
    }
}

fn check_agrees(input: &[usize], output: &[usize], dimension: usize) -> (r: bool)
    requires
        input@.len() == output@.len(),
    ensures
        r == agrees(input@, output@, dimension as int),
{
    for d in 0..output.len()
        invariant
            input@.len() == output@.len(),
            forall|e: int|
                0 <= e < d && e != dimension ==> input@[e] == #[trigger] output@[e],
    {
        if d != dimension && input[d] != output[d] {
            assert(input@[d as int] != output@[d as int]);
            return false;
        }
    }
    true
}

fn check_form(input_shapes: &[Vec<usize>], output_shape: &[usize], dimension: usize) -> (r: Result<
    ConcatenateAxis,
    Error,
>)
    requires
        output_shape@.len() >= 1 || input_shapes@.len() < 2,
    ensures
        match r {
            Ok(a) => form_refusal(
                shapes_view(input_shapes@),
                output_shape@,
                dimension as int,
            ) is None && axis_of(output_shape@.len() as int, dimension as int) == Some(a),
            Err(e) => form_refusal(
                shapes_view(input_shapes@),
                output_shape@,
                dimension as int,
            ) == Some(e@),
        },
{
    let ghost shapes = shapes_view(input_shapes@);
    let n: usize = input_shapes.len();
    if n < 2 {
        return Err(error::invalid_text("concatenate requires at least two input tensors"));
    }
    let rank: usize = output_shape.len();
    let axis = find_axis(rank, dimension)?;
    let ghost checks = input_checks(shapes, output_shape@, dimension as int);
    let mut total: usize = 0;
    for i in 0..n
        invariant
            shapes == shapes_view(input_shapes@),
            n == input_shapes@.len(),
            n >= 2,
            rank == output_shape@.len(),
            axis_refusal(rank as int, dimension as int) is None,
            axis_of(rank as int, dimension as int) is Some,
            checks == input_checks(shapes, output_shape@, dimension as int),
            total == start_of(shapes, dimension as int, i as int),
            forall|j: int| 0 <= j < i ==> #[trigger] checks(j) is None,
    {
        proof {
            error::lemma_first_refusal_skip(0, i as int, n as int, checks);
            assert(shapes[i as int] == input_shapes@[i as int]@);
            assert(checks(i as int) is Some || checks(i as int) is None);
        }
        let input = &input_shapes[i];
        if input.len() != rank {
            return Err(
                error::invalid_input(
                    text::cat6(
                        "concatenate input ",
                        text::decimal_usize(i).as_str(),
                        " rank ",
                        text::decimal_usize(input.len()).as_str(),
                        " must match output rank ",
                        text::decimal_usize(rank).as_str(),
                    ),
                ),
            );
        }
        if !check_agrees(input.as_slice(), output_shape, dimension) {
            let front = text::cat4(
                "concatenate input ",
                text::decimal_usize(i).as_str(),
                " shape ",
                text::shape_text(input.as_slice()).as_str(),
            );
            return Err(
                error::invalid_input(
                    text::cat5(
                        front.as_str(),
                        " does not match output shape ",
                        text::shape_text(output_shape).as_str(),
                        " outside dimension ",
                        text::decimal_usize(dimension).as_str(),
                    ),
                ),
            );
        }
        match total.checked_add(input[dimension]) {
            Some(t) => {
                total = t;
            },
            None => {
                return Err(error::invalid_text("concatenate output dimension overflow"));
            },
        }
    }
    proof {
        error::lemma_first_refusal_none(0, n as int, checks);
    }
    if total != output_shape[dimension] {
        return Err(
            error::invalid_input(
                text::cat6(
                    "concatenate output dimension ",
                    text::decimal_usize(dimension).as_str(),
                    " mismatch: input dimensions sum to ",
                    text::decimal_usize(total).as_str(),
                    ", output shape is ",
                    text::shape_text(output_shape).as_str(),
                ),
            ),
        );
    }
    Ok(axis)
}

/// The rows and columns of each matrix of a tensor.
pub open spec fn matrix(shape: Seq<usize>) -> (int, int) {
    let n = shape.len() as int;
    if n == 1 {
        (1, shape[0] as int)
    } else {
        (shape[n - 2] as int, shape[n - 1] as int)
    }
}

fn find_matrix(shape: &[usize]) -> (r: (usize, usize))
    requires
        shape@.len() >= 1,
    ensures
        (r.0 as int, r.1 as int) == matrix(shape@),
{
    let n: usize = shape.len();
    if n == 1 {
        (1, shape[0])
    } else {
        (shape[n - 2], shape[n - 1])
    }
}

pub open spec fn input_values(shapes: Seq<Seq<usize>>, dimension: int, i: int) -> Seq<usize> {
    seq![
        matrix(shapes[i]).0 as usize,
        matrix(shapes[i]).1 as usize,
        common::tile_grid(shapes[i]).0 as usize,
        common::tile_grid(shapes[i]).1 as usize,
        start_of(shapes, dimension, i) as usize,
    ]
}

pub open spec fn input_names() -> Seq<&'static str> {
    seq!["input rows", "input cols", "input tile rows", "input tiles per row", "concat offset"]
}

/// Why the numbers of tensor `i` are refused.
pub open spec fn words_checks(shapes: Seq<Seq<usize>>, dimension: int) -> spec_fn(int) -> Option<
    error::Refusal,
> {
    |i: int|
        if dram::tiled_shape_refusal(shapes[i]) is Some {
            dram::tiled_shape_refusal(shapes[i])
        } else {
            common::hex_fields_refusal(input_values(shapes, dimension, i), input_names())
        }
}

pub open spec fn output_values(output: Seq<usize>) -> Seq<usize> {
    seq![
        matrix(output).0 as usize,
        matrix(output).1 as usize,
        common::tile_grid(output).0 as usize,
        common::tile_grid(output).1 as usize,
        dram::tile_count(output)->0 as usize,
    ]
}

pub open spec fn output_names() -> Seq<&'static str> {
    seq!["output rows", "output cols", "output tile rows", "output tiles per row", "tile count"]
}

/// Why there is no kernel for a concatenation.
pub open spec fn shape_refusal(
    shapes: Seq<Seq<usize>>,
    output: Seq<usize>,
    dimension: int,
) -> Option<error::Refusal> {
    let each = error::first_refusal(0, shapes.len() as int, words_checks(shapes, dimension));
    if form_refusal(shapes, output, dimension) is Some {
        form_refusal(shapes, output, dimension)
    } else if dram::tile_count_refusal(output) is Some {
        dram::tile_count_refusal(output)
    } else if each is Some {
        each
    } else {
        common::hex_fields_refusal(output_values(output), output_names())
    }
}

impl ConcatenateKernelShape {
    /// Whether this is the kernel of a concatenation.
    pub open spec fn of(
        &self,
        shapes: Seq<Seq<usize>>,
        output: Seq<usize>,
        dimension: int,
    ) -> bool {
        &&& axis_of(output.len() as int, dimension) == Some(self.axis)
        &&& (self.output_rows as int, self.output_cols as int) == matrix(output)
        &&& (self.output_tile_rows as int, self.output_tiles_per_row as int)
            == common::tile_grid(output)
        &&& dram::tile_count(output) == Some(self.tile_count as int)
        &&& self.inputs@.len() == shapes.len()
        &&& forall|i: int|
            0 <= i < shapes.len() ==> (#[trigger] self.inputs@[i]).words()
                == convert::field_words(input_values(shapes, dimension, i))
    }
}

/// Each tensor starts where the one before it ends, and the last one ends where the
/// output ends.
pub proof fn lemma_inputs_follow(
    shapes: Seq<Seq<usize>>,
    output: Seq<usize>,
    dimension: int,
    s: ConcatenateKernelShape,
    i: int,
)
    requires
        shape_refusal(shapes, output, dimension) is None,
        s.of(shapes, output, dimension),
        0 <= i < shapes.len(),
    ensures
        s.inputs@[0].concat_offset == 0,
        i + 1 < shapes.len() ==> s.inputs@[i + 1].concat_offset == s.inputs@[i].concat_offset
            + shapes[i][dimension],
        i + 1 == shapes.len() ==> output[dimension] == s.inputs@[i].concat_offset
            + shapes[i][dimension],
{
    let n = shapes.len() as int;
    let checks = input_checks(shapes, output, dimension);
    error::lemma_first_refusal_none(0, n, checks);
    lemma_offset(shapes, dimension, s, 0);
    if i > 0 {
        assert(checks(i - 1) is None);
    }
    assert(checks(i) is None);
    lemma_offset(shapes, dimension, s, i);
    if i + 1 < n {
        lemma_offset(shapes, dimension, s, i + 1);
    }
}

proof fn lemma_starts(shapes: Seq<Seq<usize>>, dimension: int, n: int)
    ensures
        start_of(shapes, dimension, n) >= 0,
    decreases n,
{
    if n > 0 {
        lemma_starts(shapes, dimension, n - 1);
    }
}

proof fn lemma_offset(
    shapes: Seq<Seq<usize>>,
    dimension: int,
    s: ConcatenateKernelShape,
    i: int,
)
    requires
        0 <= i < shapes.len(),
        error::first_refusal(0, shapes.len() as int, words_checks(shapes, dimension)) is None,
        start_of(shapes, dimension, i) <= usize::MAX,
        s.inputs@[i].words() == convert::field_words(input_values(shapes, dimension, i)),
    ensures
        s.inputs@[i].concat_offset == start_of(shapes, dimension, i),
{
    let checks = words_checks(shapes, dimension);
    error::lemma_first_refusal_none(0, shapes.len() as int, checks);
    assert(checks(i) is None);
    common::lemma_narrowed(input_values(shapes, dimension, i), input_names());
    let v = input_values(shapes, dimension, i);
    assert(convert::field_words(v)[4] == v[4]);
    assert(s.inputs@[i].words()[4] == s.inputs@[i].concat_offset);
    lemma_starts(shapes, dimension, i);
}

fn input_words(
    input_shapes: &[Vec<usize>],
    output_shape: &[usize],
    dimension: usize,
) -> (r: Result<Vec<ConcatenateInputShape>, Error>)
    requires
        output_shape@.len() >= 1,
        form_refusal(shapes_view(input_shapes@), output_shape@, dimension as int) is None,
    ensures
        ({
            let shapes = shapes_view(input_shapes@);
            let refusal = error::first_refusal(
                0,
                shapes.len() as int,
                words_checks(shapes, dimension as int),
            );
            match r {
                Ok(v) => refusal is None && v@.len() == shapes.len() && forall|i: int|
                    0 <= i < shapes.len() ==> (#[trigger] v@[i]).words() == convert::field_words(
                        input_values(shapes, dimension as int, i),
                    ),
                Err(e) => refusal == Some(e@),
            }
        }),
{
    let ghost shapes = shapes_view(input_shapes@);
    let n: usize = input_shapes.len();
    let ghost checks = words_checks(shapes, dimension as int);
    let ghost formed = input_checks(shapes, output_shape@, dimension as int);
    proof {
        error::lemma_first_refusal_none(0, n as int, formed);
    }
    let mut start: usize = 0;
    let mut out: Vec<ConcatenateInputShape> = Vec::new();
    for i in 0..n
        invariant
            shapes == shapes_view(input_shapes@),
            n == input_shapes@.len(),
            output_shape@.len() >= 1,
            dimension < output_shape@.len(),
            checks == words_checks(shapes, dimension as int),
            formed == input_checks(shapes, output_shape@, dimension as int),
            forall|j: int| 0 <= j < n ==> #[trigger] formed(j) is None,
            start == start_of(shapes, dimension as int, i as int),
            out@.len() == i,
            forall|j: int|
                0 <= j < i ==> (#[trigger] out@[j]).words() == convert::field_words(
                    input_values(shapes, dimension as int, j),
                ),
            forall|j: int| 0 <= j < i ==> #[trigger] checks(j) is None,
    {
        proof {
            error::lemma_first_refusal_skip(0, i as int, n as int, checks);
            assert(shapes[i as int] == input_shapes@[i as int]@);
            assert(formed(i as int) is None);
            assert(checks(i as int) is Some || checks(i as int) is None);
        }
        let input = &input_shapes[i];
        let (tile_rows, tiles_per_row) = common::find_tile_grid(input.as_slice())?;
        let (rows, cols) = find_matrix(input.as_slice());
        let values: Vec<usize> = vec![rows, cols, tile_rows, tiles_per_row, start];
        let names: Vec<&'static str> = vec![
            "input rows",
            "input cols",
            "input tile rows",
            "input tiles per row",
            "concat offset",
        ];
        assert(values@ =~= input_values(shapes, dimension as int, i as int));
        assert(names@ =~= input_names());
        let w = common::narrow_hex_fields(&values, &names)?;
        let shape = ConcatenateInputShape {
            rows: w[0],
            cols: w[1],
            tile_rows: w[2],
            tiles_per_row: w[3],
            concat_offset: w[4],
        };
        assert(shape.words() =~= convert::field_words(values@));
        out.push(shape);
        start = start + input[dimension];
    }
    proof {
        error::lemma_first_refusal_none(0, n as int, checks);
    }
    Ok(out)
}

/// Checks a concatenation and plans its kernel.
pub fn concatenate_shape(
    input_shapes: &[Vec<usize>],
    output_shape: &[usize],
    dimension: usize,
) -> (r: Result<ConcatenateKernelShape, Error>)
    requires
        output_shape@.len() >= 1 || input_shapes@.len() < 2,
    ensures
        ({
            let shapes = shapes_view(input_shapes@);
            match r {
                Ok(s) => shape_refusal(shapes, output_shape@, dimension as int) is None && s.of(
                    shapes,
                    output_shape@,
                    dimension as int,
                ),
                Err(e) => shape_refusal(shapes, output_shape@, dimension as int) == Some(e@),
            }
        }),
{
    let axis = check_form(input_shapes, output_shape, dimension)?;
    let (tile_rows, tiles_per_row) = common::find_tile_grid(output_shape)?;
    let tiles: usize = dram::tiled_shape_tile_count(output_shape)?;
    let inputs = input_words(input_shapes, output_shape, dimension)?;
    let (rows, cols) = find_matrix(output_shape);
    let values: Vec<usize> = vec![rows, cols, tile_rows, tiles_per_row, tiles];
    let names: Vec<&'static str> = vec![
        "output rows",
        "output cols",
        "output tile rows",
        "output tiles per row",
        "tile count",
    ];
    assert(values@ =~= output_values(output_shape@));
    assert(names@ =~= output_names());
    let w = common::narrow_hex_fields(&values, &names)?;
    proof {
        common::lemma_narrowed(values@, names@);
    }
    Ok(
        ConcatenateKernelShape {
            axis,
            output_rows: w[0],
            output_cols: w[1],
            output_tile_rows: w[2],
            output_tiles_per_row: w[3],
            tile_count: w[4],
            inputs,
        },
    )
}

/// What the program of a concatenation depends on.
#[derive(Clone, Debug, Hash, PartialEq, Eq)]
pub struct ConcatenateProgramKey {
    pub cores: Vec<CoreCoord>,
    pub dtype: DType,
    pub shape: ConcatenateKernelShape,
}

/// The words of the first `n` tensors.
pub open spec fn all_words(inputs: Seq<ConcatenateInputShape>, n: int) -> Seq<u32>
    decreases n,
{
    if n <= 0 {
        Seq::empty()
    } else {
        all_words(inputs, n - 1) + inputs[n - 1].words()
    }
}

/// The arguments of the reader: the addresses, the tile range, the output, and the
/// tensors.
pub open spec fn reader_words(s: ConcatenateKernelShape) -> SectionWords {
    SectionWords {
        head: common::zero_words(s.inputs@.len() as int),
        range: RangeWords::OffsetAndCount,
        tail: seq![s.output_rows, s.output_cols, s.output_tile_rows, s.output_tiles_per_row]
            + all_words(s.inputs@, s.inputs@.len() as int),
    }
}

fn list_tail(s: &ConcatenateKernelShape) -> (r: Vec<u32>)
    ensures
        r@ == reader_words(*s).tail,
        r@.len() == 4 + 5 * s.inputs@.len(),
{
    let mut out: Vec<u32> = vec![
        s.output_rows,
        s.output_cols,
        s.output_tile_rows,
        s.output_tiles_per_row,
    ];
    let ghost start = seq![
        s.output_rows,
        s.output_cols,
        s.output_tile_rows,
        s.output_tiles_per_row,
    ];
    assert(out@ =~= start + all_words(s.inputs@, 0));
    for i in 0..s.inputs.len()
        invariant
            out@ == start + all_words(s.inputs@, i as int),
            out@.len() == 4 + 5 * i,
    {
        let x = &s.inputs[i];
        out.push(x.rows);
        out.push(x.cols);
        out.push(x.tile_rows);
        out.push(x.tiles_per_row);
        out.push(x.concat_offset);
        assert(out@ =~= start + all_words(s.inputs@, i + 1));
    }
    out
}

/// The source of the reader.
pub open spec fn reader_text(dtype: DType, axis: ConcatenateAxis, count: int, body: Seq<char>) -> Seq<
    char,
> {
    common::definition("CONCAT_INPUT_COUNT"@, text::dec(count)) + common::definition(
        "CONCAT_ELEMENT_TYPE"@,
        common::element_word(dtype),
    ) + common::definition(
        "CONCAT_AXIS_COLS"@,
        text::dec(common::flag(axis == ConcatenateAxis::Cols)),
    ) + body
}

/// Generates the source of the reader in front of its fixed part.
pub fn concatenate_reader_source(
    dtype: DType,
    axis: ConcatenateAxis,
    input_count: usize,
    body: &str,
) -> (r: String)
    ensures
        r@ == reader_text(dtype, axis, input_count as int, body@),
{
    let count = text::decimal_usize(input_count);
    let mut out = common::defined("CONCAT_INPUT_COUNT", count.as_str());
    common::define(&mut out, "CONCAT_ELEMENT_TYPE", common::element_type(dtype));
    common::define_word(
        &mut out,
        "CONCAT_AXIS_COLS",
        common::flag_word(axis == ConcatenateAxis::Cols),
    );
    out.append(body);
    out
}

/// Builds the program of a concatenation from the fixed parts of its kernels.
pub fn concatenate_program(key: &ConcatenateProgramKey, reader_body: &str, writer_source: &str) -> (r:
    Result<LoweredProgram, Error>)
    requires
        32 * key.shape.inputs@.len() + 256 <= usize::MAX,
    ensures
        match r {
            Ok(p) => {
                &&& lowering::listed_refusal(key.cores@) is None
                &&& p.reader_kernel@ == reader_text(
                    key.dtype,
                    key.shape.axis,
                    key.shape.inputs@.len() as int,
                    reader_body@,
                )
                &&& p.compute_kernel@ == ""@
                &&& p.writer_kernel@ == writer_source@
                &&& p.is_uniform()
                &&& p.name@ == "concatenate_"@ + key.dtype.shown() + "_"@ + key.shape.axis.shown()
                    + "_"@ + text::dec(key.shape.inputs@.len() as int)
                &&& p.compile@ == lowering::plain_config(broadcast::copy_cbs(key.dtype))
                &&& lowering::assigns(
                    p.runtime_args,
                    key.cores@,
                    common::dealt(
                        key.cores@,
                        key.shape.tile_count,
                        common::ranged(common::zero_words(1)),
                        reader_words(key.shape),
                        common::no_words(),
                    ),
                    0,
                    common::first_dynamic(1, key.shape.inputs@.len() as int),
                )
            },
            Err(e) => lowering::listed_refusal(key.cores@) == Some(e@),
        },
{
    let n: usize = key.shape.inputs.len();
    let writer = Section::ranged(common::zeros(1));
    let reader = Section {
        head: common::zeros(n),
        range: RangeWords::OffsetAndCount,
        tail: list_tail(&key.shape),
    };
    let compute = Section::empty();
    assert(writer@ == common::ranged(common::zero_words(1))) by {
        assert(writer@.tail =~= Seq::empty());
    }
    assert(compute@ == common::no_words()) by {
        assert(compute@.head =~= Seq::empty());
        assert(compute@.tail =~= Seq::empty());
    }
    let writer_dynamic = common::index_list(1);
    let reader_dynamic = common::index_list(n);
    let args = common::deal(
        key.cores.as_slice(),
        key.shape.tile_count,
        &writer,
        &reader,
        &compute,
        writer_dynamic,
        reader_dynamic,
    )?;
    Ok(
        LoweredProgram::uniform(
            concatenate_reader_source(key.dtype, key.shape.axis, n, reader_body),
            "".to_owned(),
            writer_source.to_owned(),
            text::cat6(
                "concatenate_",
                key.dtype.name(),
                "_",
                key.shape.axis.name(),
                "_",
                text::decimal_usize(n).as_str(),
            ),
            CompileConfig::plain(broadcast::list_copy_cbs(key.dtype)),
            args,
        ),
    )
}

/// A checked concatenation and the tensor that it writes.
#[derive(Clone, Debug)]
pub struct ConcatenateRequest {
    pub shape: ConcatenateKernelShape,
    pub output_tiles: usize,
    pub output_shape: Vec<usize>,
}

/// Why tensor `i` does not hold what it should.
pub open spec fn tensor_checks<'a>(
    inputs: Seq<&'a DramBuffer>,
    shapes: Seq<Seq<usize>>,
    dtype: DType,
) -> spec_fn(int) -> Option<error::Refusal> {
    |i: int|
        common::input_refusal(
            heads::input_label("concatenate"@, i),
            *inputs[i],
            dtype,
            shapes[i],
        )
}

/// Why tensors cannot be concatenated.
pub open spec fn request_refusal<'a>(
    inputs: Seq<&'a DramBuffer>,
    shapes: Seq<Seq<usize>>,
    output: Seq<usize>,
    dimension: int,
    dtype: DType,
) -> Option<error::Refusal> {
    if shape_refusal(shapes, output, dimension) is Some {
        shape_refusal(shapes, output, dimension)
    } else if inputs.len() != shapes.len() {
        Some(
            error::invalid(
                "concatenate input buffer count "@ + text::dec(inputs.len() as int)
                    + " does not match input shape count "@ + text::dec(shapes.len() as int),
            ),
        )
    } else {
        error::first_refusal(0, inputs.len() as int, tensor_checks(inputs, shapes, dtype))
    }
}

/// Checks a concatenation and its tensors.
pub fn concatenate<'a>(
    inputs: &[&'a DramBuffer],
    input_shapes: &[Vec<usize>],
    output_shape: &[usize],
    dimension: usize,
    dtype: DType,
) -> (r: Result<ConcatenateRequest, Error>)
    requires
        output_shape@.len() >= 1 || input_shapes@.len() < 2,
    ensures
        ({
            let shapes = shapes_view(input_shapes@);
            let refusal = request_refusal(
                inputs@,
                shapes,
                output_shape@,
                dimension as int,
                dtype,
            );
            match r {
                Ok(q) => {
                    &&& refusal is None
                    &&& q.shape.of(shapes, output_shape@, dimension as int)
                    &&& q.output_tiles == q.shape.tile_count
                    &&& q.output_shape@ == dram::tiled_shape(output_shape@)
                },
                Err(e) => refusal == Some(e@),
            }
        }),
{
    let ghost shapes = shapes_view(input_shapes@);
    let shape = concatenate_shape(input_shapes, output_shape, dimension)?;
    let n: usize = inputs.len();
    if n != input_shapes.len() {
        return Err(
            error::invalid_input(
                text::cat4(
                    "concatenate input buffer count ",
                    text::decimal_usize(n).as_str(),
                    " does not match input shape count ",
                    text::decimal_usize(input_shapes.len()).as_str(),
                ),
            ),
        );
    }
    let ghost checks = tensor_checks(inputs@, shapes, dtype);
    for i in 0..n
        invariant
            n == inputs@.len() == input_shapes@.len(),
            shapes == shapes_view(input_shapes@),
            checks == tensor_checks(inputs@, shapes, dtype),
            shape_refusal(shapes, output_shape@, dimension as int) is None,
            forall|j: int| 0 <= j < i ==> #[trigger] checks(j) is None,
    {
        proof {
            error::lemma_first_refusal_skip(0, i as int, n as int, checks);
            assert(shapes[i as int] == input_shapes@[i as int]@);
        }
        let label = text::cat3("concatenate", " input ", text::decimal_usize(i).as_str());
        common::check_input(label.as_str(), inputs[i], dtype, input_shapes[i].as_slice())?;
        assert(checks(i as int) is None);
    }
    proof {
        error::lemma_first_refusal_none(0, n as int, checks);
    }
    let output = dram::tiled_allocation_shape(output_shape)?;
    let output_tiles: usize = dram::tiled_shape_tile_count(output_shape)?;
    Ok(ConcatenateRequest { shape, output_tiles, output_shape: output })
}

/// Why the kernel of a concatenation is refused.
pub open spec fn kernel_refusal<'a>(
    available: Seq<CoreCoord>,
    inputs: Seq<&'a DramBuffer>,
    output_addr: u64,
) -> Option<error::Refusal> {
    if kernel::select_refusal(available) is Some {
        kernel::select_refusal(available)
    } else {
        common::inputs_refusal(inputs, output_addr)
    }
}

/// The kernel of a concatenation with its cores and the addresses of one run.
pub fn concatenate_kernel<'a>(
    available: &[CoreCoord],
    inputs: &[&'a DramBuffer],
    output_addr: u64,
    dtype: DType,
    request: ConcatenateRequest,
) -> (r: Result<DramKernel<ConcatenateProgramKey>, Error>)
    ensures
        match r {
            Ok(k) => {
                &&& kernel_refusal(available@, inputs@, output_addr) is None
                &&& k.reader_addrs@ == common::input_addrs(inputs@)
                &&& k.output_addr == output_addr
                &&& k.key.cores@ == kernel::chosen_cores(
                    available@,
                    request.output_tiles as int,
                )
                &&& k.key.dtype == dtype
                &&& k.key.shape == request.shape
            },
            Err(e) => kernel_refusal(available@, inputs@, output_addr) == Some(e@),
        },
{
    let cores = kernel::select_worker_cores(available, request.output_tiles)?;
    common::inputs_kernel(
        inputs,
        output_addr,
        ConcatenateProgramKey { cores, dtype, shape: request.shape },
    )
}

} // verus!
