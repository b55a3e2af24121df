//! What the generated sources of kernels tell them of their tensors.

use vstd::prelude::*;
use crate::arith;
use crate::dram;
use crate::dram::DType;
use crate::executable::{BitwiseBinaryKind, ReduceReducer};
use crate::kernels::bitwise;
use crate::kernels::bitwise_reduce;
use crate::kernels::bitwise_reduce::{BitwiseReduceOp, BitwiseReduceProgramKey};
use crate::kernels::broadcast;
use crate::kernels::broadcast::BroadcastKernelShape;
use crate::kernels::common;
use crate::kernels::concatenate;
use crate::kernels::concatenate::ConcatenateAxis;
use crate::kernels::dims;
use crate::kernels::dot_general;
use crate::kernels::dynamic_update_slice;
use crate::kernels::dynamic_update_slice::DynamicUpdateSliceShape;
use crate::kernels::fused::meaning;
use crate::kernels::gather;
use crate::kernels::gather::{GatherShape, ReshapeSourceView};
use crate::kernels::heads;
use crate::kernels::heads::{RepeatHeadsKernelShape, StackHeadsKernelShape};
use crate::kernels::pad;
use crate::kernels::pad::{PadKernelShape, Padding};
use crate::kernels::reduce;
use crate::kernels::reduce::program;
use crate::kernels::reduce::program::ReduceProgramKey;
use crate::numbers::{Arithmetic, NumberClass};
use crate::text;

verus! {

/// Whether a source says that a name stands for a value.
pub open spec fn defines(source: Seq<char>, name: Seq<char>, value: Seq<char>) -> bool {
    exists|before: Seq<char>, after: Seq<char>|
        #![trigger before + common::definition(name, value) + after]
        source == before + common::definition(name, value) + after
}

proof fn lemma_first(name: Seq<char>, value: Seq<char>)
    ensures
        defines(common::definition(name, value), name, value),
{
    let d = common::definition(name, value);
    let none = Seq::<char>::empty();
    assert(none + d + none =~= d);
}

/// What a source says it says with more behind it.
proof fn lemma_more(source: Seq<char>, more: Seq<char>)
    ensures
        forall|name: Seq<char>, value: Seq<char>|
            #![trigger defines(source, name, value)]
            defines(source, name, value) ==> defines(source + more, name, value),
{
    assert forall|name: Seq<char>, value: Seq<char>|
        #![trigger defines(source, name, value)]
        defines(source, name, value) implies defines(source + more, name, value) by {
        let d = common::definition(name, value);
        let (before, after) = choose|before: Seq<char>, after: Seq<char>|
            #![trigger before + common::definition(name, value) + after]
            source == before + common::definition(name, value) + after;
        assert(source + more =~= before + d + (after + more));
    }
}

/// A definition behind a source is said, and what the source said stays.
proof fn lemma_step(source: Seq<char>, name: Seq<char>, value: Seq<char>)
    ensures
        defines(source + common::definition(name, value), name, value),
        forall|n: Seq<char>, v: Seq<char>|
            #![trigger defines(source, n, v)]
            defines(source, n, v) ==> defines(source + common::definition(name, value), n, v),
{
    let d = common::definition(name, value);
    let none = Seq::<char>::empty();
    assert(source + d + none =~= source + d);
    lemma_more(source, d);
}

/// The tiles that a dimension takes: at least one, and as few as hold it.
pub open spec fn tiles_along(size: int) -> int {
    if size <= 1 {
        1
    } else {
        (size + 31) / 32
    }
}

/// The rows of tiles of a matrix of the tensor. A tensor of one dimension is a row.
pub open spec fn tile_rows(shape: Seq<usize>) -> int {
    if shape.len() < 2 {
        1
    } else {
        tiles_along(shape[shape.len() - 2] as int)
    }
}

/// The tiles of a row of a matrix of the tensor.
pub open spec fn tile_cols(shape: Seq<usize>) -> int {
    if shape.len() < 1 {
        1
    } else {
        tiles_along(shape[shape.len() - 1] as int)
    }
}

/// The grid of tiles of a matrix holds it, with no tile to spare, and the tiles of a tensor are
/// those of its matrices.
pub proof fn lemma_tile_grid(shape: Seq<usize>)
    requires
        dram::tiled_shape_refusal(shape) is None,
    ensures
        common::tile_grid(shape) == (tile_rows(shape), tile_cols(shape)),
        dram::tile_count_refusal(shape) is None && shape.len() >= 2 ==> dram::tile_count(shape)
            == Some(
            tile_rows(shape) * tile_cols(shape) * arith::product(
                arith::ints(shape.take(shape.len() - 2)),
            ),
        ),
{
    let n = shape.len() as int;
    if n >= 1 {
        arith::lemma_round_up(arith::max2(shape[n - 1] as int, 1), 32);
    }
    if n >= 2 {
        arith::lemma_round_up(arith::max2(shape[n - 2] as int, 1), 32);
    }
    let a = dram::tiled_shape(shape);
    assert(common::tile_grid(shape) == (tile_rows(shape), tile_cols(shape)));
    if dram::tile_count_refusal(shape) is None && n >= 2 {
        dram::lemma_tile_count_product(shape);
        assert(a.take(a.len() - 2) =~= shape.take(n - 2));
    }
}

/// Elements of the generated code are as wide as those of the buffer.
pub proof fn lemma_element_words(dtype: DType)
    ensures
        reduce::meaning::type_named(common::element_word(dtype), NumberClass::Unsigned, dtype.format().bits()),
{
}

/// Whether a signed type of the generated code has so many bits.
pub open spec fn signed_named(name: Seq<char>, bits: int) -> bool {
    ||| (name == "int32_t"@ && bits == 32)
    ||| (name == "int16_t"@ && bits == 16)
    ||| (name == "int8_t"@ && bits == 8)
}

/// The reader of an operation on bits is told of the number that stands for the operation, and
/// of types and a width that are those of the elements.
pub proof fn lemma_bitwise_source(
    kind: BitwiseBinaryKind,
    dtype: DType,
    body: Seq<char>,
    n: Arithmetic,
    a: int,
    b: int,
)
    requires
        reduce::holds_bits(dtype),
    ensures
        ({
            let s = bitwise::reader_text(kind, dtype, body);
            let code = bitwise::op_code(kind) as int;
            &&& defines(s, "BITWISE_OP"@, text::dec(code))
            &&& meaning::raw_call(code, n, a, b, kind.result(n, a, b))
            &&& defines(s, "BITWISE_ELEMENT_TYPE"@, bitwise::unsigned_word(dtype))
            &&& defines(s, "BITWISE_SIGNED_ELEMENT_TYPE"@, bitwise::signed_word(dtype))
            &&& defines(s, "BITWISE_UNSIGNED_ELEMENT_TYPE"@, bitwise::unsigned_word(dtype))
            &&& defines(s, "BITWISE_BIT_WIDTH"@, text::dec(dtype.format().bits()))
            &&& reduce::meaning::type_named(
                bitwise::unsigned_word(dtype),
                NumberClass::Unsigned,
                dtype.format().bits(),
            )
            &&& signed_named(bitwise::signed_word(dtype), dtype.format().bits())
        }),
{
    let (u, i) = (bitwise::unsigned_word(dtype), bitwise::signed_word(dtype));
    let code = text::dec(bitwise::op_code(kind) as int);
    let width = text::dec(bitwise::width_of(dtype) as int);
    let s0 = common::definition("BITWISE_OP"@, code);
    lemma_first("BITWISE_OP"@, code);
    let s1 = s0 + common::definition("BITWISE_ELEMENT_TYPE"@, u);
    lemma_step(s0, "BITWISE_ELEMENT_TYPE"@, u);
    let s2 = s1 + common::definition("BITWISE_SIGNED_ELEMENT_TYPE"@, i);
    lemma_step(s1, "BITWISE_SIGNED_ELEMENT_TYPE"@, i);
    let s3 = s2 + common::definition("BITWISE_UNSIGNED_ELEMENT_TYPE"@, u);
    lemma_step(s2, "BITWISE_UNSIGNED_ELEMENT_TYPE"@, u);
    let s4 = s3 + common::definition("BITWISE_BIT_WIDTH"@, width);
    lemma_step(s3, "BITWISE_BIT_WIDTH"@, width);
    lemma_more(s4, body);
}

/// The reader of a concatenation is told of the number of tensors, and whether they are joined
/// along the columns, which is the last dimension, or along the rows.
pub proof fn lemma_concatenate_source(
    dtype: DType,
    rank: int,
    dimension: int,
    axis: ConcatenateAxis,
    count: int,
    body: Seq<char>,
)
    requires
        concatenate::axis_of(rank, dimension) == Some(axis),
    ensures
        ({
            let s = concatenate::reader_text(dtype, axis, count, body);
            &&& defines(s, "CONCAT_INPUT_COUNT"@, text::dec(count))
            &&& defines(s, "CONCAT_ELEMENT_TYPE"@, common::element_word(dtype))
            &&& defines(
                s,
                "CONCAT_AXIS_COLS"@,
                text::dec(
                    if dimension == rank - 1 {
                        1int
                    } else {
                        0int
                    },
                ),
            )
            &&& dimension == rank - 1 || dimension == rank - 2
        }),
{
    let word = common::element_word(dtype);
    let cols = text::dec(common::flag(axis == ConcatenateAxis::Cols));
    let s0 = common::definition("CONCAT_INPUT_COUNT"@, text::dec(count));
    lemma_first("CONCAT_INPUT_COUNT"@, text::dec(count));
    let s1 = s0 + common::definition("CONCAT_ELEMENT_TYPE"@, word);
    lemma_step(s0, "CONCAT_ELEMENT_TYPE"@, word);
    let s2 = s1 + common::definition("CONCAT_AXIS_COLS"@, cols);
    lemma_step(s1, "CONCAT_AXIS_COLS"@, cols);
    lemma_more(s2, body);
}

/// The reader of a broadcast is told of its tensors: their dimensions, which dimension of the
/// output each dimension of the input is, and the tiles of a matrix of either.
pub proof fn lemma_broadcast_source(
    dtype: DType,
    s: BroadcastKernelShape,
    input: Seq<usize>,
    output: Seq<usize>,
    dimensions: Seq<i64>,
    body: Seq<char>,
)
    requires
        s.of(input, output, dimensions),
        dram::tiled_shape_refusal(input) is None,
        dram::tiled_shape_refusal(output) is None,
    ensures
        defines(broadcast::reader_text(dtype, s, body), "BROADCAST_INPUT_RANK"@, text::dec(input.len() as int)),
        defines(broadcast::reader_text(dtype, s, body), "BROADCAST_OUTPUT_RANK"@, text::dec(output.len() as int)),
        defines(broadcast::reader_text(dtype, s, body), "BROADCAST_INPUT_SHAPE"@, text::cpp_array(text::ints_u32(dims::narrowed(input)))),
        defines(broadcast::reader_text(dtype, s, body), "BROADCAST_OUTPUT_SHAPE"@, text::cpp_array(text::ints_u32(dims::narrowed(output)))),
        defines(broadcast::reader_text(dtype, s, body), "BROADCAST_DIMENSIONS"@, text::cpp_array(text::ints_u32(common::index_words(dimensions)))),
        defines(broadcast::reader_text(dtype, s, body), "BROADCAST_INPUT_TILE_ROWS"@, text::dec(tile_rows(input))),
        defines(broadcast::reader_text(dtype, s, body), "BROADCAST_INPUT_TILES_PER_ROW"@, text::dec(tile_cols(input))),
        defines(broadcast::reader_text(dtype, s, body), "BROADCAST_OUTPUT_TILE_ROWS"@, text::dec(tile_rows(output))),
        defines(broadcast::reader_text(dtype, s, body), "BROADCAST_OUTPUT_TILES_PER_ROW"@, text::dec(tile_cols(output))),
        defines(broadcast::reader_text(dtype, s, body), "BROADCAST_DIRECT_COPY"@, text::dec(common::flag(broadcast::is_copy(input, output, dimensions)))),
        defines(broadcast::reader_text(dtype, s, body), "BROADCAST_ELEMENT_TYPE"@, common::element_word(dtype)),
{
    lemma_tile_grid(input);
    lemma_tile_grid(output);
    let v0 = text::dec(input.len() as int);
    let s0 = common::definition("BROADCAST_INPUT_RANK"@, v0);
    lemma_first("BROADCAST_INPUT_RANK"@, v0);
    let v1 = text::dec(output.len() as int);
    let s1 = s0 + common::definition("BROADCAST_OUTPUT_RANK"@, v1);
    lemma_step(s0, "BROADCAST_OUTPUT_RANK"@, v1);
    let v2 = text::cpp_array(text::ints_u32(dims::narrowed(input)));
    let s2 = s1 + common::definition("BROADCAST_INPUT_SHAPE"@, v2);
    lemma_step(s1, "BROADCAST_INPUT_SHAPE"@, v2);
    let v3 = text::cpp_array(text::ints_u32(dims::narrowed(output)));
    let s3 = s2 + common::definition("BROADCAST_OUTPUT_SHAPE"@, v3);
    lemma_step(s2, "BROADCAST_OUTPUT_SHAPE"@, v3);
    let v4 = text::cpp_array(text::ints_u32(common::index_words(dimensions)));
    let s4 = s3 + common::definition("BROADCAST_DIMENSIONS"@, v4);
    lemma_step(s3, "BROADCAST_DIMENSIONS"@, v4);
    let v5 = text::dec(tile_rows(input));
    let s5 = s4 + common::definition("BROADCAST_INPUT_TILE_ROWS"@, v5);
    lemma_step(s4, "BROADCAST_INPUT_TILE_ROWS"@, v5);
    let v6 = text::dec(tile_cols(input));
    let s6 = s5 + common::definition("BROADCAST_INPUT_TILES_PER_ROW"@, v6);
    lemma_step(s5, "BROADCAST_INPUT_TILES_PER_ROW"@, v6);
    let v7 = text::dec(tile_rows(output));
    let s7 = s6 + common::definition("BROADCAST_OUTPUT_TILE_ROWS"@, v7);
    lemma_step(s6, "BROADCAST_OUTPUT_TILE_ROWS"@, v7);
    let v8 = text::dec(tile_cols(output));
    let s8 = s7 + common::definition("BROADCAST_OUTPUT_TILES_PER_ROW"@, v8);
    lemma_step(s7, "BROADCAST_OUTPUT_TILES_PER_ROW"@, v8);
    let v9 = text::dec(common::flag(broadcast::is_copy(input, output, dimensions)));
    let s9 = s8 + common::definition("BROADCAST_DIRECT_COPY"@, v9);
    lemma_step(s8, "BROADCAST_DIRECT_COPY"@, v9);
    let v10 = common::element_word(dtype);
    let s10 = s9 + common::definition("BROADCAST_ELEMENT_TYPE"@, v10);
    lemma_step(s9, "BROADCAST_ELEMENT_TYPE"@, v10);
    lemma_more(s10, body);
    assert(broadcast::reader_text(dtype, s, body) == s10 + body);
}

/// The reader that repeats heads is told of its tensors and how often each head stands in the
/// output.
pub proof fn lemma_repeat_source(
    dtype: DType,
    s: RepeatHeadsKernelShape,
    input: Seq<usize>,
    output: Seq<usize>,
    body: Seq<char>,
)
    requires
        s.of(input, output),
        dram::tiled_shape_refusal(input) is None,
        dram::tiled_shape_refusal(output) is None,
    ensures
        defines(heads::repeat_text(dtype, s, body), "REPEAT_INPUT_SHAPE"@, text::cpp_array(text::ints_u32(dims::narrowed(input)))),
        defines(heads::repeat_text(dtype, s, body), "REPEAT_OUTPUT_SHAPE"@, text::cpp_array(text::ints_u32(dims::narrowed(output)))),
        defines(heads::repeat_text(dtype, s, body), "REPEAT_INPUT_TILE_ROWS"@, text::dec(tile_rows(input))),
        defines(heads::repeat_text(dtype, s, body), "REPEAT_INPUT_TILES_PER_ROW"@, text::dec(tile_cols(input))),
        defines(heads::repeat_text(dtype, s, body), "REPEAT_OUTPUT_TILE_ROWS"@, text::dec(tile_rows(output))),
        defines(heads::repeat_text(dtype, s, body), "REPEAT_OUTPUT_TILES_PER_ROW"@, text::dec(tile_cols(output))),
        defines(heads::repeat_text(dtype, s, body), "REPEAT_FACTOR"@, text::dec((output[1] / input[1]) as int)),
        defines(heads::repeat_text(dtype, s, body), "REPEAT_ELEMENT_TYPE"@, common::element_word(dtype)),
{
    lemma_tile_grid(input);
    lemma_tile_grid(output);
    let v0 = text::cpp_array(text::ints_u32(dims::narrowed(input)));
    let s0 = common::definition("REPEAT_INPUT_SHAPE"@, v0);
    lemma_first("REPEAT_INPUT_SHAPE"@, v0);
    let v1 = text::cpp_array(text::ints_u32(dims::narrowed(output)));
    let s1 = s0 + common::definition("REPEAT_OUTPUT_SHAPE"@, v1);
    lemma_step(s0, "REPEAT_OUTPUT_SHAPE"@, v1);
    let v2 = text::dec(tile_rows(input));
    let s2 = s1 + common::definition("REPEAT_INPUT_TILE_ROWS"@, v2);
    lemma_step(s1, "REPEAT_INPUT_TILE_ROWS"@, v2);
    let v3 = text::dec(tile_cols(input));
    let s3 = s2 + common::definition("REPEAT_INPUT_TILES_PER_ROW"@, v3);
    lemma_step(s2, "REPEAT_INPUT_TILES_PER_ROW"@, v3);
    let v4 = text::dec(tile_rows(output));
    let s4 = s3 + common::definition("REPEAT_OUTPUT_TILE_ROWS"@, v4);
    lemma_step(s3, "REPEAT_OUTPUT_TILE_ROWS"@, v4);
    let v5 = text::dec(tile_cols(output));
    let s5 = s4 + common::definition("REPEAT_OUTPUT_TILES_PER_ROW"@, v5);
    lemma_step(s4, "REPEAT_OUTPUT_TILES_PER_ROW"@, v5);
    let v6 = text::dec((output[1] / input[1]) as int);
    let s6 = s5 + common::definition("REPEAT_FACTOR"@, v6);
    lemma_step(s5, "REPEAT_FACTOR"@, v6);
    let v7 = common::element_word(dtype);
    let s7 = s6 + common::definition("REPEAT_ELEMENT_TYPE"@, v7);
    lemma_step(s6, "REPEAT_ELEMENT_TYPE"@, v7);
    lemma_more(s7, body);
    assert(heads::repeat_text(dtype, s, body) == s7 + body);
}

/// The reader that stacks heads is told of its tensors, of the number of heads, and whether they
/// stand side by side.
pub proof fn lemma_stack_source(
    dtype: DType,
    s: StackHeadsKernelShape,
    input: Seq<usize>,
    output: Seq<usize>,
    count: int,
    flatten: bool,
    body: Seq<char>,
)
    requires
        s.of(input, output, count, flatten),
        dram::tiled_shape_refusal(input) is None,
        dram::tiled_shape_refusal(output) is None,
    ensures
        defines(heads::stack_text(dtype, s, body), "STACK_INPUT_SHAPE"@, text::cpp_array(text::ints_u32(dims::narrowed(input)))),
        defines(heads::stack_text(dtype, s, body), "STACK_OUTPUT_SHAPE"@, text::cpp_array(text::ints_u32(dims::narrowed(output)))),
        defines(heads::stack_text(dtype, s, body), "STACK_INPUT_TILE_ROWS"@, text::dec(tile_rows(input))),
        defines(heads::stack_text(dtype, s, body), "STACK_INPUT_TILES_PER_ROW"@, text::dec(tile_cols(input))),
        defines(heads::stack_text(dtype, s, body), "STACK_OUTPUT_TILE_ROWS"@, text::dec(tile_rows(output))),
        defines(heads::stack_text(dtype, s, body), "STACK_OUTPUT_TILES_PER_ROW"@, text::dec(tile_cols(output))),
        defines(heads::stack_text(dtype, s, body), "STACK_HEAD_COUNT"@, text::dec(count)),
        defines(heads::stack_text(dtype, s, body), "STACK_FLATTEN"@, text::dec(common::flag(flatten))),
        defines(heads::stack_text(dtype, s, body), "STACK_ELEMENT_TYPE"@, common::element_word(dtype)),
{
    lemma_tile_grid(input);
    lemma_tile_grid(output);
    let v0 = text::cpp_array(text::ints_u32(dims::narrowed(input)));
    let s0 = common::definition("STACK_INPUT_SHAPE"@, v0);
    lemma_first("STACK_INPUT_SHAPE"@, v0);
    let v1 = text::cpp_array(text::ints_u32(dims::narrowed(output)));
    let s1 = s0 + common::definition("STACK_OUTPUT_SHAPE"@, v1);
    lemma_step(s0, "STACK_OUTPUT_SHAPE"@, v1);
    let v2 = text::dec(tile_rows(input));
    let s2 = s1 + common::definition("STACK_INPUT_TILE_ROWS"@, v2);
    lemma_step(s1, "STACK_INPUT_TILE_ROWS"@, v2);
    let v3 = text::dec(tile_cols(input));
    let s3 = s2 + common::definition("STACK_INPUT_TILES_PER_ROW"@, v3);
    lemma_step(s2, "STACK_INPUT_TILES_PER_ROW"@, v3);
    let v4 = text::dec(tile_rows(output));
    let s4 = s3 + common::definition("STACK_OUTPUT_TILE_ROWS"@, v4);
    lemma_step(s3, "STACK_OUTPUT_TILE_ROWS"@, v4);
    let v5 = text::dec(tile_cols(output));
    let s5 = s4 + common::definition("STACK_OUTPUT_TILES_PER_ROW"@, v5);
    lemma_step(s4, "STACK_OUTPUT_TILES_PER_ROW"@, v5);
    let v6 = text::dec(count);
    let s6 = s5 + common::definition("STACK_HEAD_COUNT"@, v6);
    lemma_step(s5, "STACK_HEAD_COUNT"@, v6);
    let v7 = text::dec(common::flag(flatten));
    let s7 = s6 + common::definition("STACK_FLATTEN"@, v7);
    lemma_step(s6, "STACK_FLATTEN"@, v7);
    let v8 = common::element_word(dtype);
    let s8 = s7 + common::definition("STACK_ELEMENT_TYPE"@, v8);
    lemma_step(s7, "STACK_ELEMENT_TYPE"@, v8);
    lemma_more(s8, body);
    assert(heads::stack_text(dtype, s, body) == s8 + body);
}

/// The reader of a padding is told of its tensors, of the padding in front and of the padding
/// between elements.
pub proof fn lemma_pad_source(
    dtype: DType,
    s: PadKernelShape,
    p: Padding,
    body: Seq<char>,
)
    requires
        s.of(p),
        dram::tiled_shape_refusal(p.input) is None,
        dram::tiled_shape_refusal(p.output) is None,
    ensures
        defines(pad::reader_text(dtype, s, body), "PAD_RANK"@, text::dec(p.input.len() as int)),
        defines(pad::reader_text(dtype, s, body), "PAD_INPUT_SHAPE"@, text::cpp_array(text::ints_u32(dims::narrowed(p.input)))),
        defines(pad::reader_text(dtype, s, body), "PAD_OUTPUT_SHAPE"@, text::cpp_array(text::ints_u32(dims::narrowed(p.output)))),
        defines(pad::reader_text(dtype, s, body), "PAD_EDGE_PADDING_LOW"@, text::cpp_array(text::ints_u32(common::index_words(p.low)))),
        defines(pad::reader_text(dtype, s, body), "PAD_INTERIOR_PADDING"@, text::cpp_array(text::ints_u32(common::index_words(p.interior)))),
        defines(pad::reader_text(dtype, s, body), "PAD_INPUT_TILE_ROWS"@, text::dec(tile_rows(p.input))),
        defines(pad::reader_text(dtype, s, body), "PAD_INPUT_TILES_PER_ROW"@, text::dec(tile_cols(p.input))),
        defines(pad::reader_text(dtype, s, body), "PAD_OUTPUT_TILE_ROWS"@, text::dec(tile_rows(p.output))),
        defines(pad::reader_text(dtype, s, body), "PAD_OUTPUT_TILES_PER_ROW"@, text::dec(tile_cols(p.output))),
        defines(pad::reader_text(dtype, s, body), "PAD_DIRECT_COPY"@, text::dec(common::flag(p.is_copy()))),
        defines(pad::reader_text(dtype, s, body), "PAD_ELEMENT_TYPE"@, common::element_word(dtype)),
{
    lemma_tile_grid(p.input);
    lemma_tile_grid(p.output);
    let v0 = text::dec(p.input.len() as int);
    let s0 = common::definition("PAD_RANK"@, v0);
    lemma_first("PAD_RANK"@, v0);
    let v1 = text::cpp_array(text::ints_u32(dims::narrowed(p.input)));
    let s1 = s0 + common::definition("PAD_INPUT_SHAPE"@, v1);
    lemma_step(s0, "PAD_INPUT_SHAPE"@, v1);
    let v2 = text::cpp_array(text::ints_u32(dims::narrowed(p.output)));
    let s2 = s1 + common::definition("PAD_OUTPUT_SHAPE"@, v2);
    lemma_step(s1, "PAD_OUTPUT_SHAPE"@, v2);
    let v3 = text::cpp_array(text::ints_u32(common::index_words(p.low)));
    let s3 = s2 + common::definition("PAD_EDGE_PADDING_LOW"@, v3);
    lemma_step(s2, "PAD_EDGE_PADDING_LOW"@, v3);
    let v4 = text::cpp_array(text::ints_u32(common::index_words(p.interior)));
    let s4 = s3 + common::definition("PAD_INTERIOR_PADDING"@, v4);
    lemma_step(s3, "PAD_INTERIOR_PADDING"@, v4);
    let v5 = text::dec(tile_rows(p.input));
    let s5 = s4 + common::definition("PAD_INPUT_TILE_ROWS"@, v5);
    lemma_step(s4, "PAD_INPUT_TILE_ROWS"@, v5);
    let v6 = text::dec(tile_cols(p.input));
    let s6 = s5 + common::definition("PAD_INPUT_TILES_PER_ROW"@, v6);
    lemma_step(s5, "PAD_INPUT_TILES_PER_ROW"@, v6);
    let v7 = text::dec(tile_rows(p.output));
    let s7 = s6 + common::definition("PAD_OUTPUT_TILE_ROWS"@, v7);
    lemma_step(s6, "PAD_OUTPUT_TILE_ROWS"@, v7);
    let v8 = text::dec(tile_cols(p.output));
    let s8 = s7 + common::definition("PAD_OUTPUT_TILES_PER_ROW"@, v8);
    lemma_step(s7, "PAD_OUTPUT_TILES_PER_ROW"@, v8);
    let v9 = text::dec(common::flag(p.is_copy()));
    let s9 = s8 + common::definition("PAD_DIRECT_COPY"@, v9);
    lemma_step(s8, "PAD_DIRECT_COPY"@, v9);
    let v10 = common::element_word(dtype);
    let s10 = s9 + common::definition("PAD_ELEMENT_TYPE"@, v10);
    lemma_step(s9, "PAD_ELEMENT_TYPE"@, v10);
    lemma_more(s10, body);
    assert(pad::reader_text(dtype, s, body) == s10 + body);
}

/// The reader of an update is told of the operand and of the part that is written over it.
pub proof fn lemma_update_source(
    dtype: DType,
    s: DynamicUpdateSliceShape,
    operand: Seq<usize>,
    update: Seq<usize>,
    body: Seq<char>,
)
    requires
        s.of(operand, update),
        dram::tiled_shape_refusal(operand) is None,
        dram::tiled_shape_refusal(update) is None,
    ensures
        defines(dynamic_update_slice::reader_text(dtype, s, body), "DUS_RANK"@, text::dec(operand.len() as int)),
        defines(dynamic_update_slice::reader_text(dtype, s, body), "DUS_OPERAND_SHAPE"@, text::cpp_array(text::ints_u32(dims::narrowed(operand)))),
        defines(dynamic_update_slice::reader_text(dtype, s, body), "DUS_UPDATE_SHAPE"@, text::cpp_array(text::ints_u32(dims::narrowed(update)))),
        defines(dynamic_update_slice::reader_text(dtype, s, body), "DUS_OPERAND_TILE_ROWS"@, text::dec(tile_rows(operand))),
        defines(dynamic_update_slice::reader_text(dtype, s, body), "DUS_OPERAND_TILES_PER_ROW"@, text::dec(tile_cols(operand))),
        defines(dynamic_update_slice::reader_text(dtype, s, body), "DUS_UPDATE_TILE_ROWS"@, text::dec(tile_rows(update))),
        defines(dynamic_update_slice::reader_text(dtype, s, body), "DUS_UPDATE_TILES_PER_ROW"@, text::dec(tile_cols(update))),
        defines(dynamic_update_slice::reader_text(dtype, s, body), "DUS_ELEMENT_TYPE"@, common::element_word(dtype)),
{
    lemma_tile_grid(operand);
    lemma_tile_grid(update);
    let v0 = text::dec(operand.len() as int);
    let s0 = common::definition("DUS_RANK"@, v0);
    lemma_first("DUS_RANK"@, v0);
    let v1 = text::cpp_array(text::ints_u32(dims::narrowed(operand)));
    let s1 = s0 + common::definition("DUS_OPERAND_SHAPE"@, v1);
    lemma_step(s0, "DUS_OPERAND_SHAPE"@, v1);
    let v2 = text::cpp_array(text::ints_u32(dims::narrowed(update)));
    let s2 = s1 + common::definition("DUS_UPDATE_SHAPE"@, v2);
    lemma_step(s1, "DUS_UPDATE_SHAPE"@, v2);
    let v3 = text::dec(tile_rows(operand));
    let s3 = s2 + common::definition("DUS_OPERAND_TILE_ROWS"@, v3);
    lemma_step(s2, "DUS_OPERAND_TILE_ROWS"@, v3);
    let v4 = text::dec(tile_cols(operand));
    let s4 = s3 + common::definition("DUS_OPERAND_TILES_PER_ROW"@, v4);
    lemma_step(s3, "DUS_OPERAND_TILES_PER_ROW"@, v4);
    let v5 = text::dec(tile_rows(update));
    let s5 = s4 + common::definition("DUS_UPDATE_TILE_ROWS"@, v5);
    lemma_step(s4, "DUS_UPDATE_TILE_ROWS"@, v5);
    let v6 = text::dec(tile_cols(update));
    let s6 = s5 + common::definition("DUS_UPDATE_TILES_PER_ROW"@, v6);
    lemma_step(s5, "DUS_UPDATE_TILES_PER_ROW"@, v6);
    let v7 = common::element_word(dtype);
    let s7 = s6 + common::definition("DUS_ELEMENT_TYPE"@, v7);
    lemma_step(s6, "DUS_ELEMENT_TYPE"@, v7);
    lemma_more(s7, body);
    assert(dynamic_update_slice::reader_text(dtype, s, body) == s7 + body);
}

/// The reader of a product is told which of its tensors hold short floating point numbers.
pub proof fn lemma_dot_source(
    lhs: DType,
    rhs: DType,
    output: DType,
    body: Seq<char>,
)
    ensures
        defines(dot_general::reader_text(lhs, rhs, output, body), "DOT_GENERAL_MAX_RANK"@, text::dec(8)),
        defines(dot_general::reader_text(lhs, rhs, output, body), "DOT_GENERAL_LHS_BF16"@, text::dec(common::flag(lhs == DType::Float16B))),
        defines(dot_general::reader_text(lhs, rhs, output, body), "DOT_GENERAL_RHS_BF16"@, text::dec(common::flag(rhs == DType::Float16B))),
        defines(dot_general::reader_text(lhs, rhs, output, body), "DOT_GENERAL_OUTPUT_BF16"@, text::dec(common::flag(output == DType::Float16B))),
{
    let v0 = text::dec(8);
    let s0 = common::definition("DOT_GENERAL_MAX_RANK"@, v0);
    lemma_first("DOT_GENERAL_MAX_RANK"@, v0);
    let v1 = text::dec(common::flag(lhs == DType::Float16B));
    let s1 = s0 + common::definition("DOT_GENERAL_LHS_BF16"@, v1);
    lemma_step(s0, "DOT_GENERAL_LHS_BF16"@, v1);
    let v2 = text::dec(common::flag(rhs == DType::Float16B));
    let s2 = s1 + common::definition("DOT_GENERAL_RHS_BF16"@, v2);
    lemma_step(s1, "DOT_GENERAL_RHS_BF16"@, v2);
    let v3 = text::dec(common::flag(output == DType::Float16B));
    let s3 = s2 + common::definition("DOT_GENERAL_OUTPUT_BF16"@, v3);
    lemma_step(s2, "DOT_GENERAL_OUTPUT_BF16"@, v3);
    lemma_more(s3, body);
    assert(dot_general::reader_text(lhs, rhs, output, body) == s3 + body);
}

/// The reader of a reduction of bits is told of its tensors, of the number of the operation, and of
/// what stands for no elements.
pub proof fn lemma_bitwise_reduce_source(
    k: BitwiseReduceProgramKey,
    input: Seq<usize>,
    output: Seq<usize>,
    reducer: ReduceReducer,
    body: Seq<char>,
)
    requires
        k.shape.of(input, output),
        BitwiseReduceOp::of(reducer) == Some(k.op),
        dram::tiled_shape_refusal(input) is None,
        dram::tiled_shape_refusal(output) is None,
    ensures
        defines(bitwise_reduce::reader_text(k, body), "BITWISE_REDUCE_RANK"@, text::dec(input.len() as int)),
        defines(bitwise_reduce::reader_text(k, body), "BITWISE_REDUCE_INPUT_SHAPE"@, text::cpp_array(text::ints_u32(dims::narrowed(input)))),
        defines(bitwise_reduce::reader_text(k, body), "BITWISE_REDUCE_OUTPUT_SHAPE"@, text::cpp_array(text::ints_u32(dims::narrowed(output)))),
        defines(bitwise_reduce::reader_text(k, body), "BITWISE_REDUCE_INPUT_TILE_ROWS"@, text::dec(tile_rows(input))),
        defines(bitwise_reduce::reader_text(k, body), "BITWISE_REDUCE_INPUT_TILES_PER_ROW"@, text::dec(tile_cols(input))),
        defines(bitwise_reduce::reader_text(k, body), "BITWISE_REDUCE_OUTPUT_TILE_ROWS"@, text::dec(tile_rows(output))),
        defines(bitwise_reduce::reader_text(k, body), "BITWISE_REDUCE_OUTPUT_TILES_PER_ROW"@, text::dec(tile_cols(output))),
        defines(bitwise_reduce::reader_text(k, body), "BITWISE_REDUCE_OP"@, text::dec((if reducer is And {
            0int
        } else {
            1int
        }))),
        defines(bitwise_reduce::reader_text(k, body), "BITWISE_REDUCE_IDENTITY"@, text::dec(k.identity as int)),
        defines(bitwise_reduce::reader_text(k, body), "BITWISE_REDUCE_ELEMENT_TYPE"@, bitwise::unsigned_word(k.dtype)),
{
    lemma_tile_grid(input);
    lemma_tile_grid(output);
    let v0 = text::dec(input.len() as int);
    let s0 = common::definition("BITWISE_REDUCE_RANK"@, v0);
    lemma_first("BITWISE_REDUCE_RANK"@, v0);
    let v1 = text::cpp_array(text::ints_u32(dims::narrowed(input)));
    let s1 = s0 + common::definition("BITWISE_REDUCE_INPUT_SHAPE"@, v1);
    lemma_step(s0, "BITWISE_REDUCE_INPUT_SHAPE"@, v1);
    let v2 = text::cpp_array(text::ints_u32(dims::narrowed(output)));
    let s2 = s1 + common::definition("BITWISE_REDUCE_OUTPUT_SHAPE"@, v2);
    lemma_step(s1, "BITWISE_REDUCE_OUTPUT_SHAPE"@, v2);
    let v3 = text::dec(tile_rows(input));
    let s3 = s2 + common::definition("BITWISE_REDUCE_INPUT_TILE_ROWS"@, v3);
    lemma_step(s2, "BITWISE_REDUCE_INPUT_TILE_ROWS"@, v3);
    let v4 = text::dec(tile_cols(input));
    let s4 = s3 + common::definition("BITWISE_REDUCE_INPUT_TILES_PER_ROW"@, v4);
    lemma_step(s3, "BITWISE_REDUCE_INPUT_TILES_PER_ROW"@, v4);
    let v5 = text::dec(tile_rows(output));
    let s5 = s4 + common::definition("BITWISE_REDUCE_OUTPUT_TILE_ROWS"@, v5);
    lemma_step(s4, "BITWISE_REDUCE_OUTPUT_TILE_ROWS"@, v5);
    let v6 = text::dec(tile_cols(output));
    let s6 = s5 + common::definition("BITWISE_REDUCE_OUTPUT_TILES_PER_ROW"@, v6);
    lemma_step(s5, "BITWISE_REDUCE_OUTPUT_TILES_PER_ROW"@, v6);
    let v7 = text::dec((if reducer is And {
            0int
        } else {
            1int
        }));
    let s7 = s6 + common::definition("BITWISE_REDUCE_OP"@, v7);
    lemma_step(s6, "BITWISE_REDUCE_OP"@, v7);
    let v8 = text::dec(k.identity as int);
    let s8 = s7 + common::definition("BITWISE_REDUCE_IDENTITY"@, v8);
    lemma_step(s7, "BITWISE_REDUCE_IDENTITY"@, v8);
    let v9 = bitwise::unsigned_word(k.dtype);
    let s9 = s8 + common::definition("BITWISE_REDUCE_ELEMENT_TYPE"@, v9);
    lemma_step(s8, "BITWISE_REDUCE_ELEMENT_TYPE"@, v9);
    lemma_more(s9, body);
    assert(bitwise_reduce::reader_text(k, body) == s9 + body);
}

/// The reader of a reduction is told of its tensors, of the dimension that is reduced, and of what
/// stands for no elements.
pub proof fn lemma_reduce_source(
    k: ReduceProgramKey,
    body: Seq<char>,
)
    ensures
        defines(program::reader_text(k, body), "REDUCE_LAST_DIM_TILED"@, (if program::tiled_last(k) {
            "1"@
        } else {
            "0"@
        })),
        defines(program::reader_text(k, body), "REDUCE_RANK"@, text::dec(k.input_shape@.len() as int)),
        defines(program::reader_text(k, body), "REDUCE_DIMENSION"@, text::dec(k.shape.reduce_dim as int)),
        defines(program::reader_text(k, body), "REDUCE_INPUT_SHAPE"@, text::cpp_array(text::ints_u32(k.input_shape@))),
        defines(program::reader_text(k, body), "REDUCE_OUTPUT_SHAPE"@, text::cpp_array(text::ints_u32(k.output_shape@))),
        defines(program::reader_text(k, body), "REDUCE_INPUT_TILE_ROWS"@, text::dec(k.input_tile_rows as int)),
        defines(program::reader_text(k, body), "REDUCE_INPUT_TILES_PER_ROW"@, text::dec(k.input_tiles_per_row as int)),
        defines(program::reader_text(k, body), "REDUCE_INNER_OUTPUT_TILES"@, text::dec(k.shape.inner_output_tiles as int)),
        defines(program::reader_text(k, body), "REDUCE_IDENTITY"@, program::identity_text(k)),
        defines(program::reader_text(k, body), "REDUCE_ELEMENT_TYPE"@, program::element_name(k.dtype, k.op)->0),
{
    let v0 = (if program::tiled_last(k) {
            "1"@
        } else {
            "0"@
        });
    let s0 = common::definition("REDUCE_LAST_DIM_TILED"@, v0);
    lemma_first("REDUCE_LAST_DIM_TILED"@, v0);
    let v1 = text::dec(k.input_shape@.len() as int);
    let s1 = s0 + common::definition("REDUCE_RANK"@, v1);
    lemma_step(s0, "REDUCE_RANK"@, v1);
    let v2 = text::dec(k.shape.reduce_dim as int);
    let s2 = s1 + common::definition("REDUCE_DIMENSION"@, v2);
    lemma_step(s1, "REDUCE_DIMENSION"@, v2);
    let v3 = text::cpp_array(text::ints_u32(k.input_shape@));
    let s3 = s2 + common::definition("REDUCE_INPUT_SHAPE"@, v3);
    lemma_step(s2, "REDUCE_INPUT_SHAPE"@, v3);
    let v4 = text::cpp_array(text::ints_u32(k.output_shape@));
    let s4 = s3 + common::definition("REDUCE_OUTPUT_SHAPE"@, v4);
    lemma_step(s3, "REDUCE_OUTPUT_SHAPE"@, v4);
    let v5 = text::dec(k.input_tile_rows as int);
    let s5 = s4 + common::definition("REDUCE_INPUT_TILE_ROWS"@, v5);
    lemma_step(s4, "REDUCE_INPUT_TILE_ROWS"@, v5);
    let v6 = text::dec(k.input_tiles_per_row as int);
    let s6 = s5 + common::definition("REDUCE_INPUT_TILES_PER_ROW"@, v6);
    lemma_step(s5, "REDUCE_INPUT_TILES_PER_ROW"@, v6);
    let v7 = text::dec(k.shape.inner_output_tiles as int);
    let s7 = s6 + common::definition("REDUCE_INNER_OUTPUT_TILES"@, v7);
    lemma_step(s6, "REDUCE_INNER_OUTPUT_TILES"@, v7);
    let v8 = program::identity_text(k);
    let s8 = s7 + common::definition("REDUCE_IDENTITY"@, v8);
    lemma_step(s7, "REDUCE_IDENTITY"@, v8);
    let v9 = program::element_name(k.dtype, k.op)->0;
    let s9 = s8 + common::definition("REDUCE_ELEMENT_TYPE"@, v9);
    lemma_step(s8, "REDUCE_ELEMENT_TYPE"@, v9);
    lemma_more(s9, body);
    assert(program::reader_text(k, body) == s9 + body);
}

/// The reader of a gather is told of its tensors, of the axis, and of the tensor that the operand
/// is a view of.
pub proof fn lemma_gather_source(
    dtype: DType,
    s: GatherShape,
    operand: Seq<usize>,
    view: Option<ReshapeSourceView>,
    output: Seq<usize>,
    axis: int,
    body: Seq<char>,
)
    requires
        s.of(operand, view, output, axis, dtype),
        dram::tiled_shape_refusal(gather::physical(operand, view)) is None,
        dram::tiled_shape_refusal(output) is None,
    ensures
        defines(gather::reader_text(dtype, s, body), "GATHER_BF16_ROWS"@, text::dec(common::flag(view is None && axis == 0 && operand.len() == 2 && dtype == DType::Float16B))),
        defines(gather::reader_text(dtype, s, body), "GATHER_RANK"@, text::dec(s.operand_shape@.len() as int)),
        defines(gather::reader_text(dtype, s, body), "GATHER_AXIS"@, text::dec(s.axis as int)),
        defines(gather::reader_text(dtype, s, body), "GATHER_OPERAND_SHAPE"@, text::cpp_array(text::ints_u32(s.operand_shape@))),
        defines(gather::reader_text(dtype, s, body), "GATHER_OUTPUT_SHAPE"@, text::cpp_array(text::ints_u32(s.output_shape@))),
        defines(gather::reader_text(dtype, s, body), "GATHER_OPERAND_RESHAPE_VIEW"@, text::dec(common::flag(view is Some))),
        defines(gather::reader_text(dtype, s, body), "GATHER_SOURCE_ROWS"@, text::dec(gather::view_numbers(view).0)),
        defines(gather::reader_text(dtype, s, body), "GATHER_SOURCE_COLS"@, text::dec(gather::view_numbers(view).1)),
        defines(gather::reader_text(dtype, s, body), "GATHER_SOURCE_TILE_ROWS"@, text::dec(gather::view_numbers(view).2)),
        defines(gather::reader_text(dtype, s, body), "GATHER_SOURCE_TILES_PER_ROW"@, text::dec(gather::view_numbers(view).3)),
        defines(gather::reader_text(dtype, s, body), "GATHER_OPERAND_TILE_ROWS"@, text::dec(tile_rows(gather::physical(operand, view)))),
        defines(gather::reader_text(dtype, s, body), "GATHER_OPERAND_TILES_PER_ROW"@, text::dec(tile_cols(gather::physical(operand, view)))),
        defines(gather::reader_text(dtype, s, body), "GATHER_OUTPUT_TILE_ROWS"@, text::dec(tile_rows(output))),
        defines(gather::reader_text(dtype, s, body), "GATHER_OUTPUT_TILES_PER_ROW"@, text::dec(tile_cols(output))),
        defines(gather::reader_text(dtype, s, body), "GATHER_ELEMENT_TYPE"@, common::element_word(dtype)),
{
    lemma_tile_grid(gather::physical(operand, view));
    lemma_tile_grid(output);
    let v0 = text::dec(common::flag(view is None && axis == 0 && operand.len() == 2 && dtype == DType::Float16B));
    let s0 = common::definition("GATHER_BF16_ROWS"@, v0);
    lemma_first("GATHER_BF16_ROWS"@, v0);
    let v1 = text::dec(s.operand_shape@.len() as int);
    let s1 = s0 + common::definition("GATHER_RANK"@, v1);
    lemma_step(s0, "GATHER_RANK"@, v1);
    let v2 = text::dec(s.axis as int);
    let s2 = s1 + common::definition("GATHER_AXIS"@, v2);
    lemma_step(s1, "GATHER_AXIS"@, v2);
    let v3 = text::cpp_array(text::ints_u32(s.operand_shape@));
    let s3 = s2 + common::definition("GATHER_OPERAND_SHAPE"@, v3);
    lemma_step(s2, "GATHER_OPERAND_SHAPE"@, v3);
    let v4 = text::cpp_array(text::ints_u32(s.output_shape@));
    let s4 = s3 + common::definition("GATHER_OUTPUT_SHAPE"@, v4);
    lemma_step(s3, "GATHER_OUTPUT_SHAPE"@, v4);
    let v5 = text::dec(common::flag(view is Some));
    let s5 = s4 + common::definition("GATHER_OPERAND_RESHAPE_VIEW"@, v5);
    lemma_step(s4, "GATHER_OPERAND_RESHAPE_VIEW"@, v5);
    let v6 = text::dec(gather::view_numbers(view).0);
    let s6 = s5 + common::definition("GATHER_SOURCE_ROWS"@, v6);
    lemma_step(s5, "GATHER_SOURCE_ROWS"@, v6);
    let v7 = text::dec(gather::view_numbers(view).1);
    let s7 = s6 + common::definition("GATHER_SOURCE_COLS"@, v7);
    lemma_step(s6, "GATHER_SOURCE_COLS"@, v7);
    let v8 = text::dec(gather::view_numbers(view).2);
    let s8 = s7 + common::definition("GATHER_SOURCE_TILE_ROWS"@, v8);
    lemma_step(s7, "GATHER_SOURCE_TILE_ROWS"@, v8);
    let v9 = text::dec(gather::view_numbers(view).3);
    let s9 = s8 + common::definition("GATHER_SOURCE_TILES_PER_ROW"@, v9);
    lemma_step(s8, "GATHER_SOURCE_TILES_PER_ROW"@, v9);
    let v10 = text::dec(tile_rows(gather::physical(operand, view)));
    let s10 = s9 + common::definition("GATHER_OPERAND_TILE_ROWS"@, v10);
    lemma_step(s9, "GATHER_OPERAND_TILE_ROWS"@, v10);
    let v11 = text::dec(tile_cols(gather::physical(operand, view)));
    let s11 = s10 + common::definition("GATHER_OPERAND_TILES_PER_ROW"@, v11);
    lemma_step(s10, "GATHER_OPERAND_TILES_PER_ROW"@, v11);
    let v12 = text::dec(tile_rows(output));
    let s12 = s11 + common::definition("GATHER_OUTPUT_TILE_ROWS"@, v12);
    lemma_step(s11, "GATHER_OUTPUT_TILE_ROWS"@, v12);
    let v13 = text::dec(tile_cols(output));
    let s13 = s12 + common::definition("GATHER_OUTPUT_TILES_PER_ROW"@, v13);
    lemma_step(s12, "GATHER_OUTPUT_TILES_PER_ROW"@, v13);
    let v14 = common::element_word(dtype);
    let s14 = s13 + common::definition("GATHER_ELEMENT_TYPE"@, v14);
    lemma_step(s13, "GATHER_ELEMENT_TYPE"@, v14);
    lemma_more(s14, body);
    assert(gather::reader_text(dtype, s, body) == s14 + body);
}

} // verus!
