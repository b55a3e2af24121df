//! That the cores of a kernel share its tiles, and what their arguments tell them.

use vstd::prelude::*;
use crate::convert;
use crate::dram;
use crate::dram::DType;
use crate::error;
use crate::hw::CoreCoord;
use crate::kernels::argmax::ArgMaxKernel;
use crate::kernels::binary_eltwise;
use crate::kernels::binary_eltwise::{BinaryEltwiseKernel, BinaryEltwiseOp, EltwiseInput, EltwiseSources};
use crate::kernels::common;
use crate::kernels::common::{DramKernel, SectionWords};
use crate::kernels::concatenate;
use crate::kernels::concatenate::{ConcatenateInputShape, ConcatenateKernelShape};
use crate::kernels::constant::ConstantKernel;
use crate::kernels::defines;
use crate::kernels::fused::meaning;
use crate::kernels::fused::FusedEltwiseKernel;
use crate::kernels::gather;
use crate::kernels::gather::{GatherShape, ReshapeSourceView};
use crate::kernels::iota;
use crate::kernels::iota::IotaKernel;
use crate::kernels::kernel;
use crate::kernels::kernel::Kernel;
use crate::kernels::lowering;
use crate::kernels::lowering::RangeWords;
use crate::numbers::Arithmetic;
use crate::text;

verus! {

/// Whether the words of a section say that the core works on these tiles: the first one, where
/// the section tells it, and their number.
pub open spec fn says_range(s: SectionWords, words: Seq<u32>, offset: int, count: int) -> bool {
    let at = s.head.len() as int;
    match s.range {
        RangeWords::Absent => words == s.head + s.tail,
        RangeWords::OffsetAndCount => words[at] == offset && words[at + 1] == count && words.skip(
            at + 2,
        ) == s.tail,
        RangeWords::Count => words[at] == count && words.skip(at + 1) == s.tail,
        RangeWords::ScaledCount(factor) => count * factor <= u32::MAX ==> words[at] == count
            * factor && words.skip(at + 1) == s.tail,
        RangeWords::ScaledRange(factor) => count * factor <= u32::MAX && offset * factor
            <= u32::MAX ==> words[at] == offset * factor && words[at + 1] == count * factor
            && words.skip(at + 2) == s.tail,
    }
}

/// The first tile of core `j` when tiles are dealt out over `n` cores.
pub open spec fn first_tile(tiles: u32, j: int, n: int) -> int {
    lowering::core_range(tiles, j, n).0 as int
}

pub open spec fn tile_share(tiles: u32, j: int, n: int) -> int {
    lowering::core_range(tiles, j, n).1 as int
}

/// All tiles are dealt out: the first core starts at the first tile, every other one where the
/// one before it ends, and the last one ends at the last tile. No core gets two tiles more than
/// another.
pub proof fn lemma_tiles_shared(tiles: u32, j: int, i: int, n: int)
    requires
        0 <= j < n,
        0 <= i < n,
    ensures
        first_tile(tiles, 0, n) == 0,
        j + 1 < n ==> first_tile(tiles, j + 1, n) == first_tile(tiles, j, n) + tile_share(
            tiles,
            j,
            n,
        ),
        first_tile(tiles, n - 1, n) + tile_share(tiles, n - 1, n) == tiles,
        tile_share(tiles, j, n) <= tile_share(tiles, i, n) + 1,
{
    let t = tiles as int;
    kernel::lemma_split_partitions(t, 0, n);
    kernel::lemma_split_partitions(t, j, n);
    kernel::lemma_split_partitions(t, i, n);
    kernel::lemma_split_partitions(t, n - 1, n);
    vstd::arithmetic::div_mod::lemma_div_pos_is_pos(t, n);
    if j + 1 < n {
        kernel::lemma_split_partitions(t, j + 1, n);
    }
}

/// All kernels of a core are told of the same tiles: those of its share.
pub proof fn lemma_kernels_share_tiles(
    listed: Seq<CoreCoord>,
    tiles: u32,
    writer: SectionWords,
    reader: SectionWords,
    compute: SectionWords,
    j: int,
)
    requires
        0 <= j < listed.len(),
    ensures
        ({
            let n = listed.len() as int;
            let (offset, count) = (first_tile(tiles, j, n), tile_share(tiles, j, n));
            let args = common::dealt(listed, tiles, writer, reader, compute)(j);
            &&& says_range(writer, args.0, offset, count)
            &&& says_range(reader, args.1, offset, count)
            &&& says_range(compute, args.2, offset, count)
        }),
{
    let n = listed.len() as int;
    let range = lowering::core_range(tiles, j, n);
    lemma_says(writer, range);
    lemma_says(reader, range);
    lemma_says(compute, range);
}

proof fn lemma_says(s: SectionWords, range: (u32, u32))
    ensures
        says_range(s, common::words_at(s, range), range.0 as int, range.1 as int),
{
    let words = common::words_at(s, range);
    let at = s.head.len() as int;
    match s.range {
        RangeWords::Absent => {},
        RangeWords::OffsetAndCount => {
            assert(words.skip(at + 2) =~= s.tail);
        },
        RangeWords::Count => {
            assert(words.skip(at + 1) =~= s.tail);
        },
        RangeWords::ScaledCount(factor) => {
            assert(words.skip(at + 1) =~= s.tail);
            assert(0 <= range.1 * factor) by (nonlinear_arith);
        },
        RangeWords::ScaledRange(factor) => {
            assert(words.skip(at + 2) =~= s.tail);
            assert(0 <= range.1 * factor && 0 <= range.0 * factor) by (nonlinear_arith);
        },
    }
}

impl BinaryEltwiseOp {
    /// What the operation makes of two numbers.
    pub open spec fn result(self, n: Arithmetic, a: int, b: int) -> int {
        match self {
            BinaryEltwiseOp::Add => (n.add)(a, b),
            BinaryEltwiseOp::Subtract => (n.sub)(a, b),
            BinaryEltwiseOp::Multiply => (n.mul)(a, b),
            BinaryEltwiseOp::Divide => (n.div)(a, b),
            BinaryEltwiseOp::Power => (n.pow)(a, b),
            BinaryEltwiseOp::Max => (n.max)(a, b),
            BinaryEltwiseOp::Compare(direction) => meaning::truth(direction.holds(a, b)),
        }
    }
}

/// The source that is chosen for an operation computes it, where each source computes what its
/// name says. A comparison is one of the difference with zero, in the source's own direction
/// and type.
pub proof fn lemma_eltwise_computes<'a>(
    op: BinaryEltwiseOp,
    dtype: DType,
    sources: EltwiseSources<'a>,
    n: Arithmetic,
    computes: spec_fn(Seq<char>, int, int) -> int,
    a: int,
    b: int,
)
    requires
        computes(sources.add@, a, b) == (n.add)(a, b),
        computes(sources.subtract@, a, b) == (n.sub)(a, b),
        computes(sources.multiply@, a, b) == (n.mul)(a, b),
        computes(sources.divide@, a, b) == (n.div)(a, b),
        computes(sources.power@, a, b) == (n.pow)(a, b),
        computes(sources.max@, a, b) == (n.max)(a, b),
    ensures
        match op {
            BinaryEltwiseOp::Compare(direction) => exists|int32: Seq<char>, name: Seq<char>|
                #![trigger text::replaced(
                    text::replaced(sources.compare@, "COMPARE_INT32_INPUT"@, int32),
                    "COMPARE_DIRECTION"@,
                    name,
                )]
                {
                    &&& binary_eltwise::compute_text(op, dtype, sources) == text::replaced(
                        text::replaced(sources.compare@, "COMPARE_INT32_INPUT"@, int32),
                        "COMPARE_DIRECTION"@,
                        name,
                    )
                    &&& meaning::zero_call(name, a - b, op.result(n, a, b))
                    &&& (int32 == "true"@ && dtype == DType::Int32) || (int32 == "false"@ && dtype
                        != DType::Int32)
                },
            _ => computes(binary_eltwise::compute_text(op, dtype, sources), a, b) == op.result(
                n,
                a,
                b,
            ),
        },
        op.result_type(dtype) == if op is Compare {
            DType::UInt8
        } else {
            dtype
        },
{
    if let BinaryEltwiseOp::Compare(direction) = op {
        let int32 = if dtype == DType::Int32 {
            "true"@
        } else {
            "false"@
        };
        assert(meaning::zero_call(direction.shown(), a - b, op.result(n, a, b)));
        assert(binary_eltwise::compute_text(op, dtype, sources) == text::replaced(
            text::replaced(sources.compare@, "COMPARE_INT32_INPUT"@, int32),
            "COMPARE_DIRECTION"@,
            direction.shown(),
        ));
    }
}

/// Each operand of an operation is found by the reader where it looks for it: the address of
/// the left one at its first word, that of the right one at its second, and the constants in
/// the same order behind the tile range. The writer finds the address of the output.
pub proof fn lemma_eltwise_words(k: BinaryEltwiseKernel, core: CoreCoord)
    ensures
        k.reader_arg(core, 0) == Some(k.lhs_addr),
        k.reader_arg(core, 1) == Some(k.rhs_addr),
        k.lhs_constant is Some ==> k.reader_arg(core, 4) == k.lhs_constant,
        k.rhs_constant is Some ==> k.reader_arg(core, 5) == k.rhs_constant,
        k.writer_arg(core, 0) == Some(k.output_addr),
        forall|i: int|
            #![trigger k.reader_arg(core, i)]
            k.reader_arg(core, i) is Some ==> i == 0 || i == 1 || i == 4 || i == 5,
        ({
            let words = binary_eltwise::core_args(k.key)(0).1;
            words.len() == 6
        }),
{
    let words = binary_eltwise::core_args(k.key)(0).1;
    assert(words.len() == 6);
}

/// A kernel that reads buffers finds the address of each at the word of its number, and the
/// address of the output at the writer's first word.
pub proof fn lemma_dram_words<K>(k: DramKernel<K>, core: CoreCoord, i: int)
    ensures
        0 <= i < k.reader_addrs@.len() ==> k.reader_arg(core, i) == Some(k.reader_addrs@[i]),
        k.writer_arg(core, 0) == Some(k.output_addr),
{
}

/// A fused operation finds the address of each input at the reader's word of its number, and
/// that of the output at the writer's first word.
pub proof fn lemma_fused_words(k: FusedEltwiseKernel, core: CoreCoord, i: int)
    ensures
        0 <= i < k.input_addrs@.len() ==> k.reader_arg(core, i) == Some(k.input_addrs@[i]),
        k.writer_arg(core, 0) == Some(k.output_addr),
{
}

/// The search for the largest element reads from the first address and writes to the second.
pub proof fn lemma_argmax_words(k: ArgMaxKernel, core: CoreCoord)
    ensures
        k.writer_arg(core, 0) == Some(k.input_addr),
        k.writer_arg(core, 1) == Some(k.output_addr),
{
}

/// A tensor of one value is written to the first word's address, filled with the second word.
pub proof fn lemma_constant_words(k: ConstantKernel, core: CoreCoord)
    ensures
        k.writer_arg(core, 0) == Some(k.output_addr),
        k.writer_arg(core, 1) == Some(k.packed_word),
{
}

/// A counting tensor is told to its writer: where it lies, the tiles of the core, its
/// dimensions, the one that counts, and the tiles of a row.
pub proof fn lemma_iota_words(k: IotaKernel, shape: Seq<usize>, dimension: int, j: int)
    requires
        1 <= shape.len() <= 2,
        dram::tiled_shape_refusal(shape) is None,
        k.rank == shape.len(),
        k.dim0 == shape[0],
        k.dim1 == iota::second_dim(shape),
        k.iota_dimension == dimension,
        k.output_tiles_per_row == common::tile_grid(shape).1,
        lowering::listed_refusal(k.key.cores@) is None,
        0 <= j < k.key.cores@.len(),
    ensures
        ({
            let core = k.key.cores@[j];
            let n = k.key.cores@.len() as int;
            &&& k.writer_arg(core, 0) == Some(k.output_addr)
            &&& k.writer_arg(core, 1) matches Some(w) && w == first_tile(k.key.tile_count, j, n)
            &&& k.writer_arg(core, 2) matches Some(w) && w == tile_share(k.key.tile_count, j, n)
            &&& k.writer_arg(core, 3) matches Some(w) && w == shape.len()
            &&& k.writer_arg(core, 4) matches Some(w) && w == shape[0]
            &&& k.writer_arg(core, 5) matches Some(w) && w == (if shape.len() == 2 {
                shape[1]
            } else {
                1
            })
            &&& k.writer_arg(core, 6) matches Some(w) && w == dimension
            &&& k.writer_arg(core, 7) matches Some(w) && w == defines::tile_cols(shape)
        }),
{
    iota::lemma_range_of_listed(k.key.tile_count, k.key.cores@, j);
    defines::lemma_tile_grid(shape);
}

/// The words for tensor `i` of a concatenation stand behind those for the tensors before it.
proof fn lemma_all_words(inputs: Seq<ConcatenateInputShape>, i: int, n: int)
    requires
        0 <= i < n <= inputs.len(),
    ensures
        concatenate::all_words(inputs, n).len() == 5 * n,
        forall|w: int|
            0 <= w < 5 ==> concatenate::all_words(inputs, n)[5 * i + w] == #[trigger] inputs[i]
                .words()[w],
    decreases n,
{
    if i < n - 1 {
        lemma_all_words(inputs, i, n - 1);
    } else if n > 1 {
        lemma_all_words(inputs, 0, n - 1);
    } else {
        assert(concatenate::all_words(inputs, 0).len() == 0);
    }
    let before = concatenate::all_words(inputs, n - 1);
    let own = inputs[n - 1].words();
    assert(concatenate::all_words(inputs, n) == before + own);
    assert forall|w: int| 0 <= w < 5 implies concatenate::all_words(inputs, n)[5 * i + w]
        == #[trigger] inputs[i].words()[w] by {
        if i == n - 1 {
            assert((before + own)[5 * i + w] == own[w]);
        } else {
            assert((before + own)[5 * i + w] == before[5 * i + w]);
        }
    }
}

/// The rows and columns of a matrix of the tensor.
pub open spec fn matrix_rows(shape: Seq<usize>) -> int {
    if shape.len() == 1 {
        1
    } else {
        shape[shape.len() - 2] as int
    }
}

/// The numbers of tensor `i` stand behind those of the tensors before it.
proof fn lemma_input_place(s: ConcatenateKernelShape, i: int)
    requires
        0 <= i < s.inputs@.len(),
    ensures
        ({
            let tail = concatenate::reader_words(s).tail;
            let at = 4 + 5 * i;
            &&& tail[at] == s.inputs@[i].rows
            &&& tail[at + 1] == s.inputs@[i].cols
            &&& tail[at + 2] == s.inputs@[i].tile_rows
            &&& tail[at + 3] == s.inputs@[i].tiles_per_row
            &&& tail[at + 4] == s.inputs@[i].concat_offset
        }),
{
    let n = s.inputs@.len() as int;
    let all = concatenate::all_words(s.inputs@, n);
    let words = s.inputs@[i].words();
    lemma_all_words(s.inputs@, i, n);
    assert(all[5 * i] == words[0]);
    assert(all[5 * i + 1] == words[1]);
    assert(all[5 * i + 2] == words[2]);
    assert(all[5 * i + 3] == words[3]);
    assert(all[5 * i + 4] == words[4]);
}

/// The numbers of tensor `i` are those of its matrices and of their tiles.
proof fn lemma_input_numbers(
    shapes: Seq<Seq<usize>>,
    output: Seq<usize>,
    dimension: int,
    s: ConcatenateKernelShape,
    i: int,
)
    requires
        concatenate::shape_refusal(shapes, output, dimension) is None,
        s.of(shapes, output, dimension),
        0 <= i < shapes.len(),
        output.len() >= 1,
    ensures
        s.inputs@[i].rows == matrix_rows(shapes[i]),
        s.inputs@[i].cols == shapes[i].last(),
        s.inputs@[i].tile_rows == defines::tile_rows(shapes[i]),
        s.inputs@[i].tiles_per_row == defines::tile_cols(shapes[i]),
{
    let n = shapes.len() as int;
    let checks = concatenate::words_checks(shapes, dimension);
    error::lemma_first_refusal_none(0, n, checks);
    assert(checks(i) is None);
    defines::lemma_tile_grid(shapes[i]);
    let formed = concatenate::input_checks(shapes, output, dimension);
    error::lemma_first_refusal_none(0, n, formed);
    assert(formed(i) is None);
    let values = concatenate::input_values(shapes, dimension, i);
    common::lemma_narrowed(values, concatenate::input_names());
    let words = convert::field_words(values);
    assert(s.inputs@[i].words() == words);
    assert(words[0] == values[0]);
    assert(words[1] == values[1]);
    assert(words[2] == values[2]);
    assert(words[3] == values[3]);
    assert(s.inputs@[i].words()[0] == s.inputs@[i].rows);
    assert(s.inputs@[i].words()[1] == s.inputs@[i].cols);
    assert(s.inputs@[i].words()[2] == s.inputs@[i].tile_rows);
    assert(s.inputs@[i].words()[3] == s.inputs@[i].tiles_per_row);
}

/// The reader of a concatenation is told of each tensor: the size of its matrices, their tiles,
/// and where it starts in the output, behind all tensors before it. Before that it is told of
/// the size of the output's matrices and of their tiles.
pub proof fn lemma_concatenate_words(
    shapes: Seq<Seq<usize>>,
    output: Seq<usize>,
    dimension: int,
    s: ConcatenateKernelShape,
    i: int,
)
    requires
        concatenate::shape_refusal(shapes, output, dimension) is None,
        s.of(shapes, output, dimension),
        0 <= i < shapes.len(),
        output.len() >= 1,
        dram::tiled_shape_refusal(output) is None,
    ensures
        ({
            let tail = concatenate::reader_words(s).tail;
            let at = 4 + 5 * i;
            &&& concatenate::reader_words(s).head.len() == shapes.len()
            &&& tail[0] == matrix_rows(output)
            &&& tail[1] == output.last()
            &&& tail[2] == defines::tile_rows(output)
            &&& tail[3] == defines::tile_cols(output)
            &&& tail[at] == matrix_rows(shapes[i])
            &&& tail[at + 1] == shapes[i].last()
            &&& tail[at + 2] == defines::tile_rows(shapes[i])
            &&& tail[at + 3] == defines::tile_cols(shapes[i])
            &&& i == 0 ==> tail[at + 4] == 0
            &&& i > 0 ==> tail[at + 4] == tail[at - 1] + shapes[i - 1][dimension]
        }),
{
    defines::lemma_tile_grid(output);
    lemma_input_numbers(shapes, output, dimension, s, i);
    lemma_input_place(s, i);
    concatenate::lemma_inputs_follow(shapes, output, dimension, s, i);
    if i > 0 {
        lemma_input_place(s, i - 1);
        concatenate::lemma_inputs_follow(shapes, output, dimension, s, i - 1);
    }
}

/// Leading dimensions of size one are all that a gather adds: the last dimensions are those of
/// the operand and of the output, and the axis is the same dimension.
pub proof fn lemma_gather_seen(
    s: GatherShape,
    operand: Seq<usize>,
    view: Option<ReshapeSourceView>,
    output: Seq<usize>,
    axis: int,
    dtype: DType,
    d: int,
)
    requires
        s.of(operand, view, output, axis, dtype),
        operand.len() == output.len(),
        0 <= axis < operand.len(),
        0 <= d < s.operand_shape@.len(),
        forall|i: int|
            0 <= i < operand.len() ==> #[trigger] operand[i] <= u32::MAX && output[i] <= u32::MAX,
    ensures
        ({
            let added = s.operand_shape@.len() - operand.len();
            &&& added >= 0
            &&& s.output_shape@.len() == s.operand_shape@.len()
            &&& s.axis == axis + added
            &&& s.operand_shape@[d] == (if d < added {
                1
            } else {
                operand[d - added]
            })
            &&& s.output_shape@[d] == (if d < added {
                1
            } else {
                output[d - added]
            })
        }),
{
    let rank = crate::arith::max2(operand.len() as int, 3);
    if gather::mode_of(operand, view, axis, dtype) is Axis {
        let (a, b) = (gather::padded_rank(operand, rank), gather::padded_rank(output, rank));
        assert(s.operand_shape@[d] == a[d] as u32);
        assert(s.output_shape@[d] == b[d] as u32);
    }
}

} // verus!
