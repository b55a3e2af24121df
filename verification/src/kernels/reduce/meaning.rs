//! What a reduction computes, and that what the kernels are told says so.

use vstd::prelude::*;
use vstd::arithmetic::div_mod::*;
use crate::dram::DType;
use crate::error;
use crate::executable::ReduceReducer;
use crate::kernels::kernel;
use crate::kernels::reduce;
use crate::kernels::reduce::program;
use crate::kernels::reduce::program::ReduceProgramKey;
use crate::kernels::reduce::ranges;
use crate::kernels::reduce::ranges::ReduceKernelShape;
use crate::kernels::reduce::ReduceOp;
use crate::numbers::{NumberClass, NumberFormat};
use crate::text;

verus! {

impl ReduceOp {
    /// What the operation makes of two words of bits, read as numbers where it computes.
    pub open spec fn combined(self, a: int, b: int) -> int {
        match self {
            ReduceOp::Sum => a + b,
            ReduceOp::Max => if a >= b {
                a
            } else {
                b
            },
            ReduceOp::Min => if a <= b {
                a
            } else {
                b
            },
            ReduceOp::And => ((a as u32) & (b as u32)) as int,
            ReduceOp::Or => ((a as u32) | (b as u32)) as int,
        }
    }
}

/// The operation of a reducer makes of any two numbers what the reducer makes of them. Only
/// products have none.
pub proof fn lemma_op_keeps_meaning(reducer: ReduceReducer, a: int, b: int)
    ensures
        ReduceOp::of(reducer) matches Some(op) ==> op.combined(a, b) == reducer.combined(a, b),
        ReduceOp::of(reducer) is None <==> reducer is Mul,
{
}

/// Where a single precision number stands among all: zero for zeros, and the more the greater
/// it is.
pub open spec fn single_rank(bits: u32) -> int {
    let size = bits as int % 0x8000_0000;
    if bits >= 0x8000_0000 {
        -size
    } else {
        size
    }
}

/// Whether the bits are a number, be it infinite.
pub open spec fn is_number(bits: u32) -> bool {
    bits as int % 0x8000_0000 <= 0x7f80_0000
}

/// Padding leaves every number as it is: added to it, or compared with it. The padding for the
/// reducer's operation thus does nothing under the reducer.
pub proof fn lemma_padding_neutral(reducer: ReduceReducer, x: u32)
    requires
        is_number(x),
    ensures
        ReduceOp::of(reducer) matches Some(op) ==> {
            &&& is_number(op.padding())
            &&& !op.bitwise() ==> reducer.combined(single_rank(x), single_rank(op.padding()))
                == single_rank(x) && reducer.combined(single_rank(op.padding()), single_rank(x))
                == single_rank(x)
        },
{
}

/// Whether a literal of the generated code stands for the number `v` of the type, where
/// floating point numbers are told by their rank.
pub open spec fn literal_means(s: Seq<char>, dtype: DType, v: int) -> bool {
    ||| (s == "0.0f"@ && dtype == DType::Float32 && v == 0)
    ||| (s == "0"@ && dtype != DType::Float32 && v == 0)
    ||| (s == "(-3.4028234663852886e+38F)"@ && dtype == DType::Float32 && v == -0x7f7f_ffff)
    ||| (s == "3.4028234663852886e+38F"@ && dtype == DType::Float32 && v == 0x7f7f_ffff)
    ||| (s == "(-2147483647 - 1)"@ && dtype == DType::Int32 && v == -2147483648)
    ||| (s == "2147483647"@ && dtype == DType::Int32 && v == 2147483647)
    ||| (s == "0xff80u"@ && dtype == DType::Float16B && v == -0x7f80)
    ||| (s == "0x7f80u"@ && dtype == DType::Float16B && v == 0x7f80)
    ||| (s == "0xffffffffu"@ && dtype == DType::UInt32 && v == 0xffff_ffff)
    ||| (s == "0xffffu"@ && dtype == DType::UInt16 && v == 0xffff)
}

/// Whether the type holds the number, where floating point numbers are told by their rank and
/// single precision ones are finite.
pub open spec fn holds(dtype: DType, x: int) -> bool {
    match dtype {
        DType::Float32 => -0x7f7f_ffff <= x <= 0x7f7f_ffff,
        DType::Float16B => -0x7f80 <= x <= 0x7f80,
        DType::Int32 => -0x8000_0000 <= x < 0x8000_0000,
        DType::UInt32 => 0 <= x <= 0xffff_ffff,
        DType::UInt16 => 0 <= x <= 0xffff,
        _ => false,
    }
}

/// The literal that stands for no elements leaves every number of the type as it is, and every
/// type that the kernel computes with has one.
pub proof fn lemma_literal_neutral(op: ReduceOp, dtype: DType)
    requires
        !op.bitwise(),
        reduce::holds_numbers(dtype),
    ensures
        op.literal(dtype) is Some,
        exists|v: int|
            {
                &&& #[trigger] literal_means(op.literal(dtype)->0, dtype, v)
                &&& holds(dtype, v)
                &&& forall|x: int|
                    holds(dtype, x) ==> op.combined(x, v) == x && op.combined(v, x) == x
            },
{
    let v: int = match (op, dtype) {
        (ReduceOp::Max, DType::Float32) => -0x7f7f_ffff,
        (ReduceOp::Min, DType::Float32) => 0x7f7f_ffff,
        (ReduceOp::Max, DType::Int32) => -2147483648,
        (ReduceOp::Min, DType::Int32) => 2147483647,
        (ReduceOp::Max, DType::Float16B) => -0x7f80,
        (ReduceOp::Min, DType::Float16B) => 0x7f80,
        (ReduceOp::Min, DType::UInt32) => 0xffff_ffff,
        (ReduceOp::Min, DType::UInt16) => 0xffff,
        _ => 0,
    };
    assert(literal_means(op.literal(dtype)->0, dtype, v));
}

/// What the compute kernel, filled in with these texts, makes of two elements.
pub open spec fn kernel_combines(
    pool: Seq<char>,
    sum: Seq<char>,
    min: Seq<char>,
    or: Seq<char>,
    bits: Seq<char>,
    a: int,
    b: int,
    r: int,
) -> bool {
    ||| (bits == "0"@ && or == "0"@ && sum == "1"@ && min == "0"@ && pool
        == "ckernel::PoolType::SUM"@ && r == a + b)
    ||| (bits == "0"@ && or == "0"@ && sum == "0"@ && min == "0"@ && pool
        == "ckernel::PoolType::MAX"@ && r == (if a >= b {
        a
    } else {
        b
    }))
    ||| (bits == "0"@ && or == "0"@ && sum == "0"@ && min == "1"@ && pool
        == "ckernel::PoolType::MIN"@ && r == (if a <= b {
        a
    } else {
        b
    }))
    ||| (bits == "1"@ && or == "0"@ && sum == "0"@ && min == "0"@ && r == ((a as u32) & (
    b as u32)) as int)
    ||| (bits == "1"@ && or == "1"@ && sum == "0"@ && min == "0"@ && r == ((a as u32) | (
    b as u32)) as int)
}

/// Whether the name of a device format stands for numbers written like this.
pub open spec fn format_named(name: Seq<char>, f: NumberFormat) -> bool {
    ||| (name == "DataFormat::Float32"@ && f == NumberFormat {
        class: NumberClass::Float,
        exponent: 8,
        mantissa: 23,
    })
    ||| (name == "DataFormat::Float16_b"@ && f == NumberFormat {
        class: NumberClass::Float,
        exponent: 8,
        mantissa: 7,
    })
    ||| (name == "DataFormat::Int32"@ && f == NumberFormat {
        class: NumberClass::Signed,
        exponent: 0,
        mantissa: 31,
    })
    ||| (name == "DataFormat::UInt32"@ && f == NumberFormat {
        class: NumberClass::Unsigned,
        exponent: 0,
        mantissa: 32,
    })
    ||| (name == "DataFormat::UInt16"@ && f == NumberFormat {
        class: NumberClass::Unsigned,
        exponent: 0,
        mantissa: 16,
    })
    ||| (name == "DataFormat::UInt8"@ && f == NumberFormat {
        class: NumberClass::Unsigned,
        exponent: 0,
        mantissa: 8,
    })
}

/// The compute kernel of a reducer's operation, with its names filled in, makes of any two
/// elements what the reducer makes of them. It computes in a format of the elements' class
/// that holds all of them.
pub proof fn lemma_compute_means_reducer(
    reducer: ReduceReducer,
    dtype: DType,
    tiled: bool,
    body: Seq<char>,
    a: int,
    b: int,
)
    ensures
        ReduceOp::of(reducer) matches Some(op) ==> reduce::dtype_refusal(dtype, op) is None
            ==> exists|
            pool: Seq<char>,
            sum: Seq<char>,
            min: Seq<char>,
            or: Seq<char>,
            bits: Seq<char>,
        | #[trigger]
            kernel_combines(pool, sum, min, or, bits, a, b, reducer.combined(a, b))
                && program::compute_text(op, program::compute_type(dtype)->0, tiled, body) == {
                let last = if tiled {
                    "1"@
                } else {
                    "0"@
                };
                let format = program::format_name(program::compute_type(dtype)->0);
                let s = text::replaced(body, "REDUCE_LAST_DIM_TILED"@, last);
                let t = text::replaced(s, "REDUCE_DATA_FORMAT"@, format);
                let u = text::replaced(t, "REDUCE_POOL_TYPE"@, pool);
                let v = text::replaced(u, "REDUCE_IS_SUM"@, sum);
                let w = text::replaced(v, "REDUCE_IS_MIN"@, min);
                let x = text::replaced(w, "REDUCE_IS_OR"@, or);
                text::replaced(x, "REDUCE_IS_BITWISE"@, bits)
            },
        ReduceOp::of(reducer) matches Some(op) ==> reduce::dtype_refusal(dtype, op) is None ==> {
            let computed = program::compute_type(dtype);
            &&& computed is Some
            &&& format_named(program::format_name(computed->0), computed->0.format())
            &&& computed->0.format().class == dtype.format().class
            &&& computed->0.format().exponent >= dtype.format().exponent
            &&& computed->0.format().mantissa >= dtype.format().mantissa
        },
{
    if let Some(op) = ReduceOp::of(reducer) {
        assert(kernel_combines(
            op.pool(),
            program::bit(op == ReduceOp::Sum),
            program::bit(op == ReduceOp::Min),
            program::bit(op == ReduceOp::Or),
            program::bit(op.bitwise()),
            a,
            b,
            reducer.combined(a, b),
        ));
    }
}

/// Whether a type of the generated code holds elements of `bits` bits of the class.
pub open spec fn type_named(name: Seq<char>, class: NumberClass, bits: int) -> bool {
    ||| (name == "float"@ && class is Float && bits == 32)
    ||| (name == "int32_t"@ && class is Signed && bits == 32)
    ||| (name == "uint32_t"@ && class is Unsigned && bits == 32)
    ||| (name == "uint16_t"@ && class is Unsigned && bits == 16)
    ||| (name == "uint8_t"@ && class is Unsigned && bits == 8)
}

/// Elements of the generated code are as wide as those of the buffer. Numbers are of its
/// class, but for short floating point numbers; these and elements that are combined bit by
/// bit are plain bits.
pub proof fn lemma_element_type(dtype: DType, op: ReduceOp)
    requires
        reduce::dtype_refusal(dtype, op) is None,
    ensures
        program::element_name(dtype, op) matches Some(name) && type_named(
            name,
            if op.bitwise() || dtype == DType::Float16B {
                NumberClass::Unsigned
            } else {
                dtype.format().class
            },
            dtype.format().bits(),
        ),
{
}

/// Before the first row of tiles there are no rows. Each row of tiles adds the rows of its
/// matrix that it covers: 32, or what is left of the matrix.
pub proof fn lemma_rows_of_tiles(s: ReduceKernelShape, tile_row: int)
    requires
        s.output_tile_rows_per_prefix == (s.output_dim0 + 31) / 32,
        s.output_dim0 > 0,
        tile_row >= 0,
    ensures
        ranges::rows_before(s, 0) == 0,
        ({
            let per = s.output_tile_rows_per_prefix as int;
            let left = s.output_dim0 - 32 * (tile_row % per);
            &&& left > 0
            &&& ranges::rows_before(s, tile_row + 1) - ranges::rows_before(s, tile_row) == if left
                < 32 {
                left
            } else {
                32
            }
        }),
{
    let per = s.output_tile_rows_per_prefix as int;
    let dim = s.output_dim0 as int;
    lemma_div_of0(per);
    lemma_small_mod(0, per as nat);
    lemma_fundamental_div_mod(tile_row, per);
    lemma_mod_bound(tile_row, per);
    let (q, r) = (tile_row / per, tile_row % per);
    assert(0 * dim == 0);
    if r + 1 < per {
        assert(tile_row + 1 == q * per + (r + 1)) by (nonlinear_arith)
            requires
                tile_row == per * q + r,
        ;
        lemma_fundamental_div_mod_converse(tile_row + 1, per, q, r + 1);
    } else {
        assert(tile_row + 1 == (q + 1) * per + 0) by (nonlinear_arith)
            requires
                tile_row == per * q + r,
                r + 1 == per,
        ;
        lemma_fundamental_div_mod_converse(tile_row + 1, per, q + 1, 0);
        assert((q + 1) * dim == q * dim + dim) by (nonlinear_arith);
    }
}

/// The last tile of a row of elements holds what the tiles before it leave.
pub proof fn lemma_last_width(width: int)
    requires
        width > 0,
    ensures
        1 <= reduce::last_width(width) <= 32,
        width == 32 * ((width + 31) / 32 - 1) + reduce::last_width(width),
{
}

/// The three kernels of a core are told of the same groups: the reader of those that it reads,
/// the compute kernel of their number, and the writer of those that it writes. The groups and
/// the tiles of the cores follow each other, from the first on.
pub proof fn lemma_cores_share_groups(k: ReduceProgramKey, j: int)
    requires
        ranges::ranges_refusal(k.shape, k.cores@.len() as int) is None,
        0 <= j < k.cores@.len(),
    ensures
        ({
            let here = program::program_args(k)(j);
            let (writer, reader, compute) = here;
            let first = program::program_args(k)(0);
            let next = program::program_args(k)(j + 1);
            &&& writer[1] == reader[1]
            &&& writer[2] == reader[2]
            &&& compute[0] == reader[2]
            &&& compute[1] == reader[3]
            &&& first.0[1] == 0
            &&& first.0[4] == 0
            &&& j + 1 < k.cores@.len() ==> {
                &&& next.1[1] == reader[1] + reader[2]
                &&& next.0[4] == writer[4] + writer[5]
            }
        }),
{
    let n = k.cores@.len() as int;
    if j + 1 < n {
        ranges::lemma_ranges_follow(k.shape, j, n);
    } else if n > 1 {
        ranges::lemma_ranges_follow(k.shape, 0, n);
    } else {
        let s = k.shape;
        let t = ranges::partitions(s);
        assert(t >= 0) by {
            if !s.flat() {
                lemma_div_pos_is_pos(s.output_tiles as int, s.inner_output_tiles as int);
            }
        }
        kernel::lemma_split_partitions(t, 0, n);
        let checks = ranges::range_checks(s, n);
        error::lemma_first_refusal_none(0, n, checks);
        assert(checks(0) is None);
        if !s.flat() {
            let per = s.output_tile_rows_per_prefix as int;
            lemma_div_of0(per);
            lemma_small_mod(0, per as nat);
            assert(ranges::rows_before(s, 0) == 0);
        }
    }
}

/// Where the reader works on tiles, it is told how wide the last tile of a row is and with
/// what to fill the rest, which does nothing under the operation. Otherwise it is told how many
/// elements make up a group: those of the dimension that is reduced.
pub proof fn lemma_reader_counts(
    k: ReduceProgramKey,
    j: int,
    input: Seq<usize>,
    output: Seq<usize>,
    x: u32,
)
    requires
        reduce::is_shape(k.shape, input, output, k.shape.reduce_dim as int),
        k.shape.reduce_dim < input.len(),
        k.input_shape@.len() == input.len(),
        input.last() > 0,
        is_number(x),
    ensures
        ({
            let reader = program::program_args(k)(j).1;
            if reader.len() == 6 {
                &&& k.dtype == DType::Float32
                &&& k.shape.reduce_dim == input.len() - 1
                &&& (k.input_tiles_per_row as int == (input.last() + 31) / 32 ==> (reader[3] - 1)
                    * 32 + reader[4] == input.last())
                &&& !k.op.bitwise() ==> k.op.combined(single_rank(x), single_rank(reader[5]))
                    == single_rank(x)
            } else {
                reader.len() == 4 && reader[3] == input[k.shape.reduce_dim as int]
            }
        }),
{
    lemma_last_width(input.last() as int);
}

} // verus!
