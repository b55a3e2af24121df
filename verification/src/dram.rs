//! Element types, tiled shapes and buffers in device memory.

use vstd::prelude::*;
use crate::arith;
use crate::error;
use crate::error::Error;
use crate::numbers::{NumberClass, NumberFormat};
use crate::text;

pub mod access;
pub mod allocator;
pub mod banks;
pub mod devices;
pub mod layout;
pub mod order;

verus! {

/// Rows of a tile.
pub const TILE_R: usize = 32;

/// Columns of a tile.
pub const TILE_C: usize = 32;

/// Rows of one of the four faces of a tile.
pub const FACE_R: usize = 16;

/// Columns of one of the four faces of a tile.
pub const FACE_C: usize = 16;

/// Element types of device buffers.
#[derive(Clone, Copy, Debug, Hash, PartialEq, Eq, Structural)]
pub enum DType {
    Float32,
    Float16,
    Float16B,
    Int32,
    UInt16,
    Int8,
    UInt32,
    UInt8,
}

impl DType {
    /// The number by which the device knows the type.
    pub open spec fn code(self) -> u32 {
        match self {
            DType::Float32 => 0,
            DType::Float16 => 1,
            DType::Float16B => 5,
            DType::Int32 => 8,
            DType::UInt16 => 9,
            DType::Int8 => 14,
            DType::UInt32 => 24,
            DType::UInt8 => 30,
        }
    }

    pub fn value(self) -> (r: u32)
        ensures
            r == self.code(),
    {
        match self {
            DType::Float32 => 0,
            DType::Float16 => 1,
            DType::Float16B => 5,
            DType::Int32 => 8,
            DType::UInt16 => 9,
            DType::Int8 => 14,
            DType::UInt32 => 24,
            DType::UInt8 => 30,
        }
    }

    /// The name of the type.
    pub open spec fn shown(self) -> Seq<char> {
        match self {
            DType::Float32 => "Float32"@,
            DType::Float16 => "Float16"@,
            DType::Float16B => "Float16B"@,
            DType::Int32 => "Int32"@,
            DType::UInt16 => "UInt16"@,
            DType::Int8 => "Int8"@,
            DType::UInt32 => "UInt32"@,
            DType::UInt8 => "UInt8"@,
        }
    }

    pub fn name(self) -> (r: &'static str)
        ensures
            r@ == self.shown(),
    {
        match self {
            DType::Float32 => "Float32",
            DType::Float16 => "Float16",
            DType::Float16B => "Float16B",
            DType::Int32 => "Int32",
            DType::UInt16 => "UInt16",
            DType::Int8 => "Int8",
            DType::UInt32 => "UInt32",
            DType::UInt8 => "UInt8",
        }
    }

    /// Bytes of one element.
    pub open spec fn width(self) -> int {
        match self {
            DType::Float32 | DType::Int32 | DType::UInt32 => 4,
            DType::Float16 | DType::Float16B | DType::UInt16 => 2,
            DType::Int8 | DType::UInt8 => 1,
        }
    }

    pub fn bytes_per_element(self) -> (r: usize)
        ensures
            r == self.width(),
    {
        match self {
            DType::Float32 | DType::Int32 | DType::UInt32 => 4,
            DType::Float16 | DType::Float16B | DType::UInt16 => 2,
            DType::Int8 | DType::UInt8 => 1,
        }
    }

    /// Bytes of one tile.
    pub open spec fn tile_bytes(self) -> int {
        1024 * self.width()
    }

    pub fn tile_size(self) -> (r: usize)
        ensures
            r == self.tile_bytes(),
    {
        TILE_R * TILE_C * self.bytes_per_element()
    }
}

impl DType {
    /// How the elements are written in bits.
    pub open spec fn format(self) -> NumberFormat {
        match self {
            DType::Float32 => NumberFormat { class: NumberClass::Float, exponent: 8, mantissa: 23 },
            DType::Float16 => NumberFormat { class: NumberClass::Float, exponent: 5, mantissa: 10 },
            DType::Float16B => NumberFormat { class: NumberClass::Float, exponent: 8, mantissa: 7 },
            DType::Int32 => NumberFormat { class: NumberClass::Signed, exponent: 0, mantissa: 31 },
            DType::UInt16 => NumberFormat {
                class: NumberClass::Unsigned,
                exponent: 0,
                mantissa: 16,
            },
            DType::Int8 => NumberFormat { class: NumberClass::Signed, exponent: 0, mantissa: 7 },
            DType::UInt32 => NumberFormat {
                class: NumberClass::Unsigned,
                exponent: 0,
                mantissa: 32,
            },
            DType::UInt8 => NumberFormat { class: NumberClass::Unsigned, exponent: 0, mantissa: 8 },
        }
    }
}

/// The format that the device takes a number of a type for.
pub open spec fn format_of_code(code: u32) -> Option<NumberFormat> {
    if code == 0 {
        Some(NumberFormat { class: NumberClass::Float, exponent: 8, mantissa: 23 })
    } else if code == 1 {
        Some(NumberFormat { class: NumberClass::Float, exponent: 5, mantissa: 10 })
    } else if code == 5 {
        Some(NumberFormat { class: NumberClass::Float, exponent: 8, mantissa: 7 })
    } else if code == 8 {
        Some(NumberFormat { class: NumberClass::Signed, exponent: 0, mantissa: 31 })
    } else if code == 9 {
        Some(NumberFormat { class: NumberClass::Unsigned, exponent: 0, mantissa: 16 })
    } else if code == 14 {
        Some(NumberFormat { class: NumberClass::Signed, exponent: 0, mantissa: 7 })
    } else if code == 24 {
        Some(NumberFormat { class: NumberClass::Unsigned, exponent: 0, mantissa: 32 })
    } else if code == 30 {
        Some(NumberFormat { class: NumberClass::Unsigned, exponent: 0, mantissa: 8 })
    } else {
        None
    }
}

/// An element takes the bytes that its bits fill, and a tile those of its elements. The device
/// knows different types by different numbers and names.
pub proof fn lemma_format_width(d: DType, other: DType)
    ensures
        d.width() * 8 == d.format().bits(),
        d.tile_bytes() == 32 * (32 * d.width()),
        d.format() == other.format() ==> d == other,
        d.code() == other.code() ==> d == other,
        format_of_code(d.code()) == Some(d.format()),
{
    assert(d.width() == 1 || d.width() == 2 || d.width() == 4);
}

/// A dimension rounded up to whole tiles; an empty dimension takes one tile.
pub open spec fn tile_dim(value: int) -> int {
    arith::round_up(arith::max2(value, 1), 32)
}

/// The shape in memory of a tensor of shape `shape`: at least two dimensions,
/// the last two rounded up to whole tiles.
pub open spec fn tiled_shape(shape: Seq<usize>) -> Seq<usize> {
    if shape.len() == 0 {
        seq![32usize, 32usize]
    } else if shape.len() == 1 {
        seq![32usize, tile_dim(shape[0] as int) as usize]
    } else {
        shape.update(
            shape.len() - 2,
            tile_dim(shape[shape.len() - 2] as int) as usize,
        ).update(shape.len() - 1, tile_dim(shape[shape.len() - 1] as int) as usize)
    }
}

/// Why a shape has no shape in memory: a rounded dimension leaves the range.
pub open spec fn tiled_shape_refusal(shape: Seq<usize>) -> Option<error::Refusal> {
    if (shape.len() >= 1 && tile_dim(shape.last() as int) > usize::MAX) || (shape.len() >= 2
        && tile_dim(shape[shape.len() - 2] as int) > usize::MAX) {
        Some(error::invalid("shape dimension overflow"@))
    } else {
        None
    }
}

fn round_up_to_tile_dim(value: usize) -> (r: Result<usize, Error>)
    ensures
        match r {
            Ok(v) => v == tile_dim(value as int),
            Err(e) => tile_dim(value as int) > usize::MAX && e@ == error::invalid(
                "shape dimension overflow"@,
            ),
        },
{
    let v: usize = arith::max_usize(value, 1);
    proof {
        arith::lemma_ceil_div(v as int, 32);
        arith::lemma_round_up(v as int, 32);
    }
    match arith::div_ceil(v, 32).checked_mul(32) {
        Some(p) => Ok(p),
        None => Err(error::invalid_text("shape dimension overflow")),
    }
}

/// The tile-aligned shape in which a tensor is stored.
pub fn tiled_allocation_shape(shape: &[usize]) -> (r: Result<Vec<usize>, Error>)
    ensures
        match r {
            Ok(v) => tiled_shape_refusal(shape@) is None && v@ == tiled_shape(shape@),
            Err(e) => tiled_shape_refusal(shape@) == Some(e@),
        },
{
    let rank: usize = shape.len();
    if rank == 0 {
        let mut v: Vec<usize> = Vec::new();
        v.push(TILE_R);
        v.push(TILE_C);
        assert(v@ =~= tiled_shape(shape@));
        Ok(v)
    } else if rank == 1 {
        let cols: usize = round_up_to_tile_dim(shape[0])?;
        let mut v: Vec<usize> = Vec::new();
        v.push(TILE_R);
        v.push(cols);
        assert(v@ =~= tiled_shape(shape@));
        Ok(v)
    } else {
        let mut v: Vec<usize> = arith::copy_usizes(shape);
        let rows: usize = round_up_to_tile_dim(shape[rank - 2])?;
        let cols: usize = round_up_to_tile_dim(shape[rank - 1])?;
        v.set(rank - 2, rows);
        v.set(rank - 1, cols);
        Ok(v)
    }
}

/// The number of tiles of a tensor, or `None` where it leaves the range.
pub open spec fn tile_count(shape: Seq<usize>) -> Option<int> {
    let a = tiled_shape(shape);
    let per_batch = (a[a.len() - 2] / 32) * (a[a.len() - 1] / 32);
    if per_batch > usize::MAX {
        None
    } else {
        arith::checked_product(per_batch, arith::ints(a.take(a.len() - 2)))
    }
}

/// Why the tiles of a shape cannot be counted.
pub open spec fn tile_count_refusal(shape: Seq<usize>) -> Option<error::Refusal> {
    if tiled_shape_refusal(shape) is Some {
        tiled_shape_refusal(shape)
    } else if tile_count(shape) is None {
        Some(error::invalid("shape tile count is too large"@))
    } else {
        None
    }
}

/// The number of tiles that a tensor of the given shape takes.
pub fn tiled_shape_tile_count(shape: &[usize]) -> (r: Result<usize, Error>)
    ensures
        match r {
            Ok(n) => tile_count_refusal(shape@) is None && tile_count(shape@) == Some(n as int),
            Err(e) => tile_count_refusal(shape@) == Some(e@),
        },
{
    let allocation = tiled_allocation_shape(shape)?;
    let rank: usize = allocation.len();
    let rows: usize = allocation[rank - 2];
    let cols: usize = allocation[rank - 1];
    match (rows / TILE_R).checked_mul(cols / TILE_C) {
        Some(per_batch) => match arith::checked_mul_all(per_batch, allocation.as_slice(), rank - 2) {
            Some(n) => Ok(n),
            None => Err(error::invalid_text("shape tile count is too large")),
        },
        None => Err(error::invalid_text("shape tile count is too large")),
    }
}

/// The shape in memory is at least two-dimensional, and ends in whole tiles.
pub proof fn lemma_tiled_shape(shape: Seq<usize>)
    requires
        tiled_shape_refusal(shape) is None,
    ensures
        tiled_shape(shape).len() == arith::max2(shape.len() as int, 2),
        tiled_shape(shape).last() % 32 == 0,
        tiled_shape(shape).last() >= 32,
        tiled_shape(shape)[tiled_shape(shape).len() - 2] % 32 == 0,
        tiled_shape(shape)[tiled_shape(shape).len() - 2] >= 32,
{
    let n = shape.len() as int;
    if n >= 1 {
        arith::lemma_round_up(arith::max2(shape[n - 1] as int, 1), 32);
    }
    if n >= 2 {
        arith::lemma_round_up(arith::max2(shape[n - 2] as int, 1), 32);
    }
}

/// Rounding a shape that is already tiled changes nothing.
pub proof fn lemma_tiled_shape_idempotent(shape: Seq<usize>)
    requires
        tiled_shape_refusal(shape) is None,
    ensures
        tiled_shape_refusal(tiled_shape(shape)) is None,
        tiled_shape(tiled_shape(shape)) == tiled_shape(shape),
{
    lemma_tiled_shape(shape);
    let t = tiled_shape(shape);
    arith::lemma_round_up(t[t.len() - 1] as int, 32);
    arith::lemma_round_up(t[t.len() - 2] as int, 32);
    assert(tiled_shape(t) =~= t);
}

/// The number of tiles is the product of the tiles in each matrix and the outer dimensions.
pub proof fn lemma_tile_count_product(shape: Seq<usize>)
    requires
        tile_count_refusal(shape) is None,
    ensures
        ({
            let a = tiled_shape(shape);
            tile_count(shape) == Some(
                (a[a.len() - 2] / 32) * (a[a.len() - 1] / 32) * arith::product(
                    arith::ints(a.take(a.len() - 2)),
                ),
            )
        }),
{
    let a = tiled_shape(shape);
    arith::lemma_checked_product(
        (a[a.len() - 2] / 32) * (a[a.len() - 1] / 32),
        arith::ints(a.take(a.len() - 2)),
    );
}

/// A tensor in device memory.
#[derive(Clone, Debug)]
pub struct DramBuffer {
    pub name: String,
    pub addr: u64,
    pub num_tiles: usize,
    pub dtype: DType,
    /// Physical allocation shape. The last two dimensions are tile-aligned.
    pub shape: Vec<usize>,
}

impl DramBuffer {
    /// Whether two descriptions are of the same buffer.
    pub open spec fn same(&self, other: &DramBuffer) -> bool {
        &&& self.name@ == other.name@
        &&& self.addr == other.addr
        &&& self.num_tiles == other.num_tiles
        &&& self.dtype == other.dtype
        &&& self.shape@ == other.shape@
    }

    /// Bytes of one page: a tile.
    pub fn page_size(&self) -> (r: usize)
        ensures
            r == self.dtype.tile_bytes(),
    {
        self.dtype.tile_size()
    }

    /// Bytes of the whole buffer.
    pub fn size(&self) -> (r: usize)
        requires
            self.num_tiles * self.dtype.tile_bytes() <= usize::MAX,
        ensures
            r == self.num_tiles * self.dtype.tile_bytes(),
    {
        self.num_tiles * self.page_size()
    }

    pub fn copy(&self) -> (r: DramBuffer)
        ensures
            r.same(self),
    {
        DramBuffer {
            name: self.name.clone(),
            addr: self.addr,
            num_tiles: self.num_tiles,
            dtype: self.dtype,
            shape: arith::copy_usizes(self.shape.as_slice()),
        }
    }
}

impl PartialEq for DramBuffer {
    fn eq(&self, other: &DramBuffer) -> (r: bool) {
        self.name == other.name && self.addr == other.addr && self.num_tiles == other.num_tiles
            && self.dtype == other.dtype && arith::same_usizes(
            self.shape.as_slice(),
            other.shape.as_slice(),
        )
    }
}

impl vstd::std_specs::cmp::PartialEqSpecImpl for DramBuffer {
    open spec fn obeys_eq_spec() -> bool {
        true
    }

    open spec fn eq_spec(&self, other: &DramBuffer) -> bool {
        self.same(other)
    }
}

impl Eq for DramBuffer {

}

/// Why data of `len` bytes is no tensor of the given type and tiled shape.
pub open spec fn tiled_data_refusal(len: int, dtype: DType, shape: Seq<usize>) -> Option<
    error::Refusal,
> {
    let n = shape.len();
    if n < 2 {
        Some(error::invalid("shape must have at least two dimensions"@))
    } else if shape[n - 2] % 32 != 0 || shape[n - 1] % 32 != 0 {
        Some(error::invalid("shape rows/cols must be multiples of 32x32"@))
    } else if arith::checked_product(1, arith::ints(shape)) is None {
        Some(error::invalid("shape is too large"@))
    } else {
        let bytes = arith::product(arith::ints(shape)) * dtype.width();
        if bytes > usize::MAX {
            Some(error::invalid("shape byte size is too large"@))
        } else if len != bytes {
            Some(
                error::invalid(
                    "data length "@ + text::dec(len) + " does not match shape byte size "@
                        + text::dec(bytes),
                ),
            )
        } else {
            None
        }
    }
}

/// Checks data against a tiled shape; gives the number of matrices, their rows
/// and columns, and the length in bytes.
pub fn validate_tiled_shape(data: &[u8], dtype: DType, shape: &[usize]) -> (r: Result<
    (usize, usize, usize, usize),
    Error,
>)
    ensures
        match r {
            Ok((batch, rows, cols, len)) => {
                &&& tiled_data_refusal(data@.len() as int, dtype, shape@) is None
                &&& batch == arith::product(arith::ints(shape@.take(shape@.len() - 2)))
                &&& rows == shape@[shape@.len() - 2]
                &&& cols == shape@[shape@.len() - 1]
                &&& len == data@.len()
                &&& len == batch * rows * cols * dtype.width()
            },
            Err(e) => tiled_data_refusal(data@.len() as int, dtype, shape@) == Some(e@),
        },
{
    let rank: usize = shape.len();
    if rank < 2 {
        return Err(error::invalid_text("shape must have at least two dimensions"));
    }
    let rows: usize = shape[rank - 2];
    let cols: usize = shape[rank - 1];
    if rows % TILE_R != 0 || cols % TILE_C != 0 {
        return Err(error::invalid_text("shape rows/cols must be multiples of 32x32"));
    }
    let ghost all = arith::ints(shape@);
    let ghost outer = arith::ints(shape@.take(rank - 2));
    proof {
        assert(all.take(rank - 2) =~= outer);
        assert(shape@.take(rank as int) =~= shape@);
        if arith::checked_product(1, outer) is None {
            arith::lemma_checked_product_prefix(1, all, rank - 2);
        }
    }
    let batch: usize = match arith::checked_mul_all(1, shape, rank - 2) {
        Some(p) => p,
        None => {
            return Err(error::invalid_text("shape is too large"));
        },
    };
    let element_count: usize = match arith::checked_mul_all(1, shape, rank) {
        Some(p) => p,
        None => {
            return Err(error::invalid_text("shape is too large"));
        },
    };
    proof {
        arith::lemma_checked_product(1, outer);
        arith::lemma_checked_product(1, all);
        assert(all.drop_last().drop_last() =~= outer);
        assert(arith::product(all) == arith::product(outer) * rows * cols) by {
            reveal_with_fuel(arith::product, 3);
        }
    }
    match element_count.checked_mul(dtype.bytes_per_element()) {
        Some(expected_len) => {
            if data.len() != expected_len {
                return Err(
                    error::invalid_input(
                        text::cat4(
                            "data length ",
                            text::decimal_usize(data.len()).as_str(),
                            " does not match shape byte size ",
                            text::decimal_usize(expected_len).as_str(),
                        ),
                    ),
                );
            }
            Ok((batch, rows, cols, expected_len))
        },
        None => Err(error::invalid_text("shape byte size is too large")),
    }
}

/// Why `len` bytes are no whole tiles.
pub open spec fn tile_multiple_refusal(len: int, dtype: DType) -> Option<error::Refusal> {
    if len % dtype.tile_bytes() == 0 {
        None
    } else {
        Some(
            error::invalid(
                "data length "@ + text::dec(len) + " is not a multiple of tile size "@ + text::dec(
                    dtype.tile_bytes(),
                ),
            ),
        )
    }
}

pub fn validate_tile_multiple(len: usize, dtype: DType) -> (r: Result<(), Error>)
    ensures
        match r {
            Ok(_) => tile_multiple_refusal(len as int, dtype) is None,
            Err(e) => tile_multiple_refusal(len as int, dtype) == Some(e@),
        },
{
    if len % dtype.tile_size() == 0 {
        Ok(())
    } else {
        Err(
            error::invalid_input(
                text::cat4(
                    "data length ",
                    text::decimal_usize(len).as_str(),
                    " is not a multiple of tile size ",
                    text::decimal_usize(dtype.tile_size()).as_str(),
                ),
            ),
        )
    }
}

/// Why a buffer of `num_tiles` tiles cannot have the shape in memory `shape`.
pub open spec fn allocation_shape_refusal(num_tiles: int, shape: Seq<usize>) -> Option<
    error::Refusal,
> {
    if shape.len() < 2 {
        Some(error::invalid("dram buffer allocation shape must have at least two dimensions"@))
    } else if tiled_shape_refusal(shape) is Some {
        tiled_shape_refusal(shape)
    } else if shape != tiled_shape(shape) {
        Some(
            error::invalid(
                "dram buffer shape must be a tiled allocation shape, got "@ + text::list_text(
                    arith::ints(shape),
                ),
            ),
        )
    } else if tile_count_refusal(shape) is Some {
        tile_count_refusal(shape)
    } else if tile_count(shape) != Some(num_tiles) {
        Some(
            error::invalid(
                "dram buffer tile count mismatch: shape "@ + text::list_text(arith::ints(shape))
                    + " requires "@ + text::dec(tile_count(shape)->0) + " tiles, got "@ + text::dec(
                    num_tiles,
                ),
            ),
        )
    } else {
        None
    }
}

pub fn validate_allocation_shape(num_tiles: usize, shape: &[usize]) -> (r: Result<(), Error>)
    ensures
        match r {
            Ok(_) => allocation_shape_refusal(num_tiles as int, shape@) is None,
            Err(e) => allocation_shape_refusal(num_tiles as int, shape@) == Some(e@),
        },
{
    if shape.len() < 2 {
        return Err(
            error::invalid_text("dram buffer allocation shape must have at least two dimensions"),
        );
    }
    let tiled = tiled_allocation_shape(shape)?;
    if !arith::same_usizes(shape, tiled.as_slice()) {
        return Err(
            error::invalid_input(
                text::cat2(
                    "dram buffer shape must be a tiled allocation shape, got ",
                    text::shape_text(shape).as_str(),
                ),
            ),
        );
    }
    let shape_tiles: usize = tiled_shape_tile_count(shape)?;
    if shape_tiles != num_tiles {
        return Err(
            error::invalid_input(
                text::cat6(
                    "dram buffer tile count mismatch: shape ",
                    text::shape_text(shape).as_str(),
                    " requires ",
                    text::decimal_usize(shape_tiles).as_str(),
                    " tiles, got ",
                    text::decimal_usize(num_tiles).as_str(),
                ),
            ),
        );
    }
    Ok(())
}

} // verus!
