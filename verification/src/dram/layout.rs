//! Reordering of row-major tensors into tiles and back.

use vstd::prelude::*;
use vstd::arithmetic::div_mod::*;
use vstd::arithmetic::mul::*;
use crate::dram;
use crate::dram::DType;
use crate::error::Error;

verus! {

/// The row-major index of the element that stands at position `e` of the tiled
/// order. Tiles follow each other row by row; a tile holds four faces of
/// sixteen by sixteen elements, each stored row by row.
pub open spec fn source_element(e: int, rows: int, cols: int) -> int {
    let tile = e / 1024;
    let within = e % 1024;
    let face = within / 256;
    let tile_row = tile / (cols / 32);
    let tile_col = tile % (cols / 32);
    let row = tile_row * 32 + (face / 2) * 16 + (within % 256) / 16;
    let col = tile_col * 32 + (face % 2) * 16 + within % 16;
    row * cols + col
}

/// The position in the tiled order of the element with row-major index `s`.
pub open spec fn tiled_element(s: int, rows: int, cols: int) -> int {
    let row = s / cols;
    let col = s % cols;
    let tile = (row / 32) * (cols / 32) + col / 32;
    let face = ((row % 32) / 16) * 2 + (col % 32) / 16;
    tile * 1024 + face * 256 + (row % 16) * 16 + col % 16
}

/// Division and remainder of `q * n + r`.
pub proof fn lemma_div_mod(q: int, n: int, r: int)
    requires
        0 <= r < n,
    ensures
        (q * n + r) / n == q,
        (q * n + r) % n == r,
{
    lemma_fundamental_div_mod_converse(q * n + r, n, q, r);
}

/// `q * n + r` stays below `limit * n`.
pub proof fn lemma_below(q: int, limit: int, n: int, r: int)
    requires
        0 <= q < limit,
        0 <= r < n,
    ensures
        0 <= q * n + r < limit * n,
{
    assert(0 <= q * n + r < limit * n) by (nonlinear_arith)
        requires
            0 <= q < limit,
            0 <= r < n,
    ;
}

/// Where an element stands within its tile, read back digit by digit.
proof fn lemma_face_digits(row: int, col: int)
    requires
        row >= 0,
        col >= 0,
    ensures
        ({
            let face = ((row % 32) / 16) * 2 + (col % 32) / 16;
            let within = face * 256 + (row % 16) * 16 + col % 16;
            &&& 0 <= within < 1024
            &&& within / 256 == face
            &&& (within % 256) / 16 == row % 16
            &&& within % 16 == col % 16
            &&& row == (row / 32) * 32 + (face / 2) * 16 + row % 16
            &&& col == (col / 32) * 32 + (face % 2) * 16 + col % 16
        }),
{
    let high = (row % 32) / 16;
    let side = (col % 32) / 16;
    let face = high * 2 + side;
    let low = (row % 16) * 16 + col % 16;
    assert(0 <= high < 2 && 0 <= side < 2);
    assert(face / 2 == high && face % 2 == side);
    lemma_div_mod(face, 256, low);
    assert(low / 16 == row % 16 && low % 16 == col % 16);
    assert(face * 256 == (face * 16) * 16);
    lemma_div_mod(face * 16 + row % 16, 16, col % 16);
}

/// The two index maps are inverse to each other on a stack of `batch` matrices.
pub proof fn lemma_tiled_source(s: int, batch: int, rows: int, cols: int)
    requires
        batch >= 0,
        rows >= 0,
        cols >= 0,
        rows % 32 == 0,
        cols % 32 == 0,
        0 <= s < batch * rows * cols,
    ensures
        0 <= tiled_element(s, rows, cols) < batch * rows * cols,
        source_element(tiled_element(s, rows, cols), rows, cols) == s,
{
    lemma_shape(batch, rows, cols);
    let t = cols / 32;
    let row = s / cols;
    let col = s % cols;
    assert(cols > 0) by (nonlinear_arith)
        requires
            0 <= s < batch * rows * cols,
            cols >= 0,
    ;
    lemma_fundamental_div_mod(s, cols);
    assert(cols * row == row * cols) by (nonlinear_arith);
    assert(0 <= row < batch * rows) by (nonlinear_arith)
        requires
            s == row * cols + col,
            0 <= col < cols,
            0 <= s < batch * rows * cols,
    ;
    let tile = (row / 32) * t + col / 32;
    let face = ((row % 32) / 16) * 2 + (col % 32) / 16;
    let within = face * 256 + (row % 16) * 16 + col % 16;
    lemma_face_digits(row, col);
    lemma_div_mod(row / 32, t, col / 32);
    lemma_div_mod(tile, 1024, within);
    lemma_below(row / 32, batch * rows / 32, t, col / 32);
    lemma_below(tile, (batch * rows / 32) * t, 1024, within);
    let e = tiled_element(s, rows, cols);
    assert(e == tile * 1024 + within);
    assert(source_element(e, rows, cols) == row * cols + col);
}

/// The two index maps are inverse to each other on a stack of `batch` matrices.
pub proof fn lemma_source_tiled(e: int, batch: int, rows: int, cols: int)
    requires
        batch >= 0,
        rows >= 0,
        cols >= 0,
        rows % 32 == 0,
        cols % 32 == 0,
        0 <= e < batch * rows * cols,
    ensures
        0 <= source_element(e, rows, cols) < batch * rows * cols,
        tiled_element(source_element(e, rows, cols), rows, cols) == e,
{
    lemma_shape(batch, rows, cols);
    let t = cols / 32;
    let tile = e / 1024;
    let within = e % 1024;
    let face = within / 256;
    let big = batch * rows / 32;
    assert(tile < big * t);
    assert(t > 0) by (nonlinear_arith)
        requires
            0 <= tile < big * t,
            cols >= 0,
            t == cols / 32,
    ;
    let tile_row = tile / t;
    let tile_col = tile % t;
    lemma_fundamental_div_mod(tile, t);
    assert(t * tile_row == tile_row * t) by (nonlinear_arith);
    assert(0 <= tile_row < big) by (nonlinear_arith)
        requires
            tile == tile_row * t + tile_col,
            0 <= tile_col < t,
            0 <= tile < big * t,
    ;
    let row = tile_row * 32 + (face / 2) * 16 + (within % 256) / 16;
    let col = tile_col * 32 + (face % 2) * 16 + within % 16;
    assert(0 <= col < cols);
    assert(0 <= row < batch * rows);
    lemma_below(row, batch * rows, cols, col);
    lemma_div_mod(row, cols, col);
    assert(row / 32 == tile_row && col / 32 == tile_col);
}

proof fn lemma_shape(batch: int, rows: int, cols: int)
    requires
        batch >= 0,
        rows >= 0,
        cols >= 0,
        rows % 32 == 0,
        cols % 32 == 0,
    ensures
        batch * rows >= 0,
        batch * rows % 32 == 0,
        (batch * rows / 32) * (cols / 32) * 1024 == batch * rows * cols,
{
    assert(batch * rows >= 0) by (nonlinear_arith)
        requires
            batch >= 0,
            rows >= 0,
    ;
    let k = rows / 32;
    assert(rows == k * 32);
    assert(batch * rows == (batch * k) * 32) by (nonlinear_arith)
        requires
            rows == k * 32,
    ;
    let t = cols / 32;
    let b = batch * rows / 32;
    assert(b * t * 1024 == (b * 32) * (t * 32)) by (nonlinear_arith);
}

/// The bytes of `data`, reordered element by element into the tiled order.
pub open spec fn tilized(data: Seq<u8>, width: int, rows: int, cols: int) -> Seq<u8> {
    Seq::new(
        data.len(),
        |k: int| data[source_element(k / width, rows, cols) * width + k % width],
    )
}

/// The bytes of `data`, reordered element by element into the row-major order.
pub open spec fn untilized(data: Seq<u8>, width: int, rows: int, cols: int) -> Seq<u8> {
    Seq::new(
        data.len(),
        |k: int| data[tiled_element(k / width, rows, cols) * width + k % width],
    )
}

proof fn lemma_byte(k: int, count: int, width: int)
    requires
        0 <= k < count * width,
        width > 0,
    ensures
        0 <= k / width < count,
        0 <= k % width < width,
        k == (k / width) * width + k % width,
{
    lemma_fundamental_div_mod(k, width);
    assert(width * (k / width) == (k / width) * width) by (nonlinear_arith);
    assert(0 <= k / width < count) by (nonlinear_arith)
        requires
            k == (k / width) * width + k % width,
            0 <= k % width < width,
            0 <= k < count * width,
    ;
}

/// Untilizing undoes tilizing.
pub proof fn lemma_untilize_tilize(data: Seq<u8>, width: int, batch: int, rows: int, cols: int)
    requires
        batch >= 0,
        rows >= 0,
        cols >= 0,
        rows % 32 == 0,
        cols % 32 == 0,
        width > 0,
        data.len() == batch * rows * cols * width,
    ensures
        untilized(tilized(data, width, rows, cols), width, rows, cols) == data,
{
    let count = batch * rows * cols;
    let t = tilized(data, width, rows, cols);
    let u = untilized(t, width, rows, cols);
    assert forall|k: int| 0 <= k < data.len() implies #[trigger] u[k] == data[k] by {
        lemma_byte(k, count, width);
        let e = tiled_element(k / width, rows, cols);
        lemma_tiled_source(k / width, batch, rows, cols);
        lemma_below(e, count, width, k % width);
        lemma_div_mod(e, width, k % width);
    }
    assert(u =~= data);
}

/// Tilizing undoes untilizing.
pub proof fn lemma_tilize_untilize(data: Seq<u8>, width: int, batch: int, rows: int, cols: int)
    requires
        batch >= 0,
        rows >= 0,
        cols >= 0,
        rows % 32 == 0,
        cols % 32 == 0,
        width > 0,
        data.len() == batch * rows * cols * width,
    ensures
        tilized(untilized(data, width, rows, cols), width, rows, cols) == data,
{
    let count = batch * rows * cols;
    let u = untilized(data, width, rows, cols);
    let t = tilized(u, width, rows, cols);
    assert forall|k: int| 0 <= k < data.len() implies #[trigger] t[k] == data[k] by {
        lemma_byte(k, count, width);
        let s = source_element(k / width, rows, cols);
        lemma_source_tiled(k / width, batch, rows, cols);
        lemma_below(s, count, width, k % width);
        lemma_div_mod(s, width, k % width);
    }
    assert(t =~= data);
}

fn source_index(e: usize, cols: usize, Ghost(batch): Ghost<int>, Ghost(rows): Ghost<int>) -> (r: usize)
    requires
        batch >= 0,
        rows >= 0,
        rows % 32 == 0,
        cols % 32 == 0,
        0 <= e < batch * rows * cols <= usize::MAX,
    ensures
        r == source_element(e as int, rows, cols as int),
        r < batch * rows * cols,
{
    proof {
        lemma_source_tiled(e as int, batch, rows, cols as int);
        lemma_shape(batch, rows, cols as int);
        assert(cols > 0) by (nonlinear_arith)
            requires
                0 <= e < batch * rows * cols,
                cols >= 0,
        ;
    }
    let tile: usize = e / 1024;
    let within: usize = e % 1024;
    let face: usize = within / 256;
    let tiles_per_row: usize = cols / 32;
    let tile_row: usize = tile / tiles_per_row;
    let tile_col: usize = tile % tiles_per_row;
    let ghost row_s = tile_row * 32 + (face / 2) * 16 + (within % 256) / 16;
    let ghost col_s = tile_col * 32 + (face % 2) * 16 + within % 16;
    proof {
        assert(source_element(e as int, rows, cols as int) == row_s * cols + col_s);
        assert(row_s * cols >= row_s) by (nonlinear_arith)
            requires
                row_s >= 0,
                cols > 0,
        ;
        assert(row_s * cols >= 0);
    }
    let row: usize = tile_row * 32 + (face / 2) * 16 + (within % 256) / 16;
    let col: usize = tile_col * 32 + (face % 2) * 16 + within % 16;
    row * cols + col
}

/// Reorders row-major data into tiles.
pub fn tilize(data: &[u8], dtype: DType, shape: &[usize]) -> (r: Result<Vec<u8>, Error>)
    ensures
        match r {
            Ok(out) => {
                &&& dram::tiled_data_refusal(data@.len() as int, dtype, shape@) is None
                &&& out@ == tilized(
                    data@,
                    dtype.width(),
                    shape@[shape@.len() - 2] as int,
                    shape@[shape@.len() - 1] as int,
                )
            },
            Err(e) => dram::tiled_data_refusal(data@.len() as int, dtype, shape@) == Some(e@),
        },
{
    let (batch, rows, cols, len) = dram::validate_tiled_shape(data, dtype, shape)?;
    let width: usize = dtype.bytes_per_element();
    let ghost count = batch * rows * cols;
    let mut out: Vec<u8> = Vec::new();
    proof {
        lemma_count(batch as int, rows as int, cols as int, width as int);
        lemma_div_multiples_vanish(count, width as int);
    }
    let n: usize = len / width;
    let ghost want = tilized(data@, width as int, rows as int, cols as int);
    proof {
        assert(width * count == count * width) by (nonlinear_arith);
    }
    for e in 0..n
        invariant
            n == count,
            len == data@.len() == count * width,
            count == batch * rows * cols,
            count <= usize::MAX,
            width == dtype.width(),
            rows % 32 == 0,
            cols % 32 == 0,
            want == tilized(data@, width as int, rows as int, cols as int),
            out@.len() == e * width,
            forall|k: int| 0 <= k < e * width ==> out@[k] == want[k],
    {
        let s: usize = source_index(e, cols, Ghost(batch as int), Ghost(rows as int));
        proof {
            lemma_below(s as int, count, width as int, 0);
            lemma_below(e as int, count, width as int, 0);
            assert(s * width + width <= count * width) by (nonlinear_arith)
                requires
                    s < count,
            ;
        }
        let base: usize = s * width;
        for b in 0..width
            invariant
                base == s * width,
                s == source_element(e as int, rows as int, cols as int),
                base + width <= data@.len(),
                want == tilized(data@, width as int, rows as int, cols as int),
                width == dtype.width(),
                out@.len() == e * width + b,
                e < count,
                data@.len() == count * width,
                forall|k: int| 0 <= k < e * width + b ==> out@[k] == want[k],
        {
            proof {
                lemma_div_mod(e as int, width as int, b as int);
                lemma_below(e as int, count, width as int, b as int);
            }
            out.push(data[base + b]);
        }
        assert(e * width + width == (e + 1) * width) by (nonlinear_arith);
    }
    assert(out@ =~= want);
    Ok(out)
}

proof fn lemma_count(batch: int, rows: int, cols: int, width: int)
    requires
        batch >= 0,
        rows >= 0,
        cols >= 0,
        width >= 1,
    ensures
        0 <= batch * rows * cols <= batch * rows * cols * width,
{
    let c = batch * rows * cols;
    assert(c >= 0) by (nonlinear_arith)
        requires
            batch >= 0,
            rows >= 0,
            cols >= 0,
            c == batch * rows * cols,
    ;
    assert(c <= c * width) by (nonlinear_arith)
        requires
            c >= 0,
            width >= 1,
    ;
}

/// Reorders tiles into row-major data.
pub fn untilize(data: &[u8], dtype: DType, shape: &[usize]) -> (r: Result<Vec<u8>, Error>)
    ensures
        match r {
            Ok(out) => {
                &&& dram::tiled_data_refusal(data@.len() as int, dtype, shape@) is None
                &&& out@ == untilized(
                    data@,
                    dtype.width(),
                    shape@[shape@.len() - 2] as int,
                    shape@[shape@.len() - 1] as int,
                )
            },
            Err(e) => dram::tiled_data_refusal(data@.len() as int, dtype, shape@) == Some(e@),
        },
{
    let (batch, rows, cols, len) = dram::validate_tiled_shape(data, dtype, shape)?;
    let width: usize = dtype.bytes_per_element();
    let ghost count = batch * rows * cols;
    let mut out: Vec<u8> = vec![0u8; len];
    proof {
        lemma_count(batch as int, rows as int, cols as int, width as int);
        lemma_div_multiples_vanish(count, width as int);
        assert(width * count == count * width) by (nonlinear_arith);
    }
    let n: usize = len / width;
    let ghost want = untilized(data@, width as int, rows as int, cols as int);
    for e in 0..n
        invariant
            n == count,
            len == data@.len() == count * width,
            count == batch * rows * cols,
            count <= usize::MAX,
            width == dtype.width(),
            rows % 32 == 0,
            cols % 32 == 0,
            want == untilized(data@, width as int, rows as int, cols as int),
            out@.len() == len,
            forall|k: int|
                0 <= k < len && tiled_element(k / width as int, rows as int, cols as int) < e
                    ==> #[trigger] out@[k] == want[k],
    {
        let s: usize = source_index(e, cols, Ghost(batch as int), Ghost(rows as int));
        proof {
            lemma_source_tiled(e as int, batch as int, rows as int, cols as int);
            lemma_below(s as int, count, width as int, 0);
            lemma_below(e as int, count, width as int, 0);
            assert(s * width + width <= count * width) by (nonlinear_arith)
                requires
                    s < count,
            ;
            assert(e * width + width <= count * width) by (nonlinear_arith)
                requires
                    e < count,
            ;
        }
        let target: usize = s * width;
        let cursor: usize = e * width;
        let ghost before = out@;
        for b in 0..width
            invariant
                target == s * width,
                cursor == e * width,
                target + width <= len,
                cursor + width <= len,
                width == dtype.width(),
                out@.len() == len == data@.len(),
                before.len() == len,
                forall|k: int| 0 <= k < len && !(target <= k < target + b) ==> out@[k] == before[k],
                forall|k: int| target <= k < target + b ==> out@[k] == data@[cursor + (k - target)],
        {
            out.set(target + b, data[cursor + b]);
        }
        assert forall|k: int|
            0 <= k < len && tiled_element(k / width as int, rows as int, cols as int) < e
                + 1 implies #[trigger] out@[k] == want[k] by {
            lemma_byte(k, count, width as int);
            let s2 = k / width as int;
            lemma_tiled_source(s2, batch as int, rows as int, cols as int);
            if target <= k < target + width {
                lemma_div_mod(s as int, width as int, k - target);
            } else {
                if tiled_element(s2, rows as int, cols as int) == e {
                    assert(s2 == s);
                }
                assert(before[k] == want[k]);
            }
        }
    }
    assert forall|k: int| 0 <= k < len implies #[trigger] out@[k] == want[k] by {
        lemma_byte(k, count, width as int);
        lemma_tiled_source(k / width as int, batch as int, rows as int, cols as int);
    }
    assert(out@ =~= want);
    Ok(out)
}

} // verus!
