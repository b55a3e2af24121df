//! Where elements stand in tiles, told by steps from one to the next.

use vstd::prelude::*;
use crate::dram::layout;

verus! {

/// The place in the tiled order of the element in row `r` and column `c`, where matrices of
/// `rows` rows and `cols` columns follow each other.
#[verifier::opaque]
pub open spec fn place(r: int, c: int, rows: int, cols: int) -> int {
    layout::tiled_element(r * cols + c, rows, cols)
}

/// The first element comes first. A step to the right within a face of sixteen columns is one
/// place, a step down within a face of sixteen rows is sixteen. The right half of a tile comes
/// a face behind the left one, the lower half two faces behind the upper one. The next tile of
/// a row comes a tile later, the next row of tiles as many tiles later as a row has.
pub proof fn lemma_steps(r: int, c: int, rows: int, cols: int)
    requires
        r >= 0,
        0 <= c < cols,
        cols % 32 == 0,
    ensures
        place(0, 0, rows, cols) == 0,
        c % 16 < 15 ==> place(r, c + 1, rows, cols) == place(r, c, rows, cols) + 1,
        r % 16 < 15 ==> place(r + 1, c, rows, cols) == place(r, c, rows, cols) + 16,
        c % 32 < 16 ==> place(r, c + 16, rows, cols) == place(r, c, rows, cols) + 256,
        r % 32 < 16 ==> place(r + 16, c, rows, cols) == place(r, c, rows, cols) + 512,
        c + 32 < cols ==> place(r, c + 32, rows, cols) == place(r, c, rows, cols) + 1024,
        place(r + 32, c, rows, cols) == place(r, c, rows, cols) + 1024 * (cols / 32),
{
    let t = cols / 32;
    assert((0int / 32) * t == 0) by (nonlinear_arith);
    lemma_place(0, 0, rows, cols);
    lemma_columns(r, c, rows, cols);
    lemma_rows(r, c, rows, cols);
}

proof fn lemma_columns(r: int, c: int, rows: int, cols: int)
    requires
        r >= 0,
        0 <= c < cols,
        cols % 32 == 0,
    ensures
        c % 16 < 15 ==> place(r, c + 1, rows, cols) == place(r, c, rows, cols) + 1,
        c % 32 < 16 ==> place(r, c + 16, rows, cols) == place(r, c, rows, cols) + 256,
        c + 32 < cols ==> place(r, c + 32, rows, cols) == place(r, c, rows, cols) + 1024,
{
    let above = (r / 32) * (cols / 32);
    lemma_place(r, c, rows, cols);
    if c % 16 < 15 {
        lemma_place(r, c + 1, rows, cols);
        assert((c + 1) / 32 == c / 32 && ((c + 1) % 32) / 16 == (c % 32) / 16 && (c + 1) % 16 == c
            % 16 + 1);
    }
    if c % 32 < 16 {
        lemma_place(r, c + 16, rows, cols);
        assert((c + 16) / 32 == c / 32 && ((c + 16) % 32) / 16 == 1 && (c % 32) / 16 == 0 && (c
            + 16) % 16 == c % 16);
    }
    if c + 32 < cols {
        lemma_place(r, c + 32, rows, cols);
        assert((c + 32) / 32 == c / 32 + 1 && (c + 32) % 32 == c % 32 && (c + 32) % 16 == c % 16);
    }
}

proof fn lemma_rows(r: int, c: int, rows: int, cols: int)
    requires
        r >= 0,
        0 <= c < cols,
        cols % 32 == 0,
    ensures
        r % 16 < 15 ==> place(r + 1, c, rows, cols) == place(r, c, rows, cols) + 16,
        r % 32 < 16 ==> place(r + 16, c, rows, cols) == place(r, c, rows, cols) + 512,
        place(r + 32, c, rows, cols) == place(r, c, rows, cols) + 1024 * (cols / 32),
{
    let t = cols / 32;
    let q = r / 32;
    lemma_place(r, c, rows, cols);
    if r % 16 < 15 {
        lemma_place(r + 1, c, rows, cols);
        assert((r + 1) / 32 == q && ((r + 1) % 32) / 16 == (r % 32) / 16 && (r + 1) % 16 == r % 16
            + 1);
    }
    if r % 32 < 16 {
        lemma_place(r + 16, c, rows, cols);
        assert((r + 16) / 32 == q && ((r + 16) % 32) / 16 == 1 && (r % 32) / 16 == 0 && (r + 16)
            % 16 == r % 16);
    }
    lemma_place(r + 32, c, rows, cols);
    assert((r + 32) / 32 == q + 1 && (r + 32) % 32 == r % 32 && (r + 32) % 16 == r % 16);
    assert((q + 1) * t == q * t + t) by (nonlinear_arith);
}

proof fn lemma_place(r: int, c: int, rows: int, cols: int)
    requires
        0 <= c < cols,
    ensures
        place(r, c, rows, cols) == ((r / 32) * (cols / 32) + c / 32) * 1024 + (((r % 32) / 16) * 2
            + (c % 32) / 16) * 256 + (r % 16) * 16 + c % 16,
{
    reveal(place);
    layout::lemma_div_mod(r, cols, c);
}

/// Bytes that are put into the tiled order are found at the place of their element: byte `i`
/// of the element in row `r` and column `c` is byte `i` of the element at its place.
pub proof fn lemma_tilized_byte(
    data: Seq<u8>,
    width: int,
    batch: int,
    rows: int,
    cols: int,
    r: int,
    c: int,
    i: int,
)
    requires
        batch >= 0,
        rows >= 0,
        cols >= 0,
        rows % 32 == 0,
        cols % 32 == 0,
        data.len() == batch * rows * cols * width,
        0 <= r < batch * rows,
        0 <= c < cols,
        0 <= i < width,
    ensures
        layout::tilized(data, width, rows, cols)[place(r, c, rows, cols) * width + i] == data[(r
            * cols + c) * width + i],
        layout::untilized(data, width, rows, cols)[(r * cols + c) * width + i] == data[place(
            r,
            c,
            rows,
            cols,
        ) * width + i],
{
    reveal(place);
    let s = r * cols + c;
    layout::lemma_below(r, batch * rows, cols, c);
    layout::lemma_tiled_source(s, batch, rows, cols);
    let e = place(r, c, rows, cols);
    let total = batch * rows * cols;
    layout::lemma_div_mod(e, width, i);
    layout::lemma_div_mod(s, width, i);
    layout::lemma_below(e, total, width, i);
    layout::lemma_below(s, total, width, i);
}

} // verus!
