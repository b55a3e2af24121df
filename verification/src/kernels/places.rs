//! Where the elements of a tensor go when it is padded, broadcast or gathered from.

use vstd::prelude::*;
use crate::dram;
use crate::dram::DType;
use crate::error;
use crate::kernels::broadcast;
use crate::kernels::defines;
use crate::kernels::gather;
use crate::kernels::gather::{GatherMode, GatherShape, ReshapeSourceView};
use crate::kernels::lowering::RangeWords;
use crate::kernels::pad::Padding;

verus! {

/// Where an element of a padded dimension goes: behind what is put in front, and as far behind
/// the element before it as there are elements put between them.
pub open spec fn padded_place(low: int, interior: int, i: int) -> int {
    low + i * (interior + 1)
}

/// In a padded tensor every element has a place, elements keep their order, and behind the last
/// one stands just what is put at the end.
pub proof fn lemma_padding_places(p: Padding, d: int, i: int, j: int)
    requires
        p.form_refusal() is None,
        0 <= d < p.input.len(),
        0 <= i < j < p.input[d],
    ensures
        ({
            let place = |k: int| padded_place(p.low[d] as int, p.interior[d] as int, k);
            &&& 0 <= place(i) < place(j) < p.output[d]
            &&& place(0) == p.low[d]
            &&& place(p.input[d] - 1) + 1 + p.high[d] == p.output[d]
        }),
{
    error::lemma_first_refusal_none(0, p.input.len() as int, p.checks());
    assert(p.checks()(d) is None);
    let (n, low, high, gap) = (
        p.input[d] as int,
        p.low[d] as int,
        p.high[d] as int,
        p.interior[d] as int,
    );
    assert((n - 1) * (gap + 1) == (n - 1) * gap + (n - 1)) by (nonlinear_arith);
    assert(i * (gap + 1) < j * (gap + 1)) by (nonlinear_arith)
        requires
            i < j,
            gap >= 0,
    ;
    assert(j * (gap + 1) <= (n - 1) * (gap + 1)) by (nonlinear_arith)
        requires
            j <= n - 1,
            gap >= 0,
    ;
    assert(i * (gap + 1) >= 0) by (nonlinear_arith)
        requires
            i >= 0,
            gap >= 0,
    ;
    assert(0 * (gap + 1) == 0);
}

/// A padding that is carried out as a copy puts every element where it was, and there is no
/// other place.
pub proof fn lemma_padding_copies(p: Padding, d: int, i: int)
    requires
        p.form_refusal() is None,
        p.is_copy(),
        0 <= d < p.input.len(),
    ensures
        padded_place(p.low[d] as int, p.interior[d] as int, i) == i,
        p.output[d] == p.input[d],
{
    assert(p.low[d] == 0);
    assert(p.interior[d] == 0);
}

/// Where an element of a broadcast comes from: from the same place in every dimension that the
/// input has more than one element in, and from its only place in the others.
pub open spec fn broadcast_source(input: Seq<usize>, dimensions: Seq<i64>, at: Seq<int>) -> Seq<int> {
    Seq::new(
        input.len(),
        |k: int|
            if input[k] == 1 {
                0
            } else {
                at[dimensions[k] as int]
            },
    )
}

/// A broadcast takes every element from a place of the input. One that is carried out as a copy
/// takes it from its own place.
pub proof fn lemma_broadcast_sources(
    input: Seq<usize>,
    output: Seq<usize>,
    dimensions: Seq<i64>,
    at: Seq<int>,
)
    requires
        dimensions.len() == input.len(),
        error::first_refusal(
            0,
            dimensions.len() as int,
            broadcast::dimension_checks(input, output, dimensions),
        ) is None,
        at.len() == output.len(),
        forall|k: int| 0 <= k < at.len() ==> 0 <= #[trigger] at[k] < output[k],
    ensures
        forall|k: int|
            0 <= k < input.len() ==> 0 <= #[trigger] broadcast_source(input, dimensions, at)[k]
                < input[k],
        broadcast::is_copy(input, output, dimensions) ==> broadcast_source(input, dimensions, at)
            == at,
{
    let checks = broadcast::dimension_checks(input, output, dimensions);
    error::lemma_first_refusal_none(0, dimensions.len() as int, checks);
    let from = broadcast_source(input, dimensions, at);
    assert forall|k: int| 0 <= k < input.len() implies 0 <= #[trigger] from[k] < input[k] by {
        assert(checks(k) is None);
        let d = dimensions[k] as int;
        assert(0 <= at[d] < output[d]);
    }
    if broadcast::is_copy(input, output, dimensions) {
        assert forall|k: int| 0 <= k < at.len() implies from[k] == #[trigger] at[k] by {
            assert(dimensions[k] == k);
        }
        assert(from =~= at);
    }
}

/// A gather of whole rows is told the rows of both tensors and the tiles of a row of either. Its
/// cores share the rows of tiles, and each writes all tiles of its rows, so that all tiles of the
/// output are written. Any other gather has its cores share the tiles.
pub proof fn lemma_gather_words(
    s: GatherShape,
    operand: Seq<usize>,
    view: Option<ReshapeSourceView>,
    output: Seq<usize>,
    axis: int,
    dtype: DType,
)
    requires
        s.of(operand, view, output, axis, dtype),
        dram::tiled_shape_refusal(operand) is None,
        dram::tiled_shape_refusal(output) is None,
        dram::tile_count_refusal(output) is None,
        operand.len() == output.len(),
        forall|i: int|
            0 <= i < operand.len() ==> #[trigger] operand[i] <= u32::MAX && output[i] <= u32::MAX,
    ensures
        s.mode == GatherMode::Bf16Rows ==> {
            let tail = gather::reader_words(s).tail;
            &&& axis == 0
            &&& dtype == DType::Float16B
            &&& operand.len() == 2
            &&& tail.len() == 4
            &&& tail[0] == output[0]
            &&& tail[1] == defines::tiles_along(operand[1] as int)
            &&& tail[2] == defines::tiles_along(output[1] as int)
            &&& tail[3] == operand[0]
            &&& gather::writer_words(s).range == RangeWords::ScaledRange(tail[2])
            &&& gather::work_units(s) * tail[2] == s.output_tiles
        },
        s.mode != GatherMode::Bf16Rows ==> {
            &&& gather::writer_words(s).range == RangeWords::OffsetAndCount
            &&& gather::work_units(s) == s.output_tiles
        },
{
    defines::lemma_tile_grid(operand);
    defines::lemma_tile_grid(output);
    if s.mode == GatherMode::Bf16Rows {
        assert(operand.len() == 2);
        let front = crate::arith::ints(output.take(output.len() - 2));
        assert(front =~= Seq::<int>::empty());
        assert(crate::arith::product(front) == 1);
        let t = gather::reader_words(s).tail;
        assert(operand[0] <= u32::MAX && operand[1] <= u32::MAX);
    }
}

} // verus!
