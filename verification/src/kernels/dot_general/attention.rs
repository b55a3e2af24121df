//! The products of attention among all products.

use vstd::prelude::*;
use crate::arith;
use crate::convert;
use crate::dram::DType;
use crate::kernels::common;
use crate::kernels::defines;
use crate::kernels::dot_general::dpa;
use crate::kernels::dot_general::dpa::DpaScoreShape;
use crate::kernels::dot_general::dpa_value;
use crate::kernels::dot_general::dpa_value::DpaValueShape;
use crate::kernels::dot_general::Product;
use crate::kernels::lowering::RangeWords;

verus! {

/// The sizes of the listed dimensions.
pub open spec fn sizes(shape: Seq<usize>, listed: Seq<int>) -> Seq<usize> {
    listed.map_values(|d: int| shape[d])
}

/// Whether `free` lists the dimensions that are neither batch nor contracting ones, in order.
pub open spec fn are_free(free: Seq<int>, rank: int, batch: Seq<i64>, contract: Seq<i64>) -> bool {
    &&& forall|i: int, j: int|
        0 <= i < j < free.len() ==> #[trigger] free[i] < #[trigger] free[j]
    &&& forall|d: int|
        #[trigger] free.contains(d) <==> 0 <= d < rank && !batch.contains(d as i64)
            && !contract.contains(d as i64)
}

/// Whether two dimensions are multiplied element by element.
pub open spec fn paired(p: Product, a: Seq<i64>, b: Seq<i64>) -> bool {
    &&& a.len() == b.len()
    &&& forall|i: int|
        0 <= i < a.len() ==> 0 <= #[trigger] a[i] < p.lhs.len() && 0 <= b[i] < p.rhs.len()
            && p.lhs[a[i] as int] == p.rhs[b[i] as int]
}

/// Whether shapes are those of a product: batch and contracting dimensions have the same sizes
/// on both sides, and the output has the batch dimensions, then the free ones of the left
/// operand, then those of the right one.
pub open spec fn is_product(p: Product) -> bool {
    &&& paired(p, p.lhs_batch, p.rhs_batch)
    &&& paired(p, p.lhs_contract, p.rhs_contract)
    &&& exists|l: Seq<int>, r: Seq<int>|
        {
            &&& #[trigger] are_free(l, p.lhs.len() as int, p.lhs_batch, p.lhs_contract)
            &&& #[trigger] are_free(r, p.rhs.len() as int, p.rhs_batch, p.rhs_contract)
            &&& p.out == p.lhs_batch.map_values(|d: i64| p.lhs[d as int]) + sizes(p.lhs, l) + sizes(
                p.rhs,
                r,
            )
        }
}

/// The kernel of the scores is used for products only.
pub proof fn lemma_score_is_product(p: Product, lhs_dtype: DType, rhs_dtype: DType)
    requires
        dpa::is_score(p, lhs_dtype, rhs_dtype),
    ensures
        is_product(p),
{
    let l = seq![1int, 3];
    let r = seq![1int];
    assert(p.lhs_batch[0] == 0 && p.lhs_batch[1] == 2 && p.lhs_contract[0] == 4);
    assert(p.rhs_batch[0] == 0 && p.rhs_batch[1] == 2 && p.rhs_contract[0] == 3);
    assert forall|d: int|
        #[trigger] l.contains(d) <==> 0 <= d < 5 && !p.lhs_batch.contains(d as i64)
            && !p.lhs_contract.contains(d as i64) by {
        assert(l[0] == 1 && l[1] == 3);
        if 0 <= d < 5 {
            assert(d == 0 || d == 1 || d == 2 || d == 3 || d == 4);
        }
    }
    assert forall|d: int|
        #[trigger] r.contains(d) <==> 0 <= d < 4 && !p.rhs_batch.contains(d as i64)
            && !p.rhs_contract.contains(d as i64) by {
        assert(r[0] == 1);
        if 0 <= d < 4 {
            assert(d == 0 || d == 1 || d == 2 || d == 3);
        }
    }
    assert(are_free(l, 5, p.lhs_batch, p.lhs_contract));
    assert(are_free(r, 4, p.rhs_batch, p.rhs_contract));
    assert(p.out =~= p.lhs_batch.map_values(|d: i64| p.lhs[d as int]) + sizes(p.lhs, l) + sizes(
        p.rhs,
        r,
    ));
}

/// The kernel of the values is used for products only.
pub proof fn lemma_value_is_product(p: Product, lhs_dtype: DType, rhs_dtype: DType)
    requires
        dpa_value::is_value(p, lhs_dtype, rhs_dtype),
    ensures
        is_product(p),
{
    let l = seq![3int];
    let r = seq![0int, 3];
    assert(p.lhs_batch[0] == 0 && p.lhs_batch[1] == 2 && p.lhs_contract[0] == 1);
    assert(p.rhs_batch[0] == 1 && p.rhs_batch[1] == 2 && p.rhs_contract[0] == 4);
    assert forall|d: int|
        #[trigger] l.contains(d) <==> 0 <= d < 4 && !p.lhs_batch.contains(d as i64)
            && !p.lhs_contract.contains(d as i64) by {
        assert(l[0] == 3);
        if 0 <= d < 4 {
            assert(d == 0 || d == 1 || d == 2 || d == 3);
        }
    }
    assert forall|d: int|
        #[trigger] r.contains(d) <==> 0 <= d < 5 && !p.rhs_batch.contains(d as i64)
            && !p.rhs_contract.contains(d as i64) by {
        assert(r[0] == 0 && r[1] == 3);
        if 0 <= d < 5 {
            assert(d == 0 || d == 1 || d == 2 || d == 3 || d == 4);
        }
    }
    assert(are_free(l, 4, p.lhs_batch, p.lhs_contract));
    assert(are_free(r, 5, p.rhs_batch, p.rhs_contract));
    assert(p.out =~= p.lhs_batch.map_values(|d: i64| p.lhs[d as int]) + sizes(p.lhs, l) + sizes(
        p.rhs,
        r,
    ));
}

/// The kernel of the scores is told the sizes of its output and of the dimension that it sums
/// over, and how many tiles it takes to hold them. All its work is the tiles of the output.
pub proof fn lemma_score_words(
    p: Product,
    lhs_dtype: DType,
    rhs_dtype: DType,
    s: DpaScoreShape,
)
    requires
        dpa::score_taken(p, lhs_dtype, rhs_dtype),
        dpa::score_refusal(p, lhs_dtype, rhs_dtype) is None,
        s.words() == convert::field_words(dpa::score_values(p)),
    ensures
        ({
            let reader = dpa::score_reader(s).tail;
            let (batch, heads, queries, groups, keys) = (
                p.out[0] as int,
                p.out[1] as int,
                p.out[2] as int,
                p.out[3] as int,
                p.out[4] as int,
            );
            let head = p.lhs[p.lhs_contract[0] as int] as int;
            &&& reader[0] == queries
            &&& reader[1] == keys
            &&& reader[2] == heads
            &&& reader[3] == groups
            &&& reader[4] == head
            &&& reader[5] == defines::tiles_along(head)
            &&& reader[6] == defines::tiles_along(head)
            &&& reader[7] == defines::tiles_along(keys)
            &&& reader[8] == defines::tiles_along(head)
            &&& dpa::score_compute(s).head == seq![reader[8]]
            &&& s.output_tile_count == batch * heads * queries * defines::tiles_along(keys)
        }),
{
    let values = dpa::score_values(p);
    convert::lemma_narrowed(values, dpa::score_names());
    let w = convert::field_words(values);
    assert(forall|i: int| 0 <= i < 10 ==> #[trigger] s.words()[i] == w[i]);
    assert(w[0] == values[0] && w[1] == values[1] && w[2] == values[2] && w[3] == values[3] && w[4]
        == values[4] && w[5] == values[5] && w[6] == values[6] && w[7] == values[7] && w[8]
        == values[8] && w[9] == values[9]);
    assert(s.words()[0] == w[0] && s.words()[1] == w[1] && s.words()[2] == w[2] && s.words()[3]
        == w[3] && s.words()[4] == w[4] && s.words()[5] == w[5] && s.words()[6] == w[6]
        && s.words()[7] == w[7] && s.words()[8] == w[8] && s.words()[9] == w[9]);
    defines::lemma_tile_grid(p.lhs);
    defines::lemma_tile_grid(p.rhs);
    defines::lemma_tile_grid(p.out);
    lemma_three(p.out);
    let t = defines::tiles_along(p.out[4] as int);
    let prod = p.out[0] * p.out[1] * p.out[2];
    assert(1 * t * prod == prod * t) by (nonlinear_arith);
}

/// The sizes in front of the last two are multiplied.
proof fn lemma_three(shape: Seq<usize>)
    requires
        shape.len() == 5,
    ensures
        arith::product(arith::ints(shape.take(shape.len() - 2))) == shape[0] * shape[1] * shape[2],
{
    let a = arith::ints(shape.take(3));
    assert(a =~= seq![shape[0] as int, shape[1] as int, shape[2] as int]);
    reveal_with_fuel(arith::product, 4);
    assert(a.drop_last() =~= seq![shape[0] as int, shape[1] as int]);
    assert(a.drop_last().drop_last() =~= seq![shape[0] as int]);
    assert(a.drop_last().drop_last().drop_last() =~= Seq::<int>::empty());
}

/// The kernel of the values is told the sizes of its output and of the dimension that it sums
/// over, and how many tiles it takes to hold them. Each core computes its tiles for each group.
pub proof fn lemma_value_words(
    p: Product,
    lhs_dtype: DType,
    rhs_dtype: DType,
    s: DpaValueShape,
)
    requires
        dpa_value::value_taken(p, lhs_dtype, rhs_dtype),
        dpa_value::value_refusal(p, lhs_dtype, rhs_dtype) is None,
        s.words() == convert::field_words(dpa_value::value_values(p)),
    ensures
        ({
            let reader = dpa_value::value_reader(s).tail;
            let writer = dpa_value::value_writer(s).tail;
            let (batch, heads, head, groups, queries) = (
                p.out[0] as int,
                p.out[1] as int,
                p.out[2] as int,
                p.out[3] as int,
                p.out[4] as int,
            );
            let keys = p.lhs[p.lhs_contract[0] as int] as int;
            &&& reader[0] == keys
            &&& reader[1] == queries
            &&& reader[2] == heads
            &&& reader[3] == groups
            &&& reader[4] == head
            &&& reader[5] == defines::tiles_along(head)
            &&& reader[6] == defines::tiles_along(head)
            &&& reader[7] == defines::tiles_along(queries)
            &&& reader[8] == defines::tiles_along(keys)
            &&& reader[9] == defines::tiles_along(queries)
            &&& reader[10] == defines::tiles_along(keys)
            &&& reader[11] == batch
            &&& writer[0] == groups
            &&& writer[1] == queries
            &&& writer[2] == heads
            &&& writer[3] == head
            &&& writer[4] == defines::tiles_along(head)
            &&& writer[5] == defines::tiles_along(queries)
            &&& dpa_value::value_compute(s).head == seq![reader[10]]
            &&& dpa_value::value_compute(s).range == RangeWords::ScaledCount(reader[3])
            &&& s.work_tile_count == batch * heads * defines::tiles_along(head)
                * defines::tiles_along(queries)
        }),
{
    let values = dpa_value::value_values(p);
    convert::lemma_narrowed(values, dpa_value::value_names());
    let w = convert::field_words(values);
    let sw = s.words();
    assert(w[0] == values[0] && w[1] == values[1] && w[2] == values[2] && w[3] == values[3] && w[4]
        == values[4] && w[5] == values[5] && w[6] == values[6] && w[7] == values[7] && w[8]
        == values[8] && w[9] == values[9] && w[10] == values[10] && w[11] == values[11] && w[12]
        == values[12]);
    assert(sw[0] == s.work_tile_count && sw[1] == s.batch && sw[2] == s.key_tokens && sw[3]
        == s.query_tokens && sw[4] == s.kv_heads && sw[5] == s.groups && sw[6] == s.head_dim
        && sw[7] == s.head_tiles && sw[8] == s.lhs_tiles_per_prefix && sw[9] == s.rhs_tile_rows
        && sw[10] == s.rhs_tiles_per_row && sw[11] == s.output_tiles_per_row && sw[12] == s.kt);
    defines::lemma_tile_grid(p.lhs);
    defines::lemma_tile_grid(p.rhs);
    defines::lemma_tile_grid(p.out);
    let rest = seq![
        p.lhs[2] as int,
        common::tile_grid(p.lhs).1,
        common::tile_grid(p.out).1,
    ];
    arith::lemma_checked_product(p.lhs[0] as int, rest);
    reveal_with_fuel(arith::product, 4);
    let (a, b, c, d) = (
        p.lhs[0] as int,
        p.lhs[2] as int,
        common::tile_grid(p.lhs).1,
        common::tile_grid(p.out).1,
    );
    assert(rest.drop_last() =~= seq![b, c]);
    assert(rest.drop_last().drop_last() =~= seq![b]);
    assert(rest.drop_last().drop_last().drop_last() =~= Seq::<int>::empty());
    assert(a * (b * c * d) == a * b * c * d) by (nonlinear_arith);
}

} // verus!
