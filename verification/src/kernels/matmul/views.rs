//! How tensors are seen as matrices, and that the kernels are told so.

use vstd::prelude::*;
use crate::arith;
use crate::convert;
use crate::dram;
use crate::error;
use crate::kernels::defines;
use crate::kernels::dims;
use crate::kernels::dot_general;
use crate::kernels::dot_general::{DotGeneralKernelShape, Product};
use crate::kernels::matmul::program;
use crate::kernels::matmul::shape;
use crate::kernels::matmul::shape::{Dot, MatmulViewKind, Operand, OperandView};

verus! {

/// The dimensions that are not listed are all others, each once and in order.
pub proof fn lemma_other_dims(listed: Seq<usize>, n: int, d: usize)
    requires
        0 <= n <= usize::MAX,
    ensures
        dims::other_dims(listed, n).contains(d) <==> d < n && !listed.contains(d),
        forall|i: int, j: int|
            0 <= i < j < dims::other_dims(listed, n).len() ==> #[trigger] dims::other_dims(
                listed,
                n,
            )[i] < #[trigger] dims::other_dims(listed, n)[j],
        forall|i: int|
            0 <= i < dims::other_dims(listed, n).len() ==> #[trigger] dims::other_dims(listed, n)[i]
                < n,
    decreases n,
{
    if n > 0 {
        lemma_other_dims(listed, n - 1, d);
        let before = dims::other_dims(listed, n - 1);
        let all = dims::other_dims(listed, n);
        let last = (n - 1) as usize;
        if !listed.contains(last) {
            assert(all == before.push(last));
            assert(all.contains(d) <==> before.contains(d) || d == last) by {
                assert(all[before.len() as int] == last);
                if before.contains(d) {
                    let k = choose|k: int| 0 <= k < before.len() && before[k] == d;
                    assert(all[k] == d);
                }
            }
        }
    }
}

/// The kind of view that the kernels take a number for.
pub open spec fn kind_of_code(code: u32) -> Option<MatmulViewKind> {
    if code == 0 {
        Some(MatmulViewKind::Contiguous)
    } else if code == 2 {
        Some(MatmulViewKind::Generic)
    } else if code == 4 {
        Some(MatmulViewKind::TiledIndexMap)
    } else {
        None
    }
}

/// A view is told to a kernel by its words: the number of its kind, its ranks, the size of its
/// matrices, their tiles, the dimensions of the tensor, and which of them make up batches, rows
/// and columns. Reading them gives the view back.
pub proof fn lemma_view_words(v: OperandView)
    requires
        v.shape.len() == 8,
        v.batch_dims.len() == 8,
        v.row_dims.len() == 8,
        v.col_dims.len() == 8,
    ensures
        ({
            let w = program::view_words(v);
            v == OperandView {
                kind: kind_of_code(w[0])->0,
                rank: w[1],
                batch_rank: w[2],
                row_rank: w[3],
                col_rank: w[4],
                logical_rows: w[5],
                logical_cols: w[6],
                tile_rows: w[7],
                tiles_per_row: w[8],
                shape: w.subrange(9, 17),
                batch_dims: w.subrange(17, 25),
                row_dims: w.subrange(25, 33),
                col_dims: w.subrange(33, 41),
            }
        }),
        program::view_words(v).len() == 41,
{
    let w = program::view_words(v);
    assert(w.subrange(9, 17) =~= v.shape);
    assert(w.subrange(17, 25) =~= v.batch_dims);
    assert(w.subrange(25, 33) =~= v.row_dims);
    assert(w.subrange(33, 41) =~= v.col_dims);
}

/// The lists of a view hold the dimensions they were made of.
proof fn lemma_view_lists(o: Operand)
    requires
        shape::view_refusal(o) is None,
        o.shape.len() >= 2,
        0 <= o.rows,
        0 <= o.cols,
    ensures
        ({
            let v = shape::view_of(o);
            &&& v.rank == o.shape.len() <= 8
            &&& v.batch_rank == o.batch.len() <= 8
            &&& v.row_rank == o.row.len() <= 8
            &&& v.col_rank == o.col.len() <= 8
            &&& v.logical_rows == o.rows
            &&& v.logical_cols == o.cols
            &&& v.tile_rows == defines::tile_rows(o.shape)
            &&& v.tiles_per_row == defines::tile_cols(o.shape)
            &&& forall|i: int| 0 <= i < o.shape.len() ==> #[trigger] v.shape[i] == o.shape[i]
            &&& forall|i: int| 0 <= i < o.batch.len() ==> #[trigger] v.batch_dims[i] == o.batch[i]
            &&& forall|i: int| 0 <= i < o.row.len() ==> #[trigger] v.row_dims[i] == o.row[i]
            &&& forall|i: int| 0 <= i < o.col.len() ==> #[trigger] v.col_dims[i] == o.col[i]
        }),
{
    lemma_padded(o.shape, "matmul operand shape"@);
    lemma_padded(o.batch, "matmul operand batch dimensions"@);
    lemma_padded(o.row, "matmul operand row dimensions"@);
    lemma_padded(o.col, "matmul operand column dimensions"@);
    defines::lemma_tile_grid(o.shape);
    let stored = dram::tiled_shape(o.shape);
    assert(stored.len() == o.shape.len());
}

proof fn lemma_padded(values: Seq<usize>, name: Seq<char>)
    requires
        shape::padded_refusal(values, name) is None,
    ensures
        values.len() <= 8,
        forall|i: int| 0 <= i < values.len() ==> #[trigger] dims::padded(values)[i] == values[i],
{
    let checks = dims::narrow_checks(values, name);
    error::lemma_first_refusal_none(0, values.len() as int, checks);
    assert forall|i: int| 0 <= i < values.len() implies #[trigger] dims::padded(values)[i]
        == values[i] by {
        assert(checks(i) is None);
    }
}

/// The size of dimension `i` of a list of a view.
pub open spec fn size_at(v: OperandView, list: Seq<u32>, i: int) -> u32 {
    v.shape[list[i] as int]
}

/// The views of a dot product make it a stack of matrix products. The columns of the left
/// operand are its contracted dimensions, as are the rows of the right operand, pair by pair and
/// of the same sizes. The rows of the product are the rows of the left operand, its columns the
/// columns of the right one, and its batches those of both.
#[verifier::rlimit(60)]
#[verifier::spinoff_prover]
pub proof fn lemma_dot_views(d: Dot, i: int)
    requires
        d.refusal() is None,
    ensures
        ({
            let l = shape::view_of(d.lhs_operand());
            let r = shape::view_of(d.rhs_operand());
            let o = shape::view_of(d.out_operand());
            &&& l.logical_cols == r.logical_rows
            &&& o.logical_rows == l.logical_rows
            &&& o.logical_cols == r.logical_cols
            &&& l.col_rank == r.row_rank == d.lhs_contract.len()
            &&& l.batch_rank == r.batch_rank == o.batch_rank == d.lhs_batch.len()
            &&& o.row_rank == l.row_rank
            &&& o.col_rank == r.col_rank
            &&& l.rank == d.lhs.len() && r.rank == d.rhs.len() && o.rank == d.out.len()
            &&& 0 <= i < l.col_rank ==> {
                &&& l.col_dims[i] == d.lhs_contract[i]
                &&& r.row_dims[i] == d.rhs_contract[i]
                &&& size_at(l, l.col_dims, i) == size_at(r, r.row_dims, i)
            }
            &&& 0 <= i < l.batch_rank ==> {
                &&& l.batch_dims[i] == d.lhs_batch[i]
                &&& r.batch_dims[i] == d.rhs_batch[i]
                &&& o.batch_dims[i] == i
                &&& size_at(l, l.batch_dims, i) == size_at(r, r.batch_dims, i)
                &&& size_at(o, o.batch_dims, i) == size_at(l, l.batch_dims, i)
            }
            &&& 0 <= i < l.row_rank ==> {
                &&& !d.lhs_batch.contains(l.row_dims[i] as i64)
                &&& !d.lhs_contract.contains(l.row_dims[i] as i64)
                &&& o.row_dims[i] == o.batch_rank + i
                &&& size_at(o, o.row_dims, i) == size_at(l, l.row_dims, i)
            }
            &&& 0 <= i < r.col_rank ==> {
                &&& !d.rhs_batch.contains(r.col_dims[i] as i64)
                &&& !d.rhs_contract.contains(r.col_dims[i] as i64)
                &&& o.col_dims[i] == o.batch_rank + o.row_rank + i
                &&& size_at(o, o.col_dims, i) == size_at(r, r.col_dims, i)
            }
        }),
{
    lemma_dot_products(d);
    lemma_view_lists(d.lhs_operand());
    lemma_view_lists(d.rhs_operand());
    lemma_view_lists(d.out_operand());
    lemma_dims_fit(d.lhs.len() as int, d.lhs_batch, d.lhs_contract, "lhs"@);
    lemma_dims_fit(d.rhs.len() as int, d.rhs_batch, d.rhs_contract, "rhs"@);
    lemma_dim_sizes(d, i);
    if 0 <= i < d.lhs_free().len() {
        lemma_free(d.lhs.len() as int, d.lhs_batch, d.lhs_contract, i);
    }
    if 0 <= i < d.rhs_free().len() {
        lemma_free(d.rhs.len() as int, d.rhs_batch, d.rhs_contract, i);
    }
}

/// The products of sizes are there, and not negative.
proof fn lemma_dot_products(d: Dot)
    requires
        d.refusal() is None,
    ensures
        0 <= d.m(),
        0 <= d.k(),
        0 <= d.n(),
{
    lemma_volume(dims::sizes(d.lhs, d.lhs_free()));
    lemma_volume(dims::sizes(d.lhs, shape::dim_words(d.lhs_contract)));
    lemma_volume(dims::sizes(d.rhs, d.rhs_free()));
}

/// A product of sizes is not negative.
proof fn lemma_volume(sizes: Seq<usize>)
    requires
        arith::checked_product(1, arith::ints(sizes)) is Some,
    ensures
        arith::checked_product(1, arith::ints(sizes)) == Some(arith::product(arith::ints(sizes))),
        arith::product(arith::ints(sizes)) >= 0,
{
    arith::lemma_checked_product(1, arith::ints(sizes));
    lemma_product_positive(arith::ints(sizes));
}

proof fn lemma_product_positive(s: Seq<int>)
    requires
        forall|i: int| 0 <= i < s.len() ==> #[trigger] s[i] >= 0,
    ensures
        arith::product(s) >= 0,
    decreases s.len(),
{
    if s.len() > 0 {
        lemma_product_positive(s.drop_last());
        let (a, b) = (arith::product(s.drop_last()), s.last());
        assert(a * b >= 0) by (nonlinear_arith)
            requires
                a >= 0,
                b >= 0,
        ;
    }
}

/// Listed dimensions exist and keep their numbers.
proof fn lemma_dims_fit(rank: int, batch: Seq<i64>, contract: Seq<i64>, name: Seq<char>)
    requires
        shape::dims_refusal(rank, batch, contract, name) is None,
        rank <= 8,
    ensures
        forall|i: int|
            0 <= i < batch.len() ==> 0 <= #[trigger] batch[i] < rank && shape::dim_words(batch)[i]
                == batch[i],
        forall|i: int|
            0 <= i < contract.len() ==> 0 <= #[trigger] contract[i] < rank && shape::dim_words(
                contract,
            )[i] == contract[i],
{
    let checks = shape::dim_checks(rank, batch, contract, name);
    let n = (batch.len() + contract.len()) as int;
    error::lemma_first_refusal_none(0, n, checks);
    assert forall|i: int| 0 <= i < batch.len() implies 0 <= #[trigger] batch[i] < rank
        && shape::dim_words(batch)[i] == batch[i] by {
        assert(checks(i) is None);
        assert((batch + contract)[i] == batch[i]);
    }
    assert forall|i: int| 0 <= i < contract.len() implies 0 <= #[trigger] contract[i] < rank
        && shape::dim_words(contract)[i] == contract[i] by {
        let j = batch.len() + i;
        assert(checks(j) is None);
        assert((batch + contract)[j] == contract[i]);
    }
}

/// Sizes of dimensions that belong together agree.
proof fn lemma_dim_sizes(d: Dot, i: int)
    requires
        d.refusal() is None,
    ensures
        ({
            let (lb, rb) = (shape::dim_words(d.lhs_batch), shape::dim_words(d.rhs_batch));
            let (lc, rc) = (shape::dim_words(d.lhs_contract), shape::dim_words(d.rhs_contract));
            let nb = lb.len() as int;
            let nf = d.lhs_free().len() as int;
            &&& d.out.len() == nb + nf + d.rhs_free().len()
            &&& 0 <= i < nb ==> d.lhs[lb[i] as int] == d.rhs[rb[i] as int] && d.out[i]
                == d.lhs[lb[i] as int]
            &&& 0 <= i < lc.len() ==> d.lhs[lc[i] as int] == d.rhs[rc[i] as int]
            &&& 0 <= i < nf ==> d.out[nb + i] == d.lhs[d.lhs_free()[i] as int]
            &&& 0 <= i < d.rhs_free().len() ==> d.out[nb + nf + i] == d.rhs[d.rhs_free()[i] as int]
        }),
{
    let (lb, rb) = (shape::dim_words(d.lhs_batch), shape::dim_words(d.rhs_batch));
    let (lc, rc) = (shape::dim_words(d.lhs_contract), shape::dim_words(d.rhs_contract));
    let batch = shape::match_checks(d.lhs, d.rhs, lb, rb, "batch"@);
    let contract = shape::match_checks(d.lhs, d.rhs, lc, rc, "contracting"@);
    error::lemma_first_refusal_none(0, lb.len() as int, batch);
    error::lemma_first_refusal_none(0, lc.len() as int, contract);
    if 0 <= i < lb.len() {
        assert(batch(i) is None);
    }
    if 0 <= i < lc.len() {
        assert(contract(i) is None);
    }
}

/// A free dimension exists and is in neither list.
proof fn lemma_free(rank: int, batch: Seq<i64>, contract: Seq<i64>, i: int)
    requires
        0 <= rank <= 8,
        0 <= i < shape::free_dims(rank, batch, contract).len(),
        forall|j: int|
            0 <= j < batch.len() ==> 0 <= #[trigger] batch[j] < rank && shape::dim_words(batch)[j]
                == batch[j],
        forall|j: int|
            0 <= j < contract.len() ==> 0 <= #[trigger] contract[j] < rank && shape::dim_words(
                contract,
            )[j] == contract[j],
    ensures
        ({
            let f = shape::free_dims(rank, batch, contract)[i];
            f < rank && !batch.contains(f as i64) && !contract.contains(f as i64)
        }),
{
    let listed = shape::dim_words(batch) + shape::dim_words(contract);
    let free = shape::free_dims(rank, batch, contract);
    let f = free[i];
    lemma_other_dims(listed, rank, f);
    assert(free.contains(f));
    if batch.contains(f as i64) {
        let j = choose|j: int| 0 <= j < batch.len() && batch[j] == f as i64;
        assert(batch[j] == f);
        assert(listed[j] == f);
        assert(listed.contains(f));
    }
    if contract.contains(f as i64) {
        let j = choose|j: int| 0 <= j < contract.len() && contract[j] == f as i64;
        assert(contract[j] == f);
        assert(listed[batch.len() + j] == f);
        assert(listed.contains(f));
    }
}

/// Among the tables that the reader of a product takes, each list stands at its place: the
/// dimensions of the product and of the operands, then the batch, the contracted and the other
/// dimensions of the left and of the right operand.
pub proof fn lemma_dot_tables(s: DotGeneralKernelShape, p: Product, i: int)
    requires
        s.of(p),
        p.refusal() is None,
        0 <= i < 8,
    ensures
        ({
            let t = s.tables();
            &&& t.len() == 72
            &&& i < p.out.len() ==> t[i] == p.out[i]
            &&& i < p.lhs.len() ==> t[8 + i] == p.lhs[i]
            &&& i < p.rhs.len() ==> t[16 + i] == p.rhs[i]
            &&& i < p.lhs_batch.len() ==> t[24 + i] == p.lhs_batch[i]
            &&& i < p.rhs_batch.len() ==> t[32 + i] == p.rhs_batch[i]
            &&& i < p.lhs_contract.len() ==> t[40 + i] == p.lhs_contract[i]
            &&& i < p.rhs_contract.len() ==> t[48 + i] == p.rhs_contract[i]
            &&& i < p.lo().len() ==> t[56 + i] == p.lo()[i] && !p.lhs_batch.contains(
                p.lo()[i] as i64,
            ) && !p.lhs_contract.contains(p.lo()[i] as i64)
            &&& i < p.ro().len() ==> t[64 + i] == p.ro()[i] && !p.rhs_batch.contains(
                p.ro()[i] as i64,
            ) && !p.rhs_contract.contains(p.ro()[i] as i64)
        }),
{
    let lists = p.lists();
    let checks = dot_general::list_checks(lists);
    error::lemma_first_refusal_none(0, 9, checks);
    assert forall|l: int| 0 <= l < 9 && i < lists[l].len() implies dims::padded(
        #[trigger] lists[l],
    )[i] == lists[l][i] by {
        assert(checks(l) is None);
        let narrow = dims::narrow_checks(lists[l], dot_general::list_name(l));
        error::lemma_first_refusal_none(0, lists[l].len() as int, narrow);
        assert(narrow(i) is None);
    }
    assert(lists[0] == p.out && lists[1] == p.lhs && lists[2] == p.rhs);
    assert(lists[3] == p.lb() && lists[4] == p.rb() && lists[5] == p.lc() && lists[6] == p.rc());
    assert(lists[7] == p.lo() && lists[8] == p.ro());
    lemma_product_dims(p.lhs_batch, p.lhs.len() as int, "lhs batch"@);
    lemma_product_dims(p.rhs_batch, p.rhs.len() as int, "rhs batch"@);
    lemma_product_dims(p.lhs_contract, p.lhs.len() as int, "lhs contract"@);
    lemma_product_dims(p.rhs_contract, p.rhs.len() as int, "rhs contract"@);
    if i < p.lo().len() {
        lemma_free(p.lhs.len() as int, p.lhs_batch, p.lhs_contract, i);
    }
    if i < p.ro().len() {
        lemma_free(p.rhs.len() as int, p.rhs_batch, p.rhs_contract, i);
    }
}

proof fn lemma_product_dims(list: Seq<i64>, rank: int, label: Seq<char>)
    requires
        dot_general::dims_refusal(list, rank, label) is None,
        rank <= 8,
    ensures
        forall|j: int|
            0 <= j < list.len() ==> 0 <= #[trigger] list[j] < rank && shape::dim_words(list)[j]
                == list[j],
{
    let checks = dot_general::dim_checks(list, rank, label);
    error::lemma_first_refusal_none(0, list.len() as int, checks);
    assert forall|j: int| 0 <= j < list.len() implies 0 <= #[trigger] list[j] < rank
        && shape::dim_words(list)[j] == list[j] by {
        assert(checks(j) is None);
    }
}

/// The numbers that the reader of a product takes: the ranks, how many dimensions there are of
/// each part, how many terms each element sums, and the tiles of the matrices.
pub proof fn lemma_dot_numbers(s: DotGeneralKernelShape, p: Product)
    requires
        s.of(p),
        p.refusal() is None,
    ensures
        ({
            let w = s.numbers();
            let n = p.out.len() as int;
            &&& w[0] == p.out.len()
            &&& w[1] == p.lhs.len()
            &&& w[2] == p.rhs.len()
            &&& w[3] == p.lhs_batch.len()
            &&& w[4] == p.lo().len()
            &&& w[5] == p.ro().len()
            &&& w[6] == p.lhs_contract.len()
            &&& w[7] == arith::product(arith::ints(dims::sizes(p.lhs, p.lc())))
            &&& w[8] == defines::tile_rows(p.lhs)
            &&& w[9] == defines::tile_cols(p.lhs)
            &&& w[10] == defines::tile_rows(p.rhs)
            &&& w[11] == defines::tile_cols(p.rhs)
            &&& w[12] == p.out[n - 2]
            &&& w[13] == p.out[n - 1]
            &&& w[14] == defines::tile_rows(p.out)
            &&& w[15] == defines::tile_cols(p.out)
            &&& w[16] == w[14] * w[15]
        }),
{
    let values = p.values();
    convert::lemma_narrowed(values, dot_general::value_names());
    let words = s.numbers().push(s.output_tile_count);
    assert(words == convert::field_words(values));
    let w = s.numbers();
    assert forall|k: int| 0 <= k < 17 implies #[trigger] w[k] == values[k] by {
        assert(words[k] == w[k]);
        assert(convert::field_words(values)[k] == values[k]);
    }
    defines::lemma_tile_grid(p.lhs);
    defines::lemma_tile_grid(p.rhs);
    defines::lemma_tile_grid(p.out);
    let n = p.lhs_contract.len() as int;
    let checks = dot_general::contract_size_checks(p.lhs, p.rhs, p.lc(), p.rc());
    error::lemma_first_refusal_none(0, n, checks);
    let all = arith::ints(dims::sizes(p.lhs, p.lc()));
    assert(all.take(n) =~= all);
    if n > 0 {
        assert(checks(n - 1) is None);
    } else {
        assert(all.len() == 0);
    }
    lemma_volume(dims::sizes(p.lhs, p.lc()));
    assert(arith::product(all) <= usize::MAX);
    assert(w[7] == arith::product(all));
    assert(w[8] == defines::tile_rows(p.lhs) && w[9] == defines::tile_cols(p.lhs));
    assert(w[10] == defines::tile_rows(p.rhs) && w[11] == defines::tile_cols(p.rhs));
    assert(w[14] == defines::tile_rows(p.out) && w[15] == defines::tile_cols(p.out));
    let fit = dot_general::list_checks(p.lists());
    error::lemma_first_refusal_none(0, 9, fit);
    assert(fit(3) is None && fit(5) is None && fit(7) is None && fit(8) is None);
    assert(p.lists()[3] == p.lb() && p.lists()[5] == p.lc());
    assert(p.lists()[7] == p.lo() && p.lists()[8] == p.ro());
    assert(w[3] == p.lhs_batch.len() && w[6] == n);
    assert(w[4] == p.lo().len() && w[5] == p.ro().len());
    let (x, y) = (defines::tile_rows(p.out), defines::tile_cols(p.out));
    assert(x * y >= 0) by (nonlinear_arith)
        requires
            x >= 0,
            y >= 0,
    ;
}

/// The elements of a product are told apart by the dimensions that the operands keep: first the
/// batch dimensions, which both have, then those of the left operand, then those of the right.
pub proof fn lemma_dot_dimensions(p: Product, i: int)
    requires
        p.refusal() is None,
    ensures
        ({
            let nb = p.lhs_batch.len() as int;
            let nl = p.lo().len() as int;
            &&& p.out.len() == nb + nl + p.ro().len()
            &&& 0 <= i < nb ==> p.out[i] == p.lhs[p.lhs_batch[i] as int] && p.out[i]
                == p.rhs[p.rhs_batch[i] as int]
            &&& 0 <= i < nl ==> p.out[nb + i] == p.lhs[p.lo()[i] as int]
            &&& 0 <= i < p.ro().len() ==> p.out[nb + nl + i] == p.rhs[p.ro()[i] as int]
            &&& 0 <= i < p.lhs_contract.len() ==> p.lhs[p.lhs_contract[i] as int]
                == p.rhs[p.rhs_contract[i] as int]
        }),
{
    lemma_product_dims(p.lhs_batch, p.lhs.len() as int, "lhs batch"@);
    lemma_product_dims(p.rhs_batch, p.rhs.len() as int, "rhs batch"@);
    lemma_product_dims(p.lhs_contract, p.lhs.len() as int, "lhs contract"@);
    lemma_product_dims(p.rhs_contract, p.rhs.len() as int, "rhs contract"@);
    let batch = dot_general::batch_size_checks(p.lhs, p.rhs, p.lb(), p.rb());
    error::lemma_first_refusal_none(0, p.lhs_batch.len() as int, batch);
    if 0 <= i < p.lhs_batch.len() {
        assert(batch(i) is None);
    }
    if 0 <= i < p.lhs_contract.len() {
        dot_general::lemma_contracted_sizes(p, i);
    }
}

} // verus!
