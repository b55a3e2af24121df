//! General dot products that are computed element by element.

use vstd::prelude::*;
use crate::arith;
use crate::bytes;
use crate::convert;
use crate::dram;
use crate::dram::{DType, DramBuffer};
use crate::error;
use crate::error::Error;
use crate::hw::CoreCoord;
use crate::kernels::common;
use crate::kernels::common::{DramKernel, SectionWords};
use crate::kernels::dot_general::dpa::DpaScoreShape;
use crate::kernels::dot_general::dpa_value::DpaValueShape;
use crate::kernels::dims;
use crate::kernels::kernel;
use crate::kernels::lowering;
use crate::kernels::lowering::{CompileConfig, KernelCb, LoweredProgram, RangeWords, Section};
use crate::kernels::matmul::shape;
use crate::text;

pub mod attention;
pub mod dpa;
pub mod dpa_value;

verus! {

/// Largest rank of a tensor.
pub const MAX_RANK: usize = 8;

/// A general dot product.
#[derive(Clone, Debug)]
pub struct DotGeneralSpec {
    pub lhs_shape: Vec<usize>,
    pub rhs_shape: Vec<usize>,
    pub output_shape: Vec<usize>,
    pub lhs_batching_dimensions: Vec<i64>,
    pub rhs_batching_dimensions: Vec<i64>,
    pub lhs_contracting_dimensions: Vec<i64>,
    pub rhs_contracting_dimensions: Vec<i64>,
    pub output_dtype: DType,
}

/// What a contract says of a dot product.
pub struct Product {
    pub lhs: Seq<usize>,
    pub rhs: Seq<usize>,
    pub out: Seq<usize>,
    pub lhs_batch: Seq<i64>,
    pub rhs_batch: Seq<i64>,
    pub lhs_contract: Seq<i64>,
    pub rhs_contract: Seq<i64>,
    pub dtype: DType,
}

impl View for DotGeneralSpec {
    type V = Product;

    open spec fn view(&self) -> Product {
        Product {
            lhs: self.lhs_shape@,
            rhs: self.rhs_shape@,
            out: self.output_shape@,
            lhs_batch: self.lhs_batching_dimensions@,
            rhs_batch: self.rhs_batching_dimensions@,
            lhs_contract: self.lhs_contracting_dimensions@,
            rhs_contract: self.rhs_contracting_dimensions@,
            dtype: self.output_dtype,
        }
    }
}

/// Why a shape is refused.
pub open spec fn rank_refusal(shape: Seq<usize>, label: Seq<char>) -> Option<error::Refusal> {
    if !(2 <= shape.len() <= 8) {
        Some(
            error::invalid(
                "dot_general "@ + label + " rank must be in 2..=8, got "@ + text::dec(
                    shape.len() as int,
                ),
            ),
        )
    } else if shape.contains(0) {
        Some(
            error::invalid(
                "dot_general "@ + label
                    + " zero-sized dimensions are not currently supported: "@ + text::list_text(
                    arith::ints(shape),
                ),
            ),
        )
    } else {
        None
    }
}

fn validate_rank(shape: &[usize], label: &str) -> (r: Result<usize, Error>)
    ensures
        match r {
            Ok(n) => rank_refusal(shape@, label@) is None && n == shape@.len(),
            Err(e) => rank_refusal(shape@, label@) == Some(e@),
        },
{
    let n: usize = shape.len();
    if n < 2 || n > MAX_RANK {
        return Err(
            error::invalid_input(
                text::cat4(
                    "dot_general ",
                    label,
                    " rank must be in 2..=8, got ",
                    text::decimal_usize(n).as_str(),
                ),
            ),
        );
    }
    if arith::contains_usize(shape, 0) {
        return Err(
            error::invalid_input(
                text::cat4(
                    "dot_general ",
                    label,
                    " zero-sized dimensions are not currently supported: ",
                    text::shape_text(shape).as_str(),
                ),
            ),
        );
    }
    Ok(n)
}

/// Why dimension `i` of a list is refused.
pub open spec fn dim_checks(list: Seq<i64>, rank: int, label: Seq<char>) -> spec_fn(int) -> Option<
    error::Refusal,
> {
    |i: int|
        if !(0 <= list[i] <= usize::MAX) {
            Some(error::invalid("dot_general "@ + label + " dim must be >= 0"@))
        } else if list[i] >= rank {
            Some(
                error::invalid(
                    "dot_general "@ + label + " dim "@ + text::dec(list[i] as int)
                        + " is out of bounds for rank "@ + text::dec(rank),
                ),
            )
        } else {
            None
        }
}

pub open spec fn dims_refusal(list: Seq<i64>, rank: int, label: Seq<char>) -> Option<
    error::Refusal,
> {
    error::first_refusal(0, list.len() as int, dim_checks(list, rank, label))
}

fn dims_to_usize(list: &[i64], rank: usize, label: &str) -> (r: Result<Vec<usize>, Error>)
    ensures
        match r {
            Ok(v) => {
                &&& dims_refusal(list@, rank as int, label@) is None
                &&& v@ == shape::dim_words(list@)
                &&& forall|i: int| 0 <= i < v@.len() ==> #[trigger] v@[i] < rank
            },
            Err(e) => dims_refusal(list@, rank as int, label@) == Some(e@),
        },
{
    let n: usize = list.len();
    let ghost checks = dim_checks(list@, rank as int, label@);
    let mut out: Vec<usize> = Vec::new();
    for i in 0..n
        invariant
            n == list@.len(),
            checks == dim_checks(list@, rank as int, label@),
            out@ == shape::dim_words(list@).take(i as int),
            forall|j: int| 0 <= j < out@.len() ==> #[trigger] out@[j] < rank,
            forall|j: int| 0 <= j < i ==> #[trigger] checks(j) is None,
    {
        proof {
            error::lemma_first_refusal_skip(0, i as int, n as int, checks);
        }
        let d: i64 = list[i];
        if d < 0 || d as u64 > usize::MAX as u64 {
            assert(checks(i as int) is Some);
            return Err(
                error::invalid_input(text::cat3("dot_general ", label, " dim must be >= 0")),
            );
        }
        let dim: usize = d as usize;
        if dim >= rank {
            assert(checks(i as int) is Some);
            return Err(
                error::invalid_input(
                    text::cat6(
                        "dot_general ",
                        label,
                        " dim ",
                        text::decimal_usize(dim).as_str(),
                        " is out of bounds for rank ",
                        text::decimal_usize(rank).as_str(),
                    ),
                ),
            );
        }
        assert(checks(i as int) is None);
        out.push(dim);
        assert(out@ =~= shape::dim_words(list@).take(i + 1));
    }
    proof {
        error::lemma_first_refusal_none(0, n as int, checks);
    }
    assert(out@ =~= shape::dim_words(list@));
    Ok(out)
}

/// Why a batch dimension is refused: it was named before.
pub open spec fn batch_checks(batch: Seq<usize>, label: Seq<char>) -> spec_fn(int) -> Option<
    error::Refusal,
> {
    |i: int|
        if batch.take(i).contains(batch[i]) {
            Some(
                error::invalid(
                    "dot_general "@ + label + " dimension "@ + text::dec(batch[i] as int)
                        + " appears more than once"@,
                ),
            )
        } else {
            None
        }
}

/// Why a contracting dimension is refused: it was named before.
pub open spec fn contracted_checks(
    batch: Seq<usize>,
    contract: Seq<usize>,
    label: Seq<char>,
) -> spec_fn(int) -> Option<error::Refusal> {
    |i: int|
        if batch.contains(contract[i]) || contract.take(i).contains(contract[i]) {
            Some(
                error::invalid(
                    "dot_general "@ + label + " dimension "@ + text::dec(contract[i] as int)
                        + " appears in both batch and contract dimensions"@,
                ),
            )
        } else {
            None
        }
}

/// Why the dimensions of one operand are refused: one of them is named twice.
pub open spec fn unique_refusal(batch: Seq<usize>, contract: Seq<usize>, label: Seq<char>) -> Option<
    error::Refusal,
> {
    let first = error::first_refusal(0, batch.len() as int, batch_checks(batch, label));
    if first is Some {
        first
    } else {
        error::first_refusal(
            0,
            contract.len() as int,
            contracted_checks(batch, contract, label),
        )
    }
}

fn contains_before(list: &[usize], n: usize, x: usize) -> (r: bool)
    requires
        n <= list@.len(),
    ensures
        r == list@.take(n as int).contains(x),
{
    for i in 0..n
        invariant
            n <= list@.len(),
            forall|j: int| 0 <= j < i ==> #[trigger] list@[j] != x,
    {
        if list[i] == x {
            assert(list@.take(n as int)[i as int] == x);
            return true;
        }
    }
    false
}

fn ensure_unique_disjoint(batch: &[usize], contract: &[usize], label: &str) -> (r: Result<
    (),
    Error,
>)
    ensures
        match r {
            Ok(_) => unique_refusal(batch@, contract@, label@) is None,
            Err(e) => unique_refusal(batch@, contract@, label@) == Some(e@),
        },
{
    let ghost first = batch_checks(batch@, label@);
    let ghost second = contracted_checks(batch@, contract@, label@);
    let n: usize = batch.len();
    for i in 0..n
        invariant
            n == batch@.len(),
            first == batch_checks(batch@, label@),
            forall|j: int| 0 <= j < i ==> #[trigger] first(j) is None,
    {
        proof {
            error::lemma_first_refusal_skip(0, i as int, n as int, first);
        }
        if contains_before(batch, i, batch[i]) {
            assert(first(i as int) is Some);
            return Err(
                error::invalid_input(
                    text::cat5(
                        "dot_general ",
                        label,
                        " dimension ",
                        text::decimal_usize(batch[i]).as_str(),
                        " appears more than once",
                    ),
                ),
            );
        }
        assert(first(i as int) is None);
    }
    proof {
        error::lemma_first_refusal_none(0, n as int, first);
    }
    let m: usize = contract.len();
    for i in 0..m
        invariant
            m == contract@.len(),
            error::first_refusal(0, batch@.len() as int, batch_checks(batch@, label@)) is None,
            second == contracted_checks(batch@, contract@, label@),
            forall|j: int| 0 <= j < i ==> #[trigger] second(j) is None,
    {
        proof {
            error::lemma_first_refusal_skip(0, i as int, m as int, second);
        }
        if arith::contains_usize(batch, contract[i]) || contains_before(
            contract,
            i,
            contract[i],
        ) {
            assert(second(i as int) is Some);
            return Err(
                error::invalid_input(
                    text::cat5(
                        "dot_general ",
                        label,
                        " dimension ",
                        text::decimal_usize(contract[i]).as_str(),
                        " appears in both batch and contract dimensions",
                    ),
                ),
            );
        }
        assert(second(i as int) is None);
    }
    proof {
        error::lemma_first_refusal_none(0, m as int, second);
    }
    Ok(())
}

/// Why two dimensions that belong together are refused: their sizes differ.
pub open spec fn size_mismatch(
    lhs: Seq<usize>,
    rhs: Seq<usize>,
    a: Seq<usize>,
    b: Seq<usize>,
    kind: Seq<char>,
    i: int,
) -> Option<error::Refusal> {
    let (s, t) = (lhs[a[i] as int] as int, rhs[b[i] as int] as int);
    if s != t {
        Some(
            error::invalid(
                "dot_general "@ + kind + " dimension "@ + text::dec(i)
                    + " shape mismatch: lhs dim "@ + text::dec(a[i] as int) + "="@ + text::dec(s)
                    + " rhs dim "@ + text::dec(b[i] as int) + "="@ + text::dec(t),
            ),
        )
    } else {
        None
    }
}

fn check_sizes(lhs: &[usize], rhs: &[usize], a: usize, b: usize, kind: &str, i: usize) -> (r:
    Result<(), Error>)
    requires
        a < lhs@.len(),
        b < rhs@.len(),
    ensures
        match r {
            Ok(_) => lhs@[a as int] == rhs@[b as int],
            Err(e) => lhs@[a as int] != rhs@[b as int] && e@ == error::invalid(
                "dot_general "@ + kind@ + " dimension "@ + text::dec(i as int)
                    + " shape mismatch: lhs dim "@ + text::dec(a as int) + "="@ + text::dec(
                    lhs@[a as int] as int,
                ) + " rhs dim "@ + text::dec(b as int) + "="@ + text::dec(rhs@[b as int] as int),
            ),
        },
{
    if lhs[a] != rhs[b] {
        let front = text::cat5(
            "dot_general ",
            kind,
            " dimension ",
            text::decimal_usize(i).as_str(),
            " shape mismatch: lhs dim ",
        );
        let left = text::cat4(
            front.as_str(),
            text::decimal_usize(a).as_str(),
            "=",
            text::decimal_usize(lhs[a]).as_str(),
        );
        return Err(
            error::invalid_input(
                text::cat5(
                    left.as_str(),
                    " rhs dim ",
                    text::decimal_usize(b).as_str(),
                    "=",
                    text::decimal_usize(rhs[b]).as_str(),
                ),
            ),
        );
    }
    Ok(())
}

pub open spec fn batch_size_checks(
    lhs: Seq<usize>,
    rhs: Seq<usize>,
    a: Seq<usize>,
    b: Seq<usize>,
) -> spec_fn(int) -> Option<error::Refusal> {
    |i: int| size_mismatch(lhs, rhs, a, b, "batch"@, i)
}

/// The product of the sizes of the first `n` listed dimensions, where it is a
/// machine word.
pub open spec fn volume(lhs: Seq<usize>, a: Seq<usize>, n: int) -> Option<int> {
    arith::checked_product(1, arith::ints(dims::sizes(lhs, a)).take(n))
}

pub open spec fn contract_size_checks(
    lhs: Seq<usize>,
    rhs: Seq<usize>,
    a: Seq<usize>,
    b: Seq<usize>,
) -> spec_fn(int) -> Option<error::Refusal> {
    |i: int|
        if size_mismatch(lhs, rhs, a, b, "contracting"@, i) is Some {
            size_mismatch(lhs, rhs, a, b, "contracting"@, i)
        } else if volume(lhs, a, i + 1) is None {
            Some(error::invalid("dot_general contracting volume overflow"@))
        } else {
            None
        }
}

fn check_batch_sizes(lhs: &[usize], rhs: &[usize], a: &[usize], b: &[usize]) -> (r: Result<
    (),
    Error,
>)
    requires
        a@.len() == b@.len(),
        dims::in_shape(lhs@, a@),
        dims::in_shape(rhs@, b@),
    ensures
        ({
            let refusal = error::first_refusal(
                0,
                a@.len() as int,
                batch_size_checks(lhs@, rhs@, a@, b@),
            );
            match r {
                Ok(_) => refusal is None,
                Err(e) => refusal == Some(e@),
            }
        }),
{
    let n: usize = a.len();
    let ghost checks = batch_size_checks(lhs@, rhs@, a@, b@);
    for i in 0..n
        invariant
            n == a@.len() == b@.len(),
            dims::in_shape(lhs@, a@),
            dims::in_shape(rhs@, b@),
            checks == batch_size_checks(lhs@, rhs@, a@, b@),
            forall|j: int| 0 <= j < i ==> #[trigger] checks(j) is None,
    {
        proof {
            error::lemma_first_refusal_skip(0, i as int, n as int, checks);
            assert(a@[i as int] < lhs@.len());
            assert(b@[i as int] < rhs@.len());
            assert(checks(i as int) == size_mismatch(lhs@, rhs@, a@, b@, "batch"@, i as int));
        }
        check_sizes(lhs, rhs, a[i], b[i], "batch", i)?;
    }
    proof {
        error::lemma_first_refusal_none(0, n as int, checks);
    }
    Ok(())
}

fn contract_sizes(lhs: &[usize], rhs: &[usize], a: &[usize], b: &[usize]) -> (r: Result<
    usize,
    Error,
>)
    requires
        a@.len() == b@.len(),
        dims::in_shape(lhs@, a@),
        dims::in_shape(rhs@, b@),
    ensures
        ({
            let refusal = error::first_refusal(
                0,
                a@.len() as int,
                contract_size_checks(lhs@, rhs@, a@, b@),
            );
            match r {
                Ok(v) => refusal is None && volume(lhs@, a@, a@.len() as int) == Some(v as int),
                Err(e) => refusal == Some(e@),
            }
        }),
{
    let n: usize = a.len();
    let ghost checks = contract_size_checks(lhs@, rhs@, a@, b@);
    let ghost sizes = arith::ints(dims::sizes(lhs@, a@));
    let mut acc: usize = 1;
    assert(sizes.take(0).len() == 0);
    for i in 0..n
        invariant
            n == a@.len() == b@.len(),
            dims::in_shape(lhs@, a@),
            dims::in_shape(rhs@, b@),
            checks == contract_size_checks(lhs@, rhs@, a@, b@),
            sizes == arith::ints(dims::sizes(lhs@, a@)),
            volume(lhs@, a@, i as int) == Some(acc as int),
            forall|j: int| 0 <= j < i ==> #[trigger] checks(j) is None,
    {
        proof {
            error::lemma_first_refusal_skip(0, i as int, n as int, checks);
            assert(a@[i as int] < lhs@.len());
            assert(b@[i as int] < rhs@.len());
            assert(checks(i as int) is Some || checks(i as int) is None);
            assert(sizes.take(i + 1).drop_last() =~= sizes.take(i as int));
            assert(sizes[i as int] == lhs@[a@[i as int] as int]);
        }
        check_sizes(lhs, rhs, a[i], b[i], "contracting", i)?;
        match acc.checked_mul(lhs[a[i]]) {
            Some(p) => {
                acc = p;
            },
            None => {
                return Err(error::invalid_text("dot_general contracting volume overflow"));
            },
        }
    }
    proof {
        error::lemma_first_refusal_none(0, n as int, checks);
    }
    Ok(acc)
}

impl Product {
    pub open spec fn lb(self) -> Seq<usize> {
        shape::dim_words(self.lhs_batch)
    }

    pub open spec fn rb(self) -> Seq<usize> {
        shape::dim_words(self.rhs_batch)
    }

    pub open spec fn lc(self) -> Seq<usize> {
        shape::dim_words(self.lhs_contract)
    }

    pub open spec fn rc(self) -> Seq<usize> {
        shape::dim_words(self.rhs_contract)
    }

    /// The dimensions of the left operand that the product keeps.
    pub open spec fn lo(self) -> Seq<usize> {
        shape::free_dims(self.lhs.len() as int, self.lhs_batch, self.lhs_contract)
    }

    /// The dimensions of the right operand that the product keeps.
    pub open spec fn ro(self) -> Seq<usize> {
        shape::free_dims(self.rhs.len() as int, self.rhs_batch, self.rhs_contract)
    }

    /// The shape of the product.
    pub open spec fn expected(self) -> Seq<usize> {
        dims::sizes(self.lhs, self.lb()) + dims::sizes(self.lhs, self.lo()) + dims::sizes(
            self.rhs,
            self.ro(),
        )
    }

    /// Why the lists of dimensions are refused.
    pub open spec fn form_refusal(self) -> Option<error::Refusal> {
        let (l, r) = (self.lhs.len() as int, self.rhs.len() as int);
        if rank_refusal(self.lhs, "lhs"@) is Some {
            rank_refusal(self.lhs, "lhs"@)
        } else if rank_refusal(self.rhs, "rhs"@) is Some {
            rank_refusal(self.rhs, "rhs"@)
        } else if rank_refusal(self.out, "output"@) is Some {
            rank_refusal(self.out, "output"@)
        } else if dims_refusal(self.lhs_batch, l, "lhs batch"@) is Some {
            dims_refusal(self.lhs_batch, l, "lhs batch"@)
        } else if dims_refusal(self.rhs_batch, r, "rhs batch"@) is Some {
            dims_refusal(self.rhs_batch, r, "rhs batch"@)
        } else if dims_refusal(self.lhs_contract, l, "lhs contract"@) is Some {
            dims_refusal(self.lhs_contract, l, "lhs contract"@)
        } else if dims_refusal(self.rhs_contract, r, "rhs contract"@) is Some {
            dims_refusal(self.rhs_contract, r, "rhs contract"@)
        } else if self.lhs_batch.len() != self.rhs_batch.len() {
            Some(
                error::invalid(
                    "dot_general batch dimension count mismatch: lhs="@ + text::dec(
                        self.lhs_batch.len() as int,
                    ) + " rhs="@ + text::dec(self.rhs_batch.len() as int),
                ),
            )
        } else if self.lhs_contract.len() != self.rhs_contract.len() {
            Some(
                error::invalid(
                    "dot_general contracting dimension count mismatch: lhs="@ + text::dec(
                        self.lhs_contract.len() as int,
                    ) + " rhs="@ + text::dec(self.rhs_contract.len() as int),
                ),
            )
        } else if unique_refusal(self.lb(), self.lc(), "lhs"@) is Some {
            unique_refusal(self.lb(), self.lc(), "lhs"@)
        } else {
            unique_refusal(self.rb(), self.rc(), "rhs"@)
        }
    }

    /// Why the sizes are refused.
    pub open spec fn size_refusal(self) -> Option<error::Refusal> {
        let batch = error::first_refusal(
            0,
            self.lhs_batch.len() as int,
            batch_size_checks(self.lhs, self.rhs, self.lb(), self.rb()),
        );
        let contract = error::first_refusal(
            0,
            self.lhs_contract.len() as int,
            contract_size_checks(self.lhs, self.rhs, self.lc(), self.rc()),
        );
        if batch is Some {
            batch
        } else if contract is Some {
            contract
        } else if self.out != self.expected() {
            Some(
                error::invalid(
                    "dot_general output shape mismatch: expected "@ + text::list_text(
                        arith::ints(self.expected()),
                    ) + ", got "@ + text::list_text(arith::ints(self.out)),
                ),
            )
        } else {
            None
        }
    }

    /// Why the tensors cannot be laid out.
    pub open spec fn layout_refusal(self) -> Option<error::Refusal> {
        if dram::tiled_shape_refusal(self.lhs) is Some {
            dram::tiled_shape_refusal(self.lhs)
        } else if common::pair_tiles_refusal(self.rhs, self.out) is Some {
            common::pair_tiles_refusal(self.rhs, self.out)
        } else if common::tile_grid(self.out).0 * common::tile_grid(self.out).1 > usize::MAX {
            Some(error::invalid("dot_general output matrix tile count overflow"@))
        } else {
            None
        }
    }

    /// The numbers of the kernel, to be narrowed.
    pub open spec fn values(self) -> Seq<usize> {
        let n = self.out.len() as int;
        seq![
            self.out.len() as usize,
            self.lhs.len() as usize,
            self.rhs.len() as usize,
            self.lhs_batch.len() as usize,
            self.lo().len() as usize,
            self.ro().len() as usize,
            self.lhs_contract.len() as usize,
            volume(self.lhs, self.lc(), self.lhs_contract.len() as int)->0 as usize,
            common::tile_grid(self.lhs).0 as usize,
            common::tile_grid(self.lhs).1 as usize,
            common::tile_grid(self.rhs).0 as usize,
            common::tile_grid(self.rhs).1 as usize,
            self.out[n - 2],
            self.out[n - 1],
            common::tile_grid(self.out).0 as usize,
            common::tile_grid(self.out).1 as usize,
            (common::tile_grid(self.out).0 * common::tile_grid(self.out).1) as usize,
            dram::tile_count(self.out)->0 as usize,
        ]
    }

    /// The lists of the kernel, in order.
    pub open spec fn lists(self) -> Seq<Seq<usize>> {
        seq![
            self.out,
            self.lhs,
            self.rhs,
            self.lb(),
            self.rb(),
            self.lc(),
            self.rc(),
            self.lo(),
            self.ro(),
        ]
    }

    /// Why there is no kernel for the product.
    pub open spec fn refusal(self) -> Option<error::Refusal> {
        if self.form_refusal() is Some {
            self.form_refusal()
        } else if self.size_refusal() is Some {
            self.size_refusal()
        } else if self.layout_refusal() is Some {
            self.layout_refusal()
        } else if convert::fields_refusal(self.values(), value_names()) is Some {
            convert::fields_refusal(self.values(), value_names())
        } else {
            error::first_refusal(0, 9, list_checks(self.lists()))
        }
    }
}

pub open spec fn value_names() -> Seq<&'static str> {
    seq![
        "output rank",
        "lhs rank",
        "rhs rank",
        "batch count",
        "lhs outer count",
        "rhs outer count",
        "contract count",
        "contracting volume",
        "lhs tile rows",
        "lhs tiles per row",
        "rhs tile rows",
        "rhs tiles per row",
        "output rows",
        "output cols",
        "output tile rows",
        "output tiles per row",
        "output matrix tiles",
        "output tile count",
    ]
}

fn list_value_names() -> (r: Vec<&'static str>)
    ensures
        r@ == value_names(),
{
    let r: Vec<&'static str> = vec![
        "output rank",
        "lhs rank",
        "rhs rank",
        "batch count",
        "lhs outer count",
        "rhs outer count",
        "contract count",
        "contracting volume",
        "lhs tile rows",
        "lhs tiles per row",
        "rhs tile rows",
        "rhs tiles per row",
        "output rows",
        "output cols",
        "output tile rows",
        "output tiles per row",
        "output matrix tiles",
        "output tile count",
    ];
    assert(r@ =~= value_names());
    r
}

pub open spec fn list_name(i: int) -> Seq<char> {
    if i == 0 {
        "output shape"@
    } else if i == 1 {
        "lhs shape"@
    } else if i == 2 {
        "rhs shape"@
    } else if i == 3 {
        "lhs batch dims"@
    } else if i == 4 {
        "rhs batch dims"@
    } else if i == 5 {
        "lhs contract dims"@
    } else if i == 6 {
        "rhs contract dims"@
    } else if i == 7 {
        "lhs outer dims"@
    } else {
        "rhs outer dims"@
    }
}

/// Why a list does not fit into the words of the kernel.
pub open spec fn padded_refusal(values: Seq<usize>, label: Seq<char>) -> Option<error::Refusal> {
    if values.len() > 8 {
        Some(
            error::invalid(
                "dot_general "@ + label + " rank exceeds 8: "@ + text::dec(values.len() as int),
            ),
        )
    } else {
        error::first_refusal(0, values.len() as int, dims::narrow_checks(values, label))
    }
}

pub open spec fn list_checks(lists: Seq<Seq<usize>>) -> spec_fn(int) -> Option<error::Refusal> {
    |i: int| padded_refusal(lists[i], list_name(i))
}

fn padded_array(values: &[usize], label: &str) -> (r: Result<[u32; 8], Error>)
    ensures
        match r {
            Ok(a) => padded_refusal(values@, label@) is None && a@ == dims::padded(values@),
            Err(e) => padded_refusal(values@, label@) == Some(e@),
        },
{
    let n: usize = values.len();
    if n > MAX_RANK {
        return Err(
            error::invalid_input(
                text::cat4(
                    "dot_general ",
                    label,
                    " rank exceeds 8: ",
                    text::decimal_usize(n).as_str(),
                ),
            ),
        );
    }
    let ghost checks = dims::narrow_checks(values@, label@);
    let mut out: [u32; 8] = [0; 8];
    for i in 0..n
        invariant
            n == values@.len() <= 8,
            checks == dims::narrow_checks(values@, label@),
            forall|j: int| 0 <= j < i ==> out@[j] == values@[j] as u32,
            forall|j: int| i <= j < 8 ==> out@[j] == 0,
            forall|j: int| 0 <= j < i ==> #[trigger] checks(j) is None,
    {
        proof {
            error::lemma_first_refusal_skip(0, i as int, n as int, checks);
        }
        let v: u32 = convert::to_u32(values[i], label)?;
        out[i] = v;
        assert(checks(i as int) is None);
    }
    proof {
        error::lemma_first_refusal_none(0, n as int, checks);
    }
    assert(out@ =~= dims::padded(values@));
    Ok(out)
}

/// What the kernel is built for.
#[derive(Clone, Debug, Hash, PartialEq, Eq)]
pub struct DotGeneralKernelShape {
    pub output_rank: u32,
    pub lhs_rank: u32,
    pub rhs_rank: u32,
    pub batch_count: u32,
    pub lhs_outer_count: u32,
    pub rhs_outer_count: u32,
    pub contract_count: u32,
    pub contract_volume: u32,
    pub lhs_tile_rows: u32,
    pub lhs_tiles_per_row: u32,
    pub rhs_tile_rows: u32,
    pub rhs_tiles_per_row: u32,
    pub output_rows: u32,
    pub output_cols: u32,
    pub output_tile_rows: u32,
    pub output_tiles_per_row: u32,
    pub output_matrix_tiles: u32,
    pub output_tile_count: u32,
    pub output_shape: [u32; 8],
    pub lhs_shape: [u32; 8],
    pub rhs_shape: [u32; 8],
    pub lhs_batch_dims: [u32; 8],
    pub rhs_batch_dims: [u32; 8],
    pub lhs_contract_dims: [u32; 8],
    pub rhs_contract_dims: [u32; 8],
    pub lhs_outer_dims: [u32; 8],
    pub rhs_outer_dims: [u32; 8],
}

impl DotGeneralKernelShape {
    /// The numbers that the reader takes.
    pub open spec fn numbers(&self) -> Seq<u32> {
        seq![
            self.output_rank,
            self.lhs_rank,
            self.rhs_rank,
            self.batch_count,
            self.lhs_outer_count,
            self.rhs_outer_count,
            self.contract_count,
            self.contract_volume,
            self.lhs_tile_rows,
            self.lhs_tiles_per_row,
            self.rhs_tile_rows,
            self.rhs_tiles_per_row,
            self.output_rows,
            self.output_cols,
            self.output_tile_rows,
            self.output_tiles_per_row,
            self.output_matrix_tiles,
        ]
    }

    /// The lists that the reader takes.
    pub open spec fn tables(&self) -> Seq<u32> {
        self.output_shape@ + self.lhs_shape@ + self.rhs_shape@ + self.lhs_batch_dims@
            + self.rhs_batch_dims@ + self.lhs_contract_dims@ + self.rhs_contract_dims@
            + self.lhs_outer_dims@ + self.rhs_outer_dims@
    }

    /// Whether this is the kernel of a product.
    pub open spec fn of(&self, p: Product) -> bool {
        &&& self.numbers().push(self.output_tile_count) == convert::field_words(p.values())
        &&& self.output_shape@ == dims::padded(p.out)
        &&& self.lhs_shape@ == dims::padded(p.lhs)
        &&& self.rhs_shape@ == dims::padded(p.rhs)
        &&& self.lhs_batch_dims@ == dims::padded(p.lb())
        &&& self.rhs_batch_dims@ == dims::padded(p.rb())
        &&& self.lhs_contract_dims@ == dims::padded(p.lc())
        &&& self.rhs_contract_dims@ == dims::padded(p.rc())
        &&& self.lhs_outer_dims@ == dims::padded(p.lo())
        &&& self.rhs_outer_dims@ == dims::padded(p.ro())
    }
}

struct DotDims {
    lb: Vec<usize>,
    rb: Vec<usize>,
    lc: Vec<usize>,
    rc: Vec<usize>,
}

fn parse_form(spec: &DotGeneralSpec) -> (r: Result<DotDims, Error>)
    ensures
        match r {
            Ok(d) => {
                &&& spec@.form_refusal() is None
                &&& d.lb@ == spec@.lb()
                &&& d.rb@ == spec@.rb()
                &&& d.lc@ == spec@.lc()
                &&& d.rc@ == spec@.rc()
                &&& dims::in_shape(spec@.lhs, d.lb@)
                &&& dims::in_shape(spec@.rhs, d.rb@)
                &&& dims::in_shape(spec@.lhs, d.lc@)
                &&& dims::in_shape(spec@.rhs, d.rc@)
            },
            Err(e) => spec@.form_refusal() == Some(e@),
        },
{
    let l: usize = validate_rank(spec.lhs_shape.as_slice(), "lhs")?;
    let r: usize = validate_rank(spec.rhs_shape.as_slice(), "rhs")?;
    let _o: usize = validate_rank(spec.output_shape.as_slice(), "output")?;
    let lb = dims_to_usize(spec.lhs_batching_dimensions.as_slice(), l, "lhs batch")?;
    let rb = dims_to_usize(spec.rhs_batching_dimensions.as_slice(), r, "rhs batch")?;
    let lc = dims_to_usize(spec.lhs_contracting_dimensions.as_slice(), l, "lhs contract")?;
    let rc = dims_to_usize(spec.rhs_contracting_dimensions.as_slice(), r, "rhs contract")?;
    if lb.len() != rb.len() {
        return Err(
            error::invalid_input(
                text::cat4(
                    "dot_general batch dimension count mismatch: lhs=",
                    text::decimal_usize(lb.len()).as_str(),
                    " rhs=",
                    text::decimal_usize(rb.len()).as_str(),
                ),
            ),
        );
    }
    if lc.len() != rc.len() {
        return Err(
            error::invalid_input(
                text::cat4(
                    "dot_general contracting dimension count mismatch: lhs=",
                    text::decimal_usize(lc.len()).as_str(),
                    " rhs=",
                    text::decimal_usize(rc.len()).as_str(),
                ),
            ),
        );
    }
    ensure_unique_disjoint(lb.as_slice(), lc.as_slice(), "lhs")?;
    ensure_unique_disjoint(rb.as_slice(), rc.as_slice(), "rhs")?;
    Ok(DotDims { lb, rb, lc, rc })
}

fn outer_dims(rank: usize, batch: &[usize], contract: &[usize]) -> (r: Vec<usize>)
    ensures
        r@ == dims::other_dims(batch@ + contract@, rank as int),
        forall|i: int| 0 <= i < r@.len() ==> #[trigger] r@[i] < rank,
{
    let mut used = arith::copy_usizes(batch);
    dims::extend_usizes(&mut used, contract);
    dims::find_other_dims(used.as_slice(), rank)
}

struct DotSizes {
    lo: Vec<usize>,
    ro: Vec<usize>,
    volume: usize,
}

fn check_form_sizes(spec: &DotGeneralSpec, d: &DotDims) -> (r: Result<DotSizes, Error>)
    requires
        spec@.form_refusal() is None,
        d.lb@ == spec@.lb(),
        d.rb@ == spec@.rb(),
        d.lc@ == spec@.lc(),
        d.rc@ == spec@.rc(),
        dims::in_shape(spec@.lhs, d.lb@),
        dims::in_shape(spec@.rhs, d.rb@),
        dims::in_shape(spec@.lhs, d.lc@),
        dims::in_shape(spec@.rhs, d.rc@),
    ensures
        match r {
            Ok(s) => {
                &&& spec@.size_refusal() is None
                &&& s.lo@ == spec@.lo()
                &&& s.ro@ == spec@.ro()
                &&& volume(spec@.lhs, spec@.lc(), spec@.lhs_contract.len() as int) == Some(
                    s.volume as int,
                )
            },
            Err(e) => spec@.size_refusal() == Some(e@),
        },
{
    let lhs = spec.lhs_shape.as_slice();
    let rhs = spec.rhs_shape.as_slice();
    check_batch_sizes(lhs, rhs, d.lb.as_slice(), d.rb.as_slice())?;
    let volume: usize = contract_sizes(lhs, rhs, d.lc.as_slice(), d.rc.as_slice())?;
    let lo = outer_dims(lhs.len(), d.lb.as_slice(), d.lc.as_slice());
    let ro = outer_dims(rhs.len(), d.rb.as_slice(), d.rc.as_slice());
    let mut expected = dims::dim_sizes(lhs, d.lb.as_slice());
    let kept = dims::dim_sizes(lhs, lo.as_slice());
    dims::extend_usizes(&mut expected, kept.as_slice());
    let right = dims::dim_sizes(rhs, ro.as_slice());
    dims::extend_usizes(&mut expected, right.as_slice());
    assert(expected@ =~= spec@.expected());
    if !arith::same_usizes(spec.output_shape.as_slice(), expected.as_slice()) {
        return Err(
            error::invalid_input(
                text::cat4(
                    "dot_general output shape mismatch: expected ",
                    text::shape_text(expected.as_slice()).as_str(),
                    ", got ",
                    text::shape_text(spec.output_shape.as_slice()).as_str(),
                ),
            ),
        );
    }
    Ok(DotSizes { lo, ro, volume })
}

/// Sizes of the matrices of the operands and of the product in tiles.
struct DotGrids {
    lhs: (usize, usize),
    rhs: (usize, usize),
    out: (usize, usize),
    matrix: usize,
    tiles: usize,
}

fn check_grids(spec: &DotGeneralSpec) -> (r: Result<DotGrids, Error>)
    ensures
        match r {
            Ok(g) => {
                &&& spec@.layout_refusal() is None
                &&& (g.lhs.0 as int, g.lhs.1 as int) == common::tile_grid(spec@.lhs)
                &&& (g.rhs.0 as int, g.rhs.1 as int) == common::tile_grid(spec@.rhs)
                &&& (g.out.0 as int, g.out.1 as int) == common::tile_grid(spec@.out)
                &&& g.matrix == g.out.0 * g.out.1
                &&& dram::tile_count(spec@.out) == Some(g.tiles as int)
            },
            Err(e) => spec@.layout_refusal() == Some(e@),
        },
{
    let lhs = common::find_tile_grid(spec.lhs_shape.as_slice())?;
    let pair = common::PairTiles::new(spec.rhs_shape.as_slice(), spec.output_shape.as_slice())?;
    match pair.output_rows.checked_mul(pair.output_cols) {
        Some(matrix) => Ok(
            DotGrids {
                lhs,
                rhs: (pair.input_rows, pair.input_cols),
                out: (pair.output_rows, pair.output_cols),
                matrix,
                tiles: pair.tiles,
            },
        ),
        None => Err(error::invalid_text("dot_general output matrix tile count overflow")),
    }
}

fn narrow_lists(spec: &DotGeneralSpec, d: &DotDims, s: &DotSizes) -> (r: Result<
    Vec<[u32; 8]>,
    Error,
>)
    requires
        d.lb@ == spec@.lb(),
        d.rb@ == spec@.rb(),
        d.lc@ == spec@.lc(),
        d.rc@ == spec@.rc(),
        s.lo@ == spec@.lo(),
        s.ro@ == spec@.ro(),
    ensures
        ({
            let refusal = error::first_refusal(0, 9, list_checks(spec@.lists()));
            match r {
                Ok(v) => refusal is None && v@.len() == 9 && forall|i: int|
                    0 <= i < 9 ==> (#[trigger] v@[i])@ == dims::padded(spec@.lists()[i]),
                Err(e) => refusal == Some(e@),
            }
        }),
{
    let ghost checks = list_checks(spec@.lists());
    let mut out: Vec<[u32; 8]> = Vec::new();
    for i in 0..9usize
        invariant
            checks == list_checks(spec@.lists()),
            d.lb@ == spec@.lb(),
            d.rb@ == spec@.rb(),
            d.lc@ == spec@.lc(),
            d.rc@ == spec@.rc(),
            s.lo@ == spec@.lo(),
            s.ro@ == spec@.ro(),
            out@.len() == i,
            forall|j: int| 0 <= j < i ==> (#[trigger] out@[j])@ == dims::padded(spec@.lists()[j]),
            forall|j: int| 0 <= j < i ==> #[trigger] checks(j) is None,
    {
        proof {
            error::lemma_first_refusal_skip(0, i as int, 9, checks);
            assert(checks(i as int) == padded_refusal(
                spec@.lists()[i as int],
                list_name(i as int),
            ));
        }
        let words = match i {
            0 => padded_array(spec.output_shape.as_slice(), "output shape"),
            1 => padded_array(spec.lhs_shape.as_slice(), "lhs shape"),
            2 => padded_array(spec.rhs_shape.as_slice(), "rhs shape"),
            3 => padded_array(d.lb.as_slice(), "lhs batch dims"),
            4 => padded_array(d.rb.as_slice(), "rhs batch dims"),
            5 => padded_array(d.lc.as_slice(), "lhs contract dims"),
            6 => padded_array(d.rc.as_slice(), "rhs contract dims"),
            7 => padded_array(s.lo.as_slice(), "lhs outer dims"),
            _ => padded_array(s.ro.as_slice(), "rhs outer dims"),
        };
        match words {
            Ok(w) => {
                out.push(w);
            },
            Err(e) => {
                return Err(e);
            },
        }
    }
    proof {
        error::lemma_first_refusal_none(0, 9, checks);
    }
    Ok(out)
}

/// Checks a dot product and plans its kernel.
pub fn build_kernel_shape(spec: &DotGeneralSpec) -> (r: Result<DotGeneralKernelShape, Error>)
    ensures
        match r {
            Ok(s) => spec@.refusal() is None && s.of(spec@),
            Err(e) => spec@.refusal() == Some(e@),
        },
{
    let d = parse_form(spec)?;
    let s = check_form_sizes(spec, &d)?;
    let g = check_grids(spec)?;
    let o: usize = spec.output_shape.len();
    let values: Vec<usize> = vec![
        o,
        spec.lhs_shape.len(),
        spec.rhs_shape.len(),
        d.lb.len(),
        s.lo.len(),
        s.ro.len(),
        d.lc.len(),
        s.volume,
        g.lhs.0,
        g.lhs.1,
        g.rhs.0,
        g.rhs.1,
        spec.output_shape[o - 2],
        spec.output_shape[o - 1],
        g.out.0,
        g.out.1,
        g.matrix,
        g.tiles,
    ];
    assert(values@ =~= spec@.values());
    let names = list_value_names();
    let w = convert::narrow_fields(&values, &names)?;
    let t = narrow_lists(spec, &d, &s)?;
    let shape = DotGeneralKernelShape {
        output_rank: w[0],
        lhs_rank: w[1],
        rhs_rank: w[2],
        batch_count: w[3],
        lhs_outer_count: w[4],
        rhs_outer_count: w[5],
        contract_count: w[6],
        contract_volume: w[7],
        lhs_tile_rows: w[8],
        lhs_tiles_per_row: w[9],
        rhs_tile_rows: w[10],
        rhs_tiles_per_row: w[11],
        output_rows: w[12],
        output_cols: w[13],
        output_tile_rows: w[14],
        output_tiles_per_row: w[15],
        output_matrix_tiles: w[16],
        output_tile_count: w[17],
        output_shape: t[0],
        lhs_shape: t[1],
        rhs_shape: t[2],
        lhs_batch_dims: t[3],
        rhs_batch_dims: t[4],
        lhs_contract_dims: t[5],
        rhs_contract_dims: t[6],
        lhs_outer_dims: t[7],
        rhs_outer_dims: t[8],
    };
    assert(shape.numbers().push(shape.output_tile_count) =~= convert::field_words(spec@.values()));
    Ok(shape)
}

/// Dimensions that are contracted with each other have the same size.
pub proof fn lemma_contracted_sizes(p: Product, i: int)
    requires
        p.refusal() is None,
        0 <= i < p.lhs_contract.len(),
    ensures
        p.lhs[p.lc()[i] as int] == p.rhs[p.rc()[i] as int],
{
    let checks = contract_size_checks(p.lhs, p.rhs, p.lc(), p.rc());
    error::lemma_first_refusal_none(0, p.lhs_contract.len() as int, checks);
    assert(checks(i) is None);
}

/// Why a type is refused.
pub open spec fn dtype_refusal(dtype: DType, label: Seq<char>) -> Option<error::Refusal> {
    if dtype == DType::Float16B || dtype == DType::Float32 {
        None
    } else {
        Some(
            error::invalid(
                label + " currently supports Float16B and Float32, got "@ + dtype.shown(),
            ),
        )
    }
}

/// Whether a type is the short one of the two.
fn dtype_is_bf16(dtype: DType, label: &str) -> (r: Result<bool, Error>)
    ensures
        match r {
            Ok(b) => dtype_refusal(dtype, label@) is None && b == (dtype == DType::Float16B),
            Err(e) => dtype_refusal(dtype, label@) == Some(e@),
        },
{
    match dtype {
        DType::Float16B => Ok(true),
        DType::Float32 => Ok(false),
        _ => Err(
            error::invalid_input(
                text::cat3(label, " currently supports Float16B and Float32, got ", dtype.name()),
            ),
        ),
    }
}

/// Why one of three types is refused.
pub open spec fn dtypes_refusal(lhs: DType, rhs: DType, output: DType) -> Option<error::Refusal> {
    if dtype_refusal(lhs, "dot_general lhs"@) is Some {
        dtype_refusal(lhs, "dot_general lhs"@)
    } else if dtype_refusal(rhs, "dot_general rhs"@) is Some {
        dtype_refusal(rhs, "dot_general rhs"@)
    } else {
        dtype_refusal(output, "dot_general output"@)
    }
}

/// The source of the reader.
pub open spec fn reader_text(lhs: DType, rhs: DType, output: DType, body: Seq<char>) -> Seq<char> {
    common::definition("DOT_GENERAL_MAX_RANK"@, text::dec(8)) + common::definition(
        "DOT_GENERAL_LHS_BF16"@,
        text::dec(common::flag(lhs == DType::Float16B)),
    ) + common::definition(
        "DOT_GENERAL_RHS_BF16"@,
        text::dec(common::flag(rhs == DType::Float16B)),
    ) + common::definition(
        "DOT_GENERAL_OUTPUT_BF16"@,
        text::dec(common::flag(output == DType::Float16B)),
    ) + body
}

/// Generates the source of the reader in front of its fixed part.
pub fn reader_source(lhs: DType, rhs: DType, output: DType, body: &str) -> (r: Result<
    String,
    Error,
>)
    ensures
        match r {
            Ok(s) => dtypes_refusal(lhs, rhs, output) is None && s@ == reader_text(
                lhs,
                rhs,
                output,
                body@,
            ),
            Err(e) => dtypes_refusal(lhs, rhs, output) == Some(e@),
        },
{
    let l: bool = dtype_is_bf16(lhs, "dot_general lhs")?;
    let r: bool = dtype_is_bf16(rhs, "dot_general rhs")?;
    let o: bool = dtype_is_bf16(output, "dot_general output")?;
    let rank = text::decimal_usize(MAX_RANK);
    let mut out = common::defined("DOT_GENERAL_MAX_RANK", rank.as_str());
    common::define_word(&mut out, "DOT_GENERAL_LHS_BF16", common::flag_word(l));
    common::define_word(&mut out, "DOT_GENERAL_RHS_BF16", common::flag_word(r));
    common::define_word(&mut out, "DOT_GENERAL_OUTPUT_BF16", common::flag_word(o));
    out.append(body);
    Ok(out)
}

/// What the program of a product depends on.
#[derive(Clone, Debug, Hash, PartialEq, Eq)]
pub struct DotGeneralProgramKey {
    pub cores: Vec<CoreCoord>,
    pub lhs_dtype: DType,
    pub rhs_dtype: DType,
    pub output_dtype: DType,
    pub shape: DotGeneralKernelShape,
}

/// The arguments of the reader.
pub open spec fn reader_words(s: DotGeneralKernelShape) -> SectionWords {
    SectionWords {
        head: common::zero_words(2),
        range: RangeWords::OffsetAndCount,
        tail: s.numbers() + s.tables(),
    }
}

fn list_reader_words(s: &DotGeneralKernelShape) -> (r: Vec<u32>)
    ensures
        r@ == s.numbers() + s.tables(),
        r@.len() == 89,
{
    let mut out: Vec<u32> = vec![
        s.output_rank,
        s.lhs_rank,
        s.rhs_rank,
        s.batch_count,
        s.lhs_outer_count,
        s.rhs_outer_count,
        s.contract_count,
        s.contract_volume,
        s.lhs_tile_rows,
        s.lhs_tiles_per_row,
        s.rhs_tile_rows,
        s.rhs_tiles_per_row,
        s.output_rows,
        s.output_cols,
        s.output_tile_rows,
        s.output_tiles_per_row,
        s.output_matrix_tiles,
    ];
    assert(out@ =~= s.numbers());
    let mut tables: Vec<u32> = Vec::new();
    bytes::extend_words(&mut tables, s.output_shape.as_slice());
    assert(tables@ =~= s.output_shape@);
    bytes::extend_words(&mut tables, s.lhs_shape.as_slice());
    bytes::extend_words(&mut tables, s.rhs_shape.as_slice());
    bytes::extend_words(&mut tables, s.lhs_batch_dims.as_slice());
    bytes::extend_words(&mut tables, s.rhs_batch_dims.as_slice());
    bytes::extend_words(&mut tables, s.lhs_contract_dims.as_slice());
    bytes::extend_words(&mut tables, s.rhs_contract_dims.as_slice());
    bytes::extend_words(&mut tables, s.lhs_outer_dims.as_slice());
    bytes::extend_words(&mut tables, s.rhs_outer_dims.as_slice());
    bytes::extend_words(&mut out, tables.as_slice());
    out
}

/// Why there is no program for a product.
pub open spec fn program_refusal(key: DotGeneralProgramKey) -> Option<error::Refusal> {
    if lowering::listed_refusal(key.cores@) is Some {
        lowering::listed_refusal(key.cores@)
    } else {
        dtypes_refusal(key.lhs_dtype, key.rhs_dtype, key.output_dtype)
    }
}

pub open spec fn program_cbs(lhs: DType, rhs: DType, output: DType) -> Seq<KernelCb> {
    seq![KernelCb::double(0, lhs), KernelCb::double(1, rhs), KernelCb::double(16, output)]
}

/// Builds the program of a product from the fixed parts of its kernels.
pub fn dot_general_program(key: &DotGeneralProgramKey, reader_body: &str, writer_source: &str) -> (r:
    Result<LoweredProgram, Error>)
    ensures
        match r {
            Ok(p) => {
                &&& program_refusal(*key) is None
                &&& p.reader_kernel@ == reader_text(
                    key.lhs_dtype,
                    key.rhs_dtype,
                    key.output_dtype,
                    reader_body@,
                )
                &&& p.compute_kernel@ == ""@
                &&& p.writer_kernel@ == writer_source@
                &&& p.is_uniform()
                &&& p.name@ == "dot_general_"@ + key.lhs_dtype.shown() + "_"@
                    + key.rhs_dtype.shown() + "_"@ + key.output_dtype.shown() + "_rank"@
                    + text::dec(key.shape.output_rank as int)
                &&& p.compile@ == lowering::plain_config(
                    program_cbs(key.lhs_dtype, key.rhs_dtype, key.output_dtype),
                )
                &&& lowering::assigns(
                    p.runtime_args,
                    key.cores@,
                    common::dealt(
                        key.cores@,
                        key.shape.output_tile_count,
                        common::ranged(common::zero_words(1)),
                        reader_words(key.shape),
                        common::no_words(),
                    ),
                    0,
                    common::first_dynamic(1, 2),
                )
            },
            Err(e) => program_refusal(*key) == Some(e@),
        },
{
    let writer = Section::ranged(common::zeros(1));
    let reader = Section {
        head: common::zeros(2),
        range: RangeWords::OffsetAndCount,
        tail: list_reader_words(&key.shape),
    };
    let compute = Section::empty();
    assert(writer@ == common::ranged(common::zero_words(1))) by {
        assert(writer@.tail =~= Seq::empty());
    }
    assert(compute@ == common::no_words()) by {
        assert(compute@.head =~= Seq::empty());
        assert(compute@.tail =~= Seq::empty());
    }
    let writer_dynamic = common::index_list(1);
    let reader_dynamic = common::index_list(2);
    let args = common::deal(
        key.cores.as_slice(),
        key.shape.output_tile_count,
        &writer,
        &reader,
        &compute,
        writer_dynamic,
        reader_dynamic,
    )?;
    let source = reader_source(key.lhs_dtype, key.rhs_dtype, key.output_dtype, reader_body)?;
    let cbs: Vec<KernelCb> = vec![
        KernelCb::new(0, key.lhs_dtype),
        KernelCb::new(1, key.rhs_dtype),
        KernelCb::new(16, key.output_dtype),
    ];
    assert(cbs@ =~= program_cbs(key.lhs_dtype, key.rhs_dtype, key.output_dtype));
    let front = text::cat6(
        "dot_general_",
        key.lhs_dtype.name(),
        "_",
        key.rhs_dtype.name(),
        "_",
        key.output_dtype.name(),
    );
    Ok(
        LoweredProgram::uniform(
            source,
            "".to_owned(),
            writer_source.to_owned(),
            text::cat3(
                front.as_str(),
                "_rank",
                text::decimal_u32(key.shape.output_rank).as_str(),
            ),
            CompileConfig::plain(cbs),
            args,
        ),
    )
}

/// The kernel that computes a product.
#[derive(Clone, Debug)]
pub enum DotKernel {
    General(DotGeneralKernelShape),
    Score(DpaScoreShape),
    Value(DpaValueShape),
}

/// A checked product: the kernel that computes it and the tensor that it writes.
#[derive(Clone, Debug)]
pub struct DotRequest {
    pub kernel: DotKernel,
    pub output_dtype: DType,
    pub output_tiles: usize,
    pub output_shape: Vec<usize>,
}

/// Why a product is refused on the given tensors.
pub open spec fn request_refusal(lhs: DramBuffer, rhs: DramBuffer, p: Product) -> Option<
    error::Refusal,
> {
    let left = common::layout_refusal(
        "dot_general lhs"@,
        lhs.shape@,
        lhs.num_tiles as int,
        p.lhs,
    );
    let right = common::layout_refusal(
        "dot_general rhs"@,
        rhs.shape@,
        rhs.num_tiles as int,
        p.rhs,
    );
    if dtypes_refusal(lhs.dtype, rhs.dtype, p.dtype) is Some {
        dtypes_refusal(lhs.dtype, rhs.dtype, p.dtype)
    } else if left is Some {
        left
    } else if right is Some {
        right
    } else if p.refusal() is Some {
        p.refusal()
    } else if dpa::score_refusal(p, lhs.dtype, rhs.dtype) is Some {
        dpa::score_refusal(p, lhs.dtype, rhs.dtype)
    } else if dpa::score_taken(p, lhs.dtype, rhs.dtype) {
        None
    } else {
        dpa_value::value_refusal(p, lhs.dtype, rhs.dtype)
    }
}

/// Whether the kernel is the one for a product: a special one where it applies.
pub open spec fn is_chosen(k: DotKernel, p: Product, lhs: DType, rhs: DType) -> bool {
    match k {
        DotKernel::Score(s) => dpa::score_taken(p, lhs, rhs) && s.words()
            == convert::field_words(dpa::score_values(p)),
        DotKernel::Value(s) => !dpa::score_taken(p, lhs, rhs) && dpa_value::value_taken(
            p,
            lhs,
            rhs,
        ) && s.words() == convert::field_words(dpa_value::value_values(p)),
        DotKernel::General(s) => !dpa::score_taken(p, lhs, rhs) && !dpa_value::value_taken(
            p,
            lhs,
            rhs,
        ) && s.of(p),
    }
}

/// Checks a product and its tensors and chooses the kernel.
pub fn dot_general(lhs: &DramBuffer, rhs: &DramBuffer, spec: &DotGeneralSpec) -> (r: Result<
    DotRequest,
    Error,
>)
    ensures
        match r {
            Ok(q) => {
                &&& request_refusal(*lhs, *rhs, spec@) is None
                &&& is_chosen(q.kernel, spec@, lhs.dtype, rhs.dtype)
                &&& q.output_dtype == spec@.dtype
                &&& dram::tile_count(spec@.out) == Some(q.output_tiles as int)
                &&& q.output_shape@ == dram::tiled_shape(spec@.out)
            },
            Err(e) => request_refusal(*lhs, *rhs, spec@) == Some(e@),
        },
{
    let _l: bool = dtype_is_bf16(lhs.dtype, "dot_general lhs")?;
    let _r: bool = dtype_is_bf16(rhs.dtype, "dot_general rhs")?;
    let _o: bool = dtype_is_bf16(spec.output_dtype, "dot_general output")?;
    common::check_layout("dot_general lhs", lhs, spec.lhs_shape.as_slice())?;
    common::check_layout("dot_general rhs", rhs, spec.rhs_shape.as_slice())?;
    let shape = build_kernel_shape(spec)?;
    let score = dpa::try_dpa_score_dot(spec, lhs.dtype, rhs.dtype)?;
    let kernel = match score {
        Some(s) => DotKernel::Score(s),
        None => {
            let value = dpa_value::try_dpa_value_dot(spec, lhs.dtype, rhs.dtype)?;
            match value {
                Some(v) => DotKernel::Value(v),
                None => DotKernel::General(shape),
            }
        },
    };
    let output_shape = dram::tiled_allocation_shape(spec.output_shape.as_slice())?;
    let output_tiles: usize = dram::tiled_shape_tile_count(spec.output_shape.as_slice())?;
    Ok(DotRequest { kernel, output_dtype: spec.output_dtype, output_tiles, output_shape })
}

/// Why the addresses of a product are refused.
pub open spec fn addresses_refusal(lhs: u64, rhs: u64, output: u64) -> Option<error::Refusal> {
    common::triple_refusal(
        lhs,
        "lhs address"@,
        rhs,
        "rhs address"@,
        output,
        "output address"@,
    )
}

/// The kernel of a product with the addresses of one run.
pub fn dot_kernel<K>(lhs_addr: u64, rhs_addr: u64, output_addr: u64, key: K) -> (r: Result<
    DramKernel<K>,
    Error,
>)
    ensures
        match r {
            Ok(k) => {
                &&& addresses_refusal(lhs_addr, rhs_addr, output_addr) is None
                &&& k.reader_addrs@ == seq![lhs_addr as u32, rhs_addr as u32]
                &&& k.output_addr == output_addr
                &&& k.key == key
            },
            Err(e) => addresses_refusal(lhs_addr, rhs_addr, output_addr) == Some(e@),
        },
{
    common::triple_kernel(
        lhs_addr,
        "lhs address",
        rhs_addr,
        "rhs address",
        output_addr,
        "output address",
        key,
    )
}

/// How many tiles are dealt out over the cores.
pub open spec fn work_of(k: DotKernel) -> u32 {
    match k {
        DotKernel::General(s) => s.output_tile_count,
        DotKernel::Score(s) => s.output_tile_count,
        DotKernel::Value(s) => s.work_tile_count,
    }
}

/// Chooses the cores of a product.
pub fn dot_cores(available: &[CoreCoord], request: &DotRequest) -> (r: Result<
    Vec<CoreCoord>,
    Error,
>)
    ensures
        match r {
            Ok(v) => kernel::select_refusal(available@) is None && v@ == kernel::chosen_cores(
                available@,
                work_of(request.kernel) as int,
            ),
            Err(e) => kernel::select_refusal(available@) == Some(e@),
        },
{
    let work: u32 = match &request.kernel {
        DotKernel::General(s) => s.output_tile_count,
        DotKernel::Score(s) => s.output_tile_count,
        DotKernel::Value(s) => s.work_tile_count,
    };
    kernel::select_worker_cores(available, work as usize)
}

} // verus!
