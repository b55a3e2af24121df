//! Dimension lists of tensor operations.

use vstd::prelude::*;
use crate::arith;
use crate::convert;
use crate::error;
use crate::error::Error;
use crate::text;

verus! {

/// The dimensions that the listed ones leave, in ascending order.
pub open spec fn other_dims(listed: Seq<usize>, n: int) -> Seq<usize>
    decreases n,
{
    if n <= 0 {
        Seq::empty()
    } else if listed.contains((n - 1) as usize) {
        other_dims(listed, n - 1)
    } else {
        other_dims(listed, n - 1).push((n - 1) as usize)
    }
}

/// Lists the dimensions below `rank` that are not in `listed`.
pub fn find_other_dims(listed: &[usize], rank: usize) -> (r: Vec<usize>)
    ensures
        r@ == other_dims(listed@, rank as int),
        forall|i: int| 0 <= i < r@.len() ==> #[trigger] r@[i] < rank,
{
    let mut out: Vec<usize> = Vec::new();
    for d in 0..rank
        invariant
            out@ == other_dims(listed@, d as int),
            forall|i: int| 0 <= i < out@.len() ==> #[trigger] out@[i] < d,
    {
        if !arith::contains_usize(listed, d) {
            out.push(d);
        }
    }
    out
}

/// The sizes of the given dimensions.
pub open spec fn sizes(shape: Seq<usize>, dims: Seq<usize>) -> Seq<usize> {
    dims.map_values(|d: usize| shape[d as int])
}

/// Whether all dimensions exist in a shape.
pub open spec fn in_shape(shape: Seq<usize>, dims: Seq<usize>) -> bool {
    forall|i: int| 0 <= i < dims.len() ==> #[trigger] dims[i] < shape.len()
}

pub fn dim_sizes(shape: &[usize], dims: &[usize]) -> (r: Vec<usize>)
    requires
        in_shape(shape@, dims@),
    ensures
        r@ == sizes(shape@, dims@),
{
    let mut out: Vec<usize> = Vec::new();
    for i in 0..dims.len()
        invariant
            in_shape(shape@, dims@),
            out@ == sizes(shape@, dims@).take(i as int),
    {
        assert(dims@[i as int] < shape@.len());
        out.push(shape[dims[i]]);
        assert(out@ =~= sizes(shape@, dims@).take(i + 1));
    }
    assert(out@ =~= sizes(shape@, dims@));
    out
}

/// Appends words to a list.
pub fn extend_usizes(out: &mut Vec<usize>, v: &[usize])
    ensures
        final(out)@ == old(out)@ + v@,
{
    for i in 0..v.len()
        invariant
            out@ == old(out)@ + v@.take(i as int),
    {
        out.push(v[i]);
        assert(out@ =~= old(out)@ + v@.take(i + 1));
    }
    assert(v@.take(v@.len() as int) =~= v@);
}

/// Why value `i` of a list is no 32-bit word.
pub open spec fn narrow_checks(values: Seq<usize>, name: Seq<char>) -> spec_fn(int) -> Option<
    error::Refusal,
> {
    |i: int| convert::u32_refusal(values[i] as int, name)
}

/// A list filled up with zeros to eight words.
pub open spec fn padded(values: Seq<usize>) -> Seq<u32> {
    Seq::new(
        8,
        |i: int|
            if i < values.len() {
                values[i] as u32
            } else {
                0u32
            },
    )
}

/// The 32-bit words of a list of dimensions.
pub open spec fn narrowed(values: Seq<usize>) -> Seq<u32> {
    values.map_values(|v: usize| v as u32)
}

/// Why a shape is no list of 32-bit words; the refusal shows the size in the
/// given base and names the dimension.
pub open spec fn shape_word_checks(shape: Seq<usize>, name: Seq<char>, base: nat) -> spec_fn(
    int,
) -> Option<error::Refusal> {
    |i: int|
        {
            let label = name + " dimension "@ + text::dec(i);
            if base == 16 {
                convert::u32_hex_refusal(shape[i] as int, label)
            } else {
                convert::u32_refusal(shape[i] as int, label)
            }
        }
}

/// Why a shape is no list of 32-bit words.
pub open spec fn shape_word_refusal(shape: Seq<usize>, name: Seq<char>, base: nat) -> Option<
    error::Refusal,
> {
    error::first_refusal(0, shape.len() as int, shape_word_checks(shape, name, base))
}

/// Narrows a shape to 32-bit words.
pub fn u32_shape(shape: &[usize], name: &str, hexadecimal: bool) -> (r: Result<Vec<u32>, Error>)
    ensures
        ({
            let base: nat = if hexadecimal {
                16
            } else {
                10
            };
            match r {
                Ok(v) => shape_word_refusal(shape@, name@, base) is None && v@ == narrowed(shape@),
                Err(e) => shape_word_refusal(shape@, name@, base) == Some(e@),
            }
        }),
{
    let ghost base: nat = if hexadecimal {
        16
    } else {
        10
    };
    let n: usize = shape.len();
    let mut out: Vec<u32> = Vec::new();
    for i in 0..n
        invariant
            n == shape@.len(),
            base == (if hexadecimal {
                16nat
            } else {
                10nat
            }),
            out@ == narrowed(shape@).take(i as int),
            forall|j: int|
                0 <= j < i ==> #[trigger] shape_word_checks(shape@, name@, base)(j) is None,
    {
        proof {
            error::lemma_first_refusal_skip(
                0,
                i as int,
                n as int,
                shape_word_checks(shape@, name@, base),
            );
        }
        let label = text::cat3(name, " dimension ", text::decimal_usize(i).as_str());
        let value: u32 = if hexadecimal {
            convert::to_u32_hex(shape[i], label.as_str())?
        } else {
            convert::to_u32(shape[i], label.as_str())?
        };
        out.push(value);
        assert(out@ =~= narrowed(shape@).take(i + 1));
        assert(shape_word_checks(shape@, name@, base)(i as int) is None);
    }
    proof {
        error::lemma_first_refusal_none(0, n as int, shape_word_checks(shape@, name@, base));
    }
    assert(out@ =~= narrowed(shape@));
    Ok(out)
}

} // verus!
