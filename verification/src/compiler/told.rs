//! What kernels are told of their buffers.

use vstd::prelude::*;
use crate::compiler::headers;
use crate::dram;
use crate::kernels::lowering::KernelCb;
use crate::text;

verus! {

/// The format of a buffer that is listed once is the one it is listed with.
proof fn lemma_format(cbs: Seq<KernelCb>, n: int, k: int)
    requires
        0 <= k < n <= cbs.len(),
        forall|i: int, j: int|
            0 <= i < j < cbs.len() ==> (#[trigger] cbs[i]).index != (#[trigger] cbs[j]).index,
    ensures
        headers::format_of(cbs, n, cbs[k].index as int) == cbs[k].dtype,
    decreases n,
{
    if k < n - 1 {
        lemma_format(cbs, n - 1, k);
    }
}

/// Kernels are told of each buffer the numbers that it is made of and the bytes of a tile: those
/// of the type of its elements, of which a tile has thirty-two rows and columns.
pub proof fn lemma_buffer_told(cbs: Seq<KernelCb>, k: int)
    requires
        0 <= k < cbs.len(),
        cbs[k].index < 32,
        forall|i: int, j: int|
            0 <= i < j < cbs.len() ==> (#[trigger] cbs[i]).index != (#[trigger] cbs[j]).index,
    ensures
        ({
            let at = cbs[k].index as int;
            let d = cbs[k].dtype;
            &&& headers::format_codes(cbs).len() == 32
            &&& headers::tile_sizes(cbs).len() == 32
            &&& dram::format_of_code(headers::format_codes(cbs)[at] as u32) == Some(d.format())
            &&& headers::tile_sizes(cbs)[at] == 32 * 32 * (d.format().bits() / 8)
        }),
{
    lemma_format(cbs, cbs.len() as int, k);
    let at = cbs[k].index as int;
    let d = cbs[k].dtype;
    assert(headers::formats(cbs)[at] == d);
    assert(headers::format_codes(cbs)[at] == d.code());
    assert(headers::tile_sizes(cbs)[at] == d.tile_bytes());
    dram::lemma_format_width(d, d);
}

/// Numbers that are listed one after the other are told apart: each is written in decimal, in
/// the order of the list.
pub proof fn lemma_listed(v: Seq<int>)
    requires
        v.len() > 0,
    ensures
        v.len() == 1 ==> headers::listed(v) == text::dec(v[0]),
        v.len() > 1 ==> headers::listed(v) == headers::listed(v.drop_last()) + ", "@ + text::dec(
            v.last(),
        ),
{
    let none = ""@;
    reveal_strlit("");
    if v.len() == 1 {
        assert(text::dec(v[0]) + none =~= text::dec(v[0]));
    } else {
        let front = headers::listed(v.drop_last()) + ", "@ + text::dec(v.last());
        assert(front + none =~= front);
    }
}

} // verus!
