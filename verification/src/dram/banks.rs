//! Interleaving of pages over memory banks.

use vstd::prelude::*;
use vstd::arithmetic::div_mod::*;
use crate::arith;
use crate::dram::layout;

verus! {

/// Page `p` of `data`; the last page may be short.
pub open spec fn page(data: Seq<u8>, page_size: int, p: int) -> Seq<u8> {
    data.subrange(p * page_size, arith::min2(data.len() as int, p * page_size + page_size))
}

/// Pages `first`, `first + stride`, `first + 2 * stride`, ... of `data`, one after the other.
pub open spec fn strided_pages(data: Seq<u8>, page_size: int, first: int, stride: int) -> Seq<u8>
    decreases arith::max2(data.len() - first * page_size, 0),
{
    if page_size <= 0 || stride <= 0 || first < 0 || first * page_size >= data.len() {
        Seq::empty()
    } else {
        proof {
            assert((first + stride) * page_size > first * page_size) by (nonlinear_arith)
                requires
                    page_size > 0,
                    stride > 0,
            ;
        }
        page(data, page_size, first) + strided_pages(data, page_size, first + stride, stride)
    }
}

/// Collects the pages of one bank.
pub fn collect_bank_data(data: &[u8], page_size: usize, bank_index: usize, bank_count: usize) -> (r:
    Vec<u8>)
    requires
        page_size > 0,
        bank_count > 0,
    ensures
        r@ == strided_pages(data@, page_size as int, bank_index as int, bank_count as int),
{
    let mut out: Vec<u8> = Vec::new();
    let len: usize = data.len();
    let page_count: usize = arith::div_ceil(len, page_size);
    proof {
        arith::lemma_ceil_div(len as int, page_size as int);
        arith::lemma_round_up(len as int, page_size as int);
    }
    let ghost total = strided_pages(data@, page_size as int, bank_index as int, bank_count as int);
    if bank_index >= page_count {
        proof {
            assert(bank_index * page_size >= page_count * page_size) by (nonlinear_arith)
                requires
                    bank_index >= page_count,
            ;
            assert(total =~= out@);
        }
        return out;
    }
    let mut p: usize = bank_index;
    loop
        invariant
            page_size > 0,
            bank_count > 0,
            len == data@.len(),
            len <= page_count * page_size < len + page_size,
            total == strided_pages(
                data@,
                page_size as int,
                bank_index as int,
                bank_count as int,
            ),
            p < page_count,
            total == out@ + strided_pages(data@, page_size as int, p as int, bank_count as int),
        decreases page_count - p,
    {
        proof {
            lemma_page_starts(len as int, page_size as int, page_count as int, p as int);
        }
        let start: usize = p * page_size;
        let end: usize = if len - start <= page_size {
            len
        } else {
            start + page_size
        };
        let ghost before = out@;
        let ghost rest = strided_pages(
            data@,
            page_size as int,
            p + bank_count,
            bank_count as int,
        );
        for i in start..end
            invariant
                start <= i <= end <= data@.len(),
                out@ == before + data@.subrange(start as int, i as int),
        {
            out.push(data[i]);
            assert(data@.subrange(start as int, i + 1) =~= data@.subrange(
                start as int,
                i as int,
            ).push(data@[i as int]));
            assert(out@ =~= before + data@.subrange(start as int, i + 1));
        }
        assert(out@ == before + page(data@, page_size as int, p as int));
        assert(total =~= out@ + rest);
        if page_count - p <= bank_count {
            proof {
                assert((p + bank_count) * page_size >= page_count * page_size) by (nonlinear_arith)
                    requires
                        p + bank_count >= page_count,
                ;
                assert(total =~= out@);
            }
            return out;
        }
        p = p + bank_count;
    }
}

/// A page that exists starts in the data.
proof fn lemma_page_starts(len: int, page_size: int, page_count: int, p: int)
    requires
        page_size > 0,
        0 <= p < page_count,
        page_count * page_size < len + page_size,
    ensures
        0 <= p * page_size < len,
{
    assert(0 <= p * page_size < len) by (nonlinear_arith)
        requires
            page_size > 0,
            0 <= p,
            p + 1 <= page_count,
            page_count * page_size < len + page_size,
    ;
}

/// Whether page `p` is one of `first`, `first + stride`, `first + 2 * stride`, ...
pub open spec fn on_stride(p: int, first: int, stride: int) -> bool {
    p >= first && (p - first) % stride == 0
}

/// `out` with the pages of one bank taken from `bytes`.
pub open spec fn scattered(
    out: Seq<u8>,
    page_size: int,
    first: int,
    stride: int,
    bytes: Seq<u8>,
) -> Seq<u8> {
    Seq::new(
        out.len(),
        |k: int|
            if on_stride(k / page_size, first, stride) {
                bytes[((k / page_size - first) / stride) * page_size + k % page_size]
            } else {
                out[k]
            },
    )
}

/// Whether `bytes` reaches far enough to fill the pages of one bank of `len` bytes.
pub open spec fn covers(len: int, page_size: int, first: int, stride: int, bytes: int) -> bool {
    forall|k: int|
        0 <= k < len && on_stride(#[trigger] (k / page_size), first, stride) ==> ((k / page_size
            - first) / stride) * page_size + k % page_size < bytes
}

/// Puts the pages of one bank back to their places.
pub fn scatter_bank_data(
    out: &mut Vec<u8>,
    page_size: usize,
    bank_index: usize,
    bank_count: usize,
    bank_data: &[u8],
)
    requires
        page_size > 0,
        bank_count > 0,
        covers(
            old(out)@.len() as int,
            page_size as int,
            bank_index as int,
            bank_count as int,
            bank_data@.len() as int,
        ),
    ensures
        final(out)@ == scattered(
            old(out)@,
            page_size as int,
            bank_index as int,
            bank_count as int,
            bank_data@,
        ),
{
    let len: usize = out.len();
    let page_count: usize = arith::div_ceil(len, page_size);
    let mut p: usize = bank_index;
    let mut slot: usize = 0;
    let bank_len: usize = bank_data.len();
    let ghost first = bank_index as int;
    let ghost stride = bank_count as int;
    let ghost ps = page_size as int;
    let ghost start_out = out@;
    let ghost want = scattered(out@, ps, first, stride, bank_data@);
    proof {
        arith::lemma_ceil_div(len as int, ps);
        arith::lemma_round_up(len as int, ps);
        assert forall|k: int| 0 <= k < len && k < p * ps implies #[trigger] out@[k] == want[k] by {
            lemma_fundamental_div_mod(k, ps);
            assert(k / ps < p) by (nonlinear_arith)
                requires
                    k == ps * (k / ps) + k % ps,
                    0 <= k % ps,
                    k < p * ps,
                    ps > 0,
            ;
        }
    }
    if p >= page_count {
        proof {
            lemma_all_below(len as int, ps, page_count as int, p as int);
            assert(out@ =~= want);
        }
        return ;
    }
    loop
        invariant
            bank_len == bank_data@.len(),
            ps == page_size > 0,
            stride == bank_count > 0,
            first == bank_index,
            len <= page_count * page_size < len + page_size,
            p < page_count,
            p == first + slot * stride,
            out@.len() == len == start_out.len(),
            covers(len as int, ps, first, stride, bank_data@.len() as int),
            want == scattered(start_out, ps, first, stride, bank_data@),
            forall|k: int| 0 <= k < len && k < p * ps ==> #[trigger] out@[k] == want[k],
            forall|k: int| 0 <= k < len && p * ps <= k ==> #[trigger] out@[k] == start_out[k],
            want == scattered(
                old(out)@,
                page_size as int,
                bank_index as int,
                bank_count as int,
                bank_data@,
            ),
        decreases page_count - p,
    {
        proof {
            lemma_page_starts(len as int, ps, page_count as int, p as int);
            lemma_on_stride(slot as int, first, stride);
            assert(slot <= p) by (nonlinear_arith)
                requires
                    p == first + slot * stride,
                    stride > 0,
                    first >= 0,
            ;
        }
        let out_start: usize = p * page_size;
        let n: usize = arith::min_usize(len - out_start, page_size);
        for i in 0..n
            invariant
                bank_len == bank_data@.len(),
                ps == page_size > 0,
                stride == bank_count > 0,
                out_start == p * page_size,
                out_start + n <= len,
                n <= page_size,
                len == start_out.len(),
                out@.len() == len,
                on_stride(p as int, first, stride),
                (p - first) / stride == slot,
                covers(len as int, ps, first, stride, bank_data@.len() as int),
                want == scattered(start_out, ps, first, stride, bank_data@),
                forall|k: int| 0 <= k < out_start + i ==> #[trigger] out@[k] == want[k],
                forall|k: int|
                    out_start + i <= k < len ==> #[trigger] out@[k] == start_out[k],
        {
            proof {
                layout::lemma_div_mod(p as int, ps, i as int);
                assert(slot * page_size >= 0) by (nonlinear_arith);
                assert((out_start + i) / ps == p);
                assert(slot * page_size + i < bank_data@.len());
                assert(slot * page_size <= slot * page_size + i);
            }
            let bank_start: usize = slot * page_size;
            out.set(out_start + i, bank_data[bank_start + i]);
        }
        assert forall|k: int| 0 <= k < len && k < (p + bank_count) * ps implies #[trigger] out@[k]
            == want[k] by {
            if k >= out_start + n {
                assert(n == page_size);
                lemma_between(k, p as int, stride, ps);
                lemma_off_stride(k / ps, p as int, slot as int, first, stride);
            }
        }
        assert forall|k: int| 0 <= k < len && (p + bank_count) * ps <= k implies #[trigger] out@[k]
            == start_out[k] by {
            assert((p + bank_count) * ps >= p * ps + ps) by (nonlinear_arith)
                requires
                    bank_count > 0,
                    ps > 0,
            ;
        }
        if page_count - p <= bank_count {
            proof {
                lemma_all_below(len as int, ps, page_count as int, p + bank_count);
                assert(out@ =~= want);
            }
            return ;
        }
        proof {
            assert(p + bank_count == first + (slot + 1) * stride) by (nonlinear_arith)
                requires
                    p == first + slot * stride,
                    stride == bank_count,
            ;
        }
        p = p + bank_count;
        slot = slot + 1;
    }
}

/// No byte of the data lies in a page that does not exist, or behind it.
proof fn lemma_all_below(len: int, page_size: int, page_count: int, p: int)
    requires
        page_size > 0,
        len <= page_count * page_size,
        p >= page_count,
    ensures
        len <= p * page_size,
{
    assert(len <= p * page_size) by (nonlinear_arith)
        requires
            page_size > 0,
            len <= page_count * page_size,
            p >= page_count,
    ;
}

proof fn lemma_on_stride(slot: int, first: int, stride: int)
    requires
        slot >= 0,
        stride > 0,
    ensures
        on_stride(first + slot * stride, first, stride),
        (first + slot * stride - first) / stride == slot,
{
    layout::lemma_div_mod(slot, stride, 0);
    assert(slot * stride >= 0) by (nonlinear_arith)
        requires
            slot >= 0,
            stride > 0,
    ;
}

proof fn lemma_between(k: int, p: int, stride: int, ps: int)
    requires
        ps > 0,
        p * ps + ps <= k < (p + stride) * ps,
    ensures
        p < k / ps < p + stride,
{
    lemma_fundamental_div_mod(k, ps);
    let q = k / ps;
    assert(p < q < p + stride) by (nonlinear_arith)
        requires
            k == ps * q + k % ps,
            0 <= k % ps < ps,
            p * ps + ps <= k < (p + stride) * ps,
            ps > 0,
    ;
}

proof fn lemma_off_stride(q: int, p: int, slot: int, first: int, stride: int)
    requires
        stride > 0,
        slot >= 0,
        p == first + slot * stride,
        p < q < p + stride,
    ensures
        !on_stride(q, first, stride),
{
    layout::lemma_div_mod(slot, stride, q - p);
}

/// Byte `k` of `data` is found in the collected pages of its bank.
pub proof fn lemma_strided_byte(data: Seq<u8>, page_size: int, first: int, stride: int, k: int)
    requires
        page_size > 0,
        stride > 0,
        first >= 0,
        0 <= k < data.len(),
        on_stride(k / page_size, first, stride),
    ensures
        ({
            let at = ((k / page_size - first) / stride) * page_size + k % page_size;
            let s = strided_pages(data, page_size, first, stride);
            0 <= at < s.len() && s[at] == data[k]
        }),
    decreases k / page_size - first,
{
    let q = k / page_size;
    lemma_fundamental_div_mod(k, page_size);
    assert(page_size * q == q * page_size) by (nonlinear_arith);
    assert(first * page_size <= q * page_size) by (nonlinear_arith)
        requires
            first <= q,
            page_size > 0,
    ;
    assert(first * page_size >= 0) by (nonlinear_arith)
        requires
            first >= 0,
            page_size > 0,
    ;
    let head = page(data, page_size, first);
    let tail = strided_pages(data, page_size, first + stride, stride);
    let slot = (q - first) / stride;
    lemma_fundamental_div_mod(q - first, stride);
    if q == first {
        assert(slot == 0) by {
            lemma_div_of0(stride);
        }
        assert(0 * page_size == 0);
    } else {
        assert(stride * slot == slot * stride) by (nonlinear_arith);
        assert(slot >= 1) by (nonlinear_arith)
            requires
                q - first == slot * stride,
                q > first,
                stride > 0,
        ;
        assert(q - (first + stride) == (slot - 1) * stride) by (nonlinear_arith)
            requires
                q - first == slot * stride,
        ;
        layout::lemma_div_mod(slot - 1, stride, 0);
        assert((slot - 1) * stride >= 0) by (nonlinear_arith)
            requires
                slot >= 1,
                stride > 0,
        ;
        lemma_strided_byte(data, page_size, first + stride, stride, k);
        assert((first + 1) * page_size <= q * page_size) by (nonlinear_arith)
            requires
                first + 1 <= q,
                page_size > 0,
        ;
        assert((first + 1) * page_size == first * page_size + page_size) by (nonlinear_arith);
        assert(head.len() == page_size);
        assert(slot * page_size == (slot - 1) * page_size + page_size) by (nonlinear_arith);
    }
}

/// A bank with `count` whole pages holds `count` pages of bytes.
pub proof fn lemma_strided_len(data: Seq<u8>, page_size: int, first: int, stride: int, count: int)
    requires
        page_size > 0,
        stride > 0,
        first >= 0,
        count >= 0,
        count > 0 ==> (first + (count - 1) * stride + 1) * page_size <= data.len(),
        data.len() <= (first + count * stride) * page_size,
    ensures
        strided_pages(data, page_size, first, stride).len() == count * page_size,
    decreases count,
{
    if count > 0 {
        assert((first + 1) * page_size <= data.len()) by (nonlinear_arith)
            requires
                (first + (count - 1) * stride + 1) * page_size <= data.len(),
                count >= 1,
                stride > 0,
                page_size > 0,
        ;
        assert((first + 1) * page_size == first * page_size + page_size) by (nonlinear_arith);
        assert(first * page_size >= 0) by (nonlinear_arith)
            requires
                first >= 0,
                page_size > 0,
        ;
        assert(first + stride + (count - 2) * stride == first + (count - 1) * stride)
            by (nonlinear_arith);
        assert(first + stride + (count - 1) * stride == first + count * stride)
            by (nonlinear_arith);
        lemma_strided_len(data, page_size, first + stride, stride, count - 1);
        assert((count - 1) * page_size + page_size == count * page_size) by (nonlinear_arith);
    } else {
        assert(0 * stride == 0 && 0 * page_size == 0) by (nonlinear_arith);
    }
}

/// What is collected from `data` for a bank is enough to fill that bank's pages.
pub proof fn lemma_collected_covers(data: Seq<u8>, page_size: int, first: int, stride: int)
    requires
        page_size > 0,
        stride > 0,
        first >= 0,
    ensures
        covers(
            data.len() as int,
            page_size,
            first,
            stride,
            strided_pages(data, page_size, first, stride).len() as int,
        ),
{
    assert forall|k: int|
        0 <= k < data.len() && on_stride(#[trigger] (k / page_size), first, stride) implies ((k
        / page_size - first) / stride) * page_size + k % page_size < strided_pages(
        data,
        page_size,
        first,
        stride,
    ).len() by {
        lemma_strided_byte(data, page_size, first, stride, k);
    }
}

/// `out` after the pages of the banks in `order` were put back, one bank after the
/// other.
pub open spec fn restored(
    data: Seq<u8>,
    out: Seq<u8>,
    page_size: int,
    banks: int,
    order: Seq<int>,
) -> Seq<u8>
    decreases order.len(),
{
    if order.len() == 0 {
        out
    } else {
        let bank = order.last();
        scattered(
            restored(data, out, page_size, banks, order.drop_last()),
            page_size,
            bank,
            banks,
            strided_pages(data, page_size, bank, banks),
        )
    }
}

/// A page is one of a bank's exactly if it is dealt to that bank.
proof fn lemma_dealt(q: int, bank: int, banks: int)
    requires
        q >= 0,
        0 <= bank < banks,
    ensures
        on_stride(q, bank, banks) <==> q % banks == bank,
{
    lemma_fundamental_div_mod(q, banks);
    lemma_div_pos_is_pos(q, banks);
    let t = q / banks;
    assert(banks * t == t * banks) by (nonlinear_arith);
    assert(t * banks >= 0) by (nonlinear_arith)
        requires
            t >= 0,
            banks > 0,
    ;
    if q % banks == bank {
        layout::lemma_div_mod(t, banks, 0);
    }
    if on_stride(q, bank, banks) {
        lemma_fundamental_div_mod(q - bank, banks);
        let u = (q - bank) / banks;
        assert(banks * u == u * banks) by (nonlinear_arith);
        layout::lemma_div_mod(u, banks, bank);
    }
}

/// Putting back the pages of one bank leaves the length and the pages of the other
/// banks as they were.
pub proof fn lemma_scatter_frame(
    out: Seq<u8>,
    page_size: int,
    bank: int,
    banks: int,
    bytes: Seq<u8>,
    k: int,
)
    requires
        page_size > 0,
        0 <= bank < banks,
        0 <= k < out.len(),
    ensures
        scattered(out, page_size, bank, banks, bytes).len() == out.len(),
        (k / page_size) % banks != bank ==> scattered(out, page_size, bank, banks, bytes)[k]
            == out[k],
{
    lemma_div_pos_is_pos(k, page_size);
    lemma_dealt(k / page_size, bank, banks);
}

proof fn lemma_restored(
    data: Seq<u8>,
    out: Seq<u8>,
    page_size: int,
    banks: int,
    order: Seq<int>,
    k: int,
)
    requires
        page_size > 0,
        forall|i: int| 0 <= i < order.len() ==> 0 <= #[trigger] order[i] < banks,
        out.len() == data.len(),
        0 <= k < data.len(),
    ensures
        restored(data, out, page_size, banks, order).len() == data.len(),
        order.contains((k / page_size) % banks) ==> restored(data, out, page_size, banks, order)[k]
            == data[k],
    decreases order.len(),
{
    if order.len() > 0 {
        let rest = order.drop_last();
        let bank = order.last();
        lemma_restored(data, out, page_size, banks, rest, k);
        lemma_div_pos_is_pos(k, page_size);
        assert(0 <= order[order.len() - 1] < banks);
        lemma_dealt(k / page_size, bank, banks);
        if on_stride(k / page_size, bank, banks) {
            lemma_strided_byte(data, page_size, bank, banks, k);
        } else if order.contains((k / page_size) % banks) {
            let i = choose|i: int| 0 <= i < order.len() && order[i] == (k / page_size) % banks;
            assert(rest[i] == (k / page_size) % banks);
        }
    }
}

/// Collecting every bank and scattering it again restores the data, in whatever
/// order the banks are taken.
pub proof fn lemma_collect_scatter(
    data: Seq<u8>,
    out: Seq<u8>,
    page_size: int,
    banks: int,
    order: Seq<int>,
)
    requires
        page_size > 0,
        banks > 0,
        out.len() == data.len(),
        forall|i: int| 0 <= i < order.len() ==> 0 <= #[trigger] order[i] < banks,
        forall|bank: int| 0 <= bank < banks ==> #[trigger] order.contains(bank),
    ensures
        restored(data, out, page_size, banks, order) == data,
{
    let r = restored(data, out, page_size, banks, order);
    assert forall|k: int| 0 <= k < data.len() implies #[trigger] r[k] == data[k] by {
        lemma_restored(data, out, page_size, banks, order, k);
        lemma_mod_bound(k / page_size, banks);
        assert(order.contains((k / page_size) % banks));
    }
    lemma_restored_len(data, out, page_size, banks, order);
    assert(r =~= data);
}

proof fn lemma_restored_len(
    data: Seq<u8>,
    out: Seq<u8>,
    page_size: int,
    banks: int,
    order: Seq<int>,
)
    ensures
        restored(data, out, page_size, banks, order).len() == out.len(),
    decreases order.len(),
{
    if order.len() > 0 {
        lemma_restored_len(data, out, page_size, banks, order.drop_last());
    }
}

} // verus!
