//! Allocation of address ranges that are the same in every bank.

use vstd::prelude::*;
use vstd::set_lib::*;
use crate::arith;
use crate::dram::DType;
use crate::error;
use crate::error::{Error, ErrorKind};
use crate::hw;
use crate::hw::Dram;
use crate::text;

verus! {

/// A range of free addresses.
#[derive(Clone, Copy, Debug, PartialEq, Eq, Structural)]
pub struct FreeBlock {
    pub addr: u64,
    pub size: u64,
}

impl FreeBlock {
    /// Whether address `a` lies in the block.
    pub open spec fn has(self, a: int) -> bool {
        self.addr <= a < self.addr + self.size
    }

    /// Whether `a` is an address of the block or the one behind it.
    pub open spec fn meets(self, a: int) -> bool {
        self.addr <= a <= self.addr + self.size
    }
}

/// Whether address `a` lies in one of the blocks.
pub open spec fn covered(free: Seq<FreeBlock>, a: int) -> bool {
    exists|i: int| 0 <= i < free.len() && (#[trigger] free[i]).has(a)
}

/// Whether `a` is an address of one of the blocks or the one behind it.
pub open spec fn met(free: Seq<FreeBlock>, a: int) -> bool {
    exists|i: int| 0 <= i < free.len() && (#[trigger] free[i]).meets(a)
}

/// Whether the end of each block is a 64-bit number.
pub open spec fn ends_fit(free: Seq<FreeBlock>) -> bool {
    forall|i: int|
        0 <= i < free.len() ==> (#[trigger] free[i]).addr + free[i].size <= u64::MAX
}

/// Blocks in ascending order, with used addresses between any two of them.
pub open spec fn apart(free: Seq<FreeBlock>) -> bool {
    forall|i: int, j: int|
        0 <= i < j < free.len() ==> #[trigger] free[i].addr + free[i].size < #[trigger] free[j].addr
}

/// A free list in normal form: non-empty blocks in ascending order, with used
/// addresses between any two of them.
pub open spec fn canonical(free: Seq<FreeBlock>) -> bool {
    &&& forall|i: int|
        0 <= i < free.len() ==> (#[trigger] free[i]).size > 0 && free[i].addr + free[i].size
            <= u64::MAX
    &&& forall|i: int, j: int|
        0 <= i < j < free.len() ==> #[trigger] free[i].addr + free[i].size < #[trigger] free[j].addr
}

/// Whether no block is empty.
pub open spec fn filled(free: Seq<FreeBlock>) -> bool {
    forall|i: int| 0 <= i < free.len() ==> (#[trigger] free[i]).size > 0
}

/// Blocks in ascending order of their addresses; they may overlap.
pub open spec fn ascending(free: Seq<FreeBlock>) -> bool {
    forall|i: int, j: int|
        0 <= i < j < free.len() ==> #[trigger] free[i].addr <= #[trigger] free[j].addr
}

/// Whether all addresses and sizes are multiples of the alignment of the memory.
pub open spec fn aligned(list: Seq<FreeBlock>) -> bool {
    forall|i: int|
        0 <= i < list.len() ==> (#[trigger] list[i]).addr % 64 == 0 && list[i].size % 64 == 0
}

/// Two free lists in normal form that cover the same addresses are the same.
pub proof fn lemma_canonical_unique(a: Seq<FreeBlock>, b: Seq<FreeBlock>)
    requires
        canonical(a),
        canonical(b),
        forall|x: int| covered(a, x) <==> covered(b, x),
    ensures
        a == b,
    decreases a.len(),
{
    if a.len() == 0 {
        if b.len() > 0 {
            assert(b[0].has(b[0].addr as int));
            assert(covered(b, b[0].addr as int));
        }
        assert(a =~= b);
    } else if b.len() == 0 {
        assert(a[0].has(a[0].addr as int));
        assert(covered(a, a[0].addr as int));
    } else {
        let la = a.last();
        let lb = b.last();
        let ea = la.addr + la.size;
        let eb = lb.addr + lb.size;
        // The lists end at the same address.
        assert(la.has(ea - 1) && lb.has(eb - 1));
        assert(covered(b, ea - 1) && covered(a, eb - 1));
        lemma_covered_below_end(a, eb - 1);
        lemma_covered_below_end(b, ea - 1);
        assert(ea == eb);
        // Their last blocks start at the same address.
        if la.addr < lb.addr {
            lemma_gap_before_last(b);
            assert(la.has(lb.addr - 1));
            assert(covered(a, lb.addr - 1));
        }
        if lb.addr < la.addr {
            lemma_gap_before_last(a);
            assert(lb.has(la.addr - 1));
            assert(covered(b, la.addr - 1));
        }
        assert(la == lb);
        let pa = a.drop_last();
        let pb = b.drop_last();
        assert forall|x: int| covered(pa, x) <==> covered(pb, x) by {
            lemma_covered_drop_last(a, x);
            lemma_covered_drop_last(b, x);
        }
        lemma_canonical_unique(pa, pb);
        assert(a =~= pa.push(la));
        assert(b =~= pb.push(lb));
    }
}

/// Two lists of blocks that lie apart, with the same addresses in the blocks and
/// behind them, are the same, even if some blocks are empty.
pub proof fn lemma_apart_unique(a: Seq<FreeBlock>, b: Seq<FreeBlock>)
    requires
        apart(a),
        apart(b),
        forall|x: int| covered(a, x) <==> covered(b, x),
        forall|x: int| met(a, x) <==> met(b, x),
    ensures
        a == b,
    decreases a.len(),
{
    if a.len() == 0 {
        if b.len() > 0 {
            assert(b[0].meets(b[0].addr as int));
            assert(met(b, b[0].addr as int));
        }
        assert(a =~= b);
    } else if b.len() == 0 {
        assert(a[0].meets(a[0].addr as int));
        assert(met(a, a[0].addr as int));
    } else {
        let la = a.last();
        let lb = b.last();
        let ea = la.addr + la.size;
        let eb = lb.addr + lb.size;
        // The lists end at the same address.
        assert(la.meets(ea) && lb.meets(eb));
        assert(met(a, ea) && met(b, eb));
        lemma_met_to_end(a, eb);
        lemma_met_to_end(b, ea);
        assert(ea == eb);
        // Their last blocks start at the same address.
        if la.addr < lb.addr {
            lemma_gap_before_last(b);
            assert(la.has(lb.addr - 1));
            assert(covered(a, lb.addr - 1));
        }
        if lb.addr < la.addr {
            lemma_gap_before_last(a);
            assert(lb.has(la.addr - 1));
            assert(covered(b, la.addr - 1));
        }
        assert(la == lb);
        let pa = a.drop_last();
        let pb = b.drop_last();
        assert forall|x: int| covered(pa, x) <==> covered(pb, x) by {
            lemma_covered_drop_last(a, x);
            lemma_covered_drop_last(b, x);
        }
        assert forall|x: int| met(pa, x) <==> met(pb, x) by {
            lemma_met_drop_last(a, x);
            lemma_met_drop_last(b, x);
        }
        assert forall|i: int, j: int| 0 <= i < j < pa.len() implies #[trigger] pa[i].addr
            + pa[i].size < #[trigger] pa[j].addr by {
            assert(a[i].addr + a[i].size < a[j].addr);
        }
        assert forall|i: int, j: int| 0 <= i < j < pb.len() implies #[trigger] pb[i].addr
            + pb[i].size < #[trigger] pb[j].addr by {
            assert(b[i].addr + b[i].size < b[j].addr);
        }
        lemma_apart_unique(pa, pb);
        assert(a =~= pa.push(la));
        assert(b =~= pb.push(lb));
    }
}

proof fn lemma_met_to_end(free: Seq<FreeBlock>, x: int)
    requires
        apart(free),
        met(free, x),
        free.len() > 0,
    ensures
        x <= free.last().addr + free.last().size,
{
    let i = choose|i: int| 0 <= i < free.len() && (#[trigger] free[i]).meets(x);
    if i < free.len() - 1 {
        assert(free[i].addr + free[i].size < free[free.len() - 1].addr);
    }
}

proof fn lemma_met_drop_last(free: Seq<FreeBlock>, x: int)
    requires
        apart(free),
        free.len() > 0,
    ensures
        met(free.drop_last(), x) <==> met(free, x) && !free.last().meets(x),
{
    let p = free.drop_last();
    if met(p, x) {
        let i = choose|i: int| 0 <= i < p.len() && (#[trigger] p[i]).meets(x);
        assert(free[i].meets(x));
        assert(free[i].addr + free[i].size < free[free.len() - 1].addr);
    }
    if met(free, x) && !free.last().meets(x) {
        let i = choose|i: int| 0 <= i < free.len() && (#[trigger] free[i]).meets(x);
        assert(p[i].meets(x));
    }
}

proof fn lemma_covered_below_end(free: Seq<FreeBlock>, x: int)
    requires
        canonical(free),
        covered(free, x),
        free.len() > 0,
    ensures
        x < free.last().addr + free.last().size,
{
    let i = choose|i: int| 0 <= i < free.len() && (#[trigger] free[i]).has(x);
    if i < free.len() - 1 {
        assert(free[i].addr + free[i].size < free[free.len() - 1].addr);
    }
}

proof fn lemma_gap_before_last(free: Seq<FreeBlock>)
    requires
        apart(free),
        free.len() > 0,
    ensures
        !covered(free, free.last().addr - 1),
{
    let x = free.last().addr - 1;
    if covered(free, x) {
        let i = choose|i: int| 0 <= i < free.len() && (#[trigger] free[i]).has(x);
        if i < free.len() - 1 {
            assert(free[i].addr + free[i].size < free[free.len() - 1].addr);
        }
    }
}

proof fn lemma_covered_drop_last(free: Seq<FreeBlock>, x: int)
    requires
        apart(free),
        free.len() > 0,
    ensures
        covered(free.drop_last(), x) <==> covered(free, x) && !free.last().has(x),
{
    let p = free.drop_last();
    if covered(p, x) {
        let i = choose|i: int| 0 <= i < p.len() && (#[trigger] p[i]).has(x);
        assert(free[i].has(x));
        assert(free[i].addr + free[i].size < free[free.len() - 1].addr);
    }
    if covered(free, x) && !free.last().has(x) {
        let i = choose|i: int| 0 <= i < free.len() && (#[trigger] free[i]).has(x);
        assert(p[i].has(x));
    }
}

proof fn lemma_covered_push(free: Seq<FreeBlock>, block: FreeBlock, a: int)
    ensures
        covered(free.push(block), a) <==> covered(free, a) || block.has(a),
{
    let g = free.push(block);
    if covered(g, a) {
        let i = choose|i: int| 0 <= i < g.len() && (#[trigger] g[i]).has(a);
        if i < free.len() {
            assert(free[i].has(a));
        }
    }
    if covered(free, a) {
        let i = choose|i: int| 0 <= i < free.len() && (#[trigger] free[i]).has(a);
        assert(g[i].has(a));
    }
    if block.has(a) {
        assert(g[free.len() as int].has(a));
    }
}

proof fn lemma_met_push(free: Seq<FreeBlock>, block: FreeBlock, a: int)
    ensures
        met(free.push(block), a) <==> met(free, a) || block.meets(a),
{
    let g = free.push(block);
    if met(g, a) {
        let i = choose|i: int| 0 <= i < g.len() && (#[trigger] g[i]).meets(a);
        if i < free.len() {
            assert(free[i].meets(a));
        }
    }
    if met(free, a) {
        let i = choose|i: int| 0 <= i < free.len() && (#[trigger] free[i]).meets(a);
        assert(g[i].meets(a));
    }
    if block.meets(a) {
        assert(g[free.len() as int].meets(a));
    }
}

/// Whether two lists hold the same blocks, in whatever order.
spec fn same_blocks(a: Seq<FreeBlock>, b: Seq<FreeBlock>) -> bool {
    forall|x: FreeBlock| #[trigger] a.contains(x) <==> b.contains(x)
}

/// What is said of each block, or of one, does not depend on the order.
proof fn lemma_same_blocks(a: Seq<FreeBlock>, b: Seq<FreeBlock>)
    requires
        same_blocks(a, b),
    ensures
        forall|x: int| #[trigger] covered(a, x) <==> covered(b, x),
        forall|x: int| #[trigger] met(a, x) <==> met(b, x),
        ends_fit(a) ==> ends_fit(b),
        filled(a) ==> filled(b),
        aligned(a) ==> aligned(b),
{
    assert forall|i: int| 0 <= i < b.len() implies a.contains(#[trigger] b[i]) by {
        assert(b.contains(b[i]));
    }
    assert forall|i: int| 0 <= i < a.len() implies b.contains(#[trigger] a[i]) by {
        assert(a.contains(a[i]));
    }
    assert forall|x: int| #[trigger] covered(a, x) <==> covered(b, x) by {
        if covered(a, x) {
            let i = choose|i: int| 0 <= i < a.len() && (#[trigger] a[i]).has(x);
            let j = choose|j: int| 0 <= j < b.len() && b[j] == a[i];
            assert(b[j].has(x));
        }
        if covered(b, x) {
            let i = choose|i: int| 0 <= i < b.len() && (#[trigger] b[i]).has(x);
            let j = choose|j: int| 0 <= j < a.len() && a[j] == b[i];
            assert(a[j].has(x));
        }
    }
    assert forall|x: int| #[trigger] met(a, x) <==> met(b, x) by {
        if met(a, x) {
            let i = choose|i: int| 0 <= i < a.len() && (#[trigger] a[i]).meets(x);
            let j = choose|j: int| 0 <= j < b.len() && b[j] == a[i];
            assert(b[j].meets(x));
        }
        if met(b, x) {
            let i = choose|i: int| 0 <= i < b.len() && (#[trigger] b[i]).meets(x);
            let j = choose|j: int| 0 <= j < a.len() && a[j] == b[i];
            assert(a[j].meets(x));
        }
    }
    assert forall|i: int| 0 <= i < b.len() implies {
        &&& ends_fit(a) ==> (#[trigger] b[i]).addr + b[i].size <= u64::MAX
        &&& filled(a) ==> b[i].size > 0
        &&& aligned(a) ==> b[i].addr % 64 == 0 && b[i].size % 64 == 0
    } by {
        let j = choose|j: int| 0 <= j < a.len() && a[j] == b[i];
        assert(a[j] == b[i]);
    }
}

/// The blocks in ascending order of their addresses.
fn sort_blocks(free: &Vec<FreeBlock>) -> (out: Vec<FreeBlock>)
    ensures
        ascending(out@),
        same_blocks(free@, out@),
{
    let mut out: Vec<FreeBlock> = Vec::new();
    for i in 0..free.len()
        invariant
            ascending(out@),
            same_blocks(free@.take(i as int), out@),
    {
        let block: FreeBlock = free[i];
        let ghost before = out@;
        let mut at: usize = out.len();
        while at > 0 && out[at - 1].addr > block.addr
            invariant
                at <= out@.len(),
                out@ == before,
                forall|k: int| at <= k < out@.len() ==> (#[trigger] out@[k]).addr > block.addr,
            decreases at,
        {
            at = at - 1;
        }
        out.insert(at, block);
        proof {
            let n = at as int;
            let prefix = free@.take(i as int);
            let whole = free@.take(i + 1);
            assert(whole =~= prefix.push(block));
            assert forall|x: FreeBlock| #[trigger] whole.contains(x) <==> out@.contains(x) by {
                assert(prefix.contains(x) <==> before.contains(x));
                if whole.contains(x) {
                    let k = choose|k: int| 0 <= k < whole.len() && whole[k] == x;
                    if k < i {
                        assert(prefix[k] == x);
                        let m = choose|m: int| 0 <= m < before.len() && before[m] == x;
                        if m < n {
                            assert(out@[m] == x);
                        } else {
                            assert(out@[m + 1] == x);
                        }
                    } else {
                        assert(out@[n] == x);
                    }
                }
                if out@.contains(x) {
                    let m = choose|m: int| 0 <= m < out@.len() && out@[m] == x;
                    if m == n {
                        assert(whole[i as int] == x);
                    } else {
                        if m < n {
                            assert(before[m] == x);
                        } else {
                            assert(before[m - 1] == x);
                        }
                        let k = choose|k: int| 0 <= k < prefix.len() && prefix[k] == x;
                        assert(whole[k] == x);
                    }
                }
            }
            assert forall|j: int, k: int| 0 <= j < k < out@.len() implies #[trigger] out@[j].addr
                <= #[trigger] out@[k].addr by {
                let j0 = if j < n {
                    j
                } else {
                    j - 1
                };
                let k0 = if k < n {
                    k
                } else {
                    k - 1
                };
                if j != n && k != n {
                    assert(before[j0].addr <= before[k0].addr);
                } else if k == n {
                    assert(before[j].addr <= before[n - 1].addr);
                } else {
                    assert(before[k0].addr > block.addr);
                }
            }
        }
    }
    assert(free@.take(free@.len() as int) =~= free@);
    out
}

/// Merges blocks that touch or overlap.
fn coalesce(free: &Vec<FreeBlock>) -> (out: Vec<FreeBlock>)
    requires
        ascending(free@),
        ends_fit(free@),
    ensures
        apart(out@),
        ends_fit(out@),
        forall|a: int| #[trigger] covered(out@, a) <==> covered(free@, a),
        forall|a: int| #[trigger] met(out@, a) <==> met(free@, a),
        filled(free@) ==> filled(out@),
        aligned(free@) ==> aligned(out@),
{
    let mut out: Vec<FreeBlock> = Vec::new();
    for i in 0..free.len()
        invariant
            ascending(free@),
            ends_fit(free@),
            apart(out@),
            ends_fit(out@),
            i > 0 ==> out@.len() > 0 && out@.last().addr <= free@[i - 1].addr,
            i == 0 ==> out@.len() == 0,
            filled(free@) ==> filled(out@),
            aligned(free@) ==> aligned(out@),
            forall|a: int| #[trigger] covered(out@, a) <==> covered(free@.take(i as int), a),
            forall|a: int| #[trigger] met(out@, a) <==> met(free@.take(i as int), a),
    {
        let block: FreeBlock = free[i];
        let ghost before = out@;
        let ghost prefix = free@.take(i as int);
        assert(free@.take(i + 1) =~= prefix.push(block));
        let n: usize = out.len();
        if n > 0 && out[n - 1].addr + out[n - 1].size >= block.addr {
            let last: FreeBlock = out[n - 1];
            let last_end: u64 = last.addr + last.size;
            let block_end: u64 = block.addr + block.size;
            let end: u64 = if block_end >= last_end {
                block_end
            } else {
                last_end
            };
            let merged = FreeBlock { addr: last.addr, size: end - last.addr };
            out.set(n - 1, merged);
            assert(before.drop_last().push(last) =~= before);
            assert(before.drop_last().push(merged) =~= out@);
            assert forall|a: int| #[trigger] covered(out@, a) <==> covered(free@.take(i + 1), a) by {
                lemma_covered_push(prefix, block, a);
                lemma_covered_push(before.drop_last(), last, a);
                lemma_covered_push(before.drop_last(), merged, a);
            }
            assert forall|a: int| #[trigger] met(out@, a) <==> met(free@.take(i + 1), a) by {
                lemma_met_push(prefix, block, a);
                lemma_met_push(before.drop_last(), last, a);
                lemma_met_push(before.drop_last(), merged, a);
            }
        } else {
            out.push(block);
            assert forall|a: int| #[trigger] covered(out@, a) <==> covered(free@.take(i + 1), a) by {
                lemma_covered_push(prefix, block, a);
                lemma_covered_push(before, block, a);
            }
            assert forall|a: int| #[trigger] met(out@, a) <==> met(free@.take(i + 1), a) by {
                lemma_met_push(prefix, block, a);
                lemma_met_push(before, block, a);
            }
        }
    }
    assert(free@.take(free@.len() as int) =~= free@);
    out
}

/// Returns a block to the free list: the blocks are put in order, and those that
/// touch or overlap are merged.
pub fn insert_free_block(free: &mut Vec<FreeBlock>, block: FreeBlock)
    requires
        ends_fit(old(free)@),
        block.addr + block.size <= u64::MAX,
    ensures
        ends_fit(final(free)@),
        block.size == 0 ==> final(free)@ == old(free)@,
        block.size > 0 ==> apart(final(free)@),
        forall|a: int| #[trigger] covered(final(free)@, a) <==> covered(old(free)@, a) || block.has(a),
        block.size > 0 ==> forall|a: int| #[trigger]
            met(final(free)@, a) <==> met(old(free)@, a) || block.meets(a),
        filled(old(free)@) ==> filled(final(free)@),
        canonical(old(free)@) ==> canonical(final(free)@),
        aligned(old(free)@) && block.addr % 64 == 0 && block.size % 64 == 0 ==> aligned(
            final(free)@,
        ),
{
    if block.size == 0 {
        return ;
    }
    let ghost before = free@;
    free.push(block);
    let ghost all = free@;
    let sorted = sort_blocks(&*free);
    proof {
        lemma_same_blocks(all, sorted@);
    }
    let merged = coalesce(&sorted);
    *free = merged;
    proof {
        assert forall|a: int| #[trigger] covered(free@, a) <==> covered(before, a) || block.has(
            a,
        ) by {
            lemma_covered_push(before, block, a);
            assert(covered(sorted@, a) <==> covered(all, a));
        }
        assert forall|a: int| #[trigger] met(free@, a) <==> met(before, a) || block.meets(a) by {
            lemma_met_push(before, block, a);
            assert(met(sorted@, a) <==> met(all, a));
        }
        assert(canonical(before) ==> filled(before));
    }
}

/// Whether block `i` is the one to allocate from: the first of the smallest
/// blocks that are large enough.
pub open spec fn best_fit(free: Seq<FreeBlock>, size: u64, i: int) -> bool {
    &&& 0 <= i < free.len()
    &&& free[i].size >= size
    &&& forall|j: int|
        0 <= j < free.len() && (#[trigger] free[j]).size >= size ==> free[i].size < free[j].size
            || (free[i].size == free[j].size && i <= j)
}

/// The free list after `size` bytes were taken from the start of block `i`.
pub open spec fn taken(free: Seq<FreeBlock>, size: u64, i: int) -> Seq<FreeBlock> {
    if free[i].size == size {
        free.remove(i)
    } else {
        free.update(
            i,
            FreeBlock {
                addr: (free[i].addr + size) as u64,
                size: (free[i].size - size) as u64,
            },
        )
    }
}

proof fn lemma_taken(free: Seq<FreeBlock>, size: u64, i: int)
    requires
        ends_fit(free),
        0 <= i < free.len(),
        free[i].size >= size,
    ensures
        ends_fit(taken(free, size, i)),
        aligned(free) && size % 64 == 0 ==> aligned(taken(free, size, i)),
{
    let g = taken(free, size, i);
    let whole = free[i].size == size;
    assert forall|j: int| 0 <= j < g.len() implies (#[trigger] g[j]).addr + g[j].size
        <= u64::MAX by {
        let j0 = if whole && j >= i {
            j + 1
        } else {
            j
        };
        assert(free[j0].addr + free[j0].size <= u64::MAX);
    }
    assert forall|j: int| aligned(free) && size % 64 == 0 && 0 <= j < g.len() implies (
    #[trigger] g[j]).addr % 64 == 0 && g[j].size % 64 == 0 by {
        let j0 = if whole && j >= i {
            j + 1
        } else {
            j
        };
        assert(free[j0].addr % 64 == 0 && free[j0].size % 64 == 0);
    }
}

proof fn lemma_taken_canonical(free: Seq<FreeBlock>, size: u64, i: int)
    requires
        canonical(free),
        size > 0,
        0 <= i < free.len(),
        free[i].size >= size,
    ensures
        canonical(taken(free, size, i)),
        forall|a: int|
            #[trigger] covered(taken(free, size, i), a) <==> covered(free, a) && !(FreeBlock {
                addr: free[i].addr,
                size,
            }).has(a),
{
    let g = taken(free, size, i);
    let whole = free[i].size == size;
    assert forall|j: int| 0 <= j < g.len() implies (#[trigger] g[j]).size > 0 && g[j].addr
        + g[j].size <= u64::MAX by {
        let j0 = if whole && j >= i {
            j + 1
        } else {
            j
        };
        assert(free[j0].size > 0);
    }
    assert forall|j: int, k: int| 0 <= j < k < g.len() implies #[trigger] g[j].addr + g[j].size
        < #[trigger] g[k].addr by {
        let j0 = if whole && j >= i {
            j + 1
        } else {
            j
        };
        let k0 = if whole && k >= i {
            k + 1
        } else {
            k
        };
        assert(free[j0].addr + free[j0].size < free[k0].addr);
    }
    assert forall|a: int| #[trigger] covered(g, a) <==> covered(free, a) && !(FreeBlock {
        addr: free[i].addr,
        size,
    }).has(a) by {
        if covered(g, a) {
            let j = choose|j: int| 0 <= j < g.len() && (#[trigger] g[j]).has(a);
            let j0 = if whole && j >= i {
                j + 1
            } else {
                j
            };
            assert(free[j0].has(a));
            if j0 < i {
                assert(free[j0].addr + free[j0].size < free[i].addr);
            }
            if i < j0 {
                assert(free[i].addr + free[i].size < free[j0].addr);
            }
        }
        if covered(free, a) && !(FreeBlock { addr: free[i].addr, size }).has(a) {
            let j = choose|j: int| 0 <= j < free.len() && (#[trigger] free[j]).has(a);
            if j < i || (j == i && !whole) {
                assert(g[j].has(a));
            } else if j > i {
                if whole {
                    assert(g[j - 1].has(a));
                } else {
                    assert(g[j].has(a));
                }
            }
        }
    }
}

/// Takes `size` bytes from the free list, if a block is large enough.
pub fn allocate_free_block(free: &mut Vec<FreeBlock>, size: u64) -> (r: Option<u64>)
    requires
        ends_fit(old(free)@),
    ensures
        ends_fit(final(free)@),
        canonical(old(free)@) && size > 0 ==> canonical(final(free)@),
        r is None <==> forall|i: int|
            0 <= i < old(free)@.len() ==> (#[trigger] old(free)@[i]).size < size,
        match r {
            Some(addr) => {
                &&& exists|i: int|
                    #[trigger] best_fit(old(free)@, size, i) && addr == old(free)@[i].addr
                        && final(free)@ == taken(old(free)@, size, i)
                &&& forall|a: int|
                    (FreeBlock { addr, size }).has(a) ==> #[trigger] covered(old(free)@, a)
                &&& canonical(old(free)@) && size > 0 ==> forall|a: int|
                    #[trigger] covered(final(free)@, a) <==> covered(old(free)@, a) && !(FreeBlock {
                        addr,
                        size,
                    }).has(a)
                &&& addr + size <= u64::MAX
                &&& aligned(old(free)@) && size % 64 == 0 ==> addr % 64 == 0 && aligned(
                    final(free)@,
                )
            },
            None => final(free)@ == old(free)@,
        },
{
    let mut best: Option<usize> = None;
    let ghost before = free@;
    for j in 0..free.len()
        invariant
            free@ == before,
            match best {
                Some(i) => {
                    &&& i < j
                    &&& free@[i as int].size >= size
                    &&& forall|k: int|
                        0 <= k < j && (#[trigger] free@[k]).size >= size ==> free@[i as int].size
                            < free@[k].size || (free@[i as int].size == free@[k].size && i <= k)
                },
                None => forall|k: int| 0 <= k < j ==> (#[trigger] free@[k]).size < size,
            },
    {
        if free[j].size >= size {
            match best {
                Some(i) => {
                    if free[j].size < free[i].size {
                        best = Some(j);
                    }
                },
                None => {
                    best = Some(j);
                },
            }
        }
    }
    match best {
        Some(i) => {
            let block: FreeBlock = free[i];
            assert(best_fit(before, size, i as int));
            proof {
                lemma_taken(before, size, i as int);
                if canonical(before) && size > 0 {
                    lemma_taken_canonical(before, size, i as int);
                }
                assert forall|a: int| (FreeBlock {
                    addr: block.addr,
                    size,
                }).has(a) implies #[trigger] covered(before, a) by {
                    assert(before[i as int].has(a));
                }
            }
            if block.size == size {
                free.remove(i);
            } else {
                free.set(i, FreeBlock { addr: block.addr + size, size: block.size - size });
            }
            assert(free@ =~= taken(before, size, i as int));
            Some(block.addr)
        },
        None => None,
    }
}

/// Bytes that `num_tiles` tiles, dealt out over the banks, take in each bank.
pub open spec fn range_size(num_tiles: int, dtype: DType, bank_count: int) -> int {
    arith::ceil_div(num_tiles, bank_count) * dtype.tile_bytes()
}

/// Only no tiles take no bytes.
pub proof fn lemma_range_size(num_tiles: int, dtype: DType, bank_count: int)
    requires
        num_tiles >= 0,
        bank_count > 0,
    ensures
        range_size(num_tiles, dtype, bank_count) >= 0,
        range_size(num_tiles, dtype, bank_count) == 0 <==> num_tiles == 0,
{
    arith::lemma_ceil_div(num_tiles, bank_count);
    let n = arith::ceil_div(num_tiles, bank_count);
    let t = dtype.tile_bytes();
    assert(n * t >= 0 && (n > 0 ==> n * t > 0) && (n == 0 ==> n * t == 0)) by (nonlinear_arith)
        requires
            n >= 0,
            t > 0,
    ;
}

/// Why a range cannot be sized.
pub open spec fn range_size_refusal(num_tiles: int, dtype: DType, bank_count: int) -> Option<
    error::Refusal,
> {
    if bank_count == 0 {
        Some((ErrorKind::Other, "dram allocation requires at least one bank"@))
    } else if range_size(num_tiles, dtype, bank_count) > u64::MAX {
        Some((ErrorKind::Other, "dram allocation size overflow"@))
    } else {
        None
    }
}

/// Sizes a range; whole tiles are always aligned.
pub fn allocation_range_size(num_tiles: usize, dtype: DType, bank_count: usize) -> (r: Result<
    u64,
    Error,
>)
    ensures
        match r {
            Ok(size) => {
                &&& range_size_refusal(num_tiles as int, dtype, bank_count as int) is None
                &&& size == range_size(num_tiles as int, dtype, bank_count as int)
                &&& size == arith::round_up(size as int, 64)
                &&& size % 64 == 0
                &&& size == 0 <==> num_tiles == 0
            },
            Err(e) => range_size_refusal(num_tiles as int, dtype, bank_count as int) == Some(e@),
        },
{
    if bank_count == 0 {
        return Err(
            Error::new(
                ErrorKind::Other,
                "dram allocation requires at least one bank".to_owned(),
            ),
        );
    }
    let pages: usize = arith::div_ceil(num_tiles, bank_count);
    match (pages as u64).checked_mul(dtype.tile_size() as u64) {
        Some(size) => {
            proof {
                let w = dtype.width();
                assert(size == (pages * (16 * w)) * 64) by (nonlinear_arith)
                    requires
                        size == pages * (1024 * w),
                ;
                vstd::arithmetic::div_mod::lemma_mod_multiples_basic(pages * (16 * w), 64);
                arith::lemma_round_up(size as int, 64);
                lemma_range_size(num_tiles as int, dtype, bank_count as int);
            }
            Ok(hw::align_up(size, Dram::ALIGNMENT as u64))
        },
        None => Err(Error::new(ErrorKind::Other, "dram allocation size overflow".to_owned())),
    }
}

/// Why a range cannot be taken from the untouched addresses, which start at `next`.
pub open spec fn next_range_refusal(
    next: int,
    num_tiles: int,
    dtype: DType,
    bank_count: int,
) -> Option<error::Refusal> {
    let size = range_size(num_tiles, dtype, bank_count);
    if range_size_refusal(num_tiles, dtype, bank_count) is Some {
        range_size_refusal(num_tiles, dtype, bank_count)
    } else if next + size > u64::MAX {
        Some((ErrorKind::Other, "dram allocation address overflow"@))
    } else if next + size > 0x1_0000_0000 {
        Some(
            (
                ErrorKind::Other,
                "dram allocation exceeds per-bank address space: end=0x"@ + text::hex(next + size)
                    + " limit=0x"@ + text::hex(0x1_0000_0000),
            ),
        )
    } else {
        None
    }
}

/// Takes a range from the untouched addresses: its start, and where they start now.
pub fn next_allocation_range(next: u64, num_tiles: usize, dtype: DType, bank_count: usize) -> (r:
    Result<(u64, u64), Error>)
    ensures
        match r {
            Ok((addr, end)) => {
                &&& next_range_refusal(next as int, num_tiles as int, dtype, bank_count as int)
                    is None
                &&& addr == next
                &&& end == next + range_size(num_tiles as int, dtype, bank_count as int)
            },
            Err(e) => next_range_refusal(next as int, num_tiles as int, dtype, bank_count as int)
                == Some(e@),
        },
{
    let size: u64 = allocation_range_size(num_tiles, dtype, bank_count)?;
    match next.checked_add(size) {
        Some(end) => {
            if end > Dram::TLB_SIZE_4G {
                Err(
                    Error::new(
                        ErrorKind::Other,
                        text::cat4(
                            "dram allocation exceeds per-bank address space: end=0x",
                            text::hexadecimal(end).as_str(),
                            " limit=0x",
                            text::hexadecimal(Dram::TLB_SIZE_4G).as_str(),
                        ),
                    ),
                )
            } else {
                Ok((next, end))
            }
        },
        None => Err(Error::new(ErrorKind::Other, "dram allocation address overflow".to_owned())),
    }
}

/// Use of the memory of a device.
#[derive(Clone, Copy, Debug, PartialEq, Eq, Structural)]
pub struct AllocatorStats {
    pub bytes_in_use: u64,
    pub bytes_limit: u64,
    pub largest_free_block_bytes: u64,
}

/// Where the allocations of a device stand.
#[derive(Debug)]
pub struct DeviceAllocatorState {
    /// Start of the addresses that were never allocated.
    pub next: u64,
    /// Ranges below `next` that were given back.
    pub free: Vec<FreeBlock>,
}

/// The sum of the block sizes, at most the largest word.
pub open spec fn free_bytes(free: Seq<FreeBlock>) -> int
    decreases free.len(),
{
    if free.len() == 0 {
        0
    } else {
        arith::min2(free_bytes(free.drop_last()) + free.last().size, u64::MAX as int)
    }
}

/// The largest block size, at least `floor`.
pub open spec fn largest_block(free: Seq<FreeBlock>, floor: int) -> int
    decreases free.len(),
{
    if free.len() == 0 {
        floor
    } else {
        arith::max2(largest_block(free.drop_last(), floor), free.last().size as int)
    }
}

impl DeviceAllocatorState {
    pub open spec fn wf(&self) -> bool {
        canonical(self.free@)
    }

    /// Whether all that is or will be handed out starts and ends at multiples of
    /// the alignment of the memory.
    pub open spec fn on_grid(&self) -> bool {
        &&& self.next % 64 == 0
        &&& aligned(self.free@)
    }

    /// Whether `live` are the ranges in use: they, and the free blocks, lie aligned
    /// below `next`, share no address, and leave none out.
    pub open spec fn accounts_for(&self, live: Seq<FreeBlock>) -> bool {
        &&& self.wf()
        &&& self.on_grid()
        &&& aligned(live)
        &&& 0x40 <= self.next <= 0x1_0000_0000
        &&& forall|a: int| #[trigger] covered(self.free@, a) ==> 0x40 <= a < self.next
        &&& forall|i: int|
            0 <= i < live.len() ==> (#[trigger] live[i]).size > 0 && 0x40 <= live[i].addr
                && live[i].addr + live[i].size <= self.next
        &&& forall|i: int, a: int|
            0 <= i < live.len() && (#[trigger] live[i]).has(a) ==> !(#[trigger] covered(
                self.free@,
                a,
            ))
        &&& forall|i: int, j: int, a: int|
            0 <= i < j < live.len() && #[trigger] live[i].has(a) ==> !(#[trigger] live[j].has(a))
        &&& forall|a: int|
            0x40 <= a < self.next ==> #[trigger] covered(self.free@, a) || covered(live, a)
    }

    pub fn new() -> (s: DeviceAllocatorState)
        ensures
            s.next == 0x40,
            s.free@.len() == 0,
            s.accounts_for(Seq::empty()),
    {
        let free: Vec<FreeBlock> = Vec::new();
        DeviceAllocatorState { next: Dram::WRITE_OFFSET, free }
    }

    /// Whether a free block can hold `size` bytes.
    pub open spec fn reusable(&self, size: int) -> bool {
        exists|i: int| 0 <= i < self.free@.len() && (#[trigger] self.free@[i]).size >= size
    }

    /// Why no range can be allocated.
    pub open spec fn allocation_refusal(
        &self,
        num_tiles: int,
        dtype: DType,
        bank_count: int,
    ) -> Option<error::Refusal> {
        let size = range_size(num_tiles, dtype, bank_count);
        if range_size_refusal(num_tiles, dtype, bank_count) is Some {
            range_size_refusal(num_tiles, dtype, bank_count)
        } else if size == 0 || self.reusable(size) {
            None
        } else {
            next_range_refusal(self.next as int, num_tiles, dtype, bank_count)
        }
    }

    /// Allocates a range for `num_tiles` tiles: its start, its size, and the
    /// start of the untouched addresses.
    pub fn allocate_allocation_range(
        &mut self,
        num_tiles: usize,
        dtype: DType,
        bank_count: usize,
    ) -> (r: Result<(u64, u64, u64), Error>)
        requires
            old(self).wf(),
        ensures
            final(self).wf(),
            match r {
                Ok((addr, size, next)) => {
                    &&& old(self).allocation_refusal(num_tiles as int, dtype, bank_count as int)
                        is None
                    &&& size == range_size(num_tiles as int, dtype, bank_count as int)
                    &&& size % 64 == 0
                    &&& size == 0 <==> num_tiles == 0
                    &&& next == final(self).next
                    &&& old(self).on_grid() ==> addr % 64 == 0 && final(self).on_grid()
                    &&& size == 0 ==> addr == old(self).next && *final(self) == *old(self)
                    &&& size > 0 && old(self).reusable(size as int) ==> final(self).next == old(
                        self,
                    ).next && exists|i: int|
                        #[trigger] best_fit(old(self).free@, size, i) && addr == old(
                            self,
                        ).free@[i].addr && final(self).free@ == taken(old(self).free@, size, i)
                    &&& size > 0 && !old(self).reusable(size as int) ==> addr == old(self).next
                        && final(self).next == old(self).next + size && final(self).free@ == old(
                        self,
                    ).free@
                    &&& size > 0 ==> forall|live: Seq<FreeBlock>|
                        #[trigger] old(self).accounts_for(live) ==> final(self).accounts_for(
                            live.push(FreeBlock { addr, size }),
                        )
                },
                Err(e) => {
                    &&& old(self).allocation_refusal(num_tiles as int, dtype, bank_count as int)
                        == Some(e@)
                    &&& final(self).next == old(self).next
                    &&& final(self).free@ == old(self).free@
                },
            },
    {
        let size: u64 = allocation_range_size(num_tiles, dtype, bank_count)?;
        if size == 0 {
            return Ok((self.next, size, self.next));
        }
        let ghost before = *self;
        match allocate_free_block(&mut self.free, size) {
            Some(addr) => {
                proof {
                    let i = choose|i: int|
                        #[trigger] best_fit(before.free@, size, i) && addr == before.free@[i].addr
                            && self.free@ == taken(before.free@, size, i);
                    assert(before.free@[i].size >= size);
                    assert forall|live: Seq<FreeBlock>| #[trigger]
                        before.accounts_for(live) implies self.accounts_for(
                        live.push(FreeBlock { addr, size }),
                    ) by {
                        lemma_account_reused(before, *self, live, FreeBlock { addr, size });
                    }
                }
                Ok((addr, size, self.next))
            },
            None => {
                let (addr, next) = next_allocation_range(self.next, num_tiles, dtype, bank_count)?;
                self.next = next;
                proof {
                    assert forall|live: Seq<FreeBlock>| #[trigger]
                        before.accounts_for(live) implies self.accounts_for(
                        live.push(FreeBlock { addr, size }),
                    ) by {
                        lemma_account_fresh(before, *self, live, FreeBlock { addr, size });
                    }
                }
                Ok((addr, size, next))
            },
        }
    }

    /// Gives a range back.
    pub fn free_allocation(&mut self, addr: u64, size: u64)
        requires
            old(self).wf(),
            addr + size <= u64::MAX,
        ensures
            final(self).wf(),
            final(self).next == old(self).next,
            forall|a: int|
                #[trigger] covered(final(self).free@, a) <==> covered(old(self).free@, a) || (FreeBlock {
                    addr,
                    size,
                }).has(a),
            old(self).on_grid() && addr % 64 == 0 && size % 64 == 0 ==> final(self).on_grid(),
            forall|live: Seq<FreeBlock>, i: int|
                0 <= i < live.len() && live[i] == (FreeBlock { addr, size })
                    && #[trigger] old(self).accounts_for(live) ==> final(self).accounts_for(
                    #[trigger] live.remove(i),
                ),
    {
        let ghost before = *self;
        let block = FreeBlock { addr, size };
        insert_free_block(&mut self.free, block);
        proof {
            assert forall|a: int|
                #[trigger] covered(self.free@, a) <==> covered(before.free@, a) || (FreeBlock {
                    addr,
                    size,
                }).has(a) by {
                assert(block.has(a) == (FreeBlock { addr, size }).has(a));
            }
            assert forall|live: Seq<FreeBlock>, i: int|
                0 <= i < live.len() && live[i] == (FreeBlock { addr, size })
                    && #[trigger] before.accounts_for(live) implies self.accounts_for(
                #[trigger] live.remove(i),
            ) by {
                lemma_account_freed(before, *self, live, i);
            }
        }
    }
}

proof fn lemma_account_reused(
    before: DeviceAllocatorState,
    after: DeviceAllocatorState,
    live: Seq<FreeBlock>,
    block: FreeBlock,
)
    requires
        before.accounts_for(live),
        after.wf(),
        after.next == before.next,
        after.on_grid(),
        block.addr % 64 == 0,
        block.size % 64 == 0,
        block.size > 0,
        block.addr + block.size <= u64::MAX,
        forall|a: int| block.has(a) ==> #[trigger] covered(before.free@, a),
        forall|a: int|
            #[trigger] covered(after.free@, a) <==> covered(before.free@, a) && !block.has(a),
    ensures
        after.accounts_for(live.push(block)),
{
    let all = live.push(block);
    assert(block.has(block.addr as int) && block.has(block.addr + block.size - 1));
    assert(covered(before.free@, block.addr as int));
    assert(covered(before.free@, block.addr + block.size - 1));
    assert forall|i: int, a: int|
        0 <= i < all.len() && (#[trigger] all[i]).has(a) implies !(#[trigger] covered(
        after.free@,
        a,
    )) by {
        if i < live.len() {
            assert(live[i].has(a));
            assert(!covered(before.free@, a));
        }
    }
    assert forall|i: int, j: int, a: int|
        0 <= i < j < all.len() && #[trigger] all[i].has(a) implies !(#[trigger] all[j].has(a)) by {
        if j == live.len() {
            assert(live[i].has(a));
            assert(!covered(before.free@, a));
        } else {
            assert(live[i].has(a));
            assert(!live[j].has(a));
        }
    }
    assert forall|a: int| 0x40 <= a < after.next implies #[trigger] covered(after.free@, a)
        || covered(all, a) by {
        lemma_covered_push(live, block, a);
        assert(covered(before.free@, a) || covered(live, a));
    }
}

proof fn lemma_account_fresh(
    before: DeviceAllocatorState,
    after: DeviceAllocatorState,
    live: Seq<FreeBlock>,
    block: FreeBlock,
)
    requires
        before.accounts_for(live),
        after.free@ == before.free@,
        block.addr == before.next,
        block.size % 64 == 0,
        block.size > 0,
        after.next == before.next + block.size,
        after.next <= 0x1_0000_0000,
    ensures
        after.accounts_for(live.push(block)),
{
    let all = live.push(block);
    assert forall|i: int| 0 <= i < all.len() implies (#[trigger] all[i]).size > 0 && 0x40
        <= all[i].addr && all[i].addr + all[i].size <= after.next by {
        if i < live.len() {
            assert(live[i].size > 0);
        }
    }
    assert forall|a: int| #[trigger] covered(after.free@, a) implies 0x40 <= a < after.next by {
        assert(covered(before.free@, a));
    }
    assert forall|i: int, a: int|
        0 <= i < all.len() && (#[trigger] all[i]).has(a) implies !(#[trigger] covered(
        after.free@,
        a,
    )) by {
        if i < live.len() {
            assert(live[i].has(a));
        }
    }
    assert forall|i: int, j: int, a: int|
        0 <= i < j < all.len() && #[trigger] all[i].has(a) implies !(#[trigger] all[j].has(a)) by {
        assert(live[i].addr + live[i].size <= before.next);
        if j < live.len() {
            assert(live[i].has(a));
            assert(!live[j].has(a));
        }
    }
    assert forall|a: int| 0x40 <= a < after.next implies #[trigger] covered(after.free@, a)
        || covered(all, a) by {
        lemma_covered_push(live, block, a);
        if a < before.next {
            assert(covered(before.free@, a) || covered(live, a));
        }
    }
}

proof fn lemma_account_freed(
    before: DeviceAllocatorState,
    after: DeviceAllocatorState,
    live: Seq<FreeBlock>,
    gone: int,
)
    requires
        before.accounts_for(live),
        0 <= gone < live.len(),
        after.wf(),
        after.on_grid(),
        after.next == before.next,
        forall|a: int|
            #[trigger] covered(after.free@, a) <==> covered(before.free@, a) || live[gone].has(a),
    ensures
        after.accounts_for(live.remove(gone)),
{
    let rest = live.remove(gone);
    assert forall|i: int, a: int|
        0 <= i < rest.len() && (#[trigger] rest[i]).has(a) implies !(#[trigger] covered(
        after.free@,
        a,
    )) by {
        let i0 = if i < gone {
            i
        } else {
            i + 1
        };
        assert(live[i0].has(a));
        assert(!covered(before.free@, a));
        if live[gone].has(a) {
            if i0 < gone {
                assert(!live[gone].has(a));
            } else {
                assert(!live[i0].has(a));
            }
        }
    }
    assert forall|i: int, j: int, a: int|
        0 <= i < j < rest.len() && #[trigger] rest[i].has(a) implies !(#[trigger] rest[j].has(
        a,
    )) by {
        let i0 = if i < gone {
            i
        } else {
            i + 1
        };
        let j0 = if j < gone {
            j
        } else {
            j + 1
        };
        assert(live[i0].has(a));
        assert(!live[j0].has(a));
    }
    assert forall|i: int| 0 <= i < rest.len() implies (#[trigger] rest[i]).size > 0 && 0x40
        <= rest[i].addr && rest[i].addr + rest[i].size <= after.next by {
        let i0 = if i < gone {
            i
        } else {
            i + 1
        };
        assert(live[i0].size > 0);
    }
    assert forall|i: int| 0 <= i < rest.len() implies (#[trigger] rest[i]).addr % 64 == 0
        && rest[i].size % 64 == 0 by {
        let i0 = if i < gone {
            i
        } else {
            i + 1
        };
        assert(live[i0].addr % 64 == 0);
    }
    assert forall|a: int| 0x40 <= a < after.next implies #[trigger] covered(after.free@, a)
        || covered(rest, a) by {
        assert(covered(before.free@, a) || covered(live, a));
        if covered(live, a) && !live[gone].has(a) {
            let i = choose|i: int| 0 <= i < live.len() && (#[trigger] live[i]).has(a);
            let i0 = if i < gone {
                i
            } else {
                i - 1
            };
            assert(rest[i0].has(a));
        }
    }
}

/// The sum of the sizes of ranges.
pub open spec fn total(list: Seq<FreeBlock>) -> int
    decreases list.len(),
{
    if list.len() == 0 {
        0
    } else {
        total(list.drop_last()) + list.last().size
    }
}

/// The addresses of ranges.
spec fn addresses(list: Seq<FreeBlock>) -> Set<int> {
    Set::new(|a: int| covered(list, a))
}

/// Ranges that share no address have as many addresses as their sizes say.
proof fn lemma_addresses(list: Seq<FreeBlock>)
    requires
        forall|i: int, j: int, a: int|
            0 <= i < j < list.len() && #[trigger] list[i].has(a) ==> !(#[trigger] list[j].has(a)),
    ensures
        addresses(list).finite(),
        addresses(list).len() == total(list),
    decreases list.len(),
{
    if list.len() == 0 {
        assert(addresses(list) =~= Set::empty());
    } else {
        let rest = list.drop_last();
        let last = list.last();
        let range = set_int_range(last.addr as int, last.addr + last.size);
        assert(list =~= rest.push(last));
        assert forall|i: int, j: int, a: int|
            0 <= i < j < rest.len() && #[trigger] rest[i].has(a) implies !(#[trigger] rest[j].has(
            a,
        )) by {
            assert(list[i].has(a));
            assert(!list[j].has(a));
        }
        lemma_addresses(rest);
        lemma_int_range(last.addr as int, last.addr + last.size);
        assert forall|a: int| addresses(list).contains(a) <==> (addresses(rest) + range).contains(
            a,
        ) by {
            lemma_covered_push(rest, last, a);
        }
        assert(addresses(list) =~= addresses(rest) + range);
        assert(addresses(rest).disjoint(range)) by {
            assert forall|a: int| addresses(rest).contains(a) implies !range.contains(a) by {
                let i = choose|i: int| 0 <= i < rest.len() && (#[trigger] rest[i]).has(a);
                assert(list[i].has(a));
                assert(!list[list.len() - 1].has(a));
            }
        }
        lemma_set_disjoint_lens(addresses(rest), range);
    }
}

/// No byte is lost: the ranges in use and the free ones make up all that was ever
/// handed out.
pub proof fn lemma_nothing_lost(s: DeviceAllocatorState, live: Seq<FreeBlock>)
    requires
        s.accounts_for(live),
    ensures
        total(live) + total(s.free@) == s.next - 0x40,
{
    let free = s.free@;
    assert forall|i: int, j: int, a: int|
        0 <= i < j < free.len() && #[trigger] free[i].has(a) implies !(#[trigger] free[j].has(a)) by {
        assert(free[i].addr + free[i].size < free[j].addr);
    }
    lemma_addresses(free);
    lemma_addresses(live);
    let all = set_int_range(0x40, s.next as int);
    lemma_int_range(0x40, s.next as int);
    assert forall|a: int| all.contains(a) <==> (addresses(live) + addresses(free)).contains(a) by {
        if covered(live, a) {
            let i = choose|i: int| 0 <= i < live.len() && (#[trigger] live[i]).has(a);
            assert(live[i].size > 0);
        }
    }
    assert(all =~= addresses(live) + addresses(free));
    assert(addresses(live).disjoint(addresses(free))) by {
        assert forall|a: int| addresses(live).contains(a) implies !addresses(free).contains(a) by {
            let i = choose|i: int| 0 <= i < live.len() && (#[trigger] live[i]).has(a);
            assert(!covered(free, a));
        }
    }
    lemma_set_disjoint_lens(addresses(live), addresses(free));
}

proof fn lemma_free_bytes(free: Seq<FreeBlock>)
    requires
        total(free) <= u64::MAX,
    ensures
        free_bytes(free) == total(free),
    decreases free.len(),
{
    if free.len() > 0 {
        lemma_free_bytes(free.drop_last());
    }
}

proof fn lemma_total_not_negative(list: Seq<FreeBlock>)
    ensures
        total(list) >= 0,
    decreases list.len(),
{
    if list.len() > 0 {
        lemma_total_not_negative(list.drop_last());
    }
}

/// A range in use is aligned and lies in the memory, and shares no address with
/// another one.
pub proof fn lemma_ranges_apart(s: DeviceAllocatorState, live: Seq<FreeBlock>, i: int)
    requires
        s.accounts_for(live),
        0 <= i < live.len(),
    ensures
        live[i].addr % 64 == 0,
        live[i].size % 64 == 0,
        0x40 <= live[i].addr,
        live[i].addr + live[i].size <= 0x1_0000_0000,
        forall|j: int|
            0 <= j < live.len() && j != i ==> live[i].addr + live[i].size <= (
            #[trigger] live[j]).addr || live[j].addr + live[j].size <= live[i].addr,
{
    assert forall|j: int| 0 <= j < live.len() && j != i implies live[i].addr + live[i].size <= (
    #[trigger] live[j]).addr || live[j].addr + live[j].size <= live[i].addr by {
        let (a, b) = if i < j {
            (i, j)
        } else {
            (j, i)
        };
        let x = arith::max2(live[a].addr as int, live[b].addr as int);
        assert(live[a].size > 0 && live[b].size > 0);
        if live[a].has(x) {
            assert(!live[b].has(x));
        }
    }
}

/// A range stays in use while others are handed out and given back; once it is given
/// back itself, it is no longer in use and all its addresses are free.
pub proof fn lemma_range_stays(
    s: DeviceAllocatorState,
    t: DeviceAllocatorState,
    live: Seq<FreeBlock>,
    i: int,
)
    requires
        s.accounts_for(live),
        0 <= i < live.len(),
        t.accounts_for(live.remove(i)),
        t.next == s.next,
    ensures
        forall|x: FreeBlock| #[trigger] live.push(x).contains(live[i]),
        forall|j: int| 0 <= j < live.len() && j != i ==> (#[trigger] live.remove(j)).contains(live[i]),
        !live.remove(i).contains(live[i]),
        forall|a: int| live[i].has(a) ==> #[trigger] covered(t.free@, a),
{
    let gone = live[i];
    let rest = live.remove(i);
    assert(gone.size > 0);
    assert forall|x: FreeBlock| #[trigger] live.push(x).contains(gone) by {
        assert(live.push(x)[i] == gone);
    }
    assert forall|j: int| 0 <= j < live.len() && j != i implies (#[trigger] live.remove(j)).contains(
        gone,
    ) by {
        let at = if i < j {
            i
        } else {
            i - 1
        };
        assert(live.remove(j)[at] == gone);
    }
    assert forall|k: int, a: int| 0 <= k < rest.len() && gone.has(a) implies !(
    #[trigger] rest[k].has(a)) by {
        let k0 = if k < i {
            k
        } else {
            k + 1
        };
        assert(rest[k] == live[k0]);
        if live[k0].has(a) {
            if k0 < i {
                assert(!live[i].has(a));
            } else {
                assert(!live[k0].has(a));
            }
        }
    }
    if rest.contains(gone) {
        let k = choose|k: int| 0 <= k < rest.len() && rest[k] == gone;
        assert(gone.has(gone.addr as int));
        assert(!rest[k].has(gone.addr as int));
    }
    assert forall|a: int| gone.has(a) implies #[trigger] covered(t.free@, a) by {
        if covered(rest, a) {
            let k = choose|k: int| 0 <= k < rest.len() && (#[trigger] rest[k]).has(a);
            assert(!rest[k].has(a));
        }
        assert(covered(t.free@, a) || covered(rest, a));
    }
}

/// The largest block reaches a size where one of the blocks, or the floor, does.
proof fn lemma_largest_block(free: Seq<FreeBlock>, floor: int, size: int)
    ensures
        largest_block(free, floor) >= size <==> floor >= size || exists|i: int|
            0 <= i < free.len() && (#[trigger] free[i]).size >= size,
    decreases free.len(),
{
    if free.len() > 0 {
        let rest = free.drop_last();
        lemma_largest_block(rest, floor, size);
        if exists|i: int| 0 <= i < rest.len() && (#[trigger] rest[i]).size >= size {
            let i = choose|i: int| 0 <= i < rest.len() && (#[trigger] rest[i]).size >= size;
            assert(free[i].size >= size);
        }
        if exists|i: int| 0 <= i < free.len() && (#[trigger] free[i]).size >= size {
            let i = choose|i: int| 0 <= i < free.len() && (#[trigger] free[i]).size >= size;
            if i < rest.len() {
                assert(rest[i].size >= size);
            }
        }
        if free.last().size >= size {
            assert(free[free.len() - 1].size >= size);
        }
    }
}

/// The largest free block decides: an allocation succeeds exactly if what it takes
/// in all banks is no more than the figures of the device give for that block.
pub proof fn lemma_largest_decides(
    s: DeviceAllocatorState,
    live: Seq<FreeBlock>,
    num_tiles: int,
    dtype: DType,
    banks: int,
)
    requires
        s.accounts_for(live),
        num_tiles > 0,
        banks > 0,
        0xffff_ffc0 * banks <= u64::MAX,
    ensures
        s.allocation_refusal(num_tiles, dtype, banks) is None <==> range_size(
            num_tiles,
            dtype,
            banks,
        ) * banks <= stats_of(Some(&s), banks).largest_free_block_bytes,
{
    let size = range_size(num_tiles, dtype, banks);
    let tail = 0x1_0000_0000 - s.next;
    let largest = largest_block(s.free@, tail);
    lemma_range_size(num_tiles, dtype, banks);
    lemma_largest_block(s.free@, tail, size);
    lemma_largest_block(s.free@, tail, 0);
    lemma_largest_block(s.free@, tail, 0xffff_ffc1);
    assert forall|i: int| 0 <= i < s.free@.len() implies (#[trigger] s.free@[i]).size
        < 0xffff_ffc1 by {
        let block = s.free@[i];
        assert(block.has(block.addr as int) && block.has(block.addr + block.size - 1));
        assert(covered(s.free@, block.addr as int));
        assert(covered(s.free@, block.addr + block.size - 1));
    }
    assert(0 <= largest * banks <= 0xffff_ffc0 * banks) by (nonlinear_arith)
        requires
            0 <= largest <= 0xffff_ffc0,
            banks > 0,
    ;
    assert(size * banks <= largest * banks <==> size <= largest) by (nonlinear_arith)
        requires
            banks > 0,
    ;
}

/// A device of which nothing was ever handed out has all its memory free, whether
/// its allocations are known or not.
pub proof fn lemma_untouched_stats(s: DeviceAllocatorState, banks: int)
    requires
        s.next == 0x40,
        s.free@.len() == 0,
        0 <= banks,
        0xffff_ffc0 * banks <= u64::MAX,
    ensures
        stats_of(Some(&s), banks) == stats_of(None, banks),
        stats_of(None, banks).bytes_in_use == 0,
        stats_of(None, banks).bytes_limit == 0xffff_ffc0 * banks,
        stats_of(None, banks).largest_free_block_bytes == stats_of(None, banks).bytes_limit,
{
    assert(largest_block(s.free@, 0xffff_ffc0) == 0xffff_ffc0);
    assert(free_bytes(s.free@) == 0);
    assert(0 * banks == 0) by (nonlinear_arith);
}

/// The figures of a device report as in use what the ranges in use take in all
/// banks.
pub proof fn lemma_stats_report_use(s: DeviceAllocatorState, live: Seq<FreeBlock>, banks: int)
    requires
        s.accounts_for(live),
        banks >= 0,
        total(live) * banks <= u64::MAX,
    ensures
        stats_of(Some(&s), banks).bytes_in_use == total(live) * banks,
        0xffff_ffc0 * banks <= u64::MAX ==> stats_of(Some(&s), banks).bytes_limit == 0xffff_ffc0
            * banks,
{
    lemma_nothing_lost(s, live);
    lemma_total_not_negative(live);
    lemma_total_not_negative(s.free@);
    lemma_free_bytes(s.free@);
    assert(total(live) * banks >= 0) by (nonlinear_arith)
        requires
            total(live) >= 0,
            banks >= 0,
    ;
}

/// The use of the memory of a device whose allocations stand at `state`, or of
/// one without any.
pub open spec fn stats_of(state: Option<&DeviceAllocatorState>, bank_count: int) -> AllocatorStats {
    let limit = arith::min2(0xffff_ffc0 * bank_count, u64::MAX as int);
    match state {
        None => AllocatorStats {
            bytes_in_use: 0,
            bytes_limit: limit as u64,
            largest_free_block_bytes: limit as u64,
        },
        Some(s) => {
            let span = arith::max2(s.next - 0x40, 0);
            let used = arith::max2(span - free_bytes(s.free@), 0);
            let tail = arith::max2(0x1_0000_0000 - s.next, 0);
            AllocatorStats {
                bytes_in_use: arith::min2(used * bank_count, u64::MAX as int) as u64,
                bytes_limit: limit as u64,
                largest_free_block_bytes: arith::min2(
                    largest_block(s.free@, tail) * bank_count,
                    u64::MAX as int,
                ) as u64,
            }
        },
    }
}

pub fn allocator_stats(state: Option<&DeviceAllocatorState>, bank_count: usize) -> (r:
    AllocatorStats)
    ensures
        r == stats_of(state, bank_count as int),
{
    let banks: u64 = bank_count as u64;
    let tail_bytes: u64 = Dram::TLB_SIZE_4G.saturating_sub(Dram::WRITE_OFFSET);
    let bytes_limit: u64 = arith::saturating_mul_u64(tail_bytes, banks);
    match state {
        None => AllocatorStats {
            bytes_in_use: 0,
            bytes_limit,
            largest_free_block_bytes: bytes_limit,
        },
        Some(s) => {
            let span: u64 = s.next.saturating_sub(Dram::WRITE_OFFSET);
            let mut free_sum: u64 = 0;
            let tail_free: u64 = Dram::TLB_SIZE_4G.saturating_sub(s.next);
            let mut largest: u64 = tail_free;
            for i in 0..s.free.len()
                invariant
                    free_sum == free_bytes(s.free@.take(i as int)),
                    largest == largest_block(s.free@.take(i as int), tail_free as int),
            {
                assert(s.free@.take(i + 1).drop_last() =~= s.free@.take(i as int));
                let size: u64 = s.free[i].size;
                free_sum = free_sum.saturating_add(size);
                if size > largest {
                    largest = size;
                }
            }
            assert(s.free@.take(s.free@.len() as int) =~= s.free@);
            AllocatorStats {
                bytes_in_use: arith::saturating_mul_u64(span.saturating_sub(free_sum), banks),
                bytes_limit,
                largest_free_block_bytes: arith::saturating_mul_u64(largest, banks),
            }
        },
    }
}

} // verus!
