//! The allocations of all devices of a machine.

use vstd::prelude::*;
use crate::dram::access;
use crate::dram::access::Allocation;
use crate::dram::allocator;
use crate::dram::allocator::{AllocatorStats, DeviceAllocatorState, FreeBlock};
use crate::dram::DType;
use crate::error::Error;
use std::collections::HashMap;

verus! {

broadcast use vstd::std_specs::hash::group_hash_axioms;

/// Where the allocations of each device stand, by the number of its hardware.
#[derive(Debug)]
pub struct AllocatorStates {
    pub states: HashMap<usize, DeviceAllocatorState>,
}

impl View for AllocatorStates {
    type V = Map<usize, DeviceAllocatorState>;

    open spec fn view(&self) -> Map<usize, DeviceAllocatorState> {
        self.states@
    }
}

/// Whether a step took the allocations of one device from `s` to `t`, and left those
/// of the other devices as they were.
pub open spec fn moves(
    before: AllocatorStates,
    after: AllocatorStates,
    id: usize,
    s: DeviceAllocatorState,
    t: DeviceAllocatorState,
) -> bool {
    &&& before.stands(id, s)
    &&& after.stands(id, t)
    &&& before@.remove(id) == after@.remove(id)
}

/// A step on one device affects no other.
pub proof fn lemma_other_devices(
    before: AllocatorStates,
    after: AllocatorStates,
    id: usize,
    s: DeviceAllocatorState,
    t: DeviceAllocatorState,
    other: usize,
    x: DeviceAllocatorState,
)
    requires
        moves(before, after, id, s, t),
        other != id,
    ensures
        after.stands(other, x) <==> before.stands(other, x),
{
    let (b, a) = (before@.remove(id), after@.remove(id));
    assert(b.contains_key(other) == before@.contains_key(other));
    assert(a.contains_key(other) == after@.contains_key(other));
    if before@.contains_key(other) {
        assert(b[other] == before@[other]);
        assert(a[other] == after@[other]);
    }
}

impl AllocatorStates {
    pub open spec fn wf(&self) -> bool {
        forall|id: usize| #[trigger] self@.contains_key(id) ==> self@[id].wf()
    }

    /// Whether the allocations of a device stand at `s`; a device that is not known
    /// has none.
    pub open spec fn stands(&self, id: usize, s: DeviceAllocatorState) -> bool {
        if self@.contains_key(id) {
            s == self@[id]
        } else {
            s.next == 0x40 && s.free@.len() == 0 && s.accounts_for(Seq::empty())
        }
    }

    pub fn new() -> (r: AllocatorStates)
        ensures
            r@ == Map::<usize, DeviceAllocatorState>::empty(),
            r.wf(),
    {
        AllocatorStates { states: HashMap::new() }
    }

    fn take(&mut self, id: usize) -> (s: DeviceAllocatorState)
        requires
            old(self).wf(),
        ensures
            final(self).wf(),
            final(self)@ == old(self)@.remove(id),
            old(self).stands(id, s),
            s.wf(),
    {
        match self.states.remove(&id) {
            Some(s) => s,
            None => {
                assert(self@ =~= old(self)@.remove(id));
                DeviceAllocatorState::new()
            },
        }
    }

    fn put(&mut self, id: usize, s: DeviceAllocatorState)
        requires
            old(self).wf(),
            s.wf(),
        ensures
            final(self).wf(),
            final(self)@ == old(self)@.insert(id, s),
            final(self).stands(id, s),
            final(self)@.remove(id) == old(self)@.remove(id),
    {
        self.states.insert(id, s);
        assert(self@.remove(id) =~= old(self)@.remove(id));
    }

    /// Allocates a range of a device: its start, its size, and the start of the
    /// untouched addresses.
    pub fn allocate_allocation_range(
        &mut self,
        id: usize,
        num_tiles: usize,
        dtype: DType,
        bank_count: usize,
    ) -> (r: Result<(u64, u64, u64), Error>)
        requires
            old(self).wf(),
        ensures
            final(self).wf(),
            exists|s: DeviceAllocatorState, t: DeviceAllocatorState|
                #[trigger] moves(*old(self), *final(self), id, s, t) && match r {
                    Ok((addr, size, next)) => {
                        &&& s.allocation_refusal(num_tiles as int, dtype, bank_count as int)
                            is None
                        &&& size == allocator::range_size(
                            num_tiles as int,
                            dtype,
                            bank_count as int,
                        )
                        &&& next == t.next
                        &&& access::hands_out(s, t, addr, size)
                        &&& size > 0 ==> forall|live: Seq<FreeBlock>| #[trigger]
                            s.accounts_for(live) ==> t.accounts_for(
                                live.push(FreeBlock { addr, size }),
                            )
                    },
                    Err(e) => {
                        &&& s.allocation_refusal(num_tiles as int, dtype, bank_count as int)
                            == Some(e@)
                        &&& t.next == s.next
                        &&& t.free@ == s.free@
                    },
                },
    {
        let mut state = self.take(id);
        let ghost s = state;
        let r = state.allocate_allocation_range(num_tiles, dtype, bank_count);
        let ghost t = state;
        self.put(id, state);
        assert(self@.remove(id) =~= old(self)@.remove(id));
        assert(moves(*old(self), *self, id, s, t));
        r
    }

    /// Gives a range of a device back.
    pub fn free_allocation(&mut self, id: usize, addr: u64, size: u64)
        requires
            old(self).wf(),
            addr + size <= u64::MAX,
        ensures
            final(self).wf(),
            exists|s: DeviceAllocatorState, t: DeviceAllocatorState|
                #[trigger] moves(*old(self), *final(self), id, s, t) && {
                    &&& t.next == s.next
                    &&& forall|a: int|
                        #[trigger] allocator::covered(t.free@, a) <==> allocator::covered(
                            s.free@,
                            a,
                        ) || (FreeBlock { addr, size }).has(a)
                    &&& forall|live: Seq<FreeBlock>, i: int|
                        0 <= i < live.len() && live[i] == (FreeBlock { addr, size })
                            && #[trigger] s.accounts_for(live) ==> t.accounts_for(
                            #[trigger] live.remove(i),
                        )
                },
    {
        let mut state = self.take(id);
        let ghost s = state;
        state.free_allocation(addr, size);
        let ghost t = state;
        self.put(id, state);
        assert(self@.remove(id) =~= old(self)@.remove(id));
        assert(moves(*old(self), *self, id, s, t));
    }

    /// The figures of a device.
    pub fn allocator_stats(&self, id: usize, bank_count: usize) -> (r: AllocatorStats)
        ensures
            r == allocator::stats_of(
                if self@.contains_key(id) {
                    Some(&self@[id])
                } else {
                    None
                },
                bank_count as int,
            ),
    {
        allocator::allocator_stats(self.states.get(&id), bank_count)
    }

    /// Allocates a buffer of a device.
    pub fn allocate_buffer(
        &mut self,
        id: usize,
        num_tiles: usize,
        dtype: DType,
        name: String,
        shape: Vec<usize>,
        bank_count: usize,
    ) -> (r: Result<Allocation, Error>)
        requires
            old(self).wf(),
        ensures
            final(self).wf(),
            exists|s: DeviceAllocatorState, t: DeviceAllocatorState|
                #[trigger] moves(*old(self), *final(self), id, s, t) && {
                    let refusal = access::alloc_refusal(
                        s,
                        num_tiles as int,
                        dtype,
                        shape@,
                        bank_count as int,
                    );
                    match r {
                        Ok(a) => refusal is None && access::allocated(
                            a,
                            s,
                            t,
                            num_tiles as int,
                            dtype,
                            name@,
                            shape@,
                            bank_count as int,
                        ),
                        Err(e) => refusal == Some(e@) && t.next == s.next && t.free@ == s.free@,
                    }
                },
    {
        let mut state = self.take(id);
        let ghost s = state;
        let r = state.allocate_buffer(num_tiles, dtype, name, shape, bank_count);
        let ghost t = state;
        self.put(id, state);
        assert(self@.remove(id) =~= old(self)@.remove(id));
        assert(moves(*old(self), *self, id, s, t));
        r
    }

    /// Allocates a buffer of a device for bytes that are in tiles.
    pub fn alloc_for_tiles(
        &mut self,
        id: usize,
        data: &[u8],
        dtype: DType,
        name: String,
        shape: Vec<usize>,
        bank_count: usize,
    ) -> (r: Result<Allocation, Error>)
        requires
            old(self).wf(),
        ensures
            final(self).wf(),
            exists|s: DeviceAllocatorState, t: DeviceAllocatorState|
                #[trigger] moves(*old(self), *final(self), id, s, t) && {
                    let refusal = access::alloc_write_refusal(
                        s,
                        data@.len() as int,
                        dtype,
                        shape@,
                        bank_count as int,
                    );
                    match r {
                        Ok(a) => refusal is None && access::allocated(
                            a,
                            s,
                            t,
                            data@.len() as int / dtype.tile_bytes(),
                            dtype,
                            name@,
                            shape@,
                            bank_count as int,
                        ),
                        Err(e) => refusal == Some(e@) && t.next == s.next && t.free@ == s.free@,
                    }
                },
    {
        let mut state = self.take(id);
        let ghost s = state;
        let r = state.alloc_for_tiles(data, dtype, name, shape, bank_count);
        let ghost t = state;
        self.put(id, state);
        assert(self@.remove(id) =~= old(self)@.remove(id));
        assert(moves(*old(self), *self, id, s, t));
        r
    }

    /// Allocates a buffer of a device for bytes that are in rows.
    pub fn alloc_for_host_data(
        &mut self,
        id: usize,
        data: &[u8],
        dtype: DType,
        name: String,
        shape: Vec<usize>,
        bank_count: usize,
    ) -> (r: Result<Allocation, Error>)
        requires
            old(self).wf(),
        ensures
            final(self).wf(),
            exists|s: DeviceAllocatorState, t: DeviceAllocatorState|
                #[trigger] moves(*old(self), *final(self), id, s, t) && {
                    let refusal = access::alloc_host_refusal(
                        s,
                        data@.len() as int,
                        dtype,
                        shape@,
                        bank_count as int,
                    );
                    match r {
                        Ok(a) => refusal is None && access::allocated(
                            a,
                            s,
                            t,
                            data@.len() as int / dtype.tile_bytes(),
                            dtype,
                            name@,
                            shape@,
                            bank_count as int,
                        ),
                        Err(e) => refusal == Some(e@) && t.next == s.next && t.free@ == s.free@,
                    }
                },
    {
        let mut state = self.take(id);
        let ghost s = state;
        let r = state.alloc_for_host_data(data, dtype, name, shape, bank_count);
        let ghost t = state;
        self.put(id, state);
        assert(self@.remove(id) =~= old(self)@.remove(id));
        assert(moves(*old(self), *self, id, s, t));
        r
    }
}

} // verus!
