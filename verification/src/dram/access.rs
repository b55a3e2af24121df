//! Device memory as the host sees it: buffers, and what is read and written
//! bank by bank.

use vstd::prelude::*;
use vstd::arithmetic::div_mod::*;
use crate::arith;
use crate::bytes;
use crate::dram;
use crate::dram::allocator;
use crate::dram::allocator::{DeviceAllocatorState, FreeBlock};
use crate::dram::banks;
use crate::dram::layout;
use crate::dram::{DType, DramBuffer};
use crate::error;
use crate::error::{Error, ErrorKind};
use crate::hw::{CoreCoord, Dram, DramTile};
use crate::text;

verus! {

/// The tiles through which the banks are reached: the first of each bank.
pub open spec fn first_tiles(tiles: Seq<DramTile>) -> Seq<DramTile> {
    Seq::new(
        arith::ceil_div(tiles.len() as int, Dram::TILES_PER_BANK as int) as nat,
        |i: int| tiles[i * Dram::TILES_PER_BANK],
    )
}

/// Picks a tile for each bank.
pub fn bank_tiles(dram_tiles: &[DramTile]) -> (r: Result<Vec<DramTile>, Error>)
    ensures
        match r {
            Ok(v) => dram_tiles@.len() > 0 && v@ == first_tiles(dram_tiles@),
            Err(e) => dram_tiles@.len() == 0 && e@ == (
                ErrorKind::Other,
                "no active DRAM bank tiles discovered"@,
            ),
        },
{
    let len: usize = dram_tiles.len();
    if len == 0 {
        return Err(
            Error::new(ErrorKind::Other, "no active DRAM bank tiles discovered".to_owned()),
        );
    }
    let mut out: Vec<DramTile> = Vec::new();
    let banks: usize = arith::div_ceil(len, Dram::TILES_PER_BANK);
    for i in 0..banks
        invariant
            len == dram_tiles@.len(),
            banks == arith::ceil_div(len as int, 3),
            out@.len() == i,
            forall|j: int| 0 <= j < i ==> out@[j] == dram_tiles@[j * 3],
    {
        proof {
            arith::lemma_ceil_div(len as int, 3);
        }
        out.push(dram_tiles[i * Dram::TILES_PER_BANK]);
    }
    assert(out@ =~= first_tiles(dram_tiles@));
    Ok(out)
}

/// A buffer, and the range of memory that it holds until it is given back.
#[derive(Debug)]
pub struct Allocation {
    pub buffer: DramBuffer,
    pub range: Option<FreeBlock>,
}

/// What handing out `size` bytes at `addr` does to the memory of a device.
pub open spec fn hands_out(
    before: DeviceAllocatorState,
    after: DeviceAllocatorState,
    addr: u64,
    size: u64,
) -> bool {
    if size == 0 {
        addr == before.next && after == before
    } else if before.reusable(size as int) {
        after.next == before.next && exists|i: int| #[trigger]
            allocator::best_fit(before.free@, size, i) && addr == before.free@[i].addr
                && after.free@ == allocator::taken(before.free@, size, i)
    } else {
        addr == before.next && after.next == before.next + size && after.free@ == before.free@
    }
}

/// Why no buffer is allocated.
pub open spec fn alloc_refusal(
    state: DeviceAllocatorState,
    num_tiles: int,
    dtype: DType,
    shape: Seq<usize>,
    bank_count: int,
) -> Option<error::Refusal> {
    if dram::allocation_shape_refusal(num_tiles, shape) is Some {
        dram::allocation_shape_refusal(num_tiles, shape)
    } else {
        state.allocation_refusal(num_tiles, dtype, bank_count)
    }
}

/// Whether a buffer of the given kind was allocated.
pub open spec fn allocated(
    a: Allocation,
    before: DeviceAllocatorState,
    after: DeviceAllocatorState,
    num_tiles: int,
    dtype: DType,
    name: Seq<char>,
    shape: Seq<usize>,
    bank_count: int,
) -> bool {
    let size = allocator::range_size(num_tiles, dtype, bank_count);
    &&& a.buffer.name@ == name
    &&& a.buffer.num_tiles == num_tiles
    &&& a.buffer.dtype == dtype
    &&& a.buffer.shape@ == shape
    &&& size <= u64::MAX
    &&& hands_out(before, after, a.buffer.addr, size as u64)
    &&& a.range == if size > 0 {
        Some(FreeBlock { addr: a.buffer.addr, size: size as u64 })
    } else {
        None
    }
    &&& before.on_grid() ==> a.buffer.addr % 64 == 0 && after.on_grid()
    &&& a.range is Some ==> forall|live: Seq<FreeBlock>| #[trigger]
        before.accounts_for(live) ==> after.accounts_for(live.push(a.range->0))
}

/// An allocated buffer has the shape, the tiles and the type that were asked for, its
/// last two dimensions are whole tiles and its bytes are those of its elements. It is
/// aligned and lies in the memory, it shares no address with a range in use, and is in
/// use itself from there on.
pub proof fn lemma_buffer_allocated(
    a: Allocation,
    before: DeviceAllocatorState,
    after: DeviceAllocatorState,
    num_tiles: int,
    dtype: DType,
    name: Seq<char>,
    shape: Seq<usize>,
    bank_count: int,
    live: Seq<FreeBlock>,
)
    requires
        bank_count >= 0,
        alloc_refusal(before, num_tiles, dtype, shape, bank_count) is None,
        allocated(a, before, after, num_tiles, dtype, name, shape, bank_count),
        before.accounts_for(live),
    ensures
        a.buffer.shape@ == shape,
        shape.len() >= 2,
        shape[shape.len() - 1] % 32 == 0,
        shape[shape.len() - 2] % 32 == 0,
        a.buffer.num_tiles == num_tiles,
        a.buffer.dtype == dtype,
        num_tiles * dtype.tile_bytes() == arith::product(arith::ints(shape)) * dtype.width(),
        a.buffer.addr % 64 == 0,
        match a.range {
            Some(range) => {
                &&& range.addr == a.buffer.addr
                &&& range.addr + range.size <= 0x1_0000_0000
                &&& forall|i: int|
                    0 <= i < live.len() ==> range.addr + range.size <= (#[trigger] live[i]).addr
                        || live[i].addr + live[i].size <= range.addr
                &&& after.accounts_for(live.push(range))
            },
            None => num_tiles == 0 && after == before,
        },
{
    let n = shape.len() as int;
    dram::lemma_tiled_shape(shape);
    dram::lemma_tile_count_product(shape);
    let outer = shape.take(n - 2);
    let (r, c) = (shape[n - 2] as int, shape[n - 1] as int);
    let p = arith::product(arith::ints(outer));
    let all = arith::ints(shape);
    assert(all.drop_last().drop_last() =~= arith::ints(outer));
    assert(arith::product(all) == p * r * c) by {
        assert(all.last() == c);
        assert(all.drop_last().last() == r);
        assert(arith::product(all.drop_last()) == p * r);
    }
    let (tr, tc) = (r / 32, c / 32);
    let w = dtype.width();
    assert(tr * tc * p * (1024 * w) == p * (tr * 32) * (tc * 32) * w) by (nonlinear_arith);
    allocator::lemma_range_size(num_tiles, dtype, bank_count);
    if a.range is Some {
        let range = a.range->0;
        let grown = live.push(range);
        allocator::lemma_ranges_apart(after, grown, live.len() as int);
        assert forall|i: int| 0 <= i < live.len() implies range.addr + range.size <= (
        #[trigger] live[i]).addr || live[i].addr + live[i].size <= range.addr by {
            assert(grown[i] == live[i]);
        }
    }
}

impl DeviceAllocatorState {
    /// Allocates a buffer.
    pub fn allocate_buffer(
        &mut self,
        num_tiles: usize,
        dtype: DType,
        name: String,
        shape: Vec<usize>,
        bank_count: usize,
    ) -> (r: Result<Allocation, Error>)
        requires
            old(self).wf(),
        ensures
            final(self).wf(),
            match r {
                Ok(a) => alloc_refusal(
                    *old(self),
                    num_tiles as int,
                    dtype,
                    shape@,
                    bank_count as int,
                ) is None && allocated(
                    a,
                    *old(self),
                    *final(self),
                    num_tiles as int,
                    dtype,
                    name@,
                    shape@,
                    bank_count as int,
                ),
                Err(e) => alloc_refusal(
                    *old(self),
                    num_tiles as int,
                    dtype,
                    shape@,
                    bank_count as int,
                ) == Some(e@) && final(self).next == old(self).next && final(self).free@ == old(
                    self,
                ).free@,
            },
    {
        dram::validate_allocation_shape(num_tiles, shape.as_slice())?;
        let (addr, size, _next) = self.allocate_allocation_range(num_tiles, dtype, bank_count)?;
        let buffer = DramBuffer { name, addr, num_tiles, dtype, shape };
        let range = if size > 0 {
            Some(FreeBlock { addr, size })
        } else {
            None
        };
        Ok(Allocation { buffer, range })
    }
}

/// Why no buffer is allocated for bytes that are in tiles.
pub open spec fn alloc_write_refusal(
    state: DeviceAllocatorState,
    len: int,
    dtype: DType,
    shape: Seq<usize>,
    bank_count: int,
) -> Option<error::Refusal> {
    if dram::tile_multiple_refusal(len, dtype) is Some {
        dram::tile_multiple_refusal(len, dtype)
    } else {
        alloc_refusal(state, len / dtype.tile_bytes(), dtype, shape, bank_count)
    }
}

/// Why no buffer is allocated for bytes that are in rows.
pub open spec fn alloc_host_refusal(
    state: DeviceAllocatorState,
    len: int,
    dtype: DType,
    shape: Seq<usize>,
    bank_count: int,
) -> Option<error::Refusal> {
    if dram::tiled_data_refusal(len, dtype, shape) is Some {
        dram::tiled_data_refusal(len, dtype, shape)
    } else {
        alloc_refusal(state, len / dtype.tile_bytes(), dtype, shape, bank_count)
    }
}

impl DeviceAllocatorState {
    /// Allocates a buffer for bytes that are in tiles.
    pub fn alloc_for_tiles(
        &mut self,
        data: &[u8],
        dtype: DType,
        name: String,
        shape: Vec<usize>,
        bank_count: usize,
    ) -> (r: Result<Allocation, Error>)
        requires
            old(self).wf(),
        ensures
            final(self).wf(),
            match r {
                Ok(a) => alloc_write_refusal(
                    *old(self),
                    data@.len() as int,
                    dtype,
                    shape@,
                    bank_count as int,
                ) is None && allocated(
                    a,
                    *old(self),
                    *final(self),
                    data@.len() as int / dtype.tile_bytes(),
                    dtype,
                    name@,
                    shape@,
                    bank_count as int,
                ),
                Err(e) => alloc_write_refusal(
                    *old(self),
                    data@.len() as int,
                    dtype,
                    shape@,
                    bank_count as int,
                ) == Some(e@) && final(self).next == old(self).next && final(self).free@ == old(
                    self,
                ).free@,
            },
    {
        dram::validate_tile_multiple(data.len(), dtype)?;
        let num_tiles: usize = data.len() / dtype.tile_size();
        self.allocate_buffer(num_tiles, dtype, name, shape, bank_count)
    }

    /// Allocates a buffer for bytes that are in rows.
    pub fn alloc_for_host_data(
        &mut self,
        data: &[u8],
        dtype: DType,
        name: String,
        shape: Vec<usize>,
        bank_count: usize,
    ) -> (r: Result<Allocation, Error>)
        requires
            old(self).wf(),
        ensures
            final(self).wf(),
            match r {
                Ok(a) => alloc_host_refusal(
                    *old(self),
                    data@.len() as int,
                    dtype,
                    shape@,
                    bank_count as int,
                ) is None && allocated(
                    a,
                    *old(self),
                    *final(self),
                    data@.len() as int / dtype.tile_bytes(),
                    dtype,
                    name@,
                    shape@,
                    bank_count as int,
                ),
                Err(e) => alloc_host_refusal(
                    *old(self),
                    data@.len() as int,
                    dtype,
                    shape@,
                    bank_count as int,
                ) == Some(e@) && final(self).next == old(self).next && final(self).free@ == old(
                    self,
                ).free@,
            },
    {
        dram::validate_tiled_shape(data, dtype, shape.as_slice())?;
        let num_tiles: usize = data.len() / dtype.tile_size();
        self.allocate_buffer(num_tiles, dtype, name, shape, bank_count)
    }
}

/// The bytes that go to one bank.
#[derive(Debug)]
pub struct BankWrite {
    pub bank: usize,
    pub data: Vec<u8>,
}

pub open spec fn writes_view(s: Seq<BankWrite>) -> Seq<(int, Seq<u8>)> {
    s.map_values(|w: BankWrite| (w.bank as int, w.data@))
}

/// What goes to the first `n` banks.
pub open spec fn bank_writes(data: Seq<u8>, page_size: int, bank_count: int, n: int) -> Seq<
    (int, Seq<u8>),
>
    decreases n,
{
    if n <= 0 {
        Seq::empty()
    } else {
        let pages = banks::strided_pages(data, page_size, n - 1, bank_count);
        if pages.len() == 0 {
            bank_writes(data, page_size, bank_count, n - 1)
        } else {
            bank_writes(data, page_size, bank_count, n - 1).push((n - 1, pages))
        }
    }
}

/// Why bytes do not go into a buffer.
pub open spec fn write_refusal(len: int, buf: DramBuffer) -> Option<error::Refusal> {
    let size = buf.num_tiles * buf.dtype.tile_bytes();
    if len > size {
        Some(
            error::invalid(
                "buffer write exceeds allocation: "@ + text::dec(len) + " > "@ + text::dec(size),
            ),
        )
    } else {
        None
    }
}

/// Splits bytes over the banks of a buffer.
pub fn plan_write(buf: &DramBuffer, data: &[u8], bank_count: usize) -> (r: Result<
    Vec<BankWrite>,
    Error,
>)
    requires
        buf.num_tiles * buf.dtype.tile_bytes() <= usize::MAX,
    ensures
        match r {
            Ok(w) => write_refusal(data@.len() as int, *buf) is None && writes_view(w@)
                == bank_writes(
                data@,
                buf.dtype.tile_bytes(),
                bank_count as int,
                bank_count as int,
            ),
            Err(e) => write_refusal(data@.len() as int, *buf) == Some(e@),
        },
{
    let size: usize = buf.size();
    if data.len() > size {
        return Err(
            error::invalid_input(
                text::cat4(
                    "buffer write exceeds allocation: ",
                    text::decimal_usize(data.len()).as_str(),
                    " > ",
                    text::decimal_usize(size).as_str(),
                ),
            ),
        );
    }
    let page: usize = buf.page_size();
    let mut out: Vec<BankWrite> = Vec::new();
    assert(writes_view(out@) =~= bank_writes(data@, page as int, bank_count as int, 0));
    for bank in 0..bank_count
        invariant
            page > 0,
            page == buf.dtype.tile_bytes(),
            writes_view(out@) == bank_writes(
                data@,
                page as int,
                bank_count as int,
                bank as int,
            ),
    {
        let pages = banks::collect_bank_data(data, page, bank, bank_count);
        if pages.len() > 0 {
            let ghost before = out@;
            out.push(BankWrite { bank, data: pages });
            assert(writes_view(out@) =~= writes_view(before).push((bank as int, pages@)));
        }
    }
    Ok(out)
}

/// Why rows do not go into a buffer.
pub open spec fn host_write_refusal(data: Seq<u8>, buf: DramBuffer) -> Option<error::Refusal> {
    if dram::tiled_data_refusal(data.len() as int, buf.dtype, buf.shape@) is Some {
        dram::tiled_data_refusal(data.len() as int, buf.dtype, buf.shape@)
    } else {
        write_refusal(data.len() as int, buf)
    }
}

/// Puts rows into tiles and splits them over the banks of a buffer.
pub fn plan_host_write(buf: &DramBuffer, data: &[u8], bank_count: usize) -> (r: Result<
    Vec<BankWrite>,
    Error,
>)
    requires
        dram::tiled_data_refusal(data@.len() as int, buf.dtype, buf.shape@) is None
            ==> buf.num_tiles * buf.dtype.tile_bytes() <= usize::MAX,
    ensures
        match r {
            Ok(w) => host_write_refusal(data@, *buf) is None && writes_view(w@) == bank_writes(
                layout::tilized(
                    data@,
                    buf.dtype.width(),
                    buf.shape@[buf.shape@.len() - 2] as int,
                    buf.shape@[buf.shape@.len() - 1] as int,
                ),
                buf.dtype.tile_bytes(),
                bank_count as int,
                bank_count as int,
            ),
            Err(e) => host_write_refusal(data@, *buf) == Some(e@),
        },
{
    let payload = layout::tilize(data, buf.dtype, buf.shape.as_slice())?;
    plan_write(buf, payload.as_slice(), bank_count)
}

/// The number of pages of a buffer of `count` pages that one bank holds.
pub open spec fn bank_pages(count: int, bank: int, bank_count: int) -> int {
    if bank >= count {
        0
    } else {
        arith::ceil_div(count - bank, bank_count)
    }
}

/// How many bytes each bank is asked for.
pub open spec fn bank_reads(buf: DramBuffer, bank_count: int) -> Seq<int> {
    Seq::new(
        bank_count as nat,
        |b: int| bank_pages(buf.num_tiles as int, b, bank_count) * buf.dtype.tile_bytes(),
    )
}

proof fn lemma_bank_pages(count: int, bank: int, bank_count: int)
    requires
        count >= 0,
        bank >= 0,
        bank_count > 0,
    ensures
        0 <= bank_pages(count, bank, bank_count) <= count,
{
    if bank < count {
        arith::lemma_ceil_div(count - bank, bank_count);
    }
}

/// Works out how many bytes of a buffer each bank holds.
pub fn plan_read(buf: &DramBuffer, bank_count: usize) -> (r: Vec<usize>)
    requires
        buf.num_tiles * buf.dtype.tile_bytes() <= usize::MAX,
    ensures
        arith::ints(r@) == bank_reads(*buf, bank_count as int),
{
    let mut out: Vec<usize> = Vec::new();
    let page: usize = buf.page_size();
    for bank in 0..bank_count
        invariant
            page == buf.dtype.tile_bytes(),
            buf.num_tiles * page <= usize::MAX,
            arith::ints(out@) == bank_reads(*buf, bank_count as int).take(bank as int),
    {
        let pages: usize = if bank >= buf.num_tiles {
            0
        } else {
            arith::div_ceil(buf.num_tiles - bank, bank_count)
        };
        proof {
            lemma_bank_pages(buf.num_tiles as int, bank as int, bank_count as int);
            assert(pages * page <= buf.num_tiles * page) by (nonlinear_arith)
                requires
                    pages <= buf.num_tiles,
            ;
        }
        let ghost before = out@;
        let len: usize = pages * page;
        out.push(len);
        assert(len == bank_reads(*buf, bank_count as int)[bank as int]);
        assert(arith::ints(out@) =~= arith::ints(before).push(len as int));
        assert(arith::ints(out@) =~= bank_reads(*buf, bank_count as int).take(bank + 1));
    }
    assert(bank_reads(*buf, bank_count as int).take(bank_count as int) =~= bank_reads(
        *buf,
        bank_count as int,
    ));
    out
}

/// `out` with the pages of the first `n` banks put in place.
pub open spec fn gathered(out: Seq<u8>, page_size: int, read: Seq<Seq<u8>>, n: int) -> Seq<u8>
    decreases n,
{
    if n <= 0 {
        out
    } else {
        banks::scattered(
            gathered(out, page_size, read, n - 1),
            page_size,
            n - 1,
            read.len() as int,
            read[n - 1],
        )
    }
}

pub open spec fn banks_view(s: Seq<Vec<u8>>) -> Seq<Seq<u8>> {
    s.map_values(|v: Vec<u8>| v@)
}

/// What was asked of a bank fills its pages.
proof fn lemma_read_covers(count: int, page_size: int, bank: int, bank_count: int, len: int)
    requires
        count >= 0,
        page_size > 0,
        bank >= 0,
        bank_count > 0,
        len >= bank_pages(count, bank, bank_count) * page_size,
    ensures
        banks::covers(count * page_size, page_size, bank, bank_count, len),
{
    assert forall|k: int|
        0 <= k < count * page_size && banks::on_stride(
            #[trigger] (k / page_size),
            bank,
            bank_count,
        ) implies ((k / page_size - bank) / bank_count) * page_size + k % page_size < len by {
        let p = k / page_size;
        let slot = (p - bank) / bank_count;
        let pages = bank_pages(count, bank, bank_count);
        lemma_fundamental_div_mod(k, page_size);
        lemma_mod_bound(k, page_size);
        assert(p < count) by (nonlinear_arith)
            requires
                k == page_size * p + k % page_size,
                0 <= k % page_size,
                k < count * page_size,
                page_size > 0,
        ;
        lemma_fundamental_div_mod(p - bank, bank_count);
        arith::lemma_ceil_div(count - bank, bank_count);
        arith::lemma_round_up(count - bank, bank_count);
        assert(slot < pages) by (nonlinear_arith)
            requires
                p - bank == bank_count * slot,
                p < count,
                pages * bank_count >= count - bank,
                bank_count > 0,
        ;
        assert(slot * page_size + k % page_size < pages * page_size) by (nonlinear_arith)
            requires
                slot < pages,
                0 <= k % page_size < page_size,
        ;
    }
}

proof fn lemma_gathered_len(out: Seq<u8>, page_size: int, read: Seq<Seq<u8>>, n: int)
    ensures
        gathered(out, page_size, read, n).len() == out.len(),
    decreases n,
{
    if n > 0 {
        lemma_gathered_len(out, page_size, read, n - 1);
    }
}

/// Puts what the banks hold of a buffer together.
pub fn gather(buf: &DramBuffer, read: &[Vec<u8>]) -> (r: Vec<u8>)
    requires
        buf.num_tiles * buf.dtype.tile_bytes() <= usize::MAX,
        forall|b: int|
            0 <= b < read@.len() ==> (#[trigger] read@[b])@.len() == bank_reads(
                *buf,
                read@.len() as int,
            )[b],
    ensures
        r@ == gathered(
            bytes::zeros(buf.num_tiles * buf.dtype.tile_bytes()),
            buf.dtype.tile_bytes(),
            banks_view(read@),
            read@.len() as int,
        ),
{
    let page: usize = buf.page_size();
    let size: usize = buf.size();
    let n: usize = read.len();
    let mut out: Vec<u8> = Vec::new();
    bytes::resize(&mut out, size);
    let ghost start = bytes::zeros(size as int);
    assert(out@ =~= start);
    for b in 0..n
        invariant
            n == read@.len(),
            page > 0,
            page == buf.dtype.tile_bytes(),
            size == buf.num_tiles * page,
            start == bytes::zeros(size as int),
            forall|b: int|
                0 <= b < read@.len() ==> (#[trigger] read@[b])@.len() == bank_reads(
                    *buf,
                    read@.len() as int,
                )[b],
            out@.len() == size,
            out@ == gathered(start, page as int, banks_view(read@), b as int),
    {
        proof {
            lemma_read_covers(
                buf.num_tiles as int,
                page as int,
                b as int,
                n as int,
                read@[b as int]@.len() as int,
            );
            lemma_gathered_len(start, page as int, banks_view(read@), b + 1);
            assert(banks_view(read@)[b as int] == read@[b as int]@);
        }
        banks::scatter_bank_data(&mut out, page, b, n, read[b].as_slice());
    }
    out
}

/// Whether each bank starts with its pages of `data`.
pub open spec fn holds(read: Seq<Seq<u8>>, data: Seq<u8>, page_size: int) -> bool {
    forall|b: int|
        0 <= b < read.len() ==> banks::strided_pages(
            data,
            page_size,
            b,
            read.len() as int,
        ).is_prefix_of(#[trigger] read[b])
}

proof fn lemma_gathered_upto(
    data: Seq<u8>,
    out: Seq<u8>,
    page_size: int,
    read: Seq<Seq<u8>>,
    n: int,
    k: int,
)
    requires
        page_size > 0,
        0 <= n <= read.len(),
        read.len() > 0,
        out.len() == data.len(),
        0 <= k < data.len(),
        holds(read, data, page_size),
    ensures
        (k / page_size) % (read.len() as int) < n ==> gathered(out, page_size, read, n)[k]
            == data[k],
    decreases n,
{
    if n > 0 {
        let count = read.len() as int;
        lemma_gathered_upto(data, out, page_size, read, n - 1, k);
        lemma_gathered_len(out, page_size, read, n - 1);
        let q = k / page_size;
        lemma_div_pos_is_pos(k, page_size);
        lemma_fundamental_div_mod(q, count);
        if banks::on_stride(q, n - 1, count) {
            banks::lemma_strided_byte(data, page_size, n - 1, count, k);
            let s = banks::strided_pages(data, page_size, n - 1, count);
            assert(s.is_prefix_of(read[n - 1]));
            let at = ((q - (n - 1)) / count) * page_size + k % page_size;
            assert(s[at] == read[n - 1][at]);
        } else if q % count == n - 1 {
            assert(count * (q / count) == (q / count) * count) by (nonlinear_arith);
            layout::lemma_div_mod(q / count, count, 0);
            lemma_div_pos_is_pos(q, count);
            assert((q / count) * count >= 0) by (nonlinear_arith)
                requires
                    q / count >= 0,
                    count > 0,
            ;
            assert(false);
        }
    }
}

/// What was written to the banks of a buffer is read back from them.
pub proof fn lemma_read_after_write(
    data: Seq<u8>,
    page_size: int,
    read: Seq<Seq<u8>>,
)
    requires
        page_size > 0,
        read.len() > 0,
        holds(read, data, page_size),
    ensures
        gathered(bytes::zeros(data.len() as int), page_size, read, read.len() as int) == data,
{
    let out = bytes::zeros(data.len() as int);
    let r = gathered(out, page_size, read, read.len() as int);
    lemma_gathered_len(out, page_size, read, read.len() as int);
    assert forall|k: int| 0 <= k < data.len() implies #[trigger] r[k] == data[k] by {
        lemma_gathered_upto(data, out, page_size, read, read.len() as int, k);
        lemma_mod_bound(k / page_size, read.len() as int);
    }
    assert(r =~= data);
}

/// Whether what was written stands at the start of its bank.
pub open spec fn stored(writes: Seq<(int, Seq<u8>)>, read: Seq<Seq<u8>>) -> bool {
    forall|i: int|
        0 <= i < writes.len() ==> (#[trigger] writes[i]).1.is_prefix_of(read[writes[i].0])
}

proof fn lemma_bank_write(data: Seq<u8>, page_size: int, bank_count: int, n: int, bank: int) -> (i:
    int)
    requires
        0 <= bank < n,
        banks::strided_pages(data, page_size, bank, bank_count).len() > 0,
    ensures
        0 <= i < bank_writes(data, page_size, bank_count, n).len(),
        bank_writes(data, page_size, bank_count, n)[i] == (
            bank,
            banks::strided_pages(data, page_size, bank, bank_count),
        ),
    decreases n,
{
    if bank == n - 1 {
        bank_writes(data, page_size, bank_count, n - 1).len() as int
    } else {
        lemma_bank_write(data, page_size, bank_count, n - 1, bank)
    }
}

/// Banks in which the writes of a plan are stored hold the data.
pub proof fn lemma_stored_holds(data: Seq<u8>, page_size: int, read: Seq<Seq<u8>>)
    requires
        stored(bank_writes(data, page_size, read.len() as int, read.len() as int), read),
    ensures
        holds(read, data, page_size),
{
    let n = read.len() as int;
    let writes = bank_writes(data, page_size, n, n);
    assert forall|b: int| 0 <= b < n implies banks::strided_pages(
        data,
        page_size,
        b,
        n,
    ).is_prefix_of(#[trigger] read[b]) by {
        let pages = banks::strided_pages(data, page_size, b, n);
        if pages.len() > 0 {
            let i = lemma_bank_write(data, page_size, n, n, b);
            assert(writes[i].1.is_prefix_of(read[writes[i].0]));
        } else {
            assert(pages =~= read[b].subrange(0, 0));
        }
    }
}

proof fn lemma_product_not_negative(s: Seq<usize>)
    ensures
        arith::product(arith::ints(s)) >= 0,
    decreases s.len(),
{
    if s.len() > 0 {
        lemma_product_not_negative(s.drop_last());
        assert(arith::ints(s).drop_last() =~= arith::ints(s.drop_last()));
        let (a, b) = (arith::product(arith::ints(s.drop_last())), s.last() as int);
        assert(a * b >= 0) by (nonlinear_arith)
            requires
                a >= 0,
                b >= 0,
        ;
    }
}

/// What rows that the library takes consist of.
proof fn lemma_row_bytes(len: int, dtype: DType, shape: Seq<usize>)
    requires
        dram::tiled_data_refusal(len, dtype, shape) is None,
    ensures
        ({
            let n = shape.len();
            let batch = arith::product(arith::ints(shape.take(n - 2)));
            &&& batch >= 0
            &&& len == batch * (shape[n - 2] as int) * (shape[n - 1] as int) * dtype.width()
        }),
{
    let n = shape.len();
    let all = arith::ints(shape);
    let outer = arith::ints(shape.take(n - 2));
    lemma_product_not_negative(shape.take(n - 2));
    assert(all.drop_last().drop_last() =~= outer);
    assert(arith::product(all) == arith::product(outer) * (shape[n - 2] as int) * (shape[n - 1]
        as int)) by {
        reveal_with_fuel(arith::product, 3);
    }
}

/// Rows that were written to a buffer of their size are read back as they were:
/// the banks, in which the writes are stored, give the tiles, and these give the
/// rows.
pub proof fn lemma_host_read_after_write(data: Seq<u8>, buf: DramBuffer, read: Seq<Seq<u8>>)
    requires
        read.len() > 0,
        host_write_refusal(data, buf) is None,
        data.len() == buf.num_tiles * buf.dtype.tile_bytes(),
        stored(
            bank_writes(
                layout::tilized(
                    data,
                    buf.dtype.width(),
                    buf.shape@[buf.shape@.len() - 2] as int,
                    buf.shape@[buf.shape@.len() - 1] as int,
                ),
                buf.dtype.tile_bytes(),
                read.len() as int,
                read.len() as int,
            ),
            read,
        ),
    ensures
        ({
            let payload = gathered(
                bytes::zeros(buf.num_tiles * buf.dtype.tile_bytes()),
                buf.dtype.tile_bytes(),
                read,
                read.len() as int,
            );
            &&& dram::tiled_data_refusal(payload.len() as int, buf.dtype, buf.shape@) is None
            &&& layout::untilized(
                payload,
                buf.dtype.width(),
                buf.shape@[buf.shape@.len() - 2] as int,
                buf.shape@[buf.shape@.len() - 1] as int,
            ) == data
        }),
{
    let n = buf.shape@.len();
    let (rows, cols) = (buf.shape@[n - 2] as int, buf.shape@[n - 1] as int);
    let width = buf.dtype.width();
    let tiles = layout::tilized(data, width, rows, cols);
    let batch = arith::product(arith::ints(buf.shape@.take(n - 2)));
    lemma_stored_holds(tiles, buf.dtype.tile_bytes(), read);
    lemma_read_after_write(tiles, buf.dtype.tile_bytes(), read);
    lemma_row_bytes(data.len() as int, buf.dtype, buf.shape@);
    layout::lemma_untilize_tilize(data, width, batch, rows, cols);
}

/// Why an access to a window of device memory is refused.
pub open spec fn range_refusal(offset: int, len: int, mapping: int) -> Option<error::Refusal> {
    if offset + len > usize::MAX {
        Some((ErrorKind::Other, "TLB access overflow"@))
    } else if offset + len > mapping {
        Some(
            (
                ErrorKind::Other,
                "TLB access out of range: offset=0x"@ + text::hex(offset) + " len=0x"@ + text::hex(
                    len,
                ) + " mapping_len=0x"@ + text::hex(mapping),
            ),
        )
    } else {
        None
    }
}

/// Checks that an access stays in a window.
pub fn check_range(offset: usize, len: usize, mapping_len: usize) -> (r: Result<(), Error>)
    ensures
        match r {
            Ok(_) => range_refusal(offset as int, len as int, mapping_len as int) is None,
            Err(e) => range_refusal(offset as int, len as int, mapping_len as int) == Some(e@),
        },
{
    match offset.checked_add(len) {
        None => Err(Error::new(ErrorKind::Other, "TLB access overflow".to_owned())),
        Some(end) => {
            if end > mapping_len {
                Err(
                    Error::new(
                        ErrorKind::Other,
                        text::cat6(
                            "TLB access out of range: offset=0x",
                            text::hexadecimal(offset as u64).as_str(),
                            " len=0x",
                            text::hexadecimal(len as u64).as_str(),
                            " mapping_len=0x",
                            text::hexadecimal(mapping_len as u64).as_str(),
                        ),
                    ),
                )
            } else {
                Ok(())
            }
        },
    }
}

/// In which order the accesses through a window take effect.
#[derive(Clone, Copy, Debug, PartialEq, Eq, Structural)]
pub enum NocOrdering {
    Relaxed,
    Strict,
    Posted,
}

impl NocOrdering {
    pub open spec fn code(self) -> u8 {
        match self {
            NocOrdering::Relaxed => 0,
            NocOrdering::Strict => 1,
            NocOrdering::Posted => 2,
        }
    }

    pub fn value(self) -> (r: u8)
        ensures
            r == self.code(),
    {
        match self {
            NocOrdering::Relaxed => 0,
            NocOrdering::Strict => 1,
            NocOrdering::Posted => 2,
        }
    }
}

/// Where a window points.
#[derive(Debug)]
pub struct NocTlbConfig {
    pub addr: u64,
    pub x_end: u16,
    pub y_end: u16,
    pub x_start: u16,
    pub y_start: u16,
    pub mcast: u8,
    pub ordering: u8,
}

/// Points a window at a core, or at all cores of a rectangle.
pub fn tlb_config(
    start: CoreCoord,
    end: Option<CoreCoord>,
    addr: u64,
    ordering: NocOrdering,
) -> (r: NocTlbConfig)
    ensures
        ({
            let last = match end {
                Some(e) => e,
                None => start,
            };
            &&& r.addr == addr
            &&& (r.x_start, r.y_start) == (start.x as u16, start.y as u16)
            &&& (r.x_end, r.y_end) == (last.x as u16, last.y as u16)
            &&& r.mcast == if last != start {
                1u8
            } else {
                0u8
            }
            &&& r.ordering == ordering.code()
        }),
{
    let last = match end {
        Some(e) => e,
        None => start,
    };
    NocTlbConfig {
        addr,
        x_end: last.x as u16,
        y_end: last.y as u16,
        x_start: start.x as u16,
        y_start: start.y as u16,
        mcast: if last != start {
            1
        } else {
            0
        },
        ordering: ordering.value(),
    }
}

} // verus!
