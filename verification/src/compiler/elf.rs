//! Linked images: their loadable segments, and how these are merged into one
//! image for a core's memory.

use vstd::prelude::*;
use crate::arith;
use crate::bytes;
use crate::compiler::xip;
use crate::error;
use crate::error::{Error, ErrorKind};
use crate::hw::TensixL1;
use crate::text;

verus! {

/// A loadable segment.
#[derive(Clone, Debug, PartialEq, Eq)]
pub struct PTLoad {
    pub paddr: u32,
    pub data: Vec<u8>,
    pub memsz: u32,
    pub flags: u32,
}

/// What a contract says of a segment.
pub struct Load {
    pub paddr: u32,
    pub data: Seq<u8>,
    pub memsz: u32,
    pub flags: u32,
}

impl View for PTLoad {
    type V = Load;

    open spec fn view(&self) -> Load {
        Load { paddr: self.paddr, data: self.data@, memsz: self.memsz, flags: self.flags }
    }
}

/// The segments of a list.
pub open spec fn loads_view(segments: Seq<PTLoad>) -> Seq<Load> {
    segments.map_values(|s: PTLoad| s@)
}

/// The refusal of ill-formed data.
pub open spec fn bad_data(message: Seq<char>) -> error::Refusal {
    (ErrorKind::InvalidData, message)
}

pub open spec fn short_read() -> error::Refusal {
    (ErrorKind::UnexpectedEof, "short read"@)
}

pub fn invalid_data(message: &str) -> (e: Error)
    ensures
        e@ == bad_data(message@),
{
    Error::new(ErrorKind::InvalidData, message.to_owned())
}

fn read_past_end() -> (e: Error)
    ensures
        e@ == short_read(),
{
    Error::new(ErrorKind::UnexpectedEof, "short read".to_owned())
}

/// Where the header of segment `i` stands.
pub open spec fn segment_offset(elf: Seq<u8>, i: int) -> int {
    bytes::u32_at(elf, 28) + i * bytes::u16_at(elf, 42)
}

/// The number of segment headers.
pub open spec fn segment_count(elf: Seq<u8>) -> int {
    bytes::u16_at(elf, 44)
}

/// Whether header `i` is that of a loadable segment.
pub open spec fn is_load(elf: Seq<u8>, i: int) -> bool {
    bytes::u32_at(elf, segment_offset(elf, i)) == 1
}

/// Where the bytes of segment `i` end.
pub open spec fn segment_end(elf: Seq<u8>, i: int) -> int {
    let at = segment_offset(elf, i);
    bytes::u32_at(elf, at + 4) + bytes::u32_at(elf, at + 16)
}

/// Why segment `i` cannot be read.
pub open spec fn segment_checks(elf: Seq<u8>) -> spec_fn(int) -> Option<error::Refusal> {
    |i: int|
        {
            let at = segment_offset(elf, i);
            if at + 4 > elf.len() {
                Some(short_read())
            } else if !is_load(elf, i) {
                None
            } else if at + 28 > elf.len() {
                Some(short_read())
            } else if segment_end(elf, i) > usize::MAX {
                Some(bad_data("PT_LOAD overflow"@))
            } else if segment_end(elf, i) > elf.len() {
                Some(bad_data("PT_LOAD range exceeds ELF size"@))
            } else {
                None
            }
        }
}

/// Segment `i`. Its address is the physical one, where there is one.
pub open spec fn segment(elf: Seq<u8>, i: int) -> Load {
    let at = segment_offset(elf, i);
    let physical = bytes::u32_at(elf, at + 12);
    Load {
        paddr: (if physical != 0 {
            physical
        } else {
            bytes::u32_at(elf, at + 8)
        }) as u32,
        data: elf.subrange(bytes::u32_at(elf, at + 4), segment_end(elf, i)),
        memsz: bytes::u32_at(elf, at + 20) as u32,
        flags: bytes::u32_at(elf, at + 24) as u32,
    }
}

/// The loadable segments among the first `n` headers.
pub open spec fn segments(elf: Seq<u8>, n: int) -> Seq<Load>
    decreases n,
{
    if n <= 0 {
        Seq::empty()
    } else if is_load(elf, n - 1) {
        segments(elf, n - 1).push(segment(elf, n - 1))
    } else {
        segments(elf, n - 1)
    }
}

/// Why the segments of an image cannot be read.
pub open spec fn segments_refusal(elf: Seq<u8>) -> Option<error::Refusal> {
    if elf.len() < 46 {
        Some(short_read())
    } else if bytes::u16_at(elf, 42) < 32 {
        Some(bad_data("bad e_phentsize: "@ + text::dec(bytes::u16_at(elf, 42))))
    } else {
        error::first_refusal(0, segment_count(elf), segment_checks(elf))
    }
}

/// Reads the loadable segments of an image.
pub fn iter_pt_load(elf: &[u8]) -> (r: Result<Vec<PTLoad>, Error>)
    ensures
        match r {
            Ok(v) => segments_refusal(elf@) is None && loads_view(v@) == segments(
                elf@,
                segment_count(elf@),
            ),
            Err(e) => segments_refusal(elf@) == Some(e@),
        },
{
    let len: usize = elf.len();
    if len < 46 {
        return Err(read_past_end());
    }
    let e_phoff: u32 = bytes::get_u32(elf, 28);
    let e_phentsize: u16 = bytes::get_u16(elf, 42);
    let e_phnum: u16 = bytes::get_u16(elf, 44);
    if e_phentsize < 32 {
        return Err(
            Error::new(
                ErrorKind::InvalidData,
                text::cat2("bad e_phentsize: ", text::decimal(e_phentsize as u64).as_str()),
            ),
        );
    }
    let mut out: Vec<PTLoad> = Vec::new();
    assert(loads_view(out@) =~= segments(elf@, 0));
    for i in 0..e_phnum
        invariant
            len == elf@.len(),
            46 <= len,
            e_phoff == bytes::u32_at(elf@, 28),
            e_phentsize == bytes::u16_at(elf@, 42),
            e_phentsize >= 32,
            e_phnum == segment_count(elf@),
            loads_view(out@) == segments(elf@, i as int),
            forall|j: int| 0 <= j < i ==> #[trigger] segment_checks(elf@)(j) is None,
    {
        proof {
            error::lemma_first_refusal_skip(0, i as int, e_phnum as int, segment_checks(elf@));
            assert(0 <= i * e_phentsize <= 0xffff * 0xffff) by (nonlinear_arith)
                requires
                    i <= 0xffff,
                    e_phentsize <= 0xffff,
            ;
        }
        let offset: u64 = e_phoff as u64 + i as u64 * e_phentsize as u64;
        if offset + 4 > len as u64 {
            return Err(read_past_end());
        }
        let at: usize = offset as usize;
        assert(at == segment_offset(elf@, i as int));
        if bytes::get_u32(elf, at) == 1 {
            if offset + 28 > len as u64 {
                return Err(read_past_end());
            }
            let p_offset: u32 = bytes::get_u32(elf, at + 4);
            let p_vaddr: u32 = bytes::get_u32(elf, at + 8);
            let p_paddr: u32 = bytes::get_u32(elf, at + 12);
            let p_filesz: u32 = bytes::get_u32(elf, at + 16);
            let memsz: u32 = bytes::get_u32(elf, at + 20);
            let flags: u32 = bytes::get_u32(elf, at + 24);
            let end: usize = match (p_offset as usize).checked_add(p_filesz as usize) {
                Some(end) => end,
                None => {
                    return Err(invalid_data("PT_LOAD overflow"));
                },
            };
            if end > len {
                return Err(invalid_data("PT_LOAD range exceeds ELF size"));
            }
            let paddr: u32 = if p_paddr != 0 {
                p_paddr
            } else {
                p_vaddr
            };
            let ghost before = loads_view(out@);
            out.push(
                PTLoad {
                    paddr,
                    data: bytes::copy_range(elf, p_offset as usize, end),
                    memsz,
                    flags,
                },
            );
            assert(loads_view(out@) =~= before.push(segment(elf@, i as int)));
        }
        assert(segment_checks(elf@)(i as int) is None);
    }
    proof {
        error::lemma_first_refusal_none(0, e_phnum as int, segment_checks(elf@));
    }
    Ok(out)
}

/// Whether a segment goes into a core's memory.
pub open spec fn in_memory(l: Load) -> bool {
    (l.memsz != 0 || l.data.len() != 0) && l.paddr < TensixL1::SIZE
}

/// A list in ascending order of addresses, with one more segment behind those
/// of the same address.
pub open spec fn inserted(list: Seq<Load>, l: Load) -> Seq<Load>
    decreases list.len(),
{
    if list.len() == 0 || list.last().paddr <= l.paddr {
        list.push(l)
    } else {
        inserted(list.drop_last(), l).push(list.last())
    }
}

/// The segments in ascending order of addresses that go into memory; segments of
/// one address keep their order.
pub open spec fn placed(list: Seq<Load>) -> Seq<Load>
    decreases list.len(),
{
    if list.len() == 0 {
        Seq::empty()
    } else if in_memory(list.last()) {
        inserted(placed(list.drop_last()), list.last())
    } else {
        placed(list.drop_last())
    }
}

/// The bytes that a segment takes from the start of the image.
pub open spec fn reach(l: Load, base: int) -> int {
    l.paddr - base + arith::max2(l.memsz as int, l.data.len() as int)
}

/// An image with one more segment in it.
pub open spec fn with_segment(image: Seq<u8>, l: Load, base: int) -> Seq<u8> {
    let room = if image.len() < reach(l, base) {
        bytes::resized(image, reach(l, base))
    } else {
        image
    };
    bytes::overwritten(room, l.paddr - base, l.data)
}

/// The image of the first `n` segments.
pub open spec fn merged(list: Seq<Load>, base: int, n: int) -> Seq<u8>
    decreases n,
{
    if n <= 0 {
        Seq::empty()
    } else {
        with_segment(merged(list, base, n - 1), list[n - 1], base)
    }
}

/// Why segment `i` does not fit into a buffer of this machine.
pub open spec fn reach_checks(list: Seq<Load>) -> spec_fn(int) -> Option<error::Refusal> {
    |i: int|
        if reach(list[i], list[0].paddr as int) > usize::MAX {
            Some(bad_data("PT_LOAD overflow"@))
        } else {
            None
        }
}

/// Whether a segment holds code.
pub open spec fn holds_code(l: Load) -> bool {
    l.flags % 2 == 1 && l.data.len() != 0
}

/// The first segment from `i` on that holds code, or else the first of all.
pub open spec fn code_segment(list: Seq<Load>, i: int) -> Load
    decreases list.len() - i,
{
    if i >= list.len() {
        list[0]
    } else if holds_code(list[i]) {
        list[i]
    } else {
        code_segment(list, i + 1)
    }
}

/// The image that is packed, after relocation where it is asked for.
pub open spec fn packed_elf(elf: Seq<u8>, relocate: bool) -> Seq<u8> {
    if relocate {
        xip::xipified(elf)
    } else {
        elf
    }
}

/// Why an image cannot be packed.
pub open spec fn pack_refusal(elf: Seq<u8>) -> Option<error::Refusal> {
    let all = segments(elf, segment_count(elf));
    let list = placed(all);
    if segments_refusal(elf) is Some {
        segments_refusal(elf)
    } else if all.len() == 0 {
        Some(bad_data("no PT_LOAD segments"@))
    } else if list.len() == 0 {
        Some(bad_data("no L1 PT_LOAD segments"@))
    } else {
        error::first_refusal(0, list.len() as int, reach_checks(list))
    }
}

proof fn lemma_inserted(list: Seq<Load>, l: Load)
    requires
        forall|i: int, j: int| 0 <= i <= j < list.len() ==> list[i].paddr <= list[j].paddr,
    ensures
        inserted(list, l).len() == list.len() + 1,
        forall|i: int, j: int|
            0 <= i <= j < inserted(list, l).len() ==> inserted(list, l)[i].paddr <= inserted(
                list,
                l,
            )[j].paddr,
        forall|i: int| 0 <= i < inserted(list, l).len() ==> inserted(list, l)[i].paddr <= l.paddr
            || inserted(list, l)[i].paddr <= list.last().paddr,
    decreases list.len(),
{
    if list.len() == 0 || list.last().paddr <= l.paddr {
    } else {
        let rest = list.drop_last();
        lemma_inserted(rest, l);
        let r = inserted(rest, l).push(list.last());
        assert(inserted(list, l) == r);
        assert forall|i: int, j: int| 0 <= i <= j < r.len() implies r[i].paddr <= r[j].paddr by {
            if j == r.len() - 1 && i < j {
                assert(r[i] == inserted(rest, l)[i]);
                if rest.len() > 0 {
                    assert(list[rest.len() - 1].paddr <= list[rest.len() as int].paddr);
                }
            }
        }
    }
}

/// The placed segments are in ascending order.
pub proof fn lemma_placed_sorted(list: Seq<Load>)
    ensures
        forall|i: int, j: int|
            0 <= i <= j < placed(list).len() ==> placed(list)[i].paddr <= placed(list)[j].paddr,
    decreases list.len(),
{
    if list.len() > 0 {
        lemma_placed_sorted(list.drop_last());
        if in_memory(list.last()) {
            lemma_inserted(placed(list.drop_last()), list.last());
        }
    }
}

/// Every byte of a segment stands at its place in the merged image, unless a later
/// segment covers it.
pub proof fn lemma_merged_segment(list: Seq<Load>, base: int, n: int, i: int, p: int)
    requires
        0 <= i < n <= list.len(),
        0 <= p < list[i].data.len(),
        forall|k: int| 0 <= k < n ==> base <= (#[trigger] list[k]).paddr,
        forall|k: int|
            i < k < n ==> !((#[trigger] list[k]).paddr <= list[i].paddr + p < list[k].paddr
                + list[k].data.len()),
    ensures
        list[i].paddr - base + p < merged(list, base, n).len(),
        merged(list, base, n)[list[i].paddr - base + p] == list[i].data[p],
    decreases n,
{
    if i < n - 1 {
        lemma_merged_segment(list, base, n - 1, i, p);
        assert(base <= list[n - 1].paddr);
    } else {
        assert(base <= list[i].paddr);
    }
}

fn insert_segment(list: &mut Vec<PTLoad>, segment: PTLoad)
    ensures
        loads_view(final(list)@) == inserted(loads_view(old(list)@), segment@),
{
    let ghost all = loads_view(list@);
    let mut at: usize = list.len();
    proof {
        assert(all.take(at as int) =~= all);
    }
    let ghost mut behind: Seq<Load> = Seq::empty();
    assert(inserted(all, segment@) =~= inserted(all.take(at as int), segment@) + behind);
    while at > 0 && list[at - 1].paddr > segment.paddr
        invariant
            at <= list@.len(),
            all == loads_view(list@),
            list@ == old(list)@,
            behind == all.skip(at as int),
            inserted(all, segment@) == inserted(all.take(at as int), segment@) + behind,
        decreases at,
    {
        proof {
            let front = all.take(at as int);
            assert(front.last() == all[at - 1]);
            assert(front.drop_last() =~= all.take(at - 1));
            let rest = inserted(all.take(at - 1), segment@);
            assert(rest.push(all[at - 1]) + behind =~= rest + all.skip(at - 1));
            behind = all.skip(at - 1);
        }
        at = at - 1;
    }
    proof {
        let front = all.take(at as int);
        assert(inserted(front, segment@) == front.push(segment@));
    }
    list.insert(at, segment);
    assert(loads_view(list@) =~= inserted(all, segment@));
}

/// Merges the segments of an image into one image for a core's memory; gives it
/// with the number of bytes of code.
pub fn pack_xip_elf(elf: &[u8], xip_relocate: bool) -> (r: Result<(Vec<u8>, usize), Error>)
    ensures
        ({
            let image = packed_elf(elf@, xip_relocate);
            let list = placed(segments(image, segment_count(image)));
            match r {
                Ok((out, code)) => {
                    &&& pack_refusal(image) is None
                    &&& out@ == merged(list, list[0].paddr as int, list.len() as int)
                    &&& code == code_segment(list, 0).data.len()
                },
                Err(e) => pack_refusal(image) == Some(e@),
            }
        }),
{
    let image: Vec<u8> = if xip_relocate {
        xip::xipify_riscv32_elf(elf)
    } else {
        bytes::copy(elf)
    };
    let all = iter_pt_load(image.as_slice())?;
    let n: usize = all.len();
    let ghost views = loads_view(all@);
    if n == 0 {
        return Err(invalid_data("no PT_LOAD segments"));
    }
    let mut list: Vec<PTLoad> = Vec::new();
    assert(loads_view(list@) =~= placed(views.take(0)));
    for i in 0..n
        invariant
            n == all@.len(),
            views == loads_view(all@),
            loads_view(list@) == placed(views.take(i as int)),
    {
        let s = &all[i];
        assert(views.take(i + 1).drop_last() =~= views.take(i as int));
        assert(views[i as int] == s@);
        if (s.memsz != 0 || s.data.len() != 0) && s.paddr < TensixL1::SIZE {
            insert_segment(
                &mut list,
                PTLoad {
                    paddr: s.paddr,
                    data: bytes::copy(s.data.as_slice()),
                    memsz: s.memsz,
                    flags: s.flags,
                },
            );
        }
    }
    assert(views.take(n as int) =~= views);
    let m: usize = list.len();
    if m == 0 {
        return Err(invalid_data("no L1 PT_LOAD segments"));
    }
    let ghost sorted = loads_view(list@);
    proof {
        lemma_placed_sorted(views);
        assert(sorted[0] == list@[0]@);
    }
    let base: u32 = list[0].paddr;
    let mut out: Vec<u8> = Vec::new();
    for i in 0..m
        invariant
            m == list@.len(),
            sorted == loads_view(list@),
            m > 0,
            base == sorted[0].paddr,
            forall|a: int, b: int|
                0 <= a <= b < sorted.len() ==> sorted[a].paddr <= sorted[b].paddr,
            out@ == merged(sorted, base as int, i as int),
            forall|j: int| 0 <= j < i ==> #[trigger] reach_checks(sorted)(j) is None,
            image@ == packed_elf(elf@, xip_relocate),
            pack_refusal(image@) == error::first_refusal(0, m as int, reach_checks(sorted)),
    {
        proof {
            error::lemma_first_refusal_skip(0, i as int, m as int, reach_checks(sorted));
        }
        let s = &list[i];
        assert(sorted[i as int] == s@);
        assert(sorted[0].paddr <= sorted[i as int].paddr);
        let start: usize = (s.paddr - base) as usize;
        let size: usize = arith::max_usize(s.memsz as usize, s.data.len());
        let end: usize = match start.checked_add(size) {
            Some(end) => end,
            None => {
                return Err(invalid_data("PT_LOAD overflow"));
            },
        };
        if out.len() < end {
            bytes::resize(&mut out, end);
        }
        bytes::overwrite(&mut out, start, s.data.as_slice());
        assert(reach_checks(sorted)(i as int) is None);
    }
    proof {
        error::lemma_first_refusal_none(0, m as int, reach_checks(sorted));
    }
    let mut code: usize = 0;
    while code < m && !(list[code].flags % 2 == 1 && list[code].data.len() != 0)
        invariant
            code <= m,
            m == list@.len(),
            sorted == loads_view(list@),
            code_segment(sorted, 0) == code_segment(sorted, code as int),
        decreases m - code,
    {
        assert(sorted[code as int] == list@[code as int]@);
        code = code + 1;
    }
    if code < m {
        assert(sorted[code as int] == list@[code as int]@);
        Ok((out, list[code].data.len()))
    } else {
        assert(sorted[0] == list@[0]@);
        Ok((out, list[0].data.len()))
    }
}

} // verus!
