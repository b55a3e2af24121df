//! The host side of the command queue: where records are put, and where the
//! device reports what it completed.

use vstd::prelude::*;
use crate::arith;
use crate::cq;
use crate::error;
use crate::error::{Error, ErrorKind};
use crate::text;

verus! {

pub const PAGE_SIZE: usize = 4096;

pub const HOST_ISSUE_BASE: usize = 256;

pub const HOST_ISSUE_SIZE: usize = 0x400_0000;

pub const HOST_COMPLETION_BASE: usize = 0x400_0100;

pub const HOST_TIMESTAMP_SIZE: usize = 0x1_0000;

pub const HOST_CQ_RD_OFF: usize = 192;

pub const PCIE_BASE_GUARD_SIZE: usize = 0x4000_0000;

/// Addresses of host memory have this bit set.
pub const PCIE_NOC_BASE: u64 = 0x1000_0000_0000_0000;

/// The bytes of host memory that the queue takes: the records, the completions and
/// the time stamps, in whole pages.
pub open spec fn memory_size(completion_size: int) -> int {
    arith::round_up(HOST_COMPLETION_BASE + completion_size + HOST_TIMESTAMP_SIZE, 4096)
}

pub fn sysmem_size(completion_size: u32) -> (r: u64)
    ensures
        r == memory_size(completion_size as int),
{
    let total: u64 = HOST_COMPLETION_BASE as u64 + completion_size as u64
        + HOST_TIMESTAMP_SIZE as u64;
    proof {
        arith::lemma_round_up(total as int, 4096);
    }
    crate::hw::align_up(total, 4096)
}

/// Why host memory at an address cannot hold the queue.
pub open spec fn memory_refusal(noc_addr: int) -> Option<error::Refusal> {
    let local = noc_addr - PCIE_NOC_BASE;
    if noc_addr / PCIE_NOC_BASE as int % 2 != 1 {
        Some(cq::other("bad CQ sysmem NOC address: 0x"@ + text::hex(noc_addr)))
    } else if local == 0 {
        Some(cq::other("CQ sysmem unexpectedly allocated at base PCIe NOC offset"@))
    } else if local > u32::MAX {
        Some(cq::other("CQ sysmem NOC offset too large: 0x"@ + text::hex(local)))
    } else {
        None
    }
}

/// The offset of host memory in the address range of the host.
pub fn sysmem_offset(noc_addr: u64) -> (r: Result<u64, Error>)
    ensures
        match r {
            Ok(local) => memory_refusal(noc_addr as int) is None && local == noc_addr
                - PCIE_NOC_BASE && 0 < local <= u32::MAX,
            Err(e) => memory_refusal(noc_addr as int) == Some(e@),
        },
{
    if noc_addr / PCIE_NOC_BASE % 2 != 1 {
        return Err(
            cq::other_error(
                text::cat2(
                    "bad CQ sysmem NOC address: 0x",
                    text::hexadecimal(noc_addr).as_str(),
                ),
            ),
        );
    }
    let local: u64 = noc_addr - PCIE_NOC_BASE;
    if local == 0 {
        return Err(
            cq::other_error(
                "CQ sysmem unexpectedly allocated at base PCIe NOC offset".to_owned(),
            ),
        );
    }
    if local > 0xffff_ffff {
        return Err(
            cq::other_error(
                text::cat2("CQ sysmem NOC offset too large: 0x", text::hexadecimal(local).as_str()),
            ),
        );
    }
    Ok(local)
}

/// Where the next record goes, and which slot announces it.
#[derive(Debug)]
pub struct IssueRing {
    pub issue_wr: usize,
    pub slot: usize,
    pub slots: usize,
}

/// Where a record of `len` bytes goes when the last one ended at `wr`: behind it,
/// or at the start where there is no room left.
pub open spec fn issue_start(wr: int, len: int) -> int {
    let next = arith::round_up(wr, 64);
    if next + len > HOST_ISSUE_SIZE {
        0
    } else {
        next
    }
}

/// A record is placed behind the one before it, unless it finds no room there; then it
/// starts over.
pub proof fn lemma_records_apart(start: int, len: int, next_len: int)
    requires
        0 <= start,
        0 <= len,
        0 <= next_len,
        start + len <= HOST_ISSUE_SIZE,
    ensures
        ({
            let next = issue_start(start + len, next_len);
            &&& next % 64 == 0
            &&& next == 0 || next >= start + len
            &&& next + next_len <= HOST_ISSUE_SIZE || next_len > HOST_ISSUE_SIZE
            &&& next == 0 <==> start + len == 0 || arith::round_up(start + len, 64) + next_len
                > HOST_ISSUE_SIZE
        }),
{
    arith::lemma_round_up(start + len, 64);
}

impl IssueRing {
    pub open spec fn wf(&self) -> bool {
        self.issue_wr <= HOST_ISSUE_SIZE && self.slot < self.slots
    }

    pub fn new(slots: usize) -> (r: IssueRing)
        requires
            slots > 0,
        ensures
            r.wf(),
            r.issue_wr == 0,
            r.slot == 0,
            r.slots == slots,
    {
        IssueRing { issue_wr: 0, slot: 0, slots }
    }

    /// Takes room for a record; gives its place in host memory. Records never leave
    /// the part of memory that is theirs.
    pub fn place(&mut self, len: usize) -> (r: usize)
        requires
            old(self).wf(),
            len <= HOST_ISSUE_SIZE,
        ensures
            final(self).wf(),
            r == HOST_ISSUE_BASE + issue_start(old(self).issue_wr as int, len as int),
            r % 64 == 0,
            HOST_ISSUE_BASE <= r,
            r + len <= HOST_ISSUE_BASE + HOST_ISSUE_SIZE,
            final(self).issue_wr == r - HOST_ISSUE_BASE + len,
            final(self).slot == old(self).slot,
            final(self).slots == old(self).slots,
    {
        proof {
            arith::lemma_round_up(self.issue_wr as int, 64);
        }
        let next: usize = (self.issue_wr + 63) / 64 * 64;
        assert(next == arith::round_up(self.issue_wr as int, 64));
        let start: usize = if next + len > HOST_ISSUE_SIZE {
            0
        } else {
            next
        };
        self.issue_wr = start + len;
        HOST_ISSUE_BASE + start
    }

    /// Where the current slot stands.
    pub fn slot_offset(&self, queue_base: usize) -> (r: usize)
        requires
            self.wf(),
            queue_base + self.slot * 2 <= usize::MAX,
        ensures
            r == queue_base + self.slot * 2,
    {
        queue_base + self.slot * 2
    }

    /// Announces a record: gives what goes into the current slot, and moves on to
    /// the next one.
    pub fn announce(&mut self, len: usize) -> (r: Result<u16, Error>)
        requires
            old(self).wf(),
        ensures
            final(self).wf(),
            final(self).issue_wr == old(self).issue_wr,
            final(self).slots == old(self).slots,
            match r {
                Ok(size) => size == len / 16 && final(self).slot == (old(self).slot + 1) as int
                    % old(self).slots as int,
                Err(e) => len / 16 > u16::MAX && final(self).slot == old(self).slot && e@
                    == cq::other("CQ record too large for prefetch slot"@),
            },
    {
        let size: usize = len / 16;
        if size > 0xffff {
            return Err(cq::other_error("CQ record too large for prefetch slot".to_owned()));
        }
        self.slot = (self.slot + 1) % self.slots;
        Ok(size as u16)
    }
}

/// Where the device reports completions. Addresses are in units of sixteen bytes;
/// a flag changes each time the reports start over.
#[derive(Debug)]
pub struct CompletionRing {
    pub noc_local: u64,
    pub base_16b: u32,
    pub page_16b: u32,
    pub end_16b: u32,
    pub rd_16b: u32,
    pub rd_toggle: u32,
}

impl CompletionRing {
    /// The number of pages.
    pub open spec fn pages(&self) -> int {
        (self.end_16b - self.base_16b) / self.page_16b as int
    }

    pub open spec fn wf(&self) -> bool {
        &&& self.page_16b == 256
        &&& self.base_16b < 0x8000_0000
        &&& self.end_16b == self.base_16b + self.pages() * 256
        &&& self.pages() >= 1
        &&& exists|k: int| 0 <= k < self.pages() && self.rd_16b == #[trigger] self.page(k)
        &&& self.rd_toggle <= 1
    }

    /// Where page `k` stands.
    pub open spec fn page(&self, k: int) -> int {
        self.base_16b + k * 256
    }

    /// Whether `k` completions were read.
    pub open spec fn has_read(&self, k: int) -> bool {
        &&& k >= 0
        &&& self.rd_16b == self.page(k % self.pages())
        &&& self.rd_toggle == (k / self.pages()) % 2
    }

    /// The word by which both sides know the position.
    pub open spec fn position(&self) -> int {
        self.rd_16b % 0x8000_0000 + self.rd_toggle * 0x8000_0000
    }

    pub fn new(noc_local: u64, completion_size: u32) -> (r: CompletionRing)
        requires
            noc_local <= u32::MAX,
            completion_size % 4096 == 0,
            completion_size > 0,
        ensures
            r.wf(),
            r.has_read(0),
            r.noc_local == noc_local,
            r.base_16b == (noc_local + HOST_COMPLETION_BASE) / 16,
            r.pages() == completion_size / 4096,
    {
        let base: u32 = ((noc_local + HOST_COMPLETION_BASE as u64) / 16) as u32;
        let r = CompletionRing {
            noc_local,
            base_16b: base,
            page_16b: 256,
            end_16b: base + completion_size / 16,
            rd_16b: base,
            rd_toggle: 0,
        };
        proof {
            let q = completion_size as int / 4096;
            assert(completion_size / 16 == q * 256);
            assert((q * 256) / 256 == q);
            assert(r.pages() == q);
            assert(r.rd_16b == r.page(0));
            assert(0int % q == 0 && 0int / q == 0) by (nonlinear_arith)
                requires
                    q >= 1,
            ;
        }
        r
    }

    /// Whether the device reported something new: its position differs from ours.
    pub fn has_news(&self, wr_raw: u32) -> (r: bool)
        ensures
            r == (wr_raw % 0x8000_0000 != self.rd_16b || wr_raw / 0x8000_0000 != self.rd_toggle),
    {
        wr_raw % 0x8000_0000 != self.rd_16b || wr_raw / 0x8000_0000 != self.rd_toggle
    }

    /// Where the number of the reported event stands in host memory.
    pub fn event_offset(&self) -> (r: Result<u64, Error>)
        ensures
            match r {
                Ok(off) => self.rd_16b * 16 >= self.noc_local && off == self.rd_16b * 16
                    - self.noc_local + 16,
                Err(e) => self.rd_16b * 16 < self.noc_local && e@ == cq::other(
                    "CQ completion pointer underflow"@,
                ),
            },
    {
        match (self.rd_16b as u64 * 16).checked_sub(self.noc_local) {
            Some(off) => Ok(off + 16),
            None => Err(cq::other_error("CQ completion pointer underflow".to_owned())),
        }
    }

    /// Moves on to the next report; gives the word that says so. The flag changes
    /// whenever the pages start over.
    pub fn advance(&mut self) -> (raw: u32)
        requires
            old(self).wf(),
        ensures
            final(self).wf(),
            final(self).noc_local == old(self).noc_local,
            final(self).base_16b == old(self).base_16b,
            final(self).end_16b == old(self).end_16b,
            final(self).page_16b == old(self).page_16b,
            raw == final(self).position(),
            forall|k: int| #[trigger] old(self).has_read(k) ==> final(self).has_read(k + 1),
    {
        let ghost n = self.pages();
        let ghost at = choose|k: int| 0 <= k < self.pages() && self.rd_16b == #[trigger] self.page(
            k,
        );
        let ghost before = *self;
        self.rd_16b = self.rd_16b + self.page_16b;
        if self.rd_16b >= self.end_16b {
            self.rd_16b = self.base_16b;
            self.rd_toggle = 1 - self.rd_toggle;
        }
        proof {
            if at + 1 < n {
                assert(self.rd_16b == self.page(at + 1));
            } else {
                assert(self.rd_16b == self.page(0));
            }
            assert(self.pages() == n);
            assert forall|k: int| #[trigger] before.has_read(k) implies self.has_read(k + 1) by {
                vstd::arithmetic::div_mod::lemma_fundamental_div_mod(k, n);
                let q = k / n;
                let r = k % n;
                assert(0 <= r < n);
                assert(before.page(r) == before.rd_16b);
                assert(r == at);
                if r + 1 < n {
                    crate::dram::layout::lemma_div_mod(q, n, r + 1);
                    assert(k + 1 == q * n + (r + 1)) by (nonlinear_arith)
                        requires
                            k == n * q + r,
                    ;
                } else {
                    crate::dram::layout::lemma_div_mod(q + 1, n, 0);
                    assert(k + 1 == (q + 1) * n) by (nonlinear_arith)
                        requires
                            k == n * q + r,
                            r + 1 == n,
                    ;
                    assert((q + 1) % 2 == 1 - q % 2);
                }
            }
        }
        self.rd_16b % 0x8000_0000 + self.rd_toggle * 0x8000_0000
    }
}

/// Why a reported event is refused: it is not the one that was waited for.
pub open spec fn event_refusal(got: u32, expected: u32) -> Option<error::Refusal> {
    if got != expected {
        Some(
            cq::other(
                "CQ completion event mismatch: got "@ + text::dec(got as int) + ", expected "@
                    + text::dec(expected as int),
            ),
        )
    } else {
        None
    }
}

pub fn check_event(got: u32, expected: u32) -> (r: Result<(), Error>)
    ensures
        match r {
            Ok(_) => event_refusal(got, expected) is None,
            Err(e) => event_refusal(got, expected) == Some(e@),
        },
{
    if got != expected {
        return Err(
            cq::other_error(
                text::cat4(
                    "CQ completion event mismatch: got ",
                    text::decimal_u32(got).as_str(),
                    ", expected ",
                    text::decimal_u32(expected).as_str(),
                ),
            ),
        );
    }
    Ok(())
}

/// The failure of waiting for an event too long.
pub fn completion_timeout(event_id: u32) -> (e: Error)
    ensures
        e@ == (
            ErrorKind::TimedOut,
            "timeout waiting for CQ completion event "@ + text::dec(event_id as int),
        ),
{
    Error::new(
        ErrorKind::TimedOut,
        text::cat2(
            "timeout waiting for CQ completion event ",
            text::decimal_u32(event_id).as_str(),
        ),
    )
}

/// The failure of waiting for a slot too long.
pub fn slot_timeout() -> (e: Error)
    ensures
        e@ == (ErrorKind::TimedOut, "timeout waiting for CQ prefetch queue slot"@),
{
    Error::new(ErrorKind::TimedOut, "timeout waiting for CQ prefetch queue slot".to_owned())
}

} // verus!
