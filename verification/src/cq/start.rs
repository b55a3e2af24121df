//! What is put into the memory of the cores that serve the command queue.

use vstd::prelude::*;
use crate::arith;
use crate::bytes;
use crate::compiler::CompiledKernel;
use crate::cq;
use crate::cq::queue;
use crate::cq::ring::{HOST_CQ_RD_OFF, HOST_ISSUE_BASE};
use crate::hw::{CoreCoord, TensixL1};

verus! {

/// Where the first kernel stands behind the arguments.
pub const KERNEL_OFF: u32 = 48;

/// A kernel of the command queue: what it is called, where its source is, and
/// which processor runs it.
#[derive(Clone, Copy, Debug)]
pub struct CqKernel {
    pub name: &'static str,
    pub file: &'static str,
    pub processor: &'static str,
    pub noc_index: u8,
}

/// What a contract says of such a kernel.
pub type Kernel = (Seq<char>, Seq<char>, Seq<char>, u8);

pub open spec fn kernels_view(list: Seq<CqKernel>) -> Seq<Kernel> {
    list.map_values(|k: CqKernel| (k.name@, k.file@, k.processor@, k.noc_index))
}

/// The kernels of the command queue.
pub open spec fn cq_kernel_list() -> Seq<Kernel> {
    seq![
        ("prefetch_brisc"@, "cq_prefetch.cpp"@, "brisc"@, 0u8),
        ("dispatch_brisc"@, "cq_dispatch.cpp"@, "brisc"@, 1u8),
        ("dispatch_s_ncrisc"@, "cq_dispatch_subordinate.cpp"@, "ncrisc"@, 1u8),
    ]
}

pub fn cq_kernels() -> (r: Vec<CqKernel>)
    ensures
        kernels_view(r@) == cq_kernel_list(),
{
    let mut r: Vec<CqKernel> = Vec::new();
    r.push(
        CqKernel {
            name: "prefetch_brisc",
            file: "cq_prefetch.cpp",
            processor: "brisc",
            noc_index: 0,
        },
    );
    r.push(
        CqKernel {
            name: "dispatch_brisc",
            file: "cq_dispatch.cpp",
            processor: "brisc",
            noc_index: 1,
        },
    );
    r.push(
        CqKernel {
            name: "dispatch_s_ncrisc",
            file: "cq_dispatch_subordinate.cpp",
            processor: "ncrisc",
            noc_index: 1,
        },
    );
    assert(kernels_view(r@) =~= cq_kernel_list());
    r
}

/// The arguments of the core that reads commands: how many pages it may fill.
pub open spec fn prefetch_image(pages: u32) -> Seq<u8> {
    bytes::resized(bytes::zeros(16) + bytes::le4(pages as int), 48)
}

pub fn build_prefetch_image(pages: u32) -> (r: Vec<u8>)
    ensures
        r@ == prefetch_image(pages),
{
    let mut image: Vec<u8> = Vec::new();
    bytes::resize(&mut image, 16);
    assert(image@ =~= bytes::zeros(16));
    bytes::push_u32(&mut image, pages);
    bytes::resize(&mut image, 48);
    image
}

/// Where the second kernel stands behind the first, in 32 bits.
pub open spec fn second_offset(first_len: int) -> int {
    arith::round_up(KERNEL_OFF + first_len, 16) % 0x1_0000_0000
}

pub fn ncrisc_offset(first: &CompiledKernel) -> (r: u32)
    ensures
        r == second_offset(first.xip@.len() as int),
{
    let low: u64 = first.xip.len() as u64 % 0x1_0000_0000;
    let end: u64 = (KERNEL_OFF as u64 + low + 15) / 16 * 16;
    proof {
        let len = first.xip@.len() as int;
        arith::lemma_round_up(KERNEL_OFF + len, 16);
        arith::lemma_round_up(KERNEL_OFF + low as int, 16);
        assert(len == len / 0x1_0000_0000 * 0x1_0000_0000 + low);
        assert(arith::round_up(KERNEL_OFF + len, 16) == len / 0x1_0000_0000 * 0x1_0000_0000
            + arith::round_up(KERNEL_OFF + low as int, 16));
        assert(end == arith::round_up(KERNEL_OFF + low as int, 16));
    }
    (end % 0x1_0000_0000) as u32
}

/// Bytes and where they go in a core's memory.
#[derive(Debug)]
pub struct CoreWrite {
    pub addr: u64,
    pub data: Vec<u8>,
}

pub open spec fn writes_view(list: Seq<CoreWrite>) -> Seq<(u64, Seq<u8>)> {
    list.map_values(|w: CoreWrite| (w.addr, w.data@))
}

fn push_write(out: &mut Vec<CoreWrite>, addr: u64, data: &[u8])
    ensures
        writes_view(final(out)@) == writes_view(old(out)@).push((addr, data@)),
{
    let ghost before = writes_view(out@);
    out.push(CoreWrite { addr, data: bytes::copy(data) });
    assert(writes_view(out@) =~= before.push((addr, data@)));
}

/// The bytes of the word that starts a core that reports to nobody.
pub open spec fn start_word() -> Seq<u8> {
    bytes::le4(queue::go_word_of(CoreCoord { x: 0, y: 0 }))
}

/// What starts a core: its arguments, its kernels, the message that describes
/// them, and the word that has it go.
pub open spec fn core_writes(
    image: Seq<u8>,
    launch: Seq<u8>,
    first: Seq<u8>,
    second: Option<Seq<u8>>,
) -> Seq<(u64, Seq<u8>)> {
    let base = TensixL1::KERNEL_CONFIG_BASE as int;
    let kernels = match second {
        None => seq![(0x86B0u64, image), ((base + KERNEL_OFF) as u64, first)],
        Some(k) => seq![
            (0x86B0u64, image),
            ((base + KERNEL_OFF) as u64, first),
            ((base + second_offset(first.len() as int)) as u64, k),
        ],
    };
    kernels + seq![(0x70u64, launch), (0x370u64, start_word())]
}

fn go_bytes() -> (r: Vec<u8>)
    ensures
        r@ == start_word(),
{
    let mut r: Vec<u8> = Vec::new();
    bytes::push_u32(&mut r, queue::go_word(CoreCoord { x: 0, y: 0 }));
    assert(r@ =~= start_word());
    r
}

/// Lists what is written to start a core of the command queue.
pub fn upload_cq_core(
    image: &[u8],
    launch: &[u8],
    first: &CompiledKernel,
    second: Option<&CompiledKernel>,
) -> (r: Vec<CoreWrite>)
    ensures
        writes_view(r@) == core_writes(
            image@,
            launch@,
            first.xip@,
            match second {
                Some(k) => Some(k.xip@),
                None => None,
            },
        ),
{
    let mut out: Vec<CoreWrite> = Vec::new();
    let base: u64 = TensixL1::KERNEL_CONFIG_BASE as u64;
    push_write(&mut out, base, image);
    push_write(&mut out, base + KERNEL_OFF as u64, first.xip.as_slice());
    if let Some(k) = second {
        let offset: u32 = ncrisc_offset(first);
        push_write(&mut out, base + offset as u64, k.xip.as_slice());
    }
    push_write(&mut out, TensixL1::LAUNCH as u64, launch);
    let go = go_bytes();
    push_write(&mut out, TensixL1::GO_MSG as u64, go.as_slice());
    assert(writes_view(out@) =~= core_writes(
        image@,
        launch@,
        first.xip@,
        match second {
            Some(k) => Some(k.xip@),
            None => None,
        },
    ));
    out
}

/// Where the firmware of the command queue keeps its state.
#[derive(Clone, Copy, Debug)]
pub struct QueueLayout {
    pub prefetch_q_rd_ptr: u32,
    pub prefetch_q_pcie_rd: u32,
    pub prefetch_q_base: u32,
    pub prefetch_q_size: u32,
    pub completion_wr_ptr: u32,
    pub completion_rd_ptr: u32,
    pub completion_q0_event: u32,
    pub completion_q1_event: u32,
    pub dispatch_sync_sem: u32,
    pub host_cq_wr_off: usize,
}

impl QueueLayout {
    /// Whether the queue of announcements ends at an address of 32 bits.
    pub open spec fn wf(&self) -> bool {
        self.prefetch_q_base + self.prefetch_q_size <= u32::MAX
    }
}

/// What the core that reads commands finds at its start: an empty queue of
/// announcements, and where the records stand in host memory.
pub open spec fn prefetch_state(l: QueueLayout, noc_local: u64) -> Seq<(u64, Seq<u8>)> {
    seq![
        (l.prefetch_q_rd_ptr as u64, bytes::le4(l.prefetch_q_base + l.prefetch_q_size)),
        (l.prefetch_q_pcie_rd as u64, bytes::le4(noc_local + HOST_ISSUE_BASE)),
        (l.prefetch_q_base as u64, bytes::zeros(l.prefetch_q_size as int)),
    ]
}

/// What the core that carries commands out finds at its start: nothing completed.
pub open spec fn dispatch_state(l: QueueLayout, base_16b: u32) -> Seq<(u64, Seq<u8>)> {
    seq![
        (l.completion_wr_ptr as u64, bytes::le4(base_16b as int)),
        (l.completion_rd_ptr as u64, bytes::le4(base_16b as int)),
        (l.completion_q0_event as u64, bytes::le4(0)),
        (l.completion_q1_event as u64, bytes::le4(0)),
        (l.dispatch_sync_sem as u64, bytes::zeros(128)),
    ]
}

/// What stands in host memory at the start.
pub open spec fn host_state(l: QueueLayout, base_16b: u32) -> Seq<(usize, u32)> {
    seq![(l.host_cq_wr_off, base_16b), (HOST_CQ_RD_OFF, base_16b)]
}

fn push_word(out: &mut Vec<CoreWrite>, addr: u32, value: u32)
    ensures
        writes_view(final(out)@) == writes_view(old(out)@).push(
            (addr as u64, bytes::le4(value as int)),
        ),
{
    let mut data: Vec<u8> = Vec::new();
    bytes::push_u32(&mut data, value);
    assert(data@ =~= bytes::le4(value as int));
    push_write(out, addr as u64, data.as_slice());
}

fn push_zeros(out: &mut Vec<CoreWrite>, addr: u32, n: usize)
    ensures
        writes_view(final(out)@) == writes_view(old(out)@).push(
            (addr as u64, bytes::zeros(n as int)),
        ),
{
    let mut data: Vec<u8> = Vec::new();
    bytes::resize(&mut data, n);
    assert(data@ =~= bytes::zeros(n as int));
    push_write(out, addr as u64, data.as_slice());
}

/// Lists what is written to the core that reads commands before it starts.
pub fn prefetch_setup(l: &QueueLayout, noc_local: u64) -> (r: Vec<CoreWrite>)
    requires
        l.wf(),
        noc_local <= u32::MAX,
    ensures
        writes_view(r@) == prefetch_state(*l, noc_local),
{
    let mut out: Vec<CoreWrite> = Vec::new();
    proof {
        bytes::lemma_le4_wraps(noc_local + HOST_ISSUE_BASE);
    }
    let issue: u64 = (noc_local + HOST_ISSUE_BASE as u64) % 0x1_0000_0000;
    push_word(&mut out, l.prefetch_q_rd_ptr, l.prefetch_q_base + l.prefetch_q_size);
    push_word(&mut out, l.prefetch_q_pcie_rd, issue as u32);
    push_zeros(&mut out, l.prefetch_q_base, l.prefetch_q_size as usize);
    assert(writes_view(out@) =~= prefetch_state(*l, noc_local));
    out
}

/// Lists what is written to the core that carries commands out before it starts.
pub fn dispatch_setup(l: &QueueLayout, base_16b: u32) -> (r: Vec<CoreWrite>)
    ensures
        writes_view(r@) == dispatch_state(*l, base_16b),
{
    let mut out: Vec<CoreWrite> = Vec::new();
    push_word(&mut out, l.completion_wr_ptr, base_16b);
    push_word(&mut out, l.completion_rd_ptr, base_16b);
    push_word(&mut out, l.completion_q0_event, 0);
    push_word(&mut out, l.completion_q1_event, 0);
    push_zeros(&mut out, l.dispatch_sync_sem, 128);
    assert(writes_view(out@) =~= dispatch_state(*l, base_16b));
    out
}

/// Lists the words that are written to host memory at the start.
pub fn host_setup(l: &QueueLayout, base_16b: u32) -> (r: Vec<(usize, u32)>)
    ensures
        r@ == host_state(*l, base_16b),
{
    let mut out: Vec<(usize, u32)> = Vec::new();
    out.push((l.host_cq_wr_off, base_16b));
    out.push((HOST_CQ_RD_OFF, base_16b));
    assert(out@ =~= host_state(*l, base_16b));
    out
}

} // verus!
