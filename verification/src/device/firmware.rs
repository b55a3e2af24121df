//! What is written to the cores to start their firmware.

use vstd::prelude::*;
use crate::bytes;
use crate::compiler::elf::Load;
use crate::compiler::firmware;
use crate::compiler::firmware::{Entry, FirmwareSet};
use crate::compiler::{CompiledFirmware, Firmware};
use crate::cores;
use crate::device::banks;
use crate::dispatch::DevMsgs;
use crate::dispatch::mcast;
use crate::dispatch::window;
use crate::dispatch::window::{Act, Placed, Span, WindowStep};
use crate::error;
use crate::error::{Error, ErrorKind};
use crate::hw::{Arc, CoreCoord, TensixL1, TensixMMIO};
use crate::text;

verus! {

/// The processors in the order in which their firmware is written.
pub open spec fn processor(i: int) -> Seq<char> {
    if i == 0 {
        "brisc"@
    } else if i == 1 {
        "ncrisc"@
    } else if i == 2 {
        "trisc0"@
    } else if i == 3 {
        "trisc1"@
    } else {
        "trisc2"@
    }
}

fn processor_name(i: usize) -> (r: &'static str)
    ensures
        r@ == processor(i as int),
{
    match i {
        0 => "brisc",
        1 => "ncrisc",
        2 => "trisc0",
        3 => "trisc1",
        _ => "trisc2",
    }
}

/// Where a segment goes: what belongs to local memory goes to the scratch area.
pub open spec fn segment_addr(scratch_base: u32, paddr: u32) -> int {
    if TensixMMIO::LOCAL_RAM_START <= paddr <= TensixMMIO::LOCAL_RAM_END {
        scratch_base + (paddr - TensixMMIO::LOCAL_RAM_START)
    } else {
        paddr as int
    }
}

/// The bytes of a segment, with zeros up to its size in memory.
pub open spec fn segment_bytes(s: Load) -> Seq<u8> {
    if s.memsz > s.data.len() {
        bytes::resized(s.data, s.memsz as int)
    } else {
        s.data
    }
}

/// Whether a segment takes no memory.
pub open spec fn segment_empty(s: Load) -> bool {
    s.data.len() == 0 && s.memsz == 0
}

/// Why a segment is refused: it lies outside of the core's memory.
pub open spec fn segment_refusal(name: Seq<char>, scratch_base: u32, s: Load) -> Option<
    error::Refusal,
> {
    let addr = segment_addr(scratch_base, s.paddr);
    if !segment_empty(s) && addr >= TensixL1::SIZE {
        Some(
            (
                ErrorKind::Other,
                name + ": bad paddr 0x"@ + text::hex(s.paddr as int) + " -> 0x"@ + text::hex(addr),
            ),
        )
    } else {
        None
    }
}

pub open spec fn segment_checks(name: Seq<char>, f: Firmware) -> spec_fn(int) -> Option<
    error::Refusal,
> {
    |i: int| segment_refusal(name, f.scratch_base, f.segments[i])
}

/// Why the firmware of a processor is refused.
pub open spec fn image_refusal(set: Seq<Entry>, i: int) -> Option<error::Refusal> {
    match firmware::found(set, processor(i)) {
        None => Some((ErrorKind::NotFound, "missing firmware image "@ + processor(i))),
        Some(f) => error::first_refusal(
            0,
            f.segments.len() as int,
            segment_checks(processor(i), f),
        ),
    }
}

pub open spec fn image_checks(set: Seq<Entry>) -> spec_fn(int) -> Option<error::Refusal> {
    |i: int| image_refusal(set, i)
}

/// The bytes of the first `n` segments.
pub open spec fn segment_spans(f: Firmware, n: int) -> Seq<Placed>
    decreases n,
{
    if n <= 0 {
        Seq::empty()
    } else {
        let s = f.segments[n - 1];
        if segment_empty(s) {
            segment_spans(f, n - 1)
        } else {
            segment_spans(f, n - 1).push((segment_addr(f.scratch_base, s.paddr), segment_bytes(s)))
        }
    }
}

/// The bytes for the first `n` processors.
pub open spec fn image_spans(set: Seq<Entry>, n: int) -> Seq<Placed>
    decreases n,
{
    if n <= 0 {
        Seq::empty()
    } else {
        let f = firmware::found(set, processor(n - 1))->0;
        image_spans(set, n - 1) + segment_spans(f, f.segments.len() as int)
    }
}

fn stage_image(name: &str, f: &CompiledFirmware, out: &mut Vec<Span>) -> (r: Result<(), Error>)
    ensures
        match r {
            Ok(_) => error::first_refusal(
                0,
                f@.segments.len() as int,
                segment_checks(name@, f@),
            ) is None && window::spans_view(final(out)@) == window::spans_view(old(out)@) + segment_spans(
                f@,
                f@.segments.len() as int,
            ),
            Err(e) => error::first_refusal(
                0,
                f@.segments.len() as int,
                segment_checks(name@, f@),
            ) == Some(e@),
        },
{
    let ghost start = window::spans_view(out@);
    let ghost checks = segment_checks(name@, f@);
    let ghost n = f@.segments.len() as int;
    assert(start + segment_spans(f@, 0) =~= start);
    for i in 0..f.segments.len()
        invariant
            n == f@.segments.len(),
            n == f.segments@.len(),
            checks == segment_checks(name@, f@),
            forall|j: int| 0 <= j < i ==> #[trigger] checks(j) is None,
            window::spans_view(out@) == start + segment_spans(f@, i as int),
    {
        proof {
            error::lemma_first_refusal_skip(0, i as int, n, checks);
        }
        let s = &f.segments[i];
        assert(s@ == f@.segments[i as int]);
        if s.data.len() == 0 && s.memsz == 0 {
            assert(checks(i as int) is None);
        } else {
            let mut data = bytes::copy(s.data.as_slice());
            if s.memsz as usize > data.len() {
                bytes::resize(&mut data, s.memsz as usize);
            }
            let addr: u64 = if TensixMMIO::LOCAL_RAM_START <= s.paddr && s.paddr
                <= TensixMMIO::LOCAL_RAM_END {
                f.scratch_base as u64 + (s.paddr - TensixMMIO::LOCAL_RAM_START) as u64
            } else {
                s.paddr as u64
            };
            if addr >= TensixL1::SIZE as u64 {
                assert(checks(i as int) is Some);
                return Err(
                    Error::new(
                        ErrorKind::Other,
                        text::cat5(
                            name,
                            ": bad paddr 0x",
                            text::hexadecimal(s.paddr as u64).as_str(),
                            " -> 0x",
                            text::hexadecimal(addr).as_str(),
                        ),
                    ),
                );
            }
            assert(checks(i as int) is None);
            let ghost before = out@;
            let span = Span { addr: addr as usize, data };
            assert(data@ == segment_bytes(s@));
            out.push(span);
            assert(window::spans_view(out@) =~= window::spans_view(before).push(
                (segment_addr(f@.scratch_base, s@.paddr), segment_bytes(s@)),
            ));
        }
        assert(start + segment_spans(f@, i + 1) =~= window::spans_view(out@));
    }
    proof {
        error::lemma_first_refusal_none(0, n, checks);
    }
    Ok(())
}

/// Lays out the firmware of all processors.
pub fn stage_firmware(set: &FirmwareSet) -> (r: Result<Vec<Span>, Error>)
    ensures
        match r {
            Ok(v) => error::first_refusal(0, 5, image_checks(set@)) is None && window::spans_view(v@)
                == image_spans(set@, 5),
            Err(e) => error::first_refusal(0, 5, image_checks(set@)) == Some(e@),
        },
{
    let ghost checks = image_checks(set@);
    let mut out: Vec<Span> = Vec::new();
    assert(window::spans_view(out@) =~= image_spans(set@, 0));
    for i in 0..5usize
        invariant
            checks == image_checks(set@),
            forall|j: int| 0 <= j < i ==> #[trigger] checks(j) is None,
            window::spans_view(out@) == image_spans(set@, i as int),
    {
        proof {
            error::lemma_first_refusal_skip(0, i as int, 5, checks);
        }
        let name = processor_name(i);
        match set.get(name) {
            None => {
                assert(checks(i as int) is Some);
                return Err(
                    Error::new(ErrorKind::NotFound, text::cat2("missing firmware image ", name)),
                );
            },
            Some(f) => {
                match stage_image(name, f, &mut out) {
                    Ok(_) => {
                        assert(checks(i as int) is None);
                    },
                    Err(e) => {
                        assert(checks(i as int) == Some(e@));
                        return Err(e);
                    },
                }
            },
        }
    }
    proof {
        error::lemma_first_refusal_none(0, 5, checks);
    }
    Ok(out)
}

/// The instruction that jumps to `target` and keeps no return address.
pub open spec fn jump(target: u32) -> u32 {
    (target & 0xFF000) | ((target & 0x800) << 9) | ((target & 0x7FE) << 20) | 0x6F
}

/// The distance that a jump instruction holds, if it is forward.
pub open spec fn jump_distance(word: u32) -> u32 {
    (word & 0xFF000) | ((word >> 9) & 0x800) | ((word >> 20) & 0x7FE)
}

pub fn encode_jal_zero(target: u32) -> (r: Vec<u8>)
    ensures
        r@ == bytes::le4(jump(target) as int),
{
    let mut out: Vec<u8> = Vec::new();
    bytes::push_u32(
        &mut out,
        (target & 0xFF000) | ((target & 0x800) << 9) | ((target & 0x7FE) << 20) | 0x6F,
    );
    assert(out@ =~= bytes::le4(jump(target) as int));
    out
}

/// A jump to an even address below one mebibyte goes there, is a jump, and keeps
/// no return address.
pub proof fn lemma_jump_goes_there(target: u32)
    requires
        target < 0x10_0000,
        target % 2 == 0,
    ensures
        jump_distance(jump(target)) == target,
        jump(target) & 0xfff == 0x6f,
        jump(target) < 0x8000_0000,
{
    assert(target < 0x10_0000 && target % 2 == 0 ==> {
        let w = (target & 0xFF000) | ((target & 0x800) << 9) | ((target & 0x7FE) << 20) | 0x6F;
        &&& (w & 0xFF000) | ((w >> 9) & 0x800) | ((w >> 20) & 0x7FE) == target
        &&& w & 0xfff == 0x6f
        &&& w < 0x8000_0000
    }) by (bit_vector);
}

/// What is written to every core.
#[derive(Debug)]
pub struct UploadPlan {
    pub rects: Vec<(CoreCoord, CoreCoord)>,
    pub spans: Vec<Span>,
    pub probe: CoreCoord,
}

/// The core that is asked whether the firmware runs.
pub open spec fn probe_core(list: Seq<CoreCoord>) -> CoreCoord {
    if list.contains(CoreCoord { x: 1, y: 2 }) {
        CoreCoord { x: 1, y: 2 }
    } else {
        list[0]
    }
}

/// Why no firmware is written.
pub open spec fn upload_refusal(
    set: Seq<Entry>,
    list: Seq<CoreCoord>,
    harvested: Seq<usize>,
) -> Option<error::Refusal> {
    if list.len() == 0 {
        Some((ErrorKind::Other, "no worker cores discovered"@))
    } else if error::first_refusal(0, 5, image_checks(set)) is Some {
        error::first_refusal(0, 5, image_checks(set))
    } else {
        banks::table_refusal(harvested)
    }
}

/// The bytes that go to every core: the firmware, a jump to its start, the first
/// message, and the table of banks.
pub open spec fn upload_spans(
    set: Seq<Entry>,
    list: Seq<CoreCoord>,
    harvested: Seq<usize>,
) -> Seq<Placed> {
    image_spans(set, 5) + seq![
        (0int, bytes::le4(jump(TensixL1::BRISC_FIRMWARE_BASE) as int)),
        (TensixL1::GO_MSG as int, seq![0u8, 0u8, 0u8, DevMsgs::RUN_MSG_INIT]),
        (TensixL1::MEM_BANK_TO_NOC_SCRATCH as int, banks::bank_table(harvested, list)),
    ]
}

/// Works out what is written to start the firmware of a device.
pub fn plan_upload(
    set: &FirmwareSet,
    all_cores: &[CoreCoord],
    harvested_dram_banks: &[usize],
) -> (r: Result<UploadPlan, Error>)
    requires
        forall|i: int|
            0 <= i < all_cores@.len() ==> (#[trigger] all_cores@[i]).x < 255 && all_cores@[i].y
                < 255,
        4 * (8 + all_cores@.len()) <= usize::MAX,
    ensures
        match r {
            Ok(p) => {
                &&& upload_refusal(set@, all_cores@, harvested_dram_banks@) is None
                &&& window::spans_view(p.spans@) == upload_spans(set@, all_cores@, harvested_dram_banks@)
                &&& mcast::peels(all_cores@.to_set(), p.rects@, Set::empty())
                &&& p.probe == probe_core(all_cores@)
            },
            Err(e) => upload_refusal(set@, all_cores@, harvested_dram_banks@) == Some(e@),
        },
{
    if all_cores.len() == 0 {
        return Err(Error::new(ErrorKind::Other, "no worker cores discovered".to_owned()));
    }
    let mut spans = match stage_firmware(set) {
        Ok(v) => v,
        Err(e) => {
            return Err(e);
        },
    };
    let ghost images = spans@;
    let jal = encode_jal_zero(TensixL1::BRISC_FIRMWARE_BASE);
    let go_init: Vec<u8> = vec![0u8, 0u8, 0u8, DevMsgs::RUN_MSG_INIT];
    let table = match banks::build_bank_noc_table(harvested_dram_banks, all_cores) {
        Ok(t) => t,
        Err(e) => {
            return Err(e);
        },
    };
    let ghost (j, g, t) = (jal@, go_init@, table@);
    let rects = mcast::mcast_rects(all_cores);
    spans.push(Span { addr: 0, data: jal });
    spans.push(Span { addr: TensixL1::GO_MSG as usize, data: go_init });
    spans.push(Span { addr: TensixL1::MEM_BANK_TO_NOC_SCRATCH as usize, data: table });
    assert(g =~= seq![0u8, 0u8, 0u8, DevMsgs::RUN_MSG_INIT]);
    assert(window::spans_view(spans@) =~= window::spans_view(images) + seq![
        (0int, j),
        (TensixL1::GO_MSG as int, g),
        (TensixL1::MEM_BANK_TO_NOC_SCRATCH as int, t),
    ]);
    let wanted = CoreCoord { x: 1, y: 2 };
    let probe = if cores::contains_core(all_cores, wanted) {
        wanted
    } else {
        all_cores[0]
    };
    Ok(UploadPlan { rects, spans, probe })
}

/// The start of the two mebibytes of registers that hold the reset register.
pub open spec fn register_window() -> int {
    TensixMMIO::RISCV_DEBUG_REG_SOFT_RESET_0 / Arc::TLB_SIZE_2M * Arc::TLB_SIZE_2M
}

pub fn mmio_base() -> (r: u64)
    ensures
        r == register_window(),
{
    TensixMMIO::RISCV_DEBUG_REG_SOFT_RESET_0 / Arc::TLB_SIZE_2M * Arc::TLB_SIZE_2M
}

/// The register that holds where a processor other than the first starts.
pub open spec fn start_register(i: int) -> u64 {
    if i == 1 {
        TensixMMIO::RISCV_DEBUG_REG_NCRISC_RESET_PC
    } else if i == 2 {
        TensixMMIO::RISCV_DEBUG_REG_TRISC0_RESET_PC
    } else if i == 3 {
        TensixMMIO::RISCV_DEBUG_REG_TRISC1_RESET_PC
    } else {
        TensixMMIO::RISCV_DEBUG_REG_TRISC2_RESET_PC
    }
}

/// Where the firmware of a processor starts.
pub open spec fn start_of(set: Seq<Entry>, i: int) -> Option<u32> {
    match firmware::found(set, processor(i)) {
        Some(f) => if f.segments.len() > 0 {
            Some(f.segments[0].paddr)
        } else {
            None
        },
        None => None,
    }
}

pub open spec fn start_checks(set: Seq<Entry>) -> spec_fn(int) -> Option<error::Refusal> {
    |i: int|
        if start_of(set, i) is None {
            Some((ErrorKind::Other, processor(i) + " firmware missing text segment"@))
        } else {
            None
        }
}

/// Where in the window each processor's start is written, and the start.
pub open spec fn starts(set: Seq<Entry>) -> Seq<(usize, u32)> {
    Seq::new(
        4,
        |i: int| ((start_register(i + 1) - register_window()) as usize, start_of(set, i + 1)->0),
    )
}

/// Finds where the other processors start.
pub fn reset_vectors(set: &FirmwareSet) -> (r: Result<Vec<(usize, u32)>, Error>)
    ensures
        match r {
            Ok(v) => error::first_refusal(1, 5, start_checks(set@)) is None && v@ == starts(set@),
            Err(e) => error::first_refusal(1, 5, start_checks(set@)) == Some(e@),
        },
{
    let ghost checks = start_checks(set@);
    let base: u64 = mmio_base();
    let mut out: Vec<(usize, u32)> = Vec::new();
    for i in 1..5usize
        invariant
            checks == start_checks(set@),
            base == register_window(),
            forall|j: int| 1 <= j < i ==> #[trigger] checks(j) is None,
            out@ == starts(set@).take(i - 1),
    {
        proof {
            error::lemma_first_refusal_skip(1, i as int, 5, checks);
        }
        let name = processor_name(i);
        let start: Option<u32> = match set.get(name) {
            Some(f) => f.text_base(),
            None => None,
        };
        assert(start == start_of(set@, i as int));
        let reg: u64 = match i {
            1 => TensixMMIO::RISCV_DEBUG_REG_NCRISC_RESET_PC,
            2 => TensixMMIO::RISCV_DEBUG_REG_TRISC0_RESET_PC,
            3 => TensixMMIO::RISCV_DEBUG_REG_TRISC1_RESET_PC,
            _ => TensixMMIO::RISCV_DEBUG_REG_TRISC2_RESET_PC,
        };
        match start {
            Some(a) => {
                assert(checks(i as int) is None);
                out.push(((reg - base) as usize, a));
                assert(out@ =~= starts(set@).take(i as int));
            },
            None => {
                assert(checks(i as int) is Some);
                return Err(
                    Error::new(
                        ErrorKind::Other,
                        text::cat2(name, " firmware missing text segment"),
                    ),
                );
            },
        }
    }
    proof {
        error::lemma_first_refusal_none(1, 5, checks);
        assert(starts(set@).take(4) =~= starts(set@));
    }
    Ok(out)
}

/// The write of one register, from the start of the window.
pub open spec fn register_write(register: u64, value: u32) -> Seq<Placed> {
    seq![(register - register_window(), bytes::le4(value as int))]
}

/// The writes of where the processors start.
pub open spec fn start_writes(vectors: Seq<(usize, u32)>) -> Seq<Placed> {
    vectors.map_values(|v: (usize, u32)| (v.0 as int, bytes::le4(v.1 as int)))
}

/// First all processors are stopped.
pub open spec fn reset_acts(rects: Seq<(CoreCoord, CoreCoord)>) -> Seq<Act> {
    window::all_acts(
        rects,
        register_window() as u64,
        register_write(
            TensixMMIO::RISCV_DEBUG_REG_SOFT_RESET_0,
            TensixMMIO::SOFT_RESET_ALL,
        ),
    )
}

/// Then all bytes are written; a word is read back behind them.
pub open spec fn load_acts(rects: Seq<(CoreCoord, CoreCoord)>, spans: Seq<Placed>) -> Seq<Act> {
    window::all_acts(rects, 0, spans).push(Act::ReadBack { offset: 0 })
}

/// Then the processors are told where they start, the first of them is let go, and
/// the window is pointed at the core that is asked whether it runs.
pub open spec fn start_acts(
    rects: Seq<(CoreCoord, CoreCoord)>,
    vectors: Seq<(usize, u32)>,
    probe: CoreCoord,
) -> Seq<Act> {
    let base = register_window() as u64;
    let told = window::all_acts(rects, base, start_writes(vectors));
    let gone = window::all_acts(
        rects,
        base,
        register_write(
            TensixMMIO::RISCV_DEBUG_REG_SOFT_RESET_0,
            TensixMMIO::SOFT_RESET_BRISC_ONLY_RUN,
        ),
    );
    (told + gone).push(Act::Aim { start: probe, end: None, addr: 0 })
}

fn word_span(offset: usize, value: u32) -> (r: Span)
    ensures
        r.addr == offset,
        r.data@ == bytes::le4(value as int),
{
    let mut data: Vec<u8> = Vec::new();
    bytes::push_u32(&mut data, value);
    assert(data@ =~= bytes::le4(value as int));
    Span { addr: offset, data }
}

fn push_reset(out: &mut Vec<WindowStep>, rects: &Vec<(CoreCoord, CoreCoord)>, value: u32)
    ensures
        window::acts(final(out)@) == window::acts(old(out)@) + window::all_acts(
            rects@,
            register_window() as u64,
            register_write(TensixMMIO::RISCV_DEBUG_REG_SOFT_RESET_0, value),
        ),
{
    let base: u64 = mmio_base();
    let offset: usize = (TensixMMIO::RISCV_DEBUG_REG_SOFT_RESET_0 - base) as usize;
    let mut spans: Vec<Span> = Vec::new();
    spans.push(word_span(offset, value));
    assert(window::spans_view(spans@) =~= register_write(
        TensixMMIO::RISCV_DEBUG_REG_SOFT_RESET_0,
        value,
    ));
    window::push_all(out, rects, base, &spans);
}

impl UploadPlan {
    /// Lists the steps that stop all processors.
    pub fn reset_steps(&self) -> (r: Vec<WindowStep>)
        ensures
            window::acts(r@) == reset_acts(self.rects@),
    {
        let mut out: Vec<WindowStep> = Vec::new();
        push_reset(&mut out, &self.rects, TensixMMIO::SOFT_RESET_ALL);
        assert(window::acts(out@) =~= reset_acts(self.rects@));
        out
    }

    /// Lists the steps that write all bytes.
    pub fn load_steps(&self) -> (r: Vec<WindowStep>)
        ensures
            window::acts(r@) == load_acts(self.rects@, window::spans_view(self.spans@)),
    {
        let mut out: Vec<WindowStep> = Vec::new();
        window::push_all(&mut out, &self.rects, 0, &self.spans);
        window::push_step(&mut out, WindowStep::ReadBack { offset: 0 });
        assert(window::acts(out@) =~= load_acts(self.rects@, window::spans_view(self.spans@)));
        out
    }

    /// Lists the steps that start the processors.
    pub fn start_steps(&self, vectors: &Vec<(usize, u32)>) -> (r: Vec<WindowStep>)
        ensures
            window::acts(r@) == start_acts(self.rects@, vectors@, self.probe),
    {
        let mut spans: Vec<Span> = Vec::new();
        for i in 0..vectors.len()
            invariant
                window::spans_view(spans@) == start_writes(vectors@).take(i as int),
        {
            let (offset, start) = vectors[i];
            let ghost before = window::spans_view(spans@);
            spans.push(word_span(offset, start));
            assert(window::spans_view(spans@) =~= before.push(start_writes(vectors@)[i as int]));
            assert(window::spans_view(spans@) =~= start_writes(vectors@).take(i + 1));
        }
        assert(start_writes(vectors@).take(vectors@.len() as int) =~= start_writes(vectors@));
        let mut out: Vec<WindowStep> = Vec::new();
        window::push_all(&mut out, &self.rects, mmio_base(), &spans);
        push_reset(&mut out, &self.rects, TensixMMIO::SOFT_RESET_BRISC_ONLY_RUN);
        window::push_step(
            &mut out,
            WindowStep::Aim { start: self.probe, end: None, addr: 0 },
        );
        assert(window::acts(out@) =~= start_acts(self.rects@, vectors@, self.probe));
        out
    }
}

/// The failure of a core whose firmware does not answer in time.
pub fn not_ready(probe: CoreCoord) -> (e: Error)
    ensures
        e@ == (ErrorKind::TimedOut, "firmware not ready on "@ + probe.shown()),
{
    Error::new(
        ErrorKind::TimedOut,
        text::cat2("firmware not ready on ", probe.to_string().as_str()),
    )
}

} // verus!
