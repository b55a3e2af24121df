//! Commands of the command queue and the records that carry them.

use vstd::prelude::*;
use crate::arith;
use crate::bytes;
use crate::error;
use crate::error::{Error, ErrorKind};
use crate::hw;
use crate::hw::CoreCoord;
use crate::text;

pub mod boot;
pub mod fields;
pub mod queue;
pub mod ring;
pub mod start;
pub mod template;

verus! {

/// Bytes of the header of a command.
pub const CQ_CMD_SIZE: usize = 16;

/// Records start at multiples of this in host memory.
pub const PCIE_ALIGN: usize = 64;

/// Data starts at multiples of this in a core's memory.
pub const L1_ALIGN: usize = 16;

/// Numbers and flags that the firmware of the command queue gives its commands.
#[derive(Clone, Copy, Debug, PartialEq, Eq, Structural)]
pub struct CqAbi {
    pub relay_inline: u8,
    pub write_linear_h_host: u8,
    pub write_packed: u8,
    pub write_packed_large: u8,
    pub wait: u8,
    pub send_go_signal: u8,
    pub set_go_signal_noc_data: u8,
    pub packed_large_max_sub_cmds: u16,
    pub packed_large_flag_unlink: u8,
    pub packed_large_type_program_binaries: u8,
    pub packed_flag_none: u8,
    pub wait_flag_wait_stream: u8,
    pub wait_flag_clear_stream: u8,
    pub go_no_multicast_offset: u8,
    pub done_stream: u16,
}

/// A command of the queue.
#[derive(Clone, Debug, PartialEq, Eq)]
pub enum CqCommand {
    WritePackedLarge { rects: Vec<(CoreCoord, CoreCoord)>, addr: usize, data: Vec<u8> },
    WritePacked { cores: Vec<CoreCoord>, addr: usize, data: Vec<Vec<u8>> },
    SetGoSignalNocData { cores: Vec<CoreCoord> },
    SendGoSignal { go_word: u32, stream: u16, count: u32, num_unicast: u8 },
    WaitStream { stream: u16, count: u32, clear: bool },
    HostEvent(u32),
}

/// What a contract says of a command.
pub enum Order {
    WritePackedLarge { rects: Seq<(CoreCoord, CoreCoord)>, addr: int, data: Seq<u8> },
    WritePacked { cores: Seq<CoreCoord>, addr: int, data: Seq<Seq<u8>> },
    SetGoSignalNocData { cores: Seq<CoreCoord> },
    SendGoSignal { go_word: u32, stream: u16, count: u32, num_unicast: u8 },
    WaitStream { stream: u16, count: u32, clear: bool },
    HostEvent(u32),
}

/// The contents of a list of byte strings.
pub open spec fn blobs_view(blobs: Seq<Vec<u8>>) -> Seq<Seq<u8>> {
    blobs.map_values(|b: Vec<u8>| b@)
}

impl View for CqCommand {
    type V = Order;

    open spec fn view(&self) -> Order {
        match self {
            CqCommand::WritePackedLarge { rects, addr, data } => Order::WritePackedLarge {
                rects: rects@,
                addr: *addr as int,
                data: data@,
            },
            CqCommand::WritePacked { cores, addr, data } => Order::WritePacked {
                cores: cores@,
                addr: *addr as int,
                data: blobs_view(data@),
            },
            CqCommand::SetGoSignalNocData { cores } => Order::SetGoSignalNocData { cores: cores@ },
            CqCommand::SendGoSignal { go_word, stream, count, num_unicast } => Order::SendGoSignal {
                go_word: *go_word,
                stream: *stream,
                count: *count,
                num_unicast: *num_unicast,
            },
            CqCommand::WaitStream { stream, count, clear } => Order::WaitStream {
                stream: *stream,
                count: *count,
                clear: *clear,
            },
            CqCommand::HostEvent(id) => Order::HostEvent(*id),
        }
    }
}

/// A failure of another kind.
pub open spec fn other(message: Seq<char>) -> error::Refusal {
    (ErrorKind::Other, message)
}

pub(crate) fn other_error(message: String) -> (e: Error)
    ensures
        e@ == other(message@),
{
    Error::new(ErrorKind::Other, message)
}

/// Bytes filled up with zeros to at least `n`.
pub open spec fn padded(s: Seq<u8>, n: int) -> Seq<u8> {
    if s.len() < n {
        bytes::resized(s, n)
    } else {
        s
    }
}

pub(crate) fn pad_vec_to(data: &mut Vec<u8>, len: usize)
    ensures
        final(data)@ == padded(old(data)@, len as int),
{
    if data.len() < len {
        bytes::resize(data, len);
    }
}

/// The header of a command: its number, then its fields.
pub open spec fn header(id: u8, fields: Seq<u8>) -> Seq<u8> {
    padded(seq![id] + fields, 16)
}

fn new_header(id: u8) -> (r: Vec<u8>)
    ensures
        r@ == seq![id],
{
    let mut r: Vec<u8> = Vec::new();
    r.push(id);
    assert(r@ =~= seq![id]);
    r
}

fn push_u8(out: &mut Vec<u8>, v: u8)
    ensures
        final(out)@ == old(out)@ + seq![v],
{
    out.push(v);
    assert(out@ =~= old(out)@ + seq![v]);
}

/// Appends the low 32 bits of a length.
pub(crate) fn push_len(out: &mut Vec<u8>, n: usize)
    ensures
        final(out)@ == old(out)@ + bytes::le4(n as int),
{
    proof {
        bytes::lemma_le4_wraps(n as int);
    }
    bytes::push_u32(out, (n as u64 % 0x1_0000_0000) as u32);
}

/// A payload behind the header that has it relayed, filled up to whole units.
#[verifier::opaque]
pub open spec fn relayed(abi: CqAbi, payload: Seq<u8>) -> Seq<u8> {
    let stride = arith::round_up(16 + payload.len() as int, 64);
    bytes::resized(
        header(
            abi.relay_inline,
            seq![0u8] + bytes::le2(0) + bytes::le4(payload.len() as int) + bytes::le4(stride),
        ) + payload,
        stride,
    )
}

/// Whether a payload can be relayed on this machine.
pub open spec fn fits(len: int) -> bool {
    len + 128 <= usize::MAX
}

proof fn lemma_header_len(id: u8, fields: Seq<u8>)
    requires
        fields.len() <= 15,
    ensures
        header(id, fields).len() == 16,
{
}

/// Puts a payload behind the header that has it relayed.
pub fn relay_inline(abi: &CqAbi, payload: &[u8]) -> (r: Vec<u8>)
    requires
        fits(payload@.len() as int),
    ensures
        r@ == relayed(*abi, payload@),
{
    proof {
        reveal(relayed);
    }
    proof {
        arith::lemma_round_up(16 + payload@.len() as int, 64);
    }
    let len: usize = payload.len();
    let stride: usize = match arith::checked_round_up(16 + len, 64) {
        Some(s) => s,
        None => 0,
    };
    let mut record = new_header(abi.relay_inline);
    let ghost head = record@;
    push_u8(&mut record, 0);
    bytes::push_u16(&mut record, 0);
    push_len(&mut record, len);
    push_len(&mut record, stride);
    assert(record@ =~= head + (seq![0u8] + bytes::le2(0) + bytes::le4(len as int) + bytes::le4(
        stride as int,
    )));
    pad_vec_to(&mut record, 16);
    bytes::append(&mut record, payload);
    bytes::resize(&mut record, stride);
    record
}

/// Every relayed record fills whole units, and holds its payload behind its header.
pub proof fn lemma_relayed(abi: CqAbi, payload: Seq<u8>)
    ensures
        relayed(abi, payload).len() % 64 == 0,
        relayed(abi, payload).len() >= 16 + payload.len(),
        relayed(abi, payload).subrange(16, 16 + payload.len() as int) == payload,
{
    reveal(relayed);
    let stride = arith::round_up(16 + payload.len() as int, 64);
    arith::lemma_round_up(16 + payload.len() as int, 64);
    let fields = seq![0u8] + bytes::le2(0) + bytes::le4(payload.len() as int) + bytes::le4(stride);
    lemma_header_len(abi.relay_inline, fields);
    assert(relayed(abi, payload).subrange(16, 16 + payload.len() as int) =~= payload);
}

/// The words that name cores.
pub open spec fn core_words(cores: Seq<CoreCoord>, n: int) -> Seq<u8>
    decreases n,
{
    if n <= 0 {
        Seq::empty()
    } else {
        core_words(cores, n - 1) + bytes::le4(
            hw::packed_xy(cores[n - 1].x, cores[n - 1].y) as int,
        )
    }
}

pub proof fn lemma_core_words(cores: Seq<CoreCoord>, n: int)
    requires
        0 <= n,
    ensures
        core_words(cores, n).len() == 4 * n,
    decreases n,
{
    if n > 0 {
        lemma_core_words(cores, n - 1);
    }
}

fn push_cores(out: &mut Vec<u8>, cores: &Vec<CoreCoord>)
    ensures
        final(out)@ == old(out)@ + core_words(cores@, cores@.len() as int),
{
    let ghost start = out@;
    for i in 0..cores.len()
        invariant
            out@ == start + core_words(cores@, i as int),
    {
        bytes::push_u32(out, hw::noc_xy(cores[i].x, cores[i].y));
        assert(out@ =~= start + core_words(cores@, i + 1));
    }
    assert(out@ =~= start + core_words(cores@, cores@.len() as int));
}

/// The word that names a rectangle of cores.
pub open spec fn rect_word(start: CoreCoord, end: CoreCoord) -> u32 {
    ((end.y as u32) << 18) | ((end.x as u32) << 12) | ((start.y as u32) << 6) | start.x as u32
}

/// The number of cores in a rectangle.
pub open spec fn rect_size(start: CoreCoord, end: CoreCoord) -> int {
    (end.x - start.x + 1) * (end.y - start.y + 1)
}

/// Whether a rectangle can be addressed in one write.
pub open spec fn is_rect(r: (CoreCoord, CoreCoord)) -> bool {
    r.0.x <= r.1.x && r.0.y <= r.1.y && rect_size(r.0, r.1) <= 255
}

/// The corners of a rectangle can be read off its word.
pub proof fn lemma_rect_word(start: CoreCoord, end: CoreCoord)
    requires
        start.x < 64,
        start.y < 64,
        end.x < 64,
        end.y < 64,
    ensures
        rect_word(start, end) == end.y * 0x4_0000 + end.x * 0x1000 + start.y * 0x40 + start.x,
{
    let a: u8 = end.y;
    let b: u8 = end.x;
    let c: u8 = start.y;
    let d: u8 = start.x;
    assert(((a as u32) << 18) | ((b as u32) << 12) | ((c as u32) << 6) | d as u32 == a * 0x4_0000
        + b * 0x1000 + c * 0x40 + d) by (bit_vector)
        requires
            a < 64,
            b < 64,
            c < 64,
            d < 64,
    ;
}

/// Names a rectangle of cores, and counts them.
pub fn noc_mcast_xy(start: CoreCoord, end: CoreCoord) -> (r: (u32, u8))
    requires
        is_rect((start, end)),
    ensures
        r.0 == rect_word(start, end),
        r.1 == rect_size(start, end),
{
    let xy: u32 = ((end.y as u32) << 18) | ((end.x as u32) << 12) | ((start.y as u32) << 6)
        | start.x as u32;
    let w: u16 = (end.x - start.x) as u16 + 1;
    let h: u16 = (end.y - start.y) as u16 + 1;
    proof {
        assert(0 <= w * h) by (nonlinear_arith);
    }
    (xy, (w * h) as u8)
}

/// One write of a large packed write.
pub open spec fn sub_command(abi: CqAbi, r: (CoreCoord, CoreCoord), addr: int, len: int) -> Seq<u8> {
    bytes::le4(rect_word(r.0, r.1) as int) + bytes::le4(addr) + bytes::le2(len - 1) + seq![
        rect_size(r.0, r.1) as u8,
        abi.packed_large_flag_unlink,
    ]
}

/// The writes to the first `n` of the rectangles.
pub open spec fn sub_commands(
    abi: CqAbi,
    rects: Seq<(CoreCoord, CoreCoord)>,
    addr: int,
    len: int,
    n: int,
) -> Seq<u8>
    decreases n,
{
    if n <= 0 {
        Seq::empty()
    } else {
        sub_commands(abi, rects, addr, len, n - 1) + sub_command(abi, rects[n - 1], addr, len)
    }
}

/// `n` copies of a byte string.
pub open spec fn copies(s: Seq<u8>, n: int) -> Seq<u8>
    decreases n,
{
    if n <= 0 {
        Seq::empty()
    } else {
        copies(s, n - 1) + s
    }
}

/// Bytes filled up to a multiple of sixteen.
pub open spec fn aligned(s: Seq<u8>) -> Seq<u8> {
    padded(s, arith::round_up(s.len() as int, 16))
}

/// The record of one batch of a large packed write.
pub open spec fn large_record(
    abi: CqAbi,
    batch: Seq<(CoreCoord, CoreCoord)>,
    addr: int,
    data: Seq<u8>,
) -> Seq<u8> {
    let n = batch.len() as int;
    let head = header(
        abi.write_packed_large,
        seq![abi.packed_large_type_program_binaries] + bytes::le2(n) + bytes::le2(16) + bytes::le2(
            0,
        ),
    );
    aligned(head + sub_commands(abi, batch, addr, data.len() as int, n)) + copies(
        aligned(data),
        n,
    )
}

/// The number of batches.
pub open spec fn batch_count(n: int, max: int) -> int {
    arith::ceil_div(n, max)
}

/// Batch `i` of a list.
pub open spec fn batch(rects: Seq<(CoreCoord, CoreCoord)>, max: int, i: int) -> Seq<
    (CoreCoord, CoreCoord),
> {
    rects.subrange(i * max, arith::min2((i + 1) * max, rects.len() as int))
}

/// The record of a packed write.
pub open spec fn packed_record(
    abi: CqAbi,
    cores: Seq<CoreCoord>,
    addr: int,
    size: int,
    data: Seq<Seq<u8>>,
) -> Seq<u8> {
    packed_body(packed_header(abi, cores, addr, size), data, size, data.len() as int)
}

/// The start of a packed write, up to its data.
pub open spec fn packed_header(abi: CqAbi, cores: Seq<CoreCoord>, addr: int, size: int) -> Seq<u8> {
    aligned(
        header(
            abi.write_packed,
            seq![abi.packed_flag_none] + bytes::le2(cores.len() as int) + bytes::le2(0)
                + bytes::le2(size) + bytes::le4(addr),
        ) + core_words(cores, cores.len() as int),
    )
}

/// The start of a packed write ends where its data starts.
pub proof fn lemma_packed_header_len(abi: CqAbi, cores: Seq<CoreCoord>, addr: int, size: int)
    ensures
        packed_header(abi, cores, addr, size).len() == body_start(cores.len() as int),
{
    lemma_core_words(cores, cores.len() as int);
    arith::lemma_round_up(16 + 4 * cores.len() as int, 16);
}

/// Where the data of a packed write starts.
pub open spec fn body_start(cores: int) -> int {
    arith::round_up(16 + 4 * cores, 16)
}

/// A packed write with the data for the first `n` cores.
pub open spec fn packed_body(head: Seq<u8>, data: Seq<Seq<u8>>, size: int, n: int) -> Seq<u8>
    decreases n,
{
    if n <= 0 {
        head
    } else {
        packed_body(head, data, size, n - 1) + aligned(data[n - 1])
    }
}

/// The record of an event for the host.
pub open spec fn event_record(abi: CqAbi, id: u32) -> Seq<u8> {
    header(
        abi.write_linear_h_host,
        seq![1u8] + bytes::le2(0) + bytes::le4(0) + bytes::le8(32),
    ) + padded(bytes::le4(id as int), 16)
}

/// Why an address is refused.
pub open spec fn address_refusal(addr: int, what: Seq<char>) -> Option<error::Refusal> {
    if addr > u32::MAX {
        Some(other(what + " does not fit in u32"@))
    } else {
        None
    }
}

fn narrow_address(addr: usize, what: &str) -> (r: Result<u32, Error>)
    ensures
        match r {
            Ok(v) => v == addr && address_refusal(addr as int, what@) is None,
            Err(e) => address_refusal(addr as int, what@) == Some(e@),
        },
{
    if addr as u64 > 0xffff_ffff {
        Err(other_error(text::cat2(what, " does not fit in u32")))
    } else {
        Ok(addr as u32)
    }
}

/// Why the header of a packed write is refused.
pub open spec fn packed_refusal(cores: int, addr: int, size: int) -> Option<error::Refusal> {
    if cores > u16::MAX {
        Some(other("too many CQ packed writes"@))
    } else if size > u16::MAX {
        Some(other("CQ packed write payload too large"@))
    } else {
        address_refusal(addr, "CQ packed write address"@)
    }
}

/// Whether all byte strings have the length of the first.
pub open spec fn uniform(data: Seq<Seq<u8>>) -> bool {
    forall|i: int| 0 <= i < data.len() ==> (#[trigger] data[i]).len() == data[0].len()
}

/// Why a command is refused.
pub open spec fn order_refusal(o: Order) -> Option<error::Refusal> {
    match o {
        Order::WritePackedLarge { rects, addr, data } => if rects.len() == 0 {
            None
        } else if address_refusal(addr, "CQ write address"@) is Some {
            address_refusal(addr, "CQ write address"@)
        } else if data.len() == 0 {
            Some(error::invalid("CQ write data must not be empty"@))
        } else if data.len() > 0x1_0000 {
            Some(other("CQ write payload too large"@))
        } else {
            None
        },
        Order::WritePacked { cores, addr, data } => if cores.len() != data.len() {
            Some(
                error::invalid(
                    "packed write core/data length mismatch: "@ + text::dec(cores.len() as int)
                        + " != "@ + text::dec(data.len() as int),
                ),
            )
        } else if data.len() == 0 {
            None
        } else if !uniform(data) {
            Some(error::invalid("packed write blobs must have a uniform size"@))
        } else {
            packed_refusal(cores.len() as int, addr, data[0].len() as int)
        },
        _ => None,
    }
}

/// The records of a command.
pub open spec fn records(abi: CqAbi, o: Order) -> Seq<Seq<u8>> {
    match o {
        Order::WritePackedLarge { rects, addr, data } => {
            let max = abi.packed_large_max_sub_cmds as int;
            Seq::new(
                batch_count(rects.len() as int, max) as nat,
                |i: int| large_record(abi, batch(rects, max, i), addr, data),
            )
        },
        Order::WritePacked { cores, addr, data } => if data.len() == 0 {
            Seq::empty()
        } else {
            seq![packed_record(abi, cores, addr, data[0].len() as int, data)]
        },
        Order::SetGoSignalNocData { cores } => seq![
            header(
                abi.set_go_signal_noc_data,
                seq![0u8] + bytes::le2(0) + bytes::le4(cores.len() as int),
            ) + core_words(cores, cores.len() as int),
        ],
        Order::SendGoSignal { go_word, stream, count, num_unicast } => seq![
            header(
                abi.send_go_signal,
                bytes::le4(go_word as int) + seq![
                    abi.go_no_multicast_offset,
                    num_unicast,
                    0u8,
                ] + bytes::le4(count as int) + bytes::le4(stream as int),
            ),
        ],
        Order::WaitStream { stream, count, clear } => seq![
            header(
                abi.wait,
                seq![
                    if clear {
                        abi.wait_flag_wait_stream | abi.wait_flag_clear_stream
                    } else {
                        abi.wait_flag_wait_stream | 0u8
                    },
                ] + bytes::le2(stream as int) + bytes::le4(0) + bytes::le4(count as int),
            ),
        ],
        Order::HostEvent(id) => seq![event_record(abi, id)],
    }
}

/// Whether the records of a command can be built: its rectangles are such.
pub open spec fn buildable(o: Order) -> bool {
    match o {
        Order::WritePackedLarge { rects, .. } => forall|i: int|
            0 <= i < rects.len() ==> is_rect(#[trigger] rects[i]),
        _ => true,
    }
}

fn push_aligned(out: &mut Vec<u8>, data: &[u8])
    requires
        data@.len() <= 0x1_0000,
    ensures
        final(out)@ == old(out)@ + aligned(data@),
{
    proof {
        arith::lemma_round_up(data@.len() as int, 16);
    }
    let len: usize = (data.len() + 15) / 16 * 16;
    assert(len == arith::round_up(data@.len() as int, 16));
    let mut unit = bytes::copy(data);
    pad_vec_to(&mut unit, len);
    bytes::append(out, unit.as_slice());
}

fn align_record(record: &mut Vec<u8>)
    requires
        old(record)@.len() + 32 <= usize::MAX,
    ensures
        final(record)@ == aligned(old(record)@),
{
    proof {
        arith::lemma_round_up(record@.len() as int, 16);
    }
    let len: usize = record.len();
    let end: usize = match arith::checked_round_up(len, 16) {
        Some(e) => e,
        None => 0,
    };
    pad_vec_to(record, end);
}

fn build_large(
    abi: &CqAbi,
    rects: &Vec<(CoreCoord, CoreCoord)>,
    from: usize,
    to: usize,
    addr: u32,
    data: &Vec<u8>,
) -> (r: Vec<u8>)
    requires
        from < to <= rects@.len(),
        to - from <= u16::MAX,
        1 <= data@.len() <= 0x1_0000,
        forall|i: int| 0 <= i < rects@.len() ==> is_rect(#[trigger] rects@[i]),
    ensures
        r@ == large_record(
            *abi,
            rects@.subrange(from as int, to as int),
            addr as int,
            data@,
        ),
{
    let n: usize = to - from;
    let ghost part = rects@.subrange(from as int, to as int);
    let ghost len = data@.len() as int;
    let mut record = new_header(abi.write_packed_large);
    let ghost head = record@;
    push_u8(&mut record, abi.packed_large_type_program_binaries);
    bytes::push_u16(&mut record, n as u16);
    bytes::push_u16(&mut record, 16);
    bytes::push_u16(&mut record, 0);
    assert(record@ =~= head + (seq![abi.packed_large_type_program_binaries] + bytes::le2(n as int)
        + bytes::le2(16) + bytes::le2(0)));
    pad_vec_to(&mut record, 16);
    let ghost start = record@;
    assert(start.len() == 16);
    assert(record@ =~= start + sub_commands(*abi, part, addr as int, len, 0));
    for i in 0..n
        invariant
            n == to - from,
            from < to <= rects@.len(),
            n <= u16::MAX,
            part == rects@.subrange(from as int, to as int),
            len == data@.len(),
            1 <= len <= 0x1_0000,
            forall|j: int| 0 <= j < rects@.len() ==> is_rect(#[trigger] rects@[j]),
            start.len() == 16,
            record@.len() == 16 + 12 * i,
            record@ == start + sub_commands(*abi, part, addr as int, len, i as int),
    {
        let (a, b) = rects[from + i];
        assert(is_rect(rects@[from + i]));
        let (xy, count) = noc_mcast_xy(a, b);
        let ghost before = record@;
        bytes::push_u32(&mut record, xy);
        bytes::push_u32(&mut record, addr);
        bytes::push_u16(&mut record, (data.len() - 1) as u16);
        push_u8(&mut record, count);
        push_u8(&mut record, abi.packed_large_flag_unlink);
        assert(part[i as int] == rects@[from + i]);
        assert(record@ =~= before + sub_command(*abi, part[i as int], addr as int, len));
        assert(record@ =~= start + sub_commands(*abi, part, addr as int, len, i + 1));
    }
    align_record(&mut record);
    let ghost whole = record@;
    assert(record@ =~= whole + copies(aligned(data@), 0));
    for i in 0..n
        invariant
            data@.len() <= 0x1_0000,
            record@ == whole + copies(aligned(data@), i as int),
    {
        push_aligned(&mut record, data.as_slice());
        assert(record@ =~= whole + copies(aligned(data@), i + 1));
    }
    record
}

fn large_records(
    abi: &CqAbi,
    rects: &Vec<(CoreCoord, CoreCoord)>,
    addr: u32,
    data: &Vec<u8>,
) -> (r: Vec<Vec<u8>>)
    requires
        abi.packed_large_max_sub_cmds > 0,
        rects@.len() > 0,
        1 <= data@.len() <= 0x1_0000,
        forall|i: int| 0 <= i < rects@.len() ==> is_rect(#[trigger] rects@[i]),
    ensures
        blobs_view(r@) == records(
            *abi,
            (Order::WritePackedLarge { rects: rects@, addr: addr as int, data: data@ }),
        ),
{
    let max: usize = abi.packed_large_max_sub_cmds as usize;
    let total: usize = rects.len();
    let n: usize = arith::div_ceil(total, max);
    let ghost want = records(
        *abi,
        Order::WritePackedLarge { rects: rects@, addr: addr as int, data: data@ },
    );
    proof {
        arith::lemma_ceil_div(total as int, max as int);
        arith::lemma_round_up(total as int, max as int);
        assert((n - 1) * max == n * max - max) by (nonlinear_arith);
        assert(0 * max == 0) by (nonlinear_arith);
    }
    let mut out: Vec<Vec<u8>> = Vec::new();
    let mut from: usize = 0;
    assert(blobs_view(out@) =~= want.take(0));
    for i in 0..n
        invariant
            max == abi.packed_large_max_sub_cmds,
            max > 0,
            total == rects@.len(),
            n == arith::ceil_div(total as int, max as int),
            n > 0 ==> (n - 1) * max < total,
            total <= n * max,
            i < n ==> from == i * max,
            i < n ==> from < total,
            1 <= data@.len() <= 0x1_0000,
            forall|j: int| 0 <= j < rects@.len() ==> is_rect(#[trigger] rects@[j]),
            want == records(
                *abi,
                (Order::WritePackedLarge { rects: rects@, addr: addr as int, data: data@ }),
            ),
            want.len() == n,
            blobs_view(out@) == want.take(i as int),
    {
        proof {
            assert((i + 1) * max == i * max + max) by (nonlinear_arith);
        }
        let to: usize = if total - from > max {
            from + max
        } else {
            total
        };
        assert(to == arith::min2((i + 1) * max, total as int));
        let record = build_large(abi, rects, from, to, addr, data);
        let ghost before = blobs_view(out@);
        out.push(record);
        proof {
            assert(blobs_view(out@) =~= before.push(record@));
            assert(want.take(i + 1) =~= want.take(i as int).push(want[i as int]));
            if i + 1 < n {
                assert((i + 1) * max <= (n - 1) * max) by (nonlinear_arith)
                    requires
                        i + 1 <= n - 1,
                        max > 0,
                ;
            }
        }
        from = to;
    }
    assert(want.take(n as int) =~= want);
    out
}

/// The start of a packed write with the place and the stride of its data.
pub(crate) fn write_packed_payload_header(
    abi: &CqAbi,
    cores: &Vec<CoreCoord>,
    addr: usize,
    blob_size: usize,
) -> (r: Result<(Vec<u8>, usize, usize), Error>)
    ensures
        match r {
            Ok((record, start, stride)) => {
                &&& packed_refusal(cores@.len() as int, addr as int, blob_size as int) is None
                &&& record@ == packed_header(*abi, cores@, addr as int, blob_size as int)
                &&& start == body_start(cores@.len() as int)
                &&& record@.len() == start
                &&& stride == arith::round_up(blob_size as int, 16)
                &&& cores@.len() <= u16::MAX
                &&& blob_size <= u16::MAX
            },
            Err(e) => packed_refusal(cores@.len() as int, addr as int, blob_size as int) == Some(
                e@,
            ),
        },
{
    let n: usize = cores.len();
    if n > 0xffff {
        return Err(other_error("too many CQ packed writes".to_owned()));
    }
    if blob_size > 0xffff {
        return Err(other_error("CQ packed write payload too large".to_owned()));
    }
    let word: u32 = narrow_address(addr, "CQ packed write address")?;
    let mut record = new_header(abi.write_packed);
    let ghost head = record@;
    push_u8(&mut record, abi.packed_flag_none);
    bytes::push_u16(&mut record, n as u16);
    bytes::push_u16(&mut record, 0);
    bytes::push_u16(&mut record, blob_size as u16);
    bytes::push_u32(&mut record, word);
    assert(record@ =~= head + (seq![abi.packed_flag_none] + bytes::le2(n as int) + bytes::le2(0)
        + bytes::le2(blob_size as int) + bytes::le4(addr as int)));
    pad_vec_to(&mut record, 16);
    assert(record@.len() == 16);
    push_cores(&mut record, cores);
    proof {
        lemma_core_words(cores@, n as int);
        arith::lemma_round_up(16 + 4 * n, 16);
        arith::lemma_round_up(blob_size as int, 16);
    }
    align_record(&mut record);
    let start: usize = record.len();
    let stride: usize = (blob_size + 15) / 16 * 16;
    assert(stride == arith::round_up(blob_size as int, 16));
    Ok((record, start, stride))
}

fn push_blobs(record: &mut Vec<u8>, data: &Vec<Vec<u8>>)
    requires
        data@.len() > 0,
        uniform(blobs_view(data@)),
        data@[0]@.len() <= 0xffff,
    ensures
        final(record)@ == packed_body(
            old(record)@,
            blobs_view(data@),
            data@[0]@.len() as int,
            data@.len() as int,
        ),
{
    let ghost views = blobs_view(data@);
    let ghost start = record@;
    for i in 0..data.len()
        invariant
            views == blobs_view(data@),
            uniform(views),
            data@.len() > 0,
            data@[0]@.len() <= 0xffff,
            record@ == packed_body(start, views, data@[0]@.len() as int, i as int),
    {
        assert(views[i as int] == data@[i as int]@);
        assert(views[i as int].len() == views[0].len());
        push_aligned(record, data[i].as_slice());
    }
}

/// Whether all byte strings have the length of the first.
pub fn is_uniform(data: &[Vec<u8>]) -> (r: bool)
    ensures
        r == uniform(blobs_view(data@)),
{
    let ghost views = blobs_view(data@);
    for i in 0..data.len()
        invariant
            views == blobs_view(data@),
            forall|j: int| 0 <= j < i ==> (#[trigger] views[j]).len() == views[0].len(),
    {
        assert(views[i as int] == data@[i as int]@);
        assert(views[0] == data@[0]@);
        if data[i].len() != data[0].len() {
            return false;
        }
    }
    true
}

fn one_record(record: Vec<u8>) -> (r: Vec<Vec<u8>>)
    ensures
        blobs_view(r@) == seq![record@],
{
    let mut out: Vec<Vec<u8>> = Vec::new();
    out.push(record);
    assert(blobs_view(out@) =~= seq![record@]);
    out
}

/// Encodes an event for the host.
pub fn event(abi: &CqAbi, id: u32) -> (r: Vec<u8>)
    ensures
        r@ == event_record(*abi, id),
        r@.len() == 32,
{
    let mut payload: Vec<u8> = Vec::new();
    bytes::push_u32(&mut payload, id);
    assert(payload@ =~= bytes::le4(id as int));
    pad_vec_to(&mut payload, 16);
    let mut record = new_header(abi.write_linear_h_host);
    let ghost head = record@;
    push_u8(&mut record, 1);
    bytes::push_u16(&mut record, 0);
    bytes::push_u32(&mut record, 0);
    bytes::push_u64(&mut record, 32);
    assert(record@ =~= head + (seq![1u8] + bytes::le2(0) + bytes::le4(0) + bytes::le8(32)));
    pad_vec_to(&mut record, 16);
    bytes::append(&mut record, payload.as_slice());
    record
}

impl CqCommand {
    /// Encodes a command.
    pub fn to_records(&self, abi: &CqAbi) -> (r: Result<Vec<Vec<u8>>, Error>)
        requires
            abi.packed_large_max_sub_cmds > 0,
            buildable(self@),
        ensures
            match r {
                Ok(v) => order_refusal(self@) is None && blobs_view(v@) == records(*abi, self@),
                Err(e) => order_refusal(self@) == Some(e@),
            },
    {
        match self {
            CqCommand::WritePackedLarge { rects, addr, data } => {
                if rects.len() == 0 {
                    let none: Vec<Vec<u8>> = Vec::new();
                    proof {
                        arith::lemma_ceil_div(0, abi.packed_large_max_sub_cmds as int);
                        assert(blobs_view(none@) =~= records(*abi, self@));
                    }
                    return Ok(none);
                }
                let word: u32 = narrow_address(*addr, "CQ write address")?;
                if data.len() == 0 {
                    return Err(error::invalid_text("CQ write data must not be empty"));
                }
                if data.len() > 0x1_0000 {
                    return Err(other_error("CQ write payload too large".to_owned()));
                }
                Ok(large_records(abi, rects, word, data))
            },
            CqCommand::WritePacked { cores, addr, data } => {
                if cores.len() != data.len() {
                    return Err(
                        error::invalid_input(
                            text::cat4(
                                "packed write core/data length mismatch: ",
                                text::decimal_usize(cores.len()).as_str(),
                                " != ",
                                text::decimal_usize(data.len()).as_str(),
                            ),
                        ),
                    );
                }
                if data.len() == 0 {
                    let none: Vec<Vec<u8>> = Vec::new();
                    assert(blobs_view(none@) =~= Seq::empty());
                    return Ok(none);
                }
                if !is_uniform(data.as_slice()) {
                    return Err(error::invalid_text("packed write blobs must have a uniform size"));
                }
                assert(blobs_view(data@)[0] == data@[0]@);
                let (mut record, _, _) = write_packed_payload_header(
                    abi,
                    cores,
                    *addr,
                    data[0].len(),
                )?;
                push_blobs(&mut record, data);
                Ok(one_record(record))
            },
            CqCommand::SetGoSignalNocData { cores } => {
                let mut record = new_header(abi.set_go_signal_noc_data);
                let ghost head = record@;
                push_u8(&mut record, 0);
                bytes::push_u16(&mut record, 0);
                push_len(&mut record, cores.len());
                assert(record@ =~= head + (seq![0u8] + bytes::le2(0) + bytes::le4(
                    cores@.len() as int,
                )));
                pad_vec_to(&mut record, 16);
                push_cores(&mut record, cores);
                Ok(one_record(record))
            },
            CqCommand::SendGoSignal { go_word, stream, count, num_unicast } => {
                let mut record = new_header(abi.send_go_signal);
                let ghost head = record@;
                bytes::push_u32(&mut record, *go_word);
                push_u8(&mut record, abi.go_no_multicast_offset);
                push_u8(&mut record, *num_unicast);
                push_u8(&mut record, 0);
                bytes::push_u32(&mut record, *count);
                bytes::push_u32(&mut record, *stream as u32);
                assert(record@ =~= head + (bytes::le4(*go_word as int) + seq![
                    abi.go_no_multicast_offset,
                    *num_unicast,
                    0u8,
                ] + bytes::le4(*count as int) + bytes::le4(*stream as int)));
                pad_vec_to(&mut record, 16);
                Ok(one_record(record))
            },
            CqCommand::WaitStream { stream, count, clear } => {
                let flags: u8 = if *clear {
                    abi.wait_flag_wait_stream | abi.wait_flag_clear_stream
                } else {
                    abi.wait_flag_wait_stream | 0u8
                };
                let mut record = new_header(abi.wait);
                let ghost head = record@;
                push_u8(&mut record, flags);
                bytes::push_u16(&mut record, *stream);
                bytes::push_u32(&mut record, 0);
                bytes::push_u32(&mut record, *count);
                assert(record@ =~= head + (seq![flags] + bytes::le2(*stream as int) + bytes::le4(0)
                    + bytes::le4(*count as int)));
                pad_vec_to(&mut record, 16);
                Ok(one_record(record))
            },
            CqCommand::HostEvent(id) => {
                let record = event(abi, *id);
                Ok(one_record(record))
            },
        }
    }
}

} // verus!
