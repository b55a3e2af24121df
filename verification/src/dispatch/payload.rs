//! The memory image of a core: circular buffers, kernels and the launch message.

use vstd::prelude::*;
use crate::arith;
use crate::bytes;
use crate::compiler::CompiledKernel;
use crate::convert;
use crate::dispatch::{CBConfig, DevMsgs, Program, L1_ALIGN};
use crate::error;
use crate::error::{Error, ErrorKind};
use crate::hw::TensixL1;
use crate::text;

verus! {

/// First circular buffer index that is kept for the command queue.
pub const FAST_CQ_NUM_CIRCULAR_BUFFERS: u8 = 32;

/// Bytes of a circular buffer.
pub open spec fn cb_size(cb: CBConfig) -> int {
    cb.dtype.tile_bytes() * cb.tiles
}

/// Address of buffer `n`: the buffers follow each other in the order in which they are listed.
pub open spec fn cb_addr(cbs: Seq<CBConfig>, n: int) -> int
    decreases n,
{
    if n <= 0 {
        0x37000
    } else {
        cb_addr(cbs, n - 1) + cb_size(cbs[n - 1])
    }
}

/// Why the index of buffer `i` is refused.
pub open spec fn cb_index_checks(cbs: Seq<CBConfig>) -> spec_fn(int) -> Option<error::Refusal> {
    |i: int|
        if cbs[i].index >= 32 {
            Some(
                error::invalid(
                    "circular buffer index "@ + text::dec(cbs[i].index as int)
                        + " is out of range"@,
                ),
            )
        } else {
            None
        }
}

/// Why the size of buffer `i` is refused.
pub open spec fn cb_size_checks(cbs: Seq<CBConfig>) -> spec_fn(int) -> Option<error::Refusal> {
    |i: int|
        if cbs[i].tiles > u32::MAX {
            convert::u32_refusal(cbs[i].tiles as int, "circular buffer tile count"@)
        } else if cb_size(cbs[i]) > u32::MAX {
            Some((ErrorKind::Other, "circular buffer size overflow"@))
        } else if cb_addr(cbs, i + 1) > u32::MAX {
            Some((ErrorKind::Other, "circular buffer address overflow"@))
        } else {
            None
        }
}

/// Why a list of circular buffers is refused.
pub open spec fn cb_refusal(cbs: Seq<CBConfig>) -> Option<error::Refusal> {
    let n = cbs.len() as int;
    if error::first_refusal(0, n, cb_index_checks(cbs)) is Some {
        error::first_refusal(0, n, cb_index_checks(cbs))
    } else {
        error::first_refusal(0, n, cb_size_checks(cbs))
    }
}

/// One bit for each of the first `n` buffers.
pub open spec fn cb_mask(cbs: Seq<CBConfig>, n: int) -> u32
    decreases n,
{
    if n <= 0 {
        0
    } else {
        cb_mask(cbs, n - 1) | (1u32 << (cbs[n - 1].index as u32))
    }
}

/// One more than the largest index among the first `n` buffers.
pub open spec fn cb_entries(cbs: Seq<CBConfig>, n: int) -> int
    decreases n,
{
    if n <= 0 {
        0
    } else {
        arith::max2(cb_entries(cbs, n - 1), cbs[n - 1].index + 1)
    }
}

/// The table of buffers, four words each: address, size, tiles and page size.
pub open spec fn cb_words(cbs: Seq<CBConfig>, entries: int, n: int) -> Seq<u32>
    decreases n,
{
    if n <= 0 {
        Seq::new((4 * entries) as nat, |i: int| 0u32)
    } else {
        let cb = cbs[n - 1];
        let at = 4 * cb.index as int;
        cb_words(cbs, entries, n - 1).update(at, cb_addr(cbs, n - 1) as u32).update(
            at + 1,
            cb_size(cb) as u32,
        ).update(at + 2, cb.tiles as u32).update(at + 3, cb.dtype.tile_bytes() as u32)
    }
}

/// The bytes of the table of buffers.
pub open spec fn cb_table(cbs: Seq<CBConfig>) -> Seq<u8> {
    bytes::words_le(cb_words(cbs, cb_entries(cbs, cbs.len() as int), cbs.len() as int))
}

pub(crate) proof fn lemma_cb_entries(cbs: Seq<CBConfig>, n: int, i: int)
    requires
        0 <= i < n <= cbs.len(),
    ensures
        cbs[i].index < cb_entries(cbs, n),
    decreases n,
{
    if i < n - 1 {
        lemma_cb_entries(cbs, n - 1, i);
    }
}

pub(crate) proof fn lemma_cb_words_len(cbs: Seq<CBConfig>, entries: int, n: int)
    requires
        entries >= 0,
        n <= cbs.len(),
        forall|i: int| 0 <= i < n ==> (#[trigger] cbs[i]).index < entries,
    ensures
        cb_words(cbs, entries, n).len() == 4 * entries,
    decreases n,
{
    if n > 0 {
        lemma_cb_words_len(cbs, entries, n - 1);
    }
}

/// Lays out the circular buffers: which are used, and their table.
pub fn build_cb_blob(program: &Program) -> (r: Result<(u32, Vec<u8>), Error>)
    ensures
        match r {
            Ok((mask, blob)) => {
                &&& cb_refusal(program.cbs@) is None
                &&& mask == cb_mask(program.cbs@, program.cbs@.len() as int)
                &&& blob@ == cb_table(program.cbs@)
                &&& blob@.len() <= 512
            },
            Err(e) => cb_refusal(program.cbs@) == Some(e@),
        },
{
    let n: usize = program.cbs.len();
    let ghost cbs = program.cbs@;
    let mut mask: u32 = 0;
    let mut entries: usize = 0;
    for i in 0..n
        invariant
            n == cbs.len(),
            cbs == program.cbs@,
            mask == cb_mask(cbs, i as int),
            entries == cb_entries(cbs, i as int),
            entries <= 32,
            forall|j: int| 0 <= j < i ==> #[trigger] cb_index_checks(cbs)(j) is None,
    {
        let index: usize = program.cbs[i].index;
        if index >= 32 {
            proof {
                error::lemma_first_refusal_skip(0, i as int, n as int, cb_index_checks(cbs));
            }
            return Err(
                error::invalid_input(
                    text::cat3(
                        "circular buffer index ",
                        text::decimal_usize(index).as_str(),
                        " is out of range",
                    ),
                ),
            );
        }
        mask = mask | (1u32 << (index as u32));
        entries = arith::max_usize(entries, index + 1);
    }
    proof {
        error::lemma_first_refusal_none(0, n as int, cb_index_checks(cbs));
        lemma_cb_words_len(cbs, entries as int, 0);
    }
    let mut words: Vec<u32> = vec![0u32; 4 * entries];
    assert(words@ =~= cb_words(cbs, entries as int, 0));
    let mut next_addr: u32 = TensixL1::DATA_BUFFER_SPACE_BASE;
    for i in 0..n
        invariant
            n == cbs.len(),
            cbs == program.cbs@,
            entries == cb_entries(cbs, n as int),
            entries <= 32,
            next_addr == cb_addr(cbs, i as int),
            words@ == cb_words(cbs, entries as int, i as int),
            forall|j: int| 0 <= j < n ==> #[trigger] cb_index_checks(cbs)(j) is None,
            forall|j: int| 0 <= j < i ==> #[trigger] cb_size_checks(cbs)(j) is None,
            error::first_refusal(0, n as int, cb_index_checks(cbs)) is None,
    {
        let cb: CBConfig = program.cbs[i];
        proof {
            error::lemma_first_refusal_skip(0, i as int, n as int, cb_size_checks(cbs));
            lemma_cb_entries(cbs, n as int, i as int);
            assert forall|j: int| 0 <= j < n implies (#[trigger] cbs[j]).index < entries by {
                lemma_cb_entries(cbs, n as int, j);
            }
            lemma_cb_words_len(cbs, entries as int, i as int);
            assert(cb_index_checks(cbs)(i as int) is None);
            assert(cb_size_checks(cbs)(i as int) is Some ==> cb_refusal(cbs) == cb_size_checks(
                cbs,
            )(i as int));
            assert(cb_addr(cbs, i + 1) == cb_addr(cbs, i as int) + cb_size(cb));
        }
        let page_size: u32 = cb.dtype.tile_size() as u32;
        let tiles: u32 = convert::to_u32(cb.tiles, "circular buffer tile count")?;
        let size: u32 = match page_size.checked_mul(tiles) {
            Some(size) => size,
            None => {
                return Err(
                    Error::new(ErrorKind::Other, "circular buffer size overflow".to_owned()),
                );
            },
        };
        let addr: u32 = next_addr;
        next_addr =
        match next_addr.checked_add(size) {
            Some(next) => next,
            None => {
                return Err(
                    Error::new(ErrorKind::Other, "circular buffer address overflow".to_owned()),
                );
            },
        };
        words.set(4 * cb.index, addr);
        words.set(4 * cb.index + 1, size);
        words.set(4 * cb.index + 2, tiles);
        words.set(4 * cb.index + 3, page_size);
        assert(cb_size_checks(cbs)(i as int) is None);
    }
    proof {
        error::lemma_first_refusal_none(0, n as int, cb_size_checks(cbs));
        assert forall|j: int| 0 <= j < n implies (#[trigger] cbs[j]).index < entries by {
            lemma_cb_entries(cbs, n as int, j);
        }
        lemma_cb_words_len(cbs, entries as int, n as int);
    }
    let mut blob: Vec<u8> = Vec::new();
    bytes::push_words(&mut blob, words.as_slice());
    assert(blob@ =~= cb_table(cbs));
    Ok((mask, blob))
}

/// Five kernel slots: the address of the arguments of each, and that of the common arguments.
pub open spec fn rta_table(writer: int, reader: int, compute: int, common: int) -> Seq<u8> {
    bytes::le2(writer) + bytes::le2(common) + bytes::le2(reader) + bytes::le2(common) + bytes::le2(
        compute,
    ) + bytes::le2(common) + bytes::le2(compute) + bytes::le2(common) + bytes::le2(compute)
        + bytes::le2(common)
}

/// The message that starts the kernels of a core.
pub open spec fn launch_bytes(
    sem_off: int,
    local_cb_off: int,
    remote_cb_off: int,
    rta_offsets: Seq<usize>,
    text_offsets: Seq<u32>,
    local_cb_mask: u32,
    enables: u32,
    host_assigned_id: u32,
) -> Seq<u8> {
    Seq::empty() + bytes::le4(0x86B0) + bytes::le4(0x86B0) + bytes::le4(0x86B0) + bytes::le2(
        sem_off,
    ) + bytes::le2(sem_off) + bytes::le2(sem_off) + bytes::le2(local_cb_off) + bytes::le2(
        remote_cb_off,
    ) + rta_table(
        rta_offsets[0] as int,
        rta_offsets[1] as int,
        rta_offsets[2] as int,
        local_cb_off,
    ) + seq![1u8, 0u8] + bytes::words_le(text_offsets) + bytes::le4(local_cb_mask as int) + seq![
        1u8,
        0u8,
        32u8,
        0u8,
    ] + bytes::le4(host_assigned_id as int) + bytes::le4(enables as int) + bytes::zeros(16)
}

/// Why a launch message cannot be written.
pub open spec fn launch_refusal(
    sem_off: int,
    local_cb_off: int,
    remote_cb_off: int,
    rta_offsets: Seq<usize>,
) -> Option<error::Refusal> {
    if sem_off > u16::MAX {
        convert::u16_refusal(sem_off, "sem_offset"@)
    } else if local_cb_off > u16::MAX {
        convert::u16_refusal(local_cb_off, "local_cb_offset"@)
    } else if remote_cb_off > u16::MAX {
        convert::u16_refusal(remote_cb_off, "remote_cb_offset"@)
    } else if rta_offsets[0] > u16::MAX {
        convert::u16_refusal(rta_offsets[0] as int, "writer rta offset"@)
    } else if rta_offsets[1] > u16::MAX {
        convert::u16_refusal(rta_offsets[1] as int, "reader rta offset"@)
    } else {
        convert::u16_refusal(rta_offsets[2] as int, "compute rta offset"@)
    }
}

fn rta_bytes(writer: u16, reader: u16, compute: u16, common: u16) -> (r: Vec<u8>)
    ensures
        r@ == rta_table(writer as int, reader as int, compute as int, common as int),
{
    let mut out: Vec<u8> = Vec::new();
    bytes::push_u16(&mut out, writer);
    assert(out@ =~= bytes::le2(writer as int));
    bytes::push_u16(&mut out, common);
    bytes::push_u16(&mut out, reader);
    bytes::push_u16(&mut out, common);
    bytes::push_u16(&mut out, compute);
    bytes::push_u16(&mut out, common);
    bytes::push_u16(&mut out, compute);
    bytes::push_u16(&mut out, common);
    bytes::push_u16(&mut out, compute);
    bytes::push_u16(&mut out, common);
    out
}

/// Writes a launch message of ninety-six bytes.
pub fn serialize_launch(
    sem_off: usize,
    local_cb_off: usize,
    remote_cb_off: usize,
    rta_offsets: [usize; 3],
    text_offsets: &[u32],
    local_cb_mask: u32,
    enables: u32,
    host_assigned_id: u32,
) -> (r: Result<Vec<u8>, Error>)
    requires
        text_offsets@.len() == 5,
    ensures
        match r {
            Ok(out) => {
                &&& launch_refusal(
                    sem_off as int,
                    local_cb_off as int,
                    remote_cb_off as int,
                    rta_offsets@,
                ) is None
                &&& out@ == launch_bytes(
                    sem_off as int,
                    local_cb_off as int,
                    remote_cb_off as int,
                    rta_offsets@,
                    text_offsets@,
                    local_cb_mask,
                    enables,
                    host_assigned_id,
                )
                &&& out@.len() == 96
            },
            Err(e) => launch_refusal(
                sem_off as int,
                local_cb_off as int,
                remote_cb_off as int,
                rta_offsets@,
            ) == Some(e@),
        },
{
    let sem: u16 = convert::to_u16(sem_off, "sem_offset")?;
    let local: u16 = convert::to_u16(local_cb_off, "local_cb_offset")?;
    let remote: u16 = convert::to_u16(remote_cb_off, "remote_cb_offset")?;
    let writer: u16 = convert::to_u16(rta_offsets[0], "writer rta offset")?;
    let reader: u16 = convert::to_u16(rta_offsets[1], "reader rta offset")?;
    let compute: u16 = convert::to_u16(rta_offsets[2], "compute rta offset")?;
    let mut out: Vec<u8> = Vec::new();
    bytes::push_u32(&mut out, TensixL1::KERNEL_CONFIG_BASE);
    bytes::push_u32(&mut out, TensixL1::KERNEL_CONFIG_BASE);
    bytes::push_u32(&mut out, TensixL1::KERNEL_CONFIG_BASE);
    bytes::push_u16(&mut out, sem);
    bytes::push_u16(&mut out, sem);
    bytes::push_u16(&mut out, sem);
    bytes::push_u16(&mut out, local);
    bytes::push_u16(&mut out, remote);
    bytes::append(&mut out, rta_bytes(writer, reader, compute, local).as_slice());
    let mode: [u8; 2] = [DevMsgs::DISPATCH_MODE_HOST, 0];
    assert(mode@ =~= seq![1u8, 0u8]);
    bytes::append(&mut out, &mode);
    bytes::push_words(&mut out, text_offsets);
    bytes::push_u32(&mut out, local_cb_mask);
    let noc: [u8; 4] = [1, 0, FAST_CQ_NUM_CIRCULAR_BUFFERS, 0];
    assert(noc@ =~= seq![1u8, 0u8, 32u8, 0u8]);
    bytes::append(&mut out, &noc);
    bytes::push_u32(&mut out, host_assigned_id);
    bytes::push_u32(&mut out, enables);
    let rest: [u8; 16] = [0; 16];
    assert(rest@ =~= bytes::zeros(16));
    bytes::append(&mut out, &rest);
    Ok(out)
}

/// The kernels of a core in the order in which they are placed, each with its slot.
pub open spec fn image_list(
    writer: Option<Seq<u8>>,
    reader: Option<Seq<u8>>,
    compute: Option<(Seq<u8>, Seq<u8>, Seq<u8>)>,
) -> Seq<(int, Seq<u8>)> {
    let w = if writer is Some {
        seq![(0int, writer->0)]
    } else {
        Seq::empty()
    };
    let wr = if reader is Some {
        w.push((1int, reader->0))
    } else {
        w
    };
    if compute is Some {
        wr.push((2int, (compute->0).0)).push((3int, (compute->0).1)).push((4int, (compute->0).2))
    } else {
        wr
    }
}

/// Where kernel `n` starts: the kernels follow each other, each aligned.
pub open spec fn text_offset(images: Seq<(int, Seq<u8>)>, base: int, n: int) -> int
    decreases n,
{
    if n <= 0 {
        base
    } else {
        arith::round_up(text_offset(images, base, n - 1) + images[n - 1].1.len(), 16)
    }
}

/// The offset of each of the five slots after `n` kernels were placed.
pub open spec fn slot_offsets(images: Seq<(int, Seq<u8>)>, base: int, n: int) -> Seq<u32>
    decreases n,
{
    if n <= 0 {
        seq![0u32, 0u32, 0u32, 0u32, 0u32]
    } else {
        slot_offsets(images, base, n - 1).update(
            images[n - 1].0,
            text_offset(images, base, n - 1) as u32,
        )
    }
}

/// One bit for each slot that holds one of the first `n` kernels.
pub open spec fn slot_mask(images: Seq<(int, Seq<u8>)>, n: int) -> u32
    decreases n,
{
    if n <= 0 {
        0
    } else {
        slot_mask(images, n - 1) | (1u32 << (images[n - 1].0 as u32))
    }
}

/// The image after the table of buffers and the first `n` kernels were written.
pub open spec fn shared_image(
    images: Seq<(int, Seq<u8>)>,
    cb: Seq<u8>,
    local: int,
    base: int,
    n: int,
) -> Seq<u8>
    decreases n,
{
    if n <= 0 {
        bytes::overwritten(
            bytes::zeros(text_offset(images, base, images.len() as int) - local),
            0,
            cb,
        )
    } else {
        bytes::overwritten(
            shared_image(images, cb, local, base, n - 1),
            text_offset(images, base, n - 1) - local,
            images[n - 1].1,
        )
    }
}

/// Why kernel `i` cannot be placed.
pub open spec fn placement_checks(images: Seq<(int, Seq<u8>)>, base: int) -> spec_fn(int) -> Option<
    error::Refusal,
> {
    |i: int|
        if text_offset(images, base, i) > u32::MAX {
            convert::u32_refusal(text_offset(images, base, i), "kernel_text_offset"@)
        } else if text_offset(images, base, i + 1) > usize::MAX {
            Some((ErrorKind::Other, "kernel payload overflow"@))
        } else {
            None
        }
}

/// Offset of the circular buffer table: behind the semaphores.
pub open spec fn local_cb_offset(sem_off: int, semaphores: int) -> int {
    arith::round_up(sem_off + semaphores * 16, 16)
}

/// Why the image of a core cannot be laid out.
pub open spec fn payload_refusal(
    cbs: Seq<CBConfig>,
    semaphores: int,
    images: Seq<(int, Seq<u8>)>,
    rta_offsets: Seq<usize>,
    sem_off: int,
) -> Option<error::Refusal> {
    let local = local_cb_offset(sem_off, semaphores);
    let remote = local + cb_table(cbs).len();
    let base = arith::round_up(remote, 16);
    let n = images.len() as int;
    if local > usize::MAX {
        Some((ErrorKind::Other, "local CB offset overflow"@))
    } else if cb_refusal(cbs) is Some {
        cb_refusal(cbs)
    } else if base > usize::MAX {
        Some((ErrorKind::Other, "remote CB offset overflow"@))
    } else if error::first_refusal(0, n, placement_checks(images, base)) is Some {
        error::first_refusal(0, n, placement_checks(images, base))
    } else if local > u32::MAX {
        convert::u32_refusal(local, "shared payload address"@)
    } else if 0x86B0 + local > u32::MAX {
        Some((ErrorKind::Other, "shared payload address overflow"@))
    } else {
        launch_refusal(sem_off, local, remote, rta_offsets)
    }
}

/// The image of a core behind its arguments and semaphores.
pub open spec fn payload_shared(
    cbs: Seq<CBConfig>,
    semaphores: int,
    images: Seq<(int, Seq<u8>)>,
    sem_off: int,
) -> Seq<u8> {
    let local = local_cb_offset(sem_off, semaphores);
    let cb = cb_table(cbs);
    shared_image(images, cb, local, arith::round_up(local + cb.len(), 16), images.len() as int)
}

/// The launch message that goes with the image of a core.
pub open spec fn payload_launch(
    cbs: Seq<CBConfig>,
    semaphores: int,
    images: Seq<(int, Seq<u8>)>,
    rta_offsets: Seq<usize>,
    sem_off: int,
    host_assigned_id: u32,
) -> Seq<u8> {
    let local = local_cb_offset(sem_off, semaphores);
    let remote = local + cb_table(cbs).len();
    let n = images.len() as int;
    launch_bytes(
        sem_off,
        local,
        remote,
        rta_offsets,
        slot_offsets(images, arith::round_up(remote, 16), n),
        cb_mask(cbs, cbs.len() as int),
        slot_mask(images, n),
        host_assigned_id,
    )
}

pub(crate) proof fn lemma_text_offset_grows(images: Seq<(int, Seq<u8>)>, base: int, i: int, n: int)
    requires
        base >= 0,
        0 <= i <= n <= images.len(),
    ensures
        base <= text_offset(images, base, i) <= text_offset(images, base, n),
        i < n ==> text_offset(images, base, i) + images[i].1.len() <= text_offset(images, base, n),
    decreases n,
{
    if i < n {
        lemma_text_offset_grows(images, base, i, n - 1);
        arith::lemma_round_up(
            text_offset(images, base, n - 1) + images[n - 1].1.len(),
            16,
        );
        if i == n - 1 {
        }
    } else if i > 0 {
        lemma_text_offset_grows(images, base, i - 1, i - 1);
        arith::lemma_round_up(
            text_offset(images, base, i - 1) + images[i - 1].1.len(),
            16,
        );
    }
}

pub(crate) proof fn lemma_shared_len(
    images: Seq<(int, Seq<u8>)>,
    cb: Seq<u8>,
    local: int,
    base: int,
    n: int,
)
    ensures
        shared_image(images, cb, local, base, n).len() == bytes::zeros(
            text_offset(images, base, images.len() as int) - local,
        ).len(),
    decreases n,
{
    if n > 0 {
        lemma_shared_len(images, cb, local, base, n - 1);
    }
}

pub open spec fn image_of(k: Option<&CompiledKernel>) -> Option<Seq<u8>> {
    match k {
        Some(k) => Some(k.xip@),
        None => None,
    }
}

pub open spec fn images_of(k: Option<&(CompiledKernel, CompiledKernel, CompiledKernel)>) -> Option<
    (Seq<u8>, Seq<u8>, Seq<u8>),
> {
    match k {
        Some(k) => Some((k.0.xip@, k.1.xip@, k.2.xip@)),
        None => None,
    }
}

/// The list of kernels as it is walked when they are placed.
pub open spec fn is_listing(
    slots: Seq<usize>,
    kernels: Seq<&CompiledKernel>,
    images: Seq<(int, Seq<u8>)>,
) -> bool {
    &&& slots.len() == images.len()
    &&& kernels.len() == images.len()
    &&& forall|i: int|
        0 <= i < images.len() ==> slots[i] == (#[trigger] images[i]).0 && slots[i] < 5
            && kernels[i].xip@ == images[i].1
}

/// Lays out the image of a core: its address, its bytes and its launch message.
#[verifier::rlimit(60)]
pub fn build_payload(
    program: &Program,
    reader: Option<&CompiledKernel>,
    writer: Option<&CompiledKernel>,
    compute: Option<&(CompiledKernel, CompiledKernel, CompiledKernel)>,
    rta_sizes: (usize, usize, usize),
    sem_off: usize,
    host_assigned_id: u32,
) -> (r: Result<(u32, Vec<u8>, Vec<u8>), Error>)
    requires
        rta_sizes.0 + rta_sizes.1 <= usize::MAX,
        program.semaphores * 16 <= usize::MAX,
    ensures
        ({
            let images = image_list(image_of(writer), image_of(reader), images_of(compute));
            let rta_offsets = seq![0usize, rta_sizes.0, (rta_sizes.0 + rta_sizes.1) as usize];
            let semaphores = program.semaphores as int;
            match r {
                Ok((addr, shared, launch)) => {
                    &&& payload_refusal(
                        program.cbs@,
                        semaphores,
                        images,
                        rta_offsets,
                        sem_off as int,
                    ) is None
                    &&& addr == 0x86B0 + local_cb_offset(sem_off as int, semaphores)
                    &&& shared@ == payload_shared(
                        program.cbs@,
                        semaphores,
                        images,
                        sem_off as int,
                    )
                    &&& launch@ == payload_launch(
                        program.cbs@,
                        semaphores,
                        images,
                        rta_offsets,
                        sem_off as int,
                        host_assigned_id,
                    )
                },
                Err(e) => payload_refusal(
                    program.cbs@,
                    semaphores,
                    images,
                    rta_offsets,
                    sem_off as int,
                ) == Some(e@),
            }
        }),
{
    let rta_offsets: [usize; 3] = [0, rta_sizes.0, rta_sizes.0 + rta_sizes.1];
    let ghost images = image_list(image_of(writer), image_of(reader), images_of(compute));
    let ghost rtas = seq![0usize, rta_sizes.0, (rta_sizes.0 + rta_sizes.1) as usize];
    assert(rta_offsets@ =~= rtas);
    proof {
        arith::lemma_round_up(sem_off + program.semaphores * 16, 16);
    }
    let local: usize = match sem_off.checked_add(program.semaphores * L1_ALIGN) {
        Some(end) => match arith::checked_round_up(end, L1_ALIGN) {
            Some(v) => v,
            None => {
                return Err(Error::new(ErrorKind::Other, "local CB offset overflow".to_owned()));
            },
        },
        None => {
            return Err(Error::new(ErrorKind::Other, "local CB offset overflow".to_owned()));
        },
    };
    let (local_cb_mask, cb_blob) = build_cb_blob(program)?;
    let ghost cb = cb_table(program.cbs@);
    proof {
        arith::lemma_round_up(local + cb.len(), 16);
    }
    let remote: usize = match local.checked_add(cb_blob.len()) {
        Some(v) => v,
        None => {
            return Err(Error::new(ErrorKind::Other, "remote CB offset overflow".to_owned()));
        },
    };
    let base: usize = match arith::checked_round_up(remote, L1_ALIGN) {
        Some(v) => v,
        None => {
            return Err(Error::new(ErrorKind::Other, "remote CB offset overflow".to_owned()));
        },
    };
    let mut slots: Vec<usize> = Vec::new();
    let mut kernels: Vec<&CompiledKernel> = Vec::new();
    if let Some(k) = writer {
        slots.push(0);
        kernels.push(k);
    }
    if let Some(k) = reader {
        slots.push(1);
        kernels.push(k);
    }
    if let Some(k) = compute {
        slots.push(2);
        kernels.push(&k.0);
        slots.push(3);
        kernels.push(&k.1);
        slots.push(4);
        kernels.push(&k.2);
    }
    assert(is_listing(slots@, kernels@, images));
    let n: usize = kernels.len();
    let mut offsets: Vec<u32> = vec![0u32; 5];
    assert(offsets@ =~= seq![0u32, 0u32, 0u32, 0u32, 0u32]);
    let mut enables: u32 = 0;
    let mut kernel_off: usize = base;
    for i in 0..n
        invariant
            n == images.len(),
            is_listing(slots@, kernels@, images),
            kernel_off == text_offset(images, base as int, i as int),
            offsets@ == slot_offsets(images, base as int, i as int),
            offsets@.len() == 5,
            enables == slot_mask(images, i as int),
            forall|j: int| 0 <= j < i ==> #[trigger] placement_checks(images, base as int)(j) is None,
            local == local_cb_offset(sem_off as int, program.semaphores as int),
            images == image_list(image_of(writer), image_of(reader), images_of(compute)),
            base == arith::round_up(local + cb_table(program.cbs@).len(), 16),
            cb_refusal(program.cbs@) is None,
    {
        proof {
            error::lemma_first_refusal_skip(
                0,
                i as int,
                n as int,
                placement_checks(images, base as int),
            );
            assert(images[i as int].0 == slots@[i as int]);
            arith::lemma_round_up(kernel_off + images[i as int].1.len(), 16);
        }
        let slot: usize = slots[i];
        let offset: u32 = convert::to_u32(kernel_off, "kernel_text_offset")?;
        offsets.set(slot, offset);
        kernel_off =
        match kernel_off.checked_add(kernels[i].xip.len()) {
            Some(end) => match arith::checked_round_up(end, L1_ALIGN) {
                Some(v) => v,
                None => {
                    return Err(Error::new(ErrorKind::Other, "kernel payload overflow".to_owned()));
                },
            },
            None => {
                return Err(Error::new(ErrorKind::Other, "kernel payload overflow".to_owned()));
            },
        };
        enables = enables | (1u32 << (slot as u32));
        assert(placement_checks(images, base as int)(i as int) is None);
    }
    proof {
        error::lemma_first_refusal_none(0, n as int, placement_checks(images, base as int));
        lemma_text_offset_grows(images, base as int, 0, n as int);
    }
    let shared_len: usize = kernel_off - local;
    let mut shared: Vec<u8> = vec![0u8; shared_len];
    assert(shared@ =~= bytes::zeros(kernel_off - local));
    bytes::overwrite(&mut shared, 0, cb_blob.as_slice());
    for i in 0..n
        invariant
            n == images.len(),
            is_listing(slots@, kernels@, images),
            kernel_off == text_offset(images, base as int, n as int),
            local <= base,
            forall|j: int| 0 <= j < n ==> #[trigger] placement_checks(images, base as int)(j) is None,
            offsets@.len() == 5,
            offsets@ == slot_offsets(images, base as int, n as int),
            shared@ == shared_image(images, cb, local as int, base as int, i as int),
            shared@.len() == kernel_off - local,
            images == image_list(image_of(writer), image_of(reader), images_of(compute)),
    {
        proof {
            lemma_text_offset_grows(images, base as int, i as int, n as int);
            lemma_shared_len(images, cb, local as int, base as int, i + 1);
            lemma_slot_offset(images, base as int, i as int, n as int);
            assert(placement_checks(images, base as int)(i as int) is None);
            assert(images[i as int].0 == slots@[i as int]);
        }
        let start: usize = offsets[slots[i]] as usize - local;
        bytes::overwrite(&mut shared, start, kernels[i].xip.as_slice());
    }
    let local_u32: u32 = convert::to_u32(local, "shared payload address")?;
    let shared_addr: u32 = match TensixL1::KERNEL_CONFIG_BASE.checked_add(local_u32) {
        Some(v) => v,
        None => {
            return Err(Error::new(ErrorKind::Other, "shared payload address overflow".to_owned()));
        },
    };
    let launch = serialize_launch(
        sem_off,
        local,
        remote,
        rta_offsets,
        offsets.as_slice(),
        local_cb_mask,
        enables,
        host_assigned_id,
    )?;
    Ok((shared_addr, shared, launch))
}

/// Slots are used once each, so a slot keeps the offset of its kernel.
pub open spec fn distinct_slots(images: Seq<(int, Seq<u8>)>) -> bool {
    forall|i: int, j: int|
        0 <= i < j < images.len() ==> 0 <= #[trigger] images[i].0 < #[trigger] images[j].0 < 5
}

pub(crate) proof fn lemma_slot_offset(images: Seq<(int, Seq<u8>)>, base: int, i: int, n: int)
    requires
        0 <= i < n <= images.len(),
        forall|i: int| 0 <= i < images.len() ==> 0 <= (#[trigger] images[i]).0 < 5,
        distinct_slots(images),
    ensures
        slot_offsets(images, base, n).len() == 5,
        slot_offsets(images, base, n)[images[i].0] == text_offset(images, base, i) as u32,
    decreases n,
{
    lemma_slot_offsets_len(images, base, n - 1);
    if i < n - 1 {
        lemma_slot_offset(images, base, i, n - 1);
        assert(images[i].0 < images[n - 1].0);
    }
}

pub(crate) proof fn lemma_slot_offsets_len(images: Seq<(int, Seq<u8>)>, base: int, n: int)
    requires
        n <= images.len(),
        forall|i: int| 0 <= i < images.len() ==> 0 <= (#[trigger] images[i]).0 < 5,
    ensures
        slot_offsets(images, base, n).len() == 5,
    decreases n,
{
    if n > 0 {
        lemma_slot_offsets_len(images, base, n - 1);
    }
}

} // verus!
