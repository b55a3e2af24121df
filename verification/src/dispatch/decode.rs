//! What a core finds in its memory when it is started.

use vstd::prelude::*;
use crate::arith;
use crate::bytes;
use crate::cq;
use crate::dispatch;
use crate::dispatch::lowered;
use crate::dispatch::payload;
use crate::dispatch::plan;
use crate::dispatch::plan::{ProgramKernels, Step};
use crate::dispatch::{CBConfig, Program};
use crate::error;
use crate::hw::CoreCoord;
use crate::kernels::kernel;
use crate::kernels::kernel::{CoreArgs, RuntimeArgs};

verus! {

/// Where the fields of a launch message stand.
pub open spec fn argument_field(slot: int) -> int {
    22 + 4 * slot
}

pub open spec fn common_field(slot: int) -> int {
    24 + 4 * slot
}

pub open spec fn text_field(slot: int) -> int {
    44 + 4 * slot
}

/// Reading the fields of a launch message gives back what was put into them: the place of the
/// configuration, of the semaphores and of the tables of buffers, of the arguments and the code
/// of each processor, the buffers that are used, and the processors that run.
pub proof fn lemma_launch_fields(
    sem_off: int,
    local: int,
    remote: int,
    rta_offsets: Seq<usize>,
    text_offsets: Seq<u32>,
    mask: u32,
    enables: u32,
    id: u32,
)
    requires
        sem_off >= 0,
        local >= 0,
        remote >= 0,
        payload::launch_refusal(sem_off, local, remote, rta_offsets) is None,
        rta_offsets.len() == 3,
        text_offsets.len() == 5,
    ensures
        ({
            let l = payload::launch_bytes(
                sem_off,
                local,
                remote,
                rta_offsets,
                text_offsets,
                mask,
                enables,
                id,
            );
            &&& l.len() == 96
            &&& forall|i: int| 0 <= i < 3 ==> #[trigger] bytes::u32_at(l, 4 * i) == 0x86B0
            &&& forall|i: int| 0 <= i < 3 ==> #[trigger] bytes::u16_at(l, 12 + 2 * i) == sem_off
            &&& bytes::u16_at(l, 18) == local
            &&& bytes::u16_at(l, 20) == remote
            &&& bytes::u16_at(l, argument_field(0)) == rta_offsets[0]
            &&& bytes::u16_at(l, argument_field(1)) == rta_offsets[1]
            &&& forall|slot: int|
                2 <= slot < 5 ==> bytes::u16_at(l, #[trigger] argument_field(slot))
                    == rta_offsets[2]
            &&& forall|slot: int|
                0 <= slot < 5 ==> bytes::u16_at(l, #[trigger] common_field(slot)) == local
            &&& forall|slot: int|
                0 <= slot < 5 ==> bytes::u32_at(l, #[trigger] text_field(slot))
                    == text_offsets[slot]
            &&& bytes::u32_at(l, 64) == mask
            &&& l[70] == 32
            &&& bytes::u32_at(l, 72) == id
            &&& bytes::u32_at(l, 76) == enables
        }),
{
    let l = payload::launch_bytes(
        sem_off,
        local,
        remote,
        rta_offsets,
        text_offsets,
        mask,
        enables,
        id,
    );
    let (w, r, c) = (rta_offsets[0] as int, rta_offsets[1] as int, rta_offsets[2] as int);
    let head = Seq::<u8>::empty() + bytes::le4(0x86B0) + bytes::le4(0x86B0) + bytes::le4(0x86B0)
        + bytes::le2(sem_off) + bytes::le2(sem_off) + bytes::le2(sem_off) + bytes::le2(local)
        + bytes::le2(remote);
    let table = payload::rta_table(w, r, c, local);
    let text = bytes::words_le(text_offsets);
    let middle = head + table + seq![1u8, 0u8] + text;
    assert(head.len() == 22);
    assert(table.len() == 20);
    assert(text.len() == 20);
    assert(middle.len() == 64);
    bytes::lemma_u32_at_le4(0x86B0);
    bytes::lemma_u16_at_le2(sem_off as u16);
    bytes::lemma_u16_at_le2(local as u16);
    bytes::lemma_u16_at_le2(remote as u16);
    bytes::lemma_u16_at_le2(w as u16);
    bytes::lemma_u16_at_le2(r as u16);
    bytes::lemma_u16_at_le2(c as u16);
    bytes::lemma_u32_at_le4(mask);
    bytes::lemma_u32_at_le4(enables);
    bytes::lemma_u32_at_le4(id);
    let rest = bytes::le4(mask as int) + seq![1u8, 0u8, 32u8, 0u8] + bytes::le4(id as int)
        + bytes::le4(enables as int) + bytes::zeros(16);
    assert(l =~= middle + rest);
    assert(rest.subrange(0, 4) =~= bytes::le4(mask as int));
    assert(rest.subrange(8, 12) =~= bytes::le4(id as int));
    assert(rest.subrange(12, 16) =~= bytes::le4(enables as int));
    assert(l.subrange(0, 22) =~= head);
    assert(l.subrange(22, 42) =~= table);
    assert(l.subrange(44, 64) =~= text);
    assert(l.subrange(64, 96) =~= rest);
    lemma_same_words(l, rest, 64);
    lemma_same_words(l, head, 0);
    lemma_same_words(l, table, 22);
    lemma_same_words(l, text, 44);
    assert forall|i: int| 0 <= i < 3 implies #[trigger] bytes::u32_at(l, 4 * i) == 0x86B0 by {
        assert(head.subrange(4 * i, 4 * i + 4) =~= bytes::le4(0x86B0));
        lemma_word_of(head, 4 * i);
        assert(bytes::u32_at(head, 4 * i) == 0x86B0);
    }
    assert forall|i: int| 0 <= i < 3 implies #[trigger] bytes::u16_at(l, 12 + 2 * i) == sem_off by {
        assert(head.subrange(12 + 2 * i, 14 + 2 * i) =~= bytes::le2(sem_off));
        lemma_short_of(head, 12 + 2 * i);
        assert(bytes::u16_at(head, 12 + 2 * i) == sem_off);
    }
    assert(head.subrange(18, 20) =~= bytes::le2(local));
    assert(head.subrange(20, 22) =~= bytes::le2(remote));
    lemma_short_of(head, 18);
    lemma_short_of(head, 20);
    assert(bytes::u16_at(head, 18) == local);
    assert(bytes::u16_at(head, 20) == remote);
    assert(table.subrange(0, 2) =~= bytes::le2(w));
    lemma_short_of(table, 0);
    assert(bytes::u16_at(table, 0) == w);
    assert(table.subrange(4, 6) =~= bytes::le2(r));
    lemma_short_of(table, 4);
    assert(bytes::u16_at(table, 4) == r);
    assert forall|slot: int| 2 <= slot < 5 implies bytes::u16_at(
        l,
        #[trigger] argument_field(slot),
    ) == c by {
        assert(table.subrange(4 * slot, 4 * slot + 2) =~= bytes::le2(c));
        lemma_short_of(table, 4 * slot);
        assert(bytes::u16_at(table, 4 * slot) == c);
    }
    assert forall|slot: int| 0 <= slot < 5 implies bytes::u16_at(l, #[trigger] common_field(slot))
        == local by {
        assert(table.subrange(4 * slot + 2, 4 * slot + 4) =~= bytes::le2(local));
        lemma_short_of(table, 4 * slot + 2);
        assert(bytes::u16_at(table, 4 * slot + 2) == local);
    }
    assert forall|slot: int| 0 <= slot < 5 implies bytes::u32_at(l, #[trigger] text_field(slot))
        == text_offsets[slot] by {
        lemma_word_in(text_offsets, slot);
        assert(bytes::u32_at(text, 4 * slot) == text_offsets[slot]);
    }
    lemma_word_of(rest, 0);
    lemma_word_of(rest, 8);
    lemma_word_of(rest, 12);
    assert(bytes::u32_at(rest, 0) == mask);
    assert(rest[6] == 32);
}

/// A part of a sequence holds the same words.
proof fn lemma_same_words(s: Seq<u8>, part: Seq<u8>, at: int)
    requires
        0 <= at,
        at + part.len() <= s.len(),
        s.subrange(at, at + part.len()) == part,
    ensures
        forall|o: int|
            #![trigger bytes::u16_at(part, o)]
            0 <= o && o + 2 <= part.len() ==> bytes::u16_at(s, at + o) == bytes::u16_at(part, o),
        forall|o: int|
            #![trigger bytes::u32_at(part, o)]
            0 <= o && o + 4 <= part.len() ==> bytes::u32_at(s, at + o) == bytes::u32_at(part, o),
        forall|o: int| #![trigger part[o]] 0 <= o < part.len() ==> s[at + o] == part[o],
{
    assert forall|o: int| #![trigger part[o]] 0 <= o < part.len() implies s[at + o] == part[o] by {
        assert(s.subrange(at, at + part.len())[o] == s[at + o]);
    }
}

/// A word is read from its four bytes.
proof fn lemma_word_of(s: Seq<u8>, o: int)
    requires
        0 <= o,
        o + 4 <= s.len(),
    ensures
        bytes::u32_at(s, o) == bytes::u32_at(s.subrange(o, o + 4), 0),
{
}

proof fn lemma_short_of(s: Seq<u8>, o: int)
    requires
        0 <= o,
        o + 2 <= s.len(),
    ensures
        bytes::u16_at(s, o) == bytes::u16_at(s.subrange(o, o + 2), 0),
{
}

/// Words that stand one after the other are read one after the other.
pub proof fn lemma_word_in(words: Seq<u32>, i: int)
    requires
        0 <= i < words.len(),
    ensures
        bytes::words_le(words).len() == 4 * words.len(),
        bytes::u32_at(bytes::words_le(words), 4 * i) == words[i],
{
    let s = bytes::words_le(words);
    assert(s.subrange(4 * i, 4 * i + 4) =~= bytes::le4(words[i] as int));
    lemma_word_of(s, 4 * i);
    bytes::lemma_u32_at_le4(words[i]);
}

/// The processor of each slot: the first runs the writer, the second the reader, and the
/// other three the parts of the compute kernel.
pub open spec fn slot_arguments(
    writer: Seq<u32>,
    reader: Seq<u32>,
    compute: Seq<u32>,
    slot: int,
) -> Seq<u32> {
    if slot == 0 {
        writer
    } else if slot == 1 {
        reader
    } else {
        compute
    }
}

pub open spec fn slot_image(
    writer: Option<Seq<u8>>,
    reader: Option<Seq<u8>>,
    compute: Option<(Seq<u8>, Seq<u8>, Seq<u8>)>,
    slot: int,
) -> Option<Seq<u8>> {
    if slot == 0 {
        writer
    } else if slot == 1 {
        reader
    } else {
        match compute {
            Some((first, second, third)) => Some(
                if slot == 2 {
                    first
                } else if slot == 3 {
                    second
                } else {
                    third
                },
            ),
            None => None,
        }
    }
}

/// Whether the words from `at` on are these.
pub open spec fn words_at(s: Seq<u8>, at: int, words: Seq<u32>) -> bool {
    &&& 0 <= at
    &&& at + 4 * words.len() <= s.len()
    &&& forall|j: int|
        0 <= j < words.len() ==> bytes::u32_at(s, at + 4 * j) == #[trigger] words[j]
}

/// Whether the bytes from `at` on are these.
pub open spec fn bytes_at(s: Seq<u8>, at: int, b: Seq<u8>) -> bool {
    &&& 0 <= at
    &&& at + b.len() <= s.len()
    &&& forall|j: int| 0 <= j < b.len() ==> s[at + j] == #[trigger] b[j]
}

/// The fields of the launch message that goes with an image.
proof fn lemma_payload_fields(
    cbs: Seq<CBConfig>,
    semaphores: int,
    images: Seq<(int, Seq<u8>)>,
    rta_offsets: Seq<usize>,
    sem_off: int,
    id: u32,
)
    requires
        semaphores >= 0,
        sem_off >= 0,
        rta_offsets.len() == 3,
        forall|i: int| 0 <= i < images.len() ==> 0 <= (#[trigger] images[i]).0 < 5,
        payload::payload_refusal(cbs, semaphores, images, rta_offsets, sem_off) is None,
    ensures
        ({
            let l = payload::payload_launch(cbs, semaphores, images, rta_offsets, sem_off, id);
            let local = payload::local_cb_offset(sem_off, semaphores);
            let base = arith::round_up(local + payload::cb_table(cbs).len(), 16);
            let text = payload::slot_offsets(images, base, images.len() as int);
            &&& sem_off + semaphores * 16 <= local <= base
            &&& text.len() == 5
            &&& l.len() == 96
            &&& bytes::u32_at(l, 0) == 0x86B0
            &&& bytes::u16_at(l, 18) == local
            &&& bytes::u16_at(l, argument_field(0)) == rta_offsets[0]
            &&& bytes::u16_at(l, argument_field(1)) == rta_offsets[1]
            &&& forall|slot: int|
                2 <= slot < 5 ==> bytes::u16_at(l, #[trigger] argument_field(slot))
                    == rta_offsets[2]
            &&& forall|slot: int|
                0 <= slot < 5 ==> bytes::u32_at(l, #[trigger] text_field(slot)) == text[slot]
            &&& bytes::u32_at(l, 76) == payload::slot_mask(images, images.len() as int)
        }),
{
    let local = payload::local_cb_offset(sem_off, semaphores);
    let remote = local + payload::cb_table(cbs).len();
    let text = payload::slot_offsets(images, arith::round_up(remote, 16), images.len() as int);
    arith::lemma_round_up(sem_off + semaphores * 16, 16);
    arith::lemma_round_up(remote, 16);
    payload::lemma_slot_offsets_len(images, arith::round_up(remote, 16), images.len() as int);
    lemma_launch_fields(
        sem_off,
        local,
        remote,
        rta_offsets,
        text,
        payload::cb_mask(cbs, cbs.len() as int),
        payload::slot_mask(images, images.len() as int),
        id,
    );
    let l = payload::payload_launch(cbs, semaphores, images, rta_offsets, sem_off, id);
    assert(bytes::u32_at(l, 4 * 0int) == 0x86B0);
}

/// The words of the three kernels stand one after the other in the block of arguments.
pub(crate) proof fn lemma_packed_word(
    writer: Seq<u32>,
    reader: Seq<u32>,
    compute: Seq<u32>,
    semaphores: int,
    sem_off: int,
    k: int,
)
    requires
        semaphores >= 0,
        4 * (writer.len() + reader.len() + compute.len()) <= sem_off,
        0 <= k < writer.len() + reader.len() + compute.len(),
    ensures
        ({
            let block = dispatch::packed_args(writer, reader, compute, semaphores, sem_off);
            &&& 4 * k + 4 <= block.len()
            &&& bytes::u32_at(block, 4 * k) == (writer + reader + compute)[k]
        }),
{
    lemma_word_in(writer + reader + compute, k);
}

/// A message that names these places leads to the arguments of each slot.
proof fn lemma_block_holds(
    launch: Seq<u8>,
    writer: Seq<u32>,
    reader: Seq<u32>,
    compute: Seq<u32>,
    semaphores: int,
    sem_off: int,
    slot: int,
)
    requires
        semaphores >= 0,
        4 * (writer.len() + reader.len() + compute.len()) <= sem_off,
        bytes::u16_at(launch, argument_field(0)) == 0,
        bytes::u16_at(launch, argument_field(1)) == 4 * writer.len(),
        forall|slot: int|
            2 <= slot < 5 ==> bytes::u16_at(launch, #[trigger] argument_field(slot)) == 4
                * writer.len() + 4 * reader.len(),
        0 <= slot < 5,
    ensures
        words_at(
            dispatch::packed_args(writer, reader, compute, semaphores, sem_off),
            bytes::u16_at(launch, argument_field(slot)),
            slot_arguments(writer, reader, compute, slot),
        ),
{
    let block = dispatch::packed_args(writer, reader, compute, semaphores, sem_off);
    let words = writer + reader + compute;
    let args = slot_arguments(writer, reader, compute, slot);
    let first: int = if slot == 0 {
        0
    } else if slot == 1 {
        writer.len() as int
    } else {
        (writer.len() + reader.len()) as int
    };
    assert(bytes::u16_at(launch, argument_field(slot)) == 4 * first);
    assert forall|j: int| 0 <= j < args.len() implies bytes::u32_at(block, 4 * first + 4 * j)
        == #[trigger] args[j] by {
        assert(words[first + j] == args[j]);
        lemma_packed_word(writer, reader, compute, semaphores, sem_off, first + j);
    }
    assert(block.len() >= 4 * words.len());
}

/// Every processor finds its own arguments where the launch message says: the first those of
/// the writer, the second those of the reader, the others those of the compute kernel.
pub proof fn lemma_slot_finds_arguments(
    cbs: Seq<CBConfig>,
    semaphores: int,
    images: Seq<(int, Seq<u8>)>,
    writer: Seq<u32>,
    reader: Seq<u32>,
    compute: Seq<u32>,
    sem_off: int,
    id: u32,
    slot: int,
)
    requires
        semaphores >= 0,
        4 * (writer.len() + reader.len() + compute.len()) <= sem_off <= usize::MAX,
        forall|i: int| 0 <= i < images.len() ==> 0 <= (#[trigger] images[i]).0 < 5,
        payload::payload_refusal(
            cbs,
            semaphores,
            images,
            seq![
                0usize,
                (4 * writer.len()) as usize,
                (4 * writer.len() + 4 * reader.len()) as usize,
            ],
            sem_off,
        ) is None,
        0 <= slot < 5,
    ensures
        ({
            let offsets = seq![
                0usize,
                (4 * writer.len()) as usize,
                (4 * writer.len() + 4 * reader.len()) as usize,
            ];
            let launch = payload::payload_launch(cbs, semaphores, images, offsets, sem_off, id);
            let block = dispatch::packed_args(writer, reader, compute, semaphores, sem_off);
            words_at(
                block,
                bytes::u16_at(launch, argument_field(slot)),
                slot_arguments(writer, reader, compute, slot),
            )
        }),
{
    let offsets = seq![
        0usize,
        (4 * writer.len()) as usize,
        (4 * writer.len() + 4 * reader.len()) as usize,
    ];
    lemma_payload_fields(cbs, semaphores, images, offsets, sem_off, id);
    let launch = payload::payload_launch(cbs, semaphores, images, offsets, sem_off, id);
    lemma_block_holds(launch, writer, reader, compute, semaphores, sem_off, slot);
}

/// Every processor that has a kernel finds its code where the launch message says, and the
/// message says that it runs; the others do not run.
pub proof fn lemma_slot_finds_code(
    cbs: Seq<CBConfig>,
    semaphores: int,
    writer: Option<Seq<u8>>,
    reader: Option<Seq<u8>>,
    compute: Option<(Seq<u8>, Seq<u8>, Seq<u8>)>,
    rta_offsets: Seq<usize>,
    sem_off: int,
    id: u32,
    slot: int,
)
    requires
        semaphores >= 0,
        sem_off >= 0,
        rta_offsets.len() == 3,
        payload::payload_refusal(
            cbs,
            semaphores,
            payload::image_list(writer, reader, compute),
            rta_offsets,
            sem_off,
        ) is None,
        0 <= slot < 5,
    ensures
        ({
            let images = payload::image_list(writer, reader, compute);
            let launch = payload::payload_launch(
                cbs,
                semaphores,
                images,
                rta_offsets,
                sem_off,
                id,
            );
            let shared = payload::payload_shared(cbs, semaphores, images, sem_off);
            let enables = bytes::u32_at(launch, 76) as u32;
            let own = slot_image(writer, reader, compute, slot);
            &&& bytes::u16_at(launch, 18) == payload::local_cb_offset(sem_off, semaphores)
            &&& own is Some <==> enables & (1u32 << (slot as u32)) != 0
            &&& own matches Some(image) ==> bytes_at(
                shared,
                bytes::u32_at(launch, text_field(slot)) - bytes::u16_at(launch, 18),
                image,
            )
        }),
{
    let images = payload::image_list(writer, reader, compute);
    let n = images.len() as int;
    let local = payload::local_cb_offset(sem_off, semaphores);
    let cb = payload::cb_table(cbs);
    let remote = local + cb.len();
    let base = arith::round_up(remote, 16);
    let text = payload::slot_offsets(images, base, n);
    assert forall|i: int| 0 <= i < images.len() implies 0 <= (#[trigger] images[i]).0 < 5 by {}
    assert(payload::distinct_slots(images));
    lemma_payload_fields(cbs, semaphores, images, rta_offsets, sem_off, id);
    lemma_slot_mask(images, n, slot);
    let own = slot_image(writer, reader, compute, slot);
    if own is Some {
        let i = slot_index(writer, reader, slot);
        assert(images[i] == (slot, own->0));
        payload::lemma_slot_offset(images, base, i, n);
        error::lemma_first_refusal_none(0, n, payload::placement_checks(images, base));
        assert(payload::placement_checks(images, base)(i) is None);
        payload::lemma_text_offset_grows(images, base, i, n);
        lemma_image_stays(images, cb, local, base, i, n);
    } else {
        assert forall|i: int| 0 <= i < n implies (#[trigger] images[i]).0 != slot by {}
    }
}

/// The place of a kernel in the list of those that are there.
spec fn slot_index(writer: Option<Seq<u8>>, reader: Option<Seq<u8>>, slot: int) -> int {
    let w: int = if writer is Some {
        1
    } else {
        0
    };
    let r: int = if reader is Some {
        1
    } else {
        0
    };
    if slot == 0 {
        0
    } else if slot == 1 {
        w
    } else {
        w + r + slot - 2
    }
}

/// A slot has its bit where one of the kernels is its own.
proof fn lemma_slot_mask(images: Seq<(int, Seq<u8>)>, n: int, slot: int)
    requires
        0 <= n <= images.len(),
        0 <= slot < 5,
        forall|i: int| 0 <= i < images.len() ==> 0 <= (#[trigger] images[i]).0 < 5,
    ensures
        payload::slot_mask(images, n) & (1u32 << (slot as u32)) != 0 <==> exists|i: int|
            0 <= i < n && (#[trigger] images[i]).0 == slot,
    decreases n,
{
    if n > 0 {
        lemma_slot_mask(images, n - 1, slot);
        let before = payload::slot_mask(images, n - 1);
        let (a, b) = (images[n - 1].0 as u32, slot as u32);
        lemma_bit_set(before, a, b);
        if images[n - 1].0 == slot {
            assert(images[n - 1].0 == slot);
        }
        if exists|i: int| 0 <= i < n - 1 && (#[trigger] images[i]).0 == slot {
            let i = choose|i: int| 0 <= i < n - 1 && (#[trigger] images[i]).0 == slot;
            assert(0 <= i < n && images[i].0 == slot);
        }
    } else {
        let b = slot as u32;
        assert(0u32 & (1u32 << b) == 0) by (bit_vector);
    }
}

/// Setting a bit leaves the others as they are.
proof fn lemma_bit_set(mask: u32, a: u32, b: u32)
    requires
        a < 32,
        b < 32,
    ensures
        (mask | (1u32 << a)) & (1u32 << b) != 0 <==> a == b || mask & (1u32 << b) != 0,
{
    assert((mask | (1u32 << a)) & (1u32 << b) != 0 <==> a == b || mask & (1u32 << b) != 0)
        by (bit_vector)
        requires
            a < 32,
            b < 32,
    ;
}

/// A kernel that was placed stays where it is while the others are placed behind it.
proof fn lemma_image_stays(
    images: Seq<(int, Seq<u8>)>,
    cb: Seq<u8>,
    local: int,
    base: int,
    i: int,
    n: int,
)
    requires
        0 <= local <= base,
        0 <= i < n <= images.len(),
    ensures
        bytes_at(
            payload::shared_image(images, cb, local, base, n),
            payload::text_offset(images, base, i) - local,
            images[i].1,
        ),
    decreases n,
{
    let total = images.len() as int;
    payload::lemma_text_offset_grows(images, base, i, n);
    payload::lemma_text_offset_grows(images, base, i, total);
    payload::lemma_text_offset_grows(images, base, n - 1, total);
    payload::lemma_shared_len(images, cb, local, base, n);
    payload::lemma_shared_len(images, cb, local, base, n - 1);
    if i < n - 1 {
        lemma_image_stays(images, cb, local, base, i, n - 1);
        payload::lemma_text_offset_grows(images, base, i, n - 1);
    }
}

/// A buffer that no other shares its index with is found in the table: its address, its size,
/// its number of tiles and the bytes of each. Its bit is set.
pub proof fn lemma_buffer_in_table(cbs: Seq<CBConfig>, k: int)
    requires
        payload::cb_refusal(cbs) is None,
        0 <= k < cbs.len(),
        forall|i: int| 0 <= i < cbs.len() && i != k ==> (#[trigger] cbs[i]).index != cbs[k].index,
    ensures
        ({
            let table = payload::cb_table(cbs);
            let at = 16 * cbs[k].index;
            &&& at + 16 <= table.len()
            &&& bytes::u32_at(table, at) == payload::cb_addr(cbs, k)
            &&& bytes::u32_at(table, at + 4) == cbs[k].tiles * cbs[k].dtype.width() * 1024
            &&& bytes::u32_at(table, at + 8) == cbs[k].tiles
            &&& bytes::u32_at(table, at + 12) == cbs[k].dtype.width() * 1024
            &&& payload::cb_mask(cbs, cbs.len() as int) & (1u32 << (cbs[k].index as u32)) != 0
        }),
{
    let n = cbs.len() as int;
    let entries = payload::cb_entries(cbs, n);
    error::lemma_first_refusal_none(0, n, payload::cb_index_checks(cbs));
    error::lemma_first_refusal_none(0, n, payload::cb_size_checks(cbs));
    assert(payload::cb_index_checks(cbs)(k) is None);
    assert(payload::cb_size_checks(cbs)(k) is None);
    payload::lemma_cb_entries(cbs, n, k);
    assert forall|i: int| 0 <= i < n implies (#[trigger] cbs[i]).index < entries by {
        payload::lemma_cb_entries(cbs, n, i);
    }
    assert forall|i: int| 0 <= i < n implies (#[trigger] cbs[i]).index < 32 by {
        assert(payload::cb_index_checks(cbs)(i) is None);
    }
    lemma_cb_words(cbs, entries, k, n);
    lemma_cb_mask(cbs, n, k);
    payload::lemma_cb_words_len(cbs, entries, n);
    let words = payload::cb_words(cbs, entries, n);
    let at = 4 * cbs[k].index;
    lemma_word_in(words, at);
    lemma_word_in(words, at + 1);
    lemma_word_in(words, at + 2);
    lemma_word_in(words, at + 3);
    lemma_buffers_apart(cbs, k, k + 1);
    let (t, w) = (cbs[k].tiles as int, cbs[k].dtype.width());
    assert(t * w * 1024 == (1024 * w) * t) by (nonlinear_arith);
}

/// Buffers do not overlap: a later one starts where all before it have ended.
pub proof fn lemma_buffers_apart(cbs: Seq<CBConfig>, a: int, b: int)
    requires
        0 <= a < b <= cbs.len(),
    ensures
        0x37000 <= payload::cb_addr(cbs, a),
        payload::cb_addr(cbs, a) + cbs[a].tiles * cbs[a].dtype.width() * 1024 <= payload::cb_addr(
            cbs,
            b,
        ),
    decreases b,
{
    lemma_addr_grows(cbs, 0, a);
    lemma_addr_grows(cbs, a + 1, b);
    let (t, w) = (cbs[a].tiles as int, cbs[a].dtype.width());
    assert(t * w * 1024 == (1024 * w) * t) by (nonlinear_arith);
}

proof fn lemma_addr_grows(cbs: Seq<CBConfig>, a: int, b: int)
    requires
        0 <= a <= b <= cbs.len(),
    ensures
        payload::cb_addr(cbs, a) <= payload::cb_addr(cbs, b),
    decreases b,
{
    if a < b {
        lemma_addr_grows(cbs, a, b - 1);
        let (t, w) = (cbs[b - 1].tiles as int, cbs[b - 1].dtype.width());
        assert((1024 * w) * t >= 0) by (nonlinear_arith)
            requires
                w >= 0,
                t >= 0,
        ;
    }
}

proof fn lemma_cb_words(cbs: Seq<CBConfig>, entries: int, k: int, n: int)
    requires
        0 <= k < n <= cbs.len(),
        entries >= 0,
        forall|i: int| 0 <= i < cbs.len() ==> (#[trigger] cbs[i]).index < entries,
        forall|i: int| 0 <= i < cbs.len() && i != k ==> (#[trigger] cbs[i]).index != cbs[k].index,
    ensures
        ({
            let words = payload::cb_words(cbs, entries, n);
            let at = 4 * cbs[k].index;
            &&& words[at] == payload::cb_addr(cbs, k) as u32
            &&& words[at + 1] == payload::cb_size(cbs[k]) as u32
            &&& words[at + 2] == cbs[k].tiles as u32
            &&& words[at + 3] == cbs[k].dtype.tile_bytes() as u32
        }),
    decreases n,
{
    payload::lemma_cb_words_len(cbs, entries, n - 1);
    if k < n - 1 {
        lemma_cb_words(cbs, entries, k, n - 1);
    }
}

proof fn lemma_cb_mask(cbs: Seq<CBConfig>, n: int, k: int)
    requires
        0 <= k < n <= cbs.len(),
        forall|i: int| 0 <= i < cbs.len() ==> (#[trigger] cbs[i]).index < 32,
    ensures
        payload::cb_mask(cbs, n) & (1u32 << (cbs[k].index as u32)) != 0,
    decreases n,
{
    lemma_bit_set(
        payload::cb_mask(cbs, n - 1),
        cbs[n - 1].index as u32,
        cbs[k].index as u32,
    );
    if k < n - 1 {
        lemma_cb_mask(cbs, n - 1, k);
    }
}

/// The byte at an address of a core after the first `n` steps: what the last of them that
/// reaches it writes there.
pub open spec fn byte_after(steps: Seq<Step>, n: int, core: CoreCoord, addr: int) -> Option<u8>
    decreases n,
{
    if n <= 0 {
        None
    } else {
        match steps[n - 1] {
            Step::Write { cores, addr: at, data } => if cores.contains(core) && at <= addr < at
                + data.len() {
                Some(data[addr - at])
            } else {
                byte_after(steps, n - 1, core, addr)
            },
            Step::WritePacked { cores, addr: at, data } => {
                let k = cores.index_of(core);
                if cores.contains(core) && at <= addr < at + data[k].len() {
                    Some(data[k][addr - at])
                } else {
                    byte_after(steps, n - 1, core, addr)
                }
            },
            Step::Launch { .. } => byte_after(steps, n - 1, core, addr),
        }
    }
}

/// The bytes from `addr` on that a core finds after all steps.
pub open spec fn memory(steps: Seq<Step>, core: CoreCoord, addr: int, len: int) -> Seq<u8> {
    Seq::new(len as nat, |i: int| byte_after(steps, steps.len() as int, core, addr + i)->0)
}

/// Whether a core finds these bytes at `addr` after all steps.
pub open spec fn found(steps: Seq<Step>, core: CoreCoord, addr: int, data: Seq<u8>) -> bool {
    forall|i: int|
        0 <= i < data.len() ==> byte_after(steps, steps.len() as int, core, addr + i) == Some(
            #[trigger] data[i],
        )
}

proof fn lemma_after_prefix(a: Seq<Step>, b: Seq<Step>, n: int, core: CoreCoord, addr: int)
    requires
        0 <= n <= a.len(),
        n <= b.len(),
        a.take(n) == b.take(n),
    ensures
        byte_after(a, n, core, addr) == byte_after(b, n, core, addr),
    decreases n,
{
    if n > 0 {
        let (x, y) = (a.take(n), b.take(n));
        assert(x[n - 1] == a[n - 1]);
        assert(y[n - 1] == b[n - 1]);
        assert(a.take(n - 1) =~= a.take(n).take(n - 1));
        assert(b.take(n - 1) =~= b.take(n).take(n - 1));
        lemma_after_prefix(a, b, n - 1, core, addr);
    }
}

/// Steps that do not reach a byte leave it as it is.
proof fn lemma_untouched(a: Seq<Step>, b: Seq<Step>, n: int, core: CoreCoord, addr: int)
    requires
        0 <= n <= b.len(),
        forall|i: int|
            0 <= i < n ==> match #[trigger] b[i] {
                Step::Write { cores, addr: at, data } => !(cores.contains(core) && at <= addr < at
                    + data.len()),
                Step::WritePacked { .. } => false,
                Step::Launch { .. } => true,
            },
    ensures
        byte_after(a + b, a.len() + n, core, addr) == byte_after(a, a.len() as int, core, addr),
    decreases n,
{
    if n > 0 {
        lemma_untouched(a, b, n - 1, core, addr);
        assert((a + b)[a.len() + n - 1] == b[n - 1]);
    } else {
        assert((a + b).take(a.len() as int) =~= a.take(a.len() as int));
        lemma_after_prefix(a + b, a, a.len() as int, core, addr);
    }
}

/// The steps of roles write nothing but launch messages and images, and only to the cores of
/// the roles.
proof fn lemma_role_writes(
    program: &Program,
    kernels: &ProgramKernels,
    roles: Seq<(Seq<CoreCoord>, bool, bool)>,
    n: int,
)
    requires
        0 <= n <= roles.len(),
        forall|i: int|
            0 <= i < n ==> #[trigger] plan::role_checks(program, kernels, roles)(i) is None,
    ensures
        forall|k: int|
            0 <= k < plan::role_steps(program, kernels, roles, n).len() ==> {
                &&& #[trigger] plan::role_steps(program, kernels, roles, n)[k] matches Step::Write {
                    cores,
                    addr,
                    data,
                }
                &&& (addr == 0x70 && data.len() == 96) || addr == 0x86B0
                    + payload::local_cb_offset(
                    plan::program_sem_off(program),
                    program.semaphores as int,
                )
                &&& exists|i: int| 0 <= i < n && (#[trigger] roles[i]).0 == cores
            },
    decreases n,
{
    if n > 0 {
        lemma_role_writes(program, kernels, roles, n - 1);
        let all = plan::role_steps(program, kernels, roles, n);
        let before = plan::role_steps(program, kernels, roles, n - 1);
        lemma_role_launch(program, kernels, roles, n - 1);
        assert forall|k: int| 0 <= k < all.len() implies {
            &&& #[trigger] all[k] matches Step::Write { cores, addr, data }
            &&& (addr == 0x70 && data.len() == 96) || addr == 0x86B0 + payload::local_cb_offset(
                plan::program_sem_off(program),
                program.semaphores as int,
            )
            &&& exists|i: int| 0 <= i < n && (#[trigger] roles[i]).0 == cores
        } by {
            if k < before.len() {
                assert(all[k] == before[k]);
                let cores = before[k]->Write_cores;
                let i = choose|i: int| 0 <= i < n - 1 && (#[trigger] roles[i]).0 == cores;
                assert(0 <= i < n && roles[i].0 == cores);
            } else {
                assert(roles[n - 1].0 == all[k]->Write_cores);
            }
        }
    }
}

/// The semaphores stand behind the arguments.
proof fn lemma_sem_off(program: &Program)
    ensures
        ({
            let sem_off = plan::program_sem_off(program);
            let semaphores = program.semaphores as int;
            let local = payload::local_cb_offset(sem_off, semaphores);
            &&& 4 * (program.writer_args@.len() + program.reader_args@.len()
                + program.compute_args@.len()) <= sem_off
            &&& sem_off + semaphores * 16 <= local
        }),
{
    let words = 4 * (program.writer_args@.len() + program.reader_args@.len()
        + program.compute_args@.len());
    arith::lemma_round_up(words as int, 16);
    arith::lemma_round_up(
        plan::program_sem_off(program) + program.semaphores as int * 16,
        16,
    );
}

/// A launch message of a role has ninety-six bytes and names the place of the configuration.
proof fn lemma_role_launch(
    program: &Program,
    kernels: &ProgramKernels,
    roles: Seq<(Seq<CoreCoord>, bool, bool)>,
    i: int,
)
    requires
        plan::role_checks(program, kernels, roles)(i) is None,
    ensures
        payload::payload_launch(
            program.cbs@,
            program.semaphores as int,
            plan::role_images(program, kernels, roles[i]),
            plan::program_rta_offsets(program),
            plan::program_sem_off(program),
            0,
        ).len() == 96,
        bytes::u32_at(
            payload::payload_launch(
                program.cbs@,
                program.semaphores as int,
                plan::role_images(program, kernels, roles[i]),
                plan::program_rta_offsets(program),
                plan::program_sem_off(program),
                0,
            ),
            0,
        ) == 0x86B0,
{
    let images = plan::role_images(program, kernels, roles[i]);
    lemma_sem_off(program);
    assert forall|i: int| 0 <= i < images.len() implies 0 <= (#[trigger] images[i]).0 < 5 by {}
    lemma_payload_fields(
        program.cbs@,
        program.semaphores as int,
        images,
        plan::program_rta_offsets(program),
        plan::program_sem_off(program),
        0,
    );
}

/// After the steps of the first `n` roles, among them its own, a core finds its launch message
/// and its image.
proof fn lemma_role_found(
    program: &Program,
    kernels: &ProgramKernels,
    roles: Seq<(Seq<CoreCoord>, bool, bool)>,
    opening: Seq<Step>,
    core: CoreCoord,
    r: int,
    n: int,
)
    requires
        0 <= r < n <= roles.len(),
        roles[r].0.contains(core),
        forall|i: int| 0 <= i < roles.len() && i != r ==> !(#[trigger] roles[i]).0.contains(core),
        forall|i: int|
            0 <= i < n ==> #[trigger] plan::role_checks(program, kernels, roles)(i) is None,
    ensures
        ({
            let steps = opening + plan::role_steps(program, kernels, roles, n);
            let images = plan::role_images(program, kernels, roles[r]);
            let sem_off = plan::program_sem_off(program);
            let semaphores = program.semaphores as int;
            let local = payload::local_cb_offset(sem_off, semaphores);
            &&& found(
                steps,
                core,
                0x70,
                payload::payload_launch(
                    program.cbs@,
                    semaphores,
                    images,
                    plan::program_rta_offsets(program),
                    sem_off,
                    0,
                ),
            )
            &&& found(
                steps,
                core,
                0x86B0 + local,
                payload::payload_shared(program.cbs@, semaphores, images, sem_off),
            )
        }),
    decreases n,
{
    let all = plan::role_steps(program, kernels, roles, n);
    let before = plan::role_steps(program, kernels, roles, n - 1);
    let steps = opening + all;
    let images = plan::role_images(program, kernels, roles[r]);
    let sem_off = plan::program_sem_off(program);
    let semaphores = program.semaphores as int;
    let local = payload::local_cb_offset(sem_off, semaphores);
    let launch = payload::payload_launch(
        program.cbs@,
        semaphores,
        images,
        plan::program_rta_offsets(program),
        sem_off,
        0,
    );
    let shared = payload::payload_shared(program.cbs@, semaphores, images, sem_off);
    let words = 4 * (program.writer_args@.len() + program.reader_args@.len()
        + program.compute_args@.len());
    arith::lemma_round_up(words as int, 16);
    arith::lemma_round_up(sem_off + semaphores * 16, 16);
    lemma_role_launch(program, kernels, roles, r);
    let last = steps.len() as int;
    if r == n - 1 {
        let at = (opening.len() + before.len()) as int;
        assert(steps[at] == Step::Write { cores: roles[r].0, addr: 0x70, data: launch });
        assert forall|i: int| 0 <= i < launch.len() implies byte_after(
            steps,
            last,
            core,
            0x70 + i,
        ) == Some(#[trigger] launch[i]) by {
            assert(byte_after(steps, at + 1, core, 0x70 + i) == Some(launch[i]));
        }
        assert forall|i: int| 0 <= i < shared.len() implies byte_after(
            steps,
            last,
            core,
            0x86B0 + local + i,
        ) == Some(#[trigger] shared[i]) by {
            assert(steps[last - 1] == Step::Write {
                cores: roles[r].0,
                addr: 0x86B0 + local,
                data: shared,
            });
        }
    } else {
        lemma_role_found(program, kernels, roles, opening, core, r, n - 1);
        let inner = opening + before;
        let more = all.skip(before.len() as int);
        assert(steps =~= inner + more);
        assert forall|addr: int| #[trigger]
            byte_after(steps, last, core, addr) == byte_after(
                inner,
                inner.len() as int,
                core,
                addr,
            ) by {
            assert(!roles[n - 1].0.contains(core));
            assert forall|i: int| 0 <= i < more.len() implies match #[trigger] more[i] {
                Step::Write { cores, addr: at, data } => !(cores.contains(core) && at <= addr < at
                    + data.len()),
                Step::WritePacked { .. } => false,
                Step::Launch { .. } => true,
            } by {
                assert(more[i] == all[before.len() + i]);
            }
            lemma_untouched(inner, more, more.len() as int, core, addr);
        }
    }
}

/// What stands in the memory of a core once a program was sent to it.
proof fn lemma_core_memory(
    program: &Program,
    kernels: &ProgramKernels,
    all: Seq<CoreCoord>,
    roles: Seq<(Seq<CoreCoord>, bool, bool)>,
    core: CoreCoord,
    r: int,
)
    requires
        0 <= r < roles.len(),
        roles[r].0.contains(core),
        all.contains(core),
        forall|i: int| 0 <= i < roles.len() && i != r ==> !(#[trigger] roles[i]).0.contains(core),
        forall|i: int|
            0 <= i < roles.len() ==> #[trigger] plan::role_checks(program, kernels, roles)(i)
                is None,
    ensures
        ({
            let steps = plan::plan_steps(program, kernels, all, roles);
            let images = plan::role_images(program, kernels, roles[r]);
            let sem_off = plan::program_sem_off(program);
            let semaphores = program.semaphores as int;
            &&& memory(steps, core, 0x70, 96) == payload::payload_launch(
                program.cbs@,
                semaphores,
                images,
                plan::program_rta_offsets(program),
                sem_off,
                0,
            )
            &&& found(
                steps,
                core,
                0x86B0,
                dispatch::packed_args(
                    program.writer_args@,
                    program.reader_args@,
                    program.compute_args@,
                    semaphores,
                    sem_off,
                ),
            )
            &&& found(
                steps,
                core,
                0x86B0 + payload::local_cb_offset(sem_off, semaphores),
                payload::payload_shared(program.cbs@, semaphores, images, sem_off),
            )
        }),
{
    let steps = plan::plan_steps(program, kernels, all, roles);
    let opening = plan::opening_steps(program, all);
    let n = roles.len() as int;
    let body = plan::role_steps(program, kernels, roles, n);
    let sem_off = plan::program_sem_off(program);
    let semaphores = program.semaphores as int;
    let local = payload::local_cb_offset(sem_off, semaphores);
    let offsets = plan::program_rta_offsets(program);
    let (w, a, c) = (program.writer_args@, program.reader_args@, program.compute_args@);
    let images = plan::role_images(program, kernels, roles[r]);
    let launch = payload::payload_launch(
        program.cbs@,
        semaphores,
        images,
        offsets,
        sem_off,
        0,
    );
    let shared = payload::payload_shared(program.cbs@, semaphores, images, sem_off);
    let block = dispatch::packed_args(w, a, c, semaphores, sem_off);
    lemma_sem_off(program);
    lemma_role_found(program, kernels, roles, opening, core, r, n);
    lemma_role_writes(program, kernels, roles, n);
    lemma_role_launch(program, kernels, roles, r);
    let sent = opening + body;
    let last = steps.len() as int;
    assert(sent.take(last - 1) =~= steps.take(last - 1));
    assert forall|addr: int| #[trigger]
        byte_after(steps, last, core, addr) == byte_after(sent, last - 1, core, addr) by {
        lemma_after_prefix(sent, steps, last - 1, core, addr);
    }
    assert(memory(steps, core, 0x70, 96) =~= launch) by {
        assert forall|i: int| 0 <= i < 96 implies memory(steps, core, 0x70, 96)[i]
            == launch[i] by {
            assert(byte_after(sent, last - 1, core, 0x70 + i) == Some(launch[i]));
            assert(byte_after(steps, last, core, 0x70 + i) == byte_after(
                sent,
                last - 1,
                core,
                0x70 + i,
            ));
        }
    }
    // The arguments are written first, and nothing reaches them later.
    assert(found(steps, core, 0x86B0, block)) by {
        assert forall|i: int| 0 <= i < block.len() implies byte_after(
            steps,
            last,
            core,
            0x86B0 + i,
        ) == Some(#[trigger] block[i]) by {
            let o = opening.len() as int;
            assert(opening[o - 1] == Step::Write { cores: all, addr: 0x86B0, data: block });
            assert(byte_after(opening, o, core, 0x86B0 + i) == Some(block[i]));
            assert forall|k: int| 0 <= k < body.len() implies match #[trigger] body[k] {
                Step::Write { cores, addr: at, data } => !(cores.contains(core) && at <= 0x86B0 + i
                    < at + data.len()),
                Step::WritePacked { .. } => false,
                Step::Launch { .. } => true,
            } by {
                assert(body[k] is Write);
            }
            lemma_untouched(opening, body, body.len() as int, core, 0x86B0 + i);
            assert(byte_after(steps, last, core, 0x86B0 + i) == byte_after(
                sent,
                last - 1,
                core,
                0x86B0 + i,
            ));
        }
    }
    assert forall|i: int| 0 <= i < shared.len() implies byte_after(
        steps,
        last,
        core,
        0x86B0 + local + i,
    ) == Some(#[trigger] shared[i]) by {
        assert(byte_after(sent, last - 1, core, 0x86B0 + local + i) == Some(shared[i]));
    }
}

/// Whether the processor of a slot is led by the launch message of its core to these
/// arguments, and is started with this code, or is not started where there is none.
pub open spec fn finds(
    steps: Seq<Step>,
    core: CoreCoord,
    slot: int,
    args: Seq<u32>,
    image: Option<Seq<u8>>,
) -> bool {
    let launch = memory(steps, core, 0x70, 96);
    let config = bytes::u32_at(launch, 0);
    let enables = bytes::u32_at(launch, 76) as u32;
    &&& words_at(
        memory(
            steps,
            core,
            config + bytes::u16_at(launch, argument_field(slot)),
            4 * args.len() as int,
        ),
        0,
        args,
    )
    &&& image is Some <==> enables & (1u32 << (slot as u32)) != 0
    &&& image matches Some(code) ==> memory(
        steps,
        core,
        config + bytes::u32_at(launch, text_field(slot)),
        code.len() as int,
    ) == code
}

proof fn lemma_finds(
    steps: Seq<Step>,
    core: CoreCoord,
    slot: int,
    args: Seq<u32>,
    image: Option<Seq<u8>>,
    launch: Seq<u8>,
    block: Seq<u8>,
    shared: Seq<u8>,
    local: int,
)
    requires
        memory(steps, core, 0x70, 96) == launch,
        found(steps, core, 0x86B0, block),
        found(steps, core, 0x86B0 + local, shared),
        bytes::u32_at(launch, 0) == 0x86B0,
        words_at(block, bytes::u16_at(launch, argument_field(slot)), args),
        image is Some <==> (bytes::u32_at(launch, 76) as u32) & (1u32 << (slot as u32)) != 0,
        image matches Some(code) ==> bytes_at(
            shared,
            bytes::u32_at(launch, text_field(slot)) - local,
            code,
        ),
    ensures
        finds(steps, core, slot, args, image),
{
    lemma_found_words(
        steps,
        core,
        0x86B0,
        block,
        bytes::u16_at(launch, argument_field(slot)),
        args,
    );
    if let Some(code) = image {
        lemma_found_bytes(
            steps,
            core,
            0x86B0 + local,
            shared,
            bytes::u32_at(launch, text_field(slot)) - local,
            code,
        );
    }
}

/// The reader that the cores of a role run: a core that receives an operand runs the receiving
/// kernel, where the program has one.
pub open spec fn role_reader(
    program: &Program,
    kernels: &ProgramKernels,
    receives: bool,
) -> Option<Seq<u8>> {
    if receives && program.reader_recv_kernel@.len() > 0 {
        plan::kernel_image(kernels.reader_recv)
    } else {
        plan::kernel_image(kernels.reader)
    }
}

pub open spec fn role_writer(
    program: &Program,
    kernels: &ProgramKernels,
    receives: bool,
) -> Option<Seq<u8>> {
    if receives && program.writer_recv_kernel@.len() > 0 {
        plan::kernel_image(kernels.writer_recv)
    } else {
        plan::kernel_image(kernels.writer)
    }
}

pub open spec fn role_compute(kernels: &ProgramKernels) -> Option<(Seq<u8>, Seq<u8>, Seq<u8>)> {
    match kernels.compute {
        Some(c) => Some((c.0.xip@, c.1.xip@, c.2.xip@)),
        None => None,
    }
}

/// Once a program was sent to a core, its launch message leads every processor to its own
/// arguments and to its own code: the first to those of the writer, the second to those of the
/// reader, the others to those of the compute kernel.
pub proof fn lemma_core_finds_program(
    program: &Program,
    kernels: &ProgramKernels,
    all: Seq<CoreCoord>,
    roles: Seq<(Seq<CoreCoord>, bool, bool)>,
    core: CoreCoord,
    r: int,
    slot: int,
)
    requires
        0 <= r < roles.len(),
        roles[r].0.contains(core),
        all.contains(core),
        forall|i: int| 0 <= i < roles.len() && i != r ==> !(#[trigger] roles[i]).0.contains(core),
        forall|i: int|
            0 <= i < roles.len() ==> #[trigger] plan::role_checks(program, kernels, roles)(i)
                is None,
        plan::program_sem_off(program) <= usize::MAX,
        0 <= slot < 5,
    ensures
        finds(
            plan::plan_steps(program, kernels, all, roles),
            core,
            slot,
            slot_arguments(
                program.writer_args@,
                program.reader_args@,
                program.compute_args@,
                slot,
            ),
            slot_image(
                role_writer(program, kernels, roles[r].2),
                role_reader(program, kernels, roles[r].1),
                role_compute(kernels),
                slot,
            ),
        ),
{
    let sem_off = plan::program_sem_off(program);
    let semaphores = program.semaphores as int;
    let offsets = plan::program_rta_offsets(program);
    let (w, a, c) = (program.writer_args@, program.reader_args@, program.compute_args@);
    let images = plan::role_images(program, kernels, roles[r]);
    let writer = role_writer(program, kernels, roles[r].2);
    let reader = role_reader(program, kernels, roles[r].1);
    let compute = role_compute(kernels);
    lemma_sem_off(program);
    lemma_core_memory(program, kernels, all, roles, core, r);
    lemma_role_launch(program, kernels, roles, r);
    assert(images == payload::image_list(writer, reader, compute));
    assert forall|i: int| 0 <= i < images.len() implies 0 <= (#[trigger] images[i]).0 < 5 by {}
    assert(offsets =~= seq![
        0usize,
        (4 * w.len()) as usize,
        (4 * w.len() + 4 * a.len()) as usize,
    ]);
    assert(plan::role_checks(program, kernels, roles)(r) is None);
    lemma_slot_finds_arguments(program.cbs@, semaphores, images, w, a, c, sem_off, 0, slot);
    lemma_slot_finds_code(
        program.cbs@,
        semaphores,
        writer,
        reader,
        compute,
        offsets,
        sem_off,
        0,
        slot,
    );
    lemma_finds(
        plan::plan_steps(program, kernels, all, roles),
        core,
        slot,
        slot_arguments(w, a, c, slot),
        slot_image(writer, reader, compute, slot),
        payload::payload_launch(program.cbs@, semaphores, images, offsets, sem_off, 0),
        dispatch::packed_args(w, a, c, semaphores, sem_off),
        payload::payload_shared(program.cbs@, semaphores, images, sem_off),
        payload::local_cb_offset(sem_off, semaphores),
    );
}

/// Once a program was sent to a core with arguments of its own, its launch message leads every
/// processor to the part of these that is meant for it, and to its own code.
pub proof fn lemma_core_finds_own_arguments(
    program: &Program,
    args: &RuntimeArgs,
    kernels: &ProgramKernels,
    all: Seq<CoreCoord>,
    roles: Seq<(Seq<CoreCoord>, bool, bool)>,
    core: CoreCoord,
    r: int,
    slot: int,
    own: CoreArgs,
)
    requires
        0 <= r < roles.len(),
        roles[r].0.contains(core),
        all.contains(core),
        forall|i: int| 0 <= i < roles.len() && i != r ==> !(#[trigger] roles[i]).0.contains(core),
        forall|i: int|
            0 <= i < roles.len() ==> #[trigger] plan::role_checks(program, kernels, roles)(i)
                is None,
        plan::program_sem_off(program) <= usize::MAX,
        args.core_list@.contains(core),
        args.blob_list@.len() == args.core_list@.len(),
        own.0.len() == program.writer_args@.len(),
        own.1.len() == program.reader_args@.len(),
        own.2.len() == program.compute_args@.len(),
        args.blob_list@[args.core_list@.index_of(core)]@ == kernel::args_blob(
            own,
            program.semaphores as int,
        ),
        0 <= slot < 5,
    ensures
        finds(
            lowered::packed_steps(program, args, kernels, all, roles),
            core,
            slot,
            slot_arguments(own.0, own.1, own.2, slot),
            slot_image(
                role_writer(program, kernels, roles[r].2),
                role_reader(program, kernels, roles[r].1),
                role_compute(kernels),
                slot,
            ),
        ),
{
    let sem_off = plan::program_sem_off(program);
    let semaphores = program.semaphores as int;
    let offsets = plan::program_rta_offsets(program);
    let local = payload::local_cb_offset(sem_off, semaphores);
    let images = plan::role_images(program, kernels, roles[r]);
    let writer = role_writer(program, kernels, roles[r].2);
    let reader = role_reader(program, kernels, roles[r].1);
    let compute = role_compute(kernels);
    let launch = payload::payload_launch(program.cbs@, semaphores, images, offsets, sem_off, 0);
    let shared = payload::payload_shared(program.cbs@, semaphores, images, sem_off);
    let block = kernel::args_blob(own, semaphores);
    let steps = lowered::packed_steps(program, args, kernels, all, roles);
    lemma_sem_off(program);
    assert(block == dispatch::packed_args(own.0, own.1, own.2, semaphores, sem_off));
    assert(block.len() <= local);
    lemma_role_launch(program, kernels, roles, r);
    lemma_packed_memory(program, args, kernels, all, roles, core, r, block);
    assert(images == payload::image_list(writer, reader, compute));
    assert forall|i: int| 0 <= i < images.len() implies 0 <= (#[trigger] images[i]).0 < 5 by {}
    assert(plan::role_checks(program, kernels, roles)(r) is None);
    lemma_payload_fields(program.cbs@, semaphores, images, offsets, sem_off, 0);
    lemma_block_holds(launch, own.0, own.1, own.2, semaphores, sem_off, slot);
    lemma_slot_finds_code(
        program.cbs@,
        semaphores,
        writer,
        reader,
        compute,
        offsets,
        sem_off,
        0,
        slot,
    );
    lemma_finds(
        steps,
        core,
        slot,
        slot_arguments(own.0, own.1, own.2, slot),
        slot_image(writer, reader, compute, slot),
        launch,
        block,
        shared,
        local,
    );
}

/// What stands in the memory of a core once a program was sent to it with arguments of its own.
proof fn lemma_packed_memory(
    program: &Program,
    args: &RuntimeArgs,
    kernels: &ProgramKernels,
    all: Seq<CoreCoord>,
    roles: Seq<(Seq<CoreCoord>, bool, bool)>,
    core: CoreCoord,
    r: int,
    block: Seq<u8>,
)
    requires
        0 <= r < roles.len(),
        roles[r].0.contains(core),
        all.contains(core),
        forall|i: int| 0 <= i < roles.len() && i != r ==> !(#[trigger] roles[i]).0.contains(core),
        forall|i: int|
            0 <= i < roles.len() ==> #[trigger] plan::role_checks(program, kernels, roles)(i)
                is None,
        args.core_list@.contains(core),
        args.blob_list@.len() == args.core_list@.len(),
        args.blob_list@[args.core_list@.index_of(core)]@ == block,
        block.len() <= payload::local_cb_offset(
            plan::program_sem_off(program),
            program.semaphores as int,
        ),
    ensures
        ({
            let steps = lowered::packed_steps(program, args, kernels, all, roles);
            let images = plan::role_images(program, kernels, roles[r]);
            let sem_off = plan::program_sem_off(program);
            let semaphores = program.semaphores as int;
            &&& memory(steps, core, 0x70, 96) == payload::payload_launch(
                program.cbs@,
                semaphores,
                images,
                plan::program_rta_offsets(program),
                sem_off,
                0,
            )
            &&& found(steps, core, 0x86B0, block)
            &&& found(
                steps,
                core,
                0x86B0 + payload::local_cb_offset(sem_off, semaphores),
                payload::payload_shared(program.cbs@, semaphores, images, sem_off),
            )
        }),
{
    let planned = plan::plan_steps(program, kernels, all, roles);
    let steps = lowered::packed_steps(program, args, kernels, all, roles);
    let local = payload::local_cb_offset(
        plan::program_sem_off(program),
        program.semaphores as int,
    );
    lemma_sem_off(program);
    lemma_core_memory(program, kernels, all, roles, core, r);
    let n = planned.len() as int;
    let k = args.core_list@.index_of(core);
    assert(steps.len() == n + 1);
    assert(steps[n] == Step::Launch { cores: all });
    assert(steps[n - 1] == Step::WritePacked {
        cores: args.core_list@,
        addr: 0x86B0,
        data: cq::blobs_view(args.blob_list@),
    });
    assert(cq::blobs_view(args.blob_list@)[k] == block);
    assert(steps.take(n - 1) =~= planned.take(n - 1));
    assert forall|addr: int| #[trigger]
        byte_after(steps, n + 1, core, addr) == if 0x86B0 <= addr < 0x86B0 + block.len() {
            Some(block[addr - 0x86B0])
        } else {
            byte_after(planned, n, core, addr)
        } by {
        lemma_after_prefix(steps, planned, n - 1, core, addr);
        assert(byte_after(steps, n + 1, core, addr) == byte_after(steps, n, core, addr));
        assert(planned[n - 1] == Step::Launch { cores: all });
    }
    assert(memory(steps, core, 0x70, 96) =~= memory(planned, core, 0x70, 96));
    let shared = payload::payload_shared(
        program.cbs@,
        program.semaphores as int,
        plan::role_images(program, kernels, roles[r]),
        plan::program_sem_off(program),
    );
    assert forall|i: int| 0 <= i < shared.len() implies byte_after(
        steps,
        n + 1,
        core,
        0x86B0 + local + i,
    ) == Some(#[trigger] shared[i]) by {
        lemma_found_byte(planned, core, 0x86B0 + local, shared, i);
    }
    assert forall|i: int| 0 <= i < block.len() implies byte_after(
        steps,
        n + 1,
        core,
        0x86B0 + i,
    ) == Some(#[trigger] block[i]) by {
        assert(byte_after(steps, n + 1, core, 0x86B0 + i) == Some(block[0x86B0 + i - 0x86B0]));
    }
}

/// Words of what a core finds are found where they stand in it.
proof fn lemma_found_words(
    steps: Seq<Step>,
    core: CoreCoord,
    addr: int,
    data: Seq<u8>,
    at: int,
    words: Seq<u32>,
)
    requires
        found(steps, core, addr, data),
        words_at(data, at, words),
    ensures
        words_at(memory(steps, core, addr + at, 4 * words.len() as int), 0, words),
{
    let part = memory(steps, core, addr + at, 4 * words.len() as int);
    assert forall|j: int| 0 <= j < words.len() implies bytes::u32_at(part, 0 + 4 * j)
        == #[trigger] words[j] by {
        assert(bytes::u32_at(data, at + 4 * j) == words[j]);
        lemma_found_byte(steps, core, addr, data, at + 4 * j);
        lemma_found_byte(steps, core, addr, data, at + 4 * j + 1);
        lemma_found_byte(steps, core, addr, data, at + 4 * j + 2);
        lemma_found_byte(steps, core, addr, data, at + 4 * j + 3);
    }
}

/// Bytes of what a core finds are found where they stand in it.
proof fn lemma_found_bytes(
    steps: Seq<Step>,
    core: CoreCoord,
    addr: int,
    data: Seq<u8>,
    at: int,
    b: Seq<u8>,
)
    requires
        found(steps, core, addr, data),
        bytes_at(data, at, b),
    ensures
        memory(steps, core, addr + at, b.len() as int) == b,
{
    let part = memory(steps, core, addr + at, b.len() as int);
    assert forall|i: int| 0 <= i < b.len() implies part[i] == b[i] by {
        assert(data[at + i] == b[i]);
        lemma_found_byte(steps, core, addr, data, at + i);
    }
    assert(part =~= b);
}

proof fn lemma_found_byte(steps: Seq<Step>, core: CoreCoord, addr: int, data: Seq<u8>, i: int)
    requires
        found(steps, core, addr, data),
        0 <= i < data.len(),
    ensures
        byte_after(steps, steps.len() as int, core, addr + i) == Some(data[i]),
{
    assert(data[i] == data[i]);
}

/// On a grid a core of the first column sends the reader's operand along its row, and a core
/// of the first row sends the writer's along its column; all others receive them.
pub proof fn lemma_roles_by_place(cols: Seq<u8>, rows: Seq<u8>, r: int, core: CoreCoord)
    requires
        cols.len() > 0,
        rows.len() > 0,
        cols.no_duplicates(),
        rows.no_duplicates(),
        0 <= r < plan::grid_roles(cols, rows).len(),
        plan::grid_roles(cols, rows)[r].0.contains(core),
    ensures
        plan::grid_roles(cols, rows)[r].1 <==> core.x != cols[0],
        plan::grid_roles(cols, rows)[r].2 <==> core.y != rows[0],
{
    let (cf, cr) = (cols.take(1), cols.skip(1));
    let (rf, rr) = (rows.take(1), rows.skip(1));
    plan::lemma_grid_holds(cf, rf, core);
    plan::lemma_grid_holds(cr, rf, core);
    plan::lemma_grid_holds(cf, rr, core);
    plan::lemma_grid_holds(cr, rr, core);
    assert(cf.contains(core.x) ==> core.x == cols[0]);
    assert(rf.contains(core.y) ==> core.y == rows[0]);
    assert(cr.contains(core.x) ==> core.x != cols[0]) by {
        if cr.contains(core.x) {
            let i = choose|i: int| 0 <= i < cr.len() && cr[i] == core.x;
            assert(cols[i + 1] == core.x);
        }
    }
    assert(rr.contains(core.y) ==> core.y != rows[0]) by {
        if rr.contains(core.y) {
            let i = choose|i: int| 0 <= i < rr.len() && rr[i] == core.y;
            assert(rows[i + 1] == core.y);
        }
    }
    let corner = (plan::grid_cores(cf, rf), false, false);
    let top = (plan::grid_cores(cr, rf), true, false);
    let left = (plan::grid_cores(cf, rr), false, true);
    let inner = (plan::grid_cores(cr, rr), true, true);
    let role = plan::grid_roles(cols, rows)[r];
    assert(role == corner || role == top || role == left || role == inner);
}

} // verus!
