//! What the cores of the command queue find when they are started.

use vstd::prelude::*;
use crate::arith;
use crate::bytes;
use crate::compiler::Firmware;
use crate::cq::queue;
use crate::cq::start;
use crate::cq::{CqAbi, Order};
use crate::device::firmware;
use crate::dispatch::DevMsgs;
use crate::hw::{CoreCoord, TensixL1, TensixMMIO};

verus! {

/// The word that has cores go says so in its last byte, and names the core that they report to
/// in the two before it.
pub proof fn lemma_go_word(master: CoreCoord)
    ensures
        ({
            let s = bytes::le4(queue::go_word_of(master));
            &&& s[3] == DevMsgs::RUN_MSG_GO
            &&& s[2] == master.y
            &&& s[1] == master.x
            &&& s[0] == 0
        }),
{
}

/// Cores are named before they are told to go, nothing is counted as done before that, as many
/// are told to go as there are, and as many are waited for.
pub proof fn lemma_launch_orders(abi: CqAbi, cores: Seq<CoreCoord>, go: u32)
    requires
        cores.len() < 256,
    ensures
        ({
            let list = queue::launch_orders(abi, cores, go);
            exists|named: int, cleared: int, told: int, awaited: int|
                {
                    &&& 0 <= named < told < awaited < list.len()
                    &&& 0 <= cleared < told
                    &&& #[trigger] list[named] == (Order::SetGoSignalNocData { cores })
                    &&& #[trigger] list[cleared] == (Order::WaitStream {
                        stream: abi.done_stream,
                        count: 0,
                        clear: true,
                    })
                    &&& #[trigger] list[told] matches Order::SendGoSignal {
                        go_word,
                        stream,
                        num_unicast,
                        ..
                    } && go_word == go && stream == abi.done_stream && num_unicast == cores.len()
                    &&& #[trigger] list[awaited] matches Order::WaitStream { stream, count, clear }
                        && stream == abi.done_stream && count == cores.len() && clear
                }
        }),
{
    let list = queue::launch_orders(abi, cores, go);
    assert(list[0] == (Order::SetGoSignalNocData { cores }));
    assert(list[1] is WaitStream);
    assert(list[2] is SendGoSignal);
    assert(list[3] is WaitStream);
}

/// The core that reads commands finds the number of pages behind four empty words.
pub proof fn lemma_prefetch_image(pages: u32)
    ensures
        start::prefetch_image(pages).len() == 48,
        bytes::u32_at(start::prefetch_image(pages), 16) == pages,
        forall|i: int|
            0 <= i < 16 || 20 <= i < 48 ==> #[trigger] start::prefetch_image(pages)[i] == 0,
{
    let image = start::prefetch_image(pages);
    let own = bytes::le4(pages as int);
    bytes::lemma_u32_at_le4(pages);
    assert(image[16] == own[0] && image[17] == own[1] && image[18] == own[2] && image[19] == own[3]);
}

/// The byte at an address after the first `n` writes: what the last of them that reaches it
/// writes there.
pub open spec fn byte_after(writes: Seq<(u64, Seq<u8>)>, n: int, addr: int) -> Option<u8>
    decreases n,
{
    if n <= 0 {
        None
    } else {
        let (at, data) = writes[n - 1];
        if at <= addr < at + data.len() {
            Some(data[addr - at])
        } else {
            byte_after(writes, n - 1, addr)
        }
    }
}

/// Whether a core finds these bytes at `addr` after all writes.
pub open spec fn found(writes: Seq<(u64, Seq<u8>)>, addr: int, data: Seq<u8>) -> bool {
    forall|i: int|
        0 <= i < data.len() ==> byte_after(writes, writes.len() as int, addr + i) == Some(
            #[trigger] data[i],
        )
}

/// A core of the command queue finds its arguments, its kernels and the message that describes
/// them, and the word that has it go is written last.
pub proof fn lemma_core_started(
    image: Seq<u8>,
    launch: Seq<u8>,
    first: Seq<u8>,
    second: Seq<u8>,
)
    requires
        image.len() <= start::KERNEL_OFF,
        launch.len() <= TensixL1::GO_MSG - TensixL1::LAUNCH,
        first.len() <= TensixL1::SIZE,
        second.len() <= TensixL1::SIZE,
    ensures
        ({
            let base = TensixL1::KERNEL_CONFIG_BASE as int;
            let alone = start::core_writes(image, launch, first, None);
            let both = start::core_writes(image, launch, first, Some(second));
            let at = start::second_offset(first.len() as int);
            &&& found(alone, base, image)
            &&& found(alone, base + start::KERNEL_OFF, first)
            &&& found(alone, TensixL1::LAUNCH as int, launch)
            &&& found(both, base, image)
            &&& found(both, base + start::KERNEL_OFF, first)
            &&& found(both, base + at, second)
            &&& at % 16 == 0
            &&& found(both, TensixL1::LAUNCH as int, launch)
            &&& alone.last().0 == TensixL1::GO_MSG
            &&& both.last().0 == TensixL1::GO_MSG
            &&& alone.last().1 == both.last().1
            &&& alone.last().1[3] == DevMsgs::RUN_MSG_GO
        }),
{
    let alone = start::core_writes(image, launch, first, None);
    let both = start::core_writes(image, launch, first, Some(second));
    arith::lemma_round_up(start::KERNEL_OFF + first.len() as int, 16);
    reveal_with_fuel(byte_after, 6);
    let base = TensixL1::KERNEL_CONFIG_BASE as int;
    let at = start::second_offset(first.len() as int);
    lemma_go_word(CoreCoord { x: 0, y: 0 });
    assert(alone.len() == 4);
    assert(both.len() == 5);
    assert(alone[0] == (base as u64, image));
    assert(alone[1] == ((base + start::KERNEL_OFF) as u64, first));
    assert(alone[2] == (0x70u64, launch));
    assert(alone[3] == (0x370u64, start::start_word()));
    assert(both[0] == (base as u64, image));
    assert(both[1] == ((base + start::KERNEL_OFF) as u64, first));
    assert(both[2] == ((base + at) as u64, second));
    assert(both[3] == (0x70u64, launch));
    assert(both[4] == (0x370u64, start::start_word()));
}

/// A segment of firmware that takes memory is loaded: its bytes, and zeros behind them up to
/// its size, stand at its address, or as far behind the scratch memory's start as its address is
/// behind that of the core's own memory.
pub proof fn lemma_segment_loaded(f: Firmware, n: int, i: int)
    requires
        0 <= i < n <= f.segments.len(),
        f.segments[i].data.len() > 0 || f.segments[i].memsz > 0,
    ensures
        ({
            let s = f.segments[i];
            let own = TensixMMIO::LOCAL_RAM_START <= s.paddr <= TensixMMIO::LOCAL_RAM_END;
            exists|k: int|
                {
                    let (addr, held) = #[trigger] firmware::segment_spans(f, n)[k];
                    &&& 0 <= k < firmware::segment_spans(f, n).len()
                    &&& own ==> addr - f.scratch_base == s.paddr - TensixMMIO::LOCAL_RAM_START
                    &&& !own ==> addr == s.paddr
                    &&& held.len() == arith::max2(s.data.len() as int, s.memsz as int)
                    &&& held.take(s.data.len() as int) == s.data
                    &&& forall|j: int| s.data.len() <= j < held.len() ==> #[trigger] held[j] == 0
                }
        }),
    decreases n,
{
    let all = firmware::segment_spans(f, n);
    let before = firmware::segment_spans(f, n - 1);
    let s = f.segments[i];
    if i < n - 1 {
        lemma_segment_loaded(f, n - 1, i);
        let own = TensixMMIO::LOCAL_RAM_START <= s.paddr <= TensixMMIO::LOCAL_RAM_END;
        let k = choose|k: int|
            {
                let (addr, held) = #[trigger] before[k];
                &&& 0 <= k < before.len()
                &&& own ==> addr - f.scratch_base == s.paddr - TensixMMIO::LOCAL_RAM_START
                &&& !own ==> addr == s.paddr
                &&& held.len() == arith::max2(s.data.len() as int, s.memsz as int)
                &&& held.take(s.data.len() as int) == s.data
                &&& forall|j: int| s.data.len() <= j < held.len() ==> #[trigger] held[j] == 0
            };
        assert(all[k] == before[k]);
    } else {
        let k = before.len() as int;
        assert(all[k] == (firmware::segment_addr(f.scratch_base, s.paddr), firmware::segment_bytes(
            s,
        )));
        assert(firmware::segment_bytes(s).take(s.data.len() as int) =~= s.data);
    }
}

} // verus!
