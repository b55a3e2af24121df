//! What reaches a core through a window.

use vstd::prelude::*;
use crate::bytes;
use crate::compiler::firmware::Entry;
use crate::device::firmware;
use crate::dispatch::mcast;
use crate::dispatch::plan::Step;
use crate::dispatch::window;
use crate::dispatch::window::{Act, Placed};
use crate::dispatch::DevMsgs;
use crate::hw::{CoreCoord, TensixL1, TensixMMIO};

verus! {

/// Where a window points: the first core, the last one where there are several, and the address
/// at which it starts.
pub type Target = (CoreCoord, Option<CoreCoord>, u64);

/// Where the window points after the first `n` steps.
pub open spec fn target(list: Seq<Act>, n: int) -> Option<Target>
    decreases n,
{
    if n <= 0 {
        None
    } else {
        match list[n - 1] {
            Act::Aim { start, end, addr } => Some((start, end, addr)),
            _ => target(list, n - 1),
        }
    }
}

/// The address at which a window starts.
pub open spec fn base_of(t: Option<Target>) -> int {
    match t {
        None => 0,
        Some((_, _, base)) => base as int,
    }
}

/// Whether a core sees what is written to a window.
pub open spec fn sees(t: Option<Target>, core: CoreCoord) -> bool {
    match t {
        None => false,
        Some((start, None, _)) => core == start,
        Some((start, Some(end), _)) => mcast::in_rect((start, end), core),
    }
}

/// What a core receives in the first `n` steps, and at which addresses.
pub open spec fn received(list: Seq<Act>, n: int, core: CoreCoord) -> Seq<Placed>
    decreases n,
{
    if n <= 0 {
        Seq::empty()
    } else {
        let before = received(list, n - 1, core);
        match (list[n - 1], target(list, n - 1)) {
            (Act::Write { offset, data }, Some(t)) => if sees(Some(t), core) {
                before.push((base_of(Some(t)) + offset, data))
            } else {
                before
            },
            _ => before,
        }
    }
}

/// What a core receives in all steps.
pub open spec fn receives(list: Seq<Act>, core: CoreCoord) -> Seq<Placed> {
    received(list, list.len() as int, core)
}

/// Steps in front of others are carried out as if they were alone.
proof fn lemma_front(a: Seq<Act>, b: Seq<Act>, n: int, core: CoreCoord)
    requires
        0 <= n <= a.len(),
    ensures
        target(a + b, n) == target(a, n),
        received(a + b, n, core) == received(a, n, core),
    decreases n,
{
    if n > 0 {
        lemma_front(a, b, n - 1, core);
        assert((a + b)[n - 1] == a[n - 1]);
    }
}

/// Steps that point the window first do the same wherever they stand.
proof fn lemma_behind(a: Seq<Act>, b: Seq<Act>, n: int, core: CoreCoord)
    requires
        1 <= n <= b.len(),
        b[0] is Aim,
    ensures
        target(a + b, a.len() + n) == target(b, n),
        received(a + b, a.len() + n, core) == receives(a, core) + received(b, n, core),
    decreases n,
{
    let all = a + b;
    let at = a.len() + n;
    assert(all[at - 1] == b[n - 1]);
    if n == 1 {
        lemma_front(a, b, a.len() as int, core);
        assert(received(b, 0, core) =~= Seq::<Placed>::empty());
        assert(received(b, 1, core) =~= Seq::<Placed>::empty());
        assert(received(all, at, core) == received(all, at - 1, core));
        assert(receives(a, core) + received(b, 1, core) =~= receives(a, core));
    } else {
        lemma_behind(a, b, n - 1, core);
        assert(target(all, at - 1) == target(b, n - 1));
        let (x, y) = (received(all, at - 1, core), received(b, n - 1, core));
        assert(x == receives(a, core) + y);
        assert(received(all, at, core) =~= receives(a, core) + received(b, n, core));
    }
}

/// Bytes at their addresses, for a window that starts at `base`.
pub open spec fn moved(spans: Seq<Placed>, base: int) -> Seq<Placed> {
    spans.map_values(|s: Placed| (base + s.0, s.1))
}

/// The writes behind one aim.
proof fn lemma_writes(aim: Act, spans: Seq<Placed>, n: int, core: CoreCoord)
    requires
        0 <= n <= spans.len(),
        aim is Aim,
    ensures
        ({
            let list = seq![aim] + window::write_acts(spans, n);
            let t = target(seq![aim], 1);
            &&& list.len() == n + 1
            &&& target(list, n + 1) == t
            &&& t is Some
            &&& receives(list, core) == if sees(t, core) {
                moved(spans.take(n), base_of(t))
            } else {
                Seq::empty()
            }
        }),
    decreases n,
{
    let list = seq![aim] + window::write_acts(spans, n);
    let t = target(seq![aim], 1);
    assert(seq![aim][0] == aim);
    if n == 0 {
        assert(list =~= seq![aim]);
        assert(received(list, 0, core) =~= Seq::<Placed>::empty());
        assert(receives(list, core) =~= Seq::<Placed>::empty());
        assert(moved(spans.take(0), base_of(t)) =~= Seq::<Placed>::empty());
    } else {
        lemma_writes(aim, spans, n - 1, core);
        let before = seq![aim] + window::write_acts(spans, n - 1);
        let write = Act::Write { offset: spans[n - 1].0, data: spans[n - 1].1 };
        assert(list =~= before + seq![write]);
        lemma_front(before, seq![write], n, core);
        assert(list[n] == write);
        let base = base_of(t);
        if sees(t, core) {
            assert(moved(spans.take(n), base) =~= moved(spans.take(n - 1), base).push(
                (base + spans[n - 1].0, spans[n - 1].1),
            ));
        }
    }
}

/// What is written to rectangles that hold each core at most once.
proof fn lemma_rects_receive(
    rects: Seq<(CoreCoord, CoreCoord)>,
    base: u64,
    spans: Seq<Placed>,
    n: int,
    core: CoreCoord,
)
    requires
        0 <= n <= rects.len(),
        forall|i: int, j: int|
            0 <= i < j < rects.len() && #[trigger] mcast::in_rect(rects[i], core)
                ==> !#[trigger] mcast::in_rect(rects[j], core),
    ensures
        receives(window::rect_acts(rects, base, spans, n), core) == if exists|i: int|
            0 <= i < n && #[trigger] mcast::in_rect(rects[i], core) {
            moved(spans, base as int)
        } else {
            Seq::empty()
        },
    decreases n,
{
    if n > 0 {
        lemma_rects_receive(rects, base, spans, n - 1, core);
        let (start, end) = rects[n - 1];
        let aim = Act::Aim { start, end: Some(end), addr: base };
        let before = window::rect_acts(rects, base, spans, n - 1);
        let m = spans.len() as int;
        let own = seq![aim] + window::write_acts(spans, m);
        let all = window::rect_acts(rects, base, spans, n);
        assert(all =~= before + own);
        lemma_writes(aim, spans, m, core);
        assert(own[0] == aim);
        lemma_behind(before, own, own.len() as int, core);
        assert(spans.take(m) =~= spans);
        assert(seq![aim][0] == aim);
        assert(target(seq![aim], 1) == Some((start, Some(end), base)));
        if mcast::in_rect(rects[n - 1], core) {
            assert forall|i: int| 0 <= i < n - 1 implies !#[trigger] mcast::in_rect(
                rects[i],
                core,
            ) by {}
            assert(receives(all, core) =~= moved(spans, base as int));
        } else {
            assert(receives(all, core) =~= receives(before, core));
        }
    } else {
        assert(receives(window::rect_acts(rects, base, spans, 0), core) =~= Seq::<
            Placed,
        >::empty());
    }
}

/// What goes to the rectangles of a list of cores is received by each of them once, and by no
/// other core.
pub proof fn lemma_cores_receive(
    cores: Seq<CoreCoord>,
    rects: Seq<(CoreCoord, CoreCoord)>,
    base: u64,
    spans: Seq<Placed>,
    core: CoreCoord,
)
    requires
        mcast::peels(cores.to_set(), rects, Set::empty()),
    ensures
        receives(window::all_acts(rects, base, spans), core) == if cores.contains(core) {
            moved(spans, base as int)
        } else {
            Seq::empty()
        },
{
    mcast::lemma_peels_partition(cores.to_set(), rects);
    lemma_rects_receive(rects, base, spans, rects.len() as int, core);
    assert(cores.to_set().contains(core) <==> cores.contains(core));
}

/// A write to cores reaches each of them once, and no other core.
pub proof fn lemma_write_reaches(
    list: Seq<Act>,
    cores: Seq<CoreCoord>,
    addr: int,
    data: Seq<u8>,
    core: CoreCoord,
)
    requires
        window::carries_out(list, Step::Write { cores, addr, data }),
    ensures
        receives(list, core) == if cores.contains(core) {
            seq![(addr, data)]
        } else {
            Seq::empty()
        },
{
    let spans = seq![(addr, data)];
    let rects = choose|rects: Seq<(CoreCoord, CoreCoord)>|
        {
            &&& #[trigger] mcast::peels(cores.to_set(), rects, Set::empty())
            &&& list == window::all_acts(rects, 0, spans)
        };
    lemma_cores_receive(cores, rects, 0, spans, core);
    assert(moved(spans, 0) =~= spans);
}

proof fn lemma_packed(
    cores: Seq<CoreCoord>,
    addr: int,
    data: Seq<Seq<u8>>,
    n: int,
    core: CoreCoord,
)
    requires
        cores.no_duplicates(),
        0 <= n <= cores.len(),
    ensures
        receives(window::packed_acts(cores, addr, data, n), core) == if exists|k: int|
            0 <= k < n && #[trigger] cores[k] == core {
            seq![(addr, data[cores.index_of(core)])]
        } else {
            Seq::empty()
        },
    decreases n,
{
    let all = window::packed_acts(cores, addr, data, n);
    if n > 0 {
        lemma_packed(cores, addr, data, n - 1, core);
        let before = window::packed_acts(cores, addr, data, n - 1);
        let aim = Act::Aim { start: cores[n - 1], end: None, addr: 0 };
        let write = Act::Write { offset: addr, data: data[n - 1] };
        let own = seq![aim, write];
        assert(all =~= before + own);
        assert(own[0] == aim && own[1] == write);
        lemma_behind(before, own, 2, core);
        assert(received(own, 0, core) =~= Seq::<Placed>::empty());
        assert(received(own, 1, core) =~= Seq::<Placed>::empty());
        assert(target(own, 1) == Some((cores[n - 1], None::<CoreCoord>, 0u64)));
        if cores[n - 1] == core {
            let k = cores.index_of(core);
            assert(cores.contains(core));
            assert(k == n - 1);
            assert(received(own, 2, core) =~= seq![(addr, data[n - 1])]);
            assert(receives(all, core) =~= seq![(addr, data[k])]);
        } else {
            assert(received(own, 2, core) =~= Seq::<Placed>::empty());
            assert(receives(all, core) =~= receives(before, core));
        }
    } else {
        assert(receives(all, core) =~= Seq::<Placed>::empty());
    }
}

/// A packed write reaches each core with what is meant for it, and no other core.
pub proof fn lemma_packed_reaches(
    list: Seq<Act>,
    cores: Seq<CoreCoord>,
    addr: int,
    data: Seq<Seq<u8>>,
    core: CoreCoord,
)
    requires
        window::carries_out(list, Step::WritePacked { cores, addr, data }),
        cores.no_duplicates(),
        cores.len() == data.len(),
    ensures
        receives(list, core) == if cores.contains(core) {
            seq![(addr, data[cores.index_of(core)])]
        } else {
            Seq::empty()
        },
{
    lemma_packed(cores, addr, data, cores.len() as int, core);
    if cores.contains(core) {
        let k = cores.index_of(core);
        assert(cores[k] == core);
    }
}

/// Waiting writes nothing.
proof fn lemma_waiting(a: Seq<Act>, cores: Seq<CoreCoord>, n: int, core: CoreCoord)
    requires
        0 <= n <= cores.len(),
    ensures
        receives(a + window::await_acts(cores, n), core) == receives(a, core),
    decreases n,
{
    let all = a + window::await_acts(cores, n);
    if n > 0 {
        lemma_waiting(a, cores, n - 1, core);
        let before = a + window::await_acts(cores, n - 1);
        let last = Act::Await { core: cores[n - 1] };
        assert(all =~= before + seq![last]);
        lemma_front(before, seq![last], before.len() as int, core);
        assert(all[all.len() - 1] == last);
    } else {
        assert(all =~= a);
    }
}

/// A launch reaches each of its cores with the message to go, and no other core; all of them
/// are waited for, in order, behind everything that is written.
pub proof fn lemma_launch_reaches(list: Seq<Act>, cores: Seq<CoreCoord>, core: CoreCoord, k: int)
    requires
        window::carries_out(list, Step::Launch { cores }),
        0 <= k < cores.len(),
    ensures
        cores.contains(core) ==> {
            let got = receives(list, core);
            &&& got.len() == 1
            &&& got[0].0 == TensixL1::GO_MSG
            &&& got[0].1.len() == 4
            &&& bytes::u32_at(got[0].1, 0) == DevMsgs::RUN_MSG_GO * 0x100_0000
        },
        !cores.contains(core) ==> receives(list, core).len() == 0,
        list[list.len() - cores.len() + k] == (Act::Await { core: cores[k] }),
{
    let go = seq![0u8, 0u8, 0u8, DevMsgs::RUN_MSG_GO];
    let spans = seq![(TensixL1::GO_MSG as int, go)];
    let rects = choose|rects: Seq<(CoreCoord, CoreCoord)>|
        {
            &&& #[trigger] mcast::peels(cores.to_set(), rects, Set::empty())
            &&& list == window::all_acts(rects, 0, spans) + window::await_acts(
                cores,
                cores.len() as int,
            )
        };
    lemma_cores_receive(cores, rects, 0, spans, core);
    lemma_waiting(window::all_acts(rects, 0, spans), cores, cores.len() as int, core);
    assert(moved(spans, 0) =~= spans);
}

/// Stopping the processors writes to each core the register that holds them, at its own
/// address, and to no other core.
pub proof fn lemma_reset_reaches(
    cores: Seq<CoreCoord>,
    rects: Seq<(CoreCoord, CoreCoord)>,
    core: CoreCoord,
)
    requires
        mcast::peels(cores.to_set(), rects, Set::empty()),
    ensures
        receives(firmware::reset_acts(rects), core) == if cores.contains(core) {
            seq![
                (
                    TensixMMIO::RISCV_DEBUG_REG_SOFT_RESET_0 as int,
                    bytes::le4(TensixMMIO::SOFT_RESET_ALL as int),
                ),
            ]
        } else {
            Seq::empty()
        },
{
    let base = firmware::register_window() as u64;
    let spans = firmware::register_write(
        TensixMMIO::RISCV_DEBUG_REG_SOFT_RESET_0,
        TensixMMIO::SOFT_RESET_ALL,
    );
    lemma_cores_receive(cores, rects, base, spans, core);
    assert(moved(spans, base as int) =~= seq![
        (
            TensixMMIO::RISCV_DEBUG_REG_SOFT_RESET_0 as int,
            bytes::le4(TensixMMIO::SOFT_RESET_ALL as int),
        ),
    ]);
}

/// The writes to rectangles start with an aim.
proof fn lemma_first_aims(rects: Seq<(CoreCoord, CoreCoord)>, base: u64, spans: Seq<Placed>, n: int)
    requires
        1 <= n <= rects.len(),
    ensures
        window::rect_acts(rects, base, spans, n).len() > 0,
        window::rect_acts(rects, base, spans, n)[0] is Aim,
    decreases n,
{
    let before = window::rect_acts(rects, base, spans, n - 1);
    if n > 1 {
        lemma_first_aims(rects, base, spans, n - 1);
        assert(window::rect_acts(rects, base, spans, n)[0] == before[0]);
    } else {
        assert(before.len() == 0);
    }
}

/// Starting a core tells each other processor where its firmware starts, each in its own
/// register, and then lets the first one run alone.
pub proof fn lemma_start_reaches(
    set: Seq<Entry>,
    cores: Seq<CoreCoord>,
    rects: Seq<(CoreCoord, CoreCoord)>,
    probe: CoreCoord,
    core: CoreCoord,
)
    requires
        mcast::peels(cores.to_set(), rects, Set::empty()),
        cores.contains(core),
        forall|i: int| 1 <= i < 5 ==> #[trigger] firmware::start_of(set, i) is Some,
    ensures
        ({
            let got = receives(
                firmware::start_acts(rects, firmware::starts(set), probe),
                core,
            );
            &&& got.len() == 5
            &&& got[0] == (
                TensixMMIO::RISCV_DEBUG_REG_NCRISC_RESET_PC as int,
                bytes::le4(firmware::start_of(set, 1)->0 as int),
            )
            &&& got[1] == (
                TensixMMIO::RISCV_DEBUG_REG_TRISC0_RESET_PC as int,
                bytes::le4(firmware::start_of(set, 2)->0 as int),
            )
            &&& got[2] == (
                TensixMMIO::RISCV_DEBUG_REG_TRISC1_RESET_PC as int,
                bytes::le4(firmware::start_of(set, 3)->0 as int),
            )
            &&& got[3] == (
                TensixMMIO::RISCV_DEBUG_REG_TRISC2_RESET_PC as int,
                bytes::le4(firmware::start_of(set, 4)->0 as int),
            )
            &&& got[4] == (
                TensixMMIO::RISCV_DEBUG_REG_SOFT_RESET_0 as int,
                bytes::le4(TensixMMIO::SOFT_RESET_BRISC_ONLY_RUN as int),
            )
        }),
{
    let base = firmware::register_window() as u64;
    let vectors = firmware::starts(set);
    let first = firmware::start_writes(vectors);
    let second = firmware::register_write(
        TensixMMIO::RISCV_DEBUG_REG_SOFT_RESET_0,
        TensixMMIO::SOFT_RESET_BRISC_ONLY_RUN,
    );
    let told = window::all_acts(rects, base, first);
    let gone = window::all_acts(rects, base, second);
    lemma_cores_receive(cores, rects, base, first, core);
    lemma_cores_receive(cores, rects, base, second, core);
    mcast::lemma_peels_partition(cores.to_set(), rects);
    assert(cores.to_set().contains(core));
    lemma_first_aims(rects, base, second, rects.len() as int);
    lemma_behind(told, gone, gone.len() as int, core);
    let aim = Act::Aim { start: probe, end: None, addr: 0 };
    let all = firmware::start_acts(rects, vectors, probe);
    assert(all =~= (told + gone) + seq![aim]);
    lemma_front(told + gone, seq![aim], (told + gone).len() as int, core);
    assert(all[all.len() - 1] == aim);
    assert(receives(all, core) == moved(first, base as int) + moved(second, base as int));
    assert(first.len() == 4);
    assert(first[0] == (vectors[0].0 as int, bytes::le4(vectors[0].1 as int)));
    assert(first[1] == (vectors[1].0 as int, bytes::le4(vectors[1].1 as int)));
    assert(first[2] == (vectors[2].0 as int, bytes::le4(vectors[2].1 as int)));
    assert(first[3] == (vectors[3].0 as int, bytes::le4(vectors[3].1 as int)));
}

} // verus!
