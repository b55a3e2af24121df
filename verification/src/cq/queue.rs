//! Queues of records, and the records of a program that is run again and again.

use vstd::prelude::*;
use crate::bytes;
use crate::cores;
use crate::cq;
use crate::cq::{CqAbi, CqCommand, Order};
use crate::dispatch::mcast;
use crate::dispatch::plan;
use crate::dispatch::plan::{DispatchCommand, Step};
use crate::dispatch::DevMsgs;
use crate::error;
use crate::error::Error;
use crate::hw::CoreCoord;

verus! {

/// The records of a command, each behind the header that has it relayed.
pub open spec fn relayed_all(abi: CqAbi, records: Seq<Seq<u8>>) -> Seq<Seq<u8>> {
    records.map_values(|r: Seq<u8>| cq::relayed(abi, r))
}

/// Whether a command can be encoded on this machine.
pub open spec fn sendable(abi: CqAbi, o: Order) -> bool {
    &&& cq::buildable(o)
    &&& forall|i: int|
        0 <= i < cq::records(abi, o).len() ==> cq::fits(
            (#[trigger] cq::records(abi, o)[i]).len() as int,
        )
}

/// Encodes a command as records that can be relayed.
pub fn relayed_records(abi: &CqAbi, cmd: &CqCommand) -> (r: Result<Vec<Vec<u8>>, Error>)
    requires
        abi.packed_large_max_sub_cmds > 0,
        sendable(*abi, cmd@),
    ensures
        match r {
            Ok(v) => cq::order_refusal(cmd@) is None && cq::blobs_view(v@) == relayed_all(
                *abi,
                cq::records(*abi, cmd@),
            ),
            Err(e) => cq::order_refusal(cmd@) == Some(e@),
        },
{
    let payloads = cmd.to_records(abi)?;
    let ghost want = relayed_all(*abi, cq::records(*abi, cmd@));
    let mut out: Vec<Vec<u8>> = Vec::new();
    assert(cq::blobs_view(out@) =~= want.take(0));
    for i in 0..payloads.len()
        invariant
            sendable(*abi, cmd@),
            cq::blobs_view(payloads@) == cq::records(*abi, cmd@),
            want == relayed_all(*abi, cq::records(*abi, cmd@)),
            cq::blobs_view(out@) == want.take(i as int),
    {
        let ghost before = cq::blobs_view(out@);
        assert(cq::blobs_view(payloads@)[i as int] == payloads@[i as int]@);
        assert(cq::fits(cq::records(*abi, cmd@)[i as int].len() as int));
        let record = cq::relay_inline(abi, payloads[i].as_slice());
        out.push(record);
        proof {
            assert(cq::blobs_view(out@) =~= before.push(record@));
            assert(want.take(i + 1) =~= want.take(i as int).push(want[i as int]));
        }
    }
    assert(want.take(payloads@.len() as int) =~= want);
    Ok(out)
}

/// Where record `n` starts, for records of the given sizes in units of sixteen bytes.
pub open spec fn start_of(sizes: Seq<usize>, n: int) -> int
    decreases n,
{
    if n <= 0 {
        0
    } else {
        start_of(sizes, n - 1) + sizes[n - 1] * 16
    }
}

/// Records one after the other, with their sizes in units of sixteen bytes.
#[derive(Debug)]
pub struct CommandQueue {
    pub stream: Vec<u8>,
    pub sizes_16b: Vec<usize>,
}

/// The records of a stream.
#[verifier::opaque]
pub open spec fn cut(stream: Seq<u8>, sizes: Seq<usize>) -> Seq<Seq<u8>> {
    Seq::new(sizes.len(), |i: int| stream.subrange(start_of(sizes, i), start_of(sizes, i + 1)))
}

proof fn lemma_start_monotone(sizes: Seq<usize>, a: int, b: int)
    requires
        0 <= a <= b,
    ensures
        0 <= start_of(sizes, a) <= start_of(sizes, b),
    decreases b,
{
    if a < b {
        lemma_start_monotone(sizes, a, b - 1);
    } else if a > 0 {
        lemma_start_monotone(sizes, a - 1, a - 1);
    }
}

proof fn lemma_start_prefix(a: Seq<usize>, b: Seq<usize>, n: int)
    requires
        0 <= n <= a.len(),
        n <= b.len(),
        forall|i: int| 0 <= i < n ==> #[trigger] a[i] == b[i],
    ensures
        start_of(a, n) == start_of(b, n),
    decreases n,
{
    if n > 0 {
        lemma_start_prefix(a, b, n - 1);
    }
}

/// A record behind a stream is cut off as it was put there, and the others as before.
proof fn lemma_cut_push(stream: Seq<u8>, sizes: Seq<usize>, record: Seq<u8>)
    requires
        start_of(sizes, sizes.len() as int) == stream.len(),
        record.len() % 16 == 0,
        record.len() <= usize::MAX,
    ensures
        ({
            let more = sizes.push((record.len() / 16) as usize);
            &&& start_of(more, more.len() as int) == stream.len() + record.len()
            &&& cut(stream + record, more) == cut(stream, sizes).push(record)
        }),
{
    reveal(cut);
    let n = sizes.len() as int;
    let more = sizes.push((record.len() / 16) as usize);
    lemma_start_prefix(sizes, more, n);
    assert(start_of(more, n + 1) == start_of(more, n) + record.len());
    let got = cut(stream + record, more);
    let want = cut(stream, sizes).push(record);
    assert forall|i: int| 0 <= i < n + 1 implies got[i] == want[i] by {
        if i < n {
            lemma_start_prefix(sizes, more, i);
            lemma_start_prefix(sizes, more, i + 1);
            lemma_start_monotone(sizes, 0, i);
            lemma_start_monotone(sizes, i, i + 1);
            lemma_start_monotone(sizes, i + 1, n);
            assert(got[i] =~= want[i]);
        } else {
            assert(got[i] =~= record);
        }
    }
    assert(got =~= want);
}

/// Why command `i` of a list is refused.
pub open spec fn command_checks(cmds: Seq<CqCommand>) -> spec_fn(int) -> Option<error::Refusal> {
    |i: int| cq::order_refusal(cmds[i]@)
}

/// The relayed records of the first `n` commands.
pub open spec fn command_records(abi: CqAbi, cmds: Seq<CqCommand>, n: int) -> Seq<Seq<u8>>
    decreases n,
{
    if n <= 0 {
        Seq::empty()
    } else {
        command_records(abi, cmds, n - 1) + relayed_all(abi, cq::records(abi, cmds[n - 1]@))
    }
}

impl CommandQueue {
    pub open spec fn wf(&self) -> bool {
        start_of(self.sizes_16b@, self.sizes_16b@.len() as int) == self.stream@.len()
    }

    /// The records of the queue.
    pub open spec fn contents(&self) -> Seq<Seq<u8>> {
        cut(self.stream@, self.sizes_16b@)
    }

    pub fn new() -> (r: CommandQueue)
        ensures
            r.wf(),
            r.contents() == Seq::<Seq<u8>>::empty(),
    {
        proof {
            reveal(cut);
        }
        let r = CommandQueue { stream: Vec::new(), sizes_16b: Vec::new() };
        assert(r.contents() =~= Seq::<Seq<u8>>::empty());
        r
    }

    /// Appends the records of a command.
    pub fn append(&mut self, abi: &CqAbi, cmd: &CqCommand) -> (r: Result<(), Error>)
        requires
            abi.packed_large_max_sub_cmds > 0,
            sendable(*abi, cmd@),
            old(self).wf(),
        ensures
            final(self).wf(),
            match r {
                Ok(_) => {
                    &&& cq::order_refusal(cmd@) is None
                    &&& final(self).contents() == old(self).contents() + relayed_all(
                        *abi,
                        cq::records(*abi, cmd@),
                    )
                },
                Err(e) => {
                    &&& cq::order_refusal(cmd@) == Some(e@)
                    &&& final(self).contents() == old(self).contents()
                },
            },
    {
        let list = relayed_records(abi, cmd)?;
        let ghost all = relayed_all(*abi, cq::records(*abi, cmd@));
        let ghost start = self.contents();
        assert(start =~= start + all.take(0));
        assert forall|i: int| 0 <= i < all.len() implies (#[trigger] all[i]).len() % 16 == 0 by {
            let payload = cq::records(*abi, cmd@)[i];
            cq::lemma_relayed(*abi, payload);
            assert(all[i] == cq::relayed(*abi, payload));
        }
        assert(all.len() == list@.len());
        assert forall|i: int| 0 <= i < all.len() implies #[trigger] all[i] == list@[i]@ by {}
        for i in 0..list.len()
            invariant
                self.wf(),
                all.len() == list@.len(),
                forall|j: int| 0 <= j < all.len() ==> #[trigger] all[j] == list@[j]@,
                forall|j: int| 0 <= j < all.len() ==> (#[trigger] all[j]).len() % 16 == 0,
                self.contents() == start + all.take(i as int),
        {
            assert(all[i as int] == list@[i as int]@);
            assert((start + all.take(i as int)).push(all[i as int]) =~= start + all.take(i + 1));
            self.push_record(&list[i]);
        }
        assert(all.take(list@.len() as int) =~= all);
        Ok(())
    }

    /// Appends the records of commands up to the first that is refused.
    pub fn extend(&mut self, abi: &CqAbi, cmds: &Vec<CqCommand>) -> (r: Result<(), Error>)
        requires
            abi.packed_large_max_sub_cmds > 0,
            forall|i: int| 0 <= i < cmds@.len() ==> sendable(*abi, #[trigger] cmds@[i]@),
            old(self).wf(),
        ensures
            final(self).wf(),
            ({
                let n = cmds@.len() as int;
                let checks = command_checks(cmds@);
                match r {
                    Ok(_) => {
                        &&& error::first_refusal(0, n, checks) is None
                        &&& final(self).contents() == old(self).contents() + command_records(
                            *abi,
                            cmds@,
                            n,
                        )
                    },
                    Err(e) => {
                        &&& error::first_refusal(0, n, checks) == Some(e@)
                        &&& exists|k: int|
                            0 <= k < n && #[trigger] checks(k) == Some(e@) && (forall|j: int|
                                0 <= j < k ==> #[trigger] checks(j) is None)
                                && final(self).contents() == old(self).contents()
                                + command_records(*abi, cmds@, k)
                    },
                }
            }),
    {
        let n: usize = cmds.len();
        let ghost checks = command_checks(cmds@);
        let ghost start = self.contents();
        assert(start =~= start + command_records(*abi, cmds@, 0));
        for i in 0..n
            invariant
                self.wf(),
                n == cmds@.len(),
                abi.packed_large_max_sub_cmds > 0,
                start == old(self).contents(),
                checks == command_checks(cmds@),
                forall|j: int| 0 <= j < cmds@.len() ==> sendable(*abi, #[trigger] cmds@[j]@),
                forall|j: int| 0 <= j < i ==> #[trigger] checks(j) is None,
                self.contents() == start + command_records(*abi, cmds@, i as int),
        {
            proof {
                error::lemma_first_refusal_skip(0, i as int, n as int, checks);
                assert(sendable(*abi, cmds@[i as int]@));
            }
            match self.append(abi, &cmds[i]) {
                Ok(_) => {
                    assert(checks(i as int) is None);
                    assert(self.contents() =~= start + command_records(*abi, cmds@, i + 1));
                },
                Err(e) => {
                    assert(checks(i as int) == Some(e@));
                    return Err(e);
                },
            }
        }
        proof {
            error::lemma_first_refusal_none(0, n as int, checks);
        }
        Ok(())
    }

    fn push_record(&mut self, record: &Vec<u8>)
        requires
            old(self).wf(),
            record@.len() % 16 == 0,
        ensures
            final(self).wf(),
            final(self).contents() == old(self).contents().push(record@),
    {
        let size: usize = record.len() / 16;
        proof {
            lemma_cut_push(self.stream@, self.sizes_16b@, record@);
        }
        self.sizes_16b.push(size);
        bytes::append(&mut self.stream, record.as_slice());
    }

    /// The records of the queue, in order.
    pub fn split(&self) -> (r: Vec<Vec<u8>>)
        requires
            self.wf(),
        ensures
            cq::blobs_view(r@) == self.contents(),
    {
        proof {
            reveal(cut);
        }
        let mut out: Vec<Vec<u8>> = Vec::new();
        let mut from: usize = 0;
        let n: usize = self.sizes_16b.len();
        assert(cq::blobs_view(out@) =~= self.contents().take(0));
        for i in 0..n
            invariant
                self.wf(),
                n == self.sizes_16b@.len(),
                from == start_of(self.sizes_16b@, i as int),
                cq::blobs_view(out@) == self.contents().take(i as int),
        {
            proof {
                reveal(cut);
                lemma_start_monotone(self.sizes_16b@, 0, i as int);
                lemma_start_monotone(self.sizes_16b@, i + 1, n as int);
            }
            let total: usize = self.stream.len();
            let to: usize = from + self.sizes_16b[i] * 16;
            let record = bytes::copy_range(self.stream.as_slice(), from, to);
            let ghost before = cq::blobs_view(out@);
            out.push(record);
            proof {
                assert(cq::blobs_view(out@) =~= before.push(record@));
                assert(self.contents().take(i + 1) =~= self.contents().take(i as int).push(
                    self.contents()[i as int],
                ));
            }
            from = to;
        }
        assert(self.contents().take(n as int) =~= self.contents());
        out
    }
}

/// The word that starts cores and names the core they report to.
pub open spec fn go_word_of(master: CoreCoord) -> int {
    DevMsgs::RUN_MSG_GO * 0x100_0000 + master.y * 0x1_0000 + master.x * 0x100
}

pub fn go_word(master: CoreCoord) -> (r: u32)
    ensures
        r == go_word_of(master),
{
    DevMsgs::RUN_MSG_GO as u32 * 0x100_0000 + master.y as u32 * 0x1_0000 + master.x as u32 * 0x100
}

/// The commands that start cores and wait until all of them are done.
pub open spec fn launch_orders(abi: CqAbi, cores: Seq<CoreCoord>, go: u32) -> Seq<Order> {
    seq![
        Order::SetGoSignalNocData { cores },
        Order::WaitStream { stream: abi.done_stream, count: 0, clear: true },
        Order::SendGoSignal {
            go_word: go,
            stream: abi.done_stream,
            count: 0,
            num_unicast: (cores.len() % 256) as u8,
        },
        Order::WaitStream {
            stream: abi.done_stream,
            count: (cores.len() % 0x1_0000_0000) as u32,
            clear: true,
        },
    ]
}

/// The commands of a list.
pub open spec fn orders(commands: Seq<CqCommand>) -> Seq<Order> {
    commands.map_values(|c: CqCommand| c@)
}

pub(crate) fn push_launch(out: &mut Vec<CqCommand>, abi: &CqAbi, list: Vec<CoreCoord>, go: u32)
    ensures
        orders(final(out)@) == orders(old(out)@) + launch_orders(*abi, list@, go),
{
    let ghost start = orders(out@);
    let n: usize = list.len();
    let ghost all = list@;
    out.push(CqCommand::SetGoSignalNocData { cores: list });
    out.push(CqCommand::WaitStream { stream: abi.done_stream, count: 0, clear: true });
    out.push(
        CqCommand::SendGoSignal {
            go_word: go,
            stream: abi.done_stream,
            count: 0,
            num_unicast: (n % 256) as u8,
        },
    );
    out.push(
        CqCommand::WaitStream {
            stream: abi.done_stream,
            count: (n as u64 % 0x1_0000_0000) as u32,
            clear: true,
        },
    );
    assert(orders(out@) =~= start + launch_orders(*abi, all, go));
}

/// The number of commands for a step.
pub open spec fn width_of(s: Step) -> int {
    match s {
        Step::Launch { .. } => 4,
        _ => 1,
    }
}

/// The number of commands for the first `n` steps.
pub open spec fn place_of(steps: Seq<Step>, n: int) -> int
    decreases n,
{
    if n <= 0 {
        0
    } else {
        place_of(steps, n - 1) + width_of(steps[n - 1])
    }
}

/// Whether the commands from `at` on are those of a step.
#[verifier::opaque]
pub open spec fn lowered(abi: CqAbi, s: Step, list: Seq<Order>, at: int, go: u32) -> bool {
    match s {
        Step::Write { cores, addr, data } => match list[at] {
            Order::WritePackedLarge { rects, addr: a, data: d } => mcast::peels(
                cores.to_set(),
                rects,
                Set::empty(),
            ) && a == addr && d == data,
            _ => false,
        },
        Step::WritePacked { cores, addr, data } => list[at] == (Order::WritePacked {
            cores,
            addr,
            data,
        }),
        Step::Launch { cores } => list.subrange(at, at + 4) == launch_orders(abi, cores, go),
    }
}

/// Whether the cores of a step have places that can be packed into rectangles.
pub open spec fn placeable(s: Step) -> bool {
    match s {
        Step::Write { cores, .. } => forall|i: int|
            0 <= i < cores.len() ==> (#[trigger] cores[i]).x < 255 && cores[i].y < 255,
        _ => true,
    }
}

proof fn lemma_place(steps: Seq<Step>, a: int, b: int)
    requires
        0 <= a <= b,
    ensures
        0 <= place_of(steps, a),
        place_of(steps, a) + (b - a) <= place_of(steps, b),
    decreases b,
{
    if a < b {
        lemma_place(steps, a, b - 1);
    } else if a > 0 {
        lemma_place(steps, a - 1, a - 1);
    }
}

/// What was lowered stays lowered when commands are added.
proof fn lemma_lowered_front(
    abi: CqAbi,
    s: Step,
    before: Seq<Order>,
    more: Seq<Order>,
    at: int,
    go: u32,
)
    requires
        0 <= at,
        at + width_of(s) <= before.len(),
        lowered(abi, s, before, at, go),
    ensures
        lowered(abi, s, before + more, at, go),
{
    reveal(lowered);
    let all = before + more;
    assert(all[at] == before[at]);
    if s is Launch {
        assert(all.subrange(at, at + 4) =~= before.subrange(at, at + 4));
    }
}

/// What is added is lowered behind what was there.
proof fn lemma_lowered_back(abi: CqAbi, s: Step, before: Seq<Order>, more: Seq<Order>, go: u32)
    requires
        more.len() == width_of(s),
        lowered(abi, s, more, 0, go),
    ensures
        lowered(abi, s, before + more, before.len() as int, go),
{
    reveal(lowered);
    let all = before + more;
    let at = before.len() as int;
    assert(all[at] == more[0]);
    if s is Launch {
        assert(all.subrange(at, at + 4) =~= more.subrange(0, 4));
    }
}

fn lower_step(abi: &CqAbi, command: &DispatchCommand, go: u32) -> (r: Vec<CqCommand>)
    requires
        placeable(command@),
    ensures
        r@.len() == width_of(command@),
        lowered(*abi, command@, orders(r@), 0, go),
{
    proof {
        reveal(lowered);
    }
    let mut out: Vec<CqCommand> = Vec::new();
    match command {
        DispatchCommand::Write { cores, addr, data } => {
            assert(command@->Write_cores == cores@);
            let rects = mcast::mcast_rects(cores.as_slice());
            out.push(
                CqCommand::WritePackedLarge {
                    rects,
                    addr: *addr,
                    data: bytes::copy(data.as_slice()),
                },
            );
        },
        DispatchCommand::WritePacked { cores, addr, data } => {
            let list = cores::copy_cores(cores.as_slice(), cores.len());
            assert(cores@.take(cores@.len() as int) =~= cores@);
            let blobs = copy_blobs(data);
            out.push(CqCommand::WritePacked { cores: list, addr: *addr, data: blobs });
        },
        DispatchCommand::Launch { cores } => {
            let list = cores::copy_cores(cores.as_slice(), cores.len());
            assert(cores@.take(cores@.len() as int) =~= cores@);
            push_launch(&mut out, abi, list, go);
            assert(orders(out@).subrange(0, 4) =~= launch_orders(*abi, cores@, go));
            assert(out@.len() == orders(out@).len());
        },
    }
    out
}

/// Lowers the steps of a dispatch to commands of the queue.
pub fn lower_ir(abi: &CqAbi, commands: Vec<DispatchCommand>, go: u32) -> (r: Vec<CqCommand>)
    requires
        forall|i: int| 0 <= i < commands@.len() ==> placeable(#[trigger] commands@[i]@),
    ensures
        ({
            let steps = plan::steps(commands@);
            &&& r@.len() == place_of(steps, steps.len() as int)
            &&& forall|i: int|
                0 <= i < steps.len() ==> lowered(
                    *abi,
                    #[trigger] steps[i],
                    orders(r@),
                    place_of(steps, i),
                    go,
                )
        }),
{
    let ghost steps = plan::steps(commands@);
    let mut out: Vec<CqCommand> = Vec::new();
    for i in 0..commands.len()
        invariant
            steps == plan::steps(commands@),
            forall|j: int| 0 <= j < commands@.len() ==> placeable(#[trigger] commands@[j]@),
            out@.len() == place_of(steps, i as int),
            forall|j: int|
                0 <= j < i ==> lowered(
                    *abi,
                    #[trigger] steps[j],
                    orders(out@),
                    place_of(steps, j),
                    go,
                ),
    {
        let ghost before = orders(out@);
        assert(steps[i as int] == commands@[i as int]@);
        assert(placeable(commands@[i as int]@));
        let mut more = lower_step(abi, &commands[i], go);
        let ghost added = orders(more@);
        out.append(&mut more);
        proof {
            assert(orders(out@) =~= before + added);
            assert forall|j: int| 0 <= j < i + 1 implies lowered(
                *abi,
                #[trigger] steps[j],
                before + added,
                place_of(steps, j),
                go,
            ) by {
                lemma_place(steps, 0, j);
                if j < i {
                    lemma_place(steps, j + 1, i as int);
                    lemma_lowered_front(*abi, steps[j], before, added, place_of(steps, j), go);
                } else {
                    lemma_lowered_back(*abi, steps[j], before, added, go);
                }
            }
        }
    }
    out
}

/// Copies byte strings.
pub(crate) fn copy_blobs(data: &Vec<Vec<u8>>) -> (r: Vec<Vec<u8>>)
    ensures
        cq::blobs_view(r@) == cq::blobs_view(data@),
{
    let ghost all = cq::blobs_view(data@);
    let mut out: Vec<Vec<u8>> = Vec::new();
    assert(cq::blobs_view(out@) =~= all.take(0));
    for i in 0..data.len()
        invariant
            all == cq::blobs_view(data@),
            cq::blobs_view(out@) == all.take(i as int),
    {
        let ghost before = cq::blobs_view(out@);
        let blob = bytes::copy(data[i].as_slice());
        out.push(blob);
        proof {
            assert(cq::blobs_view(out@) =~= before.push(blob@));
            assert(all.take(i + 1) =~= all.take(i as int).push(all[i as int]));
        }
    }
    assert(all.take(data@.len() as int) =~= all);
    out
}

} // verus!
