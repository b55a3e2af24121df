//! What goes through a window into the memory of cores, step by step.

use vstd::prelude::*;
use crate::bytes;
use crate::dispatch::mcast;
use crate::dispatch::plan::{DispatchCommand, Step};
use crate::dispatch::DevMsgs;
use crate::error::{Error, ErrorKind};
use crate::hw::{CoreCoord, TensixL1};
use crate::text;

verus! {

/// Bytes and where they go.
#[derive(Debug)]
pub struct Span {
    pub addr: usize,
    pub data: Vec<u8>,
}

/// What a contract says of bytes and where they go.
pub type Placed = (int, Seq<u8>);

pub open spec fn spans_view(s: Seq<Span>) -> Seq<Placed> {
    s.map_values(|x: Span| (x.addr as int, x.data@))
}

/// One step through a window.
#[derive(Debug)]
pub enum WindowStep {
    /// Points the window at a core, or at all cores of a rectangle.
    Aim { start: CoreCoord, end: Option<CoreCoord>, addr: u64 },
    Write { offset: usize, data: Vec<u8> },
    /// Reads a word back, behind all that was written.
    ReadBack { offset: usize },
    /// Waits until a core reports that it is done.
    Await { core: CoreCoord },
}

/// What a contract says of a step.
pub enum Act {
    Aim { start: CoreCoord, end: Option<CoreCoord>, addr: u64 },
    Write { offset: int, data: Seq<u8> },
    ReadBack { offset: int },
    Await { core: CoreCoord },
}

impl View for WindowStep {
    type V = Act;

    open spec fn view(&self) -> Act {
        match self {
            WindowStep::Aim { start, end, addr } => Act::Aim {
                start: *start,
                end: *end,
                addr: *addr,
            },
            WindowStep::Write { offset, data } => Act::Write {
                offset: *offset as int,
                data: data@,
            },
            WindowStep::ReadBack { offset } => Act::ReadBack { offset: *offset as int },
            WindowStep::Await { core } => Act::Await { core: *core },
        }
    }
}

pub open spec fn acts(list: Seq<WindowStep>) -> Seq<Act> {
    list.map_values(|s: WindowStep| s@)
}

pub fn push_step(out: &mut Vec<WindowStep>, step: WindowStep)
    ensures
        acts(final(out)@) == acts(old(out)@).push(step@),
{
    out.push(step);
    assert(acts(out@) =~= acts(old(out)@).push(step@));
}

/// The first `n` writes of a list.
pub open spec fn write_acts(spans: Seq<Placed>, n: int) -> Seq<Act>
    decreases n,
{
    if n <= 0 {
        Seq::empty()
    } else {
        write_acts(spans, n - 1).push(
            Act::Write { offset: spans[n - 1].0, data: spans[n - 1].1 },
        )
    }
}

/// The writes of a list to all cores of the first `n` rectangles, from an address on.
pub open spec fn rect_acts(
    rects: Seq<(CoreCoord, CoreCoord)>,
    addr: u64,
    spans: Seq<Placed>,
    n: int,
) -> Seq<Act>
    decreases n,
{
    if n <= 0 {
        Seq::empty()
    } else {
        let (start, end) = rects[n - 1];
        rect_acts(rects, addr, spans, n - 1).push(Act::Aim { start, end: Some(end), addr })
            + write_acts(spans, spans.len() as int)
    }
}

/// The writes of a list to all cores of all rectangles.
pub open spec fn all_acts(
    rects: Seq<(CoreCoord, CoreCoord)>,
    addr: u64,
    spans: Seq<Placed>,
) -> Seq<Act> {
    rect_acts(rects, addr, spans, rects.len() as int)
}

fn push_writes(out: &mut Vec<WindowStep>, spans: &Vec<Span>)
    ensures
        acts(final(out)@) == acts(old(out)@) + write_acts(
            spans_view(spans@),
            spans@.len() as int,
        ),
{
    let ghost start = acts(out@);
    let ghost placed = spans_view(spans@);
    assert(acts(out@) =~= start + write_acts(placed, 0));
    for i in 0..spans.len()
        invariant
            placed == spans_view(spans@),
            acts(out@) == start + write_acts(placed, i as int),
    {
        let span = &spans[i];
        push_step(
            out,
            WindowStep::Write { offset: span.addr, data: bytes::copy(span.data.as_slice()) },
        );
        assert(placed[i as int] == (span.addr as int, span.data@));
        assert(acts(out@) =~= start + write_acts(placed, i + 1));
    }
}

/// Writes a list to all cores of all rectangles.
pub fn push_all(
    out: &mut Vec<WindowStep>,
    rects: &Vec<(CoreCoord, CoreCoord)>,
    addr: u64,
    spans: &Vec<Span>,
)
    ensures
        acts(final(out)@) == acts(old(out)@) + all_acts(rects@, addr, spans_view(spans@)),
{
    let ghost start = acts(out@);
    let ghost placed = spans_view(spans@);
    assert(acts(out@) =~= start + rect_acts(rects@, addr, placed, 0));
    for i in 0..rects.len()
        invariant
            placed == spans_view(spans@),
            acts(out@) == start + rect_acts(rects@, addr, placed, i as int),
    {
        let (from, to) = rects[i];
        push_step(out, WindowStep::Aim { start: from, end: Some(to), addr });
        push_writes(out, spans);
        assert(acts(out@) =~= start + rect_acts(rects@, addr, placed, i + 1));
    }
}

/// One write to one core for each of the first `n` cores.
pub open spec fn packed_acts(
    cores: Seq<CoreCoord>,
    addr: int,
    data: Seq<Seq<u8>>,
    n: int,
) -> Seq<Act>
    decreases n,
{
    if n <= 0 {
        Seq::empty()
    } else {
        packed_acts(cores, addr, data, n - 1).push(
            Act::Aim { start: cores[n - 1], end: None, addr: 0 },
        ).push(Act::Write { offset: addr, data: data[n - 1] })
    }
}

/// Waits for the first `n` cores, one after the other.
pub open spec fn await_acts(cores: Seq<CoreCoord>, n: int) -> Seq<Act> {
    Seq::new(n as nat, |i: int| Act::Await { core: cores[i] })
}

/// Whether `list` carries out a command: what goes to all cores goes to rectangles
/// that hold each core once; cores that were started are waited for.
pub open spec fn carries_out(list: Seq<Act>, command: Step) -> bool {
    match command {
        Step::Write { cores, addr, data } => exists|rects: Seq<(CoreCoord, CoreCoord)>|
            {
                &&& #[trigger] mcast::peels(cores.to_set(), rects, Set::empty())
                &&& list == all_acts(rects, 0, seq![(addr, data)])
            },
        Step::WritePacked { cores, addr, data } => list == packed_acts(
            cores,
            addr,
            data,
            if cores.len() <= data.len() {
                cores.len() as int
            } else {
                data.len() as int
            },
        ),
        Step::Launch { cores } => exists|rects: Seq<(CoreCoord, CoreCoord)>|
            {
                &&& #[trigger] mcast::peels(cores.to_set(), rects, Set::empty())
                &&& list == all_acts(
                    rects,
                    0,
                    seq![(TensixL1::GO_MSG as int, seq![0u8, 0u8, 0u8, DevMsgs::RUN_MSG_GO])],
                ) + await_acts(cores, cores.len() as int)
            },
    }
}

/// Whether cores can be packed into rectangles.
pub open spec fn packable(cores: Seq<CoreCoord>) -> bool {
    forall|i: int| 0 <= i < cores.len() ==> (#[trigger] cores[i]).x < 255 && cores[i].y < 255
}

/// Whether the cores that a command reaches together can be packed into rectangles.
pub open spec fn reachable(command: Step) -> bool {
    match command {
        Step::Write { cores, .. } => packable(cores),
        Step::WritePacked { .. } => true,
        Step::Launch { cores } => packable(cores),
    }
}

fn write_to_all(cores: &Vec<CoreCoord>, addr: usize, data: &[u8]) -> (out: Vec<WindowStep>)
    requires
        packable(cores@),
    ensures
        exists|rects: Seq<(CoreCoord, CoreCoord)>|
            {
                &&& #[trigger] mcast::peels(cores@.to_set(), rects, Set::empty())
                &&& acts(out@) == all_acts(rects, 0, seq![(addr as int, data@)])
            },
{
    let rects = mcast::mcast_rects(cores.as_slice());
    let mut spans: Vec<Span> = Vec::new();
    spans.push(Span { addr, data: bytes::copy(data) });
    assert(spans_view(spans@) =~= seq![(addr as int, data@)]);
    let mut out: Vec<WindowStep> = Vec::new();
    push_all(&mut out, &rects, 0, &spans);
    assert(acts(out@) =~= all_acts(rects@, 0, seq![(addr as int, data@)]));
    out
}

/// Lists the steps that carry out a command without the command queue.
pub fn slow_steps(command: &DispatchCommand) -> (out: Vec<WindowStep>)
    requires
        reachable(command@),
    ensures
        carries_out(acts(out@), command@),
{
    match command {
        DispatchCommand::Write { cores, addr, data } => write_to_all(
            cores,
            *addr,
            data.as_slice(),
        ),
        DispatchCommand::WritePacked { cores, addr, data } => {
            let n: usize = if cores.len() <= data.len() {
                cores.len()
            } else {
                data.len()
            };
            let ghost blobs = data@.map_values(|b: Vec<u8>| b@);
            let mut out: Vec<WindowStep> = Vec::new();
            assert(acts(out@) =~= packed_acts(cores@, *addr as int, blobs, 0));
            for i in 0..n
                invariant
                    n <= cores@.len(),
                    n <= data@.len(),
                    blobs == data@.map_values(|b: Vec<u8>| b@),
                    acts(out@) == packed_acts(cores@, *addr as int, blobs, i as int),
            {
                push_step(&mut out, WindowStep::Aim { start: cores[i], end: None, addr: 0 });
                push_step(
                    &mut out,
                    WindowStep::Write { offset: *addr, data: bytes::copy(data[i].as_slice()) },
                );
                assert(blobs[i as int] == data@[i as int]@);
            }
            out
        },
        DispatchCommand::Launch { cores } => {
            let go: Vec<u8> = vec![0u8, 0u8, 0u8, DevMsgs::RUN_MSG_GO];
            assert(go@ =~= seq![0u8, 0u8, 0u8, DevMsgs::RUN_MSG_GO]);
            let mut out = write_to_all(cores, TensixL1::GO_MSG as usize, go.as_slice());
            let ghost start = acts(out@);
            assert(acts(out@) =~= start + await_acts(cores@, 0));
            for i in 0..cores.len()
                invariant
                    acts(out@) == start + await_acts(cores@, i as int),
            {
                push_step(&mut out, WindowStep::Await { core: cores[i] });
                assert(acts(out@) =~= start + await_acts(cores@, i + 1));
            }
            out
        },
    }
}

/// Whether the state that a core reports says that it is done.
pub fn is_done(state: u8) -> (r: bool)
    ensures
        r == (state == DevMsgs::RUN_MSG_DONE),
{
    state == DevMsgs::RUN_MSG_DONE
}

/// The failure of a core that is not done in time.
pub fn core_timeout(core: CoreCoord) -> (e: Error)
    ensures
        e@ == (ErrorKind::TimedOut, "timeout waiting for core "@ + core.shown()),
{
    Error::new(
        ErrorKind::TimedOut,
        text::cat2("timeout waiting for core ", core.to_string().as_str()),
    )
}

} // verus!
