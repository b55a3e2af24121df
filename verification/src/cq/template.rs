//! The records of a program that is run again and again with other arguments.

use vstd::prelude::*;
use crate::arith;
use crate::bytes;
use crate::cores;
use crate::cq;
use crate::cq::queue;
use crate::cq::{CqAbi, CqCommand, Order};
use crate::dispatch::mcast;
use crate::dispatch::DevMsgs;
use crate::error;
use crate::error::Error;
use crate::hw::{CoreCoord, TensixL1};
use crate::text;

verus! {

/// Why the arguments of a program cannot be sent: there are none, or they differ in size.
pub open spec fn size_refusal(blobs: Seq<Seq<u8>>) -> Option<error::Refusal> {
    if blobs.len() == 0 {
        Some(error::invalid("runtime args are empty"@))
    } else if !cq::uniform(blobs) {
        Some(error::invalid("packed write blobs must have a uniform size"@))
    } else {
        None
    }
}

/// The common size of the arguments of all cores.
pub fn uniform_blob_size(blobs: &[Vec<u8>]) -> (r: Result<usize, Error>)
    ensures
        match r {
            Ok(n) => size_refusal(cq::blobs_view(blobs@)) is None && blobs@.len() > 0 && n
                == blobs@[0]@.len(),
            Err(e) => size_refusal(cq::blobs_view(blobs@)) == Some(e@),
        },
{
    if blobs.len() == 0 {
        return Err(error::invalid_text("runtime args are empty"));
    }
    if !cq::is_uniform(blobs) {
        return Err(error::invalid_text("packed write blobs must have a uniform size"));
    }
    Ok(blobs[0].len())
}

/// The length of a packed write.
proof fn lemma_body_len(head: Seq<u8>, data: Seq<Seq<u8>>, size: int, n: int)
    requires
        0 <= n <= data.len(),
        size >= 0,
        forall|i: int| 0 <= i < data.len() ==> (#[trigger] data[i]).len() == size,
    ensures
        cq::packed_body(head, data, size, n).len() == head.len() + n * arith::round_up(size, 16),
    decreases n,
{
    let stride = arith::round_up(size, 16);
    arith::lemma_round_up(size, 16);
    if n > 0 {
        lemma_body_len(head, data, size, n - 1);
        assert(data[n - 1].len() == size);
        assert(n * stride == (n - 1) * stride + stride) by (nonlinear_arith);
    } else {
        assert(0 * stride == 0) by (nonlinear_arith);
    }
}

/// Exchanging the data of one core exchanges just its bytes.
proof fn lemma_body_update(
    head: Seq<u8>,
    data: Seq<Seq<u8>>,
    size: int,
    n: int,
    i: int,
    b: Seq<u8>,
)
    requires
        0 <= i < data.len(),
        0 <= n <= data.len(),
        b.len() == size,
        size >= 0,
        forall|j: int| 0 <= j < data.len() ==> (#[trigger] data[j]).len() == size,
    ensures
        cq::packed_body(head, data.update(i, b), size, n) == if i < n {
            bytes::overwritten(
                cq::packed_body(head, data, size, n),
                head.len() + i * arith::round_up(size, 16),
                b,
            )
        } else {
            cq::packed_body(head, data, size, n)
        },
    decreases n,
{
    let stride = arith::round_up(size, 16);
    arith::lemma_round_up(size, 16);
    if n > 0 {
        lemma_body_update(head, data, size, n - 1, i, b);
        lemma_body_len(head, data, size, n - 1);
        lemma_body_len(head, data, size, n);
        let front = cq::packed_body(head, data, size, n - 1);
        let new_data = data.update(i, b);
        assert(data[n - 1].len() == size);
        if i < n - 1 {
            assert(i * stride + stride <= (n - 1) * stride) by (nonlinear_arith)
                requires
                    i + 1 <= n - 1,
                    stride >= 0,
            ;
            assert(new_data[n - 1] == data[n - 1]);
            assert(0 <= i * stride) by (nonlinear_arith)
                requires
                    i >= 0,
                    stride >= 0,
            ;
            let at = head.len() + i * stride;
            assert(bytes::overwritten(front, at, b) + cq::aligned(data[n - 1])
                =~= bytes::overwritten(front + cq::aligned(data[n - 1]), at, b));
        } else if i == n - 1 {
            let at = head.len() + i * stride;
            assert(at == front.len());
            assert(new_data[n - 1] == b);
            assert(front + cq::aligned(b) =~= bytes::overwritten(
                front + cq::aligned(data[n - 1]),
                at,
                b,
            ));
        }
    }
}

/// Bytes exchanged in a payload are exchanged in its record, behind the header.
proof fn lemma_relayed_overwritten(abi: CqAbi, payload: Seq<u8>, at: int, b: Seq<u8>)
    requires
        0 <= at,
        at + b.len() <= payload.len(),
    ensures
        bytes::overwritten(cq::relayed(abi, payload), 16 + at, b) == cq::relayed(
            abi,
            bytes::overwritten(payload, at, b),
        ),
{
    reveal(cq::relayed);
    let stride = arith::round_up(16 + payload.len() as int, 64);
    arith::lemma_round_up(16 + payload.len() as int, 64);
    let fields = seq![0u8] + bytes::le2(0) + bytes::le4(payload.len() as int) + bytes::le4(stride);
    let head = cq::header(abi.relay_inline, fields);
    assert(head.len() == 16);
    assert(bytes::overwritten(cq::relayed(abi, payload), 16 + at, b) =~= cq::relayed(
        abi,
        bytes::overwritten(payload, at, b),
    ));
}

/// The record with the arguments of all cores.
pub open spec fn args_record(abi: CqAbi, list: Seq<CoreCoord>, size: int, blobs: Seq<Seq<u8>>) -> Seq<
    u8,
> {
    cq::relayed(abi, cq::packed_record(abi, list, 0x86B0, size, blobs))
}

/// The records of a program, with room for the arguments of its cores.
#[derive(Debug)]
pub struct RuntimeCqTemplate {
    pub abi: CqAbi,
    pub cores: Vec<CoreCoord>,
    pub blob_size: usize,
    pub runtime_blob_start: usize,
    pub runtime_blob_stride: usize,
    pub records_before_runtime: Vec<Vec<u8>>,
    pub runtime_record: Vec<u8>,
    pub records_after_runtime: Vec<Vec<u8>>,
}

/// Whether byte strings are of the given number and size.
pub open spec fn sized(blobs: Seq<Seq<u8>>, n: int, size: int) -> bool {
    &&& blobs.len() == n
    &&& forall|i: int| 0 <= i < n ==> (#[trigger] blobs[i]).len() == size
}

impl RuntimeCqTemplate {
    /// Whether the record of the arguments holds the given ones.
    pub open spec fn holds(&self, blobs: Seq<Seq<u8>>) -> bool {
        &&& sized(blobs, self.cores@.len() as int, self.blob_size as int)
        &&& self.runtime_record@ == args_record(self.abi, self.cores@, self.blob_size as int, blobs)
    }

    pub open spec fn wf(&self) -> bool {
        let n = self.cores@.len() as int;
        &&& self.blob_size <= u16::MAX
        &&& n <= u16::MAX
        &&& self.runtime_blob_start == 16 + cq::body_start(n)
        &&& self.runtime_blob_stride == arith::round_up(self.blob_size as int, 16)
        &&& exists|blobs: Seq<Seq<u8>>| #[trigger] self.holds(blobs)
    }

    /// Whether the template is that of the given cores and size.
    pub fn matches(&self, list: &[CoreCoord], blob_size: usize) -> (r: bool)
        ensures
            r == (self.blob_size == blob_size && self.cores@ == list@),
    {
        self.blob_size == blob_size && cores::same_cores(self.cores.as_slice(), list)
    }
}

/// Where the data for core `i` stands in a packed write lies within it.
proof fn lemma_blob_place(abi: CqAbi, list: Seq<CoreCoord>, size: int, blobs: Seq<Seq<u8>>, i: int)
    requires
        sized(blobs, list.len() as int, size),
        0 <= i < list.len(),
        size >= 0,
    ensures
        ({
            let n = list.len() as int;
            let stride = arith::round_up(size, 16);
            let record = cq::packed_record(abi, list, 0x86B0, size, blobs);
            let at = cq::body_start(n) + i * stride;
            &&& cq::packed_header(abi, list, 0x86B0, size).len() == cq::body_start(n)
            &&& 0 <= at
            &&& at + size <= record.len()
        }),
{
    let n = list.len() as int;
    let stride = arith::round_up(size, 16);
    arith::lemma_round_up(size, 16);
    let head = cq::packed_header(abi, list, 0x86B0, size);
    cq::lemma_packed_header_len(abi, list, 0x86B0, size);
    lemma_body_len(head, blobs, size, n);
    assert(0 <= i * stride && i * stride + stride <= n * stride) by (nonlinear_arith)
        requires
            0 <= i,
            i + 1 <= n,
            stride >= 0,
    ;
}

/// Why arguments cannot be put into a template.
pub open spec fn patch_refusal(cores: int, size: int, blobs: Seq<Seq<u8>>) -> Option<
    error::Refusal,
> {
    if blobs.len() != cores {
        Some(
            error::invalid(
                "packed write core/data length mismatch: "@ + text::dec(cores) + " != "@
                    + text::dec(blobs.len() as int),
            ),
        )
    } else if !sized(blobs, cores, size) {
        Some(error::invalid("packed write blobs must have a uniform size"@))
    } else {
        None
    }
}

/// Arguments with the first `k` exchanged.
pub open spec fn exchanged(blobs: Seq<Seq<u8>>, more: Seq<Seq<u8>>, k: int) -> Seq<Seq<u8>> {
    Seq::new(
        blobs.len(),
        |j: int|
            if j < k {
                more[j]
            } else {
                blobs[j]
            },
    )
}

/// Whether the records before the arguments reset the cores.
pub open spec fn resets(abi: CqAbi, list: Seq<CoreCoord>, records: Seq<Seq<u8>>) -> bool {
    exists|rects: Seq<(CoreCoord, CoreCoord)>|
        {
            &&& #[trigger] mcast::peels(list.to_set(), rects, Set::empty())
            &&& records == queue::relayed_all(
                abi,
                cq::records(
                    abi,
                    (Order::WritePackedLarge {
                        rects,
                        addr: 0x370,
                        data: seq![0u8, 0u8, 0u8, 0xE0u8],
                    }),
                ),
            ) + queue::relayed_all(
                abi,
                cq::records(
                    abi,
                    (Order::WritePackedLarge { rects, addr: 0x3A0, data: bytes::zeros(4) }),
                ),
            )
        }
}

/// The records that start the cores and wait for them.
pub open spec fn launches(abi: CqAbi, list: Seq<CoreCoord>, go: u32, n: int) -> Seq<Seq<u8>>
    decreases n,
{
    if n <= 0 {
        Seq::empty()
    } else {
        launches(abi, list, go, n - 1) + queue::relayed_all(
            abi,
            cq::records(abi, queue::launch_orders(abi, list, go)[n - 1]),
        )
    }
}

/// Whether cores can be addressed in a few writes.
pub open spec fn addressable(list: Seq<CoreCoord>) -> bool {
    &&& forall|i: int|
        0 <= i < list.len() ==> (#[trigger] list[i]).x < 255 && list[i].y < 255
    &&& forall|rects: Seq<(CoreCoord, CoreCoord)>, i: int|
        #![trigger mcast::peels(list.to_set(), rects, Set::empty()), rects[i]]
        mcast::peels(list.to_set(), rects, Set::empty()) && 0 <= i < rects.len() ==> cq::is_rect(
            rects[i],
        )
}

/// Cores of which there are few can be addressed.
pub proof fn lemma_few_addressable(list: Seq<CoreCoord>)
    requires
        list.len() <= 255,
        forall|i: int| 0 <= i < list.len() ==> (#[trigger] list[i]).x < 255 && list[i].y < 255,
    ensures
        addressable(list),
{
    assert forall|rects: Seq<(CoreCoord, CoreCoord)>, i: int|
        #![trigger mcast::peels(list.to_set(), rects, Set::empty()), rects[i]]
        mcast::peels(list.to_set(), rects, Set::empty()) && 0 <= i < rects.len() implies cq::is_rect(
        rects[i],
    ) by {
        mcast::lemma_rect_fits(list, rects, i);
    }
}

fn zero_record(abi: &CqAbi, list: &Vec<CoreCoord>, blob_size: usize) -> (r: Result<
    (Vec<u8>, usize, usize),
    Error,
>)
    requires
        blob_size <= u16::MAX ==> cq::body_start(list@.len() as int) + list@.len()
            * arith::round_up(blob_size as int, 16) + 128 <= usize::MAX,
    ensures
        ({
            let n = list@.len() as int;
            let size = blob_size as int;
            match r {
                Ok((record, start, stride)) => {
                    &&& cq::packed_refusal(n, 0x86B0, size) is None
                    &&& blob_size <= u16::MAX
                    &&& record@ == args_record(
                        *abi,
                        list@,
                        size,
                        Seq::new(n as nat, |i: int| bytes::zeros(size)),
                    )
                    &&& start == 16 + cq::body_start(n)
                    &&& stride == arith::round_up(size, 16)
                },
                Err(e) => cq::packed_refusal(n, 0x86B0, size) == Some(e@),
            }
        }),
{
    let (mut payload, start, stride) = cq::write_packed_payload_header(
        abi,
        list,
        TensixL1::KERNEL_CONFIG_BASE as usize,
        blob_size,
    )?;
    let n: usize = list.len();
    let ghost size = blob_size as int;
    let ghost blobs: Seq<Seq<u8>> = Seq::new(n as nat, |i: int| bytes::zeros(size));
    let ghost head = payload@;
    proof {
        arith::lemma_round_up(size, 16);
        arith::lemma_round_up(16 + 4 * n, 16);
        assert(0 <= stride * n) by (nonlinear_arith);
        assert(stride * n == n * stride) by (nonlinear_arith);
        lemma_zero_body(head, blobs, size, n as int);
    }
    bytes::resize(&mut payload, start + stride * n);
    Ok((cq::relay_inline(abi, payload.as_slice()), 16 + start, stride))
}

/// Zeros as data are zeros behind the start of a packed write.
proof fn lemma_zero_body(head: Seq<u8>, blobs: Seq<Seq<u8>>, size: int, n: int)
    requires
        0 <= n <= blobs.len(),
        size >= 0,
        forall|i: int| 0 <= i < blobs.len() ==> #[trigger] blobs[i] == bytes::zeros(size),
    ensures
        cq::packed_body(head, blobs, size, n) == bytes::resized(
            head,
            head.len() + n * arith::round_up(size, 16),
        ),
    decreases n,
{
    let stride = arith::round_up(size, 16);
    arith::lemma_round_up(size, 16);
    if n > 0 {
        lemma_zero_body(head, blobs, size, n - 1);
        assert(blobs[n - 1] == bytes::zeros(size));
        assert(n * stride == (n - 1) * stride + stride) by (nonlinear_arith);
        assert(0 <= (n - 1) * stride) by (nonlinear_arith)
            requires
                n >= 1,
                stride >= 0,
        ;
        assert(cq::packed_body(head, blobs, size, n) =~= bytes::resized(
            head,
            head.len() + n * stride,
        ));
    } else {
        assert(0 * stride == 0) by (nonlinear_arith);
        assert(head =~= bytes::resized(head, head.len() as int));
    }
}

fn append_all(out: &mut Vec<Vec<u8>>, more: Vec<Vec<u8>>)
    ensures
        cq::blobs_view(final(out)@) == cq::blobs_view(old(out)@) + cq::blobs_view(more@),
{
    let mut more = more;
    let ghost before = cq::blobs_view(out@);
    let ghost added = cq::blobs_view(more@);
    out.append(&mut more);
    assert(cq::blobs_view(out@) =~= before + added);
}

/// Few records of a few bytes can be sent.
proof fn lemma_small_write(abi: CqAbi, rects: Seq<(CoreCoord, CoreCoord)>, addr: int, data: Seq<u8>)
    requires
        abi.packed_large_max_sub_cmds > 0,
        forall|i: int| 0 <= i < rects.len() ==> cq::is_rect(#[trigger] rects[i]),
        data.len() == 4,
    ensures
        queue::sendable(abi, (Order::WritePackedLarge { rects, addr, data })),
{
    let o = Order::WritePackedLarge { rects, addr, data };
    let max = abi.packed_large_max_sub_cmds as int;
    assert forall|i: int| 0 <= i < cq::records(abi, o).len() implies cq::fits(
        (#[trigger] cq::records(abi, o)[i]).len() as int,
    ) by {
        let b = cq::batch(rects, max, i);
        let n = rects.len() as int;
        arith::lemma_ceil_div(n, max);
        arith::lemma_round_up(n, max);
        let count = cq::batch_count(n, max);
        assert((i + 1) * max == i * max + max) by (nonlinear_arith);
        assert(0 <= i * max <= (count - 1) * max) by (nonlinear_arith)
            requires
                0 <= i <= count - 1,
                max > 0,
        ;
        assert((count - 1) * max == count * max - max) by (nonlinear_arith);
        assert(b.len() <= max);
        lemma_large_len(abi, b, addr, data);
    }
}

proof fn lemma_large_len(abi: CqAbi, b: Seq<(CoreCoord, CoreCoord)>, addr: int, data: Seq<u8>)
    requires
        data.len() == 4,
    ensures
        cq::large_record(abi, b, addr, data).len() <= 64 + 28 * b.len(),
{
    let n = b.len() as int;
    lemma_sub_commands_len(abi, b, addr, 4, n);
    lemma_copies_len(cq::aligned(data), n);
    arith::lemma_round_up(4, 16);
    arith::lemma_round_up(16 + 12 * n, 16);
    assert(cq::aligned(data).len() == 16);
}

proof fn lemma_sub_commands_len(
    abi: CqAbi,
    b: Seq<(CoreCoord, CoreCoord)>,
    addr: int,
    len: int,
    n: int,
)
    requires
        n >= 0,
    ensures
        cq::sub_commands(abi, b, addr, len, n).len() == 12 * n,
    decreases n,
{
    if n > 0 {
        lemma_sub_commands_len(abi, b, addr, len, n - 1);
    }
}

proof fn lemma_copies_len(s: Seq<u8>, n: int)
    requires
        n >= 0,
    ensures
        cq::copies(s, n).len() == n * s.len(),
    decreases n,
{
    let m = s.len() as int;
    if n > 0 {
        lemma_copies_len(s, n - 1);
        assert(n * m == (n - 1) * m + m) by (nonlinear_arith);
    } else {
        assert(0 * m == 0) by (nonlinear_arith);
    }
}

fn reset_records(abi: &CqAbi, list: &Vec<CoreCoord>) -> (r: Result<Vec<Vec<u8>>, Error>)
    requires
        abi.packed_large_max_sub_cmds > 0,
        addressable(list@),
    ensures
        r is Ok,
        resets(*abi, list@, cq::blobs_view(r->Ok_0@)),
{
    let rects = mcast::mcast_rects(list.as_slice());
    let ghost all = rects@;
    let reset: Vec<u8> = vec![0u8, 0u8, 0u8, DevMsgs::RUN_MSG_RESET_READ_PTR_FROM_HOST];
    let zero: Vec<u8> = vec![0u8, 0u8, 0u8, 0u8];
    proof {
        assert(reset@ =~= seq![0u8, 0u8, 0u8, 0xE0u8]);
        assert(zero@ =~= bytes::zeros(4));
        assert forall|i: int| 0 <= i < all.len() implies cq::is_rect(#[trigger] all[i]) by {
            assert(mcast::peels(list@.to_set(), all, Set::empty()));
        }
        lemma_small_write(*abi, all, 0x370, reset@);
        lemma_small_write(*abi, all, 0x3A0, zero@);
    }
    let first = CqCommand::WritePackedLarge {
        rects: copy_rects(&rects),
        addr: TensixL1::GO_MSG as usize,
        data: reset,
    };
    let second = CqCommand::WritePackedLarge {
        rects,
        addr: TensixL1::GO_MSG_INDEX as usize,
        data: zero,
    };
    let mut out = queue::relayed_records(abi, &first)?;
    let more = queue::relayed_records(abi, &second)?;
    append_all(&mut out, more);
    Ok(out)
}

fn copy_rects(rects: &Vec<(CoreCoord, CoreCoord)>) -> (r: Vec<(CoreCoord, CoreCoord)>)
    ensures
        r@ == rects@,
{
    let mut out: Vec<(CoreCoord, CoreCoord)> = Vec::new();
    for i in 0..rects.len()
        invariant
            out@ == rects@.take(i as int),
    {
        out.push(rects[i]);
        assert(out@ =~= rects@.take(i + 1));
    }
    assert(rects@.take(rects@.len() as int) =~= rects@);
    out
}

fn launch_records(abi: &CqAbi, list: &Vec<CoreCoord>, go: u32) -> (r: Result<Vec<Vec<u8>>, Error>)
    requires
        abi.packed_large_max_sub_cmds > 0,
        list@.len() <= u16::MAX,
    ensures
        r is Ok,
        cq::blobs_view(r->Ok_0@) == launches(*abi, list@, go, 4),
{
    let copy = cores::copy_cores(list.as_slice(), list.len());
    assert(list@.take(list@.len() as int) =~= list@);
    let mut commands: Vec<CqCommand> = Vec::new();
    queue::push_launch(&mut commands, abi, copy, go);
    let ghost want = queue::launch_orders(*abi, list@, go);
    assert(queue::orders(commands@) =~= want);
    let mut out: Vec<Vec<u8>> = Vec::new();
    assert(cq::blobs_view(out@) =~= launches(*abi, list@, go, 0));
    for i in 0..commands.len()
        invariant
            abi.packed_large_max_sub_cmds > 0,
            list@.len() <= u16::MAX,
            commands@.len() == 4,
            want == queue::launch_orders(*abi, list@, go),
            queue::orders(commands@) == want,
            cq::blobs_view(out@) == launches(*abi, list@, go, i as int),
    {
        proof {
            assert(want[i as int] == commands@[i as int]@);
            cq::lemma_core_words(list@, list@.len() as int);
        }
        let more = queue::relayed_records(abi, &commands[i])?;
        append_all(&mut out, more);
    }
    Ok(out)
}

impl RuntimeCqTemplate {
    /// The template of a program on the given cores, with zeros as arguments.
    pub fn new(abi: CqAbi, list: &[CoreCoord], blob_size: usize, go: u32) -> (r: Result<
        RuntimeCqTemplate,
        Error,
    >)
        requires
            abi.packed_large_max_sub_cmds > 0,
            addressable(list@),
            blob_size <= u16::MAX ==> cq::body_start(list@.len() as int) + list@.len()
                * arith::round_up(blob_size as int, 16) + 128 <= usize::MAX,
        ensures
            ({
                let n = list@.len() as int;
                match r {
                    Ok(t) => {
                        &&& cq::packed_refusal(n, 0x86B0, blob_size as int) is None
                        &&& t.wf()
                        &&& t.abi == abi
                        &&& t.cores@ == list@
                        &&& t.blob_size == blob_size
                        &&& t.holds(
                            Seq::new(n as nat, |i: int| bytes::zeros(blob_size as int)),
                        )
                        &&& resets(abi, list@, cq::blobs_view(t.records_before_runtime@))
                        &&& cq::blobs_view(t.records_after_runtime@) == launches(
                            abi,
                            list@,
                            go,
                            4,
                        )
                    },
                    Err(e) => cq::packed_refusal(n, 0x86B0, blob_size as int) == Some(e@),
                }
            }),
    {
        let cores = cores::copy_cores(list, list.len());
        assert(list@.take(list@.len() as int) =~= list@);
        let records_before_runtime = reset_records(&abi, &cores)?;
        let (runtime_record, runtime_blob_start, runtime_blob_stride) = zero_record(
            &abi,
            &cores,
            blob_size,
        )?;
        let records_after_runtime = launch_records(&abi, &cores, go)?;
        let t = RuntimeCqTemplate {
            abi,
            cores,
            blob_size,
            runtime_blob_start,
            runtime_blob_stride,
            records_before_runtime,
            runtime_record,
            records_after_runtime,
        };
        assert(t.holds(Seq::new(list@.len(), |i: int| bytes::zeros(blob_size as int))));
        Ok(t)
    }

    /// Puts the arguments of all cores into the template; its record is then the
    /// one that a fresh encoding of these arguments gives. Arguments of another size
    /// are refused, and those before them have been put in.
    pub fn patch_runtime_blobs(&mut self, blobs: &[Vec<u8>]) -> (r: Result<(), Error>)
        requires
            old(self).wf(),
        ensures
            final(self).wf(),
            final(self).abi == old(self).abi,
            final(self).cores == old(self).cores,
            final(self).blob_size == old(self).blob_size,
            final(self).records_before_runtime == old(self).records_before_runtime,
            final(self).records_after_runtime == old(self).records_after_runtime,
            ({
                let views = cq::blobs_view(blobs@);
                let refusal = patch_refusal(
                    old(self).cores@.len() as int,
                    old(self).blob_size as int,
                    views,
                );
                match r {
                    Ok(_) => refusal is None && final(self).holds(views),
                    Err(e) => {
                        &&& refusal == Some(e@)
                        &&& views.len() != old(self).cores@.len() ==> final(self).runtime_record
                            == old(self).runtime_record
                        &&& views.len() == old(self).cores@.len() ==> exists|k: int|
                            {
                                &&& 0 <= k < views.len()
                                &&& #[trigger] views[k].len() != old(self).blob_size
                                &&& forall|j: int|
                                    0 <= j < k ==> (#[trigger] views[j]).len() == old(
                                        self,
                                    ).blob_size
                                &&& exists|blobs: Seq<Seq<u8>>| #[trigger]
                                    old(self).holds(blobs) && final(self).holds(
                                        exchanged(blobs, views, k),
                                    )
                            }
                    },
                }
            }),
    {
        let ghost views = cq::blobs_view(blobs@);
        let n: usize = self.cores.len();
        if blobs.len() != n {
            return Err(
                error::invalid_input(
                    text::cat4(
                        "packed write core/data length mismatch: ",
                        text::decimal_usize(n).as_str(),
                        " != ",
                        text::decimal_usize(blobs.len()).as_str(),
                    ),
                ),
            );
        }
        let ghost first = choose|b: Seq<Seq<u8>>| #[trigger] self.holds(b);
        let ghost mut current = first;
        assert(exchanged(first, views, 0) =~= first);
        for i in 0..n
            invariant
                n == self.cores@.len(),
                n == blobs@.len(),
                n <= u16::MAX,
                self.wf(),
                self.abi == old(self).abi,
                self.cores == old(self).cores,
                self.blob_size == old(self).blob_size,
                self.records_before_runtime == old(self).records_before_runtime,
                self.records_after_runtime == old(self).records_after_runtime,
                views == cq::blobs_view(blobs@),
                old(self).holds(first),
                current == exchanged(first, views, i as int),
                self.holds(current),
                forall|j: int| 0 <= j < i ==> (#[trigger] views[j]).len() == self.blob_size,
        {
            assert(views[i as int] == blobs@[i as int]@);
            if blobs[i].len() != self.blob_size {
                proof {
                    assert(views[i as int].len() != self.blob_size);
                }
                return Err(error::invalid_text("packed write blobs must have a uniform size"));
            }
            proof {
                let abi = self.abi;
                let size = self.blob_size as int;
                let stride = arith::round_up(size, 16);
                arith::lemma_round_up(size, 16);
                let list = self.cores@;
                let head = cq::packed_header(abi, list, 0x86B0, size);
                let payload = cq::packed_record(abi, list, 0x86B0, size, current);
                lemma_blob_place(abi, list, size, current, i as int);
                lemma_body_update(head, current, size, n as int, i as int, views[i as int]);
                let at = cq::body_start(n as int) + i * stride;
                lemma_relayed_overwritten(abi, payload, at, views[i as int]);
                cq::lemma_relayed(abi, payload);
                assert(stride * i == i * stride) by (nonlinear_arith);
                assert(0 <= stride * i <= 0x1_0000 * 0x1_0000) by (nonlinear_arith)
                    requires
                        0 <= stride <= 0x1_0000,
                        0 <= i <= 0xffff,
                ;
            }
            let total: usize = self.runtime_record.len();
            let start: usize = self.runtime_blob_start + self.runtime_blob_stride * i;
            bytes::overwrite(&mut self.runtime_record, start, blobs[i].as_slice());
            proof {
                let next = current.update(i as int, views[i as int]);
                assert(self.holds(next));
                assert(next =~= exchanged(first, views, i + 1));
                current = next;
            }
        }
        proof {
            assert(current =~= views);
        }
        Ok(())
    }
}

/// The records of a launch with the arguments that the template holds, in their
/// order: the event that tells the host comes last.
pub open spec fn launch_list(t: &RuntimeCqTemplate, event_id: u32) -> Seq<Seq<u8>> {
    (cq::blobs_view(t.records_before_runtime@).push(t.runtime_record@) + cq::blobs_view(
        t.records_after_runtime@,
    )).push(cq::relayed(t.abi, cq::event_record(t.abi, event_id)))
}

fn push_copy(out: &mut Vec<Vec<u8>>, record: &[u8])
    ensures
        cq::blobs_view(final(out)@) == cq::blobs_view(old(out)@).push(record@),
{
    let ghost before = cq::blobs_view(out@);
    out.push(bytes::copy(record));
    assert(cq::blobs_view(out@) =~= before.push(record@));
}

fn push_copies(out: &mut Vec<Vec<u8>>, records: &Vec<Vec<u8>>)
    ensures
        cq::blobs_view(final(out)@) == cq::blobs_view(old(out)@) + cq::blobs_view(records@),
{
    let ghost start = cq::blobs_view(out@);
    let ghost all = cq::blobs_view(records@);
    assert(cq::blobs_view(out@) =~= start + all.take(0));
    for i in 0..records.len()
        invariant
            all == cq::blobs_view(records@),
            cq::blobs_view(out@) == start + all.take(i as int),
    {
        push_copy(out, records[i].as_slice());
        assert(all[i as int] == records@[i as int]@);
        assert(cq::blobs_view(out@) =~= start + all.take(i + 1));
    }
    assert(all.take(records@.len() as int) =~= all);
}

impl RuntimeCqTemplate {
    /// Lists the records of a launch.
    pub fn launch_records(&self, event_id: u32) -> (r: Vec<Vec<u8>>)
        ensures
            cq::blobs_view(r@) == launch_list(self, event_id),
    {
        let mut out: Vec<Vec<u8>> = Vec::new();
        push_copies(&mut out, &self.records_before_runtime);
        push_copy(&mut out, self.runtime_record.as_slice());
        push_copies(&mut out, &self.records_after_runtime);
        push_copy(&mut out, host_event_record(&self.abi, event_id).as_slice());
        assert(cq::blobs_view(out@) =~= launch_list(self, event_id));
        out
    }
}

/// The record that tells the host that everything before it is done.
pub fn host_event_record(abi: &CqAbi, event_id: u32) -> (r: Vec<u8>)
    ensures
        r@ == cq::relayed(*abi, cq::event_record(*abi, event_id)),
{
    let record = cq::event(abi, event_id);
    assert(record@.len() == 32);
    cq::relay_inline(abi, record.as_slice())
}

} // verus!
