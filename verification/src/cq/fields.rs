//! What the device reads out of the records of the command queue.

use vstd::prelude::*;
use crate::arith;
use crate::bytes;
use crate::cq;
use crate::cq::template::RuntimeCqTemplate;
use crate::cq::{CqAbi, Order};
use crate::dispatch::decode;
use crate::hw;
use crate::hw::CoreCoord;

verus! {

/// The first bytes of a command: its number, then its fields.
proof fn lemma_header(id: u8, fields: Seq<u8>)
    requires
        fields.len() <= 15,
    ensures
        cq::header(id, fields).len() == 16,
        cq::header(id, fields)[0] == id,
        forall|i: int| 0 <= i < fields.len() ==> cq::header(id, fields)[1 + i] == #[trigger] fields[i],
{
    let s = seq![id] + fields;
    assert forall|i: int| 0 <= i < fields.len() implies cq::header(id, fields)[1 + i]
        == #[trigger] fields[i] by {
        assert(s[1 + i] == fields[i]);
    }
}

/// A payload is handed on with its length and the length of the record, which holds it in whole
/// lines of sixty-four bytes.
pub proof fn lemma_relay_fields(abi: CqAbi, payload: Seq<u8>)
    requires
        payload.len() + 128 <= u32::MAX,
    ensures
        ({
            let r = cq::relayed(abi, payload);
            &&& r[0] == abi.relay_inline
            &&& bytes::u32_at(r, 4) == payload.len()
            &&& bytes::u32_at(r, 8) == r.len()
            &&& r.len() % 64 == 0
            &&& r.len() < payload.len() + 16 + 64
            &&& decode::bytes_at(r, 16, payload)
        }),
{
    reveal(cq::relayed);
    let stride = arith::round_up(16 + payload.len() as int, 64);
    arith::lemma_round_up(16 + payload.len() as int, 64);
    cq::lemma_relayed(abi, payload);
    let fields = seq![0u8] + bytes::le2(0) + bytes::le4(payload.len() as int) + bytes::le4(stride);
    lemma_header(abi.relay_inline, fields);
    let h = cq::header(abi.relay_inline, fields);
    let r = cq::relayed(abi, payload);
    bytes::lemma_u32_at_le4(payload.len() as u32);
    bytes::lemma_u32_at_le4(stride as u32);
    let (a, b) = (bytes::le4(payload.len() as int), bytes::le4(stride));
    assert(fields.len() == 11);
    assert forall|i: int| 0 <= i < 4 implies #[trigger] r[4 + i] == a[i] by {
        assert(r[4 + i] == h[1 + (3 + i)]);
        assert(fields[3 + i] == a[i]);
    }
    assert forall|i: int| 0 <= i < 4 implies #[trigger] r[8 + i] == b[i] by {
        assert(r[8 + i] == h[1 + (7 + i)]);
        assert(fields[7 + i] == b[i]);
    }
    assert(r[4] == a[0] && r[5] == a[1] && r[6] == a[2] && r[7] == a[3]);
    assert(r[8] == b[0] && r[9] == b[1] && r[10] == b[2] && r[11] == b[3]);
    assert(bytes::u32_at(r, 4) == bytes::u32_at(a, 0));
    assert(bytes::u32_at(r, 8) == bytes::u32_at(b, 0));
    let part = r.subrange(16, 16 + payload.len() as int);
    assert forall|j: int| 0 <= j < payload.len() implies r[16 + j] == #[trigger] payload[j] by {
        assert(part[j] == r[16 + j]);
    }
}

/// The column and the row of a core can be read off its word.
pub proof fn lemma_core_word(c: CoreCoord)
    requires
        c.x < 64,
        c.y < 64,
    ensures
        hw::packed_xy(c.x, c.y) as int % 64 == c.x,
        hw::packed_xy(c.x, c.y) as int / 64 == c.y,
{
    let (x, y) = (c.x, c.y);
    assert(x < 64 && y < 64 ==> (((y as u32) << 6) | x as u32) & 0xffff == (y as u32) * 64 + (
    x as u32)) by (bit_vector);
}

/// The word of core `k` of a list stands at its place.
proof fn lemma_core_word_at(cores: Seq<CoreCoord>, n: int, k: int)
    requires
        0 <= k < n <= cores.len(),
    ensures
        cq::core_words(cores, n).len() == 4 * n,
        bytes::u32_at(cq::core_words(cores, n), 4 * k) == hw::packed_xy(cores[k].x, cores[k].y),
    decreases n,
{
    cq::lemma_core_words(cores, n);
    cq::lemma_core_words(cores, n - 1);
    let before = cq::core_words(cores, n - 1);
    let word = hw::packed_xy(cores[n - 1].x, cores[n - 1].y);
    let all = cq::core_words(cores, n);
    let own = bytes::le4(word as int);
    assert(all == before + own);
    if k < n - 1 {
        lemma_core_word_at(cores, n - 1, k);
        assert(all[4 * k] == before[4 * k] && all[4 * k + 1] == before[4 * k + 1] && all[4 * k + 2]
            == before[4 * k + 2] && all[4 * k + 3] == before[4 * k + 3]);
    } else {
        bytes::lemma_u32_at_le4(word);
        assert(all[4 * k] == own[0] && all[4 * k + 1] == own[1] && all[4 * k + 2] == own[2]
            && all[4 * k + 3] == own[3]);
    }
}

/// Data for core `k` stands behind the data for the cores before it.
proof fn lemma_packed_data(head: Seq<u8>, data: Seq<Seq<u8>>, size: int, n: int, k: int)
    requires
        0 <= k < n <= data.len(),
        size >= 0,
        forall|i: int| 0 <= i < data.len() ==> (#[trigger] data[i]).len() == size,
    ensures
        cq::packed_body(head, data, size, n).len() == head.len() + n * arith::round_up(size, 16),
        decode::bytes_at(
            cq::packed_body(head, data, size, n),
            head.len() + k * arith::round_up(size, 16),
            data[k],
        ),
        forall|i: int|
            0 <= i < head.len() ==> #[trigger] cq::packed_body(head, data, size, n)[i] == head[i],
    decreases n,
{
    let stride = arith::round_up(size, 16);
    arith::lemma_round_up(size, 16);
    let before = cq::packed_body(head, data, size, n - 1);
    let own = cq::aligned(data[n - 1]);
    let all = cq::packed_body(head, data, size, n);
    assert(all == before + own);
    assert(own.len() == stride);
    assert((n - 1) * stride + stride == n * stride) by (nonlinear_arith);
    assert(k * stride >= 0) by (nonlinear_arith)
        requires
            k >= 0,
            stride >= 0,
    ;
    let at = head.len() + k * stride;
    if n > 1 {
        let j = if k < n - 1 {
            k
        } else {
            0
        };
        lemma_packed_data(head, data, size, n - 1, j);
    } else {
        assert(0 * stride == 0);
        assert(before == head);
    }
    assert(before.len() == head.len() + (n - 1) * stride);
    if k < n - 1 {
        assert((k + 1) * stride <= (n - 1) * stride) by (nonlinear_arith)
            requires
                k + 1 <= n - 1,
                stride >= 0,
        ;
        assert((k + 1) * stride == k * stride + stride) by (nonlinear_arith);
        assert forall|i: int| 0 <= i < size implies all[at + i] == #[trigger] data[k][i] by {
            assert(before[at + i] == data[k][i]);
        }
    } else {
        assert forall|i: int| 0 <= i < size implies all[at + i] == #[trigger] data[k][i] by {
            assert(all[before.len() + i] == own[i]);
        }
    }
    assert forall|i: int| 0 <= i < head.len() implies #[trigger] all[i] == head[i] by {
        assert(all[i] == before[i]);
    }
}

/// A packed write names its address, the number of cores and the size of the data of each. Core
/// `k` is named by word `k` behind that, and its data is the one at place `k` behind the words.
pub proof fn lemma_packed_fields(
    abi: CqAbi,
    cores: Seq<CoreCoord>,
    addr: int,
    size: int,
    data: Seq<Seq<u8>>,
    k: int,
)
    requires
        cores.len() <= u16::MAX,
        0 <= size <= u16::MAX,
        0 <= addr <= u32::MAX,
        data.len() == cores.len(),
        forall|i: int| 0 <= i < data.len() ==> (#[trigger] data[i]).len() == size,
        0 <= k < cores.len(),
    ensures
        ({
            let r = cq::packed_record(abi, cores, addr, size, data);
            &&& r[0] == abi.write_packed
            &&& r[1] == abi.packed_flag_none
            &&& bytes::u16_at(r, 2) == cores.len()
            &&& bytes::u16_at(r, 6) == size
            &&& bytes::u32_at(r, 8) == addr
            &&& bytes::u32_at(r, 16 + 4 * k) == hw::packed_xy(cores[k].x, cores[k].y)
            &&& decode::bytes_at(
                r,
                arith::round_up(16 + 4 * cores.len() as int, 16) + k * arith::round_up(size, 16),
                data[k],
            )
        }),
{
    let n = cores.len() as int;
    let fields = seq![abi.packed_flag_none] + bytes::le2(n) + bytes::le2(0) + bytes::le2(size)
        + bytes::le4(addr);
    lemma_header(abi.write_packed, fields);
    let h = cq::header(abi.write_packed, fields);
    let words = cq::core_words(cores, n);
    let head = cq::packed_header(abi, cores, addr, size);
    let r = cq::packed_record(abi, cores, addr, size, data);
    lemma_core_word_at(cores, n, k);
    cq::lemma_packed_header_len(abi, cores, addr, size);
    arith::lemma_round_up(16 + 4 * n, 16);
    lemma_packed_data(head, data, size, n, k);
    assert forall|i: int| 0 <= i < 16 implies #[trigger] r[i] == h[i] by {
        assert(head[i] == (h + words)[i]);
        assert(r[i] == head[i]);
    }
    assert forall|i: int| 0 <= i < 4 * n implies #[trigger] r[16 + i] == words[i] by {
        assert(head[16 + i] == (h + words)[16 + i]);
        assert(r[16 + i] == head[16 + i]);
    }
    bytes::lemma_u16_at_le2(n as u16);
    bytes::lemma_u16_at_le2(size as u16);
    bytes::lemma_u32_at_le4(addr as u32);
    let (a, b, c) = (bytes::le2(n), bytes::le2(size), bytes::le4(addr));
    assert(fields.len() == 11);
    assert(fields[0] == abi.packed_flag_none);
    assert(fields[1] == a[0] && fields[2] == a[1]);
    assert(fields[5] == b[0] && fields[6] == b[1]);
    assert(fields[7] == c[0] && fields[8] == c[1] && fields[9] == c[2] && fields[10] == c[3]);
    assert(h[1] == fields[0]);
    assert(h[2] == fields[1] && h[3] == fields[2]);
    assert(h[6] == fields[5] && h[7] == fields[6]);
    assert(h[8] == fields[7] && h[9] == fields[8] && h[10] == fields[9] && h[11]
        == fields[10]);
    assert(r[16 + 4 * k] == words[4 * k] && r[16 + (4 * k + 1)] == words[4 * k + 1] && r[16 + (4
        * k + 2)] == words[4 * k + 2] && r[16 + (4 * k + 3)] == words[4 * k + 3]);
}

/// The arguments of core `k` stand in the record of a template where they are exchanged.
pub proof fn lemma_template_places(t: RuntimeCqTemplate, blobs: Seq<Seq<u8>>, k: int)
    requires
        t.wf(),
        t.holds(blobs),
        0 <= k < t.cores@.len(),
    ensures
        decode::bytes_at(
            t.runtime_record@,
            t.runtime_blob_start + k * t.runtime_blob_stride,
            blobs[k],
        ),
{
    let size = t.blob_size as int;
    let payload = cq::packed_record(t.abi, t.cores@, 0x86B0, size, blobs);
    lemma_packed_fields(t.abi, t.cores@, 0x86B0, size, blobs, k);
    cq::lemma_relayed(t.abi, payload);
    let r = t.runtime_record@;
    let part = r.subrange(16, 16 + payload.len() as int);
    let at = arith::round_up(16 + 4 * t.cores@.len() as int, 16) + k * arith::round_up(size, 16);
    let own = blobs[k];
    assert forall|j: int| 0 <= j < own.len() implies r[16 + at + j] == #[trigger] own[j] by {
        assert(part[at + j] == r[16 + (at + j)]);
        assert(payload[at + j] == own[j]);
    }
}

/// The write to rectangle `k` stands at its place.
proof fn lemma_sub_command_at(
    abi: CqAbi,
    rects: Seq<(CoreCoord, CoreCoord)>,
    addr: int,
    len: int,
    n: int,
    k: int,
)
    requires
        0 <= k < n <= rects.len(),
    ensures
        cq::sub_commands(abi, rects, addr, len, n).len() == 12 * n,
        decode::bytes_at(
            cq::sub_commands(abi, rects, addr, len, n),
            12 * k,
            cq::sub_command(abi, rects[k], addr, len),
        ),
    decreases n,
{
    let before = cq::sub_commands(abi, rects, addr, len, n - 1);
    let own = cq::sub_command(abi, rects[n - 1], addr, len);
    let all = cq::sub_commands(abi, rects, addr, len, n);
    assert(all == before + own);
    assert(own.len() == 12);
    if n > 1 {
        let j = if k < n - 1 {
            k
        } else {
            0
        };
        lemma_sub_command_at(abi, rects, addr, len, n - 1, j);
    }
    assert(before.len() == 12 * (n - 1));
    let it = cq::sub_command(abi, rects[k], addr, len);
    assert forall|j: int| 0 <= j < it.len() implies all[12 * k + j] == #[trigger] it[j] by {
        if k < n - 1 {
            assert(before[12 * k + j] == it[j]);
        } else {
            assert(all[before.len() + j] == own[j]);
        }
    }
}

/// Copy `k` of a byte string stands behind those before it.
#[verifier::spinoff_prover]
proof fn lemma_copy_at(s: Seq<u8>, n: int, k: int)
    requires
        0 <= k < n,
    ensures
        cq::copies(s, n).len() == n * s.len(),
        decode::bytes_at(cq::copies(s, n), k * s.len(), s),
    decreases n,
{
    let before = cq::copies(s, n - 1);
    let all = cq::copies(s, n);
    let len = s.len() as int;
    let at = k * len;
    assert(all == before + s);
    assert((n - 1) * len + len == n * len) by (nonlinear_arith);
    assert(at >= 0) by (nonlinear_arith)
        requires
            at == k * len,
            k >= 0,
            len >= 0,
    ;
    if n > 1 {
        let j = if k < n - 1 {
            k
        } else {
            0
        };
        lemma_copy_at(s, n - 1, j);
    } else {
        assert(0 * len == 0);
    }
    assert(before.len() == (n - 1) * len);
    if k < n - 1 {
        assert(at + len <= (n - 1) * len) by (nonlinear_arith)
            requires
                at == k * len,
                k + 1 <= n - 1,
                len >= 0,
        ;
        assert forall|j: int| 0 <= j < len implies all[at + j] == #[trigger] s[j] by {
            assert(before[at + j] == s[j]);
        }
    } else {
        assert(at == before.len());
        assert forall|j: int| 0 <= j < len implies all[at + j] == #[trigger] s[j] by {
            assert(all[before.len() + j] == s[j]);
        }
    }
}

/// A large packed write names the number of its rectangles. The write to rectangle `k` names
/// the corners, the address, the length and the number of cores; its data is the copy at
/// place `k` behind the writes, and all copies are the same data.
pub proof fn lemma_large_fields(
    abi: CqAbi,
    rects: Seq<(CoreCoord, CoreCoord)>,
    addr: int,
    data: Seq<u8>,
    k: int,
)
    requires
        rects.len() <= u16::MAX,
        0 <= addr <= u32::MAX,
        1 <= data.len() <= 0x1_0000,
        0 <= k < rects.len(),
        cq::is_rect(rects[k]),
    ensures
        ({
            let r = cq::large_record(abi, rects, addr, data);
            let n = rects.len() as int;
            let at = 16 + 12 * k;
            let (a, b) = rects[k];
            &&& r[0] == abi.write_packed_large
            &&& r[1] == abi.packed_large_type_program_binaries
            &&& bytes::u16_at(r, 2) == n
            &&& bytes::u16_at(r, 4) == 16
            &&& bytes::u32_at(r, at) == cq::rect_word(a, b)
            &&& bytes::u32_at(r, at + 4) == addr
            &&& bytes::u16_at(r, at + 8) == data.len() - 1
            &&& r[at + 10] == (b.x - a.x + 1) * (b.y - a.y + 1)
            &&& r[at + 11] == abi.packed_large_flag_unlink
            &&& decode::bytes_at(
                r,
                arith::round_up(16 + 12 * n, 16) + k * arith::round_up(data.len() as int, 16),
                data,
            )
        }),
{
    let n = rects.len() as int;
    let len = data.len() as int;
    let fields = seq![abi.packed_large_type_program_binaries] + bytes::le2(n) + bytes::le2(16)
        + bytes::le2(0);
    lemma_header(abi.write_packed_large, fields);
    let h = cq::header(abi.write_packed_large, fields);
    let subs = cq::sub_commands(abi, rects, addr, len, n);
    lemma_sub_command_at(abi, rects, addr, len, n, k);
    let front = h + subs;
    let head = cq::aligned(front);
    arith::lemma_round_up(16 + 12 * n, 16);
    arith::lemma_round_up(len, 16);
    let copy = cq::aligned(data);
    lemma_copy_at(copy, n, k);
    let all = cq::copies(copy, n);
    let r = cq::large_record(abi, rects, addr, data);
    assert(r == head + all);
    assert(head.len() == arith::round_up(16 + 12 * n, 16));
    assert(copy.len() == arith::round_up(len, 16));
    assert forall|i: int| 0 <= i < 16 + 12 * n implies #[trigger] r[i] == front[i] by {
        assert(head[i] == front[i]);
    }
    let own = cq::sub_command(abi, rects[k], addr, len);
    let at = 16 + 12 * k;
    assert forall|j: int| 0 <= j < 12 implies r[at + j] == #[trigger] own[j] by {
        assert(subs[12 * k + j] == own[j]);
        assert(front[at + j] == subs[12 * k + j]);
    }
    let (c0, c1) = rects[k];
    let size = (c1.x - c0.x + 1) * (c1.y - c0.y + 1);
    assert(size >= 0) by (nonlinear_arith)
        requires
            size == (c1.x - c0.x + 1) * (c1.y - c0.y + 1),
            c0.x <= c1.x,
            c0.y <= c1.y,
    ;
    bytes::lemma_u16_at_le2(n as u16);
    bytes::lemma_u16_at_le2(16);
    bytes::lemma_u32_at_le4(cq::rect_word(c0, c1));
    bytes::lemma_u32_at_le4(addr as u32);
    bytes::lemma_u16_at_le2((len - 1) as u16);
    let (a, b) = (bytes::le2(n), bytes::le2(16));
    assert(fields[0] == abi.packed_large_type_program_binaries);
    assert(fields[1] == a[0] && fields[2] == a[1] && fields[3] == b[0] && fields[4] == b[1]);
    assert(h[1] == fields[0] && h[2] == fields[1] && h[3] == fields[2] && h[4]
        == fields[3] && h[5] == fields[4]);
    let (x, y, z) = (
        bytes::le4(cq::rect_word(c0, c1) as int),
        bytes::le4(addr),
        bytes::le2(len - 1),
    );
    assert(own[0] == x[0] && own[1] == x[1] && own[2] == x[2] && own[3] == x[3]);
    assert(own[4] == y[0] && own[5] == y[1] && own[6] == y[2] && own[7] == y[3]);
    assert(own[8] == z[0] && own[9] == z[1] && own[10] == size as u8);
    assert(own[11] == abi.packed_large_flag_unlink);
    assert(r[at + 0] == own[0] && r[at + 1] == own[1] && r[at + 2] == own[2] && r[at + 3]
        == own[3]);
    assert(r[at + 4] == own[4] && r[at + 5] == own[5] && r[at + 6] == own[6] && r[at + 7]
        == own[7]);
    assert(r[at + 8] == own[8] && r[at + 9] == own[9] && r[at + 10] == own[10] && r[at + 11]
        == own[11]);
    let place = head.len() + k * copy.len();
    assert forall|j: int| 0 <= j < len implies r[place + j] == #[trigger] data[j] by {
        assert(all[k * copy.len() + j] == copy[j]);
        assert(r[head.len() + (k * copy.len() + j)] == all[k * copy.len() + j]);
    }
    assert((k + 1) * copy.len() <= n * copy.len()) by (nonlinear_arith)
        requires
            k + 1 <= n,
            copy.len() >= 0,
    ;
    assert((k + 1) * copy.len() == k * copy.len() + copy.len()) by (nonlinear_arith);
}

/// Rectangle `k` stands in the batch of its number.
proof fn lemma_batch_of(rects: Seq<(CoreCoord, CoreCoord)>, max: int, k: int)
    requires
        1 <= max <= u16::MAX,
        0 <= k < rects.len(),
    ensures
        ({
            let count = cq::batch_count(rects.len() as int, max);
            let part = cq::batch(rects, max, k / max);
            &&& 0 <= k / max < count
            &&& (count - 1) * max < rects.len() <= count * max
            &&& part.len() == if k / max < count - 1 {
                max
            } else {
                rects.len() - (count - 1) * max
            }
            &&& 0 <= k % max < part.len() <= max
            &&& part[k % max] == rects[k]
        }),
{
    let n = rects.len() as int;
    let i = k / max;
    let j = k % max;
    arith::lemma_ceil_div(n, max);
    let count = arith::ceil_div(n, max);
    let (q, rest) = (n / max, n % max);
    assert(n == q * max + rest && 0 <= rest < max) by (nonlinear_arith)
        requires
            q == n / max,
            rest == n % max,
            max > 0,
    ;
    assert(k == i * max + j && 0 <= j < max) by (nonlinear_arith)
        requires
            i == k / max,
            j == k % max,
            max > 0,
    ;
    assert((count - 1) * max < n <= count * max) by (nonlinear_arith)
        requires
            n == q * max + rest,
            0 <= rest < max,
            count == q + if rest == 0 {
                0int
            } else {
                1int
            },
            max > 0,
    ;
    assert(0 <= i < count) by (nonlinear_arith)
        requires
            k == i * max + j,
            0 <= j < max,
            0 <= k < n,
            n <= count * max,
            max > 0,
    ;
    assert((i + 1) * max == i * max + max) by (nonlinear_arith);
    assert(count * max == (count - 1) * max + max) by (nonlinear_arith);
    if i < count - 1 {
        assert((i + 1) * max <= (count - 1) * max) by (nonlinear_arith)
            requires
                max > 0,
                i + 1 <= count - 1,
        ;
    } else {
        assert(i * max == (count - 1) * max);
    }
    assert(0 <= i * max) by (nonlinear_arith)
        requires
            i >= 0,
            max > 0,
    ;
}

/// Every rectangle is written to once: the records of a large packed write share the rectangles
/// among them in their order, none left out and none written to twice.
pub proof fn lemma_rectangles_shared(
    abi: CqAbi,
    rects: Seq<(CoreCoord, CoreCoord)>,
    addr: int,
    data: Seq<u8>,
    k: int,
)
    requires
        1 <= abi.packed_large_max_sub_cmds <= u16::MAX,
        0 <= addr <= u32::MAX,
        1 <= data.len() <= 0x1_0000,
        forall|i: int| 0 <= i < rects.len() ==> cq::is_rect(#[trigger] rects[i]),
        0 <= k < rects.len(),
    ensures
        ({
            let max = abi.packed_large_max_sub_cmds as int;
            let rs = cq::records(abi, Order::WritePackedLarge { rects, addr, data });
            let r = rs[k / max];
            let (a, b) = rects[k];
            &&& 0 <= k / max < rs.len()
            &&& (rs.len() - 1) * max < rects.len() <= rs.len() * max
            &&& bytes::u16_at(r, 2) == if k / max < rs.len() - 1 {
                max
            } else {
                rects.len() - (rs.len() - 1) * max
            }
            &&& bytes::u32_at(r, 16 + 12 * (k % max)) == cq::rect_word(a, b)
        }),
{
    let max = abi.packed_large_max_sub_cmds as int;
    let i = k / max;
    let part = cq::batch(rects, max, i);
    lemma_batch_of(rects, max, k);
    let rs = cq::records(abi, Order::WritePackedLarge { rects, addr, data });
    let r = cq::large_record(abi, part, addr, data);
    assert(rs.len() == cq::batch_count(rects.len() as int, max));
    assert(rs[i] == r);
    assert(bytes::u16_at(r, 2) == part.len() && bytes::u32_at(r, 16 + 12 * (k % max))
        == cq::rect_word(rects[k].0, rects[k].1)) by {
        lemma_large_fields(abi, part, addr, data, k % max);
    }
}

/// The other commands name what they are told: the word that has the cores go, how many of
/// them are told one by one, and what to wait for before it; the stream and the count to wait
/// for; the cores that go; and the event that the host is told of.
pub proof fn lemma_signal_fields(
    abi: CqAbi,
    go_word: u32,
    stream: u16,
    count: u32,
    unicast: u8,
    id: u32,
)
    ensures
        ({
            let r = cq::records(
                abi,
                Order::SendGoSignal { go_word, stream, count, num_unicast: unicast },
            );
            &&& r.len() == 1
            &&& r[0].len() == 16
            &&& r[0][0] == abi.send_go_signal
            &&& bytes::u32_at(r[0], 1) == go_word
            &&& r[0][5] == abi.go_no_multicast_offset
            &&& r[0][6] == unicast
            &&& bytes::u32_at(r[0], 8) == count
            &&& bytes::u32_at(r[0], 12) == stream
        }),
        ({
            let r = cq::event_record(abi, id);
            &&& r.len() == 32
            &&& r[0] == abi.write_linear_h_host
            &&& r[1] == 1
            &&& bytes::u64_at(r, 8) == r.len()
            &&& bytes::u32_at(r, 16) == id
        }),
{
    let (a, b, c) = (
        bytes::le4(go_word as int),
        bytes::le4(count as int),
        bytes::le4(stream as int),
    );
    let fields = a + seq![abi.go_no_multicast_offset, unicast, 0u8] + b + c;
    lemma_header(abi.send_go_signal, fields);
    let h = cq::header(abi.send_go_signal, fields);
    bytes::lemma_u32_at_le4(go_word);
    bytes::lemma_u32_at_le4(count);
    bytes::lemma_u32_at_le4(stream as u32);
    assert(fields[0] == a[0] && fields[1] == a[1] && fields[2] == a[2] && fields[3] == a[3]);
    assert(fields[7] == b[0] && fields[8] == b[1] && fields[9] == b[2] && fields[10] == b[3]);
    assert(fields[11] == c[0] && fields[12] == c[1] && fields[13] == c[2] && fields[14] == c[3]);
    assert(h[1] == a[0] && h[2] == a[1] && h[3] == a[2] && h[4] == a[3]);
    assert(h[5] == fields[4] && h[6] == fields[5]);
    assert(h[8] == b[0] && h[9] == b[1] && h[10] == b[2] && h[11] == b[3]);
    assert(h[12] == c[0] && h[13] == c[1] && h[14] == c[2] && h[15] == c[3]);
    let r = cq::records(abi, Order::SendGoSignal { go_word, stream, count, num_unicast: unicast });
    assert(r[0] == h);
    let d = bytes::le8(32);
    let more = seq![1u8] + bytes::le2(0) + bytes::le4(0) + d;
    lemma_header(abi.write_linear_h_host, more);
    let e = cq::event_record(abi, id);
    let g = cq::header(abi.write_linear_h_host, more);
    bytes::lemma_u64_at_le8(32);
    bytes::lemma_u32_at_le4(id);
    assert(d.len() == 8);
    assert(more.len() == 15);
    assert forall|i: int| 0 <= i < 8 implies #[trigger] e[8 + i] == d[i] by {
        assert(more[7 + i] == d[i]);
        assert(e[8 + i] == g[1 + (7 + i)]);
    }
    assert(e[8] == d[0] && e[9] == d[1] && e[10] == d[2] && e[11] == d[3]);
    assert(e[12] == d[4] && e[13] == d[5] && e[14] == d[6] && e[15] == d[7]);
    assert(g[1] == more[0]);
    let i4 = bytes::le4(id as int);
    let tail = cq::padded(i4, 16);
    assert(e == g + tail);
    assert(e[16] == i4[0] && e[17] == i4[1] && e[18] == i4[2] && e[19] == i4[3]);
}

/// Waiting names the stream and the count, and whether the stream is cleared then.
pub proof fn lemma_wait_fields(abi: CqAbi, stream: u16, count: u32, clear: bool)
    ensures
        ({
            let r = cq::records(abi, Order::WaitStream { stream, count, clear });
            let flags = abi.wait_flag_wait_stream;
            &&& r.len() == 1
            &&& r[0].len() == 16
            &&& r[0][0] == abi.wait
            &&& clear ==> r[0][1] == flags | abi.wait_flag_clear_stream
            &&& !clear ==> r[0][1] == flags
            &&& bytes::u16_at(r[0], 2) == stream
            &&& bytes::u32_at(r[0], 8) == count
        }),
{
    let flag = abi.wait_flag_wait_stream;
    assert(flag | 0u8 == flag) by (bit_vector);
    let first = if clear {
        flag | abi.wait_flag_clear_stream
    } else {
        flag | 0u8
    };
    let (a, b) = (bytes::le2(stream as int), bytes::le4(count as int));
    let fields = seq![first] + a + bytes::le4(0) + b;
    lemma_header(abi.wait, fields);
    let h = cq::header(abi.wait, fields);
    bytes::lemma_u16_at_le2(stream);
    bytes::lemma_u32_at_le4(count);
    assert(fields[1] == a[0] && fields[2] == a[1]);
    assert(fields[7] == b[0] && fields[8] == b[1] && fields[9] == b[2] && fields[10] == b[3]);
    assert(h[1] == first && h[2] == a[0] && h[3] == a[1]);
    assert(h[8] == b[0] && h[9] == b[1] && h[10] == b[2] && h[11] == b[3]);
    let r = cq::records(abi, Order::WaitStream { stream, count, clear });
    assert(r[0] == h);
}

/// The cores that go are counted and named one by one.
pub proof fn lemma_go_cores(abi: CqAbi, cores: Seq<CoreCoord>, k: int)
    requires
        cores.len() <= u32::MAX,
        0 <= k < cores.len(),
    ensures
        ({
            let r = cq::records(abi, Order::SetGoSignalNocData { cores });
            &&& r.len() == 1
            &&& r[0][0] == abi.set_go_signal_noc_data
            &&& bytes::u32_at(r[0], 4) == cores.len()
            &&& bytes::u32_at(r[0], 16 + 4 * k) == hw::packed_xy(cores[k].x, cores[k].y)
        }),
{
    let n = cores.len() as int;
    let a = bytes::le4(n);
    let fields = seq![0u8] + bytes::le2(0) + a;
    lemma_header(abi.set_go_signal_noc_data, fields);
    let h = cq::header(abi.set_go_signal_noc_data, fields);
    let words = cq::core_words(cores, n);
    lemma_core_word_at(cores, n, k);
    bytes::lemma_u32_at_le4(n as u32);
    let r = cq::records(abi, Order::SetGoSignalNocData { cores })[0];
    assert(r == h + words);
    assert(fields[3] == a[0] && fields[4] == a[1] && fields[5] == a[2] && fields[6] == a[3]);
    assert(h[4] == a[0] && h[5] == a[1] && h[6] == a[2] && h[7] == a[3]);
    assert(r[4] == h[4] && r[5] == h[5] && r[6] == h[6] && r[7] == h[7]);
    assert(r[16 + 4 * k] == words[4 * k] && r[16 + (4 * k + 1)] == words[4 * k + 1] && r[16 + (4
        * k + 2)] == words[4 * k + 2] && r[16 + (4 * k + 3)] == words[4 * k + 3]);
}

} // verus!
