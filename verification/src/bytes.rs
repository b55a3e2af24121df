//! Little-endian encoding and byte buffers.

use vstd::prelude::*;

verus! {

/// The two bytes of a 16-bit word.
pub open spec fn le2(v: int) -> Seq<u8> {
    seq![(v % 256) as u8, ((v / 0x100) % 256) as u8]
}

/// The four bytes of a 32-bit word.
pub open spec fn le4(v: int) -> Seq<u8> {
    seq![
        (v % 256) as u8,
        ((v / 0x100) % 256) as u8,
        ((v / 0x1_0000) % 256) as u8,
        ((v / 0x100_0000) % 256) as u8,
    ]
}

/// The eight bytes of a 64-bit word.
pub open spec fn le8(v: int) -> Seq<u8> {
    le4(v % 0x1_0000_0000) + le4(v / 0x1_0000_0000)
}

/// The 16-bit word at offset `o`.
pub open spec fn u16_at(s: Seq<u8>, o: int) -> int {
    s[o] + s[o + 1] * 0x100
}

/// The 32-bit word at offset `o`.
pub open spec fn u32_at(s: Seq<u8>, o: int) -> int {
    s[o] + s[o + 1] * 0x100 + s[o + 2] * 0x1_0000 + s[o + 3] * 0x100_0000
}

/// The 64-bit word at offset `o`.
pub open spec fn u64_at(s: Seq<u8>, o: int) -> int {
    u32_at(s, o) + u32_at(s, o + 4) * 0x1_0000_0000
}

/// Reading what was written gives the 32-bit word back.
pub proof fn lemma_u32_at_le4(v: u32)
    ensures
        le4(v as int).len() == 4,
        u32_at(le4(v as int), 0) == v,
{
}

/// Reading what was written gives the 16-bit word back.
pub proof fn lemma_u16_at_le2(v: u16)
    ensures
        le2(v as int).len() == 2,
        u16_at(le2(v as int), 0) == v,
{
}

/// Reading what was written gives the 64-bit word back.
pub proof fn lemma_u64_at_le8(v: u64)
    ensures
        le8(v as int).len() == 8,
        u64_at(le8(v as int), 0) == v,
{
    let lo = v as int % 0x1_0000_0000;
    let hi = v as int / 0x1_0000_0000;
    assert(le8(v as int).subrange(0, 4) =~= le4(lo));
    assert(le8(v as int).subrange(4, 8) =~= le4(hi));
    lemma_u32_at_le4(lo as u32);
    lemma_u32_at_le4(hi as u32);
}

proof fn lemma_wrapped_bytes(q: int, m: int)
    requires
        0 <= m < 0x1_0000_0000,
        q >= 0,
    ensures
        (q * 0x1_0000_0000 + m) % 256 == m % 256,
        ((q * 0x1_0000_0000 + m) / 0x100) % 256 == (m / 0x100) % 256,
        ((q * 0x1_0000_0000 + m) / 0x1_0000) % 256 == (m / 0x1_0000) % 256,
        ((q * 0x1_0000_0000 + m) / 0x100_0000) % 256 == (m / 0x100_0000) % 256,
{
    let v = q * 0x1_0000_0000 + m;
    assert(v / 0x100 == q * 0x100_0000 + m / 0x100);
    assert(v / 0x1_0000 == q * 0x1_0000 + m / 0x1_0000);
    assert(v / 0x100_0000 == q * 0x100 + m / 0x100_0000);
}

/// Only the low 32 bits of a number stand in its four bytes.
pub proof fn lemma_le4_wraps(v: int)
    requires
        v >= 0,
    ensures
        le4(v) == le4(v % 0x1_0000_0000),
{
    let m = v % 0x1_0000_0000;
    lemma_wrapped_bytes(v / 0x1_0000_0000, m);
    assert(v == v / 0x1_0000_0000 * 0x1_0000_0000 + m);
    assert(le4(v) =~= le4(m));
}

/// Words one after the other.
pub open spec fn words_le(s: Seq<u32>) -> Seq<u8> {
    Seq::new(s.len() * 4, |i: int| le4(s[i / 4] as int)[i % 4])
}

/// `s` cut or filled with zeros to length `n`.
pub open spec fn resized(s: Seq<u8>, n: int) -> Seq<u8> {
    Seq::new(
        n as nat,
        |i: int|
            if i < s.len() {
                s[i]
            } else {
                0u8
            },
    )
}

/// `s` with the bytes from `at` on exchanged for `b`.
pub open spec fn overwritten(s: Seq<u8>, at: int, b: Seq<u8>) -> Seq<u8> {
    Seq::new(
        s.len(),
        |i: int|
            if at <= i < at + b.len() {
                b[i - at]
            } else {
                s[i]
            },
    )
}

/// `n` zero bytes.
pub open spec fn zeros(n: int) -> Seq<u8> {
    Seq::new(n as nat, |i: int| 0u8)
}

pub fn push_u16(out: &mut Vec<u8>, v: u16)
    ensures
        final(out)@ == old(out)@ + le2(v as int),
{
    out.push((v % 256) as u8);
    out.push(((v / 0x100) % 256) as u8);
    assert(out@ =~= old(out)@ + le2(v as int));
}

pub fn push_u32(out: &mut Vec<u8>, v: u32)
    ensures
        final(out)@ == old(out)@ + le4(v as int),
{
    out.push((v % 256) as u8);
    out.push(((v / 0x100) % 256) as u8);
    out.push(((v / 0x1_0000) % 256) as u8);
    out.push(((v / 0x100_0000) % 256) as u8);
    assert(out@ =~= old(out)@ + le4(v as int));
}

pub fn push_u64(out: &mut Vec<u8>, v: u64)
    ensures
        final(out)@ == old(out)@ + le8(v as int),
{
    push_u32(out, (v % 0x1_0000_0000) as u32);
    push_u32(out, (v / 0x1_0000_0000) as u32);
    assert(out@ =~= old(out)@ + le8(v as int));
}

/// Appends words one after the other.
pub fn push_words(out: &mut Vec<u8>, words: &[u32])
    ensures
        final(out)@ == old(out)@ + words_le(words@),
{
    for i in 0..words.len()
        invariant
            out@ == old(out)@ + words_le(words@.take(i as int)),
    {
        push_u32(out, words[i]);
        assert(words_le(words@.take(i + 1)) =~= words_le(words@.take(i as int)) + le4(
            words@[i as int] as int,
        ));
        assert(out@ =~= old(out)@ + words_le(words@.take(i + 1)));
    }
    assert(words@.take(words@.len() as int) =~= words@);
}

/// Words one after the other are the words of the parts one after the other.
pub proof fn lemma_words_le_add(a: Seq<u32>, b: Seq<u32>)
    ensures
        words_le(a + b) == words_le(a) + words_le(b),
{
    assert(words_le(a + b) =~= words_le(a) + words_le(b));
}

pub fn append(out: &mut Vec<u8>, data: &[u8])
    ensures
        final(out)@ == old(out)@ + data@,
{
    for i in 0..data.len()
        invariant
            out@ == old(out)@ + data@.take(i as int),
    {
        out.push(data[i]);
        assert(out@ =~= old(out)@ + data@.take(i + 1));
    }
    assert(data@.take(data@.len() as int) =~= data@);
}

pub fn copy(data: &[u8]) -> (r: Vec<u8>)
    ensures
        r@ == data@,
{
    let mut out: Vec<u8> = Vec::new();
    append(&mut out, data);
    assert(out@ =~= data@);
    out
}

/// Copies bytes `from` to `to` of a slice.
pub fn copy_range(data: &[u8], from: usize, to: usize) -> (r: Vec<u8>)
    requires
        from <= to <= data@.len(),
    ensures
        r@ == data@.subrange(from as int, to as int),
{
    let mut out: Vec<u8> = Vec::new();
    for i in from..to
        invariant
            from <= i <= to <= data@.len(),
            out@ == data@.subrange(from as int, i as int),
    {
        out.push(data[i]);
        assert(out@ =~= data@.subrange(from as int, i + 1));
    }
    out
}

pub fn resize(out: &mut Vec<u8>, n: usize)
    ensures
        final(out)@ == resized(old(out)@, n as int),
{
    if n <= out.len() {
        out.truncate(n);
    } else {
        let start: usize = out.len();
        for i in start..n
            invariant
                start == old(out)@.len(),
                start <= i <= n,
                out@ == resized(old(out)@, i as int),
        {
            out.push(0);
            assert(out@ =~= resized(old(out)@, i + 1));
        }
    }
    assert(out@ =~= resized(old(out)@, n as int));
}

/// Overwrites bytes from offset `at` on.
pub fn overwrite(out: &mut Vec<u8>, at: usize, data: &[u8])
    requires
        at + data@.len() <= old(out)@.len(),
    ensures
        final(out)@ == overwritten(old(out)@, at as int, data@),
{
    let total: usize = out.len();
    for i in 0..data.len()
        invariant
            at + data@.len() <= old(out)@.len() == total,
            out@ == overwritten(old(out)@, at as int, data@.take(i as int)),
    {
        out.set(at + i, data[i]);
        assert(out@ =~= overwritten(old(out)@, at as int, data@.take(i + 1)));
    }
    assert(data@.take(data@.len() as int) =~= data@);
}

/// Overwrites a 32-bit word.
pub fn put_u32(out: &mut Vec<u8>, at: usize, v: u32)
    requires
        at + 4 <= old(out)@.len(),
    ensures
        final(out)@ == overwritten(old(out)@, at as int, le4(v as int)),
{
    let mut w: Vec<u8> = Vec::new();
    push_u32(&mut w, v);
    assert(w@ =~= le4(v as int));
    overwrite(out, at, w.as_slice());
}

/// Reads a 16-bit word.
pub fn get_u16(data: &[u8], at: usize) -> (v: u16)
    requires
        at + 2 <= data@.len(),
    ensures
        v == u16_at(data@, at as int),
{
    let n: usize = data.len();
    data[at] as u16 + data[at + 1] as u16 * 0x100
}

/// Reads a 32-bit word.
pub fn get_u32(data: &[u8], at: usize) -> (v: u32)
    requires
        at + 4 <= data@.len(),
    ensures
        v == u32_at(data@, at as int),
{
    let n: usize = data.len();
    data[at] as u32 + data[at + 1] as u32 * 0x100 + data[at + 2] as u32 * 0x1_0000 + data[at
        + 3] as u32 * 0x100_0000
}

/// Reads a 64-bit word.
pub fn get_u64(data: &[u8], at: usize) -> (v: u64)
    requires
        at + 8 <= data@.len(),
    ensures
        v == u64_at(data@, at as int),
{
    let n: usize = data.len();
    get_u32(data, at) as u64 + get_u32(data, at + 4) as u64 * 0x1_0000_0000
}

/// Whether two byte strings are equal.
pub fn same(a: &[u8], b: &[u8]) -> (r: bool)
    ensures
        r == (a@ == b@),
{
    if a.len() != b.len() {
        return false;
    }
    for i in 0..a.len()
        invariant
            a@.len() == b@.len(),
            forall|j: int| 0 <= j < i ==> a@[j] == b@[j],
    {
        if a[i] != b[i] {
            return false;
        }
    }
    assert(a@ =~= b@);
    true
}

/// Copies a slice of 32-bit words.
pub fn copy_words(v: &[u32]) -> (r: Vec<u32>)
    ensures
        r@ == v@,
{
    let mut out: Vec<u32> = Vec::new();
    for i in 0..v.len()
        invariant
            out@ == v@.take(i as int),
    {
        out.push(v[i]);
        assert(out@ =~= v@.take(i + 1));
    }
    assert(v@.take(v@.len() as int) =~= v@);
    out
}

/// Appends 32-bit words to a list.
pub fn extend_words(out: &mut Vec<u32>, v: &[u32])
    ensures
        final(out)@ == old(out)@ + v@,
{
    for i in 0..v.len()
        invariant
            out@ == old(out)@ + v@.take(i as int),
    {
        out.push(v[i]);
        assert(out@ =~= old(out)@ + v@.take(i + 1));
    }
    assert(v@.take(v@.len() as int) =~= v@);
}

} // verus!
