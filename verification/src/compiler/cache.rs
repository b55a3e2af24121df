//! The form in which compiled kernels and firmware are kept between runs.

use vstd::prelude::*;
use vstd::utf8::*;
use crate::bytes;
use crate::compiler::elf;
use crate::compiler::{CompiledKernel, Image};
use crate::error;
use crate::error::{Error, ErrorKind};
use crate::text;

verus! {

/// A part that was read, and where the next one starts.
pub type Part<T> = Result<(T, int), error::Refusal>;

/// The next `n` bytes.
#[verifier::opaque]
pub open spec fn take(data: Seq<u8>, at: int, n: int) -> Part<Seq<u8>> {
    if at + n > usize::MAX {
        Err(elf::bad_data("cache offset overflow"@))
    } else if at + n > data.len() {
        Err((ErrorKind::UnexpectedEof, "short cache read"@))
    } else {
        Ok((data.subrange(at, at + n), at + n))
    }
}

/// The next 32-bit word.
#[verifier::opaque]
pub open spec fn take_u32(data: Seq<u8>, at: int) -> Part<int> {
    match take(data, at, 4) {
        Ok((b, next)) => Ok((bytes::u32_at(b, 0), next)),
        Err(e) => Err(e),
    }
}

/// The next 64-bit word.
#[verifier::opaque]
pub open spec fn take_u64(data: Seq<u8>, at: int) -> Part<int> {
    match take(data, at, 8) {
        Ok((b, next)) => Ok((bytes::u64_at(b, 0), next)),
        Err(e) => Err(e),
    }
}

/// The next bytes of a length that was read before.
#[verifier::opaque]
pub open spec fn take_sized(data: Seq<u8>, at: int, n: int) -> Part<Seq<u8>> {
    if n > usize::MAX {
        Err(elf::bad_data("cache length overflow"@))
    } else {
        take(data, at, n)
    }
}

/// The next bytes, behind their length.
#[verifier::opaque]
pub open spec fn take_bytes(data: Seq<u8>, at: int) -> Part<Seq<u8>> {
    match take_u64(data, at) {
        Ok((n, next)) => take_sized(data, next, n),
        Err(e) => Err(e),
    }
}

/// A word with the length, then the bytes.
pub open spec fn sized(b: Seq<u8>) -> Seq<u8> {
    bytes::le8(b.len() as int) + b
}

pub(crate) fn push_bytes(out: &mut Vec<u8>, data: &[u8])
    ensures
        final(out)@ == old(out)@ + sized(data@),
{
    bytes::push_u64(out, data.len() as u64);
    bytes::append(out, data);
    assert(out@ =~= old(out)@ + sized(data@));
}

pub(crate) struct CacheReader<'a> {
    pub(crate) data: &'a [u8],
    pub(crate) offset: usize,
}

impl<'a> CacheReader<'a> {
    pub(crate) fn read_exact(&mut self, len: usize) -> (r: Result<Vec<u8>, Error>)
        requires
            old(self).offset <= old(self).data@.len(),
        ensures
            final(self).data == old(self).data,
            match r {
                Ok(b) => {
                    &&& take(old(self).data@, old(self).offset as int, len as int) == Ok::<
                        (Seq<u8>, int),
                        error::Refusal,
                    >((b@, final(self).offset as int))
                    &&& b@.len() == len
                    &&& final(self).offset <= final(self).data@.len()
                },
                Err(e) => take(old(self).data@, old(self).offset as int, len as int) == Err::<
                    (Seq<u8>, int),
                    error::Refusal,
                >(e@),
            },
    {
        proof {
            reveal(take);
        }
        let total: usize = self.data.len();
        let end: usize = match self.offset.checked_add(len) {
            Some(end) => end,
            None => {
                return Err(elf::invalid_data("cache offset overflow"));
            },
        };
        if end > total {
            return Err(Error::new(ErrorKind::UnexpectedEof, "short cache read".to_owned()));
        }
        let b = bytes::copy_range(self.data, self.offset, end);
        self.offset = end;
        Ok(b)
    }

    pub(crate) fn read_u32(&mut self) -> (r: Result<u32, Error>)
        requires
            old(self).offset <= old(self).data@.len(),
        ensures
            final(self).data == old(self).data,
            match r {
                Ok(v) => {
                    &&& take_u32(old(self).data@, old(self).offset as int) == Ok::<
                        (int, int),
                        error::Refusal,
                    >((v as int, final(self).offset as int))
                    &&& final(self).offset <= final(self).data@.len()
                },
                Err(e) => take_u32(old(self).data@, old(self).offset as int) == Err::<
                    (int, int),
                    error::Refusal,
                >(e@),
            },
    {
        proof {
            reveal(take_u32);
        }
        let b = self.read_exact(4)?;
        Ok(bytes::get_u32(b.as_slice(), 0))
    }

    pub(crate) fn read_u64(&mut self) -> (r: Result<u64, Error>)
        requires
            old(self).offset <= old(self).data@.len(),
        ensures
            final(self).data == old(self).data,
            match r {
                Ok(v) => {
                    &&& take_u64(old(self).data@, old(self).offset as int) == Ok::<
                        (int, int),
                        error::Refusal,
                    >((v as int, final(self).offset as int))
                    &&& final(self).offset <= final(self).data@.len()
                },
                Err(e) => take_u64(old(self).data@, old(self).offset as int) == Err::<
                    (int, int),
                    error::Refusal,
                >(e@),
            },
    {
        proof {
            reveal(take_u64);
        }
        let b = self.read_exact(8)?;
        Ok(bytes::get_u64(b.as_slice(), 0))
    }

    pub(crate) fn read_len_bytes(&mut self, len: u64) -> (r: Result<Vec<u8>, Error>)
        requires
            old(self).offset <= old(self).data@.len(),
        ensures
            final(self).data == old(self).data,
            match r {
                Ok(b) => {
                    &&& take_sized(old(self).data@, old(self).offset as int, len as int) == Ok::<
                        (Seq<u8>, int),
                        error::Refusal,
                    >((b@, final(self).offset as int))
                    &&& final(self).offset <= final(self).data@.len()
                },
                Err(e) => take_sized(old(self).data@, old(self).offset as int, len as int) == Err::<
                    (Seq<u8>, int),
                    error::Refusal,
                >(e@),
            },
    {
        proof {
            reveal(take_sized);
        }
        if len > usize::MAX as u64 {
            return Err(elf::invalid_data("cache length overflow"));
        }
        self.read_exact(len as usize)
    }

    pub(crate) fn read_bytes(&mut self) -> (r: Result<Vec<u8>, Error>)
        requires
            old(self).offset <= old(self).data@.len(),
        ensures
            final(self).data == old(self).data,
            match r {
                Ok(b) => {
                    &&& take_bytes(old(self).data@, old(self).offset as int) == Ok::<
                        (Seq<u8>, int),
                        error::Refusal,
                    >((b@, final(self).offset as int))
                    &&& final(self).offset <= final(self).data@.len()
                },
                Err(e) => take_bytes(old(self).data@, old(self).offset as int) == Err::<
                    (Seq<u8>, int),
                    error::Refusal,
                >(e@),
            },
    {
        proof {
            reveal(take_bytes);
        }
        let len: u64 = self.read_u64()?;
        self.read_len_bytes(len)
    }
}

/// What the entry of a kernel starts with.
pub open spec fn kernel_magic() -> Seq<u8> {
    seq![76u8, 84u8, 84u8, 75u8, 69u8, 82u8, 78u8, 49u8]
}

/// What the entry of a set of firmware starts with.
pub open spec fn firmware_magic() -> Seq<u8> {
    seq![76u8, 84u8, 84u8, 70u8, 73u8, 82u8, 77u8, 49u8]
}

/// Why an entry is refused for what it starts with.
pub open spec fn magic_refusal(data: Seq<u8>, magic: Seq<u8>) -> Option<error::Refusal> {
    match take(data, 0, 8) {
        Ok((b, _)) => if b != magic {
            Some(elf::bad_data("cache magic mismatch"@))
        } else {
            None
        },
        Err(e) => Some(e),
    }
}

pub(crate) fn expect_magic<'a>(data: &'a [u8], magic: &Vec<u8>) -> (r: Result<CacheReader<'a>, Error>)
    requires
        magic@.len() == 8,
    ensures
        match r {
            Ok(reader) => {
                &&& magic_refusal(data@, magic@) is None
                &&& reader.data@ == data@
                &&& reader.offset == 8
                &&& reader.offset <= data@.len()
            },
            Err(e) => magic_refusal(data@, magic@) == Some(e@),
        },
{
    proof {
        reveal(take);
    }
    let mut reader = CacheReader { data, offset: 0 };
    let found = reader.read_exact(8)?;
    if !bytes::same(found.as_slice(), magic.as_slice()) {
        return Err(elf::invalid_data("cache magic mismatch"));
    }
    Ok(reader)
}

/// A word that stands for a missing image.
pub const NO_ELF: u64 = 0xffff_ffff_ffff_ffff;

/// The entry of a kernel.
#[verifier::opaque]
pub open spec fn kernel_bytes(k: Image) -> Seq<u8> {
    kernel_magic() + bytes::le8(k.text_bytes) + sized(k.xip) + match k.elf {
        Some(b) => sized(b),
        None => bytes::le8(NO_ELF as int),
    }
}

/// Encodes a compiled kernel.
pub fn encode_kernel_cache(kernel: &CompiledKernel) -> (r: Vec<u8>)
    ensures
        r@ == kernel_bytes(kernel@),
{
    proof {
        reveal(kernel_bytes);
    }
    let mut out: Vec<u8> = vec![76u8, 84u8, 84u8, 75u8, 69u8, 82u8, 78u8, 49u8];
    assert(out@ =~= kernel_magic());
    bytes::push_u64(&mut out, kernel.xip_text_bytes as u64);
    push_bytes(&mut out, kernel.xip.as_slice());
    match &kernel.elf_bytes {
        Some(elf) => {
            push_bytes(&mut out, elf.as_slice());
        },
        None => {
            bytes::push_u64(&mut out, NO_ELF);
        },
    }
    out
}

/// The image behind its length, or nothing where the length says so.
#[verifier::opaque]
pub open spec fn take_elf(data: Seq<u8>, at: int) -> Part<Option<Seq<u8>>> {
    match take_u64(data, at) {
        Err(e) => Err(e),
        Ok((n, next)) => if n == NO_ELF {
            Ok((None, next))
        } else {
            match take_sized(data, next, n) {
                Ok((b, end)) => Ok((Some(b), end)),
                Err(e) => Err(e),
            }
        },
    }
}

/// The kernel of an entry.
pub open spec fn kernel_of(data: Seq<u8>) -> Result<Image, error::Refusal> {
    if magic_refusal(data, kernel_magic()) is Some {
        Err(magic_refusal(data, kernel_magic())->0)
    } else {
        match take_u64(data, 8) {
            Err(e) => Err(e),
            Ok((text_bytes, a)) => if text_bytes > usize::MAX {
                Err(elf::bad_data("xip text size overflow"@))
            } else {
                match take_bytes(data, a) {
                    Err(e) => Err(e),
                    Ok((xip, b)) => match take_elf(data, b) {
                        Err(e) => Err(e),
                        Ok((elf, end)) => if end != data.len() {
                            Err(elf::bad_data("cache entry has trailing data"@))
                        } else {
                            Ok(Image { xip, text_bytes, elf })
                        },
                    },
                }
            },
        }
    }
}

/// Decodes a compiled kernel.
pub fn decode_kernel_cache(data: &[u8]) -> (r: Result<CompiledKernel, Error>)
    ensures
        match r {
            Ok(k) => kernel_of(data@) == Ok::<Image, error::Refusal>(k@),
            Err(e) => kernel_of(data@) == Err::<Image, error::Refusal>(e@),
        },
{
    proof {
        reveal(take_elf);
    }
    let magic: Vec<u8> = vec![76u8, 84u8, 84u8, 75u8, 69u8, 82u8, 78u8, 49u8];
    assert(magic@ =~= kernel_magic());
    let total: usize = data.len();
    let mut reader = expect_magic(data, &magic)?;
    let text_bytes: u64 = reader.read_u64()?;
    if text_bytes > usize::MAX as u64 {
        return Err(elf::invalid_data("xip text size overflow"));
    }
    let xip = reader.read_bytes()?;
    let n: u64 = reader.read_u64()?;
    let elf_bytes: Option<Vec<u8>> = if n == NO_ELF {
        None
    } else {
        Some(reader.read_len_bytes(n)?)
    };
    if reader.offset != total {
        return Err(elf::invalid_data("cache entry has trailing data"));
    }
    Ok(CompiledKernel { xip, xip_text_bytes: text_bytes as usize, elf_bytes })
}

/// Reading words and bytes back from where they were written.
pub proof fn lemma_take(data: Seq<u8>, at: int, b: Seq<u8>)
    requires
        0 <= at,
        at + b.len() <= data.len() <= usize::MAX,
        data.subrange(at, at + b.len()) == b,
    ensures
        take(data, at, b.len() as int) == Ok::<(Seq<u8>, int), error::Refusal>((b, at + b.len())),
{
    reveal(take);
}

pub proof fn lemma_take_u64(data: Seq<u8>, at: int, v: u64)
    requires
        0 <= at,
        at + 8 <= data.len() <= usize::MAX,
        data.subrange(at, at + 8) == bytes::le8(v as int),
    ensures
        take_u64(data, at) == Ok::<(int, int), error::Refusal>((v as int, at + 8)),
{
    reveal(take_u64);
    reveal(take);
    bytes::lemma_u64_at_le8(v);
}

pub proof fn lemma_take_u32(data: Seq<u8>, at: int, v: u32)
    requires
        0 <= at,
        at + 4 <= data.len() <= usize::MAX,
        data.subrange(at, at + 4) == bytes::le4(v as int),
    ensures
        take_u32(data, at) == Ok::<(int, int), error::Refusal>((v as int, at + 4)),
{
    reveal(take_u32);
    reveal(take);
    bytes::lemma_u32_at_le4(v);
}

pub proof fn lemma_take_bytes(data: Seq<u8>, at: int, b: Seq<u8>)
    requires
        0 <= at,
        at + 8 + b.len() <= data.len() <= usize::MAX,
        data.subrange(at, at + 8 + b.len()) == sized(b),
    ensures
        take_bytes(data, at) == Ok::<(Seq<u8>, int), error::Refusal>((b, at + 8 + b.len())),
{
    reveal(take_bytes);
    reveal(take_sized);
    reveal(take);
    let s = sized(b);
    assert(bytes::le8(b.len() as int).len() == 8);
    assert(data.subrange(at, at + 8) =~= s.subrange(0, 8));
    assert(s.subrange(0, 8) =~= bytes::le8(b.len() as int));
    lemma_take_u64(data, at, b.len() as u64);
    assert(data.subrange(at + 8, at + 8 + b.len()) =~= s.subrange(8, 8 + b.len() as int));
    assert(s.subrange(8, 8 + b.len() as int) =~= b);
}

/// Each of four parts stands at its place in their sum.
pub proof fn lemma_parts(a: Seq<u8>, b: Seq<u8>, c: Seq<u8>, d: Seq<u8>)
    ensures
        ({
            let all = a + b + c + d;
            let i = a.len() as int;
            let j = i + b.len();
            let k = j + c.len();
            &&& all.len() == k + d.len()
            &&& all.subrange(0, i) == a
            &&& all.subrange(i, j) == b
            &&& all.subrange(j, k) == c
            &&& all.subrange(k, k + d.len()) == d
        }),
{
    let all = a + b + c + d;
    let i = a.len() as int;
    let j = i + b.len();
    let k = j + c.len();
    assert(all.subrange(0, i) =~= a);
    assert(all.subrange(i, j) =~= b);
    assert(all.subrange(j, k) =~= c);
    assert(all.subrange(k, k + d.len()) =~= d);
}

proof fn lemma_take_elf(data: Seq<u8>, at: int, elf: Option<Seq<u8>>)
    requires
        ({
            let tail = match elf {
                Some(b) => sized(b),
                None => bytes::le8(NO_ELF as int),
            };
            &&& 0 <= at
            &&& at + tail.len() <= data.len() <= usize::MAX
            &&& data.subrange(at, at + tail.len()) == tail
        }),
        elf matches Some(b) ==> b.len() < NO_ELF,
    ensures
        take_elf(data, at) == Ok::<(Option<Seq<u8>>, int), error::Refusal>(
            (
                elf,
                at + match elf {
                    Some(b) => 8 + b.len(),
                    None => 8,
                },
            ),
        ),
{
    reveal(take_elf);
    reveal(take_bytes);
    match elf {
        Some(b) => {
            let tail = sized(b);
            lemma_take_bytes(data, at, b);
            assert(data.subrange(at, at + 8) =~= tail.subrange(0, 8));
            assert(tail.subrange(0, 8) =~= bytes::le8(b.len() as int));
            lemma_take_u64(data, at, b.len() as u64);
        },
        None => {
            lemma_take_u64(data, at, NO_ELF);
        },
    }
}

/// A kernel comes out of its entry as it went in.
pub proof fn lemma_kernel_roundtrip(k: Image)
    requires
        0 <= k.text_bytes <= usize::MAX,
        kernel_bytes(k).len() <= usize::MAX,
    ensures
        kernel_of(kernel_bytes(k)) == Ok::<Image, error::Refusal>(k),
{
    reveal(kernel_bytes);
    let data = kernel_bytes(k);
    let text = bytes::le8(k.text_bytes);
    let a = sized(k.xip);
    let tail = match k.elf {
        Some(b) => sized(b),
        None => bytes::le8(NO_ELF as int),
    };
    lemma_parts(kernel_magic(), text, a, tail);
    bytes::lemma_u64_at_le8(k.text_bytes as u64);
    assert(bytes::le8(k.xip.len() as int).len() == 8);
    assert(k.elf matches Some(b) ==> tail.len() == 8 + b.len());
    lemma_take(data, 0, kernel_magic());
    lemma_take_u64(data, 8, k.text_bytes as u64);
    lemma_take_bytes(data, 16, k.xip);
    lemma_take_elf(data, 16 + a.len() as int, k.elf);
    assert(magic_refusal(data, kernel_magic()) is None);
}

/// What is read from an entry is read from a longer one too.
pub proof fn lemma_take_longer(a: Seq<u8>, b: Seq<u8>, at: int, n: int)
    requires
        a.is_prefix_of(b),
        b.len() <= usize::MAX,
        at >= 0,
        n >= 0,
        take(a, at, n) is Ok,
    ensures
        take(b, at, n) == take(a, at, n),
        (take(a, at, n)->Ok_0).1 == at + n <= a.len(),
{
    reveal(take);
    assert(a =~= b.subrange(0, a.len() as int));
    assert(a.subrange(at, at + n) =~= b.subrange(at, at + n));
}

pub proof fn lemma_take_u32_longer(a: Seq<u8>, b: Seq<u8>, at: int)
    requires
        a.is_prefix_of(b),
        b.len() <= usize::MAX,
        at >= 0,
        take_u32(a, at) is Ok,
    ensures
        take_u32(b, at) == take_u32(a, at),
        (take_u32(a, at)->Ok_0).0 >= 0,
        (take_u32(a, at)->Ok_0).1 == at + 4 <= a.len(),
{
    reveal(take_u32);
    lemma_take_longer(a, b, at, 4);
}

pub proof fn lemma_take_u64_longer(a: Seq<u8>, b: Seq<u8>, at: int)
    requires
        a.is_prefix_of(b),
        b.len() <= usize::MAX,
        at >= 0,
        take_u64(a, at) is Ok,
    ensures
        take_u64(b, at) == take_u64(a, at),
        (take_u64(a, at)->Ok_0).0 >= 0,
        (take_u64(a, at)->Ok_0).1 == at + 8 <= a.len(),
{
    reveal(take_u64);
    lemma_take_longer(a, b, at, 8);
}

pub proof fn lemma_take_bytes_longer(a: Seq<u8>, b: Seq<u8>, at: int)
    requires
        a.is_prefix_of(b),
        b.len() <= usize::MAX,
        at >= 0,
        take_bytes(a, at) is Ok,
    ensures
        take_bytes(b, at) == take_bytes(a, at),
        at <= (take_bytes(a, at)->Ok_0).1 <= a.len(),
{
    reveal(take_bytes);
    reveal(take_sized);
    lemma_take_u64_longer(a, b, at);
    let (n, next) = take_u64(a, at)->Ok_0;
    lemma_take_longer(a, b, next, n);
}

proof fn lemma_take_elf_longer(a: Seq<u8>, b: Seq<u8>, at: int)
    requires
        a.is_prefix_of(b),
        b.len() <= usize::MAX,
        at >= 0,
        take_elf(a, at) is Ok,
    ensures
        take_elf(b, at) == take_elf(a, at),
{
    reveal(take_elf);
    reveal(take_sized);
    lemma_take_u64_longer(a, b, at);
    let (n, next) = take_u64(a, at)->Ok_0;
    if n != NO_ELF {
        lemma_take_longer(a, b, next, n);
    }
}

/// An entry with anything behind it is refused.
pub proof fn lemma_extended_kernel(entry: Seq<u8>, longer: Seq<u8>)
    requires
        kernel_of(entry) is Ok,
        entry.is_prefix_of(longer),
        entry.len() < longer.len() <= usize::MAX,
    ensures
        kernel_of(longer) == Err::<Image, error::Refusal>(
            elf::bad_data("cache entry has trailing data"@),
        ),
{
    lemma_take_longer(entry, longer, 0, 8);
    lemma_take_u64_longer(entry, longer, 8);
    let a = (take_u64(entry, 8)->Ok_0).1;
    lemma_take_bytes_longer(entry, longer, a);
    let b = (take_bytes(entry, a)->Ok_0).1;
    lemma_take_elf_longer(entry, longer, b);
}

/// An entry that was cut short is refused.
pub proof fn lemma_cut_kernel(entry: Seq<u8>, n: int)
    requires
        kernel_of(entry) is Ok,
        entry.len() <= usize::MAX,
        0 <= n < entry.len(),
    ensures
        kernel_of(entry.take(n)) is Err,
{
    if kernel_of(entry.take(n)) is Ok {
        assert(entry.take(n).is_prefix_of(entry));
        lemma_extended_kernel(entry.take(n), entry);
    }
}

/// Of what is written for a kernel, nothing can be left out and nothing added, and
/// what does not start as an entry does is no kernel.
pub proof fn lemma_kernel_entry_exact(k: Image, data: Seq<u8>)
    requires
        0 <= k.text_bytes <= usize::MAX,
        kernel_bytes(k).len() <= usize::MAX,
        data.len() <= usize::MAX,
    ensures
        data.is_prefix_of(kernel_bytes(k)) && data != kernel_bytes(k) ==> kernel_of(data) is Err,
        kernel_bytes(k).is_prefix_of(data) && data != kernel_bytes(k) ==> kernel_of(data) == Err::<
            Image,
            error::Refusal,
        >(elf::bad_data("cache entry has trailing data"@)),
        !kernel_magic().is_prefix_of(data) ==> kernel_of(data) is Err,
{
    lemma_kernel_roundtrip(k);
    let entry = kernel_bytes(k);
    if data.is_prefix_of(entry) && data != entry {
        let n = data.len() as int;
        assert(data =~= entry.take(n));
        if n == entry.len() {
            assert(entry.take(n) =~= entry);
        }
        lemma_cut_kernel(entry, n);
    }
    if entry.is_prefix_of(data) && data != entry {
        if entry.len() == data.len() {
            assert(data.subrange(0, entry.len() as int) =~= data);
        }
        lemma_extended_kernel(entry, data);
    }
    if !kernel_magic().is_prefix_of(data) {
        reveal(take);
        if data.len() >= 8 {
            assert(data.subrange(0, 8) != kernel_magic());
        }
    }
}

/// Different kernels have different entries; a missing image and an empty one are
/// told apart.
pub proof fn lemma_kernel_entries_differ(a: Image, b: Image)
    requires
        0 <= a.text_bytes <= usize::MAX,
        0 <= b.text_bytes <= usize::MAX,
        kernel_bytes(a).len() <= usize::MAX,
        kernel_bytes(b).len() <= usize::MAX,
        a != b,
    ensures
        kernel_bytes(a) != kernel_bytes(b),
{
    lemma_kernel_roundtrip(a);
    lemma_kernel_roundtrip(b);
}

} // verus!
