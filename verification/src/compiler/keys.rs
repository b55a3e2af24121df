//! The keys under which compiled kernels and firmware are kept: hashes of all
//! that the result of a build depends on. Values are fed to the hasher in the form
//! in which the standard library's `Hash` feeds them on machines with words of eight
//! bytes, the lowest first.

use vstd::prelude::*;
use vstd::std_specs::hash::DefaultHasherAdditionalSpecFns;
use vstd::utf8::*;
use crate::bytes;
use crate::compiler::headers;
use crate::compiler::headers::{File, GeneratedFile};
use crate::compiler::toolchain::BuildPlan;
use crate::source;
use crate::text;
use std::collections::hash_map::DefaultHasher;
use std::hash::Hasher;

verus! {

/// A file that was read.
#[derive(Clone, Debug)]
pub struct NamedBytes {
    pub name: String,
    pub data: Vec<u8>,
}

/// What a contract says of a file that was read.
pub type Named = (Seq<char>, Seq<u8>);

pub open spec fn named_view(list: Seq<NamedBytes>) -> Seq<Named> {
    list.map_values(|f: NamedBytes| (f.name@, f.data@))
}

/// A number as eight bytes.
#[verifier::opaque]
pub open spec fn word(n: int) -> Seq<u8> {
    bytes::le8(n)
}

/// Bytes behind their length.
pub open spec fn block(b: Seq<u8>) -> Seq<u8> {
    word(b.len() as int) + b
}

/// A text: its bytes, and a byte that no text holds.
pub open spec fn part(s: Seq<char>) -> Seq<u8> {
    encode_utf8(s).push(0xff)
}

/// The first `n` parts, one after the other.
pub open spec fn joined(list: Seq<Seq<u8>>, n: int) -> Seq<u8>
    decreases n,
{
    if n <= 0 {
        Seq::empty()
    } else {
        joined(list, n - 1) + list[n - 1]
    }
}

/// A list of parts behind their number.
pub open spec fn counted(list: Seq<Seq<u8>>) -> Seq<u8> {
    word(list.len() as int) + joined(list, list.len() as int)
}

pub open spec fn text_parts(list: Seq<Seq<char>>) -> Seq<Seq<u8>> {
    list.map_values(|s: Seq<char>| part(s))
}

/// Generated files, by name and content.
pub open spec fn header_parts(list: Seq<File>) -> Seq<Seq<u8>> {
    list.map_values(|f: File| part(f.0) + part(f.1))
}

/// Sources, by name and content.
pub open spec fn source_parts(list: Seq<Named>) -> Seq<Seq<u8>> {
    list.map_values(|f: Named| part(f.0) + block(f.1))
}

/// The names of files.
pub open spec fn names(list: Seq<Named>) -> Seq<Seq<char>> {
    list.map_values(|f: Named| f.0)
}

/// How many bytes stand before the first slash.
pub open spec fn before_slash(b: Seq<u8>) -> int
    decreases b.len(),
{
    if b.len() == 0 || b[0] == 47 {
        0
    } else {
        1 + before_slash(b.skip(1))
    }
}

/// The pieces of a path between its slashes.
pub open spec fn pieces(b: Seq<u8>) -> Seq<Seq<u8>>
    decreases b.len(),
{
    let n = before_slash(b);
    if n < 0 || n >= b.len() {
        seq![b]
    } else {
        seq![b.take(n)] + pieces(b.skip(n + 1))
    }
}

/// Whether a piece counts: it is not empty and, unless it comes first, no dot.
pub open spec fn counts(list: Seq<Seq<u8>>, i: int) -> bool {
    list[i].len() > 0 && (i == 0 || list[i] != seq![46u8])
}

/// The pieces that count among the first `n`, one after the other.
pub open spec fn counting(list: Seq<Seq<u8>>, n: int) -> Seq<u8>
    decreases n,
{
    if n <= 0 {
        Seq::empty()
    } else if counts(list, n - 1) {
        counting(list, n - 1) + list[n - 1]
    } else {
        counting(list, n - 1)
    }
}

/// A word moved by two bits to the right, with the lowest two in front.
pub open spec fn turned(n: int) -> int {
    n / 4 + (n % 4) * 0x4000_0000_0000_0000
}

/// A word that the lengths of the pieces that count among the first `n` give: it
/// tells where one ends and the next starts.
pub open spec fn measure(list: Seq<Seq<u8>>, n: int) -> int
    decreases n,
{
    if n <= 0 {
        0
    } else if counts(list, n - 1) {
        turned((measure(list, n - 1) + list[n - 1].len()) % 0x1_0000_0000_0000_0000)
    } else {
        measure(list, n - 1)
    }
}

/// A path: its pieces, and the word of their lengths.
pub open spec fn path_part(s: Seq<char>) -> Seq<u8> {
    let list = pieces(encode_utf8(s));
    counting(list, list.len() as int) + word(measure(list, list.len() as int))
}

/// Files of directories, by path and content.
pub open spec fn file_parts(list: Seq<Named>) -> Seq<Seq<u8>> {
    list.map_values(|f: Named| path_part(f.0) + block(f.1))
}

/// What a compiled kernel depends on.
pub struct KernelInputs {
    pub source: Seq<char>,
    pub target: Seq<char>,
    pub defines: Seq<Seq<char>>,
    pub level: Seq<char>,
    pub trisc: bool,
    pub relocate: bool,
    pub headers: Seq<File>,
    pub extra: Seq<Named>,
    pub firmware: Seq<u8>,
}

pub open spec fn flag_byte(b: bool) -> u8 {
    if b {
        1
    } else {
        0
    }
}

/// The bytes of which the key of a kernel is the hash.
pub open spec fn kernel_material(k: KernelInputs) -> Seq<u8> {
    part("kern-v3"@) + part(k.source) + part(k.target) + counted(text_parts(k.defines)) + part(
        k.level,
    ) + seq![flag_byte(k.trisc), flag_byte(k.relocate)] + counted(header_parts(k.headers))
        + counted(file_parts(k.extra)) + block(k.firmware)
}

/// What compiled firmware depends on.
pub struct FirmwareInputs {
    pub profile: bool,
    pub num_dram_banks: int,
    pub num_l1_banks: int,
    pub prefetch_core: (u8, u8),
    pub dispatch_core: (u8, u8),
    pub sources: Seq<Named>,
}

/// The bytes of which the key of firmware is the hash.
pub open spec fn firmware_material(k: FirmwareInputs) -> Seq<u8> {
    part("fw-v3"@) + seq![flag_byte(k.profile)] + word(k.num_dram_banks) + word(k.num_l1_banks)
        + seq![k.prefetch_core.0, k.prefetch_core.1, k.dispatch_core.0, k.dispatch_core.1]
        + counted(text_parts(names(k.sources))) + joined(
        source_parts(k.sources),
        k.sources.len() as int,
    )
}

/// A hash as a key: in hexadecimal, with zeros in front up to sixteen digits.
pub open spec fn key_text(hash: u64) -> Seq<char> {
    let digits = text::hex(hash as int);
    if digits.len() < 16 {
        Seq::new((16 - digits.len()) as nat, |i: int| '0') + digits
    } else {
        digits
    }
}

/// The hash of a material.
pub open spec fn hash_of(material: Seq<u8>) -> u64 {
    DefaultHasher::spec_finish(seq![material])
}

/// The key of a material.
pub open spec fn key_of(material: Seq<u8>) -> Seq<char> {
    key_text(hash_of(material))
}

fn push_word(out: &mut Vec<u8>, n: u64)
    ensures
        final(out)@ == old(out)@ + word(n as int),
{
    proof {
        reveal(word);
    }
    bytes::push_u64(out, n);
}

fn push_block(out: &mut Vec<u8>, data: &[u8])
    ensures
        final(out)@ == old(out)@ + block(data@),
{
    push_word(out, data.len() as u64);
    bytes::append(out, data);
    proof {
        lemma_assoc(old(out)@, word(data@.len() as int), data@);
    }
}

fn push_text(out: &mut Vec<u8>, s: &str)
    ensures
        final(out)@ == old(out)@ + part(s@),
{
    bytes::append(out, s.as_bytes());
    out.push(0xff);
    assert(out@ =~= old(out)@ + part(s@));
}

fn push_flag(out: &mut Vec<u8>, flag: bool)
    ensures
        final(out)@ == old(out)@ + seq![flag_byte(flag)],
{
    out.push(
        if flag {
            1
        } else {
            0
        },
    );
    assert(out@ =~= old(out)@ + seq![flag_byte(flag)]);
}

fn push_texts(out: &mut Vec<u8>, list: &Vec<String>)
    ensures
        final(out)@ == old(out)@ + counted(text_parts(source::lines_view(list@))),
{
    let ghost all = text_parts(source::lines_view(list@));
    push_word(out, list.len() as u64);
    let ghost start = out@;
    assert(out@ =~= start + joined(all, 0));
    for i in 0..list.len()
        invariant
            all == text_parts(source::lines_view(list@)),
            out@ == start + joined(all, i as int),
    {
        push_text(out, list[i].as_str());
        assert(all[i as int] == part(list@[i as int]@));
        proof {
            lemma_assoc(start, joined(all, i as int), all[i as int]);
        }
    }
    proof {
        lemma_assoc(old(out)@, word(list@.len() as int), joined(all, list@.len() as int));
    }
}

fn push_names(out: &mut Vec<u8>, list: &Vec<NamedBytes>)
    ensures
        final(out)@ == old(out)@ + counted(text_parts(names(named_view(list@)))),
{
    let ghost all = text_parts(names(named_view(list@)));
    push_word(out, list.len() as u64);
    let ghost start = out@;
    assert(out@ =~= start + joined(all, 0));
    for i in 0..list.len()
        invariant
            all == text_parts(names(named_view(list@))),
            out@ == start + joined(all, i as int),
    {
        push_text(out, list[i].name.as_str());
        assert(all[i as int] == part(list@[i as int].name@));
        proof {
            lemma_assoc(start, joined(all, i as int), all[i as int]);
        }
    }
    proof {
        lemma_assoc(old(out)@, word(list@.len() as int), joined(all, list@.len() as int));
    }
}

fn push_headers(out: &mut Vec<u8>, list: &Vec<GeneratedFile>)
    ensures
        final(out)@ == old(out)@ + counted(header_parts(headers::files_view(list@))),
{
    let ghost all = header_parts(headers::files_view(list@));
    push_word(out, list.len() as u64);
    let ghost start = out@;
    assert(out@ =~= start + joined(all, 0));
    for i in 0..list.len()
        invariant
            all == header_parts(headers::files_view(list@)),
            out@ == start + joined(all, i as int),
    {
        let f = &list[i];
        let ghost before = out@;
        push_text(out, f.name.as_str());
        push_text(out, f.content.as_str());
        assert(headers::files_view(list@)[i as int] == (f.name@, f.content@));
        assert(all[i as int] == part(f.name@) + part(f.content@));
        proof {
            lemma_assoc(before, part(f.name@), part(f.content@));
            lemma_assoc(start, joined(all, i as int), all[i as int]);
        }
    }
    proof {
        lemma_assoc(old(out)@, word(list@.len() as int), joined(all, list@.len() as int));
    }
}

fn push_sources(out: &mut Vec<u8>, list: &Vec<NamedBytes>)
    ensures
        final(out)@ == old(out)@ + joined(source_parts(named_view(list@)), list@.len() as int),
{
    let ghost all = source_parts(named_view(list@));
    let ghost start = out@;
    assert(out@ =~= start + joined(all, 0));
    for i in 0..list.len()
        invariant
            all == source_parts(named_view(list@)),
            out@ == start + joined(all, i as int),
    {
        let f = &list[i];
        let ghost before = out@;
        push_text(out, f.name.as_str());
        push_block(out, f.data.as_slice());
        assert(all[i as int] == part(f.name@) + block(f.data@));
        proof {
            lemma_assoc(before, part(f.name@), block(f.data@));
            lemma_assoc(start, joined(all, i as int), all[i as int]);
        }
    }
}

fn find_slash(b: &[u8], from: usize) -> (r: usize)
    requires
        from <= b@.len(),
    ensures
        r == from + before_slash(b@.skip(from as int)),
        from <= r <= b@.len(),
{
    let n: usize = b.len();
    let mut i: usize = from;
    while i < n && b[i] != 47
        invariant
            n == b@.len(),
            from <= i <= n,
            before_slash(b@.skip(from as int)) == (i - from) + before_slash(b@.skip(i as int)),
        decreases n - i,
    {
        assert(b@.skip(i as int).skip(1) =~= b@.skip(i + 1));
        i = i + 1;
    }
    i
}

proof fn lemma_before_slash(b: Seq<u8>)
    ensures
        0 <= before_slash(b) <= b.len(),
    decreases b.len(),
{
    if b.len() > 0 && b[0] != 47 {
        lemma_before_slash(b.skip(1));
    }
}

fn split_path(b: &[u8]) -> (r: Vec<Vec<u8>>)
    ensures
        pieces_view(r@) == pieces(b@),
{
    let len: usize = b.len();
    let mut out: Vec<Vec<u8>> = Vec::new();
    let mut at: usize = 0;
    assert(b@.skip(0) =~= b@);
    assert(pieces(b@) =~= pieces_view(out@) + pieces(b@.skip(0)));
    loop
        invariant
            len == b@.len(),
            at <= len,
            pieces(b@) == pieces_view(out@) + pieces(b@.skip(at as int)),
        decreases len - at,
    {
        let end: usize = find_slash(b, at);
        let ghost rest = b@.skip(at as int);
        let ghost before = out@;
        let piece = bytes::copy_range(b, at, end);
        assert(piece@ =~= rest.take(end - at));
        out.push(piece);
        assert(pieces_view(out@) =~= pieces_view(before).push(piece@));
        proof {
            lemma_before_slash(rest);
        }
        if end >= len {
            assert(piece@ =~= rest);
            assert(pieces(b@) =~= pieces_view(out@));
            return out;
        }
        assert(rest.skip(end - at + 1) =~= b@.skip(end + 1));
        assert(pieces(rest) == seq![piece@] + pieces(b@.skip(end + 1)));
        assert(pieces(b@) =~= pieces_view(out@) + pieces(b@.skip(end + 1)));
        at = end + 1;
    }
}

pub open spec fn pieces_view(list: Seq<Vec<u8>>) -> Seq<Seq<u8>> {
    list.map_values(|p: Vec<u8>| p@)
}

fn push_path(out: &mut Vec<u8>, name: &str)
    ensures
        final(out)@ == old(out)@ + path_part(name@),
{
    let list = split_path(name.as_bytes());
    let ghost all = pieces(encode_utf8(name@));
    let ghost start = out@;
    let mut sum: u64 = 0;
    assert(out@ =~= start + counting(all, 0));
    for i in 0..list.len()
        invariant
            all == pieces_view(list@),
            out@ == start + counting(all, i as int),
            sum == measure(all, i as int),
    {
        let piece = &list[i];
        assert(all[i as int] == piece@);
        let dot: bool = piece.len() == 1 && piece[0] == 46;
        assert(dot <==> piece@ =~= seq![46u8]);
        if piece.len() > 0 && (i == 0 || !dot) {
            bytes::append(out, piece.as_slice());
            let grown: u64 = sum.wrapping_add(piece.len() as u64);
            assert(grown == (sum + piece@.len()) % 0x1_0000_0000_0000_0000);
            sum = grown / 4 + (grown % 4) * 0x4000_0000_0000_0000;
            proof {
                lemma_assoc(start, counting(all, i as int), piece@);
            }
        }
    }
    push_word(out, sum);
    proof {
        lemma_assoc(start, counting(all, all.len() as int), word(sum as int));
    }
}

fn push_files(out: &mut Vec<u8>, list: &Vec<NamedBytes>)
    ensures
        final(out)@ == old(out)@ + counted(file_parts(named_view(list@))),
{
    let ghost all = file_parts(named_view(list@));
    push_word(out, list.len() as u64);
    let ghost start = out@;
    assert(out@ =~= start + joined(all, 0));
    for i in 0..list.len()
        invariant
            all == file_parts(named_view(list@)),
            out@ == start + joined(all, i as int),
    {
        let f = &list[i];
        let ghost before = out@;
        push_path(out, f.name.as_str());
        push_block(out, f.data.as_slice());
        assert(all[i as int] == path_part(f.name@) + block(f.data@));
        proof {
            lemma_assoc(before, path_part(f.name@), block(f.data@));
            lemma_assoc(start, joined(all, i as int), all[i as int]);
        }
    }
    proof {
        lemma_assoc(old(out)@, word(list@.len() as int), joined(all, list@.len() as int));
    }
}

fn hash_bytes(material: &Vec<u8>) -> (r: u64)
    ensures
        r == hash_of(material@),
{
    let mut hasher = DefaultHasher::new();
    hasher.write(material.as_slice());
    hasher.finish()
}

/// Writes a hash as a key.
pub fn key_name(hash: u64) -> (r: String)
    ensures
        r@ == key_text(hash),
{
    let digits = text::hexadecimal(hash);
    let mut out = "".to_owned();
    let n: usize = digits.as_str().unicode_len();
    proof {
        reveal_strlit("");
        reveal_strlit("0");
    }
    assert(out@ =~= Seq::new(0, |i: int| '0'));
    if n < 16 {
        for i in 0..16 - n
            invariant
                n < 16,
                out@ == Seq::new(i as nat, |j: int| '0'),
        {
            proof {
                reveal_strlit("0");
            }
            out.append("0");
            assert(out@ =~= Seq::new((i + 1) as nat, |j: int| '0'));
        }
    }
    out.append(digits.as_str());
    assert(out@ =~= key_text(hash));
    out
}

impl BuildPlan {
    /// What the kernel of this plan depends on.
    pub open spec fn inputs(&self, extra: Seq<Named>, firmware: Seq<u8>) -> KernelInputs {
        KernelInputs {
            source: self.kernel_source@,
            target: self.target.shown(),
            defines: source::lines_view(self.defines@),
            level: self.opt@,
            trisc: self.target.is_trisc(),
            relocate: self.xip_relocate,
            headers: headers::files_view(self.headers@),
            extra,
            firmware,
        }
    }
}

/// Hashes all that a kernel depends on. The files of extra directories and the
/// firmware that it is linked against were read before.
pub fn kernel_cache_hash(plan: &BuildPlan, extra: &Vec<NamedBytes>, fw_elf: &[u8]) -> (r: u64)
    ensures
        r == hash_of(kernel_material(plan.inputs(named_view(extra@), fw_elf@))),
{
    let ghost k = plan.inputs(named_view(extra@), fw_elf@);
    let mut out: Vec<u8> = Vec::new();
    push_text(&mut out, "kern-v3");
    assert(out@ =~= part("kern-v3"@));
    push_text(&mut out, plan.kernel_source.as_str());
    push_text(&mut out, plan.target.name());
    push_texts(&mut out, &plan.defines);
    push_text(&mut out, plan.opt.as_str());
    let ghost before = out@;
    push_flag(&mut out, plan.target.trisc());
    push_flag(&mut out, plan.xip_relocate);
    assert(out@ =~= before + seq![flag_byte(k.trisc), flag_byte(k.relocate)]);
    push_headers(&mut out, &plan.headers);
    push_files(&mut out, extra);
    push_block(&mut out, fw_elf);
    assert(out@ == kernel_material(k));
    hash_bytes(&out)
}

/// Computes the key of a kernel.
pub fn kernel_cache_key(plan: &BuildPlan, extra: &Vec<NamedBytes>, fw_elf: &[u8]) -> (r: String)
    ensures
        r@ == key_of(kernel_material(plan.inputs(named_view(extra@), fw_elf@))),
{
    key_name(kernel_cache_hash(plan, extra, fw_elf))
}

/// Hashes all that the firmware of a device depends on. Its sources were read before.
pub fn firmware_cache_hash(
    profile: bool,
    num_dram_banks: usize,
    num_l1_banks: usize,
    prefetch_core: (u8, u8),
    dispatch_core: (u8, u8),
    sources: &Vec<NamedBytes>,
) -> (r: u64)
    ensures
        r == hash_of(
            firmware_material(
                FirmwareInputs {
                    profile,
                    num_dram_banks: num_dram_banks as int,
                    num_l1_banks: num_l1_banks as int,
                    prefetch_core,
                    dispatch_core,
                    sources: named_view(sources@),
                },
            ),
        ),
{
    let ghost k = FirmwareInputs {
        profile,
        num_dram_banks: num_dram_banks as int,
        num_l1_banks: num_l1_banks as int,
        prefetch_core,
        dispatch_core,
        sources: named_view(sources@),
    };
    let mut out: Vec<u8> = Vec::new();
    push_text(&mut out, "fw-v3");
    assert(out@ =~= part("fw-v3"@));
    push_flag(&mut out, profile);
    push_word(&mut out, num_dram_banks as u64);
    push_word(&mut out, num_l1_banks as u64);
    let ghost before = out@;
    out.push(prefetch_core.0);
    out.push(prefetch_core.1);
    out.push(dispatch_core.0);
    out.push(dispatch_core.1);
    assert(out@ =~= before + seq![
        prefetch_core.0,
        prefetch_core.1,
        dispatch_core.0,
        dispatch_core.1,
    ]);
    push_names(&mut out, sources);
    push_sources(&mut out, sources);
    assert(out@ == firmware_material(k));
    hash_bytes(&out)
}

/// Computes the key of the firmware of a device.
pub fn firmware_cache_key(
    profile: bool,
    num_dram_banks: usize,
    num_l1_banks: usize,
    prefetch_core: (u8, u8),
    dispatch_core: (u8, u8),
    sources: &Vec<NamedBytes>,
) -> (r: String)
    ensures
        r@ == key_of(
            firmware_material(
                FirmwareInputs {
                    profile,
                    num_dram_banks: num_dram_banks as int,
                    num_l1_banks: num_l1_banks as int,
                    prefetch_core,
                    dispatch_core,
                    sources: named_view(sources@),
                },
            ),
        ),
{
    key_name(
        firmware_cache_hash(
            profile,
            num_dram_banks,
            num_l1_banks,
            prefetch_core,
            dispatch_core,
            sources,
        ),
    )
}

proof fn lemma_assoc(a: Seq<u8>, b: Seq<u8>, c: Seq<u8>)
    ensures
        (a + b) + c == a + (b + c),
{
    assert((a + b) + c =~= a + (b + c));
}

/// Beginnings of the same length, and what follows them, are those of the whole.
proof fn lemma_split(a: Seq<u8>, x: Seq<u8>, b: Seq<u8>, y: Seq<u8>)
    requires
        a + x == b + y,
        a.len() == b.len(),
    ensures
        a == b,
        x == y,
{
    let n = a.len() as int;
    let s = a + x;
    assert(a =~= s.subrange(0, n));
    assert(b =~= s.subrange(0, n));
    assert(x =~= s.subrange(n, s.len() as int));
    assert(y =~= s.subrange(n, s.len() as int));
}

/// Whether the ends of two parts can be told from what follows them.
pub open spec fn delimited(p: Seq<u8>, q: Seq<u8>) -> bool {
    forall|x: Seq<u8>, y: Seq<u8>| #![trigger p + x, q + y] p + x == q + y ==> p == q && x == y
}

proof fn lemma_same_delimited(p: Seq<u8>, q: Seq<u8>)
    requires
        p.len() == q.len(),
    ensures
        delimited(p, q),
{
    assert forall|x: Seq<u8>, y: Seq<u8>| #![trigger p + x, q + y] p + x == q + y implies p == q
        && x == y by {
        lemma_split(p, x, q, y);
    }
}

proof fn lemma_word_delimited(a: int, b: int)
    requires
        0 <= a <= u64::MAX,
        0 <= b <= u64::MAX,
    ensures
        delimited(word(a), word(b)),
        word(a) == word(b) ==> a == b,
{
    reveal(word);
    bytes::lemma_u64_at_le8(a as u64);
    bytes::lemma_u64_at_le8(b as u64);
    lemma_same_delimited(word(a), word(b));
}

proof fn lemma_both_delimited(p: Seq<u8>, q: Seq<u8>, p2: Seq<u8>, q2: Seq<u8>)
    requires
        delimited(p, q),
        delimited(p2, q2),
    ensures
        delimited(p + p2, q + q2),
        p + p2 == q + q2 ==> p == q && p2 == q2,
{
    assert forall|x: Seq<u8>, y: Seq<u8>| #![trigger (p + p2) + x, (q + q2) + y] (p + p2) + x == (q
        + q2) + y implies p + p2 == q + q2 && x == y by {
        lemma_assoc(p, p2, x);
        lemma_assoc(q, q2, y);
        assert(p + (p2 + x) == q + (q2 + y));
        assert(p2 + x == q2 + y);
    }
}

proof fn lemma_block_delimited(a: Seq<u8>, b: Seq<u8>)
    requires
        a.len() <= u64::MAX,
        b.len() <= u64::MAX,
    ensures
        delimited(block(a), block(b)),
        block(a) == block(b) ==> a == b,
{
    let (wa, wb) = (word(a.len() as int), word(b.len() as int));
    lemma_word_delimited(a.len() as int, b.len() as int);
    assert forall|x: Seq<u8>, y: Seq<u8>| #![trigger block(a) + x, block(b) + y] block(a) + x
        == block(b) + y implies block(a) == block(b) && x == y && a == b by {
        lemma_assoc(wa, a, x);
        lemma_assoc(wb, b, y);
        assert(wa + (a + x) == wb + (b + y));
        lemma_split(a, x, b, y);
    }
    if block(a) == block(b) {
        assert(block(a) + Seq::<u8>::empty() == block(b) + Seq::<u8>::empty());
    }
}

/// No byte of a text is the byte behind it.
proof fn lemma_text_bytes(b: Seq<u8>)
    requires
        valid_utf8(b),
    ensures
        forall|i: int| 0 <= i < b.len() ==> #[trigger] b[i] != 0xff,
    decreases b.len(),
{
    if b.len() > 0 {
        let n = length_of_first_scalar(b);
        let rest = pop_first_scalar(b);
        lemma_text_bytes(rest);
        assert forall|i: int| 0 <= i < b.len() implies #[trigger] b[i] != 0xff by {
            if i >= n {
                assert(rest[i - n] == b[i]);
            }
        }
    }
}

proof fn lemma_part_delimited(s: Seq<char>, t: Seq<char>)
    ensures
        delimited(part(s), part(t)),
        part(s) == part(t) ==> s == t,
{
    let (a, b) = (encode_utf8(s), encode_utf8(t));
    encode_utf8_valid_utf8(s);
    encode_utf8_valid_utf8(t);
    encode_utf8_decode_utf8(s);
    encode_utf8_decode_utf8(t);
    lemma_text_bytes(a);
    lemma_text_bytes(b);
    assert forall|x: Seq<u8>, y: Seq<u8>| #![trigger part(s) + x, part(t) + y] part(s) + x == part(
        t,
    ) + y implies part(s) == part(t) && x == y by {
        let (p, q) = (part(s) + x, part(t) + y);
        assert(p[a.len() as int] == 0xff);
        assert(q[b.len() as int] == 0xff);
        if a.len() < b.len() {
            assert(q[a.len() as int] == b[a.len() as int]);
        }
        if b.len() < a.len() {
            assert(p[b.len() as int] == a[b.len() as int]);
        }
        lemma_split(part(s), x, part(t), y);
    }
    if part(s) == part(t) {
        assert(a =~= part(s).drop_last());
        assert(b =~= part(t).drop_last());
    }
}

/// The parts from `i` on.
spec fn joined_from(list: Seq<Seq<u8>>, i: int) -> Seq<u8>
    decreases list.len() - i,
{
    if i >= list.len() {
        Seq::empty()
    } else {
        list[i] + joined_from(list, i + 1)
    }
}

proof fn lemma_joined_from(list: Seq<Seq<u8>>, i: int)
    requires
        0 <= i <= list.len(),
    ensures
        joined(list, i) + joined_from(list, i) == joined(list, list.len() as int),
    decreases list.len() - i,
{
    if i < list.len() {
        lemma_joined_from(list, i + 1);
        lemma_assoc(joined(list, i), list[i], joined_from(list, i + 1));
    } else {
        assert(joined(list, i) + Seq::empty() =~= joined(list, i));
    }
}

proof fn lemma_lists_from(a: Seq<Seq<u8>>, x: Seq<u8>, b: Seq<Seq<u8>>, y: Seq<u8>, i: int)
    requires
        a.len() == b.len(),
        forall|j: int| 0 <= j < a.len() ==> delimited(#[trigger] a[j], b[j]),
        0 <= i <= a.len(),
        joined_from(a, i) + x == joined_from(b, i) + y,
    ensures
        forall|j: int| i <= j < a.len() ==> a[j] == b[j],
        x == y,
    decreases a.len() - i,
{
    if i < a.len() {
        let ra = joined_from(a, i + 1) + x;
        let rb = joined_from(b, i + 1) + y;
        lemma_assoc(a[i], joined_from(a, i + 1), x);
        lemma_assoc(b[i], joined_from(b, i + 1), y);
        assert(delimited(a[i], b[i]));
        assert(a[i] + ra == b[i] + rb);
        lemma_lists_from(a, x, b, y, i + 1);
    } else {
        assert(Seq::<u8>::empty() + x =~= x);
        assert(Seq::<u8>::empty() + y =~= y);
    }
}

/// Lists of the same length whose parts can be told apart.
proof fn lemma_joined_apart(a: Seq<Seq<u8>>, x: Seq<u8>, b: Seq<Seq<u8>>, y: Seq<u8>)
    requires
        a.len() == b.len(),
        forall|j: int| 0 <= j < a.len() ==> delimited(#[trigger] a[j], b[j]),
        joined(a, a.len() as int) + x == joined(b, b.len() as int) + y,
    ensures
        a == b,
        x == y,
{
    lemma_joined_from(a, 0);
    lemma_joined_from(b, 0);
    assert(Seq::<u8>::empty() + joined_from(a, 0) =~= joined_from(a, 0));
    assert(Seq::<u8>::empty() + joined_from(b, 0) =~= joined_from(b, 0));
    lemma_lists_from(a, x, b, y, 0);
    assert(a =~= b);
}

/// Lists behind their numbers have the same length.
proof fn lemma_counted_length(a: Seq<Seq<u8>>, x: Seq<u8>, b: Seq<Seq<u8>>, y: Seq<u8>)
    requires
        a.len() <= u64::MAX,
        b.len() <= u64::MAX,
        counted(a) + x == counted(b) + y,
    ensures
        a.len() == b.len(),
        joined(a, a.len() as int) + x == joined(b, b.len() as int) + y,
{
    let (pa, pb) = (joined(a, a.len() as int), joined(b, b.len() as int));
    let (wa, wb) = (word(a.len() as int), word(b.len() as int));
    lemma_assoc(wa, pa, x);
    lemma_assoc(wb, pb, y);
    lemma_word_delimited(a.len() as int, b.len() as int);
    assert(wa + (pa + x) == wb + (pb + y));
}

proof fn lemma_texts_apart(a: Seq<Seq<char>>, x: Seq<u8>, b: Seq<Seq<char>>, y: Seq<u8>)
    requires
        a.len() <= u64::MAX,
        b.len() <= u64::MAX,
        counted(text_parts(a)) + x == counted(text_parts(b)) + y,
    ensures
        a == b,
        x == y,
{
    let (pa, pb) = (text_parts(a), text_parts(b));
    lemma_counted_length(pa, x, pb, y);
    assert forall|j: int| 0 <= j < pa.len() implies delimited(#[trigger] pa[j], pb[j]) by {
        lemma_part_delimited(a[j], b[j]);
    }
    lemma_joined_apart(pa, x, pb, y);
    assert forall|j: int| 0 <= j < a.len() implies a[j] == b[j] by {
        assert(pa[j] == part(a[j]) && pb[j] == part(b[j]));
        lemma_part_delimited(a[j], b[j]);
    }
    assert(a =~= b);
}

proof fn lemma_headers_apart(a: Seq<File>, x: Seq<u8>, b: Seq<File>, y: Seq<u8>)
    requires
        a.len() <= u64::MAX,
        b.len() <= u64::MAX,
        counted(header_parts(a)) + x == counted(header_parts(b)) + y,
    ensures
        a == b,
        x == y,
{
    let (pa, pb) = (header_parts(a), header_parts(b));
    lemma_counted_length(pa, x, pb, y);
    assert forall|j: int| 0 <= j < pa.len() implies delimited(#[trigger] pa[j], pb[j]) by {
        lemma_part_delimited(a[j].0, b[j].0);
        lemma_part_delimited(a[j].1, b[j].1);
        lemma_both_delimited(part(a[j].0), part(b[j].0), part(a[j].1), part(b[j].1));
    }
    lemma_joined_apart(pa, x, pb, y);
    assert forall|j: int| 0 <= j < a.len() implies a[j] == b[j] by {
        assert(pa[j] == part(a[j].0) + part(a[j].1) && pb[j] == part(b[j].0) + part(b[j].1));
        lemma_part_delimited(a[j].0, b[j].0);
        lemma_part_delimited(a[j].1, b[j].1);
        lemma_both_delimited(part(a[j].0), part(b[j].0), part(a[j].1), part(b[j].1));
    }
    assert(a =~= b);
}

/// Whether the number of files, and the length of each, is a word of 64 bits.
pub open spec fn sizes_fit(list: Seq<Named>) -> bool {
    &&& list.len() <= u64::MAX
    &&& forall|i: int| 0 <= i < list.len() ==> (#[trigger] list[i]).1.len() <= u64::MAX
}

proof fn lemma_sources_apart(a: Seq<Named>, x: Seq<u8>, b: Seq<Named>, y: Seq<u8>)
    requires
        sizes_fit(a),
        sizes_fit(b),
        a.len() == b.len(),
        joined(source_parts(a), a.len() as int) + x == joined(source_parts(b), b.len() as int) + y,
    ensures
        a == b,
        x == y,
{
    let (pa, pb) = (source_parts(a), source_parts(b));
    assert forall|j: int| 0 <= j < pa.len() implies delimited(#[trigger] pa[j], pb[j]) by {
        lemma_part_delimited(a[j].0, b[j].0);
        lemma_block_delimited(a[j].1, b[j].1);
        lemma_both_delimited(part(a[j].0), part(b[j].0), block(a[j].1), block(b[j].1));
    }
    lemma_joined_apart(pa, x, pb, y);
    assert forall|j: int| 0 <= j < a.len() implies a[j] == b[j] by {
        assert(pa[j] == part(a[j].0) + block(a[j].1) && pb[j] == part(b[j].0) + block(b[j].1));
        lemma_part_delimited(a[j].0, b[j].0);
        lemma_block_delimited(a[j].1, b[j].1);
        lemma_both_delimited(part(a[j].0), part(b[j].0), block(a[j].1), block(b[j].1));
    }
    assert(a =~= b);
}

proof fn lemma_files_apart(a: Seq<Named>, x: Seq<u8>, b: Seq<Named>, y: Seq<u8>)
    requires
        sizes_fit(a),
        sizes_fit(b),
        names(a) == names(b),
        joined(file_parts(a), a.len() as int) + x == joined(file_parts(b), b.len() as int) + y,
    ensures
        a == b,
        x == y,
{
    let (pa, pb) = (file_parts(a), file_parts(b));
    assert(names(a).len() == a.len() && names(b).len() == b.len());
    assert forall|j: int| 0 <= j < pa.len() implies delimited(#[trigger] pa[j], pb[j]) by {
        assert(names(a)[j] == a[j].0 && names(b)[j] == b[j].0);
        lemma_same_delimited(path_part(a[j].0), path_part(b[j].0));
        lemma_block_delimited(a[j].1, b[j].1);
        lemma_both_delimited(path_part(a[j].0), path_part(b[j].0), block(a[j].1), block(b[j].1));
    }
    lemma_joined_apart(pa, x, pb, y);
    assert forall|j: int| 0 <= j < a.len() implies a[j] == b[j] by {
        assert(names(a)[j] == a[j].0 && names(b)[j] == b[j].0);
        assert(pa[j] == path_part(a[j].0) + block(a[j].1));
        assert(pb[j] == path_part(b[j].0) + block(b[j].1));
        lemma_split(path_part(a[j].0), block(a[j].1), path_part(b[j].0), block(b[j].1));
        lemma_block_delimited(a[j].1, b[j].1);
    }
    assert(a =~= b);
}

impl KernelInputs {
    /// Whether all numbers and lengths are words of 64 bits.
    pub open spec fn fits(self) -> bool {
        &&& self.defines.len() <= u64::MAX
        &&& self.headers.len() <= u64::MAX
        &&& sizes_fit(self.extra)
        &&& self.firmware.len() <= u64::MAX
    }
}

/// Kernels that depend on different things are hashed from different bytes, where the
/// files of extra directories have the same names.
pub proof fn lemma_kernels_told_apart(a: KernelInputs, b: KernelInputs)
    requires
        a.fits(),
        b.fits(),
        kernel_material(a) == kernel_material(b),
    ensures
        a.source == b.source,
        a.target == b.target,
        a.defines == b.defines,
        a.level == b.level,
        a.trisc == b.trisc,
        a.relocate == b.relocate,
        a.headers == b.headers,
        a.extra.len() == b.extra.len(),
        names(a.extra) == names(b.extra) ==> a == b,
{
    let tag = part("kern-v3"@);
    let (ea, eb) = (block(a.firmware), block(b.firmware));
    let (na, nb) = (counted(file_parts(a.extra)), counted(file_parts(b.extra)));
    let (ha, hb) = (counted(header_parts(a.headers)), counted(header_parts(b.headers)));
    let ga = seq![flag_byte(a.trisc), flag_byte(a.relocate)];
    let gb = seq![flag_byte(b.trisc), flag_byte(b.relocate)];
    let (la, lb) = (part(a.level), part(b.level));
    let (da, db) = (counted(text_parts(a.defines)), counted(text_parts(b.defines)));
    let (ta, tb) = (part(a.target), part(b.target));
    let (sa, sb) = (part(a.source), part(b.source));
    lemma_nested(tag, sa, ta, da, la, ga, ha, na, ea);
    lemma_nested(tag, sb, tb, db, lb, gb, hb, nb, eb);
    let (ra, rb) = (na + ea, nb + eb);
    let (qa, qb) = (ha + ra, hb + rb);
    let (pa, pb) = (ga + qa, gb + qb);
    let (oa, ob) = (la + pa, lb + pb);
    let (ma, mb) = (da + oa, db + ob);
    let (ka, kb) = (ta + ma, tb + mb);
    lemma_split(tag, sa + ka, tag, sb + kb);
    lemma_part_delimited(a.source, b.source);
    assert(sa + ka == sb + kb);
    lemma_part_delimited(a.target, b.target);
    assert(ta + ma == tb + mb);
    lemma_texts_apart(a.defines, oa, b.defines, ob);
    lemma_part_delimited(a.level, b.level);
    assert(la + pa == lb + pb);
    lemma_split(ga, qa, gb, qb);
    assert(ga[0] == gb[0] && ga[1] == gb[1]);
    lemma_headers_apart(a.headers, ra, b.headers, rb);
    lemma_counted_length(file_parts(a.extra), ea, file_parts(b.extra), eb);
    if names(a.extra) == names(b.extra) {
        lemma_files_apart(a.extra, ea, b.extra, eb);
        lemma_block_delimited(a.firmware, b.firmware);
    }
}

proof fn lemma_nested(
    a: Seq<u8>,
    b: Seq<u8>,
    c: Seq<u8>,
    d: Seq<u8>,
    e: Seq<u8>,
    f: Seq<u8>,
    g: Seq<u8>,
    h: Seq<u8>,
    i: Seq<u8>,
)
    ensures
        a + b + c + d + e + f + g + h + i == a + (b + (c + (d + (e + (f + (g + (h + i))))))),
{
    assert(a + b + c + d + e + f + g + h + i =~= a + (b + (c + (d + (e + (f + (g + (h + i))))))));
}

impl FirmwareInputs {
    /// Whether all numbers and lengths are words of 64 bits.
    pub open spec fn fits(self) -> bool {
        &&& 0 <= self.num_dram_banks <= u64::MAX
        &&& 0 <= self.num_l1_banks <= u64::MAX
        &&& sizes_fit(self.sources)
    }
}

/// Firmware that depends on different things is hashed from different bytes.
pub proof fn lemma_firmware_told_apart(a: FirmwareInputs, b: FirmwareInputs)
    requires
        a.fits(),
        b.fits(),
        firmware_material(a) == firmware_material(b),
    ensures
        a == b,
{
    let tag = part("fw-v3"@);
    let (pa, pb) = (seq![flag_byte(a.profile)], seq![flag_byte(b.profile)]);
    let (da, db) = (word(a.num_dram_banks), word(b.num_dram_banks));
    let (la, lb) = (word(a.num_l1_banks), word(b.num_l1_banks));
    let ca = seq![
        a.prefetch_core.0,
        a.prefetch_core.1,
        a.dispatch_core.0,
        a.dispatch_core.1,
    ];
    let cb = seq![
        b.prefetch_core.0,
        b.prefetch_core.1,
        b.dispatch_core.0,
        b.dispatch_core.1,
    ];
    let (na, nb) = (text_parts(names(a.sources)), text_parts(names(b.sources)));
    let sa = joined(source_parts(a.sources), a.sources.len() as int);
    let sb = joined(source_parts(b.sources), b.sources.len() as int);
    let (ra, rb) = (counted(na) + sa, counted(nb) + sb);
    lemma_seven(tag, pa, da, la, ca, counted(na), sa);
    lemma_seven(tag, pb, db, lb, cb, counted(nb), sb);
    lemma_split(tag, pa + (da + (la + (ca + ra))), tag, pb + (db + (lb + (cb + rb))));
    lemma_split(pa, da + (la + (ca + ra)), pb, db + (lb + (cb + rb)));
    assert(pa[0] == pb[0]);
    lemma_word_delimited(a.num_dram_banks, b.num_dram_banks);
    assert(da + (la + (ca + ra)) == db + (lb + (cb + rb)));
    lemma_word_delimited(a.num_l1_banks, b.num_l1_banks);
    assert(la + (ca + ra) == lb + (cb + rb));
    lemma_split(ca, ra, cb, rb);
    assert(ca[0] == cb[0] && ca[1] == cb[1] && ca[2] == cb[2] && ca[3] == cb[3]);
    assert(names(a.sources).len() == a.sources.len());
    assert(names(b.sources).len() == b.sources.len());
    lemma_texts_apart(names(a.sources), sa, names(b.sources), sb);
    assert(sa =~= sa + Seq::empty());
    assert(sb =~= sb + Seq::empty());
    lemma_sources_apart(a.sources, Seq::empty(), b.sources, Seq::empty());
}

proof fn lemma_seven(
    a: Seq<u8>,
    b: Seq<u8>,
    c: Seq<u8>,
    d: Seq<u8>,
    e: Seq<u8>,
    f: Seq<u8>,
    g: Seq<u8>,
)
    ensures
        a + b + c + d + e + f + g == a + (b + (c + (d + (e + (f + g))))),
{
    assert(a + b + c + d + e + f + g =~= a + (b + (c + (d + (e + (f + g))))));
}

} // verus!
