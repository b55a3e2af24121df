//! The layout of object files.

use vstd::prelude::*;
use crate::bytes;
use crate::compiler::elf;
use crate::compiler::xip;
use crate::compiler::xip::{Relocation, SectionHeader, SectionTable};
use crate::dispatch::decode;

verus! {

/// The header of a file. What it holds of the machine and of flags does not matter here.
pub struct FileHeader {
    pub front: Seq<u8>,
    pub entry: u32,
    pub segments: u32,
    pub sections: u32,
    pub flags: u32,
    pub size: u16,
    pub segment_size: u16,
    pub segment_count: u16,
    pub section_size: u16,
    pub section_count: u16,
    pub names: u16,
}

impl FileHeader {
    /// The bytes of the header, in the order of the format: sixteen bytes that identify the
    /// file, its kind, machine and version in eight bytes, and then the fields.
    pub open spec fn encoded(self) -> Seq<u8> {
        self.front + bytes::le4(self.entry as int) + bytes::le4(self.segments as int) + bytes::le4(
            self.sections as int,
        ) + bytes::le4(self.flags as int) + bytes::le2(self.size as int) + bytes::le2(
            self.segment_size as int,
        ) + bytes::le2(self.segment_count as int) + bytes::le2(self.section_size as int)
            + bytes::le2(self.section_count as int) + bytes::le2(self.names as int)
    }
}

/// The segments and sections of a file are looked for where its header says, and as many as it
/// says.
pub proof fn lemma_file_header(data: Seq<u8>, h: FileHeader, i: int)
    requires
        h.front.len() == 24,
        decode::bytes_at(data, 0, h.encoded()),
    ensures
        elf::segment_count(data) == h.segment_count,
        elf::segment_offset(data, i) == h.segments + i * h.segment_size,
        xip::section_table(data) == (SectionTable {
            offset: h.sections,
            entry_size: h.section_size,
            count: h.section_count,
        }),
{
    let s = h.encoded();
    let (a, b) = (bytes::le4(h.segments as int), bytes::le4(h.sections as int));
    let (c, d) = (bytes::le2(h.segment_size as int), bytes::le2(h.segment_count as int));
    let (e, f) = (bytes::le2(h.section_size as int), bytes::le2(h.section_count as int));
    bytes::lemma_u32_at_le4(h.segments);
    bytes::lemma_u32_at_le4(h.sections);
    bytes::lemma_u16_at_le2(h.segment_size);
    bytes::lemma_u16_at_le2(h.segment_count);
    bytes::lemma_u16_at_le2(h.section_size);
    bytes::lemma_u16_at_le2(h.section_count);
    assert(s.len() == 52);
    assert(forall|j: int| 0 <= j < 52 ==> data[0 + j] == #[trigger] s[j]);
    assert(s[28] == a[0] && s[29] == a[1] && s[30] == a[2] && s[31] == a[3]);
    assert(s[32] == b[0] && s[33] == b[1] && s[34] == b[2] && s[35] == b[3]);
    assert(s[42] == c[0] && s[43] == c[1] && s[44] == d[0] && s[45] == d[1]);
    assert(s[46] == e[0] && s[47] == e[1] && s[48] == f[0] && s[49] == f[1]);
    assert(data[28] == s[28] && data[29] == s[29] && data[30] == s[30] && data[31] == s[31]);
    assert(data[32] == s[32] && data[33] == s[33] && data[34] == s[34] && data[35] == s[35]);
}

/// A segment is read as its header describes it: in the order of the format, its kind, where
/// its bytes stand in the file, its virtual and physical addresses, its sizes in the file and in
/// memory, and its flags. It is loaded at its physical address, or its virtual one where that
/// is zero.
pub proof fn lemma_segment_header(
    data: Seq<u8>,
    i: int,
    kind: u32,
    offset: u32,
    virt: u32,
    phys: u32,
    file_size: u32,
    memory_size: u32,
    flags: u32,
    alignment: u32,
)
    requires
        decode::words_at(
            data,
            elf::segment_offset(data, i),
            seq![kind, offset, virt, phys, file_size, memory_size, flags, alignment],
        ),
        offset + file_size <= data.len(),
    ensures
        elf::is_load(data, i) <==> kind == 1,
        ({
            let s = elf::segment(data, i);
            &&& s.paddr == if phys == 0 {
                virt
            } else {
                phys
            }
            &&& s.data.len() == file_size
            &&& decode::bytes_at(data, offset as int, s.data)
            &&& s.memsz == memory_size
            &&& s.flags == flags
            &&& elf::holds_code(s) <==> flags % 2 == 1 && file_size > 0
        }),
{
    let words = seq![kind, offset, virt, phys, file_size, memory_size, flags, alignment];
    assert(words[0] == kind && words[1] == offset && words[2] == virt && words[3] == phys
        && words[4] == file_size && words[5] == memory_size && words[6] == flags);
}

/// A section is read as its header describes it, in the order of the format.
pub proof fn lemma_section_header(
    data: Seq<u8>,
    t: SectionTable,
    i: int,
    name: u32,
    h: SectionHeader,
    alignment: u32,
)
    requires
        0 <= i,
        decode::words_at(
            data,
            t.offset + i * t.entry_size,
            seq![
                name,
                h.sh_type,
                h.sh_flags,
                h.sh_addr,
                h.sh_offset,
                h.sh_size,
                h.sh_link,
                h.sh_info,
                alignment,
                h.sh_entsize,
            ],
        ),
    ensures
        xip::section(data, t, i) == Some(h),
{
    let words = seq![
        name,
        h.sh_type,
        h.sh_flags,
        h.sh_addr,
        h.sh_offset,
        h.sh_size,
        h.sh_link,
        h.sh_info,
        alignment,
        h.sh_entsize,
    ];
    assert(words[1] == h.sh_type && words[2] == h.sh_flags && words[3] == h.sh_addr && words[4]
        == h.sh_offset && words[5] == h.sh_size && words[6] == h.sh_link && words[7] == h.sh_info
        && words[9] == h.sh_entsize);
}

/// A symbol has the value that stands behind its name.
pub proof fn lemma_symbol(
    data: Seq<u8>,
    t: SectionTable,
    table: int,
    h: SectionHeader,
    i: int,
    name: u32,
    value: u32,
)
    requires
        xip::section(data, t, table) == Some(h),
        decode::words_at(data, h.sh_offset + i * h.sh_entsize, seq![name, value]),
    ensures
        xip::symbol_value(data, t, table, i) == Some(value as int),
{
    let words = seq![name, value];
    assert(words[0] == name && words[1] == value);
}

/// A relocation says where it is applied, to which symbol, how, and what is added.
pub proof fn lemma_relocation(data: Seq<u8>, rel: SectionHeader, i: int, r: Relocation)
    requires
        r.kind < 256,
        r.symbol < 0x100_0000,
        decode::words_at(
            data,
            rel.sh_offset + i * rel.sh_entsize,
            seq![r.offset, (r.symbol * 256 + r.kind) as u32, r.addend],
        ),
    ensures
        xip::relocation(data, rel, i) == r,
{
    let words = seq![r.offset, (r.symbol * 256 + r.kind) as u32, r.addend];
    assert(words[0] == r.offset && words[1] == r.symbol * 256 + r.kind && words[2] == r.addend);
}

/// The relocation of upper bits that goes with one of lower bits is one of the same symbol: the
/// last that stands before it, or the first of all where none does. There is one wherever the
/// symbol has any.
pub proof fn lemma_partner(list: Seq<Relocation>, lo: Relocation)
    ensures
        match xip::partner(list, lo) {
            Some(hi) => {
                &&& list.contains(hi)
                &&& hi.symbol == lo.symbol
                &&& forall|i: int|
                    0 <= i < list.len() && (#[trigger] list[i]).symbol == lo.symbol
                        && list[i].offset < lo.offset ==> list[i].offset <= hi.offset < lo.offset
                &&& hi.offset >= lo.offset ==> forall|i: int|
                    0 <= i < list.len() && (#[trigger] list[i]).symbol == lo.symbol ==> list[i].offset
                        >= hi.offset
            },
            None => forall|i: int|
                0 <= i < list.len() ==> (#[trigger] list[i]).symbol != lo.symbol,
        },
{
    let n = list.len() as int;
    lemma_closest(list, lo, n);
    lemma_lowest(list, lo.symbol, n);
}

proof fn lemma_closest(list: Seq<Relocation>, lo: Relocation, n: int)
    requires
        0 <= n <= list.len(),
    ensures
        match xip::closest_before(list, lo, n) {
            Some(hi) => {
                &&& list.contains(hi)
                &&& hi.symbol == lo.symbol
                &&& hi.offset < lo.offset
                &&& forall|i: int|
                    0 <= i < n && (#[trigger] list[i]).symbol == lo.symbol && list[i].offset
                        < lo.offset ==> list[i].offset <= hi.offset
            },
            None => forall|i: int|
                0 <= i < n ==> (#[trigger] list[i]).symbol != lo.symbol || list[i].offset
                    >= lo.offset,
        },
    decreases n,
{
    if n > 0 {
        lemma_closest(list, lo, n - 1);
        assert(list.contains(list[n - 1]));
    }
}

proof fn lemma_lowest(list: Seq<Relocation>, symbol: u32, n: int)
    requires
        0 <= n <= list.len(),
    ensures
        match xip::lowest(list, symbol, n) {
            Some(hi) => {
                &&& list.contains(hi)
                &&& hi.symbol == symbol
                &&& forall|i: int|
                    0 <= i < n && (#[trigger] list[i]).symbol == symbol ==> list[i].offset
                        >= hi.offset
            },
            None => forall|i: int| 0 <= i < n ==> (#[trigger] list[i]).symbol != symbol,
        },
    decreases n,
{
    if n > 0 {
        lemma_lowest(list, symbol, n - 1);
        assert(list.contains(list[n - 1]));
    }
}

proof fn lemma_upper_kept(insn: int, d: int)
    requires
        0 <= insn <= u32::MAX,
        0 <= d <= u32::MAX,
    ensures
        ({
            let hi = xip::upper_insn(insn, d);
            &&& 0 <= hi <= u32::MAX
            &&& hi % 0x80 == 0x17
            &&& hi / 0x80 % 32 == insn / 0x80 % 32
        }),
{
    let up = (d + 0x800) % 0x1_0000_0000 / 0x1000;
    let reg = insn / 0x80 % 32;
    let hi = up * 0x1000 + reg * 0x80 + 0x17;
    assert(hi == xip::upper_insn(insn, d));
    assert(0 <= up < 0x10_0000);
    assert(hi / 0x80 == up * 32 + reg);
}

proof fn lemma_load_kept(insn: int, low: int)
    requires
        0 <= insn <= u32::MAX,
        0 <= low < 0x1000,
    ensures
        ({
            let lo = insn % 0x10_0000 + low * 0x10_0000;
            &&& 0 <= lo <= u32::MAX
            &&& lo % 0x80 == insn % 0x80
            &&& lo / 0x80 % 32 == insn / 0x80 % 32
            &&& lo / 0x1000 % 0x100 == insn / 0x1000 % 0x100
        }),
{
    let o = insn % 0x80;
    let x = insn / 0x80;
    let r = x % 32;
    let y = x / 32;
    let m = y % 0x100;
    let q = y / 0x100;
    assert(insn == x * 0x80 + o && x == y * 32 + r && y == q * 0x100 + m);
    lemma_load_parts(q, m, r, o);
    lemma_load_parts(low, m, r, o);
    let part = (m * 32 + r) * 0x80 + o;
    assert(insn == q * 0x10_0000 + part);
    assert(insn % 0x10_0000 == part);
}

proof fn lemma_load_parts(q: int, m: int, r: int, o: int)
    requires
        0 <= q < 0x1000,
        0 <= m < 0x100,
        0 <= r < 32,
        0 <= o < 0x80,
    ensures
        ({
            let v = q * 0x10_0000 + (m * 32 + r) * 0x80 + o;
            &&& 0 <= v <= u32::MAX
            &&& v % 0x80 == o
            &&& v / 0x80 % 32 == r
            &&& v / 0x1000 % 0x100 == m
        }),
{
    let v = q * 0x10_0000 + (m * 32 + r) * 0x80 + o;
    assert(v / 0x80 == q * 0x2000 + m * 32 + r);
    assert(v / 0x1000 == q * 0x100 + m);
}

proof fn lemma_store_kept(insn: int, low: int)
    requires
        0 <= insn <= u32::MAX,
        0 <= low < 0x1000,
    ensures
        ({
            let lo = insn % 0x80 + low % 32 * 0x80 + insn / 0x1000 % 0x2000 * 0x1000 + low / 32
                * 0x200_0000;
            &&& 0 <= lo <= u32::MAX
            &&& lo % 0x80 == insn % 0x80
            &&& lo / 0x1000 % 0x100 == insn / 0x1000 % 0x100
            &&& lo / 0x10_0000 % 32 == insn / 0x10_0000 % 32
        }),
{
    let c = insn / 0x1000 % 0x2000;
    lemma_store_parts(insn % 0x80, low % 32, c, low / 32);
    assert(c % 0x100 == insn / 0x1000 % 0x100);
    assert(c / 0x100 == insn / 0x10_0000 % 32);
}

proof fn lemma_store_parts(a: int, b: int, c: int, e: int)
    requires
        0 <= a < 0x80,
        0 <= b < 32,
        0 <= c < 0x2000,
        0 <= e < 0x80,
    ensures
        ({
            let lo = a + b * 0x80 + c * 0x1000 + e * 0x200_0000;
            &&& 0 <= lo <= u32::MAX
            &&& lo % 0x80 == a
            &&& lo / 0x1000 % 0x100 == c % 0x100
            &&& lo / 0x10_0000 % 32 == c / 0x100
        }),
{
    let lo = a + b * 0x80 + c * 0x1000 + e * 0x200_0000;
    assert(lo / 0x1000 == c + e * 0x2000);
    assert((c + e * 0x2000) % 0x100 == c % 0x100);
    assert(lo / 0x10_0000 == c / 0x100 + e * 32);
}

/// Relocating an instruction changes nothing but the number in it: the one that takes upper bits
/// writes to the same register and adds to its own address; the one that takes lower bits does
/// what it did, with the same registers.
pub proof fn lemma_instruction_kept(insn: int, d: int, kind: u32)
    requires
        0 <= insn <= u32::MAX,
        0 <= d <= u32::MAX,
    ensures
        ({
            let hi = xip::upper_insn(insn, d);
            let lo = xip::lower_insn(insn, d, kind);
            &&& 0 <= hi <= u32::MAX
            &&& 0 <= lo <= u32::MAX
            &&& hi % 0x80 == 0x17
            &&& hi / 0x80 % 32 == insn / 0x80 % 32
            &&& lo % 0x80 == insn % 0x80
            &&& lo / 0x1000 % 0x100 == insn / 0x1000 % 0x100
            &&& kind == xip::R_RISCV_LO12_I ==> lo / 0x80 % 32 == insn / 0x80 % 32
            &&& kind != xip::R_RISCV_LO12_I ==> lo / 0x10_0000 % 32 == insn / 0x10_0000 % 32
        }),
{
    lemma_upper_kept(insn, d);
    if kind == xip::R_RISCV_LO12_I {
        lemma_load_kept(insn, d % 0x1000);
    } else {
        lemma_store_kept(insn, d % 0x1000);
    }
}

} // verus!
